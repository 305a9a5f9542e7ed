//! Character sequences: the mathematical vocabulary for text, and verified
//! executable counterparts on `&str`.

use vstd::prelude::*;

verus! {

/// `pattern` stands in `text` at position `at`.
pub open spec fn occurs_at(text: Seq<char>, pattern: Seq<char>, at: int) -> bool {
    &&& 0 <= at
    &&& at + pattern.len() <= text.len()
    &&& text.subrange(at, at + pattern.len()) == pattern
}

/// `text` begins with `pattern`.
pub open spec fn is_prefix(text: Seq<char>, pattern: Seq<char>) -> bool {
    occurs_at(text, pattern, 0)
}

/// `text` ends with `pattern`.
pub open spec fn is_suffix(text: Seq<char>, pattern: Seq<char>) -> bool {
    occurs_at(text, pattern, text.len() - pattern.len())
}

/// `pattern` stands somewhere in `text`.
pub open spec fn is_infix(text: Seq<char>, pattern: Seq<char>) -> bool {
    exists|at: int| #[trigger] occurs_at(text, pattern, at)
}

/// The characters of `text`, in order.
pub fn chars_of(text: &str) -> (out: Vec<char>)
    ensures
        out@ == text@,
{
    let mut out: Vec<char> = Vec::new();
    for c in it: text.chars()
        invariant
            out@ == it.seq().take(it.index() as int),
            it.seq() == text@,
    {
        out.push(c);
    }
    out
}

/// Whether `pattern` stands in `text` at position `at`.
pub fn chars_occur_at(text: &Vec<char>, pattern: &Vec<char>, at: usize) -> (found: bool)
    ensures
        found == occurs_at(text@, pattern@, at as int),
{
    if at > text.len() || pattern.len() > text.len() - at {
        return false;
    }
    let mut i: usize = 0;
    while i < pattern.len()
        invariant
            i <= pattern.len(),
            at + pattern.len() <= text.len(),
            forall|k: int| 0 <= k < i ==> text@[at + k] == pattern@[k],
        decreases pattern.len() - i,
    {
        if text[at + i] != pattern[i] {
            assert(text@.subrange(at as int, at + pattern.len())[i as int] != pattern@[i as int]);
            return false;
        }
        i += 1;
    }
    assert(text@.subrange(at as int, at + pattern.len()) =~= pattern@);
    true
}

/// Whether `text` and `other` hold the same characters.
pub fn same_text(text: &str, other: &str) -> (same: bool)
    ensures
        same == (text@ == other@),
{
    let a = chars_of(text);
    let b = chars_of(other);
    if a.len() != b.len() {
        return false;
    }
    let found = chars_occur_at(&a, &b, 0);
    assert(a@.subrange(0, a.len() as int) =~= a@);
    found
}

/// Whether `text` begins with `pattern`.
pub fn starts_with(text: &str, pattern: &str) -> (found: bool)
    ensures
        found == is_prefix(text@, pattern@),
{
    let a = chars_of(text);
    let b = chars_of(pattern);
    if b.len() > a.len() {
        return false;
    }
    chars_occur_at(&a, &b, 0)
}

/// Whether `text` ends with `pattern`.
pub fn ends_with(text: &str, pattern: &str) -> (found: bool)
    ensures
        found == is_suffix(text@, pattern@),
{
    let a = chars_of(text);
    let b = chars_of(pattern);
    if b.len() > a.len() {
        return false;
    }
    chars_occur_at(&a, &b, a.len() - b.len())
}

/// Whether `pattern` stands somewhere in `text`.
pub fn contains(text: &str, pattern: &str) -> (found: bool)
    ensures
        found == is_infix(text@, pattern@),
{
    let a = chars_of(text);
    let b = chars_of(pattern);
    if b.len() > a.len() {
        return false;
    }
    let last: usize = a.len() - b.len();
    let mut at: usize = 0;
    loop
        invariant
            a@ == text@,
            b@ == pattern@,
            at <= last,
            last + b.len() == a.len(),
            forall|k: int| 0 <= k < at ==> !#[trigger] occurs_at(a@, b@, k),
        decreases last - at,
    {
        if chars_occur_at(&a, &b, at) {
            return true;
        }
        if at == last {
            return false;
        }
        at += 1;
    }
}

/// Where two texts stand in `text` at `from`, one behind the other, each of
/// them stands there.
pub proof fn lemma_split_text(text: Seq<char>, from: int, front: Seq<char>, back: Seq<char>)
    requires
        0 <= from,
        from + front.len() + back.len() <= text.len(),
        text.subrange(from, from + front.len() + back.len()) == front + back,
    ensures
        text.subrange(from, from + front.len()) == front,
        text.subrange(from + front.len(), from + front.len() + back.len()) == back,
{
    let whole = text.subrange(from, from + front.len() + back.len());
    assert forall|k: int| 0 <= k < front.len() implies text[from + k] == front[k] by {
        assert(whole[k] == front[k]);
    }
    assert forall|k: int| 0 <= k < back.len() implies text[from + front.len() + k]
        == back[k] by {
        assert(whole[front.len() + k] == back[k]);
    }
    assert(text.subrange(from, from + front.len()) =~= front);
    assert(text.subrange(from + front.len(), from + front.len() + back.len()) =~= back);
}

/// Where `front` stands in `text` at `from` and `back` stands behind it, the
/// two stand there as one text.
pub proof fn lemma_join_text(text: Seq<char>, from: int, front: Seq<char>, back: Seq<char>)
    requires
        0 <= from,
        from + front.len() + back.len() <= text.len(),
        text.subrange(from, from + front.len()) == front,
        text.subrange(from + front.len(), from + front.len() + back.len()) == back,
    ensures
        text.subrange(from, from + front.len() + back.len()) == front + back,
{
    let whole = text.subrange(from, from + front.len() + back.len());
    assert forall|k: int| 0 <= k < whole.len() implies whole[k] == (front + back)[k] by {
        if k < front.len() {
            assert(text.subrange(from, from + front.len())[k] == front[k]);
        } else {
            assert(text.subrange(from + front.len(), from + front.len() + back.len())[k
                - front.len()] == back[k - front.len()]);
        }
    }
    assert(whole =~= front + back);
}

} // verus!

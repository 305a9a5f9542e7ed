//! IPv4 addresses as text: how an address is written in dotted decimal
//! notation, and how it is read.

use vstd::prelude::*;
use vstd::string::StringExecFns;
use crate::address::Ipv4Address;
use crate::numeral::{
    append_decimal, decimal_text, digit_value, digits_end, lemma_decimal_digits_are_numeral,
    lemma_digits_end_is_within, lemma_number_at_numeral, lemma_numeral_text_len, number_at,
    read_number,
};
use crate::text::{chars_of, lemma_split_text};

verus! {

/// Four octets in dotted decimal notation.
pub open spec fn dotted_text(first: u8, second: u8, third: u8, fourth: u8) -> Seq<char> {
    decimal_text(first as nat) + seq!['.'] + decimal_text(second as nat) + seq!['.']
        + decimal_text(third as nat) + seq!['.'] + decimal_text(fourth as nat)
}

/// The address of the octets `octets` as text: in dotted decimal notation.
pub open spec fn ipv4_text(octets: Seq<u8>) -> Seq<char> {
    dotted_text(octets[0], octets[1], octets[2], octets[3])
}

/// The octet written in `text` at `from`, and where it ends: a decimal number
/// of three digits at most, without zeros before it, which is 255 at most.
pub open spec fn octet_at(text: Seq<char>, from: int) -> Option<(u8, int)> {
    match number_at(text, from, false, 3, false) {
        Some((value, end)) => if value <= 255 {
            Some((value as u8, end))
        } else {
            None
        },
        None => None,
    }
}

/// Reading on from `read`, which holds the octets read so far and where they
/// end: the next octet, after a dot unless it is the first.
pub open spec fn with_next_octet(text: Seq<char>, read: Option<(Seq<u8>, int)>) -> Option<
    (Seq<u8>, int),
> {
    match read {
        None => None,
        Some((octets, end)) => {
            if octets.len() > 0 && !(0 <= end < text.len() && text[end] == '.') {
                None
            } else {
                let from = if octets.len() > 0 {
                    end + 1
                } else {
                    end
                };
                match octet_at(text, from) {
                    Some((octet, end)) => Some((octets.push(octet), end)),
                    None => None,
                }
            }
        },
    }
}

/// The four octets written in `text` at `from` in dotted decimal notation,
/// and where they end.
pub open spec fn dotted_at(text: Seq<char>, from: int) -> Option<(Seq<u8>, int)> {
    with_next_octet(
        text,
        with_next_octet(
            text,
            with_next_octet(text, with_next_octet(text, Some((Seq::empty(), from)))),
        ),
    )
}

impl Ipv4Address {
    /// The octets of the address that `text` is, if it is one: four decimal
    /// numbers up to 255 with dots between them, none with zeros before it,
    /// and nothing else.
    pub open spec fn parsed(text: Seq<char>) -> Option<Seq<u8>> {
        match dotted_at(text, 0) {
            Some((octets, end)) => if end == text.len() {
                Some(octets)
            } else {
                None
            },
            None => None,
        }
    }

    /// Reads the address that `text` is, if it is one.
    pub fn parse(text: &str) -> (address: Option<Ipv4Address>)
        ensures
            match address {
                Some(address) => Ipv4Address::parsed(text@) == Some(address@),
                None => Ipv4Address::parsed(text@) is None,
            },
    {
        let chars = chars_of(text);
        match read_dotted(&chars, 0) {
            Some((octets, end)) => if end == chars.len() {
                Some(Ipv4Address { octets })
            } else {
                None
            },
            None => None,
        }
    }

    /// Appends the address to `out` in dotted decimal notation.
    pub fn append_to(&self, out: &mut String)
        ensures
            final(out)@ == old(out)@ + ipv4_text(self@),
    {
        proof {
            reveal_strlit(".");
        }
        append_decimal(out, self.octets[0] as u16);
        out.append(".");
        append_decimal(out, self.octets[1] as u16);
        out.append(".");
        append_decimal(out, self.octets[2] as u16);
        out.append(".");
        append_decimal(out, self.octets[3] as u16);
        assert(out@ =~= old(out)@ + ipv4_text(self@));
    }
}

/// Reads the four octets written in `text` at `from` in dotted decimal
/// notation, and says where they end.
pub fn read_dotted(text: &Vec<char>, from: usize) -> (dotted: Option<([u8; 4], usize)>)
    requires
        from <= text.len(),
    ensures
        match dotted {
            Some((octets, end)) => dotted_at(text@, from as int) == Some((octets@, end as int))
                && from < end <= text.len(),
            None => dotted_at(text@, from as int) is None,
        },
{
    let mut octets: [u8; 4] = [0, 0, 0, 0];
    let mut at: usize = from;
    let ghost mut read: Option<(Seq<u8>, int)> = Some((Seq::empty(), from as int));
    let mut i: usize = 0;
    while i < 4
        invariant
            i <= 4,
            from <= at <= text.len(),
            i > 0 ==> from < at,
            read == Some((octets@.take(i as int), at as int)),
            i == 0 ==> dotted_at(text@, from as int) == with_next_octet(
                text@,
                with_next_octet(text@, with_next_octet(text@, with_next_octet(text@, read))),
            ),
            i == 1 ==> dotted_at(text@, from as int) == with_next_octet(
                text@,
                with_next_octet(text@, with_next_octet(text@, read)),
            ),
            i == 2 ==> dotted_at(text@, from as int) == with_next_octet(
                text@,
                with_next_octet(text@, read),
            ),
            i == 3 ==> dotted_at(text@, from as int) == with_next_octet(text@, read),
            i == 4 ==> dotted_at(text@, from as int) == read,
        decreases 4 - i,
    {
        if i > 0 {
            if at >= text.len() || text[at] != '.' {
                return None;
            }
            at += 1;
        }
        match read_number(text, at, false, 3, false) {
            None => {
                return None;
            },
            Some((value, end)) => {
                if value > 255 {
                    return None;
                }
                octets[i] = value as u8;
                at = end;
                proof {
                    let before = read.unwrap().0;
                    assert(octets@.take(i + 1) =~= before.push(value as u8));
                    read = Some((octets@.take(i + 1), at as int));
                }
            },
        }
        i += 1;
    }
    assert(octets@.take(4) =~= octets@);
    Some((octets, at))
}

/// Where the numeral of an octet stands in a text and no digit follows it,
/// the octet written there is that octet.
proof fn lemma_octet_at_numeral(text: Seq<char>, from: int, octet: u8)
    requires
        0 <= from,
        from + decimal_text(octet as nat).len() <= text.len(),
        text.subrange(from, from + decimal_text(octet as nat).len()) == decimal_text(octet as nat),
        from + decimal_text(octet as nat).len() == text.len() || digit_value(
            text[from + decimal_text(octet as nat).len()],
            false,
        ) is None,
    ensures
        octet_at(text, from) == Some((octet, from + decimal_text(octet as nat).len())),
{
    lemma_numeral_text_len(octet as nat, false);
    lemma_number_at_numeral(text, from, octet as nat, false, 3, false);
}

/// An octet is written by its numeral and by nothing else.
proof fn lemma_octet_at_is_numeral(text: Seq<char>, from: int)
    requires
        0 <= from <= text.len(),
        octet_at(text, from) is Some,
    ensures
        from < octet_at(text, from).unwrap().1 <= text.len(),
        text.subrange(from, octet_at(text, from).unwrap().1) == decimal_text(
            octet_at(text, from).unwrap().0 as nat,
        ),
{
    let end = digits_end(text, from, false);
    let digits = text.subrange(from, end);
    lemma_digits_end_is_within(text, from, false);
    assert forall|k: int| 0 <= k < digits.len() implies digit_value(
        #[trigger] digits[k],
        false,
    ) is Some by {
        assert(digits[k] == text[from + k]);
    }
    lemma_decimal_digits_are_numeral(digits);
}

/// Where four octets stand in a text in dotted decimal notation and no digit
/// follows them, the octets written there are those four.
pub proof fn lemma_dotted_at_text(
    text: Seq<char>,
    from: int,
    first: u8,
    second: u8,
    third: u8,
    fourth: u8,
)
    requires
        0 <= from,
        from + dotted_text(first, second, third, fourth).len() <= text.len(),
        text.subrange(from, from + dotted_text(first, second, third, fourth).len())
            == dotted_text(first, second, third, fourth),
        from + dotted_text(first, second, third, fourth).len() == text.len() || digit_value(
            text[from + dotted_text(first, second, third, fourth).len()],
            false,
        ) is None,
    ensures
        dotted_at(text, from) == Some(
            (
                seq![first, second, third, fourth],
                from + dotted_text(first, second, third, fourth).len(),
            ),
        ),
{
    let dot = seq!['.'];
    let a = decimal_text(first as nat);
    let b = decimal_text(second as nat);
    let c = decimal_text(third as nat);
    let d = decimal_text(fourth as nat);
    let at_b = from + a.len() + 1;
    let at_c = at_b + b.len() + 1;
    let at_d = at_c + c.len() + 1;
    lemma_split_text(text, from, a + dot + b + dot + c + dot, d);
    lemma_split_text(text, from, a + dot + b + dot + c, dot);
    lemma_split_text(text, from, a + dot + b + dot, c);
    lemma_split_text(text, from, a + dot + b, dot);
    lemma_split_text(text, from, a + dot, b);
    lemma_split_text(text, from, a, dot);
    assert(text[from + a.len()] == text.subrange(from + a.len(), from + a.len() + 1)[0]);
    assert(text[at_b + b.len()] == text.subrange(at_b + b.len(), at_b + b.len() + 1)[0]);
    assert(text[at_c + c.len()] == text.subrange(at_c + c.len(), at_c + c.len() + 1)[0]);
    lemma_octet_at_numeral(text, from, first);
    lemma_octet_at_numeral(text, at_b, second);
    lemma_octet_at_numeral(text, at_c, third);
    lemma_octet_at_numeral(text, at_d, fourth);
    let one = with_next_octet(text, Some((Seq::<u8>::empty(), from)));
    assert(one == Some((Seq::<u8>::empty().push(first), from + a.len())));
    let two = with_next_octet(text, one);
    assert(two == Some((Seq::<u8>::empty().push(first).push(second), at_b + b.len())));
    let three = with_next_octet(text, two);
    assert(three == Some(
        (Seq::<u8>::empty().push(first).push(second).push(third), at_c + c.len()),
    ));
    assert(Seq::<u8>::empty().push(first).push(second).push(third).push(fourth)
        =~= seq![first, second, third, fourth]);
}

/// Four octets are written in dotted decimal notation by their numerals with
/// dots between them, and by nothing else.
pub proof fn lemma_dotted_at_is_text(text: Seq<char>, from: int)
    requires
        0 <= from <= text.len(),
        dotted_at(text, from) is Some,
    ensures
        dotted_at(text, from).unwrap().0.len() == 4,
        from < dotted_at(text, from).unwrap().1 <= text.len(),
        text.subrange(from, dotted_at(text, from).unwrap().1) == ipv4_text(
            dotted_at(text, from).unwrap().0,
        ),
{
    let one = with_next_octet(text, Some((Seq::<u8>::empty(), from)));
    let two = with_next_octet(text, one);
    let three = with_next_octet(text, two);
    let four = with_next_octet(text, three);
    assert(four == dotted_at(text, from));
    assert(three is Some && two is Some && one is Some);
    let (octets_a, end_a) = one.unwrap();
    let (octets_b, end_b) = two.unwrap();
    let (octets_c, end_c) = three.unwrap();
    let (octets_d, end_d) = four.unwrap();
    lemma_octet_at_is_numeral(text, from);
    lemma_octet_at_is_numeral(text, end_a + 1);
    lemma_octet_at_is_numeral(text, end_b + 1);
    lemma_octet_at_is_numeral(text, end_c + 1);
    let a = text.subrange(from, end_a);
    let b = text.subrange(end_a + 1, end_b);
    let c = text.subrange(end_b + 1, end_c);
    let d = text.subrange(end_c + 1, end_d);
    assert(text.subrange(from, end_d) =~= a + seq!['.'] + b + seq!['.'] + c + seq!['.'] + d);
}

impl Ipv4Address {
    /// The text of an address is read back as that address.
    pub proof fn lemma_text_reads_back(octets: Seq<u8>)
        requires
            octets.len() == 4,
        ensures
            Ipv4Address::parsed(ipv4_text(octets)) == Some(octets),
    {
        let text = ipv4_text(octets);
        assert(text.subrange(0, text.len() as int) =~= text);
        lemma_dotted_at_text(text, 0, octets[0], octets[1], octets[2], octets[3]);
        assert(seq![octets[0], octets[1], octets[2], octets[3]] =~= octets);
    }

    /// Only the text of an address is read as that address.
    pub proof fn lemma_parsed_is_text(text: Seq<char>)
        requires
            Ipv4Address::parsed(text) is Some,
        ensures
            Ipv4Address::parsed(text).unwrap().len() == 4,
            ipv4_text(Ipv4Address::parsed(text).unwrap()) == text,
    {
        lemma_dotted_at_is_text(text, 0);
        assert(text.subrange(0, text.len() as int) =~= text);
    }
}

} // verus!

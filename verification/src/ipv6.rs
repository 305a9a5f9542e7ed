//! IPv6 addresses as text: how an address is written, with `::` for its
//! longest run of zeros, and how it is read.

use vstd::prelude::*;
use vstd::string::StringExecFns;
use crate::address::{Ipv4Address, Ipv6Address};
use crate::ipv4::{dotted_at, dotted_text, read_dotted};
use crate::numeral::{append_hex, hex_text, number_at, read_number};
use crate::text::chars_of;

verus! {

/// The segments in hexadecimal, with a colon between neighbours.
pub open spec fn groups_text(segments: Seq<u16>) -> Seq<char>
    decreases segments.len(),
{
    if segments.len() == 0 {
        Seq::empty()
    } else if segments.len() == 1 {
        hex_text(segments[0] as nat)
    } else {
        groups_text(segments.drop_last()) + seq![':'] + hex_text(segments.last() as nat)
    }
}

/// The `len` segments from position `start` on are all zero.
pub open spec fn is_zero_run(segments: Seq<u16>, start: int, len: int) -> bool {
    &&& 0 <= start
    &&& 0 <= len
    &&& start + len <= segments.len()
    &&& forall|i: int| start <= i < start + len ==> segments[i] == 0
}

/// The run of zeros at `start` of length `len` is the longest in `segments`,
/// and the first of those that are as long.
pub open spec fn is_longest_zero_run(segments: Seq<u16>, start: int, len: int) -> bool {
    &&& is_zero_run(segments, start, len)
    &&& forall|other_start: int, other_len: int| #[trigger]
        is_zero_run(segments, other_start, other_len) ==> other_len < len || (other_len == len
            && start <= other_start)
}

/// The longest run of zeros in `segments` is at least two segments long and
/// goes from `start` over `len` segments.
pub open spec fn is_compressed_run(segments: Seq<u16>, start: int, len: int) -> bool {
    len >= 2 && is_longest_zero_run(segments, start, len)
}

/// The segments stand for an IPv4 address: five segments of zeros, one of
/// ones, and the IPv4 address in the last two.
pub open spec fn is_ipv4_mapped(segments: Seq<u16>) -> bool {
    &&& forall|i: int| 0 <= i < 5 ==> segments[i] == 0
    &&& segments[5] == 0xffff
}

/// Segments that stand for an IPv4 address as text: `::ffff:` and the four
/// octets of the last two segments in dotted decimal notation.
#[verifier::opaque]
pub open spec fn mapped_text(segments: Seq<u16>) -> Seq<char> {
    seq![':', ':', 'f', 'f', 'f', 'f', ':'] + dotted_text(
        (segments[6] / 256) as u8,
        (segments[6] % 256) as u8,
        (segments[7] / 256) as u8,
        (segments[7] % 256) as u8,
    )
}

/// The address of the segments `segments` as text. An address that stands
/// for an IPv4 address is written as `::ffff:` and that address in dotted
/// decimal notation. Any other is written as its segments in hexadecimal with
/// colons between them, where `::` takes the place of the longest run of two
/// or more zero segments, of the first such run if several are as long.
pub open spec fn ipv6_text(segments: Seq<u16>) -> Seq<char> {
    if is_ipv4_mapped(segments) {
        mapped_text(segments)
    } else if exists|start: int, len: int| is_compressed_run(segments, start, len) {
        let (start, len) = choose|start: int, len: int| is_compressed_run(segments, start, len);
        groups_text(segments.subrange(0, start)) + seq![':', ':'] + groups_text(
            segments.subrange(start + len, 8),
        )
    } else {
        groups_text(segments)
    }
}

/// The segment written in `text` at `from`, and where it ends: a hexadecimal
/// number of four digits at most, in either case.
pub open spec fn group_at(text: Seq<char>, from: int) -> Option<(u16, int)> {
    match number_at(text, from, true, 4, true) {
        Some((value, end)) => Some((value as u16, end)),
        None => None,
    }
}

/// The segment that holds the octet `high` above the octet `low`.
pub open spec fn octet_pair(high: u8, low: u8) -> u16 {
    (high * 256 + low) as u16
}

/// What has been read of a list of segments: the segments, where they end,
/// and whether the last two were written as an address in dotted decimal
/// notation, which ends the list.
pub struct GroupsRead {
    pub groups: Seq<u16>,
    pub end: int,
    pub dotted: bool,
}

/// Reading on from `read` until the list holds `limit` segments or goes on
/// no further. Each segment but the first of the list stands after a colon.
/// Where two segments at least are still to come, four octets in dotted
/// decimal notation are taken for two segments and end the list.
pub open spec fn with_more_groups(text: Seq<char>, read: GroupsRead, limit: int) -> GroupsRead
    decreases limit - read.groups.len(),
{
    let count = read.groups.len();
    if count >= limit || read.dotted {
        read
    } else if count > 0 && !(0 <= read.end < text.len() && text[read.end] == ':') {
        read
    } else {
        let from = if count > 0 {
            read.end + 1
        } else {
            read.end
        };
        if count + 1 < limit && dotted_at(text, from) is Some {
            let (octets, end) = dotted_at(text, from).unwrap();
            GroupsRead {
                groups: read.groups.push(octet_pair(octets[0], octets[1])).push(
                    octet_pair(octets[2], octets[3]),
                ),
                end,
                dotted: true,
            }
        } else {
            match group_at(text, from) {
                Some((group, end)) => with_more_groups(
                    text,
                    GroupsRead { groups: read.groups.push(group), end, dotted: false },
                    limit,
                ),
                None => read,
            }
        }
    }
}

/// The list of `limit` segments at most that is written in `text` at `from`.
pub open spec fn groups_at(text: Seq<char>, from: int, limit: int) -> GroupsRead {
    with_more_groups(text, GroupsRead { groups: Seq::empty(), end: from, dotted: false }, limit)
}

impl Ipv6Address {
    /// The segments of the address that `text` is, if it is one. An address
    /// is written as eight segments with colons between them, where `::` may
    /// stand once for one or more segments of zeros, and where the last two
    /// segments may be written as four octets in dotted decimal notation.
    pub open spec fn parsed(text: Seq<char>) -> Option<Seq<u16>> {
        let head = groups_at(text, 0, 8);
        if head.groups.len() == 8 {
            if head.end == text.len() {
                Some(head.groups)
            } else {
                None
            }
        } else if head.dotted {
            None
        } else if !(0 <= head.end && head.end + 2 <= text.len() && text[head.end] == ':'
            && text[head.end + 1] == ':') {
            None
        } else {
            let tail = groups_at(text, head.end + 2, 7 - head.groups.len());
            if tail.end == text.len() {
                Some(
                    head.groups + Seq::new(
                        (8 - head.groups.len() - tail.groups.len()) as nat,
                        |i: int| 0u16,
                    ) + tail.groups,
                )
            } else {
                None
            }
        }
    }

    /// Reads the address that `text` is, if it is one.
    pub fn parse(text: &str) -> (address: Option<Ipv6Address>)
        ensures
            match address {
                Some(address) => Ipv6Address::parsed(text@) == Some(address@),
                None => Ipv6Address::parsed(text@) is None,
            },
    {
        let chars = chars_of(text);
        let (head, head_count, head_end, head_dotted) = read_groups(&chars, 0, 8);
        if head_count == 8 {
            assert(head@.take(8) =~= head@);
            return if head_end == chars.len() {
                Some(Ipv6Address { segments: head })
            } else {
                None
            };
        }
        if head_dotted {
            return None;
        }
        if chars.len() - head_end < 2 || chars[head_end] != ':' || chars[head_end + 1] != ':' {
            return None;
        }
        let (tail, tail_count, tail_end, _) = read_groups(&chars, head_end + 2, 7 - head_count);
        if tail_end != chars.len() {
            return None;
        }
        let mut segments = head;
        let mut k: usize = 0;
        while k < tail_count
            invariant
                k <= tail_count,
                head_count + tail_count <= 7,
                forall|j: int| 0 <= j < 8 - tail_count ==> segments[j] == head[j],
                forall|j: int| 0 <= j < k ==> segments[8 - tail_count + j] == tail[j],
            decreases tail_count - k,
        {
            segments[8 - tail_count + k] = tail[k];
            k += 1;
        }
        assert(segments@ =~= head@.take(head_count as int) + Seq::new(
            (8 - head_count - tail_count) as nat,
            |i: int| 0u16,
        ) + tail@.take(tail_count as int));
        Some(Ipv6Address { segments })
    }

    /// Whether the address stands for an IPv4 address.
    pub fn stands_for_ipv4(&self) -> (mapped: bool)
        ensures
            mapped == is_ipv4_mapped(self@),
    {
        let mut i: usize = 0;
        while i < 5
            invariant
                i <= 5,
                forall|k: int| 0 <= k < i ==> self.segments[k] == 0,
            decreases 5 - i,
        {
            if self.segments[i] != 0 {
                return false;
            }
            i += 1;
        }
        self.segments[5] == 0xffff
    }

    /// Appends the address to `out` as text.
    pub fn append_to(&self, out: &mut String)
        ensures
            final(out)@ == old(out)@ + ipv6_text(self@),
    {
        if self.stands_for_ipv4() {
            proof {
                reveal(mapped_text);
                reveal_strlit("::ffff:");
            }
            out.append("::ffff:");
            assert(out@ =~= old(out)@ + seq![':', ':', 'f', 'f', 'f', 'f', ':']);
            let high = self.segments[6];
            let low = self.segments[7];
            let embedded = Ipv4Address {
                octets: [(high / 256) as u8, (high % 256) as u8, (low / 256) as u8, (low % 256) as u8],
            };
            embedded.append_to(out);
            assert(out@ =~= old(out)@ + ipv6_text(self@));
        } else {
            let (start, len) = longest_zero_run(&self.segments);
            if len >= 2 {
                proof {
                    reveal_strlit("::");
                    let chosen = choose|start: int, len: int|
                        is_compressed_run(self.segments@, start, len);
                    assert(is_compressed_run(self.segments@, start as int, len as int));
                    lemma_longest_zero_run_is_unique(
                        self.segments@,
                        start as int,
                        len as int,
                        chosen.0,
                        chosen.1,
                    );
                }
                append_groups(out, &self.segments, 0, start);
                out.append("::");
                append_groups(out, &self.segments, start + len, 8);
                assert(out@ =~= old(out)@ + ipv6_text(self@));
            } else {
                assert forall|other_start: int, other_len: int|
                    !is_compressed_run(self.segments@, other_start, other_len) by {
                    if is_compressed_run(self.segments@, other_start, other_len) {
                        lemma_longest_zero_run_is_unique(
                            self.segments@,
                            start as int,
                            len as int,
                            other_start,
                            other_len,
                        );
                    }
                }
                append_groups(out, &self.segments, 0, 8);
                assert(self.segments@.subrange(0, 8) =~= self.segments@);
            }
        }
    }
}

/// Appends to `out` the segments of `segments` from `from` up to `to`, in
/// hexadecimal with a colon between neighbours.
fn append_groups(out: &mut String, segments: &[u16; 8], from: usize, to: usize)
    requires
        from <= to <= 8,
    ensures
        final(out)@ == old(out)@ + groups_text(segments@.subrange(from as int, to as int)),
{
    let mut i: usize = from;
    while i < to
        invariant
            from <= i <= to <= 8,
            out@ == old(out)@ + groups_text(segments@.subrange(from as int, i as int)),
        decreases to - i,
    {
        let ghost before = segments@.subrange(from as int, i as int);
        let ghost now = segments@.subrange(from as int, i + 1);
        assert(now.drop_last() =~= before);
        assert(now.last() == segments@[i as int]);
        if i > from {
            proof {
                reveal_strlit(":");
            }
            out.append(":");
        }
        append_hex(out, segments[i]);
        proof {
            let group = hex_text(segments[i as int] as nat);
            if i > from {
                assert(groups_text(now) == groups_text(before) + seq![':'] + group);
                assert(out@ =~= old(out)@ + (groups_text(before) + seq![':'] + group));
            } else {
                assert(before.len() == 0 && now.len() == 1);
                assert(groups_text(now) == group);
                assert(out@ =~= old(out)@ + group);
            }
        }
        i += 1;
    }
}

/// Finds the longest run of zeros in `segments`, the first of those that are
/// as long.
fn longest_zero_run(segments: &[u16; 8]) -> (run: (usize, usize))
    ensures
        is_longest_zero_run(segments@, run.0 as int, run.1 as int),
{
    let mut best_start: usize = 0;
    let mut best_len: usize = 0;
    let mut start: usize = 0;
    while start < 8
        invariant
            start <= 8,
            best_start <= start,
            is_zero_run(segments@, best_start as int, best_len as int),
            forall|other_start: int, other_len: int|
                other_start < start && #[trigger] is_zero_run(segments@, other_start, other_len)
                    ==> other_len < best_len || (other_len == best_len && best_start
                    <= other_start),
        decreases 8 - start,
    {
        let mut len: usize = 0;
        while start + len < 8 && segments[start + len] == 0
            invariant
                start < 8,
                start + len <= 8,
                is_zero_run(segments@, start as int, len as int),
            decreases 8 - len,
        {
            len += 1;
        }
        assert forall|other_len: int| #[trigger]
            is_zero_run(segments@, start as int, other_len) implies other_len <= len by {
            if other_len > len {
                assert(segments@[start + len] == 0);
            }
        }
        if len > best_len {
            best_start = start;
            best_len = len;
        }
        start += 1;
    }
    assert forall|other_start: int, other_len: int| #[trigger]
        is_zero_run(segments@, other_start, other_len) implies other_len < best_len || (other_len
        == best_len && best_start <= other_start) by {
        if other_start >= 8 {
            assert(other_len == 0);
        }
    }
    (best_start, best_len)
}

/// Reads the list of `limit` segments at most that is written in `text` at
/// `from`: the segments, with zeros after them, how many they are, where they
/// end, and whether the last two were written in dotted decimal notation.
fn read_groups(text: &Vec<char>, from: usize, limit: usize) -> (read: (
    [u16; 8],
    usize,
    usize,
    bool,
))
    requires
        from <= text.len(),
        limit <= 8,
    ensures
        groups_at(text@, from as int, limit as int) == (GroupsRead {
            groups: read.0@.take(read.1 as int),
            end: read.2 as int,
            dotted: read.3,
        }),
        read.1 <= limit,
        from <= read.2 <= text.len(),
        forall|k: int| read.1 <= k < 8 ==> read.0[k] == 0,
{
    let mut groups: [u16; 8] = [0, 0, 0, 0, 0, 0, 0, 0];
    let mut count: usize = 0;
    let mut end: usize = from;
    assert(groups@.take(0) =~= Seq::empty());
    while count < limit
        invariant
            count <= limit <= 8,
            from <= end <= text.len(),
            forall|k: int| count <= k < 8 ==> groups[k] == 0,
            groups_at(text@, from as int, limit as int) == with_more_groups(
                text@,
                GroupsRead { groups: groups@.take(count as int), end: end as int, dotted: false },
                limit as int,
            ),
        decreases limit - count,
    {
        let ghost before = groups@.take(count as int);
        let mut at: usize = end;
        if count > 0 {
            if at >= text.len() || text[at] != ':' {
                return (groups, count, end, false);
            }
            at += 1;
        }
        if count + 1 < limit {
            match read_dotted(text, at) {
                Some((octets, dotted_end)) => {
                    groups[count] = octets[0] as u16 * 256 + octets[1] as u16;
                    groups[count + 1] = octets[2] as u16 * 256 + octets[3] as u16;
                    assert(groups@.take(count + 2) =~= before.push(
                        octet_pair(octets[0], octets[1]),
                    ).push(octet_pair(octets[2], octets[3])));
                    return (groups, count + 2, dotted_end, true);
                },
                None => {},
            }
        }
        match read_number(text, at, true, 4, true) {
            None => {
                return (groups, count, end, false);
            },
            Some((value, group_end)) => {
                groups[count] = value as u16;
                assert(groups@.take(count + 1) =~= before.push(value as u16));
                count += 1;
                end = group_end;
            },
        }
    }
    (groups, count, end, false)
}

/// A sequence of segments has one longest, first run of zeros at most.
proof fn lemma_longest_zero_run_is_unique(
    segments: Seq<u16>,
    start: int,
    len: int,
    other_start: int,
    other_len: int,
)
    requires
        is_longest_zero_run(segments, start, len),
        is_longest_zero_run(segments, other_start, other_len),
    ensures
        start == other_start,
        len == other_len,
{
}

} // verus!

//! What holds of IPv6 addresses as text: an address that is written and read
//! back is the same address.

use vstd::prelude::*;
use crate::address::Ipv6Address;
use crate::ipv4::{dotted_at, dotted_text, lemma_dotted_at_text, octet_at, with_next_octet};
use crate::ipv6::{
    group_at, groups_at, groups_text, ipv6_text, is_compressed_run, is_ipv4_mapped, is_zero_run,
    mapped_text, octet_pair, with_more_groups, GroupsRead,
};
use crate::numeral::{
    digit_value, hex_text, lemma_number_at_numeral, lemma_numeral_text_is_canonical,
    lemma_numeral_text_len, numeral_text,
};
use crate::text::{lemma_join_text, lemma_split_text};

verus! {

/// Reading on adds segments to those read, up to the limit and no further.
proof fn lemma_groups_stay_in_limit(text: Seq<char>, read: GroupsRead, limit: int)
    requires
        read.groups.len() <= limit,
    ensures
        read.groups.len() <= with_more_groups(text, read, limit).groups.len() <= limit,
    decreases limit - read.groups.len(),
{
    let count = read.groups.len();
    if count >= limit || read.dotted {
    } else if count > 0 && !(0 <= read.end < text.len() && text[read.end] == ':') {
    } else {
        let from = if count > 0 {
            read.end + 1
        } else {
            read.end
        };
        if count + 1 < limit && dotted_at(text, from) is Some {
        } else {
            match group_at(text, from) {
                Some((group, end)) => {
                    lemma_groups_stay_in_limit(
                        text,
                        GroupsRead { groups: read.groups.push(group), end, dotted: false },
                        limit,
                    );
                },
                None => {},
            }
        }
    }
}

/// How the segments `rest` are written behind what `read` holds: with colons
/// between them, after a colon if segments were read before them.
spec fn groups_follow(read: GroupsRead, rest: Seq<u16>) -> Seq<char> {
    if read.groups.len() > 0 && rest.len() > 0 {
        seq![':'] + groups_text(rest)
    } else {
        groups_text(rest)
    }
}

/// A list of segments is written as its first segment and, after a colon,
/// the list of the others.
proof fn lemma_groups_text_front(segments: Seq<u16>)
    requires
        segments.len() >= 1,
    ensures
        groups_text(segments) == if segments.len() == 1 {
            hex_text(segments[0] as nat)
        } else {
            hex_text(segments[0] as nat) + seq![':'] + groups_text(segments.drop_first())
        },
    decreases segments.len(),
{
    if segments.len() == 2 {
        assert(segments.drop_last() =~= seq![segments[0]]);
        assert(segments.drop_first() =~= seq![segments[1]]);
        assert(groups_text(segments.drop_last()) == hex_text(segments[0] as nat));
        assert(groups_text(segments.drop_first()) == hex_text(segments[1] as nat));
    } else if segments.len() > 2 {
        let front = segments.drop_last();
        let back = segments.drop_first();
        lemma_groups_text_front(front);
        assert(front.drop_first() =~= back.drop_last());
        assert(front[0] == segments[0]);
        assert(back.last() == segments.last());
        assert(groups_text(segments) =~= hex_text(segments[0] as nat) + seq![':'] + (groups_text(
            back.drop_last(),
        ) + seq![':'] + hex_text(back.last() as nat)));
    }
}

/// A list of segments is written in hexadecimal digits and colons.
proof fn lemma_groups_text_chars(segments: Seq<u16>)
    ensures
        forall|k: int|
            0 <= k < groups_text(segments).len() ==> {
                ||| #[trigger] groups_text(segments)[k] == ':'
                ||| digit_value(groups_text(segments)[k], true) is Some
            },
    decreases segments.len(),
{
    if segments.len() == 1 {
        lemma_numeral_text_is_canonical(segments[0] as nat, true);
    } else if segments.len() > 1 {
        lemma_groups_text_chars(segments.drop_last());
        lemma_numeral_text_is_canonical(segments.last() as nat, true);
        let front = groups_text(segments.drop_last());
        let last = hex_text(segments.last() as nat);
        assert forall|k: int| 0 <= k < groups_text(segments).len() implies {
            ||| #[trigger] groups_text(segments)[k] == ':'
            ||| digit_value(groups_text(segments)[k], true) is Some
        } by {
            if k < front.len() {
                assert(groups_text(segments)[k] == front[k]);
            } else if k > front.len() {
                assert(groups_text(segments)[k] == last[k - front.len() - 1]);
            }
        }
    }
}

/// In a text without a dot nothing is written in dotted decimal notation.
proof fn lemma_no_dot_no_dotted(text: Seq<char>, from: int)
    requires
        forall|k: int| 0 <= k < text.len() ==> text[k] != '.',
    ensures
        dotted_at(text, from) is None,
{
    let one = with_next_octet(text, Some((Seq::<u8>::empty(), from)));
    let two = with_next_octet(text, one);
    assert(two is None);
}

/// Where the text ends, and where something else than a hexadecimal digit
/// stands, neither a segment nor an octet is written.
proof fn lemma_nothing_written_at(text: Seq<char>, from: int)
    requires
        0 <= from <= text.len(),
        from == text.len() || digit_value(text[from], true) is None,
    ensures
        group_at(text, from) is None,
        dotted_at(text, from) is None,
{
    assert(octet_at(text, from) is None);
    assert(with_next_octet(text, Some((Seq::<u8>::empty(), from))) is None);
}

/// Where a list of segments stands in a text without a dot, after a colon
/// if segments were read before it, and no digit follows it, reading on reads
/// those segments and goes on behind them.
proof fn lemma_groups_read_on(text: Seq<char>, read: GroupsRead, rest: Seq<u16>, limit: int)
    requires
        !read.dotted,
        0 <= read.end,
        read.groups.len() + rest.len() <= limit,
        forall|k: int| 0 <= k < text.len() ==> text[k] != '.',
        read.end + groups_follow(read, rest).len() <= text.len(),
        text.subrange(read.end, read.end + groups_follow(read, rest).len()) == groups_follow(
            read,
            rest,
        ),
        read.end + groups_follow(read, rest).len() == text.len() || digit_value(
            text[read.end + groups_follow(read, rest).len()],
            true,
        ) is None,
    ensures
        with_more_groups(text, read, limit) == with_more_groups(
            text,
            GroupsRead {
                groups: read.groups + rest,
                end: read.end + groups_follow(read, rest).len(),
                dotted: false,
            },
            limit,
        ),
    decreases rest.len(),
{
    let follow = groups_follow(read, rest);
    if rest.len() == 0 {
        assert(read.groups + rest =~= read.groups);
    } else {
        let colon = seq![':'];
        let group = hex_text(rest[0] as nat);
        let others = rest.drop_first();
        let sep = if read.groups.len() > 0 {
            colon
        } else {
            Seq::<char>::empty()
        };
        let from = read.end + sep.len();
        let next = GroupsRead {
            groups: read.groups.push(rest[0]),
            end: from + group.len(),
            dotted: false,
        };
        let after = groups_follow(next, others);
        lemma_groups_text_front(rest);
        lemma_numeral_text_len(rest[0] as nat, true);
        lemma_numeral_text_is_canonical(rest[0] as nat, true);
        if read.groups.len() > 0 {
            lemma_split_text(text, read.end, colon, groups_text(rest));
            assert(text[read.end] == text.subrange(read.end, read.end + 1)[0]);
        }
        assert(text.subrange(from, from + groups_text(rest).len()) == groups_text(rest));
        if others.len() > 0 {
            lemma_split_text(text, from, group + colon, groups_text(others));
            lemma_split_text(text, from, group, colon);
            lemma_join_text(text, next.end, colon, groups_text(others));
            assert(text[next.end] == text.subrange(next.end, next.end + 1)[0]);
        } else {
            assert(after =~= Seq::<char>::empty());
            assert(text.subrange(next.end, next.end + after.len()) =~= after);
        }
        lemma_number_at_numeral(text, from, rest[0] as nat, true, 4, true);
        lemma_no_dot_no_dotted(text, from);
        assert(group_at(text, from) == Some((rest[0], next.end)));
        assert(with_more_groups(text, read, limit) == with_more_groups(text, next, limit));
        lemma_groups_read_on(text, next, others, limit);
        assert(next.groups + others =~= read.groups + rest);
    }
}

/// Eight segments written in full are read back as they are.
proof fn lemma_full_text_reads_back(segments: Seq<u16>)
    requires
        segments.len() == 8,
    ensures
        Ipv6Address::parsed(groups_text(segments)) == Some(segments),
{
    let text = groups_text(segments);
    let start = GroupsRead { groups: Seq::empty(), end: 0, dotted: false };
    let done = GroupsRead { groups: segments, end: text.len() as int, dotted: false };
    lemma_groups_text_chars(segments);
    assert(text.subrange(0, text.len() as int) =~= text);
    lemma_groups_read_on(text, start, segments, 8);
    assert(start.groups + segments =~= segments);
}

/// Segments written with `::` in the place of a run of zeros are read back
/// as they are.
proof fn lemma_compressed_text_reads_back(segments: Seq<u16>, start: int, len: int)
    requires
        segments.len() == 8,
        is_zero_run(segments, start, len),
        len >= 1,
    ensures
        Ipv6Address::parsed(
            groups_text(segments.subrange(0, start)) + seq![':', ':'] + groups_text(
                segments.subrange(start + len, 8),
            ),
        ) == Some(segments),
{
    let before = segments.subrange(0, start);
    let behind = segments.subrange(start + len, 8);
    let head_text = groups_text(before);
    let tail_text = groups_text(behind);
    let text = head_text + seq![':', ':'] + tail_text;
    let gap = head_text.len() as int;
    lemma_groups_text_chars(before);
    lemma_groups_text_chars(behind);
    assert forall|k: int| 0 <= k < text.len() implies text[k] != '.' by {
        if k < gap {
            assert(text[k] == head_text[k]);
        } else if k >= gap + 2 {
            assert(text[k] == tail_text[k - gap - 2]);
        }
    }
    assert(text[gap] == ':' && text[gap + 1] == ':');

    let head_start = GroupsRead { groups: Seq::empty(), end: 0, dotted: false };
    let head = GroupsRead { groups: before, end: gap, dotted: false };
    assert(text.subrange(0, gap) =~= head_text);
    lemma_groups_read_on(text, head_start, before, 8);
    assert(head_start.groups + before =~= before);
    lemma_nothing_written_at(text, gap + 1);
    lemma_nothing_written_at(text, gap);
    assert(with_more_groups(text, head, 8) == head);
    assert(groups_at(text, 0, 8) == head);

    let limit = 7 - start;
    let tail_start = GroupsRead { groups: Seq::empty(), end: gap + 2, dotted: false };
    let tail = GroupsRead { groups: behind, end: text.len() as int, dotted: false };
    assert(text.subrange(gap + 2, text.len() as int) =~= tail_text);
    lemma_groups_read_on(text, tail_start, behind, limit);
    assert(tail_start.groups + behind =~= behind);
    lemma_nothing_written_at(text, text.len() as int);
    assert(with_more_groups(text, tail, limit) == tail);
    assert(groups_at(text, gap + 2, limit) == tail);

    assert(before + Seq::new((8 - before.len() - behind.len()) as nat, |i: int| 0u16) + behind
        =~= segments);
}

/// The segment of ones is written as four times `f`.
proof fn lemma_ones_text()
    ensures
        hex_text(0xffff) == seq!['f', 'f', 'f', 'f'],
{
    assert(numeral_text(0xf, true) =~= seq!['f']);
    assert(numeral_text(0xff, true) =~= seq!['f', 'f']);
    assert(numeral_text(0xfff, true) =~= seq!['f', 'f', 'f']);
    assert(numeral_text(0xffff, true) =~= seq!['f', 'f', 'f', 'f']);
}

/// Behind the `::` of a text that begins with `::ffff:` and goes on with four
/// octets in dotted decimal notation, the segment of ones and two segments
/// that hold the octets are read.
proof fn lemma_mapped_tail_is_read(text: Seq<char>, octets: Seq<u8>)
    requires
        text.len() >= 7,
        text[2] == 'f',
        text[3] == 'f',
        text[4] == 'f',
        text[5] == 'f',
        text[6] == ':',
        dotted_at(text, 7) == Some((octets, text.len() as int)),
    ensures
        groups_at(text, 2, 7) == (GroupsRead {
            groups: seq![
                0xffffu16,
                octet_pair(octets[0], octets[1]),
                octet_pair(octets[2], octets[3]),
            ],
            end: text.len() as int,
            dotted: true,
        }),
{
    let start = GroupsRead { groups: Seq::empty(), end: 2, dotted: false };
    let one = GroupsRead { groups: Seq::<u16>::empty().push(0xffff), end: 6, dotted: false };
    assert(octet_at(text, 2) is None);
    assert(with_next_octet(text, Some((Seq::<u8>::empty(), 2))) is None);
    assert(dotted_at(text, 2) is None);
    lemma_ones_text();
    assert(text.subrange(2, 6) =~= hex_text(0xffff));
    lemma_number_at_numeral(text, 2, 0xffff, true, 4, true);
    assert(group_at(text, 2) == Some((0xffffu16, 6int)));
    assert(with_more_groups(text, start, 7) == with_more_groups(text, one, 7));
    assert(one.groups.push(octet_pair(octets[0], octets[1])).push(
        octet_pair(octets[2], octets[3]),
    ) =~= seq![0xffffu16, octet_pair(octets[0], octets[1]), octet_pair(octets[2], octets[3])]);
}

/// A text that begins with `::ffff:` and goes on with four octets in dotted
/// decimal notation is read as five segments of zeros, the segment of ones
/// and two segments that hold the octets.
proof fn lemma_mapped_form_is_read(text: Seq<char>, octets: Seq<u8>, segments: Seq<u16>)
    requires
        text.len() >= 7,
        text[0] == ':',
        text[1] == ':',
        text[2] == 'f',
        text[3] == 'f',
        text[4] == 'f',
        text[5] == 'f',
        text[6] == ':',
        dotted_at(text, 7) == Some((octets, text.len() as int)),
        segments.len() == 8,
        is_ipv4_mapped(segments),
        segments[6] == octet_pair(octets[0], octets[1]),
        segments[7] == octet_pair(octets[2], octets[3]),
    ensures
        Ipv6Address::parsed(text) == Some(segments),
{
    let head = GroupsRead { groups: Seq::empty(), end: 0, dotted: false };
    lemma_nothing_written_at(text, 0);
    assert(groups_at(text, 0, 8) == head);
    lemma_mapped_tail_is_read(text, octets);
    let tail = groups_at(text, 2, 7);
    assert(head.groups + Seq::new((8 - head.groups.len() - tail.groups.len()) as nat, |i: int| 0u16)
        + tail.groups =~= segments);
}

/// Behind `::ffff:`, four octets written in dotted decimal notation are read
/// as those octets.
proof fn lemma_dotted_behind_ones(text: Seq<char>, first: u8, second: u8, third: u8, fourth: u8)
    requires
        text == seq![':', ':', 'f', 'f', 'f', 'f', ':'] + dotted_text(
            first,
            second,
            third,
            fourth,
        ),
    ensures
        text.len() >= 7,
        text[0] == ':',
        text[1] == ':',
        text[2] == 'f',
        text[3] == 'f',
        text[4] == 'f',
        text[5] == 'f',
        text[6] == ':',
        dotted_at(text, 7) == Some((seq![first, second, third, fourth], text.len() as int)),
{
    let prefix = seq![':', ':', 'f', 'f', 'f', 'f', ':'];
    let dotted = dotted_text(first, second, third, fourth);
    assert(text.subrange(0, text.len() as int) =~= prefix + dotted);
    lemma_split_text(text, 0, prefix, dotted);
    assert forall|k: int| 0 <= k < 7 implies text[k] == prefix[k] by {
        assert(text.subrange(0, 7)[k] == prefix[k]);
    }
    assert(text[0] == prefix[0] && text[1] == prefix[1] && text[2] == prefix[2] && text[3]
        == prefix[3] && text[4] == prefix[4] && text[5] == prefix[5] && text[6] == prefix[6]);
    lemma_dotted_at_text(text, 7, first, second, third, fourth);
}

/// A segment holds its upper octet above its lower octet.
proof fn lemma_octet_pair_of_halves(segment: u16)
    ensures
        octet_pair((segment / 256) as u8, (segment % 256) as u8) == segment,
{
}

/// The text of segments that stand for an IPv4 address begins with `::ffff:`
/// and goes on with the four octets of the last two segments, which are read
/// there as those octets.
proof fn lemma_mapped_text_holds_octets(segments: Seq<u16>)
    ensures
        mapped_text(segments).len() >= 7,
        mapped_text(segments)[0] == ':',
        mapped_text(segments)[1] == ':',
        mapped_text(segments)[2] == 'f',
        mapped_text(segments)[3] == 'f',
        mapped_text(segments)[4] == 'f',
        mapped_text(segments)[5] == 'f',
        mapped_text(segments)[6] == ':',
        dotted_at(mapped_text(segments), 7) == Some(
            (
                seq![
                    (segments[6] / 256) as u8,
                    (segments[6] % 256) as u8,
                    (segments[7] / 256) as u8,
                    (segments[7] % 256) as u8,
                ],
                mapped_text(segments).len() as int,
            ),
        ),
{
    reveal(mapped_text);
    lemma_dotted_behind_ones(
        mapped_text(segments),
        (segments[6] / 256) as u8,
        (segments[6] % 256) as u8,
        (segments[7] / 256) as u8,
        (segments[7] % 256) as u8,
    );
}

/// Segments that stand for an IPv4 address, written as `::ffff:` and that
/// address, are read back as they are.
proof fn lemma_mapped_text_reads_back(segments: Seq<u16>)
    requires
        segments.len() == 8,
        is_ipv4_mapped(segments),
    ensures
        Ipv6Address::parsed(mapped_text(segments)) == Some(segments),
{
    let octets = seq![
        (segments[6] / 256) as u8,
        (segments[6] % 256) as u8,
        (segments[7] / 256) as u8,
        (segments[7] % 256) as u8,
    ];
    lemma_octet_pair_of_halves(segments[6]);
    lemma_octet_pair_of_halves(segments[7]);
    lemma_mapped_text_holds_octets(segments);
    lemma_mapped_form_is_read(mapped_text(segments), octets, segments);
}

impl Ipv6Address {
    /// The text of an address is read back as that address.
    pub proof fn lemma_text_reads_back(segments: Seq<u16>)
        requires
            segments.len() == 8,
        ensures
            Ipv6Address::parsed(ipv6_text(segments)) == Some(segments),
    {
        if is_ipv4_mapped(segments) {
            lemma_mapped_text_reads_back(segments);
        } else if exists|start: int, len: int| is_compressed_run(segments, start, len) {
            let (start, len) = choose|start: int, len: int|
                is_compressed_run(segments, start, len);
            lemma_compressed_text_reads_back(segments, start, len);
        } else {
            lemma_full_text_reads_back(segments);
        }
    }

    /// Whatever is read as an address has eight segments.
    pub proof fn lemma_parsed_is_whole(text: Seq<char>)
        requires
            Ipv6Address::parsed(text) is Some,
        ensures
            Ipv6Address::parsed(text).unwrap().len() == 8,
    {
        let head = groups_at(text, 0, 8);
        lemma_groups_stay_in_limit(
            text,
            GroupsRead { groups: Seq::empty(), end: 0, dotted: false },
            8,
        );
        if head.groups.len() != 8 {
            lemma_groups_stay_in_limit(
                text,
                GroupsRead { groups: Seq::empty(), end: head.end + 2, dotted: false },
                7 - head.groups.len(),
            );
        }
    }
}

} // verus!

//! The lacing rule of an Ogg page: how a segment table groups into packet
//! lengths, and how packet lengths are written back as a segment table.

use vstd::prelude::*;

verus! {

/// The sum of a list of lengths.
pub open spec fn total(lengths: Seq<nat>) -> nat
    decreases lengths.len(),
{
    if lengths.len() == 0 {
        0
    } else {
        total(lengths.drop_last()) + lengths.last()
    }
}

/// The sum of the lacing values of a segment table: the size of the body
/// that the table describes.
pub open spec fn table_sum(table: Seq<u8>) -> nat
    decreases table.len(),
{
    if table.len() == 0 {
        0
    } else {
        table_sum(table.drop_last()) + table.last() as nat
    }
}

/// Lengths held in machine words, as numbers.
pub open spec fn as_lengths(words: Seq<usize>) -> Seq<nat> {
    words.map_values(|w: usize| w as nat)
}

/// The packet lengths that a segment table yields when `pending` bytes of a
/// packet have been gathered from values of 255 to its left. A value of 255
/// continues the packet; a smaller one ends it; a lone zero is no packet; a
/// packet still open at the end of the table is not listed.
pub open spec fn group_from(table: Seq<u8>, pending: nat) -> Seq<nat>
    decreases table.len(),
{
    if table.len() == 0 {
        Seq::empty()
    } else if table[0] == 255 {
        group_from(table.drop_first(), pending + 255)
    } else if pending > 0 {
        seq![pending + table[0] as nat] + group_from(table.drop_first(), 0)
    } else if table[0] != 0 {
        seq![table[0] as nat] + group_from(table.drop_first(), 0)
    } else {
        group_from(table.drop_first(), 0)
    }
}

/// The packet-length list of a segment table.
pub open spec fn packet_lengths(table: Seq<u8>) -> Seq<nat> {
    group_from(table, 0)
}

/// The lacing values of one packet: a 255 for each full 255 bytes, then the
/// remainder, which is below 255 and ends the packet.
pub open spec fn lace_one(length: nat) -> Seq<u8> {
    Seq::new(length / 255, |i: int| 255u8).push((length % 255) as u8)
}

/// The segment table written for a list of packet lengths.
pub open spec fn lacing(lengths: Seq<nat>) -> Seq<u8>
    decreases lengths.len(),
{
    if lengths.len() == 0 {
        Seq::empty()
    } else {
        lace_one(lengths[0]) + lacing(lengths.drop_first())
    }
}

/// Every length in the list is above zero.
pub open spec fn all_positive(lengths: Seq<nat>) -> bool {
    forall|i: int| 0 <= i < lengths.len() ==> #[trigger] lengths[i] > 0
}

/// A list of one length sums to that length.
pub proof fn lemma_total_one(length: nat)
    ensures
        total(seq![length]) == length,
{
    reveal_with_fuel(total, 2);
    assert(seq![length].drop_last() =~= Seq::<nat>::empty());
}

/// A segment table of one value describes so many bytes.
pub proof fn lemma_table_sum_one(value: u8)
    ensures
        table_sum(seq![value]) == value as nat,
{
    reveal_with_fuel(table_sum, 2);
    assert(seq![value].drop_last() =~= Seq::<u8>::empty());
}

/// One more length adds itself to the sum.
pub proof fn lemma_total_push(lengths: Seq<nat>, last: nat)
    ensures
        total(lengths.push(last)) == total(lengths) + last,
{
    assert(lengths.push(last).drop_last() =~= lengths);
}

/// Two lists, one after the other, sum to the sum of their sums.
pub proof fn lemma_total_concat(first: Seq<nat>, second: Seq<nat>)
    ensures
        total(first + second) == total(first) + total(second),
    decreases second.len(),
{
    if second.len() == 0 {
        assert(first + second =~= first);
    } else {
        lemma_total_concat(first, second.drop_last());
        assert((first + second).drop_last() =~= first + second.drop_last());
    }
}

/// A prefix of a list sums to no more than the list.
pub proof fn lemma_total_prefix(lengths: Seq<nat>, end: int)
    requires
        0 <= end <= lengths.len(),
    ensures
        total(lengths.subrange(0, end)) + total(lengths.subrange(end, lengths.len() as int))
            == total(lengths),
{
    lemma_total_concat(lengths.subrange(0, end), lengths.subrange(end, lengths.len() as int));
    assert(lengths.subrange(0, end) + lengths.subrange(end, lengths.len() as int) =~= lengths);
}

/// Two segment tables, one after the other, describe the bytes of both.
pub proof fn lemma_table_sum_concat(first: Seq<u8>, second: Seq<u8>)
    ensures
        table_sum(first + second) == table_sum(first) + table_sum(second),
    decreases second.len(),
{
    if second.len() == 0 {
        assert(first + second =~= first);
    } else {
        lemma_table_sum_concat(first, second.drop_last());
        assert((first + second).drop_last() =~= first + second.drop_last());
    }
}

/// A segment table describes at most 255 bytes for each of its values.
pub proof fn lemma_table_sum_bound(table: Seq<u8>)
    ensures
        table_sum(table) <= 255 * table.len(),
    decreases table.len(),
{
    if table.len() > 0 {
        lemma_table_sum_bound(table.drop_last());
    }
}

/// The packets of a table never hold more bytes than the table describes,
/// counting what was pending; there are no more packets than lacing values;
/// and every packet is longer than zero.
pub proof fn lemma_group_bounds(table: Seq<u8>, pending: nat)
    ensures
        total(group_from(table, pending)) <= pending + table_sum(table),
        group_from(table, pending).len() <= table.len(),
        all_positive(group_from(table, pending)),
    decreases table.len(),
{
    if table.len() > 0 {
        let rest = table.drop_first();
        assert(table =~= seq![table[0]] + rest);
        lemma_table_sum_concat(seq![table[0]], rest);
        lemma_table_sum_one(table[0]);
        if table[0] == 255 {
            lemma_group_bounds(rest, pending + 255);
        } else {
            lemma_group_bounds(rest, 0);
            let tail = group_from(rest, 0);
            if pending > 0 {
                lemma_total_concat(seq![pending + table[0] as nat], tail);
                lemma_total_one(pending + table[0] as nat);
            } else if table[0] != 0 {
                lemma_total_concat(seq![table[0] as nat], tail);
                lemma_total_one(table[0] as nat);
            }
        }
    }
}

/// One more packet adds its lacing values behind those of the others.
pub proof fn lemma_lacing_push(lengths: Seq<nat>, last: nat)
    ensures
        lacing(lengths.push(last)) == lacing(lengths) + lace_one(last),
    decreases lengths.len(),
{
    let all = lengths.push(last);
    if lengths.len() == 0 {
        reveal_with_fuel(lacing, 2);
        assert(all.drop_first() =~= Seq::<nat>::empty());
        assert(lacing(all) =~= lace_one(last) + Seq::<u8>::empty());
        assert(lacing(lengths) + lace_one(last) =~= lace_one(last));
    } else {
        lemma_lacing_push(lengths.drop_first(), last);
        assert(all.drop_first() =~= lengths.drop_first().push(last));
        assert(lacing(all) =~= lacing(lengths) + lace_one(last));
    }
}

/// The segment table of two lists of packets, one after the other, is the
/// segment table of the first followed by that of the second.
pub proof fn lemma_lacing_concat(first: Seq<nat>, second: Seq<nat>)
    ensures
        lacing(first + second) == lacing(first) + lacing(second),
    decreases first.len(),
{
    if first.len() == 0 {
        assert(first + second =~= second);
        assert(lacing(first) + lacing(second) =~= lacing(second));
    } else {
        lemma_lacing_concat(first.drop_first(), second);
        assert((first + second).drop_first() =~= first.drop_first() + second);
        assert(lacing(first + second) =~= lacing(first) + lacing(second));
    }
}

/// The table written for a list of lengths describes exactly their bytes,
/// and has one value for each full 255 bytes of a packet and one more.
pub proof fn lemma_lacing_sum(lengths: Seq<nat>)
    ensures
        table_sum(lacing(lengths)) == total(lengths),
        lacing(lengths).len() >= lengths.len(),
    decreases lengths.len(),
{
    if lengths.len() > 0 {
        let rest = lengths.drop_first();
        lemma_lacing_sum(rest);
        lemma_lace_one_sum(lengths[0]);
        lemma_table_sum_concat(lace_one(lengths[0]), lacing(rest));
        assert(lengths =~= seq![lengths[0]] + rest);
        lemma_total_concat(seq![lengths[0]], rest);
        lemma_total_one(lengths[0]);
    }
}

proof fn lemma_full_sum(count: nat)
    ensures
        table_sum(Seq::new(count, |i: int| 255u8)) == 255 * count,
    decreases count,
{
    if count > 0 {
        lemma_full_sum((count - 1) as nat);
        assert(Seq::new(count, |i: int| 255u8).drop_last() =~= Seq::new(
            (count - 1) as nat,
            |i: int| 255u8,
        ));
    }
}

/// The lacing values of one packet describe its bytes, and there is one of
/// them for each full 255 bytes and one more.
pub proof fn lemma_lace_one_sum(length: nat)
    ensures
        table_sum(lace_one(length)) == length,
        lace_one(length).len() == length / 255 + 1,
{
    let full = Seq::new(length / 255, |i: int| 255u8);
    lemma_full_sum(length / 255);
    assert(lace_one(length).drop_last() =~= full);
}

/// Grouping the lacing of one packet, followed by anything, yields that
/// packet first, unless nothing at all was gathered for it.
proof fn lemma_group_one(length: nat, rest: Seq<u8>, pending: nat)
    ensures
        group_from(lace_one(length) + rest, pending) == if pending + length > 0 {
            seq![pending + length] + group_from(rest, 0)
        } else {
            group_from(rest, 0)
        },
    decreases length,
{
    let table = lace_one(length) + rest;
    if length >= 255 {
        let less = (length - 255) as nat;
        assert(length / 255 == less / 255 + 1 && length % 255 == less % 255) by {
            assert(length == less + 255);
        }
        assert(table[0] == 255u8);
        assert(table.drop_first() =~= lace_one(less) + rest);
        lemma_group_one(less, rest, pending + 255);
    } else {
        assert(length / 255 == 0 && length % 255 == length);
        assert(lace_one(length) =~= seq![length as u8]);
        assert(table[0] == length as u8);
        assert(table.drop_first() =~= rest);
    }
}

/// Writing a list of packet lengths as a segment table and grouping that
/// table again gives the list back, provided that no length in it is zero.
pub proof fn lemma_lacing_round_trip(lengths: Seq<nat>)
    requires
        all_positive(lengths),
    ensures
        packet_lengths(lacing(lengths)) == lengths,
    decreases lengths.len(),
{
    if lengths.len() > 0 {
        let rest = lengths.drop_first();
        assert(all_positive(rest)) by {
            assert forall|i: int| 0 <= i < rest.len() implies #[trigger] rest[i] > 0 by {
                assert(rest[i] == lengths[i + 1]);
            }
        }
        lemma_lacing_round_trip(rest);
        lemma_group_one(lengths[0], lacing(rest), 0);
        assert(lengths =~= seq![lengths[0]] + rest);
    } else {
        assert(lengths =~= Seq::<nat>::empty());
    }
}

/// Grouping the table written for any list of lengths gives the list
/// without its zeros.
pub proof fn lemma_lacing_drops_zeros(lengths: Seq<nat>)
    ensures
        packet_lengths(lacing(lengths)) == lengths.filter(|l: nat| l > 0),
    decreases lengths.len(),
{
    reveal(Seq::filter);
    if lengths.len() > 0 {
        let rest = lengths.drop_first();
        lemma_lacing_drops_zeros(rest);
        lemma_group_one(lengths[0], lacing(rest), 0);
        assert(lengths =~= seq![lengths[0]] + rest);
        Seq::filter_distributes_over_add(seq![lengths[0]], rest, |l: nat| l > 0);
        lemma_filter_one(lengths[0]);
    } else {
        assert(lengths.filter(|l: nat| l > 0) =~= Seq::<nat>::empty());
    }
}

proof fn lemma_filter_one(length: nat)
    ensures
        seq![length].filter(|l: nat| l > 0) == if length > 0 {
            seq![length]
        } else {
            Seq::<nat>::empty()
        },
{
    reveal(Seq::filter);
    let one = seq![length];
    assert(one.drop_last() =~= Seq::<nat>::empty());
    assert(one.drop_last().filter(|l: nat| l > 0) =~= Seq::<nat>::empty());
    if length > 0 {
        assert(one.filter(|l: nat| l > 0) =~= seq![length]);
    }
}

/// Writing the packets of a segment table anew never takes more lacing
/// values than the table had.
pub proof fn lemma_regroup_fits(table: Seq<u8>, pending: nat)
    requires
        pending % 255 == 0,
    ensures
        lacing(group_from(table, pending)).len() <= table.len() + pending / 255,
    decreases table.len(),
{
    if table.len() > 0 {
        let rest = table.drop_first();
        if table[0] == 255 {
            lemma_regroup_fits(rest, pending + 255);
        } else {
            lemma_regroup_fits(rest, 0);
            let tail = group_from(rest, 0);
            if pending > 0 {
                let first = pending + table[0] as nat;
                lemma_lacing_concat(seq![first], tail);
                lemma_lacing_one(first);
                assert(first / 255 == pending / 255);
            } else if table[0] != 0 {
                lemma_lacing_concat(seq![table[0] as nat], tail);
                lemma_lacing_one(table[0] as nat);
            }
        }
    }
}

/// The segment table of one packet is the lacing values of that packet.
pub proof fn lemma_lacing_one(length: nat)
    ensures
        lacing(seq![length]) == lace_one(length),
        lace_one(length).len() == length / 255 + 1,
{
    reveal_with_fuel(lacing, 2);
    assert(seq![length].drop_first() =~= Seq::<nat>::empty());
    assert(lace_one(length) + Seq::<u8>::empty() =~= lace_one(length));
}

} // verus!

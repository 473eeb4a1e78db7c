//! Lacing: how a segment table divides a page body into packets.
use vstd::prelude::*;

use crate::page::{lemma_seq_sum_push, seq_sum};

verus! {

/// The packet sizes that table `t` gives, where a packet of `acc` bytes is under way (`open`).
/// A value under 255 ends a packet; 255 carries it on; a packet still under way when the table
/// ends is ended there.
pub open spec fn lace(t: Seq<u8>, acc: nat, open: bool) -> Seq<nat>
    decreases t.len(),
{
    if t.len() == 0 {
        if open {
            seq![acc]
        } else {
            seq![]
        }
    } else if t[0] < 255 {
        seq![(acc + t[0]) as nat].add(lace(t.drop_first(), 0, false))
    } else {
        lace(t.drop_first(), (acc + 255) as nat, true)
    }
}

/// The packet sizes that segment table `t` gives.
pub open spec fn packet_sizes(t: Seq<u8>) -> Seq<nat> {
    lace(t, 0, false)
}

/// `body` cut into consecutive pieces of the given sizes.
pub open spec fn split_by(body: Seq<u8>, sizes: Seq<nat>) -> Seq<Seq<u8>>
    decreases sizes.len(),
{
    if sizes.len() == 0 {
        seq![]
    } else {
        seq![body.take(sizes[0] as int)].add(split_by(body.skip(sizes[0] as int), sizes.drop_first()))
    }
}

pub proof fn lemma_lace_nonempty(t: Seq<u8>, acc: nat, open: bool)
    requires
        t.len() > 0 || open,
    ensures
        lace(t, acc, open).len() > 0,
    decreases t.len(),
{
    if t.len() > 0 && t[0] >= 255 {
        lemma_lace_nonempty(t.drop_first(), (acc + 255) as nat, true);
    }
}

pub proof fn lemma_lace_empty(t: Seq<u8>)
    requires
        t.len() == 0,
    ensures
        lace(t, 0, false).len() == 0,
{
}

/// Lace unfolded at position `p` of `t`.
pub proof fn lemma_lace_step(t: Seq<u8>, p: int, acc: nat, open: bool)
    requires
        0 <= p < t.len(),
    ensures
        t[p] < 255 ==> lace(t.skip(p), acc, open) == seq![(acc + t[p]) as nat].add(
            lace(t.skip(p + 1), 0, false),
        ),
        t[p] >= 255 ==> lace(t.skip(p), acc, open) == lace(t.skip(p + 1), (acc + 255) as nat, true),
{
    assert(t.skip(p).drop_first() =~= t.skip(p + 1));
}

pub proof fn lemma_seq_sum_take_mono(t: Seq<u8>, i: int, j: int)
    requires
        0 <= i <= j <= t.len(),
    ensures
        seq_sum(t.take(i)) <= seq_sum(t.take(j)),
    decreases j - i,
{
    if i < j {
        assert(t.take(j) =~= t.take(j - 1).push(t[j - 1]));
        lemma_seq_sum_push(t.take(j - 1), t[j - 1]);
        lemma_seq_sum_take_mono(t, i, j - 1);
    }
}

pub proof fn lemma_seq_sum_take_full(t: Seq<u8>)
    ensures
        seq_sum(t.take(t.len() as int)) == seq_sum(t),
{
    assert(t.take(t.len() as int) =~= t);
}

} // verus!

//! Building a checksummed page from whole packets.
use vstd::prelude::*;

use crate::lacing::{lace, lemma_lace_step, packet_sizes, split_by};
use crate::page::{
    capture, layout_ok, lemma_sealed, page_body, page_packets, recompute_checksum, sealed,
    segment_table, seq_sum, skeleton, skeleton_bytes, valid_page, OggPageBuf,
};

verus! {

/// The lacing values of one packet of `len` bytes: as many 255s as fit, then the rest, which is
/// 0 when `len` is a multiple of 255.
pub open spec fn lacing_of(len: nat) -> Seq<u8> {
    Seq::new(len / 255, |i: int| 255u8).push((len % 255) as u8)
}

/// The segment table for `ps`, packet after packet.
pub open spec fn table_of(ps: Seq<Seq<u8>>) -> Seq<u8>
    decreases ps.len(),
{
    if ps.len() == 0 {
        seq![]
    } else {
        lacing_of(ps[0].len()) + table_of(ps.drop_first())
    }
}

/// The bytes of `ps`, back to back.
pub open spec fn flatten(ps: Seq<Seq<u8>>) -> Seq<u8>
    decreases ps.len(),
{
    if ps.len() == 0 {
        seq![]
    } else {
        ps[0] + flatten(ps.drop_first())
    }
}

/// The sizes of `ps`.
pub open spec fn sizes_of(ps: Seq<Seq<u8>>) -> Seq<nat> {
    ps.map_values(|p: Seq<u8>| p.len())
}

/// The number of segment-table entries that `ps` take.
pub open spec fn total_segments(ps: Seq<Seq<u8>>) -> nat {
    table_of(ps).len()
}

/// The page `ps` are built into, before its checksum is set.
pub open spec fn unsealed_page(ps: Seq<Seq<u8>>) -> Seq<u8> {
    skeleton(total_segments(ps) as u8) + table_of(ps) + flatten(ps)
}

/// The page `ps` are built into.
pub open spec fn built_page(ps: Seq<Seq<u8>>) -> Seq<u8> {
    sealed(unsealed_page(ps))
}

pub proof fn lemma_table_push(ps: Seq<Seq<u8>>, x: Seq<u8>)
    ensures
        table_of(ps.push(x)) == table_of(ps) + lacing_of(x.len()),
        flatten(ps.push(x)) == flatten(ps) + x,
    decreases ps.len(),
{
    if ps.len() == 0 {
        assert(ps.push(x).drop_first() =~= Seq::<Seq<u8>>::empty());
        assert(ps.push(x)[0] == x);
        assert(table_of(ps.push(x).drop_first()) == Seq::<u8>::empty());
        assert(flatten(ps.push(x).drop_first()) == Seq::<u8>::empty());
        assert(table_of(ps.push(x)) =~= table_of(ps) + lacing_of(x.len()));
        assert(flatten(ps.push(x)) =~= flatten(ps) + x);
    } else {
        assert(ps.push(x).drop_first() =~= ps.drop_first().push(x));
        lemma_table_push(ps.drop_first(), x);
        assert(table_of(ps.push(x)) =~= table_of(ps) + lacing_of(x.len()));
        assert(flatten(ps.push(x)) =~= flatten(ps) + x);
    }
}

pub proof fn lemma_seq_sum_concat(a: Seq<u8>, b: Seq<u8>)
    ensures
        seq_sum(a + b) == seq_sum(a) + seq_sum(b),
    decreases b.len(),
{
    if b.len() == 0 {
        assert(a + b =~= a);
    } else {
        assert((a + b).drop_last() =~= a + b.drop_last());
        lemma_seq_sum_concat(a, b.drop_last());
    }
}

pub proof fn lemma_seq_sum_lacing(len: nat)
    ensures
        seq_sum(lacing_of(len)) == len,
{
    let k = len / 255;
    lemma_seq_sum_fulls(k);
    assert(lacing_of(len).drop_last() =~= Seq::new(k, |i: int| 255u8));
}

proof fn lemma_seq_sum_fulls(k: nat)
    ensures
        seq_sum(Seq::new(k, |i: int| 255u8)) == 255 * k,
    decreases k,
{
    if k > 0 {
        assert(Seq::new(k, |i: int| 255u8).drop_last() =~= Seq::new((k - 1) as nat, |i: int| 255u8));
        lemma_seq_sum_fulls((k - 1) as nat);
    }
}

pub proof fn lemma_seq_sum_table(ps: Seq<Seq<u8>>)
    ensures
        seq_sum(table_of(ps)) == flatten(ps).len(),
    decreases ps.len(),
{
    if ps.len() > 0 {
        lemma_seq_sum_table(ps.drop_first());
        lemma_seq_sum_lacing(ps[0].len());
        lemma_seq_sum_concat(lacing_of(ps[0].len()), table_of(ps.drop_first()));
    }
}

/// Lacing one packet and then `rest` reads back that packet's size, then what `rest` gives.
proof fn lemma_lace_lacing(len: nat, rest: Seq<u8>)
    ensures
        packet_sizes(lacing_of(len) + rest) == seq![len].add(packet_sizes(rest)),
{
    let k = len / 255;
    let t = lacing_of(len) + rest;
    lemma_lace_fulls(t, 0, k, len % 255);
    assert(t.skip(0) =~= t);
    assert(t.skip(k as int + 1) =~= rest);
}

/// Over the 255s at `t[j..k]` and the value `r` under 255 at `t[k]`, lace closes one packet.
proof fn lemma_lace_fulls(t: Seq<u8>, j: nat, k: nat, r: nat)
    requires
        j <= k < t.len(),
        r < 255,
        t[k as int] == r,
        forall|i: int| j <= i < k ==> t[i] == 255u8,
    ensures
        lace(t.skip(j as int), (255 * j) as nat, j > 0) == seq![(255 * k + r) as nat].add(
            lace(t.skip(k as int + 1), 0, false),
        ),
    decreases k - j,
{
    lemma_lace_step(t, j as int, (255 * j) as nat, j > 0);
    if j < k {
        lemma_lace_fulls(t, j + 1, k, r);
        assert((255 * j) as nat + 255 == 255 * (j + 1)) by (nonlinear_arith);
    }
}

pub proof fn lemma_sizes_table(ps: Seq<Seq<u8>>)
    ensures
        packet_sizes(table_of(ps)) == sizes_of(ps),
    decreases ps.len(),
{
    if ps.len() == 0 {
        assert(packet_sizes(table_of(ps)) =~= sizes_of(ps));
    } else {
        lemma_sizes_table(ps.drop_first());
        lemma_lace_lacing(ps[0].len(), table_of(ps.drop_first()));
        assert(sizes_of(ps) =~= seq![ps[0].len()].add(sizes_of(ps.drop_first())));
    }
}

pub proof fn lemma_split_flatten(ps: Seq<Seq<u8>>)
    ensures
        split_by(flatten(ps), sizes_of(ps)) == ps,
    decreases ps.len(),
{
    if ps.len() == 0 {
        assert(split_by(flatten(ps), sizes_of(ps)) =~= ps);
    } else {
        let f = flatten(ps);
        lemma_split_flatten(ps.drop_first());
        assert(f.take(ps[0].len() as int) =~= ps[0]);
        assert(f.skip(ps[0].len() as int) =~= flatten(ps.drop_first()));
        assert(sizes_of(ps).drop_first() =~= sizes_of(ps.drop_first()));
        assert(split_by(f, sizes_of(ps)) =~= ps);
    }
}

/// The unsealed page is sound in structure, with the table and body it was given.
pub proof fn lemma_unsealed_layout(ps: Seq<Seq<u8>>)
    requires
        total_segments(ps) <= 255,
    ensures
        layout_ok(unsealed_page(ps)),
        segment_table(unsealed_page(ps)) == table_of(ps),
        page_body(unsealed_page(ps)) == flatten(ps),
{
    let u = unsealed_page(ps);
    let n = total_segments(ps);
    assert(u[26] == n as u8);
    assert(u.take(4) =~= capture());
    assert(segment_table(u) =~= table_of(ps));
    lemma_seq_sum_table(ps);
    assert(page_body(u) =~= flatten(ps));
}

/// Built pages are valid, and hand back the packets they were built from.
pub proof fn lemma_built_page(ps: Seq<Seq<u8>>)
    requires
        total_segments(ps) <= 255,
    ensures
        valid_page(built_page(ps)),
        page_packets(built_page(ps)) == ps,
{
    let u = unsealed_page(ps);
    lemma_unsealed_layout(ps);
    lemma_sealed(u);
    let b = built_page(ps);
    assert(b[26] == u[26]);
    assert(segment_table(b) =~= segment_table(u));
    assert(page_body(b) =~= page_body(u));
    lemma_sizes_table(ps);
    lemma_split_flatten(ps);
}


/// Gathers packets and builds them into one page.
pub struct OggBuilder {
    lengths: Vec<usize>,
    buffer: Vec<u8>,
    packets: Ghost<Seq<Seq<u8>>>,
}

impl View for OggBuilder {
    type V = Seq<Seq<u8>>;

    closed spec fn view(&self) -> Seq<Seq<u8>> {
        self.packets@
    }
}

impl OggBuilder {
    #[verifier::type_invariant]
    spec fn inv(self) -> bool {
        &&& self.lengths@.len() == self.packets@.len()
        &&& forall|i: int|
            0 <= i < self.lengths@.len() ==> self.lengths@[i] == self.packets@[i].len()
        &&& self.buffer@ == flatten(self.packets@)
    }

    /// The number of packet bytes gathered so far.
    pub closed spec fn byte_len(&self) -> nat {
        self.buffer@.len()
    }

    pub fn new() -> (r: OggBuilder)
        ensures
            r@ == Seq::<Seq<u8>>::empty(),
            r.byte_len() == 0,
    {
        OggBuilder { lengths: Vec::new(), buffer: Vec::new(), packets: Ghost(Seq::empty()) }
    }

    /// Adds one packet after those already added.
    pub fn add_packet(&mut self, packet: &[u8])
        requires
            old(self).byte_len() + packet@.len() <= usize::MAX,
        ensures
            final(self)@ == old(self)@.push(packet@),
            final(self).byte_len() == old(self).byte_len() + packet@.len(),
    {
        proof {
            use_type_invariant(&*self);
            lemma_table_push(self.packets@, packet@);
        }
        let mut lengths = self.lengths.clone();
        let mut buffer = self.buffer.clone();
        lengths.push(packet.len());
        buffer.extend_from_slice(packet);
        let ghost packets = self.packets@.push(packet@);
        assert(buffer@ =~= flatten(packets));
        *self = OggBuilder { lengths, buffer, packets: Ghost(packets) };
    }

    /// Builds the packets into one page, with flags, granule position, serial and sequence zero,
    /// and its checksum set. Fails when the packets need more than 255 lacing values.
    pub fn build(&self) -> (r: Result<OggPageBuf, ()>)
        ensures
            r is Ok <==> total_segments(self@) <= 255,
            r matches Ok(page) ==> page@ == built_page(self@) && valid_page(page@)
                && page_packets(page@) == self@,
    {
        proof {
            use_type_invariant(self);
        }
        let ghost ps = self.packets@;
        let mut segment_count: usize = 0;
        let mut i: usize = 0;
        let n = self.lengths.len();
        assert(ps.take(0) =~= Seq::<Seq<u8>>::empty());
        while i < n
            invariant
                n == self.lengths@.len() == ps.len(),
                ps == self.packets@,
                forall|j: int| 0 <= j < self.lengths@.len() ==> self.lengths@[j] == ps[j].len(),
                i <= n,
                segment_count == total_segments(ps.take(i as int)),
                segment_count <= 255,
            decreases n - i,
        {
            let length = self.lengths[i];
            proof {
                assert(ps.take(i + 1) =~= ps.take(i as int).push(ps[i as int]));
                lemma_table_push(ps.take(i as int), ps[i as int]);
            }
            segment_count = segment_count + length / 255 + 1;
            i = i + 1;
            if 255 < segment_count {
                proof {
                    lemma_total_mono(ps, i as int);
                }
                return Err(());
            }
        }
        assert(ps.take(n as int) =~= ps);
        let mut header = skeleton_bytes(segment_count as u8);
        let ghost head = skeleton(segment_count as u8);
        let mut i: usize = 0;
        while i < n
            invariant
                n == self.lengths@.len() == ps.len(),
                ps == self.packets@,
                forall|j: int| 0 <= j < self.lengths@.len() ==> self.lengths@[j] == ps[j].len(),
                i <= n,
                header@ == head + table_of(ps.take(i as int)),
                total_segments(ps) <= 255,
                table_of(ps.take(i as int)).len() <= 255,
                head.len() == 27,
            decreases n - i,
        {
            let mut length: usize = self.lengths[i];
            let ghost before = header@;
            let ghost len0 = length as nat;
            proof {
                assert(ps.take(i + 1) =~= ps.take(i as int).push(ps[i as int]));
                lemma_table_push(ps.take(i as int), ps[i as int]);
                lemma_total_mono(ps, i + 1);
            }
            while 255 <= length
                invariant
                    length <= len0,
                    (len0 - length) % 255 == 0,
                    len0 % 255 == length % 255,
                    header@ == before + Seq::new(((len0 - length) / 255) as nat, |k: int| 255u8),
                decreases length,
            {
                length = length - 255;
                header.push(255);
                proof {
                    let k = ((len0 - length - 255) / 255) as nat;
                    assert(((len0 - length) / 255) as nat == k + 1) by (nonlinear_arith)
                        requires (len0 - length - 255) % 255 == 0, len0 >= length + 255, k == (len0 - length - 255) / 255;
                    assert(header@ =~= before + Seq::new(k + 1, |j: int| 255u8));
                }
            }
            header.push(length as u8);
            proof {
                assert((len0 - length) / 255 == len0 / 255 && length == len0 % 255) by (nonlinear_arith)
                    requires (len0 - length) % 255 == 0, len0 % 255 == length % 255, length < 255, length <= len0;
                assert(header@ =~= before + lacing_of(len0));
            }
            i = i + 1;
        }
        assert(ps.take(n as int) =~= ps);
        header.extend_from_slice(self.buffer.as_slice());
        assert(header@ =~= unsealed_page(ps));
        proof {
            lemma_unsealed_layout(ps);
        }
        recompute_checksum(&mut header);
        proof {
            lemma_built_page(ps);
        }
        Ok(OggPageBuf::from_built(header))
    }
}

/// The lacing values of a prefix of `ps` are never more than those of `ps`.
proof fn lemma_total_mono(ps: Seq<Seq<u8>>, i: int)
    requires
        0 <= i <= ps.len(),
    ensures
        total_segments(ps.take(i)) <= total_segments(ps),
    decreases ps.len() - i,
{
    if i < ps.len() {
        assert(ps.take(i + 1) =~= ps.take(i).push(ps[i]));
        lemma_table_push(ps.take(i), ps[i]);
        lemma_total_mono(ps, i + 1);
    } else {
        assert(ps.take(i) =~= ps);
    }
}

} // verus!

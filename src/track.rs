//! Tracks: byte buffers that are a run of whole, valid pages.
use vstd::prelude::*;

use crate::page::{
    check_layout, check_page, segment_table, spec_position, valid_page, OggPage,
    OggPageCheckError, HEADER_LEN,
};

verus! {

/// Validation of `s` as pages back to back from its start to its end; `Ok` holds the pages.
pub open spec fn check_track(s: Seq<u8>) -> Result<Seq<Seq<u8>>, OggPageCheckError>
    decreases s.len(),
{
    if s.len() == 0 {
        Ok(seq![])
    } else {
        match check_page(s) {
            Err(e) => Err(e),
            Ok(n) => if 0 < n <= s.len() {
                match check_track(s.skip(n)) {
                    Ok(rest) => Ok(seq![s.take(n)].add(rest)),
                    Err(e) => Err(e),
                }
            } else {
                Err(OggPageCheckError::TooShort)
            },
        }
    }
}

/// The pages of a valid track.
pub open spec fn track_pages(s: Seq<u8>) -> Seq<Seq<u8>> {
    match check_track(s) {
        Ok(ps) => ps,
        Err(_) => seq![],
    }
}

/// A borrowed buffer of whole, valid pages.
pub struct OggTrack<'a> {
    inner: &'a [u8],
}

impl<'a> View for OggTrack<'a> {
    type V = Seq<u8>;

    closed spec fn view(&self) -> Seq<u8> {
        self.inner@
    }
}

impl<'a> OggTrack<'a> {
    #[verifier::type_invariant]
    spec fn inv(self) -> bool {
        check_track(self.inner@) is Ok
    }

    /// Validates `buf` page by page, from its start to its end; the first bad page fails the
    /// whole track.
    pub fn new(buf: &'a [u8]) -> (r: Result<OggTrack<'a>, OggPageCheckError>)
        ensures
            match check_track(buf@) {
                Ok(_) => r matches Ok(t) && t@ == buf@,
                Err(e) => r matches Err(e2) && e2 == e,
            },
    {
        let len = buf.len();
        let mut offset: usize = 0;
        assert(buf@.skip(0) =~= buf@);
        while offset < len
            invariant
                len == buf@.len(),
                offset <= len,
                check_track(buf@) is Ok <==> check_track(buf@.skip(offset as int)) is Ok,
                forall|e: OggPageCheckError|
                    check_track(buf@) == Err::<Seq<Seq<u8>>, OggPageCheckError>(e) ==> check_track(
                        buf@.skip(offset as int),
                    ) == Err::<Seq<Seq<u8>>, OggPageCheckError>(e),
            decreases len - offset,
        {
            let rest = vstd::slice::slice_subrange(buf, offset, len);
            assert(rest@ =~= buf@.skip(offset as int));
            match OggPage::measure(rest) {
                Ok(n) => {
                    assert(rest@.skip(n as int) =~= buf@.skip(offset + n));
                    offset = offset + n;
                },
                Err(e) => {
                    assert(check_track(rest@) == Err::<Seq<Seq<u8>>, OggPageCheckError>(e));
                    return Err(e);
                },
            }
        }
        assert(buf@.skip(offset as int) =~= Seq::<u8>::empty());
        Ok(OggTrack { inner: buf })
    }

    /// The track's bytes.
    pub fn as_u8_slice(&self) -> (r: &'a [u8])
        ensures
            r@ == self@,
    {
        self.inner
    }

    /// The pages of the track, in order, one per `next` call.
    pub fn pages(&self) -> (r: TrackPageIter<'a>)
        ensures
            r.wf(),
            r.remaining() == track_pages(self@),
    {
        proof {
            use_type_invariant(self);
        }
        assert(self.inner@.skip(0) =~= self.inner@);
        TrackPageIter { data: self.inner, offset: 0 }
    }
}

/// Walks the pages of a track.
pub struct TrackPageIter<'a> {
    data: &'a [u8],
    offset: usize,
}

impl<'a> TrackPageIter<'a> {
    pub closed spec fn wf(&self) -> bool {
        &&& self.offset <= self.data@.len()
        &&& check_track(self.data@.skip(self.offset as int)) is Ok
    }

    /// The pages not handed out yet.
    pub closed spec fn remaining(&self) -> Seq<Seq<u8>> {
        track_pages(self.data@.skip(self.offset as int))
    }

    /// The next page, if any is left.
    pub fn next(&mut self) -> (r: Option<OggPage>)
        requires
            old(self).wf(),
        ensures
            final(self).wf(),
            r is None <==> old(self).remaining().len() == 0,
            r is None ==> final(self).remaining() == old(self).remaining(),
            r matches Some(p) ==> p@ == old(self).remaining()[0] && final(self).remaining()
                == old(self).remaining().drop_first(),
    {
        let len = self.data.len();
        if self.offset == len {
            assert(self.data@.skip(self.offset as int) =~= Seq::<u8>::empty());
            return None;
        }
        let rest = vstd::slice::slice_subrange(self.data, self.offset, len);
        assert(rest@ =~= self.data@.skip(self.offset as int));
        match OggPage::new(rest) {
            Ok(page) => {
                let n = page.as_u8_slice().len();
                assert(rest@.skip(n as int) =~= self.data@.skip(self.offset + n));
                self.offset = self.offset + n;
                Some(page)
            },
            Err(_) => {
                None
            },
        }
    }
}

/// An owned buffer of whole, valid pages.
pub struct OggTrackBuf {
    inner: Vec<u8>,
}

impl View for OggTrackBuf {
    type V = Seq<u8>;

    closed spec fn view(&self) -> Seq<u8> {
        self.inner@
    }
}

impl OggTrackBuf {
    #[verifier::type_invariant]
    spec fn inv(self) -> bool {
        check_track(self.inner@) is Ok
    }

    /// Validates `buf` as a track and keeps it.
    pub fn new(buf: Vec<u8>) -> (r: Result<OggTrackBuf, OggPageCheckError>)
        ensures
            match check_track(buf@) {
                Ok(_) => r matches Ok(t) && t@ == buf@,
                Err(e) => r matches Err(e2) && e2 == e,
            },
    {
        match OggTrack::new(buf.as_slice()) {
            Ok(_) => Ok(OggTrackBuf { inner: buf }),
            Err(e) => Err(e),
        }
    }

    /// The track's bytes.
    pub fn into_inner(self) -> (r: Vec<u8>)
        ensures
            r@ == self@,
    {
        self.inner
    }

    /// The track, borrowed.
    pub fn track(&self) -> (r: OggTrack<'_>)
        ensures
            r@ == self@,
    {
        proof {
            use_type_invariant(self);
        }
        OggTrack { inner: self.inner.as_slice() }
    }
}


/// The largest granule position of `pages`, or 0 when there are none.
pub open spec fn max_position(pages: Seq<Seq<u8>>) -> u64
    decreases pages.len(),
{
    if pages.len() == 0 {
        0
    } else {
        let m = max_position(pages.drop_last());
        let p = spec_position(pages.last());
        if m < p {
            p
        } else {
            m
        }
    }
}

/// The playing time in milliseconds of `granule` samples at `sample_rate` samples a second,
/// rounded down.
pub open spec fn spec_duration_ms(granule: u64, sample_rate: u32) -> int {
    (1000 * granule as int) / (sample_rate as int)
}

/// The playing time in milliseconds, rounded down; `None` when it does not fit in a `u32`.
pub fn duration_ms(granule: u64, sample_rate: u32) -> (r: Option<u32>)
    requires
        sample_rate > 0,
    ensures
        r == (if spec_duration_ms(granule, sample_rate) <= u32::MAX {
            Some(spec_duration_ms(granule, sample_rate) as u32)
        } else {
            None
        }),
{
    assert(1000 * (granule as int) <= 1000 * u64::MAX) by (nonlinear_arith);
    let scaled: u128 = (granule as u128) * 1000;
    let v: u128 = scaled / (sample_rate as u128);
    if v <= u32::MAX as u128 {
        Some(v as u32)
    } else {
        None
    }
}

impl<'a> OggTrack<'a> {
    /// The largest granule position over the track's pages, 0 for an empty track.
    pub fn max_position(&self) -> (r: u64)
        ensures
            r == max_position(track_pages(self@)),
    {
        let mut iter = self.pages();
        let ghost all = iter.remaining();
        let mut m: u64 = 0;
        let ghost mut i: int = 0;
        assert(all.take(0) =~= Seq::<Seq<u8>>::empty());
        assert(all.skip(0) =~= all);
        loop
            invariant
                iter.wf(),
                all == track_pages(self@),
                0 <= i <= all.len(),
                iter.remaining() == all.skip(i),
                m == max_position(all.take(i)),
            decreases all.len() - i,
        {
            match iter.next() {
                None => {
                    assert(all.take(i) =~= all);
                    return m;
                },
                Some(page) => {
                    let p = page.position();
                    proof {
                        assert(all.take(i + 1).drop_last() =~= all.take(i));
                        assert(all.skip(i).drop_first() =~= all.skip(i + 1));
                    }
                    if m < p {
                        m = p;
                    }
                    proof {
                        i = i + 1;
                    }
                },
            }
        }
    }
}


/// What follows a page does not change how it validates.
pub proof fn lemma_check_page_extend(s: Seq<u8>, t: Seq<u8>)
    requires
        check_page(s) is Ok,
    ensures
        check_page(s + t) == check_page(s),
{
    let u = s + t;
    let n = check_page(s)->Ok_0;
    assert(u.take(4) =~= s.take(4));
    assert(u[4] == s[4] && u[26] == s[26]);
    assert(segment_table(u) =~= segment_table(s));
    assert(u.take(n) =~= s.take(n));
    assert(u[22] == s[22] && u[23] == s[23] && u[24] == s[24] && u[25] == s[25]);
}

/// Two tracks back to back are a track.
pub proof fn lemma_track_concat(a: Seq<u8>, b: Seq<u8>)
    requires
        check_track(a) is Ok,
        check_track(b) is Ok,
    ensures
        check_track(a + b) is Ok,
    decreases a.len(),
{
    if a.len() == 0 {
        assert(a + b =~= b);
    } else {
        let n = check_page(a)->Ok_0;
        lemma_check_page_extend(a, b);
        assert((a + b).skip(n) =~= a.skip(n) + b);
        lemma_track_concat(a.skip(n), b);
    }
}

/// One valid page is a track.
pub proof fn lemma_page_is_track(p: Seq<u8>)
    requires
        valid_page(p),
    ensures
        check_track(p) is Ok,
{
    assert(check_layout(p) is Ok);
    assert(p.len() >= HEADER_LEN);
    assert(p.skip(p.len() as int) =~= Seq::<u8>::empty());
    assert(check_track(p.skip(p.len() as int)) is Ok);
}

/// Walks the pages of an owned track, handing each out for editing and taking the edited page
/// back in its place.
pub struct TrackPageIterMut {
    data: Vec<u8>,
    // where the page handed out last starts
    last: usize,
    // where the next page starts
    offset: usize,
}

impl View for TrackPageIterMut {
    type V = Seq<u8>;

    closed spec fn view(&self) -> Seq<u8> {
        self.data@
    }
}

impl TrackPageIterMut {
    #[verifier::type_invariant]
    spec fn inv(self) -> bool {
        let d = self.data@;
        &&& self.last <= self.offset <= d.len()
        &&& check_track(d.take(self.last as int)) is Ok
        &&& (self.last == self.offset || valid_page(d.subrange(self.last as int, self.offset as int)))
        &&& check_track(d.skip(self.offset as int)) is Ok
    }

    /// Where the next page starts.
    pub closed spec fn position(&self) -> int {
        self.offset as int
    }

    /// Where the page handed out last starts; equal to `position` when there is none.
    pub closed spec fn last_start(&self) -> int {
        self.last as int
    }

    /// The next page, if any is left.
    pub fn next(&mut self) -> (r: Option<OggPage>)
        ensures
            final(self)@ == old(self)@,
            r is None <==> old(self).position() == old(self)@.len(),
            r is None ==> final(self).position() == old(self).position() && final(self).last_start()
                == old(self).last_start(),
            r matches Some(p) ==> final(self).last_start() == old(self).position()
                && final(self).position() == old(self).position() + p@.len() && p@ == old(
                self,
            )@.subrange(old(self).position(), final(self).position()),
    {
        proof {
            use_type_invariant(&*self);
        }
        let len = self.data.len();
        if self.offset == len {
            return None;
        }
        let ghost d = self.data@;
        let ghost off = self.offset as int;
        let rest = vstd::slice::slice_subrange(self.data.as_slice(), self.offset, len);
        assert(rest@ =~= d.skip(off));
        match OggPage::new(rest) {
            Ok(page) => {
                let n = page.as_u8_slice().len();
                proof {
                    OggPage::lemma_check_prefix(rest@, n as int);
                    let last = self.last as int;
                    let head = d.take(last);
                    if last < off {
                        lemma_page_is_track(d.subrange(last, off));
                        lemma_track_concat(head, d.subrange(last, off));
                        assert(head + d.subrange(last, off) =~= d.take(off));
                    } else {
                        assert(head =~= d.take(off));
                    }
                    assert(rest@.skip(n as int) =~= d.skip(off + n));
                    assert(page@ =~= d.subrange(off, off + n));
                }
                let data = self.data.clone();
                *self = TrackPageIterMut { data, last: self.offset, offset: self.offset + n };
                Some(page)
            },
            Err(_) => None,
        }
    }

    /// Writes `page` over the page handed out last, which it must match in length: edits of a
    /// page never change its length.
    pub fn put_back(&mut self, page: OggPage)
        requires
            old(self).last_start() < old(self).position(),
            page@.len() == old(self).position() - old(self).last_start(),
        ensures
            final(self)@ == old(self)@.take(old(self).last_start()) + page@ + old(self)@.skip(
                old(self).position(),
            ),
            final(self).position() == old(self).position(),
            final(self).last_start() == old(self).last_start(),
    {
        proof {
            use_type_invariant(&*self);
        }
        let ghost d = self.data@;
        let mut data = self.data.clone();
        let bytes = page.as_u8_slice();
        let n = bytes.len();
        let mut i: usize = 0;
        while i < n
            invariant
                n == bytes@.len() == page@.len(),
                bytes@ == page@,
                self.last + n == self.offset <= d.len(),
                data@.len() == d.len(),
                i <= n,
                forall|j: int| 0 <= j < self.last + i ==> j < self.last ==> data@[j] == d[j],
                forall|j: int| 0 <= j < self.last ==> data@[j] == d[j],
                forall|j: int| self.last <= j < self.last + i ==> data@[j] == page@[j - self.last],
                forall|j: int| self.last + i <= j < d.len() ==> data@[j] == d[j],
            decreases n - i,
        {
            data.set(self.last + i, bytes[i]);
            i = i + 1;
        }
        let ghost e = data@;
        assert(e =~= d.take(self.last as int) + page@ + d.skip(self.offset as int));
        assert(e.take(self.last as int) =~= d.take(self.last as int));
        assert(e.subrange(self.last as int, self.offset as int) =~= page@);
        assert(e.skip(self.offset as int) =~= d.skip(self.offset as int));
        *self = TrackPageIterMut { data, last: self.last, offset: self.offset };
    }

    /// The track as it now stands.
    pub fn into_track(self) -> (r: OggTrackBuf)
        ensures
            r@ == self@,
    {
        proof {
            use_type_invariant(&self);
            let d = self.data@;
            let last = self.last as int;
            let off = self.offset as int;
            if last < off {
                lemma_page_is_track(d.subrange(last, off));
                lemma_track_concat(d.take(last), d.subrange(last, off));
                assert(d.take(last) + d.subrange(last, off) =~= d.take(off));
            } else {
                assert(d.take(last) =~= d.take(off));
            }
            lemma_track_concat(d.take(off), d.skip(off));
            assert(d.take(off) + d.skip(off) =~= d);
        }
        OggTrackBuf { inner: self.data }
    }
}

impl OggTrackBuf {
    /// Walks the track's pages for editing.
    pub fn pages_mut(self) -> (r: TrackPageIterMut)
        ensures
            r@ == self@,
            r.position() == 0,
            r.last_start() == 0,
    {
        proof {
            use_type_invariant(&self);
            assert(self.inner@.take(0) =~= Seq::<u8>::empty());
            assert(self.inner@.skip(0) =~= self.inner@);
        }
        TrackPageIterMut { data: self.inner, last: 0, offset: 0 }
    }
}

} // verus!

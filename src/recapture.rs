//! A four-byte window that spots the capture pattern in a byte stream, to find the next page
//! after damage.
use vstd::prelude::*;

use crate::page::capture;

verus! {

/// The last four bytes seen, oldest first.
pub struct Recapture(pub [u8; 4]);

impl View for Recapture {
    type V = Seq<u8>;

    open spec fn view(&self) -> Seq<u8> {
        self.0@
    }
}

impl Recapture {
    pub fn new() -> (r: Recapture)
        ensures
            r@ == seq![0u8, 0u8, 0u8, 0u8],
    {
        let r = Recapture([0u8, 0u8, 0u8, 0u8]);
        assert(r@ =~= seq![0u8, 0u8, 0u8, 0u8]);
        r
    }

    /// Slides the window on by `byte`.
    pub fn push_byte(&mut self, byte: u8)
        ensures
            final(self)@ == old(self)@.drop_first().push(byte),
    {
        let buf = [self.0[1], self.0[2], self.0[3], byte];
        let ghost before = self@;
        *self = Recapture(buf);
        assert(self@ =~= before.drop_first().push(byte));
    }

    /// Whether the window holds the capture pattern.
    pub fn is_captured(&self) -> (r: bool)
        ensures
            r == (self@ == capture()),
    {
        let r = self.0[0] == 0x4f && self.0[1] == 0x67 && self.0[2] == 0x67 && self.0[3] == 0x53;
        proof {
            if r {
                assert(self@ =~= capture());
            } else if self@ == capture() {
                assert(self@[0] == 0x4f && self@[1] == 0x67 && self@[2] == 0x67 && self@[3] == 0x53);
            }
        }
        r
    }
}

} // verus!

//! A byte cursor over one received frame, with little-endian readers and
//! the two frame operations of the vendor protocol.
use vstd::prelude::*;
use crate::strutil::{string_from_utf8_lossy, utf8_lossy_of};

verus! {

/// The two-byte FOOD magic, read little-endian.
pub open spec fn food_magic() -> u16 {
    0xF00D
}

/// The 16-bit little-endian value at `pos`.
pub open spec fn le_u16_at(b: Seq<u8>, pos: int) -> u16 {
    ((b[pos] as int) + 256 * (b[pos + 1] as int)) as u16
}

/// The 32-bit little-endian value at `pos`.
pub open spec fn le_u32_at(b: Seq<u8>, pos: int) -> u32 {
    ((b[pos] as int) + 256 * (b[pos + 1] as int) + 65536 * (b[pos + 2] as int) + 16777216 * (b[pos
        + 3] as int)) as u32
}

/// Reads a frame held in memory, left to right.
#[derive(Debug)]
pub struct ByteCursor {
    pub data: Vec<u8>,
    pub pos: usize,
}

/// The vendor-protocol operations a frame reader offers: reading one
/// length-prefixed string, and checking the FOOD magic.
pub trait WizIntegration {
    /// The bytes the reader walks.
    spec fn stream_data(&self) -> Seq<u8>;

    /// How far it has come.
    spec fn stream_pos(&self) -> int;

    /// Reads a 16-bit length, then that many bytes, as a lossily-decoded
    /// string; nothing when the frame is too short.
    fn read_bytestring(&mut self) -> (r: Option<String>)
        ensures
            final(self).stream_data() == old(self).stream_data(),
            r is Some <==> old(self).stream_pos() + 2 <= old(self).stream_data().len() && old(
                self,
            ).stream_pos() + 2 + le_u16_at(old(self).stream_data(), old(self).stream_pos())
                <= old(self).stream_data().len(),
            r matches Some(s) ==> {
                let start = old(self).stream_pos() + 2;
                let end = start + le_u16_at(old(self).stream_data(), old(self).stream_pos());
                &&& s@ == utf8_lossy_of(old(self).stream_data().subrange(start, end))
                &&& final(self).stream_pos() == end
            },
    ;

    /// Reads a 16-bit value and tells whether it is the FOOD magic;
    /// nothing when the frame is too short.
    fn verify_food_header(&mut self) -> (r: Option<bool>)
        ensures
            final(self).stream_data() == old(self).stream_data(),
            r is Some <==> old(self).stream_pos() + 2 <= old(self).stream_data().len(),
            r matches Some(v) ==> v == (le_u16_at(old(self).stream_data(), old(self).stream_pos())
                == food_magic()) && final(self).stream_pos() == old(self).stream_pos() + 2,
    ;
}

impl ByteCursor {
    pub fn new(data: Vec<u8>) -> (r: ByteCursor)
        ensures
            r.data == data,
            r.pos == 0,
    {
        ByteCursor { data, pos: 0 }
    }

    /// The next byte; nothing when the frame is exhausted.
    pub fn read_u8(&mut self) -> (r: Option<u8>)
        ensures
            final(self).data == old(self).data,
            r is Some <==> old(self).pos + 1 <= old(self).data@.len(),
            r matches Some(v) ==> v == old(self).data@[old(self).pos as int] && final(self).pos
                == old(self).pos + 1,
    {
        if self.data.len() >= 1 && self.pos <= self.data.len() - 1 {
            let v: u8 = self.data[self.pos];
            self.pos = self.pos + 1;
            Some(v)
        } else {
            None
        }
    }

    /// The next two bytes, little-endian.
    pub fn read_u16_le(&mut self) -> (r: Option<u16>)
        ensures
            final(self).data == old(self).data,
            r is Some <==> old(self).pos + 2 <= old(self).data@.len(),
            r matches Some(v) ==> v == le_u16_at(old(self).data@, old(self).pos as int)
                && final(self).pos == old(self).pos + 2,
    {
        if self.data.len() >= 2 && self.pos <= self.data.len() - 2 {
            let b0: u8 = self.data[self.pos];
            let b1: u8 = self.data[self.pos + 1];
            self.pos = self.pos + 2;
            Some(b0 as u16 + (b1 as u16) * 256)
        } else {
            None
        }
    }

    /// The next four bytes, little-endian.
    pub fn read_u32_le(&mut self) -> (r: Option<u32>)
        ensures
            final(self).data == old(self).data,
            r is Some <==> old(self).pos + 4 <= old(self).data@.len(),
            r matches Some(v) ==> v == le_u32_at(old(self).data@, old(self).pos as int)
                && final(self).pos == old(self).pos + 4,
    {
        if self.data.len() >= 4 && self.pos <= self.data.len() - 4 {
            let b0: u8 = self.data[self.pos];
            let b1: u8 = self.data[self.pos + 1];
            let b2: u8 = self.data[self.pos + 2];
            let b3: u8 = self.data[self.pos + 3];
            self.pos = self.pos + 4;
            Some(b0 as u32 + (b1 as u32) * 256 + (b2 as u32) * 65536 + (b3 as u32) * 16777216)
        } else {
            None
        }
    }

    /// The next `n` bytes; nothing when fewer remain.
    pub fn read_exact(&mut self, n: usize) -> (r: Option<Vec<u8>>)
        ensures
            final(self).data == old(self).data,
            r is Some <==> old(self).pos + n <= old(self).data@.len(),
            r matches Some(v) ==> v@ == old(self).data@.subrange(
                old(self).pos as int,
                old(self).pos + n,
            ) && final(self).pos == old(self).pos + n,
    {
        if self.data.len() >= n && self.pos <= self.data.len() - n {
            let mut v: Vec<u8> = Vec::new();
            let start: usize = self.pos;
            let mut i: usize = 0;
            while i < n
                invariant
                    i <= n,
                    start + n <= self.data@.len(),
                    self.data@.len() <= usize::MAX,
                    v@ =~= self.data@.subrange(start as int, start + i),
                decreases n - i,
            {
                v.push(self.data[start + i]);
                i = i + 1;
            }
            self.pos = start + n;
            proof {
                assert(v@ =~= self.data@.subrange(start as int, start + n));
            }
            Some(v)
        } else {
            None
        }
    }
}

impl WizIntegration for ByteCursor {
    open spec fn stream_data(&self) -> Seq<u8> {
        self.data@
    }

    open spec fn stream_pos(&self) -> int {
        self.pos as int
    }

    fn read_bytestring(&mut self) -> (r: Option<String>) {
        let len16: u16 = match self.read_u16_le() {
            Some(l) => l,
            None => {
                return None;
            },
        };
        let bytes: Vec<u8> = match self.read_exact(len16 as usize) {
            Some(b) => b,
            None => {
                return None;
            },
        };
        Some(string_from_utf8_lossy(&bytes))
    }

    fn verify_food_header(&mut self) -> (r: Option<bool>) {
        match self.read_u16_le() {
            Some(v) => Some(v == 0xF00D),
            None => None,
        }
    }
}

} // verus!

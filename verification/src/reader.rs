//! An in-memory byte source with a read cursor.
//!
//! The decoder consumes fixed-width little-endian integers and runs of
//! 16-bit character units from the front of a byte buffer, advancing a
//! cursor and failing with [`DecodeError::UnexpectedEof`] when fewer bytes
//! remain than a field needs.

use vstd::prelude::*;
use vstd::bytes::{spec_u16_from_le_bytes, spec_u32_from_le_bytes, u16_from_le_bytes,
    u32_from_le_bytes};
use vstd::slice::slice_subrange;
use crate::error::DecodeError;
use crate::text::{utf16_decode, units_of, decode_utf16_units};

verus! {

/// A byte source positioned somewhere inside a buffer. Reads consume bytes
/// from the front of [`ByteReader::remaining`] and never touch bytes already
/// consumed.
pub struct ByteReader {
    bytes: Vec<u8>,
    pos: usize,
}

impl ByteReader {
    /// All bytes held by the source, consumed or not.
    pub closed spec fn data(self) -> Seq<u8> {
        self.bytes@
    }

    /// How many bytes have been consumed so far.
    pub closed spec fn position(self) -> int {
        self.pos as int
    }

    /// The bytes not yet consumed.
    pub open spec fn remaining(self) -> Seq<u8> {
        self.data().skip(self.position())
    }

    /// The cursor never lies outside the buffer.
    pub open spec fn wf(self) -> bool {
        0 <= self.position() <= self.data().len()
    }

    /// A source positioned at the start of the given buffer.
    pub fn new(bytes: Vec<u8>) -> (r: ByteReader)
        ensures
            r.wf(),
            r.data() == bytes@,
            r.position() == 0,
    {
        ByteReader { bytes, pos: 0 }
    }

    /// How many bytes are left to read.
    pub fn bytes_remaining(&self) -> (n: usize)
        requires
            self.wf(),
        ensures
            n == self.remaining().len(),
    {
        self.bytes.len() - self.pos
    }

    /// Consume one byte.
    pub fn read_u8(&mut self) -> (r: Result<u8, DecodeError>)
        requires
            old(self).wf(),
        ensures
            final(self).wf(),
            final(self).data() == old(self).data(),
            match r {
                Ok(v) => {
                    &&& old(self).remaining().len() >= 1
                    &&& v == old(self).remaining()[0]
                    &&& final(self).remaining() == old(self).remaining().skip(1)
                },
                Err(e) => {
                    &&& e == DecodeError::UnexpectedEof
                    &&& old(self).remaining().len() < 1
                    &&& *final(self) == *old(self)
                },
            },
    {
        if self.bytes.len() - self.pos >= 1 {
            let v = self.bytes[self.pos];
            self.pos = self.pos + 1;
            proof {
                assert(self.remaining() =~= old(self).remaining().skip(1));
            }
            Ok(v)
        } else {
            Err(DecodeError::UnexpectedEof)
        }
    }

    /// Consume a 2-byte little-endian unsigned integer.
    pub fn read_u16_le(&mut self) -> (r: Result<u16, DecodeError>)
        requires
            old(self).wf(),
        ensures
            final(self).wf(),
            final(self).data() == old(self).data(),
            match r {
                Ok(v) => {
                    &&& old(self).remaining().len() >= 2
                    &&& v == spec_u16_from_le_bytes(old(self).remaining().subrange(0, 2))
                    &&& final(self).remaining() == old(self).remaining().skip(2)
                },
                Err(e) => {
                    &&& e == DecodeError::UnexpectedEof
                    &&& old(self).remaining().len() < 2
                    &&& *final(self) == *old(self)
                },
            },
    {
        if self.bytes.len() - self.pos >= 2 {
            let s = slice_subrange(self.bytes.as_slice(), self.pos, self.pos + 2);
            let v = u16_from_le_bytes(s);
            proof {
                assert(s@ =~= old(self).remaining().subrange(0, 2));
            }
            self.pos = self.pos + 2;
            proof {
                assert(self.remaining() =~= old(self).remaining().skip(2));
            }
            Ok(v)
        } else {
            Err(DecodeError::UnexpectedEof)
        }
    }

    /// Consume a 4-byte little-endian unsigned integer.
    pub fn read_u32_le(&mut self) -> (r: Result<u32, DecodeError>)
        requires
            old(self).wf(),
        ensures
            final(self).wf(),
            final(self).data() == old(self).data(),
            match r {
                Ok(v) => {
                    &&& old(self).remaining().len() >= 4
                    &&& v == spec_u32_from_le_bytes(old(self).remaining().subrange(0, 4))
                    &&& final(self).remaining() == old(self).remaining().skip(4)
                },
                Err(e) => {
                    &&& e == DecodeError::UnexpectedEof
                    &&& old(self).remaining().len() < 4
                    &&& *final(self) == *old(self)
                },
            },
    {
        if self.bytes.len() - self.pos >= 4 {
            let s = slice_subrange(self.bytes.as_slice(), self.pos, self.pos + 4);
            let v = u32_from_le_bytes(s);
            proof {
                assert(s@ =~= old(self).remaining().subrange(0, 4));
            }
            self.pos = self.pos + 4;
            proof {
                assert(self.remaining() =~= old(self).remaining().skip(4));
            }
            Ok(v)
        } else {
            Err(DecodeError::UnexpectedEof)
        }
    }

    /// Consume `count` 16-bit character units (`2 * count` bytes) and decode
    /// them as text. Fails with `UnexpectedEof` when fewer than `2 * count`
    /// bytes remain, and with `InvalidEncoding` when the units do not form
    /// valid text.
    pub fn read_utf16_text(&mut self, count: u16) -> (r: Result<String, DecodeError>)
        requires
            old(self).wf(),
        ensures
            final(self).wf(),
            final(self).data() == old(self).data(),
            match r {
                Ok(s) => {
                    &&& old(self).remaining().len() >= 2 * count
                    &&& utf16_decode(units_of(old(self).remaining().take(2 * count as int)))
                        == Some(s@)
                    &&& final(self).remaining() == old(self).remaining().skip(2 * count as int)
                },
                Err(e) => match e {
                    DecodeError::UnexpectedEof => {
                        &&& old(self).remaining().len() < 2 * count
                        &&& *final(self) == *old(self)
                    },
                    DecodeError::InvalidEncoding => {
                        &&& old(self).remaining().len() >= 2 * count
                        &&& utf16_decode(units_of(old(self).remaining().take(2 * count as int)))
                            is None
                        &&& final(self).remaining() == old(self).remaining().skip(2 * count as int)
                    },
                },
            },
    {
        let need: usize = 2 * (count as usize);
        if self.bytes.len() - self.pos < need {
            return Err(DecodeError::UnexpectedEof);
        }
        let ghost all = old(self).remaining().take(2 * count as int);
        let mut units: Vec<u16> = Vec::new();
        let mut i: usize = 0;
        proof {
            assert(all.len() == 2 * count as int);
            crate::text::lemma_units_of_len(all);
            assert(units@ =~= units_of(all).take(0));
            assert(self.remaining() =~= old(self).remaining().skip(0));
        }
        while i < count as usize
            invariant
                0 <= i <= count,
                self.wf(),
                self.data() == old(self).data(),
                self.remaining() == old(self).remaining().skip(2 * i as int),
                old(self).remaining().len() >= 2 * count,
                all == old(self).remaining().take(2 * count as int),
                units_of(all).len() == count,
                units@ == units_of(all).take(i as int),
            decreases count - i,
        {
            let ghost before = self.remaining();
            let v = match self.read_u16_le() {
                Ok(v) => v,
                Err(_) => {
                    proof {
                        assert(before.len() >= 2) by {
                            assert(old(self).remaining().len() - 2 * i as int >= 2);
                        }
                        assert(false);
                    }
                    return Err(DecodeError::UnexpectedEof);
                },
            };
            units.push(v);
            i = i + 1;
            proof {
                assert(self.remaining() =~= old(self).remaining().skip(2 * i as int));
                assert(before.subrange(0, 2) =~= all.subrange(2 * (i - 1) as int, 2 * i as int));
                assert(v == units_of(all)[i - 1]) by {
                    crate::text::lemma_units_of_index(all, i - 1);
                }
                assert(units@ =~= units_of(all).take(i as int));
            }
        }
        proof {
            assert(units@ =~= units_of(all));
        }
        match decode_utf16_units(&units) {
            Ok(s) => Ok(s),
            Err(e) => Err(e),
        }
    }
}

} // verus!

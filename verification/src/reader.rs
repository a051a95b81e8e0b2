use vstd::prelude::*;
use vstd::slice::{slice_subrange, slice_to_vec};

verus! {

/// Value of a two-byte little-endian unsigned integer.
pub open spec fn le16(b0: u8, b1: u8) -> u16 {
    (b0 as u16) | ((b1 as u16) << 8)
}

/// Value of a four-byte little-endian unsigned integer.
pub open spec fn le32(b0: u8, b1: u8, b2: u8, b3: u8) -> u32 {
    (b0 as u32) | ((b1 as u32) << 8) | ((b2 as u32) << 16) | ((b3 as u32) << 24)
}

/// Value of a four-byte big-endian unsigned integer.
pub open spec fn be32(b0: u8, b1: u8, b2: u8, b3: u8) -> u32 {
    ((b0 as u32) << 24) | ((b1 as u32) << 16) | ((b2 as u32) << 8) | (b3 as u32)
}

/// The first `n` bytes of `s`, or all of `s` if fewer remain.
pub open spec fn take_clamped(s: Seq<u8>, n: int) -> Seq<u8> {
    if n <= s.len() {
        s.take(n)
    } else {
        s
    }
}

/// What remains of `s` after `n` bytes are consumed, or nothing if fewer remain.
pub open spec fn skip_clamped(s: Seq<u8>, n: int) -> Seq<u8> {
    if n <= s.len() {
        s.skip(n)
    } else {
        Seq::empty()
    }
}

/// Value of a one-byte read with the clamp-to-zero policy at end of stream.
pub open spec fn u8_val(s: Seq<u8>) -> u8 {
    if s.len() >= 1 {
        s[0]
    } else {
        0
    }
}

/// Stream left after a one-byte read.
pub open spec fn u8_rest(s: Seq<u8>) -> Seq<u8> {
    skip_clamped(s, 1)
}

/// Value of a two-byte little-endian read with the clamp-to-zero policy.
pub open spec fn u16_val(s: Seq<u8>) -> u16 {
    if s.len() >= 2 {
        le16(s[0], s[1])
    } else {
        0
    }
}

/// Stream left after a two-byte read: at end of stream everything is consumed.
pub open spec fn u16_rest(s: Seq<u8>) -> Seq<u8> {
    if s.len() >= 2 {
        s.skip(2)
    } else {
        Seq::empty()
    }
}

/// Value of a four-byte little-endian read with the clamp-to-zero policy.
pub open spec fn u32_val(s: Seq<u8>) -> u32 {
    if s.len() >= 4 {
        le32(s[0], s[1], s[2], s[3])
    } else {
        0
    }
}

/// Stream left after a four-byte read: at end of stream everything is consumed.
pub open spec fn u32_rest(s: Seq<u8>) -> Seq<u8> {
    if s.len() >= 4 {
        s.skip(4)
    } else {
        Seq::empty()
    }
}

/// What `String::from_utf8_lossy` makes of a byte sequence.
pub uninterp spec fn utf8_lossy(bytes: Seq<u8>) -> Seq<char>;

/// Relies on `String::from_utf8_lossy`: the decoding is a function of the
/// bytes alone (valid UTF-8 passes through, invalid sequences become U+FFFD).
#[verifier::external_body]
fn decode_utf8_lossy(bytes: &[u8]) -> (r: String)
    ensures
        r@ == utf8_lossy(bytes@),
{
    String::from_utf8_lossy(bytes).to_string()
}

/// Bounds-aware forward-only reader over a byte buffer.
///
/// Reads never fail: a request past the end of the buffer is clamped, and
/// multi-byte integer reads return zero when too few bytes remain.
pub struct Reader<'a> {
    data: &'a [u8],
    pos: usize,
}

impl<'a> Reader<'a> {
    /// The reader's position never runs past the end of its buffer.
    pub closed spec fn wf(self) -> bool {
        self.pos <= self.data@.len()
    }

    /// The whole underlying buffer.
    pub closed spec fn total(self) -> Seq<u8> {
        self.data@
    }

    /// The bytes not yet consumed.
    pub closed spec fn remaining(self) -> Seq<u8> {
        self.data@.skip(self.pos as int)
    }

    /// Create a new `Reader` over a byte buffer.
    pub fn new(data: &'a [u8]) -> (r: Self)
        ensures
            r.wf(),
            r.total() == data@,
            r.remaining() == data@,
    {
        proof {
            assert(data@.skip(0) =~= data@);
        }
        Reader { data, pos: 0 }
    }

    /// Bytes left in the data stream.
    pub fn len(&self) -> (r: usize)
        requires
            self.wf(),
        ensures
            r == self.remaining().len(),
    {
        self.data.len() - self.pos
    }

    /// Read `size` bytes from the stream; if fewer remain, all remaining
    /// bytes are returned and the stream is exhausted.
    pub fn read(&mut self, size: usize) -> (r: Vec<u8>)
        requires
            old(self).wf(),
        ensures
            final(self).wf(),
            final(self).total() == old(self).total(),
            r@ == take_clamped(old(self).remaining(), size as int),
            final(self).remaining() == skip_clamped(old(self).remaining(), size as int),
    {
        let avail = self.data.len() - self.pos;
        let n = if size <= avail {
            size
        } else {
            avail
        };
        let out = slice_to_vec(slice_subrange(self.data, self.pos, self.pos + n));
        self.pos = self.pos + n;
        proof {
            let rem = old(self).remaining();
            assert(out@ =~= take_clamped(rem, size as int));
            assert(self.remaining() =~= skip_clamped(rem, size as int));
        }
        out
    }

    /// Read one byte from the stream, or 0 at end of stream.
    pub fn read_byte(&mut self) -> (r: u8)
        requires
            old(self).wf(),
        ensures
            final(self).wf(),
            final(self).total() == old(self).total(),
            r == u8_val(old(self).remaining()),
            final(self).remaining() == u8_rest(old(self).remaining()),
    {
        if self.pos < self.data.len() {
            let b = self.data[self.pos];
            self.pos = self.pos + 1;
            proof {
                assert(self.remaining() =~= u8_rest(old(self).remaining()));
            }
            b
        } else {
            proof {
                assert(self.remaining() =~= u8_rest(old(self).remaining()));
            }
            0
        }
    }

    /// Read an unsigned 16-bit little-endian integer, or 0 if fewer than two
    /// bytes remain (the stream is then exhausted).
    pub fn read_uint16(&mut self) -> (r: u16)
        requires
            old(self).wf(),
        ensures
            final(self).wf(),
            final(self).total() == old(self).total(),
            r == u16_val(old(self).remaining()),
            final(self).remaining() == u16_rest(old(self).remaining()),
    {
        if self.data.len() - self.pos >= 2 {
            let b0 = self.data[self.pos];
            let b1 = self.data[self.pos + 1];
            self.pos = self.pos + 2;
            proof {
                assert(self.remaining() =~= u16_rest(old(self).remaining()));
            }
            (b0 as u16) | ((b1 as u16) << 8)
        } else {
            self.pos = self.data.len();
            proof {
                assert(self.remaining() =~= u16_rest(old(self).remaining()));
            }
            0
        }
    }

    /// Read an unsigned 32-bit little-endian integer, or 0 if fewer than four
    /// bytes remain (the stream is then exhausted).
    pub fn read_uint32(&mut self) -> (r: u32)
        requires
            old(self).wf(),
        ensures
            final(self).wf(),
            final(self).total() == old(self).total(),
            r == u32_val(old(self).remaining()),
            final(self).remaining() == u32_rest(old(self).remaining()),
    {
        if self.data.len() - self.pos >= 4 {
            let b0 = self.data[self.pos];
            let b1 = self.data[self.pos + 1];
            let b2 = self.data[self.pos + 2];
            let b3 = self.data[self.pos + 3];
            self.pos = self.pos + 4;
            proof {
                assert(self.remaining() =~= u32_rest(old(self).remaining()));
            }
            (b0 as u32) | ((b1 as u32) << 8) | ((b2 as u32) << 16) | ((b3 as u32) << 24)
        } else {
            self.pos = self.data.len();
            proof {
                assert(self.remaining() =~= u32_rest(old(self).remaining()));
            }
            0
        }
    }

    /// Read a signed 16-bit little-endian integer, or 0 if fewer than two
    /// bytes remain (the stream is then exhausted).
    pub fn read_int16(&mut self) -> (r: i16)
        requires
            old(self).wf(),
        ensures
            final(self).wf(),
            final(self).total() == old(self).total(),
            r == u16_val(old(self).remaining()) as i16,
            final(self).remaining() == u16_rest(old(self).remaining()),
    {
        let v = self.read_uint16();
        v as i16
    }

    /// Read a signed 32-bit little-endian integer, or 0 if fewer than four
    /// bytes remain (the stream is then exhausted).
    pub fn read_int32(&mut self) -> (r: i32)
        requires
            old(self).wf(),
        ensures
            final(self).wf(),
            final(self).total() == old(self).total(),
            r == u32_val(old(self).remaining()) as i32,
            final(self).remaining() == u32_rest(old(self).remaining()),
    {
        let v = self.read_uint32();
        v as i32
    }

    /// Read `length` bytes and decode them as UTF-8, lossily; if fewer
    /// remain, the remaining bytes are decoded and the stream is exhausted.
    pub fn read_string(&mut self, length: usize) -> (r: String)
        requires
            old(self).wf(),
        ensures
            final(self).wf(),
            final(self).total() == old(self).total(),
            r@ == utf8_lossy(take_clamped(old(self).remaining(), length as int)),
            final(self).remaining() == skip_clamped(old(self).remaining(), length as int),
    {
        let bytes = self.read(length);
        decode_utf8_lossy(bytes.as_slice())
    }
}

} // verus!

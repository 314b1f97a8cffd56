use vstd::prelude::*;
use vstd::slice::slice_to_vec;
use vstd::utf8::encode_utf8;

use crate::codec::{le_bytes, twos_complement, lemma_pow256_facts};
use crate::traits::BytesTrait;

verus! {

/// A growing byte buffer that values are appended to, little-endian.
pub struct ByteBuilder {
    pub bytes: Vec<u8>,
}

impl ByteBuilder {
    pub fn new() -> (r: Self)
        ensures
            r.bytes@ == Seq::<u8>::empty(),
    {
        ByteBuilder { bytes: Vec::new() }
    }

    pub fn with_capacity(capacity: usize) -> (r: Self)
        ensures
            r.bytes@ == Seq::<u8>::empty(),
    {
        ByteBuilder { bytes: Vec::with_capacity(capacity) }
    }

    /// Appends the `width` low bytes of `value`, least significant first.
    fn push_le(&mut self, value: u128, width: usize)
        requires
            width <= 16,
        ensures
            final(self).bytes@ == old(self).bytes@ + le_bytes(value as nat, width as nat),
    {
        let mut x: u128 = value;
        let mut i: usize = 0;
        while i < width
            invariant
                i <= width,
                self.bytes@ + le_bytes(x as nat, (width - i) as nat) == old(self).bytes@ + le_bytes(
                    value as nat,
                    width as nat,
                ),
            decreases width - i,
        {
            let ghost prev = self.bytes@;
            self.bytes.push((x % 256) as u8);
            assert(le_bytes(x as nat, (width - i) as nat) =~= seq![(x % 256) as u8] + le_bytes(
                (x / 256) as nat,
                (width - i - 1) as nat,
            ));
            assert(self.bytes@ + le_bytes((x / 256) as nat, (width - i - 1) as nat) =~= prev
                + le_bytes(x as nat, (width - i) as nat));
            x = x / 256;
            i = i + 1;
        }
        assert(le_bytes(x as nat, 0) =~= Seq::<u8>::empty());
        assert(self.bytes@ =~= self.bytes@ + le_bytes(x as nat, 0));
    }

    pub fn push_u8(&mut self, value: u8)
        ensures
            final(self).bytes@ == old(self).bytes@ + le_bytes(value as nat, 1),
    {
        self.push_le(value as u128, 1);
    }

    pub fn push_u16(&mut self, value: u16)
        ensures
            final(self).bytes@ == old(self).bytes@ + le_bytes(value as nat, 2),
    {
        self.push_le(value as u128, 2);
    }

    pub fn push_u32(&mut self, value: u32)
        ensures
            final(self).bytes@ == old(self).bytes@ + le_bytes(value as nat, 4),
    {
        self.push_le(value as u128, 4);
    }

    pub fn push_u64(&mut self, value: u64)
        ensures
            final(self).bytes@ == old(self).bytes@ + le_bytes(value as nat, 8),
    {
        self.push_le(value as u128, 8);
    }

    pub fn push_u128(&mut self, value: u128)
        ensures
            final(self).bytes@ == old(self).bytes@ + le_bytes(value as nat, 16),
    {
        self.push_le(value, 16);
    }

    pub fn push_i8(&mut self, value: i8)
        ensures
            final(self).bytes@ == old(self).bytes@ + le_bytes(twos_complement(value as int, 1), 1),
    {
        proof {
            lemma_pow256_facts();
        }
        let u: u8 = if value >= 0 {
            value as u8
        } else {
            (value as i16 + 256) as u8
        };
        self.push_le(u as u128, 1);
    }

    pub fn push_i16(&mut self, value: i16)
        ensures
            final(self).bytes@ == old(self).bytes@ + le_bytes(twos_complement(value as int, 2), 2),
    {
        proof {
            lemma_pow256_facts();
        }
        let u: u16 = if value >= 0 {
            value as u16
        } else {
            (value as i32 + 0x1_0000) as u16
        };
        self.push_le(u as u128, 2);
    }

    pub fn push_i32(&mut self, value: i32)
        ensures
            final(self).bytes@ == old(self).bytes@ + le_bytes(twos_complement(value as int, 4), 4),
    {
        proof {
            lemma_pow256_facts();
        }
        let u: u32 = if value >= 0 {
            value as u32
        } else {
            (value as i64 + 0x1_0000_0000) as u32
        };
        self.push_le(u as u128, 4);
    }

    pub fn push_i64(&mut self, value: i64)
        ensures
            final(self).bytes@ == old(self).bytes@ + le_bytes(twos_complement(value as int, 8), 8),
    {
        proof {
            lemma_pow256_facts();
        }
        let u: u64 = if value >= 0 {
            value as u64
        } else {
            (value as i128 + 0x1_0000_0000_0000_0000) as u64
        };
        self.push_le(u as u128, 8);
    }

    pub fn push_i128(&mut self, value: i128)
        ensures
            final(self).bytes@ == old(self).bytes@ + le_bytes(twos_complement(value as int, 16), 16),
    {
        proof {
            lemma_pow256_facts();
        }
        let u: u128 = if value >= 0 {
            value as u128
        } else {
            // value + 2^127 lies in [0, 2^127); adding 2^127 once more gives value + 2^128
            ((value + 1 + i128::MAX) as u128) + (i128::MAX as u128) + 1
        };
        self.push_le(u, 16);
    }

    pub fn push_bool(&mut self, value: bool)
        ensures
            final(self).bytes@ == old(self).bytes@.push(if value { 1u8 } else { 0u8 }),
    {
        self.bytes.push(if value { 1u8 } else { 0u8 });
    }

    pub fn push_bytes(&mut self, value: &[u8])
        ensures
            final(self).bytes@ == old(self).bytes@ + value@,
    {
        self.bytes.extend_from_slice(value);
        assert(self.bytes@ =~= old(self).bytes@ + value@);
    }

    pub fn push_str(&mut self, value: &str)
        ensures
            final(self).bytes@ == old(self).bytes@ + encode_utf8(value@),
    {
        self.push_bytes(value.as_bytes());
    }

    /// Appends the encoding of a self-encoding value, with no prefix.
    pub fn push<T: BytesTrait>(&mut self, value: T)
        ensures
            final(self).bytes@ == old(self).bytes@ + T::encoding(value@),
    {
        let encoded = value.to_bytes();
        self.push_bytes(encoded.as_slice());
    }

    /// Appends a byte view of a value, as `push_bytes` does.
    pub fn push_asref(&mut self, value: &[u8])
        ensures
            final(self).bytes@ == old(self).bytes@ + value@,
    {
        self.push_bytes(value);
    }

    /// Appends the length of `value` in UTF-8 bytes as a `u64`, then those bytes.
    pub fn push_len_prefixed_str(&mut self, value: &str)
        ensures
            final(self).bytes@ == old(self).bytes@ + le_bytes(encode_utf8(value@).len(), 8)
                + encode_utf8(value@),
    {
        let b = value.as_bytes();
        self.push_u64(b.len() as u64);
        self.push_bytes(b);
    }

    /// Appends the length of `value` as a `u64`, then its bytes.
    pub fn push_len_prefixed_bytes(&mut self, value: &[u8])
        ensures
            final(self).bytes@ == old(self).bytes@ + le_bytes(value@.len(), 8) + value@,
    {
        self.push_u64(value.len() as u64);
        self.push_bytes(value);
    }

    pub fn as_slice(&self) -> (r: &[u8])
        ensures
            r@ == self.bytes@,
    {
        self.bytes.as_slice()
    }
    pub fn with_u8(&mut self, value: u8) -> (r: &mut Self)
        ensures
            r.bytes@ == old(self).bytes@ + le_bytes(value as nat, 1),
            *final(self) == *final(r),
    {
        self.push_u8(value);
        self
    }

    pub fn with_u16(&mut self, value: u16) -> (r: &mut Self)
        ensures
            r.bytes@ == old(self).bytes@ + le_bytes(value as nat, 2),
            *final(self) == *final(r),
    {
        self.push_u16(value);
        self
    }

    pub fn with_u32(&mut self, value: u32) -> (r: &mut Self)
        ensures
            r.bytes@ == old(self).bytes@ + le_bytes(value as nat, 4),
            *final(self) == *final(r),
    {
        self.push_u32(value);
        self
    }

    pub fn with_u64(&mut self, value: u64) -> (r: &mut Self)
        ensures
            r.bytes@ == old(self).bytes@ + le_bytes(value as nat, 8),
            *final(self) == *final(r),
    {
        self.push_u64(value);
        self
    }

    pub fn with_u128(&mut self, value: u128) -> (r: &mut Self)
        ensures
            r.bytes@ == old(self).bytes@ + le_bytes(value as nat, 16),
            *final(self) == *final(r),
    {
        self.push_u128(value);
        self
    }

    pub fn with_i8(&mut self, value: i8) -> (r: &mut Self)
        ensures
            r.bytes@ == old(self).bytes@ + le_bytes(twos_complement(value as int, 1), 1),
            *final(self) == *final(r),
    {
        self.push_i8(value);
        self
    }

    pub fn with_i16(&mut self, value: i16) -> (r: &mut Self)
        ensures
            r.bytes@ == old(self).bytes@ + le_bytes(twos_complement(value as int, 2), 2),
            *final(self) == *final(r),
    {
        self.push_i16(value);
        self
    }

    pub fn with_i32(&mut self, value: i32) -> (r: &mut Self)
        ensures
            r.bytes@ == old(self).bytes@ + le_bytes(twos_complement(value as int, 4), 4),
            *final(self) == *final(r),
    {
        self.push_i32(value);
        self
    }

    pub fn with_i64(&mut self, value: i64) -> (r: &mut Self)
        ensures
            r.bytes@ == old(self).bytes@ + le_bytes(twos_complement(value as int, 8), 8),
            *final(self) == *final(r),
    {
        self.push_i64(value);
        self
    }

    pub fn with_i128(&mut self, value: i128) -> (r: &mut Self)
        ensures
            r.bytes@ == old(self).bytes@ + le_bytes(twos_complement(value as int, 16), 16),
            *final(self) == *final(r),
    {
        self.push_i128(value);
        self
    }

    pub fn with_bool(&mut self, value: bool) -> (r: &mut Self)
        ensures
            r.bytes@ == old(self).bytes@.push(if value { 1u8 } else { 0u8 }),
            *final(self) == *final(r),
    {
        self.push_bool(value);
        self
    }

    pub fn with_str(&mut self, value: &str) -> (r: &mut Self)
        ensures
            r.bytes@ == old(self).bytes@ + encode_utf8(value@),
            *final(self) == *final(r),
    {
        self.push_str(value);
        self
    }

    pub fn with_bytes(&mut self, value: &[u8]) -> (r: &mut Self)
        ensures
            r.bytes@ == old(self).bytes@ + value@,
            *final(self) == *final(r),
    {
        self.push_bytes(value);
        self
    }

    pub fn with_len_prefixed_str(&mut self, value: &str) -> (r: &mut Self)
        ensures
            r.bytes@ == old(self).bytes@ + le_bytes(encode_utf8(value@).len(), 8)
                + encode_utf8(value@),
            *final(self) == *final(r),
    {
        self.push_len_prefixed_str(value);
        self
    }

    pub fn with_len_prefixed_bytes(&mut self, value: &[u8]) -> (r: &mut Self)
        ensures
            r.bytes@ == old(self).bytes@ + le_bytes(value@.len(), 8) + value@,
            *final(self) == *final(r),
    {
        self.push_len_prefixed_bytes(value);
        self
    }

    pub fn with<T: BytesTrait>(&mut self, value: T) -> (r: &mut Self)
        ensures
            r.bytes@ == old(self).bytes@ + T::encoding(value@),
            *final(self) == *final(r),
    {
        self.push(value);
        self
    }

    pub fn with_asref(&mut self, value: &[u8]) -> (r: &mut Self)
        ensures
            r.bytes@ == old(self).bytes@ + value@,
            *final(self) == *final(r),
    {
        self.push_asref(value);
        self
    }
}

impl From<Vec<u8>> for ByteBuilder {
    fn from(value: Vec<u8>) -> (r: ByteBuilder) {
        ByteBuilder { bytes: value }
    }
}

impl vstd::std_specs::convert::FromSpecImpl<Vec<u8>> for ByteBuilder {
    open spec fn obeys_from_spec() -> bool {
        true
    }

    open spec fn from_spec(value: Vec<u8>) -> ByteBuilder {
        ByteBuilder { bytes: value }
    }
}

impl<'a> From<&'a [u8]> for ByteBuilder {
    fn from(value: &'a [u8]) -> (r: ByteBuilder)
        ensures
            r.bytes@ == value@,
    {
        ByteBuilder { bytes: slice_to_vec(value) }
    }
}

impl<'a> vstd::std_specs::convert::FromSpecImpl<&'a [u8]> for ByteBuilder {
    open spec fn obeys_from_spec() -> bool {
        false
    }

    open spec fn from_spec(value: &'a [u8]) -> ByteBuilder {
        ByteBuilder { bytes: arbitrary() }
    }
}

} // verus!

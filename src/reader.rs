use vstd::prelude::*;
use vstd::slice::{slice_subrange, slice_to_vec};

use crate::codec::{
    le_signed, le_unsigned, lemma_le_unsigned_bound, lemma_pow256_facts, lemma_pow256_monotonic,
    pow256, string_from_utf8_lossy, utf8_text,
};
use crate::traits::BytesTrait;

verus! {

/// A cursor over a borrowed byte span, read front to back.
pub struct ByteReader<'a> {
    pub bytes: &'a [u8],
    pub pos: usize,
}

impl<'a> ByteReader<'a> {
    /// The cursor lies within the span.
    pub open spec fn wf(&self) -> bool {
        self.pos <= self.bytes@.len()
    }

    /// At least `n` bytes are left unread.
    pub open spec fn has(&self, n: nat) -> bool {
        self.pos + n <= self.bytes@.len()
    }

    /// The `n` bytes at the cursor.
    pub open spec fn peek(&self, n: nat) -> Seq<u8> {
        self.bytes@.subrange(self.pos as int, self.pos + n)
    }

    /// The bytes from the cursor to the end.
    pub open spec fn unread(&self) -> Seq<u8> {
        self.bytes@.subrange(self.pos as int, self.bytes@.len() as int)
    }

    /// The length that a length prefix at the cursor declares.
    pub open spec fn prefixed_len(&self) -> nat {
        le_unsigned(self.peek(8))
    }

    /// A length prefix and all the content it declares are unread.
    pub open spec fn has_prefixed(&self) -> bool {
        self.has(8) && self.has(8 + self.prefixed_len())
    }

    /// The content after the length prefix at the cursor.
    pub open spec fn prefixed_content(&self) -> Seq<u8> {
        self.bytes@.subrange(self.pos + 8, self.pos + 8 + self.prefixed_len())
    }

    /// `self` is `before` with its cursor moved on by `n` bytes.
    pub open spec fn advanced(&self, before: &Self, n: nat) -> bool {
        self.bytes == before.bytes && self.pos == before.pos + n
    }

    pub fn new(bytes: &'a [u8]) -> (r: Self)
        ensures
            r.bytes == bytes,
            r.pos == 0,
            r.wf(),
    {
        ByteReader { bytes, pos: 0 }
    }

    /// Reads `width` bytes as an unsigned little-endian number.
    fn read_le(&mut self, width: usize) -> (r: Option<u128>)
        requires
            old(self).wf(),
            width <= 16,
        ensures
            final(self).wf(),
            old(self).has(width as nat) ==> r == Some(le_unsigned(old(self).peek(width as nat)) as u128)
                && final(self).advanced(old(self), width as nat),
            !old(self).has(width as nat) ==> r is None && final(self).advanced(old(self), 0),
            old(self).has(width as nat) ==> le_unsigned(old(self).peek(width as nat)) < pow256(
                width as nat,
            ),
    {
        let ghost s = self.peek(width as nat);
        proof {
            lemma_le_unsigned_bound(s);
            lemma_pow256_facts();
        }
        if self.remaining() < width {
            return None;
        }
        let total = self.bytes.len();
        let mut v: u128 = 0;
        let mut i: usize = width;
        while i > 0
            invariant
                self.wf(),
                self.has(width as nat),
                s == self.peek(width as nat),
                width <= 16,
                i <= width,
                total == self.bytes@.len(),
                v as nat == le_unsigned(s.subrange(i as int, width as int)),
            decreases i,
        {
            let ghost t = s.subrange(i as int, width as int);
            proof {
                lemma_pow256_facts();
                lemma_le_unsigned_bound(t);
                lemma_pow256_monotonic((width - i + 1) as nat, 16);
                assert(s.subrange(i - 1, width as int).drop_first() =~= t);
            }
            let b = self.bytes[self.pos + i - 1];
            assert(b as nat + 256 * (v as nat) < 256 * pow256((width - i) as nat)) by (nonlinear_arith)
                requires
                    b < 256,
                    v < pow256((width - i) as nat),
            ;
            assert(pow256((width - i + 1) as nat) == 256 * pow256((width - i) as nat));
            v = b as u128 + 256 * v;
            i = i - 1;
        }
        assert(s.subrange(0, width as int) =~= s);
        self.pos = self.pos + width;
        Some(v)
    }

    pub fn read_u8(&mut self) -> (r: Option<u8>)
        requires
            old(self).wf(),
        ensures
            final(self).wf(),
            old(self).has(1) ==> r == Some(le_unsigned(old(self).peek(1)) as u8)
                && final(self).advanced(old(self), 1),
            !old(self).has(1) ==> r is None && final(self).advanced(old(self), 0),
    {
        proof {
            lemma_pow256_facts();
        }
        match self.read_le(1) {
            Some(v) => Some(v as u8),
            None => None,
        }
    }

    pub fn read_u16(&mut self) -> (r: Option<u16>)
        requires
            old(self).wf(),
        ensures
            final(self).wf(),
            old(self).has(2) ==> r == Some(le_unsigned(old(self).peek(2)) as u16)
                && final(self).advanced(old(self), 2),
            !old(self).has(2) ==> r is None && final(self).advanced(old(self), 0),
    {
        proof {
            lemma_pow256_facts();
        }
        match self.read_le(2) {
            Some(v) => Some(v as u16),
            None => None,
        }
    }

    pub fn read_u32(&mut self) -> (r: Option<u32>)
        requires
            old(self).wf(),
        ensures
            final(self).wf(),
            old(self).has(4) ==> r == Some(le_unsigned(old(self).peek(4)) as u32)
                && final(self).advanced(old(self), 4),
            !old(self).has(4) ==> r is None && final(self).advanced(old(self), 0),
    {
        proof {
            lemma_pow256_facts();
        }
        match self.read_le(4) {
            Some(v) => Some(v as u32),
            None => None,
        }
    }

    pub fn read_u64(&mut self) -> (r: Option<u64>)
        requires
            old(self).wf(),
        ensures
            final(self).wf(),
            old(self).has(8) ==> r == Some(le_unsigned(old(self).peek(8)) as u64)
                && final(self).advanced(old(self), 8),
            !old(self).has(8) ==> r is None && final(self).advanced(old(self), 0),
    {
        proof {
            lemma_pow256_facts();
        }
        match self.read_le(8) {
            Some(v) => Some(v as u64),
            None => None,
        }
    }

    pub fn read_u128(&mut self) -> (r: Option<u128>)
        requires
            old(self).wf(),
        ensures
            final(self).wf(),
            old(self).has(16) ==> r == Some(le_unsigned(old(self).peek(16)) as u128)
                && final(self).advanced(old(self), 16),
            !old(self).has(16) ==> r is None && final(self).advanced(old(self), 0),
    {
        self.read_le(16)
    }

    pub fn read_i8(&mut self) -> (r: Option<i8>)
        requires
            old(self).wf(),
        ensures
            final(self).wf(),
            old(self).has(1) ==> r == Some(le_signed(old(self).peek(1)) as i8)
                && final(self).advanced(old(self), 1),
            !old(self).has(1) ==> r is None && final(self).advanced(old(self), 0),
    {
        proof {
            lemma_pow256_facts();
        }
        match self.read_le(1) {
            Some(u) => if u >= 0x80 {
                Some((u as i16 - 0x100) as i8)
            } else {
                Some(u as i8)
            },
            None => None,
        }
    }

    pub fn read_i16(&mut self) -> (r: Option<i16>)
        requires
            old(self).wf(),
        ensures
            final(self).wf(),
            old(self).has(2) ==> r == Some(le_signed(old(self).peek(2)) as i16)
                && final(self).advanced(old(self), 2),
            !old(self).has(2) ==> r is None && final(self).advanced(old(self), 0),
    {
        proof {
            lemma_pow256_facts();
        }
        match self.read_le(2) {
            Some(u) => if u >= 0x8000 {
                Some((u as i32 - 0x1_0000) as i16)
            } else {
                Some(u as i16)
            },
            None => None,
        }
    }

    pub fn read_i32(&mut self) -> (r: Option<i32>)
        requires
            old(self).wf(),
        ensures
            final(self).wf(),
            old(self).has(4) ==> r == Some(le_signed(old(self).peek(4)) as i32)
                && final(self).advanced(old(self), 4),
            !old(self).has(4) ==> r is None && final(self).advanced(old(self), 0),
    {
        proof {
            lemma_pow256_facts();
        }
        match self.read_le(4) {
            Some(u) => if u >= 0x8000_0000 {
                Some((u as i64 - 0x1_0000_0000) as i32)
            } else {
                Some(u as i32)
            },
            None => None,
        }
    }

    pub fn read_i64(&mut self) -> (r: Option<i64>)
        requires
            old(self).wf(),
        ensures
            final(self).wf(),
            old(self).has(8) ==> r == Some(le_signed(old(self).peek(8)) as i64)
                && final(self).advanced(old(self), 8),
            !old(self).has(8) ==> r is None && final(self).advanced(old(self), 0),
    {
        proof {
            lemma_pow256_facts();
        }
        match self.read_le(8) {
            Some(u) => if u >= 0x8000_0000_0000_0000 {
                Some((u as i128 - 0x1_0000_0000_0000_0000) as i64)
            } else {
                Some(u as i64)
            },
            None => None,
        }
    }

    pub fn read_i128(&mut self) -> (r: Option<i128>)
        requires
            old(self).wf(),
        ensures
            final(self).wf(),
            old(self).has(16) ==> r == Some(le_signed(old(self).peek(16)) as i128)
                && final(self).advanced(old(self), 16),
            !old(self).has(16) ==> r is None && final(self).advanced(old(self), 0),
    {
        proof {
            lemma_pow256_facts();
        }
        match self.read_le(16) {
            Some(u) => if u >= 0x8000_0000_0000_0000_0000_0000_0000_0000 {
                // u - 2^128, taken as (u - 2^127) - 2^127
                Some((u - 0x8000_0000_0000_0000_0000_0000_0000_0000) as i128 - i128::MAX - 1)
            } else {
                Some(u as i128)
            },
            None => None,
        }
    }

    /// Reads one byte: any nonzero byte is `true`.
    pub fn read_bool(&mut self) -> (r: Option<bool>)
        requires
            old(self).wf(),
        ensures
            final(self).wf(),
            old(self).has(1) ==> r == Some(old(self).bytes@[old(self).pos as int] != 0)
                && final(self).advanced(old(self), 1),
            !old(self).has(1) ==> r is None && final(self).advanced(old(self), 0),
    {
        if self.remaining() < 1 {
            return None;
        }
        let value = self.bytes[self.pos] != 0;
        self.pos = self.pos + 1;
        Some(value)
    }

    /// Reads `len` bytes as text, replacing what is not valid UTF-8.
    pub fn read_str(&mut self, len: usize) -> (r: Option<String>)
        requires
            old(self).wf(),
        ensures
            final(self).wf(),
            old(self).has(len as nat) ==> (r matches Some(s) && s@ == utf8_text(old(self).peek(len as nat))
                && final(self).advanced(old(self), len as nat)),
            !old(self).has(len as nat) ==> r is None && final(self).advanced(old(self), 0),
    {
        if self.remaining() < len {
            return None;
        }
        let span = slice_subrange(self.bytes, self.pos, self.pos + len);
        let value = string_from_utf8_lossy(span);
        self.pos = self.pos + len;
        Some(value)
    }

    /// Reads `len` bytes as an owned copy.
    pub fn read_bytes(&mut self, len: usize) -> (r: Option<Vec<u8>>)
        requires
            old(self).wf(),
        ensures
            final(self).wf(),
            old(self).has(len as nat) ==> (r matches Some(v) && v@ == old(self).peek(len as nat)
                && final(self).advanced(old(self), len as nat)),
            !old(self).has(len as nat) ==> r is None && final(self).advanced(old(self), 0),
    {
        if self.remaining() < len {
            return None;
        }
        let value = slice_to_vec(slice_subrange(self.bytes, self.pos, self.pos + len));
        self.pos = self.pos + len;
        Some(value)
    }

    /// Reads a `u64` length, then that many bytes as text; nothing moves
    /// unless both are there.
    pub fn read_len_prefixed_str(&mut self) -> (r: Option<String>)
        requires
            old(self).wf(),
        ensures
            final(self).wf(),
            old(self).has_prefixed() ==> (r matches Some(s) && s@ == utf8_text(old(self).prefixed_content())
                && final(self).advanced(old(self), 8 + old(self).prefixed_len())),
            !old(self).has_prefixed() ==> r is None && final(self).advanced(old(self), 0),
    {
        let start = self.pos;
        let len = match self.prefix() {
            Some(n) => n,
            None => return None,
        };
        match self.read_str(len) {
            Some(s) => Some(s),
            None => {
                self.pos = start;
                None
            },
        }
    }

    /// Reads a `u64` length, then that many bytes; nothing moves unless both
    /// are there.
    pub fn read_len_prefixed_bytes(&mut self) -> (r: Option<Vec<u8>>)
        requires
            old(self).wf(),
        ensures
            final(self).wf(),
            old(self).has_prefixed() ==> (r matches Some(v) && v@ == old(self).prefixed_content()
                && final(self).advanced(old(self), 8 + old(self).prefixed_len())),
            !old(self).has_prefixed() ==> r is None && final(self).advanced(old(self), 0),
    {
        let start = self.pos;
        let len = match self.prefix() {
            Some(n) => n,
            None => return None,
        };
        match self.read_bytes(len) {
            Some(v) => Some(v),
            None => {
                self.pos = start;
                None
            },
        }
    }

    /// Reads a length prefix; a length beyond what is unread after it is
    /// refused, since no content of that length can follow.
    fn prefix(&mut self) -> (r: Option<usize>)
        requires
            old(self).wf(),
        ensures
            final(self).wf(),
            old(self).has_prefixed() ==> r is Some && final(self).advanced(old(self), 8),
            r matches Some(n) ==> n == old(self).prefixed_len(),
            !old(self).has_prefixed() ==> r is None && final(self).advanced(old(self), 0),
    {
        proof {
            lemma_pow256_facts();
            if old(self).has(8) {
                lemma_le_unsigned_bound(old(self).peek(8));
            }
        }
        let start = self.pos;
        match self.read_u64() {
            Some(n) => {
                if n > self.remaining() as u64 {
                    self.pos = start;
                    None
                } else {
                    Some(n as usize)
                }
            },
            None => None,
        }
    }

    /// Reads a self-encoding value from the unread bytes and moves on by the
    /// size the value reports. A value that reports more bytes than are
    /// unread is refused.
    pub fn read<T: BytesTrait>(&mut self) -> (r: Option<T>)
        requires
            old(self).wf(),
        ensures
            final(self).wf(),
            r is Some <==> (T::decode(old(self).unread()) is Some && T::encoding(
                T::decode(old(self).unread())->0,
            ).len() <= old(self).unread().len()),
            r matches Some(v) ==> T::decode(old(self).unread()) == Some(v@) && final(self).advanced(
                old(self),
                T::encoding(v@).len(),
            ),
            r is None ==> final(self).advanced(old(self), 0),
    {
        let rest = slice_subrange(self.bytes, self.pos, self.bytes.len());
        match T::from_bytes(rest) {
            Some(value) => {
                let consumed = value.byte_size();
                if consumed > self.remaining() {
                    None
                } else {
                    self.pos = self.pos + consumed;
                    Some(value)
                }
            },
            None => None,
        }
    }

    /// Moves the cursor on by `len` bytes if that many are unread.
    pub fn skip(&mut self, len: usize) -> (r: bool)
        requires
            old(self).wf(),
        ensures
            final(self).wf(),
            r == old(self).has(len as nat),
            r ==> final(self).advanced(old(self), len as nat),
            !r ==> final(self).advanced(old(self), 0),
    {
        if self.remaining() < len {
            return false;
        }
        self.pos = self.pos + len;
        true
    }

    pub fn remaining(&self) -> (r: usize)
        requires
            self.wf(),
        ensures
            r == self.bytes@.len() - self.pos,
            self.bytes@.len() <= usize::MAX,
    {
        self.bytes.len() - self.pos
    }

    pub fn reset(&mut self)
        ensures
            final(self).bytes == old(self).bytes,
            final(self).pos == 0,
            final(self).wf(),
    {
        self.pos = 0;
    }
}

/// Resetting: a reader whose cursor was reset is the same value as a fresh
/// reader over the same span, so the reads after it give the same results.
pub proof fn lemma_reset_is_fresh<'a>(
    before: ByteReader<'a>,
    reset: ByteReader<'a>,
    fresh: ByteReader<'a>,
)
    requires
        reset.bytes == before.bytes,
        reset.pos == 0,
        fresh.bytes == before.bytes,
        fresh.pos == 0,
    ensures
        reset == fresh,
        reset.unread() == before.bytes@,
{
    assert(reset.unread() =~= before.bytes@);
}

} // verus!

use vstd::prelude::*;
use vstd::utf8::{encode_utf8, encode_utf8_decode_utf8, encode_utf8_valid_utf8};

pub mod builder;
pub mod codec;
pub mod reader;
pub mod traits;

use crate::builder::ByteBuilder;
use crate::codec::{
    le_bytes, le_signed, le_unsigned, lemma_pow256_facts, lemma_signed_round_trip,
    lemma_unsigned_round_trip, twos_complement, utf8_text,
};
use crate::reader::ByteReader;
use crate::traits::BytesTrait;

verus! {

/// A sample record: a length-prefixed text followed by an `i32`.
#[derive(Debug, PartialEq)]
pub struct S {
    pub str: String,
    pub val: i32,
}

impl View for S {
    type V = (Seq<char>, i32);

    open spec fn view(&self) -> (Seq<char>, i32) {
        (self.str@, self.val)
    }
}

impl BytesTrait for S {
    open spec fn encoding(v: (Seq<char>, i32)) -> Seq<u8> {
        le_bytes(encode_utf8(v.0).len(), 8) + encode_utf8(v.0) + le_bytes(
            twos_complement(v.1 as int, 4),
            4,
        )
    }

    open spec fn decode(bytes: Seq<u8>) -> Option<(Seq<char>, i32)> {
        let n = le_unsigned(bytes.subrange(0, 8)) as int;
        if bytes.len() >= 8 && bytes.len() >= 8 + n + 4 {
            Some(
                (
                    utf8_text(bytes.subrange(8, 8 + n)),
                    le_signed(bytes.subrange(8 + n, 8 + n + 4)) as i32,
                ),
            )
        } else {
            None
        }
    }

    fn to_bytes(&self) -> (r: Vec<u8>) {
        let mut b = ByteBuilder::new();
        b.push_len_prefixed_str(self.str.as_str());
        b.push_i32(self.val);
        proof {
            assert(b.bytes@ =~= Self::encoding(self@));
        }
        b.bytes
    }

    fn from_bytes(bytes: &[u8]) -> (r: Option<Self>) {
        let mut reader = ByteReader::new(bytes);
        let ghost start = reader;
        let str = match reader.read_len_prefixed_str() {
            Some(s) => s,
            None => return None,
        };
        let val = match reader.read_i32() {
            Some(v) => v,
            None => return None,
        };
        proof {
            assert(bytes@.subrange(0, 8) =~= start.peek(8));
        }
        Some(S { str, val })
    }

    proof fn lemma_round_trip(v: (Seq<char>, i32), rest: Seq<u8>) {
        let text = encode_utf8(v.0);
        let n = text.len() as int;
        let len_field = le_bytes(text.len(), 8);
        let val_field = le_bytes(twos_complement(v.1 as int, 4), 4);
        let bytes = Self::encoding(v) + rest;
        lemma_pow256_facts();
        lemma_unsigned_round_trip(text.len(), 8);
        lemma_signed_round_trip(v.1 as int, 4);
        encode_utf8_valid_utf8(v.0);
        encode_utf8_decode_utf8(v.0);
        assert(bytes.subrange(0, 8) =~= len_field);
        assert(bytes.subrange(8, 8 + n) =~= text);
        assert(bytes.subrange(8 + n, 8 + n + 4) =~= val_field);
    }
}

} // verus!

use vstd::prelude::*;
use vstd::utf8::{
    decode_utf8, encode_utf8, encode_utf8_decode_utf8, encode_utf8_valid_utf8, valid_utf8,
};

verus! {

/// `256^n`: how many distinct values `n` bytes can hold.
pub open spec fn pow256(n: nat) -> nat
    decreases n,
{
    if n == 0 {
        1
    } else {
        256 * pow256((n - 1) as nat)
    }
}

/// The `n` low bytes of `v`, least significant first.
pub open spec fn le_bytes(v: nat, n: nat) -> Seq<u8>
    decreases n,
{
    if n == 0 {
        Seq::empty()
    } else {
        seq![(v % 256) as u8] + le_bytes(v / 256, (n - 1) as nat)
    }
}

/// The unsigned number that the little-endian bytes `s` spell.
pub open spec fn le_unsigned(s: Seq<u8>) -> nat
    decreases s.len(),
{
    if s.len() == 0 {
        0
    } else {
        s[0] as nat + 256 * le_unsigned(s.drop_first())
    }
}

/// The two's-complement number that the little-endian bytes `s` spell.
pub open spec fn le_signed(s: Seq<u8>) -> int {
    let u = le_unsigned(s);
    if u >= pow256(s.len()) / 2 {
        u - pow256(s.len())
    } else {
        u as int
    }
}

/// The unsigned number whose `n` bytes hold `v` in two's complement.
pub open spec fn twos_complement(v: int, n: nat) -> nat {
    if v >= 0 {
        v as nat
    } else {
        (v + pow256(n)) as nat
    }
}

/// The text that a byte span is read as: valid UTF-8 decoded as it is,
/// anything else with replacement characters.
pub open spec fn utf8_text(b: Seq<u8>) -> Seq<char> {
    if valid_utf8(b) {
        decode_utf8(b)
    } else {
        lossy_utf8(b)
    }
}

/// What lossy UTF-8 decoding makes of a span that is not valid UTF-8.
pub uninterp spec fn lossy_utf8(b: Seq<u8>) -> Seq<char>;

/// Relies on `String::from_utf8_lossy`: valid UTF-8 comes back as the text
/// it encodes; otherwise the text depends on the bytes alone.
#[verifier::external_body]
pub(crate) fn string_from_utf8_lossy(b: &[u8]) -> (r: String)
    ensures
        valid_utf8(b@) ==> r@ == decode_utf8(b@),
        !valid_utf8(b@) ==> r@ == lossy_utf8(b@),
{
    String::from_utf8_lossy(b).into_owned()
}

pub proof fn lemma_pow256_facts()
    ensures
        pow256(1) == 0x100,
        pow256(2) == 0x1_0000,
        pow256(4) == 0x1_0000_0000,
        pow256(8) == 0x1_0000_0000_0000_0000,
        pow256(16) == 0x1_0000_0000_0000_0000_0000_0000_0000_0000,
{
    reveal_with_fuel(pow256, 17);
}

pub proof fn lemma_pow256_monotonic(i: nat, j: nat)
    requires
        i <= j,
    ensures
        0 < pow256(i) <= pow256(j),
    decreases j,
{
    if j > i {
        lemma_pow256_monotonic(i, (j - 1) as nat);
    } else if i > 0 {
        lemma_pow256_monotonic((i - 1) as nat, (i - 1) as nat);
    }
}

pub proof fn lemma_le_bytes_len(v: nat, n: nat)
    ensures
        le_bytes(v, n).len() == n,
    decreases n,
{
    if n > 0 {
        lemma_le_bytes_len(v / 256, (n - 1) as nat);
    }
}

pub proof fn lemma_le_unsigned_bound(s: Seq<u8>)
    ensures
        le_unsigned(s) < pow256(s.len()),
    decreases s.len(),
{
    if s.len() > 0 {
        let t = s.drop_first();
        lemma_le_unsigned_bound(t);
        let a = s[0] as nat;
        let u = le_unsigned(t);
        let p = pow256(t.len());
        assert(a + 256 * u < 256 * p) by (nonlinear_arith)
            requires
                a < 256,
                u < p,
        ;
    }
}

/// Round trip of unsigned numbers: the `n` little-endian bytes of a number
/// below `256^n` spell that number again.
pub proof fn lemma_unsigned_round_trip(v: nat, n: nat)
    requires
        v < pow256(n),
    ensures
        le_bytes(v, n).len() == n,
        le_unsigned(le_bytes(v, n)) == v,
    decreases n,
{
    lemma_le_bytes_len(v, n);
    if n > 0 {
        let p = pow256((n - 1) as nat);
        assert(v / 256 < p) by (nonlinear_arith)
            requires
                v < 256 * p,
        ;
        lemma_unsigned_round_trip(v / 256, (n - 1) as nat);
        assert(le_bytes(v, n).drop_first() =~= le_bytes(v / 256, (n - 1) as nat));
    }
}

/// Round trip of signed numbers: a number in the range of an `n`-byte
/// two's-complement integer is read back from its `n` bytes unchanged.
pub proof fn lemma_signed_round_trip(v: int, n: nat)
    requires
        n > 0,
        -(pow256(n) / 2) <= v < pow256(n) / 2,
    ensures
        le_bytes(twos_complement(v, n), n).len() == n,
        le_signed(le_bytes(twos_complement(v, n), n)) == v,
{
    lemma_pow256_monotonic(0, n);
    lemma_unsigned_round_trip(twos_complement(v, n), n);
}

/// Round trip of text: the UTF-8 bytes of a text are read back as that text.
pub proof fn lemma_text_round_trip(t: Seq<char>)
    ensures
        utf8_text(encode_utf8(t)) == t,
{
    encode_utf8_valid_utf8(t);
    encode_utf8_decode_utf8(t);
}

/// Round trip of booleans: the byte written for `b` is read back as `b`.
pub proof fn lemma_bool_round_trip(b: bool)
    ensures
        ((if b { 1u8 } else { 0u8 }) != 0) == b,
{
}

/// The bytes of unsigned numbers written one after another, each in its width.
pub open spec fn le_concat(vals: Seq<nat>, widths: Seq<nat>) -> Seq<u8>
    decreases vals.len(),
{
    if vals.len() == 0 || widths.len() == 0 {
        Seq::empty()
    } else {
        le_bytes(vals[0], widths[0]) + le_concat(vals.drop_first(), widths.drop_first())
    }
}

/// The unsigned numbers read one after another from the front of `bytes`,
/// each in its width: a read takes the next `width` bytes and moves past them.
pub open spec fn le_split(bytes: Seq<u8>, widths: Seq<nat>) -> Seq<nat>
    decreases widths.len(),
{
    if widths.len() == 0 {
        Seq::empty()
    } else {
        seq![le_unsigned(bytes.take(widths[0] as int))] + le_split(
            bytes.skip(widths[0] as int),
            widths.drop_first(),
        )
    }
}

/// Order preservation: numbers written one after another and read back in
/// the same widths come back in the order they were written, whatever
/// follows them.
pub proof fn lemma_order_preserved(vals: Seq<nat>, widths: Seq<nat>, rest: Seq<u8>)
    requires
        vals.len() == widths.len(),
        forall|i: int| 0 <= i < vals.len() ==> #[trigger] vals[i] < pow256(widths[i]),
    ensures
        le_split(le_concat(vals, widths) + rest, widths) == vals,
    decreases vals.len(),
{
    if vals.len() > 0 {
        let head = le_bytes(vals[0], widths[0]);
        let tail = le_concat(vals.drop_first(), widths.drop_first()) + rest;
        assert(vals[0] < pow256(widths[0]));
        lemma_unsigned_round_trip(vals[0], widths[0]);
        let bytes = le_concat(vals, widths) + rest;
        assert(bytes =~= head + tail);
        assert(bytes.take(widths[0] as int) =~= head);
        assert(bytes.skip(widths[0] as int) =~= tail);
        assert forall|i: int| 0 <= i < vals.drop_first().len() implies #[trigger] vals.drop_first()[i]
            < pow256(widths.drop_first()[i]) by {
            assert(vals[i + 1] < pow256(widths[i + 1]));
        }
        lemma_order_preserved(vals.drop_first(), widths.drop_first(), rest);
        assert(le_split(bytes, widths) =~= vals);
    }
}

} // verus!

use vstd::prelude::*;

verus! {

/// A value that encodes itself to bytes and decodes itself from the front of
/// a byte span. Its model is its view.
pub trait BytesTrait: Sized + View {
    /// The bytes that a value with model `v` encodes to.
    spec fn encoding(v: Self::V) -> Seq<u8>;

    /// The model of the value decoded from the front of `bytes`, if any.
    spec fn decode(bytes: Seq<u8>) -> Option<Self::V>;

    fn to_bytes(&self) -> (r: Vec<u8>)
        ensures
            r@ == Self::encoding(self@),
    ;

    fn from_bytes(bytes: &[u8]) -> (r: Option<Self>)
        ensures
            r is Some <==> Self::decode(bytes@) is Some,
            r matches Some(v) ==> Self::decode(bytes@) == Some(v@),
    ;

    /// The number of bytes that the value takes in a stream: the length of
    /// its encoding.
    fn byte_size(&self) -> (r: usize)
        ensures
            r == Self::encoding(self@).len(),
    {
        self.to_bytes().len()
    }

    /// Decoding the front of a span that starts with a value's encoding gives
    /// that value back, whatever follows it.
    proof fn lemma_round_trip(v: Self::V, rest: Seq<u8>)
        requires
            Self::encoding(v).len() <= usize::MAX,
        ensures
            Self::decode(Self::encoding(v) + rest) == Some(v),
    ;
}

/// Round trip of self-encoding values: the encoding of `v` decodes to `v`,
/// and the decoded value takes exactly as many bytes as that encoding.
pub proof fn lemma_composite_round_trip<T: BytesTrait>(v: T::V)
    requires
        T::encoding(v).len() <= usize::MAX,
    ensures
        T::decode(T::encoding(v)) == Some(v),
        T::encoding(T::decode(T::encoding(v))->0).len() == T::encoding(v).len(),
{
    T::lemma_round_trip(v, Seq::empty());
    assert(T::encoding(v) + Seq::<u8>::empty() =~= T::encoding(v));
}

} // verus!

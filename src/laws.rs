use vstd::prelude::*;
use crate::component::GzipComponent;
use crate::model::{components_valid, decode_seq, encode_spec, lemma_encode_from_decodes};

verus! {

/// Decoding what `input` encodes to gives `input` back.
pub proof fn law_round_trip(input: Seq<u8>)
    requires
        input.len() <= usize::MAX,
    ensures
        decode_seq(encode_spec(input).0, encode_spec(input).1) == input,
{
    assert(input.take(0) =~= Seq::<u8>::empty());
    lemma_encode_from_decodes(input, 0, Seq::empty(), Seq::empty());
}

/// Every component of an encoding reads from the raw buffer, and every span
/// covers at least two bytes: a one-byte match is always a `Single`.
pub proof fn law_spans_are_wide(input: Seq<u8>)
    requires
        input.len() <= usize::MAX,
    ensures
        components_valid(encode_spec(input).0.len(), encode_spec(input).1),
        forall|k: int|
            0 <= k < encode_spec(input).1.len() ==> (#[trigger] encode_spec(input).1[k] matches GzipComponent::Span(s, e)
                ==> s < e),
{
    assert(input.take(0) =~= Seq::<u8>::empty());
    lemma_encode_from_decodes(input, 0, Seq::empty(), Seq::empty());
}

/// Encoding the decoded output of an encoding again yields components that
/// still decode to the original input.
pub proof fn law_reencode_round_trip(input: Seq<u8>)
    requires
        input.len() <= usize::MAX,
    ensures
        ({
            let once = encode_spec(input);
            let again = encode_spec(decode_seq(once.0, once.1));
            decode_seq(again.0, again.1) == input
        }),
{
    law_round_trip(input);
    let once = encode_spec(input);
    law_round_trip(decode_seq(once.0, once.1));
}

} // verus!

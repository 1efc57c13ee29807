use vstd::prelude::*;
use crate::component::{component_bytes, in_bounds, GzipComponent};

verus! {

/// The first index at or after `j` where `raw` holds `b`, or `raw.len()`
/// when there is none.
pub open spec fn first_from(raw: Seq<u8>, b: u8, j: nat) -> nat
    decreases raw.len() - j,
{
    if j >= raw.len() {
        raw.len()
    } else if raw[j as int] == b {
        j
    } else {
        first_from(raw, b, j + 1)
    }
}

/// How many bytes `raw` from `j` and `input` from `p` have in common, one
/// position after the other.
pub open spec fn run_len(raw: Seq<u8>, input: Seq<u8>, j: nat, p: nat) -> nat
    decreases input.len() - p,
{
    if j < raw.len() && p < input.len() && raw[j as int] == input[p as int] {
        1 + run_len(raw, input, j + 1, p + 1)
    } else {
        0
    }
}

/// The component for a match that starts at `start` and covers `width`
/// bytes: a width of one is always a `Single`.
pub open spec fn match_component(start: nat, width: nat) -> GzipComponent {
    if width <= 1 {
        GzipComponent::Single(start as usize)
    } else {
        GzipComponent::Span(start as usize, (start + width - 1) as usize)
    }
}

/// Greedy first-fit encoding of `input` from position `p`, given the raw
/// buffer and components built so far. The byte at `p` is looked up from the
/// start of the buffer; if it is absent it is appended and referenced as a
/// `Single`, else the first occurrence is extended as far as the buffer and
/// the input keep agreeing.
pub open spec fn encode_from(input: Seq<u8>, p: nat, raw: Seq<u8>, comps: Seq<GzipComponent>) -> (
    Seq<u8>,
    Seq<GzipComponent>,
)
    decreases input.len() - p,
{
    if p >= input.len() {
        (raw, comps)
    } else {
        let j = first_from(raw, input[p as int], 0);
        if j >= raw.len() {
            encode_from(
                input,
                p + 1,
                raw.push(input[p as int]),
                comps.push(GzipComponent::Single(raw.len() as usize)),
            )
        } else {
            let width = 1 + run_len(raw, input, j + 1, p + 1);
            proof {
                lemma_run_len_bound(raw, input, j + 1, p + 1);
            }
            encode_from(input, p + width, raw, comps.push(match_component(j, width)))
        }
    }
}

/// The raw buffer and components that encoding `input` yields.
pub open spec fn encode_spec(input: Seq<u8>) -> (Seq<u8>, Seq<GzipComponent>) {
    encode_from(input, 0, Seq::empty(), Seq::empty())
}

/// The bytes of all components, in order.
pub open spec fn decode_seq(raw: Seq<u8>, comps: Seq<GzipComponent>) -> Seq<u8>
    decreases comps.len(),
{
    if comps.len() == 0 {
        Seq::empty()
    } else {
        decode_seq(raw, comps.drop_last()) + component_bytes(raw, comps.last())
    }
}

/// Every component reads from a buffer of `len` bytes, and no span is a
/// single byte wide.
pub open spec fn components_valid(len: nat, comps: Seq<GzipComponent>) -> bool {
    forall|k: int|
        0 <= k < comps.len() ==> {
            &&& in_bounds(len, #[trigger] comps[k])
            &&& !(comps[k] matches GzipComponent::Span(s, e) && s == e)
        }
}

pub proof fn lemma_run_len_bound(raw: Seq<u8>, input: Seq<u8>, j: nat, p: nat)
    ensures
        run_len(raw, input, j, p) > 0 ==> p + run_len(raw, input, j, p) <= input.len(),
        run_len(raw, input, j, p) > 0 ==> j + run_len(raw, input, j, p) <= raw.len(),
    decreases input.len() - p,
{
    if j < raw.len() && p < input.len() && raw[j as int] == input[p as int] {
        lemma_run_len_bound(raw, input, j + 1, p + 1);
    }
}

pub proof fn lemma_first_from(raw: Seq<u8>, b: u8, j: nat)
    ensures
        first_from(raw, b, j) <= raw.len(),
        first_from(raw, b, j) < raw.len() ==> j <= first_from(raw, b, j) && raw[first_from(
            raw,
            b,
            j,
        ) as int] == b,
    decreases raw.len() - j,
{
    if j < raw.len() && raw[j as int] != b {
        lemma_first_from(raw, b, j + 1);
    }
}

/// The stretch that `run_len` counts is equal on both sides.
pub proof fn lemma_run_len_agrees(raw: Seq<u8>, input: Seq<u8>, j: nat, p: nat)
    ensures
        j + run_len(raw, input, j, p) <= raw.len() || run_len(raw, input, j, p) == 0,
        run_len(raw, input, j, p) > 0 ==> raw.subrange(j as int, (j + run_len(raw, input, j, p)) as int)
            == input.subrange(p as int, (p + run_len(raw, input, j, p)) as int),
    decreases input.len() - p,
{
    lemma_run_len_bound(raw, input, j, p);
    if j < raw.len() && p < input.len() && raw[j as int] == input[p as int] {
        lemma_run_len_agrees(raw, input, j + 1, p + 1);
        lemma_run_len_bound(raw, input, j + 1, p + 1);
        let k = run_len(raw, input, j, p);
        let rest = run_len(raw, input, j + 1, p + 1);
        assert(raw.subrange(j as int, (j + k) as int) =~= seq![raw[j as int]] + raw.subrange(
            j as int + 1,
            (j + 1 + rest) as int,
        ));
        assert(input.subrange(p as int, (p + k) as int) =~= seq![input[p as int]]
            + input.subrange(p as int + 1, (p + 1 + rest) as int));
    }
}

/// Appending to the buffer leaves the bytes of in-bounds components as they were.
pub proof fn lemma_decode_push_raw(raw: Seq<u8>, x: u8, comps: Seq<GzipComponent>)
    requires
        components_valid(raw.len(), comps),
    ensures
        decode_seq(raw.push(x), comps) == decode_seq(raw, comps),
    decreases comps.len(),
{
    if comps.len() > 0 {
        let c = comps.last();
        assert(comps.drop_last().len() == comps.len() - 1);
        assert(components_valid(raw.len(), comps.drop_last())) by {
            assert forall|k: int| 0 <= k < comps.drop_last().len() implies in_bounds(
                raw.len(),
                #[trigger] comps.drop_last()[k],
            ) && !(comps.drop_last()[k] matches GzipComponent::Span(s, e) && s == e) by {
                assert(comps.drop_last()[k] == comps[k]);
            }
        }
        lemma_decode_push_raw(raw, x, comps.drop_last());
        assert(in_bounds(raw.len(), comps[comps.len() - 1]));
        assert(component_bytes(raw.push(x), c) =~= component_bytes(raw, c));
    }
}

/// Encoding from a state whose components decode to the input read so far
/// ends in valid components that decode to the whole input.
pub proof fn lemma_encode_from_decodes(
    input: Seq<u8>,
    p: nat,
    raw: Seq<u8>,
    comps: Seq<GzipComponent>,
)
    requires
        p <= input.len(),
        input.len() <= usize::MAX,
        raw.len() <= p,
        components_valid(raw.len(), comps),
        decode_seq(raw, comps) == input.take(p as int),
    ensures
        components_valid(encode_from(input, p, raw, comps).0.len(), encode_from(input, p, raw, comps).1),
        decode_seq(encode_from(input, p, raw, comps).0, encode_from(input, p, raw, comps).1) == input,
    decreases input.len() - p,
{
    if p >= input.len() {
        assert(input.take(p as int) =~= input);
    } else {
        let b = input[p as int];
        let j = first_from(raw, b, 0);
        lemma_first_from(raw, b, 0);
        if j >= raw.len() {
            let raw2 = raw.push(b);
            let c = GzipComponent::Single(raw.len() as usize);
            let comps2 = comps.push(c);
            lemma_decode_push_raw(raw, b, comps);
            assert(comps2.drop_last() =~= comps);
            assert(component_bytes(raw2, c) =~= seq![b]);
            assert(input.take(p as int + 1) =~= input.take(p as int) + seq![b]);
            assert(components_valid(raw2.len(), comps2)) by {
                assert forall|k: int| 0 <= k < comps2.len() implies in_bounds(
                    raw2.len(),
                    #[trigger] comps2[k],
                ) && !(comps2[k] matches GzipComponent::Span(s, e) && s == e) by {
                    if k < comps.len() {
                        assert(comps2[k] == comps[k]);
                    }
                }
            }
            lemma_encode_from_decodes(input, p + 1, raw2, comps2);
        } else {
            let rest = run_len(raw, input, j + 1, p + 1);
            let width = 1 + rest;
            lemma_run_len_bound(raw, input, j + 1, p + 1);
            lemma_run_len_agrees(raw, input, j + 1, p + 1);
            let c = match_component(j, width);
            let comps2 = comps.push(c);
            assert(comps2.drop_last() =~= comps);
            assert(j + width <= raw.len());
            assert(p + width <= input.len());
            assert(component_bytes(raw, c) =~= input.subrange(p as int, (p + width) as int)) by {
                if rest > 0 {
                    assert(raw.subrange(j as int, (j + width) as int) =~= seq![raw[j as int]]
                        + raw.subrange(j as int + 1, (j + 1 + rest) as int));
                    assert(input.subrange(p as int, (p + width) as int) =~= seq![input[p as int]]
                        + input.subrange(p as int + 1, (p + 1 + rest) as int));
                }
            }
            assert(input.take((p + width) as int) =~= input.take(p as int) + input.subrange(
                p as int,
                (p + width) as int,
            ));
            assert(components_valid(raw.len(), comps2)) by {
                assert forall|k: int| 0 <= k < comps2.len() implies in_bounds(
                    raw.len(),
                    #[trigger] comps2[k],
                ) && !(comps2[k] matches GzipComponent::Span(s, e) && s == e) by {
                    if k < comps.len() {
                        assert(comps2[k] == comps[k]);
                    }
                }
            }
            lemma_encode_from_decodes(input, p + width, raw, comps2);
        }
    }
}

} // verus!

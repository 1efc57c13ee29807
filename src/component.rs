use vstd::prelude::*;

verus! {

/// One reference into the raw buffer of a compressed value.
#[derive(Debug, PartialEq, Eq, Clone, Copy, Structural)]
pub enum GzipComponent {
    /// The single byte at this index.
    Single(usize),
    /// The bytes from `start` to `end`, both included.
    Span(usize, usize),
}

/// Why a component could not be read from a raw buffer.
#[derive(Debug, PartialEq, Eq, Clone, Copy, Structural)]
pub enum DecodeError {
    /// An index lies outside the buffer, or a span ends before it starts.
    IndexOutOfRange,
}

/// The component can be read from a buffer of `len` bytes.
pub open spec fn in_bounds(len: nat, c: GzipComponent) -> bool {
    match c {
        GzipComponent::Single(i) => i < len,
        GzipComponent::Span(s, e) => s <= e && e < len,
    }
}

/// The bytes that the component stands for in `raw`.
pub open spec fn component_bytes(raw: Seq<u8>, c: GzipComponent) -> Seq<u8> {
    match c {
        GzipComponent::Single(i) => seq![raw[i as int]],
        GzipComponent::Span(s, e) => raw.subrange(s as int, e + 1),
    }
}

/// Reads one component out of `raw`.
pub fn decode_component(raw: &[u8], c: &GzipComponent) -> (r: Result<Vec<u8>, DecodeError>)
    ensures
        r is Ok <==> in_bounds(raw@.len(), *c),
        r matches Ok(v) ==> v@ == component_bytes(raw@, *c),
        r matches Err(e) ==> e == DecodeError::IndexOutOfRange,
{
    match *c {
        GzipComponent::Single(i) => {
            if i < raw.len() {
                let mut out: Vec<u8> = Vec::new();
                out.push(raw[i]);
                Ok(out)
            } else {
                Err(DecodeError::IndexOutOfRange)
            }
        },
        GzipComponent::Span(s, e) => {
            if s <= e && e < raw.len() {
                let mut out: Vec<u8> = Vec::new();
                let mut i: usize = s;
                while i <= e
                    invariant
                        s <= i <= e + 1,
                        e < raw@.len(),
                        out@ == raw@.subrange(s as int, i as int),
                    decreases e + 1 - i,
                {
                    out.push(raw[i]);
                    i = i + 1;
                }
                Ok(out)
            } else {
                Err(DecodeError::IndexOutOfRange)
            }
        },
    }
}

} // verus!

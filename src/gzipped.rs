use vstd::prelude::*;
use crate::component::{component_bytes, decode_component, GzipComponent};
use crate::model::{
    components_valid, decode_seq, encode_from, encode_spec, first_from, lemma_encode_from_decodes,
    match_component, run_len,
};

verus! {

/// What a driver writes for a component whose bytes are `b`: a run of more
/// than one byte is put between the markers `on` and `off`.
pub open spec fn frame(b: Seq<u8>, on: Seq<u8>, off: Seq<u8>) -> Seq<u8> {
    if b.len() > 1 {
        on + b + off
    } else {
        b
    }
}

/// A byte sequence in compressed form: the distinct bytes met while
/// encoding, and the components that rebuild the input from them.
pub struct Gzipped {
    raw: Vec<u8>,
    components: Vec<GzipComponent>,
}

impl Gzipped {
    #[verifier::type_invariant]
    spec fn inv(&self) -> bool {
        components_valid(self.raw@.len(), self.components@)
    }

    /// The raw buffer.
    pub closed spec fn raw_bytes(&self) -> Seq<u8> {
        self.raw@
    }

    /// The components, in order.
    pub closed spec fn tokens(&self) -> Seq<GzipComponent> {
        self.components@
    }

    /// Compresses `bytes` by greedy first-fit matching against the raw
    /// buffer built so far.
    pub fn new(bytes: &[u8]) -> (r: Self)
        ensures
            (r.raw_bytes(), r.tokens()) == encode_spec(bytes@),
            components_valid(r.raw_bytes().len(), r.tokens()),
            decode_seq(r.raw_bytes(), r.tokens()) == bytes@,
    {
        let mut raw: Vec<u8> = Vec::new();
        let mut components: Vec<GzipComponent> = Vec::new();
        let n = bytes.len();
        let mut p: usize = 0;
        proof {
            assert(bytes@.take(0) =~= Seq::<u8>::empty());
            lemma_encode_from_decodes(bytes@, 0, raw@, components@);
        }
        while p < n
            invariant
                n == bytes@.len(),
                p <= n,
                encode_from(bytes@, p as nat, raw@, components@) == encode_spec(bytes@),
            decreases bytes@.len() - p,
        {
            let b = bytes[p];
            let mut j: usize = 0;
            while j < raw.len() && raw[j] != b
                invariant
                    j <= raw@.len(),
                    first_from(raw@, b, j as nat) == first_from(raw@, b, 0),
                decreases raw@.len() - j,
            {
                j = j + 1;
            }
            if j == raw.len() {
                let c = GzipComponent::Single(raw.len());
                raw.push(b);
                components.push(c);
                p = p + 1;
            } else {
                let mut e: usize = j;
                let mut q: usize = p + 1;
                while e < raw.len() - 1 && q < bytes.len() && raw[e + 1] == bytes[q]
                    invariant
                        j <= e < raw@.len(),
                        p < q <= bytes@.len(),
                        q == p + 1 + (e - j),
                        run_len(raw@, bytes@, j as nat + 1, p as nat + 1) == (e - j) + run_len(
                            raw@,
                            bytes@,
                            e as nat + 1,
                            q as nat,
                        ),
                    decreases bytes@.len() - q,
                {
                    e = e + 1;
                    q = q + 1;
                }
                let c = if e == j {
                    GzipComponent::Single(j)
                } else {
                    GzipComponent::Span(j, e)
                };
                assert(c == match_component(j as nat, (1 + e - j) as nat));
                components.push(c);
                p = q;
            }
        }
        Gzipped { raw, components }
    }

    /// The bytes of the component at `index`, or `None` past the last one.
    pub fn get(&self, index: usize) -> (r: Option<Vec<u8>>)
        ensures
            index >= self.tokens().len() ==> r is None,
            index < self.tokens().len() ==> (r matches Some(v) && v@ == component_bytes(
                self.raw_bytes(),
                self.tokens()[index as int],
            )),
    {
        proof {
            use_type_invariant(self);
        }
        if index < self.components.len() {
            match decode_component(self.raw.as_slice(), &self.components[index]) {
                Ok(v) => Some(v),
                Err(_) => None,
            }
        } else {
            None
        }
    }

    /// The bytes of all components, in order: the input that was compressed.
    pub fn decode_all(&self) -> (r: Vec<u8>)
        ensures
            r@ == decode_seq(self.raw_bytes(), self.tokens()),
    {
        proof {
            use_type_invariant(self);
        }
        let mut out: Vec<u8> = Vec::new();
        let mut i: usize = 0;
        while i < self.components.len()
            invariant
                i <= self.components@.len(),
                components_valid(self.raw@.len(), self.components@),
                out@ == decode_seq(self.raw@, self.components@.take(i as int)),
            decreases self.components@.len() - i,
        {
            proof {
                assert(self.components@.take(i as int + 1).drop_last() =~= self.components@.take(
                    i as int,
                ));
            }
            let mut bytes = self.get(i).unwrap();
            out.append(&mut bytes);
            i = i + 1;
        }
        proof {
            assert(self.components@.take(i as int) =~= self.components@);
        }
        out
    }

    /// The bytes of the component at `index`, between `on` and `off` when
    /// they are more than one; `None` past the last component.
    pub fn framed(&self, index: usize, on: &[u8], off: &[u8]) -> (r: Option<Vec<u8>>)
        ensures
            index >= self.tokens().len() ==> r is None,
            index < self.tokens().len() ==> (r matches Some(v) && v@ == frame(
                component_bytes(self.raw_bytes(), self.tokens()[index as int]),
                on@,
                off@,
            )),
    {
        match self.get(index) {
            Some(bytes) => {
                if bytes.len() > 1 {
                    let mut out: Vec<u8> = Vec::new();
                    out.extend_from_slice(on);
                    let mut middle = bytes;
                    out.append(&mut middle);
                    let mut tail: Vec<u8> = Vec::new();
                    tail.extend_from_slice(off);
                    out.append(&mut tail);
                    assert(out@ =~= on@ + component_bytes(
                        self.raw_bytes(),
                        self.tokens()[index as int],
                    ) + off@);
                    Some(out)
                } else {
                    Some(bytes)
                }
            },
            None => None,
        }
    }

    /// The number of components.
    pub fn len(&self) -> (r: usize)
        ensures
            r == self.tokens().len(),
    {
        self.components.len()
    }

    /// The raw buffer.
    pub fn raw(&self) -> (r: &[u8])
        ensures
            r@ == self.raw_bytes(),
    {
        self.raw.as_slice()
    }

    /// The components, in order.
    pub fn components(&self) -> (r: &[GzipComponent])
        ensures
            r@ == self.tokens(),
    {
        self.components.as_slice()
    }
}

} // verus!

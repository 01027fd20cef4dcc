use crate::modular::group_order;
use crate::point::{is_encoding, point_of, Point};
use crate::transcript::{digest, digest_of};
use curve25519_dalek::RistrettoPoint;
use rand_chacha::ChaCha20Rng;
use rand_core::SeedableRng;
use vstd::prelude::*;

verus! {

/// The encoding of the element that `RistrettoPoint::random` draws in turn `index`
/// (counted from zero) from a ChaCha20 generator seeded with `seed`.
pub uninterp spec fn seeded_point(seed: Seq<u8>, index: nat) -> Seq<u8>;

/// Relies on `ChaCha20Rng::from_seed` of rand_chacha and `RistrettoPoint::random` of
/// curve25519-dalek: the first three elements drawn from the seeded generator.
#[verifier::external_body]
fn seeded_point_bytes(seed: [u8; 32]) -> (r: ([u8; 32], [u8; 32], [u8; 32]))
    ensures
        r.0@ == seeded_point(seed@, 0),
        r.1@ == seeded_point(seed@, 1),
        r.2@ == seeded_point(seed@, 2),
        is_encoding(r.0@),
        is_encoding(r.1@),
        is_encoding(r.2@),
{
    let mut rng = ChaCha20Rng::from_seed(seed);
    let h0 = RistrettoPoint::random(&mut rng);
    let h1 = RistrettoPoint::random(&mut rng);
    let h2 = RistrettoPoint::random(&mut rng);
    (h0.compress().to_bytes(), h1.compress().to_bytes(), h2.compress().to_bytes())
}

/// The label whose digest seeds the commitment bases: the ASCII bytes of `INNOCENCE`.
pub open spec fn params_label() -> Seq<u8> {
    seq![73u8, 78, 78, 79, 67, 69, 78, 67, 69]
}

/// The encoding of the commitment base drawn in turn `index`.
pub open spec fn standard_base_encoding(index: nat) -> Seq<u8> {
    seeded_point(digest_of(params_label()), index)
}

/// The discrete logarithm of the commitment base drawn in turn `index`.
pub open spec fn standard_base(index: nat) -> int {
    choose|d: int| 0 <= d < group_order() && point_of(d) == standard_base_encoding(index)
}

/// The commitment bases `h0`, `h1`, `h2` shared by every participant.
pub struct Params {
    pub(crate) h0: Point,
    pub(crate) h1: Point,
    pub(crate) h2: Point,
}

impl View for Params {
    type V = (int, int, int);

    /// The discrete logarithms of the three bases.
    closed spec fn view(&self) -> (int, int, int) {
        (self.h0@, self.h1@, self.h2@)
    }
}

impl Params {
    /// The bases are the ones derived from the fixed label.
    pub closed spec fn is_standard(&self) -> bool {
        &&& self.h0.wf() && self.h1.wf() && self.h2.wf()
        &&& self.h0.encoding() == standard_base_encoding(0) && self.h0@ == standard_base(0)
        &&& self.h1.encoding() == standard_base_encoding(1) && self.h1@ == standard_base(1)
        &&& self.h2.encoding() == standard_base_encoding(2) && self.h2@ == standard_base(2)
    }

    /// The encodings of the three bases.
    pub closed spec fn encodings(&self) -> (Seq<u8>, Seq<u8>, Seq<u8>) {
        (self.h0.encoding(), self.h1.encoding(), self.h2.encoding())
    }

    /// What the standard bases are, for the protocol in this crate.
    pub(crate) proof fn lemma_standard(&self)
        requires
            self.is_standard(),
        ensures
            self.h0.wf() && self.h1.wf() && self.h2.wf(),
            self.h0@ == standard_base(0),
            self.h1@ == standard_base(1),
            self.h2@ == standard_base(2),
            self.encodings() == (
                standard_base_encoding(0),
                standard_base_encoding(1),
                standard_base_encoding(2),
            ),
    {
    }

    /// The bases drawn from a generator seeded with the digest of the fixed label.
    pub fn standard() -> (r: Params)
        ensures
            r.is_standard(),
    {
        let label: [u8; 9] = [73, 78, 78, 79, 67, 69, 78, 67, 69];
        proof {
            assert(label@ =~= params_label());
        }
        let seed = digest(&label);
        let (b0, b1, b2) = seeded_point_bytes(seed);
        Params {
            h0: Point::from_encoding(b0),
            h1: Point::from_encoding(b1),
            h2: Point::from_encoding(b2),
        }
    }

    /// The encodings of the three bases, in order.
    pub fn to_bytes(&self) -> (r: ([u8; 32], [u8; 32], [u8; 32]))
        ensures
            (r.0@, r.1@, r.2@) == self.encodings(),
    {
        (self.h0.bytes(), self.h1.bytes(), self.h2.bytes())
    }
}

/// Every construction of the standard bases gives the same elements, byte for byte.
pub proof fn lemma_params_deterministic(a: Params, b: Params)
    requires
        a.is_standard(),
        b.is_standard(),
    ensures
        a.encodings() == b.encodings(),
        a@ == b@,
{
}

impl Default for Params {
    fn default() -> (r: Params)
        ensures
            r.is_standard(),
    {
        Params::standard()
    }
}

} // verus!

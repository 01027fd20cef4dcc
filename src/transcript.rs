use crate::modular::group_order;
use crate::point::Point;
use crate::scalar::{value_of, Scalar};
use curve25519_dalek::ristretto::CompressedRistretto;
use rand_chacha::ChaCha20Rng;
use rand_core::SeedableRng;
use vstd::prelude::*;

verus! {

#[verifier::external_type_specification]
#[verifier::external_body]
pub struct ExEncodeError(bincode::error::EncodeError);

/// The BLAKE3 digest of `msg`.
pub uninterp spec fn digest_of(msg: Seq<u8>) -> Seq<u8>;

/// The encoding of the first scalar that `Scalar::random` draws from a ChaCha20
/// generator seeded with `seed`.
pub uninterp spec fn seeded_scalar(seed: Seq<u8>) -> Seq<u8>;

/// Relies on `bincode::serde::encode_to_vec` with the standard configuration, on a
/// `CompressedRistretto`: it serialises as the tuple of its 32 bytes, each written as
/// one byte, into a vector that never refuses a write.
#[verifier::external_body]
fn encode_point(b: [u8; 32]) -> (r: Result<Vec<u8>, bincode::error::EncodeError>)
    ensures
        match r {
            Ok(v) => v@ == b@,
            Err(_) => false,
        },
{
    bincode::serde::encode_to_vec(CompressedRistretto(b), bincode::config::standard())
}

/// Relies on `bincode::serde::encode_to_vec` with the standard configuration, on a
/// `Scalar` read with `from_bytes_mod_order`: a canonical scalar serialises as the
/// tuple of its 32 bytes, each written as one byte.
#[verifier::external_body]
fn encode_scalar(b: [u8; 32]) -> (r: Result<Vec<u8>, bincode::error::EncodeError>)
    requires
        value_of(b@) < group_order(),
    ensures
        match r {
            Ok(v) => v@ == b@,
            Err(_) => false,
        },
{
    let s = curve25519_dalek::Scalar::from_bytes_mod_order(b);
    bincode::serde::encode_to_vec(s, bincode::config::standard())
}

/// Relies on `blake3::hash`: the 32-byte digest of the message.
#[verifier::external_body]
pub(crate) fn digest(msg: &[u8]) -> (r: [u8; 32])
    ensures
        r@ == digest_of(msg@),
{
    *blake3::hash(msg).as_bytes()
}

/// Relies on `ChaCha20Rng::from_seed` of rand_chacha and `Scalar::random` of
/// curve25519-dalek: the first scalar drawn from the seeded generator, which is
/// reduced modulo the group order.
#[verifier::external_body]
fn seeded_scalar_bytes(seed: [u8; 32]) -> (r: [u8; 32])
    ensures
        r@ == seeded_scalar(seed@),
        value_of(r@) < group_order(),
{
    curve25519_dalek::Scalar::random(&mut ChaCha20Rng::from_seed(seed)).to_bytes()
}

/// The encodings of `points`, one after the other.
pub open spec fn encodings(points: Seq<Point>) -> Seq<u8>
    decreases points.len(),
{
    if points.len() == 0 {
        Seq::empty()
    } else {
        encodings(points.drop_last()) + points.last().encoding()
    }
}

/// The challenge that a transcript which absorbed `t` gives.
pub open spec fn challenge_of(t: Seq<u8>) -> Seq<u8> {
    seeded_scalar(digest_of(t))
}

/// Absorbing two distinct elements in the two orders gives two different byte
/// strings, so that the digest, and with it the challenge, is taken over different
/// inputs.
pub proof fn lemma_absorption_order(a: Point, b: Point)
    requires
        a.wf(),
        b.wf(),
        a.encoding() != b.encoding(),
    ensures
        encodings(seq![a, b]) != encodings(seq![b, a]),
{
    a.lemma_wf();
    b.lemma_wf();
    let ab = seq![a, b];
    let ba = seq![b, a];
    assert(ab.drop_last() =~= seq![a]);
    assert(ba.drop_last() =~= seq![b]);
    assert(seq![a].drop_last() =~= Seq::<Point>::empty());
    assert(seq![b].drop_last() =~= Seq::<Point>::empty());
    assert(encodings(Seq::<Point>::empty()) =~= Seq::<u8>::empty());
    assert(seq![a].last() == a && seq![b].last() == b);
    assert(encodings(seq![a]) =~= a.encoding());
    assert(encodings(seq![b]) =~= b.encoding());
    if encodings(ab) == encodings(ba) {
        assert(encodings(ab).subrange(0, 32) =~= a.encoding());
        assert(encodings(ba).subrange(0, 32) =~= b.encoding());
    }
}

/// A Fiat-Shamir transcript: the bytes absorbed so far, after a domain label.
pub struct Transcript {
    absorbed: Vec<u8>,
}

impl View for Transcript {
    type V = Seq<u8>;

    closed spec fn view(&self) -> Seq<u8> {
        self.absorbed@
    }
}

impl Transcript {
    /// A transcript that has absorbed the label alone.
    pub fn new(label: &[u8]) -> (r: Transcript)
        ensures
            r@ == label@,
    {
        let mut absorbed: Vec<u8> = Vec::new();
        let mut i: usize = 0;
        while i < label.len()
            invariant
                i <= label@.len(),
                absorbed@ == label@.subrange(0, i as int),
            decreases label@.len() - i,
        {
            absorbed.push(label[i]);
            i = i + 1;
            proof {
                assert(absorbed@ =~= label@.subrange(0, i as int));
            }
        }
        proof {
            assert(label@.subrange(0, label@.len() as int) =~= label@);
        }
        Transcript { absorbed }
    }

    /// Absorbs the encoding of a group element.
    pub fn add_element(&mut self, element: &Point)
        requires
            element.wf(),
        ensures
            final(self)@ == old(self)@ + element.encoding(),
    {
        proof {
            element.lemma_wf();
        }
        match encode_point(element.bytes()) {
            Ok(mut v) => self.absorbed.append(&mut v),
            Err(_) => {},
        }
    }

    /// Absorbs the encodings of the elements, in order.
    pub fn add_elements(&mut self, elements: &[Point])
        requires
            forall|i: int| 0 <= i < elements@.len() ==> (#[trigger] elements@[i]).wf(),
        ensures
            final(self)@ == old(self)@ + encodings(elements@),
    {
        let mut i: usize = 0;
        while i < elements.len()
            invariant
                i <= elements@.len(),
                forall|j: int| 0 <= j < elements@.len() ==> (#[trigger] elements@[j]).wf(),
                self@ == old(self)@ + encodings(elements@.subrange(0, i as int)),
            decreases elements@.len() - i,
        {
            self.add_element(&elements[i]);
            proof {
                let s = elements@.subrange(0, i + 1);
                assert(s.drop_last() =~= elements@.subrange(0, i as int));
                assert(s.last() == elements@[i as int]);
            }
            i = i + 1;
        }
        proof {
            assert(elements@.subrange(0, elements@.len() as int) =~= elements@);
        }
    }

    /// Absorbs the encoding of a scalar.
    pub fn add_scalar(&mut self, scalar: &Scalar)
        requires
            scalar.wf(),
        ensures
            final(self)@ == old(self)@ + scalar.encoding(),
    {
        proof {
            scalar.lemma_range();
        }
        match encode_scalar(scalar.bytes()) {
            Ok(mut v) => self.absorbed.append(&mut v),
            Err(_) => {},
        }
    }

    /// The challenge: the digest of what was absorbed seeds a generator, from which
    /// one scalar is drawn.
    pub fn challenge(self) -> (r: Scalar)
        ensures
            r.wf(),
            r.encoding() == challenge_of(self@),
    {
        let seed = digest(self.absorbed.as_slice());
        Scalar::from_canonical(seeded_scalar_bytes(seed))
    }
}

} // verus!

use crate::modular::{group_order, lemma_reduced, lemma_small};
use vstd::prelude::*;

verus! {

/// The integer that a little-endian byte string denotes.
pub open spec fn le_value(b: Seq<u8>) -> nat
    decreases b.len(),
{
    if b.len() == 0 {
        0
    } else {
        b[0] as nat + 256 * le_value(b.drop_first())
    }
}

/// The same integer, as an `int`.
pub open spec fn value_of(b: Seq<u8>) -> int {
    le_value(b) as int
}

/// A byte string denotes zero exactly when every byte is zero.
pub proof fn lemma_zero_value(b: Seq<u8>)
    ensures
        (le_value(b) == 0) == (forall|i: int| 0 <= i < b.len() ==> b[i] == 0),
    decreases b.len(),
{
    if b.len() > 0 {
        lemma_zero_value(b.drop_first());
        if forall|i: int| 0 <= i < b.drop_first().len() ==> b.drop_first()[i] == 0 {
            if b[0] == 0 {
                assert forall|i: int| 0 <= i < b.len() implies b[i] == 0 by {
                    if i > 0 {
                        assert(b[i] == b.drop_first()[i - 1]);
                    }
                }
            }
        } else {
            let j = choose|j: int| 0 <= j < b.drop_first().len() && b.drop_first()[j] != 0;
            assert(b[j + 1] != 0);
        }
    }
}

#[verifier::external_type_specification]
#[verifier::external_body]
pub struct ExChaCha20Rng(rand_chacha::ChaCha20Rng);

/// Relies on `Scalar::random` of curve25519-dalek: a scalar reduced modulo the
/// group order.
#[verifier::external_body]
fn random_scalar_bytes(rng: &mut rand_chacha::ChaCha20Rng) -> (r: [u8; 32])
    ensures
        value_of(r@) < group_order(),
{
    curve25519_dalek::Scalar::random(rng).to_bytes()
}

/// Relies on `Scalar::from_canonical_bytes` of curve25519-dalek: it accepts exactly
/// the little-endian encodings of integers below the group order.
#[verifier::external_body]
fn is_canonical_scalar(b: [u8; 32]) -> (r: bool)
    ensures
        r == (value_of(b@) < group_order()),
{
    bool::from(curve25519_dalek::Scalar::from_canonical_bytes(b).is_some())
}

/// An element of the scalar field, held as its canonical 32-byte little-endian encoding.
#[derive(Clone, Copy)]
pub struct Scalar {
    bytes: [u8; 32],
}

impl View for Scalar {
    type V = int;

    /// The value of the scalar, in `[0, L)` when the scalar is well formed.
    closed spec fn view(&self) -> int {
        value_of(self.bytes@) as int
    }
}

/// Relies on `Scalar::from(u64)` of curve25519-dalek: the scalar whose value is `n`.
#[verifier::external_body]
fn scalar_bytes_of_u64(n: u64) -> (r: [u8; 32])
    ensures
        value_of(r@) == n as int,
{
    curve25519_dalek::Scalar::from(n).to_bytes()
}

/// Relies on `Scalar + Scalar` of curve25519-dalek (operands read with
/// `from_bytes_mod_order`): addition modulo the group order.
#[verifier::external_body]
fn scalar_bytes_add(a: [u8; 32], b: [u8; 32]) -> (r: [u8; 32])
    ensures
        value_of(r@) == (value_of(a@) + value_of(b@)) % group_order(),
{
    (curve25519_dalek::Scalar::from_bytes_mod_order(a)
        + curve25519_dalek::Scalar::from_bytes_mod_order(b)).to_bytes()
}

/// Relies on `Scalar * Scalar` of curve25519-dalek (operands read with
/// `from_bytes_mod_order`): multiplication modulo the group order.
#[verifier::external_body]
fn scalar_bytes_mul(a: [u8; 32], b: [u8; 32]) -> (r: [u8; 32])
    ensures
        value_of(r@) == (value_of(a@) * value_of(b@)) % group_order(),
{
    (curve25519_dalek::Scalar::from_bytes_mod_order(a)
        * curve25519_dalek::Scalar::from_bytes_mod_order(b)).to_bytes()
}

/// Relies on `Scalar::neg` of curve25519-dalek: the additive inverse modulo the group order.
#[verifier::external_body]
fn scalar_bytes_neg(a: [u8; 32]) -> (r: [u8; 32])
    ensures
        value_of(r@) == (0 - value_of(a@)) % group_order(),
{
    (-curve25519_dalek::Scalar::from_bytes_mod_order(a)).to_bytes()
}

/// Relies on `Scalar::invert` of curve25519-dalek: for a nonzero scalar, its
/// multiplicative inverse modulo the group order.
#[verifier::external_body]
fn scalar_bytes_invert(a: [u8; 32]) -> (r: [u8; 32])
    requires
        value_of(a@) % group_order() != 0,
    ensures
        value_of(r@) < group_order(),
        (value_of(r@) * value_of(a@)) % group_order() == 1,
{
    curve25519_dalek::Scalar::from_bytes_mod_order(a).invert().to_bytes()
}

impl Scalar {
    /// The scalar is held in canonical form: its value is below the group order.
    pub closed spec fn wf(&self) -> bool {
        value_of(self.bytes@) < group_order()
    }

    /// The 32 bytes that encode the scalar.
    pub closed spec fn encoding(&self) -> Seq<u8> {
        self.bytes@
    }

    /// The encoding, for the group operations.
    pub(crate) fn bytes(&self) -> (r: [u8; 32])
        ensures
            r@ == self.encoding(),
            value_of(r@) == self@,
    {
        self.bytes
    }

    /// A well-formed scalar's value lies in `[0, L)`.
    pub proof fn lemma_range(&self)
        requires
            self.wf(),
        ensures
            0 <= self@ < group_order(),
    {
    }

    /// The scalar whose canonical encoding is `bytes`.
    pub(crate) fn from_canonical(bytes: [u8; 32]) -> (r: Scalar)
        requires
            value_of(bytes@) < group_order(),
        ensures
            r.wf(),
            r.encoding() == bytes@,
            r@ == value_of(bytes@),
    {
        Scalar { bytes }
    }

    /// A scalar drawn from the generator.
    pub fn random(rng: &mut rand_chacha::ChaCha20Rng) -> (r: Scalar)
        ensures
            r.wf(),
    {
        Scalar { bytes: random_scalar_bytes(rng) }
    }

    /// Whether the scalar is zero. The loop reads every byte.
    pub fn is_zero(&self) -> (r: bool)
        ensures
            r == (self@ == 0),
    {
        let mut zero = true;
        let mut i: usize = 0;
        while i < 32
            invariant
                i <= 32,
                self.bytes@.len() == 32,
                zero == (forall|j: int| 0 <= j < i ==> self.bytes@[j] == 0),
            decreases 32 - i,
        {
            if self.bytes[i] != 0 {
                zero = false;
            }
            i = i + 1;
        }
        proof {
            lemma_zero_value(self.bytes@);
        }
        zero
    }

    /// The canonical little-endian encoding.
    pub fn to_bytes(&self) -> (r: [u8; 32])
        ensures
            r@ == self.encoding(),
    {
        self.bytes
    }

    /// The scalar that `bytes` encode, if they are a canonical encoding.
    pub fn from_bytes(bytes: [u8; 32]) -> (r: Option<Scalar>)
        ensures
            r.is_some() == (value_of(bytes@) < group_order()),
            r matches Some(s) ==> s.wf() && s.encoding() == bytes@ && s@ == value_of(bytes@),
    {
        if is_canonical_scalar(bytes) {
            Some(Scalar { bytes })
        } else {
            None
        }
    }

    /// The scalar whose value is `n`.
    pub fn from_u64(n: u64) -> (r: Scalar)
        ensures
            r.wf(),
            r@ == n as int,
    {
        Scalar { bytes: scalar_bytes_of_u64(n) }
    }

    pub fn add(&self, other: &Scalar) -> (r: Scalar)
        ensures
            r.wf(),
            r@ == (self@ + other@) % group_order(),
    {
        let bytes = scalar_bytes_add(self.bytes, other.bytes);
        proof {
            lemma_reduced(self@ + other@);
        }
        Scalar { bytes }
    }

    pub fn mul(&self, other: &Scalar) -> (r: Scalar)
        ensures
            r.wf(),
            r@ == (self@ * other@) % group_order(),
    {
        let bytes = scalar_bytes_mul(self.bytes, other.bytes);
        proof {
            lemma_reduced(self@ * other@);
        }
        Scalar { bytes }
    }

    pub fn neg(&self) -> (r: Scalar)
        ensures
            r.wf(),
            r@ == (0 - self@) % group_order(),
    {
        let bytes = scalar_bytes_neg(self.bytes);
        proof {
            lemma_reduced(0 - self@);
        }
        Scalar { bytes }
    }

    /// The multiplicative inverse of a nonzero scalar.
    pub fn invert(&self) -> (r: Scalar)
        requires
            self.wf(),
            self@ != 0,
        ensures
            r.wf(),
            (r@ * self@) % group_order() == 1,
    {
        proof {
            lemma_small(self@);
        }
        Scalar { bytes: scalar_bytes_invert(self.bytes) }
    }

    /// Whether two scalars have the same encoding. The loop reads every byte,
    /// whatever the earlier ones held.
    pub fn same_as(&self, other: &Scalar) -> (r: bool)
        ensures
            r == (self.encoding() == other.encoding()),
    {
        let mut same = true;
        let mut i: usize = 0;
        while i < 32
            invariant
                i <= 32,
                same == (forall|j: int| 0 <= j < i ==> self.bytes@[j] == other.bytes@[j]),
            decreases 32 - i,
        {
            let equal_here = self.bytes[i] == other.bytes[i];
            if !equal_here {
                same = false;
            }
            i = i + 1;
        }
        proof {
            if same {
                assert(self.bytes@ =~= other.bytes@);
            }
        }
        same
    }
}

} // verus!

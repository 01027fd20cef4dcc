use crate::modular::{group_order, lemma_reduced};
use crate::scalar::{value_of, Scalar};
use curve25519_dalek::ristretto::CompressedRistretto;
use curve25519_dalek::traits::{MultiscalarMul, VartimeMultiscalarMul};
use curve25519_dalek::RistrettoPoint;
use group::Group;
use vstd::prelude::*;

verus! {

/// The compressed encoding of the base point multiplied by `d`.
pub uninterp spec fn point_of(d: int) -> Seq<u8>;

/// `b` is the compressed encoding of some element of the group.
pub open spec fn is_encoding(b: Seq<u8>) -> bool {
    exists|d: int| 0 <= d < group_order() && point_of(d) == b
}

/// Relies on `Group::generator` of the group crate for `RistrettoPoint`: the base point.
#[verifier::external_body]
fn base_point_bytes() -> (r: [u8; 32])
    ensures
        r@ == point_of(1),
{
    curve25519_dalek::RistrettoPoint::generator().compress().to_bytes()
}

/// Relies on `RistrettoPoint::mul_base` of curve25519-dalek (the scalar read with
/// `from_bytes_mod_order`): the base point multiplied by the scalar.
#[verifier::external_body]
fn base_point_bytes_mul(s: [u8; 32]) -> (r: [u8; 32])
    ensures
        r@ == point_of(value_of(s@) % group_order()),
{
    let s = curve25519_dalek::Scalar::from_bytes_mod_order(s);
    curve25519_dalek::RistrettoPoint::mul_base(&s).compress().to_bytes()
}

/// The sum of `ds[i] * value_of(ss[i]@)` over the terms of `ds`.
pub open spec fn combination(ds: Seq<int>, ss: Seq<[u8; 32]>) -> int
    decreases ds.len(),
{
    if ds.len() == 0 {
        0
    } else {
        combination(ds.drop_last(), ss) + ds.last() * value_of(ss[ds.len() - 1]@)
    }
}

/// `ds` lists, in `[0, L)`, the discrete logarithms of the elements that `points` encode.
pub open spec fn logs_of(points: Seq<[u8; 32]>, ds: Seq<int>) -> bool {
    &&& ds.len() == points.len()
    &&& forall|i: int|
        0 <= i < ds.len() ==> 0 <= #[trigger] ds[i] < group_order() && point_of(ds[i])
            == points[i]@
}

/// Relies on `MultiscalarMul::multiscalar_mul` of curve25519-dalek for `RistrettoPoint`
/// (a constant-time computation; points read with `decompress`, scalars with
/// `from_bytes_mod_order`): the sum of the points multiplied by their scalars.
#[verifier::external_body]
fn point_bytes_combination(points: &[[u8; 32]], scalars: &[[u8; 32]]) -> (r: [u8; 32])
    requires
        points@.len() == scalars@.len(),
        forall|i: int| 0 <= i < points@.len() ==> is_encoding(#[trigger] points@[i]@),
    ensures
        forall|ds: Seq<int>|
            logs_of(points@, ds) ==> r@ == point_of(
                #[trigger] combination(ds, scalars@) % group_order(),
            ),
{
    let mut ps = Vec::new();
    for b in points {
        ps.push(CompressedRistretto(*b).decompress().unwrap());
    }
    let mut ss = Vec::new();
    for b in scalars {
        ss.push(curve25519_dalek::Scalar::from_bytes_mod_order(*b));
    }
    RistrettoPoint::multiscalar_mul(ss, ps).compress().to_bytes()
}

/// Relies on `VartimeMultiscalarMul::vartime_multiscalar_mul` of curve25519-dalek for
/// `RistrettoPoint` (points read with `decompress`, scalars with
/// `from_bytes_mod_order`; the two lists have one length): the sum of the points
/// multiplied by their scalars.
#[verifier::external_body]
fn point_bytes_vartime_combination(points: &[[u8; 32]], scalars: &[[u8; 32]]) -> (r: [u8; 32])
    requires
        points@.len() == scalars@.len(),
        forall|i: int| 0 <= i < points@.len() ==> is_encoding(#[trigger] points@[i]@),
    ensures
        forall|ds: Seq<int>|
            logs_of(points@, ds) ==> r@ == point_of(
                #[trigger] combination(ds, scalars@) % group_order(),
            ),
{
    let mut ps = Vec::new();
    for b in points {
        ps.push(CompressedRistretto(*b).decompress().unwrap());
    }
    let mut ss = Vec::new();
    for b in scalars {
        ss.push(curve25519_dalek::Scalar::from_bytes_mod_order(*b));
    }
    RistrettoPoint::vartime_multiscalar_mul(ss, ps).compress().to_bytes()
}

/// Relies on `RistrettoPoint + RistrettoPoint` of curve25519-dalek (operands read
/// with `CompressedRistretto::decompress`, which accepts every canonical encoding):
/// the group operation.
#[verifier::external_body]
fn point_bytes_add(a: [u8; 32], b: [u8; 32]) -> (r: [u8; 32])
    requires
        is_encoding(a@),
        is_encoding(b@),
    ensures
        forall|da: int, db: int|
            #![trigger point_of(da), point_of(db)]
            0 <= da < group_order() && 0 <= db < group_order() && point_of(da) == a@
                && point_of(db) == b@ ==> r@ == point_of((da + db) % group_order()),
{
    let p = CompressedRistretto(a).decompress().unwrap();
    let q = CompressedRistretto(b).decompress().unwrap();
    (p + q).compress().to_bytes()
}

/// Relies on `RistrettoPoint - RistrettoPoint` of curve25519-dalek: the group
/// operation with the inverse of the second operand.
#[verifier::external_body]
fn point_bytes_sub(a: [u8; 32], b: [u8; 32]) -> (r: [u8; 32])
    requires
        is_encoding(a@),
        is_encoding(b@),
    ensures
        forall|da: int, db: int|
            #![trigger point_of(da), point_of(db)]
            0 <= da < group_order() && 0 <= db < group_order() && point_of(da) == a@
                && point_of(db) == b@ ==> r@ == point_of((da - db) % group_order()),
{
    let p = CompressedRistretto(a).decompress().unwrap();
    let q = CompressedRistretto(b).decompress().unwrap();
    (p - q).compress().to_bytes()
}

/// Relies on `RistrettoPoint * Scalar` of curve25519-dalek (the scalar read with
/// `from_bytes_mod_order`): scalar multiplication.
#[verifier::external_body]
fn point_bytes_mul(a: [u8; 32], s: [u8; 32]) -> (r: [u8; 32])
    requires
        is_encoding(a@),
    ensures
        forall|da: int|
            0 <= da < group_order() && #[trigger] point_of(da) == a@ ==> r@ == point_of(
                (da * value_of(s@)) % group_order(),
            ),
{
    let p = CompressedRistretto(a).decompress().unwrap();
    (p * curve25519_dalek::Scalar::from_bytes_mod_order(s)).compress().to_bytes()
}

/// Relies on `CompressedRistretto::decompress` of curve25519-dalek: it accepts
/// exactly the canonical encodings of group elements.
#[verifier::external_body]
fn decodes_to_point(b: [u8; 32]) -> (r: bool)
    ensures
        r == is_encoding(b@),
{
    CompressedRistretto(b).decompress().is_some()
}

/// An element of the group, held as its compressed encoding, together with its
/// discrete logarithm with respect to the base point.
#[derive(Clone, Copy)]
pub struct Point {
    bytes: [u8; 32],
    dlog: Ghost<int>,
}

impl View for Point {
    type V = int;

    /// The discrete logarithm of the element with respect to the base point.
    closed spec fn view(&self) -> int {
        self.dlog@
    }
}

impl Point {
    /// The logarithm lies in `[0, L)` and the bytes encode the element it names.
    pub closed spec fn wf(&self) -> bool {
        0 <= self.dlog@ < group_order() && self.bytes@ == point_of(self.dlog@)
    }

    /// The 32 bytes that encode the element.
    pub closed spec fn encoding(&self) -> Seq<u8> {
        self.bytes@
    }

    /// A well-formed element's logarithm lies in `[0, L)` and determines its encoding.
    pub proof fn lemma_wf(&self)
        requires
            self.wf(),
        ensures
            0 <= self@ < group_order(),
            self.encoding() == point_of(self@),
            self.encoding().len() == 32,
    {
    }

    /// The encoding, for the outside calls.
    pub(crate) fn bytes(&self) -> (r: [u8; 32])
        ensures
            r@ == self.encoding(),
    {
        self.bytes
    }

    /// The element whose compressed encoding is `bytes`, which must encode one.
    pub(crate) fn from_encoding(bytes: [u8; 32]) -> (r: Point)
        requires
            is_encoding(bytes@),
        ensures
            r.wf(),
            r.encoding() == bytes@,
            r@ == choose|d: int| 0 <= d < group_order() && point_of(d) == bytes@,
    {
        Point { bytes, dlog: Ghost(choose|d: int| 0 <= d < group_order() && point_of(d) == bytes@) }
    }

    /// The compressed encoding.
    pub fn to_bytes(&self) -> (r: [u8; 32])
        ensures
            r@ == self.encoding(),
    {
        self.bytes
    }

    /// The element that `bytes` encode, if they encode one.
    pub fn from_bytes(bytes: [u8; 32]) -> (r: Option<Point>)
        ensures
            r.is_some() == is_encoding(bytes@),
            r matches Some(p) ==> p.wf() && p.encoding() == bytes@,
    {
        if decodes_to_point(bytes) {
            Some(Point::from_encoding(bytes))
        } else {
            None
        }
    }

    /// The base point.
    pub fn generator() -> (r: Point)
        ensures
            r.wf(),
            r@ == 1,
    {
        Point { bytes: base_point_bytes(), dlog: Ghost(1) }
    }

    /// The base point multiplied by `s`.
    pub fn mul_base(s: &Scalar) -> (r: Point)
        requires
            s.wf(),
        ensures
            r.wf(),
            r@ == s@,
    {
        let bytes = base_point_bytes_mul(s.bytes());
        proof {
            s.lemma_range();
            crate::modular::lemma_small(s@);
        }
        Point { bytes, dlog: Ghost(s@) }
    }

    /// `a s + b t`, computed in constant time, for secret scalars.
    pub fn sum_of_products(a: &Point, s: &Scalar, b: &Point, t: &Scalar) -> (r: Point)
        requires
            a.wf(),
            b.wf(),
            s.wf(),
            t.wf(),
        ensures
            r.wf(),
            r@ == (a@ * s@ + b@ * t@) % group_order(),
    {
        let points: [[u8; 32]; 2] = [a.bytes, b.bytes];
        let scalars: [[u8; 32]; 2] = [s.bytes(), t.bytes()];
        let bytes = point_bytes_combination(&points, &scalars);
        proof {
            assert(points@ =~= seq![a.bytes, b.bytes]);
            assert(scalars@[0] == scalars[0] && scalars@[1] == scalars[1]);
            Point::lemma_two_terms(points@, scalars@, *a, *s, *b, *t);
            lemma_reduced(a@ * s@ + b@ * t@);
        }
        Point { bytes, dlog: Ghost((a@ * s@ + b@ * t@) % group_order()) }
    }

    /// `a s + b t`, computed in variable time, for public values only.
    pub fn sum_of_products_vartime(a: &Point, s: &Scalar, b: &Point, t: &Scalar) -> (r: Point)
        requires
            a.wf(),
            b.wf(),
            s.wf(),
            t.wf(),
        ensures
            r.wf(),
            r@ == (a@ * s@ + b@ * t@) % group_order(),
    {
        let points: [[u8; 32]; 2] = [a.bytes, b.bytes];
        let scalars: [[u8; 32]; 2] = [s.bytes(), t.bytes()];
        let bytes = point_bytes_vartime_combination(&points, &scalars);
        proof {
            assert(points@ =~= seq![a.bytes, b.bytes]);
            assert(scalars@[0] == scalars[0] && scalars@[1] == scalars[1]);
            Point::lemma_two_terms(points@, scalars@, *a, *s, *b, *t);
            lemma_reduced(a@ * s@ + b@ * t@);
        }
        Point { bytes, dlog: Ghost((a@ * s@ + b@ * t@) % group_order()) }
    }

    /// `a s + b t + c u`, computed in variable time, for public values only.
    pub fn sum_of_three_products_vartime(
        a: &Point,
        s: &Scalar,
        b: &Point,
        t: &Scalar,
        c: &Point,
        u: &Scalar,
    ) -> (r: Point)
        requires
            a.wf(),
            b.wf(),
            c.wf(),
            s.wf(),
            t.wf(),
            u.wf(),
        ensures
            r.wf(),
            r@ == (a@ * s@ + b@ * t@ + c@ * u@) % group_order(),
    {
        let points: [[u8; 32]; 3] = [a.bytes, b.bytes, c.bytes];
        let scalars: [[u8; 32]; 3] = [s.bytes(), t.bytes(), u.bytes()];
        let bytes = point_bytes_vartime_combination(&points, &scalars);
        proof {
            let ds = seq![a@, b@, c@];
            assert(points@[0] == a.bytes && points@[1] == b.bytes && points@[2] == c.bytes);
            assert(logs_of(points@, ds));
            assert(scalars@[0] == scalars[0] && scalars@[1] == scalars[1] && scalars@[2]
                == scalars[2]);
            let d1 = seq![a@];
            let d2 = seq![a@, b@];
            assert(d1.drop_last() =~= Seq::<int>::empty());
            assert(d2.drop_last() =~= d1);
            assert(ds.drop_last() =~= d2);
            assert(combination(Seq::<int>::empty(), scalars@) == 0);
            assert(combination(d1, scalars@) == a@ * s@);
            assert(combination(d2, scalars@) == a@ * s@ + b@ * t@);
            assert(combination(ds, scalars@) == a@ * s@ + b@ * t@ + c@ * u@);
            lemma_reduced(a@ * s@ + b@ * t@ + c@ * u@);
        }
        Point { bytes, dlog: Ghost((a@ * s@ + b@ * t@ + c@ * u@) % group_order()) }
    }

    proof fn lemma_two_terms(
        points: Seq<[u8; 32]>,
        scalars: Seq<[u8; 32]>,
        a: Point,
        s: Scalar,
        b: Point,
        t: Scalar,
    )
        requires
            a.wf(),
            b.wf(),
            points == seq![a.bytes, b.bytes],
            scalars.len() == 2,
            value_of(scalars[0]@) == s@,
            value_of(scalars[1]@) == t@,
        ensures
            logs_of(points, seq![a@, b@]),
            combination(seq![a@, b@], scalars) == a@ * s@ + b@ * t@,
    {
        let ds = seq![a@, b@];
        let d1 = seq![a@];
        assert(d1.drop_last() =~= Seq::<int>::empty());
        assert(ds.drop_last() =~= d1);
        assert(combination(Seq::<int>::empty(), scalars) == 0);
        assert(combination(d1, scalars) == a@ * s@);
        assert(combination(ds, scalars) == a@ * s@ + b@ * t@);
    }

    pub fn add(&self, other: &Point) -> (r: Point)
        requires
            self.wf(),
            other.wf(),
        ensures
            r.wf(),
            r@ == (self@ + other@) % group_order(),
    {
        let bytes = point_bytes_add(self.bytes, other.bytes);
        proof {
            lemma_reduced(self@ + other@);
        }
        Point { bytes, dlog: Ghost((self@ + other@) % group_order()) }
    }

    pub fn sub(&self, other: &Point) -> (r: Point)
        requires
            self.wf(),
            other.wf(),
        ensures
            r.wf(),
            r@ == (self@ - other@) % group_order(),
    {
        let bytes = point_bytes_sub(self.bytes, other.bytes);
        proof {
            lemma_reduced(self@ - other@);
        }
        Point { bytes, dlog: Ghost((self@ - other@) % group_order()) }
    }

    pub fn mul(&self, s: &Scalar) -> (r: Point)
        requires
            self.wf(),
            s.wf(),
        ensures
            r.wf(),
            r@ == (self@ * s@) % group_order(),
    {
        let bytes = point_bytes_mul(self.bytes, s.bytes());
        proof {
            lemma_reduced(self@ * s@);
        }
        Point { bytes, dlog: Ghost((self@ * s@) % group_order()) }
    }
}

} // verus!

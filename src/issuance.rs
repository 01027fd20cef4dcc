use crate::modular::{
    group_order, lemma_certificate, lemma_negated_term, lemma_product_mod,
    lemma_rebuilt_certificate_nonce, lemma_rebuilt_key_nonce, lemma_rebuilt_nonce, lemma_small,
    lemma_sum_mod,
};
use crate::params::{standard_base, Params};
use crate::point::{is_encoding, point_of, Point};
use crate::scalar::{value_of, Scalar};
use crate::transcript::{challenge_of, encodings, Transcript};
use rand_chacha::ChaCha20Rng;
use vstd::prelude::*;

verus! {

/// The domain label of the request proof: the ASCII bytes of `request`.
pub open spec fn request_label() -> Seq<u8> {
    seq![114u8, 101, 113, 117, 101, 115, 116]
}

/// The domain label of the response proof: the ASCII bytes of `respond`.
pub open spec fn response_label() -> Seq<u8> {
    seq![114u8, 101, 115, 112, 111, 110, 100]
}

/// The challenge of the request proof over the commitment `kr` and the nonce
/// commitment `kr_t`.
pub open spec fn request_challenge_of(kr: int, kr_t: int) -> Seq<u8> {
    challenge_of(request_label() + point_of(kr) + point_of(kr_t))
}

/// The challenge of the response proof over the randomiser's encoding `e` and the
/// elements `a`, `x_a`, `x_g`, `y_a`, `y_g`.
pub open spec fn response_challenge_of(
    e: Seq<u8>,
    a: int,
    x_a: int,
    x_g: int,
    y_a: int,
    y_g: int,
) -> Seq<u8> {
    challenge_of(
        response_label() + e + point_of(a) + point_of(x_a) + point_of(x_g) + point_of(y_a)
            + point_of(y_g),
    )
}

/// The commitment `h0 r + h1 k` to the opening `(r, k)`.
pub open spec fn commitment(r: int, k: int) -> int {
    (standard_base(0) * r + standard_base(1) * k) % group_order()
}

/// The element `G + kr + h2 n` that the certificate signs.
pub open spec fn signed_element(kr: int, n: int) -> int {
    (1 + kr + standard_base(2) * n) % group_order()
}

proof fn lemma_encodings_push(s: Seq<Point>, p: Point)
    ensures
        encodings(s.push(p)) == encodings(s) + p.encoding(),
{
    assert(s.push(p).drop_last() =~= s);
}

fn request_challenge(kr: &Point, kr_t: &Point) -> (c: Scalar)
    requires
        kr.wf(),
        kr_t.wf(),
    ensures
        c.wf(),
        c.encoding() == request_challenge_of(kr@, kr_t@),
{
    let label: [u8; 7] = [114, 101, 113, 117, 101, 115, 116];
    proof {
        assert(label@ =~= request_label());
    }
    let mut transcript = Transcript::new(&label);
    let elements: [Point; 2] = [*kr, *kr_t];
    proof {
        kr.lemma_wf();
        kr_t.lemma_wf();
        let e = Seq::<Point>::empty();
        lemma_encodings_push(e, *kr);
        lemma_encodings_push(e.push(*kr), *kr_t);
        assert(elements@ =~= e.push(*kr).push(*kr_t));
        assert(encodings(e) =~= Seq::<u8>::empty());
    }
    transcript.add_elements(&elements);
    proof {
        assert(transcript@ =~= request_label() + point_of(kr@) + point_of(kr_t@));
    }
    transcript.challenge()
}

fn response_challenge(e: &Scalar, a: &Point, x_a: &Point, x_g: &Point, y_a: &Point, y_g: &Point) -> (c:
    Scalar)
    requires
        e.wf(),
        a.wf(),
        x_a.wf(),
        x_g.wf(),
        y_a.wf(),
        y_g.wf(),
    ensures
        c.wf(),
        c.encoding() == response_challenge_of(e.encoding(), a@, x_a@, x_g@, y_a@, y_g@),
{
    let label: [u8; 7] = [114, 101, 115, 112, 111, 110, 100];
    proof {
        assert(label@ =~= response_label());
    }
    let mut transcript = Transcript::new(&label);
    transcript.add_scalar(e);
    let elements: [Point; 5] = [*a, *x_a, *x_g, *y_a, *y_g];
    proof {
        a.lemma_wf();
        x_a.lemma_wf();
        x_g.lemma_wf();
        y_a.lemma_wf();
        y_g.lemma_wf();
        let s0 = Seq::<Point>::empty();
        let s1 = s0.push(*a);
        let s2 = s1.push(*x_a);
        let s3 = s2.push(*x_g);
        let s4 = s3.push(*y_a);
        lemma_encodings_push(s0, *a);
        lemma_encodings_push(s1, *x_a);
        lemma_encodings_push(s2, *x_g);
        lemma_encodings_push(s3, *y_a);
        lemma_encodings_push(s4, *y_g);
        assert(elements@ =~= s4.push(*y_g));
        assert(encodings(s0) =~= Seq::<u8>::empty());
    }
    transcript.add_elements(&elements);
    proof {
        assert(transcript@ =~= response_label() + e.encoding() + point_of(a@) + point_of(x_a@)
            + point_of(x_g@) + point_of(y_a@) + point_of(y_g@));
    }
    transcript.challenge()
}

/// The 32 bytes of `b` from `offset` on.
pub open spec fn part(b: Seq<u8>, offset: int) -> Seq<u8> {
    b.subrange(offset, offset + 32)
}

/// `b` holds an element's encoding at each offset in `points` and a canonical scalar
/// at each offset in `scalars`, and nothing more: 32 bytes each.
pub open spec fn well_formed_parts(b: Seq<u8>, points: Seq<int>, scalars: Seq<int>) -> bool {
    &&& b.len() == 32 * (points.len() + scalars.len())
    &&& forall|i: int| 0 <= i < points.len() ==> is_encoding(#[trigger] part(b, points[i]))
    &&& forall|i: int|
        0 <= i < scalars.len() ==> value_of(#[trigger] part(b, scalars[i])) < group_order()
}

fn take32(b: &[u8], offset: usize) -> (r: [u8; 32])
    requires
        offset + 32 <= b@.len(),
    ensures
        r@ == part(b@, offset as int),
{
    let mut r = [0u8; 32];
    let len = b.len();
    let mut i: usize = 0;
    while i < 32
        invariant
            i <= 32,
            len == b@.len(),
            offset + 32 <= b@.len(),
            r@.len() == 32,
            forall|j: int| 0 <= j < i ==> r@[j] == b@[offset + j],
        decreases 32 - i,
    {
        r[i] = b[offset + i];
        i = i + 1;
    }
    proof {
        assert(r@ =~= part(b@, offset as int));
    }
    r
}

fn push32(v: &mut Vec<u8>, b: [u8; 32])
    ensures
        final(v)@ == old(v)@ + b@,
{
    let mut i: usize = 0;
    while i < 32
        invariant
            i <= 32,
            b@.len() == 32,
            v@ == old(v)@ + b@.subrange(0, i as int),
        decreases 32 - i,
    {
        v.push(b[i]);
        i = i + 1;
        proof {
            assert(v@ =~= old(v)@ + b@.subrange(0, i as int));
        }
    }
    proof {
        assert(b@.subrange(0, 32) =~= b@);
    }
}

/// The issuer's verification key `w = G x`.
#[derive(Clone, Copy)]
pub struct PublicKey {
    w: Point,
}

impl View for PublicKey {
    type V = int;

    /// The discrete logarithm of `w`, which is the issuer's secret.
    closed spec fn view(&self) -> int {
        self.w@
    }
}

impl PublicKey {
    pub closed spec fn wf(&self) -> bool {
        self.w.wf()
    }

    /// The encoding of `w`.
    pub closed spec fn encoding(&self) -> Seq<u8> {
        self.w.encoding()
    }

    /// The encoding of `w`.
    pub fn to_bytes(&self) -> (r: [u8; 32])
        ensures
            r@ == self.encoding(),
    {
        self.w.bytes()
    }

    /// The key whose `w` the bytes encode, if they encode a group element.
    pub fn from_bytes(b: [u8; 32]) -> (r: Option<PublicKey>)
        ensures
            r.is_some() == is_encoding(b@),
            r matches Some(p) ==> p.wf() && p.encoding() == b@,
    {
        match Point::from_bytes(b) {
            Some(w) => Some(PublicKey { w }),
            None => None,
        }
    }
}

/// The issuer's secret scalar `x` together with its public key.
pub struct PrivateKey {
    x: Scalar,
    public: PublicKey,
}

impl PrivateKey {
    /// The public key is `G x`.
    pub closed spec fn wf(&self) -> bool {
        self.x.wf() && self.public.wf() && self.public@ == self.x@
    }

    /// The secret scalar's value.
    pub closed spec fn secret(&self) -> int {
        self.x@
    }

    /// The encoding of the secret scalar.
    pub closed spec fn secret_encoding(&self) -> Seq<u8> {
        self.x.encoding()
    }

    pub closed spec fn spec_public(&self) -> PublicKey {
        self.public
    }

    /// The key pair whose secret is `x`.
    pub fn from_secret(x: Scalar) -> (r: PrivateKey)
        requires
            x.wf(),
        ensures
            r.wf(),
            r.secret() == x@,
    {
        let w = Point::mul_base(&x);
        PrivateKey { x, public: PublicKey { w } }
    }

    /// The encoding of the secret scalar, for the issuer's own storage.
    pub fn to_bytes(&self) -> (r: [u8; 32])
        ensures
            r@ == self.secret_encoding(),
    {
        self.x.to_bytes()
    }

    /// The key pair whose secret the bytes encode, if they are a canonical scalar.
    pub fn from_bytes(b: [u8; 32]) -> (r: Option<PrivateKey>)
        ensures
            r.is_some() == (value_of(b@) < group_order()),
            r matches Some(k) ==> k.wf() && k.secret() == value_of(b@),
    {
        match Scalar::from_bytes(b) {
            Some(x) => Some(PrivateKey::from_secret(x)),
            None => None,
        }
    }

    /// A key pair whose secret is drawn from the generator.
    pub fn random(rng: &mut ChaCha20Rng) -> (r: PrivateKey)
        ensures
            r.wf(),
    {
        let x = Scalar::random(rng);
        PrivateKey::from_secret(x)
    }

    /// The public key `G x`.
    pub fn public(&self) -> (r: &PublicKey)
        requires
            self.wf(),
        ensures
            *r == self.spec_public(),
            r.wf(),
            r@ == self.secret(),
    {
        &self.public
    }
}

/// The client's blinding secrets: the opening `(r, k)` of its commitment.
#[derive(Clone, Copy)]
pub struct PreIssuance {
    r: Scalar,
    k: Scalar,
}

impl View for PreIssuance {
    type V = (int, int);

    closed spec fn view(&self) -> (int, int) {
        (self.r@, self.k@)
    }
}

/// The blinded commitment `kr` with a proof of knowledge of its opening: the
/// challenge `c` and the responses `r_z`, `k_z`.
#[derive(Clone, Copy)]
pub struct IssuanceRequest {
    kr: Point,
    c: Scalar,
    r_z: Scalar,
    k_z: Scalar,
}

/// The issuer's certificate `a` for the randomiser `e`, with a proof (`c`, `z`) that
/// it was made with the issuer's secret, and the credited value `n`.
#[derive(Clone, Copy)]
pub struct IssuanceResponse {
    a: Point,
    e: Scalar,
    c: Scalar,
    z: Scalar,
    n: Scalar,
}

/// A finished token: the certificate `(a, e)` on the opening `(r, k)` and the
/// credited value `n`.
#[derive(Clone, Copy)]
pub struct CreditToken {
    a: Point,
    e: Scalar,
    k: Scalar,
    r: Scalar,
    n: Scalar,
}

impl PreIssuance {
    pub closed spec fn wf(&self) -> bool {
        self.r.wf() && self.k.wf()
    }

    /// `request` is the request made from this opening with the nonces `r_t`, `k_t`:
    /// `kr = h0 r + h1 k`, `c` is the challenge over `kr` and `h0 r_t + h1 k_t`,
    /// `r_z = r_t + r c` and `k_z = k_t + k c`.
    pub closed spec fn is_request(&self, request: IssuanceRequest, r_t: int, k_t: int) -> bool {
        &&& request.wf()
        &&& request.kr@ == commitment(self.r@, self.k@)
        &&& request.c.encoding() == request_challenge_of(request.kr@, commitment(r_t, k_t))
        &&& request.r_z@ == (r_t + self.r@ * request.c@) % group_order()
        &&& request.k_z@ == (k_t + self.k@ * request.c@) % group_order()
    }

    /// The token that this opening and `response` make.
    pub closed spec fn token_from(&self, response: IssuanceResponse) -> CreditToken {
        CreditToken { a: response.a, e: response.e, r: self.r, k: self.k, n: response.n }
    }

    /// The scalars `r` and `k` of the opening.
    pub closed spec fn opening(&self) -> (Scalar, Scalar) {
        (self.r, self.k)
    }

    /// The opening `(r, k)`.
    pub fn new(r: Scalar, k: Scalar) -> (p: PreIssuance)
        requires
            r.wf(),
            k.wf(),
        ensures
            p.wf(),
            p@ == (r@, k@),
    {
        PreIssuance { r, k }
    }

    /// The wire form: `r`, `k`, 32 bytes each.
    pub closed spec fn encoding(&self) -> Seq<u8> {
        self.r.encoding() + self.k.encoding()
    }

    pub fn to_bytes(&self) -> (r: Vec<u8>)
        ensures
            r@ == self.encoding(),
    {
        let mut v: Vec<u8> = Vec::new();
        push32(&mut v, self.r.to_bytes());
        push32(&mut v, self.k.to_bytes());
        v
    }

    /// The opening that `b` holds, if it holds one in wire form.
    pub fn from_bytes(b: &[u8]) -> (r: Option<PreIssuance>)
        ensures
            r.is_some() == well_formed_parts(b@, seq![], seq![0int, 32]),
            r matches Some(p) ==> p.wf() && p.encoding() == b@,
    {
        if b.len() != 64 {
            return None;
        }
        let r = Scalar::from_bytes(take32(b, 0));
        let k = Scalar::from_bytes(take32(b, 32));
        proof {
            let ss = seq![0int, 32];
            assert(ss[0] == 0 && ss[1] == 32);
        }
        match (r, k) {
            (Some(r), Some(k)) => {
                let p = PreIssuance { r, k };
                proof {
                    assert(p.encoding() =~= b@);
                }
                Some(p)
            },
            _ => None,
        }
    }

    /// An opening drawn from the generator.
    pub fn random(rng: &mut ChaCha20Rng) -> (p: PreIssuance)
        ensures
            p.wf(),
    {
        let r = Scalar::random(rng);
        let k = Scalar::random(rng);
        PreIssuance { r, k }
    }

    /// The request for this opening with the nonces `r_t`, `k_t`.
    pub fn request_with(&self, r_t: &Scalar, k_t: &Scalar) -> (request: IssuanceRequest)
        requires
            self.wf(),
            r_t.wf(),
            k_t.wf(),
        ensures
            request.wf(),
            self.is_request(request, r_t@, k_t@),
    {
        let params = Params::standard();
        proof {
            params.lemma_standard();
            self.r.lemma_range();
            self.k.lemma_range();
            r_t.lemma_range();
            k_t.lemma_range();
        }
        let kr = Point::sum_of_products(&params.h0, &self.r, &params.h1, &self.k);
        let kr_t = Point::sum_of_products(&params.h0, r_t, &params.h1, k_t);
        let c = request_challenge(&kr, &kr_t);
        let r_z = r_t.add(&self.r.mul(&c));
        let k_z = k_t.add(&self.k.mul(&c));
        proof {
            c.lemma_range();
            lemma_sum_mod(standard_base(0) * self.r@, standard_base(1) * self.k@);
            lemma_sum_mod(standard_base(0) * r_t@, standard_base(1) * k_t@);
            lemma_small(r_t@);
            lemma_small(k_t@);
            lemma_sum_mod(r_t@, self.r@ * c@);
            lemma_sum_mod(k_t@, self.k@ * c@);
        }
        IssuanceRequest { kr, c, r_z, k_z }
    }

    /// A request for this opening, with nonces drawn from the generator.
    pub fn request(&self, rng: &mut ChaCha20Rng) -> (request: IssuanceRequest)
        requires
            self.wf(),
        ensures
            request.wf(),
            exists|r_t: int, k_t: int| self.is_request(request, r_t, k_t),
    {
        let r_t = Scalar::random(rng);
        let k_t = Scalar::random(rng);
        self.request_with(&r_t, &k_t)
    }

    /// The token, when the issuer's proof in `response` verifies against `public` and
    /// the commitment of `request`; `None` otherwise.
    pub fn to_credit_token(
        &self,
        public: &PublicKey,
        request: &IssuanceRequest,
        response: &IssuanceResponse,
    ) -> (token: Option<CreditToken>)
        requires
            self.wf(),
            public.wf(),
            request.wf(),
            response.wf(),
        ensures
            token.is_some() == response.verifies(public@, request.commitment()),
            token matches Some(t) ==> t == self.token_from(*response),
    {
        let params = Params::standard();
        proof {
            params.lemma_standard();
            request.kr.lemma_wf();
            public.w.lemma_wf();
            response.a.lemma_wf();
            response.e.lemma_range();
            response.c.lemma_range();
            response.z.lemma_range();
            response.n.lemma_range();
        }
        let g = Point::generator();
        let one = Scalar::from_u64(1);
        let x_a = Point::sum_of_three_products_vartime(
            &g,
            &one,
            &request.kr,
            &one,
            &params.h2,
            &response.n,
        );
        let x_g = Point::mul_base(&response.e).add(&public.w);
        let minus_c = response.c.neg();
        let y_a = Point::sum_of_products_vartime(&response.a, &response.z, &x_a, &minus_c);
        let y_g = Point::sum_of_products_vartime(&g, &response.z, &x_g, &minus_c);
        proof {
            let (a, e, c, z) = (response.a@, response.e@, response.c@, response.z@);
            assert(g@ * one@ + request.kr@ * one@ == 1 + request.kr@);
            lemma_small(e);
            lemma_small(public@);
            lemma_sum_mod(e, public@);
            assert(g@ * z == z);
            lemma_negated_term(a * z, x_a@, c);
            lemma_negated_term(z, x_g@, c);
        }
        let c = response_challenge(&response.e, &response.a, &x_a, &x_g, &y_a, &y_g);
        if !c.same_as(&response.c) {
            return None;
        }
        Some(CreditToken { a: response.a, e: response.e, r: self.r, k: self.k, n: response.n })
    }
}

impl View for CreditToken {
    type V = (int, Scalar, Scalar, Scalar, Scalar);

    /// The certificate's logarithm, then the scalars `e`, `r`, `k` and `n`.
    closed spec fn view(&self) -> (int, Scalar, Scalar, Scalar, Scalar) {
        (self.a@, self.e, self.r, self.k, self.n)
    }
}

impl CreditToken {
    pub closed spec fn wf(&self) -> bool {
        self.a.wf() && self.e.wf() && self.k.wf() && self.r.wf() && self.n.wf()
    }

    /// The wire form: `a`, `e`, `k`, `r`, `n`, 32 bytes each.
    pub closed spec fn encoding(&self) -> Seq<u8> {
        self.a.encoding() + self.e.encoding() + self.k.encoding() + self.r.encoding()
            + self.n.encoding()
    }

    pub fn to_bytes(&self) -> (r: Vec<u8>)
        ensures
            r@ == self.encoding(),
    {
        let mut v: Vec<u8> = Vec::new();
        push32(&mut v, self.a.bytes());
        push32(&mut v, self.e.to_bytes());
        push32(&mut v, self.k.to_bytes());
        push32(&mut v, self.r.to_bytes());
        push32(&mut v, self.n.to_bytes());
        proof {
            assert(v@ =~= self.encoding());
        }
        v
    }

    /// The token that `b` holds, if it holds one in wire form.
    pub fn from_bytes(b: &[u8]) -> (r: Option<CreditToken>)
        ensures
            r.is_some() == well_formed_parts(b@, seq![0int], seq![32int, 64, 96, 128]),
            r matches Some(t) ==> t.wf() && t.encoding() == b@,
    {
        if b.len() != 160 {
            return None;
        }
        let a = Point::from_bytes(take32(b, 0));
        let e = Scalar::from_bytes(take32(b, 32));
        let k = Scalar::from_bytes(take32(b, 64));
        let r = Scalar::from_bytes(take32(b, 96));
        let n = Scalar::from_bytes(take32(b, 128));
        proof {
            let ps = seq![0int];
            let ss = seq![32int, 64, 96, 128];
            assert(ps[0] == 0 && ss[0] == 32 && ss[1] == 64 && ss[2] == 96 && ss[3] == 128);
        }
        match (a, e, k, r, n) {
            (Some(a), Some(e), Some(k), Some(r), Some(n)) => {
                let t = CreditToken { a, e, k, r, n };
                proof {
                    assert(t.encoding() =~= b@);
                }
                Some(t)
            },
            _ => None,
        }
    }
    /// The certificate `a`.
    pub fn a(&self) -> (r: Point)
        ensures
            r@ == self@.0,
    {
        self.a
    }

    /// The certificate's randomiser `e`.
    pub fn e(&self) -> (r: Scalar)
        ensures
            r == self@.1,
    {
        self.e
    }

    /// The blinding scalar `r` of the opening.
    pub fn r(&self) -> (r: Scalar)
        ensures
            r == self@.2,
    {
        self.r
    }

    /// The blinding scalar `k` of the opening.
    pub fn k(&self) -> (r: Scalar)
        ensures
            r == self@.3,
    {
        self.k
    }

    /// The credited value `n`.
    pub fn n(&self) -> (r: Scalar)
        ensures
            r == self@.4,
    {
        self.n
    }
}

impl IssuanceRequest {
    pub closed spec fn wf(&self) -> bool {
        self.kr.wf() && self.c.wf() && self.r_z.wf() && self.k_z.wf()
    }

    /// The wire form: `kr`, `c`, `r_z`, `k_z`, 32 bytes each.
    pub closed spec fn encoding(&self) -> Seq<u8> {
        self.kr.encoding() + self.c.encoding() + self.r_z.encoding() + self.k_z.encoding()
    }

    pub fn to_bytes(&self) -> (r: Vec<u8>)
        ensures
            r@ == self.encoding(),
    {
        let mut v: Vec<u8> = Vec::new();
        push32(&mut v, self.kr.bytes());
        push32(&mut v, self.c.to_bytes());
        push32(&mut v, self.r_z.to_bytes());
        push32(&mut v, self.k_z.to_bytes());
        proof {
            assert(v@ =~= self.encoding());
        }
        v
    }

    /// The request that `b` holds, if it holds one in wire form.
    pub fn from_bytes(b: &[u8]) -> (r: Option<IssuanceRequest>)
        ensures
            r.is_some() == well_formed_parts(b@, seq![0int], seq![32int, 64, 96]),
            r matches Some(request) ==> request.wf() && request.encoding() == b@,
    {
        if b.len() != 128 {
            return None;
        }
        let kr = Point::from_bytes(take32(b, 0));
        let c = Scalar::from_bytes(take32(b, 32));
        let r_z = Scalar::from_bytes(take32(b, 64));
        let k_z = Scalar::from_bytes(take32(b, 96));
        proof {
            let ps = seq![0int];
            let ss = seq![32int, 64, 96];
            assert(ps[0] == 0 && ss[0] == 32 && ss[1] == 64 && ss[2] == 96);
        }
        match (kr, c, r_z, k_z) {
            (Some(kr), Some(c), Some(r_z), Some(k_z)) => {
                let request = IssuanceRequest { kr, c, r_z, k_z };
                proof {
                    assert(request.encoding() =~= b@);
                }
                Some(request)
            },
            _ => None,
        }
    }

    /// The commitment `kr`.
    pub closed spec fn commitment(&self) -> int {
        self.kr@
    }

    /// The nonce commitment that the issuer rebuilds: `h0 r_z + h1 k_z - kr c`.
    pub closed spec fn rebuilt_nonce(&self) -> int {
        (standard_base(0) * self.r_z@ + standard_base(1) * self.k_z@ - self.kr@ * self.c@)
            % group_order()
    }

    /// The proof of knowledge verifies: `c` is the challenge over `kr` and the
    /// rebuilt nonce commitment.
    pub closed spec fn verifies(&self) -> bool {
        self.c.encoding() == request_challenge_of(self.kr@, self.rebuilt_nonce())
    }

    /// Whether the proof of knowledge verifies.
    pub fn check(&self) -> (ok: bool)
        requires
            self.wf(),
        ensures
            ok == self.verifies(),
    {
        let request = self;
        let params = Params::standard();
        proof {
            params.lemma_standard();
            request.kr.lemma_wf();
            request.c.lemma_range();
        }
        let minus_c = request.c.neg();
        let kr_t = Point::sum_of_three_products_vartime(
            &params.h0,
            &request.r_z,
            &params.h1,
            &request.k_z,
            &request.kr,
            &minus_c,
        );
        proof {
            lemma_negated_term(
                standard_base(0) * request.r_z@ + standard_base(1) * request.k_z@,
                request.kr@,
                request.c@,
            );
        }
        let c = request_challenge(&request.kr, &kr_t);
        c.same_as(&request.c)
    }
}

impl IssuanceResponse {
    pub closed spec fn wf(&self) -> bool {
        self.a.wf() && self.e.wf() && self.c.wf() && self.z.wf() && self.n.wf()
    }

    /// The wire form: `a`, `e`, `c`, `z`, `n`, 32 bytes each.
    pub closed spec fn encoding(&self) -> Seq<u8> {
        self.a.encoding() + self.e.encoding() + self.c.encoding() + self.z.encoding()
            + self.n.encoding()
    }

    pub fn to_bytes(&self) -> (r: Vec<u8>)
        ensures
            r@ == self.encoding(),
    {
        let mut v: Vec<u8> = Vec::new();
        push32(&mut v, self.a.bytes());
        push32(&mut v, self.e.to_bytes());
        push32(&mut v, self.c.to_bytes());
        push32(&mut v, self.z.to_bytes());
        push32(&mut v, self.n.to_bytes());
        proof {
            assert(v@ =~= self.encoding());
        }
        v
    }

    /// The response that `b` holds, if it holds one in wire form.
    pub fn from_bytes(b: &[u8]) -> (r: Option<IssuanceResponse>)
        ensures
            r.is_some() == well_formed_parts(b@, seq![0int], seq![32int, 64, 96, 128]),
            r matches Some(response) ==> response.wf() && response.encoding() == b@,
    {
        if b.len() != 160 {
            return None;
        }
        let a = Point::from_bytes(take32(b, 0));
        let e = Scalar::from_bytes(take32(b, 32));
        let c = Scalar::from_bytes(take32(b, 64));
        let z = Scalar::from_bytes(take32(b, 96));
        let n = Scalar::from_bytes(take32(b, 128));
        proof {
            let ps = seq![0int];
            let ss = seq![32int, 64, 96, 128];
            assert(ps[0] == 0 && ss[0] == 32 && ss[1] == 64 && ss[2] == 96 && ss[3] == 128);
        }
        match (a, e, c, z, n) {
            (Some(a), Some(e), Some(c), Some(z), Some(n)) => {
                let response = IssuanceResponse { a, e, c, z, n };
                proof {
                    assert(response.encoding() =~= b@);
                }
                Some(response)
            },
            _ => None,
        }
    }

    /// The randomiser `e`.
    pub closed spec fn randomiser(&self) -> Scalar {
        self.e
    }

    /// The credited value `n`.
    pub closed spec fn value(&self) -> Scalar {
        self.n
    }

    /// The certificate `a`.
    pub closed spec fn certificate(&self) -> Point {
        self.a
    }

    /// The proof verifies against the key `w` and the commitment `kr`: `c` is the
    /// challenge over `e`, `a`, `x_a = G + kr + h2 n`, `x_g = G e + w`,
    /// `y_a = a z - x_a c` and `y_g = G z - x_g c`.
    pub closed spec fn verifies(&self, w: int, kr: int) -> bool {
        let l = group_order();
        let x_a = signed_element(kr, self.n@);
        let x_g = (self.e@ + w) % l;
        let y_a = (self.a@ * self.z@ - x_a * self.c@) % l;
        let y_g = (self.z@ - x_g * self.c@) % l;
        self.c.encoding() == response_challenge_of(self.e.encoding(), self.a@, x_a, x_g, y_a, y_g)
    }
}

impl PrivateKey {
    /// `response` is what this key issues for `request` and the value `n`, with the
    /// randomiser `e` and the nonce `alpha`: `a (e + x) = x_a` for
    /// `x_a = G + kr + h2 n`, `c` is the challenge over `e`, `a`, `x_a`,
    /// `x_g = G e + w`, `a alpha`, `G alpha`, and `z = c (x + e) + alpha`.
    pub closed spec fn is_response(
        &self,
        request: IssuanceRequest,
        n: Scalar,
        e: Scalar,
        alpha: Scalar,
        response: IssuanceResponse,
    ) -> bool {
        let l = group_order();
        let x_a = signed_element(request.kr@, n@);
        let x_g = (e@ + self.x@) % l;
        &&& response.wf()
        &&& response.e == e
        &&& response.n == n
        &&& (response.a@ * (e@ + self.x@)) % l == x_a
        &&& response.c.encoding() == response_challenge_of(
            e.encoding(),
            response.a@,
            x_a,
            x_g,
            (response.a@ * alpha@) % l,
            alpha@,
        )
        &&& response.z@ == (response.c@ * (self.x@ + e@) + alpha@) % l
    }

    /// The response for `request` and the value `n`, with the randomiser `e` and the
    /// nonce `alpha`. `None` when the request's proof does not verify, or when `e`
    /// cancels the secret (`e + x = 0`), which leaves no certificate to make.
    pub fn issue_with(&self, request: &IssuanceRequest, n: &Scalar, e: &Scalar, alpha: &Scalar) -> (r:
        Option<IssuanceResponse>)
        requires
            self.wf(),
            request.wf(),
            n.wf(),
            e.wf(),
            alpha.wf(),
        ensures
            r.is_some() == (request.verifies() && (e@ + self.secret()) % group_order() != 0),
            r matches Some(response) ==> response.wf() && self.is_response(
                *request,
                *n,
                *e,
                *alpha,
                response,
            ),
            r matches Some(response) ==> response.verifies(
                self.spec_public()@,
                request.commitment(),
            ),
    {
        if !request.check() {
            return None;
        }
        self.certify(request, n, e, alpha)
    }

    /// The response for a request whose proof verifies.
    fn certify(&self, request: &IssuanceRequest, n: &Scalar, e: &Scalar, alpha: &Scalar) -> (r: Option<
        IssuanceResponse,
    >)
        requires
            self.wf(),
            request.wf(),
            request.verifies(),
            n.wf(),
            e.wf(),
            alpha.wf(),
        ensures
            r.is_some() == ((e@ + self.secret()) % group_order() != 0),
            r matches Some(response) ==> response.wf() && self.is_response(
                *request,
                *n,
                *e,
                *alpha,
                response,
            ),
            r matches Some(response) ==> response.verifies(
                self.spec_public()@,
                request.commitment(),
            ),
    {
        let params = Params::standard();
        proof {
            params.lemma_standard();
            request.kr.lemma_wf();
        }
        let e_plus_x = e.add(&self.x);
        if e_plus_x.is_zero() {
            proof {
                assert((e@ + self.x@) % group_order() == 0);
            }
            return None;
        }
        proof {
            e_plus_x.lemma_range();
            e.lemma_range();
            n.lemma_range();
            alpha.lemma_range();
            self.x.lemma_range();
        }
        let inverse = e_plus_x.invert();
        let g = Point::generator();
        let one = Scalar::from_u64(1);
        let x_a = Point::sum_of_three_products_vartime(&g, &one, &request.kr, &one, &params.h2, n);
        let a = x_a.mul(&inverse);
        let x_g = Point::mul_base(e).add(&self.public.w);
        let y_a = a.mul(alpha);
        let y_g = Point::mul_base(alpha);
        proof {
            assert(g@ * one@ + request.kr@ * one@ == 1 + request.kr@);
            lemma_small(x_a@);
            lemma_certificate(x_a@, inverse@, e@ + self.x@);
            lemma_small(e@);
            lemma_small(self.x@);
            lemma_sum_mod(e@, self.x@);
            lemma_small(alpha@);
        }
        let c = response_challenge(e, &a, &x_a, &x_g, &y_a, &y_g);
        let x_plus_e = self.x.add(e);
        let z = c.mul(&x_plus_e).add(alpha);
        proof {
            c.lemma_range();
            lemma_small(c@);
            lemma_product_mod(c@, self.x@ + e@);
            lemma_sum_mod(c@ * (self.x@ + e@), alpha@);
        }
        let response = IssuanceResponse { a, e: *e, c, z, n: *n };
        proof {
            lemma_honest_response_verifies(*self, *request, *n, *e, *alpha, response);
        }
        Some(response)
    }

    /// The response for `request` and the value `n`, with the randomiser and the
    /// nonce drawn from the generator once the request's proof has verified. `None`
    /// whenever that proof does not verify; a response, when there is one, passes the
    /// client's check under this key.
    pub fn issue(&self, request: &IssuanceRequest, n: Scalar, rng: &mut ChaCha20Rng) -> (r: Option<
        IssuanceResponse,
    >)
        requires
            self.wf(),
            request.wf(),
            n.wf(),
        ensures
            !request.verifies() ==> r.is_none(),
            r matches Some(response) ==> response.wf(),
            r matches Some(response) ==> response.verifies(
                self.spec_public()@,
                request.commitment(),
            ),
            r matches Some(response) ==> response.value() == n,
            r matches Some(response) ==> exists|e: Scalar, alpha: Scalar|
                e.wf() && alpha.wf() && #[trigger] self.is_response(*request, n, e, alpha, response),
    {
        if !request.check() {
            return None;
        }
        let e = Scalar::random(rng);
        let alpha = Scalar::random(rng);
        let r = self.certify(request, &n, &e, &alpha);
        proof {
            if let Some(response) = r {
                assert(self.is_response(*request, n, e, alpha, response));
            }
        }
        r
    }
}

/// The issuer accepts every request that a client makes from a well-formed opening,
/// whatever nonces it used.
pub proof fn lemma_honest_request_verifies(
    pre: PreIssuance,
    r_t: int,
    k_t: int,
    request: IssuanceRequest,
)
    requires
        pre.wf(),
        pre.is_request(request, r_t, k_t),
    ensures
        request.verifies(),
{
    lemma_rebuilt_nonce(
        standard_base(0),
        standard_base(1),
        pre.r@,
        pre.k@,
        r_t,
        k_t,
        request.c@,
    );
}

/// The client accepts every response that the issuer makes for a request with a
/// well-formed randomiser and nonce, under the issuer's own public key.
pub proof fn lemma_honest_response_verifies(
    key: PrivateKey,
    request: IssuanceRequest,
    n: Scalar,
    e: Scalar,
    alpha: Scalar,
    response: IssuanceResponse,
)
    requires
        key.wf(),
        alpha.wf(),
        key.is_response(request, n, e, alpha, response),
    ensures
        response.verifies(key.spec_public()@, request.commitment()),
{
    let s = e@ + key.x@;
    assert(key.x@ + e@ == s);
    alpha.lemma_range();
    lemma_rebuilt_certificate_nonce(
        response.a@,
        s,
        signed_element(request.kr@, n@),
        response.c@,
        alpha@,
    );
    lemma_rebuilt_key_nonce(s, response.c@, alpha@);
}

/// An honest run is accepted at both checks. The issuer accepts a request made from
/// an opening with any nonces; the client accepts the response that the issuer makes
/// for it, and the token then carries the issuer's randomiser `e`, the value `n` and
/// the client's own opening.
pub proof fn lemma_issuance_round_trip(
    key: PrivateKey,
    pre: PreIssuance,
    r_t: int,
    k_t: int,
    request: IssuanceRequest,
    n: Scalar,
    e: Scalar,
    alpha: Scalar,
    response: IssuanceResponse,
)
    requires
        key.wf(),
        pre.wf(),
        alpha.wf(),
        pre.is_request(request, r_t, k_t),
        key.is_response(request, n, e, alpha, response),
    ensures
        request.verifies(),
        response.verifies(key.spec_public()@, request.commitment()),
        pre.token_from(response)@.1 == e,
        pre.token_from(response)@.4 == n,
        (pre.token_from(response)@.2, pre.token_from(response)@.3) == pre.opening(),
{
    lemma_honest_request_verifies(pre, r_t, k_t, request);
    lemma_honest_response_verifies(key, request, n, e, alpha, response);
}

/// What a request made from an opening holds: a well-formed request whose
/// commitment is `h0 r + h1 k` for the opening `(r, k)`.
pub proof fn lemma_request_commitment(pre: PreIssuance, r_t: int, k_t: int, request: IssuanceRequest)
    requires
        pre.is_request(request, r_t, k_t),
    ensures
        request.wf(),
        request.commitment() == commitment(pre@.0, pre@.1),
{
}

/// What a response made by a key holds: a well-formed response that carries the
/// randomiser `e` and the value `n`, whose certificate `a` satisfies
/// `a (e + x) = G + kr + h2 n`.
pub proof fn lemma_response_certificate(
    key: PrivateKey,
    request: IssuanceRequest,
    n: Scalar,
    e: Scalar,
    alpha: Scalar,
    response: IssuanceResponse,
)
    requires
        key.is_response(request, n, e, alpha, response),
    ensures
        response.wf(),
        response.randomiser() == e,
        response.value() == n,
        (response.certificate()@ * (e@ + key.secret())) % group_order() == signed_element(
            request.commitment(),
            n@,
        ),
{
}

/// The token that an opening makes from a response carries the response's
/// certificate, randomiser and value, and the opening itself.
pub proof fn lemma_token_from(pre: PreIssuance, response: IssuanceResponse)
    ensures
        pre.token_from(response)@ == (
            response.certificate()@,
            response.randomiser(),
            pre.opening().0,
            pre.opening().1,
            response.value(),
        ),
        pre@ == (pre.opening().0@, pre.opening().1@),
{
}

/// The proof that a token carries at least a charge: its nonce and the charge.
#[derive(Clone, Copy)]
pub struct SpendProof {
    nonce: Scalar,
    charge: Scalar,
}

impl View for SpendProof {
    type V = (Scalar, Scalar);

    /// The nonce and the charge.
    closed spec fn view(&self) -> (Scalar, Scalar) {
        (self.nonce, self.charge)
    }
}

impl SpendProof {
    pub fn nonce(&self) -> (r: Scalar)
        ensures
            r == self@.0,
    {
        self.nonce
    }

    pub fn charge(&self) -> (r: Scalar)
        ensures
            r == self@.1,
    {
        self.charge
    }
}

/// The client's secrets for turning a refund into a fresh token.
#[derive(Clone, Copy)]
pub struct PreRefund {
    r: Scalar,
    k: Scalar,
    m: Scalar,
}

/// The issuer's refund of what a spend left over.
#[derive(Clone, Copy)]
pub struct Refund {}

} // verus!

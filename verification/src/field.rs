//! Field elements, curve points and the commitment/hash primitives.
//!
//! Values of the proving-friendly curve's two fields and its group are held
//! as four 64-bit limbs of their canonical little-endian encoding, so that
//! contracts can speak of them as plain integers.  All arithmetic on them is
//! done by the outside curve library behind small trusted wrappers; what each
//! call returns is pinned by a spec-level name or an exact formula.

use vstd::arithmetic::div_mod::{lemma_fundamental_div_mod_converse, lemma_small_mod};
use vstd::prelude::*;

use pasta_curves::arithmetic::{Coordinates, CurveAffine, CurveExt};
use pasta_curves::group::ff::{Field, FromUniformBytes, PrimeField};
use pasta_curves::group::{Curve, GroupEncoding};
use pasta_curves::pallas::Point as PallasPoint;

verus! {

/// The base-field modulus of the curve.
pub open spec fn p_mod() -> nat {
    0x40000000000000000000000000000000224698fc094cf91b992d30ed00000001nat
}

/// The scalar-field modulus of the curve.
pub open spec fn r_mod() -> nat {
    0x40000000000000000000000000000000224698fc0994a8dd8c46eb2100000001nat
}

/// A base-field element, as the four 64-bit limbs of its canonical encoding.
#[derive(Clone, Copy, PartialEq, Eq, Structural, Debug)]
pub struct Base {
    l0: u64,
    l1: u64,
    l2: u64,
    l3: u64,
}

/// A scalar-field element (used for blinding factors), as four limbs.
#[derive(Clone, Copy, PartialEq, Eq, Structural, Debug)]
pub struct Scalar {
    l0: u64,
    l1: u64,
    l2: u64,
    l3: u64,
}

/// A group element, as the four limbs of its canonical compressed encoding.
#[derive(Clone, Copy, PartialEq, Eq, Structural, Debug)]
pub struct Point {
    l0: u64,
    l1: u64,
    l2: u64,
    l3: u64,
}

/// A 32-byte digest (of the block-hash function), as four limbs.
#[derive(Clone, Copy, PartialEq, Eq, Structural, Debug)]
pub struct Hash32 {
    l0: u64,
    l1: u64,
    l2: u64,
    l3: u64,
}

pub open spec fn limbs_val(l0: u64, l1: u64, l2: u64, l3: u64) -> nat {
    (l0 + l1 * 0x10000000000000000 + l2 * 0x100000000000000000000000000000000int
        + l3 * 0x1000000000000000000000000000000000000000000000000int) as nat
}

impl Base {
    /// The integer this element stands for.
    pub closed spec fn val(self) -> nat {
        limbs_val(self.l0, self.l1, self.l2, self.l3)
    }

    /// A well-formed element is a canonical representative.
    pub open spec fn wf(self) -> bool {
        self.val() < p_mod()
    }
}

impl Scalar {
    /// The integer this element stands for.
    pub closed spec fn val(self) -> nat {
        limbs_val(self.l0, self.l1, self.l2, self.l3)
    }

    /// A well-formed element is a canonical representative.
    pub open spec fn wf(self) -> bool {
        self.val() < r_mod()
    }
}

impl Point {
    /// The integer encoding this group element.
    pub closed spec fn val(self) -> nat {
        limbs_val(self.l0, self.l1, self.l2, self.l3)
    }
}

impl Hash32 {
    /// The integer encoding this digest.
    pub closed spec fn val(self) -> nat {
        limbs_val(self.l0, self.l1, self.l2, self.l3)
    }
}

/// Four limbs encode an integer uniquely.
proof fn lemma_limbs_val_injective(a0: u64, a1: u64, a2: u64, a3: u64, b0: u64, b1: u64, b2: u64, b3: u64)
    requires
        limbs_val(a0, a1, a2, a3) == limbs_val(b0, b1, b2, b3),
    ensures
        a0 == b0 && a1 == b1 && a2 == b2 && a3 == b3,
{
    let d = 0x10000000000000000 as int;
    let v = limbs_val(a0, a1, a2, a3) as int;
    let qa = a1 + a2 * 0x10000000000000000 + a3 * 0x100000000000000000000000000000000int;
    let qb = b1 + b2 * 0x10000000000000000 + b3 * 0x100000000000000000000000000000000int;
    assert(v == qa * d + a0) by (nonlinear_arith)
        requires
            v == a0 + a1 * 0x10000000000000000 + a2 * 0x100000000000000000000000000000000int
                + a3 * 0x1000000000000000000000000000000000000000000000000int,
            qa == a1 + a2 * 0x10000000000000000 + a3 * 0x100000000000000000000000000000000int,
            d == 0x10000000000000000,
    ;
    assert(v == qb * d + b0) by (nonlinear_arith)
        requires
            v == b0 + b1 * 0x10000000000000000 + b2 * 0x100000000000000000000000000000000int
                + b3 * 0x1000000000000000000000000000000000000000000000000int,
            qb == b1 + b2 * 0x10000000000000000 + b3 * 0x100000000000000000000000000000000int,
            d == 0x10000000000000000,
    ;
    lemma_fundamental_div_mod_converse(v, d, qa, a0 as int);
    lemma_fundamental_div_mod_converse(v, d, qb, b0 as int);
    assert(a0 == b0 && qa == qb);
    let q = qa;
    let qa2 = a2 + a3 * 0x10000000000000000 as int;
    let qb2 = b2 + b3 * 0x10000000000000000 as int;
    assert(q == qa2 * d + a1) by (nonlinear_arith)
        requires
            q == a1 + a2 * 0x10000000000000000 + a3 * 0x100000000000000000000000000000000int,
            qa2 == a2 + a3 * 0x10000000000000000,
            d == 0x10000000000000000,
    ;
    assert(q == qb2 * d + b1) by (nonlinear_arith)
        requires
            q == b1 + b2 * 0x10000000000000000 + b3 * 0x100000000000000000000000000000000int,
            qb2 == b2 + b3 * 0x10000000000000000,
            d == 0x10000000000000000,
    ;
    lemma_fundamental_div_mod_converse(q, d, qa2, a1 as int);
    lemma_fundamental_div_mod_converse(q, d, qb2, b1 as int);
    assert(a1 == b1 && qa2 == qb2);
    let q2 = qa2;
    lemma_fundamental_div_mod_converse(q2, d, a3 as int, a2 as int);
    lemma_fundamental_div_mod_converse(q2, d, b3 as int, b2 as int);
}

/// The value of a spec-constructed base element is its limb value.
pub proof fn lemma_base_from_limbs_val(l0: u64, l1: u64, l2: u64, l3: u64)
    ensures
        Base::from_limbs(l0, l1, l2, l3).val() == limbs_val(l0, l1, l2, l3),
{
}

/// Two base elements are equal exactly when they stand for the same integer.
pub proof fn lemma_base_eq(a: Base, b: Base)
    ensures
        (a == b) <==> (a.val() == b.val()),
{
    if a.val() == b.val() {
        lemma_limbs_val_injective(a.l0, a.l1, a.l2, a.l3, b.l0, b.l1, b.l2, b.l3);
    }
}

/// Two scalars are equal exactly when they stand for the same integer.
pub proof fn lemma_scalar_eq(a: Scalar, b: Scalar)
    ensures
        (a == b) <==> (a.val() == b.val()),
{
    if a.val() == b.val() {
        lemma_limbs_val_injective(a.l0, a.l1, a.l2, a.l3, b.l0, b.l1, b.l2, b.l3);
    }
}

/// Two points are equal exactly when their encodings agree.
pub proof fn lemma_point_eq(a: Point, b: Point)
    ensures
        (a == b) <==> (a.val() == b.val()),
{
    if a.val() == b.val() {
        lemma_limbs_val_injective(a.l0, a.l1, a.l2, a.l3, b.l0, b.l1, b.l2, b.l3);
    }
}

/// Two digests are equal exactly when their encodings agree.
pub proof fn lemma_hash32_eq(a: Hash32, b: Hash32)
    ensures
        (a == b) <==> (a.val() == b.val()),
{
    if a.val() == b.val() {
        lemma_limbs_val_injective(a.l0, a.l1, a.l2, a.l3, b.l0, b.l1, b.l2, b.l3);
    }
}

// ---------------------------------------------------------------------------
// Names for what the outside curve library returns.
// ---------------------------------------------------------------------------

/// The distinguished group element the library derives for a generator tag.
pub uninterp spec fn fixed_point_of(tag: nat) -> nat;

/// The encoding of the scalar multiple of a group element.
pub uninterp spec fn point_mul_of(p: nat, s: nat) -> nat;

/// The encoding of the group sum of two group elements.
pub uninterp spec fn point_add_of(a: nat, b: nat) -> nat;

/// The digest, as a base-field element, of a sequence of field elements.
pub uninterp spec fn hash_of(elems: Seq<nat>) -> nat;

/// The digest, as a scalar, of two byte strings under a personalization.
pub uninterp spec fn hts_of(persona: Seq<u8>, a: Seq<u8>, b: Seq<u8>) -> nat;

/// The 32-byte block digest of a byte string.
pub uninterp spec fn blake3_of(data: Seq<u8>) -> nat;

/// Generator tag for the value component of commitments.
pub open spec fn value_gen_tag() -> nat {
    0
}

/// Generator tag for the blinding component of commitments.
pub open spec fn blind_gen_tag() -> nat {
    1
}

/// Generator tag for public keys.
pub open spec fn key_gen_tag() -> nat {
    2
}

/// The hiding commitment to `v` under blind `b`: the group sum of the two
/// generator multiples.  It is additively homomorphic.
pub open spec fn commit_of(v: nat, b: nat) -> nat {
    point_add_of(
        point_mul_of(fixed_point_of(value_gen_tag()), v % r_mod()),
        point_mul_of(fixed_point_of(blind_gen_tag()), b % r_mod()),
    )
}

// ---------------------------------------------------------------------------
// Trusted wrappers over the outside curve and hash libraries.
// ---------------------------------------------------------------------------

/// Relies on `pasta_curves::Fp: From<u64>`: embeds a word into the base
/// field; every word is below the modulus, so the value is preserved.
#[verifier::external_body]
pub fn base_from_u64(v: u64) -> (r: Base)
    ensures
        r.val() == v as nat,
        r.wf(),
{
    let s = pasta_curves::Fp::from(v).to_repr().to_vec();
    Base::decode(&s, 0).unwrap().0
}

/// Relies on `pasta_curves::Fq: From<u64>`: embeds a word into the scalar
/// field; every word is below the modulus, so the value is preserved.
#[verifier::external_body]
pub fn scalar_from_u64(v: u64) -> (r: Scalar)
    ensures
        r.val() == v as nat,
        r.wf(),
{
    let s = pasta_curves::Fq::from(v).to_repr().to_vec();
    Scalar::decode(&s, 0).unwrap().0
}

/// Relies on `pasta_curves::Fq` addition: field addition is addition of
/// representatives modulo the scalar modulus.
#[verifier::external_body]
pub fn scalar_add(a: &Scalar, b: &Scalar) -> (r: Scalar)
    requires
        a.wf(),
        b.wf(),
    ensures
        r.wf(),
        r.val() == (a.val() + b.val()) % r_mod(),
{
    let mut ra: Vec<u8> = Vec::new();
    a.encode(&mut ra);
    let mut rb: Vec<u8> = Vec::new();
    b.encode(&mut rb);
    let x = pasta_curves::Fq::from_repr(ra.as_slice().try_into().unwrap()).unwrap();
    let y = pasta_curves::Fq::from_repr(rb.as_slice().try_into().unwrap()).unwrap();
    let s = (x + y).to_repr().to_vec();
    Scalar::decode(&s, 0).unwrap().0
}

/// Relies on `pasta_curves::Fq` subtraction: field subtraction is
/// subtraction of representatives modulo the scalar modulus.
#[verifier::external_body]
pub fn scalar_sub(a: &Scalar, b: &Scalar) -> (r: Scalar)
    requires
        a.wf(),
        b.wf(),
    ensures
        r.wf(),
        r.val() as int == (a.val() + r_mod() - b.val()) % (r_mod() as int),
{
    let mut ra: Vec<u8> = Vec::new();
    a.encode(&mut ra);
    let mut rb: Vec<u8> = Vec::new();
    b.encode(&mut rb);
    let x = pasta_curves::Fq::from_repr(ra.as_slice().try_into().unwrap()).unwrap();
    let y = pasta_curves::Fq::from_repr(rb.as_slice().try_into().unwrap()).unwrap();
    let s = (x - y).to_repr().to_vec();
    Scalar::decode(&s, 0).unwrap().0
}

/// Relies on `ff::Field::random` over the scalar field: the draw depends on
/// the system randomness, so nothing is said beyond well-formedness.
#[verifier::external_body]
pub fn scalar_random() -> (r: Scalar)
    ensures
        r.wf(),
{
    let s = pasta_curves::Fq::random(&mut rand::rngs::OsRng).to_repr().to_vec();
    Scalar::decode(&s, 0).unwrap().0
}

/// Relies on `ff::Field::random` over the base field: the draw depends on
/// the system randomness, so nothing is said beyond well-formedness.
#[verifier::external_body]
pub fn base_random() -> (r: Base)
    ensures
        r.wf(),
{
    let s = pasta_curves::Fp::random(&mut rand::rngs::OsRng).to_repr().to_vec();
    Base::decode(&s, 0).unwrap().0
}

/// Relies on `CurveExt::hash_to_curve`: derives a distinguished group
/// element from a tag; the result depends on the tag alone.
#[verifier::external_body]
pub fn fixed_point(tag: u8) -> (r: Point)
    ensures
        r.val() == fixed_point_of(tag as nat),
{
    let p = PallasPoint::hash_to_curve("z.cash:ledger-generators")(&[tag]);
    let s = p.to_bytes().to_vec();
    Point::decode(&s, 0).unwrap().0
}

/// Relies on group scalar multiplication; a malformed point encoding decodes
/// to the identity, so the call is total and the result is a function of the
/// two encodings alone.
#[verifier::external_body]
pub fn point_mul(p: &Point, s: &Scalar) -> (r: Point)
    requires
        s.wf(),
    ensures
        r.val() == point_mul_of(p.val(), s.val()),
{
    let mut rp: Vec<u8> = Vec::new();
    p.encode(&mut rp);
    let mut rs: Vec<u8> = Vec::new();
    s.encode(&mut rs);
    let x = PallasPoint::from_bytes(rp.as_slice().try_into().unwrap()).unwrap_or(PallasPoint::default());
    let y = pasta_curves::Fq::from_repr(rs.as_slice().try_into().unwrap()).unwrap();
    let out = (x * y).to_bytes().to_vec();
    Point::decode(&out, 0).unwrap().0
}

/// Relies on group addition; a malformed encoding decodes to the identity.
/// The second clause is the Pedersen homomorphism: commitments add by
/// adding committed values and blinds, which the group law gives.
#[verifier::external_body]
pub fn point_add(a: &Point, b: &Point) -> (r: Point)
    ensures
        r.val() == point_add_of(a.val(), b.val()),
        forall|v1: nat, b1: nat, v2: nat, b2: nat|
            a.val() == #[trigger] commit_of(v1, b1) && b.val() == #[trigger] commit_of(v2, b2)
                ==> r.val() == commit_of(v1 + v2, b1 + b2),
{
    let mut ra: Vec<u8> = Vec::new();
    a.encode(&mut ra);
    let mut rb: Vec<u8> = Vec::new();
    b.encode(&mut rb);
    let x = PallasPoint::from_bytes(ra.as_slice().try_into().unwrap()).unwrap_or(PallasPoint::default());
    let y = PallasPoint::from_bytes(rb.as_slice().try_into().unwrap()).unwrap_or(PallasPoint::default());
    let out = (x + y).to_bytes().to_vec();
    Point::decode(&out, 0).unwrap().0
}

/// The affine coordinates of a group element, as a name.  The identity (and
/// any malformed encoding, which decodes to it) is mapped to the zero pair.
pub uninterp spec fn coords_of(p: nat) -> (nat, nat);

/// Relies on `Curve::to_affine` and `CurveAffine::coordinates`: the affine
/// coordinate pair is a function of the group element alone.
#[verifier::external_body]
pub fn point_coords(p: &Point) -> (r: (Base, Base))
    ensures
        r.0.val() == coords_of(p.val()).0,
        r.1.val() == coords_of(p.val()).1,
        r.0.wf(),
        r.1.wf(),
{
    let mut rp: Vec<u8> = Vec::new();
    p.encode(&mut rp);
    let pt = PallasPoint::from_bytes(rp.as_slice().try_into().unwrap()).unwrap_or(PallasPoint::default());
    let co: Option<Coordinates<pasta_curves::pallas::Affine>> = pt.to_affine().coordinates().into();
    let sx = co.map(|c| *c.x()).unwrap_or(pasta_curves::Fp::zero()).to_repr().to_vec();
    let sy = co.map(|c| *c.y()).unwrap_or(pasta_curves::Fp::zero()).to_repr().to_vec();
    (Base::decode(&sx, 0).unwrap().0, Base::decode(&sy, 0).unwrap().0)
}

/// Relies on `blake2b_simd` with a 64-byte digest and `Fp::from_uniform_bytes`:
/// hashes the canonical encodings of the elements into a base-field element;
/// the digest is a function of the element values alone.
#[verifier::external_body]
pub fn hash_fields(elems: &Vec<Base>) -> (r: Base)
    ensures
        r.wf(),
        r.val() == hash_of(elems@.map_values(|x: Base| x.val())),
{
    let mut st = blake2b_simd::Params::new().hash_length(64).personal(b"ledger-hash-v1").to_state();
    for e in elems.iter() {
        for w in [e.l0, e.l1, e.l2, e.l3].iter() {
            st.update(&w.to_le_bytes());
        }
    }
    let digest = st.finalize();
    let s = pasta_curves::Fp::from_uniform_bytes(digest.as_array()).to_repr().to_vec();
    Base::decode(&s, 0).unwrap().0
}

/// Relies on `blake2b_simd` with a personalization and
/// `Fq::from_uniform_bytes`: hashes `a` and `b` under the prefix `persona`
/// into a scalar; the result is a function of the three byte strings alone.
/// A personalization longer than 16 bytes is rejected by the hash library.
#[verifier::external_body]
pub fn hash_to_scalar(persona: &[u8], a: &[u8], b: &[u8]) -> (r: Scalar)
    requires
        persona@.len() <= 16,
    ensures
        r.wf(),
        r.val() == hts_of(persona@, a@, b@),
{
    let mut st = blake2b_simd::Params::new().hash_length(64).personal(persona).to_state();
    st.update(a);
    st.update(b);
    let digest = st.finalize();
    let s = pasta_curves::Fq::from_uniform_bytes(digest.as_array()).to_repr().to_vec();
    Scalar::decode(&s, 0).unwrap().0
}

/// Relies on `blake3::hash`: the 32-byte digest is a function of the data.
#[verifier::external_body]
pub fn blake3_digest(data: &Vec<u8>) -> (r: Hash32)
    ensures
        r.val() == blake3_of(data@),
{
    let s = blake3::hash(data).as_bytes().to_vec();
    let l: [u64; 4] = core::array::from_fn(|i| u64::from_le_bytes(s[8 * i..8 * i + 8].try_into().unwrap()));
    Hash32 { l0: l[0], l1: l[1], l2: l[2], l3: l[3] }
}

// ---------------------------------------------------------------------------
// Verified conversions and commitment assembly.
// ---------------------------------------------------------------------------

/// Reinterprets a base-field element as a scalar.  The base modulus is below
/// the scalar modulus, so the canonical encoding carries over unchanged and
/// the value is preserved.
pub fn mod_r_p(x: &Base) -> (r: Scalar)
    requires
        x.wf(),
    ensures
        r.wf(),
        r.val() == x.val(),
{
    proof {
        assert(p_mod() < r_mod());
    }
    Scalar { l0: x.l0, l1: x.l1, l2: x.l2, l3: x.l3 }
}

/// The hiding commitment to a 64-bit value under a blinding scalar.
pub fn pedersen_commit_u64(value: u64, blind: &Scalar) -> (r: Point)
    requires
        blind.wf(),
    ensures
        r.val() == commit_of(value as nat, blind.val()),
{
    let g = fixed_point(0);
    let h = fixed_point(1);
    let vs = scalar_from_u64(value);
    let gv = point_mul(&g, &vs);
    let hb = point_mul(&h, blind);
    proof {
        lemma_small_mod(value as nat, r_mod());
        lemma_small_mod(blind.val(), r_mod());
    }
    point_add(&gv, &hb)
}

/// The hiding commitment to a base-field value under a blinding scalar.
pub fn pedersen_commit_base(value: &Base, blind: &Scalar) -> (r: Point)
    requires
        value.wf(),
        blind.wf(),
    ensures
        r.val() == commit_of(value.val(), blind.val()),
{
    let g = fixed_point(0);
    let h = fixed_point(1);
    let vs = mod_r_p(value);
    let gv = point_mul(&g, &vs);
    let hb = point_mul(&h, blind);
    proof {
        lemma_small_mod(value.val(), r_mod());
        lemma_small_mod(blind.val(), r_mod());
    }
    point_add(&gv, &hb)
}

// ---------------------------------------------------------------------------
// Byte encodings of the four-limb types.
// ---------------------------------------------------------------------------

/// The eight little-endian bytes of a word.
pub open spec fn u64_le(v: u64) -> Seq<u8> {
    seq![
        (v & 0xff) as u8,
        ((v >> 8) & 0xff) as u8,
        ((v >> 16) & 0xff) as u8,
        ((v >> 24) & 0xff) as u8,
        ((v >> 32) & 0xff) as u8,
        ((v >> 40) & 0xff) as u8,
        ((v >> 48) & 0xff) as u8,
        ((v >> 56) & 0xff) as u8,
    ]
}

/// Appends the eight little-endian bytes of a word.
pub fn push_u64_le(out: &mut Vec<u8>, v: u64)
    ensures
        final(out)@ == old(out)@ + u64_le(v),
{
    out.push((v & 0xff) as u8);
    out.push(((v >> 8) & 0xff) as u8);
    out.push(((v >> 16) & 0xff) as u8);
    out.push(((v >> 24) & 0xff) as u8);
    out.push(((v >> 32) & 0xff) as u8);
    out.push(((v >> 40) & 0xff) as u8);
    out.push(((v >> 48) & 0xff) as u8);
    out.push(((v >> 56) & 0xff) as u8);
    proof {
        assert(out@ =~= old(out)@ + u64_le(v));
    }
}

impl Base {
    /// The 32-byte canonical encoding.
    pub closed spec fn enc(self) -> Seq<u8> {
        u64_le(self.l0) + u64_le(self.l1) + u64_le(self.l2) + u64_le(self.l3)
    }

    /// Appends the canonical encoding.
    pub fn encode(&self, out: &mut Vec<u8>)
        ensures
            final(out)@ == old(out)@ + self.enc(),
            self.enc().len() == 32,
    {
        push_u64_le(out, self.l0);
        push_u64_le(out, self.l1);
        push_u64_le(out, self.l2);
        push_u64_le(out, self.l3);
        proof {
            assert(out@ =~= old(out)@ + self.enc());
        }
    }
}

impl Scalar {
    /// The 32-byte canonical encoding.
    pub closed spec fn enc(self) -> Seq<u8> {
        u64_le(self.l0) + u64_le(self.l1) + u64_le(self.l2) + u64_le(self.l3)
    }

    /// Appends the canonical encoding.
    pub fn encode(&self, out: &mut Vec<u8>)
        ensures
            final(out)@ == old(out)@ + self.enc(),
            self.enc().len() == 32,
    {
        push_u64_le(out, self.l0);
        push_u64_le(out, self.l1);
        push_u64_le(out, self.l2);
        push_u64_le(out, self.l3);
        proof {
            assert(out@ =~= old(out)@ + self.enc());
        }
    }
}

impl Point {
    /// The 32-byte canonical encoding.
    pub closed spec fn enc(self) -> Seq<u8> {
        u64_le(self.l0) + u64_le(self.l1) + u64_le(self.l2) + u64_le(self.l3)
    }

    /// Appends the canonical encoding.
    pub fn encode(&self, out: &mut Vec<u8>)
        ensures
            final(out)@ == old(out)@ + self.enc(),
            self.enc().len() == 32,
    {
        push_u64_le(out, self.l0);
        push_u64_le(out, self.l1);
        push_u64_le(out, self.l2);
        push_u64_le(out, self.l3);
        proof {
            assert(out@ =~= old(out)@ + self.enc());
        }
    }
}

impl Hash32 {
    /// The 32-byte encoding.
    pub closed spec fn enc(self) -> Seq<u8> {
        u64_le(self.l0) + u64_le(self.l1) + u64_le(self.l2) + u64_le(self.l3)
    }

    /// Appends the encoding.
    pub fn encode(&self, out: &mut Vec<u8>)
        ensures
            final(out)@ == old(out)@ + self.enc(),
            self.enc().len() == 32,
    {
        push_u64_le(out, self.l0);
        push_u64_le(out, self.l1);
        push_u64_le(out, self.l2);
        push_u64_le(out, self.l3);
        proof {
            assert(out@ =~= old(out)@ + self.enc());
        }
    }
}

/// Reassembles a word from its eight little-endian bytes.
pub fn u64_from_le(b0: u8, b1: u8, b2: u8, b3: u8, b4: u8, b5: u8, b6: u8, b7: u8) -> (r: u64)
    ensures
        u64_le(r) == seq![b0, b1, b2, b3, b4, b5, b6, b7],
        forall|v: u64| u64_le(v) == seq![b0, b1, b2, b3, b4, b5, b6, b7] ==> v == r,
{
    let r = (b0 as u64) | ((b1 as u64) << 8) | ((b2 as u64) << 16) | ((b3 as u64) << 24) | (
    (b4 as u64) << 32) | ((b5 as u64) << 40) | ((b6 as u64) << 48) | ((b7 as u64) << 56);
    proof {
        lemma_u64_le_bytes(r, b0, b1, b2, b3, b4, b5, b6, b7);
        assert(u64_le(r) =~= seq![b0, b1, b2, b3, b4, b5, b6, b7]);
        assert forall|v: u64| u64_le(v) == seq![b0, b1, b2, b3, b4, b5, b6, b7] implies v == r by {
            assert(u64_le(v)[0] == b0 && u64_le(v)[1] == b1 && u64_le(v)[2] == b2 && u64_le(v)[3]
                == b3 && u64_le(v)[4] == b4 && u64_le(v)[5] == b5 && u64_le(v)[6] == b6 && u64_le(
                v,
            )[7] == b7);
            lemma_u64_le_unique(v, r);
        }
    }
    r
}

proof fn lemma_u64_le_bytes(r: u64, b0: u8, b1: u8, b2: u8, b3: u8, b4: u8, b5: u8, b6: u8, b7: u8)
    requires
        r == (b0 as u64) | ((b1 as u64) << 8) | ((b2 as u64) << 16) | ((b3 as u64) << 24) | (
        (b4 as u64) << 32) | ((b5 as u64) << 40) | ((b6 as u64) << 48) | ((b7 as u64) << 56),
    ensures
        (r & 0xff) as u8 == b0,
        ((r >> 8) & 0xff) as u8 == b1,
        ((r >> 16) & 0xff) as u8 == b2,
        ((r >> 24) & 0xff) as u8 == b3,
        ((r >> 32) & 0xff) as u8 == b4,
        ((r >> 40) & 0xff) as u8 == b5,
        ((r >> 48) & 0xff) as u8 == b6,
        ((r >> 56) & 0xff) as u8 == b7,
{
    assert((r & 0xff) as u8 == b0 && ((r >> 8) & 0xff) as u8 == b1 && ((r >> 16) & 0xff) as u8 == b2
        && ((r >> 24) & 0xff) as u8 == b3 && ((r >> 32) & 0xff) as u8 == b4 && ((r >> 40)
        & 0xff) as u8 == b5 && ((r >> 48) & 0xff) as u8 == b6 && ((r >> 56) & 0xff) as u8 == b7)
        by (bit_vector)
        requires
            r == (b0 as u64) | ((b1 as u64) << 8) | ((b2 as u64) << 16) | ((b3 as u64) << 24) | (
            (b4 as u64) << 32) | ((b5 as u64) << 40) | ((b6 as u64) << 48) | ((b7 as u64) << 56),
    ;
}

proof fn lemma_u64_le_unique(v: u64, r: u64)
    requires
        (v & 0xff) as u8 == (r & 0xff) as u8,
        ((v >> 8) & 0xff) as u8 == ((r >> 8) & 0xff) as u8,
        ((v >> 16) & 0xff) as u8 == ((r >> 16) & 0xff) as u8,
        ((v >> 24) & 0xff) as u8 == ((r >> 24) & 0xff) as u8,
        ((v >> 32) & 0xff) as u8 == ((r >> 32) & 0xff) as u8,
        ((v >> 40) & 0xff) as u8 == ((r >> 40) & 0xff) as u8,
        ((v >> 48) & 0xff) as u8 == ((r >> 48) & 0xff) as u8,
        ((v >> 56) & 0xff) as u8 == ((r >> 56) & 0xff) as u8,
    ensures
        v == r,
{
    assert(v == r) by (bit_vector)
        requires
            (v & 0xff) as u8 == (r & 0xff) as u8,
            ((v >> 8) & 0xff) as u8 == ((r >> 8) & 0xff) as u8,
            ((v >> 16) & 0xff) as u8 == ((r >> 16) & 0xff) as u8,
            ((v >> 24) & 0xff) as u8 == ((r >> 24) & 0xff) as u8,
            ((v >> 32) & 0xff) as u8 == ((r >> 32) & 0xff) as u8,
            ((v >> 40) & 0xff) as u8 == ((r >> 40) & 0xff) as u8,
            ((v >> 48) & 0xff) as u8 == ((r >> 48) & 0xff) as u8,
            ((v >> 56) & 0xff) as u8 == ((r >> 56) & 0xff) as u8,
    ;
}

// ---------------------------------------------------------------------------
// Byte decoding of the four-limb types.
// ---------------------------------------------------------------------------

/// The word standing for eight little-endian bytes.
pub open spec fn u64_of_8(b0: u8, b1: u8, b2: u8, b3: u8, b4: u8, b5: u8, b6: u8, b7: u8) -> u64 {
    (b0 + b1 * 0x100 + b2 * 0x10000 + b3 * 0x1000000 + b4 * 0x100000000 + b5 * 0x10000000000 + b6
        * 0x1000000000000 + b7 * 0x100000000000000) as u64
}

/// The word standing for an eight-byte little-endian sequence.
pub open spec fn u64_of_le(s: Seq<u8>) -> u64
    recommends
        s.len() == 8,
{
    u64_of_8(s[0], s[1], s[2], s[3], s[4], s[5], s[6], s[7])
}

/// Decoding inverts encoding on words.
pub proof fn lemma_u64_of_le_le(v: u64)
    ensures
        u64_of_le(u64_le(v)) == v,
{
    assert((((v & 0xff) as u8) + (((v >> 8) & 0xff) as u8) * 0x100 + (((v >> 16) & 0xff) as u8)
        * 0x10000 + (((v >> 24) & 0xff) as u8) * 0x1000000 + (((v >> 32) & 0xff) as u8)
        * 0x100000000 + (((v >> 40) & 0xff) as u8) * 0x10000000000 + (((v >> 48) & 0xff) as u8)
        * 0x1000000000000 + (((v >> 56) & 0xff) as u8) * 0x100000000000000) as u64 == v)
        by (bit_vector);
}

/// Encoding inverts decoding on eight bytes.
pub proof fn lemma_u64_le_of_8(b0: u8, b1: u8, b2: u8, b3: u8, b4: u8, b5: u8, b6: u8, b7: u8)
    ensures
        u64_le(u64_of_8(b0, b1, b2, b3, b4, b5, b6, b7)) == seq![b0, b1, b2, b3, b4, b5, b6, b7],
{
    let v = u64_of_8(b0, b1, b2, b3, b4, b5, b6, b7);
    assert((v & 0xff) as u8 == b0 && ((v >> 8) & 0xff) as u8 == b1 && ((v >> 16) & 0xff) as u8 == b2
        && ((v >> 24) & 0xff) as u8 == b3 && ((v >> 32) & 0xff) as u8 == b4 && ((v >> 40)
        & 0xff) as u8 == b5 && ((v >> 48) & 0xff) as u8 == b6 && ((v >> 56) & 0xff) as u8 == b7)
        by (bit_vector)
        requires
            v == (b0 + b1 * 0x100 + b2 * 0x10000 + b3 * 0x1000000 + b4 * 0x100000000 + b5
                * 0x10000000000 + b6 * 0x1000000000000 + b7 * 0x100000000000000) as u64,
    ;
    assert(u64_le(v) =~= seq![b0, b1, b2, b3, b4, b5, b6, b7]);
}

/// Parses a word at offset `i`.
pub open spec fn dec_u64_at(s: Seq<u8>, i: int) -> Option<(u64, int)> {
    if 0 <= i && i + 8 <= s.len() {
        Some((u64_of_le(s.subrange(i, i + 8)), i + 8))
    } else {
        None
    }
}

/// Reads a word from eight little-endian bytes at offset `i`.
pub fn read_u64_at(s: &Vec<u8>, i: usize) -> (r: Option<(u64, usize)>)
    ensures
        r is Some <==> dec_u64_at(s@, i as int) is Some,
        r is Some ==> r->Some_0.0 == dec_u64_at(s@, i as int)->Some_0.0 && r->Some_0.1 == i + 8
            && u64_le(r->Some_0.0) == s@.subrange(i as int, i + 8),
{
    if s.len() < 8 || i > s.len() - 8 {
        return None;
    }
    let v = u64_from_le(s[i], s[i + 1], s[i + 2], s[i + 3], s[i + 4], s[i + 5], s[i + 6], s[i + 7]);
    proof {
        assert(s@.subrange(i as int, i + 8) =~= seq![
            s@[i as int],
            s@[i + 1],
            s@[i + 2],
            s@[i + 3],
            s@[i + 4],
            s@[i + 5],
            s@[i + 6],
            s@[i + 7],
        ]);
        lemma_u64_of_le_le(v);
    }
    Some((v, i + 8))
}

/// The limbs of the base-field modulus.
pub open spec fn p_limbs() -> (u64, u64, u64, u64) {
    (0x992d30ed00000001u64, 0x224698fc094cf91bu64, 0u64, 0x4000000000000000u64)
}

/// The limbs of the scalar-field modulus.
pub open spec fn r_limbs() -> (u64, u64, u64, u64) {
    (0x8c46eb2100000001u64, 0x224698fc0994a8ddu64, 0u64, 0x4000000000000000u64)
}

/// Four limbs compare as integers exactly as they compare lexicographically
/// from the most significant limb down.
proof fn lemma_limbs_lt(a0: u64, a1: u64, a2: u64, a3: u64, b0: u64, b1: u64, b2: u64, b3: u64)
    ensures
        (limbs_val(a0, a1, a2, a3) < limbs_val(b0, b1, b2, b3)) <==> (a3 < b3 || (a3 == b3 && (a2
            < b2 || (a2 == b2 && (a1 < b1 || (a1 == b1 && a0 < b0)))))),
{
    let va = limbs_val(a0, a1, a2, a3) as int;
    let vb = limbs_val(b0, b1, b2, b3) as int;
    if a3 != b3 {
        if a3 < b3 {
            assert((a3 + 1) * 0x1000000000000000000000000000000000000000000000000int <= b3
                * 0x1000000000000000000000000000000000000000000000000int) by (nonlinear_arith)
                requires
                    a3 + 1 <= b3,
            ;
            assert(va < vb);
        } else {
            assert((b3 + 1) * 0x1000000000000000000000000000000000000000000000000int <= a3
                * 0x1000000000000000000000000000000000000000000000000int) by (nonlinear_arith)
                requires
                    b3 + 1 <= a3,
            ;
            assert(vb < va);
        }
    } else if a2 != b2 {
        if a2 < b2 {
            assert((a2 + 1) * 0x100000000000000000000000000000000int <= b2
                * 0x100000000000000000000000000000000int) by (nonlinear_arith)
                requires
                    a2 + 1 <= b2,
            ;
            assert(va < vb);
        } else {
            assert((b2 + 1) * 0x100000000000000000000000000000000int <= a2
                * 0x100000000000000000000000000000000int) by (nonlinear_arith)
                requires
                    b2 + 1 <= a2,
            ;
            assert(vb < va);
        }
    } else if a1 != b1 {
        if a1 < b1 {
            assert((a1 + 1) * 0x10000000000000000int <= b1 * 0x10000000000000000int)
                by (nonlinear_arith)
                requires
                    a1 + 1 <= b1,
            ;
            assert(va < vb);
        } else {
            assert((b1 + 1) * 0x10000000000000000int <= a1 * 0x10000000000000000int)
                by (nonlinear_arith)
                requires
                    b1 + 1 <= a1,
            ;
            assert(vb < va);
        }
    }
}

impl Base {
    /// A spec-level constructor from four limbs.
    pub closed spec fn from_limbs(l0: u64, l1: u64, l2: u64, l3: u64) -> Base {
        Base { l0, l1, l2, l3 }
    }

    /// Parses a canonical base-field element at offset `i`; a non-canonical
    /// encoding is malformed and does not parse.
    pub open spec fn dec_at(s: Seq<u8>, i: int) -> Option<(Base, int)> {
        if 0 <= i && i + 32 <= s.len() {
            let l0 = u64_of_le(s.subrange(i, i + 8));
            let l1 = u64_of_le(s.subrange(i + 8, i + 16));
            let l2 = u64_of_le(s.subrange(i + 16, i + 24));
            let l3 = u64_of_le(s.subrange(i + 24, i + 32));
            if limbs_val(l0, l1, l2, l3) < p_mod() {
                Some((Base::from_limbs(l0, l1, l2, l3), i + 32))
            } else {
                None
            }
        } else {
            None
        }
    }

    /// Reads a canonical base-field element at offset `i`.
    #[verifier::rlimit(100)]
    #[verifier::spinoff_prover]
    pub fn decode(s: &Vec<u8>, i: usize) -> (r: Option<(Base, usize)>)
        ensures
            r is Some <==> Base::dec_at(s@, i as int) is Some,
            r is Some ==> r->Some_0.0 == Base::dec_at(s@, i as int)->Some_0.0 && r->Some_0.1 == i
                + 32 && r->Some_0.0.wf() && r->Some_0.0.enc() == s@.subrange(i as int, i + 32),
    {
        if s.len() < 32 || i > s.len() - 32 {
            return None;
        }
        let l0 = match read_u64_at(s, i) {
            Some(v) => v.0,
            None => { return None },
        };
        let l1 = match read_u64_at(s, i + 8) {
            Some(v) => v.0,
            None => { return None },
        };
        let l2 = match read_u64_at(s, i + 16) {
            Some(v) => v.0,
            None => { return None },
        };
        let l3 = match read_u64_at(s, i + 24) {
            Some(v) => v.0,
            None => { return None },
        };
        proof {
            lemma_limbs_lt(l0, l1, l2, l3, p_limbs().0, p_limbs().1, p_limbs().2, p_limbs().3);
            assert(limbs_val(p_limbs().0, p_limbs().1, p_limbs().2, p_limbs().3) == p_mod());
        }
        if !(l3 < 0x4000000000000000u64 || (l3 == 0x4000000000000000u64 && (l2 == 0u64 && (l1
            < 0x224698fc094cf91bu64 || (l1 == 0x224698fc094cf91bu64 && l0
            < 0x992d30ed00000001u64))))) {
            proof {
                assert(Base::dec_at(s@, i as int) is None);
            }
            return None;
        }
        let v = Base { l0, l1, l2, l3 };
        proof {
            assert(v.enc() =~= s@.subrange(i as int, i + 32));
        }
        Some((v, i + 32))
    }

    /// Decoding inverts encoding for well-formed elements.
    pub proof fn lemma_dec_enc(v: Base, s: Seq<u8>, i: int)
        requires
            v.wf(),
            0 <= i,
            i + 32 <= s.len(),
            s.subrange(i, i + 32) == v.enc(),
        ensures
            Base::dec_at(s, i) == Some((v, i + 32)),
    {
        lemma_enc_limbs(v.l0, v.l1, v.l2, v.l3, s, i);
    }
}

impl Scalar {
    /// A spec-level constructor from four limbs.
    pub closed spec fn from_limbs(l0: u64, l1: u64, l2: u64, l3: u64) -> Scalar {
        Scalar { l0, l1, l2, l3 }
    }

    /// Parses a canonical scalar at offset `i`; a non-canonical encoding is
    /// malformed and does not parse.
    pub open spec fn dec_at(s: Seq<u8>, i: int) -> Option<(Scalar, int)> {
        if 0 <= i && i + 32 <= s.len() {
            let l0 = u64_of_le(s.subrange(i, i + 8));
            let l1 = u64_of_le(s.subrange(i + 8, i + 16));
            let l2 = u64_of_le(s.subrange(i + 16, i + 24));
            let l3 = u64_of_le(s.subrange(i + 24, i + 32));
            if limbs_val(l0, l1, l2, l3) < r_mod() {
                Some((Scalar::from_limbs(l0, l1, l2, l3), i + 32))
            } else {
                None
            }
        } else {
            None
        }
    }

    /// Reads a canonical scalar at offset `i`.
    #[verifier::rlimit(100)]
    #[verifier::spinoff_prover]
    pub fn decode(s: &Vec<u8>, i: usize) -> (r: Option<(Scalar, usize)>)
        ensures
            r is Some <==> Scalar::dec_at(s@, i as int) is Some,
            r is Some ==> r->Some_0.0 == Scalar::dec_at(s@, i as int)->Some_0.0 && r->Some_0.1 == i
                + 32 && r->Some_0.0.wf() && r->Some_0.0.enc() == s@.subrange(i as int, i + 32),
    {
        if s.len() < 32 || i > s.len() - 32 {
            return None;
        }
        let l0 = match read_u64_at(s, i) {
            Some(v) => v.0,
            None => { return None },
        };
        let l1 = match read_u64_at(s, i + 8) {
            Some(v) => v.0,
            None => { return None },
        };
        let l2 = match read_u64_at(s, i + 16) {
            Some(v) => v.0,
            None => { return None },
        };
        let l3 = match read_u64_at(s, i + 24) {
            Some(v) => v.0,
            None => { return None },
        };
        proof {
            lemma_limbs_lt(l0, l1, l2, l3, r_limbs().0, r_limbs().1, r_limbs().2, r_limbs().3);
            assert(limbs_val(r_limbs().0, r_limbs().1, r_limbs().2, r_limbs().3) == r_mod());
        }
        if !(l3 < 0x4000000000000000u64 || (l3 == 0x4000000000000000u64 && (l2 == 0u64 && (l1
            < 0x224698fc0994a8ddu64 || (l1 == 0x224698fc0994a8ddu64 && l0
            < 0x8c46eb2100000001u64))))) {
            proof {
                assert(Scalar::dec_at(s@, i as int) is None);
            }
            return None;
        }
        let v = Scalar { l0, l1, l2, l3 };
        proof {
            assert(v.enc() =~= s@.subrange(i as int, i + 32));
        }
        Some((v, i + 32))
    }

    /// Decoding inverts encoding for well-formed elements.
    pub proof fn lemma_dec_enc(v: Scalar, s: Seq<u8>, i: int)
        requires
            v.wf(),
            0 <= i,
            i + 32 <= s.len(),
            s.subrange(i, i + 32) == v.enc(),
        ensures
            Scalar::dec_at(s, i) == Some((v, i + 32)),
    {
        lemma_enc_limbs(v.l0, v.l1, v.l2, v.l3, s, i);
    }
}

impl Point {
    /// A spec-level constructor from four limbs.
    pub closed spec fn from_limbs(l0: u64, l1: u64, l2: u64, l3: u64) -> Point {
        Point { l0, l1, l2, l3 }
    }

    /// Parses a point encoding at offset `i`.
    pub open spec fn dec_at(s: Seq<u8>, i: int) -> Option<(Point, int)> {
        if 0 <= i && i + 32 <= s.len() {
            Some(
                (
                    Point::from_limbs(
                        u64_of_le(s.subrange(i, i + 8)),
                        u64_of_le(s.subrange(i + 8, i + 16)),
                        u64_of_le(s.subrange(i + 16, i + 24)),
                        u64_of_le(s.subrange(i + 24, i + 32)),
                    ),
                    i + 32,
                ),
            )
        } else {
            None
        }
    }

    /// Reads a point encoding at offset `i`.
    #[verifier::rlimit(50)]
    pub fn decode(s: &Vec<u8>, i: usize) -> (r: Option<(Point, usize)>)
        ensures
            r is Some <==> Point::dec_at(s@, i as int) is Some,
            r is Some ==> r->Some_0.0 == Point::dec_at(s@, i as int)->Some_0.0 && r->Some_0.1 == i
                + 32 && r->Some_0.0.enc() == s@.subrange(i as int, i + 32),
    {
        if s.len() < 32 || i > s.len() - 32 {
            return None;
        }
        let l0 = match read_u64_at(s, i) {
            Some(v) => v.0,
            None => { return None },
        };
        let l1 = match read_u64_at(s, i + 8) {
            Some(v) => v.0,
            None => { return None },
        };
        let l2 = match read_u64_at(s, i + 16) {
            Some(v) => v.0,
            None => { return None },
        };
        let l3 = match read_u64_at(s, i + 24) {
            Some(v) => v.0,
            None => { return None },
        };
        let v = Point { l0, l1, l2, l3 };
        proof {
            assert(v.enc() =~= s@.subrange(i as int, i + 32));
        }
        Some((v, i + 32))
    }

    /// Decoding inverts encoding.
    pub proof fn lemma_dec_enc(v: Point, s: Seq<u8>, i: int)
        requires
            0 <= i,
            i + 32 <= s.len(),
            s.subrange(i, i + 32) == v.enc(),
        ensures
            Point::dec_at(s, i) == Some((v, i + 32)),
    {
        lemma_enc_limbs(v.l0, v.l1, v.l2, v.l3, s, i);
    }
}

impl Hash32 {
    /// A spec-level constructor from four limbs.
    pub closed spec fn from_limbs(l0: u64, l1: u64, l2: u64, l3: u64) -> Hash32 {
        Hash32 { l0, l1, l2, l3 }
    }
}

/// The four 8-byte windows of an encoded limb quadruple parse back to the
/// limbs that were encoded.
proof fn lemma_enc_limbs(l0: u64, l1: u64, l2: u64, l3: u64, s: Seq<u8>, i: int)
    requires
        0 <= i,
        i + 32 <= s.len(),
        s.subrange(i, i + 32) == u64_le(l0) + u64_le(l1) + u64_le(l2) + u64_le(l3),
    ensures
        u64_of_le(s.subrange(i, i + 8)) == l0,
        u64_of_le(s.subrange(i + 8, i + 16)) == l1,
        u64_of_le(s.subrange(i + 16, i + 24)) == l2,
        u64_of_le(s.subrange(i + 24, i + 32)) == l3,
{
    let w = s.subrange(i, i + 32);
    assert(s.subrange(i, i + 8) =~= w.subrange(0, 8));
    assert(s.subrange(i + 8, i + 16) =~= w.subrange(8, 16));
    assert(s.subrange(i + 16, i + 24) =~= w.subrange(16, 24));
    assert(s.subrange(i + 24, i + 32) =~= w.subrange(24, 32));
    assert(w.subrange(0, 8) =~= u64_le(l0));
    assert(w.subrange(8, 16) =~= u64_le(l1));
    assert(w.subrange(16, 24) =~= u64_le(l2));
    assert(w.subrange(24, 32) =~= u64_le(l3));
    lemma_u64_of_le_le(l0);
    lemma_u64_of_le_le(l1);
    lemma_u64_of_le_le(l2);
    lemma_u64_of_le_le(l3);
}

} // verus!

//! Cryptographic primitives of the sharing protocol: KZG polynomial
//! commitments over BLS12-381 and Ed25519 signatures, together with
//! Lagrange interpolation for secret recovery.
//!
//! Group and field values cross the library boundary as canonical
//! compressed byte strings; the arkworks and ring calls that produce
//! and check them stand behind trusted wrappers.
use vstd::prelude::*;
use crate::bytes_le;
use ark_bls12_381::{Bls12_381, Fr};
use ark_poly::DenseUVPolynomial;
use ark_poly::univariate::DensePolynomial;
use ark_ec::CurveGroup;
use ark_poly_commit::kzg10::{Commitment as KzgCommitment, Powers, Proof as KzgProof, Randomness, UniversalParams, VerifierKey};
use ark_poly_commit::kzg10::KZG10;
use ark_poly_commit::{PCCommitment, PCRandomness};
use ark_serialize::{CanonicalDeserialize, CanonicalSerialize, Compress};

verus! {

/// A party's share: one scalar field element, serialized.
#[derive(Debug, Clone)]
pub struct Share {
    pub bytes: Vec<u8>,
}

impl View for Share {
    type V = Seq<u8>;

    open spec fn view(&self) -> Seq<u8> {
        self.bytes@
    }
}

/// A KZG opening proof, serialized.
#[derive(Debug, Clone)]
pub struct Proof {
    pub bytes: Vec<u8>,
}

impl View for Proof {
    type V = Seq<u8>;

    open spec fn view(&self) -> Seq<u8> {
        self.bytes@
    }
}

/// A KZG commitment: the verifier key and group element, serialized,
/// with the degree bound the dealer claims.
#[derive(Debug, Clone)]
pub struct Commitment {
    pub vkey: Vec<u8>,
    pub comm: Vec<u8>,
    pub degree_bound: u32,
}

/// One batch entry of a REST broadcast: a party index with the share
/// and proof the dealer still owes it.
pub type Batch = (u16, Proof, Share);

/// An Ed25519 signature, as raw bytes.
pub type Sign = Vec<u8>;

/// An Ed25519 public key in DER form.
pub type PublicKey = Vec<u8>;

/// Whether the KZG pairing check accepts the proof that the committed
/// polynomial evaluates to the share at the point. A deterministic
/// function of the serialized inputs.
pub uninterp spec fn kzg_accepts(
    vkey: Seq<u8>,
    comm: Seq<u8>,
    point: u16,
    share: Seq<u8>,
    proof: Seq<u8>,
) -> bool;

/// The serialized verifier key the dealer's setup yields for a
/// degree bound. Deterministic: the parameters come from the fixed
/// test generator.
pub uninterp spec fn vkey_of(degree: u32) -> Seq<u8>;

/// The serialized commitment to the dealer's polynomial for a degree
/// bound and secret. Deterministic in both.
pub uninterp spec fn comm_of(degree: u32, secret: u128) -> Seq<u8>;

/// The serialized share (the polynomial's value) at a point.
pub uninterp spec fn share_of(degree: u32, secret: u128, point: u16) -> Seq<u8>;

/// The serialized opening proof at a point.
pub uninterp spec fn proof_of(degree: u32, secret: u128, point: u16) -> Seq<u8>;

/// The dealer's working material for one round, opaque to the
/// verifier: the scheme's universal parameters, the trimmed committer
/// powers, the secret-bearing polynomial, its commitment and the
/// commitment's hiding randomness. Verus refuses to declare the
/// underlying arkworks types (their generics carry outside trait
/// bounds and const parameters), so the whole bundle is hidden behind
/// this one structure and only the byte-level wrappers below look
/// inside.
#[verifier::external_body]
pub struct DealerKit {
    pp: UniversalParams<Bls12_381>,
    powers: Powers<'static, Bls12_381>,
    poly: DensePolynomial<Fr>,
    comm: KzgCommitment<Bls12_381>,
    rand: Randomness<Fr, DensePolynomial<Fr>>,
}

/// Relies on kzg10's setup: draws the universal parameters for the
/// given maximal degree from the deterministic test generator. The
/// powers, polynomial, commitment and randomness start empty.
#[verifier::external_body]
fn kzg_prepare(degree: u32) -> (r: Option<DealerKit>) {
    let rng = &mut ark_std::test_rng();
    let pp = KZG10::<Bls12_381, DensePolynomial<Fr>>::setup(degree as usize, false, rng).ok()?;
    let empty: Vec<ark_bls12_381::G1Affine> = Vec::new();
    let powers = Powers {
        powers_of_g: std::borrow::Cow::Owned(empty.clone()),
        powers_of_gamma_g: std::borrow::Cow::Owned(empty),
    };
    let poly = DensePolynomial::from_coefficients_vec(Vec::new());
    let comm = <KzgCommitment<Bls12_381> as PCCommitment>::empty();
    let rand = <Randomness<Fr, DensePolynomial<Fr>> as PCRandomness>::empty();
    Some(DealerKit { pp, powers, poly, comm, rand })
}

/// Relies on kzg10's layout of the universal parameters: installs the
/// trimmed committer powers, sliced as the scheme itself lays them
/// out beside its setup, with the degree-1 special case included.
#[verifier::external_body]
fn kit_trim(kit: &mut DealerKit, degree: u32) -> (r: Option<()>) {
    let d = if degree == 1 { 2usize } else { degree as usize };
    if d >= kit.pp.powers_of_g.len() {
        return None;
    }
    let mut gamma = Vec::new();
    for i in 0..=d {
        gamma.push(*kit.pp.powers_of_gamma_g.get(&i)?);
    }
    let g = std::borrow::Cow::Owned(kit.pp.powers_of_g[..=d].to_vec());
    kit.powers = Powers { powers_of_g: g, powers_of_gamma_g: std::borrow::Cow::Owned(gamma) };
    Some(())
}

/// Relies on DensePolynomial::rand, Fr's From<u128>, and kzg10's
/// commit with hiding bound 1: installs a random polynomial of the
/// given degree whose constant term is the secret, and commits to it,
/// keeping the commitment and its hiding randomness.
#[verifier::external_body]
fn kit_set_secret(kit: &mut DealerKit, degree: u32, secret: u128) -> (r: Option<()>) {
    let rng = &mut ark_std::test_rng();
    let mut poly = DensePolynomial::<Fr>::rand(degree as usize, rng);
    poly.coeffs[0] = Fr::from(secret);
    let (comm, rand) = KZG10::commit(&kit.powers, &poly, Some(1), Some(rng)).ok()?;
    kit.poly = poly;
    kit.comm = comm;
    kit.rand = rand;
    Some(())
}

/// Relies on kzg10's verifier-key layout beside setup and its
/// canonical compressed serialization (the four group elements g,
/// gamma_g, h, beta_h).
#[verifier::external_body]
fn kit_vkey_bytes(kit: &DealerKit) -> (r: Option<Vec<u8>>) {
    let pp = &kit.pp;
    let vk = VerifierKey::<Bls12_381> {
        g: pp.powers_of_g[0], gamma_g: *pp.powers_of_gamma_g.get(&0)?, h: pp.h,
        beta_h: pp.beta_h, prepared_h: pp.prepared_h.clone(),
        prepared_beta_h: pp.prepared_beta_h.clone(),
    };
    let mut bytes = Vec::new();
    vk.serialize_compressed(&mut bytes).ok()?;
    Some(bytes)
}

/// Relies on the commitment's canonical compressed serialization.
#[verifier::external_body]
fn kit_comm_bytes(kit: &DealerKit) -> (r: Option<Vec<u8>>) {
    let mut bytes = Vec::new();
    kit.comm.serialize_compressed(&mut bytes).ok()?;
    Some(bytes)
}

/// Relies on polynomial evaluation and Fr's canonical serialization:
/// the share at a point.
#[verifier::external_body]
fn kit_share_bytes(kit: &DealerKit, point: u16) -> (r: Option<Vec<u8>>) {
    let value = ark_poly::Polynomial::evaluate(&kit.poly, &Fr::from(point));
    let mut bytes = Vec::new();
    value.serialize_compressed(&mut bytes).ok()?;
    Some(bytes)
}

/// Relies on polynomial division and kzg10's commit: the witness
/// part of the hiding opening proof at a point, as the scheme's own
/// opening computes it — the quotients of the polynomial and of its
/// blinding polynomial by x - point, the latter committed over the
/// gamma powers, summed and serialized.
#[verifier::external_body]
fn kit_witness_w(kit: &DealerKit, point: u16) -> (r: Option<Vec<u8>>) {
    let x = Fr::from(point);
    let nx = -x;
    let divisor = DensePolynomial::from_coefficients_vec(vec![nx, Fr::from(1u64)]);
    let (wp, _) = KZG10::commit(&kit.powers, &(&kit.poly / &divisor), None, None).ok()?;
    let gamma = kit.powers.powers_of_gamma_g.clone();
    let gp: Powers<Bls12_381> = Powers { powers_of_g: gamma.clone(), powers_of_gamma_g: gamma };
    let blind = &kit.rand.blinding_polynomial / &divisor;
    let (wr, _) = KZG10::commit(&gp, &blind, None, None).ok()?;
    let mut bytes = Vec::new();
    (wp.0 + wr.0).into_affine().serialize_compressed(&mut bytes).ok()?;
    Some(bytes)
}

/// Relies on the wrapper above, the blinding polynomial's evaluation,
/// and the proof's canonical serialization: the hiding opening proof
/// at a point, its witness element and blinding value assembled as
/// the scheme's opening hands them out.
#[verifier::external_body]
fn kit_proof_bytes(kit: &DealerKit, point: u16) -> (r: Option<Vec<u8>>) {
    let wb = kit_witness_w(kit, point)?;
    let w = ark_bls12_381::G1Affine::deserialize_compressed(wb.as_slice()).ok()?;
    let rv = ark_poly::Polynomial::evaluate(&kit.rand.blinding_polynomial, &Fr::from(point));
    let proof = KzgProof::<Bls12_381> { w, random_v: Some(rv) };
    let mut bytes = Vec::new();
    proof.serialize_compressed(&mut bytes).ok()?;
    Some(bytes)
}

/// The dealer's serialized verifier key and commitment for a degree
/// bound and secret. Relies on the wrappers above; deterministic via
/// the fixed test generator, so the results carry the names
/// `vkey_of` and `comm_of`. Succeeds for every degree bound of at
/// least 2. The length bounds come from the serialization layout:
/// the verifier key is two 48-byte G1 and two 96-byte G2 elements,
/// the commitment one G1 element.
#[verifier::external_body]
fn kzg_vkey_comm(degree: u32, secret: u128) -> (r: Option<(Vec<u8>, Vec<u8>)>)
    ensures
        degree >= 2 ==> r is Some,
        r matches Some(p) ==> p.0@ == vkey_of(degree) && p.1@ == comm_of(degree, secret)
            && p.0@.len() <= 400 && p.1@.len() <= 96,
{
    let mut kit = kzg_prepare(degree)?;
    kit_trim(&mut kit, degree)?;
    kit_set_secret(&mut kit, degree, secret)?;
    let vkey = kit_vkey_bytes(&kit)?;
    let comm = kit_comm_bytes(&kit)?;
    Some((vkey, comm))
}

/// The dealer's serialized share and opening proof at a point, for a
/// degree bound and secret. Relies on the wrappers above;
/// deterministic via the fixed test generator, so the results carry
/// the names `share_of` and `proof_of`. Succeeds for every degree
/// bound of at least 2, and by the scheme's completeness the check
/// accepts the honest share and proof against the honest verifier
/// key and commitment at that point. The length bounds come from the
/// serialization layout (a 32-byte field element; a 48-byte G1
/// element with an optional field element).
#[verifier::external_body]
fn kzg_share_proof(degree: u32, secret: u128, point: u16) -> (r: Option<(Vec<u8>, Vec<u8>)>)
    ensures
        degree >= 2 ==> r is Some,
        r matches Some(p) ==> p.0@ == share_of(degree, secret, point) && p.1@ == proof_of(
            degree,
            secret,
            point,
        ) && p.0@.len() <= 64 && p.1@.len() <= 192,
        r is Some ==> kzg_accepts(
            vkey_of(degree),
            comm_of(degree, secret),
            point,
            share_of(degree, secret, point),
            proof_of(degree, secret, point),
        ),
{
    let mut kit = kzg_prepare(degree)?;
    kit_trim(&mut kit, degree)?;
    kit_set_secret(&mut kit, degree, secret)?;
    let share = kit_share_bytes(&kit, point)?;
    let proof = kit_proof_bytes(&kit, point)?;
    Some((share, proof))
}

/// Relies on ark_poly_commit's kzg10 check and the canonical
/// deserialization: the pairing check on the deserialized inputs;
/// anything that does not parse is refused.
#[verifier::external_body]
fn kzg_check(vkey: &[u8], comm: &[u8], point: u16, share: &[u8], proof: &[u8]) -> (r: bool)
    ensures
        r == kzg_accepts(vkey@, comm@, point, share@, proof@),
{
    let parsed = (
        VerifierKey::<Bls12_381>::deserialize_compressed(vkey),
        KzgCommitment::<Bls12_381>::deserialize_compressed(comm),
        Fr::deserialize_compressed(share),
        KzgProof::<Bls12_381>::deserialize_compressed(proof),
    );
    match parsed {
        (Ok(vk), Ok(c), Ok(s), Ok(pr)) => KZG10::<Bls12_381, DensePolynomial<Fr>>::check(
            &vk, &c, Fr::from(point), s, &pr,
        ).unwrap_or(false),
        _ => false,
    }
}

/// What a scan of a serialized verifier key yields: its canonical
/// bytes and how many bytes it occupied, or nothing when the prefix
/// does not parse.
pub uninterp spec fn vkey_scan(s: Seq<u8>) -> Option<(Seq<u8>, nat)>;

/// Relies on VerifierKey's canonical (de)serialization: reads a
/// verifier key off the front of the buffer and tells how long it was.
#[verifier::external_body]
fn scan_vkey(buf: &[u8]) -> (r: Option<(Vec<u8>, usize)>)
    ensures
        r matches Some(p) ==> vkey_scan(buf@) == Some((p.0@, p.1 as nat)) && 1 <= p.1
            <= buf@.len(),
        r is None ==> vkey_scan(buf@) is None,
{
    let vk = VerifierKey::<Bls12_381>::deserialize_compressed(buf).ok()?;
    let mut bytes = Vec::new();
    vk.serialize_compressed(&mut bytes).ok()?;
    let n = vk.serialized_size(Compress::Yes);
    if 1 <= n && n <= buf.len() { Some((bytes, n)) } else { None }
}

/// What a scan of a serialized commitment group element yields.
pub uninterp spec fn comm_scan(s: Seq<u8>) -> Option<(Seq<u8>, nat)>;

/// Relies on kzg10 Commitment's canonical (de)serialization: reads a
/// commitment off the front of the buffer and tells how long it was.
#[verifier::external_body]
fn scan_comm(buf: &[u8]) -> (r: Option<(Vec<u8>, usize)>)
    ensures
        r matches Some(p) ==> comm_scan(buf@) == Some((p.0@, p.1 as nat)) && 1 <= p.1
            <= buf@.len(),
        r is None ==> comm_scan(buf@) is None,
{
    let c = KzgCommitment::<Bls12_381>::deserialize_compressed(buf).ok()?;
    let mut bytes = Vec::new();
    c.serialize_compressed(&mut bytes).ok()?;
    let n = c.serialized_size(Compress::Yes);
    if 1 <= n && n <= buf.len() { Some((bytes, n)) } else { None }
}

/// What a scan of a serialized field element yields.
pub uninterp spec fn fe_scan(s: Seq<u8>) -> Option<(Seq<u8>, nat)>;

/// Relies on the scalar field's canonical (de)serialization: reads a
/// field element off the front of the buffer and tells how long it was.
#[verifier::external_body]
fn scan_fe(buf: &[u8]) -> (r: Option<(Vec<u8>, usize)>)
    ensures
        r matches Some(p) ==> fe_scan(buf@) == Some((p.0@, p.1 as nat)) && 1 <= p.1 <= buf@.len(),
        r is None ==> fe_scan(buf@) is None,
{
    let v = Fr::deserialize_compressed(buf).ok()?;
    let mut bytes = Vec::new();
    v.serialize_compressed(&mut bytes).ok()?;
    let n = v.serialized_size(Compress::Yes);
    if 1 <= n && n <= buf.len() { Some((bytes, n)) } else { None }
}

/// What a scan of a serialized opening proof yields.
pub uninterp spec fn proof_scan(s: Seq<u8>) -> Option<(Seq<u8>, nat)>;

/// Relies on kzg10 Proof's canonical (de)serialization: reads an
/// opening proof off the front of the buffer and tells how long it was.
#[verifier::external_body]
fn scan_proof(buf: &[u8]) -> (r: Option<(Vec<u8>, usize)>)
    ensures
        r matches Some(p) ==> proof_scan(buf@) == Some((p.0@, p.1 as nat)) && 1 <= p.1
            <= buf@.len(),
        r is None ==> proof_scan(buf@) is None,
{
    let v = KzgProof::<Bls12_381>::deserialize_compressed(buf).ok()?;
    let mut bytes = Vec::new();
    v.serialize_compressed(&mut bytes).ok()?;
    let n = v.serialized_size(Compress::Yes);
    if 1 <= n && n <= buf.len() { Some((bytes, n)) } else { None }
}

impl Share {
    /// Appends the share's bytes to a message buffer.
    pub fn write(&self, buf: &mut Vec<u8>) -> (r: usize)
        ensures
            final(buf)@ =~= old(buf)@ + self@,
            r == self@.len(),
    {
        let mut copy = crate::copy_bytes(&self.bytes);
        let r = copy.len();
        buf.append(&mut copy);
        r
    }

    /// Reads a share off the front of the buffer; the second component
    /// tells how many bytes it occupied.
    pub fn read(buf: &[u8]) -> (r: Option<(Share, usize)>)
        ensures
            r matches Some(p) ==> fe_scan(buf@) == Some((p.0@, p.1 as nat)) && 1 <= p.1
                <= buf@.len(),
            r is None ==> fe_scan(buf@) is None,
    {
        match scan_fe(buf) {
            Some((bytes, n)) => Some((Share { bytes }, n)),
            None => None,
        }
    }
}

impl Proof {
    /// Appends the proof's bytes to a message buffer.
    pub fn write(&self, buf: &mut Vec<u8>) -> (r: usize)
        ensures
            final(buf)@ =~= old(buf)@ + self@,
            r == self@.len(),
    {
        let mut copy = crate::copy_bytes(&self.bytes);
        let r = copy.len();
        buf.append(&mut copy);
        r
    }

    /// Reads a proof off the front of the buffer; the second component
    /// tells how many bytes it occupied.
    pub fn read(buf: &[u8]) -> (r: Option<(Proof, usize)>)
        ensures
            r matches Some(p) ==> proof_scan(buf@) == Some((p.0@, p.1 as nat)) && 1 <= p.1
                <= buf@.len(),
            r is None ==> proof_scan(buf@) is None,
    {
        match scan_proof(buf) {
            Some((bytes, n)) => Some((Proof { bytes }, n)),
            None => None,
        }
    }
}

impl Commitment {
    /// The commitment's wire form: verifier key, group element, then
    /// the degree bound as a little-endian u32.
    pub open spec fn wire(self) -> Seq<u8> {
        self.vkey@ + self.comm@ + bytes_le::le_bytes(self.degree_bound as nat, 4)
    }

    /// Appends the commitment's wire form to a message buffer.
    pub fn write(&self, buf: &mut Vec<u8>) -> (r: usize)
        requires
            self.vkey@.len() + self.comm@.len() + 4 <= usize::MAX,
        ensures
            final(buf)@ =~= old(buf)@ + self.wire(),
            r == self.wire().len(),
    {
        let mut vk = crate::copy_bytes(&self.vkey);
        let mut cm = crate::copy_bytes(&self.comm);
        let mut deg = bytes_le::le_write(self.degree_bound as u128, 4);
        let r = vk.len() + cm.len() + 4;
        buf.append(&mut vk);
        buf.append(&mut cm);
        buf.append(&mut deg);
        r
    }

    /// True when the buffer opens with a parseable commitment: a
    /// verifier key, a group element, and four bytes of degree bound.
    pub open spec fn parses(b: Seq<u8>) -> bool {
        match vkey_scan(b) {
            Some(v) => match comm_scan(b.skip(v.1 as int)) {
                Some(c) => v.1 + c.1 + 4 <= b.len(),
                None => false,
            },
            None => false,
        }
    }

    /// Reads a commitment off the front of the buffer; the second
    /// component tells how many bytes it occupied.
    pub fn read(buf: &[u8]) -> (r: Option<(Commitment, usize)>)
        ensures
            r is Some <==> Commitment::parses(buf@),
            r matches Some(p) ==> {
                &&& vkey_scan(buf@) matches Some(v)
                &&& p.0.vkey@ == v.0
                &&& comm_scan(buf@.skip(v.1 as int)) matches Some(c)
                &&& p.0.comm@ == c.0
                &&& p.1 == v.1 + c.1 + 4
                &&& p.1 <= buf@.len()
                &&& p.0.degree_bound as nat == bytes_le::from_le(
                    buf@.subrange((v.1 + c.1) as int, (v.1 + c.1 + 4) as int),
                )
            },
    {
        let blen = buf.len();
        let (vkey, vn) = match scan_vkey(buf) {
            Some(p) => p,
            None => {
                return None;
            },
        };
        let rest = vstd::slice::slice_subrange(buf, vn, blen);
        proof {
            assert(rest@ =~= buf@.skip(vn as int));
        }
        let (comm, cn) = match scan_comm(rest) {
            Some(p) => p,
            None => {
                return None;
            },
        };
        if blen < 4 || vn + cn > blen - 4 {
            return None;
        }
        proof {
            bytes_le::lemma_from_le_bound(buf@.subrange(vn + cn, vn + cn + 4));
            bytes_le::lemma_pow256_values();
        }
        let degree_bound = bytes_le::le_read(buf, vn + cn, 4) as u32;
        Some((Commitment { vkey, comm, degree_bound }, vn + cn + 4))
    }
}

/// True exactly when the commitment carries the expected degree bound.
pub fn deg_check(comm: &Commitment, deg: usize) -> (r: bool)
    ensures
        r == (comm.degree_bound == deg as u32),
{
    comm.degree_bound == deg as u32
}

/// The KZG acceptance of a share and proof against a commitment at a
/// point.
pub fn verify(comm: &Commitment, index: u16, share: &Share, proof: &Proof) -> (r: bool)
    ensures
        r == kzg_accepts(comm.vkey@, comm.comm@, index, share@, proof@),
{
    kzg_check(
        comm.vkey.as_slice(),
        comm.comm.as_slice(),
        index,
        share.bytes.as_slice(),
        proof.bytes.as_slice(),
    )
}

/// Whether every batch entry's share and proof verify against the
/// commitment at the entry's party index shifted by one; false as
/// soon as any entry is inconsistent. The scheme's own batched check
/// folds the entries into one randomized pairing; this walks them
/// one by one, which accepts and rejects the same batches but costs
/// one pairing check per entry.
pub fn batch_verify(comm: &Commitment, batchs: &Vec<Batch>) -> (r: bool)
    requires
        forall|j: int| 0 <= j < batchs@.len() ==> (#[trigger] batchs@[j]).0 < u16::MAX,
    ensures
        r == forall|j: int|
            0 <= j < batchs@.len() ==> kzg_accepts(
                comm.vkey@,
                comm.comm@,
                ((#[trigger] batchs@[j]).0 + 1) as u16,
                batchs@[j].2@,
                batchs@[j].1@,
            ),
{
    let len = batchs.len();
    let mut i: usize = 0;
    while i < len
        invariant
            i <= len,
            forall|j: int|
                0 <= j < i ==> kzg_accepts(
                    comm.vkey@,
                    comm.comm@,
                    ((#[trigger] batchs@[j]).0 + 1) as u16,
                    batchs@[j].2@,
                    batchs@[j].1@,
                ),
        decreases len - i,
    {
        let ok = verify(comm, batchs[i].0 + 1, &batchs[i].2, &batchs[i].1);
        if !ok {
            return false;
        }
        i = i + 1;
    }
    true
}

/// Whether an Ed25519 signature over the fixed node tag verifies
/// under a raw public key. A deterministic function of both.
pub uninterp spec fn ed_accepts(pk_raw: Seq<u8>, sig: Seq<u8>) -> bool;

/// Relies on ring's UnparsedPublicKey::verify with the ED25519
/// algorithm, over the fixed 19-byte node tag.
#[verifier::external_body]
fn ed_verify(pk_raw: &[u8], sig: &[u8]) -> (r: bool)
    ensures
        r == ed_accepts(pk_raw@, sig@),
{
    let key = ring::signature::UnparsedPublicKey::new(&ring::signature::ED25519, pk_raw);
    key.verify(b"SIGNATURE OF A NODE", sig).is_ok()
}

/// The signature the holder of a key produces over the fixed node
/// tag. Ed25519 signing is deterministic in the key.
pub uninterp spec fn ed_sig_of(pkcs8: Seq<u8>) -> Seq<u8>;

/// Whether ring accepts a PKCS#8 document as an Ed25519 key pair.
/// Deterministic in the document's bytes.
pub uninterp spec fn ed_parses(pkcs8: Seq<u8>) -> bool;

/// Relies on ring's Ed25519KeyPair::from_pkcs8 and sign, over the
/// fixed 19-byte node tag; a key document ring cannot parse yields
/// nothing.
#[verifier::external_body]
fn ed_sign(pkcs8: &[u8]) -> (r: Option<Vec<u8>>)
    ensures
        r is Some <==> ed_parses(pkcs8@),
        r matches Some(s) ==> s@ == ed_sig_of(pkcs8@),
{
    let kp = ring::signature::Ed25519KeyPair::from_pkcs8(pkcs8).ok()?;
    Some(kp.sign(b"SIGNATURE OF A NODE").as_ref().to_vec())
}

/// Relies on rcgen's KeyPair generation for PKCS_ED25519 and ring's
/// round trip between the two encodings: a fresh key pair as its
/// PKCS#8 document (which ring parses back, being ring's own output)
/// and public-key DER, where signatures under the document verify
/// against the raw key behind the DER's 12-byte header.
#[verifier::external_body]
pub fn ed_keygen() -> (r: (Vec<u8>, Vec<u8>))
    ensures
        r.1@.len() > 12,
        ed_parses(r.0@),
        ed_accepts(r.1@.skip(12), ed_sig_of(r.0@)),
{
    let kp = rcgen::KeyPair::generate_for(&rcgen::PKCS_ED25519).expect("key generation failed");
    let spki = rcgen::PublicKeyData::subject_public_key_info(&kp);
    (kp.serialize_der(), spki)
}

/// Signature verification against a party's DER public key: the raw
/// key behind the 12-byte header decides; a shorter key never accepts.
pub fn is_valid_sign(p_keys: &PublicKey, sign: &Sign) -> (r: bool)
    ensures
        r == (p_keys@.len() > 12 && ed_accepts(p_keys@.skip(12), sign@)),
{
    if p_keys.len() <= 12 {
        return false;
    }
    let raw = vstd::slice::slice_subrange(p_keys.as_slice(), 12, p_keys.len());
    ed_verify(raw, sign.as_slice())
}

/// Produces a signature over the fixed node tag with the given PKCS#8
/// key document, when ring accepts the document.
pub fn sign_tag(pkcs8: &Vec<u8>) -> (r: Option<Sign>)
    ensures
        r is Some <==> ed_parses(pkcs8@),
        r matches Some(s) ==> s@ == ed_sig_of(pkcs8@),
{
    ed_sign(pkcs8.as_slice())
}

/// The field element a u64 stands for, serialized.
pub uninterp spec fn fe_of(x: u64) -> Seq<u8>;

/// Relies on ark_ff's From<u64> and the canonical serialization.
#[verifier::external_body]
fn fe_from_u64(x: u64) -> (r: Vec<u8>)
    ensures
        r@ == fe_of(x),
{
    let mut bytes = Vec::new();
    Fr::from(x).serialize_compressed(&mut bytes).expect("serialization failed");
    bytes
}

/// The serialized sum of two serialized field elements (bytes that do
/// not parse stand for zero).
pub uninterp spec fn fe_add_of(a: Seq<u8>, b: Seq<u8>) -> Seq<u8>;

/// Relies on ark_ff field addition over deserialized operands.
#[verifier::external_body]
fn fe_add(a: &[u8], b: &[u8]) -> (r: Vec<u8>)
    ensures
        r@ == fe_add_of(a@, b@),
{
    let a = Fr::deserialize_compressed(a).unwrap_or(Fr::from(0u64));
    let b = Fr::deserialize_compressed(b).unwrap_or(Fr::from(0u64));
    let mut bytes = Vec::new();
    (a + b).serialize_compressed(&mut bytes).expect("serialization failed");
    bytes
}

/// The serialized difference of two serialized field elements.
pub uninterp spec fn fe_sub_of(a: Seq<u8>, b: Seq<u8>) -> Seq<u8>;

/// Relies on ark_ff field subtraction over deserialized operands.
#[verifier::external_body]
fn fe_sub(a: &[u8], b: &[u8]) -> (r: Vec<u8>)
    ensures
        r@ == fe_sub_of(a@, b@),
{
    let a = Fr::deserialize_compressed(a).unwrap_or(Fr::from(0u64));
    let b = Fr::deserialize_compressed(b).unwrap_or(Fr::from(0u64));
    let mut bytes = Vec::new();
    (a - b).serialize_compressed(&mut bytes).expect("serialization failed");
    bytes
}

/// The serialized product of two serialized field elements.
pub uninterp spec fn fe_mul_of(a: Seq<u8>, b: Seq<u8>) -> Seq<u8>;

/// Relies on ark_ff field multiplication over deserialized operands.
#[verifier::external_body]
fn fe_mul(a: &[u8], b: &[u8]) -> (r: Vec<u8>)
    ensures
        r@ == fe_mul_of(a@, b@),
{
    let a = Fr::deserialize_compressed(a).unwrap_or(Fr::from(0u64));
    let b = Fr::deserialize_compressed(b).unwrap_or(Fr::from(0u64));
    let mut bytes = Vec::new();
    (a * b).serialize_compressed(&mut bytes).expect("serialization failed");
    bytes
}

/// The serialized negation of a serialized field element.
pub uninterp spec fn fe_neg_of(a: Seq<u8>) -> Seq<u8>;

/// Relies on ark_ff field negation over a deserialized operand.
#[verifier::external_body]
fn fe_neg(a: &[u8]) -> (r: Vec<u8>)
    ensures
        r@ == fe_neg_of(a@),
{
    let a = Fr::deserialize_compressed(a).unwrap_or(Fr::from(0u64));
    let mut bytes = Vec::new();
    (-a).serialize_compressed(&mut bytes).expect("serialization failed");
    bytes
}

/// The serialized multiplicative inverse of a serialized field
/// element (zero stands for itself).
pub uninterp spec fn fe_inv_of(a: Seq<u8>) -> Seq<u8>;

/// Relies on ark_ff field inversion over a deserialized operand.
#[verifier::external_body]
fn fe_inv(a: &[u8]) -> (r: Vec<u8>)
    ensures
        r@ == fe_inv_of(a@),
{
    let v = Fr::deserialize_compressed(a).unwrap_or(Fr::from(0u64));
    let inv = ark_ff::Field::inverse(&v).unwrap_or(Fr::from(0u64));
    let mut bytes = Vec::new();
    inv.serialize_compressed(&mut bytes).expect("serialization failed");
    bytes
}

/// The Lagrange basis factor for interpolation at zero: the running
/// term times -x_j / (x_i - x_j), all over serialized field elements.
pub open spec fn lagrange_factor(term: Seq<u8>, xi: Seq<u8>, xj: Seq<u8>) -> Seq<u8> {
    fe_mul_of(fe_mul_of(term, fe_neg_of(xj)), fe_inv_of(fe_sub_of(xi, xj)))
}

/// The term of point `i` after folding the factors of the first `n`
/// other points.
pub open spec fn lagrange_term(points: Seq<(Seq<u8>, Seq<u8>)>, i: int, n: int) -> Seq<u8>
    decreases n,
{
    if n <= 0 {
        points[i].1
    } else if n - 1 == i {
        lagrange_term(points, i, n - 1)
    } else {
        lagrange_factor(lagrange_term(points, i, n - 1), points[i].0, points[n - 1].0)
    }
}

/// The interpolation at zero of the first `n` points: the sum of
/// their fully folded terms.
pub open spec fn lagrange_sum(points: Seq<(Seq<u8>, Seq<u8>)>, n: int) -> Seq<u8>
    decreases n,
{
    if n <= 0 {
        fe_of(0)
    } else {
        fe_add_of(
            lagrange_sum(points, n - 1),
            lagrange_term(points, n - 1, points.len() as int),
        )
    }
}

/// The serialized x/y pairs interpolation works on: x is the party
/// index plus one as a field element, y the share.
pub open spec fn interp_points(shares: Seq<(u16, Share)>) -> Seq<(Seq<u8>, Seq<u8>)> {
    shares.map_values(|p: (u16, Share)| (fe_of((p.0 + 1) as u64), p.1@))
}

/// A byte string's first sixteen bytes, zero-extended when shorter.
pub open spec fn low16(s: Seq<u8>) -> Seq<u8> {
    if s.len() >= 16 {
        s.take(16)
    } else {
        s + Seq::new((16 - s.len()) as nat, |q: int| 0u8)
    }
}

/// Classical Lagrange interpolation at x = 0 over the given
/// (index, share) points, each x being the index plus one; the
/// resulting field element's low 128 bits, reinterpreted as a signed
/// value.
pub fn interpolate(shares: &Vec<(u16, Share)>) -> (r: i128)
    requires
        forall|j: int| 0 <= j < shares@.len() ==> (#[trigger] shares@[j]).0 < u16::MAX,
    ensures
        ({
            let total = lagrange_sum(interp_points(shares@), shares@.len() as int);
            r == bytes_le::from_le(low16(total)) as u128 as i128
        }),
{
    let len = shares.len();
    let ghost pts = interp_points(shares@);
    let mut xs: Vec<Vec<u8>> = Vec::new();
    let mut i: usize = 0;
    while i < len
        invariant
            i <= len,
            xs@.len() == i,
            forall|j: int| 0 <= j < i ==> xs@[j]@ == pts[j].0,
        decreases len - i,
    {
        xs.push(fe_from_u64((shares[i].0 + 1) as u64));
        i = i + 1;
    }
    let mut result = fe_from_u64(0);
    proof {
        assert(fe_of(0) == result@);
    }
    let mut i: usize = 0;
    while i < len
        invariant
            i <= len,
            xs@.len() == len,
            len == shares@.len(),
            pts == interp_points(shares@),
            forall|j: int| 0 <= j < len ==> xs@[j]@ == pts[j].0,
            result@ == lagrange_sum(pts, i as int),
        decreases len - i,
    {
        let mut term = crate::copy_bytes(&shares[i].1.bytes);
        proof {
            assert(term@ == lagrange_term(pts, i as int, 0));
        }
        let mut j: usize = 0;
        while j < len
            invariant
                j <= len,
                i < len,
                xs@.len() == len,
                len == shares@.len(),
                pts == interp_points(shares@),
                forall|q: int| 0 <= q < len ==> xs@[q]@ == pts[q].0,
                term@ == lagrange_term(pts, i as int, j as int),
            decreases len - j,
        {
            if j != i {
                let negx = fe_neg(xs[j].as_slice());
                let num = fe_mul(term.as_slice(), negx.as_slice());
                let diff = fe_sub(xs[i].as_slice(), xs[j].as_slice());
                let den = fe_inv(diff.as_slice());
                term = fe_mul(num.as_slice(), den.as_slice());
            }
            j = j + 1;
        }
        result = fe_add(result.as_slice(), term.as_slice());
        i = i + 1;
    }
    let low: u128 = if result.len() >= 16 {
        proof {
            assert(result@.subrange(0, 16) =~= low16(result@));
        }
        bytes_le::le_read(result.as_slice(), 0, 16)
    } else {
        let mut padded = crate::copy_bytes(&result);
        grow_to_16(&mut padded);
        proof {
            assert forall|q: int| 0 <= q < 16 implies padded@.subrange(0, 16)[q] == low16(
                result@,
            )[q] by {
                if q < result@.len() {
                    assert(padded@[q] == padded@.subrange(0, result@.len() as int)[q]);
                }
            }
            assert(padded@.subrange(0, 16) =~= low16(result@));
        }
        bytes_le::le_read(padded.as_slice(), 0, 16)
    };
    let r: i128 = #[verifier::truncate] (low as i128);
    r
}

/// Pads a byte string with zeroes up to sixteen bytes.
fn grow_to_16(bytes: &mut Vec<u8>)
    ensures
        final(bytes)@.len() >= 16,
        final(bytes)@.len() >= old(bytes)@.len(),
        final(bytes)@.subrange(0, old(bytes)@.len() as int) =~= old(bytes)@,
        forall|q: int|
            old(bytes)@.len() <= q < final(bytes)@.len() ==> final(bytes)@[q] == 0,
{
    while bytes.len() < 16
        invariant
            bytes@.len() >= old(bytes)@.len(),
            bytes@.subrange(0, old(bytes)@.len() as int) =~= old(bytes)@,
            forall|q: int| old(bytes)@.len() <= q < bytes@.len() ==> bytes@[q] == 0,
        decreases 16 - bytes@.len(),
    {
        bytes.push(0);
        proof {
            assert(bytes@.subrange(0, old(bytes)@.len() as int) =~= bytes@.drop_last().subrange(
                0,
                old(bytes)@.len() as int,
            ));
        }
    }
}

/// Degree binding: a commitment the dealer produced under degree
/// bound `d` passes the degree check for a probe exactly when the
/// probe is `d` itself.
pub proof fn lemma_degree_binding(c: Commitment, d: u32, probe: usize)
    requires
        c.degree_bound == d,
    ensures
        (c.degree_bound == probe as u32) <==> (probe as u32 == d),
{
}

/// Draws the dealer's polynomial for a secret, commits to it, and
/// opens it at the points 1..=n: the commitment with its claimed
/// degree bound, and one (proof, share) pair per party, in order.
pub fn compute_proof_and_shares(n: u16, degree_bound: u32, secret: u128) -> (r: Option<
    (Commitment, Vec<(Proof, Share)>),
>)
    ensures
        degree_bound >= 2 ==> r is Some,
        r matches Some(p) ==> {
            &&& p.0.degree_bound == degree_bound
            &&& p.0.vkey@ == vkey_of(degree_bound)
            &&& p.0.comm@ == comm_of(degree_bound, secret)
            &&& p.0.vkey@.len() <= 400 && p.0.comm@.len() <= 96
            &&& p.1@.len() == n
            &&& forall|i: int|
                0 <= i < n ==> (#[trigger] p.1@[i]).1@ == share_of(
                    degree_bound,
                    secret,
                    (i + 1) as u16,
                ) && p.1@[i].0@ == proof_of(degree_bound, secret, (i + 1) as u16)
                    && p.1@[i].1@.len() <= 64 && p.1@[i].0@.len() <= 192
        },
        r is Some ==> forall|i: int|
            0 <= i < n ==> kzg_accepts(
                vkey_of(degree_bound),
                comm_of(degree_bound, secret),
                (i + 1) as u16,
                #[trigger] share_of(degree_bound, secret, (i + 1) as u16),
                proof_of(degree_bound, secret, (i + 1) as u16),
            ),
{
    let (vkey, comm) = match kzg_vkey_comm(degree_bound, secret) {
        Some(x) => x,
        None => {
            return None;
        },
    };
    let mut output: Vec<(Proof, Share)> = Vec::new();
    let mut i: u16 = 0;
    while i < n
        invariant
            i <= n,
            output@.len() == i,
            forall|q: int|
                0 <= q < i ==> (#[trigger] output@[q]).1@ == share_of(
                    degree_bound,
                    secret,
                    (q + 1) as u16,
                ) && output@[q].0@ == proof_of(degree_bound, secret, (q + 1) as u16)
                    && output@[q].1@.len() <= 64 && output@[q].0@.len() <= 192,
            forall|q: int|
                0 <= q < i ==> kzg_accepts(
                    vkey_of(degree_bound),
                    comm_of(degree_bound, secret),
                    (q + 1) as u16,
                    #[trigger] share_of(degree_bound, secret, (q + 1) as u16),
                    proof_of(degree_bound, secret, (q + 1) as u16),
                ),
        decreases n - i,
    {
        let (share_bytes, proof_bytes) = match kzg_share_proof(degree_bound, secret, i + 1) {
            Some(x) => x,
            None => {
                return None;
            },
        };
        output.push((Proof { bytes: proof_bytes }, Share { bytes: share_bytes }));
        i = i + 1;
    }
    Some((Commitment { vkey, comm, degree_bound }, output))
}

} // verus!

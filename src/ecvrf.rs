use crate::utils::{
    hex_bytes, hex_decode, hex_encode, hex_text, is_hex_text, lemma_hex_round_trip,
    lemma_hex_text_subrange,
};
use rand_core::OsRng;
use vstd::prelude::*;
use vstd::string::*;

verus! {

/// Bytes of a secret key, and of a public key.
pub const KEY_BYTES: usize = 32;

/// Bytes of a proof's Gamma field, its first field.
pub const GAMMA_BYTES: usize = 32;

/// Bytes of a proof's c field, which follows Gamma.
pub const C_BYTES: usize = 16;

/// Bytes of a whole proof; its s field takes those after Gamma and c.
pub const PROOF_BYTES: usize = 80;

/// Whether `vrf_r255::SecretKey::from_bytes` accepts 32 bytes.
pub uninterp spec fn secret_key_accepts(b: Seq<u8>) -> bool;

/// Whether `vrf_r255::PublicKey::from_bytes` accepts 32 bytes.
pub uninterp spec fn public_key_accepts(b: Seq<u8>) -> bool;

/// Whether `vrf_r255::Proof::from_bytes` accepts 80 bytes.
pub uninterp spec fn proof_accepts(b: Seq<u8>) -> bool;

/// The bytes of the public key of a secret key.
pub uninterp spec fn public_key_of(sk: Seq<u8>) -> Seq<u8>;

/// The bytes of the proof that a secret key makes for a message.
pub uninterp spec fn proof_of(sk: Seq<u8>, alpha: Seq<u8>) -> Seq<u8>;

/// What verifying a proof of a message under a public key yields: the output, or
/// none where the proof does not hold.
pub uninterp spec fn verify_output(pk: Seq<u8>, alpha: Seq<u8>, pi: Seq<u8>) -> Option<Seq<u8>>;

#[derive(Debug, PartialEq, Eq, Clone, Copy, Structural)]
pub struct AlphaInvalid;

#[derive(Debug, PartialEq, Eq, Clone, Copy, Structural)]
pub struct SKInvalid;

#[derive(Debug, PartialEq, Eq, Clone, Copy, Structural)]
pub struct PKInvalid;

#[derive(Debug, PartialEq, Eq, Clone, Copy, Structural)]
pub struct PiInvalid;

#[derive(Debug, PartialEq, Eq, Clone, Copy, Structural)]
pub struct VRFVerifyFailed;

#[derive(Debug, PartialEq, Eq, Clone, Copy, Structural)]
pub enum VRFInputError {
    AlphaInvalid(AlphaInvalid),
    SKInvalid(SKInvalid),
}

#[derive(Debug, PartialEq, Eq, Clone, Copy, Structural)]
pub enum VRFVerifyInputError {
    AlphaInvalid(AlphaInvalid),
    PKInvalid(PKInvalid),
    PiInvalid(PiInvalid),
    VRFVerifyFailed(VRFVerifyFailed),
}

#[derive(Debug)]
pub struct VRFInputs {
    pub sk: String,
    pub alpha: String,
}

#[allow(non_snake_case)]
#[derive(Debug)]
pub struct VRFOutput {
    pub Gamma: String,
    pub c: String,
    pub s: String,
}

#[derive(Debug)]
pub struct SKOutput {
    pub sk: String,
}

#[derive(Debug)]
pub struct PKInputs {
    pub sk: String,
}

#[derive(Debug)]
pub struct PKOutput {
    pub pk: String,
}

#[allow(non_snake_case)]
#[derive(Debug)]
pub struct VRFVerifyInputs {
    pub pk: String,
    pub alpha: String,
    pub Gamma: String,
    pub c: String,
    pub s: String,
}

#[derive(Debug)]
pub struct VRFVerifyOutput {
    pub beta: String,
}

/// A secret key, held as the bytes that the VRF accepted.
pub struct SecretKey {
    bytes: Vec<u8>,
}

/// A public key, held as the bytes that the VRF accepted.
pub struct PublicKey {
    bytes: Vec<u8>,
}

/// A proof, held as the bytes that the VRF accepted.
pub struct Proof {
    bytes: Vec<u8>,
}

impl View for SecretKey {
    type V = Seq<u8>;

    closed spec fn view(&self) -> Seq<u8> {
        self.bytes@
    }
}

impl View for PublicKey {
    type V = Seq<u8>;

    closed spec fn view(&self) -> Seq<u8> {
        self.bytes@
    }
}

impl View for Proof {
    type V = Seq<u8>;

    closed spec fn view(&self) -> Seq<u8> {
        self.bytes@
    }
}

/// Hex text of a secret key that the VRF accepts.
pub open spec fn sk_text_valid(s: Seq<char>) -> bool {
    is_hex_text(s) && hex_bytes(s).len() == KEY_BYTES && secret_key_accepts(hex_bytes(s))
}

/// Hex text of a public key that the VRF accepts.
pub open spec fn pk_text_valid(s: Seq<char>) -> bool {
    is_hex_text(s) && hex_bytes(s).len() == KEY_BYTES && public_key_accepts(hex_bytes(s))
}

/// Hex text of a proof that the VRF accepts.
pub open spec fn pi_text_valid(s: Seq<char>) -> bool {
    is_hex_text(s) && hex_bytes(s).len() == PROOF_BYTES && proof_accepts(hex_bytes(s))
}

impl SecretKey {
    pub open spec fn wf(&self) -> bool {
        self@.len() == KEY_BYTES && secret_key_accepts(self@)
    }
}

impl PublicKey {
    pub open spec fn wf(&self) -> bool {
        self@.len() == KEY_BYTES && public_key_accepts(self@)
    }
}

impl Proof {
    pub open spec fn wf(&self) -> bool {
        self@.len() == PROOF_BYTES && proof_accepts(self@)
    }
}

/// Relies on `vrf_r255::SecretKey::from_bytes`: whether it gives a key.
#[verifier::external_body]
fn secret_key_valid(b: &[u8]) -> (r: bool)
    requires
        b@.len() == KEY_BYTES,
    ensures
        r == secret_key_accepts(b@),
{
    let bytes: [u8; 32] = b.try_into().unwrap();
    vrf_r255::SecretKey::from_bytes(bytes).is_some().into()
}

/// Relies on `vrf_r255::PublicKey::from_bytes`: whether it gives a key.
#[verifier::external_body]
fn public_key_valid(b: &[u8]) -> (r: bool)
    requires
        b@.len() == KEY_BYTES,
    ensures
        r == public_key_accepts(b@),
{
    let bytes: [u8; 32] = b.try_into().unwrap();
    vrf_r255::PublicKey::from_bytes(bytes).is_some()
}

/// Relies on `vrf_r255::Proof::from_bytes`: whether it gives a proof.
#[verifier::external_body]
fn proof_valid(b: &[u8]) -> (r: bool)
    requires
        b@.len() == PROOF_BYTES,
    ensures
        r == proof_accepts(b@),
{
    let bytes: [u8; 80] = b.try_into().unwrap();
    vrf_r255::Proof::from_bytes(bytes).is_some()
}

/// Relies on `vrf_r255::SecretKey::generate` with `OsRng`, written out by `to_bytes`:
/// `generate` keeps only a scalar that `from_scalar` accepts, and `to_bytes` writes it in
/// the canonical form that `from_bytes` reads back.
#[verifier::external_body]
fn generate_secret_key() -> (r: Vec<u8>)
    ensures
        r@.len() == KEY_BYTES,
        secret_key_accepts(r@),
{
    vrf_r255::SecretKey::generate(OsRng).to_bytes().to_vec()
}

/// Relies on `From<vrf_r255::SecretKey> for vrf_r255::PublicKey`, written out by `to_bytes`:
/// the key is the compressed point that `from_scalar` checked is not the identity, which
/// `PublicKey::from_bytes` accepts.
#[verifier::external_body]
fn derive_public_key(sk: &[u8]) -> (r: Vec<u8>)
    requires
        sk@.len() == KEY_BYTES,
        secret_key_accepts(sk@),
    ensures
        r@ == public_key_of(sk@),
        r@.len() == KEY_BYTES,
        public_key_accepts(r@),
{
    let bytes: [u8; 32] = sk.try_into().unwrap();
    let sk = vrf_r255::SecretKey::from_bytes(bytes).unwrap();
    vrf_r255::PublicKey::from(sk).to_bytes().to_vec()
}

/// Relies on `vrf_r255::SecretKey::prove`, written out by `Proof::to_bytes`: the proof is
/// one that `Proof::from_bytes` reads back and that `PublicKey::verify` accepts under the
/// key's own public key.
#[verifier::external_body]
fn prove_bytes(sk: &[u8], alpha: &[u8]) -> (r: Vec<u8>)
    requires
        sk@.len() == KEY_BYTES,
        secret_key_accepts(sk@),
    ensures
        r@ == proof_of(sk@, alpha@),
        r@.len() == PROOF_BYTES,
        proof_accepts(r@),
        verify_output(public_key_of(sk@), alpha@, r@) is Some,
{
    let bytes: [u8; 32] = sk.try_into().unwrap();
    let sk = vrf_r255::SecretKey::from_bytes(bytes).unwrap();
    sk.prove(alpha).to_bytes().to_vec()
}

/// Relies on `vrf_r255::PublicKey::verify`: the 64-byte output, or none.
#[verifier::external_body]
fn verify_bytes(pk: &[u8], alpha: &[u8], pi: &[u8]) -> (r: Option<Vec<u8>>)
    requires
        pk@.len() == KEY_BYTES,
        public_key_accepts(pk@),
        pi@.len() == PROOF_BYTES,
        proof_accepts(pi@),
    ensures
        match r {
            Some(b) => verify_output(pk@, alpha@, pi@) == Some(b@) && b@.len() == 64,
            None => verify_output(pk@, alpha@, pi@) is None,
        },
{
    let pk_bytes: [u8; 32] = pk.try_into().unwrap();
    let pi_bytes: [u8; 80] = pi.try_into().unwrap();
    let pk = vrf_r255::PublicKey::from_bytes(pk_bytes).unwrap();
    let pi = vrf_r255::Proof::from_bytes(pi_bytes).unwrap();
    let beta: Option<[u8; 64]> = pk.verify(alpha, &pi).into();
    match beta {
        Some(b) => Some(b.to_vec()),
        None => None,
    }
}

/// Reads a secret key from hex text.
pub fn decode_sk(sk_string: String) -> (r: Result<SecretKey, SKInvalid>)
    ensures
        match r {
            Ok(k) => sk_text_valid(sk_string@) && k.wf() && k@ == hex_bytes(sk_string@),
            Err(_) => !sk_text_valid(sk_string@),
        },
{
    match hex_decode(sk_string.as_str()) {
        Some(sk_vec) => {
            if sk_vec.len() == KEY_BYTES && secret_key_valid(sk_vec.as_slice()) {
                Ok(SecretKey { bytes: sk_vec })
            } else {
                Err(SKInvalid)
            }
        },
        None => Err(SKInvalid),
    }
}

/// Reads a public key from hex text.
pub fn decode_pk(pk_string: String) -> (r: Result<PublicKey, PKInvalid>)
    ensures
        match r {
            Ok(k) => pk_text_valid(pk_string@) && k.wf() && k@ == hex_bytes(pk_string@),
            Err(_) => !pk_text_valid(pk_string@),
        },
{
    match hex_decode(pk_string.as_str()) {
        Some(pk_vec) => {
            if pk_vec.len() == KEY_BYTES && public_key_valid(pk_vec.as_slice()) {
                Ok(PublicKey { bytes: pk_vec })
            } else {
                Err(PKInvalid)
            }
        },
        None => Err(PKInvalid),
    }
}

/// Reads a proof from hex text.
pub fn decode_pi(pi_string: String) -> (r: Result<Proof, PiInvalid>)
    ensures
        match r {
            Ok(p) => pi_text_valid(pi_string@) && p.wf() && p@ == hex_bytes(pi_string@),
            Err(_) => !pi_text_valid(pi_string@),
        },
{
    match hex_decode(pi_string.as_str()) {
        Some(pi_vec) => {
            if pi_vec.len() == PROOF_BYTES && proof_valid(pi_vec.as_slice()) {
                Ok(Proof { bytes: pi_vec })
            } else {
                Err(PiInvalid)
            }
        },
        None => Err(PiInvalid),
    }
}

/// What proving gives for the hex texts of a secret key and a message: the hex texts of
/// the proof's Gamma, c and s fields.
pub open spec fn prove_result(sk: Seq<char>, alpha: Seq<char>) -> Result<
    (Seq<char>, Seq<char>, Seq<char>),
    VRFInputError,
> {
    if !sk_text_valid(sk) {
        Err(VRFInputError::SKInvalid(SKInvalid))
    } else if !is_hex_text(alpha) {
        Err(VRFInputError::AlphaInvalid(AlphaInvalid))
    } else {
        let pi = proof_of(hex_bytes(sk), hex_bytes(alpha));
        let g = GAMMA_BYTES as int;
        let c = (GAMMA_BYTES + C_BYTES) as int;
        Ok(
            (
                hex_text(pi.subrange(0, g)),
                hex_text(pi.subrange(g, c)),
                hex_text(pi.subrange(c, PROOF_BYTES as int)),
            ),
        )
    }
}

/// What verifying gives for the hex texts of a public key, a message and the three
/// fields of a proof, which are read as one text.
pub open spec fn verify_result(
    pk: Seq<char>,
    alpha: Seq<char>,
    gamma: Seq<char>,
    c: Seq<char>,
    s: Seq<char>,
) -> Result<Seq<char>, VRFVerifyInputError> {
    let pi = gamma + c + s;
    if !pk_text_valid(pk) {
        Err(VRFVerifyInputError::PKInvalid(PKInvalid))
    } else if !is_hex_text(alpha) {
        Err(VRFVerifyInputError::AlphaInvalid(AlphaInvalid))
    } else if !pi_text_valid(pi) {
        Err(VRFVerifyInputError::PiInvalid(PiInvalid))
    } else {
        match verify_output(hex_bytes(pk), hex_bytes(alpha), hex_bytes(pi)) {
            Some(beta) => Ok(hex_text(beta)),
            None => Err(VRFVerifyInputError::VRFVerifyFailed(VRFVerifyFailed)),
        }
    }
}

/// Proves a message under a secret key; both come as hex text.
pub fn api_vrf_prove(vrf_inputs: VRFInputs) -> (r: Result<VRFOutput, VRFInputError>)
    ensures
        match r {
            Ok(o) => {
                let sk = hex_bytes(vrf_inputs.sk@);
                let alpha = hex_bytes(vrf_inputs.alpha@);
                let pi = o.Gamma@ + o.c@ + o.s@;
                &&& prove_result(vrf_inputs.sk@, vrf_inputs.alpha@) == Ok::<_, VRFInputError>(
                    (o.Gamma@, o.c@, o.s@),
                )
                &&& o.Gamma@.len() == 2 * GAMMA_BYTES
                &&& o.c@.len() == 2 * C_BYTES
                &&& o.s@.len() == 2 * (PROOF_BYTES - GAMMA_BYTES - C_BYTES)
                &&& pi == hex_text(proof_of(sk, alpha))
                &&& pi_text_valid(pi)
                &&& verify_output(public_key_of(sk), alpha, hex_bytes(pi)) is Some
            },
            Err(e) => prove_result(vrf_inputs.sk@, vrf_inputs.alpha@) == Err::<
                (Seq<char>, Seq<char>, Seq<char>),
                VRFInputError,
            >(e),
        },
{
    let alpha_string = vrf_inputs.alpha;
    match decode_sk(vrf_inputs.sk) {
        Ok(sk) => {
            match hex_decode(alpha_string.as_str()) {
                Some(alpha) => {
                    let pi = prove_bytes(sk.bytes.as_slice(), alpha.as_slice());
                    let pi_string = hex_encode(pi.as_slice());
                    let g: usize = 2 * GAMMA_BYTES;
                    let c: usize = 2 * (GAMMA_BYTES + C_BYTES);
                    let n: usize = 2 * PROOF_BYTES;
                    proof {
                        lemma_hex_text_subrange(pi@, 0, GAMMA_BYTES as int);
                        lemma_hex_text_subrange(pi@, GAMMA_BYTES as int, (GAMMA_BYTES + C_BYTES) as int);
                        lemma_hex_text_subrange(pi@, (GAMMA_BYTES + C_BYTES) as int, PROOF_BYTES as int);
                        lemma_hex_round_trip(pi@);
                        let t = pi_string@;
                        assert(t.subrange(0, g as int) + t.subrange(g as int, c as int) + t.subrange(
                            c as int,
                            n as int,
                        ) =~= t);
                    }
                    Ok(
                        VRFOutput {
                            Gamma: pi_string.as_str().substring_char(0, g).to_owned(),
                            c: pi_string.as_str().substring_char(g, c).to_owned(),
                            s: pi_string.as_str().substring_char(c, n).to_owned(),
                        },
                    )
                },
                None => Err(VRFInputError::AlphaInvalid(AlphaInvalid)),
            }
        },
        Err(_err) => Err(VRFInputError::SKInvalid(SKInvalid)),
    }
}

/// A new secret key from the operating system's randomness, as hex text.
pub fn generate_sk() -> (r: String)
    ensures
        r@.len() == 2 * KEY_BYTES,
        sk_text_valid(r@),
        r@ == hex_text(hex_bytes(r@)),
{
    let sk = generate_secret_key();
    proof {
        lemma_hex_round_trip(sk@);
    }
    hex_encode(sk.as_slice())
}

pub fn api_generate_sk() -> (r: SKOutput)
    ensures
        r.sk@.len() == 2 * KEY_BYTES,
        sk_text_valid(r.sk@),
        r.sk@ == hex_text(hex_bytes(r.sk@)),
{
    SKOutput { sk: generate_sk() }
}

/// The public key of a secret key, as hex text.
pub fn get_pk(sk: SecretKey) -> (r: String)
    requires
        sk.wf(),
    ensures
        r@ == hex_text(public_key_of(sk@)),
        r@.len() == 2 * KEY_BYTES,
        pk_text_valid(r@),
{
    let pk = derive_public_key(sk.bytes.as_slice());
    proof {
        lemma_hex_round_trip(pk@);
    }
    hex_encode(pk.as_slice())
}

pub fn api_get_pk(pk_inputs: PKInputs) -> (r: Result<PKOutput, VRFInputError>)
    ensures
        match r {
            Ok(o) => sk_text_valid(pk_inputs.sk@) && o.pk@ == hex_text(
                public_key_of(hex_bytes(pk_inputs.sk@)),
            ) && o.pk@.len() == 2 * KEY_BYTES && pk_text_valid(o.pk@),
            Err(e) => e == VRFInputError::SKInvalid(SKInvalid) && !sk_text_valid(pk_inputs.sk@),
        },
{
    match decode_sk(pk_inputs.sk) {
        Ok(sk) => Ok(PKOutput { pk: get_pk(sk) }),
        Err(_err) => Err(VRFInputError::SKInvalid(SKInvalid)),
    }
}

/// Verifies a proof, given as its three fields, of a message under a public key; all
/// come as hex text.
pub fn api_vrf_verify(vrf_verify_inputs: VRFVerifyInputs) -> (r: Result<
    VRFVerifyOutput,
    VRFVerifyInputError,
>)
    ensures
        match r {
            Ok(o) => verify_result(
                vrf_verify_inputs.pk@,
                vrf_verify_inputs.alpha@,
                vrf_verify_inputs.Gamma@,
                vrf_verify_inputs.c@,
                vrf_verify_inputs.s@,
            ) == Ok::<Seq<char>, VRFVerifyInputError>(o.beta@),
            Err(e) => verify_result(
                vrf_verify_inputs.pk@,
                vrf_verify_inputs.alpha@,
                vrf_verify_inputs.Gamma@,
                vrf_verify_inputs.c@,
                vrf_verify_inputs.s@,
            ) == Err::<Seq<char>, VRFVerifyInputError>(e),
        },
        r is Ok ==> r->Ok_0.beta@.len() == 128,
{
    let VRFVerifyInputs { pk: pk_string, alpha: alpha_string, Gamma: gamma, c, s } =
        vrf_verify_inputs;
    match decode_pk(pk_string) {
        Ok(pk) => {
            match hex_decode(alpha_string.as_str()) {
                Some(alpha) => {
                    let pi_string = gamma.concat(c.as_str()).concat(s.as_str());
                    assert(pi_string@ == gamma@ + c@ + s@);
                    match decode_pi(pi_string) {
                        Ok(pi) => {
                            match verify_bytes(
                                pk.bytes.as_slice(),
                                alpha.as_slice(),
                                pi.bytes.as_slice(),
                            ) {
                                Some(beta) => Ok(
                                    VRFVerifyOutput { beta: hex_encode(beta.as_slice()) },
                                ),
                                None => Err(VRFVerifyInputError::VRFVerifyFailed(VRFVerifyFailed)),
                            }
                        },
                        Err(_err) => Err(VRFVerifyInputError::PiInvalid(PiInvalid)),
                    }
                },
                None => Err(VRFVerifyInputError::AlphaInvalid(AlphaInvalid)),
            }
        },
        Err(_err) => Err(VRFVerifyInputError::PKInvalid(PKInvalid)),
    }
}

/// Proving twice with the same secret key and message gives the same three fields.
pub proof fn lemma_prove_deterministic(
    sk: Seq<char>,
    alpha: Seq<char>,
    a: (Seq<char>, Seq<char>, Seq<char>),
    b: (Seq<char>, Seq<char>, Seq<char>),
)
    requires
        prove_result(sk, alpha) == Ok::<_, VRFInputError>(a),
        prove_result(sk, alpha) == Ok::<_, VRFInputError>(b),
    ensures
        a == b,
{
}

/// Verifying what proving gave, under the public key derived from the same secret key,
/// succeeds. The premises are what `api_get_pk` and `api_vrf_prove` state of their `Ok`
/// results, which they return for every valid secret key and hex message.
pub proof fn lemma_prove_then_verify(
    sk: Seq<char>,
    alpha: Seq<char>,
    pk: Seq<char>,
    fields: (Seq<char>, Seq<char>, Seq<char>),
)
    requires
        prove_result(sk, alpha) == Ok::<_, VRFInputError>(fields),
        pk == hex_text(public_key_of(hex_bytes(sk))),
        pk_text_valid(pk),
        pi_text_valid(fields.0 + fields.1 + fields.2),
        verify_output(
            public_key_of(hex_bytes(sk)),
            hex_bytes(alpha),
            hex_bytes(fields.0 + fields.1 + fields.2),
        ) is Some,
    ensures
        verify_result(pk, alpha, fields.0, fields.1, fields.2) is Ok,
{
    lemma_hex_round_trip(public_key_of(hex_bytes(sk)));
}

/// The hex text of a well-formed secret key is valid and decodes to its bytes.
pub proof fn lemma_sk_hex_round_trip(k: &SecretKey)
    requires
        k.wf(),
    ensures
        sk_text_valid(hex_text(k@)),
        hex_bytes(hex_text(k@)) == k@,
{
    lemma_hex_round_trip(k@);
}

/// The hex text of a well-formed public key is valid and decodes to its bytes.
pub proof fn lemma_pk_hex_round_trip(k: &PublicKey)
    requires
        k.wf(),
    ensures
        pk_text_valid(hex_text(k@)),
        hex_bytes(hex_text(k@)) == k@,
{
    lemma_hex_round_trip(k@);
}

/// The hex text of a well-formed proof is valid and decodes to its bytes.
pub proof fn lemma_pi_hex_round_trip(p: &Proof)
    requires
        p.wf(),
    ensures
        pi_text_valid(hex_text(p@)),
        hex_bytes(hex_text(p@)) == p@,
{
    lemma_hex_round_trip(p@);
}

} // verus!

use vrf_ticket::ecvrf::{
    api_generate_sk, api_get_pk, api_vrf_prove, api_vrf_verify, decode_pi, decode_pk, decode_sk,
    generate_sk, get_pk, AlphaInvalid, PKInputs, PKInvalid, PiInvalid, SKInvalid, VRFInputError,
    VRFInputs, VRFVerifyFailed, VRFVerifyInputError, VRFVerifyInputs,
};

const SK: &str = "3431c2b03533e280b23232e280b34e2c3132c2b03238e280b23131e280b34500";
const PK: &str = "54136cd90d99fbd1d4e855d9556efea87ba0337f2a6ce22028d0f5726fcb854e";
const ALPHA: &str = "633273702e6f72672f7672662d72323535";
const PI: &str = "0a97d961262fb549b4175c5117860f42ae44a123f93c476c439eddd1c0cff9265c805525233e2284dbed45e593b8eea31d5ca9734d72bcbba9738d5237f955f3b2422351149d1312503b6441a47c940c";
const BETA: &str = "dd653f0879b48c3ef69e13551239bec4cbcc1c18fe8894de2e9e1c790e18273603bf1c6c25d7a797aeff3c43fd32b974d3fcbd4bcce916007097922a3ea3a794";

fn prove(sk: &str, alpha: &str) -> Result<vrf_ticket::ecvrf::VRFOutput, VRFInputError> {
    api_vrf_prove(VRFInputs { sk: sk.to_string(), alpha: alpha.to_string() })
}

fn verify(pk: &str, alpha: &str, g: &str, c: &str, s: &str) -> Result<String, VRFVerifyInputError> {
    api_vrf_verify(VRFVerifyInputs {
        pk: pk.to_string(),
        alpha: alpha.to_string(),
        Gamma: g.to_string(),
        c: c.to_string(),
        s: s.to_string(),
    })
    .map(|o| o.beta)
}

#[test]
fn derive_public_key_of_known_key() {
    let out = api_get_pk(PKInputs { sk: SK.to_string() }).unwrap();
    assert_eq!(out.pk, PK);
    let sk = decode_sk(SK.to_string()).unwrap();
    assert_eq!(get_pk(sk), PK);
}

#[test]
fn prove_splits_known_proof() {
    let out = prove(SK, ALPHA).unwrap();
    assert_eq!(format!("{}{}{}", out.Gamma, out.c, out.s), PI);
    assert_eq!(out.s.len(), 64);
    assert_eq!(out.Gamma, &PI[..64]);
    assert_eq!(out.c, &PI[64..96]);
    assert_eq!(out.s, &PI[96..]);
}

#[test]
fn prove_is_deterministic() {
    let a = prove(SK, "00ff").unwrap();
    let b = prove(SK, "00ff").unwrap();
    assert_eq!((a.Gamma, a.c, a.s), (b.Gamma, b.c, b.s));
}

#[test]
fn verify_known_proof() {
    let beta = verify(PK, ALPHA, &PI[..64], &PI[64..96], &PI[96..]).unwrap();
    assert_eq!(beta, BETA);
}

#[test]
fn generated_key_proves_and_verifies() {
    let sk = api_generate_sk().sk;
    assert_eq!(sk.len(), 64);
    assert!(decode_sk(sk.clone()).is_ok());
    assert!(decode_pk(api_get_pk(PKInputs { sk: sk.clone() }).unwrap().pk).is_ok());
    let pk = api_get_pk(PKInputs { sk: sk.clone() }).unwrap().pk;
    let out = prove(&sk, "deadbeef").unwrap();
    let beta = verify(&pk, "deadbeef", &out.Gamma, &out.c, &out.s).unwrap();
    assert_eq!(beta.len(), 128);
    assert_ne!(generate_sk(), sk);
}

#[test]
fn odd_length_alpha_is_refused_by_prove() {
    let err = prove(SK, "abc").unwrap_err();
    assert_eq!(err, VRFInputError::AlphaInvalid(AlphaInvalid));
}

#[test]
fn bad_secret_keys_are_refused() {
    assert_eq!(prove("zz", ALPHA).unwrap_err(), VRFInputError::SKInvalid(SKInvalid));
    assert_eq!(prove("3431", ALPHA).unwrap_err(), VRFInputError::SKInvalid(SKInvalid));
    let zero = "00".repeat(32);
    assert_eq!(prove(&zero, ALPHA).unwrap_err(), VRFInputError::SKInvalid(SKInvalid));
    let over = "ff".repeat(32);
    assert!(decode_sk(over).is_err());
    let err = api_get_pk(PKInputs { sk: "0".to_string() }).unwrap_err();
    assert_eq!(err, VRFInputError::SKInvalid(SKInvalid));
}

#[test]
fn truncated_s_field_is_invalid_proof() {
    let err = verify(PK, ALPHA, &PI[..64], &PI[64..96], &PI[96..158]).unwrap_err();
    assert_eq!(err, VRFVerifyInputError::PiInvalid(PiInvalid));
    assert!(decode_pi(PI[..158].to_string()).is_err());
}

#[test]
fn bad_public_key_is_refused() {
    let err = verify("00", ALPHA, &PI[..64], &PI[64..96], &PI[96..]).unwrap_err();
    assert_eq!(err, VRFVerifyInputError::PKInvalid(PKInvalid));
    assert!(decode_pk("00".repeat(32)).is_err());
}

#[test]
fn bad_alpha_is_refused_by_verify() {
    let err = verify(PK, "q", &PI[..64], &PI[64..96], &PI[96..]).unwrap_err();
    assert_eq!(err, VRFVerifyInputError::AlphaInvalid(AlphaInvalid));
}

#[test]
fn proof_for_another_message_fails() {
    let err = verify(PK, "00", &PI[..64], &PI[64..96], &PI[96..]).unwrap_err();
    assert_eq!(err, VRFVerifyInputError::VRFVerifyFailed(VRFVerifyFailed));
}

#[test]
fn proof_under_another_key_fails() {
    let other = api_generate_sk().sk;
    let other_pk = api_get_pk(PKInputs { sk: other }).unwrap().pk;
    let err = verify(&other_pk, ALPHA, &PI[..64], &PI[64..96], &PI[96..]).unwrap_err();
    assert_eq!(err, VRFVerifyInputError::VRFVerifyFailed(VRFVerifyFailed));
}

#[test]
fn fields_are_read_as_one_text() {
    let beta = verify(PK, ALPHA, &PI[..63], &PI[63..97], &PI[97..]).unwrap();
    assert_eq!(beta, BETA);
}

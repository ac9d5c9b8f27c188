use vrf_ticket::utils::{
    all_decimal_digits,    api_convert_to_hex, api_convert_to_int, api_sha256, api_sha512, convert_to_hex_string,
    convert_to_int_string, sha256, sha512, ConvertInputError, ConvertInputValueType,
    ConvertInputs, HexStringInvalid, IntStringInvalid, ShaInputs,
};

fn to_hex(s: &str, t: ConvertInputValueType) -> Result<String, IntStringInvalid> {
    convert_to_hex_string(s.to_string(), t)
}

fn to_int(s: &str, t: ConvertInputValueType) -> Result<String, HexStringInvalid> {
    convert_to_int_string(s.to_string(), t)
}

#[test]
fn int_to_hex_big_endian() {
    assert_eq!(to_hex("258", ConvertInputValueType::Be).unwrap(), "0102");
    assert_eq!(to_hex("255", ConvertInputValueType::Be).unwrap(), "ff");
}

#[test]
fn int_to_hex_little_endian() {
    assert_eq!(to_hex("258", ConvertInputValueType::Le).unwrap(), "0201");
    assert_eq!(to_hex("65536", ConvertInputValueType::Le).unwrap(), "000001");
}

#[test]
fn int_to_hex_zero_is_one_byte() {
    assert_eq!(to_hex("0", ConvertInputValueType::Be).unwrap(), "00");
    assert_eq!(to_hex("0", ConvertInputValueType::Le).unwrap(), "00");
}

#[test]
fn int_to_hex_large_number() {
    assert_eq!(
        to_hex("340282366920938463463374607431768211456", ConvertInputValueType::Be).unwrap(),
        "0100000000000000000000000000000000"
    );
}

#[test]
fn int_to_hex_rejects_sign_and_separators() {
    assert_eq!(to_hex("+1_000", ConvertInputValueType::Be), Err(IntStringInvalid));
    assert_eq!(to_hex("+5", ConvertInputValueType::Be), Err(IntStringInvalid));
    assert_eq!(to_hex("1_000", ConvertInputValueType::Le), Err(IntStringInvalid));
    assert_eq!(to_hex(" 1", ConvertInputValueType::Be), Err(IntStringInvalid));
    assert_eq!(to_hex("1000", ConvertInputValueType::Be).unwrap(), "03e8");
}

#[test]
fn plain_digit_check() {
    assert!(all_decimal_digits("0123456789"));
    assert!(!all_decimal_digits(""));
    assert!(!all_decimal_digits("12\u{0663}"));
}

#[test]
fn int_to_hex_rejects_malformed_text() {
    assert_eq!(to_hex("", ConvertInputValueType::Be), Err(IntStringInvalid));
    assert_eq!(to_hex("12a", ConvertInputValueType::Be), Err(IntStringInvalid));
    assert_eq!(to_hex("-5", ConvertInputValueType::Be), Err(IntStringInvalid));
    assert_eq!(to_hex("_1", ConvertInputValueType::Be), Err(IntStringInvalid));
    assert_eq!(to_hex("+", ConvertInputValueType::Be), Err(IntStringInvalid));
}

#[test]
fn hex_to_int_both_orders() {
    assert_eq!(to_int("0102", ConvertInputValueType::Be).unwrap(), "258");
    assert_eq!(to_int("0102", ConvertInputValueType::Le).unwrap(), "513");
    assert_eq!(to_int("FF", ConvertInputValueType::Be).unwrap(), "255");
}

#[test]
fn hex_to_int_empty_and_leading_zeros() {
    assert_eq!(to_int("", ConvertInputValueType::Be).unwrap(), "0");
    assert_eq!(to_int("000001", ConvertInputValueType::Be).unwrap(), "1");
}

#[test]
fn hex_to_int_rejects_malformed_text() {
    assert_eq!(to_int("abc", ConvertInputValueType::Be), Err(HexStringInvalid));
    assert_eq!(to_int("zz", ConvertInputValueType::Le), Err(HexStringInvalid));
}

#[test]
fn int_hex_round_trip_both_orders() {
    for d in ["0", "1", "255", "256", "123456789012345678901234567890"] {
        for t in [ConvertInputValueType::Be, ConvertInputValueType::Le] {
            let h = to_hex(d, t).unwrap();
            assert_eq!(to_int(&h, t).unwrap(), d);
        }
    }
}

#[test]
fn sha256_known_digest() {
    assert_eq!(
        sha256("616263".to_string()).unwrap(),
        "ba7816bf8f01cfea414140de5dae2223b00361a396177a9cb410ff61f20015ad"
    );
    assert_eq!(sha256("6".to_string()), Err(HexStringInvalid));
}

#[test]
fn sha512_known_digest() {
    assert_eq!(
        sha512("616263".to_string()).unwrap(),
        "ddaf35a193617abacc417349ae20413112e6fa4e89a97ea20a9eeee64b55d39a2192992a274fc1a836ba3c23a3feebbd454d4423643ce80e2a9ac94fa54ca49f"
    );
    assert_eq!(
        sha512(String::new()).unwrap(),
        "cf83e1357eefb8bdf1542850d66d8007d620e4050b5715dc83f4a921d36ce9ce47d0d13c5d85f2b0ff8318d2877eec2f63b931bd47417a81a538327af927da3e"
    );
}

#[test]
fn api_conversions() {
    let out = api_convert_to_hex(ConvertInputs {
        value: "4096".to_string(),
        value_type: ConvertInputValueType::Be,
    });
    assert_eq!(out.unwrap().value, "1000");
    let err = api_convert_to_hex(ConvertInputs {
        value: "x".to_string(),
        value_type: ConvertInputValueType::Be,
    });
    assert_eq!(err.unwrap_err(), ConvertInputError::IntStringInvalid(IntStringInvalid));
    let out = api_convert_to_int(ConvertInputs {
        value: "0010".to_string(),
        value_type: ConvertInputValueType::Le,
    });
    assert_eq!(out.unwrap().value, "4096");
    let err = api_convert_to_int(ConvertInputs {
        value: "0".to_string(),
        value_type: ConvertInputValueType::Le,
    });
    assert_eq!(err.unwrap_err(), ConvertInputError::HexStringInvalid(HexStringInvalid));
}

#[test]
fn api_hashes() {
    let out = api_sha256(ShaInputs { value: "616263".to_string() });
    assert_eq!(
        out.unwrap().value,
        "ba7816bf8f01cfea414140de5dae2223b00361a396177a9cb410ff61f20015ad"
    );
    let out = api_sha512(ShaInputs { value: String::new() });
    assert!(out.unwrap().value.starts_with("cf83e1357eefb8bd"));
    let err = api_sha512(ShaInputs { value: "g0".to_string() });
    assert_eq!(err.unwrap_err(), ConvertInputError::HexStringInvalid(HexStringInvalid));
    let err = api_sha256(ShaInputs { value: "123".to_string() });
    assert_eq!(err.unwrap_err(), ConvertInputError::HexStringInvalid(HexStringInvalid));
}

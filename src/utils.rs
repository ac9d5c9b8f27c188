use num_bigint::BigUint;
use sha2::{Digest, Sha256, Sha512};
use std::str::FromStr;
use vstd::arithmetic::div_mod::{lemma_fundamental_div_mod, lemma_fundamental_div_mod_converse};
use vstd::prelude::*;
use vstd::string::*;

verus! {

/// A character that `hex` accepts as one hexadecimal digit (either case).
pub open spec fn is_hex_digit(c: char) -> bool {
    ('0' <= c && c <= '9') || ('a' <= c && c <= 'f') || ('A' <= c && c <= 'F')
}

/// The value of one hexadecimal digit.
pub open spec fn hex_digit_value(c: char) -> int {
    if '0' <= c && c <= '9' {
        c as int - '0' as int
    } else if 'a' <= c && c <= 'f' {
        c as int - 'a' as int + 10
    } else {
        c as int - 'A' as int + 10
    }
}

/// The lowercase digit for a value below 16.
pub open spec fn hex_char(d: int) -> char {
    seq!['0', '1', '2', '3', '4', '5', '6', '7', '8', '9', 'a', 'b', 'c', 'd', 'e', 'f'][d]
}

/// Text that decodes to bytes: an even number of hexadecimal digits.
pub open spec fn is_hex_text(s: Seq<char>) -> bool {
    s.len() % 2 == 0 && forall|i: int| 0 <= i < s.len() ==> #[trigger] is_hex_digit(s[i])
}

/// The bytes that hexadecimal text stands for, two digits per byte, high digit first.
pub open spec fn hex_bytes(s: Seq<char>) -> Seq<u8> {
    Seq::new(
        s.len() / 2,
        |i: int| (hex_digit_value(s[2 * i]) * 16 + hex_digit_value(s[2 * i + 1])) as u8,
    )
}

/// The lowercase hexadecimal text of a byte string.
pub open spec fn hex_text(b: Seq<u8>) -> Seq<char> {
    Seq::new(
        2 * b.len(),
        |i: int|
            if i % 2 == 0 {
                hex_char(b[i / 2] as int / 16)
            } else {
                hex_char(b[i / 2] as int % 16)
            },
    )
}

pub proof fn lemma_hex_char(d: int)
    requires
        0 <= d < 16,
    ensures
        is_hex_digit(hex_char(d)),
        hex_digit_value(hex_char(d)) == d,
{
    let t = seq!['0', '1', '2', '3', '4', '5', '6', '7', '8', '9', 'a', 'b', 'c', 'd', 'e', 'f'];
    assert(hex_char(d) == t[d]);
    assert(t[0] == '0' && t[1] == '1' && t[2] == '2' && t[3] == '3' && t[4] == '4' && t[5] == '5'
        && t[6] == '6' && t[7] == '7' && t[8] == '8' && t[9] == '9' && t[10] == 'a' && t[11] == 'b'
        && t[12] == 'c' && t[13] == 'd' && t[14] == 'e' && t[15] == 'f');
}

pub proof fn lemma_hex_round_trip(b: Seq<u8>)
    ensures
        is_hex_text(hex_text(b)),
        hex_bytes(hex_text(b)) == b,
{
    let t = hex_text(b);
    assert forall|i: int| 0 <= i < t.len() implies #[trigger] is_hex_digit(t[i]) by {
        lemma_hex_char(b[i / 2] as int / 16);
        lemma_hex_char(b[i / 2] as int % 16);
    }
    assert forall|i: int| 0 <= i < b.len() implies #[trigger] hex_bytes(t)[i] == b[i] by {
        assert(t[2 * i] == hex_char(b[i] as int / 16));
        assert(t[2 * i + 1] == hex_char(b[i] as int % 16));
        lemma_hex_char(b[i] as int / 16);
        lemma_hex_char(b[i] as int % 16);
    }
    assert(hex_bytes(t) =~= b);
}

/// Whole bytes of the text are the text of those bytes.
pub proof fn lemma_hex_text_subrange(b: Seq<u8>, i: int, j: int)
    requires
        0 <= i <= j <= b.len(),
    ensures
        hex_text(b).subrange(2 * i, 2 * j) == hex_text(b.subrange(i, j)),
{
    let l = hex_text(b).subrange(2 * i, 2 * j);
    let r = hex_text(b.subrange(i, j));
    assert forall|k: int| 0 <= k < l.len() implies #[trigger] l[k] == r[k] by {
        assert((2 * i + k) / 2 == i + k / 2);
        assert((2 * i + k) % 2 == k % 2);
    }
    assert(l =~= r);
}

/// The value of big-endian bytes.
pub open spec fn be_value(b: Seq<u8>) -> nat
    decreases b.len(),
{
    if b.len() == 0 {
        0
    } else {
        be_value(b.drop_last()) * 256 + b.last() as nat
    }
}

/// The shortest big-endian bytes of a number; zero is one zero byte.
pub open spec fn be_bytes(n: nat) -> Seq<u8>
    decreases n,
{
    if n < 256 {
        seq![n as u8]
    } else {
        be_bytes(n / 256).push((n % 256) as u8)
    }
}

pub proof fn lemma_be_value_of_bytes(n: nat)
    ensures
        be_value(be_bytes(n)) == n,
    decreases n,
{
    if n >= 256 {
        lemma_be_value_of_bytes(n / 256);
        assert(be_bytes(n).drop_last() == be_bytes(n / 256));
        lemma_fundamental_div_mod(n as int, 256);
        let b = be_bytes(n);
        assert(b.last() == (n % 256) as u8);
        assert(be_value(b) == be_value(b.drop_last()) * 256 + b.last() as nat);
        assert(be_value(b) == (n / 256) * 256 + n % 256);
    } else {
        assert(seq![n as u8].drop_last() =~= Seq::<u8>::empty());
        let b = seq![n as u8];
        assert(b.last() == n as u8);
        assert(be_value(b) == be_value(b.drop_last()) * 256 + b.last() as nat);
        assert(be_value(b.drop_last()) == 0);
    }
}

/// Bytes in the given order for a number.
pub open spec fn ordered_bytes(n: nat, t: ConvertInputValueType) -> Seq<u8> {
    match t {
        ConvertInputValueType::Be => be_bytes(n),
        ConvertInputValueType::Le => be_bytes(n).reverse(),
    }
}

/// The number that bytes in the given order stand for.
pub open spec fn ordered_value(b: Seq<u8>, t: ConvertInputValueType) -> nat {
    match t {
        ConvertInputValueType::Be => be_value(b),
        ConvertInputValueType::Le => be_value(b.reverse()),
    }
}

/// The text after at most one leading plus sign.
pub open spec fn decimal_body(s: Seq<char>) -> Seq<char> {
    if s.len() > 0 && s[0] == '+' {
        s.subrange(1, s.len() as int)
    } else {
        s
    }
}

pub open spec fn is_decimal_digit(c: char) -> bool {
    '0' <= c && c <= '9'
}

/// Decimal text that `BigUint::from_str` accepts: an optional plus sign, then digits
/// with underscores between them, starting with a digit.
pub open spec fn is_decimal_text(s: Seq<char>) -> bool {
    let t = decimal_body(s);
    t.len() > 0 && t[0] != '_' && forall|i: int|
        0 <= i < t.len() ==> (is_decimal_digit(#[trigger] t[i]) || t[i] == '_')
}

/// Decimal text as this library takes it: one or more ASCII digits, nothing else.
pub open spec fn is_plain_decimal(s: Seq<char>) -> bool {
    s.len() > 0 && forall|i: int| 0 <= i < s.len() ==> is_decimal_digit(#[trigger] s[i])
}

/// The value of decimal digits, underscores skipped.
pub open spec fn digits_value(t: Seq<char>) -> nat
    decreases t.len(),
{
    if t.len() == 0 {
        0
    } else if t.last() == '_' {
        digits_value(t.drop_last())
    } else {
        digits_value(t.drop_last()) * 10 + (t.last() as int - '0' as int) as nat
    }
}

pub open spec fn decimal_value(s: Seq<char>) -> nat {
    digits_value(decimal_body(s))
}

/// The plain decimal text of a number: no sign, no separators, no leading zeros.
pub open spec fn decimal_of(n: nat) -> Seq<char>
    decreases n,
{
    if n < 10 {
        seq![hex_char(n as int)]
    } else {
        decimal_of(n / 10).push(hex_char((n % 10) as int))
    }
}

pub proof fn lemma_decimal_of(n: nat)
    ensures
        is_decimal_digit(decimal_of(n)[0]),
        forall|i: int| 0 <= i < decimal_of(n).len() ==> is_decimal_digit(#[trigger] decimal_of(n)[i]),
        digits_value(decimal_of(n)) == n,
        is_decimal_text(decimal_of(n)),
        is_plain_decimal(decimal_of(n)),
        decimal_value(decimal_of(n)) == n,
    decreases n,
{
    let d = decimal_of(n);
    if n < 10 {
        lemma_hex_char(n as int);
        assert(d.drop_last() =~= Seq::<char>::empty());
        assert(d.last() == hex_char(n as int));
        assert(digits_value(d) == digits_value(d.drop_last()) * 10 + (d.last() as int - '0' as int) as nat);
    } else {
        lemma_decimal_of(n / 10);
        lemma_hex_char((n % 10) as int);
        assert(d.drop_last() == decimal_of(n / 10));
        assert(d.last() == hex_char((n % 10) as int));
        assert(digits_value(d) == digits_value(d.drop_last()) * 10 + (d.last() as int - '0' as int) as nat);
        lemma_fundamental_div_mod(n as int, 10);
        assert(d[0] == decimal_of(n / 10)[0]);
        assert forall|i: int| 0 <= i < d.len() implies is_decimal_digit(#[trigger] d[i]) by {
            if i < d.len() - 1 {
                assert(d[i] == decimal_of(n / 10)[i]);
            }
        }
    }
    assert(decimal_body(d) == d);
}

pub proof fn lemma_reverse_reverse(b: Seq<u8>)
    ensures
        b.reverse().reverse() == b,
        b.reverse().len() == b.len(),
{
    assert(b.reverse().reverse() =~= b);
}

#[derive(Debug, PartialEq, Eq, Clone, Copy, Structural)]
pub enum ConvertInputValueType {
    Be,
    Le,
}

#[derive(Debug, PartialEq, Eq, Clone, Copy, Structural)]
pub struct IntStringInvalid;

#[derive(Debug, PartialEq, Eq, Clone, Copy, Structural)]
pub struct HexStringInvalid;

#[derive(Debug, PartialEq, Eq, Clone, Copy, Structural)]
pub enum ConvertInputError {
    IntStringInvalid(IntStringInvalid),
    HexStringInvalid(HexStringInvalid),
}

#[derive(Debug)]
pub struct ConvertInputs {
    pub value: String,
    pub value_type: ConvertInputValueType,
}

#[derive(Debug)]
pub struct ConvertOutput {
    pub value: String,
}

#[derive(Debug)]
pub struct ShaInputs {
    pub value: String,
}

#[derive(Debug)]
pub struct ShaOutput {
    pub value: String,
}

/// The text `convert_to_int_string` gives: `None` where the hex text is malformed.
pub open spec fn int_text_of_hex(s: Seq<char>, t: ConvertInputValueType) -> Option<Seq<char>> {
    if is_hex_text(s) {
        Some(decimal_of(ordered_value(hex_bytes(s), t)))
    } else {
        None
    }
}

/// The text `convert_to_hex_string` gives: `None` where the decimal text is malformed.
pub open spec fn hex_text_of_int(s: Seq<char>, t: ConvertInputValueType) -> Option<Seq<char>> {
    if is_plain_decimal(s) {
        Some(hex_text(ordered_bytes(decimal_value(s), t)))
    } else {
        None
    }
}

/// Digest of SHA-256.
pub uninterp spec fn sha256_of(b: Seq<u8>) -> Seq<u8>;

/// Digest of SHA-512.
pub uninterp spec fn sha512_of(b: Seq<u8>) -> Seq<u8>;

/// Relies on `hex::encode`: two lowercase digits per byte, high digit first.
#[verifier::external_body]
pub(crate) fn hex_encode(b: &[u8]) -> (r: String)
    ensures
        r@ == hex_text(b@),
{
    hex::encode(b)
}

/// Relies on `hex::decode`: it accepts exactly an even number of digits of either case.
#[verifier::external_body]
pub(crate) fn hex_decode(s: &str) -> (r: Option<Vec<u8>>)
    ensures
        r.is_some() == is_hex_text(s@),
        r matches Some(b) ==> b@ == hex_bytes(s@),
{
    match hex::decode(s) {
        Ok(v) => Some(v),
        Err(_) => None,
    }
}

/// Relies on `BigUint::from_str`, read back with `BigUint::to_bytes_be`.
#[verifier::external_body]
fn parse_decimal(s: &str) -> (r: Option<Vec<u8>>)
    ensures
        r.is_some() == is_decimal_text(s@),
        r matches Some(b) ==> b@ == be_bytes(decimal_value(s@)),
{
    match BigUint::from_str(s) {
        Ok(n) => Some(n.to_bytes_be()),
        Err(_) => None,
    }
}

/// Relies on `BigUint`'s `to_string`: plain decimal text of the number that
/// `BigUint::from_bytes_be` reads.
#[verifier::external_body]
pub(crate) fn decimal_of_be(b: &[u8]) -> (r: String)
    ensures
        r@ == decimal_of(be_value(b@)),
{
    BigUint::from_bytes_be(b).to_string()
}

/// Relies on `Sha256::digest`: a 32-byte digest.
#[verifier::external_body]
fn sha256_digest(b: &[u8]) -> (r: Vec<u8>)
    ensures
        r@ == sha256_of(b@),
        r@.len() == 32,
{
    Sha256::digest(b).to_vec()
}

/// Relies on `Sha512::digest`: a 64-byte digest.
#[verifier::external_body]
fn sha512_digest(b: &[u8]) -> (r: Vec<u8>)
    ensures
        r@ == sha512_of(b@),
        r@.len() == 64,
{
    Sha512::digest(b).to_vec()
}

/// The bytes in the opposite order.
pub fn reverse_bytes(b: &[u8]) -> (r: Vec<u8>)
    ensures
        r@ == b@.reverse(),
{
    let mut r: Vec<u8> = Vec::new();
    let mut i: usize = b.len();
    while i > 0
        invariant
            i <= b@.len(),
            r@.len() == b@.len() - i,
            forall|k: int| 0 <= k < r@.len() ==> r@[k] == b@[b@.len() - 1 - k],
        decreases i,
    {
        i = i - 1;
        r.push(b[i]);
    }
    assert(r@ =~= b@.reverse());
    r
}

/// Whether the text is one or more ASCII digits.
pub fn all_decimal_digits(s: &str) -> (r: bool)
    ensures
        r == is_plain_decimal(s@),
{
    let n = s.unicode_len();
    if n == 0 {
        return false;
    }
    let mut i: usize = 0;
    while i < n
        invariant
            n == s@.len(),
            i <= n,
            forall|k: int| 0 <= k < i ==> is_decimal_digit(#[trigger] s@[k]),
        decreases n - i,
    {
        let c = s.get_char(i);
        if !('0' <= c && c <= '9') {
            return false;
        }
        i = i + 1;
    }
    true
}

/// Decimal text to hex text of the number's shortest bytes in the given order.
pub fn convert_to_hex_string(int_string: String, value_type: ConvertInputValueType) -> (r: Result<
    String,
    IntStringInvalid,
>)
    ensures
        match r {
            Ok(h) => hex_text_of_int(int_string@, value_type) == Some(h@),
            Err(_) => hex_text_of_int(int_string@, value_type) is None,
        },
{
    if !all_decimal_digits(int_string.as_str()) {
        return Err(IntStringInvalid);
    }
    proof {
        let t = int_string@;
        assert(decimal_body(t) == t);
        assert(is_decimal_digit(t[0]));
    }
    match parse_decimal(int_string.as_str()) {
        Some(be) => match value_type {
            ConvertInputValueType::Be => Ok(hex_encode(be.as_slice())),
            ConvertInputValueType::Le => {
                let le = reverse_bytes(be.as_slice());
                Ok(hex_encode(le.as_slice()))
            },
        },
        None => Err(IntStringInvalid),
    }
}

/// Hex text to the decimal text of the number its bytes stand for in the given order.
pub fn convert_to_int_string(hex_string: String, value_type: ConvertInputValueType) -> (r: Result<
    String,
    HexStringInvalid,
>)
    ensures
        match r {
            Ok(d) => int_text_of_hex(hex_string@, value_type) == Some(d@),
            Err(_) => int_text_of_hex(hex_string@, value_type) is None,
        },
{
    match hex_decode(hex_string.as_str()) {
        Some(v) => match value_type {
            ConvertInputValueType::Be => Ok(decimal_of_be(v.as_slice())),
            ConvertInputValueType::Le => {
                let be = reverse_bytes(v.as_slice());
                Ok(decimal_of_be(be.as_slice()))
            },
        },
        None => Err(HexStringInvalid),
    }
}

/// SHA-256 of the bytes that hex text stands for, as lowercase hex.
pub fn sha256(hex_string: String) -> (r: Result<String, HexStringInvalid>)
    ensures
        match r {
            Ok(h) => is_hex_text(hex_string@) && h@ == hex_text(sha256_of(hex_bytes(hex_string@))),
            Err(_) => !is_hex_text(hex_string@),
        },
        r is Ok ==> r->Ok_0@.len() == 64,
{
    match hex_decode(hex_string.as_str()) {
        Some(v) => {
            let d = sha256_digest(v.as_slice());
            Ok(hex_encode(d.as_slice()))
        },
        None => Err(HexStringInvalid),
    }
}

/// SHA-512 of the bytes that hex text stands for, as lowercase hex.
pub fn sha512(hex_string: String) -> (r: Result<String, HexStringInvalid>)
    ensures
        match r {
            Ok(h) => is_hex_text(hex_string@) && h@ == hex_text(sha512_of(hex_bytes(hex_string@))),
            Err(_) => !is_hex_text(hex_string@),
        },
        r is Ok ==> r->Ok_0@.len() == 128,
{
    match hex_decode(hex_string.as_str()) {
        Some(v) => {
            let d = sha512_digest(v.as_slice());
            Ok(hex_encode(d.as_slice()))
        },
        None => Err(HexStringInvalid),
    }
}

pub fn api_convert_to_hex(convert_inputs: ConvertInputs) -> (r: Result<ConvertOutput, ConvertInputError>)
    ensures
        match r {
            Ok(o) => hex_text_of_int(convert_inputs.value@, convert_inputs.value_type) == Some(o.value@),
            Err(e) => e == ConvertInputError::IntStringInvalid(IntStringInvalid)
                && hex_text_of_int(convert_inputs.value@, convert_inputs.value_type) is None,
        },
{
    match convert_to_hex_string(convert_inputs.value, convert_inputs.value_type) {
        Ok(hex_string) => Ok(ConvertOutput { value: hex_string }),
        Err(_err) => Err(ConvertInputError::IntStringInvalid(IntStringInvalid)),
    }
}

pub fn api_convert_to_int(convert_inputs: ConvertInputs) -> (r: Result<ConvertOutput, ConvertInputError>)
    ensures
        match r {
            Ok(o) => int_text_of_hex(convert_inputs.value@, convert_inputs.value_type) == Some(o.value@),
            Err(e) => e == ConvertInputError::HexStringInvalid(HexStringInvalid)
                && int_text_of_hex(convert_inputs.value@, convert_inputs.value_type) is None,
        },
{
    match convert_to_int_string(convert_inputs.value, convert_inputs.value_type) {
        Ok(int_string) => Ok(ConvertOutput { value: int_string }),
        Err(_err) => Err(ConvertInputError::HexStringInvalid(HexStringInvalid)),
    }
}

pub fn api_sha256(sha_inputs: ShaInputs) -> (r: Result<ShaOutput, ConvertInputError>)
    ensures
        match r {
            Ok(o) => is_hex_text(sha_inputs.value@) && o.value@ == hex_text(
                sha256_of(hex_bytes(sha_inputs.value@)),
            ),
            Err(e) => e == ConvertInputError::HexStringInvalid(HexStringInvalid) && !is_hex_text(
                sha_inputs.value@,
            ),
        },
        r is Ok ==> r->Ok_0.value@.len() == 64,
{
    match sha256(sha_inputs.value) {
        Ok(hex_string) => Ok(ShaOutput { value: hex_string }),
        Err(_err) => Err(ConvertInputError::HexStringInvalid(HexStringInvalid)),
    }
}

pub fn api_sha512(sha_inputs: ShaInputs) -> (r: Result<ShaOutput, ConvertInputError>)
    ensures
        match r {
            Ok(o) => is_hex_text(sha_inputs.value@) && o.value@ == hex_text(
                sha512_of(hex_bytes(sha_inputs.value@)),
            ),
            Err(e) => e == ConvertInputError::HexStringInvalid(HexStringInvalid) && !is_hex_text(
                sha_inputs.value@,
            ),
        },
        r is Ok ==> r->Ok_0.value@.len() == 128,
{
    match sha512(sha_inputs.value) {
        Ok(hex_string) => Ok(ShaOutput { value: hex_string }),
        Err(_err) => Err(ConvertInputError::HexStringInvalid(HexStringInvalid)),
    }
}

/// Decimal digits without a leading zero, or the single digit zero.
pub open spec fn is_canonical_decimal(s: Seq<char>) -> bool {
    is_plain_decimal(s) && (s[0] != '0' || s.len() == 1)
}

/// Digits whose first one is not zero stand for a positive number.
pub proof fn lemma_digits_value_positive(s: Seq<char>)
    requires
        is_plain_decimal(s),
        s[0] != '0',
    ensures
        digits_value(s) >= 1,
    decreases s.len(),
{
    if s.len() > 1 {
        let p = s.drop_last();
        assert(p[0] == s[0]);
        assert forall|i: int| 0 <= i < p.len() implies is_decimal_digit(#[trigger] p[i]) by {
            assert(p[i] == s[i]);
        }
        lemma_digits_value_positive(p);
    }
    assert(is_decimal_digit(s.last()));
}

/// Canonical decimal text is the plain decimal text of its own value.
pub proof fn lemma_canonical_decimal(s: Seq<char>)
    requires
        is_canonical_decimal(s),
    ensures
        s == decimal_of(decimal_value(s)),
    decreases s.len(),
{
    let c = s.last();
    assert(is_decimal_digit(c));
    let d = (c as int - '0' as int) as nat;
    lemma_hex_char(d as int);
    assert(hex_char(d as int) == c);
    assert(decimal_body(s) == s);
    if s.len() == 1 {
        assert(s.drop_last() =~= Seq::<char>::empty());
        assert(decimal_value(s) == d);
        assert(s =~= seq![c]);
    } else {
        let p = s.drop_last();
        assert(p[0] == s[0]);
        assert forall|i: int| 0 <= i < p.len() implies is_decimal_digit(#[trigger] p[i]) by {
            assert(p[i] == s[i]);
        }
        lemma_canonical_decimal(p);
        lemma_digits_value_positive(p);
        assert(decimal_body(p) == p);
        let v = digits_value(s);
        assert(v == digits_value(p) * 10 + d);
        assert(v / 10 == digits_value(p) && v % 10 == d) by {
            lemma_fundamental_div_mod_converse(v as int, 10, digits_value(p) as int, d as int);
        }
        assert(s =~= p.push(c));
    }
}

/// Decimal text turned into hex text and back, in the same byte order, gives the plain
/// decimal text of the same number; canonical decimal text comes back unchanged.
pub proof fn lemma_int_hex_round_trip(s: Seq<char>, t: ConvertInputValueType)
    requires
        is_plain_decimal(s),
    ensures
        hex_text_of_int(s, t) is Some,
        int_text_of_hex(hex_text_of_int(s, t)->Some_0, t) == Some(decimal_of(decimal_value(s))),
        is_canonical_decimal(s) ==> int_text_of_hex(hex_text_of_int(s, t)->Some_0, t) == Some(s),
{
    if is_canonical_decimal(s) {
        lemma_canonical_decimal(s);
    }
    let n = decimal_value(s);
    let b = ordered_bytes(n, t);
    lemma_hex_round_trip(b);
    lemma_be_value_of_bytes(n);
    lemma_reverse_reverse(be_bytes(n));
}

} // verus!

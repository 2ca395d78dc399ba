//! Identifiers of uploads, digests of files, and the secrets that make someone an administrator.

use crate::text::to_chars;
use sha2::Digest;
use subtle::ConstantTimeEq;
use vstd::prelude::*;

verus! {

/// A lower-case hexadecimal digit.
pub open spec fn hex_digit(n: int) -> char {
    if n < 10 {
        ('0' as u32 + n) as char
    } else {
        ('a' as u32 + n - 10) as char
    }
}

/// Bytes as text: two hexadecimal digits for each.
pub open spec fn hex_text(bytes: Seq<u8>) -> Seq<char> {
    Seq::new(
        2 * bytes.len(),
        |i: int|
            if i % 2 == 0 {
                hex_digit(bytes[i / 2] as int / 16)
            } else {
                hex_digit(bytes[i / 2] as int % 16)
            },
    )
}

/// `hex::encode`: each byte becomes two lower-case hexadecimal digits, the high one first.
#[verifier::external_body]
fn encode_hex(bytes: &Vec<u8>) -> (r: String)
    ensures
        r@ == hex_text(bytes@),
{
    hex::encode(bytes)
}

/// The SHA-256 digest of a byte string.
pub uninterp spec fn sha256(bytes: Seq<u8>) -> Seq<u8>;

/// `sha2::Sha256::digest`: the digest, named `sha256`, is a function of the bytes alone and has 32
/// bytes.
#[verifier::external_body]
fn digest_sha256(bytes: &[u8]) -> (r: Vec<u8>)
    ensures
        r@ == sha256(bytes@),
        r@.len() == 32,
{
    sha2::Sha256::digest(bytes).to_vec()
}

/// The digest of a file or a token, in hexadecimal digits.
pub fn sha256_hex(bytes: &[u8]) -> (r: String)
    ensures
        r@ == hex_text(sha256(bytes@)),
        r@.len() == 64,
{
    let digest = digest_sha256(bytes);
    encode_hex(&digest)
}

/// `subtle::ConstantTimeEq::ct_eq` on byte slices: true if and only if the slices are equal.
#[verifier::external_body]
fn same_bytes(a: &[u8], b: &[u8]) -> (r: bool)
    ensures
        r == (a@ == b@),
{
    bool::from(a.ct_eq(b))
}

/// Whether a token is the secret.
pub fn token_matches(token: &str, secret: &str) -> (r: bool)
    ensures
        r == (token@ == secret@),
{
    proof {
        vstd::utf8::encode_utf8_decode_utf8(token@);
        vstd::utf8::encode_utf8_decode_utf8(secret@);
    }
    same_bytes(token.as_bytes(), secret.as_bytes())
}

/// The `i`-th of the 32 hexadecimal digits of an identifier.
pub open spec fn id_digit(id: u128, i: int) -> char {
    hex_digit((id as int / vstd::arithmetic::power::pow(16, (31 - i) as nat)) % 16)
}

/// A digit of an identifier is a hexadecimal one.
pub proof fn lemma_hex_digit(id: u128, i: int)
    ensures
        '0' <= id_digit(id, i) <= '9' || 'a' <= id_digit(id, i) <= 'f',
{
    let n = (id as int / vstd::arithmetic::power::pow(16, (31 - i) as nat)) % 16;
    assert(0 <= n < 16);
}

/// The digits `from` to `to` of an identifier.
pub open spec fn id_digits(id: u128, from: int, to: int) -> Seq<char> {
    Seq::new((to - from) as nat, |i: int| id_digit(id, from + i))
}

/// An identifier as text: its 32 hexadecimal digits in groups of 8, 4, 4, 4 and 12.
pub open spec fn id_form(id: u128) -> Seq<char> {
    id_digits(id, 0, 8) + seq!['-'] + id_digits(id, 8, 12) + seq!['-'] + id_digits(id, 12, 16)
        + seq!['-'] + id_digits(id, 16, 20) + seq!['-'] + id_digits(id, 20, 32)
}

/// The identifier that a text names.
pub uninterp spec fn id_value(text: Seq<char>) -> Option<u128>;

/// `uuid::Uuid::parse_str`: which identifier a text names, or that it names none, depends on the
/// text alone.
#[verifier::external_body]
fn parse_uuid(text: &str) -> (r: Option<u128>)
    ensures
        r == id_value(text@),
{
    uuid::Uuid::parse_str(text).ok().map(|id| id.as_u128())
}

/// `uuid::Uuid`'s text: lower-case hexadecimal digits in five groups with hyphens between them,
/// which `parse_str` reads back as the same identifier.
#[verifier::external_body]
fn format_uuid(id: u128) -> (r: String)
    ensures
        r@ == id_form(id),
        id_value(r@) == Some(id),
{
    uuid::Uuid::from_u128(id).to_string()
}

/// `uuid::Uuid::new_v4`: a random number but for the bits that name the version and the variant. It
/// panics where the system has no random numbers to give; nothing is said of that.
#[verifier::external_body]
fn random_uuid() -> (r: u128)
    ensures
        is_random_id(r),
{
    uuid::Uuid::new_v4().as_u128()
}

/// The bits of version 4 and of its variant are set.
pub open spec fn is_random_id(id: u128) -> bool {
    &&& id as int / 0x1000_0000_0000_0000_0000 % 16 == 4
    &&& id as int / 0x4000_0000_0000_0000 % 4 == 2
}

/// A fresh identifier.
pub fn new_id() -> (r: u128)
    ensures
        is_random_id(r),
{
    random_uuid()
}

/// An identifier as text.
pub fn id_text(id: u128) -> (r: String)
    ensures
        r@ == id_form(id),
        id_value(r@) == Some(id),
{
    format_uuid(id)
}

/// The identifier that a text names.
pub fn parse_id(text: &str) -> (r: Option<u128>)
    ensures
        r == id_value(text@),
{
    parse_uuid(text)
}

/// A one-time link to administrator rights: the token goes to the person, its digest is stored.
pub struct Invite {
    pub token: String,
    pub token_sha256: String,
}

/// The stored form of an invitation's token.
pub open spec fn token_digest(token: Seq<char>) -> Seq<char> {
    hex_text(sha256(vstd::utf8::encode_utf8(token)))
}

/// The stored form of an invitation's token.
pub fn token_hash(token: &str) -> (r: String)
    ensures
        r@ == token_digest(token@),
        r@.len() == 64,
{
    sha256_hex(token.as_bytes())
}

/// The invitation whose token is the text of `id`.
pub fn invite_with(id: u128) -> (r: Invite)
    ensures
        r.token@ == id_form(id),
        r.token_sha256@ == token_digest(r.token@),
{
    let token = id_text(id);
    let token_sha256 = token_hash(token.as_str());
    Invite { token, token_sha256 }
}

/// A fresh invitation.
pub fn new_invite() -> (r: Invite)
    ensures
        exists|id: u128| is_random_id(id) && r.token@ == #[trigger] id_form(id),
        r.token_sha256@ == token_digest(r.token@),
{
    invite_with(new_id())
}

/// The characters of a secret that a link can carry.
pub open spec fn is_token_char(c: char) -> bool {
    ||| 'a' <= c <= 'z'
    ||| 'A' <= c <= 'Z'
    ||| '0' <= c <= '9'
    ||| c == '_'
    ||| c == '-'
}

/// Whether a text can be the secret of the first administrator: 24 to 54 of the characters that a
/// link can carry.
pub open spec fn is_bootstrap_token(token: Seq<char>) -> bool {
    24 <= token.len() <= 54 && forall|i: int| 0 <= i < token.len() ==> is_token_char(token[i])
}

/// Whether a text can be the secret of the first administrator.
pub fn valid_bootstrap_token(token: &str) -> (r: bool)
    ensures
        r == is_bootstrap_token(token@),
{
    let chars = to_chars(token);
    if chars.len() < 24 || chars.len() > 54 {
        return false;
    }
    let mut i: usize = 0;
    while i < chars.len()
        invariant
            i <= chars@.len(),
            chars@ == token@,
            24 <= chars@.len() <= 54,
            forall|j: int| 0 <= j < i ==> is_token_char(chars@[j]),
        decreases chars@.len() - i,
    {
        let c = chars[i];
        if !(('a' <= c && c <= 'z') || ('A' <= c && c <= 'Z') || ('0' <= c && c <= '9') || c == '_'
            || c == '-') {
            assert(!is_token_char(token@[i as int]));
            return false;
        }
        i += 1;
    }
    true
}

} // verus!

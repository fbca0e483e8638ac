//! The session-token codec: the session record, its serialized text form
//! and the inverse parse, and authenticated encryption of that text under
//! the process-wide key.

use vstd::prelude::*;
use vstd::string::{StrSliceExecFns, StringExecFns};
use vstd::utf8::{valid_utf8, decode_utf8, encode_utf8};
use aes_gcm_siv::aead::{Aead, Generate, KeyInit};
use crate::numeric::{all_digits, dec_digits, digits_val, lemma_dec_digits, parse_u128};
use crate::text::{is_digit_char, is_digit_exec, push_all, str_to_chars, chars_to_string};

verus! {

/// Why a token could not be produced or read.
#[derive(Clone, Copy, Debug, PartialEq, Eq, Structural)]
pub enum CryptoError {
    /// The decrypted or supplied data was malformed.
    InvalidCipher(CipherError),
    /// The cipher itself failed: a bad tag on decryption, an oversized
    /// message, or no randomness for a nonce.
    CryptError,
    /// The configured key does not have the cipher's key size.
    InvalidKey,
    /// No key is configured at all.
    Nokey,
}

/// How supplied data can be malformed.
#[derive(Clone, Copy, Debug, PartialEq, Eq, Structural)]
pub enum CipherError {
    /// Shorter than a nonce, so it cannot be a token.
    Length,
    /// The authenticated plaintext is not valid text.
    Decoding,
}

/// The message shown for a codec error.
pub open spec fn crypto_message_of(e: CryptoError) -> Seq<char> {
    match e {
        CryptoError::InvalidCipher(CipherError::Length) => "Invalid length"@,
        CryptoError::InvalidCipher(CipherError::Decoding) => "Invalid string"@,
        CryptoError::CryptError => "The cipher failed"@,
        CryptoError::InvalidKey => "The crypto key was invalid"@,
        CryptoError::Nokey => "No key found :/"@,
    }
}

impl CryptoError {
    /// The message shown for this error.
    pub fn message(&self) -> (r: String)
        ensures
            r@ == crypto_message_of(*self),
    {
        match self {
            CryptoError::InvalidCipher(CipherError::Length) => String::from_str("Invalid length"),
            CryptoError::InvalidCipher(CipherError::Decoding) => String::from_str(
                "Invalid string",
            ),
            CryptoError::CryptError => String::from_str("The cipher failed"),
            CryptoError::InvalidKey => String::from_str("The crypto key was invalid"),
            CryptoError::Nokey => String::from_str("No key found :/"),
        }
    }
}

/// One authenticated upstream session, as carried inside a token: the
/// credentials, the upstream cookie if one was returned, the absolute
/// expiry in milliseconds since the Unix epoch, and the district host.
#[derive(Clone, Debug, PartialEq)]
pub struct AuthToken {
    pub username: String,
    pub password: String,
    pub cookie: Option<String>,
    pub expiry: u128,
    pub district_url: String,
}

/// The mathematical content of a session record.
#[verifier::ext_equal]
pub ghost struct RecordView {
    pub username: Seq<char>,
    pub password: Seq<char>,
    pub cookie: Option<Seq<char>>,
    pub expiry: u128,
    pub district_url: Seq<char>,
}

impl View for AuthToken {
    type V = RecordView;

    open spec fn view(&self) -> RecordView {
        RecordView {
            username: self.username@,
            password: self.password@,
            cookie: match self.cookie {
                Some(c) => Some(c@),
                None => None,
            },
            expiry: self.expiry,
            district_url: self.district_url@,
        }
    }
}

impl AuthToken {
    /// Whether either credential is empty; such a record is never trusted.
    pub fn is_empty(&self) -> (r: bool)
        ensures
            r == (self@.username.len() == 0 || self@.password.len() == 0),
    {
        self.username.as_str().is_empty() || self.password.as_str().is_empty()
    }
}

/// The serialized cookie part: a presence flag, then the cookie text
/// length-prefixed.
pub open spec fn cookie_chars(c: Option<Seq<char>>) -> Seq<char> {
    match c {
        Some(cs) => seq!['1'] + dec_digits(cs.len()) + seq![':'] + cs,
        None => seq!['0'],
    }
}

/// The serialized record: username, password and cookie length-prefixed,
/// then the expiry as a decimal string closed by a semicolon, then the
/// district host as the remainder.
pub open spec fn record_chars(r: RecordView) -> Seq<char> {
    dec_digits(r.username.len()) + seq![':'] + r.username + dec_digits(r.password.len())
        + seq![':'] + r.password + cookie_chars(r.cookie) + dec_digits(r.expiry as nat)
        + seq![';'] + r.district_url
}

/// The length of the leading run of decimal digits.
pub open spec fn digit_prefix_len(s: Seq<char>) -> int
    decreases s.len(),
{
    if s.len() > 0 && is_digit_char(s[0]) {
        1 + digit_prefix_len(s.drop_first())
    } else {
        0
    }
}

/// `digit_prefix_len` marks the first non-digit, or the end.
pub proof fn lemma_digit_prefix_len(s: Seq<char>)
    ensures
        0 <= digit_prefix_len(s) <= s.len(),
        forall|j: int| 0 <= j < digit_prefix_len(s) ==> is_digit_char(s[j]),
        digit_prefix_len(s) < s.len() ==> !is_digit_char(s[digit_prefix_len(s)]),
    decreases s.len(),
{
    if s.len() > 0 && is_digit_char(s[0]) {
        lemma_digit_prefix_len(s.drop_first());
        assert forall|j: int| 0 <= j < digit_prefix_len(s) implies is_digit_char(s[j]) by {
            if j > 0 {
                assert(s.drop_first()[j - 1] == s[j]);
                assert(j - 1 < digit_prefix_len(s.drop_first()));
            }
        }
        if digit_prefix_len(s) < s.len() {
            assert(s.drop_first()[digit_prefix_len(s) - 1] == s[digit_prefix_len(s)]);
        }
    }
}

/// In a digit run followed by a non-digit, the run is the digit prefix.
pub proof fn lemma_digit_prefix_concat(a: Seq<char>, b: Seq<char>)
    requires
        all_digits(a),
        b.len() > 0,
        !is_digit_char(b[0]),
    ensures
        digit_prefix_len(a + b) == a.len(),
    decreases a.len(),
{
    if a.len() == 0 {
        assert(a + b =~= b);
    } else {
        assert((a + b)[0] == a[0]);
        assert(is_digit_char(a[0]));
        assert((a + b).drop_first() =~= a.drop_first() + b);
        assert forall|j: int| 0 <= j < a.drop_first().len() implies is_digit_char(
            a.drop_first()[j],
        ) by {
            assert(a.drop_first()[j] == a[j + 1]);
        }
        lemma_digit_prefix_concat(a.drop_first(), b);
    }
}

/// Splits one length-prefixed field off the front of `s`: a nonempty digit
/// run giving the length, a colon, then that many characters.
pub open spec fn split_prefixed(s: Seq<char>) -> Option<(Seq<char>, Seq<char>)> {
    let k = digit_prefix_len(s);
    if k == 0 || k >= s.len() || s[k] != ':' {
        None
    } else {
        let n = digits_val(s.take(k));
        if k + 1 + n > s.len() {
            None
        } else {
            Some((s.subrange(k + 1, k + 1 + n), s.skip(k + 1 + n)))
        }
    }
}

/// Splitting recovers a field that was written length-prefixed.
pub proof fn lemma_split_prefixed_roundtrip(f: Seq<char>, rest: Seq<char>)
    ensures
        split_prefixed(dec_digits(f.len()) + seq![':'] + f + rest) == Some((f, rest)),
{
    let dd = dec_digits(f.len());
    lemma_dec_digits(f.len());
    let s = dd + seq![':'] + f + rest;
    let b = seq![':'] + f + rest;
    assert(':' as u32 == 58);
    assert(!is_digit_char(':'));
    assert(s =~= dd + b);
    assert(b[0] == ':');
    lemma_digit_prefix_concat(dd, b);
    let k = digit_prefix_len(s);
    assert(k == dd.len());
    assert(s[k] == ':');
    assert(s.take(k) =~= dd);
    assert(digits_val(s.take(k)) == f.len());
    assert(s.len() == dd.len() + 1 + f.len() + rest.len());
    assert(s.subrange(k + 1, k + 1 + f.len()) =~= f);
    assert(s.skip(k + 1 + f.len()) =~= rest);
}

/// The trailing part of a record: the expiry digits closed by a semicolon,
/// then the district host.
pub open spec fn finish_record(
    u: Seq<char>,
    p: Seq<char>,
    c: Option<Seq<char>>,
    s: Seq<char>,
) -> Option<RecordView> {
    let k = digit_prefix_len(s);
    if k == 0 || k >= s.len() || s[k] != ';' || digits_val(s.take(k)) > u128::MAX {
        None
    } else {
        Some(
            RecordView {
                username: u,
                password: p,
                cookie: c,
                expiry: digits_val(s.take(k)) as u128,
                district_url: s.skip(k + 1),
            },
        )
    }
}

/// The inverse of `record_chars`, step by step: two length-prefixed
/// credentials, the cookie flag, then the expiry and district host.
pub open spec fn parse_record_spec(s: Seq<char>) -> Option<RecordView> {
    match split_prefixed(s) {
        None => None,
        Some((u, r1)) => match split_prefixed(r1) {
            None => None,
            Some((p, r2)) => {
                if r2.len() == 0 {
                    None
                } else if r2[0] == '1' {
                    match split_prefixed(r2.drop_first()) {
                        None => None,
                        Some((c, r3)) => finish_record(u, p, Some(c), r3),
                    }
                } else if r2[0] == '0' {
                    finish_record(u, p, None, r2.drop_first())
                } else {
                    None
                }
            },
        },
    }
}

/// The trailing part parses back to the fields it was written from.
pub proof fn lemma_finish_record_roundtrip(
    u: Seq<char>,
    p: Seq<char>,
    c: Option<Seq<char>>,
    e: u128,
    d: Seq<char>,
)
    ensures
        finish_record(u, p, c, dec_digits(e as nat) + seq![';'] + d) == Some(
            RecordView { username: u, password: p, cookie: c, expiry: e, district_url: d },
        ),
{
    let dd = dec_digits(e as nat);
    lemma_dec_digits(e as nat);
    let s = dd + seq![';'] + d;
    let b = seq![';'] + d;
    assert(';' as u32 == 59);
    assert(!is_digit_char(';'));
    assert(s =~= dd + b);
    assert(b[0] == ';');
    lemma_digit_prefix_concat(dd, b);
    let k = digit_prefix_len(s);
    assert(k == dd.len());
    assert(s[k] == ';');
    assert(s.take(k) =~= dd);
    assert(digits_val(s.take(k)) == e as nat);
    assert(s.skip(k + 1) =~= d);
}

/// Parsing inverts serialization, for every record.
pub proof fn lemma_parse_record_chars(r: RecordView)
    ensures
        parse_record_spec(record_chars(r)) == Some(r),
{
    let s = record_chars(r);
    let rest3 = dec_digits(r.expiry as nat) + seq![';'] + r.district_url;
    let rest2 = cookie_chars(r.cookie) + rest3;
    let rest1 = dec_digits(r.password.len()) + seq![':'] + r.password + rest2;
    assert(s =~= dec_digits(r.username.len()) + seq![':'] + r.username + rest1);
    lemma_split_prefixed_roundtrip(r.username, rest1);
    assert(split_prefixed(s) == Some((r.username, rest1)));
    assert(rest1 =~= dec_digits(r.password.len()) + seq![':'] + r.password + rest2);
    lemma_split_prefixed_roundtrip(r.password, rest2);
    assert(split_prefixed(rest1) == Some((r.password, rest2)));
    assert('0' as u32 == 48 && '1' as u32 == 49);
    match r.cookie {
        Some(cs) => {
            assert(rest2[0] == '1');
            assert(rest2.drop_first() =~= dec_digits(cs.len()) + seq![':'] + cs + rest3);
            lemma_split_prefixed_roundtrip(cs, rest3);
            lemma_finish_record_roundtrip(r.username, r.password, Some(cs), r.expiry,
                r.district_url);
        },
        None => {
            assert(rest2[0] == '0');
            assert(rest2.drop_first() =~= rest3);
            lemma_finish_record_roundtrip(r.username, r.password, None, r.expiry, r.district_url);
        },
    }
}

/// Serializes a session record to its text form.
pub fn serialize_record(t: &AuthToken) -> (out: Vec<char>)
    ensures
        out@ == record_chars(t@),
{
    let mut out: Vec<char> = Vec::new();
    let u = str_to_chars(self_str(&t.username));
    push_all(&mut out, &crate::numeric::to_decimal_u128(u.len() as u128));
    out.push(':');
    push_all(&mut out, &u);
    let p = str_to_chars(self_str(&t.password));
    push_all(&mut out, &crate::numeric::to_decimal_u128(p.len() as u128));
    out.push(':');
    push_all(&mut out, &p);
    match &t.cookie {
        Some(c) => {
            out.push('1');
            let cs = str_to_chars(self_str(c));
            push_all(&mut out, &crate::numeric::to_decimal_u128(cs.len() as u128));
            out.push(':');
            push_all(&mut out, &cs);
        },
        None => {
            out.push('0');
        },
    }
    push_all(&mut out, &crate::numeric::to_decimal_u128(t.expiry));
    out.push(';');
    let d = str_to_chars(self_str(&t.district_url));
    push_all(&mut out, &d);
    assert(out@ =~= record_chars(t@));
    out
}

/// A borrowed view of a string's text.
fn self_str(s: &String) -> (r: &str)
    ensures
        r@ == s@,
{
    s.as_str()
}

/// Reads one length-prefixed field starting at `pos`.
fn read_prefixed(v: &Vec<char>, pos: usize) -> (r: Option<(Vec<char>, usize)>)
    requires
        pos <= v@.len(),
    ensures
        match r {
            Some(fnp) => pos < fnp.1 <= v@.len() && split_prefixed(v@.skip(pos as int)) == Some(
                (fnp.0@, v@.skip(fnp.1 as int)),
            ),
            None => split_prefixed(v@.skip(pos as int)) is None,
        },
{
    let vl = v.len();
    let ghost s = v@.skip(pos as int);
    proof {
        lemma_digit_prefix_len(s);
    }
    let mut k: usize = pos;
    while k < vl && is_digit_exec(v[k])
        invariant
            vl == v@.len(),
            pos <= k <= vl,
            s == v@.skip(pos as int),
            forall|j: int| pos <= j < k ==> is_digit_char(#[trigger] v@[j]),
        decreases vl - k,
    {
        k += 1;
    }
    proof {
        assert forall|j: int| 0 <= j < k - pos implies is_digit_char(s[j]) by {
            assert(s[j] == v@[pos + j]);
        }
        if (k as int) < vl {
            assert(s[k - pos] == v@[k as int]);
            assert(!is_digit_char(s[k - pos]));
        }
        assert(digit_prefix_len(s) == k - pos);
    }
    if k == pos {
        return None;
    }
    if k == vl {
        return None;
    }
    if v[k] != ':' {
        assert(s[k - pos] == v@[k as int]);
        return None;
    }
    assert(s[k - pos] == ':');
    let lenfield: Vec<char> = vstd::slice::slice_to_vec(
        vstd::slice::slice_subrange(v.as_slice(), pos, k),
    );
    assert(lenfield@ =~= s.take(k - pos));
    let n128 = match parse_u128(&lenfield) {
        Some(n) => n,
        None => {
            assert(digits_val(s.take(k - pos)) > u128::MAX);
            assert(s.len() <= u128::MAX);
            return None;
        },
    };
    if n128 > (vl - k - 1) as u128 {
        return None;
    }
    let n = n128 as usize;
    let field: Vec<char> = vstd::slice::slice_to_vec(
        vstd::slice::slice_subrange(v.as_slice(), k + 1, k + 1 + n),
    );
    let np = k + 1 + n;
    proof {
        let kk = k - pos;
        assert(field@ =~= s.subrange(kk + 1, kk + 1 + n));
        assert(v@.skip(np as int) =~= s.skip(kk + 1 + n));
    }
    Some((field, np))
}

/// Parses the text form of a session record; fails on any other text.
#[verifier::rlimit(100)]
#[verifier::spinoff_prover]
pub fn parse_record(v: &Vec<char>) -> (r: Option<AuthToken>)
    ensures
        match r {
            Some(t) => parse_record_spec(v@) == Some(t@),
            None => parse_record_spec(v@) is None,
        },
{
    assert(v@.skip(0) =~= v@);
    let (uf, p1) = match read_prefixed(v, 0) {
        Some(x) => x,
        None => {
            return None;
        },
    };
    let (pf, p2) = match read_prefixed(v, p1) {
        Some(x) => x,
        None => {
            return None;
        },
    };
    let vl = v.len();
    let ghost r2 = v@.skip(p2 as int);
    if p2 >= vl {
        assert(r2.len() == 0);
        return None;
    }
    let flag = v[p2];
    assert(r2[0] == flag);
    assert(r2.drop_first() =~= v@.skip(p2 + 1));
    let (cookie, p3): (Option<Vec<char>>, usize) = if flag == '1' {
        match read_prefixed(v, p2 + 1) {
            Some((c, np)) => (Some(c), np),
            None => {
                return None;
            },
        }
    } else if flag == '0' {
        (None, p2 + 1)
    } else {
        return None;
    };
    let ghost r3 = v@.skip(p3 as int);
    let ghost cview: Option<Seq<char>> = match &cookie {
        Some(c) => Some(c@),
        None => None,
    };
    proof {
        lemma_digit_prefix_len(r3);
    }
    let mut k: usize = p3;
    while k < vl && is_digit_exec(v[k])
        invariant
            vl == v@.len(),
            p3 <= k <= vl,
            r3 == v@.skip(p3 as int),
            forall|j: int| p3 <= j < k ==> is_digit_char(#[trigger] v@[j]),
        decreases vl - k,
    {
        k += 1;
    }
    proof {
        assert forall|j: int| 0 <= j < k - p3 implies is_digit_char(r3[j]) by {
            assert(r3[j] == v@[p3 + j]);
        }
        if (k as int) < vl {
            assert(r3[k - p3] == v@[k as int]);
            assert(!is_digit_char(r3[k - p3]));
        }
        assert(digit_prefix_len(r3) == k - p3);
    }
    if k == p3 || k == vl {
        return None;
    }
    if v[k] != ';' {
        assert(r3[k - p3] == v@[k as int]);
        return None;
    }
    assert(r3[k - p3] == ';');
    let ef: Vec<char> = vstd::slice::slice_to_vec(
        vstd::slice::slice_subrange(v.as_slice(), p3, k),
    );
    assert(ef@ =~= r3.take(k - p3));
    let expiry = match parse_u128(&ef) {
        Some(e) => e,
        None => {
            return None;
        },
    };
    let df: Vec<char> = vstd::slice::slice_to_vec(
        vstd::slice::slice_subrange(v.as_slice(), k + 1, vl),
    );
    assert(df@ =~= r3.skip(k - p3 + 1));
    let token = AuthToken {
        username: chars_to_string(&uf),
        password: chars_to_string(&pf),
        cookie: match cookie {
            Some(c) => Some(chars_to_string(&c)),
            None => None,
        },
        expiry,
        district_url: chars_to_string(&df),
    };
    assert(parse_record_spec(v@) == Some(token@));
    Some(token)
}

/// What AES-128-GCM-SIV encryption returns for a key, nonce and plaintext:
/// the ciphertext with the authentication tag appended. It is a function
/// of those arguments alone; its pages-long definition is named, not
/// written out.
pub uninterp spec fn aes_enc(key: Seq<u8>, nonce: Seq<u8>, plain: Seq<u8>) -> Seq<u8>;

/// The configured key: base64 text decoded to bytes, `None` when the text
/// is absent or not base64.
pub open spec fn decoded_key(key_b64: Option<String>) -> Option<Seq<u8>> {
    match key_b64 {
        Some(s) => crate::base64::b64_decode_spec(s@),
        None => None,
    }
}

/// Relies on aes_gcm_siv::Aes128GcmSiv: new_from_slice accepts exactly
/// 16-byte keys, and encrypt is deterministic in key, nonce and plaintext,
/// appends the 16-byte tag, and fails only past the RFC 8452 plaintext
/// length bound.
#[verifier::external_body]
fn aes_encrypt(key: &Vec<u8>, nonce: &Vec<u8>, plain: &Vec<u8>) -> (r: Result<
    Vec<u8>,
    CryptoError,
>)
    requires
        nonce@.len() == 12,
    ensures
        match r {
            Ok(c) => key@.len() == 16 && c@ == aes_enc(key@, nonce@, plain@) && c@.len()
                == plain@.len() + 16,
            Err(e) => (e == CryptoError::InvalidKey && key@.len() != 16) || (e
                == CryptoError::CryptError && key@.len() == 16),
        },
        key@.len() == 16 && plain@.len() < 0x1000000000 ==> r is Ok,
{
    let cipher = match aes_gcm_siv::Aes128GcmSiv::new_from_slice(key.as_slice()) {
        Ok(c) => c,
        Err(_) => return Err(CryptoError::InvalidKey),
    };
    let n = match aes_gcm_siv::Nonce::try_from(nonce.as_slice()) {
        Ok(n) => n,
        Err(_) => return Err(CryptoError::CryptError),
    };
    match cipher.encrypt(&n, plain.as_slice()) {
        Ok(c) => Ok(c),
        Err(_) => Err(CryptoError::CryptError),
    }
}

/// Relies on aes_gcm_siv::Aes128GcmSiv: decrypt succeeds exactly on the
/// ciphertexts that encrypt produces under the same key and nonce, and
/// then returns the plaintext that produced them; any other input fails
/// the tag check.
#[verifier::external_body]
fn aes_decrypt(key: &Vec<u8>, nonce: &Vec<u8>, ct: &Vec<u8>) -> (r: Result<Vec<u8>, CryptoError>)
    requires
        nonce@.len() == 12,
    ensures
        match r {
            Ok(p) => key@.len() == 16 && ct@ == aes_enc(key@, nonce@, p@),
            Err(e) => (e == CryptoError::InvalidKey && key@.len() != 16) || (e
                == CryptoError::CryptError && key@.len() == 16),
        },
        forall|p: Seq<u8>|
            key@.len() == 16 && ct@ == aes_enc(key@, nonce@, p) ==> r is Ok && r->Ok_0@ == p,
{
    let cipher = match aes_gcm_siv::Aes128GcmSiv::new_from_slice(key.as_slice()) {
        Ok(c) => c,
        Err(_) => return Err(CryptoError::InvalidKey),
    };
    let n = match aes_gcm_siv::Nonce::try_from(nonce.as_slice()) {
        Ok(n) => n,
        Err(_) => return Err(CryptoError::CryptError),
    };
    match cipher.decrypt(&n, ct.as_slice()) {
        Ok(p) => Ok(p),
        Err(_) => Err(CryptoError::CryptError),
    }
}

/// Relies on the system RNG through aes_gcm_siv's nonce type: twelve
/// random bytes. Nothing is assumed of their values.
#[verifier::external_body]
fn generate_nonce() -> (r: Result<Vec<u8>, CryptoError>)
    ensures
        r is Ok ==> r->Ok_0@.len() == 12,
        r is Err ==> r->Err_0 == CryptoError::CryptError,
{
    match <aes_gcm_siv::Nonce as Generate>::try_generate() {
        Ok(n) => Ok(n.to_vec()),
        Err(_) => Err(CryptoError::CryptError),
    }
}

/// Relies on String::from_utf8: it succeeds exactly on valid UTF-8 and
/// yields the characters those bytes encode.
#[verifier::external_body]
fn bytes_to_string(v: Vec<u8>) -> (r: Result<String, CryptoError>)
    ensures
        r is Ok <==> valid_utf8(v@),
        r is Ok ==> r->Ok_0@ == decode_utf8(v@),
        r is Err ==> r->Err_0 == CryptoError::InvalidCipher(CipherError::Decoding),
{
    String::from_utf8(v).map_err(|_| CryptoError::InvalidCipher(CipherError::Decoding))
}

/// Decodes the configured base64 key text; absent or undecodable text is
/// the distinct no-key condition.
fn decode_key(key_b64: &Option<String>) -> (r: Result<Vec<u8>, CryptoError>)
    ensures
        match decoded_key(*key_b64) {
            None => r is Err && r->Err_0 == CryptoError::Nokey,
            Some(kb) => r is Ok && r->Ok_0@ == kb,
        },
{
    match key_b64 {
        None => Err(CryptoError::Nokey),
        Some(ks) => {
            let chars = str_to_chars(ks.as_str());
            match crate::base64::b64_decode(&chars) {
                Some(k) => Ok(k),
                None => Err(CryptoError::Nokey),
            }
        },
    }
}

/// Encrypts serialized session text into a token: a fresh random nonce,
/// then the ciphertext and tag over the text. The key is the base64 text
/// of a 16-byte key; a fresh nonce is drawn on every call, so the codec
/// holds no state.
pub fn create_token(cipher_text: String, key_b64: &Option<String>) -> (r: Result<
    Vec<u8>,
    CryptoError,
>)
    ensures
        match decoded_key(*key_b64) {
            None => r is Err && r->Err_0 == CryptoError::Nokey,
            Some(kb) => if kb.len() != 16 {
                r is Err && r->Err_0 == CryptoError::InvalidKey
            } else {
                match r {
                    Ok(t) => t@.len() == 12 + encode_utf8(cipher_text@).len() + 16 && t@.skip(12)
                        == aes_enc(kb, t@.take(12), encode_utf8(cipher_text@)),
                    Err(e) => e == CryptoError::CryptError,
                }
            },
        },
{
    let key = match decode_key(key_b64) {
        Ok(k) => k,
        Err(e) => {
            return Err(e);
        },
    };
    if key.len() != 16 {
        return Err(CryptoError::InvalidKey);
    }
    let nonce = match generate_nonce() {
        Ok(n) => n,
        Err(e) => {
            return Err(e);
        },
    };
    let plain = cipher_text.as_str().as_bytes_vec();
    let ct = match aes_encrypt(&key, &nonce, &plain) {
        Ok(c) => c,
        Err(e) => {
            return Err(e);
        },
    };
    let ghost nview = nonce@;
    let mut ret = nonce;
    push_all(&mut ret, &ct);
    proof {
        assert(ret@.take(12) =~= nview);
        assert(ret@.skip(12) =~= ct@);
    }
    Ok(ret)
}

/// Decrypts a client-supplied token back to its session text. Inputs no
/// longer than a nonce are rejected as such; a failed tag check and
/// non-text plaintext are distinct conditions.
pub fn try_decrypt_token(encrypted: &Vec<u8>, key_b64: &Option<String>) -> (r: Result<
    String,
    CryptoError,
>)
    ensures
        match decoded_key(*key_b64) {
            None => r is Err && r->Err_0 == CryptoError::Nokey,
            Some(kb) => if kb.len() != 16 {
                r is Err && r->Err_0 == CryptoError::InvalidKey
            } else if encrypted@.len() <= 12 {
                r is Err && r->Err_0 == CryptoError::InvalidCipher(CipherError::Length)
            } else {
                &&& (r is Ok ==> encrypted@.skip(12) == aes_enc(
                    kb,
                    encrypted@.take(12),
                    encode_utf8(r->Ok_0@),
                ))
                &&& (forall|p: Seq<u8>|
                    encrypted@.skip(12) == aes_enc(kb, encrypted@.take(12), p) ==> (if valid_utf8(
                        p,
                    ) {
                        r is Ok && r->Ok_0@ == decode_utf8(p)
                    } else {
                        r is Err && r->Err_0 == CryptoError::InvalidCipher(CipherError::Decoding)
                    }))
                &&& (r is Err ==> (r->Err_0 == CryptoError::CryptError || r->Err_0
                    == CryptoError::InvalidCipher(CipherError::Decoding)))
            },
        },
{
    let key = match decode_key(key_b64) {
        Ok(k) => k,
        Err(e) => {
            return Err(e);
        },
    };
    if key.len() != 16 {
        return Err(CryptoError::InvalidKey);
    }
    let el = encrypted.len();
    if el <= 12 {
        return Err(CryptoError::InvalidCipher(CipherError::Length));
    }
    let nonce: Vec<u8> = vstd::slice::slice_to_vec(
        vstd::slice::slice_subrange(encrypted.as_slice(), 0, 12),
    );
    let ct: Vec<u8> = vstd::slice::slice_to_vec(
        vstd::slice::slice_subrange(encrypted.as_slice(), 12, el),
    );
    assert(nonce@ =~= encrypted@.take(12));
    assert(ct@ =~= encrypted@.skip(12));
    match aes_decrypt(&key, &nonce, &ct) {
        Err(e) => {
            assert forall|p: Seq<u8>| encrypted@.skip(12) != aes_enc(
                key@,
                encrypted@.take(12),
                p,
            ) by {
                if encrypted@.skip(12) == aes_enc(key@, encrypted@.take(12), p) {
                    assert(ct@ == aes_enc(key@, nonce@, p));
                }
            }
            Err(e)
        },
        Ok(pt) => {
            let ghost ptv = pt@;
            let out = bytes_to_string(pt);
            proof {
                broadcast use vstd::utf8::decode_utf8_encode_utf8;

                assert forall|p: Seq<u8>|
                    encrypted@.skip(12) == aes_enc(key@, encrypted@.take(12), p) implies p
                    == ptv by {
                    assert(ct@ == aes_enc(key@, nonce@, p));
                }
            }
            match out {
                Ok(s) => Ok(s),
                Err(e) => Err(e),
            }
        },
    }
}

/// The session text of any record survives the whole pipeline: it is
/// valid UTF-8, decodes back to itself, and parses back to the record.
/// With the cipher's own inverse property this makes decoding a token
/// return exactly the record that was encoded.
pub proof fn lemma_token_round_trip(r: RecordView)
    ensures
        valid_utf8(encode_utf8(record_chars(r))),
        decode_utf8(encode_utf8(record_chars(r))) == record_chars(r),
        parse_record_spec(record_chars(r)) == Some(r),
{
    broadcast use vstd::utf8::encode_utf8_valid_utf8, vstd::utf8::encode_utf8_decode_utf8;

    lemma_parse_record_chars(r);
}

/// Round trip at the record level: whatever the boundary returns for an
/// authentically decrypted token whose plaintext is the serialized text
/// of a record, it is exactly that record while the record is unexpired,
/// and the distinct expiry rejection once it is not. With the cipher's
/// inverse property this makes decoding invert encoding for every valid
/// session record.
pub proof fn lemma_bearer_round_trip(rv: RecordView, now: u128, r: Result<
    AuthToken,
    crate::api::ApiError,
>)
    requires
        bearer_plain_outcome(encode_utf8(record_chars(rv)), now, r),
    ensures
        now <= rv.expiry ==> (r matches Ok(t) && t@ == rv),
        now > rv.expiry ==> (r matches Err(e) && e == crate::api::ApiError::ExpiredKey),
{
    lemma_token_round_trip(rv);
}

/// Rejects a record whose expiry lies in the past, however well formed.
pub fn check_validity(token: AuthToken, now: u128) -> (r: Result<AuthToken, crate::api::ApiError>)
    ensures
        now > token@.expiry ==> (r matches Err(e) && e == crate::api::ApiError::ExpiredKey),
        now <= token@.expiry ==> (r matches Ok(t) && t == token),
{
    if now > token.expiry {
        Err(crate::api::ApiError::ExpiredKey)
    } else {
        Ok(token)
    }
}

/// The fresh record a Basic credential synthesizes from decoded text
/// `cs`: the part before the first colon as username, the rest as
/// password, no cookie, a day's validity, and the fixed district host.
pub open spec fn basic_record(cs: Seq<char>, now: u128) -> RecordView {
    let ci = crate::text::char_index(cs, ':');
    RecordView {
        username: cs.take(ci),
        password: cs.skip(ci + 1),
        cookie: None,
        expiry: (now + 86400000) as u128,
        district_url: "md-mcps-psv.edupoint.com"@,
    }
}

/// What a decrypted token plaintext `p` must lead to.
pub open spec fn bearer_plain_outcome(p: Seq<u8>, now: u128, r: Result<
    AuthToken,
    crate::api::ApiError,
>) -> bool {
    if !valid_utf8(p) {
        r matches Err(e) && e == crate::api::ApiError::Crypto(
            CryptoError::InvalidCipher(CipherError::Decoding),
        )
    } else {
        match parse_record_spec(decode_utf8(p)) {
            None => r matches Err(e) && e == crate::api::ApiError::InvalidCredentials,
            Some(rv) => if now > rv.expiry {
                r matches Err(e) && e == crate::api::ApiError::ExpiredKey
            } else {
                r matches Ok(t) && t@ == rv
            },
        }
    }
}

/// What a Bearer credential's decoded token bytes must lead to.
pub open spec fn bearer_outcome(bytes: Seq<u8>, now: u128, key_b64: Option<String>, r: Result<
    AuthToken,
    crate::api::ApiError,
>) -> bool {
    match decoded_key(key_b64) {
        None => r matches Err(e) && e == crate::api::ApiError::Crypto(CryptoError::Nokey),
        Some(kb) => if kb.len() != 16 {
            r matches Err(e) && e == crate::api::ApiError::Crypto(CryptoError::InvalidKey)
        } else if bytes.len() <= 12 {
            r matches Err(e) && e == crate::api::ApiError::Crypto(
                CryptoError::InvalidCipher(CipherError::Length),
            )
        } else {
            &&& match r {
                Ok(t) => now <= t@.expiry && exists|s: Seq<char>|
                    bytes.skip(12) == aes_enc(kb, bytes.take(12), encode_utf8(s))
                        && parse_record_spec(s) == Some(t@),
                Err(_) => true,
            }
            &&& forall|p: Seq<u8>|
                bytes.skip(12) == aes_enc(kb, bytes.take(12), p) ==> bearer_plain_outcome(
                    p,
                    now,
                    r,
                )
        },
    }
}

/// Extracts and validates a session record from an authorization
/// credential: a Basic form synthesizes a fresh day-long record for the
/// fixed district; a Bearer form decrypts a previously issued token and
/// rejects it once expired. An absent credential is reported apart from a
/// malformed one.
pub fn authenticate(authorization: Option<&str>, now: u128, key_b64: &Option<String>) -> (r:
    Result<AuthToken, crate::api::ApiError>)
    requires
        now + 86400000 <= u128::MAX,
    ensures
        authorization is None ==> (r matches Err(e) && e
            == crate::api::ApiError::EmptyCredentials),
        authorization matches Some(h) ==> ({
            let hs = h@;
            let sp = crate::text::char_index(hs, ' ');
            if sp >= hs.len() {
                r matches Err(e) && e == crate::api::ApiError::InvalidCredentials
            } else {
                let scheme = hs.take(sp);
                let contents = hs.skip(sp + 1);
                if scheme == "Bearer"@ {
                    match crate::base64::b64_decode_spec(contents) {
                        None => r matches Err(e) && e
                            == crate::api::ApiError::InvalidCredentials,
                        Some(bytes) => bearer_outcome(bytes, now, *key_b64, r),
                    }
                } else if scheme == "Basic"@ {
                    match crate::base64::b64_decode_spec(contents) {
                        None => r matches Err(e) && e
                            == crate::api::ApiError::InvalidCredentials,
                        Some(bytes) => if !valid_utf8(bytes) {
                            r matches Err(e) && e == crate::api::ApiError::InvalidCredentials
                        } else {
                            let cs = decode_utf8(bytes);
                            if crate::text::char_index(cs, ':') >= cs.len() {
                                r matches Err(e) && e
                                    == crate::api::ApiError::InvalidCredentials
                            } else {
                                r matches Ok(t) && t@ == basic_record(cs, now)
                            }
                        },
                    }
                } else {
                    r matches Err(e) && e == crate::api::ApiError::InvalidCredentials
                }
            }
        }),
{
    let h = match authorization {
        Some(h) => h,
        None => {
            return Err(crate::api::ApiError::EmptyCredentials);
        },
    };
    let hs = str_to_chars(h);
    proof {
        crate::text::lemma_char_index(hs@, ' ');
    }
    let sp = match crate::text::find_char(&hs, ' ') {
        Some(i) => i,
        None => {
            assert(crate::text::char_index(hs@, ' ') == hs@.len());
            return Err(crate::api::ApiError::InvalidCredentials);
        },
    };
    assert(crate::text::char_index(hs@, ' ') == sp);
    let hl = hs.len();
    let scheme: Vec<char> = vstd::slice::slice_to_vec(
        vstd::slice::slice_subrange(hs.as_slice(), 0, sp),
    );
    let contents: Vec<char> = vstd::slice::slice_to_vec(
        vstd::slice::slice_subrange(hs.as_slice(), sp + 1, hl),
    );
    assert(scheme@ =~= hs@.take(sp as int));
    assert(contents@ =~= hs@.skip(sp + 1));
    let bearer_word = str_to_chars("Bearer");
    let basic_word = str_to_chars("Basic");
    if crate::text::chars_eq(&scheme, &bearer_word) {
        let bytes = match crate::base64::b64_decode(&contents) {
            Some(b) => b,
            None => {
                return Err(crate::api::ApiError::InvalidCredentials);
            },
        };
        match try_decrypt_token(&bytes, key_b64) {
            Err(e) => Err(crate::api::ApiError::Crypto(e)),
            Ok(text) => {
                let tc = str_to_chars(text.as_str());
                match parse_record(&tc) {
                    None => Err(crate::api::ApiError::InvalidCredentials),
                    Some(tok) => {
                        if now > tok.expiry {
                            return Err(crate::api::ApiError::ExpiredKey);
                        }
                        Ok(tok)
                    },
                }
            },
        }
    } else if crate::text::chars_eq(&scheme, &basic_word) {
        let bytes = match crate::base64::b64_decode(&contents) {
            Some(b) => b,
            None => {
                return Err(crate::api::ApiError::InvalidCredentials);
            },
        };
        let ghost bv = bytes@;
        let text = match bytes_to_string(bytes) {
            Ok(t) => t,
            Err(_) => {
                return Err(crate::api::ApiError::InvalidCredentials);
            },
        };
        let cs = str_to_chars(text.as_str());
        proof {
            crate::text::lemma_char_index(cs@, ':');
        }
        let ci = match crate::text::find_char(&cs, ':') {
            Some(i) => i,
            None => {
                assert(crate::text::char_index(cs@, ':') == cs@.len());
                return Err(crate::api::ApiError::InvalidCredentials);
            },
        };
        assert(crate::text::char_index(cs@, ':') == ci);
        let cl = cs.len();
        let user: Vec<char> = vstd::slice::slice_to_vec(
            vstd::slice::slice_subrange(cs.as_slice(), 0, ci),
        );
        let pass: Vec<char> = vstd::slice::slice_to_vec(
            vstd::slice::slice_subrange(cs.as_slice(), ci + 1, cl),
        );
        assert(user@ =~= cs@.take(ci as int));
        assert(pass@ =~= cs@.skip(ci + 1));
        Ok(
            AuthToken {
                username: chars_to_string(&user),
                password: chars_to_string(&pass),
                cookie: None,
                expiry: now + 86400000,
                district_url: String::from_str("md-mcps-psv.edupoint.com"),
            },
        )
    } else {
        Err(crate::api::ApiError::InvalidCredentials)
    }
}

/// Whether two records hold the same session.
pub fn same_record(a: &AuthToken, b: &AuthToken) -> (r: bool)
    ensures
        r == (a@ == b@),
{
    let cookies_equal = match (&a.cookie, &b.cookie) {
        (None, None) => true,
        (Some(x), Some(y)) => x.eq(y),
        _ => false,
    };
    let r = a.username == b.username && a.password == b.password && cookies_equal && a.expiry
        == b.expiry && a.district_url == b.district_url;
    proof {
        if r {
            assert(a@ =~= b@);
        }
    }
    r
}

/// Re-encodes a session record into a fresh base64 token when it changed
/// during the request; an unchanged record yields nothing, since session
/// continuity needs no new token then.
pub fn token_update(old_token: &AuthToken, new_token: &AuthToken, key_b64: &Option<String>) -> (r:
    Result<Option<String>, crate::api::ApiError>)
    ensures
        old_token@ == new_token@ ==> (r matches Ok(o) && o is None),
        old_token@ != new_token@ ==> match decoded_key(*key_b64) {
            None => r matches Err(e) && e == crate::api::ApiError::Crypto(CryptoError::Nokey),
            Some(kb) => if kb.len() != 16 {
                r matches Err(e) && e == crate::api::ApiError::Crypto(CryptoError::InvalidKey)
            } else {
                match r {
                    Ok(o) => o matches Some(s) && exists|t: Seq<u8>|
                        t.len() >= 12 && s@ == crate::base64::b64_encode_spec(t) && t.skip(12)
                            == aes_enc(kb, t.take(12), encode_utf8(record_chars(new_token@))),
                    Err(e) => e == crate::api::ApiError::Crypto(CryptoError::CryptError),
                }
            },
        },
{
    if same_record(old_token, new_token) {
        return Ok(None);
    }
    let text = chars_to_string(&serialize_record(new_token));
    match create_token(text, key_b64) {
        Err(e) => Err(crate::api::ApiError::Crypto(e)),
        Ok(bytes) => {
            let s = chars_to_string(&crate::base64::b64_encode(&bytes));
            Ok(Some(s))
        },
    }
}

} // verus!

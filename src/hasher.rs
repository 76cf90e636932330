//! Password hashing with bcrypt: validation of the inputs, normalisation of
//! the salt, and the Modular Crypt Format (`$2b$cc$<salt><hash>`).
use vstd::prelude::*;
use std::borrow::Cow;
use base64::Engine;
use vstd::string::StringSliceAdditionalSpecFns;

verus! {

/// What `bcrypt::bcrypt` computes from a cost, a 16-byte salt and a password.
pub uninterp spec fn bcrypt_hash(cost: nat, salt: Seq<u8>, password: Seq<u8>) -> Seq<u8>;

/// What `md5::compute` computes from its input.
pub uninterp spec fn md5_digest(data: Seq<u8>) -> Seq<u8>;

/// The text that base64 with the bcrypt alphabet and no padding encodes
/// bytes to.
pub uninterp spec fn bcrypt_base64_text(bytes: Seq<u8>) -> Seq<char>;

/// The bytes that base64 with the bcrypt alphabet, without padding, decodes
/// a text to, if it is valid.
pub uninterp spec fn bcrypt_base64_bytes(text: Seq<u8>) -> Option<Seq<u8>>;

/// Relies on `bcrypt::bcrypt`: the raw 24-byte bcrypt hash; it asserts a
/// cost below 32 and a password of 1 to 72 bytes.
#[verifier::external_body]
fn raw_bcrypt(cost: u8, salt: &[u8], password: &[u8]) -> (r: [u8; 24])
    requires
        cost < 32,
        salt@.len() == 16,
        1 <= password@.len() <= 72,
    ensures
        r@ == bcrypt_hash(cost as nat, salt@, password@),
{
    let mut fixed = [0u8; 16];
    fixed.copy_from_slice(salt);
    bcrypt::bcrypt(cost as u32, fixed, password)
}

/// Relies on `md5::compute`: the 16-byte MD5 digest of the input.
#[verifier::external_body]
fn md5_of(data: &[u8]) -> (r: [u8; 16])
    ensures
        r@ == md5_digest(data@),
{
    md5::compute(data).0
}

/// Relies on `Engine::encode` of base64's general purpose engine with the
/// bcrypt alphabet and no padding.
#[verifier::external_body]
fn encode_bcrypt_base64(bytes: &[u8]) -> (r: String)
    requires
        bytes@.len() <= 24,
    ensures
        r@ == bcrypt_base64_text(bytes@),
{
    base64::engine::general_purpose::GeneralPurpose::new(
        &base64::alphabet::BCRYPT,
        base64::engine::general_purpose::GeneralPurposeConfig::new().with_encode_padding(false),
    ).encode(bytes)
}

/// Relies on `Engine::decode` of base64's general purpose engine with the
/// bcrypt alphabet, which accepts no padding; an error becomes `None`.
#[verifier::external_body]
fn decode_bcrypt_base64(text: &[u8]) -> (r: Option<Vec<u8>>)
    ensures
        r matches Some(v) ==> bcrypt_base64_bytes(text@) == Some(v@),
        r is None ==> bcrypt_base64_bytes(text@) is None,
{
    base64::engine::general_purpose::GeneralPurpose::new(
        &base64::alphabet::BCRYPT,
        base64::engine::general_purpose::GeneralPurposeConfig::new().with_decode_padding_mode(
            base64::engine::DecodePaddingMode::RequireNone,
        ),
    ).decode(text).ok()
}

/// The password cut at its first zero byte and terminated with one; an empty
/// password stays empty.
pub open spec fn null_terminated(password: Seq<u8>, r: Seq<u8>) -> bool {
    if password.len() == 0 {
        r == password
    } else {
        exists|i: int|
            #![trigger password.take(i)]
            0 <= i <= password.len() && (forall|j: int| 0 <= j < i ==> password[j] != 0) && (i
                == password.len() || password[i] == 0) && r == password.take(i).push(0u8)
    }
}

/// The password ended by its first zero byte: unchanged when that byte is
/// its last, else cut there, or extended, with a zero byte.
pub fn get_password_with_null_terminated_byte(password: &[u8]) -> (r: Cow<'_, [u8]>)
    ensures
        null_terminated(password@, r@),
{
    let len = password.len();
    if len > 0 {
        let mut i: usize = 0;
        while i < len && password[i] > 0
            invariant
                len == password@.len(),
                i <= len,
                forall|j: int| 0 <= j < i ==> password@[j] != 0,
            decreases len - i,
        {
            i = i + 1;
        }
        assert(i == len || password@[i as int] == 0);
        if i == len - 1 {
            assert(password@.take(i as int).push(0u8) =~= password@);
            let r: Cow<[u8]> = Cow::Borrowed(password);
            assert(r@ == password@);
            assert(null_terminated(password@, r@));
            r
        } else {
            let mut terminated: Vec<u8> = Vec::new();
            let mut k: usize = 0;
            while k < i
                invariant
                    i <= len == password@.len(),
                    k <= i,
                    terminated@ == password@.take(k as int),
                    forall|j: int| 0 <= j < i ==> password@[j] != 0,
                    i == len || password@[i as int] == 0,
                decreases i - k,
            {
                terminated.push(password[k]);
                k = k + 1;
                assert(terminated@ =~= password@.take(k as int));
            }
            terminated.push(0);
            assert(terminated@ == password@.take(i as int).push(0u8));
            let r: Cow<[u8]> = Cow::Owned(terminated);
            assert(r@ == password@.take(i as int).push(0u8));
            assert(null_terminated(password@, r@));
            r
        }
    } else {
        Cow::Borrowed(password)
    }
}

/// Why bcrypt refuses its inputs, if it does.
pub open spec fn bcrypt_error(cost: u8, password: Seq<u8>) -> Option<Seq<char>> {
    if cost >= 32 {
        Some("Cost needs to be smaller than 32."@)
    } else if password.len() == 0 {
        Some("The password is empty."@)
    } else if password.len() > 72 {
        Some("The length of the password should not be bigger than 72."@)
    } else {
        None
    }
}

/// The salt that bcrypt uses: the given one when it has 16 bytes, else its
/// MD5 digest.
pub open spec fn bcrypt_salt(salt: Seq<u8>) -> Seq<u8> {
    if salt.len() == 16 {
        salt
    } else {
        md5_digest(salt)
    }
}

/// The hash of a password under a cost and a salt of any length.
pub open spec fn bcrypt_of(cost: u8, salt: Seq<u8>, password: Seq<u8>) -> Seq<u8> {
    bcrypt_hash(cost as nat, bcrypt_salt(salt), password)
}

/// Hashes a password of 1 to 72 bytes with bcrypt into 24 bytes; the
/// password is taken as it is (no zero byte is added). A salt that does not
/// have 16 bytes is replaced by its MD5 digest.
pub fn bcrypt(cost: u8, salt: &[u8], password: &[u8]) -> (r: Result<[u8; 24], &'static str>)
    ensures
        match r {
            Ok(h) => bcrypt_error(cost, password@) is None && h@ == bcrypt_of(cost, salt@, password@),
            Err(e) => bcrypt_error(cost, password@) == Some(e@),
        },
{
    if cost >= 32 {
        return Err("Cost needs to be smaller than 32.");
    }
    let password_len = password.len();
    if password_len == 0 {
        return Err("The password is empty.");
    }
    if password_len > 72 {
        return Err("The length of the password should not be bigger than 72.");
    }
    let hash = if salt.len() != 16 {
        let new_salt = md5_of(salt);
        raw_bcrypt(cost, new_salt.as_slice(), password)
    } else {
        raw_bcrypt(cost, salt, password)
    };
    Ok(hash)
}

/// `hashed` holds at least 23 bytes and they are the first 23 of the bcrypt
/// hash of the password (the last byte of a bcrypt hash is not encoded in
/// the Modular Crypt Format).
pub open spec fn identifies(cost: u8, salt: Seq<u8>, password: Seq<u8>, hashed: Seq<u8>) -> bool {
    bcrypt_error(cost, password) is None && hashed.len() >= 23 && hashed.take(23) == bcrypt_of(
        cost,
        salt,
        password,
    ).take(23)
}

/// Whether `password` hashes, under `cost` and `salt`, to the stored
/// `hashed` (its first 23 bytes). Inputs that bcrypt refuses, and a stored
/// hash shorter than 23 bytes, identify nothing.
pub fn identify_bcrypt(cost: u8, salt: &[u8], password: &[u8], hashed: &[u8]) -> (r: bool)
    ensures
        r == identifies(cost, salt@, password@, hashed@),
{
    match bcrypt(cost, salt, password) {
        Ok(hash) => {
            if hashed.len() < 23 {
                return false;
            }
            let mut i: usize = 0;
            while i < 23
                invariant
                    i <= 23 <= hashed@.len(),
                    hash@.len() == 24,
                    hash@ == bcrypt_of(cost, salt@, password@),
                    forall|j: int| 0 <= j < i ==> hashed@[j] == hash@[j],
                decreases 23 - i,
            {
                if hashed[i] != hash[i] {
                    assert(hashed@.take(23)[i as int] != hash@.take(23)[i as int]);
                    return false;
                }
                i = i + 1;
            }
            assert(hashed@.take(23) =~= hash@.take(23));
            true
        },
        Err(_) => false,
    }
}

/// The decimal digit `d` as a character.
pub open spec fn digit(d: int) -> char {
    (48 + d) as char
}

/// The Modular Crypt Format of a hash: `$2b$`, the cost in two digits, `$`,
/// the salt and the first 23 bytes of the hash in bcrypt's base64.
pub open spec fn modular_crypt_format(cost: u8, salt: Seq<u8>, hash: Seq<u8>) -> Seq<char> {
    "$2b$"@ + seq![digit(cost as int / 10), digit(cost as int % 10)] + "$"@ + bcrypt_base64_text(salt)
        + bcrypt_base64_text(hash.take(23))
}

/// Hashes a password like `bcrypt` and writes the result in the Modular
/// Crypt Format, with the salt actually used.
pub fn bcrypt_format(cost: u8, salt: &[u8], password: &[u8]) -> (r: Result<String, &'static str>)
    ensures
        match r {
            Ok(s) => bcrypt_error(cost, password@) is None && s@ == modular_crypt_format(
                cost,
                bcrypt_salt(salt@),
                bcrypt_of(cost, salt@, password@),
            ),
            Err(e) => bcrypt_error(cost, password@) == Some(e@),
        },
{
    if cost >= 32 {
        return Err("Cost needs to be smaller than 32.");
    }
    let password_len = password.len();
    if password_len == 0 {
        return Err("The password is empty.");
    }
    if password_len > 72 {
        return Err("The length of the password should not be bigger than 72.");
    }
    let (hash, encoded_salt) = if salt.len() != 16 {
        let new_salt = md5_of(salt);
        let hash = raw_bcrypt(cost, new_salt.as_slice(), password);
        (hash, encode_bcrypt_base64(new_salt.as_slice()))
    } else {
        let hash = raw_bcrypt(cost, salt, password);
        (hash, encode_bcrypt_base64(salt))
    };
    let hash_slice = hash.as_slice();
    let encoded_hash = encode_bcrypt_base64(&hash_slice[0..23]);
    assert(hash_slice@.subrange(0, 23) =~= hash@.take(23));
    let mut text = String::new();
    text.append("$2b$");
    text.push((48 + cost / 10) as char);
    text.push((48 + cost % 10) as char);
    text.append("$");
    text.append(encoded_salt.as_str());
    text.append(encoded_hash.as_str());
    assert(text@ =~= modular_crypt_format(cost, bcrypt_salt(salt@), bcrypt_of(cost, salt@, password@)));
    Ok(text)
}

/// The cost field of the Modular Crypt Format, read as a `u8` is read from
/// text: two decimal digits, or `+` and one digit.
pub open spec fn parsed_cost(a: u8, b: u8) -> Option<u8> {
    if 48 <= a <= 57 && 48 <= b <= 57 {
        Some((10 * (a - 48) + (b - 48)) as u8)
    } else if a == 43 && 48 <= b <= 57 {
        Some((b - 48) as u8)
    } else {
        None
    }
}

fn parse_cost(a: u8, b: u8) -> (r: Option<u8>)
    ensures
        r == parsed_cost(a, b),
{
    if a >= 48 && a <= 57 && b >= 48 && b <= 57 {
        Some(10 * (a - 48) + (b - 48))
    } else if a == 43 && b >= 48 && b <= 57 {
        Some(b - 48)
    } else {
        None
    }
}

/// Whether `password` matches a hash in the Modular Crypt Format: a text of
/// 59 bytes (`$2$cc$...`) or 60 bytes (`$2a$cc$...`, `$2b$cc$...`), whose cost,
/// 22 characters of salt and 31 of hash are read and then identified.
pub open spec fn identifies_format(password: Seq<u8>, text: Seq<u8>) -> bool {
    let n = text.len();
    let ci: int = if n == 59 {
        3
    } else {
        4
    };
    (n == 59 || n == 60) && match (
        parsed_cost(text[ci], text[ci + 1]),
        bcrypt_base64_bytes(text.subrange(ci + 3, ci + 25)),
        bcrypt_base64_bytes(text.subrange(ci + 25, n as int)),
    ) {
        (Some(cost), Some(salt), Some(hashed)) => identifies(cost, salt, password, hashed),
        _ => false,
    }
}

/// Whether `password` matches `hashed_format`, a bcrypt hash in the Modular
/// Crypt Format. A text that is not one identifies nothing.
pub fn identify_bcrypt_format(password: &[u8], hashed_format: &str) -> (r: bool)
    ensures
        r == identifies_format(password@, hashed_format.spec_bytes()),
{
    let bytes = hashed_format.as_bytes();
    let n = bytes.len();
    let cost_index: usize = if n == 59 {
        3
    } else if n == 60 {
        4
    } else {
        return false;
    };
    let cost = match parse_cost(bytes[cost_index], bytes[cost_index + 1]) {
        Some(cost) => cost,
        None => return false,
    };
    let salt = match decode_bcrypt_base64(&bytes[cost_index + 3..cost_index + 25]) {
        Some(salt) => salt,
        None => return false,
    };
    let hashed = match decode_bcrypt_base64(&bytes[cost_index + 25..n]) {
        Some(hashed) => hashed,
        None => return false,
    };
    identify_bcrypt(cost, salt.as_slice(), password, hashed.as_slice())
}

} // verus!

use base64::Engine;
use passwords::hasher::{
    bcrypt, bcrypt_format, get_password_with_null_terminated_byte, identify_bcrypt,
    identify_bcrypt_format,
};

#[test]
fn null_terminated_byte() {
    let password = passwords::hasher::get_password_with_null_terminated_byte(b"password");

    assert_eq!(b"password\0", password.as_ref());
}

#[test]
fn bcrypt_identify_true() {
    let salt: [u8; 16] = rand::random();

    let password = passwords::hasher::get_password_with_null_terminated_byte(b"password");

    let hashed = passwords::hasher::bcrypt(10, &salt, &password).unwrap();

    assert!(passwords::hasher::identify_bcrypt(10, &salt, &password, &hashed));

    let hashed_format = passwords::hasher::bcrypt_format(10, &salt, &password).unwrap();

    assert!(passwords::hasher::identify_bcrypt_format(&password, &hashed_format));
}

#[test]
#[should_panic(expected = "assertion failed")]
fn bcrypt_identify_false() {
    let salt: [u8; 16] = rand::random();

    let password = passwords::hasher::get_password_with_null_terminated_byte(b"password");

    let hashed = passwords::hasher::bcrypt(10, &salt, &password).unwrap();

    assert!(passwords::hasher::identify_bcrypt(10, &salt, b"password", &hashed));
}

#[test]
fn test_bcrypt_identify_true() {
    let salt: [u8; 16] = rand::random();

    let hashed = bcrypt(10, &salt, b"password").unwrap();

    assert!(identify_bcrypt(10, &salt, b"password", &hashed));
}

#[test]
fn null_termination_cases() {
    assert_eq!(b"", get_password_with_null_terminated_byte(b"").as_ref());
    assert_eq!(b"ab\0", get_password_with_null_terminated_byte(b"ab\0").as_ref());
    assert_eq!(b"ab\0", get_password_with_null_terminated_byte(b"ab\0cd").as_ref());
    assert_eq!(b"\0", get_password_with_null_terminated_byte(b"\0\0").as_ref());
}

#[test]
fn bcrypt_errors() {
    assert_eq!(Err("Cost needs to be smaller than 32."), bcrypt(32, b"salt", b"pw"));
    assert_eq!(Err("The password is empty."), bcrypt(4, b"salt", b""));
    assert_eq!(
        Err("The length of the password should not be bigger than 72."),
        bcrypt(4, b"salt", &[b'a'; 73])
    );
    assert!(bcrypt(4, b"salt", &[b'a'; 72]).is_ok());
    assert!(bcrypt_format(40, b"salt", b"pw").is_err());
    assert!(!identify_bcrypt(40, b"salt", b"pw", &[0u8; 24]));
}

#[test]
fn bcrypt_hashes_and_normalises_the_salt() {
    let hashed = bcrypt(4, b"salt", b"pw").unwrap();
    assert_ne!(&hashed[..2], b"pw");

    // A salt of any other length is replaced by its MD5 digest.
    let digest = md5::compute(b"salt").0;
    assert_ne!(&digest[..4], b"salt");
    assert_eq!(hashed, bcrypt(4, &digest, b"pw").unwrap());
    assert_eq!(hashed, bcrypt::bcrypt(4, digest, b"pw"));

    assert_ne!(hashed, bcrypt(4, b"salt", b"pX").unwrap());
    assert!(identify_bcrypt(4, b"salt", b"pw", &hashed[..23]));
    assert!(!identify_bcrypt(4, b"salt", b"pw", &hashed[..22]));
    assert!(!identify_bcrypt(4, b"salt", b"pX", &hashed));
}

#[test]
fn modular_crypt_format() {
    let salt = [7u8; 16];
    let text = bcrypt_format(5, &salt, b"secret").unwrap();
    assert_eq!(60, text.len());
    assert!(text.starts_with("$2b$05$"));

    let engine = base64::engine::general_purpose::GeneralPurpose::new(
        &base64::alphabet::BCRYPT,
        base64::engine::general_purpose::NO_PAD,
    );
    let hashed = bcrypt(5, &salt, b"secret").unwrap();
    assert_eq!(engine.encode(salt), text[7..29]);
    assert_eq!(engine.encode(&hashed[..23]), text[29..]);

    assert!(identify_bcrypt_format(b"secret", &text));
    assert!(!identify_bcrypt_format(b"secreT", &text));
    // The 59-byte layout reads the same fields one byte earlier.
    assert!(identify_bcrypt_format(b"secret", &text[1..]));
    // A hash field one character short decodes to 22 bytes: no match.
    assert!(!identify_bcrypt_format(b"secret", &text[..59]));
    assert!(!identify_bcrypt_format(b"secret", ""));
    assert!(identify_bcrypt_format(b"secret", &text.replacen("$2b$05", "$2b$+5", 1)));
    assert!(!identify_bcrypt_format(b"secret", &text.replacen("$2b$05", "$2b$-5", 1)));
    assert!(identify_bcrypt_format(b"secret", &text.replacen("$2b$", "$2$", 1)));
}

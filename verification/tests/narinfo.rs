use base64::engine::general_purpose::STANDARD;
use base64::Engine;
use ed25519_dalek::{Signer, SigningKey};
use ncro::base32::nix_base32_encode;
use ncro::narinfo::{normalize_nar_hash, parse_public_key, NarInfo, NarInfoError};
use ncro::number::ParseIntError;
use rand::RngExt;

fn random_key() -> SigningKey {
    let mut seed = [0_u8; 32];
    rand::rng().fill(&mut seed);
    SigningKey::from_bytes(&seed)
}

fn public_key(name: &str, signing: &SigningKey) -> String {
    format!("{name}:{}", STANDARD.encode(signing.verifying_key().to_bytes()))
}

fn signature(name: &str, signing: &SigningKey, info: &NarInfo) -> String {
    let sig = signing.sign(info.fingerprint().as_bytes());
    format!("{name}:{}", STANDARD.encode(sig.to_bytes()))
}

#[test]
fn parses_realistic_narinfo() {
    let input = "StorePath: /nix/store/abc-hello\nURL: nar/abc.nar.xz\nCompression: xz\nFileSize: 42\nNarHash: sha256:abc\nNarSize: 123\nReferences: abc-hello dep\nSig: key:sig=\n";
    let ni = NarInfo::parse(input.as_bytes()).unwrap();
    assert_eq!(ni.store_path, "/nix/store/abc-hello");
    assert_eq!(ni.url, "nar/abc.nar.xz");
    assert_eq!(ni.references.len(), 2);
    assert_eq!(ni.compression, "xz");
    assert_eq!(ni.file_size, 42);
    assert_eq!(ni.nar_size, 123);
    assert_eq!(ni.sig, vec!["key:sig=".to_string()]);
}

#[test]
fn missing_store_path_returns_error() {
    let input = "URL: nar/abc.nar.xz\nNarHash: sha256:abc\nNarSize: 1\n";
    assert!(matches!(
        NarInfo::parse(input.as_bytes()),
        Err(NarInfoError::MissingStorePath)
    ));
}

#[test]
fn malformed_line_returns_error() {
    let input = "StorePath: /nix/store/abc\nno-colon-here\n";
    assert!(matches!(
        NarInfo::parse(input.as_bytes()),
        Err(NarInfoError::MalformedLine(_))
    ));
}

#[test]
fn size_that_is_no_number_returns_error() {
    let input = "StorePath: /nix/store/abc\nNarSize: many\n";
    assert!(matches!(
        NarInfo::parse(input.as_bytes()),
        Err(NarInfoError::ParseInt { source: ParseIntError::InvalidDigit, .. })
    ));
    let input = "StorePath: /nix/store/abc\nFileSize: 99999999999999999999\n";
    assert!(matches!(
        NarInfo::parse(input.as_bytes()),
        Err(NarInfoError::ParseInt { source: ParseIntError::PosOverflow, .. })
    ));
}

#[test]
fn line_that_is_no_utf8_returns_error() {
    assert!(matches!(
        NarInfo::parse(b"StorePath: /nix/store/\xff\n"),
        Err(NarInfoError::Io(_))
    ));
}

#[test]
fn lines_may_end_in_carriage_returns() {
    let ni = NarInfo::parse(b"StorePath: /nix/store/abc-x\r\nURL: nar/x.nar\r\n").unwrap();
    assert_eq!(ni.store_path, "/nix/store/abc-x");
    assert_eq!(ni.url, "nar/x.nar");
}

#[test]
fn parse_public_key_error_paths() {
    assert!(matches!(
        parse_public_key("no-separator"),
        Err(NarInfoError::MissingPublicKeySeparator { .. })
    ));
    assert!(matches!(
        parse_public_key(":dGVzdA=="),
        Err(NarInfoError::MissingPublicKeySeparator { .. })
    ));
    assert!(matches!(
        parse_public_key("test:!!!"),
        Err(NarInfoError::InvalidPublicKeyBase64 { .. })
    ));
    assert!(matches!(
        parse_public_key("test:dGVzdA=="),
        Err(NarInfoError::InvalidPublicKeySize { .. })
    ));
}

#[test]
fn errors_say_what_is_wrong() {
    assert_eq!(NarInfoError::MissingStorePath.message(), "missing StorePath");
    let err = parse_public_key("test:dGVzdA==").err().unwrap();
    assert!(err.message().contains('4'), "{}", err.message());
}

#[test]
fn nix_base32_encodes_known_vectors() {
    assert_eq!(nix_base32_encode(&[]), "");
    let empty_sha256: [u8; 32] = [
        0xE3, 0xB0, 0xC4, 0x42, 0x98, 0xFC, 0x1C, 0x14, 0x9A, 0xFB, 0xF4, 0xC8, 0x99, 0x6F, 0xB9,
        0x24, 0x27, 0xAE, 0x41, 0xE4, 0x64, 0x9B, 0x93, 0x4C, 0xA4, 0x95, 0x99, 0x1B, 0x78, 0x52,
        0xB8, 0x55,
    ];
    let encoded = nix_base32_encode(&empty_sha256);
    assert_eq!(encoded, "0mdqa9w1p6cmli6976v4wi0sw9r4p5prkj7lzfd1877wk11c9c73");
    assert_eq!(encoded.len(), 52);
}

#[test]
fn normalize_nar_hash_converts_hex_to_base32() {
    let hex_form = "sha256:e3b0c44298fc1c149afbf4c8996fb92427ae41e4649b934ca495991b7852b855";
    let base32_form = "sha256:0mdqa9w1p6cmli6976v4wi0sw9r4p5prkj7lzfd1877wk11c9c73";
    assert_eq!(normalize_nar_hash(hex_form), base32_form);
    assert_eq!(normalize_nar_hash(base32_form), base32_form);
    assert_eq!(normalize_nar_hash("md5:abc"), "md5:abc");
    assert_eq!(normalize_nar_hash("notahash"), "notahash");
}

#[test]
fn fingerprint_normalizes_attic_style_hex_nar_hash() {
    let common = NarInfo {
        store_path: "/nix/store/abc-test".into(),
        nar_size: 312,
        references: vec![],
        ..Default::default()
    };
    let mut hex_ni = common.clone();
    hex_ni.nar_hash =
        "sha256:08a270a0c126f730839d0ef8bc86af8dd95c6d2bd09510b427adfb9540539e87".into();
    let mut b32_ni = common;
    let bytes: [u8; 32] = [
        0x08, 0xA2, 0x70, 0xA0, 0xC1, 0x26, 0xF7, 0x30, 0x83, 0x9D, 0x0E, 0xF8, 0xBC, 0x86, 0xAF,
        0x8D, 0xD9, 0x5C, 0x6D, 0x2B, 0xD0, 0x95, 0x10, 0xB4, 0x27, 0xAD, 0xFB, 0x95, 0x40, 0x53,
        0x9E, 0x87,
    ];
    b32_ni.nar_hash = format!("sha256:{}", nix_base32_encode(&bytes));

    assert_eq!(hex_ni.fingerprint(), b32_ni.fingerprint());
}

#[test]
fn fingerprint_names_what_is_signed() {
    let info = NarInfo {
        store_path: "/nix/store/abc-test".into(),
        nar_hash: "sha256:abc".into(),
        nar_size: 12,
        references: vec!["abc-test".into(), "/nix/store/def-dep".into()],
        ..Default::default()
    };
    assert_eq!(
        info.fingerprint(),
        "1;/nix/store/abc-test;sha256:abc;12;/nix/store/abc-test,/nix/store/def-dep"
    );
    let mut other = info.clone();
    other.url = "nar/elsewhere.nar.xz".into();
    other.deriver = "abc.drv".into();
    assert_eq!(info.fingerprint(), other.fingerprint());
}

#[test]
fn parse_public_key_tolerates_missing_padding() {
    let signing = random_key();
    let bytes = signing.verifying_key().to_bytes();
    let unpadded = STANDARD.encode(bytes).trim_end_matches('=').to_string();
    assert_eq!(unpadded.len(), 43);
    assert!(!unpadded.ends_with('='));

    let (name, parsed) = parse_public_key(&format!("cache:{unpadded}")).unwrap();
    assert_eq!(name, "cache");
    assert_eq!(parsed.to_bytes(), bytes);
}

#[test]
fn parse_public_key_accepts_padded_and_unpadded() {
    let signing = random_key();
    let padded = STANDARD.encode(signing.verifying_key().to_bytes());
    let unpadded = padded.trim_end_matches('=').to_string();
    assert_eq!(padded.len(), 44);
    assert_eq!(unpadded.len(), 43);

    let (_, k_padded) = parse_public_key(&format!("name:{padded}")).unwrap();
    let (_, k_unpadded) = parse_public_key(&format!("name:{unpadded}")).unwrap();
    assert_eq!(k_padded.to_bytes(), k_unpadded.to_bytes());
}

#[test]
fn verifies_roundtrip_signature() {
    let signing = random_key();
    let mut ni = NarInfo {
        store_path: "/nix/store/abc-test".into(),
        nar_hash: "sha256:abc".into(),
        nar_size: 12,
        references: vec!["abc-test".into()],
        ..Default::default()
    };
    ni.sig = vec![signature("test", &signing, &ni)];
    assert!(ni.verify(&public_key("test", &signing)).unwrap());
    assert!(ni.verify_raw("test", &signing.verifying_key().to_bytes()));
}

#[test]
fn verify_with_wrong_key_returns_false() {
    let signing1 = random_key();
    let signing2 = random_key();
    let mut ni = NarInfo {
        store_path: "/nix/store/abc-test".into(),
        nar_hash: "sha256:abc".into(),
        nar_size: 12,
        ..Default::default()
    };
    ni.sig = vec![signature("test", &signing1, &ni)];
    assert!(!ni.verify(&public_key("test", &signing2)).unwrap());
}

#[test]
fn verify_tampered_content_returns_false() {
    let signing = random_key();
    let mut ni = NarInfo {
        store_path: "/nix/store/abc-test".into(),
        nar_hash: "sha256:abc".into(),
        nar_size: 12,
        ..Default::default()
    };
    ni.sig = vec![signature("test", &signing, &ni)];
    ni.nar_size = 999;
    assert!(!ni.verify(&public_key("test", &signing)).unwrap());
}

#[test]
fn verify_wants_the_name_of_the_key() {
    let signing = random_key();
    let mut ni = NarInfo {
        store_path: "/nix/store/abc-test".into(),
        nar_hash: "sha256:abc".into(),
        nar_size: 12,
        ..Default::default()
    };
    ni.sig = vec![signature("other", &signing, &ni)];
    assert!(!ni.verify(&public_key("test", &signing)).unwrap());
    assert!(ni.verify("no-separator").is_err());
}

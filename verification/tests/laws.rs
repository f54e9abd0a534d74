//! What holds between functions, on values.

use base64::engine::general_purpose::STANDARD;
use base64::Engine;
use ncro::base32::nix_base32_encode;
use ncro::cli::normalize_listen;
use ncro::codec::{decode_base64, decode_base64_any_padding, is_all_hex, utf8_bytes, utf8_text};
use ncro::filter::{allows_narinfo, wildcard_match, FilterAction, FilterField, FilterRule};
use ncro::nar::nar_key;
use ncro::nar_url::{canonical_nar_url, store_hash_from_canonical_nar_url, NarUrlMode};
use ncro::narinfo::{normalize_nar_hash, NarInfo};
use ncro::number::{decimal_text, parse_decimal, signed_text, ParseIntError};
use ncro::race::{cools_down, verdict_label, Attempt, Race, RaceGroupError, RaceVerdict, Refusal};
use ncro::registry::narinfo_verifies_any_key;
use ncro::resolve::{nar_lookup_key, narinfo_key, narinfo_url, upstream_nar_path};
use ncro::text::{split_words, trim_end_char};

#[test]
fn numbers_read_back() {
    for n in [0, 7, 10, 4_294_967_295, u64::MAX] {
        assert_eq!(decimal_text(n), n.to_string());
        assert_eq!(parse_decimal(&decimal_text(n), u64::MAX), Ok(n));
    }
    assert_eq!(signed_text(i64::MIN), i64::MIN.to_string());
    assert_eq!(signed_text(-1), "-1");
    assert_eq!(parse_decimal("+12", 255), Ok(12));
    assert_eq!(parse_decimal("256", 255), Err(ParseIntError::PosOverflow));
    assert_eq!(parse_decimal("", 255), Err(ParseIntError::Empty));
    assert_eq!(parse_decimal("1x", 255), Err(ParseIntError::InvalidDigit));
}

#[test]
fn base64_reads_back() {
    for n in 0..7_u8 {
        let bytes: Vec<u8> = (0..n).map(|i| i * 37).collect();
        let text = STANDARD.encode(&bytes);
        assert_eq!(decode_base64(&text), Some(bytes.clone()));
        assert_eq!(decode_base64_any_padding(trim_end_char(&text, '=').as_str()), Ok(bytes));
    }
    assert_eq!(decode_base64("AA"), None);
    assert_eq!(decode_base64("A?=="), None);
    assert!(decode_base64_any_padding("A").is_err());
}

#[test]
fn text_is_its_bytes() {
    assert_eq!(utf8_bytes("n\u{e4}r"), "n\u{e4}r".as_bytes());
    assert_eq!(utf8_text("n\u{e4}r".as_bytes()).as_deref(), Some("n\u{e4}r"));
    assert_eq!(utf8_text(&[0xff]), None);
    assert!(is_all_hex("09afAF"));
    assert!(!is_all_hex("0g"));
    assert_eq!(split_words(" a  b\tc "), ["a", "b", "c"]);
}

#[test]
fn base32_tells_bytes_apart() {
    let texts: Vec<String> = (0..=255_u8).map(|b| nix_base32_encode(&[b, 1])).collect();
    for (i, a) in texts.iter().enumerate() {
        assert_eq!(a.len(), 4);
        assert!(texts[..i].iter().all(|b| b != a));
    }
}

#[test]
fn hashes_are_normalized_once() {
    let hex = format!("sha256:{}", "ab".repeat(32));
    let once = normalize_nar_hash(&hex);
    assert_ne!(once, hex);
    assert_eq!(normalize_nar_hash(&once), once);
    assert_eq!(normalize_nar_hash(&format!("sha256:{}", "AB".repeat(32))), once);
    assert_eq!(normalize_nar_hash("sha256:short"), "sha256:short");
}

#[test]
fn addresses_are_normalized_once() {
    let once = normalize_listen(":8080");
    assert_eq!(once, "0.0.0.0:8080");
    assert_eq!(normalize_listen(&once), once);
}

#[test]
fn a_pattern_matches_its_instances() {
    for gap in ["", "x", "x-y", "*"] {
        assert!(wildcard_match("a*b", &format!("a{gap}b")));
    }
    assert!(wildcard_match("", ""));
    assert!(!wildcard_match("a*b", "ab-"));
}

fn rule(action: FilterAction, pattern: &str) -> FilterRule {
    FilterRule { action, field: FilterField::Name, pattern: pattern.to_string() }
}

#[test]
fn the_order_of_rules_does_not_matter() {
    let info = NarInfo::parse(
        b"StorePath: /nix/store/aaaa-zed-1\nURL: x\nNarHash: h\nNarSize: 1\n",
    )
    .unwrap();
    let rules = vec![
        rule(FilterAction::Allow, "*"),
        rule(FilterAction::Deny, "zed*"),
        rule(FilterAction::Allow, "zed-1"),
    ];
    let reversed: Vec<FilterRule> = rules.iter().rev().cloned().collect();
    assert!(!allows_narinfo(&rules, &info));
    assert!(!allows_narinfo(&reversed, &info));
    assert!(allows_narinfo(&vec![], &info));
    assert!(!allows_narinfo(&vec![rule(FilterAction::Allow, "other")], &info));
    let none: [String; 0] = [];
    assert!(!narinfo_verifies_any_key(&info, &none));
}

#[test]
fn an_archive_is_looked_up_where_its_narinfo_points() {
    let hash = "ad4slq98kiq9ypdd35yfg0bykdwj86ba";
    let canonical = canonical_nar_url("nar/abc.nar.zst?hash=h", hash);
    assert_eq!(nar_key(&format!("/{canonical}")), canonical);
    assert_eq!(store_hash_from_canonical_nar_url(&canonical), Some(hash));
    assert_eq!(nar_lookup_key("nar/abc.nar.zst?hash=h", hash, NarUrlMode::ToSelf), canonical);
}

#[test]
fn narinfos_are_named_by_their_hash() {
    assert_eq!(narinfo_url("https://c.example", "abc"), "https://c.example/abc.narinfo");
    assert_eq!(narinfo_key("abc"), "abc.narinfo");
    let info = NarInfo::parse(
        b"StorePath: /nix/store/aaaa-zed-1\nURL: nar/x.nar\nNarHash: h\nNarSize: 1\n",
    )
    .unwrap();
    assert_eq!(upstream_nar_path(&info), "/nar/x.nar");
}

#[test]
fn a_race_counts_its_attempts_and_names_its_end() {
    let mut race = Race::new(vec![vec!["a".to_string(), "b".to_string()]]);
    race.add_attempts(2);
    assert!(race.on_refused("a", Refusal::Network));
    assert_eq!(race.current(), Some(&vec!["b".to_string()]));
    race.add_attempts(1);
    race.on_lost(RaceGroupError::Timeout);
    assert_eq!(race.attempts_made(), 3);
    assert_eq!(race.verdict(), RaceVerdict::Unavailable);
    assert_eq!(verdict_label(RaceVerdict::Unavailable), "unavailable");
    assert_eq!(verdict_label(RaceVerdict::NotFound), "not_found");
    assert!(cools_down(Attempt::NetworkError));
    assert!(!cools_down(Attempt::NotFound));
}

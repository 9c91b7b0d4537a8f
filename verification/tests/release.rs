use oma::date::{date_hack, parse_date};
use oma::inrelease::{
    checksum_table, classify, file_is_compress, DistFileType, InRelease, InReleaseParser,
    InReleaseParserError,
};

#[test]
fn test_date_hack() {
    let a = "Thu, 02 May 2024  9:58:03 UTC";
    let hack = date_hack(&a);
    assert_eq!(hack, "Thu, 02 May 2024 09:58:03 +0000");
    let b = chrono::DateTime::parse_from_rfc2822(&hack);
    assert!(b.is_ok());

    let a = "Thu, 02 May 2024 09:58:03 +0000";
    let hack = date_hack(&a);
    assert_eq!(hack, "Thu, 02 May 2024 09:58:03 +0000");
    let b = chrono::DateTime::parse_from_rfc2822(&hack);
    assert!(b.is_ok());

    let a = "Thu, 02 May 2024  0:58:03 +0000";
    let hack = date_hack(&a);
    assert_eq!(hack, "Thu, 02 May 2024 00:58:03 +0000");
    let b = chrono::DateTime::parse_from_rfc2822(&hack);
    assert!(b.is_ok());
}

#[test]
fn date_tolerance_equal_instants() {
    let loose = parse_date("Thu, 02 May 2024  9:58:03 UTC");
    let strict = parse_date("Thu, 02 May 2024 09:58:03 +0000");
    assert!(loose.is_some());
    assert_eq!(loose, strict);
}

#[test]
fn date_garbage_rejected() {
    assert!(parse_date("not a date").is_none());
}

#[test]
fn classify_kinds() {
    let name: Vec<char> = "main/binary-amd64/Packages.xz".chars().collect();
    assert_eq!(
        classify(&name),
        Some(DistFileType::CompressPackageList("xz".to_string()))
    );
    let name: Vec<char> = "main/binary-amd64/Packages".chars().collect();
    assert_eq!(classify(&name), Some(DistFileType::PackageList));
    let name: Vec<char> = "main/Contents-amd64.gz".chars().collect();
    assert_eq!(
        classify(&name),
        Some(DistFileType::CompressContents("gz".to_string()))
    );
    let name: Vec<char> = "main/Contents-amd64".chars().collect();
    assert_eq!(classify(&name), Some(DistFileType::Contents));
    let name: Vec<char> = "main/binary-all/Release".chars().collect();
    assert_eq!(classify(&name), Some(DistFileType::Release));
    let name: Vec<char> = "main/unrelated-amd64".chars().collect();
    assert_eq!(classify(&name), None);
}

#[test]
fn file_is_compress_suffixes() {
    assert!(file_is_compress("Packages.gz"));
    assert!(file_is_compress("Packages.xz"));
    assert!(file_is_compress("Packages.bz2"));
    assert!(!file_is_compress("Packages"));
    assert!(!file_is_compress("Packages.diff"));
}

const H1: &str = "aaaaaaaaaaaaaaaaaaaaaaaaaaaaaaaaaaaaaaaaaaaaaaaaaaaaaaaaaaaaaaaa";
const H2: &str = "bbbbbbbbbbbbbbbbbbbbbbbbbbbbbbbbbbbbbbbbbbbbbbbbbbbbbbbbbbbbbbbb";
const H3: &str = "cccccccccccccccccccccccccccccccccccccccccccccccccccccccccccccccc";

fn sha_value() -> String {
    format!(
        "\n{} 100 main/binary-amd64/Packages.xz\n{} 50 main/Contents-amd64.gz\n{} 10 main/binary-all/Release",
        H1, H2, H3
    )
}

#[test]
fn checksum_table_parses_filters_classifies() {
    let comps = vec!["main".to_string()];
    let items = checksum_table(&sha_value(), &comps, "amd64").unwrap();
    assert_eq!(items.len(), 3);
    assert_eq!(items[0].name, "main/binary-amd64/Packages.xz");
    assert_eq!(items[0].size, 100);
    assert_eq!(items[0].checksum, H1);
    assert_eq!(
        items[0].file_type,
        DistFileType::CompressPackageList("xz".to_string())
    );
    assert_eq!(items[1].file_type, DistFileType::CompressContents("gz".to_string()));
    assert_eq!(items[2].file_type, DistFileType::Release);
}

#[test]
fn checksum_table_filter_falls_back_when_empty() {
    // no entry mentions this architecture or a matching component, so the
    // unfiltered table is used
    let comps = vec!["contrib".to_string()];
    let items = checksum_table(&sha_value(), &comps, "riscv64").unwrap();
    assert_eq!(items.len(), 3);
}

#[test]
fn checksum_table_drops_debian_installer() {
    let comps = vec!["main".to_string()];
    let value = format!(
        "\n{} 100 main/binary-amd64/Packages.xz\n{} 5 main/debian-installer/binary-amd64/Packages.xz",
        H1, H2
    );
    let items = checksum_table(&value, &comps, "amd64").unwrap();
    assert_eq!(items.len(), 1);
    assert_eq!(items[0].name, "main/binary-amd64/Packages.xz");
}

#[test]
fn checksum_table_bad_entry() {
    let comps = vec!["main".to_string()];
    let value = format!("\n{} 100", H1);
    match checksum_table(&value, &comps, "amd64") {
        Err(InReleaseParserError::BadChecksumEntry(_)) => {}
        other => panic!("expected BadChecksumEntry, got {:?}", other.err()),
    }
}

#[test]
fn checksum_table_bad_size() {
    let comps = vec!["main".to_string()];
    let value = format!("\n{} notasize main/binary-amd64/Packages.xz", H1);
    match checksum_table(&value, &comps, "amd64") {
        Err(InReleaseParserError::ParseIntError(s)) => assert_eq!(s, "notasize"),
        other => panic!("expected ParseIntError, got {:?}", other.err()),
    }
}

fn release_doc(date: &str, valid_until: Option<&str>) -> String {
    let mut doc = String::new();
    doc.push_str("Origin: Test\n");
    doc.push_str(&format!("Date: {}\n", date));
    if let Some(vu) = valid_until {
        doc.push_str(&format!("Valid-Until: {}\n", vu));
    }
    doc.push_str("SHA256:");
    doc.push_str(&sha_value().replace('\n', "\n "));
    doc.push('\n');
    doc
}

fn parse_at(doc: &str, is_flat: bool, now: i64) -> Result<InReleaseParser, InReleaseParserError> {
    let comps = vec!["main".to_string()];
    InReleaseParser::new(
        InRelease {
            inrelease: doc,
            trust_files: None,
            mirror: "http://m/debian",
            arch: "amd64",
            is_flat,
            p: "/var/lib/apt/lists/test_InRelease",
            rootfs: "/",
            components: &comps,
        },
        now,
    )
}

const DATE: &str = "Thu, 02 May 2024 09:58:03 +0000";
const VALID_UNTIL: &str = "Sat, 01 Jun 2024 00:00:00 +0000";

#[test]
fn release_fresh_accepted() {
    let doc = release_doc(DATE, Some(VALID_UNTIL));
    let now = parse_date(DATE).unwrap() + 3600;
    let parser = parse_at(&doc, false, now).unwrap();
    assert_eq!(parser.checksums.len(), 3);
}

#[test]
fn release_future_date_rejected() {
    let doc = release_doc(DATE, Some(VALID_UNTIL));
    let now = parse_date(DATE).unwrap() - 3600;
    match parse_at(&doc, false, now) {
        Err(InReleaseParserError::EarlierSignature(_)) => {}
        other => panic!("expected EarlierSignature, got {:?}", other.err()),
    }
}

#[test]
fn release_expired_rejected() {
    let doc = release_doc(DATE, Some(VALID_UNTIL));
    let now = parse_date(VALID_UNTIL).unwrap() + 3600;
    match parse_at(&doc, false, now) {
        Err(InReleaseParserError::ExpiredSignature(_)) => {}
        other => panic!("expected ExpiredSignature, got {:?}", other.err()),
    }
}

#[test]
fn release_flat_skips_freshness() {
    let doc = release_doc(DATE, Some(VALID_UNTIL));
    // far past the expiry, and even before the date: flat still accepts
    let early = parse_date(DATE).unwrap() - 10_000;
    let late = parse_date(VALID_UNTIL).unwrap() + 10_000;
    assert!(parse_at(&doc, true, early).is_ok());
    assert!(parse_at(&doc, true, late).is_ok());
}

#[test]
fn release_missing_valid_until_accepted() {
    let doc = release_doc(DATE, None);
    let now = parse_date(DATE).unwrap() + 100_000_000;
    assert!(parse_at(&doc, false, now).is_ok());
}

#[test]
fn release_missing_date_rejected() {
    let doc = format!("Origin: Test\nSHA256:{}\n", sha_value().replace('\n', "\n "));
    let now = parse_date(DATE).unwrap();
    match parse_at(&doc, false, now) {
        Err(InReleaseParserError::BadInReleaseData) => {}
        other => panic!("expected BadInReleaseData, got {:?}", other.err()),
    }
}

#[test]
fn release_missing_sha256_rejected() {
    let doc = format!("Origin: Test\nDate: {}\n", DATE);
    let now = parse_date(DATE).unwrap() + 1;
    match parse_at(&doc, false, now) {
        Err(InReleaseParserError::BadSha256Value(_)) => {}
        other => panic!("expected BadSha256Value, got {:?}", other.err()),
    }
}

#[test]
fn release_clear_signed_payload_extracted() {
    let inner = release_doc(DATE, Some(VALID_UNTIL));
    let mut doc = String::new();
    doc.push_str("-----BEGIN PGP SIGNED MESSAGE-----\n");
    doc.push_str("Hash: SHA256\n");
    doc.push('\n');
    doc.push_str(&inner);
    doc.push_str("-----BEGIN PGP SIGNATURE-----\n");
    doc.push_str("bm90IGEgcmVhbCBzaWduYXR1cmU=\n");
    doc.push_str("-----END PGP SIGNATURE-----\n");
    let now = parse_date(DATE).unwrap() + 3600;
    let parser = parse_at(&doc, false, now).unwrap();
    assert_eq!(parser.checksums.len(), 3);
}

#[test]
fn release_broken_clear_sign_framing_rejected() {
    let doc = "-----BEGIN PGP SIGNED MESSAGE-----\nHash: SHA256\n";
    let now = parse_date(DATE).unwrap();
    match parse_at(doc, false, now) {
        Err(InReleaseParserError::NoSignature) => {}
        other => panic!("expected NoSignature, got {:?}", other.err()),
    }
}

#[test]
fn control_parser_paragraphs_and_continuations() {
    let doc = "A: 1\nB:\n x\n y\n\nC: 2\n";
    let paras = oma::control::parse_control(doc).unwrap();
    assert_eq!(paras.len(), 2);
    assert_eq!(paras[0].get("A"), Some("1".to_string()));
    assert_eq!(paras[0].get("B"), Some("\nx\ny".to_string()));
    assert_eq!(paras[0].get("Missing"), None);
    assert_eq!(paras[1].get("C"), Some("2".to_string()));
}

#[test]
fn control_parser_rejects_lone_continuation() {
    assert!(oma::control::parse_control(" leading continuation\n").is_none());
}

#[test]
fn control_parser_rejects_missing_colon() {
    assert!(oma::control::parse_control("no colon here\n").is_none());
}

#[test]
fn control_parser_crlf() {
    let doc = "A: 1\r\nB: 2\r\n";
    let paras = oma::control::parse_control(doc).unwrap();
    assert_eq!(paras[0].get("A"), Some("1".to_string()));
    assert_eq!(paras[0].get("B"), Some("2".to_string()));
}

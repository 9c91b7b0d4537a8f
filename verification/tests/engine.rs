use oma::checksum::verify_checksum;
use oma::codec::{decompress, verify_and_extract, CodecError, ExtractError};
use oma::escape::{database_filename, url_no_escape};
use oma::fetch::{
    effective_concurrency, local_source_path, open_mode, precheck_action, resume_plan,
    sink_kind, sort_sources, status_action, AttemptOutcome, DownloadEntry, DownloadError,
    DownloadSource, DownloadSourceType, OpenMode, PlanRunner, PrecheckAction, ProgressCounters,
    RunnerStep, SinkKind,
};
use oma::refresh::{
    build_index_plan, check_closed_topic, release_fetch_plan, select_stage2, total_size,
    RefreshError,
};
use oma::source::{OmaSourceEntry, OmaSourceEntryFrom, SourceEntryData};

use sha2::Digest;
use std::io::Write;

#[test]
fn escape_strips_scheme_and_separators() {
    let name = database_filename("http://mirror.example/debian/dists/stable/InRelease").unwrap();
    assert_eq!(name, "mirror.example_debian_dists_stable_InRelease");
    assert!(!name.contains('/'));
}

#[test]
fn escape_is_injective_on_tricky_names() {
    // a_b and a/b must not collide: the underscore is percent-encoded first
    let n1 = database_filename("http://h/a_b").unwrap();
    let n2 = database_filename("http://h/a/b").unwrap();
    assert_ne!(n1, n2);
    assert_eq!(n1, "h_a%5fb");
    assert_eq!(n2, "h_a_b");
    // a literal percent round-trips through its own escape
    let n3 = database_filename("http://h/a%b").unwrap();
    assert_eq!(n3, "h_a%25b");
}

#[test]
fn escape_rejects_schemeless() {
    assert!(database_filename("no-scheme-here").is_none());
}

#[test]
fn percent_decode_fixed_point() {
    assert_eq!(url_no_escape("/srv/a%20b"), Some("/srv/a b".to_string()));
    // double-encoded input needs two passes
    assert_eq!(url_no_escape("/srv/a%2520b"), Some("/srv/a b".to_string()));
    // no escapes: unchanged
    assert_eq!(url_no_escape("/plain/path"), Some("/plain/path".to_string()));
}

#[test]
fn local_source_path_strips_scheme() {
    assert_eq!(
        local_source_path("file:/srv/local%20repo").unwrap(),
        "/srv/local repo"
    );
    assert!(matches!(
        local_source_path("http://not-a-file"),
        Err(DownloadError::InvalidUrl(_))
    ));
}

#[test]
fn checksum_verifies_known_digest() {
    // the SHA-256 digest of "abc"
    let expected = "ba7816bf8f01cfea414140de5dae2223b00361a396177a9cb410ff61f20015ad";
    assert_eq!(verify_checksum(b"abc", expected).unwrap(), true);
    // uppercase digests are normalized before comparison
    let upper = expected.to_uppercase();
    assert_eq!(verify_checksum(b"abc", &upper).unwrap(), true);
    assert_eq!(verify_checksum(b"abd", expected).unwrap(), false);
    assert!(verify_checksum(b"abc", "zz").is_err());
}

#[test]
fn gzip_round_trip() {
    let plain = b"Package: fish\nVersion: 3.7\n".to_vec();
    let mut enc = flate2::write::GzEncoder::new(Vec::new(), flate2::Compression::default());
    enc.write_all(&plain).unwrap();
    let compressed = enc.finish().unwrap();
    assert_eq!(decompress(&compressed, "Packages.gz").unwrap(), plain);
}

#[test]
fn xz_round_trip() {
    let plain = b"Package: fish\nVersion: 3.7\n".to_vec();
    let mut enc = xz2::write::XzEncoder::new(Vec::new(), 6);
    enc.write_all(&plain).unwrap();
    let compressed = enc.finish().unwrap();
    assert_eq!(decompress(&compressed, "Packages.xz").unwrap(), plain);
}

#[test]
fn decompress_unknown_suffix_rejected() {
    assert!(matches!(
        decompress(b"whatever", "Packages.zst"),
        Err(CodecError::UnsupportedCodec(_))
    ));
}

#[test]
fn verify_and_extract_checks_digest_first() {
    let plain = b"index body\n".to_vec();
    let mut enc = flate2::write::GzEncoder::new(Vec::new(), flate2::Compression::default());
    enc.write_all(&plain).unwrap();
    let compressed = enc.finish().unwrap();
    let digest = {
        let d = sha2::Sha256::digest(&compressed);
        d.iter().map(|b| format!("{:02x}", b)).collect::<String>()
    };
    assert_eq!(
        verify_and_extract(&compressed, "Packages.gz", &digest).unwrap(),
        plain
    );
    let wrong = digest.replace(|c: char| c.is_ascii_hexdigit(), "0");
    assert!(matches!(
        verify_and_extract(&compressed, "Packages.gz", &wrong),
        Err(ExtractError::Mismatch(_))
    ));
    assert!(matches!(
        verify_and_extract(&compressed, "Packages.gz", "tooshort"),
        Err(ExtractError::Digest(_))
    ));
}

#[test]
fn progress_ledger_conserves_bytes() {
    let mut c = ProgressCounters::new(2);
    c.inc(0, 100);
    c.inc(1, 50);
    assert_eq!(c.global, 150);
    c.inc(0, 25);
    assert_eq!(c.global, 175);
    // checksum failure on task 0: its bytes leave the global counter
    c.rollback(0);
    assert_eq!(c.global, 50);
    assert_eq!(c.tasks[0], 0);
    assert_eq!(c.tasks[1], 50);
}

fn one_source_entry() -> DownloadEntry {
    DownloadEntry::new(
        "http://m/debian/dists/stable/InRelease".to_string(),
        "m_debian_dists_stable_InRelease".to_string(),
        "/var/lib/apt/lists".to_string(),
        None,
        false,
        DownloadSourceType::Http,
    )
}

#[test]
fn cache_hit_issues_no_body_request() {
    let mut runner = PlanRunner::new(one_source_entry(), 7, 3, None);
    let summary = runner.cache_hit();
    assert!(summary.hit);
    assert_eq!(summary.count, 7);
    assert_eq!(runner.body_requests, 0);
}

#[test]
fn retry_bound_only_checksum_mismatch_retries() {
    let mut runner = PlanRunner::new(one_source_entry(), 0, 3, None);
    for expect in 0..3u64 {
        match runner.on_attempt(&AttemptOutcome::ChecksumMismatch) {
            RunnerStep::Retry { times } => assert_eq!(times as u64, expect),
            _ => panic!("expected a retry"),
        }
    }
    // the fourth mismatch exhausts the retries: the single source fails
    match runner.on_attempt(&AttemptOutcome::ChecksumMismatch) {
        RunnerStep::Done(Err(DownloadError::ChecksumMismatch(url, dir))) => {
            assert_eq!(url, "http://m/debian/dists/stable/InRelease");
            assert_eq!(dir, "/var/lib/apt/lists");
        }
        _ => panic!("expected the plan to fail"),
    }
    assert_eq!(runner.body_requests, 4);
}

#[test]
fn non_mismatch_never_retries() {
    let mut runner = PlanRunner::new(one_source_entry(), 0, 3, None);
    match runner.on_attempt(&AttemptOutcome::HttpStatus(500)) {
        RunnerStep::Done(Err(DownloadError::HttpStatus(code, _))) => assert_eq!(code, 500),
        _ => panic!("expected immediate failure"),
    }
    assert_eq!(runner.body_requests, 1);
}

fn two_source_entry() -> DownloadEntry {
    DownloadEntry {
        source: vec![
            DownloadSource {
                url: "file:/srv/mirror/InRelease".to_string(),
                source_type: DownloadSourceType::Local,
            },
            DownloadSource {
                url: "http://m/InRelease".to_string(),
                source_type: DownloadSourceType::Http,
            },
        ],
        filename: "f".to_string(),
        dir: "/var/lib/apt/lists".to_string(),
        hash: None,
        allow_resume: false,
        extract: false,
    }
}

#[test]
fn source_fallback_on_not_found() {
    let mut runner = PlanRunner::new(two_source_entry(), 0, 3, None);
    assert_eq!(runner.current_source(), 0);
    match runner.on_attempt(&AttemptOutcome::NotFound) {
        RunnerStep::NextSource => {}
        _ => panic!("expected fallback to the next source"),
    }
    assert_eq!(runner.current_source(), 1);
    // the second (last) source failing fails the plan
    match runner.on_attempt(&AttemptOutcome::NotFound) {
        RunnerStep::Done(Err(DownloadError::NotFound(url))) => {
            assert_eq!(url, "http://m/InRelease");
        }
        _ => panic!("expected the plan to fail after all sources"),
    }
}

#[test]
fn fallback_resets_retry_counter() {
    let mut runner = PlanRunner::new(two_source_entry(), 0, 1, None);
    assert!(matches!(
        runner.on_attempt(&AttemptOutcome::ChecksumMismatch),
        RunnerStep::Retry { .. }
    ));
    assert!(matches!(
        runner.on_attempt(&AttemptOutcome::ChecksumMismatch),
        RunnerStep::NextSource
    ));
    // on the new source the retry budget is fresh
    assert!(matches!(
        runner.on_attempt(&AttemptOutcome::ChecksumMismatch),
        RunnerStep::Retry { times: 0 }
    ));
}

#[test]
fn success_finishes_plan() {
    let mut runner = PlanRunner::new(two_source_entry(), 3, 2, Some("ctx".to_string()));
    match runner.on_attempt(&AttemptOutcome::Success) {
        RunnerStep::Done(Ok(s)) => {
            assert!(!s.hit);
            assert_eq!(s.count, 3);
            assert_eq!(s.filename, "f");
            assert_eq!(s.context, Some("ctx".to_string()));
        }
        _ => panic!("expected success"),
    }
}

#[test]
fn sources_sort_local_first() {
    let sources = vec![
        DownloadSource { url: "http://a".to_string(), source_type: DownloadSourceType::Http },
        DownloadSource { url: "file:/b".to_string(), source_type: DownloadSourceType::Local },
        DownloadSource { url: "http://c".to_string(), source_type: DownloadSourceType::Http },
    ];
    let sorted = sort_sources(&sources);
    assert_eq!(sorted.len(), 3);
    assert_eq!(sorted[0].url, "file:/b");
    assert_eq!(sorted[1].url, "http://a");
    assert_eq!(sorted[2].url, "http://c");
}

#[test]
fn concurrency_clamped() {
    assert_eq!(effective_concurrency(None), 4);
    assert_eq!(effective_concurrency(Some(0)), 1);
    assert_eq!(effective_concurrency(Some(8)), 8);
    assert_eq!(effective_concurrency(Some(99)), 16);
}

#[test]
fn precheck_decisions() {
    assert!(matches!(precheck_action(true, true, true, false), PrecheckAction::CacheHit));
    assert!(matches!(
        precheck_action(true, true, false, false),
        PrecheckAction::RollbackRestart
    ));
    assert!(matches!(
        precheck_action(true, true, false, true),
        PrecheckAction::ResumeValidated
    ));
    assert!(matches!(precheck_action(false, true, true, true), PrecheckAction::Fresh));
    assert!(matches!(precheck_action(true, false, false, true), PrecheckAction::Fresh));
}

#[test]
fn resume_plan_decisions() {
    // resumable, file shorter than remote: ranged request from the file size
    let p = resume_plan(Some("bytes"), Some(100), true, 40);
    assert!(p.can_resume);
    assert_eq!(p.range_from, Some(40));
    assert_eq!(p.total_size, 100);
    assert!(!p.rollback_existing);

    // file already as long as the remote: reset and start over
    let p = resume_plan(Some("bytes"), Some(40), true, 40);
    assert!(!p.can_resume);
    assert!(p.rollback_existing);
    assert_eq!(p.file_size, 0);
    assert_eq!(p.range_from, Some(0));

    // the header says no
    let p = resume_plan(Some("none"), Some(100), true, 40);
    assert!(!p.can_resume);
    assert_eq!(p.range_from, None);

    // no header at all, and a missing length defaults to zero
    let p = resume_plan(None, None, true, 40);
    assert!(!p.can_resume);
    assert_eq!(p.total_size, 0);
}

#[test]
fn open_mode_decisions() {
    assert!(matches!(open_mode(false, true, false), OpenMode::TruncateCreate));
    assert!(matches!(open_mode(true, false, false), OpenMode::TruncateCreate));
    assert!(matches!(open_mode(true, true, true), OpenMode::ReuseHandle));
    assert!(matches!(open_mode(true, true, false), OpenMode::CreateSeekEnd));
}

#[test]
fn sink_kind_decisions() {
    assert!(matches!(sink_kind(true, "http://m/Packages.xz"), SinkKind::Xz));
    assert!(matches!(sink_kind(true, "http://m/Packages.gz"), SinkKind::Gz));
    assert!(matches!(sink_kind(true, "http://m/Packages"), SinkKind::Plain));
    assert!(matches!(sink_kind(false, "http://m/Packages.xz"), SinkKind::Plain));
}

#[test]
fn status_decisions() {
    assert!(status_action(200, "u").is_ok());
    assert!(status_action(304, "u").is_ok());
    assert!(matches!(status_action(404, "u"), Err(DownloadError::NotFound(_))));
    assert!(matches!(status_action(500, "u"), Err(DownloadError::HttpStatus(500, _))));
}

fn dist_entry() -> OmaSourceEntry {
    OmaSourceEntry::new(&SourceEntryData {
        url: "http://m/debian".to_string(),
        suite: "stable".to_string(),
        components: vec!["main".to_string()],
        options: None,
    })
    .unwrap()
}

#[test]
fn source_entry_dist_layout() {
    let e = dist_entry();
    assert_eq!(e.from, OmaSourceEntryFrom::Http);
    assert!(!e.is_flat);
    assert_eq!(e.dist_path, "http://m/debian/dists/stable");
    assert_eq!(e.inrelease_path, "http://m/debian/dists/stable/InRelease");
    assert_eq!(e.signed_by, None);
    assert!(!e.trusted);
}

#[test]
fn source_entry_flat_layout() {
    let e = OmaSourceEntry::new(&SourceEntryData {
        url: "file:///srv/local".to_string(),
        suite: "/".to_string(),
        components: vec![],
        options: None,
    })
    .unwrap();
    assert_eq!(e.from, OmaSourceEntryFrom::Local);
    assert!(e.is_flat);
    assert_eq!(e.dist_path, "file:///srv/local");
    assert_eq!(e.inrelease_path, "file:///srv/local/Release");
}

#[test]
fn source_entry_options_parsed() {
    let e = OmaSourceEntry::new(&SourceEntryData {
        url: "http://m/debian".to_string(),
        suite: "stable".to_string(),
        components: vec!["main".to_string()],
        options: Some("arch=amd64 signed-by=/etc/keyring.gpg trusted=yes".to_string()),
    })
    .unwrap();
    assert_eq!(e.signed_by, Some("/etc/keyring.gpg".to_string()));
    assert!(e.trusted);
}

#[test]
fn source_entry_unsupported_protocol() {
    let r = OmaSourceEntry::new(&SourceEntryData {
        url: "ftp://m/debian".to_string(),
        suite: "stable".to_string(),
        components: vec!["main".to_string()],
        options: None,
    });
    assert!(matches!(r, Err(RefreshError::UnsupportedProtocol(_))));
    // components empty without the flat marker is rejected too
    let r = OmaSourceEntry::new(&SourceEntryData {
        url: "http://m/debian".to_string(),
        suite: "stable".to_string(),
        components: vec![],
        options: None,
    });
    assert!(matches!(r, Err(RefreshError::UnsupportedProtocol(_))));
}

#[test]
fn release_plan_built() {
    let e = dist_entry();
    let plan = release_fetch_plan(&e, "/var/lib/apt/lists").unwrap();
    assert_eq!(plan.source.len(), 1);
    assert_eq!(plan.source[0].url, "http://m/debian/dists/stable/InRelease");
    assert_eq!(plan.filename, "m_debian_dists_stable_InRelease");
    assert_eq!(plan.hash, None);
    assert!(!plan.allow_resume);
    assert!(!plan.extract);
}

#[test]
fn closed_topic_absorbs_known_suite() {
    let removed = vec!["experimental-x".to_string()];
    assert!(check_closed_topic("http://m/debian/dists/experimental-x/InRelease", &removed)
        .is_ok());
    assert!(matches!(
        check_closed_topic("http://m/debian/dists/stable/InRelease", &removed),
        Err(RefreshError::NoInReleaseFile(_))
    ));
    assert!(matches!(
        check_closed_topic("nopath", &removed),
        Err(RefreshError::InvaildUrl(_))
    ));
}

fn sample_items() -> Vec<oma::inrelease::ChecksumItem> {
    let comps = vec!["main".to_string()];
    let value = format!(
        "\n{h} 100 main/binary-amd64/Packages.xz\n{h} 90 main/binary-amd64/Packages\n{h} 50 main/Contents-amd64.gz\n{h} 40 main/Contents-amd64\n{h} 30 main/BinContents-amd64\n{h} 10 main/binary-all/Release",
        h = "aaaaaaaaaaaaaaaaaaaaaaaaaaaaaaaaaaaaaaaaaaaaaaaaaaaaaaaaaaaaaaaa"
    );
    oma::inrelease::checksum_table(&value, &comps, "amd64").unwrap()
}

#[test]
fn stage2_selection_compressed() {
    let items = sample_items();
    let selected = select_stage2(&items, false, true);
    let names: Vec<&str> = selected.iter().map(|i| i.name.as_str()).collect();
    assert_eq!(
        names,
        vec![
            "main/binary-amd64/Packages.xz",
            "main/Contents-amd64.gz",
            "main/BinContents-amd64"
        ]
    );
}

#[test]
fn stage2_selection_uncompressed() {
    let items = sample_items();
    let selected = select_stage2(&items, false, false);
    let names: Vec<&str> = selected.iter().map(|i| i.name.as_str()).collect();
    assert_eq!(
        names,
        vec![
            "main/binary-amd64/Packages",
            "main/Contents-amd64",
            "main/BinContents-amd64"
        ]
    );
}

#[test]
fn stage2_selection_flat() {
    let items = sample_items();
    let selected = select_stage2(&items, true, true);
    let names: Vec<&str> = selected.iter().map(|i| i.name.as_str()).collect();
    assert_eq!(names, vec!["main/binary-amd64/Packages"]);
}

#[test]
fn stage2_total_size() {
    let items = sample_items();
    assert_eq!(total_size(&items), Some(100 + 90 + 50 + 40 + 30 + 10));
}

#[test]
fn index_plan_built() {
    let e = dist_entry();
    let items = sample_items();
    // the compressed package list
    let plan = build_index_plan(&e, &items[0], "/var/lib/apt/lists").unwrap();
    assert_eq!(
        plan.source[0].url,
        "http://m/debian/dists/stable/main/binary-amd64/Packages.xz"
    );
    assert_eq!(
        plan.filename,
        "m_debian_dists_stable_main_binary-amd64_Packages"
    );
    assert!(plan.allow_resume);
    assert!(plan.extract);
    assert_eq!(
        plan.hash,
        Some("aaaaaaaaaaaaaaaaaaaaaaaaaaaaaaaaaaaaaaaaaaaaaaaaaaaaaaaaaaaaaaaa".to_string())
    );
    // an uncompressed one is not extracted
    let plan = build_index_plan(&e, &items[1], "/var/lib/apt/lists").unwrap();
    assert!(!plan.extract);
}

use oma::util::{
    check_unsupported_stmt, is_nothing_to_do, needs_selection_change, no_check_dbus_warn,
    parse_selections, HumanBytes, LockError,
};

#[test]
fn human_bytes_rendering() {
    assert_eq!(HumanBytes(0).render(), "0B");
    assert_eq!(HumanBytes(500).render(), "500B");
    assert_eq!(HumanBytes(1023).render(), "1023B");
    assert_eq!(HumanBytes(1024).render(), "1.00 KiB");
    assert_eq!(HumanBytes(1536).render(), "1.50 KiB");
    assert_eq!(HumanBytes(1024 * 1024).render(), "1.00 MiB");
    assert_eq!(HumanBytes(5 * 1024 * 1024 * 1024).render(), "5.00 GiB");
}

#[test]
fn nothing_to_do_when_empty() {
    assert!(is_nothing_to_do(0, 0, true));
    assert!(is_nothing_to_do(0, 0, false));
    assert!(!is_nothing_to_do(1, 0, false));
    assert!(!is_nothing_to_do(0, 2, true));
}

#[test]
fn unsupported_stmt_detected() {
    assert!(check_unsupported_stmt("apt"));
    assert!(check_unsupported_stmt("pkg-name.v2:amd64"));
    assert!(!check_unsupported_stmt("apt/stable"));
}

#[test]
fn unsupported_stmt_rejects_spaces() {
    assert!(!check_unsupported_stmt("two words"));
    assert!(!check_unsupported_stmt("semi;colon"));
}

#[test]
fn dbus_warning_text() {
    assert!(no_check_dbus_warn().contains("dbus"));
}

#[test]
fn lock_error_description() {
    let e = LockError { source: "permission denied".to_string() };
    assert_eq!(e.description(), "Failed to lock oma");
}

#[test]
fn selections_parsed() {
    let out = "fish\t\t\tinstall\nvim\t\t\thold\n";
    let list = parse_selections(out).unwrap();
    assert_eq!(list.len(), 2);
    assert_eq!(list[0], ("fish".to_string(), "install".to_string()));
    assert_eq!(list[1], ("vim".to_string(), "hold".to_string()));
    assert!(!needs_selection_change(&list, "vim", true));
    assert!(needs_selection_change(&list, "fish", true));
    assert!(!needs_selection_change(&list, "fish", false));
    assert!(needs_selection_change(&list, "absent", true));
}

#[test]
fn selections_malformed() {
    assert!(parse_selections("only-one-column\n").is_none());
}

#[test]
fn package_candidates_planned() {
    let lists = "Package: fish\nVersion: 3.7\nFilename: pool/stable/main/f/fish.deb\nSHA256: abc123\n\nPackage: vim\nFilename: pool/stable/main/v/vim.deb\nSHA256: def456\n";
    let apt = oma::control::parse_control(lists).unwrap();
    let stable = oma::source::OmaSourceEntry::new(&oma::source::SourceEntryData {
        url: "http://m/debian".to_string(),
        suite: "stable".to_string(),
        components: vec!["main".to_string()],
        options: None,
    })
    .unwrap();
    let testing = oma::source::OmaSourceEntry::new(&oma::source::SourceEntryData {
        url: "http://m/debian".to_string(),
        suite: "testing".to_string(),
        components: vec!["main".to_string()],
        options: None,
    })
    .unwrap();
    let sources = vec![stable, testing];
    let (urls, checksum) =
        oma::pkg::package_download_candidates("vim", &apt, &sources).unwrap();
    assert_eq!(urls, vec!["http://m/debian/pool/stable/main/v/vim.deb".to_string()]);
    assert_eq!(checksum, "def456");
    assert!(matches!(
        oma::pkg::package_download_candidates("absent", &apt, &sources),
        Err(oma::pkg::PkgError::NoPackage(_))
    ));
}

#[test]
fn get_from_reads_branch_and_component() {
    assert_eq!(
        oma::pkg::get_from("pool/stable/main/f/fish.deb"),
        Some("stable/main".to_string())
    );
    assert_eq!(oma::pkg::get_from("too/short"), None);
}

#[test]
fn source_line_parsed() {
    let d = oma::source::parse_source_line("deb http://m/debian stable main contrib").unwrap();
    assert_eq!(d.url, "http://m/debian");
    assert_eq!(d.suite, "stable");
    assert_eq!(d.components, vec!["main".to_string(), "contrib".to_string()]);
    assert_eq!(d.options, None);

    let d = oma::source::parse_source_line(
        "deb [signed-by=/k.gpg trusted=yes] http://m/debian stable main",
    )
    .unwrap();
    assert_eq!(d.options, Some("signed-by=/k.gpg trusted=yes".to_string()));
    assert_eq!(d.url, "http://m/debian");

    assert!(oma::source::parse_source_line("# a comment").is_none());
    assert!(oma::source::parse_source_line("").is_none());
    assert!(oma::source::parse_source_line("deb-src http://m/debian stable main").is_none());
    assert!(oma::source::parse_source_line("deb http://m/debian").is_none());
}

#[test]
fn select_list_size_by_height() {
    assert_eq!(oma::util::tui_select_list_size(1), 1);
    assert_eq!(oma::util::tui_select_list_size(6), 1);
    assert_eq!(oma::util::tui_select_list_size(7), 1);
    assert_eq!(oma::util::tui_select_list_size(25), 19);
    assert_eq!(oma::util::tui_select_list_size(26), 20);
    assert_eq!(oma::util::tui_select_list_size(200), 20);
}

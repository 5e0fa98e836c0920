use rokr::upgrade::{
    homebrew_report, is_homebrew_managed, parse_mock_check_outcome, upgrade_report, UpdateOutcome,
};

#[test]
fn homebrew_managed_install_detected_from_binary_path_under_cellar_prefix() {
    let cellar_path = "/opt/homebrew/Cellar/rokr/1.2.3/bin/rokr";
    assert!(
        is_homebrew_managed(cellar_path),
        "expected a path under /Cellar/ to be detected as Homebrew-managed"
    );

    let intel_cellar_path = "/usr/local/Cellar/rokr/1.2.3/bin/rokr";
    assert!(
        is_homebrew_managed(intel_cellar_path),
        "expected a path under the Intel Homebrew /usr/local/Cellar/ prefix to be detected as \
         Homebrew-managed"
    );

    let non_cellar_path = "/Users/bharat/.cargo/bin/rokr";
    assert!(
        !is_homebrew_managed(non_cellar_path),
        "expected a non-Cellar path to NOT be detected as Homebrew-managed"
    );
}

#[test]
fn outcomes_are_read_from_their_texts() {
    assert_eq!(parse_mock_check_outcome("up-to-date"), Ok(UpdateOutcome::UpToDate));
    assert_eq!(
        parse_mock_check_outcome("update-available:2.0"),
        Ok(UpdateOutcome::Updated { new_version: "2.0".to_string() })
    );
    assert_eq!(parse_mock_check_outcome("error:no network"), Err("no network".to_string()));
    assert_eq!(
        parse_mock_check_outcome("a\tb"),
        Err("unrecognized ROKR_UPGRADE_MOCK_CHECK_OUTCOME value: \"a\\tb\"".to_string())
    );
}

#[test]
fn reports_say_what_happened() {
    let report = homebrew_report();
    assert!(report.success);
    assert_eq!(report.text, "rokr is managed by Homebrew; run `brew upgrade rokr` to update.");
    let report = upgrade_report(&Ok(UpdateOutcome::UpToDate));
    assert!(report.success);
    assert_eq!(report.text, "rokr is already up to date.");
    let report = upgrade_report(&Ok(UpdateOutcome::Updated { new_version: "2.0".to_string() }));
    assert!(report.success);
    assert_eq!(report.text, "Updated rokr to version 2.0.");
    let report = upgrade_report(&Err("offline".to_string()));
    assert!(!report.success);
    assert_eq!(report.text, "failed to check for updates: offline");
}

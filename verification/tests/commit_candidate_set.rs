use rokr::commit_candidate_set::{distinct_touched_paths, manifest_path};
use rokr::io_failure::IoFailure;

fn parse(line: &str) -> Option<String> {
    let value: serde_json::Value = serde_json::from_str(line).ok()?;
    value.get("snapshot_id")?.as_str()?;
    value.get("path")?.as_str().map(|p| p.to_string())
}

fn line(id: &str, path: &str) -> String {
    format!("{{\"snapshot_id\":\"{id}\",\"path\":\"{path}\"}}\n")
}

#[test]
fn empty_session_manifest_yields_empty_candidate_set() {
    let result = distinct_touched_paths(Err(IoFailure::missing("no manifest")), parse)
        .expect("no manifest file is not an error");

    assert_eq!(result, Vec::<String>::new());
}

#[test]
fn single_turn_multiple_snapshots_of_same_path_yield_one_entry() {
    let result = distinct_touched_paths(Ok(line("0-a", "a.rs")), parse)
        .expect("manifest exists and should parse");

    assert_eq!(result, vec!["a.rs".to_string()]);
}

#[test]
fn distinct_paths_touched_across_multiple_turns_are_deduped() {
    let manifest = line("0-a", "a.rs") + &line("1-b", "b.rs") + &line("2-a", "a.rs");
    let result = distinct_touched_paths(Ok(manifest), parse)
        .expect("manifest exists and should parse");

    assert_eq!(result, vec!["a.rs".to_string(), "b.rs".to_string()]);
}

#[test]
fn unreadable_lines_are_passed_over_and_paths_are_ordered() {
    let manifest = line("0", "z.rs")
        + "\n   \nnot json\n{\"path\":\"no-id.rs\"}\n"
        + &line("1", "é.rs")
        + &line("2", "B.rs")
        + &line("3", "a.rs");
    assert_eq!(
        distinct_touched_paths(Ok(manifest), parse),
        Ok(vec![
            "B.rs".to_string(),
            "a.rs".to_string(),
            "z.rs".to_string(),
            "é.rs".to_string(),
        ])
    );
}

#[test]
fn other_failures_are_kept() {
    assert_eq!(
        distinct_touched_paths(Err(IoFailure::other("denied")), parse),
        Err(IoFailure::other("denied"))
    );
}

#[test]
fn blank_lines_are_never_parsed() {
    let result = distinct_touched_paths(Ok("\n \t\n".to_string()), |_: &str| -> Option<String> {
        panic!("a blank line is no entry")
    });
    assert_eq!(result, Ok(Vec::new()));
}

#[test]
fn the_manifest_lies_in_the_session_directory() {
    assert_eq!(manifest_path("/d", "s1"), "/d/sessions/s1/snapshot_paths.jsonl");
}

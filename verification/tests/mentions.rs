use rokr::mentions::{
    expand_mentions, MentionResolution, MAX_MENTION_FILE_BYTES,
};

#[test]
fn resolves_valid_at_mention_to_file_contents() {
    let output = expand_mentions("look at @/tmp/some/file.txt please", |path| {
        assert_eq!(path, "/tmp/some/file.txt");
        MentionResolution::Found("some file contents".to_string())
    });

    assert!(
        output.contains("some file contents"),
        "expected expanded output to contain the resolved file contents, got: {output:?}"
    );
    assert!(
        output.contains("/tmp/some/file.txt"),
        "expected expanded output to contain the file path as a header, got: {output:?}"
    );
}

#[test]
fn literal_at_sign_not_resolving_to_a_path_is_left_as_text() {
    let input = "reach out @support for help";

    let output = expand_mentions(input, |_| {
        panic!("resolver should not be called for non-path-shaped tokens")
    });

    assert_eq!(
        output, input,
        "a bare @word with no '/' or '.' is not path-shaped and must be left byte-identical"
    );
}

#[test]
fn per_file_contents_exceeding_cap_are_truncated_with_notice() {
    let oversized = "x".repeat(MAX_MENTION_FILE_BYTES + 500);

    let output = expand_mentions("@/tmp/big.txt", |_| {
        MentionResolution::Found(oversized.clone())
    });

    assert!(
        output.contains("truncated"),
        "expected a truncation notice when file contents exceed the per-file cap, got a \
         {}-byte output",
        output.len()
    );
    assert!(
        output.len() < oversized.len() + 200,
        "expected the output to be meaningfully smaller than the untruncated contents, got \
         {} bytes vs {} original",
        output.len(),
        oversized.len()
    );
}

#[test]
fn per_turn_budget_stops_injecting_further_file_contents() {
    let oversized = "y".repeat(MAX_MENTION_FILE_BYTES + 1000);
    let text = "@/tmp/f1.txt @/tmp/f2.txt @/tmp/f3.txt @/tmp/f4.txt @/tmp/f5.txt";

    let call_count = std::cell::Cell::new(0);
    let output = expand_mentions(text, |_path| {
        call_count.set(call_count.get() + 1);
        MentionResolution::Found(oversized.clone())
    });

    assert_eq!(
        call_count.get(),
        5,
        "resolve should still be called for every mention"
    );
    assert!(
        output.contains("skipped"),
        "expected a skipped/budget notice once the per-turn cap was reached, got output of \
         length {}",
        output.len()
    );
}

#[test]
fn a_found_file_stands_in_a_fenced_block_under_its_path() {
    let output = expand_mentions("see @a/b.txt.", |path| {
        if path == "a/b.txt" || path == "a/b.txt." {
            MentionResolution::Found("body".to_string())
        } else {
            MentionResolution::NotFound
        }
    });
    assert!(output.starts_with("see "));
    assert!(output.contains("body"));
    assert!(output.contains("```"));
}

#[test]
fn a_missing_file_leaves_the_text_as_it_was() {
    let input = "see @no/such/file.txt now";
    let output = expand_mentions(input, |_| MentionResolution::NotFound);
    assert!(output.contains("@no/such/file.txt"));
    assert!(output.starts_with("see "));
    assert!(output.ends_with(" now"));
}

#[test]
fn a_cut_never_splits_a_character() {
    let contents = "é".repeat(MAX_MENTION_FILE_BYTES);
    let output = expand_mentions("@/tmp/e.txt", |_| MentionResolution::Found(contents.clone()));
    let kept = output.matches('é').count();
    assert_eq!(kept * 2, MAX_MENTION_FILE_BYTES);
    assert!(output.contains(&format!(
        "[truncated, showing {} of {} bytes]",
        MAX_MENTION_FILE_BYTES,
        contents.len()
    )));
}

use host_bridge_mcp::output::{OutputRenderOptions, CHAR_TRUNCATION_MARKER};

fn sample_output() -> String {
    "one\ntwo\nthree\nfour\n".to_string()
}

#[test]
fn keeps_output_unchanged_without_limits() {
    let options = OutputRenderOptions::default();
    let output = "line1\nline2\n".to_string();

    assert_eq!(options.apply(output.clone()), output);
}

#[test]
fn returns_head_lines_when_requested() {
    let options = OutputRenderOptions::new(Some(2), None, None);

    assert_eq!(options.apply(sample_output()), "one\ntwo\n");
}

#[test]
fn returns_tail_lines_when_requested() {
    let options = OutputRenderOptions::new(None, Some(2), None);

    assert_eq!(options.apply(sample_output()), "three\nfour\n");
}

#[test]
fn combines_head_and_tail_with_gap_marker() {
    let options = OutputRenderOptions::new(Some(1), Some(1), None);

    assert_eq!(
        options.apply(sample_output()),
        "one\n... [2 lines omitted] ...\nfour\n"
    );
}

#[test]
fn preserves_full_output_when_head_and_tail_overlap() {
    let options = OutputRenderOptions::new(Some(2), Some(2), None);
    let output = sample_output();

    assert_eq!(options.apply(output.clone()), output);
}

#[test]
fn treats_zero_max_chars_as_unlimited() {
    let options = OutputRenderOptions::new(None, None, Some(0));
    let output = sample_output();

    assert_eq!(options.apply(output.clone()), output);
}

#[test]
fn truncates_tail_output_by_characters() {
    let options = OutputRenderOptions::new(None, Some(1), Some(32));
    let output = "prefix\n0123456789abcdefghijklmnopqrstuvwxyz\n".to_string();
    let rendered = options.apply(output);

    assert!(rendered.starts_with(CHAR_TRUNCATION_MARKER));
    assert!(rendered.ends_with("opqrstuvwxyz\n"));
    assert_eq!(rendered.chars().count(), 32);
}

#[test]
fn truncates_mixed_output_around_the_middle() {
    let options = OutputRenderOptions::new(None, None, Some(24));
    let output = "alpha-beta-gamma-delta-epsilon".to_string();
    let rendered = options.apply(output);

    assert!(rendered.contains(CHAR_TRUNCATION_MARKER));
    assert_eq!(rendered.chars().count(), 24);
}

#[test]
fn zero_head_and_tail_lines_return_empty_output() {
    let options = OutputRenderOptions::new(Some(0), Some(0), None);

    assert!(options.apply(sample_output()).is_empty());
}

#[test]
fn head_truncation_keeps_the_start_and_small_budgets_cut_plainly() {
    let options = OutputRenderOptions::new(Some(1), None, Some(25));
    let rendered = options.apply("abcdefghijklmnopqrstuvwxyz\nrest\n".to_string());
    assert_eq!(rendered, format!("abcdef{CHAR_TRUNCATION_MARKER}"));

    let tiny = OutputRenderOptions::new(None, None, Some(3));
    assert_eq!(tiny.apply("abcdef".to_string()), "abc");
    let tiny_tail = OutputRenderOptions::new(None, Some(5), Some(3));
    assert_eq!(tiny_tail.apply("abcdef".to_string()), "def");
}

#[test]
fn unterminated_last_line_counts_as_a_line() {
    let options = OutputRenderOptions::new(None, Some(1), None);
    assert_eq!(options.apply("a\nb\nlast".to_string()), "last");
    let head = OutputRenderOptions::new(Some(5), None, None);
    assert_eq!(head.apply("a\nb".to_string()), "a\nb");
    assert_eq!(head.apply(String::new()), "");
}

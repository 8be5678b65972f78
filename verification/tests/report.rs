use pice_core::report::{
    clean_commit_message, csv_escape, render_adaptive_layer_block, truncate, AdaptiveLayerView,
};

#[test]
fn truncate_keeps_short_strings_untouched() {
    assert_eq!(truncate("hello", 10), "hello");
}

#[test]
fn truncate_uses_ellipsis_for_long_strings() {
    assert_eq!(truncate("hello world", 6), "hello…");
}

#[test]
fn truncate_edges() {
    assert_eq!(truncate("hello", 5), "hello");
    assert_eq!(truncate("héllo wörld", 3), "hé…");
    assert_eq!(truncate("abc", 0), "");
    assert_eq!(truncate("", 0), "");
}

#[test]
fn clean_commit_message_plain() {
    assert_eq!(clean_commit_message("feat(auth): add login"), "feat(auth): add login");
}

#[test]
fn clean_commit_message_with_fences() {
    assert_eq!(clean_commit_message("```\nfeat(auth): add login\n```"), "feat(auth): add login");
}

#[test]
fn clean_commit_message_with_language_fence() {
    assert_eq!(
        clean_commit_message("```text\nfeat(auth): add login\n```"),
        "feat(auth): add login"
    );
}

#[test]
fn clean_commit_message_trims_whitespace() {
    assert_eq!(clean_commit_message("  feat(auth): add login  \n\n"), "feat(auth): add login");
}

#[test]
fn clean_commit_message_empty() {
    assert_eq!(clean_commit_message(""), "");
    assert_eq!(clean_commit_message("   "), "");
}

#[test]
fn clean_commit_message_fence_edges() {
    assert_eq!(clean_commit_message("```"), "");
    assert_eq!(clean_commit_message("```no newline"), "```no newline");
    assert_eq!(clean_commit_message("\u{3000}fix\u{a0}"), "fix");
}

#[test]
fn csv_escape_plain_and_special() {
    assert_eq!(csv_escape("plain"), "\"plain\"");
    assert_eq!(csv_escape("Fix \"auth\" flow, part 1"), "\"Fix \"\"auth\"\" flow, part 1\"");
    assert_eq!(csv_escape("a,b"), "\"a,b\"");
    assert_eq!(csv_escape("line\nbreak"), "\"line\nbreak\"");
    assert_eq!(csv_escape(""), "\"\"");
}

#[test]
fn render_adaptive_layer_block_renders_passes_halted_by_and_confidence() {
    let layers = vec![AdaptiveLayerView {
        name: Some("backend".into()),
        passes_used: Some(3),
        halted_by_present: true,
        halted_by: Some("sprt_confidence_reached".into()),
        confidence_present: true,
        confidence_text: Some(format!("{:.3}", 0.912)),
        cost_present: true,
    }];
    let mut out = String::new();
    render_adaptive_layer_block(&mut out, &layers);
    assert!(out.contains("Adaptive (per-layer)"), "missing box header: {out}");
    assert!(out.contains("backend"), "missing layer name: {out}");
    assert!(out.contains("p=3"), "missing pass count: {out}");
    assert!(out.contains("sprt_confiden"), "missing halted_by prefix: {out}");
    assert!(out.contains("c=0.912"), "missing confidence: {out}");
    assert!(out.contains("  ║ backend      p=3  sprt_confiden… c=0.912  ║\n"), "row: {out}");
}

#[test]
fn render_adaptive_layer_block_skips_legacy_only_layers() {
    let layers = vec![AdaptiveLayerView {
        name: Some("legacy".into()),
        passes_used: Some(0),
        halted_by_present: false,
        halted_by: None,
        confidence_present: false,
        confidence_text: None,
        cost_present: false,
    }];
    let mut out = String::new();
    render_adaptive_layer_block(&mut out, &layers);
    assert!(out.is_empty(), "expected empty render for legacy-only layers; got: {out}");
}

#[test]
fn cleanup_whitespace_agrees_with_std_for_every_char() {
    for u in 0..=0x10FFFFu32 {
        if let Some(c) = char::from_u32(u) {
            let input = format!("{c}x{c}");
            let expected = if c.is_whitespace() { "x".to_string() } else { input.clone() };
            assert_eq!(clean_commit_message(&input), expected, "char U+{u:04X}");
        }
    }
}

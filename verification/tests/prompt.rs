//! Building the prompt.

use lapce_agent::paths::{FilePath, Location};
use lapce_agent::prompt::{
    build_prompt_text, truncate_utf8, ResolvedContext, MAX_CONTEXT_BYTES,
};

/// Builds a resolved context item for the tests.
fn ctx(selection: Option<&str>, content: Option<&str>) -> ResolvedContext {
    ResolvedContext {
        path: FilePath {
            shown: "/ws/a.rs".to_string(),
            absolute: true,
            location: Location { parts: vec![] },
        },
        selection: selection.map(str::to_string),
        content: content.map(str::to_string),
    }
}

#[test]
fn no_context_returns_the_user_text_unchanged() {
    assert_eq!(build_prompt_text("fix it", &[]), "fix it");
}

#[test]
fn selection_wins_over_file_content() {
    let text = build_prompt_text("why?", &[ctx(Some("let x = 1;"), Some("whole file"))]);
    assert!(text.contains("/ws/a.rs (selection)"));
    assert!(text.contains("let x = 1;"));
    assert!(!text.contains("whole file"));
    assert!(text.ends_with("why?"));
}

#[test]
fn file_content_is_used_when_there_is_no_selection() {
    let text = build_prompt_text("why?", &[ctx(None, Some("whole file"))]);
    assert!(text.contains("/ws/a.rs (file)"));
    assert!(text.contains("whole file"));
}

#[test]
fn context_without_any_text_is_skipped() {
    assert_eq!(build_prompt_text("hi", &[ctx(None, None)]), "hi");
}

#[test]
fn huge_content_is_truncated_on_a_char_boundary() {
    // Each 'e' with an accent is 2 bytes, and the whole is twice the limit.
    let content = "\u{e9}".repeat(MAX_CONTEXT_BYTES);
    let text = build_prompt_text("q", &[ctx(None, Some(&content))]);
    assert!(text.contains("[truncated]"));
    assert!(text.len() < MAX_CONTEXT_BYTES + 200);
}

#[test]
fn the_prompt_is_one_block_per_item_and_the_user_text() {
    let text = build_prompt_text(
        "why?",
        &[
            ctx(Some("let x = 1;"), None),
            ctx(None, None),
            ctx(None, Some("whole file")),
        ],
    );
    assert_eq!(
        text,
        "Context from /ws/a.rs (selection):\n```\nlet x = 1;\n```\n\n\
         Context from /ws/a.rs (file):\n```\nwhole file\n```\n\nwhy?"
    );
}

#[test]
fn the_marker_stands_behind_what_was_cut() {
    let content = "a".repeat(MAX_CONTEXT_BYTES + 1);
    let text = build_prompt_text("q", &[ctx(None, Some(&content))]);
    let shown = "a".repeat(MAX_CONTEXT_BYTES);
    assert_eq!(
        text,
        format!("Context from /ws/a.rs (file):\n```\n{shown}\n[truncated]\n```\n\nq")
    );
    let exact = build_prompt_text("q", &[ctx(None, Some(&shown))]);
    assert!(!exact.contains("[truncated]"));
}

#[test]
fn a_character_is_not_split() {
    assert_eq!(truncate_utf8("a\u{e9}", 3), "a\u{e9}");
    assert_eq!(truncate_utf8("a\u{e9}", 2), "a");
    assert_eq!(truncate_utf8("\u{1f600}b", 3), "");
    assert_eq!(truncate_utf8("\u{1f600}b", 4), "\u{1f600}");
    assert_eq!(truncate_utf8("abc", 0), "");
    assert_eq!(truncate_utf8("", 0), "");
}

#[test]
fn the_blocks_of_two_lists_stand_one_after_the_other() {
    let a = || ctx(Some("let x = 1;"), None);
    let b = || ctx(None, Some("whole file"));
    let first = build_prompt_text("", &[a(), b()]);
    let second = build_prompt_text("why?", &[b()]);
    let all = build_prompt_text("why?", &[a(), b(), b()]);
    assert_eq!(all, first + &second);
}

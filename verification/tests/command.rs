//! Looking commands up and describing them.

use std::collections::HashSet;
use std::path::PathBuf;

use lapce_agent::command::{
    describe_command, find_in_path, resolve_command, PathSearch, Program,
};

/// The usual extensions, as the lookup receives them.
fn windows_exts() -> Vec<String> {
    [".COM", ".EXE", ".BAT", ".CMD"]
        .iter()
        .map(|ext| ext.to_string())
        .collect()
}

/// A predicate backed by a fixed set of files.
fn files(paths: &[&str]) -> impl Fn(&PathBuf, &str) -> bool {
    let set: HashSet<PathBuf> = paths.iter().map(PathBuf::from).collect();
    move |dir: &PathBuf, name: &str| set.contains(&dir.join(name))
}

/// The path that a lookup found.
fn found_path(dirs: &[PathBuf], found: Option<(usize, String)>) -> Option<PathBuf> {
    found.map(|(dir, name)| dirs[dir].join(name))
}

#[test]
fn a_bare_name_finds_the_cmd_shim() {
    let dirs = vec![PathBuf::from("/nodejs")];
    let found = find_in_path("npx", &dirs, &windows_exts(), files(&["/nodejs/npx.CMD"]));
    assert_eq!(
        found_path(&dirs, found),
        Some(PathBuf::from("/nodejs/npx.CMD"))
    );
}

#[test]
fn earlier_directories_win_over_earlier_extensions() {
    let dirs = vec![PathBuf::from("/a"), PathBuf::from("/b")];
    let found = find_in_path(
        "tool",
        &dirs,
        &windows_exts(),
        files(&["/a/tool.CMD", "/b/tool.EXE"]),
    );
    assert_eq!(found_path(&dirs, found), Some(PathBuf::from("/a/tool.CMD")));
}

#[test]
fn extensions_are_tried_in_order_within_a_directory() {
    let dirs = vec![PathBuf::from("/a")];
    let found = find_in_path(
        "tool",
        &dirs,
        &windows_exts(),
        files(&["/a/tool.CMD", "/a/tool.EXE"]),
    );
    assert_eq!(found_path(&dirs, found), Some(PathBuf::from("/a/tool.EXE")));
}

#[test]
fn a_command_with_an_extension_is_not_looked_up() {
    let dirs = vec![PathBuf::from("/a")];
    let found = find_in_path(
        "tool.exe",
        &dirs,
        &windows_exts(),
        files(&["/a/tool.exe.CMD"]),
    );
    assert_eq!(found, None);
}

#[test]
fn a_path_is_not_looked_up() {
    let dirs = vec![PathBuf::from("/a")];
    for command in ["bin/tool", "bin\\tool", "/usr/bin/tool"] {
        let found = find_in_path(command, &dirs, &windows_exts(), |_: &PathBuf, _: &str| {
            true
        });
        assert_eq!(found, None, "{command} must be used as is");
    }
}

#[test]
fn no_match_returns_none() {
    let dirs = vec![PathBuf::from("/a")];
    let found = find_in_path("tool", &dirs, &windows_exts(), files(&[]));
    assert_eq!(found, None);
}

#[test]
fn what_counts_as_an_extension() {
    let dirs = vec![PathBuf::from("/a")];
    let any = |_: &PathBuf, _: &str| true;
    let exts = windows_exts();
    // A leading dot and `..` are no extensions.
    assert_eq!(
        find_in_path(".tool", &dirs, &exts, any),
        Some((0, ".tool.COM".to_string()))
    );
    assert_eq!(
        find_in_path("..", &dirs, &exts, any),
        Some((0, "...COM".to_string()))
    );
    assert_eq!(find_in_path("tool.", &dirs, &exts, any), None);
    assert_eq!(find_in_path("...", &dirs, &exts, any), None);
    assert_eq!(find_in_path("", &dirs, &exts, any), None);
}

#[test]
fn resolve_is_the_identity_outside_windows() {
    let nowhere: Option<&PathSearch<PathBuf>> = None;
    let any = |_: &PathBuf, _: &str| true;
    assert_eq!(
        resolve_command("npx", nowhere, any),
        Program::AsGiven("npx".to_string())
    );
    assert_eq!(
        resolve_command("definitely-missing", nowhere, any),
        Program::AsGiven("definitely-missing".to_string())
    );
}

#[test]
fn resolve_looks_in_the_search_path() {
    let search = PathSearch {
        path_dirs: vec![PathBuf::from("/a"), PathBuf::from("/nodejs")],
        pathext: None,
    };
    assert_eq!(
        resolve_command("npx", Some(&search), files(&["/nodejs/npx.CMD"])),
        Program::Found {
            dir: 1,
            name: "npx.CMD".to_string()
        }
    );
    assert_eq!(
        resolve_command("npx", Some(&search), files(&[])),
        Program::AsGiven("npx".to_string())
    );
    // Empty pieces of the list of extensions are left out.
    let search = PathSearch {
        path_dirs: vec![PathBuf::from("/a")],
        pathext: Some(";.X;;.Y;".to_string()),
    };
    assert_eq!(
        resolve_command("npx", Some(&search), files(&["/a/npx", "/a/npx.Y"])),
        Program::Found {
            dir: 0,
            name: "npx.Y".to_string()
        }
    );
}

#[test]
fn describe_joins_and_quotes_arguments() {
    let args = vec!["-y".to_string(), "a b".to_string()];
    assert_eq!(describe_command("npx", &args), "npx -y \"a b\"");
}

#[test]
fn describe_quotes_what_is_empty_or_holds_any_white_space() {
    let args = vec![
        String::new(),
        "a\u{a0}b".to_string(),
        "a\u{2003}b".to_string(),
        "a\u{200b}b".to_string(),
    ];
    assert_eq!(
        describe_command("my tool", &args),
        "\"my tool\" \"\" \"a\u{a0}b\" \"a\u{2003}b\" a\u{200b}b"
    );
    assert_eq!(describe_command("npx", &[]), "npx");
}

#[test]
fn white_space_is_what_std_says() {
    for code in 0..=0x10ffffu32 {
        if let Some(c) = char::from_u32(code) {
            let shown = describe_command(&c.to_string(), &[]);
            assert_eq!(shown.starts_with('"') && c != '"', c.is_whitespace());
        }
    }
}

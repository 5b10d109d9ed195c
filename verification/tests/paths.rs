//! The workspace guard and line slicing.

use std::path::{Component, Path};

use lapce_agent::paths::{
    canonical_prefix, normalize, resolve_workspace_path, slice_lines, FilePath, Location, Lookup,
    PathError, PathPart,
};

fn location(path: &str) -> Location {
    let parts = Path::new(path)
        .components()
        .map(|component| match component {
            Component::Prefix(prefix) => {
                PathPart::Prefix(prefix.as_os_str().as_encoded_bytes().to_vec())
            }
            Component::RootDir => PathPart::RootDir,
            Component::CurDir => PathPart::CurDir,
            Component::ParentDir => PathPart::ParentDir,
            Component::Normal(name) => PathPart::Normal(name.as_encoded_bytes().to_vec()),
        })
        .collect();
    Location { parts }
}

fn file_path(path: &str) -> FilePath {
    FilePath {
        shown: Path::new(path).display().to_string(),
        absolute: Path::new(path).is_absolute(),
        location: location(path),
    }
}

/// A file system in which `roots` and the directories above them exist as they are.
fn existing(roots: &[&str]) -> impl Fn(&Location) -> Lookup {
    let roots: Vec<Location> = roots.iter().map(|root| location(root)).collect();
    move |path: &Location| {
        if roots.iter().any(|root| root.starts_with(path)) {
            Lookup::Real(path.clone())
        } else {
            Lookup::Missing
        }
    }
}

#[test]
fn accepts_a_file_inside_the_workspace() {
    let ws = file_path("/tmp/inside");
    let ok = resolve_workspace_path(
        &ws,
        &file_path("/tmp/inside/src/main.rs"),
        &existing(&["/tmp/inside"]),
    );
    assert_eq!(ok, Ok(location("/tmp/inside/src/main.rs")));
}

#[test]
fn an_accepted_location_leads_from_the_root() {
    for path in ["/ws/a/../b", "/ws/./c", "/x/../ws"] {
        let accepted =
            resolve_workspace_path(&file_path("/ws"), &file_path(path), &existing(&["/ws"]))
                .unwrap();
        assert_eq!(accepted.parts[0], PathPart::RootDir);
    }
}

#[test]
fn rejects_relative_paths() {
    let ws = file_path("/tmp/relative");
    let err = resolve_workspace_path(
        &ws,
        &file_path("src/main.rs"),
        &existing(&["/tmp/relative"]),
    );
    assert_eq!(err, Err(PathError::NotAbsolute("src/main.rs".to_string())));
    assert_eq!(
        err.unwrap_err().message(),
        "path must be absolute: src/main.rs"
    );
}

#[test]
fn rejects_parent_dir_escape() {
    let ws = file_path("/tmp/dotdot");
    let err = resolve_workspace_path(
        &ws,
        &file_path("/tmp/dotdot/../outside.txt"),
        &existing(&["/tmp/dotdot"]),
    );
    assert_eq!(
        err.unwrap_err().message(),
        "path is outside the workspace: /tmp/dotdot/../outside.txt"
    );
}

#[test]
fn rejects_sibling_directory_sharing_the_prefix() {
    let ws = file_path("/tmp/sibling/ws");
    let err = resolve_workspace_path(
        &ws,
        &file_path("/tmp/sibling/ws-evil/a.txt"),
        &existing(&["/tmp/sibling/ws", "/tmp/sibling/ws-evil"]),
    );
    assert!(matches!(err, Err(PathError::Outside(_))));
}

#[test]
fn rejects_symlink_escape() {
    // `ws/link` leads to `outside`.
    let canonicalize = |path: &Location| {
        if *path == location("/tmp/symlink/ws/link") {
            Lookup::Real(location("/tmp/symlink/outside"))
        } else {
            existing(&["/tmp/symlink/ws"])(path)
        }
    };
    let ws = file_path("/tmp/symlink/ws");
    let err = resolve_workspace_path(
        &ws,
        &file_path("/tmp/symlink/ws/link/secret.txt"),
        &canonicalize,
    );
    assert_eq!(
        err.unwrap_err().message(),
        "path escapes the workspace through a link: /tmp/symlink/ws/link/secret.txt"
    );
}

#[test]
fn rejects_a_link_to_a_missing_file_outside() {
    // `/ws/link` leads to `/outside/new.txt`, which is not there: a write would make it.
    let canonicalize = |path: &Location| {
        if *path == location("/ws/link") {
            Lookup::Dangling
        } else {
            existing(&["/ws", "/outside"])(path)
        }
    };
    let ws = file_path("/ws");
    for path in ["/ws/link", "/ws/link/below", "/ws/a/../link"] {
        let err = resolve_workspace_path(&ws, &file_path(path), &canonicalize);
        assert_eq!(err, Err(PathError::Escapes(path.to_string())));
    }
    assert_eq!(canonical_prefix(&location("/ws/link/x"), &canonicalize), None);
    let ok = resolve_workspace_path(&ws, &file_path("/ws/new.txt"), &canonicalize);
    assert_eq!(ok, Ok(location("/ws/new.txt")));
}

#[test]
fn a_workspace_behind_a_link_to_nothing_takes_no_path() {
    let canonicalize = |path: &Location| {
        if *path == location("/ws") {
            Lookup::Dangling
        } else {
            Lookup::Missing
        }
    };
    let err = resolve_workspace_path(&file_path("/ws"), &file_path("/ws/a"), &canonicalize);
    assert_eq!(err, Err(PathError::Escapes("/ws/a".to_string())));
}

#[test]
fn a_link_to_the_workspace_itself_is_followed_on_both_sides() {
    // The workspace is reached through a link, as a temporary directory often is.
    let canonicalize = |path: &Location| {
        if *path == location("/tmp/ws") {
            Lookup::Real(location("/private/tmp/ws"))
        } else {
            Lookup::Missing
        }
    };
    let ws = file_path("/tmp/ws");
    let ok = resolve_workspace_path(&ws, &file_path("/tmp/ws/a/b"), &canonicalize);
    assert_eq!(ok, Ok(location("/tmp/ws/a/b")));
}

#[test]
fn a_path_or_a_workspace_that_climbs_above_the_root_is_rejected() {
    let nothing = |_: &Location| Lookup::Missing;
    let err = resolve_workspace_path(&file_path("/ws"), &file_path("/../x"), &nothing);
    assert_eq!(err, Err(PathError::AboveRoot("/../x".to_string())));
    let err = resolve_workspace_path(&file_path("/../ws"), &file_path("/ws/x"), &nothing);
    assert_eq!(
        err.unwrap_err().message(),
        "path climbs above the root: /../ws"
    );
}

#[test]
fn normalizing_drops_dots_and_resolves_parents() {
    assert_eq!(normalize(&location("/a/./b/../c")), Some(location("/a/c")));
    assert_eq!(normalize(&location("./a")), Some(location("a")));
    assert_eq!(normalize(&location("/a/../..")), None);
    assert_eq!(normalize(&location("..")), None);
    let twice = normalize(&normalize(&location("/a/b/../c")).unwrap());
    assert_eq!(twice, Some(location("/a/c")));
}

#[test]
fn normalizing_keeps_a_prefix_in_front_of_the_root() {
    let drive = PathPart::Prefix(b"C:".to_vec());
    let path = Location {
        parts: vec![
            drive.clone(),
            PathPart::RootDir,
            PathPart::Normal(b"a".to_vec()),
            PathPart::ParentDir,
        ],
    };
    let out = normalize(&path).unwrap();
    assert_eq!(out.parts, vec![drive.clone(), PathPart::RootDir]);
    let above = Location {
        parts: vec![drive, PathPart::RootDir, PathPart::ParentDir],
    };
    assert_eq!(normalize(&above), None);
}

#[test]
fn the_deepest_ancestor_that_exists_is_canonicalized() {
    let canonicalize = |path: &Location| {
        if *path == location("/a") {
            Lookup::Real(location("/real"))
        } else if *path == location("/") {
            Lookup::Real(location("/"))
        } else {
            Lookup::Missing
        }
    };
    assert_eq!(
        canonical_prefix(&location("/a/b/c"), &canonicalize),
        Some(location("/real/b/c"))
    );
    assert_eq!(
        canonical_prefix(&location("/x/y"), &canonicalize),
        Some(location("/x/y"))
    );
    let nothing = |_: &Location| Lookup::Missing;
    assert_eq!(
        canonical_prefix(&location("/a/b"), &nothing),
        Some(location("/a/b"))
    );
}

#[test]
fn slice_lines_returns_everything_without_bounds() {
    assert_eq!(slice_lines("a\nb\nc\n", None, None), "a\nb\nc\n");
}

#[test]
fn slice_lines_applies_line_and_limit() {
    assert_eq!(slice_lines("a\nb\nc\nd\n", Some(2), Some(2)), "b\nc\n");
    assert_eq!(slice_lines("a\nb\nc", Some(3), None), "c");
}

#[test]
fn slice_lines_treats_zero_as_first_line_and_past_end_as_empty() {
    assert_eq!(slice_lines("a\nb\n", Some(0), Some(1)), "a\n");
    assert_eq!(slice_lines("a\nb\n", Some(9), None), "");
}

#[test]
fn slice_lines_with_extreme_bounds() {
    assert_eq!(slice_lines("a\nb", Some(u32::MAX), Some(u32::MAX)), "");
    assert_eq!(slice_lines("a\nb", Some(1), Some(u32::MAX)), "a\nb");
    assert_eq!(slice_lines("a\nb", None, Some(0)), "");
    assert_eq!(slice_lines("", Some(1), Some(1)), "");
    assert_eq!(slice_lines("\r\n\u{e9}\n", Some(2), None), "\u{e9}\n");
}

#[test]
fn pieces_of_a_file_make_up_the_file() {
    let content = "one\n\ntwo\nthree";
    let head = slice_lines(content, Some(1), Some(2));
    let tail = slice_lines(content, Some(3), None);
    assert_eq!(head, "one\n\n");
    assert_eq!(format!("{head}{tail}"), content);
}

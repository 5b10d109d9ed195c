//! The agent's file access.

use std::path::{Component, Path};

use lapce_agent::assoc::AssocMap;
use lapce_agent::fs::{
    finish_read, finish_write, read_text, settle_pending_write, write_text, Buffer, BufferText,
    DiskWrite, PendingWrites, ReadAnswer, WriteAction,
};
use lapce_agent::paths::{FilePath, Location, PathPart};

fn location(path: &str) -> Location {
    let parts = Path::new(path)
        .components()
        .map(|component| match component {
            Component::Prefix(prefix) => {
                PathPart::Prefix(prefix.as_os_str().as_encoded_bytes().to_vec())
            }
            Component::RootDir => PathPart::RootDir,
            Component::CurDir => PathPart::CurDir,
            Component::ParentDir => PathPart::ParentDir,
            Component::Normal(name) => PathPart::Normal(name.as_encoded_bytes().to_vec()),
        })
        .collect();
    Location { parts }
}

fn file_path(path: &str) -> FilePath {
    FilePath {
        shown: path.to_string(),
        absolute: Path::new(path).is_absolute(),
        location: location(path),
    }
}

/// An open buffer that holds `text`.
fn open_buffer(text: &str) -> Buffer {
    Buffer {
        rope: BufferText::from_text(text),
        read_only: false,
    }
}

/// The buffers with one that is open at `path`.
fn buffers_with(path: &FilePath, buffer: Buffer) -> AssocMap<Location, Buffer> {
    let mut buffers = AssocMap::new();
    buffers.insert(path.location.clone(), buffer);
    buffers
}

/// Reads a file of which `disk` is on disk.
fn read(
    buffers: &AssocMap<Location, Buffer>,
    pending: &PendingWrites,
    path: &FilePath,
    disk: Result<String, String>,
) -> Result<String, String> {
    match read_text(buffers, pending, path) {
        ReadAnswer::Text(text) => Ok(text),
        ReadAnswer::FromDisk => finish_read(path, disk).map_err(|err| err.message()),
    }
}

/// Reads a file that is open.
fn read_open(
    buffers: &AssocMap<Location, Buffer>,
    pending: &PendingWrites,
    path: &FilePath,
) -> String {
    read(buffers, pending, path, Err("not read from disk".to_string())).unwrap()
}

#[test]
fn read_prefers_the_unsaved_buffer_over_disk() {
    let path = file_path("/read-buffer/a.txt");
    let buffers = buffers_with(&path, open_buffer("unsaved edit"));
    let text = read(
        &buffers,
        &PendingWrites::new(),
        &path,
        Ok("on disk".to_string()),
    );
    assert_eq!(text.unwrap(), "unsaved edit");
}

#[test]
fn read_falls_back_to_disk() {
    let path = file_path("/read-disk/a.txt");
    let text = read(
        &AssocMap::new(),
        &PendingWrites::new(),
        &path,
        Ok("on disk".to_string()),
    );
    assert_eq!(text.unwrap(), "on disk");
}

#[test]
fn read_of_non_utf8_file_is_an_error_not_a_panic() {
    let path = file_path("/non-utf8/bin.dat");
    let bytes = vec![0xff, 0xfe, 0x00, 0x80];
    let disk = String::from_utf8(bytes).map_err(|_| "not UTF-8".to_string());
    let text = read(&AssocMap::new(), &PendingWrites::new(), &path, disk);
    assert_eq!(
        text.unwrap_err(),
        "cannot read /non-utf8/bin.dat: not UTF-8"
    );
}

#[test]
fn write_to_closed_file_creates_parents_and_writes_disk() {
    let path = file_path("/write-disk/new/dir/a.txt");
    let mut pending = PendingWrites::new();
    let action = write_text(&AssocMap::new(), &mut pending, &path, "hello").unwrap();
    assert_eq!(
        action,
        WriteAction::WriteDisk {
            parent: Some(location("/write-disk/new/dir"))
        }
    );
    assert!(pending.is_empty());
    assert_eq!(finish_write(&path, DiskWrite::Done), Ok(()));
}

#[test]
fn disk_failures_are_reported() {
    let path = file_path("/x/a.txt");
    let err = finish_write(
        &path,
        DiskWrite::CreateFailed {
            parent: "/x".to_string(),
            cause: "denied".to_string(),
        },
    );
    assert_eq!(err.unwrap_err().message(), "cannot create /x: denied");
    let err = finish_write(
        &path,
        DiskWrite::WriteFailed {
            cause: "full".to_string(),
        },
    );
    assert_eq!(err.unwrap_err().message(), "cannot write /x/a.txt: full");
}

#[test]
fn a_root_has_no_parent_to_create() {
    let mut pending = PendingWrites::new();
    for (path, parent) in [
        ("/", None),
        ("a.txt", Some(location(""))),
        ("", None),
        ("..", Some(location(""))),
    ] {
        let action = write_text(&AssocMap::new(), &mut pending, &file_path(path), "x").unwrap();
        assert_eq!(action, WriteAction::WriteDisk { parent });
    }
}

#[test]
fn write_to_open_file_goes_to_the_ui_and_leaves_disk_alone() {
    let path = file_path("/write-open/a.txt");
    let buffers = buffers_with(&path, open_buffer(""));
    let action = write_text(&buffers, &mut PendingWrites::new(), &path, "from agent").unwrap();
    match action {
        WriteAction::ApplyEdit {
            path: edited,
            content,
        } => {
            assert_eq!(edited, path.location);
            assert_eq!(content, "from agent");
        }
        other => panic!("unexpected action: {other:?}"),
    }
}

#[test]
fn a_read_right_after_a_write_to_an_open_file_sees_the_write() {
    let path = file_path("/pending-read/a.txt");
    let buffers = buffers_with(&path, open_buffer("old"));
    let mut pending = PendingWrites::new();
    write_text(&buffers, &mut pending, &path, "first").unwrap();
    assert_eq!(read_open(&buffers, &pending, &path), "first");
}

#[test]
fn back_to_back_writes_keep_both_edits() {
    let path = file_path("/pending-twice/a.txt");
    let buffers = buffers_with(&path, open_buffer("a\n"));
    let mut pending = PendingWrites::new();
    // The agent appends a line, reads the file back, appends another.
    let first = format!("{}b\n", read_open(&buffers, &pending, &path));
    write_text(&buffers, &mut pending, &path, &first).unwrap();
    let second = format!("{}c\n", read_open(&buffers, &pending, &path));
    write_text(&buffers, &mut pending, &path, &second).unwrap();
    assert_eq!(read_open(&buffers, &pending, &path), "a\nb\nc\n");
}

#[test]
fn the_pending_write_is_settled_once_the_buffer_holds_it() {
    let path = file_path("/pending-settle/a.txt");
    let mut buffers = buffers_with(&path, open_buffer("old"));
    let mut pending = PendingWrites::new();
    write_text(&buffers, &mut pending, &path, "new").unwrap();

    // A user keystroke that arrived first does not settle it.
    buffers.insert(path.location.clone(), open_buffer("old!"));
    settle_pending_write(
        &mut pending,
        &path.location,
        &buffers.get(&path.location).unwrap().rope,
    );
    assert_eq!(read_open(&buffers, &pending, &path), "new");

    // The editor's update carrying the agent edit does.
    buffers.insert(path.location.clone(), open_buffer("new"));
    settle_pending_write(
        &mut pending,
        &path.location,
        &buffers.get(&path.location).unwrap().rope,
    );
    assert!(pending.is_empty());

    // Later edits by the user are visible again.
    buffers.insert(path.location.clone(), open_buffer("new, edited"));
    assert_eq!(read_open(&buffers, &pending, &path), "new, edited");
}

#[test]
fn a_write_that_changes_nothing_is_not_left_pending() {
    let path = file_path("/pending-same/a.txt");
    let buffers = buffers_with(&path, open_buffer("same"));
    let mut pending = PendingWrites::new();
    write_text(&buffers, &mut pending, &path, "same").unwrap();
    assert!(pending.is_empty());
}

#[test]
fn a_write_back_to_the_buffer_takes_the_pending_one_back() {
    let path = file_path("/a.txt");
    let buffers = buffers_with(&path, open_buffer("same"));
    let mut pending = PendingWrites::new();
    write_text(&buffers, &mut pending, &path, "other").unwrap();
    write_text(&buffers, &mut pending, &path, "same").unwrap();
    assert!(pending.is_empty());
    assert_eq!(read_open(&buffers, &pending, &path), "same");
}

#[test]
fn a_write_to_a_read_only_open_file_is_refused() {
    let path = file_path("/read-only/a.txt");
    let mut buffer = open_buffer("old");
    buffer.read_only = true;
    let buffers = buffers_with(&path, buffer);
    let mut pending = PendingWrites::new();
    let err = write_text(&buffers, &mut pending, &path, "new").unwrap_err();
    assert!(err.message().contains("read-only"));
    assert_eq!(err.message(), "/read-only/a.txt is read-only");
    assert!(pending.is_empty());
}

#[test]
fn a_write_leaves_other_files_alone() {
    let a = file_path("/a.txt");
    let b = file_path("/b.txt");
    let mut buffers = buffers_with(&a, open_buffer("a"));
    buffers.insert(b.location.clone(), open_buffer("b"));
    let mut pending = PendingWrites::new();
    write_text(&buffers, &mut pending, &a, "new a").unwrap();
    assert_eq!(read_open(&buffers, &pending, &a), "new a");
    assert_eq!(read_open(&buffers, &pending, &b), "b");
    write_text(&buffers, &mut pending, &b, "new b").unwrap();
    assert_eq!(read_open(&buffers, &pending, &a), "new a");
    assert_eq!(read_open(&buffers, &pending, &b), "new b");
}

#[test]
fn a_buffer_holds_a_long_text() {
    let text = "line \u{e9}\n".repeat(5000);
    assert_eq!(BufferText::from_text(&text).to_text(), text);
    assert_eq!(BufferText::from_text("").to_text(), "");
}

#[test]
fn the_map_keeps_one_value_per_key() {
    let mut map: AssocMap<String, u32> = AssocMap::new();
    assert!(map.is_empty());
    map.insert("a".to_string(), 1);
    map.insert("b".to_string(), 2);
    map.insert("a".to_string(), 3);
    assert_eq!(map.get(&"a".to_string()), Some(&3));
    assert_eq!(map.get(&"b".to_string()), Some(&2));
    assert_eq!(map.get(&"c".to_string()), None);
    assert_eq!(map.keys().len(), 2);
    map.remove(&"a".to_string());
    assert_eq!(map.get(&"a".to_string()), None);
    map.remove(&"b".to_string());
    map.remove(&"b".to_string());
    assert!(map.is_empty());
}

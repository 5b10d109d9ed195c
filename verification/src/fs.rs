//! File access for the agent, backed by the buffers that are open in the editor.

use vstd::prelude::*;

use crate::assoc::AssocMap;
use crate::paths::{FilePath, Location, PartView, PathPart};
use crate::text::same_text;

verus! {

/// The text of an open buffer, held in a rope.
#[verifier::external_body]
pub struct BufferText {
    rope: lapce_xi_rope::Rope,
}

/// The characters that the rope of a buffer holds.
pub uninterp spec fn rope_chars(text: BufferText) -> Seq<char>;

impl View for BufferText {
    type V = Seq<char>;

    open spec fn view(&self) -> Seq<char> {
        rope_chars(*self)
    }
}

/// Calls `lapce_xi_rope::Rope::from`, which makes a rope that holds the characters of the string.
#[verifier::external_body]
fn rope_from(text: &str) -> (r: BufferText)
    ensures
        rope_chars(r) == text@,
{
    BufferText { rope: lapce_xi_rope::Rope::from(text) }
}

/// Calls `to_string` of `lapce_xi_rope::Rope`, which writes the pieces of the rope one after the
/// other: the characters that the rope holds.
#[verifier::external_body]
fn rope_to_string(text: &BufferText) -> (r: String)
    ensures
        r@ == rope_chars(*text),
{
    text.rope.to_string()
}

impl BufferText {
    /// The buffer text that holds `text`.
    pub fn from_text(text: &str) -> (r: BufferText)
        ensures
            r@ == text@,
    {
        rope_from(text)
    }

    /// The text that the buffer holds.
    pub fn to_text(&self) -> (r: String)
        ensures
            r@ == self@,
    {
        rope_to_string(self)
    }
}

/// A file that is open in the editor.
pub struct Buffer {
    pub rope: BufferText,
    pub read_only: bool,
}

/// What a [`Buffer`] stands for.
#[verifier::ext_equal]
pub struct BufferView {
    pub text: Seq<char>,
    pub read_only: bool,
}

impl View for Buffer {
    type V = BufferView;

    open spec fn view(&self) -> BufferView {
        BufferView { text: self.rope@, read_only: self.read_only }
    }
}

/// Agent writes to open files that the editor has not applied yet, by location.
///
/// A write to an open file is only a request to the editor; the buffer changes when the editor's
/// update comes back. Until then a read must see the written content, or an agent that reads
/// right after writing would build its next write on the old text and lose the first edit.
pub type PendingWrites = AssocMap<Location, String>;

/// The pending texts, by location.
pub open spec fn pending_texts(pending: Map<Seq<PartView>, String>) -> Map<
    Seq<PartView>,
    Seq<char>,
> {
    pending.map_values(|text: String| text@)
}

/// The open files, by location.
pub open spec fn open_files(buffers: Map<Seq<PartView>, Buffer>) -> Map<Seq<PartView>, BufferView> {
    buffers.map_values(|buffer: Buffer| buffer@)
}

/// Why the agent's file request failed. Each variant holds the path as it is shown, and the cause
/// as the file system reports it.
#[derive(Debug, PartialEq)]
pub enum FileError {
    ReadOnly { shown: String },
    CannotRead { shown: String, cause: String },
    CannotCreate { shown: String, cause: String },
    CannotWrite { shown: String, cause: String },
}

impl FileError {
    /// The message that the error is reported with.
    pub open spec fn message_text(&self) -> Seq<char> {
        match self {
            FileError::ReadOnly { shown } => shown@ + " is read-only"@,
            FileError::CannotRead { shown, cause } => "cannot read "@ + shown@ + ": "@ + cause@,
            FileError::CannotCreate { shown, cause } => "cannot create "@ + shown@ + ": "@ + cause@,
            FileError::CannotWrite { shown, cause } => "cannot write "@ + shown@ + ": "@ + cause@,
        }
    }

    /// The message that the error is reported with.
    pub fn message(&self) -> (r: String)
        ensures
            r@ == self.message_text(),
    {
        match self {
            FileError::ReadOnly { shown } => shown.clone().concat(" is read-only"),
            FileError::CannotRead { shown, cause } => "cannot read ".to_owned().concat(
                shown.as_str(),
            ).concat(": ").concat(cause.as_str()),
            FileError::CannotCreate { shown, cause } => "cannot create ".to_owned().concat(
                shown.as_str(),
            ).concat(": ").concat(cause.as_str()),
            FileError::CannotWrite { shown, cause } => "cannot write ".to_owned().concat(
                shown.as_str(),
            ).concat(": ").concat(cause.as_str()),
        }
    }
}

/// Where the text of a file comes from.
#[derive(Debug, PartialEq)]
pub enum ReadAnswer {
    /// The text is known.
    Text(String),
    /// The file is not open: its text is on disk.
    FromDisk,
}

/// The text that a read of the file at `at` sees while it is open or written to: a pending write
/// wins over the buffer. `None` where the disk decides.
pub open spec fn text_seen(
    buffers: Map<Seq<PartView>, BufferView>,
    pending: Map<Seq<PartView>, Seq<char>>,
    at: Seq<PartView>,
) -> Option<Seq<char>> {
    if pending.contains_key(at) {
        Some(pending[at])
    } else if buffers.contains_key(at) {
        Some(buffers[at].text)
    } else {
        None
    }
}

/// Reads a text file. A pending agent write wins; then, if the file is open in the editor, the
/// (possibly unsaved) buffer content is returned; otherwise the file is to be read from disk.
pub fn read_text(
    buffers: &AssocMap<Location, Buffer>,
    pending: &PendingWrites,
    path: &FilePath,
) -> (r: ReadAnswer)
    ensures
        match text_seen(open_files(buffers@), pending_texts(pending@), path.location@) {
            Some(seen) => r matches ReadAnswer::Text(text) && text@ == seen,
            None => r is FromDisk,
        },
{
    if let Some(content) = pending.get(&path.location) {
        return ReadAnswer::Text(content.clone());
    }
    if let Some(buffer) = buffers.get(&path.location) {
        return ReadAnswer::Text(buffer.rope.to_text());
    }
    ReadAnswer::FromDisk
}

/// What a read from disk comes to, given the text or the cause of the failure. A file that is not
/// UTF-8 is a failure.
pub fn finish_read(path: &FilePath, disk: Result<String, String>) -> (r: Result<String, FileError>)
    ensures
        match disk {
            Ok(text) => r matches Ok(out) && out@ == text@,
            Err(cause) => r matches Err(FileError::CannotRead { shown, cause: why })
                && shown@ == path.shown@ && why@ == cause@,
        },
{
    match disk {
        Ok(text) => Ok(text),
        Err(cause) => Err(FileError::CannotRead { shown: path.shown.clone(), cause }),
    }
}

/// The directory that holds the file at `at`. `None` for a root and for the empty path.
pub open spec fn parent_of(at: Seq<PartView>) -> Option<Seq<PartView>> {
    if at.len() == 0 || at.last() is RootDir || at.last() is Prefix {
        None
    } else {
        Some(at.drop_last())
    }
}

/// The directory that holds the file at `location`.
fn parent(location: &Location) -> (r: Option<Location>)
    ensures
        match parent_of(location@) {
            Some(dir) => r matches Some(found) && found@ == dir,
            None => r is None,
        },
{
    let n: usize = location.parts.len();
    if n == 0 {
        return None;
    }
    assert(location@.last() == location.parts@[n - 1]@);
    match &location.parts[n - 1] {
        PathPart::RootDir => None,
        PathPart::Prefix(_) => None,
        _ => {
            assert(location@.take(n - 1) =~= location@.drop_last());
            Some(location.ancestor(n - 1))
        },
    }
}

/// What is to be done for a write.
#[derive(Debug, PartialEq)]
pub enum WriteAction {
    /// The editor is asked to apply the content to its buffer as one undoable edit, and to save
    /// it when the buffer had no unsaved changes.
    ApplyEdit { path: Location, content: String },
    /// The content is written to disk, once the parent directory is there.
    WriteDisk { parent: Option<Location> },
}

/// The pending writes after the agent wrote `content` to the file at `at`.
pub open spec fn pending_after_write(
    buffers: Map<Seq<PartView>, BufferView>,
    pending: Map<Seq<PartView>, Seq<char>>,
    at: Seq<PartView>,
    content: Seq<char>,
) -> Map<Seq<PartView>, Seq<char>> {
    if !buffers.contains_key(at) || buffers[at].read_only {
        pending
    } else if buffers[at].text == content {
        pending.remove(at)
    } else {
        pending.insert(at, content)
    }
}

/// Writes a text file. If the file is open in the editor, the editor is asked to apply the
/// content as an undoable buffer edit (and to save it when the buffer had no unsaved changes), and
/// the content is remembered in `pending` until the editor's update arrives. A read-only open file
/// is refused. Otherwise parent directories are to be created and the file is to be written to
/// disk.
pub fn write_text(
    buffers: &AssocMap<Location, Buffer>,
    pending: &mut PendingWrites,
    path: &FilePath,
    content: &str,
) -> (r: Result<WriteAction, FileError>)
    ensures
        pending_texts(final(pending)@) == pending_after_write(
            open_files(buffers@),
            pending_texts(old(pending)@),
            path.location@,
            content@,
        ),
        !buffers@.contains_key(path.location@) ==> {
            &&& r matches Ok(WriteAction::WriteDisk { parent })
            &&& match parent_of(path.location@) {
                Some(dir) => parent matches Some(found) && found@ == dir,
                None => parent is None,
            }
        },
        buffers@.contains_key(path.location@) && buffers@[path.location@].read_only ==> (r
            matches Err(FileError::ReadOnly { shown }) && shown@ == path.shown@),
        buffers@.contains_key(path.location@) && !buffers@[path.location@].read_only ==> (r
            matches Ok(WriteAction::ApplyEdit { path: edited, content: text }) && edited@
            == path.location@ && text@ == content@),
{
    let ghost before = pending_texts(pending@);
    let ghost at = path.location@;
    if let Some(buffer) = buffers.get(&path.location) {
        if buffer.read_only {
            return Err(FileError::ReadOnly { shown: path.shown.clone() });
        }
        if same_text(buffer.rope.to_text().as_str(), content) {
            pending.remove(&path.location);
            assert(pending_texts(pending@) =~= before.remove(at));
        } else {
            pending.insert(path.location.clone(), content.to_owned());
            assert(pending_texts(pending@) =~= before.insert(at, content@));
        }
        return Ok(
            WriteAction::ApplyEdit { path: path.location.clone(), content: content.to_owned() },
        );
    }
    Ok(WriteAction::WriteDisk { parent: parent(&path.location) })
}

/// What came of writing to disk.
#[derive(Debug, PartialEq)]
pub enum DiskWrite {
    Done,
    /// The parent directory could not be created.
    CreateFailed { parent: String, cause: String },
    /// The file could not be written.
    WriteFailed { cause: String },
}

/// What a write to disk comes to.
pub fn finish_write(path: &FilePath, outcome: DiskWrite) -> (r: Result<(), FileError>)
    ensures
        match outcome {
            DiskWrite::Done => r is Ok,
            DiskWrite::CreateFailed { parent, cause } => r matches Err(
                FileError::CannotCreate { shown, cause: why },
            ) && shown@ == parent@ && why@ == cause@,
            DiskWrite::WriteFailed { cause } => r matches Err(
                FileError::CannotWrite { shown, cause: why },
            ) && shown@ == path.shown@ && why@ == cause@,
        },
{
    match outcome {
        DiskWrite::Done => Ok(()),
        DiskWrite::CreateFailed { parent, cause } => Err(
            FileError::CannotCreate { shown: parent, cause },
        ),
        DiskWrite::WriteFailed { cause } => Err(
            FileError::CannotWrite { shown: path.shown.clone(), cause },
        ),
    }
}

/// The pending writes after the buffer at `at` changed to `text`.
pub open spec fn pending_after_update(
    pending: Map<Seq<PartView>, Seq<char>>,
    at: Seq<PartView>,
    text: Seq<char>,
) -> Map<Seq<PartView>, Seq<char>> {
    if pending.contains_key(at) && pending[at] == text {
        pending.remove(at)
    } else {
        pending
    }
}

/// Called after the buffer at `path` changed: forgets the pending agent write once the buffer
/// holds exactly the written content, which means the editor applied it. Other updates (the user
/// typing before the agent edit landed) keep it pending.
pub fn settle_pending_write(pending: &mut PendingWrites, path: &Location, rope: &BufferText)
    ensures
        pending_texts(final(pending)@) == pending_after_update(
            pending_texts(old(pending)@),
            path@,
            rope@,
        ),
{
    let ghost before = pending_texts(pending@);
    let settled = match pending.get(path) {
        Some(content) => same_text(rope.to_text().as_str(), content.as_str()),
        None => false,
    };
    if settled {
        pending.remove(path);
        assert(pending_texts(pending@) =~= before.remove(path@));
    }
}

/// A read right after a write to an open file sees the write.
pub proof fn a_read_after_a_write_sees_it(
    buffers: Map<Seq<PartView>, BufferView>,
    pending: Map<Seq<PartView>, Seq<char>>,
    at: Seq<PartView>,
    content: Seq<char>,
)
    requires
        buffers.contains_key(at),
        !buffers[at].read_only,
    ensures
        text_seen(buffers, pending_after_write(buffers, pending, at, content), at) == Some(content),
{
}

/// Of two writes to an open file the later one is seen, whatever the first one was.
pub proof fn the_last_write_is_seen(
    buffers: Map<Seq<PartView>, BufferView>,
    pending: Map<Seq<PartView>, Seq<char>>,
    at: Seq<PartView>,
    first: Seq<char>,
    second: Seq<char>,
)
    requires
        buffers.contains_key(at),
        !buffers[at].read_only,
    ensures
        text_seen(
            buffers,
            pending_after_write(
                buffers,
                pending_after_write(buffers, pending, at, first),
                at,
                second,
            ),
            at,
        ) == Some(second),
{
}

/// A write does not change what is seen of another file.
pub proof fn a_write_leaves_other_files_alone(
    buffers: Map<Seq<PartView>, BufferView>,
    pending: Map<Seq<PartView>, Seq<char>>,
    at: Seq<PartView>,
    content: Seq<char>,
    other: Seq<PartView>,
)
    requires
        other != at,
    ensures
        text_seen(buffers, pending_after_write(buffers, pending, at, content), other) == text_seen(
            buffers,
            pending,
            other,
        ),
{
}

/// A write that changes nothing is not left pending.
pub proof fn an_unchanged_write_is_not_pending(
    buffers: Map<Seq<PartView>, BufferView>,
    pending: Map<Seq<PartView>, Seq<char>>,
    at: Seq<PartView>,
)
    requires
        buffers.contains_key(at),
        !buffers[at].read_only,
    ensures
        !pending_after_write(buffers, pending, at, buffers[at].text).contains_key(at),
{
}

/// Settling does not change what a read sees, once the buffer holds the new text.
pub proof fn settling_is_not_seen(
    buffers: Map<Seq<PartView>, BufferView>,
    pending: Map<Seq<PartView>, Seq<char>>,
    at: Seq<PartView>,
    path: Seq<PartView>,
)
    requires
        buffers.contains_key(at),
    ensures
        text_seen(buffers, pending_after_update(pending, at, buffers[at].text), path) == text_seen(
            buffers,
            pending,
            path,
        ),
{
}

/// Once the editor applied the agent's write, later edits by the user are seen.
pub proof fn later_edits_are_seen(
    buffers: Map<Seq<PartView>, BufferView>,
    pending: Map<Seq<PartView>, Seq<char>>,
    at: Seq<PartView>,
    later: BufferView,
)
    requires
        pending.contains_key(at),
    ensures
        text_seen(
            buffers.insert(at, later),
            pending_after_update(pending, at, pending[at]),
            at,
        ) == Some(later.text),
{
}

/// Where a write to an open file waits, it is what is seen; else the buffer is, and for a file that
/// is not open the disk decides.
pub proof fn a_read_sees_the_latest_text(
    buffers: &AssocMap<Location, Buffer>,
    pending: &PendingWrites,
    path: &FilePath,
    r: ReadAnswer,
)
    requires
        call_ensures(read_text, (buffers, pending, path), r),
    ensures
        pending@.contains_key(path.location@) ==> (r matches ReadAnswer::Text(text) && text@
            == pending@[path.location@]@),
        !pending@.contains_key(path.location@) && buffers@.contains_key(path.location@) ==> (r
            matches ReadAnswer::Text(text) && text@ == buffers@[path.location@].rope@),
        !pending@.contains_key(path.location@) && !buffers@.contains_key(path.location@) ==> r
            is FromDisk,
{
}

/// A write that is refused, and one to a file that is not open, leaves the pending writes as they
/// are.
pub proof fn writes_that_the_editor_does_not_see_leave_nothing_pending(
    buffers: Map<Seq<PartView>, BufferView>,
    pending: Map<Seq<PartView>, Seq<char>>,
    at: Seq<PartView>,
    content: Seq<char>,
)
    requires
        !buffers.contains_key(at) || buffers[at].read_only,
    ensures
        pending_after_write(buffers, pending, at, content) == pending,
{
}

/// A write that changes an open file waits for the editor, with exactly the written content.
pub proof fn a_write_waits_for_the_editor(
    buffers: Map<Seq<PartView>, BufferView>,
    pending: Map<Seq<PartView>, Seq<char>>,
    at: Seq<PartView>,
    content: Seq<char>,
    other: Seq<PartView>,
)
    requires
        buffers.contains_key(at),
        !buffers[at].read_only,
        buffers[at].text != content,
    ensures
        ({
            let after = pending_after_write(buffers, pending, at, content);
            &&& after.contains_key(at)
            &&& after[at] == content
            &&& other != at ==> (after.contains_key(other) <==> pending.contains_key(other))
            &&& other != at && pending.contains_key(other) ==> after[other] == pending[other]
        }),
{
}

/// An update of a buffer forgets the write that waits for it exactly where it brings the written
/// content, and no other write.
pub proof fn an_update_settles_its_own_write(
    pending: Map<Seq<PartView>, Seq<char>>,
    at: Seq<PartView>,
    text: Seq<char>,
    other: Seq<PartView>,
)
    ensures
        ({
            let after = pending_after_update(pending, at, text);
            &&& after.contains_key(at) <==> pending.contains_key(at) && pending[at] != text
            &&& after.contains_key(at) ==> after[at] == pending[at]
            &&& other != at ==> (after.contains_key(other) <==> pending.contains_key(other))
            &&& other != at && pending.contains_key(other) ==> after[other] == pending[other]
        }),
{
}

/// The directory of a file is what is left of its path without its name; a root has none.
pub proof fn the_directory_of_a_file(dir: Seq<PartView>, name: Seq<u8>)
    ensures
        parent_of(dir.push(PartView::Normal(name))) == Some(dir),
        parent_of(dir.push(PartView::RootDir)) is None,
        parent_of(dir.push(PartView::Prefix(name))) is None,
        parent_of(Seq::empty()) is None,
{
    assert(dir.push(PartView::Normal(name)).drop_last() =~= dir);
}

/// A failed file request names the file, and the cause as it was reported.
pub proof fn failures_name_the_file(shown: String, cause: String)
    ensures
        (FileError::ReadOnly { shown }).message_text() == shown@ + " is read-only"@,
        (FileError::CannotRead { shown, cause }).message_text() == "cannot read "@ + shown@ + ": "@
            + cause@,
        (FileError::CannotCreate { shown, cause }).message_text() == "cannot create "@ + shown@
            + ": "@ + cause@,
        (FileError::CannotWrite { shown, cause }).message_text() == "cannot write "@ + shown@ + ": "@
            + cause@,
{
}

/// A read from disk hands the text on as it is, and a failure with its cause and the file.
pub proof fn what_the_disk_holds_is_handed_on(
    path: &FilePath,
    disk: Result<String, String>,
    r: Result<String, FileError>,
)
    requires
        call_ensures(finish_read, (path, disk), r),
    ensures
        r is Ok <==> disk is Ok,
        r is Ok ==> r->Ok_0@ == disk->Ok_0@,
        r is Err ==> r->Err_0.message_text() == "cannot read "@ + path.shown@ + ": "@
            + disk->Err_0@,
{
}

/// A write to disk succeeds where the disk says so; otherwise it says which step failed, for which
/// path, and why.
pub proof fn a_failed_write_says_what_failed(
    path: &FilePath,
    outcome: DiskWrite,
    r: Result<(), FileError>,
)
    requires
        call_ensures(finish_write, (path, outcome), r),
    ensures
        r is Ok <==> outcome is Done,
        outcome matches DiskWrite::CreateFailed { parent, cause } ==> r->Err_0.message_text()
            == "cannot create "@ + parent@ + ": "@ + cause@,
        outcome matches DiskWrite::WriteFailed { cause } ==> r->Err_0.message_text()
            == "cannot write "@ + path.shown@ + ": "@ + cause@,
{
}

/// A write to an open file asks the editor to apply exactly the agent's content there, and a read
/// sees it from then on; a read-only file is refused by name; for a file that is not open the disk
/// is written, and nothing waits.
pub proof fn a_write_is_applied_refused_or_written(
    buffers: &AssocMap<Location, Buffer>,
    pending: &mut PendingWrites,
    path: &FilePath,
    content: &str,
    r: Result<WriteAction, FileError>,
)
    requires
        call_ensures(write_text, (buffers, pending, path, content), r),
    ensures
        ({
            let at = path.location@;
            let after = pending_texts(final(pending)@);
            let before = pending_texts(old(pending)@);
            if !buffers@.contains_key(at) {
                &&& r matches Ok(WriteAction::WriteDisk { parent })
                &&& (at.len() > 0 && at[at.len() - 1] is Normal ==> parent is Some && parent->0@
                    == at.take(at.len() - 1))
                &&& after == before
            } else if buffers@[at].read_only {
                &&& r matches Err(error) && error.message_text() == path.shown@ + " is read-only"@
                &&& after == before
            } else {
                &&& r matches Ok(WriteAction::ApplyEdit { path: edited, content: text })
                    && edited@ == at && text@ == content@
                &&& buffers@[at].rope@ != content@ ==> after.contains_key(at) && after[at]
                    == content@
                &&& buffers@[at].rope@ == content@ ==> !after.contains_key(at)
                &&& forall|other: Seq<PartView>|
                    other != at ==> (#[trigger] after.contains_key(other) <==> before.contains_key(
                        other,
                    ))
            }
        }),
{
    let at = path.location@;
    if at.len() > 0 {
        assert(at.take(at.len() - 1) =~= at.drop_last());
    }
}

/// An update of a buffer settles the write that it brings, and no other.
pub proof fn settling_forgets_only_what_arrived(
    pending: &mut PendingWrites,
    path: &Location,
    rope: &BufferText,
    other: Seq<PartView>,
)
    requires
        call_ensures(settle_pending_write, (pending, path, rope), ()),
    ensures
        ({
            let after = pending_texts(final(pending)@);
            let before = pending_texts(old(pending)@);
            &&& after.contains_key(path@) <==> before.contains_key(path@) && before[path@] != rope@
            &&& other != path@ ==> (after.contains_key(other) <==> before.contains_key(other))
            &&& after.contains_key(other) ==> after[other] == before[other]
        }),
{
}

/// The pending texts and the open files are read as they are.
pub proof fn texts_are_read_as_they_are(
    pending: Map<Seq<PartView>, String>,
    buffers: Map<Seq<PartView>, Buffer>,
    at: Seq<PartView>,
)
    ensures
        pending_texts(pending).contains_key(at) <==> pending.contains_key(at),
        pending.contains_key(at) ==> pending_texts(pending)[at] == pending[at]@,
        open_files(buffers).contains_key(at) <==> buffers.contains_key(at),
        buffers.contains_key(at) ==> open_files(buffers)[at].text == buffers[at].rope@
            && open_files(buffers)[at].read_only == buffers[at].read_only,
{
}

} // verus!

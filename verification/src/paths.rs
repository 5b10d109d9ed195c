//! Path safety for file requests coming from the agent, and line slicing.

use vstd::prelude::*;

use crate::assoc::MapKey;
use crate::text::chars_of;

verus! {

/// One component of a path. Names are the bytes of the file system's own encoding.
#[derive(Debug, PartialEq, Eq)]
pub enum PathPart {
    /// A drive or share name in front of the root.
    Prefix(Vec<u8>),
    /// The root directory.
    RootDir,
    /// A `.`.
    CurDir,
    /// A `..`.
    ParentDir,
    /// The name of a file or a directory.
    Normal(Vec<u8>),
}

/// What a [`PathPart`] stands for.
#[verifier::ext_equal]
pub enum PartView {
    Prefix(Seq<u8>),
    RootDir,
    CurDir,
    ParentDir,
    Normal(Seq<u8>),
}

impl View for PathPart {
    type V = PartView;

    open spec fn view(&self) -> PartView {
        match self {
            PathPart::Prefix(name) => PartView::Prefix(name@),
            PathPart::RootDir => PartView::RootDir,
            PathPart::CurDir => PartView::CurDir,
            PathPart::ParentDir => PartView::ParentDir,
            PathPart::Normal(name) => PartView::Normal(name@),
        }
    }
}

/// What the components stand for, one by one.
pub open spec fn parts_view(parts: Seq<PathPart>) -> Seq<PartView> {
    parts.map_values(|part: PathPart| part@)
}

/// A place in the file system, as the components that lead to it.
#[derive(Debug, PartialEq, Eq)]
pub struct Location {
    pub parts: Vec<PathPart>,
}

impl View for Location {
    type V = Seq<PartView>;

    open spec fn view(&self) -> Seq<PartView> {
        parts_view(self.parts@)
    }
}

/// A path as it was received.
#[derive(Debug, PartialEq, Eq)]
pub struct FilePath {
    /// The path as it is shown to the user.
    pub shown: String,
    /// Whether the path is absolute.
    pub absolute: bool,
    /// The components of the path.
    pub location: Location,
}

/// What a [`FilePath`] stands for.
#[verifier::ext_equal]
pub struct FilePathView {
    pub shown: Seq<char>,
    pub absolute: bool,
    pub location: Seq<PartView>,
}

impl View for FilePath {
    type V = FilePathView;

    open spec fn view(&self) -> FilePathView {
        FilePathView {
            shown: self.shown@,
            absolute: self.absolute,
            location: self.location@,
        }
    }
}

/// Copies a name.
fn copy_bytes(bytes: &Vec<u8>) -> (r: Vec<u8>)
    ensures
        r@ == bytes@,
{
    let mut out: Vec<u8> = Vec::new();
    for i in 0..bytes.len()
        invariant
            out@ == bytes@.take(i as int),
    {
        out.push(bytes[i]);
        assert(out@ =~= bytes@.take(i + 1));
    }
    assert(bytes@.take(bytes@.len() as int) =~= bytes@);
    out
}

/// Whether two names are the same.
fn same_bytes(a: &Vec<u8>, b: &Vec<u8>) -> (r: bool)
    ensures
        r == (a@ == b@),
{
    if a.len() != b.len() {
        return false;
    }
    for i in 0..a.len()
        invariant
            a@.len() == b@.len(),
            forall|j: int| 0 <= j < i ==> a@[j] == b@[j],
    {
        if a[i] != b[i] {
            return false;
        }
    }
    assert(a@ =~= b@);
    true
}

impl Clone for PathPart {
    fn clone(&self) -> (r: Self)
        ensures
            r@ == self@,
    {
        match self {
            PathPart::Prefix(name) => PathPart::Prefix(copy_bytes(name)),
            PathPart::RootDir => PathPart::RootDir,
            PathPart::CurDir => PathPart::CurDir,
            PathPart::ParentDir => PathPart::ParentDir,
            PathPart::Normal(name) => PathPart::Normal(copy_bytes(name)),
        }
    }
}

impl PathPart {
    /// Whether the two components are the same.
    pub fn same(&self, other: &PathPart) -> (r: bool)
        ensures
            r == (self@ == other@),
    {
        match (self, other) {
            (PathPart::Prefix(a), PathPart::Prefix(b)) => same_bytes(a, b),
            (PathPart::Normal(a), PathPart::Normal(b)) => same_bytes(a, b),
            (PathPart::RootDir, PathPart::RootDir) => true,
            (PathPart::CurDir, PathPart::CurDir) => true,
            (PathPart::ParentDir, PathPart::ParentDir) => true,
            _ => false,
        }
    }
}

impl Clone for Location {
    fn clone(&self) -> (r: Self)
        ensures
            r@ == self@,
    {
        self.ancestor(self.parts.len())
    }
}

impl Location {
    /// The location that the first `n` components lead to.
    pub fn ancestor(&self, n: usize) -> (r: Location)
        requires
            n <= self@.len(),
        ensures
            r@ == self@.take(n as int),
    {
        let mut parts: Vec<PathPart> = Vec::new();
        for i in 0..n
            invariant
                n <= self@.len(),
                parts@.len() == i,
                forall|j: int| 0 <= j < i ==> #[trigger] parts@[j]@ == self@[j],
        {
            parts.push(self.parts[i].clone());
        }
        let r = Location { parts };
        assert(r@ =~= self@.take(n as int));
        r
    }

    /// Whether the components of `root` are the first ones of this location.
    pub fn starts_with(&self, root: &Location) -> (r: bool)
        ensures
            r == root@.is_prefix_of(self@),
    {
        if root.parts.len() > self.parts.len() {
            return false;
        }
        for i in 0..root.parts.len()
            invariant
                root@.len() <= self@.len(),
                forall|j: int| 0 <= j < i ==> root@[j] == self@[j],
        {
            if !root.parts[i].same(&self.parts[i]) {
                assert(root@[i as int] != self@.subrange(0, root@.len() as int)[i as int]);
                return false;
            }
        }
        assert(root@ =~= self@.subrange(0, root@.len() as int));
        true
    }
}

impl Clone for FilePath {
    fn clone(&self) -> (r: Self)
        ensures
            r@ == self@,
    {
        FilePath {
            shown: self.shown.clone(),
            absolute: self.absolute,
            location: self.location.clone(),
        }
    }
}

impl MapKey for Location {
    fn same_key(&self, other: &Self) -> (r: bool) {
        let r = self.parts.len() == other.parts.len() && self.starts_with(other);
        proof {
            if r {
                assert(self@ =~= other@);
            } else if self@ == other@ {
                assert(other@ =~= self@.subrange(0, other@.len() as int));
            }
        }
        r
    }
}

/// Appending `part` to the path `out` without looking at the file system: a `.` changes
/// nothing, and a `..` leaves the last directory. `None` when a `..` climbs above the root.
pub open spec fn normalize_step(out: Seq<PartView>, part: PartView) -> Option<Seq<PartView>> {
    match part {
        PartView::CurDir => Some(out),
        PartView::ParentDir => if out.len() == 0 || out.last() is RootDir || out.last() is Prefix {
            None
        } else {
            Some(out.drop_last())
        },
        PartView::RootDir => if out.len() > 0 && out[0] is Prefix {
            Some(seq![out[0], PartView::RootDir])
        } else {
            Some(seq![PartView::RootDir])
        },
        PartView::Prefix(_) => Some(seq![part]),
        PartView::Normal(_) => Some(out.push(part)),
    }
}

/// The path with each `.` dropped and each `..` resolved, its components taken in order.
pub open spec fn normalized(path: Seq<PartView>) -> Option<Seq<PartView>>
    decreases path.len(),
{
    if path.len() == 0 {
        Some(Seq::empty())
    } else {
        match normalized(path.drop_last()) {
            Some(out) => normalize_step(out, path.last()),
            None => None,
        }
    }
}

/// Normalizes `path` lexically (no file system access): drops `.` and resolves `..`.
/// `None` if a `..` would climb above the root.
pub fn normalize(path: &Location) -> (r: Option<Location>)
    ensures
        match r {
            Some(out) => normalized(path@) == Some(out@),
            None => normalized(path@) is None,
        },
{
    let mut out: Vec<PathPart> = Vec::new();
    let mut i: usize = 0;
    assert(parts_view(out@) =~= Seq::<PartView>::empty());
    while i < path.parts.len()
        invariant
            i <= path.parts@.len(),
            normalized(path@.take(i as int)) == Some(parts_view(out@)),
        decreases path.parts.len() - i,
    {
        let ghost before = parts_view(out@);
        let ghost part = path@[i as int];
        proof {
            assert(path@.take(i + 1).drop_last() =~= path@.take(i as int));
            assert(path@.take(i + 1).last() == part);
        }
        match &path.parts[i] {
            PathPart::CurDir => {},
            PathPart::ParentDir => {
                let stuck = match out.last() {
                    None => true,
                    Some(PathPart::RootDir) => true,
                    Some(PathPart::Prefix(_)) => true,
                    _ => false,
                };
                if stuck {
                    proof {
                        if out@.len() > 0 {
                            assert(before.last() == out@.last()@);
                        }
                        assert(normalized(path@.take(i + 1)) is None);
                        lemma_stays_none(path@, i + 1);
                    }
                    return None;
                }
                assert(before.last() == out@.last()@);
                out.pop();
                assert(parts_view(out@) =~= before.drop_last());
            },
            PathPart::RootDir => {
                let has_prefix = match out.first() {
                    Some(PathPart::Prefix(_)) => true,
                    _ => false,
                };
                if has_prefix {
                    assert(before[0] == out@[0]@);
                    out.truncate(1);
                } else {
                    assert(out@.len() > 0 ==> before[0] == out@[0]@);
                    out.clear();
                }
                out.push(PathPart::RootDir);
                proof {
                    if has_prefix {
                        assert(parts_view(out@) =~= seq![before[0], PartView::RootDir]);
                    } else {
                        assert(parts_view(out@) =~= seq![PartView::RootDir]);
                    }
                }
            },
            PathPart::Prefix(name) => {
                out.clear();
                out.push(PathPart::Prefix(copy_bytes(name)));
                assert(parts_view(out@) =~= seq![part]);
            },
            PathPart::Normal(name) => {
                out.push(PathPart::Normal(copy_bytes(name)));
                assert(parts_view(out@) =~= before.push(part));
            },
        }
        i = i + 1;
    }
    assert(path@.take(path@.len() as int) =~= path@);
    Some(Location { parts: out })
}

/// A path with a beginning that climbs above the root has no normal form.
proof fn lemma_stays_none(path: Seq<PartView>, n: int)
    requires
        0 <= n <= path.len(),
        normalized(path.take(n)) is None,
    ensures
        normalized(path) is None,
    decreases path.len() - n,
{
    if n == path.len() {
        assert(path.take(n) =~= path);
    } else {
        assert(path.take(n + 1).drop_last() =~= path.take(n));
        lemma_stays_none(path, n + 1);
    }
}

/// What the file system says of a path.
#[derive(Debug, PartialEq, Eq)]
pub enum Lookup {
    /// The path exists: its canonical form, with symbolic links resolved.
    Real(Location),
    /// Nothing stands there.
    Missing,
    /// A symbolic link stands there that leads to nothing.
    Dangling,
}

/// What a [`Lookup`] stands for.
#[verifier::ext_equal]
pub enum LookupView {
    Real(Seq<PartView>),
    Missing,
    Dangling,
}

impl View for Lookup {
    type V = LookupView;

    open spec fn view(&self) -> LookupView {
        match self {
            Lookup::Real(found) => LookupView::Real(found@),
            Lookup::Missing => LookupView::Missing,
            Lookup::Dangling => LookupView::Dangling,
        }
    }
}

/// Whether `canonicalize` may answer `answer` when it is asked for the path `at`.
pub open spec fn answers<F: Fn(&Location) -> Lookup>(
    canonicalize: F,
    at: Seq<PartView>,
    answer: LookupView,
) -> bool {
    exists|l: &Location, r: Lookup| #[trigger]
        call_ensures(canonicalize, (l,), r) && l@ == at && r@ == answer
}

/// Whether `r` is the real location of the path `path`, given that none of its ancestors with
/// more than `n` components is there: the deepest ancestor that exists is replaced by its
/// canonical form, and the missing names follow as they are. Where none exists, `path` stays.
/// There is no telling (`None`) where a link on the way leads to nothing.
pub open spec fn leads_to<F: Fn(&Location) -> Lookup>(
    canonicalize: F,
    path: Seq<PartView>,
    n: nat,
    r: Option<Seq<PartView>>,
) -> bool
    decreases n,
{
    ||| exists|found: Seq<PartView>| #[trigger]
        answers(canonicalize, path.take(n as int), LookupView::Real(found)) && r == Some(
            found + path.skip(n as int),
        )
    ||| answers(canonicalize, path.take(n as int), LookupView::Dangling) && r is None
    ||| {
        &&& answers(canonicalize, path.take(n as int), LookupView::Missing)
        &&& if n > 0 && path[n - 1] is Normal {
            leads_to(canonicalize, path, (n - 1) as nat, r)
        } else {
            r == Some(path)
        }
    }
}

/// Whether `r` is the real location of `path`.
pub open spec fn real_location<F: Fn(&Location) -> Lookup>(
    canonicalize: F,
    path: Seq<PartView>,
    r: Option<Seq<PartView>>,
) -> bool {
    leads_to(canonicalize, path, path.len(), r)
}

/// Where an optional location leads.
pub open spec fn opt_location(location: Option<Location>) -> Option<Seq<PartView>> {
    match location {
        Some(location) => Some(location@),
        None => None,
    }
}

/// Returns the real location of `path`: the deepest ancestor that exists is canonicalized
/// (symbolic links resolved) and the missing tail is appended as it is. `None` where a link that
/// leads to nothing stands in the way: what is made through it appears wherever the link points.
pub fn canonical_prefix<F: Fn(&Location) -> Lookup>(path: &Location, canonicalize: &F) -> (r:
    Option<Location>)
    requires
        forall|l: &Location| #[trigger] call_requires(*canonicalize, (l,)),
    ensures
        real_location(*canonicalize, path@, opt_location(r)),
{
    let mut n: usize = path.parts.len();
    loop
        invariant
            n <= path@.len(),
            forall|l: &Location| #[trigger] call_requires(*canonicalize, (l,)),
            forall|r: Option<Seq<PartView>>|
                leads_to(*canonicalize, path@, n as nat, r) ==> #[trigger] real_location(
                    *canonicalize,
                    path@,
                    r,
                ),
        decreases n,
    {
        let current = path.ancestor(n);
        let answer = canonicalize(&current);
        assert(call_ensures(*canonicalize, (&current,), answer));
        assert(answers(*canonicalize, path@.take(n as int), answer@));
        match answer {
            Lookup::Real(found) => {
                let ghost start = found@;
                let mut parts = found.parts;
                let mut i: usize = n;
                while i < path.parts.len()
                    invariant
                        n <= i <= path@.len(),
                        parts_view(parts@) == start + path@.subrange(n as int, i as int),
                    decreases path.parts.len() - i,
                {
                    let ghost before = parts_view(parts@);
                    parts.push(path.parts[i].clone());
                    proof {
                        assert(parts_view(parts@) =~= before.push(path@[i as int]));
                        assert(path@.subrange(n as int, i + 1) =~= path@.subrange(
                            n as int,
                            i as int,
                        ).push(path@[i as int]));
                    }
                    i = i + 1;
                    assert(parts_view(parts@) =~= start + path@.subrange(n as int, i as int));
                }
                assert(path@.subrange(n as int, path@.len() as int) =~= path@.skip(n as int));
                return Some(Location { parts });
            },
            Lookup::Dangling => {
                return None;
            },
            Lookup::Missing => {},
        }
        if n == 0 {
            return Some(path.clone());
        }
        match &path.parts[n - 1] {
            PathPart::Normal(_) => {},
            _ => {
                assert(path@[n - 1] == path.parts@[n - 1]@);
                return Some(path.clone());
            },
        }
        assert(path@[n - 1] == path.parts@[n - 1]@);
        n = n - 1;
    }
}

/// Why a path sent by the agent is refused. Each variant holds the path as it is shown.
#[derive(Debug, PartialEq, Eq)]
pub enum PathError {
    NotAbsolute(String),
    AboveRoot(String),
    Outside(String),
    Escapes(String),
}

impl PathError {
    /// The message that the error is reported with.
    pub open spec fn message_text(&self) -> Seq<char> {
        match self {
            PathError::NotAbsolute(shown) => "path must be absolute: "@ + shown@,
            PathError::AboveRoot(shown) => "path climbs above the root: "@ + shown@,
            PathError::Outside(shown) => "path is outside the workspace: "@ + shown@,
            PathError::Escapes(shown) => "path escapes the workspace through a link: "@ + shown@,
        }
    }

    /// The message that the error is reported with.
    pub fn message(&self) -> (r: String)
        ensures
            r@ == self.message_text(),
    {
        match self {
            PathError::NotAbsolute(shown) => "path must be absolute: ".to_owned().concat(
                shown.as_str(),
            ),
            PathError::AboveRoot(shown) => "path climbs above the root: ".to_owned().concat(
                shown.as_str(),
            ),
            PathError::Outside(shown) => "path is outside the workspace: ".to_owned().concat(
                shown.as_str(),
            ),
            PathError::Escapes(shown) => "path escapes the workspace through a link: ".to_owned()
                .concat(shown.as_str()),
        }
    }
}

/// Whether `path` is absolute and lies inside `workspace` by its components alone.
pub open spec fn inside(workspace: FilePathView, path: FilePathView) -> bool {
    &&& path.absolute
    &&& normalized(path.location) matches Some(target)
    &&& normalized(workspace.location) matches Some(root)
    &&& root.is_prefix_of(target)
}

/// Whether the real location of `target` is known to lie inside the real location of `root`
/// (`within`), or not (`!within`), by answers that `canonicalize` may give.
pub open spec fn really_inside<F: Fn(&Location) -> Lookup>(
    canonicalize: F,
    root: Seq<PartView>,
    target: Seq<PartView>,
    within: bool,
) -> bool {
    exists|real_root: Option<Seq<PartView>>, real_target: Option<Seq<PartView>>|
        {
            &&& #[trigger] real_location(canonicalize, root, real_root)
            &&& #[trigger] real_location(canonicalize, target, real_target)
            &&& within == (real_root is Some && real_target is Some && real_root->0.is_prefix_of(
                real_target->0,
            ))
        }
}

/// Whether `r` is what the guard owes for `path`.
pub open spec fn guarded<F: Fn(&Location) -> Lookup>(
    canonicalize: F,
    workspace: FilePathView,
    path: FilePathView,
    r: Result<Location, PathError>,
) -> bool {
    let target = normalized(path.location);
    let root = normalized(workspace.location);
    match r {
        Err(PathError::NotAbsolute(shown)) => !path.absolute && shown@ == path.shown,
        Err(PathError::AboveRoot(shown)) => {
            &&& path.absolute
            &&& ({
                ||| target is None && shown@ == path.shown
                ||| target is Some && root is None && shown@ == workspace.shown
            })
        },
        Err(PathError::Outside(shown)) => {
            &&& path.absolute
            &&& target is Some
            &&& root is Some
            &&& !root->0.is_prefix_of(target->0)
            &&& shown@ == path.shown
        },
        Err(PathError::Escapes(shown)) => {
            &&& inside(workspace, path)
            &&& really_inside(canonicalize, root->0, target->0, false)
            &&& shown@ == path.shown
        },
        Ok(accepted) => {
            &&& inside(workspace, path)
            &&& really_inside(canonicalize, root->0, target->0, true)
            &&& target == Some(accepted@)
        },
    }
}

/// Validates a path sent by the agent and returns its normalized absolute form.
///
/// The path must be absolute, must stay inside `workspace` after normalization, and its real
/// location (symbolic links resolved) must also stay inside the real workspace directory. A path
/// through a link that leads to nothing is refused: a write would follow the link.
pub fn resolve_workspace_path<F: Fn(&Location) -> Lookup>(
    workspace: &FilePath,
    path: &FilePath,
    canonicalize: &F,
) -> (r: Result<Location, PathError>)
    requires
        forall|l: &Location| #[trigger] call_requires(*canonicalize, (l,)),
    ensures
        guarded(*canonicalize, workspace@, path@, r),
{
    if !path.absolute {
        return Err(PathError::NotAbsolute(path.shown.clone()));
    }
    let target = match normalize(&path.location) {
        Some(target) => target,
        None => {
            return Err(PathError::AboveRoot(path.shown.clone()));
        },
    };
    let root = match normalize(&workspace.location) {
        Some(root) => root,
        None => {
            return Err(PathError::AboveRoot(workspace.shown.clone()));
        },
    };
    if !target.starts_with(&root) {
        return Err(PathError::Outside(path.shown.clone()));
    }
    let real_target = canonical_prefix(&target, canonicalize);
    let real_root = canonical_prefix(&root, canonicalize);
    let within = match (&real_root, &real_target) {
        (Some(real_root), Some(real_target)) => real_target.starts_with(real_root),
        _ => false,
    };
    assert(really_inside(*canonicalize, root@, target@, within)) by {
        assert(real_location(*canonicalize, root@, opt_location(real_root)));
        assert(real_location(*canonicalize, target@, opt_location(real_target)));
    }
    if !within {
        return Err(PathError::Escapes(path.shown.clone()));
    }
    Ok(target)
}

/// How many lines end in `text`.
pub open spec fn line_ends(text: Seq<char>) -> nat
    decreases text.len(),
{
    if text.len() == 0 {
        0
    } else {
        line_ends(text.drop_last()) + if text.last() == '\n' {
            1nat
        } else {
            0nat
        }
    }
}

/// The characters of `text` that stand on the lines numbered from `from` up to, not including,
/// `to`, counted from zero. The character that ends a line stands on it.
pub open spec fn lines_between(text: Seq<char>, from: int, to: Option<int>) -> Seq<char>
    decreases text.len(),
{
    if text.len() == 0 {
        Seq::empty()
    } else {
        let before = text.drop_last();
        let line = line_ends(before);
        if from <= line && (to matches Some(end) ==> line < end) {
            lines_between(before, from, to).push(text.last())
        } else {
            lines_between(before, from, to)
        }
    }
}

/// The number, counted from zero, of the line that a request for the 1-based `line` begins at.
pub open spec fn first_line(line: Option<u32>) -> int {
    match line {
        Some(n) => if n == 0 {
            0
        } else {
            n - 1
        },
        None => 0,
    }
}

/// Returns `limit` lines of `content` starting at 1-based `line`.
/// `line == 0` counts as the first line; missing bounds mean "no bound".
pub fn slice_lines(content: &str, line: Option<u32>, limit: Option<u32>) -> (r: String)
    ensures
        r@ == lines_between(
            content@,
            first_line(line),
            match limit {
                Some(n) => Some(first_line(line) + n),
                None => None,
            },
        ),
{
    if line.is_none() && limit.is_none() {
        proof {
            all_lines_are_the_text(content@);
        }
        return content.to_owned();
    }
    let skip: u64 = match line {
        Some(n) => if n == 0 {
            0
        } else {
            n as u64 - 1
        },
        None => 0,
    };
    let end: Option<u64> = match limit {
        Some(n) => Some(skip + n as u64),
        None => None,
    };
    let ghost to: Option<int> = match end {
        Some(n) => Some(n as int),
        None => None,
    };
    let chars = chars_of(content);
    let mut out = String::new();
    let mut at: usize = 0;
    let mut i: usize = 0;
    while i < chars.len()
        invariant
            chars@ == content@,
            i <= chars.len(),
            at <= i,
            at == line_ends(content@.take(i as int)),
            to == match end {
                Some(n) => Some(n as int),
                None => None,
            },
            out@ == lines_between(content@.take(i as int), skip as int, to),
        decreases chars.len() - i,
    {
        proof {
            assert(content@.take(i + 1).drop_last() =~= content@.take(i as int));
            assert(content@.take(i + 1).last() == chars@[i as int]);
        }
        let c = chars[i];
        let before_end = match end {
            Some(n) => (at as u64) < n,
            None => true,
        };
        if skip <= at as u64 && before_end {
            out.push(c);
        }
        if c == '\n' {
            at = at + 1;
        }
        i = i + 1;
    }
    assert(content@.take(content@.len() as int) =~= content@);
    out
}

/// Without bounds every line is taken: all the lines together are the text.
pub proof fn all_lines_are_the_text(text: Seq<char>)
    ensures
        lines_between(text, 0, None) == text,
    decreases text.len(),
{
    if text.len() > 0 {
        all_lines_are_the_text(text.drop_last());
        assert(text.drop_last().push(text.last()) =~= text);
    }
}

/// Nothing stands on the lines after the last one.
proof fn lemma_past_the_end(text: Seq<char>, from: int, to: Option<int>)
    requires
        line_ends(text) < from,
    ensures
        lines_between(text, from, to) == Seq::<char>::empty(),
    decreases text.len(),
{
    if text.len() > 0 {
        lemma_past_the_end(text.drop_last(), from, to);
    }
}

/// Two windows of lines of which the second begins where the first ends make up the window from
/// the first one's beginning to the second one's end. So an agent that reads a file in pieces
/// gets the file.
pub proof fn adjacent_windows_join(text: Seq<char>, from: int, middle: int, to: Option<int>)
    requires
        from <= middle,
        to matches Some(end) ==> middle <= end,
    ensures
        lines_between(text, from, Some(middle)) + lines_between(text, middle, to) == lines_between(
            text,
            from,
            to,
        ),
    decreases text.len(),
{
    if text.len() > 0 {
        let before = text.drop_last();
        adjacent_windows_join(before, from, middle, to);
        if line_ends(before) < middle {
            lemma_past_the_end(before, middle, to);
        }
    }
    assert(lines_between(text, from, Some(middle)) + lines_between(text, middle, to)
        =~= lines_between(text, from, to));
}

/// A normalized path holds no `.` and no `..`.
pub proof fn normalized_paths_are_plain(path: Seq<PartView>)
    ensures
        normalized(path) matches Some(out) ==> forall|i: int|
            0 <= i < out.len() ==> !(#[trigger] out[i] is CurDir) && !(out[i] is ParentDir),
    decreases path.len(),
{
    if path.len() > 0 {
        normalized_paths_are_plain(path.drop_last());
    }
}

/// Normalizing twice is normalizing once.
pub proof fn normalizing_again_changes_nothing(path: Seq<PartView>)
    ensures
        normalized(path) matches Some(out) ==> normalized(out) == Some(out),
    decreases path.len(),
{
    if path.len() > 0 {
        let before = path.drop_last();
        normalizing_again_changes_nothing(before);
        if let Some(mid) = normalized(before) {
            if let Some(out) = normalize_step(mid, path.last()) {
                match path.last() {
                    PartView::CurDir => {},
                    PartView::ParentDir => {
                        normalized_paths_are_plain(before);
                        assert(mid.last() is Normal);
                        let rest = normalized(mid.drop_last())->0;
                        assert(rest.push(mid.last()) == mid);
                        assert(rest =~= mid.drop_last());
                    },
                    PartView::Normal(_) => {
                        assert(out.drop_last() =~= mid);
                    },
                    PartView::RootDir => {
                        reveal_with_fuel(normalized, 3);
                        assert(seq![out[0]].drop_last() =~= Seq::<PartView>::empty());
                        assert(out.len() == 1 ==> out.drop_last() =~= Seq::<PartView>::empty());
                        assert(out.len() == 2 ==> out.drop_last() =~= seq![out[0]]);
                        assert(out.len() == 2 ==> normalized(seq![out[0]]) == Some(seq![out[0]]));
                        assert(normalized(out) == Some(out));
                    },
                    PartView::Prefix(_) => {
                        reveal_with_fuel(normalized, 2);
                        assert(out.drop_last() =~= Seq::<PartView>::empty());
                    },
                }
            }
        }
    }
}

/// Whether `canonicalize` has one answer for each path.
pub open spec fn single_valued<F: Fn(&Location) -> Lookup>(canonicalize: F) -> bool {
    forall|at: Seq<PartView>, a: LookupView, b: LookupView| #[trigger]
        answers(canonicalize, at, a) && #[trigger] answers(canonicalize, at, b) ==> a == b
}

/// While the file system answers alike, a path has one real location.
proof fn lemma_one_real_location<F: Fn(&Location) -> Lookup>(
    canonicalize: F,
    path: Seq<PartView>,
    n: nat,
    a: Option<Seq<PartView>>,
    b: Option<Seq<PartView>>,
)
    requires
        single_valued(canonicalize),
        leads_to(canonicalize, path, n, a),
        leads_to(canonicalize, path, n, b),
    ensures
        a == b,
    decreases n,
{
    if n > 0 && path[n - 1] is Normal && answers(
        canonicalize,
        path.take(n as int),
        LookupView::Missing,
    ) {
        lemma_one_real_location(canonicalize, path, (n - 1) as nat, a, b);
    }
}

/// While the file system answers alike, a path is always accepted, as the same location, or
/// always refused.
pub proof fn the_guard_has_one_verdict<F: Fn(&Location) -> Lookup>(
    canonicalize: F,
    workspace: FilePathView,
    path: FilePathView,
    a: Result<Location, PathError>,
    b: Result<Location, PathError>,
)
    requires
        single_valued(canonicalize),
        guarded(canonicalize, workspace, path, a),
        guarded(canonicalize, workspace, path, b),
    ensures
        a is Ok <==> b is Ok,
        a is Ok ==> a->Ok_0@ == b->Ok_0@,
        a is Err ==> a->Err_0.message_text() == b->Err_0.message_text(),
{
    if inside(workspace, path) {
        let target = normalized(path.location)->0;
        let root = normalized(workspace.location)->0;
        assert forall|x: Option<Seq<PartView>>, y: Option<Seq<PartView>>| #[trigger]
            real_location(canonicalize, target, x) && #[trigger] real_location(
                canonicalize,
                target,
                y,
            ) implies x == y by {
            lemma_one_real_location(canonicalize, target, target.len(), x, y);
        }
        assert forall|x: Option<Seq<PartView>>, y: Option<Seq<PartView>>| #[trigger]
            real_location(canonicalize, root, x) && #[trigger] real_location(
                canonicalize,
                root,
                y,
            ) implies x == y by {
            lemma_one_real_location(canonicalize, root, root.len(), x, y);
        }
    }
}

/// A location that the guard gave out begins with the components of the workspace, and no `..`
/// in it leads out again.
pub proof fn an_accepted_location_is_inside<F: Fn(&Location) -> Lookup>(
    canonicalize: F,
    workspace: FilePathView,
    path: FilePathView,
    accepted: Location,
)
    requires
        guarded(canonicalize, workspace, path, Ok(accepted)),
    ensures
        normalized(workspace.location) matches Some(root) && root.is_prefix_of(accepted@),
        forall|i: int|
            0 <= i < accepted@.len() ==> !(#[trigger] accepted@[i] is ParentDir) && !(
            accepted@[i] is CurDir),
{
    normalized_paths_are_plain(path.location);
}

/// Whether a path leads from a root: it begins with one, or with a prefix and then one.
pub open spec fn rooted(path: Seq<PartView>) -> bool {
    ||| path.len() > 0 && path[0] is RootDir
    ||| path.len() > 1 && path[0] is Prefix && path[1] is RootDir
}

/// Whether a prefix stands nowhere but at the beginning of a path.
pub open spec fn prefix_first(path: Seq<PartView>) -> bool {
    forall|i: int| 0 < i < path.len() ==> !(#[trigger] path[i] is Prefix)
}

/// Normalizing a path that leads from a root gives one that does, too.
pub proof fn normalizing_keeps_the_root(path: Seq<PartView>)
    requires
        rooted(path),
        prefix_first(path),
    ensures
        normalized(path) matches Some(out) ==> rooted(out),
        path[0] is RootDir ==> (normalized(path) matches Some(out) ==> out[0] is RootDir),
    decreases path.len(),
{
    let before = path.drop_last();
    if rooted(before) {
        assert forall|i: int| 0 < i < before.len() implies !(#[trigger] before[i] is Prefix) by {
            assert(before[i] == path[i]);
        }
        normalizing_keeps_the_root(before);
    } else if path.len() == 1 {
        assert(normalized(before) == Some(Seq::<PartView>::empty()));
    } else {
        reveal_with_fuel(normalized, 3);
        assert(before =~= seq![path[0]]);
        assert(before.drop_last() =~= Seq::<PartView>::empty());
    }
}

/// A location that the guard gave out is absolute: it leads from a root, as the path did that was
/// asked for.
pub proof fn an_accepted_location_is_absolute<F: Fn(&Location) -> Lookup>(
    canonicalize: F,
    workspace: FilePathView,
    path: FilePathView,
    accepted: Location,
)
    requires
        rooted(path.location),
        prefix_first(path.location),
        guarded(canonicalize, workspace, path, Ok(accepted)),
    ensures
        rooted(accepted@),
        path.location[0] is RootDir ==> accepted@[0] is RootDir,
{
    normalizing_keeps_the_root(path.location);
}

/// Whether the `j`-th component of `path` is a name that may not be there.
pub open spec fn missing_name<F: Fn(&Location) -> Lookup>(
    canonicalize: F,
    path: Seq<PartView>,
    j: int,
) -> bool {
    path[j - 1] is Normal && answers(canonicalize, path.take(j), LookupView::Missing)
}

/// A path through a link that leads to nothing has no known location.
proof fn lemma_dangling<F: Fn(&Location) -> Lookup>(
    canonicalize: F,
    path: Seq<PartView>,
    k: nat,
    n: nat,
    r: Option<Seq<PartView>>,
)
    requires
        single_valued(canonicalize),
        k <= n <= path.len(),
        answers(canonicalize, path.take(k as int), LookupView::Dangling),
        forall|j: int| k < j <= n ==> #[trigger] missing_name(canonicalize, path, j),
        leads_to(canonicalize, path, n, r),
    ensures
        r is None,
    decreases n,
{
    if k < n {
        assert(missing_name(canonicalize, path, n as int));
        lemma_dangling(canonicalize, path, k, (n - 1) as nat, r);
    }
}

/// A path below a link that leads to nothing, or that is such a link, is refused, wherever the
/// link points: nothing is made outside the workspace through it.
pub proof fn a_link_to_nothing_is_refused<F: Fn(&Location) -> Lookup>(
    canonicalize: F,
    workspace: FilePathView,
    path: FilePathView,
    k: nat,
    r: Result<Location, PathError>,
)
    requires
        single_valued(canonicalize),
        inside(workspace, path),
        k <= normalized(path.location)->0.len(),
        answers(
            canonicalize,
            normalized(path.location)->0.take(k as int),
            LookupView::Dangling,
        ),
        forall|j: int|
            k < j <= normalized(path.location)->0.len() ==> #[trigger] missing_name(
                canonicalize,
                normalized(path.location)->0,
                j,
            ),
        guarded(canonicalize, workspace, path, r),
    ensures
        r matches Err(PathError::Escapes(_)),
{
    let target = normalized(path.location)->0;
    assert forall|x: Option<Seq<PartView>>| #[trigger]
        real_location(canonicalize, target, x) implies x is None by {
        lemma_dangling(canonicalize, target, k, target.len(), x);
    }
}

/// A location that the guard gave out passes it again, as itself.
pub proof fn an_accepted_location_is_accepted_again<F: Fn(&Location) -> Lookup>(
    canonicalize: F,
    workspace: FilePathView,
    path: FilePathView,
    accepted: Location,
    again: FilePathView,
)
    requires
        guarded(canonicalize, workspace, path, Ok(accepted)),
        again.absolute,
        again.location == accepted@,
    ensures
        guarded(canonicalize, workspace, again, Ok(accepted)),
{
    normalizing_again_changes_nothing(path.location);
}

/// A normal form goes on with exactly the name that is appended to the path, and a path that has
/// none does not get one.
pub proof fn an_appended_name_is_kept(path: Seq<PartView>, name: Seq<u8>)
    ensures
        match normalized(path) {
            Some(out) => normalized(path.push(PartView::Normal(name))) == Some(
                out.push(PartView::Normal(name)),
            ),
            None => normalized(path.push(PartView::Normal(name))) is None,
        },
{
    assert(path.push(PartView::Normal(name)).drop_last() =~= path);
}

/// A `.` at the end of a path makes no difference.
pub proof fn an_appended_dot_changes_nothing(path: Seq<PartView>)
    ensures
        normalized(path.push(PartView::CurDir)) == normalized(path),
{
    assert(path.push(PartView::CurDir).drop_last() =~= path);
}

/// A `..` at the end of a path leaves the last name of the normal form, and climbs above the root
/// where the normal form does not end with a name.
pub proof fn an_appended_parent_leaves_the_last_name(path: Seq<PartView>)
    requires
        normalized(path) is Some,
    ensures
        ({
            let out = normalized(path)->0;
            let up = normalized(path.push(PartView::ParentDir));
            if out.len() > 0 && out[out.len() - 1] is Normal {
                up == Some(out.take(out.len() - 1))
            } else {
                up is None
            }
        }),
{
    let out = normalized(path)->0;
    assert(path.push(PartView::ParentDir).drop_last() =~= path);
    normalized_paths_are_plain(path);
    if out.len() > 0 {
        assert(out.take(out.len() - 1) =~= out.drop_last());
        assert(!(out[out.len() - 1] is CurDir));
    }
}

/// A name and a `..` after it cancel out, whatever the path and the name.
pub proof fn a_name_and_its_parent_cancel_out(path: Seq<PartView>, name: Seq<u8>)
    ensures
        normalized(path.push(PartView::Normal(name)).push(PartView::ParentDir)) == normalized(path),
{
    let longer = path.push(PartView::Normal(name));
    an_appended_name_is_kept(path, name);
    assert(longer.push(PartView::ParentDir).drop_last() =~= longer);
    if let Some(out) = normalized(path) {
        assert(out.push(PartView::Normal(name)).drop_last() =~= out);
    }
}

/// A path of names alone, below a root, a prefix, both or neither, is its own normal form: every
/// name is kept as it is.
pub proof fn a_plain_path_is_its_own_normal_form(path: Seq<PartView>)
    requires
        forall|i: int|
            0 <= i < path.len() ==> (#[trigger] path[i] is Normal || (i == 0 && (path[i] is RootDir
                || path[i] is Prefix)) || (i == 1 && path[0] is Prefix && path[i] is RootDir)),
    ensures
        normalized(path) == Some(path),
    decreases path.len(),
{
    if path.len() > 0 {
        let before = path.drop_last();
        assert forall|i: int| 0 <= i < before.len() implies (#[trigger] before[i] is Normal || (i
            == 0 && (before[i] is RootDir || before[i] is Prefix)) || (i == 1 && before[0] is Prefix
            && before[i] is RootDir)) by {
            assert(before[i] == path[i]);
        }
        a_plain_path_is_its_own_normal_form(before);
        assert(before.push(path.last()) =~= path);
        let last = path[path.len() - 1];
        if last is RootDir && path.len() == 2 {
            assert(path =~= seq![path[0], PartView::RootDir]);
        }
        if path.len() == 1 {
            assert(path =~= seq![path[0]]);
        }
    }
}

/// What goes before can be normalized on its own: going on from the normal form of a path is going
/// on from the path. A path without a normal form has none however it goes on.
pub proof fn paths_are_normalized_from_the_left(a: Seq<PartView>, b: Seq<PartView>)
    ensures
        match normalized(a) {
            Some(out) => normalized(a + b) == normalized(out + b),
            None => normalized(a + b) is None,
        },
    decreases b.len(),
{
    if b.len() == 0 {
        assert(a + b =~= a);
        normalizing_again_changes_nothing(a);
        if let Some(out) = normalized(a) {
            assert(out + b =~= out);
        }
    } else {
        paths_are_normalized_from_the_left(a, b.drop_last());
        assert((a + b).drop_last() =~= a + b.drop_last());
        if let Some(out) = normalized(a) {
            assert((out + b).drop_last() =~= out + b.drop_last());
        }
    }
}

/// A root that stands in a path makes it begin there, behind the prefix where there is one, and a
/// prefix makes it begin anew.
pub proof fn a_root_begins_the_path_anew(path: Seq<PartView>, name: Seq<u8>)
    requires
        normalized(path) is Some,
    ensures
        normalized(path.push(PartView::Prefix(name))) == Some(seq![PartView::Prefix(name)]),
        ({
            let out = normalized(path)->0;
            normalized(path.push(PartView::RootDir)) == Some(
                if out.len() > 0 && out[0] is Prefix {
                    seq![out[0], PartView::RootDir]
                } else {
                    seq![PartView::RootDir]
                },
            )
        }),
{
    assert(path.push(PartView::Prefix(name)).drop_last() =~= path);
    assert(path.push(PartView::RootDir).drop_last() =~= path);
}

/// What [`normalize`] gives of a path of names below a root holds the same names, byte for byte.
pub proof fn normalize_keeps_plain_paths(path: &Location, r: Option<Location>)
    requires
        call_ensures(normalize, (path,), r),
        path@.len() > 0,
        path@[0] is RootDir,
        forall|i: int| 0 < i < path@.len() ==> #[trigger] path@[i] is Normal,
    ensures
        r matches Some(out) && out@ == path@,
{
    a_plain_path_is_its_own_normal_form(path@);
}

/// An answer of the file system is one that was given for that very path.
pub proof fn answers_are_for_the_path_asked<F: Fn(&Location) -> Lookup>(
    canonicalize: F,
    at: Seq<PartView>,
    answer: LookupView,
)
    ensures
        answers(canonicalize, at, answer) <==> exists|l: &Location, r: Lookup| #[trigger]
            call_ensures(canonicalize, (l,), r) && l@ == at && match r {
                Lookup::Real(found) => answer == LookupView::Real(found@),
                Lookup::Missing => answer is Missing,
                Lookup::Dangling => answer is Dangling,
            },
{
    if answers(canonicalize, at, answer) {
        let (l, r) = choose|l: &Location, r: Lookup| #[trigger]
            call_ensures(canonicalize, (l,), r) && l@ == at && r@ == answer;
        assert(call_ensures(canonicalize, (l,), r));
    }
    assert forall|l: &Location, r: Lookup| #[trigger]
        call_ensures(canonicalize, (l,), r) && l@ == at && (match r {
            Lookup::Real(found) => answer == LookupView::Real(found@),
            Lookup::Missing => answer is Missing,
            Lookup::Dangling => answer is Dangling,
        }) implies answers(canonicalize, at, answer) by {
        assert(r@ == answer);
    }
}

/// The steps down from a path whose last names are not there to an ancestor.
proof fn lemma_skip_missing<F: Fn(&Location) -> Lookup>(
    canonicalize: F,
    path: Seq<PartView>,
    k: nat,
    n: nat,
    r: Option<Seq<PartView>>,
)
    requires
        single_valued(canonicalize),
        k <= n <= path.len(),
        forall|j: int| k < j <= n ==> #[trigger] missing_name(canonicalize, path, j),
    ensures
        leads_to(canonicalize, path, n, r) <==> leads_to(canonicalize, path, k, r),
    decreases n,
{
    if k < n {
        assert(missing_name(canonicalize, path, n as int));
        lemma_skip_missing(canonicalize, path, k, (n - 1) as nat, r);
    }
}

/// Where the deepest ancestor of a path that exists really is at `found`, the path really is at
/// `found` with the missing names behind it, each as it is.
pub proof fn missing_names_follow_the_real_ancestor<F: Fn(&Location) -> Lookup>(
    canonicalize: F,
    path: Seq<PartView>,
    k: nat,
    found: Seq<PartView>,
    r: Option<Seq<PartView>>,
)
    requires
        single_valued(canonicalize),
        k <= path.len(),
        answers(canonicalize, path.take(k as int), LookupView::Real(found)),
        forall|j: int|
            k < j <= path.len() ==> path[j - 1] is Normal && #[trigger] answers(
                canonicalize,
                path.take(j),
                LookupView::Missing,
            ),
    ensures
        real_location(canonicalize, path, r) <==> r == Some(
            found + path.subrange(k as int, path.len() as int),
        ),
{
    assert forall|j: int| k < j <= path.len() implies #[trigger] missing_name(
        canonicalize,
        path,
        j,
    ) by {
        assert(answers(canonicalize, path.take(j), LookupView::Missing));
    }
    lemma_missing_names_follow(canonicalize, path, k, found, r);
}

/// The missing names follow the deepest ancestor that exists.
proof fn lemma_missing_names_follow<F: Fn(&Location) -> Lookup>(
    canonicalize: F,
    path: Seq<PartView>,
    k: nat,
    found: Seq<PartView>,
    r: Option<Seq<PartView>>,
)
    requires
        single_valued(canonicalize),
        k <= path.len(),
        answers(canonicalize, path.take(k as int), LookupView::Real(found)),
        forall|j: int| k < j <= path.len() ==> #[trigger] missing_name(canonicalize, path, j),
    ensures
        real_location(canonicalize, path, r) <==> r == Some(
            found + path.subrange(k as int, path.len() as int),
        ),
{
    lemma_skip_missing(canonicalize, path, k, path.len(), r);
    assert(path.skip(k as int) =~= path.subrange(k as int, path.len() as int));
    if leads_to(canonicalize, path, k, r) {
        if answers(canonicalize, path.take(k as int), LookupView::Dangling) {
            assert(LookupView::Real(found) == LookupView::Dangling);
        }
        if answers(canonicalize, path.take(k as int), LookupView::Missing) {
            assert(LookupView::Real(found) == LookupView::Missing);
        }
        let other = choose|other: Seq<PartView>| #[trigger]
            answers(canonicalize, path.take(k as int), LookupView::Real(other)) && r == Some(
                other + path.skip(k as int),
            );
        assert(LookupView::Real(found) == LookupView::Real(other));
    }
}

/// Whether the file system holds no links: what exists is where its path says.
pub open spec fn without_links<F: Fn(&Location) -> Lookup>(canonicalize: F) -> bool {
    forall|at: Seq<PartView>, answer: LookupView| #[trigger]
        answers(canonicalize, at, answer) ==> answer == LookupView::Real(at) || answer is Missing
}

/// Where there are no links, a path is where it says.
proof fn lemma_real_without_links<F: Fn(&Location) -> Lookup>(
    canonicalize: F,
    path: Seq<PartView>,
    n: nat,
    r: Option<Seq<PartView>>,
)
    requires
        without_links(canonicalize),
        n <= path.len(),
        leads_to(canonicalize, path, n, r),
    ensures
        r == Some(path),
    decreases n,
{
    assert(path.take(n as int) + path.skip(n as int) =~= path);
    if exists|found: Seq<PartView>| #[trigger]
        answers(canonicalize, path.take(n as int), LookupView::Real(found)) && r == Some(
            found + path.skip(n as int),
        ) {
    } else if answers(canonicalize, path.take(n as int), LookupView::Dangling) && r is None {
        assert(LookupView::Dangling == LookupView::Real(path.take(n as int)) || false);
    } else if n > 0 && path[n - 1] is Normal {
        lemma_real_without_links(canonicalize, path, (n - 1) as nat, r);
    }
}

/// Where there are no links, an absolute path that lies inside the workspace by its components is
/// accepted, and nothing else is: what is given out is its normal form.
pub proof fn without_links_the_components_decide<F: Fn(&Location) -> Lookup>(
    canonicalize: F,
    workspace: FilePathView,
    path: FilePathView,
    r: Result<Location, PathError>,
)
    requires
        without_links(canonicalize),
        guarded(canonicalize, workspace, path, r),
    ensures
        r is Ok <==> {
            &&& path.absolute
            &&& normalized(path.location) is Some
            &&& normalized(workspace.location) is Some
            &&& normalized(workspace.location)->0.len() <= normalized(path.location)->0.len()
            &&& forall|i: int|
                0 <= i < normalized(workspace.location)->0.len() ==> #[trigger] normalized(
                    workspace.location,
                )->0[i] == normalized(path.location)->0[i]
        },
        r matches Ok(accepted) ==> normalized(path.location) == Some(accepted@),
{
    if path.absolute && normalized(path.location) is Some && normalized(workspace.location) is Some {
        let target = normalized(path.location)->0;
        let root = normalized(workspace.location)->0;
        if root.is_prefix_of(target) {
            assert(root =~= target.subrange(0, root.len() as int));
            assert forall|i: int| 0 <= i < root.len() implies #[trigger] root[i] == target[i] by {
                assert(root[i] == target.subrange(0, root.len() as int)[i]);
            }
            assert forall|x: Option<Seq<PartView>>| #[trigger]
                real_location(canonicalize, target, x) implies x == Some(target) by {
                lemma_real_without_links(canonicalize, target, target.len(), x);
            }
            assert forall|x: Option<Seq<PartView>>| #[trigger]
                real_location(canonicalize, root, x) implies x == Some(root) by {
                lemma_real_without_links(canonicalize, root, root.len(), x);
            }
        } else if root.len() <= target.len() && forall|i: int|
            0 <= i < root.len() ==> #[trigger] root[i] == target[i] {
            assert(root =~= target.subrange(0, root.len() as int));
        }
    }
}

/// Whatever the file system holds: which paths are refused without looking at it, for what reason,
/// and with which path in the message.
pub proof fn paths_are_refused_by_their_components<F: Fn(&Location) -> Lookup>(
    canonicalize: F,
    workspace: FilePathView,
    path: FilePathView,
    r: Result<Location, PathError>,
)
    requires
        guarded(canonicalize, workspace, path, r),
    ensures
        !path.absolute ==> (r matches Err(PathError::NotAbsolute(shown)) && shown@ == path.shown),
        path.absolute && normalized(path.location) is None ==> (r matches Err(
            PathError::AboveRoot(shown),
        ) && shown@ == path.shown),
        path.absolute && normalized(path.location) is Some && normalized(workspace.location) is None
            ==> (r matches Err(PathError::AboveRoot(shown)) && shown@ == workspace.shown),
        path.absolute && normalized(path.location) is Some && normalized(workspace.location) is Some
            && !normalized(workspace.location)->0.is_prefix_of(normalized(path.location)->0) ==> (r
            matches Err(PathError::Outside(shown)) && shown@ == path.shown),
        r matches Err(PathError::Escapes(shown)) ==> shown@ == path.shown,
{
}

/// A path inside the workspace by its components is accepted exactly where it really lies inside
/// the real workspace directory, and else refused as one that escapes.
pub proof fn real_locations_decide<F: Fn(&Location) -> Lookup>(
    canonicalize: F,
    workspace: FilePathView,
    path: FilePathView,
    real_root: Seq<PartView>,
    real_target: Seq<PartView>,
    r: Result<Location, PathError>,
)
    requires
        single_valued(canonicalize),
        inside(workspace, path),
        real_location(canonicalize, normalized(workspace.location)->0, Some(real_root)),
        real_location(canonicalize, normalized(path.location)->0, Some(real_target)),
        guarded(canonicalize, workspace, path, r),
    ensures
        real_root.len() <= real_target.len() && real_target.take(real_root.len() as int)
            == real_root ==> (r matches Ok(accepted) && normalized(path.location) == Some(accepted@)),
        !(real_root.len() <= real_target.len() && real_target.take(real_root.len() as int)
            == real_root) ==> (r matches Err(PathError::Escapes(shown)) && shown@ == path.shown),
{
    let target = normalized(path.location)->0;
    let root = normalized(workspace.location)->0;
    assert forall|x: Option<Seq<PartView>>| #[trigger]
        real_location(canonicalize, target, x) implies x == Some(real_target) by {
        lemma_one_real_location(canonicalize, target, target.len(), x, Some(real_target));
    }
    assert forall|x: Option<Seq<PartView>>| #[trigger]
        real_location(canonicalize, root, x) implies x == Some(real_root) by {
        lemma_one_real_location(canonicalize, root, root.len(), x, Some(real_root));
    }
    if real_root.len() <= real_target.len() {
        assert(real_target.take(real_root.len() as int) =~= real_target.subrange(
            0,
            real_root.len() as int,
        ));
    }
}

/// The message of a refusal ends with the path that is refused, and tells what is wrong with it:
/// for one path, the reasons are told apart.
pub proof fn refusals_are_told_apart(shown: String)
    ensures
        PathError::NotAbsolute(shown).message_text() == "path must be absolute: "@ + shown@,
        PathError::AboveRoot(shown).message_text() == "path climbs above the root: "@ + shown@,
        PathError::Outside(shown).message_text() == "path is outside the workspace: "@ + shown@,
        PathError::Escapes(shown).message_text() == "path escapes the workspace through a link: "@
            + shown@,
        PathError::NotAbsolute(shown).message_text() != PathError::AboveRoot(shown).message_text(),
        PathError::NotAbsolute(shown).message_text() != PathError::Outside(shown).message_text(),
        PathError::NotAbsolute(shown).message_text() != PathError::Escapes(shown).message_text(),
        PathError::AboveRoot(shown).message_text() != PathError::Outside(shown).message_text(),
        PathError::AboveRoot(shown).message_text() != PathError::Escapes(shown).message_text(),
        PathError::Outside(shown).message_text() != PathError::Escapes(shown).message_text(),
{
    reveal_strlit("path must be absolute: ");
    reveal_strlit("path climbs above the root: ");
    reveal_strlit("path is outside the workspace: ");
    reveal_strlit("path escapes the workspace through a link: ");
    assert(PathError::NotAbsolute(shown).message_text()[5] == 'm');
    assert(PathError::AboveRoot(shown).message_text()[5] == 'c');
    assert(PathError::Outside(shown).message_text()[5] == 'i');
    assert(PathError::Escapes(shown).message_text()[5] == 'e');
}

/// The lines of two texts, one after the other, are counted together; a line ends with each line
/// feed and with nothing else.
pub proof fn line_ends_are_counted(a: Seq<char>, b: Seq<char>, c: char)
    ensures
        line_ends(a + b) == line_ends(a) + line_ends(b),
        line_ends(a.push('\n')) == line_ends(a) + 1,
        c != '\n' ==> line_ends(a.push(c)) == line_ends(a),
        line_ends(Seq::empty()) == 0,
    decreases b.len(),
{
    assert(a.push('\n').drop_last() =~= a);
    assert(a.push(c).drop_last() =~= a);
    if b.len() == 0 {
        assert(a + b =~= a);
    } else {
        line_ends_are_counted(a, b.drop_last(), c);
        assert((a + b).drop_last() =~= a + b.drop_last());
    }
}

/// What stands behind a text that ends its last line, as lines counted from there.
proof fn lemma_lines_behind(a: Seq<char>, b: Seq<char>, from: int, to: Option<int>)
    requires
        line_ends(a) <= from,
        a.len() > 0 ==> a.last() == '\n',
    ensures
        lines_between(a + b, from, to) == lines_between(
            b,
            from - line_ends(a),
            match to {
                Some(end) => Some(end - line_ends(a)),
                None => None,
            },
        ),
    decreases b.len(),
{
    if b.len() == 0 {
        assert(a + b =~= a);
        lemma_before_the_start(a, from, to);
    } else {
        lemma_lines_behind(a, b.drop_last(), from, to);
        line_ends_are_counted(a, b.drop_last(), 'x');
        assert((a + b).drop_last() =~= a + b.drop_last());
    }
}

/// Nothing of a text whose lines are all numbered below `from` is taken.
proof fn lemma_before_the_start(text: Seq<char>, from: int, to: Option<int>)
    requires
        line_ends(text) <= from,
        text.len() > 0 ==> text.last() == '\n',
    ensures
        lines_between(text, from, to) == Seq::<char>::empty(),
    decreases text.len(),
{
    if text.len() > 0 {
        lemma_past_the_end(text.drop_last(), from, to);
    }
}

/// All of a text with at most `n` lines is taken by the first `n` lines.
proof fn lemma_first_lines(b: Seq<char>, c: Seq<char>, n: int)
    requires
        line_ends(b) == n,
        b.len() > 0 ==> b.last() == '\n',
    ensures
        lines_between(b + c, 0, Some(n)) == b,
    decreases c.len(),
{
    if c.len() == 0 {
        assert(b + c =~= b);
        lemma_all_taken(b, n);
    } else {
        lemma_first_lines(b, c.drop_last(), n);
        line_ends_are_counted(b, c.drop_last(), 'x');
        assert((b + c).drop_last() =~= b + c.drop_last());
    }
}

/// A text in which at most `n` lines end, the last one at its end, is taken whole.
proof fn lemma_all_taken(text: Seq<char>, n: int)
    requires
        line_ends(text) <= n,
        text.len() > 0 ==> text.last() == '\n' || line_ends(text) < n,
    ensures
        lines_between(text, 0, Some(n)) == text,
    decreases text.len(),
{
    if text.len() > 0 {
        let before = text.drop_last();
        if text.last() == '\n' {
            assert(line_ends(before) < n);
        }
        lemma_all_taken(before, n);
        assert(before.push(text.last()) =~= text);
    }
}

/// Reading from a line on gives the text behind the lines before it, up to the end or up to the
/// end of the last line that is asked for: with `skipped` whole lines in front, and `wanted` being
/// as many whole lines as the limit says.
pub proof fn a_read_gives_the_lines_asked_for(
    text: &str,
    line: Option<u32>,
    limit: Option<u32>,
    skipped: Seq<char>,
    wanted: Seq<char>,
    rest: Seq<char>,
    r: String,
)
    requires
        call_ensures(slice_lines, (text, line, limit), r),
        text@ == skipped + wanted + rest,
        skipped.len() > 0 ==> skipped.last() == '\n',
        line_ends(skipped) == match line {
            Some(n) => if n <= 1 {
                0
            } else {
                n - 1
            },
            None => 0,
        },
        match limit {
            Some(n) => line_ends(wanted) == n && (wanted.len() > 0 ==> wanted.last() == '\n'),
            None => rest.len() == 0,
        },
    ensures
        r@ == wanted,
{
    let from = first_line(line);
    let to = match limit {
        Some(n) => Some(from + n),
        None => None,
    };
    assert(text@ =~= skipped + (wanted + rest));
    lemma_lines_behind(skipped, wanted + rest, from, to);
    match limit {
        Some(n) => {
            lemma_first_lines(wanted, rest, n as int);
        },
        None => {
            assert(wanted + rest =~= wanted);
            all_lines_are_the_text(wanted);
        },
    }
}

/// Where there are fewer lines than are asked for, what there is of them is given; and nothing
/// where the first one asked for is past the end.
pub proof fn a_read_past_the_end_gives_what_there_is(
    text: &str,
    line: Option<u32>,
    limit: Option<u32>,
    skipped: Seq<char>,
    wanted: Seq<char>,
    r: String,
)
    requires
        call_ensures(slice_lines, (text, line, limit), r),
    ensures
        ({
            let before = match line {
                Some(n) => if n <= 1 {
                    0
                } else {
                    n - 1
                },
                None => 0,
            };
            &&& line_ends(text@) < before ==> r@ == Seq::<char>::empty()
            &&& (text@ == skipped + wanted && line_ends(skipped) == before && (skipped.len() > 0
                ==> skipped.last() == '\n') && (limit matches Some(n) ==> line_ends(wanted) < n))
                ==> r@ == wanted
        }),
{
    let from = first_line(line);
    let to = match limit {
        Some(n) => Some(from + n),
        None => None,
    };
    if line_ends(text@) < from {
        lemma_past_the_end(text@, from, to);
    }
    if text@ == skipped + wanted && line_ends(skipped) == from && (skipped.len() > 0
        ==> skipped.last() == '\n') {
        lemma_lines_behind(skipped, wanted, from, to);
        match limit {
            Some(n) => {
                if line_ends(wanted) < n {
                    lemma_all_taken(wanted, n as int);
                }
            },
            None => {
                all_lines_are_the_text(wanted);
            },
        }
    }
}

/// Where there are no links, [`resolve_workspace_path`] gives out a path of names below a workspace
/// of names as it is, byte for byte.
pub proof fn a_plain_path_in_the_workspace_is_given_out<F: Fn(&Location) -> Lookup>(
    workspace: &FilePath,
    path: &FilePath,
    canonicalize: &F,
    r: Result<Location, PathError>,
)
    requires
        call_ensures(resolve_workspace_path::<F>, (workspace, path, canonicalize), r),
        without_links(*canonicalize),
        path.absolute,
        path.location@.len() > 0,
        path.location@[0] is RootDir,
        forall|i: int| 0 < i < path.location@.len() ==> #[trigger] path.location@[i] is Normal,
        0 < workspace.location@.len() <= path.location@.len(),
        forall|i: int|
            0 <= i < workspace.location@.len() ==> #[trigger] workspace.location@[i]
                == path.location@[i],
    ensures
        r matches Ok(accepted) && accepted@ == path.location@,
{
    assert forall|i: int| 0 < i < workspace.location@.len() implies #[trigger] workspace.location@[i]
        is Normal by {
        assert(workspace.location@[i] == path.location@[i]);
    }
    a_plain_path_is_its_own_normal_form(path.location@);
    a_plain_path_is_its_own_normal_form(workspace.location@);
    without_links_the_components_decide(*canonicalize, workspace@, path@, r);
}

/// Whatever [`resolve_workspace_path`] gives out is the normal form of the path asked for, begins
/// with the normal form of the workspace, and holds no `..`; a path that is not absolute is refused.
pub proof fn what_is_given_out_is_inside<F: Fn(&Location) -> Lookup>(
    workspace: &FilePath,
    path: &FilePath,
    canonicalize: &F,
    accepted: Location,
)
    requires
        call_ensures(resolve_workspace_path::<F>, (workspace, path, canonicalize), Ok(accepted)),
    ensures
        path.absolute,
        normalized(path.location@) == Some(accepted@),
        normalized(workspace.location@) matches Some(root) && root.len() <= accepted@.len()
            && accepted@.take(root.len() as int) == root,
        forall|i: int|
            0 <= i < accepted@.len() ==> !(#[trigger] accepted@[i] is ParentDir) && !(
            accepted@[i] is CurDir),
        exists|real_root: Seq<PartView>, real_target: Seq<PartView>|
            {
                &&& #[trigger] real_location(
                    *canonicalize,
                    normalized(workspace.location@)->0,
                    Some(real_root),
                )
                &&& #[trigger] real_location(*canonicalize, accepted@, Some(real_target))
                &&& real_root.len() <= real_target.len()
                &&& real_target.take(real_root.len() as int) == real_root
            },
{
    normalized_paths_are_plain(path.location@);
    let root = normalized(workspace.location@)->0;
    assert(accepted@.take(root.len() as int) =~= accepted@.subrange(0, root.len() as int));
    let (a, b) = choose|a: Option<Seq<PartView>>, b: Option<Seq<PartView>>|
        {
            &&& #[trigger] real_location(*canonicalize, root, a)
            &&& #[trigger] real_location(*canonicalize, accepted@, b)
            &&& a is Some && b is Some && a->0.is_prefix_of(b->0)
        };
    assert(real_location(*canonicalize, root, Some(a->0)));
    assert(real_location(*canonicalize, accepted@, Some(b->0)));
    assert(b->0.take(a->0.len() as int) =~= b->0.subrange(0, a->0.len() as int));
}

/// A path stands for all that it holds: two paths that stand for the same are shown alike, are both
/// absolute or neither, and lead through the same components, byte for byte.
pub proof fn a_path_is_told_by_its_view(a: FilePath, b: FilePath, i: int)
    requires
        a@ == b@,
    ensures
        a.shown@ == b.shown@,
        a.absolute == b.absolute,
        a.location.parts@.len() == b.location.parts@.len(),
        0 <= i < a.location.parts@.len() ==> match (a.location.parts@[i], b.location.parts@[i]) {
            (PathPart::Normal(x), PathPart::Normal(y)) => x@ == y@,
            (PathPart::Prefix(x), PathPart::Prefix(y)) => x@ == y@,
            (PathPart::RootDir, PathPart::RootDir) => true,
            (PathPart::CurDir, PathPart::CurDir) => true,
            (PathPart::ParentDir, PathPart::ParentDir) => true,
            _ => false,
        },
{
    assert(a.location@.len() == b.location@.len());
    if 0 <= i < a.location.parts@.len() {
        assert(a.location@[i] == b.location@[i]);
    }
}

/// The lines are numbered from one, and zero counts as the first.
pub proof fn lines_are_numbered_from_one(n: u32)
    ensures
        first_line(None) == 0,
        first_line(Some(0)) == 0,
        n > 0 ==> first_line(Some(n)) + 1 == n,
{
}

/// Where nothing of a path is there, down to its root, the path is taken as it is.
pub proof fn a_path_of_which_nothing_is_there_stays<F: Fn(&Location) -> Lookup>(
    canonicalize: F,
    path: Seq<PartView>,
    k: nat,
    r: Option<Seq<PartView>>,
)
    requires
        single_valued(canonicalize),
        k <= path.len(),
        answers(canonicalize, path.take(k as int), LookupView::Missing),
        k == 0 || !(path[k - 1] is Normal),
        forall|j: int|
            k < j <= path.len() ==> path[j - 1] is Normal && #[trigger] answers(
                canonicalize,
                path.take(j),
                LookupView::Missing,
            ),
    ensures
        real_location(canonicalize, path, r) <==> r == Some(path),
{
    assert forall|j: int| k < j <= path.len() implies #[trigger] missing_name(
        canonicalize,
        path,
        j,
    ) by {
        assert(answers(canonicalize, path.take(j), LookupView::Missing));
    }
    lemma_skip_missing(canonicalize, path, k, path.len(), r);
    if leads_to(canonicalize, path, k, r) {
        if answers(canonicalize, path.take(k as int), LookupView::Dangling) {
            assert(LookupView::Missing == LookupView::Dangling);
        }
        assert forall|found: Seq<PartView>| !#[trigger] answers(
            canonicalize,
            path.take(k as int),
            LookupView::Real(found),
        ) by {
            if answers(canonicalize, path.take(k as int), LookupView::Real(found)) {
                assert(LookupView::Missing == LookupView::Real(found));
            }
        }
    }
}

/// What [`canonical_prefix`] gives is the real location of the path.
pub proof fn the_canonical_prefix_is_where_the_path_is<F: Fn(&Location) -> Lookup>(
    path: &Location,
    canonicalize: &F,
    k: nat,
    found: Seq<PartView>,
    r: Option<Location>,
)
    requires
        call_ensures(canonical_prefix::<F>, (path, canonicalize), r),
        single_valued(*canonicalize),
        k <= path@.len(),
        answers(*canonicalize, path@.take(k as int), LookupView::Real(found)),
        forall|j: int|
            k < j <= path@.len() ==> path@[j - 1] is Normal && #[trigger] answers(
                *canonicalize,
                path@.take(j),
                LookupView::Missing,
            ),
    ensures
        r matches Some(place) && place@ == found + path@.subrange(k as int, path@.len() as int),
{
    let at = path@;
    assert forall|j: int| k < j <= at.len() implies #[trigger] missing_name(
        *canonicalize,
        at,
        j,
    ) by {
        assert(answers(*canonicalize, path@.take(j), LookupView::Missing));
    }
    lemma_missing_names_follow(*canonicalize, at, k, found, opt_location(r));
}

/// A location's ancestor has its first components, and one location starts with another where that
/// one's components are its first ones.
pub proof fn ancestors_are_beginnings(
    location: &Location,
    n: usize,
    r: Location,
    root: &Location,
    starts: bool,
)
    requires
        call_ensures(Location::ancestor, (location, n), r),
        n <= location@.len(),
        call_ensures(Location::starts_with, (location, root), starts),
    ensures
        r@.len() == n,
        forall|i: int| 0 <= i < n ==> #[trigger] r@[i] == location@[i],
        starts <==> root@.len() <= location@.len() && forall|i: int|
            0 <= i < root@.len() ==> #[trigger] root@[i] == location@[i],
{
    if starts {
        assert forall|i: int| 0 <= i < root@.len() implies #[trigger] root@[i] == location@[i] by {
            assert(root@[i] == location@.subrange(0, root@.len() as int)[i]);
        }
    } else if root@.len() <= location@.len() && forall|i: int|
        0 <= i < root@.len() ==> #[trigger] root@[i] == location@[i] {
        assert(root@ =~= location@.subrange(0, root@.len() as int));
    }
}

} // verus!

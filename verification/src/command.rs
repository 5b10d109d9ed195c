//! Resolves the agent command before it is spawned, and describes it for errors.

use vstd::prelude::*;

use crate::text::{
    chars_of, contains_white_space, has_white_space, join, joined,
    joining_goes_on_behind_a_separator, texts,
};

verus! {

/// Where commands are looked up, on platforms that look for them by their extensions.
pub struct PathSearch<D> {
    /// The directories to look in, in order.
    pub path_dirs: Vec<D>,
    /// The extensions to try, separated by semicolons, where the environment says them.
    pub pathext: Option<String>,
}

/// The program to spawn.
#[derive(Debug, PartialEq)]
pub enum Program {
    /// The command as it was given.
    AsGiven(String),
    /// The file of this name in the directory with this index.
    Found { dir: usize, name: String },
}

/// Whether a name has an extension: a dot that stands neither at the beginning nor in `..`.
pub open spec fn has_extension(name: Seq<char>) -> bool {
    &&& name != seq!['.', '.']
    &&& exists|i: int| 0 < i < name.len() && #[trigger] name[i] == '.'
}

/// Whether `command` contains a directory separator.
pub open spec fn has_separator(command: Seq<char>) -> bool {
    exists|i: int|
        0 <= i < command.len() && (#[trigger] command[i] == '/' || command[i] == '\\')
}

/// Whether `command` is spawned as it is: it is empty, it is a path, or it has an extension.
pub open spec fn used_as_is(command: Seq<char>) -> bool {
    command.len() == 0 || has_separator(command) || has_extension(command)
}

/// Whether `is_file` may answer `found` for the file `name` in `dir`.
pub open spec fn looked_up<D, F: Fn(&D, &str) -> bool>(
    is_file: F,
    dir: D,
    name: Seq<char>,
    found: bool,
) -> bool {
    exists|s: &str| #[trigger] call_ensures(is_file, (&dir, s), found) && s@ == name
}

/// Whether no name of `command` with one of the first `n` extensions was found in `dir`.
pub open spec fn none_found<D, F: Fn(&D, &str) -> bool>(
    is_file: F,
    dir: D,
    command: Seq<char>,
    extensions: Seq<Seq<char>>,
    n: int,
) -> bool {
    forall|j: int|
        0 <= j < n ==> looked_up(is_file, dir, command + #[trigger] extensions[j], false)
}

/// Whether `r` is the first candidate that was found: directories first, then extensions.
pub open spec fn first_found<D, F: Fn(&D, &str) -> bool>(
    is_file: F,
    command: Seq<char>,
    path_dirs: Seq<D>,
    extensions: Seq<Seq<char>>,
    r: Option<(usize, String)>,
) -> bool {
    match r {
        Some((dir, name)) => {
            &&& dir < path_dirs.len()
            &&& forall|i: int|
                0 <= i < dir ==> none_found(
                    is_file,
                    #[trigger] path_dirs[i],
                    command,
                    extensions,
                    extensions.len() as int,
                )
            &&& exists|j: int|
                {
                    &&& 0 <= j < extensions.len()
                    &&& name@ == command + #[trigger] extensions[j]
                    &&& looked_up(is_file, path_dirs[dir as int], name@, true)
                    &&& none_found(is_file, path_dirs[dir as int], command, extensions, j)
                }
        },
        None => forall|i: int|
            0 <= i < path_dirs.len() ==> none_found(
                is_file,
                #[trigger] path_dirs[i],
                command,
                extensions,
                extensions.len() as int,
            ),
    }
}

/// Whether `command` is spawned as it is.
fn is_used_as_is(command: &str) -> (r: bool)
    ensures
        r == used_as_is(command@),
{
    let chars = chars_of(command);
    if chars.len() == 0 {
        return true;
    }
    let dots = chars.len() == 2 && chars[0] == '.' && chars[1] == '.';
    proof {
        if dots {
            assert(command@ =~= seq!['.', '.']);
        }
    }
    let mut i: usize = 0;
    while i < chars.len()
        invariant
            chars@ == command@,
            chars@.len() > 0,
            i <= chars.len(),
            dots == (command@ == seq!['.', '.']),
            forall|j: int|
                0 <= j < i ==> #[trigger] command@[j] != '/' && command@[j] != '\\' && (j > 0
                    && !dots ==> command@[j] != '.'),
        decreases chars.len() - i,
    {
        let c = chars[i];
        if c == '/' || c == '\\' {
            assert(command@[i as int] == '/' || command@[i as int] == '\\');
            return true;
        }
        if c == '.' && i > 0 && !dots {
            assert(command@[i as int] == '.');
            return true;
        }
        i = i + 1;
    }
    false
}

/// Looks `command` up in `path_dirs`, trying each of `extensions` appended to the name, in order:
/// directories first, then extensions. Returns the first candidate for which `is_file` holds, as
/// the index of its directory and its name.
///
/// Returns `None` without looking when `command` already has an extension or is a path (it
/// contains a directory separator), because those are spawned as they are.
pub fn find_in_path<D, F: Fn(&D, &str) -> bool>(
    command: &str,
    path_dirs: &[D],
    extensions: &[String],
    is_file: F,
) -> (r: Option<(usize, String)>)
    requires
        used_as_is(command@) || forall|dir: &D, name: &str| #[trigger]
            call_requires(is_file, (dir, name)),
    ensures
        if used_as_is(command@) {
            r is None
        } else {
            first_found(is_file, command@, path_dirs@, texts(extensions@), r)
        },
{
    if is_used_as_is(command) {
        return None;
    }
    let ghost names = texts(extensions@);
    let mut i: usize = 0;
    while i < path_dirs.len()
        invariant
            i <= path_dirs@.len(),
            names == texts(extensions@),
            !used_as_is(command@),
            forall|dir: &D, name: &str| #[trigger] call_requires(is_file, (dir, name)),
            forall|k: int|
                0 <= k < i ==> none_found(
                    is_file,
                    #[trigger] path_dirs@[k],
                    command@,
                    names,
                    names.len() as int,
                ),
        decreases path_dirs@.len() - i,
    {
        let mut j: usize = 0;
        while j < extensions.len()
            invariant
                i < path_dirs@.len(),
                j <= extensions@.len(),
                names == texts(extensions@),
                !used_as_is(command@),
                forall|dir: &D, name: &str| #[trigger] call_requires(is_file, (dir, name)),
                forall|k: int|
                    0 <= k < i ==> none_found(
                        is_file,
                        #[trigger] path_dirs@[k],
                        command@,
                        names,
                        names.len() as int,
                    ),
                none_found(is_file, path_dirs@[i as int], command@, names, j as int),
            decreases extensions@.len() - j,
        {
            let name = command.to_owned().concat(extensions[j].as_str());
            let found = is_file(&path_dirs[i], name.as_str());
            proof {
                assert(names[j as int] == extensions@[j as int]@);
                assert(looked_up(is_file, path_dirs@[i as int], command@ + names[j as int], found));
            }
            if found {
                return Some((i, name));
            }
            j = j + 1;
        }
        i = i + 1;
    }
    None
}

/// The maximal runs of characters of `text` other than `separator`, in order.
pub open spec fn runs(text: Seq<char>, separator: char) -> Seq<Seq<char>>
    decreases text.len(),
{
    if text.len() == 0 {
        Seq::empty()
    } else {
        let before = runs(text.drop_last(), separator);
        let c = text.last();
        if c == separator {
            before
        } else if text.len() == 1 || text[text.len() - 2] == separator {
            before.push(seq![c])
        } else {
            before.drop_last().push(before.last().push(c))
        }
    }
}

/// A text that ends in a run has a run.
proof fn lemma_runs_nonempty(text: Seq<char>, separator: char)
    requires
        text.len() > 0,
        text.last() != separator,
    ensures
        runs(text, separator).len() > 0,
{
}

/// Splits `text` at `separator`, leaving out the empty pieces.
fn split_runs(text: &str, separator: char) -> (r: Vec<String>)
    ensures
        texts(r@) == runs(text@, separator),
{
    let chars = chars_of(text);
    let mut out: Vec<String> = Vec::new();
    let mut i: usize = 0;
    assert(texts(out@) =~= Seq::<Seq<char>>::empty());
    while i < chars.len()
        invariant
            chars@ == text@,
            i <= chars.len(),
            texts(out@) == runs(text@.take(i as int), separator),
        decreases chars.len() - i,
    {
        let ghost before = texts(out@);
        proof {
            assert(text@.take(i + 1).drop_last() =~= text@.take(i as int));
            assert(text@.take(i + 1).last() == chars@[i as int]);
        }
        let c = chars[i];
        if c != separator {
            if i == 0 || chars[i - 1] == separator {
                let mut run = String::new();
                run.push(c);
                assert(run@ =~= seq![c]);
                out.push(run);
                assert(texts(out@) =~= before.push(seq![c]));
            } else {
                proof {
                    lemma_runs_nonempty(text@.take(i as int), separator);
                }
                let last = out.pop();
                if let Some(mut run) = last {
                    assert(run@ == before.last());
                    run.push(c);
                    out.push(run);
                }
                assert(texts(out@) =~= before.drop_last().push(before.last().push(c)));
            }
        }
        i = i + 1;
    }
    assert(text@.take(text@.len() as int) =~= text@);
    out
}

/// The extensions to try: those that the environment says, or the usual ones.
pub open spec fn extensions_tried(pathext: Option<String>) -> Seq<Seq<char>> {
    match pathext {
        Some(text) => runs(text@, ';'),
        None => runs(".COM;.EXE;.BAT;.CMD"@, ';'),
    }
}

/// Returns the program to spawn for `command`.
///
/// On a platform that finds only `.exe` files on its own, a bare name such as `npx` (really
/// `npx.cmd`) would not start. There `search` says where to look: a command with no extension
/// that is not a path is looked up in the directories with each extension, and the first match
/// wins. On other platforms (`None`), and when nothing matches, the command is returned
/// unchanged.
pub fn resolve_command<D, F: Fn(&D, &str) -> bool>(
    command: &str,
    search: Option<&PathSearch<D>>,
    is_file: F,
) -> (r: Program)
    requires
        search is None || used_as_is(command@) || forall|dir: &D, name: &str| #[trigger]
            call_requires(is_file, (dir, name)),
    ensures
        match (search, r) {
            (_, Program::AsGiven(given)) => given@ == command@ && (search is None || used_as_is(
                command@,
            ) || first_found(
                is_file,
                command@,
                search->0.path_dirs@,
                extensions_tried(search->0.pathext),
                None,
            )),
            (None, Program::Found { .. }) => false,
            (Some(places), Program::Found { dir, name }) => !used_as_is(command@) && first_found(
                is_file,
                command@,
                places.path_dirs@,
                extensions_tried(places.pathext),
                Some((dir, name)),
            ),
        },
{
    if let Some(places) = search {
        let extensions = match &places.pathext {
            Some(text) => split_runs(text.as_str(), ';'),
            None => split_runs(".COM;.EXE;.BAT;.CMD", ';'),
        };
        let found = find_in_path(
            command,
            places.path_dirs.as_slice(),
            extensions.as_slice(),
            is_file,
        );
        if let Some((dir, name)) = found {
            return Program::Found { dir, name };
        }
    }
    Program::AsGiven(command.to_owned())
}

/// A part of a command line as it is shown: in quotes where it is empty or holds white space.
pub open spec fn shown_part(part: Seq<char>) -> Seq<char> {
    if part.len() == 0 || has_white_space(part) {
        "\""@ + part + "\""@
    } else {
        part
    }
}

/// The command line as it is shown.
pub open spec fn command_line(command: Seq<char>, args: Seq<Seq<char>>) -> Seq<char> {
    joined((seq![command] + args).map_values(|part: Seq<char>| shown_part(part)), " "@)
}

/// A part of a command line as it is shown.
fn describe_part(part: &str) -> (r: String)
    ensures
        r@ == shown_part(part@),
{
    if part.is_empty() || contains_white_space(part) {
        "\"".to_owned().concat(part).concat("\"")
    } else {
        part.to_owned()
    }
}

/// Formats a command and its arguments as one line for error messages. Arguments containing
/// white space are quoted.
pub fn describe_command(command: &str, args: &[String]) -> (r: String)
    ensures
        r@ == command_line(command@, texts(args@)),
{
    let mut parts: Vec<String> = Vec::new();
    parts.push(describe_part(command));
    let ghost shown = (seq![command@] + texts(args@)).map_values(
        |part: Seq<char>| shown_part(part),
    );
    let mut i: usize = 0;
    while i < args.len()
        invariant
            i <= args@.len(),
            parts@.len() == i + 1,
            shown == (seq![command@] + texts(args@)).map_values(
                |part: Seq<char>| shown_part(part),
            ),
            forall|j: int| 0 <= j <= i ==> #[trigger] parts@[j]@ == shown[j],
        decreases args@.len() - i,
    {
        parts.push(describe_part(args[i].as_str()));
        assert((seq![command@] + texts(args@))[i + 1] == args@[i as int]@);
        i = i + 1;
    }
    assert(texts(parts@) =~= shown);
    join(&parts, " ")
}

/// A text without the separator is one run, and the separator parts the runs of what stands around
/// it; it is in none of them.
pub proof fn separators_part_the_runs(a: Seq<char>, b: Seq<char>, separator: char)
    ensures
        runs(a.push(separator) + b, separator) == runs(a, separator) + runs(b, separator),
        a.len() > 0 && !a.contains(separator) ==> runs(a, separator) == seq![a],
        runs(Seq::empty(), separator) == Seq::<Seq<char>>::empty(),
    decreases a.len() + b.len(),
{
    lemma_parted(a, b, separator);
    if a.len() > 0 && !a.contains(separator) {
        lemma_one_run(a, separator);
    }
}

/// The separator parts the runs of what stands around it.
proof fn lemma_parted(a: Seq<char>, b: Seq<char>, separator: char)
    ensures
        runs(a.push(separator) + b, separator) == runs(a, separator) + runs(b, separator),
    decreases b.len(),
{
    let all = a.push(separator) + b;
    if b.len() == 0 {
        assert(all =~= a.push(separator));
        assert(a.push(separator).drop_last() =~= a);
        assert(runs(a, separator) + runs(b, separator) =~= runs(a, separator));
    } else {
        let before = b.drop_last();
        lemma_parted(a, before, separator);
        assert(all.drop_last() =~= a.push(separator) + before);
        assert(all.last() == b.last());
        if b.last() != separator {
            if b.len() == 1 {
                assert(all[all.len() - 2] == separator);
                assert(runs(all, separator) =~= runs(a, separator) + runs(b, separator));
            } else {
                assert(all[all.len() - 2] == b[b.len() - 2]);
                if b[b.len() - 2] != separator {
                    lemma_runs_nonempty(before, separator);
                }
                assert(runs(all, separator) =~= runs(a, separator) + runs(b, separator));
            }
        }
    }
}

/// A text without the separator is one run.
proof fn lemma_one_run(text: Seq<char>, separator: char)
    requires
        text.len() > 0,
        !text.contains(separator),
    ensures
        runs(text, separator) == seq![text],
    decreases text.len(),
{
    reveal_with_fuel(runs, 2);
    let before = text.drop_last();
    assert(text.contains(text[text.len() - 1]));
    if text.len() == 1 {
        assert(before.len() == 0);
        assert(text =~= seq![text.last()]);
        assert(runs(text, separator) =~= seq![text]);
    } else {
        assert(text.contains(text[text.len() - 2]));
        assert forall|c: char| before.contains(c) implies text.contains(c) by {
            let i = choose|i: int| 0 <= i < before.len() && before[i] == c;
            assert(text[i] == c);
        }
        lemma_one_run(before, separator);
        assert(before.push(text.last()) =~= text);
        assert(runs(text, separator) =~= seq![text]);
    }
}

/// Where the environment says nothing, the usual four extensions are tried, in this order; where it
/// says some, those are, and no others.
pub proof fn the_usual_extensions_are_tried(pathext: Option<String>)
    ensures
        pathext is None ==> extensions_tried(pathext) == seq![".COM"@, ".EXE"@, ".BAT"@, ".CMD"@],
        pathext is Some ==> extensions_tried(pathext) == runs(pathext->0@, ';'),
{
    reveal_strlit(".COM;.EXE;.BAT;.CMD");
    reveal_strlit(".COM");
    reveal_strlit(".EXE");
    reveal_strlit(".BAT");
    reveal_strlit(".CMD");
    let all = ".COM;.EXE;.BAT;.CMD"@;
    let last = ".CMD"@;
    let third = ".BAT;.CMD"@;
    reveal_strlit(".BAT;.CMD");
    let second = ".EXE;.BAT;.CMD"@;
    reveal_strlit(".EXE;.BAT;.CMD");
    assert(all =~= ".COM"@.push(';') + second);
    assert(second =~= ".EXE"@.push(';') + third);
    assert(third =~= ".BAT"@.push(';') + last);
    assert(!(".COM"@.contains(';')));
    assert(!(".EXE"@.contains(';')));
    assert(!(".BAT"@.contains(';')));
    assert(!(".CMD"@.contains(';')));
    lemma_one_run(".COM"@, ';');
    lemma_one_run(".EXE"@, ';');
    lemma_one_run(".BAT"@, ';');
    lemma_one_run(".CMD"@, ';');
    lemma_parted(".COM"@, second, ';');
    lemma_parted(".EXE"@, third, ';');
    lemma_parted(".BAT"@, last, ';');
    assert(runs(all, ';') =~= seq![".COM"@, ".EXE"@, ".BAT"@, ".CMD"@]);
}

/// A part of a command line is shown as it is where it is not empty and holds no white space, and
/// between quotes otherwise: what it holds is shown as it is either way.
pub proof fn parts_are_shown_as_they_are(part: Seq<char>)
    ensures
        part.len() > 0 && !has_white_space(part) ==> shown_part(part) == part,
        part.len() == 0 || has_white_space(part) ==> shown_part(part) == seq!['"'] + part
            + seq!['"'],
{
    reveal_strlit("\"");
    assert("\""@ =~= seq!['"']);
}

/// A command line shows the command first and then each argument, in order, behind a space.
pub proof fn a_command_line_goes_on_with_the_next_argument(
    command: Seq<char>,
    args: Seq<Seq<char>>,
    arg: Seq<char>,
)
    ensures
        command_line(command, Seq::empty()) == shown_part(command),
        command_line(command, args.push(arg)) == command_line(command, args) + seq![' ']
            + shown_part(arg),
{
    reveal_strlit(" ");
    assert(" "@ =~= seq![' ']);
    let show = |part: Seq<char>| shown_part(part);
    let none = (seq![command] + Seq::<Seq<char>>::empty()).map_values(show);
    assert(none =~= seq![shown_part(command)]);
    let some = (seq![command] + args).map_values(show);
    assert((seq![command] + args.push(arg)).map_values(show) =~= some.push(shown_part(arg)));
    joining_goes_on_behind_a_separator(some, shown_part(arg), " "@);
    joining_goes_on_behind_a_separator(some, shown_part(command), " "@);
}

/// Whether a file system has one answer for each name in each directory.
pub open spec fn answers_alike<D, F: Fn(&D, &str) -> bool>(is_file: F) -> bool {
    forall|dir: D, name: Seq<char>|
        !(#[trigger] looked_up(is_file, dir, name, true) && looked_up(is_file, dir, name, false))
}

/// The first directory that has the command with one of the extensions is taken, and in it the first
/// extension: where all that was tried before is not there, that file is found.
pub proof fn the_first_match_is_found<D, F: Fn(&D, &str) -> bool>(
    is_file: F,
    command: Seq<char>,
    path_dirs: Seq<D>,
    extensions: Seq<Seq<char>>,
    dir: int,
    extension: int,
    r: Option<(usize, String)>,
)
    requires
        answers_alike(is_file),
        first_found(is_file, command, path_dirs, extensions, r),
        0 <= dir < path_dirs.len(),
        0 <= extension < extensions.len(),
        looked_up(is_file, path_dirs[dir], command + extensions[extension], true),
        forall|i: int, j: int|
            0 <= i < path_dirs.len() && 0 <= j < extensions.len() && (i < dir || (i == dir && j
                < extension)) ==> looked_up(
                is_file,
                #[trigger] path_dirs[i],
                command + #[trigger] extensions[j],
                false,
            ),
    ensures
        r matches Some((found, name)) && found == dir && name@ == command + extensions[extension],
{
    match r {
        None => {
            assert(none_found(
                is_file,
                path_dirs[dir],
                command,
                extensions,
                extensions.len() as int,
            ));
            assert(looked_up(is_file, path_dirs[dir], command + extensions[extension], false));
        },
        Some((d, name)) => {
            let j = choose|j: int|
                {
                    &&& 0 <= j < extensions.len()
                    &&& name@ == command + #[trigger] extensions[j]
                    &&& looked_up(is_file, path_dirs[d as int], name@, true)
                    &&& none_found(is_file, path_dirs[d as int], command, extensions, j)
                };
            if d < dir {
                assert(looked_up(is_file, path_dirs[d as int], command + extensions[j], false));
            } else if d > dir {
                assert(none_found(
                    is_file,
                    path_dirs[dir],
                    command,
                    extensions,
                    extensions.len() as int,
                ));
                assert(looked_up(is_file, path_dirs[dir], command + extensions[extension], false));
            } else if j < extension {
                assert(looked_up(is_file, path_dirs[dir], command + extensions[j], false));
            } else if j > extension {
                assert(looked_up(is_file, path_dirs[dir], command + extensions[extension], false));
            }
        },
    }
}

/// Where no directory has the command with any of the extensions, nothing is found.
pub proof fn nothing_is_found_where_nothing_is<D, F: Fn(&D, &str) -> bool>(
    is_file: F,
    command: Seq<char>,
    path_dirs: Seq<D>,
    extensions: Seq<Seq<char>>,
    r: Option<(usize, String)>,
)
    requires
        first_found(is_file, command, path_dirs, extensions, r),
        forall|dir: D, name: Seq<char>| !#[trigger] looked_up(is_file, dir, name, true),
    ensures
        r is None,
{
}

/// A lookup is one of that very name in that very directory.
pub proof fn lookups_are_of_the_name_asked<D, F: Fn(&D, &str) -> bool>(
    is_file: F,
    dir: D,
    name: Seq<char>,
    found: bool,
)
    ensures
        looked_up(is_file, dir, name, found) <==> exists|s: &str| #[trigger]
            call_ensures(is_file, (&dir, s), found) && s@ == name,
{
}

/// Paths, and names with an extension, are used as they are; a bare name is looked up.
pub proof fn bare_names_are_looked_up(command: Seq<char>, before: Seq<char>, after: Seq<char>)
    ensures
        command == before.push('/') + after || command == before.push('\\') + after ==> used_as_is(
            command,
        ),
        command == before.push('.') + after && before.len() > 0 && command != seq!['.', '.']
            ==> used_as_is(command),
        command.len() == 0 ==> used_as_is(command),
        command.len() > 0 && !command.contains('/') && !command.contains('\\') && !command.skip(
            1,
        ).contains('.') ==> !used_as_is(command),
        !used_as_is(seq!['.', '.']),
{
    let n = before.len() as int;
    if command == before.push('/') + after {
        assert(command[n] == '/');
    }
    if command == before.push('\\') + after {
        assert(command[n] == '\\');
    }
    if command == before.push('.') + after && before.len() > 0 {
        assert(command[n] == '.');
    }
    if command.len() > 0 && !command.contains('/') && !command.contains('\\') && !command.skip(
        1,
    ).contains('.') {
        assert forall|i: int| 0 < i < command.len() implies #[trigger] command[i] != '.' by {
            assert(command.skip(1)[i - 1] == command[i]);
        }
        assert forall|i: int| 0 <= i < command.len() implies #[trigger] command[i] != '/'
            && command[i] != '\\' by {
            assert(command.contains(command[i]));
        }
    }
}

/// A command is spawned as it is where there is nowhere to look, where it is a path, empty or has an
/// extension, and where nothing is found; a file that is found has the command's name with one of
/// the extensions, in one of the directories.
pub proof fn a_program_is_the_command_or_a_file_of_its_name<D, F: Fn(&D, &str) -> bool>(
    command: &str,
    search: Option<&PathSearch<D>>,
    is_file: F,
    r: Program,
)
    requires
        call_ensures(resolve_command::<D, F>, (command, search, is_file), r),
    ensures
        search is None || used_as_is(command@) ==> r is AsGiven,
        r matches Program::AsGiven(given) ==> given@ == command@,
        r matches Program::Found { dir, name } ==> {
            &&& search is Some
            &&& dir < search->0.path_dirs@.len()
            &&& looked_up(is_file, search->0.path_dirs@[dir as int], name@, true)
            &&& exists|j: int|
                0 <= j < extensions_tried(search->0.pathext).len() && name@ == command@
                    + #[trigger] extensions_tried(search->0.pathext)[j]
        },
{
}

/// A command is described by its line, and nothing is left out of it: the command alone where there
/// are no arguments.
pub proof fn a_command_is_described_by_its_line(command: &str, args: &[String], r: String)
    requires
        call_ensures(describe_command, (command, args), r),
    ensures
        r@ == command_line(command@, texts(args@)),
        args@.len() == 0 ==> r@ == shown_part(command@),
        args@.len() == 1 ==> r@ == shown_part(command@) + seq![' '] + shown_part(args@[0]@),
{
    if args@.len() == 0 {
        assert(texts(args@) =~= Seq::<Seq<char>>::empty());
        a_command_line_goes_on_with_the_next_argument(command@, Seq::empty(), Seq::empty());
    }
    if args@.len() == 1 {
        assert(texts(args@) =~= Seq::<Seq<char>>::empty().push(args@[0]@));
        a_command_line_goes_on_with_the_next_argument(command@, Seq::empty(), args@[0]@);
    }
}

/// What is found in the directories is a file that is there, of the command's name with one of the
/// extensions; and nothing is looked for where the command is used as it is.
pub proof fn what_is_found_is_there<D, F: Fn(&D, &str) -> bool>(
    command: &str,
    path_dirs: &[D],
    extensions: &[String],
    is_file: F,
    r: Option<(usize, String)>,
)
    requires
        call_ensures(find_in_path::<D, F>, (command, path_dirs, extensions, is_file), r),
    ensures
        used_as_is(command@) ==> r is None,
        r matches Some((dir, name)) ==> {
            &&& dir < path_dirs@.len()
            &&& looked_up(is_file, path_dirs@[dir as int], name@, true)
            &&& exists|j: int|
                0 <= j < extensions@.len() && name@ == command@ + (#[trigger] extensions@[j])@
        },
{
    if let Some((dir, name)) = r {
        let names = texts(extensions@);
        let j = choose|j: int| 0 <= j < names.len() && name@ == command@ + #[trigger] names[j];
        assert(names[j] == extensions@[j]@);
    }
}

} // verus!

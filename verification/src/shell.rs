//! Decisions of the command shell that do not touch the terminal: the
//! prompt, changing the working directory, and where a command is looked
//! for.
use vstd::prelude::*;
use crate::eunix::fs::{Filesystem, Id, VFS, VINode, AddressSize, type_of};
use crate::eunix::kernel::{Errno, ROOT_UID};
use crate::programs::{Line, LineView};
use crate::text::{regex_is_match, regex_matches, split_char, split_on, views, decimal, decimal_string, join, join_with, str_eq};

verus! {

/// The shape of a command given by bare name: a letter, `_` or `.`, then
/// anything but `/` and line feeds.
pub const BARE_COMMAND: &'static str = "^[_\\.a-zA-Z][^\\/\\n]*$";

/// The prompt character of a user: `#` for the superuser, `$` for anyone
/// else.
pub fn caret_by_uid(uid: Id) -> (caret: String)
    ensures
        uid == ROOT_UID ==> caret@ == "#"@,
        uid != ROOT_UID ==> caret@ == "$"@,
{
    if uid == ROOT_UID {
        "#".to_owned()
    } else {
        "$".to_owned()
    }
}

/// `text` right-aligned in a field of three characters.
pub open spec fn right_aligned3(text: Seq<char>) -> Seq<char> {
    if text.len() < 3 {
        Seq::new((3 - text.len()) as nat, |i: int| ' ') + text
    } else {
        text
    }
}

/// The prompt character of user `uid`.
pub open spec fn caret(uid: Id) -> Seq<char> {
    if uid == ROOT_UID {
        "#"@
    } else {
        "$"@
    }
}

/// The prompt shown after a command that exited with `exit_code`, for user
/// `uid`: the exit code right-aligned in brackets, then the user's prompt
/// character.
pub fn prompt(exit_code: AddressSize, uid: Id) -> (p: String)
    ensures
        p@ == "("@ + right_aligned3(decimal(exit_code as nat)) + ") "@ + caret(uid) + " "@,
{
    let code = decimal_string(exit_code as u64);
    let mut p = "(".to_owned();
    let width = code.unicode_len();
    let mut pad: usize = width;
    proof {
        reveal_strlit(" ");
        reveal_strlit("(");
    }
    while pad < 3
        invariant
            width == code@.len(),
            width <= pad <= 3 || (width > 3 && pad == width),
            p@ == "("@ + Seq::new((pad - width) as nat, |i: int| ' '),
        decreases 3 - pad,
    {
        let ghost before = p@;
        p.append(" ");
        proof {
            reveal_strlit(" ");
            assert(" "@ =~= seq![' ']);
            assert(p@ == before + seq![' ']);
            assert(Seq::new((pad - width) as nat, |i: int| ' ').push(' ') =~= Seq::new(
                (pad + 1 - width) as nat,
                |i: int| ' ',
            ));
            assert(p@ =~= "("@ + Seq::new((pad + 1 - width) as nat, |i: int| ' '));
        }
        pad = pad + 1;
    }
    proof {
        if width < 3 {
            assert(Seq::new((pad - width) as nat, |i: int| ' ') =~= Seq::new((3 - width) as nat, |i: int| ' '));
        } else {
            assert(Seq::new((pad - width) as nat, |i: int| ' ') =~= Seq::<char>::empty());
        }
    }
    p.append(code.as_str());
    p.append(") ");
    p.append(caret_by_uid(uid).as_str());
    p.append(" ");
    p
}

/// The working directory after `cd pathname` from `pwd`, and what `cd`
/// reports: a directory becomes the working directory; anything else
/// leaves it and is reported.
pub fn change_directory(vfs: &VFS, pwd: &str, pathname: &str) -> (result: (String, Option<Line>))
    requires
        vfs.fs_wf(),
    ensures
        exists|found: Result<VINode, Errno>| {
            &&& #[trigger] vfs.lookup_outcome(pathname@, found)
            &&& (found matches Ok(v) && type_of(v.mode.0) == 1) ==> result.0@ == pathname@ && result.1 is None
            &&& (found matches Ok(v) && type_of(v.mode.0) != 1) ==> result.0@ == pwd@ && (result.1 matches Some(
                line) && line@ == LineView::Text("cd: not a directory: "@ + pathname@))
            &&& found matches Err(Errno::ENOENT(_)) ==> result.0@ == pwd@ && (result.1 matches Some(line) && line@
                == LineView::Text("cd: no such file or directory: "@ + pathname@))
            &&& found matches Err(e) ==> (e is ENOENT || (result.0@ == pwd@ && (result.1 matches Some(line)
                && line@ == LineView::Error(
                "cd: unexpected kernel error occured while looking for "@ + pathname@ + ": "@,
                e,
            ))))
        },
{
    let found = vfs.lookup_path(pathname);
    let ghost witness = found;
    match found {
        Ok(v) => {
            if v.mode.file_type() == 1 {
                (pathname.to_owned(), None)
            } else {
                let mut t = "cd: not a directory: ".to_owned();
                t.append(pathname);
                (pwd.to_owned(), Some(Line::Text(t)))
            }
        },
        Err(Errno::ENOENT(_)) => {
            let mut t = "cd: no such file or directory: ".to_owned();
            t.append(pathname);
            (pwd.to_owned(), Some(Line::Text(t)))
        },
        Err(e) => {
            let mut t = "cd: unexpected kernel error occured while looking for ".to_owned();
            t.append(pathname);
            t.append(": ");
            (pwd.to_owned(), Some(Line::Error(t, e)))
        },
    }
}

/// Whether the file at `pathname` was found.
pub open spec fn found_at(vfs: VFS, pathname: Seq<char>) -> bool {
    exists|r: Result<VINode, Errno>| #[trigger] vfs.lookup_outcome(pathname, r) && r is Ok
}

/// Whether looking for the file at `pathname` failed.
pub open spec fn missing_at(vfs: VFS, pathname: Seq<char>) -> bool {
    exists|r: Result<VINode, Errno>| #[trigger] vfs.lookup_outcome(pathname, r) && r is Err
}

/// Where a command given by bare name is looked for in location `i` of
/// `path`.
pub open spec fn candidate(path: Seq<char>, command: Seq<char>, i: int) -> Seq<char> {
    split_on(path, ':')[i] + "/"@ + command
}

/// The path a command names: a command given by bare name is looked for in
/// each `:`-separated location of `path` in turn, and the first location
/// where it exists gives `location/command`; anything else, or a bare name
/// found nowhere, is taken literally.
pub fn resolve_command(vfs: &VFS, command: &str, path: &str) -> (pathname: String)
    requires
        vfs.fs_wf(),
    ensures
        regex_is_match(BARE_COMMAND@, command@) != Some(true) ==> pathname@ == command@,
        regex_is_match(BARE_COMMAND@, command@) == Some(true) ==> {
            ||| exists|i: int| {
                &&& 0 <= i < split_on(path@, ':').len()
                &&& pathname@ == #[trigger] candidate(path@, command@, i)
                &&& found_at(*vfs, candidate(path@, command@, i))
                &&& forall|j: int| 0 <= j < i ==> missing_at(*vfs, #[trigger] candidate(path@, command@, j))
            }
            ||| pathname@ == command@ && forall|j: int| 0 <= j < split_on(path@, ':').len() ==> missing_at(
                *vfs,
                #[trigger] candidate(path@, command@, j),
            )
        },
{
    let bare = match regex_matches(BARE_COMMAND, command) {
        Some(b) => b,
        None => false,
    };
    if !bare {
        return command.to_owned();
    }
    let locations = split_char(path, ':');
    let mut i: usize = 0;
    while i < locations.len()
        invariant
            views(locations@) == split_on(path@, ':'),
            vfs.fs_wf(),
            regex_is_match(BARE_COMMAND@, command@) == Some(true),
            forall|j: int| 0 <= j < i ==> missing_at(*vfs, #[trigger] candidate(path@, command@, j)),
        decreases locations.len() - i,
    {
        let mut candidate_path = locations[i].clone();
        candidate_path.append("/");
        candidate_path.append(command);
        assert(views(locations@)[i as int] == locations@[i as int]@);
        assert(candidate_path@ == candidate(path@, command@, i as int));
        let looked = vfs.lookup_path(candidate_path.as_str());
        if looked.is_ok() {
            return candidate_path;
        }
        i = i + 1;
    }
    command.to_owned()
}

/// What the shell does with one command line: a builtin, or a program to
/// run.
pub enum Builtin {
    /// Print the words after `echo`, joined by spaces.
    Echo(String),
    /// Change the working directory to this path.
    ChangeDirectory(String),
    /// Print the working directory.
    PrintWorkingDirectory,
    /// Leave the shell.
    Exit,
    /// Run the program named by the first word.
    Program(String),
}

/// The builtin or program that a command line's words ask for: `echo`,
/// `cd` (to `/` when no path follows), `pwd` and `exit` are builtins, any
/// other first word names a program.
pub fn builtin_of(words: &Vec<String>) -> (b: Builtin)
    requires
        words.len() >= 1,
    ensures
        words@[0]@ == "echo"@ ==> (b matches Builtin::Echo(t) && t@ == join_with(views(words@.skip(1)), " "@)),
        words@[0]@ == "cd"@ ==> (b matches Builtin::ChangeDirectory(p) && p@ == (if words.len() >= 2 {
            words@[1]@
        } else {
            "/"@
        })),
        words@[0]@ == "pwd"@ ==> b is PrintWorkingDirectory,
        words@[0]@ == "exit"@ ==> b is Exit,
        words@[0]@ != "echo"@ && words@[0]@ != "cd"@ && words@[0]@ != "pwd"@ && words@[0]@ != "exit"@ ==> (
            b matches Builtin::Program(p) && p@ == words@[0]@),
{
    let first = words[0].as_str();
    proof {
        reveal_strlit("echo");
        reveal_strlit("cd");
        reveal_strlit("pwd");
        reveal_strlit("exit");
        assert("echo"@.len() == 4 && "cd"@.len() == 2 && "pwd"@.len() == 3 && "exit"@.len() == 4);
        assert("echo"@[1] == 'c' && "exit"@[1] == 'x');
        assert("echo"@ != "pwd"@ && "echo"@ != "cd"@ && "echo"@ != "exit"@);
        assert("cd"@ != "pwd"@ && "cd"@ != "exit"@ && "pwd"@ != "exit"@);
    }
    if str_eq(first, "echo") {
        let mut rest: Vec<String> = Vec::new();
        let mut i: usize = 1;
        while i < words.len()
            invariant
                1 <= i <= words.len(),
                rest@ == words@.subrange(1, i as int),
            decreases words.len() - i,
        {
            rest.push(words[i].clone());
            i = i + 1;
        }
        assert(rest@ =~= words@.skip(1));
        Builtin::Echo(join(&rest, " "))
    } else if str_eq(first, "cd") {
        if words.len() >= 2 {
            Builtin::ChangeDirectory(words[1].clone())
        } else {
            Builtin::ChangeDirectory("/".to_owned())
        }
    } else if str_eq(first, "pwd") {
        Builtin::PrintWorkingDirectory
    } else if str_eq(first, "exit") {
        Builtin::Exit
    } else {
        Builtin::Program(words[0].clone())
    }
}

} // verus!

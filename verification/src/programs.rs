//! The work of the system's programs, apart from reading their arguments and
//! printing: each takes its arguments, already parsed, and the virtual
//! filesystem, does its work through the filesystem, and gives back the lines
//! it prints and its exit code.
use vstd::prelude::*;
use vstd::string::StringSliceAdditionalSpecFns;
use crate::eunix::fs::{spliced, AddressSize, Filesystem, VFS, VINode, FileStat, FileMode, type_of, user_of, group_of, others_of, free_of, parent_dir, path_error, spec_parent_dir, lemma_with_user_reads_back, lemma_with_group_reads_back, lemma_with_others_reads_back, lemma_set_permissions};
use crate::eunix::kernel::{Errno, Times};
use crate::text::{decimal, decimal_string, octal, octal_string, char_to_string, regex_is_match, regex_matches, chars_of, views, utf8_error, utf8_error_message, utf8_to_string};
use crate::util::{unixtime, get_bit_at, utc_time, utc_time_text, LISTING_TIME, STAT_TIME};
use crate::eunix::fs::VDirectory;

verus! {

/// The exit code of a program that did its work.
pub const EXIT_SUCCESS: AddressSize = 0;

/// The exit code of a program that failed.
pub const EXIT_FAILURE: AddressSize = 1;

/// The exit code of a program that did not find a file.
pub const EXIT_ENOENT: AddressSize = 127;

/// A line a program prints: plain text, or text followed by an error as
/// the kernel reports it.
#[derive(Debug)]
pub enum Line {
    Text(String),
    Error(String, Errno),
}

/// A printed line as plain values.
pub enum LineView {
    Text(Seq<char>),
    Error(Seq<char>, Errno),
}

impl View for Line {
    type V = LineView;

    open spec fn view(&self) -> LineView {
        match self {
            Line::Text(t) => LineView::Text(t@),
            Line::Error(t, e) => LineView::Error(t@, *e),
        }
    }
}

/// What a program run gave: the lines it printed, in order, and its exit
/// code.
#[derive(Debug)]
pub struct Run {
    pub lines: Vec<Line>,
    pub exit_code: AddressSize,
}

impl Run {
    /// The printed lines as plain values.
    pub open spec fn texts(&self) -> Seq<LineView> {
        self.lines@.map_values(|l: Line| l@)
    }
}

/// A run that printed `lines` and exited with `exit_code`.
fn run_of(lines: Vec<Line>, exit_code: AddressSize) -> (run: Run)
    ensures
        run.lines@ == lines@,
        run.exit_code == exit_code,
{
    Run { lines, exit_code }
}

/// A run that printed one line of text and exited with `exit_code`.
fn say(text: String, exit_code: AddressSize) -> (run: Run)
    ensures
        run.texts() == seq![LineView::Text(text@)],
        run.exit_code == exit_code,
{
    let mut lines: Vec<Line> = Vec::new();
    lines.push(Line::Text(text));
    let run = Run { lines, exit_code };
    assert(run.texts() =~= seq![LineView::Text(text@)]);
    run
}

/// A run that printed `prefix` and an error, and failed.
fn fail_with(prefix: &str, error: Errno) -> (run: Run)
    ensures
        run.texts() == seq![LineView::Error(prefix@, error)],
        run.exit_code == EXIT_FAILURE,
{
    let mut lines: Vec<Line> = Vec::new();
    lines.push(Line::Error(prefix.to_owned(), error));
    let run = Run { lines, exit_code: EXIT_FAILURE };
    assert(run.texts() =~= seq![LineView::Error(prefix@, error)]);
    run
}

/// `a`, then `b`, then `c`.
fn text3(a: &str, b: &str, c: &str) -> (t: String)
    ensures
        t@ == a@ + b@ + c@,
{
    let mut t = a.to_owned();
    t.append(b);
    t.append(c);
    t
}

/// `a`, then `b`.
fn text2(a: &str, b: &str) -> (t: String)
    ensures
        t@ == a@ + b@,
{
    let mut t = a.to_owned();
    t.append(b);
    t
}

/// Makes the directory at `pathname`.
pub fn mkdir(vfs: &mut VFS, pathname: &str) -> (run: Run)
    requires
        old(vfs).fs_wf(),
    ensures
        final(vfs).fs_wf(),
        exists|made: Result<VINode, Errno>| {
            &&& #[trigger] old(vfs).create_dir_outcome(*final(vfs), pathname@, made)
            &&& made is Ok ==> run.exit_code == EXIT_SUCCESS && run.texts().len() == 0
            &&& made matches Err(Errno::ENOENT(_)) ==> run.exit_code == EXIT_ENOENT && run.texts() == seq![
                LineView::Text("mkdir: cannot create directory: '"@ + pathname@ + "': No such file or directory"@),
            ]
            &&& made matches Err(e) ==> (e is ENOENT || (run.exit_code == EXIT_FAILURE && run.texts() == seq![
                LineView::Error("mkdir: unexpected error: "@, e),
            ]))
        },
{
    let made = vfs.create_dir(pathname);
    let ghost witness = made;
    match made {
        Ok(_) => run_of(Vec::new(), EXIT_SUCCESS),
        Err(Errno::ENOENT(_)) => say(
            text3("mkdir: cannot create directory: '", pathname, "': No such file or directory"),
            EXIT_ENOENT,
        ),
        Err(e) => fail_with("mkdir: unexpected error: ", e),
    }
}


/// Writes `text` as the whole contents of the file at `pathname`.
pub fn write(vfs: &mut VFS, pathname: &str, text: &str) -> (run: Run)
    requires
        old(vfs).fs_wf(),
    ensures
        final(vfs).fs_wf(),
        exists|written: Result<VINode, Errno>| {
            &&& #[trigger] old(vfs).write_file_outcome(*final(vfs), pathname@, text.spec_bytes(), written)
            &&& written is Ok ==> run.exit_code == EXIT_SUCCESS && run.texts().len() == 0
            &&& written matches Err(Errno::ENOENT(_)) ==> run.exit_code == EXIT_ENOENT && run.texts() == seq![
                LineView::Text("write: "@ + pathname@ + ": No such file or directory"@),
            ]
            &&& written matches Err(Errno::EISDIR(_)) ==> run.exit_code == EXIT_FAILURE && run.texts() == seq![
                LineView::Text("write: "@ + pathname@ + ": Is a directory"@),
            ]
            &&& written matches Err(e) ==> (e is ENOENT || e is EISDIR || (run.exit_code == EXIT_FAILURE && run.texts()
                == seq![LineView::Error("write: unexpected error: "@, e)]))
        },
{
    let written = vfs.write_file(pathname, text.as_bytes());
    match written {
        Ok(_) => run_of(Vec::new(), EXIT_SUCCESS),
        Err(Errno::ENOENT(_)) => say(text3("write: ", pathname, ": No such file or directory"), EXIT_ENOENT),
        Err(Errno::EISDIR(_)) => say(text3("write: ", pathname, ": Is a directory"), EXIT_FAILURE),
        Err(e) => fail_with("write: unexpected error: ", e),
    }
}

/// What `mkfs.e5fs` prints and exits with when the device it was given
/// could not be found: a missing name, a path that is no device, or another
/// error of the lookup.
pub fn mkfs_device_error(dev_pathname: &str, error: Errno) -> (run: Run)
    ensures
        error is ENOENT ==> run.exit_code == EXIT_ENOENT && run.texts() == seq![
            LineView::Text("mkfs.e5fs: "@ + dev_pathname@ + ": No such file or directory"@),
        ],
        error is EINVAL ==> run.exit_code == EXIT_FAILURE && run.texts() == seq![
            LineView::Text("mkfs.e5fs: "@ + dev_pathname@ + ": Not a device"@),
        ],
        !(error is ENOENT) && !(error is EINVAL) ==> run.exit_code == EXIT_FAILURE && run.texts() == seq![
            LineView::Error("mkfs.e5fs: unexpected error: "@, error),
        ],
{
    match error {
        Errno::ENOENT(_) => say(text3("mkfs.e5fs: ", dev_pathname, ": No such file or directory"), EXIT_ENOENT),
        Errno::EINVAL(_) => say(text3("mkfs.e5fs: ", dev_pathname, ": Not a device"), EXIT_FAILURE),
        e => fail_with("mkfs.e5fs: unexpected error: ", e),
    }
}

/// What `ed` hands its editor: the bytes of the file at `pathname`, or the
/// run that ends `ed` where they cannot be read.
pub fn ed_open(vfs: &mut VFS, pathname: &str) -> (opened: Result<Vec<u8>, Run>)
    requires
        old(vfs).fs_wf(),
    ensures
        final(vfs).fs_wf(),
        exists|read: Result<Vec<u8>, Errno>| {
            &&& #[trigger] old(vfs).read_file_outcome(*final(vfs), pathname@, read)
            &&& read matches Ok(bytes) ==> (opened matches Ok(b) && b@ == bytes@)
            &&& read matches Err(Errno::ENOENT(_)) ==> (opened matches Err(run) && run.exit_code == EXIT_ENOENT
                && run.texts() == seq![LineView::Text("ed: "@ + pathname@ + ": No such file or directory"@)])
            &&& read matches Err(Errno::EISDIR(_)) ==> (opened matches Err(run) && run.exit_code == EXIT_FAILURE
                && run.texts() == seq![LineView::Text("ed: "@ + pathname@ + ": Is a directory"@)])
            &&& read matches Err(e) ==> (e is ENOENT || e is EISDIR || (opened matches Err(run) && run.exit_code
                == EXIT_FAILURE && run.texts() == seq![LineView::Error("ed: unexpected error: "@, e)]))
        },
{
    let read = vfs.read_file(pathname, 0xFFFF_FFFF);
    match read {
        Ok(bytes) => Ok(bytes),
        Err(Errno::ENOENT(_)) => Err(say(text3("ed: ", pathname, ": No such file or directory"), EXIT_ENOENT)),
        Err(Errno::EISDIR(_)) => Err(say(text3("ed: ", pathname, ": Is a directory"), EXIT_FAILURE)),
        Err(e) => Err(fail_with("ed: unexpected error: ", e)),
    }
}

/// What `ed` does with the bytes its editor gave back: writes them over the
/// file at `pathname`.
pub fn ed_save(vfs: &mut VFS, pathname: &str, bytes: &[u8]) -> (run: Run)
    requires
        old(vfs).fs_wf(),
    ensures
        final(vfs).fs_wf(),
        exists|written: Result<VINode, Errno>| {
            &&& #[trigger] old(vfs).write_file_outcome(*final(vfs), pathname@, bytes@, written)
            &&& written is Ok ==> run.exit_code == EXIT_SUCCESS && run.texts().len() == 0
            &&& written matches Err(e) ==> run.exit_code == EXIT_FAILURE && run.texts() == seq![
                LineView::Error("ed: unexpected error: "@, e),
            ]
        },
{
    let written = vfs.write_file(pathname, bytes);
    match written {
        Ok(_) => run_of(Vec::new(), EXIT_SUCCESS),
        Err(e) => fail_with("ed: unexpected error: ", e),
    }
}

/// Stamps the file at `pathname` with the current time, keeping its
/// modification and birth times; where there is no such file but its
/// directory exists, creates it empty.
pub fn touch(vfs: &mut VFS, pathname: &str) -> (run: Run)
    requires
        old(vfs).fs_wf(),
    ensures
        final(vfs).fs_wf(),
        exists|found: Result<VINode, Errno>| {
            &&& #[trigger] old(vfs).lookup_outcome(pathname@, found)
            &&& found matches Ok(v) ==> exists|times: Times, stamped: Result<(), Errno>| {
                &&& #[trigger] old(vfs).change_times_outcome(*final(vfs), pathname@, times, stamped)
                &&& times.mtime == v.mtime && times.btime == v.btime
                &&& stamped is Ok ==> run.exit_code == EXIT_SUCCESS && run.texts().len() == 0
                &&& stamped matches Err(e) ==> run.exit_code == EXIT_FAILURE && run.texts() == seq![
                    LineView::Error("touch: unexpected error: "@, e),
                ]
            }
            &&& found matches Err(Errno::ENOENT(_)) ==> {
                &&& path_error(pathname@) matches Some(m) ==> (run.exit_code == EXIT_FAILURE && run.texts().len() == 1
                    && (run.texts()[0] matches LineView::Error(t, Errno::EINVAL(x)) && t == "touch: unexpected error: "@
                    && x@ == m) && *final(vfs) == *old(vfs))
                &&& path_error(pathname@) is None ==> exists|parent: Result<VINode, Errno>| {
                    &&& #[trigger] old(vfs).lookup_outcome(spec_parent_dir(pathname@), parent)
                    &&& parent is Ok ==> exists|made: Result<VINode, Errno>| {
                        &&& #[trigger] old(vfs).create_file_outcome(*final(vfs), pathname@, made)
                        &&& made is Ok ==> run.exit_code == EXIT_SUCCESS && run.texts().len() == 0
                        &&& made matches Err(e) ==> run.exit_code == EXIT_FAILURE && run.texts() == seq![
                            LineView::Error("touch: unexpected error: "@, e),
                        ]
                    }
                    &&& parent matches Err(Errno::ENOENT(_)) ==> run.exit_code == EXIT_ENOENT && run.texts() == seq![
                        LineView::Text("touch: cannot touch '"@ + pathname@ + "': No such file or directory"@),
                    ] && *final(vfs) == *old(vfs)
                    &&& parent matches Err(e) ==> (e is ENOENT || (run.exit_code == EXIT_FAILURE && run.texts() == seq![
                        LineView::Error("touch: unexpected error: "@, e),
                    ] && *final(vfs) == *old(vfs)))
                }
            }
            &&& found matches Err(e) ==> (e is ENOENT || (run.exit_code == EXIT_FAILURE && run.texts() == seq![
                LineView::Error("touch: unexpected error: "@, e),
            ] && *final(vfs) == *old(vfs)))
        },
{
    let found = vfs.lookup_path(pathname);
    match found {
        Ok(vinode) => {
            let times = Times { atime: unixtime(), mtime: vinode.mtime, ctime: unixtime(), btime: vinode.btime };
            let stamped = vfs.change_times(pathname, times);
            match stamped {
                Ok(_) => run_of(Vec::new(), EXIT_SUCCESS),
                Err(e) => fail_with("touch: unexpected error: ", e),
            }
        },
        Err(Errno::ENOENT(_)) => {
            let parent = match parent_dir(pathname) {
                Ok(parent_pathname) => vfs.lookup_path(parent_pathname.as_str()),
                Err(e) => Err(e),
            };
            match parent {
                Ok(_) => {
                    let made = vfs.create_file(pathname);
                    match made {
                        Ok(_) => run_of(Vec::new(), EXIT_SUCCESS),
                        Err(e) => fail_with("touch: unexpected error: ", e),
                    }
                },
                Err(Errno::ENOENT(_)) => say(
                    text3("touch: cannot touch '", pathname, "': No such file or directory"),
                    EXIT_ENOENT,
                ),
                Err(e) => fail_with("touch: unexpected error: ", e),
            }
        },
        Err(e) => fail_with("touch: unexpected error: ", e),
    }
}


/// The shape of a mode given in octal: three digits from 0 to 7.
pub const MODE_SHAPE: &'static str = "^[0-7]{3}$";

/// The value of an octal digit, if `c` is one.
pub open spec fn octal_value(c: char) -> Option<u8> {
    if '0' <= c && c <= '7' {
        Some((c as int - '0' as int) as u8)
    } else {
        None
    }
}

/// The three permission digits that `mode` spells in octal, if it spells
/// exactly three.
pub open spec fn octal_permissions(mode: Seq<char>) -> Option<(u8, u8, u8)> {
    if mode.len() == 3 && octal_value(mode[0]) is Some && octal_value(mode[1]) is Some && octal_value(mode[2]) is Some {
        Some((octal_value(mode[0]).unwrap(), octal_value(mode[1]).unwrap(), octal_value(mode[2]).unwrap()))
    } else {
        None
    }
}

/// The mode `raw` with the owner's, the group's and others' permissions
/// replaced.
pub open spec fn with_permissions(raw: u16, user: u8, group: u8, others: u8) -> u16 {
    spliced(spliced(spliced(raw, 6, 3, user) as u16, 3, 3, group) as u16, 0, 3, others) as u16
}

/// Replacing the permissions of a mode sets the owner's, the group's and
/// everyone else's bits to the three digits and keeps every other bit: the
/// free flag, the file type and the bits between them.
pub proof fn lemma_with_permissions_keeps_the_rest(raw: u16, user: u8, group: u8, others: u8)
    requires
        user < 8,
        group < 8,
        others < 8,
    ensures
        user_of(with_permissions(raw, user, group, others)) == user,
        group_of(with_permissions(raw, user, group, others)) == group,
        others_of(with_permissions(raw, user, group, others)) == others,
        type_of(with_permissions(raw, user, group, others)) == type_of(raw),
        free_of(with_permissions(raw, user, group, others)) == free_of(raw),
        with_permissions(raw, user, group, others) as int / 512 == raw as int / 512,
{
    lemma_set_permissions(raw, user, group, others);
    let r = raw as int;
    let v = (r / 512) * 512 + user as int * 64 + group as int * 8 + others as int;
    assert(0 <= v < 65536) by (nonlinear_arith)
        requires
            v == (r / 512) * 512 + user as int * 64 + group as int * 8 + others as int,
            user < 8,
            group < 8,
            others < 8,
            0 <= r < 65536,
    ;
    let w = with_permissions(raw, user, group, others);
    assert(w as int == v);
    assert(v / 512 == r / 512 && (v / 64) % 8 == user as int && (v / 8) % 8 == group as int && v % 8 == others as int
        && (v / 512) % 8 == (r / 512) % 8 && v / 32768 == r / 32768) by (nonlinear_arith)
        requires
            v == (r / 512) * 512 + user as int * 64 + group as int * 8 + others as int,
            user < 8,
            group < 8,
            others < 8,
            0 <= r < 65536,
    ;
}

/// The permission digits of `mode`, if it is three octal digits.
fn parse_octal_permissions(mode: &str) -> (digits: Option<(u8, u8, u8)>)
    ensures
        digits == octal_permissions(mode@),
{
    let chars = chars_of(mode);
    if chars.len() != 3 {
        return None;
    }
    let a = chars[0];
    let b = chars[1];
    let c = chars[2];
    if '0' <= a && a <= '7' && '0' <= b && b <= '7' && '0' <= c && c <= '7' {
        Some(((a as u32 - '0' as u32) as u8, (b as u32 - '0' as u32) as u8, (c as u32 - '0' as u32) as u8))
    } else {
        None
    }
}

/// Replaces the permissions of the file at `pathname` with those the three
/// octal digits of `mode` give, for its owner, its group and others.
pub fn chmod(vfs: &mut VFS, mode: &str, pathname: &str) -> (run: Run)
    requires
        old(vfs).fs_wf(),
    ensures
        final(vfs).fs_wf(),
        exists|found: Result<VINode, Errno>| {
            &&& #[trigger] old(vfs).lookup_outcome(pathname@, found)
            &&& found matches Err(Errno::ENOENT(_)) ==> run.exit_code == EXIT_ENOENT && run.texts() == seq![
                LineView::Text("chmod: "@ + pathname@ + ": No such file or directory"@),
            ] && *final(vfs) == *old(vfs)
            &&& found matches Err(e) ==> (e is ENOENT || (run.exit_code == EXIT_FAILURE && run.texts() == seq![
                LineView::Error("chmod: unexpected error: "@, e),
            ] && *final(vfs) == *old(vfs)))
            &&& found matches Ok(v) ==> {
                ||| (run.exit_code == EXIT_FAILURE && run.texts() == seq![
                    LineView::Text("chmod: invalid mode: '"@ + mode@ + "'"@),
                ] && *final(vfs) == *old(vfs) && (regex_is_match(MODE_SHAPE@, mode@) != Some(true)
                    || octal_permissions(mode@) is None))
                ||| (regex_is_match(MODE_SHAPE@, mode@) == Some(true) && octal_permissions(mode@) is Some && exists|
                    changed: Result<(), Errno>,
                | {
                    &&& #[trigger] old(vfs).change_mode_outcome(
                        *final(vfs),
                        pathname@,
                        FileMode(
                            with_permissions(
                                v.mode.0,
                                octal_permissions(mode@).unwrap().0,
                                octal_permissions(mode@).unwrap().1,
                                octal_permissions(mode@).unwrap().2,
                            ),
                        ),
                        changed,
                    )
                    &&& changed is Ok ==> run.exit_code == EXIT_SUCCESS && run.texts().len() == 0
                    &&& changed matches Err(e) ==> run.exit_code == EXIT_FAILURE && run.texts() == seq![
                        LineView::Error("chmod: unexpected error: "@, e),
                    ]
                })
            }
        },
{
    let found = vfs.lookup_path(pathname);
    let old_mode = match found {
        Ok(vinode) => vinode.mode,
        Err(Errno::ENOENT(_)) => {
            return say(text3("chmod: ", pathname, ": No such file or directory"), EXIT_ENOENT);
        },
        Err(e) => {
            return fail_with("chmod: unexpected error: ", e);
        },
    };
    let shaped = match regex_matches(MODE_SHAPE, mode) {
        Some(matched) => matched,
        None => false,
    };
    let digits = parse_octal_permissions(mode);
    let (user, group, others) = match digits {
        Some(d) => {
            if !shaped {
                return say(text3("chmod: invalid mode: '", mode, "'"), EXIT_FAILURE);
            }
            d
        },
        None => {
            return say(text3("chmod: invalid mode: '", mode, "'"), EXIT_FAILURE);
        },
    };
    proof {
        lemma_with_user_reads_back(old_mode.0, user);
    }
    let m1 = old_mode.with_user(user);
    proof {
        lemma_with_group_reads_back(m1.0, group);
    }
    let m2 = m1.with_group(group);
    proof {
        lemma_with_others_reads_back(m2.0, others);
    }
    let new_mode = m2.with_others(others);
    assert(m1.0 == spliced(old_mode.0, 6, 3, user) as u16);
    assert(m2.0 == spliced(m1.0, 3, 3, group) as u16);
    assert(new_mode == FileMode(with_permissions(old_mode.0, user, group, others)));
    let changed = vfs.change_mode(pathname, new_mode);
    match changed {
        Ok(_) => run_of(Vec::new(), EXIT_SUCCESS),
        Err(e) => fail_with("chmod: unexpected error: ", e),
    }
}


/// The bytes of `datas`, one after another.
pub open spec fn joined_bytes(datas: Seq<Seq<u8>>) -> Seq<u8>
    decreases datas.len(),
{
    if datas.len() == 0 {
        Seq::empty()
    } else {
        joined_bytes(datas.drop_last()) + datas.last()
    }
}

/// Reading the files at `pathnames` one after another from `states[0]`
/// gave `datas`, each read leaving the next state.
pub open spec fn read_in_turn(states: Seq<VFS>, pathnames: Seq<Seq<char>>, datas: Seq<Seq<u8>>) -> bool {
    &&& states.len() == pathnames.len() + 1
    &&& datas.len() == pathnames.len()
    &&& forall|i: int| 0 <= i < pathnames.len() ==> #[trigger] read_step(states[i], states[i + 1], pathnames[i], datas[i])
}

/// Reading the file at `pathname` took the virtual filesystem from `before`
/// to `after` and gave `data`.
pub open spec fn read_step(before: VFS, after: VFS, pathname: Seq<char>, data: Seq<u8>) -> bool {
    exists|d: Vec<u8>| #[trigger] before.read_file_outcome(after, pathname, Ok(d)) && d@ == data
}

/// Prints the files at `pathnames`, one after another, as one text.
pub fn cat(vfs: &mut VFS, pathnames: &Vec<String>) -> (run: Run)
    requires
        old(vfs).fs_wf(),
    ensures
        final(vfs).fs_wf(),
        pathnames@.len() == 0 ==> run.exit_code == EXIT_FAILURE && run.texts() == seq![
            LineView::Text("cat: no files to concatenate"@),
        ] && *final(vfs) == *old(vfs),
        run.exit_code == EXIT_SUCCESS ==> exists|states: Seq<VFS>, datas: Seq<Seq<u8>>| {
            &&& #[trigger] read_in_turn(states, views(pathnames@), datas)
            &&& states[0] == *old(vfs) && states.last() == *final(vfs)
            &&& vstd::utf8::valid_utf8(joined_bytes(datas))
            &&& run.texts() == seq![LineView::Text(vstd::utf8::decode_utf8(joined_bytes(datas)))]
        },
        pathnames@.len() > 0 && run.exit_code != EXIT_SUCCESS ==> {
            ||| exists|states: Seq<VFS>, datas: Seq<Seq<u8>>| {
                &&& #[trigger] read_in_turn(states, views(pathnames@), datas)
                &&& states[0] == *old(vfs) && states.last() == *final(vfs)
                &&& !vstd::utf8::valid_utf8(joined_bytes(datas))
                &&& run.exit_code == EXIT_FAILURE
                &&& run.texts() == seq![LineView::Text("cat: can't parse utf8: "@ + utf8_error_message(joined_bytes(datas)))]
            }
            ||| exists|states: Seq<VFS>, datas: Seq<Seq<u8>>, k: int, e: Errno| {
                &&& 0 <= k < pathnames@.len()
                &&& #[trigger] read_in_turn(states, views(pathnames@).take(k), datas)
                &&& states[0] == *old(vfs)
                &&& #[trigger] states[k].read_file_outcome(*final(vfs), pathnames@[k]@, Err(e))
                &&& e matches Errno::ENOENT(_) ==> run.exit_code == EXIT_ENOENT && run.texts() == seq![
                    LineView::Text("cat: "@ + pathnames@[k]@ + ": No such file or directory"@),
                ]
                &&& e matches Errno::EISDIR(_) ==> run.exit_code == EXIT_FAILURE && run.texts() == seq![
                    LineView::Text("cat: "@ + pathnames@[k]@ + ": Is a directory"@),
                ]
                &&& (e is ENOENT || e is EISDIR || (run.exit_code == EXIT_FAILURE && run.texts() == seq![
                    LineView::Error("cat: unexpected error: "@, e),
                ]))
            }
        },
{
    if pathnames.len() == 0 {
        return say("cat: no files to concatenate".to_owned(), EXIT_FAILURE);
    }
    let ghost names = views(pathnames@);
    let ghost mut states: Seq<VFS> = seq![*vfs];
    let ghost mut datas: Seq<Seq<u8>> = Seq::empty();
    let mut concatenated: Vec<u8> = Vec::new();
    let mut i: usize = 0;
    while i < pathnames.len()
        invariant
            vfs.fs_wf(),
            names == views(pathnames@),
            i <= pathnames@.len(),
            read_in_turn(states, names.take(i as int), datas),
            states[0] == *old(vfs),
            states.last() == *vfs,
            concatenated@ == joined_bytes(datas),
        decreases pathnames.len() - i,
    {
        let ghost before = *vfs;
        let read = vfs.read_file(pathnames[i].as_str(), 0xFFFF_FFFF);
        assert(names[i as int] == pathnames@[i as int]@);
        match read {
            Ok(bytes) => {
                proof {
                    let next_states = states.push(*vfs);
                    let next_datas = datas.push(bytes@);
                    assert(names.take(i + 1).drop_last() =~= names.take(i as int));
                    assert forall|j: int| 0 <= j < names.take(i + 1).len() implies #[trigger] read_step(
                        next_states[j],
                        next_states[j + 1],
                        names.take(i + 1)[j],
                        next_datas[j],
                    ) by {
                        if j < i {
                            assert(next_states[j] == states[j] && next_states[j + 1] == states[j + 1]);
                            assert(names.take(i + 1)[j] == names.take(i as int)[j]);
                        } else {
                            assert(next_states[j] == before && next_states[j + 1] == *vfs);
                            assert(states[j + 0] == before);
                            assert(before.read_file_outcome(*vfs, names.take(i + 1)[j], Ok(bytes)));
                        }
                    }
                    assert(next_datas.drop_last() =~= datas);
                    states = next_states;
                    datas = next_datas;
                }
                let mut bytes = bytes;
                concatenated.append(&mut bytes);
            },
            Err(Errno::ENOENT(_)) => {
                proof {
                    assert(states[i as int] == before);
                }
                return say(text3("cat: ", pathnames[i].as_str(), ": No such file or directory"), EXIT_ENOENT);
            },
            Err(Errno::EISDIR(_)) => {
                return say(text3("cat: ", pathnames[i].as_str(), ": Is a directory"), EXIT_FAILURE);
            },
            Err(e) => {
                return fail_with("cat: unexpected error: ", e);
            },
        }
        i = i + 1;
    }
    proof {
        assert(names.take(i as int) =~= names);
    }
    match utf8_error(concatenated.as_slice()) {
        Some(message) => {
            let mut text = "cat: can't parse utf8: ".to_owned();
            text.append(message.as_str());
            say(text, EXIT_FAILURE)
        },
        None => match utf8_to_string(concatenated) {
            Some(text) => say(text, EXIT_SUCCESS),
            None => say("cat: can't parse utf8".to_owned(), EXIT_FAILURE),
        },
    }
}


/// The time `secs` as the programs write it in `format`: as chrono writes
/// it, or the number of seconds where chrono cannot represent it.
pub open spec fn time_text(secs: u64, format: Seq<char>) -> Seq<char> {
    if secs <= 0x7FFF_FFFF_FFFF_FFFF {
        match utc_time_text(secs as i64, format) {
            Some(t) => t,
            None => decimal(secs as nat),
        }
    } else {
        decimal(secs as nat)
    }
}

/// The time `secs` written in `format`.
fn time_string(secs: u64, format: &str) -> (t: String)
    requires
        format@ == LISTING_TIME@ || format@ == STAT_TIME@,
    ensures
        t@ == time_text(secs, format@),
{
    if secs <= 0x7FFF_FFFF_FFFF_FFFF {
        match utc_time(secs as i64, format) {
            Some(t) => t,
            None => decimal_string(secs),
        }
    } else {
        decimal_string(secs)
    }
}

/// The character a listing shows for a file type.
pub open spec fn type_char(code: u8) -> char {
    if code == 1 {
        'd'
    } else if code == 0 {
        '-'
    } else if code == 2 {
        's'
    } else if code == 3 {
        'b'
    } else if code == 4 {
        'c'
    } else {
        '?'
    }
}

/// One of `r`, `w` and `x` where its bit of `bits` is set, `-` where not.
pub open spec fn permission_text(bits: u8) -> Seq<char> {
    seq![
        if (bits >> 2u8) & 1 == 1 { 'r' } else { '-' },
        if (bits >> 1u8) & 1 == 1 { 'w' } else { '-' },
        if (bits >> 0u8) & 1 == 1 { 'x' } else { '-' },
    ]
}

/// The line a listing shows for the file `v` named `name`: type and
/// permissions, links, owners, size, modification time and name, separated
/// by tabs.
pub open spec fn listing_line(v: VINode, name: Seq<char>) -> Seq<char> {
    seq![type_char(type_of(v.mode.0))] + permission_text(user_of(v.mode.0)) + permission_text(group_of(v.mode.0))
        + permission_text(others_of(v.mode.0)) + "\t"@ + decimal(v.links_count as nat) + "\t"@ + decimal(v.uid as nat)
        + " "@ + decimal(v.gid as nat) + "\t"@ + decimal(v.file_size as nat) + "\t"@ + time_text(v.mtime, LISTING_TIME@)
        + "\t"@ + name
}

/// The three bits of a permission digit, read as numbers.
proof fn lemma_permission_bits(b: u8)
    requires
        b < 8,
    ensures
        ((b >> 2u8) & 1 == 1) == (b / 4 == 1),
        ((b >> 1u8) & 1 == 1) == ((b / 2) % 2 == 1),
        ((b >> 0u8) & 1 == 1) == (b % 2 == 1),
{
    assert(((b >> 2u8) & 1 == 1) == (b / 4 == 1)) by (bit_vector)
        requires
            b < 8,
    ;
    assert(((b >> 1u8) & 1 == 1) == ((b / 2) % 2 == 1)) by (bit_vector)
        requires
            b < 8,
    ;
    assert(((b >> 0u8) & 1 == 1) == (b % 2 == 1)) by (bit_vector)
        requires
            b < 8,
    ;
}

/// A listing line starts with the file type (`d` for a directory, `-` for
/// a regular file), then the owner's, the group's and everyone else's
/// permissions, each as `r`, `w` and `x` where the bit worth 4, 2 and 1 is
/// set and `-` where it is not.
pub proof fn lemma_listing_line_shows_mode(v: VINode, name: Seq<char>)
    ensures
        ({
            let line = listing_line(v, name);
            let m = v.mode.0;
            let u = user_of(m);
            let g = group_of(m);
            let o = others_of(m);
            &&& line.len() >= 10
            &&& type_of(m) == 1 ==> line[0] == 'd'
            &&& type_of(m) == 0 ==> line[0] == '-'
            &&& type_of(m) == 2 ==> line[0] == 's'
            &&& type_of(m) == 3 ==> line[0] == 'b'
            &&& type_of(m) == 4 ==> line[0] == 'c'
            &&& line.len() >= name.len() + 1 + time_text(v.mtime, LISTING_TIME@).len()
            &&& line.subrange(
                line.len() - name.len() - 1 - time_text(v.mtime, LISTING_TIME@).len(),
                line.len() as int,
            ) == time_text(v.mtime, LISTING_TIME@) + "\t"@ + name
            &&& line[1] == (if u / 4 == 1 { 'r' } else { '-' })
            &&& line[2] == (if (u / 2) % 2 == 1 { 'w' } else { '-' })
            &&& line[3] == (if u % 2 == 1 { 'x' } else { '-' })
            &&& line[4] == (if g / 4 == 1 { 'r' } else { '-' })
            &&& line[5] == (if (g / 2) % 2 == 1 { 'w' } else { '-' })
            &&& line[6] == (if g % 2 == 1 { 'x' } else { '-' })
            &&& line[7] == (if o / 4 == 1 { 'r' } else { '-' })
            &&& line[8] == (if (o / 2) % 2 == 1 { 'w' } else { '-' })
            &&& line[9] == (if o % 2 == 1 { 'x' } else { '-' })
        }),
{
    let m = v.mode.0;
    assert(user_of(m) < 8 && group_of(m) < 8 && others_of(m) < 8);
    lemma_permission_bits(user_of(m));
    lemma_permission_bits(group_of(m));
    lemma_permission_bits(others_of(m));
    let line = listing_line(v, name);
    let head = seq![type_char(type_of(m))] + permission_text(user_of(m)) + permission_text(group_of(m))
        + permission_text(others_of(m));
    assert(head.len() == 10);
    assert(line.subrange(0, 10) =~= head);
    assert forall|k: int| 0 <= k < 10 implies line[k] == head[k] by {
        assert(line.subrange(0, 10)[k] == line[k]);
    }
    reveal_strlit("\t");
    assert("\t"@.len() == 1);
    let tail = time_text(v.mtime, LISTING_TIME@) + "\t"@ + name;
    let front = head + "\t"@ + decimal(v.links_count as nat) + "\t"@ + decimal(v.uid as nat) + " "@ + decimal(
        v.gid as nat,
    ) + "\t"@ + decimal(v.file_size as nat) + "\t"@;
    assert(line =~= front + tail);
    assert(line.subrange(front.len() as int, line.len() as int) =~= tail);
}

/// `line` shows the entry `name` of the directory at `pathname`: the file
/// it names was found, and the line is its listing line.
pub open spec fn shows_entry(vfs: VFS, pathname: Seq<char>, name: Seq<char>, line: LineView) -> bool {
    exists|v: VINode| #[trigger] vfs.lookup_outcome(pathname + "/"@ + name, Ok(v)) && line == LineView::Text(
        listing_line(v, name),
    )
}

/// Looking up the entry `name` of the directory at `pathname` fails.
pub open spec fn entry_missing(vfs: VFS, pathname: Seq<char>, name: Seq<char>) -> bool {
    exists|e: Errno| #[trigger] vfs.lookup_outcome(pathname + "/"@ + name, Err(e))
}

/// The permissions of `bits` as text.
fn permission_string(bits: u8) -> (t: String)
    ensures
        t@ == permission_text(bits),
{
    let r = if get_bit_at(bits, 2) { 'r' } else { '-' };
    let w = if get_bit_at(bits, 1) { 'w' } else { '-' };
    let x = if get_bit_at(bits, 0) { 'x' } else { '-' };
    let mut t = char_to_string(r);
    t.append(char_to_string(w).as_str());
    t.append(char_to_string(x).as_str());
    proof {
        assert(t@ =~= permission_text(bits));
    }
    t
}

/// The line a listing shows for the file `v` named `name`.
fn listing_string(v: VINode, name: &str) -> (t: String)
    ensures
        t@ == listing_line(v, name@),
{
    let code = v.mode.file_type();
    let c = if code == 1 {
        'd'
    } else if code == 0 {
        '-'
    } else if code == 2 {
        's'
    } else if code == 3 {
        'b'
    } else if code == 4 {
        'c'
    } else {
        '?'
    };
    let mut t = char_to_string(c);
    t.append(permission_string(v.mode.user()).as_str());
    t.append(permission_string(v.mode.group()).as_str());
    t.append(permission_string(v.mode.others()).as_str());
    t.append("\t");
    t.append(decimal_string(v.links_count as u64).as_str());
    t.append("\t");
    t.append(decimal_string(v.uid as u64).as_str());
    t.append(" ");
    t.append(decimal_string(v.gid as u64).as_str());
    t.append("\t");
    t.append(decimal_string(v.file_size as u64).as_str());
    t.append("\t");
    t.append(time_string(v.mtime, LISTING_TIME).as_str());
    t.append("\t");
    t.append(name);
    t
}

/// Lists the directory at `pathname`: a line for each entry, in order of
/// name, showing the file it names. The listing stops at an entry whose
/// file cannot be found.
pub fn ls(vfs: &VFS, pathname: &str) -> (run: Run)
    requires
        vfs.fs_wf(),
    ensures
        path_error(pathname@) matches Some(m) ==> run.exit_code == EXIT_FAILURE && run.texts() == seq![
            LineView::Text("ls: invalid path: "@ + m),
        ],
        path_error(pathname@) is None ==> exists|listed: Result<VDirectory, Errno>| {
            &&& #[trigger] vfs.read_dir_outcome(pathname@, listed)
            &&& listed matches Err(Errno::ENOTDIR(_)) ==> run.exit_code == EXIT_FAILURE && run.texts() == seq![
                LineView::Text("ls: not a directory: "@ + pathname@),
            ]
            &&& listed matches Err(e) ==> (e is ENOTDIR || (run.exit_code == EXIT_FAILURE && run.texts() == seq![
                LineView::Error("ls: unexpected error: "@, e),
            ]))
            &&& listed matches Ok(listing) ==> {
                let shown = if run.exit_code == EXIT_SUCCESS { listing.entries@.len() as int } else { run.texts().len() - 1 };
                &&& 0 <= shown <= listing.entries@.len()
                &&& run.texts().len() == if run.exit_code == EXIT_SUCCESS { shown } else { shown + 1 }
                &&& forall|k: int| 0 <= k < shown ==> #[trigger] shows_entry(
                    *vfs,
                    pathname@,
                    listing.entries@[k].name@,
                    run.texts()[k],
                )
                &&& run.exit_code != EXIT_SUCCESS ==> run.exit_code == EXIT_FAILURE && shown < listing.entries@.len()
                    && entry_missing(*vfs, pathname@, listing.entries@[shown].name@) && run.texts()[shown]
                    == LineView::Text("ls: we know that "@ + pathname@ + "/"@ + listing.entries@[shown].name@ + " exists"@)
            }
        },
{
    match parent_dir(pathname) {
        Ok(_) => {},
        Err(Errno::EINVAL(message)) => {
            return say(text2("ls: invalid path: ", message.as_str()), EXIT_FAILURE);
        },
        Err(e) => {
            return fail_with("ls: invalid path: ", e);
        },
    }
    let listed = vfs.read_dir(pathname);
    let listing = match listed {
        Ok(listing) => listing,
        Err(Errno::ENOTDIR(_)) => {
            return say(text2("ls: not a directory: ", pathname), EXIT_FAILURE);
        },
        Err(e) => {
            return fail_with("ls: unexpected error: ", e);
        },
    };
    let ghost names = listing.entries@.map_values(|e: crate::eunix::fs::VDirectoryEntry| e.name@);
    let ghost listed_view = listed;
    assert(vfs.read_dir_outcome(pathname@, listed_view) && listed_view == Ok::<VDirectory, Errno>(listing));
    let mut lines: Vec<Line> = Vec::new();
    let mut k: usize = 0;
    while k < listing.entries.len()
        invariant
            vfs.fs_wf(),
            path_error(pathname@) is None,
            vfs.read_dir_outcome(pathname@, listed_view),
            listed_view == Ok::<VDirectory, Errno>(listing),
            names == listing.entries@.map_values(|e: crate::eunix::fs::VDirectoryEntry| e.name@),
            k <= listing.entries@.len(),
            lines@.len() == k,
            forall|j: int| 0 <= j < k ==> #[trigger] shows_entry(*vfs, pathname@, listing.entries@[j].name@, lines@[j]@),
        decreases listing.entries.len() - k,
    {
        let name = listing.entries[k].name.as_str();
        let child = text3(pathname, "/", name);
        assert(names[k as int] == name@);
        let found = vfs.lookup_path(child.as_str());
        match found {
            Ok(v) => {
                let line = listing_string(v, name);
                let ghost before = lines@;
                lines.push(Line::Text(line));
                proof {
                    assert(child@ == pathname@ + "/"@ + names[k as int]);
                    assert(vfs.lookup_outcome(pathname@ + "/"@ + names[k as int], Ok(v)));
                    assert(shows_entry(*vfs, pathname@, listing.entries@[k as int].name@, lines@[k as int]@));
                    assert forall|j: int| 0 <= j < k implies #[trigger] shows_entry(*vfs, pathname@, listing.entries@[j].name@, lines@[j]@) by {
                        assert(lines@[j] == before[j]);
                    }
                }
            },
            Err(_) => {
                let message = text3("ls: we know that ", child.as_str(), " exists");
                let ghost message_view = message@;
                lines.push(Line::Text(message));
                let run = run_of(lines, EXIT_FAILURE);
                proof {
                    assert(run.texts().len() == k + 1);
                    assert(child@ == pathname@ + "/"@ + listing.entries@[k as int].name@);
                    assert(entry_missing(*vfs, pathname@, listing.entries@[k as int].name@));
                    assert forall|j: int| 0 <= j < k implies #[trigger] shows_entry(*vfs, pathname@, listing.entries@[j].name@, run.texts()[j]) by {
                        assert(run.texts()[j] == run.lines@[j]@);
                    }
                    assert(run.texts()[k as int] == run.lines@[k as int]@);
                    assert(message_view =~= "ls: we know that "@ + pathname@ + "/"@ + listing.entries@[k as int].name@ + " exists"@);
                    assert(run.exit_code != EXIT_SUCCESS);
                }
                return run;
            },
        }
        k = k + 1;
    }
    let run = run_of(lines, EXIT_SUCCESS);
    proof {
        assert forall|j: int| 0 <= j < k implies #[trigger] shows_entry(*vfs, pathname@, listing.entries@[j].name@, run.texts()[j]) by {
            assert(run.texts()[j] == run.lines@[j]@);
        }
    }
    run
}


/// The name a report gives a file type.
pub open spec fn kind_name(code: u8) -> Seq<char> {
    if code == 0 {
        "File"@
    } else if code == 1 {
        "Dir"@
    } else if code == 2 {
        "Sys"@
    } else if code == 3 {
        "Block"@
    } else if code == 4 {
        "Char"@
    } else {
        "?"@
    }
}

/// A report names a directory `Dir` and a regular file `File`, and gives
/// each of the five file types a name of its own.
pub proof fn lemma_kind_names(a: u8, b: u8)
    ensures
        kind_name(1) == "Dir"@,
        kind_name(0) == "File"@,
        kind_name(2) == "Sys"@,
        kind_name(3) == "Block"@,
        kind_name(4) == "Char"@,
        a < 5 && b < 5 && a != b ==> kind_name(a) != kind_name(b),
{
    reveal_strlit("File");
    reveal_strlit("Dir");
    reveal_strlit("Sys");
    reveal_strlit("Block");
    reveal_strlit("Char");
    assert("File"@.len() == 4 && "Dir"@.len() == 3 && "Sys"@.len() == 3 && "Block"@.len() == 5
        && "Char"@.len() == 4);
    assert("File"@[0] == 'F' && "Char"@[0] == 'C' && "Dir"@[0] == 'D' && "Sys"@[0] == 'S');
}

/// The second line of a report on a directory ends with `Dir`, and that of
/// a report on a regular file with `File`.
pub proof fn lemma_stat_names_the_type(pathname: Seq<char>, st: FileStat)
    ensures
        type_of(st.mode.0) == 1 ==> (stat_lines(pathname, st)[1] matches LineView::Text(t) && t.len() >= 3
            && t.subrange(t.len() - 3, t.len() as int) == "Dir"@),
        type_of(st.mode.0) == 0 ==> (stat_lines(pathname, st)[1] matches LineView::Text(t) && t.len() >= 4
            && t.subrange(t.len() - 4, t.len() as int) == "File"@),
{
    lemma_kind_names(0, 1);
    reveal_strlit("File");
    reveal_strlit("Dir");
    let blocks: nat = if st.block_size == 0 { 0 } else { (st.size / st.block_size) as nat };
    let front = "  Size: "@ + decimal(st.size as nat) + "\tBlocks: "@ + decimal(blocks) + "\t"@;
    if type_of(st.mode.0) == 1 {
        let t = front + "Dir"@;
        assert(t.subrange(t.len() - 3, t.len() as int) =~= "Dir"@);
    }
    if type_of(st.mode.0) == 0 {
        let t = front + "File"@;
        assert(t.subrange(t.len() - 4, t.len() as int) =~= "File"@);
    }
}

/// A report gives the access time on the line it labels `Access` with a
/// time, the modification time on the `Modify` line, the change time on the
/// `Change` line and the birth time on the `Birth` line.
pub proof fn lemma_stat_reports_times(pathname: Seq<char>, st: FileStat)
    ensures
        stat_lines(pathname, st).len() == 8,
        stat_lines(pathname, st)[4] == LineView::Text("Access: "@ + time_text(st.atime, STAT_TIME@)),
        stat_lines(pathname, st)[5] == LineView::Text("Modify: "@ + time_text(st.mtime, STAT_TIME@)),
        stat_lines(pathname, st)[6] == LineView::Text("Change: "@ + time_text(st.ctime, STAT_TIME@)),
        stat_lines(pathname, st)[7] == LineView::Text(" Birth: "@ + time_text(st.btime, STAT_TIME@)),
{
}

/// The name of a file type.
fn kind_name_string(code: u8) -> (t: String)
    ensures
        t@ == kind_name(code),
{
    if code == 0 {
        "File".to_owned()
    } else if code == 1 {
        "Dir".to_owned()
    } else if code == 2 {
        "Sys".to_owned()
    } else if code == 3 {
        "Block".to_owned()
    } else if code == 4 {
        "Char".to_owned()
    } else {
        "?".to_owned()
    }
}

/// The lines of a report on the file at `pathname` that `st` describes:
/// its size in bytes and blocks and its type, its inode and links, its mode
/// in octal and its owners, and its four times.
pub open spec fn stat_lines(pathname: Seq<char>, st: FileStat) -> Seq<LineView> {
    let blocks: nat = if st.block_size == 0 { 0 } else { (st.size / st.block_size) as nat };
    seq![
        LineView::Text("  File: "@ + pathname),
        LineView::Text("  Size: "@ + decimal(st.size as nat) + "\tBlocks: "@ + decimal(blocks) + "\t"@ + kind_name(type_of(st.mode.0))),
        LineView::Text("Device: <unknown>\tInode: "@ + decimal(st.inode_number as nat) + "\tLinks: "@ + decimal(st.links_count as nat)),
        LineView::Text("Access: "@ + octal(st.mode.0 as nat) + "\tUid: ("@ + decimal(st.uid as nat) + "/<no name>)\tGid: ("@
            + decimal(st.gid as nat) + "/<no name>)"@),
        LineView::Text("Access: "@ + time_text(st.atime, STAT_TIME@)),
        LineView::Text("Modify: "@ + time_text(st.mtime, STAT_TIME@)),
        LineView::Text("Change: "@ + time_text(st.ctime, STAT_TIME@)),
        LineView::Text(" Birth: "@ + time_text(st.btime, STAT_TIME@)),
    ]
}

/// Reports on the file at `pathname`, after a line naming the path.
pub fn stat(vfs: &VFS, pathname: &str) -> (run: Run)
    requires
        vfs.fs_wf(),
    ensures
        run.texts().len() >= 1,
        run.texts()[0] == LineView::Text("pathname_before_pass_to_bin_stat: "@ + pathname@),
        exists|reported: Result<FileStat, Errno>| {
            &&& #[trigger] vfs.stat_outcome(pathname@, reported)
            &&& reported matches Ok(st) ==> run.exit_code == EXIT_SUCCESS && run.texts().drop_first() == stat_lines(
                pathname@,
                st,
            )
            &&& reported matches Err(Errno::ENOENT(_)) ==> run.exit_code == EXIT_ENOENT && run.texts().drop_first()
                == seq![LineView::Text("stat: "@ + pathname@ + ": No such file or directory"@)]
            &&& reported matches Err(e) ==> (e is ENOENT || (run.exit_code == EXIT_FAILURE && run.texts().drop_first()
                == seq![LineView::Error("stat: unexpected error: "@, e)]))
        },
{
    let mut lines: Vec<Line> = Vec::new();
    lines.push(Line::Text(text2("pathname_before_pass_to_bin_stat: ", pathname)));
    let reported = vfs.stat(pathname);
    let ghost reported_view = reported;
    let exit_code = match reported {
        Ok(st) => {
            let blocks: u32 = if st.block_size == 0 { 0 } else { st.size / st.block_size };
            lines.push(Line::Text(text2("  File: ", pathname)));
            let mut size = text2("  Size: ", decimal_string(st.size as u64).as_str());
            size.append("\tBlocks: ");
            size.append(decimal_string(blocks as u64).as_str());
            size.append("\t");
            size.append(kind_name_string(st.mode.file_type()).as_str());
            lines.push(Line::Text(size));
            let mut device = text2("Device: <unknown>\tInode: ", decimal_string(st.inode_number as u64).as_str());
            device.append("\tLinks: ");
            device.append(decimal_string(st.links_count as u64).as_str());
            lines.push(Line::Text(device));
            let mut access = text2("Access: ", octal_string(st.mode.get_raw() as u64).as_str());
            access.append("\tUid: (");
            access.append(decimal_string(st.uid as u64).as_str());
            access.append("/<no name>)\tGid: (");
            access.append(decimal_string(st.gid as u64).as_str());
            access.append("/<no name>)");
            lines.push(Line::Text(access));
            lines.push(Line::Text(text2("Access: ", time_string(st.atime, STAT_TIME).as_str())));
            lines.push(Line::Text(text2("Modify: ", time_string(st.mtime, STAT_TIME).as_str())));
            lines.push(Line::Text(text2("Change: ", time_string(st.ctime, STAT_TIME).as_str())));
            lines.push(Line::Text(text2(" Birth: ", time_string(st.btime, STAT_TIME).as_str())));
            EXIT_SUCCESS
        },
        Err(Errno::ENOENT(_)) => {
            lines.push(Line::Text(text3("stat: ", pathname, ": No such file or directory")));
            EXIT_ENOENT
        },
        Err(e) => {
            lines.push(Line::Error("stat: unexpected error: ".to_owned(), e));
            EXIT_FAILURE
        },
    };
    let run = run_of(lines, exit_code);
    proof {
        assert(run.texts()[0] == run.lines@[0]@);
        match reported_view {
            Ok(st) => {
                assert(run.texts().drop_first() =~= stat_lines(pathname@, st));
            },
            Err(_) => {
                assert(run.texts().drop_first() =~= seq![run.lines@[1]@]);
            },
        }
    }
    run
}


/// How deep the programs that walk directory trees go before giving up.
pub const TREE_DEPTH: u32 = 0xFFFF_FFFF;

/// `lines` after `before`.
fn append_lines(lines: &mut Vec<Line>, more: Vec<Line>)
    ensures
        final(lines)@ == old(lines)@ + more@,
{
    let mut more = more;
    lines.append(&mut more);
}

/// The lines printed between two states of a growing list of lines.
pub open spec fn added(before: Seq<Line>, after: Seq<Line>) -> Seq<LineView> {
    after.skip(before.len() as int).map_values(|l: Line| l@)
}

/// `after` is `before` with lines added at its end.
pub open spec fn extends(before: Seq<Line>, after: Seq<Line>) -> bool {
    after.len() >= before.len() && after.take(before.len() as int) == before
}

/// Lines added in two steps are the lines of the first step, then those of
/// the second.
pub proof fn lemma_added_concat(a: Seq<Line>, b: Seq<Line>, c: Seq<Line>)
    requires
        extends(a, b),
        extends(b, c),
    ensures
        extends(a, c),
        added(a, c) == added(a, b) + added(b, c),
{
    assert(c.take(a.len() as int) =~= a) by {
        assert forall|j: int| 0 <= j < a.len() implies c[j] == a[j] by {
            assert(c[j] == c.take(b.len() as int)[j]);
            assert(b[j] == b.take(a.len() as int)[j]);
        }
    }
    assert(added(a, c) =~= added(a, b) + added(b, c)) by {
        assert forall|j: int| 0 <= j < c.len() - a.len() implies #[trigger] added(a, c)[j] == (added(a, b) + added(
            b,
            c,
        ))[j] by {
            if j < b.len() - a.len() {
                assert(c[a.len() + j] == c.take(b.len() as int)[a.len() + j]);
            }
        }
    }
}

/// The names a listing holds, in its order.
pub open spec fn listed_names(dir: VDirectory) -> Seq<Seq<char>> {
    dir.entries@.map_values(|e: crate::eunix::fs::VDirectoryEntry| e.name@)
}

/// What removing `pathname` as `rm` does prints and exits with, taking the
/// virtual filesystem from `before` to `after`, below `depth` levels of
/// directories: a file that cannot be found, a file that is no directory,
/// and a directory without `recurse` are handled at once; with `recurse` a
/// directory is listed and emptied entry by entry.
pub open spec fn remove_outcome(
    before: VFS,
    after: VFS,
    pathname: Seq<char>,
    recurse: bool,
    depth: nat,
    printed: Seq<LineView>,
    exit_code: AddressSize,
) -> bool
    decreases depth, 1int, 0int,
{
    exists|found: Result<VINode, Errno>| {
        &&& #[trigger] before.lookup_outcome(pathname, found)
        &&& found matches Err(Errno::ENOENT(_)) ==> exit_code == EXIT_ENOENT && printed == seq![
            LineView::Text("rm: cannot remove '"@ + pathname + "': No such file or directory"@),
        ] && after == before
        &&& found matches Err(e) ==> (e is ENOENT || (exit_code == EXIT_FAILURE && printed == seq![
            LineView::Error("rm: unexpected error: "@, e),
        ] && after == before))
        &&& (found matches Ok(v) && type_of(v.mode.0) != 1) ==> removes_at_last(before, after, pathname, printed, exit_code)
        &&& (found matches Ok(v) && type_of(v.mode.0) == 1 && !recurse) ==> exit_code == EXIT_FAILURE && printed
            == seq![LineView::Text("rm: cannot remove '"@ + pathname + "': Is a directory"@)] && after == before
        &&& (found matches Ok(v) && type_of(v.mode.0) == 1 && recurse) ==> exists|listed: Result<VDirectory, Errno>| {
            &&& #[trigger] before.read_dir_outcome(pathname, listed)
            &&& listed matches Err(e) ==> exit_code == EXIT_FAILURE && printed == seq![
                LineView::Error("rm: unexpected error: "@, e),
            ] && after == before
            &&& listed matches Ok(dir) ==> remove_entries_outcome(
                before,
                after,
                pathname,
                listed_names(dir),
                depth,
                printed,
                exit_code,
            )
        }
    }
}

/// Removing the file at `pathname` itself, after whatever it held: success
/// prints nothing; a failure prints its error.
pub open spec fn removes_at_last(
    before: VFS,
    after: VFS,
    pathname: Seq<char>,
    printed: Seq<LineView>,
    exit_code: AddressSize,
) -> bool {
    exists|removed: Result<(), Errno>| {
        &&& #[trigger] before.remove_file_outcome(after, pathname, removed)
        &&& removed is Ok ==> exit_code == EXIT_SUCCESS && printed.len() == 0
        &&& removed matches Err(e) ==> exit_code == EXIT_FAILURE && printed == seq![
            LineView::Error("rm: unexpected error: "@, e),
        ]
    }
}

/// What `rm` does with the entries `names` of the directory `pathname`,
/// in order, and then with the directory: `.` and `..` are passed over;
/// for any other entry it prints that it descends into it and removes it
/// as `rm` removes a path, stopping with the child's exit code at the
/// first that fails (or, at the depth limit, without trying); once every
/// entry went, it removes the directory.
pub open spec fn remove_entries_outcome(
    before: VFS,
    after: VFS,
    pathname: Seq<char>,
    names: Seq<Seq<char>>,
    depth: nat,
    printed: Seq<LineView>,
    exit_code: AddressSize,
) -> bool
    decreases depth, 0int, names.len(),
{
    if names.len() == 0 {
        removes_at_last(before, after, pathname, printed, exit_code)
    } else if names[0] == "."@ || names[0] == ".."@ {
        remove_entries_outcome(before, after, pathname, names.drop_first(), depth, printed, exit_code)
    } else {
        let child = pathname + "/"@ + names[0];
        &&& printed.len() >= 1
        &&& printed[0] == LineView::Text("rm: descending into '("@ + child + ")'"@)
        &&& depth == 0 ==> exit_code == EXIT_FAILURE && printed == seq![
            LineView::Text("rm: descending into '("@ + child + ")'"@),
            LineView::Text("rm: cannot remove '"@ + child + "': Too many levels of nesting"@),
        ] && after == before
        &&& depth > 0 ==> exists|mid: VFS, n: int, code: AddressSize| {
            &&& 0 <= n < printed.len()
            &&& remove_outcome(before, mid, child, true, (depth - 1) as nat, #[trigger] child_lines(printed, n, mid, code), code)
            &&& code != EXIT_SUCCESS ==> exit_code == code && printed.len() == n + 1 && after == mid
            &&& code == EXIT_SUCCESS ==> remove_entries_outcome(
                mid,
                after,
                pathname,
                names.drop_first(),
                depth,
                printed.skip(n + 1),
                exit_code,
            )
        }
    }
}

/// The lines a child's run printed, where it took the filesystem to `mid`
/// with exit code `code`: the `n` lines after the one that announced it.
pub open spec fn child_lines(printed: Seq<LineView>, n: int, mid: VFS, code: AddressSize) -> Seq<LineView> {
    printed.subrange(1, n + 1)
}

/// One step of `rm` through a directory: an entry other than `.` and `..`
/// was removed as a path, with what that printed after the line that
/// announced it, and what followed went as the rest of the entries go.
proof fn lemma_remove_entries_step(
    before: VFS,
    mid: VFS,
    after: VFS,
    pathname: Seq<char>,
    names: Seq<Seq<char>>,
    depth: nat,
    printed: Seq<LineView>,
    n: int,
    code: AddressSize,
    exit_code: AddressSize,
)
    requires
        names.len() > 0,
        names[0] != "."@ && names[0] != ".."@,
        depth > 0,
        0 <= n < printed.len(),
        printed[0] == LineView::Text("rm: descending into '("@ + (pathname + "/"@ + names[0]) + ")'"@),
        remove_outcome(before, mid, pathname + "/"@ + names[0], true, (depth - 1) as nat, printed.subrange(1, n + 1), code),
        code != EXIT_SUCCESS ==> exit_code == code && printed.len() == n + 1 && after == mid,
        code == EXIT_SUCCESS ==> remove_entries_outcome(mid, after, pathname, names.drop_first(), depth, printed.skip(n + 1), exit_code),
    ensures
        remove_entries_outcome(before, after, pathname, names, depth, printed, exit_code),
{
    assert(child_lines(printed, n, mid, code) == printed.subrange(1, n + 1));
}

/// Removes the file at `pathname`; a directory only with `recurse`, after
/// removing what it holds but `.` and `..`, depth first, stopping at the
/// first failure.
pub fn rm(vfs: &mut VFS, pathname: &str, recurse: bool) -> (run: Run)
    requires
        old(vfs).fs_wf(),
    ensures
        final(vfs).fs_wf(),
        remove_outcome(*old(vfs), *final(vfs), pathname@, recurse, TREE_DEPTH as nat, run.texts(), run.exit_code),
{
    let mut lines: Vec<Line> = Vec::new();
    let exit_code = remove_path(vfs, pathname, recurse, &mut lines, TREE_DEPTH);
    let run = run_of(lines, exit_code);
    proof {
        assert(lines@.skip(0) =~= lines@);
    }
    run
}

/// Removes the file at `pathname` as `rm` does, adding what it prints to
/// `lines`, and gives the exit code; below `depth` levels of directories it
/// gives up.
fn remove_path(vfs: &mut VFS, pathname: &str, recurse: bool, lines: &mut Vec<Line>, depth: u32) -> (exit_code: AddressSize)
    requires
        old(vfs).fs_wf(),
    ensures
        final(vfs).fs_wf(),
        extends(old(lines)@, final(lines)@),
        remove_outcome(*old(vfs), *final(vfs), pathname@, recurse, depth as nat, added(old(lines)@, final(lines)@), exit_code),
    decreases depth, 1int, 0int,
{
    let ghost start = lines@;
    let found = vfs.lookup_path(pathname);
    let vinode = match found {
        Ok(v) => v,
        Err(Errno::ENOENT(m)) => {
            lines.push(Line::Text(text3("rm: cannot remove '", pathname, "': No such file or directory")));
            proof {
                assert(added(start, lines@) =~= seq![lines@.last()@]);
                assert(lines@.take(start.len() as int) =~= start);
                assert(vfs.lookup_outcome(pathname@, found));
            }
            return EXIT_ENOENT;
        },
        Err(e) => {
            lines.push(Line::Error("rm: unexpected error: ".to_owned(), e));
            proof {
                assert(added(start, lines@) =~= seq![lines@.last()@]);
                assert(lines@.take(start.len() as int) =~= start);
                assert(vfs.lookup_outcome(pathname@, found));
            }
            return EXIT_FAILURE;
        },
    };
    proof {
        assert(vfs.lookup_outcome(pathname@, found));
    }
    if vinode.mode.file_type() != 1 {
        let ghost before = *vfs;
        let removed = vfs.remove_file(pathname);
        match removed {
            Ok(()) => {
                proof {
                    assert(added(start, lines@) =~= Seq::<LineView>::empty());
                    assert(lines@.take(start.len() as int) =~= start);
                    assert(before.remove_file_outcome(*vfs, pathname@, removed));
                    assert(removes_at_last(before, *vfs, pathname@, added(start, lines@), EXIT_SUCCESS));
                }
                return EXIT_SUCCESS;
            },
            Err(e) => {
                lines.push(Line::Error("rm: unexpected error: ".to_owned(), e));
                proof {
                    assert(added(start, lines@) =~= seq![lines@.last()@]);
                    assert(lines@.take(start.len() as int) =~= start);
                    assert(before.remove_file_outcome(*vfs, pathname@, removed));
                    assert(removes_at_last(before, *vfs, pathname@, added(start, lines@), EXIT_FAILURE));
                }
                return EXIT_FAILURE;
            },
        }
    }
    if !recurse {
        lines.push(Line::Text(text3("rm: cannot remove '", pathname, "': Is a directory")));
        proof {
            assert(added(start, lines@) =~= seq![lines@.last()@]);
            assert(lines@.take(start.len() as int) =~= start);
        }
        return EXIT_FAILURE;
    }
    let listed = vfs.read_dir(pathname);
    proof {
        assert(vfs.read_dir_outcome(pathname@, listed));
    }
    match listed {
        Ok(dir) => {
            let exit_code = remove_entries(vfs, pathname, &dir.entries, 0, lines, depth);
            proof {
                assert(listed_names(dir).skip(0) =~= listed_names(dir));
                assert(listed_names(dir) =~= dir.entries@.map_values(|e: crate::eunix::fs::VDirectoryEntry| e.name@));
            }
            exit_code
        },
        Err(e) => {
            lines.push(Line::Error("rm: unexpected error: ".to_owned(), e));
            proof {
                assert(added(start, lines@) =~= seq![lines@.last()@]);
                assert(lines@.take(start.len() as int) =~= start);
            }
            EXIT_FAILURE
        },
    }
}

/// Goes on removing the directory `pathname` from its entry `k` on, as
/// `rm` does, and then the directory itself.
fn remove_entries(
    vfs: &mut VFS,
    pathname: &str,
    entries: &Vec<crate::eunix::fs::VDirectoryEntry>,
    k: usize,
    lines: &mut Vec<Line>,
    depth: u32,
) -> (exit_code: AddressSize)
    requires
        old(vfs).fs_wf(),
        k <= entries.len(),
    ensures
        final(vfs).fs_wf(),
        extends(old(lines)@, final(lines)@),
        remove_entries_outcome(
            *old(vfs),
            *final(vfs),
            pathname@,
            entries@.map_values(|e: crate::eunix::fs::VDirectoryEntry| e.name@).skip(k as int),
            depth as nat,
            added(old(lines)@, final(lines)@),
            exit_code,
        ),
    decreases depth, 0int, entries.len() - k,
{
    let ghost start = lines@;
    let ghost names = entries@.map_values(|e: crate::eunix::fs::VDirectoryEntry| e.name@).skip(k as int);
    proof {
        reveal_strlit(".");
        reveal_strlit("..");
        reveal_strlit("/");
    }
    if k == entries.len() {
        let ghost before = *vfs;
        let removed = vfs.remove_file(pathname);
        assert(names.len() == 0);
        match removed {
            Ok(()) => {
                proof {
                    assert(added(start, lines@) =~= Seq::<LineView>::empty());
                    assert(lines@.take(start.len() as int) =~= start);
                    assert(before.remove_file_outcome(*vfs, pathname@, removed));
                }
                return EXIT_SUCCESS;
            },
            Err(e) => {
                lines.push(Line::Error("rm: unexpected error: ".to_owned(), e));
                proof {
                    assert(added(start, lines@) =~= seq![lines@.last()@]);
                    assert(lines@.take(start.len() as int) =~= start);
                    assert(before.remove_file_outcome(*vfs, pathname@, removed));
                }
                return EXIT_FAILURE;
            },
        }
    }
    let name = entries[k].name.as_str();
    proof {
        assert(names.len() == entries.len() - k);
        assert(names.len() > 0);
        assert(names[0] == name@);
        assert(names.drop_first() =~= entries@.map_values(|e: crate::eunix::fs::VDirectoryEntry| e.name@).skip(
            k + 1,
        ));
    }
    if crate::text::str_eq(name, ".") || crate::text::str_eq(name, "..") {
        return remove_entries(vfs, pathname, entries, k + 1, lines, depth);
    }
    let child = text3(pathname, "/", name);
    lines.push(Line::Text(text3("rm: descending into '(", child.as_str(), ")'")));
    let ghost after_banner = lines@;
    proof {
        assert(lines@.take(start.len() as int) =~= start);
        assert(added(start, lines@) =~= seq![lines@.last()@]);
    }
    if depth == 0 {
        lines.push(Line::Text(text3("rm: cannot remove '", child.as_str(), "': Too many levels of nesting")));
        proof {
            assert(lines@.take(start.len() as int) =~= start);
            assert(added(start, lines@) =~= seq![after_banner.last()@, lines@.last()@]);
        }
        return EXIT_FAILURE;
    }
    let ghost before_child = *vfs;
    let status = remove_path(vfs, child.as_str(), true, lines, depth - 1);
    let ghost after_child = lines@;
    let ghost mid = *vfs;
    proof {
        lemma_added_concat(start, after_banner, after_child);
        let n = added(after_banner, after_child).len() as int;
        let printed_so_far = added(start, after_child);
        assert(printed_so_far.subrange(1, n + 1) =~= added(after_banner, after_child));
    }
    if status != EXIT_SUCCESS {
        proof {
            let n = added(after_banner, after_child).len() as int;
            let all = added(start, lines@);
            assert(all.len() == n + 1);
            assert(all[0] == LineView::Text("rm: descending into '("@ + child@ + ")'"@));
            assert(remove_outcome(before_child, mid, child@, true, (depth - 1) as nat, all.subrange(1, n + 1), status));
            assert(names[0] != "."@ && names[0] != ".."@);
            assert(child@ == pathname@ + "/"@ + names[0]);
            lemma_remove_entries_step(before_child, mid, mid, pathname@, names, depth as nat, all, n, status, status);
        }
        return status;
    }
    let exit_code = remove_entries(vfs, pathname, entries, k + 1, lines, depth);
    proof {
        lemma_added_concat(start, after_child, lines@);
        lemma_added_concat(start, after_banner, after_child);
        let n = added(after_banner, after_child).len() as int;
        let all = added(start, lines@);
        assert(all.subrange(1, n + 1) =~= added(after_banner, after_child));
        assert(all.skip(n + 1) =~= added(after_child, lines@));
        assert(remove_outcome(before_child, mid, child@, true, (depth - 1) as nat, all.subrange(1, n + 1), status));
        assert(all[0] == LineView::Text("rm: descending into '("@ + child@ + ")'"@));
        assert(names[0] != "."@ && names[0] != ".."@);
        assert(child@ == pathname@ + "/"@ + names[0]);
        lemma_remove_entries_step(before_child, mid, *vfs, pathname@, names, depth as nat, all, n, status, exit_code);
    }
    exit_code
}

/// The three lowest bits of `code`, highest first, as `0`s and `1`s.
pub open spec fn three_bits(code: u8) -> Seq<char> {
    seq![
        if (code >> 2u8) & 1 == 1 { '1' } else { '0' },
        if (code >> 1u8) & 1 == 1 { '1' } else { '0' },
        if (code >> 0u8) & 1 == 1 { '1' } else { '0' },
    ]
}

/// The three lowest bits of `code` as text.
fn three_bits_string(code: u8) -> (t: String)
    ensures
        t@ == three_bits(code),
{
    let a = if get_bit_at(code, 2) { '1' } else { '0' };
    let b = if get_bit_at(code, 1) { '1' } else { '0' };
    let c = if get_bit_at(code, 0) { '1' } else { '0' };
    let mut t = char_to_string(a);
    t.append(char_to_string(b).as_str());
    t.append(char_to_string(c).as_str());
    proof {
        assert(t@ =~= three_bits(code));
    }
    t
}

/// The first line `cp` prints once it has found its source: the source and
/// the bits of its file type.
pub open spec fn copy_banner(source: Seq<char>, v: VINode) -> Seq<char> {
    "cp: source_pathname is "@ + source + " source_vinode.mode is "@ + three_bits(type_of(v.mode.0))
}

/// Copies the file at `source` to `target`, which must not exist: a file
/// by its contents, a directory by making one and copying what it holds but
/// `.` and `..` into it, depth first, stopping at the first failure.
pub fn cp(vfs: &mut VFS, source: &str, target: &str) -> (run: Run)
    requires
        old(vfs).fs_wf(),
    ensures
        final(vfs).fs_wf(),
        copy_outcome(*old(vfs), *final(vfs), source@, target@, TREE_DEPTH as nat, run.texts(), run.exit_code),
{
    let mut lines: Vec<Line> = Vec::new();
    let exit_code = copy_path(vfs, source, target, &mut lines, TREE_DEPTH);
    let run = run_of(lines, exit_code);
    proof {
        assert(lines@.skip(0) =~= lines@);
    }
    run
}

/// What copying `source` to `target` as `cp` does prints and exits with,
/// taking the virtual filesystem from `before` to `after`, below `depth`
/// levels of directories: a missing source, or a target that exists,
/// changes nothing; a file is read and its contents written to a new file;
/// a directory is made anew and what the source holds is copied into it.
pub open spec fn copy_outcome(
    before: VFS,
    after: VFS,
    source: Seq<char>,
    target: Seq<char>,
    depth: nat,
    printed: Seq<LineView>,
    exit_code: AddressSize,
) -> bool
    decreases depth, 1int, 0int,
{
    exists|found: Result<VINode, Errno>| {
        &&& #[trigger] before.lookup_outcome(source, found)
        &&& found matches Err(Errno::ENOENT(_)) ==> exit_code == EXIT_ENOENT && printed == seq![
            LineView::Text("cp: "@ + source + ": No such file or directory"@),
        ] && after == before
        &&& found matches Err(e) ==> (e is ENOENT || (exit_code == EXIT_FAILURE && printed == seq![
            LineView::Error("cp: unexpected error: "@, e),
        ] && after == before))
        &&& found matches Ok(v) ==> {
            ||| (exists|r: Result<VINode, Errno>| #[trigger] before.lookup_outcome(target, r) && r is Ok) && exit_code == EXIT_FAILURE
                && printed == seq![LineView::Text("cp: "@ + target + ": Already exists"@)] && after == before
            ||| (exists|r: Result<VINode, Errno>| #[trigger] before.lookup_outcome(target, r) && r is Err) && printed.len() >= 2 && printed[0]
                == LineView::Text(copy_banner(source, v)) && {
                &&& type_of(v.mode.0) == 0 ==> printed[1] == LineView::Text("cp: file case"@) && (exit_code
                    == EXIT_SUCCESS ==> exists|read: VFS, made: VFS, data: Vec<u8>, file: VINode, written: VINode| {
                    &&& #[trigger] before.read_file_outcome(read, source, Ok(data))
                    &&& #[trigger] read.create_file_outcome(made, target, Ok(file))
                    &&& #[trigger] made.write_file_outcome(after, target, data@, Ok(written))
                })
                &&& type_of(v.mode.0) == 0 && exit_code != EXIT_SUCCESS ==> exit_code == EXIT_FAILURE
                    && printed.len() == 3 && (printed[2] matches LineView::Error(p, e)
                    && p == "cp: unexpected error: "@ && copy_step_failed(before, after, source, target, e))
                &&& type_of(v.mode.0) != 0 ==> printed[1] == LineView::Text(
                    "cp: dir case (creating dir: "@ + target + ")"@,
                ) && exists|made: VFS, dir: Result<VINode, Errno>| {
                    &&& #[trigger] before.create_dir_outcome(made, target, dir)
                    &&& dir matches Err(e) ==> exit_code == EXIT_FAILURE && after == made && printed == seq![
                        printed[0],
                        printed[1],
                        LineView::Error("cp: unexpected error: "@, e),
                    ]
                    &&& dir is Ok ==> exists|listed: Result<VDirectory, Errno>| {
                        &&& #[trigger] made.read_dir_outcome(source, listed)
                        &&& listed matches Err(e) ==> exit_code == EXIT_FAILURE && after == made && printed == seq![
                            printed[0],
                            printed[1],
                            LineView::Error("cp: unexpected error: "@, e),
                        ]
                        &&& listed matches Ok(d) ==> copy_entries_outcome(
                            made,
                            after,
                            source,
                            target,
                            listed_names(d),
                            depth,
                            printed.skip(2),
                            exit_code,
                        )
                    }
                }
            }
        }
    }
}

/// What `cp` does with the entries `names` of the directory `source`, in
/// order, once it made the directory `target`: `.` and `..` are passed
/// over; for any other entry it prints that it descends into `source` and
/// copies the entry into `target` under its name as `cp` copies a path,
/// stopping with the child's exit code at the first that fails (or, at the
/// depth limit, without trying); once every entry is copied it succeeds.
pub open spec fn copy_entries_outcome(
    before: VFS,
    after: VFS,
    source: Seq<char>,
    target: Seq<char>,
    names: Seq<Seq<char>>,
    depth: nat,
    printed: Seq<LineView>,
    exit_code: AddressSize,
) -> bool
    decreases depth, 0int, names.len(),
{
    if names.len() == 0 {
        exit_code == EXIT_SUCCESS && printed.len() == 0 && after == before
    } else if names[0] == "."@ || names[0] == ".."@ {
        copy_entries_outcome(before, after, source, target, names.drop_first(), depth, printed, exit_code)
    } else {
        let child_source = source + "/"@ + names[0];
        let child_target = target + "/"@ + names[0];
        &&& printed.len() >= 1
        &&& printed[0] == LineView::Text("cp: descending into '("@ + source + ")'"@)
        &&& depth == 0 ==> exit_code == EXIT_FAILURE && printed == seq![
            LineView::Text("cp: descending into '("@ + source + ")'"@),
            LineView::Text("cp: cannot copy '"@ + child_source + "': Too many levels of nesting"@),
        ] && after == before
        &&& depth > 0 ==> exists|mid: VFS, n: int, code: AddressSize| {
            &&& 0 <= n < printed.len()
            &&& copy_outcome(
                before,
                mid,
                child_source,
                child_target,
                (depth - 1) as nat,
                #[trigger] child_lines(printed, n, mid, code),
                code,
            )
            &&& code != EXIT_SUCCESS ==> exit_code == code && printed.len() == n + 1 && after == mid
            &&& code == EXIT_SUCCESS ==> copy_entries_outcome(
                mid,
                after,
                source,
                target,
                names.drop_first(),
                depth,
                printed.skip(n + 1),
                exit_code,
            )
        }
    }
}

/// One step of `cp` through a directory: an entry other than `.` and `..`
/// was copied as a path, with what that printed after the line that
/// announced it, and what followed went as the rest of the entries go.
proof fn lemma_copy_entries_step(
    before: VFS,
    mid: VFS,
    after: VFS,
    source: Seq<char>,
    target: Seq<char>,
    names: Seq<Seq<char>>,
    depth: nat,
    printed: Seq<LineView>,
    n: int,
    code: AddressSize,
    exit_code: AddressSize,
)
    requires
        names.len() > 0,
        names[0] != "."@ && names[0] != ".."@,
        depth > 0,
        0 <= n < printed.len(),
        printed[0] == LineView::Text("cp: descending into '("@ + source + ")'"@),
        copy_outcome(
            before,
            mid,
            source + "/"@ + names[0],
            target + "/"@ + names[0],
            (depth - 1) as nat,
            printed.subrange(1, n + 1),
            code,
        ),
        code != EXIT_SUCCESS ==> exit_code == code && printed.len() == n + 1 && after == mid,
        code == EXIT_SUCCESS ==> copy_entries_outcome(
            mid,
            after,
            source,
            target,
            names.drop_first(),
            depth,
            printed.skip(n + 1),
            exit_code,
        ),
    ensures
        copy_entries_outcome(before, after, source, target, names, depth, printed, exit_code),
{
    assert(child_lines(printed, n, mid, code) == printed.subrange(1, n + 1));
}

/// Copying the file `source` to `target` failed with `e` at one of its
/// steps: reading the source, creating the target after reading, or
/// writing what was read into the created target.
pub open spec fn copy_step_failed(before: VFS, after: VFS, source: Seq<char>, target: Seq<char>, e: Errno) -> bool {
    ||| exists|read: VFS| #[trigger] before.read_file_outcome(read, source, Err(e))
    ||| exists|read: VFS, made: VFS, data: Vec<u8>| #[trigger] before.read_file_outcome(read, source, Ok(data))
        && #[trigger] read.create_file_outcome(made, target, Err(e))
    ||| exists|read: VFS, made: VFS, data: Vec<u8>, file: VINode| #[trigger] before.read_file_outcome(
        read,
        source,
        Ok(data),
    ) && #[trigger] read.create_file_outcome(made, target, Ok(file)) && #[trigger] made.write_file_outcome(
        after,
        target,
        data@,
        Err(e),
    )
}

/// Copies `source` to `target` as `cp` does, adding what it prints to
/// `lines`, and gives the exit code; below `depth` levels of directories it
/// gives up.
fn copy_path(vfs: &mut VFS, source: &str, target: &str, lines: &mut Vec<Line>, depth: u32) -> (exit_code: AddressSize)
    requires
        old(vfs).fs_wf(),
    ensures
        final(vfs).fs_wf(),
        extends(old(lines)@, final(lines)@),
        copy_outcome(*old(vfs), *final(vfs), source@, target@, depth as nat, added(old(lines)@, final(lines)@), exit_code),
    decreases depth, 1int, 0int,
{
    let ghost start = lines@;
    let ghost before = *vfs;
    let found = vfs.lookup_path(source);
    let v = match found {
        Ok(v) => v,
        Err(Errno::ENOENT(_)) => {
            lines.push(Line::Text(text3("cp: ", source, ": No such file or directory")));
            proof {
                assert(lines@.skip(start.len() as int).map_values(|l: Line| l@) =~= seq![lines@.last()@]);
                assert(lines@.take(start.len() as int) =~= start);
            }
            return EXIT_ENOENT;
        },
        Err(e) => {
            lines.push(Line::Error("cp: unexpected error: ".to_owned(), e));
            proof {
                assert(lines@.skip(start.len() as int).map_values(|l: Line| l@) =~= seq![lines@.last()@]);
                assert(lines@.take(start.len() as int) =~= start);
            }
            return EXIT_FAILURE;
        },
    };
    let existing = vfs.lookup_path(target);
    if existing.is_ok() {
        lines.push(Line::Text(text3("cp: ", target, ": Already exists")));
        proof {
            assert(lines@.skip(start.len() as int).map_values(|l: Line| l@) =~= seq![lines@.last()@]);
            assert(lines@.take(start.len() as int) =~= start);
        }
        return EXIT_FAILURE;
    }
    let code = v.mode.file_type();
    let mut banner = text2("cp: source_pathname is ", source);
    banner.append(" source_vinode.mode is ");
    banner.append(three_bits_string(code).as_str());
    lines.push(Line::Text(banner));
    let ghost banner_at = lines@.len() - 1;
    if code == 0 {
        lines.push(Line::Text("cp: file case".to_owned()));
        proof {
            assert(lines@.take(start.len() as int) =~= start);
        }
        let read = vfs.read_file(source, 0xFFFF_FFFF);
        let ghost after_read = *vfs;
        let data = match read {
            Ok(data) => data,
            Err(e) => {
                lines.push(Line::Error("cp: unexpected error: ".to_owned(), e));
                proof {
                    assert(lines@.take(start.len() as int) =~= start);
                    let printed = lines@.skip(start.len() as int).map_values(|l: Line| l@);
                    assert(printed[0] == lines@[start.len() as int]@);
                    assert(printed[1] == lines@[start.len() as int + 1]@);
                    assert(printed[2] == lines@[start.len() as int + 2]@);
                    assert(before.read_file_outcome(after_read, source@, Err(e)));
                    assert(copy_step_failed(before, *vfs, source@, target@, e));
                }
                return EXIT_FAILURE;
            },
        };
        let made = vfs.create_file(target);
        let ghost after_made = *vfs;
        let file = match made {
            Ok(file) => file,
            Err(e) => {
                lines.push(Line::Error("cp: unexpected error: ".to_owned(), e));
                proof {
                    assert(lines@.take(start.len() as int) =~= start);
                    let printed = lines@.skip(start.len() as int).map_values(|l: Line| l@);
                    assert(printed[0] == lines@[start.len() as int]@);
                    assert(printed[1] == lines@[start.len() as int + 1]@);
                    assert(printed[2] == lines@[start.len() as int + 2]@);
                    assert(before.read_file_outcome(after_read, source@, Ok(data)));
                    assert(after_read.create_file_outcome(after_made, target@, Err(e)));
                    assert(copy_step_failed(before, *vfs, source@, target@, e));
                }
                return EXIT_FAILURE;
            },
        };
        let written = vfs.write_file(target, data.as_slice());
        proof {
            assert(lines@.take(start.len() as int) =~= start);
            let printed = lines@.skip(start.len() as int).map_values(|l: Line| l@);
            assert(printed[0] == lines@[start.len() as int]@);
            assert(printed[1] == lines@[start.len() as int + 1]@);
        }
        match written {
            Ok(w) => {
                assert(before.read_file_outcome(after_read, source@, Ok(data)));
                assert(after_read.create_file_outcome(after_made, target@, Ok(file)));
                assert(after_made.write_file_outcome(*vfs, target@, data@, Ok(w)));
                EXIT_SUCCESS
            },
            Err(e) => {
                lines.push(Line::Error("cp: unexpected error: ".to_owned(), e));
                proof {
                    assert(lines@.take(start.len() as int) =~= start);
                    let printed = lines@.skip(start.len() as int).map_values(|l: Line| l@);
                    assert(printed[0] == lines@[start.len() as int]@);
                    assert(printed[1] == lines@[start.len() as int + 1]@);
                    assert(printed[2] == lines@[start.len() as int + 2]@);
                    assert(before.read_file_outcome(after_read, source@, Ok(data)));
                    assert(after_read.create_file_outcome(after_made, target@, Ok(file)));
                    assert(after_made.write_file_outcome(*vfs, target@, data@, Err(e)));
                    assert(copy_step_failed(before, *vfs, source@, target@, e));
                }
                EXIT_FAILURE
            },
        }
    } else {
        lines.push(Line::Text(text3("cp: dir case (creating dir: ", target, ")")));
        let made = vfs.create_dir(target);
        let ghost after_made = *vfs;
        proof {
            assert(lines@.take(start.len() as int) =~= start);
            let printed = lines@.skip(start.len() as int).map_values(|l: Line| l@);
            assert(printed[0] == lines@[start.len() as int]@);
            assert(printed[1] == lines@[start.len() as int + 1]@);
        }
        let dir_vinode = match made {
            Ok(d) => d,
            Err(e) => {
                lines.push(Line::Error("cp: unexpected error: ".to_owned(), e));
                proof {
                    assert(lines@.take(start.len() as int) =~= start);
                    let printed = lines@.skip(start.len() as int).map_values(|l: Line| l@);
                    assert(printed[0] == lines@[start.len() as int]@);
                    assert(printed[1] == lines@[start.len() as int + 1]@);
                    assert(printed[2] == lines@[start.len() as int + 2]@);
                    assert(printed =~= seq![printed[0], printed[1], LineView::Error("cp: unexpected error: "@, e)]);
                    assert(before.create_dir_outcome(after_made, target@, made));
                }
                return EXIT_FAILURE;
            },
        };
        assert(before.create_dir_outcome(after_made, target@, Ok(dir_vinode)));
        let listed = vfs.read_dir(source);
        let dir = match listed {
            Ok(dir) => dir,
            Err(e) => {
                lines.push(Line::Error("cp: unexpected error: ".to_owned(), e));
                proof {
                    assert(lines@.take(start.len() as int) =~= start);
                    let printed = lines@.skip(start.len() as int).map_values(|l: Line| l@);
                    assert(printed[0] == lines@[start.len() as int]@);
                    assert(printed[1] == lines@[start.len() as int + 1]@);
                    assert(printed[2] == lines@[start.len() as int + 2]@);
                    assert(printed =~= seq![printed[0], printed[1], LineView::Error("cp: unexpected error: "@, e)]);
                    assert(after_made.read_dir_outcome(source@, listed));
                    assert(before.create_dir_outcome(after_made, target@, made));
                }
                return EXIT_FAILURE;
            },
        };
        let ghost fixed = lines@;
        proof {
            assert(lines@.take(start.len() as int) =~= start);
            assert(after_made.read_dir_outcome(source@, listed));
        }
        let exit_code = copy_entries(vfs, source, target, &dir.entries, 0, lines, depth);
        proof {
            lemma_added_concat(start, fixed, lines@);
            let all = added(start, lines@);
            assert(added(start, fixed).len() == 2);
            assert(all.skip(2) =~= added(fixed, lines@));
            assert(all[0] == added(start, fixed)[0]);
            assert(all[1] == added(start, fixed)[1]);
            assert(dir.entries@.map_values(|e: crate::eunix::fs::VDirectoryEntry| e.name@).skip(0) =~= listed_names(
                dir,
            ));
            assert(before.create_dir_outcome(after_made, target@, made));
        }
        exit_code
    }
}

/// Goes on copying the directory `source` into `target` from its entry `k`
/// on, as `cp` does.
fn copy_entries(
    vfs: &mut VFS,
    source: &str,
    target: &str,
    entries: &Vec<crate::eunix::fs::VDirectoryEntry>,
    k: usize,
    lines: &mut Vec<Line>,
    depth: u32,
) -> (exit_code: AddressSize)
    requires
        old(vfs).fs_wf(),
        k <= entries.len(),
    ensures
        final(vfs).fs_wf(),
        extends(old(lines)@, final(lines)@),
        copy_entries_outcome(
            *old(vfs),
            *final(vfs),
            source@,
            target@,
            entries@.map_values(|e: crate::eunix::fs::VDirectoryEntry| e.name@).skip(k as int),
            depth as nat,
            added(old(lines)@, final(lines)@),
            exit_code,
        ),
    decreases depth, 0int, entries.len() - k,
{
    let ghost start = lines@;
    let ghost names = entries@.map_values(|e: crate::eunix::fs::VDirectoryEntry| e.name@).skip(k as int);
    proof {
        reveal_strlit(".");
        reveal_strlit("..");
        reveal_strlit("/");
    }
    if k == entries.len() {
        proof {
            assert(names.len() == 0);
            assert(added(start, lines@) =~= Seq::<LineView>::empty());
            assert(lines@.take(start.len() as int) =~= start);
        }
        return EXIT_SUCCESS;
    }
    let name = entries[k].name.as_str();
    proof {
        assert(names.len() == entries.len() - k);
        assert(names[0] == name@);
        assert(names.drop_first() =~= entries@.map_values(|e: crate::eunix::fs::VDirectoryEntry| e.name@).skip(
            k + 1,
        ));
    }
    if crate::text::str_eq(name, ".") || crate::text::str_eq(name, "..") {
        return copy_entries(vfs, source, target, entries, k + 1, lines, depth);
    }
    let child_source = text3(source, "/", name);
    let child_target = text3(target, "/", name);
    lines.push(Line::Text(text3("cp: descending into '(", source, ")'")));
    let ghost after_banner = lines@;
    proof {
        assert(lines@.take(start.len() as int) =~= start);
        assert(added(start, lines@) =~= seq![lines@.last()@]);
    }
    if depth == 0 {
        lines.push(Line::Text(text3("cp: cannot copy '", child_source.as_str(), "': Too many levels of nesting")));
        proof {
            assert(lines@.take(start.len() as int) =~= start);
            assert(added(start, lines@) =~= seq![after_banner.last()@, lines@.last()@]);
        }
        return EXIT_FAILURE;
    }
    let ghost before_child = *vfs;
    let status = copy_path(vfs, child_source.as_str(), child_target.as_str(), lines, depth - 1);
    let ghost after_child = lines@;
    let ghost mid = *vfs;
    proof {
        lemma_added_concat(start, after_banner, after_child);
    }
    if status != EXIT_SUCCESS {
        proof {
            let n = added(after_banner, after_child).len() as int;
            let all = added(start, lines@);
            assert(all.subrange(1, n + 1) =~= added(after_banner, after_child));
            assert(all.len() == n + 1);
            lemma_copy_entries_step(before_child, mid, mid, source@, target@, names, depth as nat, all, n, status, status);
        }
        return status;
    }
    let exit_code = copy_entries(vfs, source, target, entries, k + 1, lines, depth);
    proof {
        lemma_added_concat(start, after_child, lines@);
        let n = added(after_banner, after_child).len() as int;
        let all = added(start, lines@);
        assert(all.subrange(1, n + 1) =~= added(after_banner, after_child));
        assert(all.skip(n + 1) =~= added(after_child, lines@));
        lemma_copy_entries_step(before_child, mid, *vfs, source@, target@, names, depth as nat, all, n, status, exit_code);
    }
    exit_code
}

/// Changes the owners of the file at `pathname` to those `owners` names, as
/// `user:group`. The kernel keeps no table of user or group names, so once
/// the file is found no name is known and the owners are refused.
pub fn chown(vfs: &VFS, owners: &str, pathname: &str) -> (run: Run)
    requires
        vfs.fs_wf(),
    ensures
        exists|found: Result<VINode, Errno>| {
            &&& #[trigger] vfs.lookup_outcome(pathname@, found)
            &&& found is Ok ==> run.exit_code == EXIT_FAILURE && run.texts() == seq![
                LineView::Text("chown: invalid user: '"@ + owners@ + "'"@),
            ]
            &&& found matches Err(Errno::ENOENT(_)) ==> run.exit_code == EXIT_ENOENT && run.texts() == seq![
                LineView::Text("chown: "@ + pathname@ + ": No such file or directory"@),
            ]
            &&& found matches Err(e) ==> (e is ENOENT || (run.exit_code == EXIT_FAILURE && run.texts() == seq![
                LineView::Error("chown: unexpected error: "@, e),
            ]))
        },
{
    let found = vfs.lookup_path(pathname);
    let ghost witness = found;
    match found {
        Ok(_) => say(text3("chown: invalid user: '", owners, "'"), EXIT_FAILURE),
        Err(Errno::ENOENT(_)) => say(text3("chown: ", pathname, ": No such file or directory"), EXIT_ENOENT),
        Err(e) => fail_with("chown: unexpected error: ", e),
    }
}

/// The line `id` prints for a user `uid` in group `gid`, neither of which
/// has a known name.
pub open spec fn id_line(uid: u16, gid: u16) -> Seq<char> {
    "uid="@ + decimal(uid as nat) + "(<no name>) gid="@ + decimal(gid as nat) + "(<no name>) groups="@
        + decimal(gid as nat) + "(<no name>)"@
}

/// Reports the current user `uid` and group `gid`, and the groups the user
/// is in: its own group alone.
pub fn id(uid: u16, gid: u16) -> (run: Run)
    ensures
        run.exit_code == EXIT_SUCCESS,
        run.texts() == seq![LineView::Text(id_line(uid, gid))],
{
    let mut t = "uid=".to_owned();
    t.append(decimal_string(uid as u64).as_str());
    t.append("(<no name>) gid=");
    t.append(decimal_string(gid as u64).as_str());
    t.append("(<no name>) groups=");
    t.append(decimal_string(gid as u64).as_str());
    t.append("(<no name>)");
    say(t, EXIT_SUCCESS)
}

/// Names the current user `uid`; with no table of names, by its number.
pub fn whoami(uid: u16) -> (run: Run)
    ensures
        run.exit_code == EXIT_SUCCESS,
        run.texts() == seq![LineView::Text("<no name>("@ + decimal(uid as nat) + ")"@)],
{
    say(text3("<no name>(", decimal_string(uid as u64).as_str(), ")"), EXIT_SUCCESS)
}

/// Switches to the user named `user`; with no table of names, no user
/// exists.
pub fn su(user: &str) -> (run: Run)
    ensures
        run.exit_code == EXIT_FAILURE,
        run.texts() == seq![
            LineView::Text("su: user '"@ + user@ + "' does not exist; you might want to reread /etc/passwd"@),
        ],
{
    say(text3("su: user '", user, "' does not exist; you might want to reread /etc/passwd"), EXIT_FAILURE)
}

} // verus!

use eunix::eunix::e5fs::E5FSFilesystem;
use eunix::eunix::fs::{Filesystem, FilesystemType};
use eunix::eunix::kernel::{Errno, Kernel, KernelParams};
use eunix::machine::{MachineDeviceTable, VirtualDeviceType};
use eunix::programs::{self, Line, Run, EXIT_ENOENT, EXIT_FAILURE, EXIT_SUCCESS};

/// A kernel with its devices under `/dev` and a fresh filesystem at `/`.
fn system() -> Kernel {
    let mut table = MachineDeviceTable::new();
    table.insert("/tmp/disk.img", VirtualDeviceType::BlockDevice);
    let mut kernel = Kernel::new(&table, KernelParams { init: String::from("/bin/init") });
    kernel.mount("", "/dev", FilesystemType::devfs, None).unwrap();
    let image = E5FSFilesystem::mkfs(vec![0u8; 1 << 20], 468, 243, 4096, 0.05f32.to_bits()).unwrap().device;
    kernel.mount("/dev/sda", "/", FilesystemType::e5fs, Some(image)).unwrap();
    kernel
}

fn printed(run: &Run) -> Vec<String> {
    run.lines
        .iter()
        .map(|line| match line {
            Line::Text(text) => text.clone(),
            Line::Error(prefix, errno) => format!("{prefix}{errno:?}"),
        })
        .collect()
}

fn names(pathnames: &[&str]) -> Vec<String> {
    pathnames.iter().map(|p| p.to_string()).collect()
}

#[test]
fn programs_write_then_cat_give_back_the_text() {
    let mut kernel = system();
    let made = programs::mkdir(&mut kernel.vfs, "/docs");
    assert_eq!((made.exit_code, printed(&made)), (EXIT_SUCCESS, vec![]));
    let touched = programs::touch(&mut kernel.vfs, "/docs/a.txt");
    assert_eq!((touched.exit_code, printed(&touched)), (EXIT_SUCCESS, vec![]));
    let written = programs::write(&mut kernel.vfs, "/docs/a.txt", "hello");
    assert_eq!((written.exit_code, printed(&written)), (EXIT_SUCCESS, vec![]));
    let read = programs::cat(&mut kernel.vfs, &names(&["/docs/a.txt"]));
    assert_eq!(read.exit_code, EXIT_SUCCESS);
    assert_eq!(printed(&read), vec![String::from("hello")]);
}

#[test]
fn cat_joins_its_files_in_order() {
    let mut kernel = system();
    programs::touch(&mut kernel.vfs, "/a");
    programs::touch(&mut kernel.vfs, "/b");
    programs::write(&mut kernel.vfs, "/a", "hello, ");
    programs::write(&mut kernel.vfs, "/b", "world");
    let read = programs::cat(&mut kernel.vfs, &names(&["/b", "/a", "/b"]));
    assert_eq!(read.exit_code, EXIT_SUCCESS);
    assert_eq!(printed(&read), vec![String::from("worldhello, world")]);
}

#[test]
fn cat_needs_a_file() {
    let mut kernel = system();
    let read = programs::cat(&mut kernel.vfs, &vec![]);
    assert_eq!(read.exit_code, EXIT_FAILURE);
    assert_eq!(printed(&read), vec![String::from("cat: no files to concatenate")]);
}

#[test]
fn cat_of_a_missing_file_fails() {
    let mut kernel = system();
    let read = programs::cat(&mut kernel.vfs, &names(&["/nope"]));
    assert_eq!(read.exit_code, EXIT_ENOENT);
    assert_eq!(printed(&read), vec![String::from("cat: /nope: No such file or directory")]);
}

#[test]
fn cat_refuses_bytes_that_are_not_utf8() {
    let mut kernel = system();
    programs::touch(&mut kernel.vfs, "/raw");
    kernel.vfs.write_file("/raw", &[0xff, 0xfe]).unwrap();
    let read = programs::cat(&mut kernel.vfs, &names(&["/raw"]));
    assert_eq!(read.exit_code, EXIT_FAILURE);
    assert_eq!(
        printed(&read),
        vec![String::from("cat: can't parse utf8: invalid utf-8 sequence of 1 bytes from index 0")]
    );
}

#[test]
fn mkdir_needs_its_parent() {
    let mut kernel = system();
    let made = programs::mkdir(&mut kernel.vfs, "/a/b");
    assert_eq!(made.exit_code, EXIT_ENOENT);
    assert_eq!(printed(&made), vec![String::from("mkdir: cannot create directory: '/a/b': No such file or directory")]);
}

#[test]
fn write_needs_its_file() {
    let mut kernel = system();
    let written = programs::write(&mut kernel.vfs, "/nope", "text");
    assert_eq!(written.exit_code, EXIT_ENOENT);
    assert_eq!(printed(&written), vec![String::from("write: /nope: No such file or directory")]);
}

#[test]
fn touch_needs_the_parent_directory() {
    let mut kernel = system();
    let touched = programs::touch(&mut kernel.vfs, "/x/y");
    assert_eq!(touched.exit_code, EXIT_ENOENT);
    assert_eq!(printed(&touched), vec![String::from("touch: cannot touch '/x/y': No such file or directory")]);
}

#[test]
fn chmod_sets_the_permissions_stat_shows() {
    let mut kernel = system();
    programs::touch(&mut kernel.vfs, "/f");
    let changed = programs::chmod(&mut kernel.vfs, "640", "/f");
    assert_eq!((changed.exit_code, printed(&changed)), (EXIT_SUCCESS, vec![]));
    let shown = programs::stat(&kernel.vfs, "/f");
    assert_eq!(shown.exit_code, EXIT_SUCCESS);
    let lines = printed(&shown);
    assert_eq!(lines.len(), 9);
    assert_eq!(lines[0], "pathname_before_pass_to_bin_stat: /f");
    assert_eq!(lines[1], "  File: /f");
    assert_eq!(lines[2], "  Size: 0\tBlocks: 0\tFile");
    assert_eq!(lines[4], "Access: 640\tUid: (65535/<no name>)\tGid: (65535/<no name>)");
}

#[test]
fn chmod_refuses_a_mode_of_another_shape() {
    let mut kernel = system();
    programs::touch(&mut kernel.vfs, "/f");
    for mode in ["9z", "7777", "64", "abc", "800"] {
        let changed = programs::chmod(&mut kernel.vfs, mode, "/f");
        assert_eq!(changed.exit_code, EXIT_FAILURE);
        assert_eq!(printed(&changed), vec![format!("chmod: invalid mode: '{mode}'")]);
    }
    let missing = programs::chmod(&mut kernel.vfs, "644", "/g");
    assert_eq!(missing.exit_code, EXIT_ENOENT);
    assert_eq!(printed(&missing), vec![String::from("chmod: /g: No such file or directory")]);
}

#[test]
fn stat_of_a_missing_file_says_so() {
    let kernel = system();
    let shown = programs::stat(&kernel.vfs, "/nope");
    assert_eq!(shown.exit_code, EXIT_ENOENT);
    assert_eq!(
        printed(&shown),
        vec![
            String::from("pathname_before_pass_to_bin_stat: /nope"),
            String::from("stat: /nope: No such file or directory"),
        ]
    );
}

#[test]
fn ls_lists_a_directory_by_name() {
    let mut kernel = system();
    programs::mkdir(&mut kernel.vfs, "/docs");
    programs::touch(&mut kernel.vfs, "/docs/b");
    programs::mkdir(&mut kernel.vfs, "/docs/a");
    programs::write(&mut kernel.vfs, "/docs/b", "four");
    let listed = programs::ls(&kernel.vfs, "/docs");
    assert_eq!(listed.exit_code, EXIT_SUCCESS);
    let lines = printed(&listed);
    let shown: Vec<&str> = lines.iter().map(|line| line.rsplit('\t').next().unwrap()).collect();
    assert_eq!(shown, vec![".", "..", "a", "b"]);
    assert!(lines[2].starts_with("d"));
    assert!(lines[3].starts_with("-"));
    let fields: Vec<&str> = lines[3].split('\t').collect();
    assert_eq!(fields[1], "1");
    assert_eq!(fields[2], "65535 65535");
    assert_eq!(fields[3], "4");
}

#[test]
fn ls_refuses_a_relative_path() {
    let kernel = system();
    let listed = programs::ls(&kernel.vfs, "docs");
    assert_eq!(listed.exit_code, EXIT_FAILURE);
    assert_eq!(printed(&listed).len(), 1);
    assert!(printed(&listed)[0].starts_with("ls: invalid path: "));
}

#[test]
fn rm_removes_a_file() {
    let mut kernel = system();
    programs::touch(&mut kernel.vfs, "/f");
    let removed = programs::rm(&mut kernel.vfs, "/f", false);
    assert_eq!((removed.exit_code, printed(&removed)), (EXIT_SUCCESS, vec![]));
    assert!(kernel.vfs.lookup_path("/f").is_err());
    let again = programs::rm(&mut kernel.vfs, "/f", false);
    assert_eq!(again.exit_code, EXIT_ENOENT);
    assert_eq!(printed(&again), vec![String::from("rm: cannot remove '/f': No such file or directory")]);
}

#[test]
fn rm_keeps_a_directory_without_recursion() {
    let mut kernel = system();
    programs::mkdir(&mut kernel.vfs, "/d");
    let removed = programs::rm(&mut kernel.vfs, "/d", false);
    assert_eq!(removed.exit_code, EXIT_FAILURE);
    assert_eq!(printed(&removed), vec![String::from("rm: cannot remove '/d': Is a directory")]);
    assert!(kernel.vfs.lookup_path("/d").is_ok());
}

#[test]
fn rm_with_recursion_empties_a_directory_first() {
    let mut kernel = system();
    programs::mkdir(&mut kernel.vfs, "/d");
    programs::touch(&mut kernel.vfs, "/d/f");
    let removed = programs::rm(&mut kernel.vfs, "/d", true);
    assert_eq!(removed.exit_code, EXIT_SUCCESS);
    assert_eq!(printed(&removed), vec![String::from("rm: descending into '(/d/f)'")]);
    assert!(kernel.vfs.lookup_path("/d/f").is_err());
    assert!(kernel.vfs.lookup_path("/d").is_err());
}

#[test]
fn cp_copies_a_file() {
    let mut kernel = system();
    programs::touch(&mut kernel.vfs, "/a");
    programs::write(&mut kernel.vfs, "/a", "hello");
    let copied = programs::cp(&mut kernel.vfs, "/a", "/b");
    assert_eq!(copied.exit_code, EXIT_SUCCESS);
    assert_eq!(
        printed(&copied),
        vec![String::from("cp: source_pathname is /a source_vinode.mode is 000"), String::from("cp: file case")]
    );
    let read = programs::cat(&mut kernel.vfs, &names(&["/b"]));
    assert_eq!(printed(&read), vec![String::from("hello")]);
}

#[test]
fn cp_copies_a_directory_tree() {
    let mut kernel = system();
    programs::mkdir(&mut kernel.vfs, "/d");
    programs::touch(&mut kernel.vfs, "/d/f");
    programs::write(&mut kernel.vfs, "/d/f", "inside");
    let copied = programs::cp(&mut kernel.vfs, "/d", "/e");
    assert_eq!(copied.exit_code, EXIT_SUCCESS);
    assert_eq!(
        printed(&copied),
        vec![
            String::from("cp: source_pathname is /d source_vinode.mode is 001"),
            String::from("cp: dir case (creating dir: /e)"),
            String::from("cp: descending into '(/d)'"),
            String::from("cp: source_pathname is /d/f source_vinode.mode is 000"),
            String::from("cp: file case"),
        ]
    );
    let read = programs::cat(&mut kernel.vfs, &names(&["/e/f"]));
    assert_eq!(printed(&read), vec![String::from("inside")]);
}

#[test]
fn cp_refuses_a_target_that_exists() {
    let mut kernel = system();
    programs::touch(&mut kernel.vfs, "/a");
    programs::touch(&mut kernel.vfs, "/b");
    let copied = programs::cp(&mut kernel.vfs, "/a", "/b");
    assert_eq!(copied.exit_code, EXIT_FAILURE);
    assert_eq!(printed(&copied), vec![String::from("cp: /b: Already exists")]);
    let missing = programs::cp(&mut kernel.vfs, "/nope", "/c");
    assert_eq!(missing.exit_code, EXIT_ENOENT);
    assert_eq!(printed(&missing), vec![String::from("cp: /nope: No such file or directory")]);
}

#[test]
fn chown_knows_no_names() {
    let mut kernel = system();
    programs::touch(&mut kernel.vfs, "/f");
    let changed = programs::chown(&kernel.vfs, "root:root", "/f");
    assert_eq!(changed.exit_code, EXIT_FAILURE);
    assert_eq!(printed(&changed), vec![String::from("chown: invalid user: 'root:root'")]);
    let missing = programs::chown(&kernel.vfs, "root", "/g");
    assert_eq!(missing.exit_code, EXIT_ENOENT);
    assert_eq!(printed(&missing), vec![String::from("chown: /g: No such file or directory")]);
}

#[test]
fn users_are_shown_by_number() {
    let shown = programs::id(0, 10);
    assert_eq!(shown.exit_code, EXIT_SUCCESS);
    assert_eq!(printed(&shown), vec![String::from("uid=0(<no name>) gid=10(<no name>) groups=10(<no name>)")]);
    let me = programs::whoami(1000);
    assert_eq!(me.exit_code, EXIT_SUCCESS);
    assert_eq!(printed(&me), vec![String::from("<no name>(1000)")]);
    let switched = programs::su("alice");
    assert_eq!(switched.exit_code, EXIT_FAILURE);
    assert_eq!(
        printed(&switched),
        vec![String::from("su: user 'alice' does not exist; you might want to reread /etc/passwd")]
    );
}

#[test]
fn ed_hands_out_the_file_and_saves_what_comes_back() {
    let mut kernel = system();
    programs::touch(&mut kernel.vfs, "/notes");
    programs::write(&mut kernel.vfs, "/notes", "draft");
    let opened = programs::ed_open(&mut kernel.vfs, "/notes");
    assert_eq!(opened.ok(), Some(b"draft".to_vec()));
    let saved = programs::ed_save(&mut kernel.vfs, "/notes", b"final");
    assert_eq!((saved.exit_code, printed(&saved)), (EXIT_SUCCESS, vec![]));
    assert_eq!(programs::ed_open(&mut kernel.vfs, "/notes").ok(), Some(b"final".to_vec()));
    let missing = programs::ed_open(&mut kernel.vfs, "/nowhere").err().unwrap();
    assert_eq!(
        (missing.exit_code, printed(&missing)),
        (EXIT_ENOENT, vec![String::from("ed: /nowhere: No such file or directory")])
    );
    programs::mkdir(&mut kernel.vfs, "/docs");
    let dir = programs::ed_open(&mut kernel.vfs, "/docs").err().unwrap();
    assert_eq!((dir.exit_code, printed(&dir)), (EXIT_FAILURE, vec![String::from("ed: /docs: Is a directory")]));
}

#[test]
fn rm_removes_a_tree_depth_first() {
    let mut kernel = system();
    programs::mkdir(&mut kernel.vfs, "/d");
    programs::mkdir(&mut kernel.vfs, "/d/e");
    programs::touch(&mut kernel.vfs, "/d/e/f");
    programs::touch(&mut kernel.vfs, "/d/g");
    let removed = programs::rm(&mut kernel.vfs, "/d", true);
    assert_eq!(removed.exit_code, EXIT_SUCCESS);
    assert_eq!(
        printed(&removed),
        vec![
            String::from("rm: descending into '(/d/e)'"),
            String::from("rm: descending into '(/d/e/f)'"),
            String::from("rm: descending into '(/d/g)'"),
        ]
    );
    for path in ["/d/e/f", "/d/e", "/d/g", "/d"] {
        assert!(kernel.vfs.lookup_path(path).is_err());
    }
}

#[test]
fn cp_copies_nested_directories() {
    let mut kernel = system();
    programs::mkdir(&mut kernel.vfs, "/d");
    programs::mkdir(&mut kernel.vfs, "/d/e");
    programs::touch(&mut kernel.vfs, "/d/e/f");
    programs::write(&mut kernel.vfs, "/d/e/f", "deep");
    let copied = programs::cp(&mut kernel.vfs, "/d", "/c");
    assert_eq!(copied.exit_code, EXIT_SUCCESS);
    assert_eq!(
        printed(&copied),
        vec![
            String::from("cp: source_pathname is /d source_vinode.mode is 001"),
            String::from("cp: dir case (creating dir: /c)"),
            String::from("cp: descending into '(/d)'"),
            String::from("cp: source_pathname is /d/e source_vinode.mode is 001"),
            String::from("cp: dir case (creating dir: /c/e)"),
            String::from("cp: descending into '(/d/e)'"),
            String::from("cp: source_pathname is /d/e/f source_vinode.mode is 000"),
            String::from("cp: file case"),
        ]
    );
    let read = programs::cat(&mut kernel.vfs, &names(&["/c/e/f"]));
    assert_eq!(printed(&read), vec![String::from("deep")]);
}

#[test]
fn mkfs_reports_a_device_it_cannot_find() {
    let missing = programs::mkfs_device_error("/dev/sdz", Errno::ENOENT(String::from("x")));
    assert_eq!(
        (missing.exit_code, printed(&missing)),
        (EXIT_ENOENT, vec![String::from("mkfs.e5fs: /dev/sdz: No such file or directory")])
    );
    let not_device = programs::mkfs_device_error("/bin/ls", Errno::EINVAL(String::from("x")));
    assert_eq!(
        (not_device.exit_code, printed(&not_device)),
        (EXIT_FAILURE, vec![String::from("mkfs.e5fs: /bin/ls: Not a device")])
    );
    let other = programs::mkfs_device_error("/dev/sda", Errno::EIO(String::from("x")));
    assert_eq!(other.exit_code, EXIT_FAILURE);
}

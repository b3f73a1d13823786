use eunix::eunix::binfs::{BinFilesytem, Binary};
use eunix::eunix::fs::{FileMode, Filesystem, VFS};
use eunix::eunix::kernel::Errno;

#[test]
fn file_mode_works() {
    let expected: u16 = 0b1_000_011_101_110_001;

    let filemode = FileMode::zero()
        .with_free(0b1)
        .with_type(0b011)
        .with_user(0b101)
        .with_group(0b110)
        .with_others(0b001);

    assert_eq!(filemode.get_raw(), expected);
}

#[test]
fn split_path_root() {
    assert_eq!(VFS::split_path("/").unwrap(), (Vec::<String>::new(), String::from("/")));
}

#[test]
fn split_path_only_slashes() {
    assert_eq!(VFS::split_path("//////").unwrap(), (Vec::<String>::new(), String::from("/")));
    assert_eq!(VFS::split_path("/////").unwrap(), (Vec::<String>::new(), String::from("/")));
    assert_eq!(VFS::split_path("////").unwrap(), (Vec::<String>::new(), String::from("/")));
    assert_eq!(VFS::split_path("///").unwrap(), (Vec::<String>::new(), String::from("/")));
    assert_eq!(VFS::split_path("//").unwrap(), (Vec::<String>::new(), String::from("/")));
}

#[test]
fn split_path_valid_1() {
    assert_eq!(VFS::split_path("/test1").unwrap(), (Vec::<String>::new(), String::from("test1")));
}

#[test]
fn split_path_valid_2() {
    assert_eq!(VFS::split_path("/test1/test2").unwrap(), (vec![String::from("test1")], String::from("test2")));
}

#[test]
fn split_path_valid_3() {
    assert_eq!(VFS::split_path("/test1/test2/test3").unwrap(), (vec![String::from("test1"), String::from("test2")], String::from("test3")));
}

#[test]
fn split_path_valid_multiple_slashes() {
    assert_eq!(VFS::split_path("//test1//test2///test3////").unwrap(), (vec![String::from("test1"), String::from("test2")], String::from("test3")));
}

#[test]
fn split_path_valid_onechar_1() {
    assert_eq!(VFS::split_path("/a").unwrap(), (Vec::<String>::new(), String::from("a")));
}

#[test]
fn split_path_valid_onechar_2() {
    assert_eq!(VFS::split_path("/a/b").unwrap(), (vec![String::from("a")], String::from("b")));
}

#[test]
fn split_path_valid_onechar_3() {
    assert_eq!(VFS::split_path("/a/b/c").unwrap(), (vec![String::from("a"), String::from("b")], String::from("c")));
}

#[test]
fn split_path_zero_length() {
    match VFS::split_path("") {
        Err(errno) => assert_eq!(errno, Errno::EINVAL(String::from("e5fs.lookup_path: zero-length path"))),
        _ => unreachable!(),
    };
}

#[test]
fn split_path_invalid_1() {
    match VFS::split_path("test1") {
        Err(errno) => assert_eq!(errno, Errno::EINVAL(String::from("e5fs.lookup_path: path must start with '/'"))),
        _ => unreachable!(),
    };
}

#[test]
fn split_path_invalid_1_trailing() {
    match VFS::split_path("test1/") {
        Err(errno) => assert_eq!(errno, Errno::EINVAL(String::from("e5fs.lookup_path: path must start with '/'"))),
        _ => unreachable!(),
    };
}

#[test]
fn split_path_invalid_2() {
    match VFS::split_path("test1/test2") {
        Err(errno) => assert_eq!(errno, Errno::EINVAL(String::from("e5fs.lookup_path: path must start with '/'"))),
        _ => unreachable!(),
    };
}

#[test]
fn split_path_invalid_3() {
    match VFS::split_path("test1/test2/test3") {
        Err(errno) => assert_eq!(errno, Errno::EINVAL(String::from("e5fs.lookup_path: path must start with '/'"))),
        _ => unreachable!(),
    };
}

#[test]
fn a_written_program_reads_back_as_its_name() {
    let mut binfs = BinFilesytem::new();
    let root = binfs.write_binary("/", Binary(3)).unwrap();
    assert_eq!(root.number, 0);
    assert_eq!(binfs.read_file("/", 0).unwrap(), b"Binary(3)".to_vec());
    assert_eq!(binfs.write_binary("/", Binary(12)).unwrap(), root);
    assert_eq!(binfs.read_file("/", 0).unwrap(), b"Binary(12)".to_vec());
    assert!(binfs.write_binary("/nope", Binary(1)).is_err());
}

#[test]
fn a_directory_reads_as_its_entries() {
    let mut binfs = BinFilesytem::new();
    assert_eq!(
        String::from_utf8(binfs.read_file("/", 0).unwrap()).unwrap(),
        "Directory { entries: {\".\": DirectoryEntry { inode_number: 0, name: \".\" }, \"..\": DirectoryEntry { inode_number: 0, name: \"..\" }} }"
    );
}

#[test]
fn fixedpoint_applies_until_nothing_changes() {
    let squeezed = eunix::util::fixedpoint(|s: &String| s.replace("//", "/"), String::from("a////b"));
    assert_eq!(squeezed, "a/b");
    let calls = std::cell::Cell::new(0u32);
    let same = eunix::util::fixedpoint(
        |n: &u32| {
            calls.set(calls.get() + 1);
            *n
        },
        7u32,
    );
    assert_eq!(same, 7);
    assert!(calls.get() >= 1);
}

#[test]
fn mode_fields_are_set_independently() {
    let mode = FileMode::new(0b0_000_001_111_101_101);
    assert_eq!(mode.with_user(mode.user()), mode);
    assert_eq!(mode.with_user(2).with_user(6), mode.with_user(6));
    assert_eq!(mode.with_user(2).get_raw() & !(0b111 << 6), mode.get_raw() & !(0b111 << 6));
    assert_eq!(mode.with_group(3).with_user(4), mode.with_user(4).with_group(3));
    assert_eq!(mode.with_group(3).with_others(1), mode.with_others(1).with_group(3));
    assert_eq!(mode.with_group(3).with_file_type(2), mode.with_file_type(2).with_group(3));
}

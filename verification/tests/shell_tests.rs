use eunix::eunix::binfs::BinFilesytem;
use eunix::eunix::fs::{parse_filesystem_type, Filesystem, FilesystemType};
use eunix::eunix::kernel::{Errno, Kernel, KernelParams};
use eunix::machine::{parse_device_type, MachineDeviceTable, VirtualDeviceType};
use eunix::programs::Line;
use eunix::shell::{builtin_of, caret_by_uid, change_directory, prompt, resolve_command, Builtin};

fn kernel_with_programs() -> Kernel {
    let mut table = MachineDeviceTable::new();
    table.insert("/tmp/disk.img", VirtualDeviceType::BlockDevice);
    let mut kernel = Kernel::new(&table, KernelParams { init: String::from("/bin/init") });
    kernel.mount("", "/bin", FilesystemType::binfs, None).unwrap();
    kernel.mount("", "/dev", FilesystemType::devfs, None).unwrap();
    kernel
}

#[test]
fn prompt_character_follows_the_user() {
    assert_eq!(caret_by_uid(0), "#");
    assert_eq!(caret_by_uid(1000), "$");
}

#[test]
fn filesystem_and_device_types_are_named() {
    assert_eq!(parse_filesystem_type("devfs"), Some(FilesystemType::devfs));
    assert_eq!(parse_filesystem_type("e5fs"), Some(FilesystemType::e5fs));
    assert_eq!(parse_filesystem_type("binfs"), Some(FilesystemType::binfs));
    assert_eq!(parse_filesystem_type("ext4"), None);
    assert_eq!(parse_device_type("block"), Some(VirtualDeviceType::BlockDevice));
    assert_eq!(parse_device_type("tty"), Some(VirtualDeviceType::TTYDevice));
    assert_eq!(parse_device_type("disk"), None);
}

#[test]
fn commands_are_found_along_the_path() {
    let kernel = kernel_with_programs();
    assert_eq!(resolve_command(&kernel.vfs, "sda", "/usr/bin:/dev:/bin"), "/dev/sda");
    assert_eq!(resolve_command(&kernel.vfs, "ls", "/usr/bin:/bin"), "ls");
    assert_eq!(resolve_command(&kernel.vfs, "/dev/sda", "/dev"), "/dev/sda");
    assert_eq!(resolve_command(&kernel.vfs, "9lives", "/dev"), "9lives");
}

#[test]
fn only_the_filesystem_of_programs_runs_programs() {
    let mut kernel = kernel_with_programs();
    assert_eq!(kernel.exec("/dev/sda"), Err(Errno::EACCES(String::from("exec: filesystem /dev is noexec"))));
    assert!(kernel.exec("/bin/ls").is_err());
    assert!(kernel.exec("/home/user/ls").is_err());
}

#[test]
fn a_new_filesystem_of_programs_has_only_its_root() {
    let mut binfs = BinFilesytem::new();
    assert_eq!(binfs.lookup_path("/").unwrap().number, 0);
    let listing = binfs.read_dir("/").unwrap();
    let mut names: Vec<String> = listing.entries.iter().map(|e| e.name.clone()).collect();
    names.sort();
    assert_eq!(names, vec![String::from("."), String::from("..")]);
    assert!(binfs.lookup_path("/ls").is_err());
    assert_eq!(binfs.create_file("/ls"), Err(Errno::ENOENT(String::from("virtfs: no free inodes left"))));
    assert_eq!(binfs.remove_file("/"), Err(Errno::ENOSYS(String::from("binfs: remove_file is not supported"))));
}

#[test]
fn the_prompt_shows_the_last_exit_code() {
    assert_eq!(prompt(0, 0), "(  0) # ");
    assert_eq!(prompt(127, 1000), "(127) $ ");
    assert_eq!(prompt(12, 0), "( 12) # ");
    assert_eq!(prompt(4096, 7), "(4096) $ ");
}

#[test]
fn cd_moves_only_into_directories() {
    let kernel = kernel_with_programs();
    let (pwd, report) = change_directory(&kernel.vfs, "/", "/bin");
    assert_eq!(pwd, "/bin");
    assert!(report.is_none());
    let (pwd, report) = change_directory(&kernel.vfs, "/bin", "/nowhere");
    assert_eq!(pwd, "/bin");
    match report {
        Some(Line::Text(text)) => assert_eq!(text, "cd: no such file or directory: /nowhere"),
        _ => panic!("cd should report a missing directory"),
    }
    let (pwd, report) = change_directory(&kernel.vfs, "/bin", "/dev/sda");
    assert_eq!(pwd, "/bin");
    match report {
        Some(Line::Text(text)) => assert_eq!(text, "cd: not a directory: /dev/sda"),
        _ => panic!("cd should report a file that is not a directory"),
    }
}

fn words(line: &str) -> Vec<String> {
    line.split(' ').map(String::from).collect()
}

#[test]
fn the_shell_tells_builtins_from_programs() {
    assert!(matches!(builtin_of(&words("echo hello  world")), Builtin::Echo(t) if t == "hello  world"));
    assert!(matches!(builtin_of(&words("echo")), Builtin::Echo(t) if t.is_empty()));
    assert!(matches!(builtin_of(&words("cd /home")), Builtin::ChangeDirectory(p) if p == "/home"));
    assert!(matches!(builtin_of(&words("cd")), Builtin::ChangeDirectory(p) if p == "/"));
    assert!(matches!(builtin_of(&words("pwd")), Builtin::PrintWorkingDirectory));
    assert!(matches!(builtin_of(&words("exit")), Builtin::Exit));
    assert!(matches!(builtin_of(&words("ls -l /")), Builtin::Program(p) if p == "ls"));
}

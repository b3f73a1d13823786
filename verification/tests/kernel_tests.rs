use eunix::eunix::devfs::DeviceFilesystem;
use eunix::eunix::e5fs::E5FSFilesystem;
use eunix::eunix::fs::{Filesystem, FilesystemType, OpenFlags, OpenMode};
use eunix::eunix::kernel::{Errno, Kernel, KernelParams};
use eunix::machine::{MachineDeviceTable, VirtualDeviceType};
use eunix::util::unixtime;

fn kernel() -> Kernel {
    let mut table = MachineDeviceTable::new();
    table.insert("/tmp/disk.img", VirtualDeviceType::BlockDevice);
    table.insert("/tmp/tty", VirtualDeviceType::TTYDevice);
    Kernel::new(&table, KernelParams { init: String::from("/bin/init") })
}

fn image() -> Vec<u8> {
    E5FSFilesystem::mkfs(vec![0u8; 1 << 20], 468, 243, 4096, 0.05f32.to_bits()).unwrap().device
}

fn read_flags() -> OpenFlags {
    OpenFlags::new(OpenMode::Read, false, false)
}

#[test]
fn kernel_starts_with_its_first_process() {
    let kernel = kernel();
    assert_eq!(kernel.current_process_id(), 1);
    assert_eq!(kernel.processes().len(), 1);
    let init = &kernel.processes()[&1];
    assert_eq!(init.pid, 1);
    assert_eq!(init.ppid, 0);
    assert_eq!(init.uid, 0);
    assert_eq!(init.binary, "/bin/init");
    assert!(init.file_descriptors.is_empty());
    assert!(kernel.vfs().mount_points.is_empty());
}

#[test]
fn mount_then_umount_restores_the_mount_points() {
    let mut kernel = kernel();
    kernel.mount("", "/bin", FilesystemType::binfs, None).unwrap();
    let before: Vec<String> = kernel.vfs().mount_points.iter().map(|m| m.target.clone()).collect();
    kernel.mount("", "/dev", FilesystemType::devfs, None).unwrap();
    assert_eq!(kernel.vfs().mount_points.len(), 2);
    kernel.umount("/dev").unwrap();
    let after: Vec<String> = kernel.vfs().mount_points.iter().map(|m| m.target.clone()).collect();
    assert_eq!(before, after);
}

#[test]
fn mounting_a_taken_target_is_refused() {
    let mut kernel = kernel();
    kernel.mount("", "/dev", FilesystemType::devfs, None).unwrap();
    assert_eq!(
        kernel.mount("", "/dev", FilesystemType::binfs, None),
        Err(Errno::EINVAL(String::from("mount point already taken")))
    );
    assert_eq!(kernel.vfs().mount_points.len(), 1);
}

#[test]
fn umounting_what_is_not_mounted_fails() {
    let mut kernel = kernel();
    assert_eq!(kernel.umount("/mnt"), Err(Errno::ENOENT(String::from("no such mount point"))));
    kernel.mount("", "/mnt", FilesystemType::binfs, None).unwrap();
    assert_eq!(kernel.umount("/mnt"), Ok(()));
    assert_eq!(kernel.umount("/mnt"), Err(Errno::ENOENT(String::from("no such mount point"))));
}

#[test]
fn devices_are_named_by_kind_and_order() {
    let mut kernel = kernel();
    kernel.mount("", "/dev", FilesystemType::devfs, None).unwrap();
    kernel.mount("", "/bin", FilesystemType::binfs, None).unwrap();
    assert_eq!(kernel.device_realpath("/dev/sda"), Ok(String::from("/tmp/disk.img")));
    assert_eq!(kernel.device_realpath("/dev/tty1"), Ok(String::from("/tmp/tty")));
    assert_eq!(
        kernel.device_realpath("/dev/sdb"),
        Err(Errno::ENOENT(String::from("no device corresponds to that name")))
    );
    assert_eq!(kernel.device_realpath("/bin/ls"), Err(Errno::EINVAL(String::from("source is not a device"))));
    assert_eq!(
        kernel.device_realpath("/home/user"),
        Err(Errno::ENOENT(String::from("VFS::lookup_path: no such file or directory")))
    );
}

#[test]
fn device_listing_holds_every_device() {
    let kernel = kernel();
    let devfs = DeviceFilesystem::new(kernel.devices());
    let listing = devfs.read_dir("/").unwrap();
    let mut names: Vec<String> = listing.entries.iter().map(|e| e.name.clone()).collect();
    names.sort();
    assert_eq!(names, vec![String::from("sda"), String::from("tty1")]);
    assert_eq!(devfs.lookup_path("/sda").unwrap().number, 1);
    assert_eq!(devfs.read_dir("/sda"), Err(Errno::ENOENT(String::from("no such file or directory"))));
}

#[test]
fn the_device_directory_is_not_listed_through_its_mount_point() {
    let mut kernel = kernel();
    kernel.mount("", "/dev", FilesystemType::devfs, None).unwrap();
    assert_eq!(kernel.vfs().read_dir("/dev"), Err(Errno::ENOENT(String::from("no such file or directory 2"))));
}

#[test]
fn mounting_a_block_filesystem_needs_its_image() {
    let mut kernel = kernel();
    kernel.mount("", "/dev", FilesystemType::devfs, None).unwrap();
    assert!(matches!(kernel.mount("/dev/sda", "/mnt", FilesystemType::e5fs, None), Err(Errno::EIO(_))));
    assert_eq!(kernel.vfs().mount_points.len(), 1);
}

#[test]
fn a_mounted_block_filesystem_lists_its_root() {
    let mut kernel = kernel();
    kernel.mount("", "/dev", FilesystemType::devfs, None).unwrap();
    kernel.mount("/dev/sda", "/mnt", FilesystemType::e5fs, Some(image())).unwrap();
    let listing = kernel.vfs().read_dir("/mnt").unwrap();
    let mut names: Vec<String> = listing.entries.iter().map(|e| e.name.clone()).collect();
    names.sort();
    assert_eq!(names, vec![String::from("."), String::from("..")]);
}

#[test]
fn open_then_close_leaves_the_descriptors_as_they_were() {
    let mut kernel = kernel();
    kernel.mount("", "/dev", FilesystemType::devfs, None).unwrap();
    let fd = kernel.open("/dev/sda", read_flags()).unwrap();
    assert_eq!(fd, 0);
    assert_eq!(kernel.processes()[&1].file_descriptors.len(), 1);
    assert_eq!(kernel.close(fd), Ok(()));
    assert!(kernel.processes()[&1].file_descriptors.is_empty());
}

#[test]
fn opening_a_missing_file_fails() {
    let mut kernel = kernel();
    assert!(kernel.open("/nowhere", read_flags()).is_err());
    assert!(kernel.processes()[&1].file_descriptors.is_empty());
}

#[test]
fn the_clock_reads_seconds_since_the_epoch() {
    assert!(unixtime() > 1_500_000_000);
}

#[test]
fn a_path_goes_to_the_deepest_mount_point() {
    let mut kernel = kernel();
    kernel.mount("", "/dev", FilesystemType::devfs, None).unwrap();
    kernel.mount("/dev/sda", "/", FilesystemType::e5fs, Some(image())).unwrap();
    assert_eq!(kernel.vfs().match_mount_point("/dev/sda"), Ok((String::from("/dev"), String::from("//sda"))));
    assert_eq!(kernel.vfs().match_mount_point("/home"), Ok((String::from("/"), String::from("/home"))));
    assert!(kernel.vfs().lookup_path("/dev/sda").is_ok());
    assert!(kernel.vfs().lookup_path("/").is_ok());
}

#[test]
fn a_block_filesystem_is_mounted_only_from_a_device() {
    let mut kernel = kernel();
    kernel.mount("", "/dev", FilesystemType::devfs, None).unwrap();
    kernel.mount("", "/bin", FilesystemType::binfs, None).unwrap();
    assert_eq!(
        kernel.mount("/bin/sda", "/mnt", FilesystemType::e5fs, Some(image())),
        Err(Errno::EINVAL(String::from("source is not a device")))
    );
    assert!(kernel.mount("/dev/nothing", "/mnt", FilesystemType::e5fs, Some(image())).is_err());
    assert!(kernel.mount("/dev/sda", "/mnt", FilesystemType::e5fs, Some(vec![0u8; 16])).is_err());
    assert_eq!(kernel.mount("/dev/sda", "/mnt", FilesystemType::e5fs, Some(image())), Ok(()));
}

#[test]
fn a_device_name_gives_the_inode_its_listing_numbers() {
    let mut table = MachineDeviceTable::new();
    table.insert("/tmp/tty", VirtualDeviceType::TTYDevice);
    table.insert("/tmp/a.img", VirtualDeviceType::BlockDevice);
    table.insert("/tmp/b.img", VirtualDeviceType::BlockDevice);
    let kernel = Kernel::new(&table, KernelParams { init: String::from("/bin/init") });
    let devfs = DeviceFilesystem::new(kernel.devices());
    let listing = devfs.read_dir("/").unwrap();
    let names: Vec<String> = listing.entries.iter().map(|e| e.name.clone()).collect();
    assert_eq!(names, vec![String::from("sda"), String::from("sdb"), String::from("tty1")]);
    for entry in listing.entries.iter() {
        let path = format!("/{}", entry.name);
        assert_eq!(devfs.lookup_path(&path).unwrap().number, entry.inode_number);
    }
    assert_eq!(devfs.lookup_path("/tty1").unwrap().number, 3);
    assert_eq!(devfs.lookup_path("/").unwrap().number, 0);
}

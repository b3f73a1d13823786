use eunix::eunix::e5fs::{Block, Directory, DirectoryEntry, E5FSFilesystem, INode, Superblock};
use eunix::eunix::fs::{AddressSize, FileMode, FileModeType, Filesystem, Id, VINode, NOBODY, NO_ADDRESS};
use eunix::util::unixtime;

const MEGABYTE: usize = 1 << 20;

/// A zeroed device of `size` bytes with a fresh filesystem on it, its inode
/// table taking `inode_table_percentage` of the device.
fn mkfs(size: usize, inode_table_percentage: f32, block_data_size: AddressSize) -> E5FSFilesystem {
    let device = vec![0u8; size];
    let device_size = size as AddressSize;
    let inodes_count = ((device_size as f32 * inode_table_percentage) / 112f32) as AddressSize;
    let blocks_count =
        ((device_size as f32 * (1f32 - inode_table_percentage)) / block_data_size as f32) as AddressSize;
    E5FSFilesystem::mkfs(
        device,
        inodes_count,
        blocks_count,
        block_data_size,
        inode_table_percentage.to_bits(),
    )
    .unwrap()
}

fn dir_type() -> u8 {
    FileModeType::Dir.bits()
}

#[test]
fn write_superblock_works() {
    let mut e5fs = mkfs(MEGABYTE, 0.05, 4096);

    let superblock = Superblock::new(&e5fs.fs_info);
    e5fs.write_superblock(&superblock).unwrap();

    let superblock_from_file = E5FSFilesystem::read_superblock(&e5fs.device).unwrap();

    assert_eq!(superblock_from_file, superblock);
}

#[test]
fn write_inode_works() {
    let mut e5fs = mkfs(MEGABYTE, 0.05, 4096);

    let inode_indices = 0..e5fs.fs_info.blocks_count;
    let inodes = inode_indices.clone().fold(Vec::new(), |mut vec, i| {
        vec.push(INode {
            mode: FileMode::new(FileMode::zero().get_raw() + FileMode::new(1).get_raw()),
            links_count: i,
            uid: (i as Id % NOBODY),
            gid: (i as Id % NOBODY) + 1,
            file_size: i * 1024,
            atime: unixtime(),
            mtime: unixtime(),
            ctime: unixtime(),
            btime: unixtime(),
            direct_block_numbers: [i % 5; 12],
            indirect_block_numbers: [i % 6; 3],
            number: i,
        });

        vec
    });

    for (inode, inode_number) in inodes.iter().zip(inode_indices.clone()) {
        e5fs.write_inode(inode, inode_number).unwrap();
    }

    for inode in inodes.iter() {
        let inode_from_file = e5fs.read_inode(inode.number);

        assert_eq!(*inode, inode_from_file);
    }
}

#[test]
fn write_block_works() {
    let mut e5fs = mkfs(MEGABYTE, 0.05, 4096);

    let block_indices = 0..e5fs.fs_info.blocks_count;
    let blocks = block_indices.clone().fold(Vec::new(), |mut vec, i| {
        vec.push(Block { data: vec![(i % 255) as u8; e5fs.fs_info.block_data_size as usize] });

        vec
    });

    for (block, block_number) in blocks.iter().zip(block_indices.clone()) {
        e5fs.write_block(block, block_number).unwrap();
    }

    for (block, block_number) in blocks.iter().zip(block_indices.clone()) {
        let block_from_file = e5fs.read_block(block_number);

        assert_eq!(*block, block_from_file, "block {block_number} should be correctly read");
    }
}

#[test]
fn write_fbl_works() {
    let mut e5fs = mkfs(MEGABYTE, 0.05, 4096);

    e5fs.write_fbl();

    let fbl = e5fs.generate_fbl();

    let fbl_from_file: Vec<AddressSize> = (e5fs.fs_info.first_fbl_block_number..e5fs.fs_info.blocks_count)
        .flat_map(|fbl_block_number| E5FSFilesystem::parse_block_numbers_from_block(&e5fs.read_block(fbl_block_number)))
        .collect();

    assert_eq!(fbl, fbl_from_file, "fbl from file should match expected");
}

#[test]
fn read_block_numbers_from_block_works() {
    let e5fs = mkfs(MEGABYTE, 0.05, 4096);

    let block_numbers_per_free_blocks_chunk =
        e5fs.fs_info.block_data_size / std::mem::size_of::<AddressSize>() as AddressSize;

    let block_numbers: Vec<AddressSize> = (0..block_numbers_per_free_blocks_chunk).collect();

    let block = Block { data: block_numbers.iter().flat_map(|x| x.to_le_bytes()).collect() };

    let block_numbers_from_block = E5FSFilesystem::parse_block_numbers_from_block(&block);

    assert_eq!(block_numbers_from_block, block_numbers);
}

#[test]
#[should_panic]
fn allocate_file_works() {
    let mut e5fs = mkfs(MEGABYTE, 0.05, 4096);

    let range = 0..100;

    let inodes: Vec<INode> = range.clone().map(|_| e5fs.allocate_file().unwrap().1).collect();

    for (inode, i) in inodes.iter().zip(1..) {
        assert_eq!(inode.number, i as AddressSize, "file {} inode should be of inode_number {}, was {}", i, i, inode.number);
    }

    let inodes_read: Vec<INode> = range.clone().map(|n| e5fs.read_inode(n + 1)).collect();
    assert_eq!(inodes, inodes_read, "allocated and read inodes should be equal");
}

#[test]
fn write_and_read_directory_works() {
    let mut e5fs = mkfs(MEGABYTE, 0.05, 4096);

    let (file1_inode_num, _) = e5fs.allocate_file().unwrap();
    e5fs.write_data_i("hello world1".as_bytes().to_owned(), file1_inode_num, false).unwrap();
    let (file2_inode_num, _) = e5fs.allocate_file().unwrap();
    e5fs.write_data_i("hello world2".as_bytes().to_owned(), file2_inode_num, false).unwrap();

    let root_inode_number = e5fs.fs_info.root_inode_number;
    let expected_dir = Directory {
        entries_count: 2,
        entries: vec![
            DirectoryEntry::new(file1_inode_num, "hello-world1.txt").unwrap(),
            DirectoryEntry::new(file2_inode_num, "hello-world2.txt").unwrap(),
        ],
    };
    e5fs.write_dir_i(&expected_dir, root_inode_number).unwrap();

    let dir_from_disk = e5fs.read_as_dir_i(root_inode_number).unwrap();

    assert_eq!(dir_from_disk, expected_dir);
}

#[test]
fn find_flb_block_works() {
    let e5fs = mkfs(MEGABYTE, 0.05, 4096);

    let block_number = e5fs.find_block_in_fbl(|block_number| block_number != NO_ADDRESS).unwrap();

    assert_eq!(1, block_number);
}

#[test]
fn lookup_path_works_simple() {
    let mut e5fs = mkfs(10 * MEGABYTE, 0.05, 4096);
    let root_inode = e5fs.read_inode(0);
    let mnt_inode = e5fs.allocate_file().unwrap().1;
    let bin_inode = e5fs.allocate_file().unwrap().1;
    let home_inode = e5fs.allocate_file().unwrap().1;
    e5fs.write_mode_i(home_inode.number, home_inode.mode.with_file_type(dir_type())).unwrap();
    e5fs.write_mode_i(bin_inode.number, bin_inode.mode.with_file_type(dir_type())).unwrap();
    e5fs.write_mode_i(mnt_inode.number, mnt_inode.mode.with_file_type(dir_type())).unwrap();
    let mnt_inode = e5fs.read_inode(mnt_inode.number);
    let bin_inode = e5fs.read_inode(bin_inode.number);
    let home_inode = e5fs.read_inode(home_inode.number);
    let expected_root_directory = {
        let mut dir = Directory::new();
        dir.insert(root_inode.number, ".").unwrap();
        dir.insert(root_inode.number, "..").unwrap();
        dir.insert(mnt_inode.number, "mnt").unwrap();
        dir.insert(bin_inode.number, "bin").unwrap();
        dir.insert(home_inode.number, "home").unwrap();
        dir
    };
    e5fs.write_dir_i(&expected_root_directory, root_inode.number).unwrap();

    let read_root_directory = e5fs.read_as_dir_i(root_inode.number).unwrap();
    assert_eq!(expected_root_directory, read_root_directory, "root directory should contain all created files");

    let read_root_vinode = e5fs.lookup_path("/").unwrap();
    let read_mnt_vinode = e5fs.lookup_path("/mnt").unwrap();
    let read_bin_vinode = e5fs.lookup_path("/bin").unwrap();
    let read_home_vinode = e5fs.lookup_path("/home").unwrap();

    assert_eq!(read_root_vinode.number, root_inode.number, "read_mnt_vinode should be equal to mnt_vinode");
    assert_eq!(read_mnt_vinode.number, 1, "read_mnt_vinode should be equal to mnt_vinode");
    assert_eq!(read_bin_vinode.number, 2, "read_bin_vinode should be equal to bin_vinode");
    assert_eq!(read_home_vinode.number, 3, "read_home_vinode should be equal to home_vinode");

    let nrv_inode = {
        let nrv_inode = e5fs.allocate_file().unwrap().1;
        e5fs.write_mode_i(nrv_inode.number, nrv_inode.mode.with_file_type(dir_type())).unwrap();
        e5fs.read_inode(nrv_inode.number)
    };
    let bashrc_inode = e5fs.allocate_file().unwrap().1;

    let expected_home_directory = {
        let mut dir = Directory::new();
        dir.insert(home_inode.number, ".").unwrap();
        dir.insert(root_inode.number, "..").unwrap();
        dir.insert(nrv_inode.number, "nrv").unwrap();
        dir
    };
    e5fs.write_dir_i(&expected_home_directory, home_inode.number).unwrap();

    let read_home_directory = e5fs.read_as_dir_i(home_inode.number).unwrap();
    assert_eq!(expected_home_directory, read_home_directory, "home directory should contain all created files");

    let expected_nrv_directory = {
        let mut dir = Directory::new();
        dir.insert(nrv_inode.number, ".").unwrap();
        dir.insert(home_inode.number, "..").unwrap();
        dir.insert(bashrc_inode.number, ".bashrc").unwrap();
        dir
    };
    e5fs.write_dir_i(&expected_nrv_directory, nrv_inode.number).unwrap();

    let read_nrv_directory = e5fs.read_as_dir_i(nrv_inode.number).unwrap();
    assert_eq!(expected_nrv_directory, read_nrv_directory, "nrv directory should contain all created files");

    let _first_fbl_block =
        E5FSFilesystem::parse_block_numbers_from_block(&e5fs.read_block(e5fs.fs_info.first_fbl_block_number));
    let read_nrv_vinode = e5fs.lookup_path("/home/nrv").unwrap();
    let read_bashrc_vinode = e5fs.lookup_path("/home/nrv/.bashrc").unwrap();

    assert_eq!(read_nrv_vinode.number, nrv_inode.number, "read_nrv_vinode should be equal to nrv_inode");
    assert_eq!(read_bashrc_vinode.number, bashrc_inode.number, "read_bashrc_vinode should be equal to bashrc_vinode");
}

#[test]
fn create_file_works() {
    let e5fs = mkfs(MEGABYTE, 0.05, 4096);
    let mut e5fs = E5FSFilesystem::from(e5fs.device).unwrap();

    let vinode = e5fs.create_file("/test1").unwrap();
    let vinode_from_disk: VINode = eunix::eunix::e5fs::vinode_from(&e5fs.read_inode(1));

    assert_eq!(vinode_from_disk, vinode);
}

#[test]
fn create_nested_file_works() {
    let mut e5fs = mkfs(MEGABYTE, 0.05, 4096);

    let vinode1 = e5fs.create_file("/test12").unwrap();

    let mut inode1 = e5fs.read_inode(vinode1.number);
    inode1.mode = inode1.mode.with_file_type(dir_type());
    e5fs.write_inode(&inode1, inode1.number).unwrap();

    let vinode2 = e5fs.create_file("/test12/test2").unwrap();

    assert_eq!(vinode2.number, 2);
}

#[test]
fn a_written_file_reads_back() {
    let mut e5fs = mkfs(MEGABYTE, 0.05, 4096);
    e5fs.create_file("/notes.txt").unwrap();
    let data: Vec<u8> = (0..5000u32).map(|i| (i % 251) as u8).collect();
    let vinode = e5fs.write_file("/notes.txt", &data).unwrap();
    assert_eq!(vinode.file_size, 5000);
    assert_eq!(e5fs.read_file("/notes.txt", 0).unwrap(), data);
    assert_eq!(e5fs.stat("/notes.txt").unwrap().size, 5000);
}

#[test]
fn a_made_filesystem_has_a_root_directory() {
    let e5fs = mkfs(MEGABYTE, 0.05, 4096);
    let root = e5fs.read_inode(0);
    assert_eq!(root.mode.file_type(), dir_type());
    assert_eq!(root.links_count, 2);
    let listing = e5fs.read_dir("/").unwrap();
    let mut names: Vec<String> = listing.entries.iter().map(|e| e.name.clone()).collect();
    names.sort();
    assert_eq!(names, vec![String::from("."), String::from("..")]);
    assert!(listing.entries.iter().all(|e| e.inode_number == 0));
}

#[test]
fn a_small_device_grows_to_hold_the_filesystem() {
    let e5fs = E5FSFilesystem::mkfs(vec![0u8; 1000], 4, 4, 512, 0).unwrap();
    assert!(e5fs.device.len() >= e5fs.fs_info.filesystem_size as usize);
    assert_eq!(e5fs.fs_info.device_size, 1000);
}

#[test]
fn empty_and_truncated_directory_data() {
    let e5fs = mkfs(MEGABYTE, 0.05, 4096);
    let empty = eunix::eunix::e5fs::parse_directory(&e5fs.fs_info, Vec::new()).unwrap();
    assert_eq!(empty, Directory::new());
    assert_eq!(
        eunix::eunix::e5fs::parse_directory(&e5fs.fs_info, vec![1, 0]),
        Err(eunix::eunix::kernel::Errno::EILSEQ(String::from("can't parse entries_count from dir")))
    );
}

#[test]
fn directories_are_made_and_files_removed() {
    let mut e5fs = mkfs(MEGABYTE, 0.05, 4096);
    let dir = e5fs.create_dir("/docs").unwrap();
    let listing = e5fs.read_dir("/docs").unwrap();
    let mut names: Vec<String> = listing.entries.iter().map(|e| e.name.clone()).collect();
    names.sort();
    assert_eq!(names, vec![String::from("."), String::from("..")]);
    assert_eq!(e5fs.lookup_path("/docs").unwrap().number, dir.number);
    assert_eq!(e5fs.lookup_path("/docs").unwrap().mode.file_type(), dir_type());

    e5fs.create_file("/docs/a.txt").unwrap();
    assert!(matches!(e5fs.create_file("/docs/a.txt"), Err(eunix::eunix::kernel::Errno::EINVAL(_))));
    e5fs.remove_file("/docs/a.txt").unwrap();
    assert!(e5fs.lookup_path("/docs/a.txt").is_err());
    assert_eq!(
        e5fs.remove_file("/docs/a.txt"),
        Err(eunix::eunix::kernel::Errno::ENOENT(String::from("e5fs::remove_file: no such file or directory 'a.txt'")))
    );
    assert_eq!(
        e5fs.remove_file("/docs/."),
        Err(eunix::eunix::kernel::Errno::EINVAL(String::from(
            "e5fs::remove_file: you cannot remove self or parent-reference"
        )))
    );
}

#[test]
fn reading_a_directory_as_a_file_fails() {
    let mut e5fs = mkfs(MEGABYTE, 0.05, 4096);
    assert_eq!(
        e5fs.read_file("/", 0),
        Err(eunix::eunix::kernel::Errno::EISDIR(String::from("read_file: /: is a directory")))
    );
    assert_eq!(
        e5fs.lookup_path("relative"),
        Err(eunix::eunix::kernel::Errno::EINVAL(String::from("e5fs.lookup_path: path must start with '/'")))
    );
}

#[test]
fn file_mode_fields_read_back() {
    let mode = FileMode::zero().with_type(FileModeType::Char.bits()).with_user(0o6).with_group(0o4).with_others(0o4);
    assert_eq!(mode.file_type(), 4);
    assert_eq!(mode.user(), 6);
    assert_eq!(mode.group(), 4);
    assert_eq!(mode.others(), 4);
    assert_eq!(mode.free(), 0);
    assert_eq!(mode.with_free(1).free(), 1);
    assert_eq!(mode.with_free(1).file_type(), 4);
}

#[test]
fn a_created_file_is_listed_by_its_parent_and_a_removed_one_is_not() {
    let mut e5fs = mkfs(MEGABYTE, 0.05, 4096);
    let a = e5fs.create_file("/a").unwrap();
    let b = e5fs.create_file("/b").unwrap();
    let listing = e5fs.read_dir("/").unwrap();
    let entries: Vec<(String, AddressSize)> =
        listing.entries.iter().map(|e| (e.name.clone(), e.inode_number)).collect();
    assert!(entries.contains(&(String::from("a"), a.number)));
    assert!(entries.contains(&(String::from("b"), b.number)));
    e5fs.remove_file("/a").unwrap();
    let listing = e5fs.read_dir("/").unwrap();
    let names: Vec<String> = listing.entries.iter().map(|e| e.name.clone()).collect();
    assert!(!names.contains(&String::from("a")));
    assert!(names.contains(&String::from("b")));
    assert!(names.contains(&String::from(".")));
    assert!(names.contains(&String::from("..")));
}

#[test]
fn a_made_directory_lists_itself_and_its_parent() {
    let mut e5fs = mkfs(MEGABYTE, 0.05, 4096);
    let docs = e5fs.create_dir("/docs").unwrap();
    let inner = e5fs.create_dir("/docs/inner").unwrap();
    let listing = e5fs.read_dir("/docs/inner").unwrap();
    let mut entries: Vec<(String, AddressSize)> =
        listing.entries.iter().map(|e| (e.name.clone(), e.inode_number)).collect();
    entries.sort();
    assert_eq!(entries, vec![(String::from("."), inner.number), (String::from(".."), docs.number)]);
}

#[test]
fn allocation_needs_a_free_inode() {
    let mut e5fs = mkfs(MEGABYTE, 0.05, 4096);
    let mut allocated = 0;
    while e5fs.allocate_file().is_ok() {
        allocated += 1;
        assert!(allocated < 10_000);
    }
    assert!(allocated > 0);
    assert!(e5fs.allocate_file().is_err());
}

#[test]
fn mkfs_leaves_its_superblock_at_the_start_of_the_device() {
    let e5fs = mkfs(MEGABYTE, 0.05, 4096);
    let stored = E5FSFilesystem::read_superblock(&e5fs.device).unwrap();
    assert_eq!(stored, e5fs.superblock);
    assert_eq!(stored.inodes_count, e5fs.fs_info.inodes_count);
    assert_eq!(stored.blocks_count, e5fs.fs_info.blocks_count);
    assert_eq!(stored.block_size, e5fs.fs_info.block_size);
    assert_eq!(stored.free_inodes_count, e5fs.fs_info.inodes_count);
    assert_eq!(stored.free_inode_numbers[0], NO_ADDRESS);
    assert_eq!(stored.free_inode_numbers[1], 1);
}

#[test]
fn removing_the_last_link_gives_the_blocks_back() {
    let mut e5fs = mkfs(MEGABYTE, 0.05, 4096);
    let a = e5fs.create_file("/a").unwrap();
    let block = e5fs.read_inode(a.number).direct_block_numbers[0];
    assert_ne!(e5fs.find_block_in_fbl(|n| n == block), Ok(block));
    e5fs.remove_file("/a").unwrap();
    assert_eq!(e5fs.find_block_in_fbl(|n| n == block), Ok(block));
    let freed = e5fs.read_inode(a.number);
    assert_eq!(freed.links_count, 0);
    assert_eq!(freed.mode.free(), 1);
}

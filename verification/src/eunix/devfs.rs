//! The device filesystem: a single directory that lists the machine's
//! devices, block devices as `sda`, `sdb`, ... and terminals as `tty1`,
//! `tty2`, ...
use vstd::prelude::*;
use crate::text::{Named, names_of, sorted_names, lookup_named, find_named, upsert_named, has_name, lemma_lookup_named_some, lemma_lookup_named_at, decimal, decimal_string, char_from_u32, char_to_string, str_eq, is_char_code};
use crate::eunix::fs::{Filesystem, AddressSize, Id, FileMode, FileStat, VINode, VDirectory, VDirectoryEntry, path_error, spec_split_path, split_path, spliced, lemma_with_type_reads_back};
use crate::eunix::kernel::{Errno, Times, UnixtimeSize, KernelDeviceTable, KernelDeviceView, device_views};
use crate::machine::VirtualDeviceType;
use crate::util::unixtime;

verus! {

/// A directory record as a device filesystem would store it: the inode it
/// names, its name, and where the next record starts.
#[derive(Debug)]
pub struct DirectoryEntry<'a> {
    pub inode_address: AddressSize,
    pub name: &'a str,
    pub next_dir_entry_offset: AddressSize,
}

/// An inode of the device filesystem.
#[derive(Debug, Default, Clone, Copy, PartialEq, Eq)]
pub struct INode {
    pub mode: FileMode,
    pub links_count: AddressSize,
    pub uid: Id,
    pub gid: Id,
    pub file_size: AddressSize,
    pub atime: UnixtimeSize,
    pub mtime: UnixtimeSize,
    pub ctime: UnixtimeSize,
    pub btime: UnixtimeSize,
    pub number: AddressSize,
}

/// How the filesystem layer sees a devfs inode.
pub open spec fn dev_vinode_of(inode: INode) -> VINode {
    VINode {
        mode: inode.mode,
        links_count: inode.links_count,
        uid: inode.uid,
        gid: inode.gid,
        file_size: inode.file_size,
        atime: inode.atime,
        mtime: inode.mtime,
        ctime: inode.ctime,
        btime: inode.btime,
        number: inode.number,
    }
}

fn vinode_from(inode: &INode) -> (v: VINode)
    ensures
        v == dev_vinode_of(*inode),
{
    VINode {
        mode: inode.mode,
        links_count: inode.links_count,
        uid: inode.uid,
        gid: inode.gid,
        file_size: inode.file_size,
        atime: inode.atime,
        mtime: inode.mtime,
        ctime: inode.ctime,
        btime: inode.btime,
        number: inode.number,
    }
}

/// A device's name in the directory, with the host path of its file.
#[derive(Debug)]
pub struct DeviceName {
    pub name: String,
    pub realpath: String,
}

impl Named for DeviceName {
    open spec fn spec_name(&self) -> Seq<char> {
        self.name@
    }

    fn name_str(&self) -> (s: &str) {
        self.name.as_str()
    }
}

/// The number of devices of type `t` among the first `k`.
pub open spec fn type_count(devices: Seq<KernelDeviceView>, k: int, t: VirtualDeviceType) -> nat
    decreases k,
{
    if k <= 0 {
        0
    } else {
        type_count(devices, k - 1, t) + if devices[k - 1].1 == t { 1nat } else { 0nat }
    }
}

/// The name of device `k`: `sd` and the letter of its place among the
/// block devices, or `tty` and the number of its place among the
/// terminals, counted from one.
pub open spec fn device_name(devices: Seq<KernelDeviceView>, k: int) -> Seq<char> {
    if devices[k].1 == VirtualDeviceType::BlockDevice {
        "sd"@ + seq![(96 + type_count(devices, k + 1, VirtualDeviceType::BlockDevice)) as char]
    } else {
        "tty"@ + decimal(type_count(devices, k + 1, VirtualDeviceType::TTYDevice))
    }
}

/// The names of the first `k` devices, each with the host path of its file.
pub open spec fn device_names_map(devices: Seq<KernelDeviceView>, k: int) -> Map<Seq<char>, Seq<char>>
    decreases k,
{
    if k <= 0 {
        Map::empty()
    } else {
        device_names_map(devices, k - 1).insert(device_name(devices, k - 1), devices[k - 1].0)
    }
}

/// Each name with the host path its record holds.
pub open spec fn names_map(names: Seq<DeviceName>) -> Map<Seq<char>, Seq<char>> {
    Map::new(
        |n: Seq<char>| lookup_named(names, n) is Some,
        |n: Seq<char>| lookup_named(names, n).unwrap().realpath@,
    )
}

/// The paths that name the devfs root directory.
pub open spec fn is_root_path(pathname: Seq<char>) -> bool {
    pathname == "/"@ || pathname == "/."@ || pathname == "/.."@
}

/// The device filesystem over the kernel's device table.
pub struct DeviceFilesystem {
    pub device_table: KernelDeviceTable,
    pub inodes: Vec<INode>,
}

impl DeviceFilesystem {
    /// The devices, as plain values.
    pub open spec fn devices(&self) -> Seq<KernelDeviceView> {
        device_views(self.device_table.devices@)
    }

    /// The names of all devices, with their host paths.
    pub open spec fn spec_device_names(&self) -> Map<Seq<char>, Seq<char>> {
        device_names_map(self.devices(), self.devices().len() as int)
    }

    /// The device filesystem for `device_table`: a root directory inode,
    /// then one inode per device, of block or character type.
    pub fn new(device_table: &KernelDeviceTable) -> (devfs: Self)
        requires
            device_table.wf(),
            device_table.devices@.len() < 0xFFFF_FFFF,
            96 + type_count(
                device_views(device_table.devices@),
                device_table.devices@.len() as int,
                VirtualDeviceType::BlockDevice,
            ) < 0xD800,
        ensures
            devfs.fs_wf(),
            devfs.devices() == device_views(device_table.devices@),
            devfs.inodes@.len() == device_table.devices@.len() + 1,
            devfs.inodes@[0].mode == FileMode(0b0_000_001_111_101_101),
            devfs.inodes@[0].links_count == 2,
            devfs.inodes@[0].number == 0,
            forall|k: int| 0 < k < devfs.inodes@.len() ==> {
                let inode = #[trigger] devfs.inodes@[k];
                &&& inode.number == k
                &&& inode.links_count == 1
                &&& inode.mode.0 == spliced(0b0_000_011_110_000_000, 9, 3,
                    if devfs.devices()[k - 1].1 == VirtualDeviceType::BlockDevice { 3 } else { 4 })
            },
    {
        let table = device_table.duplicate();
        let mut inodes: Vec<INode> = Vec::new();
        inodes.push(INode {
            mode: FileMode::new(0b0_000_001_111_101_101),
            links_count: 2,
            uid: 0,
            gid: 0,
            file_size: 0,
            atime: unixtime(),
            mtime: unixtime(),
            ctime: unixtime(),
            btime: unixtime(),
            number: 0,
        });
        let ghost devices = device_views(table.devices@);
        assert(devices.len() == table.devices@.len() && device_views(device_table.devices@).len()
            == device_table.devices@.len());
        let mut k: usize = 0;
        while k < table.devices.len()
            invariant
                k <= table.devices@.len(),
                table.devices@.len() < 0xFFFF_FFFF,
                devices == device_views(table.devices@),
                inodes@.len() == k + 1,
                inodes@[0].mode == FileMode(0b0_000_001_111_101_101),
                inodes@[0].links_count == 2,
                inodes@[0].number == 0,
                forall|j: int| 0 < j < inodes@.len() ==> {
                    let inode = #[trigger] inodes@[j];
                    &&& inode.number == j
                    &&& inode.links_count == 1
                    &&& inode.mode.0 == spliced(0b0_000_011_110_000_000, 9, 3,
                        if devices[j - 1].1 == VirtualDeviceType::BlockDevice { 3 } else { 4 })
                },
            decreases table.devices.len() - k,
        {
            let code: u8 = match table.devices[k].dev_type {
                VirtualDeviceType::BlockDevice => 3,
                VirtualDeviceType::TTYDevice => 4,
            };
            assert(devices[k as int] == table.devices@[k as int]@);
            proof {
                lemma_with_type_reads_back(0b0_000_011_110_000_000, code);
            }
            let mode = FileMode::new(0b0_000_011_110_000_000).with_file_type(code);
            inodes.push(INode {
                mode,
                links_count: 1,
                uid: 0,
                gid: 0,
                file_size: 0,
                atime: unixtime(),
                mtime: unixtime(),
                ctime: unixtime(),
                btime: unixtime(),
                number: (k + 1) as u32,
            });
            k = k + 1;
        }
        DeviceFilesystem { device_table: table, inodes }
    }

    /// The names of the devices, sorted, each with the host path of its
    /// file.
    pub fn device_names(&self) -> (names: Vec<DeviceName>)
        requires
            self.device_table.wf(),
            96 + type_count(self.devices(), self.devices().len() as int, VirtualDeviceType::BlockDevice) < 0xD800,
        ensures
            sorted_names(names_of(names@)),
            names_map(names@) == self.spec_device_names(),
            names@.len() <= self.devices().len(),
    {
        let ghost devices = self.devices();
        let mut names: Vec<DeviceName> = Vec::new();
        let mut block_devices_count: u32 = 0;
        let mut tty_devices_count: u64 = 0;
        let mut k: usize = 0;
        proof {
            assert(names_map(names@) =~= Map::<Seq<char>, Seq<char>>::empty()) by {
                assert forall|n: Seq<char>| !names_map(names@).contains_key(n) by {
                    lemma_lookup_named_some(names@, n);
                }
            }
        }
        while k < self.device_table.devices.len()
            invariant
                devices == self.devices(),
                devices.len() == self.device_table.devices@.len(),
                k <= devices.len(),
                96 + type_count(devices, devices.len() as int, VirtualDeviceType::BlockDevice) < 0xD800,
                block_devices_count == type_count(devices, k as int, VirtualDeviceType::BlockDevice),
                tty_devices_count == type_count(devices, k as int, VirtualDeviceType::TTYDevice),
                sorted_names(names_of(names@)),
                names_map(names@) == device_names_map(devices, k as int),
                names@.len() <= k,
            decreases self.device_table.devices.len() - k,
        {
            let device = &self.device_table.devices[k];
            assert(devices[k as int] == device@);
            proof {
                lemma_type_count_monotone(devices, k as int + 1, devices.len() as int, VirtualDeviceType::BlockDevice);
                lemma_type_count_bounded(devices, k as int, VirtualDeviceType::TTYDevice);
                reveal_strlit("sd");
                reveal_strlit("tty");
            }
            let name = match device.dev_type {
                VirtualDeviceType::BlockDevice => {
                    block_devices_count = block_devices_count + 1;
                    let code = 96 + block_devices_count;
                    assert(is_char_code(code));
                    let letter = char_from_u32(code).unwrap();
                    let mut name = "sd".to_owned();
                    let letter_string = char_to_string(letter);
                    name.append(letter_string.as_str());
                    name
                },
                VirtualDeviceType::TTYDevice => {
                    tty_devices_count = tty_devices_count + 1;
                    let mut name = "tty".to_owned();
                    let number = decimal_string(tty_devices_count);
                    name.append(number.as_str());
                    name
                },
            };
            assert(name@ == device_name(devices, k as int));
            let ghost before = names@;
            let entry = DeviceName { name, realpath: device.realpath.clone() };
            let ghost e = entry;
            upsert_named(&mut names, entry);
            proof {
                assert forall|n: Seq<char>| #[trigger] names_map(names@).contains_key(n) == names_map(before).insert(
                    e.name@,
                    e.realpath@,
                ).contains_key(n) by {
                    lemma_lookup_named_some(names@, n);
                    lemma_lookup_named_some(before, n);
                }
                assert(names_map(names@) =~= names_map(before).insert(e.name@, e.realpath@));
            }
            k = k + 1;
        }
        names
    }

    /// The host path of the device named by the last component of
    /// `pathname`.
    pub fn device_by_pathname(&self, pathname: &str) -> (result: Result<String, Errno>)
        requires
            self.fs_wf(),
        ensures
            path_error(pathname@) matches Some(m) ==> (result matches Err(Errno::EINVAL(x)) && x@ == m),
            path_error(pathname@) is None ==> {
                let last = spec_split_path(pathname@).1;
                &&& self.spec_device_names().contains_key(last) ==> (result matches Ok(p)
                    && p@ == self.spec_device_names()[last])
                &&& !self.spec_device_names().contains_key(last) ==> (result matches Err(Errno::ENOENT(x))
                    && x@ == "no device corresponds to that name"@)
            },
    {
        let (_dirs, last) = split_path(pathname)?;
        let names = self.device_names();
        proof {
            lemma_lookup_named_some(names@, last@);
        }
        match find_named(&names, last.as_str()) {
            Some(i) => Ok(names[i].realpath.clone()),
            None => Err(Errno::ENOENT("no device corresponds to that name".to_owned())),
        }
    }
}

/// The count of a type only grows along the devices.
proof fn lemma_type_count_monotone(devices: Seq<KernelDeviceView>, j: int, k: int, t: VirtualDeviceType)
    requires
        j <= k,
    ensures
        type_count(devices, j, t) <= type_count(devices, k, t),
    decreases k - j,
{
    if j < k {
        lemma_type_count_monotone(devices, j, k - 1, t);
    }
}

/// No more devices have a type than there are devices.
proof fn lemma_type_count_bounded(devices: Seq<KernelDeviceView>, k: int, t: VirtualDeviceType)
    requires
        k >= 0,
    ensures
        type_count(devices, k, t) <= k,
    decreases k,
{
    if k > 0 {
        lemma_type_count_bounded(devices, k - 1, t);
    }
}

} // verus!

verus! {

/// In records sorted by name, the names that find something are the names
/// of the records.
proof fn lemma_names_map_dom(names: Seq<DeviceName>)
    ensures
        names_map(names).dom() == names_of(names).to_set(),
{
    assert forall|n: Seq<char>| #[trigger] names_map(names).dom().contains(n) == names_of(names).to_set().contains(n) by {
        lemma_lookup_named_some(names, n);
    }
    assert(names_map(names).dom() =~= names_of(names).to_set());
}

/// `name` is the `k`-th, counted from zero, of the names in `names` taken
/// in increasing order.
pub open spec fn listed_at(names: Set<Seq<char>>, name: Seq<char>, k: int) -> bool {
    exists|listing: Seq<Seq<char>>|
        #[trigger] sorted_names(listing) && listing.to_set() == names && 0 <= k < listing.len() && listing[k] == name
}

/// What looking up `pathname` in the device filesystem returns: the root
/// directory is inode 0, and a device is the inode numbered by its place
/// in the listing of the root, one past its place among the device names
/// in increasing order.
pub open spec fn devfs_lookup_path(fs: DeviceFilesystem, pathname: Seq<char>, result: Result<VINode, Errno>) -> bool {
    &&& (path_error(pathname) matches Some(m) ==> (result matches Err(Errno::EINVAL(x)) && x@ == m))
    &&& (path_error(pathname) is None ==> {
            let last = spec_split_path(pathname).1;
            &&& (is_root_path(last) || fs.spec_device_names().contains_key(last)) <==> result is Ok
            &&& !is_root_path(last) && !fs.spec_device_names().contains_key(last) ==> (result matches Err(
                Errno::ENOENT(x)) && x@ == "no such file or directory 2"@)
            &&& is_root_path(last) ==> (result matches Ok(v) && v == dev_vinode_of(fs.inodes@[0]))
            &&& !is_root_path(last) && fs.spec_device_names().contains_key(last) ==> (result matches Ok(v)
                && listed_at(fs.spec_device_names().dom(), last, v.number - 1))
        })
    &&& (result matches Ok(v) ==> (0 <= v.number < fs.inodes@.len()
            && v == dev_vinode_of(fs.inodes@[v.number as int])))
}

/// What reading the file at `pathname` does to the device filesystem and returns.
pub open spec fn devfs_read_file(before: DeviceFilesystem, after: DeviceFilesystem, pathname: Seq<char>, result: Result<Vec<u8>, Errno>) -> bool {
    &&& (after == before)
    &&& (result matches Err(Errno::EPERM(m)) && m@ == "devfs read_bytes: permission denied"@)
}

/// What writing `data` as the file at `pathname` does to the device filesystem and returns.
pub open spec fn devfs_write_file(before: DeviceFilesystem, after: DeviceFilesystem, pathname: Seq<char>, data: Seq<u8>, result: Result<VINode, Errno>) -> bool {
    &&& (after == before)
    &&& (result matches Err(Errno::EPERM(m)) && m@ == "devfs write_bytes: permission denied"@)
}

/// What listing the directory at `pathname` in the device filesystem returns.
pub open spec fn devfs_read_dir(fs: DeviceFilesystem, pathname: Seq<char>, result: Result<VDirectory, Errno>) -> bool {
    &&& (!is_root_path(pathname) ==> (result matches Err(Errno::ENOENT(m)) && m@ == "no such file or directory"@))
    &&& (is_root_path(pathname) ==> (result matches Ok(listing)
            && names_of(listing.entries@).to_set() == fs.spec_device_names().dom()
            && sorted_names(names_of(listing.entries@))
            && listing.entries@.len() <= fs.devices().len()
            && forall|k: int| 0 <= k < listing.entries@.len() ==> #[trigger] listing.entries@[k].inode_number == k + 1))
}

/// What reporting on the file at `pathname` in the device filesystem returns.
pub open spec fn devfs_stat(fs: DeviceFilesystem, pathname: Seq<char>, result: Result<FileStat, Errno>) -> bool {
    &&& (path_error(pathname) matches Some(m) ==> (result matches Err(Errno::EINVAL(x)) && x@ == m))
    &&& (path_error(pathname) is None ==> (result is Ok <==> (is_root_path(spec_split_path(pathname).1)
            || fs.spec_device_names().contains_key(spec_split_path(pathname).1))))
    &&& (result matches Ok(st) ==> (0 <= st.inode_number < fs.inodes@.len() && {
            let inode = fs.inodes@[st.inode_number as int];
            st == (FileStat {
                mode: inode.mode,
                size: inode.file_size,
                inode_number: inode.number,
                links_count: inode.links_count,
                uid: inode.uid,
                gid: inode.gid,
                block_size: 0,
                atime: inode.atime,
                mtime: inode.mtime,
                ctime: inode.ctime,
                btime: inode.btime,
            })
        }))
}

/// What replacing the mode of the file at `pathname` with `mode` does to the device filesystem and returns.
pub open spec fn devfs_change_mode(before: DeviceFilesystem, after: DeviceFilesystem, pathname: Seq<char>, mode: FileMode, result: Result<(), Errno>) -> bool {
    &&& (after == before)
    &&& (result matches Err(Errno::EPERM(m)) && m@ == "operation not permitted"@)
}

/// What replacing the times of the file at `pathname` with `times` does to the device filesystem and returns.
pub open spec fn devfs_change_times(before: DeviceFilesystem, after: DeviceFilesystem, pathname: Seq<char>, times: Times, result: Result<(), Errno>) -> bool {
    &&& (after == before)
    &&& (result matches Err(Errno::ENOSYS(m)) && m@ == "devfs: change_times is not supported"@)
}

/// What creating a file at `pathname` does to the device filesystem and returns.
pub open spec fn devfs_create_file(before: DeviceFilesystem, after: DeviceFilesystem, pathname: Seq<char>, result: Result<VINode, Errno>) -> bool {
    &&& (after == before)
    &&& (result matches Err(Errno::EPERM(m)) && m@ == "operation not permitted"@)
}

/// What removing the file at `pathname` does to the device filesystem and returns.
pub open spec fn devfs_remove_file(before: DeviceFilesystem, after: DeviceFilesystem, pathname: Seq<char>, result: Result<(), Errno>) -> bool {
    &&& (after == before)
    &&& (result matches Err(Errno::ENOSYS(m)) && m@ == "devfs: remove_file is not supported"@)
}

/// What creating a directory at `pathname` does to the device filesystem and returns.
pub open spec fn devfs_create_dir(before: DeviceFilesystem, after: DeviceFilesystem, pathname: Seq<char>, result: Result<VINode, Errno>) -> bool {
    &&& (after == before)
    &&& (result matches Err(Errno::ENOSYS(m)) && m@ == "devfs: create_dir is not supported"@)
}

impl Filesystem for DeviceFilesystem {
    open spec fn fs_wf(&self) -> bool {
        &&& self.device_table.wf()
        &&& self.device_table.devices@.len() < 0xFFFF_FFFF
        &&& 96 + type_count(self.devices(), self.devices().len() as int, VirtualDeviceType::BlockDevice) < 0xD800
        &&& self.inodes@.len() == self.device_table.devices@.len() + 1
        &&& forall|k: int| 0 <= k < self.inodes@.len() ==> (#[trigger] self.inodes@[k]).number == k
    }

    /// Devices cannot be created.
    fn create_file(&mut self, pathname: &str) -> (result: Result<VINode, Errno>)
        ensures
            devfs_create_file(*old(self), *final(self), pathname@, result),
    {
        Err(Errno::EPERM("operation not permitted".to_owned()))
    }

    /// Devices cannot be removed.
    fn remove_file(&mut self, pathname: &str) -> (result: Result<(), Errno>)
        ensures
            devfs_remove_file(*old(self), *final(self), pathname@, result),
    {
        Err(Errno::ENOSYS("devfs: remove_file is not supported".to_owned()))
    }

    /// Directories cannot be created.
    fn create_dir(&mut self, pathname: &str) -> (result: Result<VINode, Errno>)
        ensures
            devfs_create_dir(*old(self), *final(self), pathname@, result),
    {
        Err(Errno::ENOSYS("devfs: create_dir is not supported".to_owned()))
    }

    /// Devices cannot be read as files.
    fn read_file(&mut self, pathname: &str, count: AddressSize) -> (result: Result<Vec<u8>, Errno>)
        ensures
            devfs_read_file(*old(self), *final(self), pathname@, result),
    {
        Err(Errno::EPERM("devfs read_bytes: permission denied".to_owned()))
    }

    /// Devices cannot be written as files.
    fn write_file(&mut self, pathname: &str, data: &[u8]) -> (result: Result<VINode, Errno>)
        ensures
            devfs_write_file(*old(self), *final(self), pathname@, data@, result),
    {
        Err(Errno::EPERM("devfs write_bytes: permission denied".to_owned()))
    }

    /// Lists the devices, sorted by name and numbered from one, for the root
    /// directory `/` (also written `/.` or `/..`).
    fn read_dir(&self, pathname: &str) -> (result: Result<VDirectory, Errno>)
        ensures
            devfs_read_dir(*self, pathname@, result),
    {
        if !(str_eq(pathname, "/") || str_eq(pathname, "/.") || str_eq(pathname, "/..")) {
            return Err(Errno::ENOENT("no such file or directory".to_owned()));
        }
        let names = self.device_names();
        let mut entries: Vec<VDirectoryEntry> = Vec::new();
        let mut k: usize = 0;
        while k < names.len()
            invariant
                k <= names@.len(),
                names@.len() <= self.devices().len(),
                self.devices().len() < 0xFFFF_FFFF,
                entries@.len() == k,
                forall|j: int| 0 <= j < k ==> (#[trigger] entries@[j]).name@ == names@[j].name@
                    && entries@[j].inode_number == j + 1,
            decreases names.len() - k,
        {
            entries.push(VDirectoryEntry::new((k + 1) as u32, names[k].name.as_str()));
            k = k + 1;
        }
        let listing = VDirectory { entries };
        proof {
            assert(names_of(listing.entries@) =~= names_of(names@));
            lemma_names_map_dom(names@);
        }
        Ok(listing)
    }

    /// Reports on the file at `pathname`, as `lookup_path` finds it.
    fn stat(&self, pathname: &str) -> (result: Result<FileStat, Errno>)
        ensures
            devfs_stat(*self, pathname@, result),
    {
        let v = self.lookup_path(pathname)?;
        Ok(FileStat {
            mode: v.mode,
            size: v.file_size,
            inode_number: v.number,
            links_count: v.links_count,
            uid: v.uid,
            gid: v.gid,
            block_size: 0,
            atime: v.atime,
            mtime: v.mtime,
            ctime: v.ctime,
            btime: v.btime,
        })
    }

    /// Modes of devices cannot be changed.
    fn change_mode(&mut self, pathname: &str, mode: FileMode) -> (result: Result<(), Errno>)
        ensures
            devfs_change_mode(*old(self), *final(self), pathname@, mode, result),
    {
        Err(Errno::EPERM("operation not permitted".to_owned()))
    }

    /// Times of devices cannot be changed.
    fn change_times(&mut self, pathname: &str, times: Times) -> (result: Result<(), Errno>)
        ensures
            devfs_change_times(*old(self), *final(self), pathname@, times, result),
    {
        Err(Errno::ENOSYS("devfs: change_times is not supported".to_owned()))
    }

    /// Finds the root directory, or the device the last component of
    /// `pathname` names.
    fn lookup_path(&self, pathname: &str) -> (result: Result<VINode, Errno>)
        ensures
            devfs_lookup_path(*self, pathname@, result),
    {
        let (_dirs, last) = split_path(pathname)?;
        let listing = match self.read_dir("/") {
            Ok(l) => l,
            Err(e) => {
                proof {
                    reveal_strlit("/");
                }
                return Err(e);
            },
        };
        proof {
            reveal_strlit("/");
            reveal_strlit("/.");
            reveal_strlit("/..");
        }
        let inode_number: AddressSize = if str_eq(last.as_str(), "/.") || str_eq(last.as_str(), "/..") || str_eq(
            last.as_str(),
            "/",
        ) {
            0
        } else {
            proof {
                lemma_lookup_named_some(listing.entries@, last@);
            }
            match find_named(&listing.entries, last.as_str()) {
                Some(i) => {
                    proof {
                        let names = names_of(listing.entries@);
                        assert(names[i as int] == last@);
                        assert(listed_at(self.spec_device_names().dom(), last@, i as int));
                    }
                    listing.entries[i].inode_number
                },
                None => {
                    return Err(Errno::ENOENT("no such file or directory 2".to_owned()));
                },
            }
        };
        if (inode_number as usize) < self.inodes.len() {
            let inode = self.inodes[inode_number as usize];
            Ok(vinode_from(&inode))
        } else {
            Err(Errno::EIO("devfs::lookup_path: can't find inode from dir".to_owned()))
        }
    }

    /// The driver's name: `devfs`.
    fn name(&self) -> (name: String)
        ensures
            name@ == "devfs"@,
    {
        "devfs".to_owned()
    }
}

} // verus!

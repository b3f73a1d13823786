use vstd::prelude::*;
use std::collections::BTreeMap;
use crate::text::{Named, names_of, sorted_names, find_named, decimal_string, is_plain_text, regex_is_match, lemma_lookup_named_at};
use crate::eunix::e5fs::{E5FSFilesystem, opens_as_e5fs};
use crate::eunix::devfs::DeviceFilesystem;
use crate::eunix::binfs::{Binary, BinFilesytem, binfs_lookup_path};
use crate::eunix::virtfs::Payload;
use crate::machine::{MachineDevice, MachineDeviceTable, VirtualDeviceType};
use crate::eunix::devfs::type_count;
use crate::eunix::fs::{AddressSize, Id, FileDescriptor, FileDescription, FileDescriptionView, OpenFlags, OpenMode, VINode, VDirectory, FileStat, VFS, Filesystem, FilesystemType, MountedFilesystem, Driver, lemma_put_back, holds_path, lemma_holds_path_unique, internal_path, mount_pattern, none_before, path_error, spec_split_path};

verus! {

/// Seconds since the Unix epoch.
pub type UnixtimeSize = u64;

/// The four times of a file.
#[derive(Debug, Clone, Copy, PartialEq, Eq, Structural)]
pub struct Times {
    pub atime: UnixtimeSize,
    pub mtime: UnixtimeSize,
    pub ctime: UnixtimeSize,
    pub btime: UnixtimeSize,
}

/// The errors that system calls and filesystem operations report, each with a
/// message.
#[derive(Debug, PartialEq, Eq)]
pub enum Errno {
    /// Permission denied
    EACCES(String),
    /// Operation not permitted
    EPERM(String),
    /// Is a directory
    EISDIR(String),
    /// Not a directory
    ENOTDIR(String),
    /// Name too long
    ENAMETOOLONG(String),
    /// Not implemented
    ENOSYS(String),
    /// No such entity
    ENOENT(String),
    /// I/O Error
    EIO(String),
    /// Invalid argument
    EINVAL(String),
    /// Illegal byte sequence
    EILSEQ(String),
    /// No such process
    ESRCH(String),
    /// Bad filesystem (not standart)
    EBADFS(String),
    /// Bad file desctiptor
    EBADFD(String),
    /// File exists
    EEXIST(String),
    /// No space left on dev
    ENOSPC(String),
}

} // verus!

verus! {

/// What the kernel knows of a device: its host path, its type, and where it
/// is mounted, if anywhere.
#[derive(Debug)]
pub struct KernelDevice {
    pub realpath: String,
    pub dev_type: VirtualDeviceType,
    pub mounted: Option<String>,
}

/// A kernel device as plain values.
pub type KernelDeviceView = (Seq<char>, VirtualDeviceType, Option<Seq<char>>);

impl View for KernelDevice {
    type V = KernelDeviceView;

    open spec fn view(&self) -> KernelDeviceView {
        (self.realpath@, self.dev_type, match self.mounted {
            Some(m) => Some(m@),
            None => None,
        })
    }
}

impl Named for KernelDevice {
    open spec fn spec_name(&self) -> Seq<char> {
        self.realpath@
    }

    fn name_str(&self) -> (s: &str) {
        self.realpath.as_str()
    }
}

impl KernelDevice {
    /// A copy of this device record.
    pub fn duplicate(&self) -> (copy: Self)
        ensures
            copy@ == self@,
    {
        let mounted = match &self.mounted {
            Some(m) => Some(m.clone()),
            None => None,
        };
        KernelDevice { realpath: self.realpath.clone(), dev_type: self.dev_type, mounted }
    }
}

/// The kernel's devices, sorted by host path, none twice.
#[derive(Debug)]
pub struct KernelDeviceTable {
    pub devices: Vec<KernelDevice>,
}

/// The devices, in order, as plain values.
pub open spec fn device_views(devices: Seq<KernelDevice>) -> Seq<KernelDeviceView> {
    devices.map_values(|d: KernelDevice| d@)
}

impl KernelDeviceTable {
    /// Devices sorted by host path, none twice.
    pub open spec fn wf(&self) -> bool {
        sorted_names(names_of(self.devices@))
    }

    /// The kernel's table for a machine's devices: each of them, mounted
    /// nowhere yet.
    pub fn from_machine(table: &MachineDeviceTable) -> (kernel_table: Self)
        requires
            table.wf(),
        ensures
            kernel_table.wf(),
            device_views(kernel_table.devices@) == table.devices@.map_values(
                |d: MachineDevice| (d.realpath@, d.dev_type, None::<Seq<char>>),
            ),
    {
        let mut devices: Vec<KernelDevice> = Vec::new();
        let mut i: usize = 0;
        while i < table.devices.len()
            invariant
                i <= table.devices@.len(),
                devices@.len() == i,
                device_views(devices@) == table.devices@.take(i as int).map_values(
                    |d: MachineDevice| (d.realpath@, d.dev_type, None::<Seq<char>>),
                ),
            decreases table.devices.len() - i,
        {
            let d = &table.devices[i];
            let ghost before = devices@;
            let entry = KernelDevice { realpath: d.realpath.clone(), dev_type: d.dev_type, mounted: None };
            assert(entry@ == (d.realpath@, d.dev_type, None::<Seq<char>>));
            devices.push(entry);
            proof {
                let f = |d: MachineDevice| (d.realpath@, d.dev_type, None::<Seq<char>>);
                assert forall|k: int| 0 <= k < i + 1 implies #[trigger] device_views(devices@)[k]
                    == table.devices@.take(i + 1).map_values(f)[k] by {
                    if k < i {
                        assert(devices@[k] == before[k]);
                        assert(device_views(before)[k] == table.devices@.take(i as int).map_values(f)[k]);
                    }
                }
                assert(device_views(devices@) =~= table.devices@.take(i + 1).map_values(f));
            }
            i = i + 1;
        }
        let kernel_table = KernelDeviceTable { devices };
        proof {
            assert(table.devices@.take(table.devices@.len() as int) =~= table.devices@);
            assert(names_of(kernel_table.devices@) =~= names_of(table.devices@)) by {
                assert forall|k: int| 0 <= k < kernel_table.devices@.len() implies names_of(kernel_table.devices@)[k]
                    == names_of(table.devices@)[k] by {
                    assert(device_views(kernel_table.devices@)[k] == kernel_table.devices@[k]@);
                }
            }
        }
        kernel_table
    }

    /// A copy of the table.
    pub fn duplicate(&self) -> (copy: Self)
        requires
            self.wf(),
        ensures
            copy.wf(),
            device_views(copy.devices@) == device_views(self.devices@),
    {
        let mut devices: Vec<KernelDevice> = Vec::new();
        let mut i: usize = 0;
        while i < self.devices.len()
            invariant
                i <= self.devices@.len(),
                devices@.len() == i,
                device_views(devices@) == device_views(self.devices@.take(i as int)),
            decreases self.devices.len() - i,
        {
            let ghost before = devices@;
            let entry = self.devices[i].duplicate();
            devices.push(entry);
            proof {
                assert forall|k: int| 0 <= k < i + 1 implies #[trigger] device_views(devices@)[k]
                    == device_views(self.devices@.take(i + 1))[k] by {
                    if k < i {
                        assert(devices@[k] == before[k]);
                        assert(device_views(before)[k] == device_views(self.devices@.take(i as int))[k]);
                    }
                }
                assert(device_views(devices@) =~= device_views(self.devices@.take(i + 1)));
            }
            i = i + 1;
        }
        let copy = KernelDeviceTable { devices };
        proof {
            assert(self.devices@.take(self.devices@.len() as int) =~= self.devices@);
            assert(names_of(copy.devices@) =~= names_of(self.devices@)) by {
                assert forall|k: int| 0 <= k < copy.devices@.len() implies names_of(copy.devices@)[k]
                    == names_of(self.devices@)[k] by {
                    assert(device_views(copy.devices@)[k] == copy.devices@[k]@);
                    assert(device_views(self.devices@)[k] == self.devices@[k]@);
                }
            }
        }
        copy
    }
}

} // verus!

verus! {

/// The arguments a program is run with.
pub type Args = Vec<String>;

/// The user id of the superuser.
pub const ROOT_UID: Id = 0;

/// The group id of the superuser.
pub const ROOT_GID: Id = 0;

/// Process ids and descriptors are ordered as the integers they are, so
/// the ordered maps keyed by them behave as maps.
pub proof fn lemma_pids_ordered()
    ensures
        vstd::laws_cmp::obeys_cmp::<u32>(),
{
    broadcast use vstd::laws_cmp::group_laws_cmp;

}

/// The description a descriptor leads to in a table of open files, as
/// plain values.
pub open spec fn fd_lookup(table: Map<FileDescriptor, FileDescription>, fd: FileDescriptor) -> Option<
    FileDescriptionView,
> {
    if table.contains_key(fd) {
        Some(table[fd]@)
    } else {
        None
    }
}

/// A process: its open files, its user, its parent, its id and the program
/// it runs.
#[derive(Debug)]
pub struct Process {
    pub file_descriptors: BTreeMap<FileDescriptor, FileDescription>,
    pub uid: Id,
    pub ppid: AddressSize,
    pub pid: AddressSize,
    pub binary: String,
}

impl Process {
    /// A process of the superuser with id `pid`, running `bin_pathname`, with
    /// parent 0 and no open files.
    pub fn new(bin_pathname: &str, pid: AddressSize) -> (process: Self)
        ensures
            process.file_descriptors@ == Map::<FileDescriptor, FileDescription>::empty(),
            process.uid == ROOT_UID,
            process.ppid == 0,
            process.pid == pid,
            process.binary@ == bin_pathname@,
    {
        Process { file_descriptors: BTreeMap::new(), uid: ROOT_UID, ppid: 0, pid, binary: bin_pathname.to_owned() }
    }

    /// This process with parent `pid`.
    pub fn with_ppid(self, pid: u32) -> (process: Self)
        ensures
            process == (Process { ppid: pid, ..self }),
    {
        let mut process = self;
        process.ppid = pid;
        process
    }

    /// This process run by user `uid`.
    pub fn with_uid(self, uid: Id) -> (process: Self)
        ensures
            process == (Process { uid, ..self }),
    {
        let mut process = self;
        process.uid = uid;
        process
    }
}

/// What a kernel is started with: the program of its first process.
pub struct KernelParams {
    pub init: String,
}

} // verus!

verus! {

/// The kernel: the virtual filesystem, the process table by process id,
/// the current process and the table of devices.
pub struct Kernel {
    pub vfs: VFS,
    pub processes: BTreeMap<AddressSize, Process>,
    pub current_process_id: AddressSize,
    pub device_table: KernelDeviceTable,
}

/// A device table small enough for the device filesystem to name and
/// number its devices.
pub open spec fn devices_fit(devices: Seq<KernelDeviceView>) -> bool {
    &&& devices.len() < 0xFFFF_FFFF
    &&& 96 + type_count(devices, devices.len() as int, VirtualDeviceType::BlockDevice) < 0xD800
}

/// `after` is `before` with `target` added, which it lacked.
pub open spec fn mounted_step(before: Set<Seq<char>>, target: Seq<char>, after: Set<Seq<char>>) -> bool {
    !before.contains(target) && after == before.insert(target)
}

/// `after` is `before` without `target`, which it had.
pub open spec fn unmounted_step(before: Set<Seq<char>>, target: Seq<char>, after: Set<Seq<char>>) -> bool {
    before.contains(target) && after == before.remove(target)
}

/// A filesystem of devices, mounted as such.
pub open spec fn is_device_mount(m: MountedFilesystem) -> bool {
    m.fs_type == FilesystemType::devfs && m.driver is Dev
}

/// The path `source` lies in the mounted filesystem `c`, a filesystem of
/// devices that has a device of the path's last name.
pub open spec fn device_named_at(k: Kernel, source: Seq<char>, c: int) -> bool {
    let m = k.vfs.mount_points@[c];
    let last = spec_split_path(internal_path(k.vfs.targets()[c], source)).1;
    is_device_mount(m) && (m.driver matches Driver::Dev(d) && d.spec_device_names().contains_key(last))
}

/// The path `source` names a device of a mounted filesystem of devices.
pub open spec fn names_device(k: Kernel, source: Seq<char>) -> bool {
    exists|c: int| #[trigger] holds_path(k.vfs.targets(), source, c) && device_named_at(k, source, c)
}

impl Kernel {
    /// The filesystem layer is consistent, each process is filed under its
    /// own id, the device table is sorted, and the devices fit.
    pub open spec fn wf(&self) -> bool {
        &&& self.vfs.wf()
        &&& forall|pid: AddressSize| #[trigger] self.processes@.contains_key(pid) ==> self.processes@[pid].pid == pid
        &&& self.device_table.wf()
        &&& devices_fit(device_views(self.device_table.devices@))
    }

    /// The process with id `pid`, if there is one.
    pub open spec fn process(&self, pid: AddressSize) -> Option<Process> {
        process_in(self.processes@, pid)
    }

    /// The mount points, as a set.
    pub open spec fn mounted(&self) -> Set<Seq<char>> {
        self.vfs.targets().to_set()
    }

    /// A kernel for a machine's devices, with nothing mounted, that has
    /// spawned its first process, running `params.init`.
    pub fn new(devices: &MachineDeviceTable, params: KernelParams) -> (kernel: Self)
        requires
            devices.wf(),
            devices_fit(devices.devices@.map_values(
                |d: MachineDevice| (d.realpath@, d.dev_type, None::<Seq<char>>),
            )),
        ensures
            kernel.wf(),
            kernel.current_process_id == 1,
            kernel.processes@.dom() == Set::<AddressSize>::empty().insert(1),
            kernel.process(1) matches Some(p) && p.pid == 1 && p.ppid == 0 && p.uid == ROOT_UID && p.binary@
                == params.init@ && p.file_descriptors@.len() == 0,
            kernel.vfs.targets().len() == 0,
            kernel.vfs.open_files@.len() == 0,
            device_views(kernel.device_table.devices@) == devices.devices@.map_values(
                |d: MachineDevice| (d.realpath@, d.dev_type, None::<Seq<char>>),
            ),
    {
        let KernelParams { init } = params;
        let mut kernel = Kernel {
            vfs: VFS::new(),
            processes: BTreeMap::new(),
            current_process_id: 0,
            device_table: KernelDeviceTable::from_machine(devices),
        };
        let _ = kernel.spawn_process(init.as_str());
        kernel
    }

    /// The kernel's device table.
    pub fn devices(&self) -> (table: &KernelDeviceTable)
        ensures
            table == &self.device_table,
    {
        &self.device_table
    }

    /// The id of the current process.
    pub fn current_process_id(&self) -> (pid: u32)
        ensures
            pid == self.current_process_id,
    {
        self.current_process_id
    }

    /// The virtual filesystem.
    pub fn vfs(&self) -> (vfs: &VFS)
        ensures
            vfs == &self.vfs,
    {
        &self.vfs
    }

    /// The process table.
    pub fn processes(&self) -> (processes: &BTreeMap<AddressSize, Process>)
        ensures
            processes == &self.processes,
    {
        &self.processes
    }

    /// The id the next process gets: one past the current one.
    pub fn allocate_pid(&self) -> (pid: AddressSize)
        requires
            self.current_process_id < 0xFFFF_FFFF,
        ensures
            pid == self.current_process_id + 1,
    {
        self.current_process_id() + 1
    }

    /// Creates a process of the superuser running `bin_pathname`, with a new
    /// id, child of the current process; makes it current and enters it in
    /// the process table.
    pub fn spawn_process(&mut self, bin_pathname: &str) -> (result: Result<Process, Errno>)
        requires
            old(self).wf(),
            old(self).current_process_id < 0xFFFF_FFFF,
        ensures
            final(self).wf(),
            final(self).current_process_id == old(self).current_process_id + 1,
            result matches Ok(p) && p.pid == final(self).current_process_id && p.ppid == old(self).current_process_id
                && p.uid == ROOT_UID && p.binary@ == bin_pathname@ && p.file_descriptors@.len() == 0,
            final(self).process(final(self).current_process_id) matches Some(q) && q.pid == final(self).current_process_id
                && q.ppid == old(self).current_process_id && q.uid == ROOT_UID && q.binary@
                == bin_pathname@ && q.file_descriptors@.len() == 0,
            forall|pid: AddressSize| pid != final(self).current_process_id ==> #[trigger] final(self).process(pid)
                == old(self).process(pid),
            final(self).processes@.dom() == old(self).processes@.dom().insert(final(self).current_process_id),
            final(self).vfs.targets() == old(self).vfs.targets(),
            final(self).vfs == old(self).vfs,
            final(self).device_table.devices@ == old(self).device_table.devices@,
    {
        let ppid = self.current_process_id();
        self.current_process_id = self.allocate_pid();
        let process = Process::new(bin_pathname, self.current_process_id).with_ppid(ppid).with_uid(ROOT_UID);
        let copy = Process::new(bin_pathname, self.current_process_id).with_ppid(ppid).with_uid(ROOT_UID);
        proof {
            lemma_pids_ordered();
        }
        self.processes.insert(self.current_process_id, copy);
        Ok(process)
    }

    /// Does nothing yet.
    pub fn start() {
    }
}

} // verus!

verus! {

/// `after` is `before` with descriptor `fd` leading to `description`, and
/// every other descriptor as it was.
pub open spec fn opened_step(
    before: Map<FileDescriptor, FileDescription>,
    fd: FileDescriptor,
    description: FileDescriptionView,
    after: Map<FileDescriptor, FileDescription>,
) -> bool {
    &&& fd_lookup(after, fd) == Some(description)
    &&& forall|k: FileDescriptor| k != fd ==> #[trigger] fd_lookup(after, k) == fd_lookup(before, k)
}

/// `after` is `before` without descriptor `fd`, and every other descriptor
/// as it was.
pub open spec fn closed_step(
    before: Map<FileDescriptor, FileDescription>,
    fd: FileDescriptor,
    after: Map<FileDescriptor, FileDescription>,
) -> bool {
    &&& fd_lookup(after, fd) is None
    &&& forall|k: FileDescriptor| k != fd ==> #[trigger] fd_lookup(after, k) == fd_lookup(before, k)
}

/// The process of id `pid` in the process table `table`, if there is one.
pub open spec fn process_in(table: Map<AddressSize, Process>, pid: AddressSize) -> Option<Process> {
    if table.contains_key(pid) {
        Some(table[pid])
    } else {
        None
    }
}

/// Every process but `pid` is as it was.
pub open spec fn others_unchanged(before: Map<AddressSize, Process>, after: Map<AddressSize, Process>, pid: AddressSize) -> bool {
    forall|other: AddressSize| other != pid ==> #[trigger] process_in(after, other) == process_in(before, other)
}

/// `q` is process `p` after it opened `pathname` with `flags` and was
/// told descriptor `fd`: the description went in under the descriptor
/// numbered as many as `p` had open, which made one more open unless that
/// descriptor was taken, and `fd` is one less than the number `q` has open.
pub open spec fn opened_by(p: Process, q: Process, flags: OpenFlags, pathname: Seq<char>, fd: FileDescriptor) -> bool {
    let key = p.file_descriptors@.len() as u32;
    &&& q.pid == p.pid
    &&& q.ppid == p.ppid
    &&& q.uid == p.uid
    &&& q.binary@ == p.binary@
    &&& fd == (q.file_descriptors@.len() - 1) as u32
    &&& q.file_descriptors@.len() == p.file_descriptors@.len() + (if fd_lookup(p.file_descriptors@, key) is None {
        1int
    } else {
        0int
    })
    &&& match fd_lookup(q.file_descriptors@, key) {
        Some(d) => d.1 == flags && d.2 == Some(pathname) && opened_step(p.file_descriptors@, key, d, q.file_descriptors@),
        None => false,
    }
}

impl Kernel {
    /// Opens the file at `pathname` for the current process, under the
    /// descriptor numbered as many as it has open, and returns one less
    /// than the number it then has open.
    pub fn open(&mut self, pathname: &str, flags: OpenFlags) -> (result: Result<FileDescriptor, Errno>)
        requires
            old(self).wf(),
        ensures
            final(self).wf(),
            final(self).current_process_id == old(self).current_process_id,
            final(self).vfs.targets() == old(self).vfs.targets(),
            old(self).process(old(self).current_process_id) is None ==> (result matches Err(Errno::ESRCH(m))
                && m@ == "open: cannot get current process"@),
            result is Err ==> final(self).processes@ == old(self).processes@,
            old(self).process(old(self).current_process_id) matches Some(p) ==> match result {
                Ok(fd) => final(self).process(old(self).current_process_id) matches Some(q) && fd_lookup(
                    q.file_descriptors@,
                    p.file_descriptors@.len() as u32,
                ) matches Some(d) && old(self).vfs.lookup_outcome(pathname@, Ok(d.0)),
                Err(e) => old(self).vfs.lookup_outcome(pathname@, Err(e)),
            },
            old(self).process(old(self).current_process_id) is Some && (forall|j: int|
                0 <= j < old(self).vfs.targets().len() ==> regex_is_match(
                    mount_pattern(#[trigger] old(self).vfs.targets()[j]),
                    pathname@,
                ) == Some(false)) ==> (result matches Err(Errno::ENOENT(m))
                && m@ == "VFS::lookup_path: no such file or directory"@),
            result matches Ok(fd) ==> (old(self).process(old(self).current_process_id) matches Some(p)
                && final(self).process(old(self).current_process_id) matches Some(q)
                && opened_by(p, q, flags, pathname@, fd)
                && others_unchanged(old(self).processes@, final(self).processes@, old(self).current_process_id)),
    {
        let pid = self.current_process_id;
        proof {
            lemma_pids_ordered();
        }
        if !self.processes.contains_key(&pid) {
            return Err(Errno::ESRCH("open: cannot get current process".to_owned()));
        }
        let vinode = self.vfs.lookup_path(pathname)?;
        let description = FileDescription { vinode, flags, pathname: Some(pathname.to_owned()) };
        let mut process = match self.processes.remove(&pid) {
            Some(p) => p,
            None => {
                return Err(Errno::ESRCH("open: cannot get current process".to_owned()));
            },
        };
        let ghost old_process = process;
        let key = process.file_descriptors.len() as FileDescriptor;
        let ghost entry_view = description@;
        process.file_descriptors.insert(key, description);
        let count = process.file_descriptors.len();
        proof {
            let before = old_process.file_descriptors@.dom();
            if before.contains(key) {
                assert(before.remove(key).len() + 1 == before.len());
            }
            assert(process.file_descriptors@.dom() == before.insert(key));
        }
        self.processes.insert(pid, process);
        Ok((count - 1) as FileDescriptor)
    }

    /// Closes descriptor `fd` of the current process, if it is open.
    pub fn close(&mut self, file_descriptor: FileDescriptor) -> (result: Result<(), Errno>)
        requires
            old(self).wf(),
        ensures
            final(self).wf(),
            final(self).current_process_id == old(self).current_process_id,
            final(self).vfs.targets() == old(self).vfs.targets(),
            final(self).vfs == old(self).vfs,
            final(self).device_table == old(self).device_table,
            old(self).process(old(self).current_process_id) is None ==> (result matches Err(Errno::ESRCH(m))
                && m@ == "open: cannot get current process"@ && final(self).processes@ == old(self).processes@),
            old(self).process(old(self).current_process_id) is Some ==> result is Ok,
            result is Ok ==> (old(self).process(old(self).current_process_id) matches Some(p)
                && final(self).process(old(self).current_process_id) matches Some(q)
                && q.pid == p.pid && q.ppid == p.ppid && q.uid == p.uid && q.binary@ == p.binary@
                && closed_step(p.file_descriptors@, file_descriptor, q.file_descriptors@)
                && others_unchanged(old(self).processes@, final(self).processes@, old(self).current_process_id)),
    {
        let pid = self.current_process_id;
        proof {
            lemma_pids_ordered();
        }
        let mut process = match self.processes.remove(&pid) {
            Some(p) => p,
            None => {
                return Err(Errno::ESRCH("open: cannot get current process".to_owned()));
            },
        };
        let _ = process.file_descriptors.remove(&file_descriptor);
        self.processes.insert(pid, process);
        Ok(())
    }

    /// Reading through a descriptor is not supported yet.
    pub fn read(&self, file_descriptor: FileDescriptor, count: AddressSize) -> (result: Result<Vec<u8>, Errno>)
        ensures
            result matches Err(Errno::ENOSYS(m)) && m@ == "kernel: read is not implemented"@,
    {
        Err(Errno::ENOSYS("kernel: read is not implemented".to_owned()))
    }

    /// Reporting on a descriptor is not supported yet.
    pub fn stat(&self, file_descriptor: FileDescriptor) -> (result: Result<FileStat, Errno>)
        ensures
            result matches Err(Errno::ENOSYS(m)) && m@ == "kernel: stat is not implemented"@,
    {
        Err(Errno::ENOSYS("kernel: stat is not implemented".to_owned()))
    }

    /// Writing through a descriptor is not supported yet.
    pub fn write(&mut self, file_descriptor: FileDescriptor, buffer: Vec<u8>) -> (result: Result<AddressSize, Errno>)
        ensures
            result matches Err(Errno::ENOSYS(m)) && m@ == "kernel: write is not implemented"@,
            final(self).processes@ == old(self).processes@,
            final(self).vfs.targets() == old(self).vfs.targets(),
    {
        Err(Errno::ENOSYS("kernel: write is not implemented".to_owned()))
    }

    /// Changing the mode through a descriptor is not supported yet.
    pub fn chmod(&mut self, file_descriptor: FileDescriptor, new_perms: Vec<u8>) -> (result: Result<(), Errno>)
        ensures
            result matches Err(Errno::ENOSYS(m)) && m@ == "kernel: chmod is not implemented"@,
            final(self).processes@ == old(self).processes@,
            final(self).vfs.targets() == old(self).vfs.targets(),
    {
        Err(Errno::ENOSYS("kernel: chmod is not implemented".to_owned()))
    }

    /// Lists the directory that descriptor `fd` of the current process was
    /// opened on, unless it was opened for writing only.
    pub fn getdents(&mut self, file_descriptor: FileDescriptor) -> (result: Result<VDirectory, Errno>)
        requires
            old(self).wf(),
        ensures
            final(self).wf(),
            final(self).processes@ == old(self).processes@,
            final(self).vfs.targets() == old(self).vfs.targets(),
            final(self).current_process_id == old(self).current_process_id,
            old(self).process(old(self).current_process_id) is None ==> (result matches Err(Errno::ESRCH(m))
                && m@ == "cannot get current process"@),
            old(self).process(old(self).current_process_id) matches Some(p) ==> {
                let d = fd_lookup(p.file_descriptors@, file_descriptor);
                &&& d is None ==> (result matches Err(Errno::ENOENT(m)) && m@ == "no such file descriptor"@)
                &&& (d matches Some(v) && v.1.spec_mode() == OpenMode::Write) ==> (result matches Err(Errno::EACCES(m))
                    && m@ == "getdents: permission denied"@)
                &&& (d matches Some(v) && v.1.spec_mode() != OpenMode::Write && v.2 is None) ==> (result matches Err(
                    Errno::EIO(m)) && m@ == "this error shouldn't happen as far as i see"@)
                &&& (d is Some && d.unwrap().1.spec_mode() != OpenMode::Write && d.unwrap().2 is Some) ==> old(
                    self,
                ).vfs.read_dir_outcome(d.unwrap().2.unwrap(), result)
            },
            result matches Ok(dir) ==> dir.wf(),
    {
        let pid = self.current_process_id();
        proof {
            lemma_pids_ordered();
        }
        let process = match self.processes.get(&pid) {
            Some(p) => p,
            None => {
                return Err(Errno::ESRCH("cannot get current process".to_owned()));
            },
        };
        let entry = match process.file_descriptors.get(&file_descriptor) {
            Some(d) => d,
            None => {
                return Err(Errno::ENOENT("no such file descriptor".to_owned()));
            },
        };
        match entry.flags.mode() {
            OpenMode::Write => {
                return Err(Errno::EACCES("getdents: permission denied".to_owned()));
            },
            OpenMode::ReadWrite | OpenMode::Read => {},
        }
        match &entry.pathname {
            Some(pathname) => self.vfs.read_dir(pathname.as_str()),
            None => Err(Errno::EIO("this error shouldn't happen as far as i see".to_owned())),
        }
    }
}

} // verus!

verus! {

/// What running the program in the file at `pathname` gives, where mount
/// point `c` holds the path: a filesystem other than one of programs refuses
/// to run it; one of programs hands out the program its file holds, and
/// fails where the lookup fails, where the file is a directory, or where it
/// holds nothing.
pub open spec fn exec_outcome(vfs: VFS, pathname: Seq<char>, c: int, result: Result<Binary, Errno>) -> bool {
    let m = vfs.mount_points@[c];
    let internal = internal_path(vfs.targets()[c], pathname);
    let noexec = "exec: filesystem "@ + vfs.targets()[c] + " is noexec"@;
    match m.driver {
        Driver::Bin(b) => if m.fs_type != FilesystemType::binfs {
            result matches Err(Errno::EACCES(x)) && x@ == noexec
        } else {
            match result {
                Ok(binary) => exists|v: VINode| #[trigger] binfs_lookup_path(b, internal, Ok(v)) && v.number < b.virtfs.inodes@.len()
                    && {
                    let pn = b.virtfs.inodes@[v.number as int].payload_number;
                    pn < b.virtfs.payloads@.len() && (b.virtfs.payloads@[pn as int] matches Some(Payload::File(f)) && f == binary)
                },
                Err(e) => {
                    ||| binfs_lookup_path(b, internal, Err(e))
                    ||| exists|v: VINode| #[trigger] binfs_lookup_path(b, internal, Ok(v)) && {
                        ||| v.number >= b.virtfs.inodes@.len()
                        ||| {
                            let pn = b.virtfs.inodes@[v.number as int].payload_number;
                            ||| pn >= b.virtfs.payloads@.len()
                            ||| b.virtfs.payloads@[pn as int] is None
                            ||| (b.virtfs.payloads@[pn as int] matches Some(Payload::Directory(_)) && e matches Errno::EISDIR(x)
                                && x@ == "exec: is a directory: "@ + pathname)
                        }
                    }
                },
            }
        },
        _ => result matches Err(Errno::EACCES(x)) && x@ == noexec,
    }
}

impl Kernel {
    /// The host path of the device that `source` names: `source` must lie
    /// in a mounted device filesystem.
    pub fn device_realpath(&self, source: &str) -> (result: Result<String, Errno>)
        requires
            self.wf(),
        ensures
            forall|c: int| #[trigger] holds_path(self.vfs.targets(), source@, c) ==> {
                let m = self.vfs.mount_points@[c];
                let last = spec_split_path(internal_path(self.vfs.targets()[c], source@)).1;
                match m.driver {
                    Driver::Dev(d) => if m.fs_type != FilesystemType::devfs {
                        result matches Err(Errno::EINVAL(x)) && x@ == "source is not a device"@
                    } else if d.spec_device_names().contains_key(last) {
                        result matches Ok(p) && p@ == d.spec_device_names()[last]
                    } else {
                        result matches Err(Errno::ENOENT(x)) && x@ == "no device corresponds to that name"@
                    },
                    _ => result matches Err(Errno::EINVAL(x)) && x@ == "source is not a device"@,
                }
            },
            result is Ok ==> exists|c: int| #[trigger] holds_path(self.vfs.targets(), source@, c),
    {
        let (mount_point, internal) = self.vfs.match_mount_point(source)?;
        let ghost c = choose|c: int| {
            &&& 0 <= c < self.vfs.targets().len()
            &&& #[trigger] self.vfs.targets()[c] == mount_point@
            &&& regex_is_match(mount_pattern(self.vfs.targets()[c]), source@) == Some(true)
            &&& none_before(self.vfs.targets(), source@, c)
            &&& is_plain_text(self.vfs.targets()[c])
            &&& internal@ == internal_path(self.vfs.targets()[c], source@)
        };
        assert(holds_path(self.vfs.targets(), source@, c));
        proof {
            assert forall|d: int| #[trigger] holds_path(self.vfs.targets(), source@, d) implies d == c by {
                lemma_holds_path_unique(self.vfs.targets(), source@, c, d);
            }
            lemma_lookup_named_at(self.vfs.mount_points@, c);
        }
        let idx = match find_named(&self.vfs.mount_points, mount_point.as_str()) {
            Some(i) => i,
            None => {
                return Err(Errno::EINVAL("source is not a device".to_owned()));
            },
        };
        let mounted = &self.vfs.mount_points[idx];
        assert(*mounted == self.vfs.mount_points@[c]);
        proof {
            reveal_strlit("/");
            assert(path_error(internal@) is None);
        }
        if mounted.fs_type != FilesystemType::devfs {
            return Err(Errno::EINVAL("source is not a device".to_owned()));
        }
        match &mounted.driver {
            Driver::Dev(devfs) => devfs.device_by_pathname(internal.as_str()),
            _ => Err(Errno::EINVAL("source is not a device".to_owned())),
        }
    }

    /// Mounts a filesystem of type `fs_type` at `target`: an e5fs read from
    /// `device_image`, the image of the device that `source` names; a new
    /// filesystem of programs; or the device filesystem of the kernel's
    /// devices. Nothing can be mounted where something is.
    pub fn mount(
        &mut self,
        source: &str,
        target: &str,
        fs_type: FilesystemType,
        device_image: Option<Vec<u8>>,
    ) -> (result: Result<(), Errno>)
        requires
            old(self).wf(),
        ensures
            final(self).wf(),
            final(self).processes@ == old(self).processes@,
            final(self).current_process_id == old(self).current_process_id,
            old(self).mounted().contains(target@) ==> (result matches Err(Errno::EINVAL(m))
                && m@ == "mount point already taken"@),
            !old(self).mounted().contains(target@) && fs_type != FilesystemType::e5fs ==> result is Ok,
            fs_type == FilesystemType::e5fs && device_image is None ==> result is Err,
            !old(self).mounted().contains(target@) && fs_type == FilesystemType::e5fs ==> (result is Ok <==> (
                names_device(*old(self), source@) && (device_image matches Some(i) && opens_as_e5fs(i@)))),
            !old(self).mounted().contains(target@) && fs_type == FilesystemType::e5fs ==> forall|c: int|
                #[trigger] holds_path(old(self).vfs.targets(), source@, c) && !is_device_mount(
                    old(self).vfs.mount_points@[c],
                ) ==> (result matches Err(Errno::EINVAL(x)) && x@ == "source is not a device"@),
            result is Ok ==> mounted_step(old(self).mounted(), target@, final(self).mounted()),
            result is Err ==> final(self).vfs.targets() == old(self).vfs.targets(),
            result is Err ==> final(self).vfs == old(self).vfs,
            result is Ok ==> exists|pos: int, m: MountedFilesystem| {
                &&& 0 <= pos <= old(self).vfs.mount_points@.len()
                &&& #[trigger] old(self).vfs.mount_points@.insert(pos, m) == final(self).vfs.mount_points@
                &&& m.target@ == target@
                &&& m.fs_type == fs_type
            },
            final(self).vfs.open_files@ == old(self).vfs.open_files@,
    {
        if self.vfs.is_mounted(target) {
            return Err(Errno::EINVAL("mount point already taken".to_owned()));
        }
        let mounted = match fs_type {
            FilesystemType::e5fs => {
                let realpath = self.device_realpath(source)?;
                let image = match device_image {
                    Some(image) => image,
                    None => {
                        let mut message = "mount: no image of the device ".to_owned();
                        message.append(realpath.as_str());
                        message.append(" was given");
                        return Err(Errno::EIO(message));
                    },
                };
                let e5fs = E5FSFilesystem::from(image)?;
                MountedFilesystem { target: target.to_owned(), fs_type: FilesystemType::e5fs, driver: Driver::E5(e5fs) }
            },
            FilesystemType::binfs => {
                let binfs = BinFilesytem::new();
                MountedFilesystem { target: target.to_owned(), fs_type: FilesystemType::binfs, driver: Driver::Bin(binfs) }
            },
            FilesystemType::devfs => {
                let devfs = DeviceFilesystem::new(self.devices());
                MountedFilesystem { target: target.to_owned(), fs_type: FilesystemType::devfs, driver: Driver::Dev(devfs) }
            },
        };
        self.vfs.insert_mount(mounted);
        Ok(())
    }

    /// Unmounts the filesystem mounted at `target`.
    pub fn umount(&mut self, target: &str) -> (result: Result<(), Errno>)
        requires
            old(self).wf(),
        ensures
            final(self).wf(),
            final(self).processes@ == old(self).processes@,
            final(self).current_process_id == old(self).current_process_id,
            old(self).mounted().contains(target@) <==> result is Ok,
            result is Ok ==> unmounted_step(old(self).mounted(), target@, final(self).mounted()),
            result matches Err(e) ==> (e matches Errno::ENOENT(m) && m@ == "no such mount point"@
                && final(self).vfs.targets() == old(self).vfs.targets()),
    {
        match self.vfs.remove_mount(target) {
            Some(_) => Ok(()),
            None => Err(Errno::ENOENT("no such mount point".to_owned())),
        }
    }

    /// The program in the file at `pathname`, which must lie in a mounted
    /// filesystem of programs.
    pub fn exec(&mut self, pathname: &str) -> (result: Result<Binary, Errno>)
        requires
            old(self).wf(),
        ensures
            final(self).wf(),
            final(self).processes@ == old(self).processes@,
            final(self).vfs.targets() == old(self).vfs.targets(),
            final(self).current_process_id == old(self).current_process_id,
            (forall|c: int| !#[trigger] holds_path(old(self).vfs.targets(), pathname@, c)) ==> result is Err,
            forall|c: int| #[trigger] holds_path(old(self).vfs.targets(), pathname@, c) ==> exec_outcome(
                old(self).vfs,
                pathname@,
                c,
                result,
            ),
    {
        let (mount_point, internal) = self.vfs.match_mount_point(pathname)?;
        let ghost c = choose|c: int| {
            &&& 0 <= c < self.vfs.targets().len()
            &&& #[trigger] self.vfs.targets()[c] == mount_point@
            &&& regex_is_match(mount_pattern(self.vfs.targets()[c]), pathname@) == Some(true)
            &&& none_before(self.vfs.targets(), pathname@, c)
            &&& is_plain_text(self.vfs.targets()[c])
            &&& internal@ == internal_path(self.vfs.targets()[c], pathname@)
        };
        assert(holds_path(self.vfs.targets(), pathname@, c));
        proof {
            assert forall|d: int| #[trigger] holds_path(self.vfs.targets(), pathname@, d) implies d == c by {
                lemma_holds_path_unique(self.vfs.targets(), pathname@, c, d);
            }
            lemma_lookup_named_at(self.vfs.mount_points@, c);
        }
        let idx = match find_named(&self.vfs.mount_points, mount_point.as_str()) {
            Some(i) => i,
            None => {
                let mut message = "exec: filesystem ".to_owned();
                message.append(mount_point.as_str());
                message.append(" is noexec");
                return Err(Errno::EACCES(message));
            },
        };
        proof {
            crate::text::lemma_sorted_names_distinct(self.vfs.targets(), idx as int, c);
            reveal_strlit("exec: filesystem ");
            reveal_strlit(" is noexec");
        }
        if self.vfs.mount_points[idx].fs_type != FilesystemType::binfs {
            let mut message = "exec: filesystem ".to_owned();
            message.append(mount_point.as_str());
            message.append(" is noexec");
            return Err(Errno::EACCES(message));
        }
        let ghost before = self.vfs.mount_points@;
        let mut mounted = self.vfs.mount_points.remove(idx);
        let result = match &mut mounted.driver {
            Driver::Bin(binfs) => match binfs.lookup_path(internal.as_str()) {
                Ok(vinode) => match binfs.virtfs.read_payload(vinode.number) {
                    Ok(Payload::File(binary)) => Ok(binary),
                    Ok(Payload::Directory(_)) => {
                        let mut message = "exec: is a directory: ".to_owned();
                        message.append(pathname);
                        Err(Errno::EISDIR(message))
                    },
                    Err(errno) => Err(errno),
                },
                Err(errno) => Err(errno),
            },
            _ => {
                let mut message = "exec: filesystem ".to_owned();
                message.append(mount_point.as_str());
                message.append(" is noexec");
                Err(Errno::EACCES(message))
            },
        };
        proof {
            lemma_put_back(before, idx as int, mounted);
        }
        self.vfs.mount_points.insert(idx, mounted);
        proof {
            assert forall|k: int| 0 <= k < self.vfs.mount_points@.len() implies (#[trigger] self.vfs.mount_points@[k]).driver.wf() by {
                if k != idx {
                    assert(self.vfs.mount_points@[k] == before[k]);
                }
            }
        }
        result
    }

    /// Makes the files `/proc/<pid>/fd/0`, `1` and `2` of `process`, after
    /// trying to make the directories `/proc/<pid>` and `/proc/<pid>/fd`,
    /// and enters each, one after another, under descriptor 0, which ends up
    /// with the last. `/proc` must be mounted.
    #[verifier::spinoff_prover]
    #[verifier::rlimit(40)]
    pub fn open_stdio_files(&mut self, process: &mut Process) -> (result: Result<(), Errno>)
        requires
            old(self).wf(),
        ensures
            final(self).wf(),
            final(self).processes@ == old(self).processes@,
            final(process).pid == old(process).pid,
            !old(self).mounted().contains("/proc"@) ==> (result matches Err(Errno::ENOENT(m))
                && m@ == "Kernel::open_stdio_files: cannot open stdio files, /proc is not mounted"@),
            result is Ok ==> (fd_lookup(final(process).file_descriptors@, 0) matches Some(d)
                && d.2 == Some("/proc/"@ + crate::text::decimal(old(process).pid as nat) + "/fd/2"@)),
            result is Ok ==> forall|k: FileDescriptor| k != 0 ==> #[trigger] fd_lookup(final(process).file_descriptors@, k)
                == fd_lookup(old(process).file_descriptors@, k),
    {
        if !self.vfs.is_mounted("/proc") {
            proof {
                assert(!self.vfs.targets().contains("/proc"@));
            }
            return Err(Errno::ENOENT(
                "Kernel::open_stdio_files: cannot open stdio files, /proc is not mounted".to_owned(),
            ));
        }
        let mut process_pathname = "/proc/".to_owned();
        process_pathname.append(decimal_string(process.pid as u64).as_str());
        let mut process_fd_pathname = process_pathname.clone();
        process_fd_pathname.append("/fd");
        match self.vfs.create_dir(process_pathname.as_str()) {
            Ok(_) => {
                let _ = self.vfs.create_dir(process_fd_pathname.as_str());
            },
            Err(_) => {},
        }
        let mut stdin_pathname = process_fd_pathname.clone();
        stdin_pathname.append("/0");
        let mut stdout_pathname = process_fd_pathname.clone();
        stdout_pathname.append("/1");
        let mut stderr_pathname = process_fd_pathname.clone();
        stderr_pathname.append("/2");
        let stdin_vinode = self.vfs.create_file(stdin_pathname.as_str())?;
        let stdout_vinode = self.vfs.create_file(stdout_pathname.as_str())?;
        let stderr_vinode = self.vfs.create_file(stderr_pathname.as_str())?;
        proof {
            lemma_pids_ordered();
        }
        process.file_descriptors.insert(
            0,
            FileDescription {
                vinode: stdin_vinode,
                flags: OpenFlags::new(OpenMode::ReadWrite, true, false),
                pathname: Some(stdin_pathname),
            },
        );
        process.file_descriptors.insert(
            0,
            FileDescription {
                vinode: stdout_vinode,
                flags: OpenFlags::new(OpenMode::ReadWrite, true, false),
                pathname: Some(stdout_pathname),
            },
        );
        let ghost last_path = stderr_pathname@;
        process.file_descriptors.insert(
            0,
            FileDescription {
                vinode: stderr_vinode,
                flags: OpenFlags::new(OpenMode::ReadWrite, true, false),
                pathname: Some(stderr_pathname),
            },
        );
        proof {
            reveal_strlit("/proc/");
            reveal_strlit("/fd");
            reveal_strlit("/2");
            reveal_strlit("/fd/2");
            assert(last_path =~= "/proc/"@ + crate::text::decimal(old(process).pid as nat) + "/fd/2"@);
        }
        Ok(())
    }
}

} // verus!

verus! {

/// Mounting at a free target and then unmounting that target leaves the
/// set of mount points as it was.
pub proof fn lemma_mount_then_umount(
    before: Set<Seq<char>>,
    target: Seq<char>,
    mounted: Set<Seq<char>>,
    after: Set<Seq<char>>,
)
    requires
        mounted_step(before, target, mounted),
        unmounted_step(mounted, target, after),
    ensures
        after == before,
{
    assert(after =~= before);
}

/// Opening a file under a free descriptor and then closing the descriptor
/// that came back leaves every descriptor of the process as it was.
pub proof fn lemma_open_then_close(
    p: Process,
    q: Process,
    flags: OpenFlags,
    pathname: Seq<char>,
    fd: FileDescriptor,
    closed: Map<FileDescriptor, FileDescription>,
)
    requires
        opened_by(p, q, flags, pathname, fd),
        fd_lookup(p.file_descriptors@, p.file_descriptors@.len() as u32) is None,
        closed_step(q.file_descriptors@, fd, closed),
    ensures
        forall|k: FileDescriptor| #[trigger] fd_lookup(closed, k) == fd_lookup(p.file_descriptors@, k),
{
    let key = p.file_descriptors@.len() as u32;
    assert(fd == key);
    assert forall|k: FileDescriptor| #[trigger] fd_lookup(closed, k) == fd_lookup(p.file_descriptors@, k) by {
        if k != fd {
            assert(fd_lookup(closed, k) == fd_lookup(q.file_descriptors@, k));
            match fd_lookup(q.file_descriptors@, key) {
                Some(d) => assert(opened_step(p.file_descriptors@, key, d, q.file_descriptors@)),
                None => {},
            }
        }
    }
}

} // verus!

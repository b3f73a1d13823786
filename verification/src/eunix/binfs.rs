//! The filesystem of programs: a virtfs whose files hold programs.
use vstd::prelude::*;
use crate::text::decimal_string;
use crate::eunix::fs::{Filesystem, AddressSize, FileMode, FileStat, VINode, VDirectory, path_error};
use crate::eunix::kernel::{Errno, Times, Args, Kernel};
use crate::eunix::virtfs::{VirtFsFile, VirtFsFilesystem, Payload, virt_vinode_of, virtfs_lookup_path, virtfs_read_dir, virtfs_stat, virtfs_create_file, virtfs_create_dir, virtfs_read_file, virtfs_write_file, virtfs_change_mode};

verus! {

/// A program of the system, by its number in the table of programs the
/// system runs; number 0 is the program that does nothing.
#[derive(Debug, Clone, Copy, PartialEq, Eq, Structural)]
pub struct Binary(pub u32);

impl Default for Binary {
    fn default() -> (binary: Self)
        ensures
            binary == Binary(0),
    {
        Binary(0)
    }
}

impl VirtFsFile for Binary {
    fn duplicate(&self) -> (copy: Self) {
        Binary(self.0)
    }

    /// The program that does nothing.
    fn default_file() -> (file: Self)
        ensures
            file == Binary(0),
    {
        Binary(0)
    }

    /// `Binary(` and the program's number and `)`.
    open spec fn rendered(&self) -> Seq<char> {
        "Binary("@ + crate::text::decimal(self.0 as nat) + ")"@
    }

    /// `Binary(` and the program's number and `)`.
    fn render(&self) -> (text: String) {
        let mut text = "Binary(".to_owned();
        let number = decimal_string(self.0 as u64);
        text.append(number.as_str());
        text.append(")");
        text
    }
}

/// The program that does nothing: it exits with code 0.
pub fn default_binary(args: Args, kernel: &mut Kernel) -> (exit_code: AddressSize)
    ensures
        exit_code == 0,
        *final(kernel) == *old(kernel),
{
    0
}

/// The filesystem of programs.
pub struct BinFilesytem {
    pub virtfs: VirtFsFilesystem<Binary>,
}

impl BinFilesytem {
    /// An empty filesystem of programs with room for 1024 files.
    pub fn new() -> (binfs: Self)
        ensures
            binfs.fs_wf(),
            binfs.virtfs.name@ == "binfs"@,
            binfs.virtfs.inodes@.len() == 1024,
    {
        BinFilesytem { virtfs: VirtFsFilesystem::new("binfs", 1024) }
    }

    /// Puts `binary` in the payload slot numbered as the inode of the file at
    /// `pathname`.
    pub fn write_binary(&mut self, pathname: &str, binary: Binary) -> (result: Result<VINode, Errno>)
        requires
            old(self).fs_wf(),
        ensures
            final(self).fs_wf(),
            binfs_write_binary(*old(self), *final(self), pathname@, binary, result),
    {
        let vinode = self.lookup_path(pathname)?;
        self.virtfs.write_payload(&Payload::File(binary), vinode.number)?;
        Ok(vinode)
    }

    /// Creates each file and puts its program in it, in order, stopping at
    /// the first that fails.
    pub fn add_bins(&mut self, binaries: Vec<(String, Binary)>) -> (result: Result<(), Errno>)
        requires
            old(self).fs_wf(),
        ensures
            final(self).fs_wf(),
            exists|states: Seq<BinFilesytem>| #[trigger] installed_in_turn(
                states,
                *old(self),
                *final(self),
                binaries@,
                result,
            ),
    {
        let ghost mut states: Seq<BinFilesytem> = seq![*self];
        let mut i: usize = 0;
        while i < binaries.len()
            invariant
                self.fs_wf(),
                i <= binaries@.len(),
                states.len() == i + 1,
                states[0] == *old(self),
                states[i as int] == *self,
                forall|k: int| 0 <= k < i ==> #[trigger] installs(
                    states[k],
                    states[k + 1],
                    binaries@[k].0@,
                    binaries@[k].1,
                    Ok(()),
                ),
            decreases binaries.len() - i,
        {
            let (pathname, binary) = &binaries[i];
            let ghost before = *self;
            let created = self.create_file(pathname.as_str());
            match created {
                Err(e) => {
                    assert(installs(before, *self, pathname@, *binary, Err(e)));
                    assert(installed_in_turn(states, *old(self), *self, binaries@, Err(e)));
                    return Err(e);
                },
                Ok(_) => {},
            }
            let written = self.write_binary(pathname.as_str(), *binary);
            match written {
                Err(e) => {
                    assert(installs(before, *self, pathname@, *binary, Err(e)));
                    assert(installed_in_turn(states, *old(self), *self, binaries@, Err(e)));
                    return Err(e);
                },
                Ok(_) => {},
            }
            assert(installs(before, *self, pathname@, *binary, Ok(())));
            proof {
                states = states.push(*self);
            }
            i = i + 1;
        }
        assert(installed_in_turn(states, *old(self), *self, binaries@, Ok(())));
        Ok(())
    }
}

/// What putting `binary` in the file at `pathname` does to the filesystem of
/// programs and returns: a failed lookup changes nothing; otherwise the
/// payload slot numbered as the file's inode holds the program, the others
/// stay, and the file is returned, unless there is no such slot.
pub open spec fn binfs_write_binary(
    before: BinFilesytem,
    after: BinFilesytem,
    pathname: Seq<char>,
    binary: Binary,
    result: Result<VINode, Errno>,
) -> bool {
    &&& after.virtfs.inodes@ == before.virtfs.inodes@
    &&& after.virtfs.name@ == before.virtfs.name@
    &&& after.virtfs.payloads@.len() == before.virtfs.payloads@.len()
    &&& exists|found: Result<VINode, Errno>| {
        &&& #[trigger] binfs_lookup_path(before, pathname, found)
        &&& found matches Err(e) ==> result == Err::<VINode, Errno>(e) && after.virtfs.payloads@
            == before.virtfs.payloads@
        &&& found matches Ok(v) ==> (v.number >= before.virtfs.payloads@.len() ==> (result matches Err(
            Errno::EIO(m)) && m@ == "virtfs: write_payload: no such inode"@ && after.virtfs.payloads@
            == before.virtfs.payloads@))
        &&& found matches Ok(v) ==> (v.number < before.virtfs.payloads@.len() ==> (result == Ok::<VINode, Errno>(v)
            && (after.virtfs.payloads@[v.number as int] matches Some(Payload::File(b)) && b == binary)
            && forall|j: int| 0 <= j < before.virtfs.payloads@.len() && j != v.number ==> #[trigger] after.virtfs.payloads@[j]
            == before.virtfs.payloads@[j]))
    }
}

/// The filesystem of programs went through `states`, from `before`, each
/// step installing the next program, all of `binaries` with `Ok`, or up to
/// one whose step failed and took it to `after` with that failure.
pub open spec fn installed_in_turn(
    states: Seq<BinFilesytem>,
    before: BinFilesytem,
    after: BinFilesytem,
    binaries: Seq<(String, Binary)>,
    result: Result<(), Errno>,
) -> bool {
    let done = states.len() - 1;
    &&& 0 <= done <= binaries.len()
    &&& states[0] == before
    &&& forall|i: int| 0 <= i < done ==> #[trigger] installs(
        states[i],
        states[i + 1],
        binaries[i].0@,
        binaries[i].1,
        Ok(()),
    )
    &&& result is Ok ==> done == binaries.len() && after == states[done]
    &&& result matches Err(e) ==> done < binaries.len() && installs(
        states[done],
        after,
        binaries[done].0@,
        binaries[done].1,
        Err(e),
    )
}

/// Installing `binary` at `pathname` took the filesystem of programs from
/// `before` to `after` with `result`: the file was created, then the program
/// put in it; a failure of either step is the result.
pub open spec fn installs(
    before: BinFilesytem,
    after: BinFilesytem,
    pathname: Seq<char>,
    binary: Binary,
    result: Result<(), Errno>,
) -> bool {
    exists|made: BinFilesytem, created: Result<VINode, Errno>| {
        &&& #[trigger] binfs_create_file(before, made, pathname, created)
        &&& created matches Err(e) ==> result == Err::<(), Errno>(e) && after == made
        &&& created is Ok ==> exists|written: Result<VINode, Errno>| {
            &&& #[trigger] binfs_write_binary(made, after, pathname, binary, written)
            &&& written matches Err(e) ==> result == Err::<(), Errno>(e)
            &&& written is Ok ==> result is Ok
        }
    }
}

/// What looking up `pathname` in the filesystem of programs returns.
pub open spec fn binfs_lookup_path(fs: BinFilesytem, pathname: Seq<char>, result: Result<VINode, Errno>) -> bool {
    virtfs_lookup_path(fs.virtfs, pathname, result)
}

/// What reading the file at `pathname` does to the filesystem of programs and returns.
pub open spec fn binfs_read_file(before: BinFilesytem, after: BinFilesytem, pathname: Seq<char>, result: Result<Vec<u8>, Errno>) -> bool {
    virtfs_read_file(before.virtfs, after.virtfs, pathname, result)
}

/// What writing `data` as the file at `pathname` does to the filesystem of programs and returns.
pub open spec fn binfs_write_file(before: BinFilesytem, after: BinFilesytem, pathname: Seq<char>, data: Seq<u8>, result: Result<VINode, Errno>) -> bool {
    virtfs_write_file(before.virtfs, after.virtfs, pathname, data, result)
}

/// What listing the directory at `pathname` in the filesystem of programs returns.
pub open spec fn binfs_read_dir(fs: BinFilesytem, pathname: Seq<char>, result: Result<VDirectory, Errno>) -> bool {
    virtfs_read_dir(fs.virtfs, pathname, result)
}

/// What reporting on the file at `pathname` in the filesystem of programs returns.
pub open spec fn binfs_stat(fs: BinFilesytem, pathname: Seq<char>, result: Result<FileStat, Errno>) -> bool {
    virtfs_stat(fs.virtfs, pathname, result)
}

/// What replacing the mode of the file at `pathname` with `mode` does to the filesystem of programs and returns.
pub open spec fn binfs_change_mode(before: BinFilesytem, after: BinFilesytem, pathname: Seq<char>, mode: FileMode, result: Result<(), Errno>) -> bool {
    virtfs_change_mode(before.virtfs, after.virtfs, pathname, mode, result)
}

/// What replacing the times of the file at `pathname` with `times` does to the filesystem of programs and returns.
pub open spec fn binfs_change_times(before: BinFilesytem, after: BinFilesytem, pathname: Seq<char>, times: Times, result: Result<(), Errno>) -> bool {
    &&& after == before
    &&& (result matches Err(Errno::ENOSYS(m)) && m@ == "binfs: change_times is not supported"@)
}

/// What creating a file at `pathname` does to the filesystem of programs and returns.
pub open spec fn binfs_create_file(before: BinFilesytem, after: BinFilesytem, pathname: Seq<char>, result: Result<VINode, Errno>) -> bool {
    virtfs_create_file(before.virtfs, after.virtfs, pathname, result)
}

/// What removing the file at `pathname` does to the filesystem of programs and returns.
pub open spec fn binfs_remove_file(before: BinFilesytem, after: BinFilesytem, pathname: Seq<char>, result: Result<(), Errno>) -> bool {
    &&& after == before
    &&& (result matches Err(Errno::ENOSYS(m)) && m@ == "binfs: remove_file is not supported"@)
}

/// What creating a directory at `pathname` does to the filesystem of programs and returns.
pub open spec fn binfs_create_dir(before: BinFilesytem, after: BinFilesytem, pathname: Seq<char>, result: Result<VINode, Errno>) -> bool {
    virtfs_create_dir(before.virtfs, after.virtfs, pathname, result)
}

impl Filesystem for BinFilesytem {
    open spec fn fs_wf(&self) -> bool {
        self.virtfs.tables_wf()
    }

    fn create_file(&mut self, pathname: &str) -> (result: Result<VINode, Errno>)
        ensures
            binfs_create_file(*old(self), *final(self), pathname@, result),
    {
        self.virtfs.create_file(pathname)
    }

    /// Removing programs is not supported.
    fn remove_file(&mut self, pathname: &str) -> (result: Result<(), Errno>)
        ensures
            binfs_remove_file(*old(self), *final(self), pathname@, result),
    {
        Err(Errno::ENOSYS("binfs: remove_file is not supported".to_owned()))
    }

    fn create_dir(&mut self, pathname: &str) -> (result: Result<VINode, Errno>)
        ensures
            binfs_create_dir(*old(self), *final(self), pathname@, result),
    {
        self.virtfs.create_dir(pathname)
    }

    fn read_file(&mut self, pathname: &str, count: AddressSize) -> (result: Result<Vec<u8>, Errno>)
        ensures
            binfs_read_file(*old(self), *final(self), pathname@, result),
    {
        self.virtfs.read_file(pathname, count)
    }

    fn write_file(&mut self, pathname: &str, data: &[u8]) -> (result: Result<VINode, Errno>)
        ensures
            binfs_write_file(*old(self), *final(self), pathname@, data@, result),
    {
        self.virtfs.write_file(pathname, data)
    }

    fn read_dir(&self, pathname: &str) -> (result: Result<VDirectory, Errno>)
        ensures
            binfs_read_dir(*self, pathname@, result),
    {
        self.virtfs.read_dir(pathname)
    }

    fn stat(&self, pathname: &str) -> (result: Result<FileStat, Errno>)
        ensures
            binfs_stat(*self, pathname@, result),
    {
        self.virtfs.stat(pathname)
    }

    fn change_mode(&mut self, pathname: &str, mode: FileMode) -> (result: Result<(), Errno>)
        ensures
            binfs_change_mode(*old(self), *final(self), pathname@, mode, result),
    {
        self.virtfs.change_mode(pathname, mode)
    }

    /// Changing times is not supported.
    fn change_times(&mut self, pathname: &str, times: Times) -> (result: Result<(), Errno>)
        ensures
            binfs_change_times(*old(self), *final(self), pathname@, times, result),
    {
        Err(Errno::ENOSYS("binfs: change_times is not supported".to_owned()))
    }

    fn lookup_path(&self, pathname: &str) -> (result: Result<VINode, Errno>)
        ensures
            binfs_lookup_path(*self, pathname@, result),
    {
        self.virtfs.lookup_path(pathname)
    }

    /// The driver's name: `binfs`.
    fn name(&self) -> (name: String)
        ensures
            name@ == "binfs"@,
    {
        "binfs".to_owned()
    }
}

} // verus!

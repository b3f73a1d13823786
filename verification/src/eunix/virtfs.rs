//! An in-memory filesystem whose files hold values of a type of the
//! caller's choice: a table of inodes and a table of payloads, each payload
//! either a directory or a file.
use vstd::prelude::*;
use crate::text::{decimal, join_with, Named, names_of, sorted_names, lookup_named, find_named, upsert_named, remove_named, has_name, lemma_lookup_named_some, lemma_lookup_named_at, lemma_remove_keeps_other, decimal_string, join, str_eq, views};
use crate::eunix::fs::{Filesystem, AddressSize, Id, FileMode, FileStat, VINode, VDirectory, VDirectoryEntry, NO_ADDRESS, NOBODY, path_error, spec_split_path, split_path, free_of, type_of, spliced, lemma_with_free_reads_back, lemma_with_type_reads_back};
use crate::eunix::kernel::{Errno, Times, UnixtimeSize};
use vstd::utf8::encode_utf8;

verus! {

/// What a virtfs file can hold: a value that can be copied, has an empty
/// form, and can be shown as text.
pub trait VirtFsFile: Sized {
    /// A copy of the file.
    fn duplicate(&self) -> (copy: Self)
        ensures
            copy == *self,
    ;

    /// An empty file.
    fn default_file() -> (file: Self);

    /// What the file reads as.
    spec fn rendered(&self) -> Seq<char>;

    /// The file as text.
    fn render(&self) -> (text: String)
        ensures
            text@ == self.rendered(),
    ;
}

/// The inode number of the root directory.
pub const ROOT_INODE_NUMBER: AddressSize = 0;

/// An entry of a virtfs directory: a name and the inode it leads to.
#[derive(Debug, PartialEq, Eq)]
pub struct DirectoryEntry {
    pub inode_number: AddressSize,
    pub name: String,
}

impl Named for DirectoryEntry {
    open spec fn spec_name(&self) -> Seq<char> {
        self.name@
    }

    fn name_str(&self) -> (s: &str) {
        self.name.as_str()
    }
}

impl DirectoryEntry {
    /// An entry `name` leading to inode `inode_number`.
    pub fn new(inode_number: AddressSize, name: &str) -> (result: Result<Self, Errno>)
        ensures
            result matches Ok(e) && e.inode_number == inode_number && e.name@ == name@,
    {
        Ok(DirectoryEntry { inode_number, name: name.to_owned() })
    }
}

/// A virtfs directory: entries sorted by name, none twice.
#[derive(Debug, PartialEq, Eq)]
pub struct Directory {
    pub entries: Vec<DirectoryEntry>,
}

impl View for Directory {
    type V = Map<Seq<char>, AddressSize>;

    /// Each name with the inode it leads to.
    open spec fn view(&self) -> Map<Seq<char>, AddressSize> {
        Map::new(
            |n: Seq<char>| lookup_named(self.entries@, n) is Some,
            |n: Seq<char>| lookup_named(self.entries@, n).unwrap().inode_number,
        )
    }
}

impl Directory {
    /// Entries sorted by name, none twice.
    pub open spec fn wf(&self) -> bool {
        sorted_names(names_of(self.entries@))
    }

    /// An empty directory.
    pub fn new() -> (dir: Self)
        ensures
            dir.wf(),
            dir@ == Map::<Seq<char>, AddressSize>::empty(),
    {
        let dir = Directory { entries: Vec::new() };
        proof {
            assert forall|n: Seq<char>| !dir@.contains_key(n) by {
                lemma_lookup_named_some(dir.entries@, n);
            }
            assert(dir@ =~= Map::<Seq<char>, AddressSize>::empty());
        }
        dir
    }

    /// The directory of the given entries, sorted by name.
    pub fn from(entries: Vec<DirectoryEntry>) -> (dir: Self)
        requires
            sorted_names(names_of(entries@)),
        ensures
            dir.wf(),
            dir.entries@ == entries@,
    {
        Directory { entries }
    }

    /// The inode the entry `name` leads to, if there is one.
    pub fn get(&self, name: &str) -> (inode_number: Option<AddressSize>)
        requires
            self.wf(),
        ensures
            self@.contains_key(name@) ==> inode_number == Some(self@[name@]),
            !self@.contains_key(name@) ==> inode_number is None,
    {
        proof {
            lemma_lookup_named_some(self.entries@, name@);
        }
        match find_named(&self.entries, name) {
            Some(i) => Some(self.entries[i].inode_number),
            None => None,
        }
    }

    /// Sets the entry `name` to lead to inode `inode_number`, in place of
    /// the entry of that name if there is one.
    pub fn insert(&mut self, inode_number: AddressSize, name: &str) -> (result: Result<(), Errno>)
        requires
            old(self).wf(),
        ensures
            final(self).wf(),
            result is Ok,
            final(self)@ == old(self)@.insert(name@, inode_number),
    {
        let entry = DirectoryEntry::new(inode_number, name)?;
        let ghost before = self.entries@;
        let ghost old_view = self@;
        upsert_named(&mut self.entries, entry);
        proof {
            assert forall|n: Seq<char>| #[trigger] self@.contains_key(n) == old_view.insert(name@, inode_number).contains_key(n)
                by {
                lemma_lookup_named_some(self.entries@, n);
                lemma_lookup_named_some(before, n);
            }
            assert(self@ =~= old_view.insert(name@, inode_number));
        }
        Ok(())
    }

    /// Removes the entry `name`.
    pub fn remove(&mut self, name: &str) -> (result: Result<(), Errno>)
        requires
            old(self).wf(),
        ensures
            final(self).wf(),
            final(self)@ == old(self)@.remove(name@),
            old(self)@.contains_key(name@) <==> result is Ok,
            result matches Err(e) ==> e matches Errno::ENOENT(m) && m@ == "no such file in directory"@,
    {
        let ghost before = self.entries@;
        let ghost old_view = self@;
        proof {
            lemma_lookup_named_some(before, name@);
        }
        let removed = remove_named(&mut self.entries, name);
        proof {
            lemma_lookup_named_some(self.entries@, name@);
            if removed is Some {
                let e = removed.unwrap();
                let pos = choose|pos: int| 0 <= pos < before.len() && before[pos] == e
                    && self.entries@ == before.remove(pos);
                lemma_lookup_named_at(before, pos);
                assert forall|n: Seq<char>| n != name@ implies lookup_named(self.entries@, n) == lookup_named(before, n) by {
                    lemma_remove_keeps_other(before, pos, n);
                }
                assert(!has_name(names_of(self.entries@), name@)) by {
                    if has_name(names_of(self.entries@), name@) {
                        let k = choose|k: int| 0 <= k < names_of(self.entries@).len() && names_of(self.entries@)[k] == name@;
                        assert(names_of(self.entries@).to_set().contains(name@));
                    }
                }
            }
            assert(self@ =~= old_view.remove(name@));
        }
        match removed {
            Some(_) => Ok(()),
            None => Err(Errno::ENOENT("no such file in directory".to_owned())),
        }
    }

    /// A copy of the directory.
    pub fn duplicate(&self) -> (copy: Self)
        requires
            self.wf(),
        ensures
            copy.wf(),
            copy@ == self@,
            names_of(copy.entries@) == names_of(self.entries@),
    {
        let mut entries: Vec<DirectoryEntry> = Vec::new();
        let mut i: usize = 0;
        while i < self.entries.len()
            invariant
                i <= self.entries@.len(),
                entries@.len() == i,
                forall|k: int| 0 <= k < i ==> (#[trigger] entries@[k]).name@ == self.entries@[k].name@
                    && entries@[k].inode_number == self.entries@[k].inode_number,
            decreases self.entries.len() - i,
        {
            entries.push(DirectoryEntry { inode_number: self.entries[i].inode_number, name: self.entries[i].name.clone() });
            i = i + 1;
        }
        let copy = Directory { entries };
        proof {
            assert(names_of(copy.entries@) =~= names_of(self.entries@));
            assert forall|n: Seq<char>| #[trigger] copy@.contains_key(n) == self@.contains_key(n) && (copy@.contains_key(n)
                ==> copy@[n] == self@[n]) by {
                crate::text::lemma_first_index_of(names_of(self.entries@), n);
            }
            assert(copy@ =~= self@);
        }
        copy
    }

    /// The listing of the directory: each name with the inode it leads to,
    /// in the same order.
    pub fn to_vdirectory(&self) -> (listing: VDirectory)
        requires
            self.wf(),
        ensures
            listing.wf(),
            listing@ == self@,
    {
        let mut entries: Vec<VDirectoryEntry> = Vec::new();
        let mut i: usize = 0;
        while i < self.entries.len()
            invariant
                i <= self.entries@.len(),
                entries@.len() == i,
                forall|k: int| 0 <= k < i ==> (#[trigger] entries@[k]).name@ == self.entries@[k].name@
                    && entries@[k].inode_number == self.entries@[k].inode_number,
            decreases self.entries.len() - i,
        {
            entries.push(VDirectoryEntry::new(self.entries[i].inode_number, self.entries[i].name.as_str()));
            i = i + 1;
        }
        let listing = VDirectory { entries };
        proof {
            assert(names_of(listing.entries@) =~= names_of(self.entries@));
            assert forall|n: Seq<char>| #[trigger] listing@.contains_key(n) == self@.contains_key(n) && (listing@.contains_key(
                n,
            ) ==> listing@[n] == self@[n]) by {
                crate::text::lemma_first_index_of(names_of(self.entries@), n);
            }
            assert(listing@ =~= self@);
        }
        listing
    }

    /// The directory shown as text: `Directory { entries: {` then, for each
    /// entry, its name in quotes, `: DirectoryEntry { inode_number: `, its
    /// inode number, `, name: `, its name in quotes and ` }`, separated by
    /// `, `, then `} }`.
    pub fn render(&self) -> (text: String)
        ensures
            text@ == "Directory { entries: {"@ + entries_text(self.entries@) + "} }"@,
    {
        let mut text = "Directory { entries: {".to_owned();
        let mut i: usize = 0;
        while i < self.entries.len()
            invariant
                i <= self.entries@.len(),
                text@ == "Directory { entries: {"@ + entries_text(self.entries@.take(i as int)),
            decreases self.entries.len() - i,
        {
            let ghost before = text@;
            if i > 0 {
                text.append(", ");
            }
            text.append("\"");
            text.append(self.entries[i].name.as_str());
            text.append("\": DirectoryEntry { inode_number: ");
            let number = decimal_string(self.entries[i].inode_number as u64);
            text.append(number.as_str());
            text.append(", name: \"");
            text.append(self.entries[i].name.as_str());
            text.append("\" }");
            proof {
                let taken = self.entries@.take(i + 1);
                assert(taken.drop_last() =~= self.entries@.take(i as int));
                assert(taken.last() == self.entries@[i as int]);
                if i == 0 {
                    assert(self.entries@.take(0) =~= Seq::<DirectoryEntry>::empty());
                }
                assert(text@ =~= "Directory { entries: {"@ + entries_text(taken));
            }
            i = i + 1;
        }
        proof {
            assert(self.entries@.take(i as int) =~= self.entries@);
        }
        text.append("} }");
        text
    }
}

/// An entry as a directory shows it: its name in quotes, then
/// `: DirectoryEntry { inode_number: `, the number, `, name: `, the name in
/// quotes and ` }`.
pub open spec fn entry_text(e: DirectoryEntry) -> Seq<char> {
    "\""@ + e.name@ + "\": DirectoryEntry { inode_number: "@ + decimal(e.inode_number as nat) + ", name: \""@
        + e.name@ + "\" }"@
}

/// Entries as a directory shows them, in order, separated by `, `.
pub open spec fn entries_text(es: Seq<DirectoryEntry>) -> Seq<char>
    decreases es.len(),
{
    if es.len() == 0 {
        Seq::empty()
    } else if es.len() == 1 {
        entry_text(es[0])
    } else {
        entries_text(es.drop_last()) + ", "@ + entry_text(es.last())
    }
}

/// What a virtfs payload holds: a directory or a file.
#[derive(Debug)]
pub enum Payload<T: VirtFsFile> {
    Directory(Directory),
    File(T),
}

impl<T: VirtFsFile> Payload<T> {
    /// Payloads that are directories hold well-formed ones.
    pub open spec fn wf(&self) -> bool {
        match self {
            Payload::Directory(d) => d.wf(),
            Payload::File(_) => true,
        }
    }

    /// A copy of the payload.
    pub fn duplicate(&self) -> (copy: Self)
        requires
            self.wf(),
        ensures
            copy.wf(),
            match (self, copy) {
                (Payload::Directory(a), Payload::Directory(b)) => a@ == b@,
                (Payload::File(a), Payload::File(b)) => a == b,
                _ => false,
            },
    {
        match self {
            Payload::Directory(d) => Payload::Directory(d.duplicate()),
            Payload::File(f) => Payload::File(f.duplicate()),
        }
    }

    /// An empty file.
    pub fn default() -> (payload: Self)
        ensures
            payload is File,
    {
        Payload::File(T::default_file())
    }

    /// The payload as text.
    pub fn render(&self) -> (text: String)
        ensures
            self matches Payload::File(f) ==> text@ == f.rendered(),
            self matches Payload::Directory(d) ==> text@ == "Directory { entries: {"@ + entries_text(d.entries@) + "} }"@,
    {
        match self {
            Payload::Directory(d) => d.render(),
            Payload::File(f) => f.render(),
        }
    }
}

/// A virtfs inode.
#[derive(Debug, Clone, Copy, PartialEq, Eq)]
pub struct INode {
    pub mode: FileMode,
    pub links_count: AddressSize,
    pub uid: Id,
    pub gid: Id,
    pub file_size: AddressSize,
    pub atime: UnixtimeSize,
    pub mtime: UnixtimeSize,
    pub ctime: UnixtimeSize,
    pub btime: UnixtimeSize,
    pub payload_number: AddressSize,
    pub number: AddressSize,
}

/// The inode every slot of a new table holds.
pub open spec fn default_inode() -> INode {
    INode {
        mode: FileMode(0b0_000_000_110_000_000),
        links_count: 0,
        uid: NOBODY,
        gid: NOBODY,
        file_size: 0,
        atime: 0,
        mtime: 0,
        ctime: 0,
        btime: 0,
        payload_number: NO_ADDRESS,
        number: 0,
    }
}

impl Default for INode {
    fn default() -> (inode: Self)
        ensures
            inode == default_inode(),
    {
        INode {
            mode: FileMode(0b0_000_000_110_000_000),
            links_count: 0,
            uid: NOBODY,
            gid: NOBODY,
            file_size: 0,
            atime: 0,
            mtime: 0,
            ctime: 0,
            btime: 0,
            payload_number: NO_ADDRESS,
            number: 0,
        }
    }
}

/// How the filesystem layer sees a virtfs inode.
pub open spec fn virt_vinode_of(inode: INode) -> VINode {
    VINode {
        mode: inode.mode,
        links_count: inode.links_count,
        uid: inode.uid,
        gid: inode.gid,
        file_size: inode.file_size,
        atime: inode.atime,
        mtime: inode.mtime,
        ctime: inode.ctime,
        btime: inode.btime,
        number: inode.number,
    }
}

fn vinode_from(inode: &INode) -> (v: VINode)
    ensures
        v == virt_vinode_of(*inode),
{
    VINode {
        mode: inode.mode,
        links_count: inode.links_count,
        uid: inode.uid,
        gid: inode.gid,
        file_size: inode.file_size,
        atime: inode.atime,
        mtime: inode.mtime,
        ctime: inode.ctime,
        btime: inode.btime,
        number: inode.number,
    }
}

/// A block of bytes.
#[derive(Debug, Default)]
pub struct Block {
    pub data: Vec<u8>,
}

/// The bookkeeping of a virtfs.
#[derive(Debug, Default)]
pub struct Superblock {
    pub filesystem_size: AddressSize,
    pub blocks_count: AddressSize,
}

impl Superblock {
    /// An empty superblock.
    pub fn new() -> (s: Self)
        ensures
            s.filesystem_size == 0,
            s.blocks_count == 0,
    {
        Superblock { filesystem_size: 0, blocks_count: 0 }
    }
}

/// An in-memory filesystem whose files hold values of type `T`.
pub struct VirtFsFilesystem<T: VirtFsFile> {
    pub superblock: Superblock,
    pub name: String,
    pub inodes: Vec<INode>,
    pub payloads: Vec<Option<Payload<T>>>,
}

} // verus!

verus! {

/// Two payloads hold the same: the same directory, or equal files.
pub open spec fn same_payload<T: VirtFsFile>(a: Payload<T>, b: Payload<T>) -> bool {
    match (a, b) {
        (Payload::Directory(x), Payload::Directory(y)) => x@ == y@,
        (Payload::File(x), Payload::File(y)) => x == y,
        _ => false,
    }
}

/// `inode` with its free flag set to `flag`.
pub open spec fn with_free(inode: INode, flag: u8) -> INode {
    INode { mode: FileMode(spliced(inode.mode.0, 15, 1, flag) as u16), ..inode }
}

impl<T: VirtFsFile> VirtFsFilesystem<T> {
    /// The tables can be indexed by inode numbers, and every directory
    /// payload is well formed.
    pub open spec fn tables_wf(&self) -> bool {
        &&& self.inodes@.len() <= 0xFFFF_FFFF
        &&& self.payloads@.len() <= 0xFFFF_FFFF
        &&& forall|k: int| 0 <= k < self.payloads@.len() ==> (#[trigger] self.payloads@[k] matches Some(p) ==> p.wf())
    }

    /// The directory the file of inode `n` holds, as names to inode numbers,
    /// where it holds one.
    pub open spec fn dir_at(&self, n: AddressSize) -> Option<Map<Seq<char>, AddressSize>> {
        if n < self.inodes@.len() && self.inodes@[n as int].payload_number < self.payloads@.len() {
            match self.payloads@[self.inodes@[n as int].payload_number as int] {
                Some(Payload::Directory(d)) => Some(d@),
                _ => None,
            }
        } else {
            None
        }
    }

    /// The inode reached from inode `start` by looking the names up one
    /// after another: each step needs an inode of directory type whose file
    /// holds a directory with the name, naming an inode of the table.
    pub open spec fn walk(&self, start: INode, names: Seq<Seq<char>>) -> Option<INode>
        decreases names.len(),
    {
        if names.len() == 0 {
            Some(start)
        } else if type_of(start.mode.0) != 1 {
            None
        } else {
            match self.dir_at(start.number) {
                Some(m) => if m.contains_key(names[0]) && m[names[0]] < self.inodes@.len() {
                    self.walk(self.inodes@[m[names[0]] as int], names.drop_first())
                } else {
                    None
                },
                None => None,
            }
        }
    }

    /// The inode `pathname` names: the root for `/`, else the entry for the
    /// last name in the directory that the other names lead to from the root.
    pub open spec fn resolve(&self, pathname: Seq<char>) -> Option<INode> {
        let (dirs, last) = spec_split_path(pathname);
        if self.inodes@.len() == 0 {
            None
        } else if dirs.len() == 0 && last == seq!['/'] {
            Some(self.inodes@[0])
        } else {
            match self.walk(self.inodes@[0], dirs) {
                Some(d) => match self.dir_at(d.number) {
                    Some(m) => if m.contains_key(last) && m[last] < self.inodes@.len() {
                        Some(self.inodes@[m[last] as int])
                    } else {
                        None
                    },
                    None => None,
                },
                None => None,
            }
        }
    }

    /// Walks end at inodes of the table, or where they started.
    pub proof fn lemma_walk_in_table(&self, start: INode, names: Seq<Seq<char>>)
        ensures
            self.walk(start, names) matches Some(i) ==> (i == start || exists|k: int| 0 <= k < self.inodes@.len()
                && i == self.inodes@[k]),
        decreases names.len(),
    {
        if names.len() > 0 && type_of(start.mode.0) == 1 {
            if let Some(m) = self.dir_at(start.number) {
                if m.contains_key(names[0]) && m[names[0]] < self.inodes@.len() {
                    let next = self.inodes@[m[names[0]] as int];
                    self.lemma_walk_in_table(next, names.drop_first());
                }
            }
        }
    }

    /// Takes the first free inode and marks it used.
    pub fn claim_free_inode(&mut self) -> (result: Result<AddressSize, Errno>)
        requires
            old(self).tables_wf(),
        ensures
            final(self).tables_wf(),
            final(self).payloads@ == old(self).payloads@,
            final(self).name@ == old(self).name@,
            match result {
                Ok(n) => {
                    &&& n < old(self).inodes@.len()
                    &&& free_of(old(self).inodes@[n as int].mode.0) == 1
                    &&& forall|j: int| 0 <= j < n ==> free_of(#[trigger] old(self).inodes@[j].mode.0) != 1
                    &&& final(self).inodes@ == old(self).inodes@.update(n as int, with_free(old(self).inodes@[n as int], 0))
                },
                Err(e) => {
                    &&& forall|j: int| 0 <= j < old(self).inodes@.len() ==> free_of(#[trigger] old(self).inodes@[j].mode.0) != 1
                    &&& e matches Errno::ENOSPC(m) && m@ == "virtfs: no free inodes left"@
                    &&& final(self).inodes@ == old(self).inodes@
                },
            },
    {
        let mut k: usize = 0;
        while k < self.inodes.len()
            invariant
                k <= self.inodes@.len(),
                self.tables_wf(),
                self.inodes@ == old(self).inodes@,
                self.payloads@ == old(self).payloads@,
                self.name@ == old(self).name@,
                forall|j: int| 0 <= j < k ==> free_of(#[trigger] self.inodes@[j].mode.0) != 1,
            decreases self.inodes.len() - k,
        {
            if self.inodes[k].mode.free() == 1 {
                let mut inode = self.inodes[k];
                proof {
                    lemma_with_free_reads_back(inode.mode.0, 0);
                }
                inode.mode = inode.mode.with_free(0);
                self.inodes.set(k, inode);
                return Ok(k as u32);
            }
            k = k + 1;
        }
        Err(Errno::ENOSPC("virtfs: no free inodes left".to_owned()))
    }

    /// The first free payload slot.
    pub fn claim_free_payload(&self) -> (result: Result<AddressSize, Errno>)
        requires
            self.tables_wf(),
        ensures
            match result {
                Ok(n) => n < self.payloads@.len() && self.payloads@[n as int] is None && forall|j: int|
                    0 <= j < n ==> #[trigger] self.payloads@[j] is Some,
                Err(e) => (forall|j: int| 0 <= j < self.payloads@.len() ==> #[trigger] self.payloads@[j] is Some)
                    && (e matches Errno::ENOSPC(m) && m@ == "virtfs: no free blocks (payloads) left"@),
            },
    {
        let mut k: usize = 0;
        while k < self.payloads.len()
            invariant
                k <= self.payloads@.len(),
                self.payloads@.len() <= 0xFFFF_FFFF,
                forall|j: int| 0 <= j < k ==> #[trigger] self.payloads@[j] is Some,
            decreases self.payloads.len() - k,
        {
            if self.payloads[k].is_none() {
                return Ok(k as u32);
            }
            k = k + 1;
        }
        Err(Errno::ENOSPC("virtfs: no free blocks (payloads) left".to_owned()))
    }

    /// Stores `inode` in slot `free_inode_number`.
    pub fn write_inode(&mut self, inode: &INode, free_inode_number: u32) -> (result: Result<(), Errno>)
        requires
            old(self).tables_wf(),
        ensures
            final(self).tables_wf(),
            final(self).payloads@ == old(self).payloads@,
            final(self).name@ == old(self).name@,
            free_inode_number < old(self).inodes@.len() ==> result is Ok && final(self).inodes@
                == old(self).inodes@.update(free_inode_number as int, *inode),
            free_inode_number >= old(self).inodes@.len() ==> (result matches Err(Errno::EIO(m))
                && m@ == "virtfs: write_inode: no such inode"@ && final(self).inodes@ == old(self).inodes@),
    {
        if (free_inode_number as usize) < self.inodes.len() {
            self.inodes.set(free_inode_number as usize, *inode);
            Ok(())
        } else {
            Err(Errno::EIO("virtfs: write_inode: no such inode".to_owned()))
        }
    }

    /// Stores a copy of `payload` in payload slot `free_payload_number`.
    pub fn write_payload(&mut self, payload: &Payload<T>, free_payload_number: u32) -> (result: Result<(), Errno>)
        requires
            old(self).tables_wf(),
            payload.wf(),
        ensures
            final(self).tables_wf(),
            final(self).inodes@ == old(self).inodes@,
            final(self).name@ == old(self).name@,
            final(self).payloads@.len() == old(self).payloads@.len(),
            free_payload_number < old(self).payloads@.len() ==> result is Ok && (final(self).payloads@[free_payload_number as int] matches Some(p)
                && same_payload(p, *payload)) && forall|j: int| 0 <= j < old(self).payloads@.len() && j != free_payload_number ==> #[trigger] final(self).payloads@[j] == old(self).payloads@[j],
            free_payload_number >= old(self).payloads@.len() ==> (result matches Err(Errno::EIO(m))
                && m@ == "virtfs: write_payload: no such inode"@ && final(self).payloads@ == old(self).payloads@),
    {
        if (free_payload_number as usize) < self.payloads.len() {
            let copy = payload.duplicate();
            self.payloads.set(free_payload_number as usize, Some(copy));
            Ok(())
        } else {
            Err(Errno::EIO("virtfs: write_payload: no such inode".to_owned()))
        }
    }

    /// The inode in slot `inode_number`.
    pub fn read_inode(&self, inode_number: AddressSize) -> (result: Result<INode, Errno>)
        ensures
            inode_number < self.inodes@.len() ==> result == Ok::<INode, Errno>(self.inodes@[inode_number as int]),
            inode_number >= self.inodes@.len() ==> (result matches Err(Errno::ENOENT(m))
                && m@ == "virtfs: read_inode: no such file or directory"@),
    {
        if (inode_number as usize) < self.inodes.len() {
            Ok(self.inodes[inode_number as usize])
        } else {
            Err(Errno::ENOENT("virtfs: read_inode: no such file or directory".to_owned()))
        }
    }

    /// The payload of the file of inode `inode_number`.
    pub fn read_from_file(&self, inode_number: AddressSize) -> (result: Result<Payload<T>, Errno>)
        requires
            self.tables_wf(),
        ensures
            inode_number >= self.inodes@.len() ==> result matches Err(Errno::ENOENT(_)),
            inode_number < self.inodes@.len() ==> {
                let pn = self.inodes@[inode_number as int].payload_number;
                &&& pn >= self.payloads@.len() ==> (result matches Err(Errno::EIO(_)))
                &&& pn < self.payloads@.len() && self.payloads@[pn as int] is None ==> (result matches Err(Errno::EIO(_)))
                &&& pn < self.payloads@.len() ==> (self.payloads@[pn as int] matches Some(p) ==> (result matches Ok(q)
                    && q.wf() && same_payload(q, p)))
            },
    {
        let payload_number = self.read_inode(inode_number)?.payload_number;
        if (payload_number as usize) >= self.payloads.len() {
            let mut message = "virtfs: read_from_file: no payload for inode #".to_owned();
            message.append(decimal_string(inode_number as u64).as_str());
            message.append(" (payload_number was #");
            message.append(decimal_string(payload_number as u64).as_str());
            message.append(") [1]");
            return Err(Errno::EIO(message));
        }
        match &self.payloads[payload_number as usize] {
            Some(p) => Ok(p.duplicate()),
            None => {
                let mut message = "virtfs: read_from_file: no payload for inode #".to_owned();
                message.append(decimal_string(inode_number as u64).as_str());
                message.append(" (payload_number was #");
                message.append(decimal_string(payload_number as u64).as_str());
                message.append(") [2]");
                Err(Errno::EIO(message))
            },
        }
    }

    /// The payload of the file of inode `inode_number`.
    pub fn read_payload(&mut self, inode_number: AddressSize) -> (result: Result<Payload<T>, Errno>)
        requires
            old(self).tables_wf(),
        ensures
            final(self).tables_wf(),
            final(self).inodes@ == old(self).inodes@,
            final(self).payloads@ == old(self).payloads@,
            final(self).name@ == old(self).name@,
            inode_number >= old(self).inodes@.len() ==> result matches Err(Errno::ENOENT(_)),
            inode_number < old(self).inodes@.len() ==> {
                let pn = old(self).inodes@[inode_number as int].payload_number;
                &&& (pn >= old(self).payloads@.len() || old(self).payloads@[pn as int] is None) ==> (result matches Err(
                    Errno::ENOENT(_)))
                &&& pn < old(self).payloads@.len() ==> (old(self).payloads@[pn as int] matches Some(p) ==> (result matches Ok(q)
                    && q.wf() && same_payload(q, p)))
            },
    {
        let mut message = "virtfs: read_payload: payload does not exist for inode ".to_owned();
        message.append(decimal_string(inode_number as u64).as_str());
        if (inode_number as usize) >= self.inodes.len() {
            return Err(Errno::ENOENT(message));
        }
        let payload_number = self.inodes[inode_number as usize].payload_number;
        if (payload_number as usize) >= self.payloads.len() {
            return Err(Errno::ENOENT(message));
        }
        match &self.payloads[payload_number as usize] {
            Some(p) => Ok(p.duplicate()),
            None => Err(Errno::ENOENT(message)),
        }
    }

    /// The directory the file of inode `inode_number` holds.
    pub fn read_dir_from_inode(&self, inode_number: AddressSize) -> (result: Result<Directory, Errno>)
        requires
            self.tables_wf(),
        ensures
            result matches Ok(d) ==> d.wf() && inode_number < self.inodes@.len() && {
                let pn = self.inodes@[inode_number as int].payload_number;
                pn < self.payloads@.len() && (self.payloads@[pn as int] matches Some(Payload::Directory(x)) && x@ == d@)
            },
            match self.dir_at(inode_number) {
                Some(m) => result matches Ok(d) && d@ == m,
                None => result is Err,
            },
    {
        match self.read_from_file(inode_number)? {
            Payload::Directory(directory) => Ok(directory),
            Payload::File(_) => Err(Errno::ENOTDIR(
                "tried to read file from inode (TODO: inode number here), got directory".to_owned(),
            )),
        }
    }

    /// Stores `dir` in the payload slot of inode `inode_number`.
    pub fn write_dir(&mut self, dir: &Directory, inode_number: AddressSize) -> (result: Result<(), Errno>)
        requires
            old(self).tables_wf(),
            dir.wf(),
        ensures
            final(self).tables_wf(),
            final(self).inodes@ == old(self).inodes@,
            final(self).name@ == old(self).name@,
            final(self).payloads@.len() == old(self).payloads@.len(),
            inode_number >= old(self).inodes@.len() ==> (result matches Err(Errno::ENOENT(m))
                && m@ == "virtfs: no such file or directory"@ && final(self).payloads@ == old(self).payloads@),
            inode_number < old(self).inodes@.len() ==> {
                let pn = old(self).inodes@[inode_number as int].payload_number;
                &&& pn >= old(self).payloads@.len() ==> (result matches Err(Errno::EIO(m))
                    && m@ == "virtfs: payload does not exist for payload_number"@
                    && final(self).payloads@ == old(self).payloads@)
                &&& pn < old(self).payloads@.len() ==> (result is Ok && (final(self).payloads@[pn as int] matches Some(
                    Payload::Directory(d)) && d@ == dir@) && forall|j: int| 0 <= j < old(self).payloads@.len() && j != pn
                    ==> #[trigger] final(self).payloads@[j] == old(self).payloads@[j])
            },
    {
        if (inode_number as usize) < self.inodes.len() {
            let payload_number = self.inodes[inode_number as usize].payload_number;
            if (payload_number as usize) < self.payloads.len() {
                self.payloads.set(payload_number as usize, Some(Payload::Directory(dir.duplicate())));
                Ok(())
            } else {
                Err(Errno::EIO("virtfs: payload does not exist for payload_number".to_owned()))
            }
        } else {
            Err(Errno::ENOENT("virtfs: no such file or directory".to_owned()))
        }
    }

    /// The number of blocks a file takes: virtfs has no blocks.
    pub fn get_inode_blocks_count(&mut self, inode_number: AddressSize) -> (result: Result<AddressSize, Errno>)
        ensures
            result == Ok::<AddressSize, Errno>(0),
            final(self).inodes@ == old(self).inodes@,
            final(self).payloads@ == old(self).payloads@,
            final(self).name@ == old(self).name@,
    {
        Ok(0)
    }

    /// The mode of inode `inode_number`.
    pub fn read_mode(&mut self, inode_number: AddressSize) -> (result: Result<FileMode, Errno>)
        ensures
            final(self).inodes@ == old(self).inodes@,
            final(self).payloads@ == old(self).payloads@,
            final(self).name@ == old(self).name@,
            inode_number < old(self).inodes@.len() ==> result == Ok::<FileMode, Errno>(old(self).inodes@[inode_number as int].mode),
            inode_number >= old(self).inodes@.len() ==> result matches Err(Errno::ENOENT(_)),
    {
        let inode = self.read_inode(inode_number)?;
        Ok(inode.mode)
    }

    /// Replaces the mode of inode `inode_number`.
    pub fn write_mode(&mut self, inode_number: AddressSize, mode: FileMode) -> (result: Result<(), Errno>)
        requires
            old(self).tables_wf(),
        ensures
            final(self).tables_wf(),
            final(self).payloads@ == old(self).payloads@,
            final(self).name@ == old(self).name@,
            inode_number < old(self).inodes@.len() ==> result is Ok && final(self).inodes@ == old(self).inodes@.update(
                inode_number as int,
                INode { mode, ..old(self).inodes@[inode_number as int] },
            ),
            inode_number >= old(self).inodes@.len() ==> (result matches Err(Errno::ENOENT(_))
                && final(self).inodes@ == old(self).inodes@),
    {
        let mut inode = self.read_inode(inode_number)?;
        inode.mode = mode;
        self.write_inode(&inode, inode_number)?;
        Ok(())
    }

    /// Allocates a file: claims an inode and a payload slot, stores the
    /// inode, and puts an empty file in the payload slot numbered as the
    /// inode.
    pub fn allocate_file(&mut self) -> (result: Result<AddressSize, Errno>)
        requires
            old(self).tables_wf(),
        ensures
            final(self).tables_wf(),
            final(self).name@ == old(self).name@,
            final(self).inodes@.len() == old(self).inodes@.len(),
            final(self).payloads@.len() == old(self).payloads@.len(),
            result matches Ok(n) ==> {
                &&& n < old(self).inodes@.len()
                &&& free_of(old(self).inodes@[n as int].mode.0) == 1
                &&& forall|j: int| 0 <= j < n ==> free_of(#[trigger] old(self).inodes@[j].mode.0) != 1
                &&& free_of(final(self).inodes@[n as int].mode.0) == 0
                &&& final(self).inodes@[n as int].number == n
            },
            (forall|j: int| 0 <= j < old(self).inodes@.len() ==> free_of(#[trigger] old(self).inodes@[j].mode.0) != 1)
                ==> (result matches Err(Errno::ENOENT(m)) && m@ == "virtfs: no free inodes left"@
                && final(self).inodes@ == old(self).inodes@ && final(self).payloads@ == old(self).payloads@),
            (exists|j: int| 0 <= j < old(self).inodes@.len() && free_of(#[trigger] old(self).inodes@[j].mode.0) == 1)
                && (forall|j: int| 0 <= j < old(self).payloads@.len() ==> #[trigger] old(self).payloads@[j] is Some)
                ==> (result matches Err(Errno::ENOENT(m)) && m@ == "virtfs: no free blocks (payloads) left"@),
    {
        let inode_number = match self.claim_free_inode() {
            Ok(n) => n,
            Err(Errno::ENOSPC(m)) => {
                return Err(Errno::ENOENT(m));
            },
            Err(e) => {
                return Err(e);
            },
        };
        proof {
            lemma_with_free_reads_back(0b0_000_000_110_000_000, 0);
        }
        let mut inode = INode {
            mode: FileMode::default().with_free(0),
            links_count: 0,
            file_size: 0,
            uid: NOBODY,
            gid: NOBODY,
            atime: 0,
            mtime: 0,
            ctime: 0,
            number: inode_number,
            ..INode::default()
        };
        let free_payload_number = match self.claim_free_payload() {
            Ok(n) => n,
            Err(Errno::ENOSPC(m)) => {
                return Err(Errno::ENOENT(m));
            },
            Err(e) => {
                return Err(e);
            },
        };
        inode.payload_number = free_payload_number;
        self.write_inode(&inode, inode_number)?;
        let payload = Payload::<T>::default();
        self.write_payload(&payload, inode_number)?;
        Ok(inode_number)
    }

    /// A virtfs named `name` with `inodes_count` inodes, whose root directory
    /// holds the entries `..` and `.` that lead to it.
    pub fn new(name: &str, inodes_count: AddressSize) -> (virtfs: Self)
        requires
            inodes_count >= 1,
        ensures
            virtfs.tables_wf(),
            virtfs.name@ == name@,
            virtfs.inodes@.len() == inodes_count,
            virtfs.payloads@.len() == inodes_count,
            virtfs.inodes@[0].payload_number == 0,
            type_of(virtfs.inodes@[0].mode.0) == 1,
            free_of(virtfs.inodes@[0].mode.0) == 0,
            virtfs.payloads@[0] matches Some(Payload::Directory(d)) && d@ == map![
                ".."@ => ROOT_INODE_NUMBER,
                "."@ => ROOT_INODE_NUMBER,
            ],
            forall|k: int| 1 <= k < inodes_count ==> #[trigger] virtfs.inodes@[k] == default_inode(),
            forall|k: int| 1 <= k < inodes_count ==> #[trigger] virtfs.payloads@[k] is None,
    {
        let mut inodes: Vec<INode> = Vec::new();
        let mut payloads: Vec<Option<Payload<T>>> = Vec::new();
        let mut k: u32 = 0;
        while k < inodes_count
            invariant
                k <= inodes_count,
                inodes@.len() == k,
                payloads@.len() == k,
                forall|j: int| 0 <= j < k ==> #[trigger] inodes@[j] == default_inode(),
                forall|j: int| 0 <= j < k ==> #[trigger] payloads@[j] is None,
            decreases inodes_count - k,
        {
            inodes.push(INode::default());
            payloads.push(None);
            k = k + 1;
        }
        let mut virtfs = VirtFsFilesystem { superblock: Superblock::new(), name: name.to_owned(), inodes, payloads };
        let root_payload_number = match virtfs.claim_free_payload() {
            Ok(n) => n,
            Err(_) => {
                proof {
                    assert(virtfs.payloads@[0] is None);
                }
                0
            },
        };
        assert(root_payload_number == 0);
        let mut root_inode = virtfs.inodes[0];
        proof {
            lemma_with_free_reads_back(root_inode.mode.0, 0);
        }
        let freed = root_inode.mode.with_free(0);
        proof {
            lemma_with_type_reads_back(freed.0, 1);
        }
        root_inode.mode = freed.with_file_type(1);
        root_inode.payload_number = root_payload_number;
        let mut dir = Directory::new();
        let _ = dir.insert(root_inode.number, "..");
        let _ = dir.insert(root_inode.number, ".");
        let _ = virtfs.write_inode(&root_inode, 0);
        let _ = virtfs.write_dir(&dir, 0);
        proof {
            assert(dir@ =~= map![".."@ => ROOT_INODE_NUMBER, "."@ => ROOT_INODE_NUMBER]);
        }
        virtfs
    }

    /// The filesystem's name.
    pub fn name(&self) -> (name: String)
        ensures
            name@ == self.name@,
    {
        self.name.clone()
    }
}

} // verus!

verus! {

impl<T: VirtFsFile> VirtFsFilesystem<T> {
    /// Looks the components up one directory at a time from `inode`,
    /// requiring each inode passed through to be a directory.
    fn find_dir(&self, everything_else: &Vec<String>, initial_inode: INode) -> (result: Result<INode, Errno>)
        requires
            self.tables_wf(),
        ensures
            result matches Ok(inode) ==> (inode == initial_inode || exists|k: int| 0 <= k < self.inodes@.len()
                && inode == self.inodes@[k]),
            match self.walk(initial_inode, views(everything_else@)) {
                Some(i) => result == Ok::<INode, Errno>(i),
                None => result is Err,
            },
    {
        let ghost names = views(everything_else@);
        let mut inode = initial_inode;
        let mut i: usize = 0;
        proof {
            assert(names.skip(0) =~= names);
        }
        while i < everything_else.len()
            invariant
                self.tables_wf(),
                names == views(everything_else@),
                i <= everything_else@.len(),
                inode == initial_inode || exists|k: int| 0 <= k < self.inodes@.len() && inode == self.inodes@[k],
                self.walk(initial_inode, names) == self.walk(inode, names.skip(i as int)),
            decreases everything_else.len() - i,
        {
            let ghost rest = names.skip(i as int);
            proof {
                assert(rest[0] == everything_else@[i as int]@);
                assert(rest.drop_first() =~= names.skip(i + 1));
            }
            if inode.mode.file_type() != 1 {
                return Err(Errno::ENOTDIR("virtfs.lookup_path: not a directory (find_dir)".to_owned()));
            }
            let dir = self.read_dir_from_inode(inode.number)?;
            match dir.get(everything_else[i].as_str()) {
                Some(n) => {
                    inode = self.read_inode(n)?;
                },
                None => {
                    return Err(Errno::ENOENT("virtfs.lookup_path: no such file or directory".to_owned()));
                },
            }
            i = i + 1;
        }
        proof {
            assert(names.skip(i as int) =~= Seq::<Seq<char>>::empty());
        }
        Ok(inode)
    }
}

/// What looking up `pathname` in a virtfs returns.
pub open spec fn virtfs_lookup_path<T: VirtFsFile>(fs: VirtFsFilesystem<T>, pathname: Seq<char>, result: Result<VINode, Errno>) -> bool {
    &&& (path_error(pathname) matches Some(m) ==> (result matches Err(Errno::EINVAL(x)) && x@ == m))
    &&& (path_error(pathname) is None ==> match fs.resolve(pathname) {
            Some(i) => result == Ok::<VINode, Errno>(virt_vinode_of(i)),
            None => result is Err,
        })
    &&& (result matches Ok(v) ==> exists|k: int| 0 <= k < fs.inodes@.len() && v == virt_vinode_of(
            fs.inodes@[k],
        ))
}

/// What reading the file at `pathname` does to a virtfs and returns.
pub open spec fn virtfs_read_file<T: VirtFsFile>(before: VirtFsFilesystem<T>, after: VirtFsFilesystem<T>, pathname: Seq<char>, result: Result<Vec<u8>, Errno>) -> bool {
    &&& (after.inodes@ == before.inodes@)
    &&& (after.payloads@ == before.payloads@)
    &&& (after.name@ == before.name@)
    &&& (path_error(pathname) matches Some(m) ==> (result matches Err(Errno::EINVAL(x)) && x@ == m))
    &&& (path_error(pathname) is None ==> match before.resolve(pathname) {
            Some(i) => (result is Ok <==> (i.number < before.inodes@.len() && {
                let pn = before.inodes@[i.number as int].payload_number;
                pn < before.payloads@.len() && before.payloads@[pn as int] is Some
            })),
            None => result is Err,
        })
    &&& (result matches Ok(bytes) ==> (before.resolve(pathname) matches Some(i) && {
            let pn = before.inodes@[i.number as int].payload_number;
            before.payloads@[pn as int] matches Some(Payload::File(f)) ==> bytes@ == encode_utf8(f.rendered())
        }))
}

/// What writing `data` as the file at `pathname` does to a virtfs and returns.
pub open spec fn virtfs_write_file<T: VirtFsFile>(before: VirtFsFilesystem<T>, after: VirtFsFilesystem<T>, pathname: Seq<char>, data: Seq<u8>, result: Result<VINode, Errno>) -> bool {
    &&& (after.inodes@ == before.inodes@)
    &&& (after.payloads@ == before.payloads@)
    &&& (after.name@ == before.name@)
    &&& (result matches Err(Errno::ENOSYS(m)) && m@ == "virtfs: write_file is not supported"@)
}

/// What listing the directory at `pathname` in a virtfs returns.
pub open spec fn virtfs_read_dir<T: VirtFsFile>(fs: VirtFsFilesystem<T>, pathname: Seq<char>, result: Result<VDirectory, Errno>) -> bool {
    &&& (path_error(pathname) matches Some(m) ==> (result matches Err(Errno::EINVAL(x)) && x@ == m))
    &&& (path_error(pathname) is None ==> match fs.resolve(pathname) {
            Some(i) => match fs.dir_at(i.number) {
                Some(m) => result matches Ok(listing) && listing@ == m,
                None => result is Err,
            },
            None => result is Err,
        })
}

/// What reporting on the file at `pathname` in a virtfs returns.
pub open spec fn virtfs_stat<T: VirtFsFile>(fs: VirtFsFilesystem<T>, pathname: Seq<char>, result: Result<FileStat, Errno>) -> bool {
    &&& (path_error(pathname) matches Some(m) ==> (result matches Err(Errno::EINVAL(x)) && x@ == m))
    &&& (result matches Ok(st) ==> st.block_size == 0)
    &&& (path_error(pathname) is None ==> match fs.resolve(pathname) {
            Some(i) => if i.number < fs.inodes@.len() {
                let inode = fs.inodes@[i.number as int];
                result == Ok::<FileStat, Errno>(
                    FileStat {
                        mode: inode.mode,
                        size: inode.file_size,
                        inode_number: i.number,
                        links_count: inode.links_count,
                        uid: inode.uid,
                        gid: inode.gid,
                        block_size: 0,
                        atime: inode.atime,
                        mtime: inode.mtime,
                        ctime: inode.ctime,
                        btime: inode.btime,
                    },
                )
            } else {
                result is Err
            },
            None => result is Err,
        })
}

/// What replacing the mode of the file at `pathname` with `mode` does to a virtfs and returns.
pub open spec fn virtfs_change_mode<T: VirtFsFile>(before: VirtFsFilesystem<T>, after: VirtFsFilesystem<T>, pathname: Seq<char>, mode: FileMode, result: Result<(), Errno>) -> bool {
    &&& (after.payloads@ == before.payloads@)
    &&& (after.name@ == before.name@)
    &&& (after.inodes@.len() == before.inodes@.len())
    &&& (path_error(pathname) matches Some(m) ==> (result matches Err(Errno::EINVAL(x)) && x@ == m
            && after.inodes@ == before.inodes@))
    &&& (path_error(pathname) is None ==> match before.resolve(pathname) {
            Some(i) => if i.number < before.inodes@.len() {
                result is Ok && after.inodes@ == before.inodes@.update(
                    i.number as int,
                    INode { mode, ..before.inodes@[i.number as int] },
                )
            } else {
                result is Err && after.inodes@ == before.inodes@
            },
            None => result is Err && after.inodes@ == before.inodes@,
        })
}

/// What replacing the times of the file at `pathname` with `times` does to a virtfs and returns.
pub open spec fn virtfs_change_times<T: VirtFsFile>(before: VirtFsFilesystem<T>, after: VirtFsFilesystem<T>, pathname: Seq<char>, times: Times, result: Result<(), Errno>) -> bool {
    &&& (after.inodes@ == before.inodes@)
    &&& (after.payloads@ == before.payloads@)
    &&& (after.name@ == before.name@)
    &&& (result matches Err(Errno::ENOSYS(m)) && m@ == "virtfs: change_times is not supported"@)
}

/// What creating a file at `pathname` does to a virtfs and returns.
pub open spec fn virtfs_create_file<T: VirtFsFile>(before: VirtFsFilesystem<T>, after: VirtFsFilesystem<T>, pathname: Seq<char>, result: Result<VINode, Errno>) -> bool {
    &&& (after.name@ == before.name@)
    &&& (after.inodes@.len() == before.inodes@.len())
    &&& (after.payloads@.len() == before.payloads@.len())
    &&& (path_error(pathname) matches Some(m) ==> (result matches Err(Errno::EINVAL(x)) && x@ == m))
    &&& (result matches Ok(v) ==> exists|k: int| 0 <= k < after.inodes@.len() && v == virt_vinode_of(
            after.inodes@[k],
        ))
    &&& (path_error(pathname) is None ==> {
            let parent = "/"@ + join_with(spec_split_path(pathname).0, "/"@);
            let last = spec_split_path(pathname).1;
            &&& before.resolve(parent) is None ==> (result is Err && after == before)
            &&& (before.resolve(parent) matches Some(d) && before.dir_at(d.number) is None) ==> (result is Err
                && after == before)
            &&& (before.resolve(parent) matches Some(d) && before.dir_at(d.number) matches Some(m) && exists|
                name: Seq<char>,
            | #[trigger] m.contains_key(name) && "/"@ + name == last) ==> (result matches Err(Errno::EINVAL(x))
                && x@ == "file already exists"@ && after == before)
            &&& (before.resolve(parent) matches Some(d) && before.dir_at(d.number) matches Some(m) && !exists|
                name: Seq<char>,
            | #[trigger] m.contains_key(name) && "/"@ + name == last) && (forall|j: int|
                0 <= j < before.inodes@.len() ==> free_of(#[trigger] before.inodes@[j].mode.0) != 1) ==> (
            result matches Err(Errno::ENOENT(x)) && x@ == "virtfs: no free inodes left"@)
            &&& result matches Ok(v) ==> (before.resolve(parent) matches Some(d) && before.dir_at(d.number) matches Some(
                m,
            ) && exists|n: AddressSize|
                n < before.inodes@.len() && free_of(before.inodes@[n as int].mode.0) == 1 && v == virt_vinode_of(
                    #[trigger] after.inodes@[n as int],
                ) && after.dir_at(d.number) == Some(m.insert(last, n)))
        })
}

/// What removing the file at `pathname` does to a virtfs and returns.
pub open spec fn virtfs_remove_file<T: VirtFsFile>(before: VirtFsFilesystem<T>, after: VirtFsFilesystem<T>, pathname: Seq<char>, result: Result<(), Errno>) -> bool {
    &&& (after.inodes@ == before.inodes@)
    &&& (after.payloads@ == before.payloads@)
    &&& (after.name@ == before.name@)
    &&& (result matches Err(Errno::ENOSYS(m)) && m@ == "virtfs: remove_file is not supported"@)
}

/// What creating a directory at `pathname` does to a virtfs and returns.
pub open spec fn virtfs_create_dir<T: VirtFsFile>(before: VirtFsFilesystem<T>, after: VirtFsFilesystem<T>, pathname: Seq<char>, result: Result<VINode, Errno>) -> bool {
    &&& (after.name@ == before.name@)
    &&& (path_error(pathname) matches Some(m) ==> (result matches Err(Errno::EINVAL(x)) && x@ == m))
    &&& exists|made: VirtFsFilesystem<T>, file: Result<VINode, Errno>| {
        &&& #[trigger] virtfs_create_file(before, made, pathname, file)
        &&& file matches Err(e) ==> result == Err::<VINode, Errno>(e) && after == made
        &&& result matches Ok(v) ==> {
            &&& file == Ok::<VINode, Errno>(v)
            &&& v.number < after.payloads@.len()
            &&& after.payloads@[v.number as int] matches Some(Payload::Directory(d)) && d@ == Map::<Seq<char>, AddressSize>::empty()
            &&& made.resolve(pathname) matches Some(i) && i.number < after.inodes@.len() && type_of(
                after.inodes@[i.number as int].mode.0,
            ) == 1
        }
    }
}

impl<T: VirtFsFile> Filesystem for VirtFsFilesystem<T> {
    open spec fn fs_wf(&self) -> bool {
        self.tables_wf()
    }

    /// Creates an empty file at `pathname` and enters it in its parent
    /// directory.
    fn create_file(&mut self, pathname: &str) -> (result: Result<VINode, Errno>)
        ensures
            virtfs_create_file(*old(self), *final(self), pathname@, result),
    {
        let (everything_else, dirent_name) = split_path(pathname)?;
        let joined = join(&everything_else, "/");
        let mut dir_pathname = "/".to_owned();
        dir_pathname.append(joined.as_str());
        proof {
            reveal_strlit("/");
            assert(dir_pathname@ == "/"@ + join_with(spec_split_path(pathname@).0, "/"@));
            assert(dir_pathname@[0] == '/');
        }
        let dir_inode = self.lookup_path(dir_pathname.as_str())?;
        let ghost d = self.resolve(dir_pathname@).unwrap();
        let mut dir = self.read_dir_from_inode(dir_inode.number)?;
        let ghost m = dir@;
        assert(old(self).resolve("/"@ + join_with(spec_split_path(pathname@).0, "/"@)) == Some(d));
        assert(old(self).dir_at(d.number) == Some(m));
        let mut k: usize = 0;
        while k < dir.entries.len()
            invariant
                self.tables_wf(),
                *self == *old(self),
                path_error(pathname@) is None,
                dirent_name@ == spec_split_path(pathname@).1,
                dir.wf(),
                m == dir@,
                old(self).resolve("/"@ + join_with(spec_split_path(pathname@).0, "/"@)) == Some(d),
                old(self).dir_at(d.number) == Some(m),
                k <= dir.entries@.len(),
                forall|j: int| 0 <= j < k ==> "/"@ + (#[trigger] dir.entries@[j]).name@ != dirent_name@,
            decreases dir.entries.len() - k,
        {
            let mut slashed = "/".to_owned();
            slashed.append(dir.entries[k].name.as_str());
            if str_eq(slashed.as_str(), dirent_name.as_str()) {
                proof {
                    let name = dir.entries@[k as int].name@;
                    lemma_lookup_named_at(dir.entries@, k as int);
                    assert(m.contains_key(name));
                    assert("/"@ + name == spec_split_path(pathname@).1);
                    assert(old(self).resolve("/"@ + join_with(spec_split_path(pathname@).0, "/"@)) == Some(d));
                    assert(old(self).dir_at(d.number) == Some(m));
                }
                return Err(Errno::EINVAL("file already exists".to_owned()));
            }
            k = k + 1;
        }
        proof {
            assert forall|name: Seq<char>| #[trigger] m.contains_key(name) implies "/"@ + name != dirent_name@ by {
                lemma_lookup_named_some(dir.entries@, name);
                let j = choose|j: int| 0 <= j < names_of(dir.entries@).len() && names_of(dir.entries@)[j] == name;
                assert(dir.entries@[j].name@ == name);
            }
        }
        let file_inode_number = self.allocate_file()?;
        dir.insert(file_inode_number, dirent_name.as_str())?;
        self.write_dir(&dir, dir_inode.number)?;
        let file_inode = self.read_inode(file_inode_number)?;
        Ok(vinode_from(&file_inode))
    }

    /// Removing files is not supported.
    fn remove_file(&mut self, pathname: &str) -> (result: Result<(), Errno>)
        ensures
            virtfs_remove_file(*old(self), *final(self), pathname@, result),
    {
        Err(Errno::ENOSYS("virtfs: remove_file is not supported".to_owned()))
    }

    /// Creates a file at `pathname`, makes it a directory, and gives it an
    /// empty directory payload.
    fn create_dir(&mut self, pathname: &str) -> (result: Result<VINode, Errno>)
        ensures
            virtfs_create_dir(*old(self), *final(self), pathname@, result),
    {
        let ghost before = *self;
        let made_result = self.create_file(pathname);
        let ghost made = *self;
        assert(virtfs_create_file(before, made, pathname@, made_result));
        let vinode = match made_result {
            Ok(v) => v,
            Err(e) => {
                return Err(e);
            },
        };
        proof {
            lemma_with_type_reads_back(vinode.mode.0, 1);
        }
        self.change_mode(pathname, vinode.mode.with_file_type(1))?;
        let empty = Payload::<T>::Directory(Directory::new());
        self.write_payload(&empty, vinode.number)?;
        Ok(vinode)
    }

    /// The text of the payload of the file at `pathname`, as bytes.
    fn read_file(&mut self, pathname: &str, count: AddressSize) -> (result: Result<Vec<u8>, Errno>)
        ensures
            virtfs_read_file(*old(self), *final(self), pathname@, result),
    {
        let inode_number = self.lookup_path(pathname)?.number;
        let file = self.read_from_file(inode_number)?;
        let text = file.render();
        Ok(vstd::slice::slice_to_vec(text.as_str().as_bytes()))
    }

    /// Writing files is not supported.
    fn write_file(&mut self, pathname: &str, data: &[u8]) -> (result: Result<VINode, Errno>)
        ensures
            virtfs_write_file(*old(self), *final(self), pathname@, data@, result),
    {
        Err(Errno::ENOSYS("virtfs: write_file is not supported".to_owned()))
    }

    /// Lists the directory at `pathname`.
    fn read_dir(&self, pathname: &str) -> (result: Result<VDirectory, Errno>)
        ensures
            virtfs_read_dir(*self, pathname@, result),
    {
        let inode_number = self.lookup_path(pathname)?.number;
        let dir = self.read_dir_from_inode(inode_number)?;
        Ok(dir.to_vdirectory())
    }

    /// Reports on the file at `pathname`.
    fn stat(&self, pathname: &str) -> (result: Result<FileStat, Errno>)
        ensures
            virtfs_stat(*self, pathname@, result),
    {
        let inode_number = self.lookup_path(pathname)?.number;
        let inode = self.read_inode(inode_number)?;
        Ok(FileStat {
            mode: inode.mode,
            size: inode.file_size,
            inode_number,
            links_count: inode.links_count,
            uid: inode.uid,
            gid: inode.gid,
            block_size: 0,
            atime: inode.atime,
            mtime: inode.mtime,
            ctime: inode.ctime,
            btime: inode.btime,
        })
    }

    /// Replaces the mode of the file at `pathname`.
    fn change_mode(&mut self, pathname: &str, mode: FileMode) -> (result: Result<(), Errno>)
        ensures
            virtfs_change_mode(*old(self), *final(self), pathname@, mode, result),
    {
        let inode_number = self.lookup_path(pathname)?.number;
        self.write_mode(inode_number, mode)
    }

    /// Changing times is not supported.
    fn change_times(&mut self, pathname: &str, times: Times) -> (result: Result<(), Errno>)
        ensures
            virtfs_change_times(*old(self), *final(self), pathname@, times, result),
    {
        Err(Errno::ENOSYS("virtfs: change_times is not supported".to_owned()))
    }

    /// Finds the file at `pathname`: the root directory for `/`, else each
    /// directory on the way must be a directory holding the next component.
    fn lookup_path(&self, pathname: &str) -> (result: Result<VINode, Errno>)
        ensures
            virtfs_lookup_path(*self, pathname@, result),
    {
        let (everything_else, final_component) = split_path(pathname)?;
        let inode = self.read_inode(ROOT_INODE_NUMBER)?;
        proof {
            reveal_strlit("/");
            assert("/"@ =~= seq!['/']);
        }
        if everything_else.len() == 0 && str_eq(final_component.as_str(), "/") {
            let root = self.read_inode(ROOT_INODE_NUMBER)?;
            return Ok(vinode_from(&root));
        }
        proof {
            if everything_else.len() == 0 {
                assert(views(everything_else@) =~= Seq::<Seq<char>>::empty());
            }
        }
        let dir_inode = self.find_dir(&everything_else, inode)?;
        proof {
            self.lemma_walk_in_table(inode, views(everything_else@));
        }
        let dir = self.read_dir_from_inode(dir_inode.number)?;
        match dir.get(final_component.as_str()) {
            Some(n) => {
                let found = self.read_inode(n)?;
                Ok(vinode_from(&found))
            },
            None => Err(Errno::ENOENT(
                "virtfs.lookup_path: no such file or directory (get(final_component))".to_owned(),
            )),
        }
    }

    /// The filesystem's name.
    fn name(&self) -> (name: String)
        ensures
            name@ == self.name@,
    {
        self.name.clone()
    }
}

} // verus!

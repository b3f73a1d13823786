use vstd::prelude::*;
use vstd::arithmetic::power2::{pow2, lemma2_to64, lemma_pow2_pos, lemma_pow2_adds};
use vstd::arithmetic::mul::lemma_mul_upper_bound;
use vstd::string::StrSliceExecFns;
use crate::text::{split_on, nonempty_pieces, views, split_char, join, join_with, Named, names_of, sorted_names, lookup_named, find_named, upsert_named, insert_named, remove_named, has_name, lemma_lookup_named_at, lemma_lookup_named_some, lemma_remove_keeps_other};
use crate::eunix::kernel::{Errno, Times};
use crate::eunix::devfs::{DeviceFilesystem, devfs_lookup_path, devfs_read_dir, devfs_stat, devfs_read_file, devfs_write_file, devfs_change_mode, devfs_change_times, devfs_create_file, devfs_remove_file, devfs_create_dir};
use crate::eunix::e5fs::{E5FSFilesystem, e5fs_lookup_path, e5fs_read_dir, e5fs_stat, e5fs_read_file, e5fs_write_file, e5fs_change_mode, e5fs_change_times, e5fs_create_file, e5fs_remove_file, e5fs_create_dir};
use crate::eunix::binfs::{BinFilesytem, binfs_lookup_path, binfs_read_dir, binfs_stat, binfs_read_file, binfs_write_file, binfs_change_mode, binfs_change_times, binfs_create_file, binfs_remove_file, binfs_create_dir};
use crate::text::{regex_is_match, regex_matches, regex_strip_start, is_plain_text};

verus! {

pub type AddressSize = u32;

pub type Id = u16;

/// The number a process uses for a file it opened.
pub type FileDescriptor = AddressSize;

/// The largest address, used as the marker of "no block here".
pub const NO_ADDRESS: AddressSize = 0xFFFF_FFFF;

/// A count that means "all of it".
pub const EVERYTHING: AddressSize = 0xFFFF_FFFF;

/// The user and group id that owns nothing.
pub const NOBODY: Id = 0xFFFF;

/// The mode word of an inode:
///
/// ```text
///   free?
///   | unused
///   | |   filetype
///   | |   |   user
///   | |   |   |   group
///   | |   |   |   |   others
///   | |   |   |   |   |
///   f xxx ttt rwx rwx rwx
/// ```
///
/// with file types `000` file, `001` dir, `010` sys, `011` block, `100` char.
#[derive(Debug, Clone, Copy, PartialEq, Eq, Structural)]
pub struct FileMode(pub u16);

/// The kinds of file that the type field of a mode names.
#[derive(Debug, Clone, Copy, PartialEq, Eq, Structural)]
pub enum FileModeType {
    File,
    Dir,
    Sys,
    Block,
    Char,
}

impl FileModeType {
    /// The three-bit code of this file type.
    pub open spec fn spec_bits(self) -> u8 {
        match self {
            FileModeType::File => 0,
            FileModeType::Dir => 1,
            FileModeType::Sys => 2,
            FileModeType::Block => 3,
            FileModeType::Char => 4,
        }
    }

    /// The three-bit code of this file type.
    pub fn bits(self) -> (code: u8)
        ensures
            code == self.spec_bits(),
    {
        match self {
            FileModeType::File => 0,
            FileModeType::Dir => 1,
            FileModeType::Sys => 2,
            FileModeType::Block => 3,
            FileModeType::Char => 4,
        }
    }

    /// The file type with the given three-bit code, if one has it.
    pub fn from_bits(code: u8) -> (t: Option<FileModeType>)
        ensures
            match t {
                Some(t) => t.spec_bits() == code,
                None => code > 4,
            },
    {
        if code == 0 {
            Some(FileModeType::File)
        } else if code == 1 {
            Some(FileModeType::Dir)
        } else if code == 2 {
            Some(FileModeType::Sys)
        } else if code == 3 {
            Some(FileModeType::Block)
        } else if code == 4 {
            Some(FileModeType::Char)
        } else {
            None
        }
    }
}

/// The free flag: the top bit.
pub open spec fn free_of(raw: u16) -> u8 {
    (raw / 32768) as u8
}

/// The file type field: bits 9 to 11.
pub open spec fn type_of(raw: u16) -> u8 {
    ((raw / 512) % 8) as u8
}

/// The owner's permissions: bits 6 to 8.
pub open spec fn user_of(raw: u16) -> u8 {
    ((raw / 64) % 8) as u8
}

/// The group's permissions: bits 3 to 5.
pub open spec fn group_of(raw: u16) -> u8 {
    ((raw / 8) % 8) as u8
}

/// The permissions of everyone else: bits 0 to 2.
pub open spec fn others_of(raw: u16) -> u8 {
    (raw % 8) as u8
}

/// The number of binary digits of `m` (none for zero).
pub open spec fn bit_length(m: nat) -> nat
    decreases m,
{
    if m == 0 {
        0
    } else {
        1 + bit_length(m / 2)
    }
}

/// The number of digits that `m` takes when written in binary, padded with
/// zeros to at least `width` digits.
pub open spec fn padded_length(m: nat, width: nat) -> nat {
    if bit_length(m) > width {
        bit_length(m)
    } else {
        width
    }
}

/// The number read from the 16 binary digits of `raw` after the `width`
/// digits of the field that starts at bit `pos` are replaced by `mask`
/// written in binary, padded with zeros to `width` digits. A mask that needs
/// more digits than the field has pushes the digits above the field up.
pub open spec fn spliced(raw: u16, pos: nat, width: nat, mask: u8) -> int {
    (raw as int / pow2(pos + width) as int) * pow2(pos + padded_length(mask as nat, width)) as int
        + mask as int * pow2(pos) as int + raw as int % pow2(pos) as int
}

/// `2` raised to `e`.
fn pow2_u64(e: u32) -> (p: u64)
    requires
        e < 32,
    ensures
        p == pow2(e as nat),
{
    let mut p: u64 = 1;
    let mut i: u32 = 0;
    proof {
        lemma2_to64();
    }
    while i < e
        invariant
            i <= e < 32,
            p == pow2(i as nat),
        decreases e - i,
    {
        proof {
            lemma_pow2_adds(i as nat, 1);
            lemma2_to64();
            vstd::arithmetic::power2::lemma_pow2_strictly_increases(i as nat, 32);
        }
        p = p * 2;
        i = i + 1;
    }
    p
}

/// The number of binary digits of `m`.
fn bit_length_u8(m: u8) -> (n: u32)
    ensures
        n == bit_length(m as nat),
        n <= 8,
{
    let mut n: u32 = 0;
    let mut rest: u8 = m;
    proof {
        reveal_with_fuel(bit_length, 10);
        assert(m as nat / 2 / 2 / 2 / 2 / 2 / 2 / 2 / 2 == 0);
    }
    while rest > 0
        invariant
            bit_length(m as nat) == n + bit_length(rest as nat),
            n + bit_length(rest as nat) <= 8,
        decreases rest,
    {
        n = n + 1;
        rest = rest / 2;
    }
    n
}

/// Replaces the field at `pos` of `raw` as `spliced` says.
fn splice(raw: u16, pos: u32, width: u32, mask: u8) -> (r: u16)
    requires
        1 <= width,
        pos + width <= 16,
        spliced(raw, pos as nat, width as nat, mask) < 65536,
    ensures
        r == spliced(raw, pos as nat, width as nat, mask),
{
    let bits = bit_length_u8(mask);
    let used = if bits > width { bits } else { width };
    let p_hi = pow2_u64(pos + width);
    let p_new = pow2_u64(pos + used);
    let p_pos = pow2_u64(pos);
    proof {
        lemma_pow2_pos((pos + width) as nat);
        lemma_pow2_pos(pos as nat);
        lemma_pow2_pos((pos + used) as nat);
        lemma2_to64();
        vstd::arithmetic::power2::lemma_pow2_strictly_increases((pos + used) as nat, 32);
        vstd::arithmetic::power2::lemma_pow2_strictly_increases(pos as nat, 32);
    }
    let hi: u64 = raw as u64 / p_hi;
    let lo: u64 = raw as u64 % p_pos;
    proof {
        lemma_mul_upper_bound(hi as int, 65536, p_new as int, 0x1_0000_0000);
        lemma_mul_upper_bound(mask as int, 256, p_pos as int, 0x1_0000_0000);
    }
    let v: u64 = hi * p_new + mask as u64 * p_pos + lo;
    v as u16
}


/// The value of a three-bit field splice with a mask that fits the field.
proof fn lemma_spliced_small(raw: u16, pos: nat, mask: u8)
    requires
        mask < 8,
        pos == 0 || pos == 3 || pos == 6 || pos == 9,
    ensures
        spliced(raw, pos, 3, mask) == (raw as int / pow2(pos + 3) as int) * pow2(pos + 3) as int
            + mask as int * pow2(pos) as int + raw as int % pow2(pos) as int,
{
    reveal_with_fuel(bit_length, 5);
    assert(bit_length(mask as nat) <= 3) by {
        assert(mask as nat / 2 / 2 / 2 == 0);
    }
    assert(padded_length(mask as nat, 3) == 3);
}

/// Setting the free flag to a bit and reading it back gives that bit; every
/// other field stays as it was.
pub proof fn lemma_with_free_reads_back(raw: u16, mask: u8)
    requires
        mask < 2,
    ensures
        spliced(raw, 15, 1, mask) < 65536,
        free_of(spliced(raw, 15, 1, mask) as u16) == mask,
        type_of(spliced(raw, 15, 1, mask) as u16) == type_of(raw),
        user_of(spliced(raw, 15, 1, mask) as u16) == user_of(raw),
        group_of(spliced(raw, 15, 1, mask) as u16) == group_of(raw),
        others_of(spliced(raw, 15, 1, mask) as u16) == others_of(raw),
{
    lemma2_to64();
    reveal_with_fuel(bit_length, 3);
    assert(padded_length(mask as nat, 1) == 1);
    assert(raw as int / 65536 == 0);
    assert((raw as int / pow2(16) as int) * pow2(16) as int == 0);
    let v = mask as int * 32768 + raw as int % 32768;
    assert(spliced(raw, 15, 1, mask) == v);
    let x = v as u16;
    assert(x as int == v);
    assert(x / 32768 == mask) by (nonlinear_arith)
        requires x as int == mask as int * 32768 + raw as int % 32768, mask < 2;
    assert(((mask as int * 32768 + raw as int % 32768) / 512) % 8 == (raw as int / 512) % 8)
        by (nonlinear_arith) requires mask < 2;
    assert(((mask as int * 32768 + raw as int % 32768) / 64) % 8 == (raw as int / 64) % 8)
        by (nonlinear_arith) requires mask < 2;
    assert(((mask as int * 32768 + raw as int % 32768) / 8) % 8 == (raw as int / 8) % 8)
        by (nonlinear_arith) requires mask < 2;
    assert((mask as int * 32768 + raw as int % 32768) % 8 == raw as int % 8)
        by (nonlinear_arith) requires mask < 2;
}

/// Setting the file type to a code that fits three bits and reading it back
/// gives that code; every other field stays as it was.
pub proof fn lemma_with_type_reads_back(raw: u16, mask: u8)
    requires
        mask < 8,
    ensures
        spliced(raw, 9, 3, mask) < 65536,
        type_of(spliced(raw, 9, 3, mask) as u16) == mask,
        free_of(spliced(raw, 9, 3, mask) as u16) == free_of(raw),
        user_of(spliced(raw, 9, 3, mask) as u16) == user_of(raw),
        group_of(spliced(raw, 9, 3, mask) as u16) == group_of(raw),
        others_of(spliced(raw, 9, 3, mask) as u16) == others_of(raw),
{
    lemma2_to64();
    lemma_spliced_small(raw, 9, mask);
    let v = (raw as int / 4096) * 4096 + mask as int * 512 + raw as int % 512;
    assert(spliced(raw, 9, 3, mask) == v);
    assert(0 <= v < 65536) by (nonlinear_arith) requires v == (raw as int / 4096) * 4096 + mask as int * 512 + raw as int % 512, mask < 8, raw < 65536;
    assert((v / 512) % 8 == mask) by (nonlinear_arith) requires v == (raw as int / 4096) * 4096 + mask as int * 512 + raw as int % 512, mask < 8, raw < 65536;
    assert(v / 32768 == raw as int / 32768) by (nonlinear_arith) requires v == (raw as int / 4096) * 4096 + mask as int * 512 + raw as int % 512, mask < 8, raw < 65536;
    assert((v / 64) % 8 == (raw as int / 64) % 8) by (nonlinear_arith) requires v == (raw as int / 4096) * 4096 + mask as int * 512 + raw as int % 512, mask < 8, raw < 65536;
    assert((v / 8) % 8 == (raw as int / 8) % 8) by (nonlinear_arith) requires v == (raw as int / 4096) * 4096 + mask as int * 512 + raw as int % 512, mask < 8, raw < 65536;
    assert(v % 8 == raw as int % 8) by (nonlinear_arith) requires v == (raw as int / 4096) * 4096 + mask as int * 512 + raw as int % 512, mask < 8, raw < 65536;
}

/// Setting the owner's permissions to bits that fit the field and reading them back gives
/// those bits; every other field stays as it was.
pub proof fn lemma_with_user_reads_back(raw: u16, mask: u8)
    requires
        mask < 8,
    ensures
        spliced(raw, 6, 3, mask) < 65536,
        user_of(spliced(raw, 6, 3, mask) as u16) == mask,
        free_of(spliced(raw, 6, 3, mask) as u16) == free_of(raw),
        type_of(spliced(raw, 6, 3, mask) as u16) == type_of(raw),
        group_of(spliced(raw, 6, 3, mask) as u16) == group_of(raw),
        others_of(spliced(raw, 6, 3, mask) as u16) == others_of(raw),
{
    lemma2_to64();
    lemma_spliced_small(raw, 6, mask);
    let v = (raw as int / 512) * 512 + mask as int * 64 + raw as int % 64;
    assert(spliced(raw, 6, 3, mask) == v);
    assert(0 <= v < 65536) by (nonlinear_arith) requires v == (raw as int / 512) * 512 + mask as int * 64 + raw as int % 64, mask < 8, raw < 65536;
    assert((v / 64) % 8 == mask) by (nonlinear_arith) requires v == (raw as int / 512) * 512 + mask as int * 64 + raw as int % 64, mask < 8, raw < 65536;
    assert(v / 32768 == raw as int / 32768) by (nonlinear_arith) requires v == (raw as int / 512) * 512 + mask as int * 64 + raw as int % 64, mask < 8, raw < 65536;
    assert((v / 512) % 8 == (raw as int / 512) % 8) by (nonlinear_arith) requires v == (raw as int / 512) * 512 + mask as int * 64 + raw as int % 64, mask < 8, raw < 65536;
    assert((v / 8) % 8 == (raw as int / 8) % 8) by (nonlinear_arith) requires v == (raw as int / 512) * 512 + mask as int * 64 + raw as int % 64, mask < 8, raw < 65536;
    assert(v % 8 == raw as int % 8) by (nonlinear_arith) requires v == (raw as int / 512) * 512 + mask as int * 64 + raw as int % 64, mask < 8, raw < 65536;
}

/// Setting the owner's permissions: setting them to what they are changes
/// nothing, the last of two settings wins, and the bits outside the field
/// stay as they were.
pub proof fn lemma_with_user_laws(raw: u16, x: u8, y: u8)
    requires
        x < 8,
        y < 8,
    ensures
        spliced(raw, 6, 3, user_of(raw)) == raw,
        spliced(spliced(raw, 6, 3, x) as u16, 6, 3, y) == spliced(raw, 6, 3, y),
        spliced(raw, 6, 3, x) / 512 == raw as int / 512,
        spliced(raw, 6, 3, x) % 64 == raw as int % 64,
{
    lemma2_to64();
    lemma_with_user_reads_back(raw, x);
    lemma_spliced_small(raw, 6, x);
    lemma_spliced_small(raw, 6, y);
    lemma_spliced_small(raw, 6, user_of(raw));
    let r = raw as int;
    let v = spliced(raw, 6, 3, x);
    assert(v == (r / 512) * 512 + x as int * 64 + r % 64);
    lemma_spliced_small(v as u16, 6, y);
    assert(r == (r / 512) * 512 + ((r / 64) % 8) * 64 + r % 64) by (nonlinear_arith)
        requires
            0 <= r < 65536,
    ;
    assert(v / 512 == r / 512 && v % 64 == r % 64) by (nonlinear_arith)
        requires
            v == (r / 512) * 512 + x as int * 64 + r % 64,
            x < 8,
            0 <= r < 65536,
    ;
}

/// Setting the owner's, the group's and everyone else's permissions in turn
/// keeps every bit above the permissions (the free flag, the file type and
/// the bits between them) and puts the three digits in their places.
pub proof fn lemma_set_permissions(raw: u16, user: u8, group: u8, others: u8)
    requires
        user < 8,
        group < 8,
        others < 8,
    ensures
        spliced(spliced(spliced(raw, 6, 3, user) as u16, 3, 3, group) as u16, 0, 3, others) == (raw as int / 512)
            * 512 + user as int * 64 + group as int * 8 + others as int,
{
    lemma2_to64();
    let r = raw as int;
    lemma_with_user_reads_back(raw, user);
    lemma_spliced_small(raw, 6, user);
    let a = spliced(raw, 6, 3, user);
    assert(a == (r / 512) * 512 + user as int * 64 + r % 64);
    lemma_with_group_reads_back(a as u16, group);
    lemma_spliced_small(a as u16, 3, group);
    let b = spliced(a as u16, 3, 3, group);
    assert(b == (a / 64) * 64 + group as int * 8 + a % 8);
    lemma_spliced_small(b as u16, 0, others);
    let c = spliced(b as u16, 0, 3, others);
    assert(c == (b / 8) * 8 + others as int);
    assert((a / 64) == (r / 512) * 8 + user as int && a % 8 == r % 8) by (nonlinear_arith)
        requires
            a == (r / 512) * 512 + user as int * 64 + r % 64,
            user < 8,
            0 <= r < 65536,
    ;
    assert(b / 8 == (r / 512) * 64 + user as int * 8 + group as int) by (nonlinear_arith)
        requires
            b == ((r / 512) * 8 + user as int) * 64 + group as int * 8 + r % 8,
            group < 8,
            user < 8,
            0 <= r < 65536,
    ;
}

/// Setting the group's permissions and setting another three-bit field
/// (the owner's, everyone else's, or the file type) give the same mode in
/// either order.
pub proof fn lemma_with_group_commutes(raw: u16, g: u8, m: u8)
    requires
        g < 8,
        m < 8,
    ensures
        spliced(spliced(raw, 3, 3, g) as u16, 6, 3, m) == spliced(spliced(raw, 6, 3, m) as u16, 3, 3, g),
        spliced(spliced(raw, 3, 3, g) as u16, 0, 3, m) == spliced(spliced(raw, 0, 3, m) as u16, 3, 3, g),
        spliced(spliced(raw, 3, 3, g) as u16, 9, 3, m) == spliced(spliced(raw, 9, 3, m) as u16, 3, 3, g),
{
    lemma2_to64();
    let r = raw as int;
    lemma_with_group_reads_back(raw, g);
    lemma_with_user_reads_back(raw, m);
    lemma_with_others_reads_back(raw, m);
    lemma_with_type_reads_back(raw, m);
    lemma_spliced_small(raw, 3, g);
    lemma_spliced_small(raw, 6, m);
    lemma_spliced_small(raw, 0, m);
    lemma_spliced_small(raw, 9, m);
    let gr = spliced(raw, 3, 3, g);
    let us = spliced(raw, 6, 3, m);
    let ot = spliced(raw, 0, 3, m);
    let ty = spliced(raw, 9, 3, m);
    assert(gr == (r / 64) * 64 + g as int * 8 + r % 8);
    assert(us == (r / 512) * 512 + m as int * 64 + r % 64);
    assert(ot == (r / 8) * 8 + m as int);
    assert(ty == (r / 4096) * 4096 + m as int * 512 + r % 512);
    lemma_spliced_small(gr as u16, 6, m);
    lemma_spliced_small(gr as u16, 0, m);
    lemma_spliced_small(gr as u16, 9, m);
    lemma_spliced_small(us as u16, 3, g);
    lemma_spliced_small(ot as u16, 3, g);
    lemma_spliced_small(ty as u16, 3, g);
    assert((gr / 512) * 512 + m as int * 64 + gr % 64 == (us / 64) * 64 + g as int * 8 + us % 8) by (nonlinear_arith)
        requires
            gr == (r / 64) * 64 + g as int * 8 + r % 8,
            us == (r / 512) * 512 + m as int * 64 + r % 64,
            g < 8,
            m < 8,
            0 <= r < 65536,
    ;
    assert((gr / 8) * 8 + m as int == (ot / 64) * 64 + g as int * 8 + ot % 8) by (nonlinear_arith)
        requires
            gr == (r / 64) * 64 + g as int * 8 + r % 8,
            ot == (r / 8) * 8 + m as int,
            g < 8,
            m < 8,
            0 <= r < 65536,
    ;
    assert((gr / 4096) * 4096 + m as int * 512 + gr % 512 == (ty / 64) * 64 + g as int * 8 + ty % 8) by (nonlinear_arith)
        requires
            gr == (r / 64) * 64 + g as int * 8 + r % 8,
            ty == (r / 4096) * 4096 + m as int * 512 + r % 512,
            g < 8,
            m < 8,
            0 <= r < 65536,
    ;
}

/// Setting the group's permissions to bits that fit the field and reading them back gives
/// those bits; every other field stays as it was.
pub proof fn lemma_with_group_reads_back(raw: u16, mask: u8)
    requires
        mask < 8,
    ensures
        spliced(raw, 3, 3, mask) < 65536,
        group_of(spliced(raw, 3, 3, mask) as u16) == mask,
        free_of(spliced(raw, 3, 3, mask) as u16) == free_of(raw),
        type_of(spliced(raw, 3, 3, mask) as u16) == type_of(raw),
        user_of(spliced(raw, 3, 3, mask) as u16) == user_of(raw),
        others_of(spliced(raw, 3, 3, mask) as u16) == others_of(raw),
{
    lemma2_to64();
    lemma_spliced_small(raw, 3, mask);
    let v = (raw as int / 64) * 64 + mask as int * 8 + raw as int % 8;
    assert(spliced(raw, 3, 3, mask) == v);
    assert(0 <= v < 65536) by (nonlinear_arith) requires v == (raw as int / 64) * 64 + mask as int * 8 + raw as int % 8, mask < 8, raw < 65536;
    assert((v / 8) % 8 == mask) by (nonlinear_arith) requires v == (raw as int / 64) * 64 + mask as int * 8 + raw as int % 8, mask < 8, raw < 65536;
    assert(v / 32768 == raw as int / 32768) by (nonlinear_arith) requires v == (raw as int / 64) * 64 + mask as int * 8 + raw as int % 8, mask < 8, raw < 65536;
    assert((v / 512) % 8 == (raw as int / 512) % 8) by (nonlinear_arith) requires v == (raw as int / 64) * 64 + mask as int * 8 + raw as int % 8, mask < 8, raw < 65536;
    assert((v / 64) % 8 == (raw as int / 64) % 8) by (nonlinear_arith) requires v == (raw as int / 64) * 64 + mask as int * 8 + raw as int % 8, mask < 8, raw < 65536;
    assert(v % 8 == raw as int % 8) by (nonlinear_arith) requires v == (raw as int / 64) * 64 + mask as int * 8 + raw as int % 8, mask < 8, raw < 65536;
}

/// Setting the permissions of everyone else to bits that fit the field and reading them back gives
/// those bits; every other field stays as it was.
pub proof fn lemma_with_others_reads_back(raw: u16, mask: u8)
    requires
        mask < 8,
    ensures
        spliced(raw, 0, 3, mask) < 65536,
        others_of(spliced(raw, 0, 3, mask) as u16) == mask,
        free_of(spliced(raw, 0, 3, mask) as u16) == free_of(raw),
        type_of(spliced(raw, 0, 3, mask) as u16) == type_of(raw),
        user_of(spliced(raw, 0, 3, mask) as u16) == user_of(raw),
        group_of(spliced(raw, 0, 3, mask) as u16) == group_of(raw),
{
    lemma2_to64();
    lemma_spliced_small(raw, 0, mask);
    let v = (raw as int / 8) * 8 + mask as int * 1 + raw as int % 1;
    assert(spliced(raw, 0, 3, mask) == v);
    assert(0 <= v < 65536) by (nonlinear_arith) requires v == (raw as int / 8) * 8 + mask as int * 1 + raw as int % 1, mask < 8, raw < 65536;
    assert(v % 8 == mask) by (nonlinear_arith) requires v == (raw as int / 8) * 8 + mask as int * 1 + raw as int % 1, mask < 8, raw < 65536;
    assert(v / 32768 == raw as int / 32768) by (nonlinear_arith) requires v == (raw as int / 8) * 8 + mask as int * 1 + raw as int % 1, mask < 8, raw < 65536;
    assert((v / 512) % 8 == (raw as int / 512) % 8) by (nonlinear_arith) requires v == (raw as int / 8) * 8 + mask as int * 1 + raw as int % 1, mask < 8, raw < 65536;
    assert((v / 64) % 8 == (raw as int / 64) % 8) by (nonlinear_arith) requires v == (raw as int / 8) * 8 + mask as int * 1 + raw as int % 1, mask < 8, raw < 65536;
    assert((v / 8) % 8 == (raw as int / 8) % 8) by (nonlinear_arith) requires v == (raw as int / 8) * 8 + mask as int * 1 + raw as int % 1, mask < 8, raw < 65536;
}

impl Default for FileMode {
    /// Read and write for the owner, nothing for anyone else.
    fn default() -> (mode: Self)
        ensures
            mode == FileMode(0b0_000_000_110_000_000),
    {
        FileMode(0b0_000_000_110_000_000)
    }
}

impl FileMode {
    pub fn new(raw: u16) -> (mode: Self)
        ensures
            mode.0 == raw,
    {
        FileMode(raw)
    }

    /// The mode with every bit clear.
    pub fn zero() -> (mode: Self)
        ensures
            mode.0 == 0,
    {
        FileMode(0)
    }

    /// The free flag.
    pub fn free(&self) -> (f: u8)
        ensures
            f == free_of(self.0),
    {
        let x = self.0;
        assert((x >> 15u16) == x / 32768) by (bit_vector);
        (x >> 15u16) as u8
    }

    /// The owner's permission bits.
    pub fn user(&self) -> (u: u8)
        ensures
            u == user_of(self.0),
    {
        let x = self.0;
        assert((x >> 6u16) & 7 == (x / 64) % 8) by (bit_vector);
        ((x >> 6u16) & 7) as u8
    }

    /// The group's permission bits.
    pub fn group(&self) -> (g: u8)
        ensures
            g == group_of(self.0),
    {
        let x = self.0;
        assert((x >> 3u16) & 7 == (x / 8) % 8) by (bit_vector);
        ((x >> 3u16) & 7) as u8
    }

    /// The permission bits of everyone else.
    pub fn others(&self) -> (o: u8)
        ensures
            o == others_of(self.0),
    {
        let x = self.0;
        assert(x & 7 == x % 8) by (bit_vector);
        (x & 7) as u8
    }

    /// This mode with the free flag replaced by `mask`.
    pub fn with_free(&self, mask: u8) -> (mode: Self)
        requires
            mask < 2,
        ensures
            mode.0 == spliced(self.0, 15, 1, mask),
    {
        proof {
            lemma2_to64();
            assert(bit_length(mask as nat) <= 1) by {
                reveal_with_fuel(bit_length, 3);
            }
            assert(self.0 as int % 32768 < 32768);
            assert(self.0 as int / 65536 == 0);
            assert(padded_length(mask as nat, 1) == 1);
            assert(pow2(16) == 65536 && pow2(15) == 32768);
            assert((self.0 as int / pow2(16) as int) * pow2(16) as int == 0);
            assert(spliced(self.0, 15, 1, mask) == mask as int * 32768 + self.0 as int % 32768);
        }
        FileMode(splice(self.0, 15, 1, mask))
    }

    /// This mode with the file type replaced by `mask`.
    pub fn with_type(&self, mask: u8) -> (mode: Self)
        requires
            spliced(self.0, 9, 3, mask) < 65536,
        ensures
            mode.0 == spliced(self.0, 9, 3, mask),
    {
        FileMode(splice(self.0, 9, 3, mask))
    }

    /// This mode with the file type replaced by `mask`.
    pub fn with_file_type(&self, mask: u8) -> (mode: Self)
        requires
            spliced(self.0, 9, 3, mask) < 65536,
        ensures
            mode.0 == spliced(self.0, 9, 3, mask),
    {
        self.with_type(mask)
    }

    /// The file type field.
    pub fn file_type(&self) -> (t: u8)
        ensures
            t == type_of(self.0),
    {
        let x = self.0;
        assert((x >> 9u16) & 7 == (x / 512) % 8) by (bit_vector);
        ((x >> 9u16) & 7) as u8
    }

    /// This mode with the owner's permissions replaced by `mask`.
    pub fn with_user(&self, mask: u8) -> (mode: Self)
        requires
            spliced(self.0, 6, 3, mask) < 65536,
        ensures
            mode.0 == spliced(self.0, 6, 3, mask),
    {
        FileMode(splice(self.0, 6, 3, mask))
    }

    /// This mode with the group's permissions replaced by `mask`.
    pub fn with_group(&self, mask: u8) -> (mode: Self)
        requires
            spliced(self.0, 3, 3, mask) < 65536,
        ensures
            mode.0 == spliced(self.0, 3, 3, mask),
    {
        FileMode(splice(self.0, 3, 3, mask))
    }

    /// This mode with the permissions of everyone else replaced by `mask`.
    pub fn with_others(&self, mask: u8) -> (mode: Self)
        requires
            spliced(self.0, 0, 3, mask) < 65536,
        ensures
            mode.0 == spliced(self.0, 0, 3, mask),
    {
        FileMode(splice(self.0, 0, 3, mask))
    }

    /// The raw mode word.
    /// Gets the bit at position `n`. Bits are numbered from 0 (least
    /// significant) to 31 (most significant).
    fn get_bit_at(input: u32, n: u8) -> (bit: bool)
        ensures
            bit == (n < 32 && (input >> n) & 1 == 1),
    {
        if n < 32 {
            let mask: u32 = 1u32 << n;
            let r = input & mask != 0;
            assert(n < 32 ==> ((input & (1u32 << n) != 0) == ((input >> n) & 1 == 1))) by (bit_vector);
            r
        } else {
            false
        }
    }

    pub fn get_raw(&self) -> (raw: u16)
        ensures
            raw == self.0,
    {
        self.0
    }

    /// The mode whose raw word is the sum of the two.
    pub fn add(self, rhs: Self) -> (mode: Self)
        requires
            self.0 + rhs.0 <= 0xFFFF,
        ensures
            mode.0 == self.0 + rhs.0,
    {
        FileMode(self.0 + rhs.0)
    }
}

} // verus!

verus! {

/// The non-empty components of a path, in order.
pub open spec fn path_components(pathname: Seq<char>) -> Seq<Seq<char>> {
    nonempty_pieces(split_on(pathname, '/'))
}

/// The directories leading to the last component of a path, and that last
/// component; the root directory `/` for a path of slashes alone.
pub open spec fn spec_split_path(pathname: Seq<char>) -> (Seq<Seq<char>>, Seq<char>) {
    let components = path_components(pathname);
    if components.len() == 0 {
        (Seq::empty(), seq!['/'])
    } else {
        (components.drop_last(), components.last())
    }
}

/// Keeps the non-empty pieces.
fn nonempty_strings(pieces: Vec<String>) -> (kept: Vec<String>)
    ensures
        views(kept@) == nonempty_pieces(views(pieces@)),
{
    let mut kept: Vec<String> = Vec::new();
    let mut i: usize = 0;
    let ghost v = views(pieces@);
    proof {
        reveal(Seq::filter);
    }
    while i < pieces.len()
        invariant
            0 <= i <= pieces.len(),
            v == views(pieces@),
            views(kept@) == nonempty_pieces(v.take(i as int)),
        decreases pieces.len() - i,
    {
        let piece = &pieces[i];
        proof {
            reveal(Seq::filter);
            assert(v.take(i + 1).drop_last() =~= v.take(i as int));
            assert(v.take(i + 1).last() == piece@);
        }
        if piece.as_str().unicode_len() > 0 {
            let owned = piece.as_str().to_owned();
            proof {
                assert(views(kept@.push(owned)) =~= views(kept@).push(owned@));
            }
            kept.push(owned);
        }
        i = i + 1;
    }
    proof {
        assert(v.take(pieces.len() as int) =~= v);
    }
    kept
}

} // verus!

verus! {

/// Splits a path into the directories that lead to its last component and
/// that last component. A path of slashes alone names the root directory `/`.
/// Repeated slashes count as one, and a trailing slash is ignored.
pub fn split_path(pathname: &str) -> (result: Result<(Vec<String>, String), Errno>)
    ensures
        pathname@.len() == 0 ==> (result matches Err(Errno::EINVAL(message))
            && message@ == "e5fs.lookup_path: zero-length path"@),
        pathname@.len() > 0 && pathname@[0] != '/' ==> (result matches Err(Errno::EINVAL(message))
            && message@ == "e5fs.lookup_path: path must start with '/'"@),
        pathname@.len() > 0 && pathname@[0] == '/' ==> (result matches Ok((dirs, last))
            && views(dirs@) == spec_split_path(pathname@).0
            && last@ == spec_split_path(pathname@).1),
{
    let len = pathname.unicode_len();
    if len == 0 {
        return Err(Errno::EINVAL("e5fs.lookup_path: zero-length path".to_owned()));
    }
    if pathname.get_char(0) != '/' {
        return Err(Errno::EINVAL("e5fs.lookup_path: path must start with '/'".to_owned()));
    }
    let pieces = split_char(pathname, '/');
    let mut components = nonempty_strings(pieces);
    let ghost all = views(components@);
    if components.len() == 0 {
        let root = "/".to_owned();
        proof {
            reveal_strlit("/");
            assert(root@ =~= seq!['/']);
        }
        return Ok((Vec::new(), root));
    }
    let last = components.pop().unwrap();
    proof {
        assert(views(components@) =~= all.drop_last());
    }
    Ok((components, last))
}

} // verus!

verus! {

/// The directory that holds what a path names: `/` followed by the
/// directories leading to its last component.
pub open spec fn spec_parent_dir(pathname: Seq<char>) -> Seq<char> {
    seq!['/'] + join_with(spec_split_path(pathname).0, seq!['/'])
}

/// What is wrong with a path as a path, if anything: it must not be empty
/// and must start with `/`.
pub open spec fn path_error(pathname: Seq<char>) -> Option<Seq<char>> {
    if pathname.len() == 0 {
        Some("e5fs.lookup_path: zero-length path"@)
    } else if pathname[0] != '/' {
        Some("e5fs.lookup_path: path must start with '/'"@)
    } else {
        None
    }
}

/// The path of the directory that holds what `pathname` names.
pub fn parent_dir(pathname: &str) -> (result: Result<String, Errno>)
    ensures
        pathname@.len() == 0 ==> (result matches Err(Errno::EINVAL(message))
            && message@ == "e5fs.lookup_path: zero-length path"@),
        pathname@.len() > 0 && pathname@[0] != '/' ==> (result matches Err(Errno::EINVAL(message))
            && message@ == "e5fs.lookup_path: path must start with '/'"@),
        pathname@.len() > 0 && pathname@[0] == '/' ==> (result matches Ok(parent)
            && parent@ == spec_parent_dir(pathname@)),
{
    let (dirs, _last) = split_path(pathname)?;
    let joined = join(&dirs, "/");
    proof {
        reveal_strlit("/");
        assert("/"@ =~= seq!['/']);
        assert(joined@ == join_with(spec_split_path(pathname@).0, seq!['/']));
    }
    let mut parent = "/".to_owned();
    parent.append(joined.as_str());
    proof {
        assert(parent@ =~= spec_parent_dir(pathname@));
    }
    Ok(parent)
}

} // verus!

verus! {

/// What `stat` reports of a file.
#[derive(Debug, Clone, Copy, PartialEq, Eq)]
pub struct FileStat {
    pub mode: FileMode,
    pub size: AddressSize,
    pub inode_number: AddressSize,
    pub links_count: AddressSize,
    pub uid: Id,
    pub gid: Id,
    pub block_size: AddressSize,
    pub atime: u64,
    pub mtime: u64,
    pub ctime: u64,
    pub btime: u64,
}

#[derive(Debug, Clone, Copy, PartialEq, Eq, Structural)]
pub enum OpenMode {
    Read,
    Write,
    ReadWrite,
}

/// How a file was opened.
#[derive(Debug, Clone, Copy, PartialEq, Eq, Structural)]
pub struct OpenFlags {
    mode: OpenMode,
    create: bool,
    append: bool,
}

impl OpenFlags {
    pub closed spec fn spec_mode(&self) -> OpenMode {
        self.mode
    }

    pub closed spec fn spec_create(&self) -> bool {
        self.create
    }

    pub closed spec fn spec_append(&self) -> bool {
        self.append
    }

    pub fn new(mode: OpenMode, create: bool, append: bool) -> (flags: Self)
        ensures
            flags.spec_mode() == mode,
            flags.spec_create() == create,
            flags.spec_append() == append,
    {
        OpenFlags { mode, create, append }
    }

    pub fn mode(&self) -> (mode: OpenMode)
        ensures
            mode == self.spec_mode(),
    {
        self.mode
    }

    pub fn create(&self) -> (create: bool)
        ensures
            create == self.spec_create(),
    {
        self.create
    }

    pub fn append(&self) -> (append: bool)
        ensures
            append == self.spec_append(),
    {
        self.append
    }
}

/// A directory entry as the filesystem layer sees it: a name and the number
/// of the inode it names.
#[derive(Debug, PartialEq, Eq)]
pub struct VDirectoryEntry {
    pub inode_number: AddressSize,
    pub name: String,
}

impl Named for VDirectoryEntry {
    open spec fn spec_name(&self) -> Seq<char> {
        self.name@
    }

    fn name_str(&self) -> (s: &str) {
        self.name.as_str()
    }
}

impl VDirectoryEntry {
    pub fn new(inode_number: AddressSize, name: &str) -> (entry: Self)
        ensures
            entry.inode_number == inode_number,
            entry.name@ == name@,
    {
        VDirectoryEntry { inode_number, name: name.to_owned() }
    }
}

/// The entries of a directory, sorted by name, no name twice.
#[derive(Debug, PartialEq, Eq)]
pub struct VDirectory {
    pub entries: Vec<VDirectoryEntry>,
}

impl View for VDirectory {
    type V = Map<Seq<char>, AddressSize>;

    /// Each name in the directory, with the inode number it leads to.
    open spec fn view(&self) -> Map<Seq<char>, AddressSize> {
        Map::new(
            |n: Seq<char>| lookup_named(self.entries@, n) is Some,
            |n: Seq<char>| lookup_named(self.entries@, n).unwrap().inode_number,
        )
    }
}

impl VDirectory {
    /// Entries sorted by name, none twice.
    pub open spec fn wf(&self) -> bool {
        sorted_names(names_of(self.entries@))
    }

    /// An empty directory.
    pub fn new() -> (dir: Self)
        ensures
            dir.wf(),
            dir@ == Map::<Seq<char>, AddressSize>::empty(),
    {
        let dir = VDirectory { entries: Vec::new() };
        proof {
            assert forall|n: Seq<char>| !dir@.contains_key(n) by {
                lemma_lookup_named_some(dir.entries@, n);
            }
            assert(dir@ =~= Map::<Seq<char>, AddressSize>::empty());
        }
        dir
    }

    /// The inode number of the entry named `name`, if any.
    pub fn get(&self, name: &str) -> (inode_number: Option<AddressSize>)
        requires
            self.wf(),
        ensures
            self@.contains_key(name@) ==> inode_number == Some(self@[name@]),
            !self@.contains_key(name@) ==> inode_number is None,
    {
        proof {
            lemma_lookup_named_some(self.entries@, name@);
        }
        match find_named(&self.entries, name) {
            Some(i) => Some(self.entries[i].inode_number),
            None => None,
        }
    }

    /// Sets the entry `name` to lead to inode `inode_number`, in place of
    /// the entry of that name if there is one.
    pub fn insert(&mut self, inode_number: AddressSize, name: &str)
        requires
            old(self).wf(),
        ensures
            final(self).wf(),
            final(self)@ == old(self)@.insert(name@, inode_number),
            final(self).entries@.len() <= old(self).entries@.len() + 1,
    {
        let entry = VDirectoryEntry::new(inode_number, name);
        let ghost before = self.entries@;
        let ghost old_view = self@;
        upsert_named(&mut self.entries, entry);
        proof {
            assert forall|n: Seq<char>| #[trigger] self@.contains_key(n) == old_view.insert(name@, inode_number).contains_key(n)
                by {
                lemma_lookup_named_some(self.entries@, n);
                lemma_lookup_named_some(before, n);
            }
            assert(self@ =~= old_view.insert(name@, inode_number));
        }
    }

    /// Takes out the entry named `name`, if there is one.
    pub fn remove(&mut self, name: &str) -> (removed: Option<VDirectoryEntry>)
        requires
            old(self).wf(),
        ensures
            final(self).wf(),
            final(self)@ == old(self)@.remove(name@),
            removed is Some == old(self)@.contains_key(name@),
            removed matches Some(e) ==> e.inode_number == old(self)@[name@] && e.name@ == name@,
            final(self).entries@.len() <= old(self).entries@.len(),
    {
        let ghost before = self.entries@;
        let ghost old_view = self@;
        proof {
            lemma_lookup_named_some(before, name@);
        }
        let removed = remove_named(&mut self.entries, name);
        proof {
            lemma_lookup_named_some(self.entries@, name@);
            if removed is Some {
                let e = removed.unwrap();
                let pos = choose|pos: int| 0 <= pos < before.len() && before[pos] == e
                    && self.entries@ == before.remove(pos);
                lemma_lookup_named_at(before, pos);
                assert forall|n: Seq<char>| n != name@ implies lookup_named(self.entries@, n) == lookup_named(before, n) by {
                    lemma_remove_keeps_other(before, pos, n);
                }
                assert(!has_name(names_of(self.entries@), name@)) by {
                    if has_name(names_of(self.entries@), name@) {
                        let k = choose|k: int| 0 <= k < names_of(self.entries@).len() && names_of(self.entries@)[k] == name@;
                        assert(names_of(self.entries@).to_set().contains(name@));
                    }
                }
            }
            assert(self@ =~= old_view.remove(name@));
        }
        removed
    }
}

/// The operations a filesystem driver offers on the paths inside it. Each
/// driver keeps its own well-formedness across them.
pub trait Filesystem {
    /// The driver's state is consistent.
    spec fn fs_wf(&self) -> bool;

    /// Creates an empty file at `pathname`.
    fn create_file(&mut self, pathname: &str) -> (result: Result<VINode, Errno>)
        requires
            old(self).fs_wf(),
        ensures
            final(self).fs_wf(),
    ;

    /// Removes the file at `pathname`.
    fn remove_file(&mut self, pathname: &str) -> (result: Result<(), Errno>)
        requires
            old(self).fs_wf(),
        ensures
            final(self).fs_wf(),
    ;

    /// Creates an empty directory at `pathname`.
    fn create_dir(&mut self, pathname: &str) -> (result: Result<VINode, Errno>)
        requires
            old(self).fs_wf(),
        ensures
            final(self).fs_wf(),
    ;

    /// Reads the contents of the file at `pathname`.
    fn read_file(&mut self, pathname: &str, count: AddressSize) -> (result: Result<Vec<u8>, Errno>)
        requires
            old(self).fs_wf(),
        ensures
            final(self).fs_wf(),
    ;

    /// Replaces the contents of the file at `pathname` with `data`.
    fn write_file(&mut self, pathname: &str, data: &[u8]) -> (result: Result<VINode, Errno>)
        requires
            old(self).fs_wf(),
        ensures
            final(self).fs_wf(),
    ;

    /// Lists the directory at `pathname`.
    fn read_dir(&self, pathname: &str) -> (result: Result<VDirectory, Errno>)
        requires
            self.fs_wf(),
        ensures
            result matches Ok(dir) ==> dir.wf(),
    ;

    /// Reports on the file at `pathname`.
    fn stat(&self, pathname: &str) -> (result: Result<FileStat, Errno>)
        requires
            self.fs_wf(),
    ;

    /// Replaces the mode of the file at `pathname`.
    fn change_mode(&mut self, pathname: &str, mode: FileMode) -> (result: Result<(), Errno>)
        requires
            old(self).fs_wf(),
        ensures
            final(self).fs_wf(),
    ;

    /// Replaces the times of the file at `pathname`.
    fn change_times(&mut self, pathname: &str, times: Times) -> (result: Result<(), Errno>)
        requires
            old(self).fs_wf(),
        ensures
            final(self).fs_wf(),
    ;

    /// Finds the file at `pathname`.
    fn lookup_path(&self, pathname: &str) -> (result: Result<VINode, Errno>)
        requires
            self.fs_wf(),
    ;

    /// The driver's name.
    fn name(&self) -> (name: String);
}

/// A file opened by a process.
#[derive(Debug)]
pub struct FileDescription {
    pub vinode: VINode,
    pub flags: OpenFlags,
    pub pathname: Option<String>,
}

/// A file description as plain values.
pub type FileDescriptionView = (VINode, OpenFlags, Option<Seq<char>>);

impl View for FileDescription {
    type V = FileDescriptionView;

    open spec fn view(&self) -> FileDescriptionView {
        (self.vinode, self.flags, match self.pathname {
            Some(p) => Some(p@),
            None => None,
        })
    }
}

impl FileDescription {
    /// A copy of the description.
    pub fn duplicate(&self) -> (copy: Self)
        ensures
            copy@ == self@,
    {
        let pathname = match &self.pathname {
            Some(p) => Some(p.clone()),
            None => None,
        };
        FileDescription { vinode: self.vinode, flags: self.flags, pathname }
    }
}

/// An inode as the filesystem layer sees it.
#[derive(Debug, Clone, Copy, PartialEq, Eq, Structural)]
pub struct VINode {
    pub mode: FileMode,
    pub links_count: AddressSize,
    pub uid: Id,
    pub gid: Id,
    pub file_size: AddressSize,
    pub atime: u64,
    pub mtime: u64,
    pub ctime: u64,
    pub btime: u64,
    pub number: AddressSize,
}

/// The kinds of filesystem that can be mounted.
#[allow(non_camel_case_types)]
#[derive(Debug, Clone, Copy, PartialEq, Eq, Structural)]
pub enum FilesystemType {
    devfs,
    e5fs,
    binfs,
}

/// The filesystem type a name stands for: `devfs`, `e5fs` or `binfs`.
pub fn parse_filesystem_type(name: &str) -> (fs_type: Option<FilesystemType>)
    ensures
        name@ == "devfs"@ ==> fs_type == Some(FilesystemType::devfs),
        name@ == "e5fs"@ ==> fs_type == Some(FilesystemType::e5fs),
        name@ == "binfs"@ ==> fs_type == Some(FilesystemType::binfs),
        name@ != "devfs"@ && name@ != "e5fs"@ && name@ != "binfs"@ ==> fs_type is None,
{
    proof {
        reveal_strlit("devfs");
        reveal_strlit("e5fs");
        reveal_strlit("binfs");
        assert("devfs"@.len() == 5 && "e5fs"@.len() == 4 && "binfs"@.len() == 5);
        assert("devfs"@[0] == 'd' && "binfs"@[0] == 'b');
    }
    if crate::text::str_eq(name, "devfs") {
        Some(FilesystemType::devfs)
    } else if crate::text::str_eq(name, "e5fs") {
        Some(FilesystemType::e5fs)
    } else if crate::text::str_eq(name, "binfs") {
        Some(FilesystemType::binfs)
    } else {
        None
    }
}

} // verus!

verus! {

/// The filesystem a mount point serves: one driver of each kind.
pub enum Driver {
    Dev(DeviceFilesystem),
    E5(E5FSFilesystem),
    Bin(BinFilesytem),
}

impl Driver {
    /// The driver's own state is consistent.
    pub open spec fn wf(&self) -> bool {
        match self {
            Driver::Dev(d) => d.fs_wf(),
            Driver::E5(e) => e.fs_wf(),
            Driver::Bin(b) => b.virtfs.tables_wf(),
        }
    }

    /// What looking up `pathname` in the driver returns.
    pub open spec fn lookup_path_outcome(self, pathname: Seq<char>, result: Result<VINode, Errno>) -> bool {
        match self {
            Driver::Dev(d) => devfs_lookup_path(d, pathname, result),
            Driver::E5(e) => e5fs_lookup_path(e, pathname, result),
            Driver::Bin(b) => binfs_lookup_path(b, pathname, result),
        }
    }

    /// What listing the directory at `pathname` in the driver returns.
    pub open spec fn read_dir_outcome(self, pathname: Seq<char>, result: Result<VDirectory, Errno>) -> bool {
        match self {
            Driver::Dev(d) => devfs_read_dir(d, pathname, result),
            Driver::E5(e) => e5fs_read_dir(e, pathname, result),
            Driver::Bin(b) => binfs_read_dir(b, pathname, result),
        }
    }

    /// What reporting on the file at `pathname` in the driver returns.
    pub open spec fn stat_outcome(self, pathname: Seq<char>, result: Result<FileStat, Errno>) -> bool {
        match self {
            Driver::Dev(d) => devfs_stat(d, pathname, result),
            Driver::E5(e) => e5fs_stat(e, pathname, result),
            Driver::Bin(b) => binfs_stat(b, pathname, result),
        }
    }

    /// What reading the file at `pathname` does to the driver, now `after`, and returns.
    pub open spec fn read_file_outcome(self, after: Driver, pathname: Seq<char>, result: Result<Vec<u8>, Errno>) -> bool {
        match (self, after) {
            (Driver::Dev(a), Driver::Dev(b)) => devfs_read_file(a, b, pathname, result),
            (Driver::E5(a), Driver::E5(b)) => e5fs_read_file(a, b, pathname, result),
            (Driver::Bin(a), Driver::Bin(b)) => binfs_read_file(a, b, pathname, result),
            _ => false,
        }
    }

    /// What writing `data` as the file at `pathname` does to the driver, now `after`, and returns.
    pub open spec fn write_file_outcome(self, after: Driver, pathname: Seq<char>, data: Seq<u8>, result: Result<VINode, Errno>) -> bool {
        match (self, after) {
            (Driver::Dev(a), Driver::Dev(b)) => devfs_write_file(a, b, pathname, data, result),
            (Driver::E5(a), Driver::E5(b)) => e5fs_write_file(a, b, pathname, data, result),
            (Driver::Bin(a), Driver::Bin(b)) => binfs_write_file(a, b, pathname, data, result),
            _ => false,
        }
    }

    /// What replacing the mode of the file at `pathname` does to the driver, now `after`, and returns.
    pub open spec fn change_mode_outcome(self, after: Driver, pathname: Seq<char>, mode: FileMode, result: Result<(), Errno>) -> bool {
        match (self, after) {
            (Driver::Dev(a), Driver::Dev(b)) => devfs_change_mode(a, b, pathname, mode, result),
            (Driver::E5(a), Driver::E5(b)) => e5fs_change_mode(a, b, pathname, mode, result),
            (Driver::Bin(a), Driver::Bin(b)) => binfs_change_mode(a, b, pathname, mode, result),
            _ => false,
        }
    }

    /// What replacing the times of the file at `pathname` does to the driver, now `after`, and returns.
    pub open spec fn change_times_outcome(self, after: Driver, pathname: Seq<char>, times: Times, result: Result<(), Errno>) -> bool {
        match (self, after) {
            (Driver::Dev(a), Driver::Dev(b)) => devfs_change_times(a, b, pathname, times, result),
            (Driver::E5(a), Driver::E5(b)) => e5fs_change_times(a, b, pathname, times, result),
            (Driver::Bin(a), Driver::Bin(b)) => binfs_change_times(a, b, pathname, times, result),
            _ => false,
        }
    }

    /// What creating a file at `pathname` does to the driver, now `after`, and returns.
    pub open spec fn create_file_outcome(self, after: Driver, pathname: Seq<char>, result: Result<VINode, Errno>) -> bool {
        match (self, after) {
            (Driver::Dev(a), Driver::Dev(b)) => devfs_create_file(a, b, pathname, result),
            (Driver::E5(a), Driver::E5(b)) => e5fs_create_file(a, b, pathname, result),
            (Driver::Bin(a), Driver::Bin(b)) => binfs_create_file(a, b, pathname, result),
            _ => false,
        }
    }

    /// What removing the file at `pathname` does to the driver, now `after`, and returns.
    pub open spec fn remove_file_outcome(self, after: Driver, pathname: Seq<char>, result: Result<(), Errno>) -> bool {
        match (self, after) {
            (Driver::Dev(a), Driver::Dev(b)) => devfs_remove_file(a, b, pathname, result),
            (Driver::E5(a), Driver::E5(b)) => e5fs_remove_file(a, b, pathname, result),
            (Driver::Bin(a), Driver::Bin(b)) => binfs_remove_file(a, b, pathname, result),
            _ => false,
        }
    }

    /// What creating a directory at `pathname` does to the driver, now `after`, and returns.
    pub open spec fn create_dir_outcome(self, after: Driver, pathname: Seq<char>, result: Result<VINode, Errno>) -> bool {
        match (self, after) {
            (Driver::Dev(a), Driver::Dev(b)) => devfs_create_dir(a, b, pathname, result),
            (Driver::E5(a), Driver::E5(b)) => e5fs_create_dir(a, b, pathname, result),
            (Driver::Bin(a), Driver::Bin(b)) => binfs_create_dir(a, b, pathname, result),
            _ => false,
        }
    }
}

/// `after` is `before` with only mount point `c` changed, and that one
/// still at its target, of its type.
pub open spec fn routed(before: Seq<MountedFilesystem>, after: Seq<MountedFilesystem>, c: int) -> bool {
    &&& after.len() == before.len()
    &&& forall|k: int| 0 <= k < before.len() && k != c ==> #[trigger] after[k] == before[k]
    &&& after[c].target@ == before[c].target@
    &&& after[c].fs_type == before[c].fs_type
}

/// A filesystem mounted at a path.
pub struct MountedFilesystem {
    pub target: String,
    pub fs_type: FilesystemType,
    pub driver: Driver,
}

impl Named for MountedFilesystem {
    open spec fn spec_name(&self) -> Seq<char> {
        self.target@
    }

    fn name_str(&self) -> (s: &str) {
        self.target.as_str()
    }
}

impl MountedFilesystem {
    /// Does nothing yet.
    pub fn driver_as() {
    }
}

/// The virtual filesystem: the mounted filesystems, sorted by mount point,
/// none twice, and the files opened through it.
pub struct VFS {
    pub mount_points: Vec<MountedFilesystem>,
    pub open_files: Vec<FileDescription>,
}

/// The pattern a mount point is matched with: `^` and the mount point.
pub open spec fn mount_pattern(mount_point: Seq<char>) -> Seq<char> {
    seq!['^'] + mount_point
}

/// Mount point `i` is tried before mount point `j` when it is longer, or as
/// long and earlier in order: a path goes to the deepest mount point that
/// matches it.
pub open spec fn mount_before(names: Seq<Seq<char>>, i: int, j: int) -> bool {
    names[i].len() > names[j].len() || (names[i].len() == names[j].len() && i < j)
}

/// Every mount point that comes before mount point `c` does not match
/// `pathname`.
pub open spec fn none_before(names: Seq<Seq<char>>, pathname: Seq<char>, c: int) -> bool {
    forall|j: int| 0 <= j < names.len() && #[trigger] mount_before(names, j, c)
        ==> regex_is_match(mount_pattern(names[j]), pathname) == Some(false)
}

/// Mount point `c` is the one that holds `pathname`: it matches, no mount
/// point before it does, and it is plain text.
pub open spec fn holds_path(names: Seq<Seq<char>>, pathname: Seq<char>, c: int) -> bool {
    &&& 0 <= c < names.len()
    &&& regex_is_match(mount_pattern(names[c]), pathname) == Some(true)
    &&& none_before(names, pathname, c)
    &&& is_plain_text(names[c])
}

/// At most one mount point holds a path.
pub proof fn lemma_holds_path_unique(names: Seq<Seq<char>>, pathname: Seq<char>, c: int, d: int)
    requires
        holds_path(names, pathname, c),
        holds_path(names, pathname, d),
    ensures
        c == d,
{
    if c != d {
        if mount_before(names, c, d) {
            assert(regex_is_match(mount_pattern(names[c]), pathname) == Some(false));
        } else {
            assert(mount_before(names, d, c));
            assert(regex_is_match(mount_pattern(names[d]), pathname) == Some(false));
        }
    }
}

/// The path inside a filesystem mounted at `mount_point` of `pathname`:
/// `/` and what follows the mount point, or `/.` where nothing does.
pub open spec fn internal_path(mount_point: Seq<char>, pathname: Seq<char>) -> Seq<char> {
    let rest = if mount_point.is_prefix_of(pathname) { pathname.skip(mount_point.len() as int) } else { pathname };
    seq!['/'] + if rest.len() == 0 { seq!['.'] } else { rest }
}

/// The number of `false` flags.
pub open spec fn count_unvisited(flags: Seq<bool>) -> nat
    decreases flags.len(),
{
    if flags.len() == 0 {
        0
    } else {
        count_unvisited(flags.drop_last()) + if flags.last() { 0nat } else { 1nat }
    }
}

proof fn lemma_count_unvisited_mark(flags: Seq<bool>, i: int)
    requires
        0 <= i < flags.len(),
        !flags[i],
    ensures
        count_unvisited(flags.update(i, true)) + 1 == count_unvisited(flags),
    decreases flags.len(),
{
    if i == flags.len() - 1 {
        assert(flags.update(i, true).drop_last() =~= flags.drop_last());
    } else {
        lemma_count_unvisited_mark(flags.drop_last(), i);
        assert(flags.update(i, true).drop_last() =~= flags.drop_last().update(i, true));
    }
}

impl VFS {
    /// Mount points sorted, none twice, and every driver consistent.
    pub open spec fn wf(&self) -> bool {
        &&& sorted_names(names_of(self.mount_points@))
        &&& forall|k: int| 0 <= k < self.mount_points@.len() ==> (#[trigger] self.mount_points@[k]).driver.wf()
    }

    /// The mount points, in order.
    pub open spec fn targets(&self) -> Seq<Seq<char>> {
        names_of(self.mount_points@)
    }

    /// A virtual filesystem with nothing mounted.
    pub fn new() -> (vfs: Self)
        ensures
            vfs.wf(),
            vfs.mount_points@.len() == 0,
            vfs.open_files@.len() == 0,
    {
        VFS { mount_points: Vec::new(), open_files: Vec::new() }
    }

    /// Splits a path into the directories leading to its last component
    /// and that component.
    pub fn split_path(pathname: &str) -> (result: Result<(Vec<String>, String), Errno>)
        ensures
            path_error(pathname@) matches Some(m) ==> (result matches Err(Errno::EINVAL(x)) && x@ == m),
            path_error(pathname@) is None ==> (result matches Ok((dirs, last))
                && views(dirs@) == spec_split_path(pathname@).0
                && last@ == spec_split_path(pathname@).1),
    {
        split_path(pathname)
    }

    /// The path of the directory that holds what `pathname` names.
    pub fn parent_dir(pathname: &str) -> (result: Result<String, Errno>)
        ensures
            path_error(pathname@) matches Some(m) ==> (result matches Err(Errno::EINVAL(x)) && x@ == m),
            path_error(pathname@) is None ==> (result matches Ok(parent) && parent@ == spec_parent_dir(pathname@)),
    {
        parent_dir(pathname)
    }

    /// The mount point that serves `pathname` and the path inside its
    /// filesystem: the mount points are tried longest first, each matched
    /// as a pattern anchored at the start of the path, so that the deepest
    /// mount point that begins the path serves it.
    pub fn match_mount_point(&self, pathname: &str) -> (result: Result<(String, String), Errno>)
        requires
            self.wf(),
        ensures
            match result {
                Ok((mount_point, internal)) => exists|c: int| {
                    &&& 0 <= c < self.targets().len()
                    &&& #[trigger] self.targets()[c] == mount_point@
                    &&& regex_is_match(mount_pattern(self.targets()[c]), pathname@) == Some(true)
                    &&& none_before(self.targets(), pathname@, c)
                    &&& is_plain_text(self.targets()[c])
                    &&& internal@ == internal_path(self.targets()[c], pathname@)
                },
                Err(Errno::ENOENT(m)) => m@ == "VFS::lookup_path: no such file or directory"@ && forall|j: int|
                    0 <= j < self.targets().len() ==> regex_is_match(mount_pattern(#[trigger] self.targets()[j]), pathname@)
                        == Some(false),
                Err(Errno::EINVAL(m)) => m@ == "VFS::match_mount_point: mount point is not a plain path"@ && exists|c: int| {
                    &&& 0 <= c < self.targets().len()
                    &&& none_before(self.targets(), pathname@, c)
                    &&& #[trigger] regex_is_match(mount_pattern(self.targets()[c]), pathname@) != Some(false)
                },
                Err(_) => false,
            },
            (exists|c: int| {
                &&& 0 <= c < self.targets().len()
                &&& regex_is_match(mount_pattern(#[trigger] self.targets()[c]), pathname@) == Some(true)
                &&& none_before(self.targets(), pathname@, c)
                &&& is_plain_text(self.targets()[c])
            }) ==> result is Ok,
    {
        let ghost names = self.targets();
        let n = self.mount_points.len();
        let mut visited: Vec<bool> = Vec::new();
        let mut k: usize = 0;
        while k < n
            invariant
                k <= n,
                n == self.mount_points@.len(),
                visited@.len() == k,
                forall|j: int| 0 <= j < k ==> !#[trigger] visited@[j],
            decreases n - k,
        {
            visited.push(false);
            k = k + 1;
        }
        proof {
            reveal_strlit("^");
        }
        loop
            invariant
                names == self.targets(),
                names.len() == n,
                n == self.mount_points@.len(),
                visited@.len() == n,
                forall|v: int, u: int| 0 <= v < n && 0 <= u < n && visited@[v] && !visited@[u] ==> #[trigger] mount_before(names, v, u),
                forall|v: int| 0 <= v < n && #[trigger] visited@[v] ==> regex_is_match(mount_pattern(names[v]), pathname@) == Some(false),
            decreases count_unvisited(visited@),
        {
            let mut best: Option<usize> = None;
            let mut j: usize = 0;
            while j < n
                invariant
                    names == self.targets(),
                    names.len() == n,
                    n == self.mount_points@.len(),
                    visited@.len() == n,
                    forall|v: int, u: int| 0 <= v < n && 0 <= u < n && visited@[v] && !visited@[u] ==> #[trigger] mount_before(names, v, u),
                    forall|v: int| 0 <= v < n && #[trigger] visited@[v] ==> regex_is_match(mount_pattern(names[v]), pathname@) == Some(false),
                    j <= n,
                    best matches Some(b) ==> b < j && !visited@[b as int] && forall|u: int| 0 <= u < j && !visited@[u] && u != b ==> #[trigger] mount_before(names, b as int, u),
                    best is None ==> forall|u: int| 0 <= u < j ==> #[trigger] visited@[u],
                decreases n - j,
            {
                if !visited[j] {
                    match best {
                        None => {
                            best = Some(j);
                        },
                        Some(b) => {
                            let lb = self.mount_points[b].target.as_str().unicode_len();
                            let lj = self.mount_points[j].target.as_str().unicode_len();
                            assert(names[b as int] == self.mount_points@[b as int].target@);
                            assert(names[j as int] == self.mount_points@[j as int].target@);
                            if lj > lb {
                                proof {
                                    assert forall|u: int| 0 <= u < j + 1 && !visited@[u] && u != j implies #[trigger] mount_before(
                                        names,
                                        j as int,
                                        u,
                                    ) by {
                                        if u != b {
                                            assert(mount_before(names, b as int, u));
                                        }
                                    }
                                }
                                best = Some(j);
                            } else {
                                proof {
                                    assert(mount_before(names, b as int, j as int));
                                }
                            }
                        },
                    }
                }
                j = j + 1;
            }
            match best {
                None => {
                    proof {
                        assert forall|u: int| 0 <= u < n implies regex_is_match(
                            mount_pattern(#[trigger] names[u]),
                            pathname@,
                        ) == Some(false) by {
                            assert(visited@[u]);
                        }
                    }
                    return Err(Errno::ENOENT("VFS::lookup_path: no such file or directory".to_owned()));
                },
                Some(c) => {
                    proof {
                        reveal_strlit("^");
                        assert forall|jj: int| 0 <= jj < names.len() && #[trigger] mount_before(names, jj, c as int)
                            implies regex_is_match(mount_pattern(names[jj]), pathname@) == Some(false) by {
                            if !visited@[jj] {
                                assert(jj != c);
                                assert(mount_before(names, c as int, jj));
                            }
                        }
                        assert(none_before(names, pathname@, c as int));
                        assert forall|cc: int| 0 <= cc < names.len() && #[trigger] regex_is_match(
                            mount_pattern(names[cc]),
                            pathname@,
                        ) == Some(true) && none_before(names, pathname@, cc) implies cc == c || regex_is_match(
                            mount_pattern(names[c as int]),
                            pathname@,
                        ) == Some(false) by {
                            if cc != c {
                                if !mount_before(names, cc, c as int) {
                                    assert(mount_before(names, c as int, cc));
                                }
                            }
                        }
                    }
                    let mount_point = self.mount_points[c].target.as_str();
                    assert(names[c as int] == mount_point@);
                    let mut pattern = "^".to_owned();
                    pattern.append(mount_point);
                    assert(pattern@ == mount_pattern(names[c as int]));
                    assert(pattern@.skip(1) =~= names[c as int]);
                    match regex_matches(pattern.as_str(), pathname) {
                        Some(true) => {
                            if !crate::text::plain_text(mount_point) {
                                return Err(Errno::EINVAL("VFS::match_mount_point: mount point is not a plain path".to_owned()));
                            }
                            let stripped = regex_strip_start(pattern.as_str(), pathname);
                            let mut internal = "/".to_owned();
                            if stripped.as_str().unicode_len() == 0 {
                                internal.append(".");
                            } else {
                                internal.append(stripped.as_str());
                            }
                            proof {
                                reveal_strlit("/");
                                reveal_strlit(".");
                                assert(internal@ =~= internal_path(names[c as int], pathname@));
                            }
                            return Ok((mount_point.to_owned(), internal));
                        },
                        Some(false) => {
                            proof {
                                lemma_count_unvisited_mark(visited@, c as int);
                            }
                            visited.set(c, true);
                        },
                        None => {
                            return Err(Errno::EINVAL("VFS::match_mount_point: mount point is not a plain path".to_owned()));
                        },
                    }
                },
            }
        }
    }
}

} // verus!

verus! {

/// Putting back a mount point where it was taken from, with the same
/// target, leaves the targets as they were.
pub proof fn lemma_put_back(before: Seq<MountedFilesystem>, idx: int, m: MountedFilesystem)
    requires
        0 <= idx < before.len(),
        m.target@ == before[idx].target@,
    ensures
        names_of(before.remove(idx).insert(idx, m)) == names_of(before),
        forall|k: int| 0 <= k < before.len() && k != idx ==> #[trigger] before.remove(idx).insert(idx, m)[k] == before[k],
        before.remove(idx).insert(idx, m)[idx] == m,
{
    let after = before.remove(idx).insert(idx, m);
    assert forall|k: int| 0 <= k < before.len() && k != idx implies #[trigger] after[k] == before[k] by {
        if k < idx {
            assert(after[k] == before[k]);
        } else {
            assert(after[k] == before.remove(idx)[k - 1]);
        }
    }
    assert(names_of(after) =~= names_of(before)) by {
        assert forall|k: int| 0 <= k < before.len() implies names_of(after)[k] == names_of(before)[k] by {
            if k != idx {
                assert(after[k] == before[k]);
            }
        }
    }
}

impl VFS {
    /// The index of the mount point that serves `pathname`, and the path
    /// inside its filesystem.
    fn locate(&self, pathname: &str) -> (result: Result<(usize, String), Errno>)
        requires
            self.wf(),
        ensures
            result matches Ok((i, internal)) ==> i < self.mount_points@.len() && holds_path(self.targets(), pathname@, i as int)
                && internal@ == internal_path(self.targets()[i as int], pathname@),
            result is Err ==> forall|c: int| !#[trigger] holds_path(self.targets(), pathname@, c),
            (forall|j: int| 0 <= j < self.targets().len() ==> regex_is_match(mount_pattern(#[trigger] self.targets()[j]), pathname@)
                == Some(false)) ==> (result matches Err(Errno::ENOENT(m)) && m@ == "VFS::lookup_path: no such file or directory"@),
    {
        let (mount_point, internal) = self.match_mount_point(pathname)?;
        let ghost c = choose|c: int| {
            &&& 0 <= c < self.targets().len()
            &&& #[trigger] self.targets()[c] == mount_point@
            &&& regex_is_match(mount_pattern(self.targets()[c]), pathname@) == Some(true)
            &&& none_before(self.targets(), pathname@, c)
            &&& is_plain_text(self.targets()[c])
            &&& internal@ == internal_path(self.targets()[c], pathname@)
        };
        proof {
            lemma_lookup_named_some(self.mount_points@, mount_point@);
            assert(has_name(names_of(self.mount_points@), mount_point@));
        }
        match find_named(&self.mount_points, mount_point.as_str()) {
            Some(i) => {
                proof {
                    crate::text::lemma_sorted_names_distinct(self.targets(), i as int, c);
                }
                Ok((i, internal))
            },
            None => Err(Errno::ENOENT("VFS::lookup_path: no such file or directory".to_owned())),
        }
    }

    /// Whether a filesystem is mounted at `target`.
    pub fn is_mounted(&self, target: &str) -> (mounted: bool)
        requires
            self.wf(),
        ensures
            mounted == self.targets().contains(target@),
    {
        proof {
            lemma_lookup_named_some(self.mount_points@, target@);
        }
        find_named(&self.mount_points, target).is_some()
    }

    /// Adds `mounted` at its target, unless something is mounted there;
    /// says whether it did.
    pub fn insert_mount(&mut self, mounted: MountedFilesystem) -> (added: bool)
        requires
            old(self).wf(),
            mounted.driver.wf(),
        ensures
            final(self).wf(),
            added == !old(self).targets().contains(mounted.target@),
            final(self).targets().to_set() == old(self).targets().to_set().insert(mounted.target@),
            !added ==> final(self).targets() == old(self).targets(),
            !added ==> final(self).mount_points@ == old(self).mount_points@,
            added ==> exists|pos: int| 0 <= pos <= old(self).mount_points@.len() && final(self).mount_points@
                == old(self).mount_points@.insert(pos, mounted),
            final(self).open_files@ == old(self).open_files@,
    {
        let ghost before = self.mount_points@;
        let ghost m = mounted;
        let added = insert_named(&mut self.mount_points, mounted);
        proof {
            if added {
                let pos = choose|pos: int| 0 <= pos <= before.len() && self.mount_points@ == before.insert(pos, m);
                assert forall|k: int| 0 <= k < self.mount_points@.len() implies (#[trigger] self.mount_points@[k]).driver.wf() by {
                    if k < pos {
                        assert(self.mount_points@[k] == before[k]);
                    } else if k > pos {
                        assert(self.mount_points@[k] == before[k - 1]);
                    }
                }
            }
            assert(before.len() == names_of(before).len());
            if !has_name(names_of(before), m.target@) {
                assert(!names_of(before).contains(m.target@));
            } else {
                let k = choose|k: int| 0 <= k < names_of(before).len() && names_of(before)[k] == m.target@;
                assert(names_of(before).contains(m.target@));
                assert(names_of(before).to_set().insert(m.target@) =~= names_of(before).to_set());
            }
        }
        added
    }

    /// Takes out the filesystem mounted at `target`, if there is one.
    pub fn remove_mount(&mut self, target: &str) -> (removed: Option<MountedFilesystem>)
        requires
            old(self).wf(),
        ensures
            final(self).wf(),
            removed is Some == old(self).targets().contains(target@),
            final(self).targets().to_set() == old(self).targets().to_set().remove(target@),
            removed is None ==> final(self).targets() == old(self).targets(),
    {
        let ghost before = self.mount_points@;
        let removed = remove_named(&mut self.mount_points, target);
        proof {
            if removed is Some {
                let e = removed.unwrap();
                let pos = choose|pos: int| 0 <= pos < before.len() && before[pos] == e
                    && self.mount_points@ == before.remove(pos);
                assert forall|k: int| 0 <= k < self.mount_points@.len() implies (#[trigger] self.mount_points@[k]).driver.wf() by {
                    if k < pos {
                        assert(self.mount_points@[k] == before[k]);
                    } else {
                        assert(self.mount_points@[k] == before[k + 1]);
                    }
                }
            }
            if has_name(names_of(before), target@) {
                let k = choose|k: int| 0 <= k < names_of(before).len() && names_of(before)[k] == target@;
                assert(names_of(before).contains(target@));
            } else {
                assert(!names_of(before).contains(target@));
                assert(names_of(before).to_set().remove(target@) =~= names_of(before).to_set());
            }
        }
        removed
    }
}

} // verus!

verus! {

impl VFS {
    /// What creating a file at `pathname` does to the virtual filesystem, now `after`, and
    /// returns: nothing changes and an error comes back where no mount point
    /// holds the path; else only the filesystem of the one that does
    /// changes, as its driver does on the path inside it.
    pub open spec fn create_file_outcome(self, after: VFS, pathname: Seq<char>, result: Result<VINode, Errno>) -> bool {
        &&& after.targets() == self.targets()
        &&& (forall|c: int| !#[trigger] holds_path(self.targets(), pathname, c)) ==> (result is Err
            && after.mount_points@ == self.mount_points@)
        &&& forall|c: int| #[trigger] holds_path(self.targets(), pathname, c) ==> (routed(
            self.mount_points@,
            after.mount_points@,
            c,
        ) && self.mount_points@[c].driver.create_file_outcome(
            after.mount_points@[c].driver,
            internal_path(self.targets()[c], pathname),
            result,
        ))
    }

    /// What removing the file at `pathname` does to the virtual filesystem, now `after`, and
    /// returns: nothing changes and an error comes back where no mount point
    /// holds the path; else only the filesystem of the one that does
    /// changes, as its driver does on the path inside it.
    pub open spec fn remove_file_outcome(self, after: VFS, pathname: Seq<char>, result: Result<(), Errno>) -> bool {
        &&& after.targets() == self.targets()
        &&& (forall|c: int| !#[trigger] holds_path(self.targets(), pathname, c)) ==> (result is Err
            && after.mount_points@ == self.mount_points@)
        &&& forall|c: int| #[trigger] holds_path(self.targets(), pathname, c) ==> (routed(
            self.mount_points@,
            after.mount_points@,
            c,
        ) && self.mount_points@[c].driver.remove_file_outcome(
            after.mount_points@[c].driver,
            internal_path(self.targets()[c], pathname),
            result,
        ))
    }

    /// What creating a directory at `pathname` does to the virtual filesystem, now `after`, and
    /// returns: nothing changes and an error comes back where no mount point
    /// holds the path; else only the filesystem of the one that does
    /// changes, as its driver does on the path inside it.
    pub open spec fn create_dir_outcome(self, after: VFS, pathname: Seq<char>, result: Result<VINode, Errno>) -> bool {
        &&& after.targets() == self.targets()
        &&& (forall|c: int| !#[trigger] holds_path(self.targets(), pathname, c)) ==> (result is Err
            && after.mount_points@ == self.mount_points@)
        &&& forall|c: int| #[trigger] holds_path(self.targets(), pathname, c) ==> (routed(
            self.mount_points@,
            after.mount_points@,
            c,
        ) && self.mount_points@[c].driver.create_dir_outcome(
            after.mount_points@[c].driver,
            internal_path(self.targets()[c], pathname),
            result,
        ))
    }

    /// What reading the file at `pathname` does to the virtual filesystem, now `after`, and
    /// returns: nothing changes and an error comes back where no mount point
    /// holds the path; else only the filesystem of the one that does
    /// changes, as its driver does on the path inside it.
    pub open spec fn read_file_outcome(self, after: VFS, pathname: Seq<char>, result: Result<Vec<u8>, Errno>) -> bool {
        &&& after.targets() == self.targets()
        &&& (forall|c: int| !#[trigger] holds_path(self.targets(), pathname, c)) ==> (result is Err
            && after.mount_points@ == self.mount_points@)
        &&& forall|c: int| #[trigger] holds_path(self.targets(), pathname, c) ==> (routed(
            self.mount_points@,
            after.mount_points@,
            c,
        ) && self.mount_points@[c].driver.read_file_outcome(
            after.mount_points@[c].driver,
            internal_path(self.targets()[c], pathname),
            result,
        ))
    }

    /// What writing `data` as the file at `pathname` does to the virtual filesystem, now `after`, and
    /// returns: nothing changes and an error comes back where no mount point
    /// holds the path; else only the filesystem of the one that does
    /// changes, as its driver does on the path inside it.
    pub open spec fn write_file_outcome(self, after: VFS, pathname: Seq<char>, data: Seq<u8>, result: Result<VINode, Errno>) -> bool {
        &&& after.targets() == self.targets()
        &&& (forall|c: int| !#[trigger] holds_path(self.targets(), pathname, c)) ==> (result is Err
            && after.mount_points@ == self.mount_points@)
        &&& forall|c: int| #[trigger] holds_path(self.targets(), pathname, c) ==> (routed(
            self.mount_points@,
            after.mount_points@,
            c,
        ) && self.mount_points@[c].driver.write_file_outcome(
            after.mount_points@[c].driver,
            internal_path(self.targets()[c], pathname), data,
            result,
        ))
    }

    /// What replacing the mode of the file at `pathname` does to the virtual filesystem, now `after`, and
    /// returns: nothing changes and an error comes back where no mount point
    /// holds the path; else only the filesystem of the one that does
    /// changes, as its driver does on the path inside it.
    pub open spec fn change_mode_outcome(self, after: VFS, pathname: Seq<char>, mode: FileMode, result: Result<(), Errno>) -> bool {
        &&& after.targets() == self.targets()
        &&& (forall|c: int| !#[trigger] holds_path(self.targets(), pathname, c)) ==> (result is Err
            && after.mount_points@ == self.mount_points@)
        &&& forall|c: int| #[trigger] holds_path(self.targets(), pathname, c) ==> (routed(
            self.mount_points@,
            after.mount_points@,
            c,
        ) && self.mount_points@[c].driver.change_mode_outcome(
            after.mount_points@[c].driver,
            internal_path(self.targets()[c], pathname), mode,
            result,
        ))
    }

    /// What replacing the times of the file at `pathname` does to the virtual filesystem, now `after`, and
    /// returns: nothing changes and an error comes back where no mount point
    /// holds the path; else only the filesystem of the one that does
    /// changes, as its driver does on the path inside it.
    pub open spec fn change_times_outcome(self, after: VFS, pathname: Seq<char>, times: Times, result: Result<(), Errno>) -> bool {
        &&& after.targets() == self.targets()
        &&& (forall|c: int| !#[trigger] holds_path(self.targets(), pathname, c)) ==> (result is Err
            && after.mount_points@ == self.mount_points@)
        &&& forall|c: int| #[trigger] holds_path(self.targets(), pathname, c) ==> (routed(
            self.mount_points@,
            after.mount_points@,
            c,
        ) && self.mount_points@[c].driver.change_times_outcome(
            after.mount_points@[c].driver,
            internal_path(self.targets()[c], pathname), times,
            result,
        ))
    }

    /// What reporting on the file at `pathname` returns: an error where no
    /// mount point holds it, else what the driver of the one that does gives
    /// for the path inside it.
    pub open spec fn stat_outcome(self, pathname: Seq<char>, result: Result<FileStat, Errno>) -> bool {
        &&& (forall|c: int| !#[trigger] holds_path(self.targets(), pathname, c)) ==> result is Err
        &&& forall|c: int| #[trigger] holds_path(self.targets(), pathname, c) ==> self.mount_points@[c].driver.stat_outcome(
            internal_path(self.targets()[c], pathname),
            result,
        )
    }

    /// What looking up `pathname` returns: an error where no mount point
    /// holds it, else what the driver of the one that does gives for the path
    /// inside it.
    pub open spec fn lookup_outcome(self, pathname: Seq<char>, result: Result<VINode, Errno>) -> bool {
        &&& (forall|c: int| !#[trigger] holds_path(self.targets(), pathname, c)) ==> result is Err
        &&& forall|c: int| #[trigger] holds_path(self.targets(), pathname, c) ==> self.mount_points@[c].driver.lookup_path_outcome(
            internal_path(self.targets()[c], pathname),
            result,
        )
    }

    /// What listing the directory at `pathname` returns: an error where no
    /// mount point holds it; else, on the path inside the one that does, the
    /// driver's report on the file if it fails, `ENOTDIR` if the file is no
    /// directory, and the driver's listing if it is.
    pub open spec fn read_dir_outcome(self, pathname: Seq<char>, result: Result<VDirectory, Errno>) -> bool {
        &&& (forall|c: int| !#[trigger] holds_path(self.targets(), pathname, c)) ==> result is Err
        &&& forall|c: int| #[trigger] holds_path(self.targets(), pathname, c) ==> {
            let driver = self.mount_points@[c].driver;
            let internal = internal_path(self.targets()[c], pathname);
            &&& result is Ok ==> driver.read_dir_outcome(internal, result) && exists|st: FileStat| #[trigger]
                driver.stat_outcome(internal, Ok(st)) && type_of(st.mode.0) == 1
            &&& result matches Err(e) ==> {
                ||| driver.stat_outcome(internal, Err(e))
                ||| (e matches Errno::ENOTDIR(m) && m@ == "read_dir: not a directory"@ && exists|st: FileStat| #[trigger]
                    driver.stat_outcome(internal, Ok(st)) && type_of(st.mode.0) != 1)
                ||| (driver.read_dir_outcome(internal, result) && exists|st: FileStat| #[trigger]
                    driver.stat_outcome(internal, Ok(st)) && type_of(st.mode.0) == 1)
            }
        }
    }
}

impl Filesystem for VFS {
    open spec fn fs_wf(&self) -> bool {
        self.wf()
    }

    /// Creates an empty file at `pathname` in the filesystem that serves it.
    fn create_file(&mut self, pathname: &str) -> (result: Result<VINode, Errno>)
        ensures
            old(self).create_file_outcome(*final(self), pathname@, result),
            final(self).targets() == old(self).targets(),
            (forall|j: int| 0 <= j < old(self).targets().len() ==> regex_is_match(
                mount_pattern(#[trigger] old(self).targets()[j]),
                pathname@,
            ) == Some(false)) ==> (result matches Err(Errno::ENOENT(m)) && m@ == "VFS::lookup_path: no such file or directory"@),
    {
        let (idx, internal) = self.locate(pathname)?;
        proof {
            assert forall|c: int| #[trigger] holds_path(self.targets(), pathname@, c) implies c == idx by {
                lemma_holds_path_unique(self.targets(), pathname@, c, idx as int);
            }
        }
        let ghost before = self.mount_points@;
        let mut mounted = self.mount_points.remove(idx);
        let result = match &mut mounted.driver {
            Driver::Dev(d) => d.create_file(internal.as_str()),
            Driver::E5(e) => e.create_file(internal.as_str()),
            Driver::Bin(b) => b.create_file(internal.as_str()),
        };
        proof {
            lemma_put_back(before, idx as int, mounted);
        }
        self.mount_points.insert(idx, mounted);
        proof {
            assert forall|k: int| 0 <= k < self.mount_points@.len() implies (#[trigger] self.mount_points@[k]).driver.wf() by {
                if k != idx {
                    assert(self.mount_points@[k] == before[k]);
                }
            }
        }
        result
    }

    /// Removes the file at `pathname` from the filesystem that serves it.
    fn remove_file(&mut self, pathname: &str) -> (result: Result<(), Errno>)
        ensures
            old(self).remove_file_outcome(*final(self), pathname@, result),
            final(self).targets() == old(self).targets(),
            (forall|j: int| 0 <= j < old(self).targets().len() ==> regex_is_match(
                mount_pattern(#[trigger] old(self).targets()[j]),
                pathname@,
            ) == Some(false)) ==> (result matches Err(Errno::ENOENT(m)) && m@ == "VFS::lookup_path: no such file or directory"@),
    {
        let (idx, internal) = self.locate(pathname)?;
        proof {
            assert forall|c: int| #[trigger] holds_path(self.targets(), pathname@, c) implies c == idx by {
                lemma_holds_path_unique(self.targets(), pathname@, c, idx as int);
            }
        }
        let ghost before = self.mount_points@;
        let mut mounted = self.mount_points.remove(idx);
        let result = match &mut mounted.driver {
            Driver::Dev(d) => d.remove_file(internal.as_str()),
            Driver::E5(e) => e.remove_file(internal.as_str()),
            Driver::Bin(b) => b.remove_file(internal.as_str()),
        };
        proof {
            lemma_put_back(before, idx as int, mounted);
        }
        self.mount_points.insert(idx, mounted);
        proof {
            assert forall|k: int| 0 <= k < self.mount_points@.len() implies (#[trigger] self.mount_points@[k]).driver.wf() by {
                if k != idx {
                    assert(self.mount_points@[k] == before[k]);
                }
            }
        }
        result
    }

    /// Creates an empty directory at `pathname` in the filesystem that serves it.
    fn create_dir(&mut self, pathname: &str) -> (result: Result<VINode, Errno>)
        ensures
            old(self).create_dir_outcome(*final(self), pathname@, result),
            final(self).targets() == old(self).targets(),
            (forall|j: int| 0 <= j < old(self).targets().len() ==> regex_is_match(
                mount_pattern(#[trigger] old(self).targets()[j]),
                pathname@,
            ) == Some(false)) ==> (result matches Err(Errno::ENOENT(m)) && m@ == "VFS::lookup_path: no such file or directory"@),
    {
        let (idx, internal) = self.locate(pathname)?;
        proof {
            assert forall|c: int| #[trigger] holds_path(self.targets(), pathname@, c) implies c == idx by {
                lemma_holds_path_unique(self.targets(), pathname@, c, idx as int);
            }
        }
        let ghost before = self.mount_points@;
        let mut mounted = self.mount_points.remove(idx);
        let result = match &mut mounted.driver {
            Driver::Dev(d) => d.create_dir(internal.as_str()),
            Driver::E5(e) => e.create_dir(internal.as_str()),
            Driver::Bin(b) => b.create_dir(internal.as_str()),
        };
        proof {
            lemma_put_back(before, idx as int, mounted);
        }
        self.mount_points.insert(idx, mounted);
        proof {
            assert forall|k: int| 0 <= k < self.mount_points@.len() implies (#[trigger] self.mount_points@[k]).driver.wf() by {
                if k != idx {
                    assert(self.mount_points@[k] == before[k]);
                }
            }
        }
        result
    }

    /// Reads the whole file at `pathname` from the filesystem that serves it.
    fn read_file(&mut self, pathname: &str, count: AddressSize) -> (result: Result<Vec<u8>, Errno>)
        ensures
            old(self).read_file_outcome(*final(self), pathname@, result),
            final(self).targets() == old(self).targets(),
            (forall|j: int| 0 <= j < old(self).targets().len() ==> regex_is_match(
                mount_pattern(#[trigger] old(self).targets()[j]),
                pathname@,
            ) == Some(false)) ==> (result matches Err(Errno::ENOENT(m)) && m@ == "VFS::lookup_path: no such file or directory"@),
    {
        let (idx, internal) = self.locate(pathname)?;
        proof {
            assert forall|c: int| #[trigger] holds_path(self.targets(), pathname@, c) implies c == idx by {
                lemma_holds_path_unique(self.targets(), pathname@, c, idx as int);
            }
        }
        let ghost before = self.mount_points@;
        let mut mounted = self.mount_points.remove(idx);
        let result = match &mut mounted.driver {
            Driver::Dev(d) => d.read_file(internal.as_str(), EVERYTHING),
            Driver::E5(e) => e.read_file(internal.as_str(), EVERYTHING),
            Driver::Bin(b) => b.read_file(internal.as_str(), EVERYTHING),
        };
        proof {
            lemma_put_back(before, idx as int, mounted);
        }
        self.mount_points.insert(idx, mounted);
        proof {
            assert forall|k: int| 0 <= k < self.mount_points@.len() implies (#[trigger] self.mount_points@[k]).driver.wf() by {
                if k != idx {
                    assert(self.mount_points@[k] == before[k]);
                }
            }
        }
        result
    }

    /// Writes `data` as the file at `pathname` in the filesystem that serves it.
    fn write_file(&mut self, pathname: &str, data: &[u8]) -> (result: Result<VINode, Errno>)
        ensures
            old(self).write_file_outcome(*final(self), pathname@, data@, result),
            final(self).targets() == old(self).targets(),
            (forall|j: int| 0 <= j < old(self).targets().len() ==> regex_is_match(
                mount_pattern(#[trigger] old(self).targets()[j]),
                pathname@,
            ) == Some(false)) ==> (result matches Err(Errno::ENOENT(m)) && m@ == "VFS::lookup_path: no such file or directory"@),
    {
        let (idx, internal) = self.locate(pathname)?;
        proof {
            assert forall|c: int| #[trigger] holds_path(self.targets(), pathname@, c) implies c == idx by {
                lemma_holds_path_unique(self.targets(), pathname@, c, idx as int);
            }
        }
        let ghost before = self.mount_points@;
        let mut mounted = self.mount_points.remove(idx);
        let result = match &mut mounted.driver {
            Driver::Dev(d) => d.write_file(internal.as_str(), data),
            Driver::E5(e) => e.write_file(internal.as_str(), data),
            Driver::Bin(b) => b.write_file(internal.as_str(), data),
        };
        proof {
            lemma_put_back(before, idx as int, mounted);
        }
        self.mount_points.insert(idx, mounted);
        proof {
            assert forall|k: int| 0 <= k < self.mount_points@.len() implies (#[trigger] self.mount_points@[k]).driver.wf() by {
                if k != idx {
                    assert(self.mount_points@[k] == before[k]);
                }
            }
        }
        result
    }

    /// Replaces the mode of the file at `pathname` in the filesystem that serves it.
    fn change_mode(&mut self, pathname: &str, mode: FileMode) -> (result: Result<(), Errno>)
        ensures
            old(self).change_mode_outcome(*final(self), pathname@, mode, result),
            final(self).targets() == old(self).targets(),
            (forall|j: int| 0 <= j < old(self).targets().len() ==> regex_is_match(
                mount_pattern(#[trigger] old(self).targets()[j]),
                pathname@,
            ) == Some(false)) ==> (result matches Err(Errno::ENOENT(m)) && m@ == "VFS::lookup_path: no such file or directory"@),
    {
        let (idx, internal) = self.locate(pathname)?;
        proof {
            assert forall|c: int| #[trigger] holds_path(self.targets(), pathname@, c) implies c == idx by {
                lemma_holds_path_unique(self.targets(), pathname@, c, idx as int);
            }
        }
        let ghost before = self.mount_points@;
        let mut mounted = self.mount_points.remove(idx);
        let result = match &mut mounted.driver {
            Driver::Dev(d) => d.change_mode(internal.as_str(), mode),
            Driver::E5(e) => e.change_mode(internal.as_str(), mode),
            Driver::Bin(b) => b.change_mode(internal.as_str(), mode),
        };
        proof {
            lemma_put_back(before, idx as int, mounted);
        }
        self.mount_points.insert(idx, mounted);
        proof {
            assert forall|k: int| 0 <= k < self.mount_points@.len() implies (#[trigger] self.mount_points@[k]).driver.wf() by {
                if k != idx {
                    assert(self.mount_points@[k] == before[k]);
                }
            }
        }
        result
    }

    /// Replaces the times of the file at `pathname` in the filesystem that serves it.
    fn change_times(&mut self, pathname: &str, times: Times) -> (result: Result<(), Errno>)
        ensures
            old(self).change_times_outcome(*final(self), pathname@, times, result),
            final(self).targets() == old(self).targets(),
            (forall|j: int| 0 <= j < old(self).targets().len() ==> regex_is_match(
                mount_pattern(#[trigger] old(self).targets()[j]),
                pathname@,
            ) == Some(false)) ==> (result matches Err(Errno::ENOENT(m)) && m@ == "VFS::lookup_path: no such file or directory"@),
    {
        let (idx, internal) = self.locate(pathname)?;
        proof {
            assert forall|c: int| #[trigger] holds_path(self.targets(), pathname@, c) implies c == idx by {
                lemma_holds_path_unique(self.targets(), pathname@, c, idx as int);
            }
        }
        let ghost before = self.mount_points@;
        let mut mounted = self.mount_points.remove(idx);
        let result = match &mut mounted.driver {
            Driver::Dev(d) => d.change_times(internal.as_str(), times),
            Driver::E5(e) => e.change_times(internal.as_str(), times),
            Driver::Bin(b) => b.change_times(internal.as_str(), times),
        };
        proof {
            lemma_put_back(before, idx as int, mounted);
        }
        self.mount_points.insert(idx, mounted);
        proof {
            assert forall|k: int| 0 <= k < self.mount_points@.len() implies (#[trigger] self.mount_points@[k]).driver.wf() by {
                if k != idx {
                    assert(self.mount_points@[k] == before[k]);
                }
            }
        }
        result
    }

    /// Lists the directory at `pathname` in the filesystem that serves it; what is not a directory cannot be listed.
    fn read_dir(&self, pathname: &str) -> (result: Result<VDirectory, Errno>)
        ensures
            self.read_dir_outcome(pathname@, result),
            (forall|j: int| 0 <= j < self.targets().len() ==> regex_is_match(
                mount_pattern(#[trigger] self.targets()[j]),
                pathname@,
            ) == Some(false)) ==> (result matches Err(Errno::ENOENT(m)) && m@ == "VFS::lookup_path: no such file or directory"@),
    {
        let (idx, internal) = self.locate(pathname)?;
        proof {
            assert forall|c: int| #[trigger] holds_path(self.targets(), pathname@, c) implies c == idx by {
                lemma_holds_path_unique(self.targets(), pathname@, c, idx as int);
            }
        }
        let ghost driver = self.mount_points@[idx as int].driver;
        let stat_result = match &self.mount_points[idx].driver {
            Driver::Dev(d) => d.stat(internal.as_str()),
            Driver::E5(e) => e.stat(internal.as_str()),
            Driver::Bin(b) => b.stat(internal.as_str()),
        };
        assert(driver.stat_outcome(internal@, stat_result));
        let stat = match stat_result {
            Ok(st) => st,
            Err(e) => {
                return Err(e);
            },
        };
        if stat.mode.file_type() != 1 {
            return Err(Errno::ENOTDIR("read_dir: not a directory".to_owned()));
        }
        let result = match &self.mount_points[idx].driver {
            Driver::Dev(d) => d.read_dir(internal.as_str()),
            Driver::E5(e) => e.read_dir(internal.as_str()),
            Driver::Bin(b) => b.read_dir(internal.as_str()),
        };
        assert(driver.read_dir_outcome(internal@, result));
        result
    }

    /// Reports on the file at `pathname` in the filesystem that serves it.
    fn stat(&self, pathname: &str) -> (result: Result<FileStat, Errno>)
        ensures
            self.stat_outcome(pathname@, result),
            (forall|j: int| 0 <= j < self.targets().len() ==> regex_is_match(
                mount_pattern(#[trigger] self.targets()[j]),
                pathname@,
            ) == Some(false)) ==> (result matches Err(Errno::ENOENT(m)) && m@ == "VFS::lookup_path: no such file or directory"@),
    {
        let (idx, internal) = self.locate(pathname)?;
        proof {
            assert forall|c: int| #[trigger] holds_path(self.targets(), pathname@, c) implies c == idx by {
                lemma_holds_path_unique(self.targets(), pathname@, c, idx as int);
            }
        }
        match &self.mount_points[idx].driver {
            Driver::Dev(d) => d.stat(internal.as_str()),
            Driver::E5(e) => e.stat(internal.as_str()),
            Driver::Bin(b) => b.stat(internal.as_str()),
        }
    }

    /// Finds the file at `pathname` in the filesystem that serves it.
    fn lookup_path(&self, pathname: &str) -> (result: Result<VINode, Errno>)
        ensures
            self.lookup_outcome(pathname@, result),
            (forall|j: int| 0 <= j < self.targets().len() ==> regex_is_match(
                mount_pattern(#[trigger] self.targets()[j]),
                pathname@,
            ) == Some(false)) ==> (result matches Err(Errno::ENOENT(m)) && m@ == "VFS::lookup_path: no such file or directory"@),
    {
        let (idx, internal) = self.locate(pathname)?;
        proof {
            assert forall|c: int| #[trigger] holds_path(self.targets(), pathname@, c) implies c == idx by {
                lemma_holds_path_unique(self.targets(), pathname@, c, idx as int);
            }
        }
        match &self.mount_points[idx].driver {
            Driver::Dev(d) => d.lookup_path(internal.as_str()),
            Driver::E5(e) => e.lookup_path(internal.as_str()),
            Driver::Bin(b) => b.lookup_path(internal.as_str()),
        }
    }

    /// The driver's name: `vfs`.
    fn name(&self) -> (name: String)
        ensures
            name@ == "vfs"@,
    {
        "vfs".to_owned()
    }
}

} // verus!

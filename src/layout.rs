//! Fixed guest layouts of the C structs that the shim hands to the guest,
//! and the host-side records they are made from.
use vstd::prelude::*;
use crate::memory::{le_u32, le_u64, u32_le_bytes, u64_le_bytes};

verus! {

/// Size of the guest stat record, trailing padding included.
pub const GUEST_STAT_SIZE: u32 = 80;

/// Bytes of the guest stat record that hold fields.
pub const GUEST_STAT_FIELD_BYTES: u32 = 76;

/// Size of the guest password entry.
pub const GUEST_PASSWD_SIZE: u32 = 28;

/// Alignment that the guest password entry needs.
pub const GUEST_PASSWD_ALIGN: u32 = 4;

/// Block size that every guest stat record reports.
pub const GUEST_BLOCK_SIZE: u32 = 4096;

/// The host's file status record, as plain values.
#[derive(Clone, Copy, Debug, PartialEq, Eq, Structural)]
pub struct HostStat {
    pub st_dev: u64,
    pub st_ino: u64,
    pub st_nlink: u64,
    pub st_mode: u32,
    pub st_uid: u32,
    pub st_gid: u32,
    pub st_rdev: u64,
    pub st_size: i64,
    pub st_blksize: i64,
    pub st_blocks: i64,
    pub st_atime: i64,
    pub st_mtime: i64,
    pub st_ctime: i64,
}

/// The guest's `struct stat`: 32-bit fields with explicit padding where the
/// guest C library has 64-bit holes, 64-bit timestamps, and the inode number
/// a second time at the end.
#[derive(Clone, Copy, Debug, PartialEq, Eq, Structural)]
pub struct GuestStat {
    pub st_dev: u32,
    pub __st_dev_padding: u32,
    pub __st_ino_truncated: u32,
    pub st_mode: u32,
    pub st_nlink: u32,
    pub st_uid: u32,
    pub st_gid: u32,
    pub st_rdev: u32,
    pub __st_rdev_padding: u32,
    pub st_size: u32,
    pub st_blksize: u32,
    pub st_blocks: u32,
    pub st_atime: u64,
    pub st_mtime: u64,
    pub st_ctime: u64,
    pub st_ino: u32,
}

/// The guest record for a host record: fields truncated to the guest's
/// widths, padding zeroed, block size fixed.
pub open spec fn guest_stat_of(h: HostStat) -> GuestStat {
    GuestStat {
        st_dev: h.st_dev as u32,
        __st_dev_padding: 0,
        __st_ino_truncated: h.st_ino as u32,
        st_mode: h.st_mode,
        st_nlink: h.st_nlink as u32,
        st_uid: h.st_uid,
        st_gid: h.st_gid,
        st_rdev: h.st_rdev as u32,
        __st_rdev_padding: 0,
        st_size: h.st_size as u32,
        st_blksize: GUEST_BLOCK_SIZE,
        st_blocks: h.st_blocks as u32,
        st_atime: h.st_atime as u64,
        st_mtime: h.st_mtime as u64,
        st_ctime: h.st_ctime as u64,
        st_ino: h.st_ino as u32,
    }
}

/// The field bytes of a guest stat record, in guest memory order.
pub open spec fn guest_stat_bytes(g: GuestStat) -> Seq<u8> {
    le_u32(g.st_dev) + le_u32(g.__st_dev_padding) + le_u32(g.__st_ino_truncated) + le_u32(
        g.st_mode,
    ) + le_u32(g.st_nlink) + le_u32(g.st_uid) + le_u32(g.st_gid) + le_u32(g.st_rdev) + le_u32(
        g.__st_rdev_padding,
    ) + le_u32(g.st_size) + le_u32(g.st_blksize) + le_u32(g.st_blocks) + le_u64(g.st_atime)
        + le_u64(g.st_mtime) + le_u64(g.st_ctime) + le_u32(g.st_ino)
}

impl GuestStat {
    /// Translates a host record into the guest layout.
    #[verifier::truncate]
    pub fn from_host(h: &HostStat) -> (r: GuestStat)
        ensures
            r == guest_stat_of(*h),
            r.st_blksize == 4096,
    {
        GuestStat {
            st_dev: h.st_dev as u32,
            __st_dev_padding: 0,
            __st_ino_truncated: h.st_ino as u32,
            st_mode: h.st_mode,
            st_nlink: h.st_nlink as u32,
            st_uid: h.st_uid,
            st_gid: h.st_gid,
            st_rdev: h.st_rdev as u32,
            __st_rdev_padding: 0,
            st_size: h.st_size as u32,
            st_blksize: GUEST_BLOCK_SIZE,
            st_blocks: h.st_blocks as u32,
            st_atime: h.st_atime as u64,
            st_mtime: h.st_mtime as u64,
            st_ctime: h.st_ctime as u64,
            st_ino: h.st_ino as u32,
        }
    }

    /// The record's field bytes as guest memory holds them.
    pub fn to_bytes(&self) -> (r: Vec<u8>)
        ensures
            r@ == guest_stat_bytes(*self),
            r@.len() == GUEST_STAT_FIELD_BYTES,
    {
        let mut r: Vec<u8> = Vec::new();
        let mut b = u32_le_bytes(self.st_dev);
        r.append(&mut b);
        let mut b = u32_le_bytes(self.__st_dev_padding);
        r.append(&mut b);
        let mut b = u32_le_bytes(self.__st_ino_truncated);
        r.append(&mut b);
        let mut b = u32_le_bytes(self.st_mode);
        r.append(&mut b);
        let mut b = u32_le_bytes(self.st_nlink);
        r.append(&mut b);
        let mut b = u32_le_bytes(self.st_uid);
        r.append(&mut b);
        let mut b = u32_le_bytes(self.st_gid);
        r.append(&mut b);
        let mut b = u32_le_bytes(self.st_rdev);
        r.append(&mut b);
        let mut b = u32_le_bytes(self.__st_rdev_padding);
        r.append(&mut b);
        let mut b = u32_le_bytes(self.st_size);
        r.append(&mut b);
        let mut b = u32_le_bytes(self.st_blksize);
        r.append(&mut b);
        let mut b = u32_le_bytes(self.st_blocks);
        r.append(&mut b);
        let mut b = u64_le_bytes(self.st_atime);
        r.append(&mut b);
        let mut b = u64_le_bytes(self.st_mtime);
        r.append(&mut b);
        let mut b = u64_le_bytes(self.st_ctime);
        r.append(&mut b);
        let mut b = u32_le_bytes(self.st_ino);
        r.append(&mut b);
        assert(r@ =~= guest_stat_bytes(*self));
        r
    }
}

/// A host password-database entry, as plain values. Each text field holds
/// the bytes of the C string without its terminating zero.
#[derive(Clone, Debug)]
pub struct HostPasswd {
    pub name: Vec<u8>,
    pub passwd: Vec<u8>,
    pub uid: u32,
    pub gid: u32,
    pub gecos: Vec<u8>,
    pub dir: Vec<u8>,
    pub shell: Vec<u8>,
}

/// The guest's `struct passwd`: guest offsets of the text fields, and the
/// numeric ids.
#[derive(Clone, Copy, Debug, PartialEq, Eq, Structural)]
pub struct GuestPasswd {
    pub pw_name: u32,
    pub pw_passwd: u32,
    pub pw_uid: u32,
    pub pw_gid: u32,
    pub pw_gecos: u32,
    pub pw_dir: u32,
    pub pw_shell: u32,
}

/// The bytes of a guest password entry, in guest memory order.
pub open spec fn guest_passwd_bytes(g: GuestPasswd) -> Seq<u8> {
    le_u32(g.pw_name) + le_u32(g.pw_passwd) + le_u32(g.pw_uid) + le_u32(g.pw_gid) + le_u32(
        g.pw_gecos,
    ) + le_u32(g.pw_dir) + le_u32(g.pw_shell)
}

impl GuestPasswd {
    /// The entry's bytes as guest memory holds them.
    pub fn to_bytes(&self) -> (r: Vec<u8>)
        ensures
            r@ == guest_passwd_bytes(*self),
            r@.len() == GUEST_PASSWD_SIZE,
    {
        let mut r: Vec<u8> = Vec::new();
        let mut b = u32_le_bytes(self.pw_name);
        r.append(&mut b);
        let mut b = u32_le_bytes(self.pw_passwd);
        r.append(&mut b);
        let mut b = u32_le_bytes(self.pw_uid);
        r.append(&mut b);
        let mut b = u32_le_bytes(self.pw_gid);
        r.append(&mut b);
        let mut b = u32_le_bytes(self.pw_gecos);
        r.append(&mut b);
        let mut b = u32_le_bytes(self.pw_dir);
        r.append(&mut b);
        let mut b = u32_le_bytes(self.pw_shell);
        r.append(&mut b);
        assert(r@ =~= guest_passwd_bytes(*self));
        r
    }
}

} // verus!

//! File metadata and open-option logic.
//!
//! The kernel answers a file-status query with a record of plain fields;
//! everything the library computes from it — the file-type
//! classification, the timestamps, the conversion from the older stat
//! record with its packed device numbers — is bit arithmetic with exact
//! contracts.  The open-option set computes the flag word an open
//! submission carries, rejecting the combinations the platform rejects.
//! The system calls themselves stay outside the verified boundary and
//! hand these functions their plain values.

#![allow(non_camel_case_types)]

use vstd::prelude::*;

verus! {

/// The file-type mask of a mode word, and the types it selects.
pub const S_IFMT: u32 = 0o170000;

pub const S_IFDIR: u32 = 0o040000;

pub const S_IFREG: u32 = 0o100000;

pub const S_IFLNK: u32 = 0o120000;

pub const S_IFIFO: u32 = 0o010000;

/// One timestamp of a file-status record: seconds and nanoseconds since
/// the epoch.
#[derive(Clone, Copy, PartialEq, Eq, Structural, Debug)]
pub struct statx_timestamp {
    pub tv_sec: i64,
    pub tv_nsec: u32,
}

impl statx_timestamp {
    /// A timestamp from a seconds-and-nanoseconds pair as the older stat
    /// record carries it, the nanoseconds truncated to the timestamp's
    /// width.
    pub fn new(sec: i64, nsec: i64) -> (r: statx_timestamp)
        ensures
            r.tv_sec == sec,
            r.tv_nsec == nsec as u32,
    {
        statx_timestamp { tv_sec: sec, tv_nsec: nsec as u32 }
    }
}

/// The file-status record, as the kernel's extended status call fills it.
#[derive(Clone, Copy, PartialEq, Eq, Structural, Debug)]
pub struct statx {
    pub stx_mask: u32,
    pub stx_blksize: u32,
    pub stx_attributes: u64,
    pub stx_nlink: u32,
    pub stx_uid: u32,
    pub stx_gid: u32,
    pub stx_mode: u16,
    pub stx_ino: u64,
    pub stx_size: u64,
    pub stx_blocks: u64,
    pub stx_attributes_mask: u64,
    pub stx_atime: statx_timestamp,
    pub stx_btime: statx_timestamp,
    pub stx_ctime: statx_timestamp,
    pub stx_mtime: statx_timestamp,
    pub stx_rdev_major: u32,
    pub stx_rdev_minor: u32,
    pub stx_dev_major: u32,
    pub stx_dev_minor: u32,
}

/// The older stat record, with its device numbers packed into one word.
#[derive(Clone, Copy, PartialEq, Eq, Structural, Debug)]
pub struct stat_record {
    pub st_dev: u64,
    pub st_ino: u64,
    pub st_nlink: u64,
    pub st_mode: u32,
    pub st_uid: u32,
    pub st_gid: u32,
    pub st_rdev: u64,
    pub st_size: i64,
    pub st_blksize: i64,
    pub st_blocks: i64,
    pub st_atime: i64,
    pub st_atime_nsec: i64,
    pub st_mtime: i64,
    pub st_mtime_nsec: i64,
    pub st_ctime: i64,
    pub st_ctime_nsec: i64,
}

/// The major half of a packed device number.
pub open spec fn spec_dev_major(dev: u64) -> u32 {
    (((dev >> 8) & 0xfff) | ((dev >> 32) & 0xfffff000)) as u32
}

/// The minor half of a packed device number.
pub open spec fn spec_dev_minor(dev: u64) -> u32 {
    ((dev & 0xff) | ((dev >> 12) & 0xffffff00)) as u32
}

impl statx {
    /// The file-status record equivalent to an older stat record: every
    /// shared field carried over, the device numbers unpacked, and the
    /// fields stat does not report left empty.
    pub fn from_stat(stat: stat_record) -> (r: statx)
        ensures
            r.stx_mask == crate::reactor::STATX_BASIC_STATS,
            r.stx_blksize == stat.st_blksize as u32,
            r.stx_attributes == 0,
            r.stx_nlink == stat.st_nlink as u32,
            r.stx_uid == stat.st_uid,
            r.stx_gid == stat.st_gid,
            r.stx_mode == stat.st_mode as u16,
            r.stx_ino == stat.st_ino,
            r.stx_size == stat.st_size as u64,
            r.stx_blocks == stat.st_blocks as u64,
            r.stx_attributes_mask == 0,
            r.stx_atime == (statx_timestamp {
                tv_sec: stat.st_atime,
                tv_nsec: stat.st_atime_nsec as u32,
            }),
            r.stx_btime == (statx_timestamp { tv_sec: 0, tv_nsec: 0 }),
            r.stx_ctime == (statx_timestamp {
                tv_sec: stat.st_ctime,
                tv_nsec: stat.st_ctime_nsec as u32,
            }),
            r.stx_mtime == (statx_timestamp {
                tv_sec: stat.st_mtime,
                tv_nsec: stat.st_mtime_nsec as u32,
            }),
            r.stx_rdev_major == spec_dev_major(stat.st_rdev),
            r.stx_rdev_minor == spec_dev_minor(stat.st_rdev),
            r.stx_dev_major == spec_dev_major(stat.st_dev),
            r.stx_dev_minor == spec_dev_minor(stat.st_dev),
    {
        statx {
            stx_mask: crate::reactor::STATX_BASIC_STATS,
            stx_blksize: stat.st_blksize as u32,
            stx_attributes: 0,
            stx_nlink: stat.st_nlink as u32,
            stx_uid: stat.st_uid,
            stx_gid: stat.st_gid,
            stx_mode: stat.st_mode as u16,
            stx_ino: stat.st_ino,
            stx_size: stat.st_size as u64,
            stx_blocks: stat.st_blocks as u64,
            stx_attributes_mask: 0,
            stx_atime: statx_timestamp::new(stat.st_atime, stat.st_atime_nsec),
            stx_btime: statx_timestamp::new(0, 0),
            stx_ctime: statx_timestamp::new(stat.st_ctime, stat.st_ctime_nsec),
            stx_mtime: statx_timestamp::new(stat.st_mtime, stat.st_mtime_nsec),
            stx_rdev_major: dev_major(stat.st_rdev),
            stx_rdev_minor: dev_minor(stat.st_rdev),
            stx_dev_major: dev_major(stat.st_dev),
            stx_dev_minor: dev_minor(stat.st_dev),
        }
    }
}

/// Unpacks the major half of a device number.
pub fn dev_major(dev: u64) -> (r: u32)
    ensures
        r == spec_dev_major(dev),
{
    (((dev >> 8) & 0xfff) | ((dev >> 32) & 0xfffff000)) as u32
}

/// Unpacks the minor half of a device number.
pub fn dev_minor(dev: u64) -> (r: u32)
    ensures
        r == spec_dev_minor(dev),
{
    ((dev & 0xff) | ((dev >> 12) & 0xffffff00)) as u32
}

/// A timestamp as nanoseconds since the epoch, the form a system-time
/// value is built from.
pub fn system_time(time: statx_timestamp) -> (r: i128)
    ensures
        r == time.tv_sec * 1_000_000_000 + time.tv_nsec,
{
    time.tv_sec as i128 * 1_000_000_000 + time.tv_nsec as i128
}

/// Metadata about a file, as returned by a status query.
#[derive(Clone, Copy, PartialEq, Eq, Structural, Debug)]
pub struct Metadata {
    pub statx: statx,
}

/// A file type: the type bits of a mode word, with an accessor for each
/// type.  The accessors are mutually exclusive — at most one holds.
#[derive(Clone, Copy, PartialEq, Eq, Structural, Debug)]
pub struct FileType(pub u16);

/// Whether a mode word marks a directory.
pub open spec fn spec_is_dir(mode: u16) -> bool {
    mode as u32 & S_IFMT == S_IFDIR
}

/// Whether a mode word marks a regular file.
pub open spec fn spec_is_file(mode: u16) -> bool {
    mode as u32 & S_IFMT == S_IFREG
}

/// Whether a mode word marks a symbolic link.
pub open spec fn spec_is_symlink(mode: u16) -> bool {
    mode as u32 & S_IFMT == S_IFLNK
}

impl Metadata {
    /// The last access time.
    pub fn accessed(&self) -> (t: statx_timestamp)
        ensures
            t == self.statx.stx_atime,
    {
        self.statx.stx_atime
    }

    /// The creation time as this record reports it.
    pub fn created(&self) -> (t: statx_timestamp)
        ensures
            t == self.statx.stx_ctime,
    {
        self.statx.stx_ctime
    }

    /// The last modification time.
    pub fn modified(&self) -> (t: statx_timestamp)
        ensures
            t == self.statx.stx_mtime,
    {
        self.statx.stx_mtime
    }

    /// Whether this metadata is for a directory.
    pub fn is_dir(&self) -> (r: bool)
        ensures
            r == spec_is_dir(self.statx.stx_mode),
    {
        self.file_type().is_dir()
    }

    /// Whether this metadata is for a regular file.
    pub fn is_file(&self) -> (r: bool)
        ensures
            r == spec_is_file(self.statx.stx_mode),
    {
        self.file_type().is_file()
    }

    /// The file type of this metadata.
    pub fn file_type(&self) -> (r: FileType)
        ensures
            r == (FileType(self.statx.stx_mode)),
    {
        FileType(self.statx.stx_mode)
    }

    /// Whether this metadata is for a symbolic link.
    pub fn is_symlink(&self) -> (r: bool)
        ensures
            r == spec_is_symlink(self.statx.stx_mode),
    {
        self.file_type().is_symlink()
    }

    /// The size of the file in bytes.
    pub fn len(&self) -> (r: usize)
        ensures
            r == self.statx.stx_size as usize,
    {
        self.statx.stx_size as usize
    }
}

impl FileType {
    /// Whether this is a directory.
    pub fn is_dir(&self) -> (r: bool)
        ensures
            r == spec_is_dir(self.0),
    {
        self.0 as u32 & S_IFMT == S_IFDIR
    }

    /// Whether this is a regular file.
    pub fn is_file(&self) -> (r: bool)
        ensures
            r == spec_is_file(self.0),
    {
        self.0 as u32 & S_IFMT == S_IFREG
    }

    /// Whether this is a symbolic link.
    pub fn is_symlink(&self) -> (r: bool)
        ensures
            r == spec_is_symlink(self.0),
    {
        self.0 as u32 & S_IFMT == S_IFLNK
    }

    /// Whether this is a named pipe.
    pub fn is_fifo(&self) -> (r: bool)
        ensures
            r == (self.0 as u32 & S_IFIFO == S_IFIFO),
    {
        self.0 as u32 & S_IFIFO == S_IFIFO
    }
}

/// A mode word marks at most one of directory, regular file, and
/// symbolic link: the three accessors are mutually exclusive.
pub proof fn lemma_file_type_exclusive(mode: u16)
    ensures
        !(spec_is_dir(mode) && spec_is_file(mode)),
        !(spec_is_dir(mode) && spec_is_symlink(mode)),
        !(spec_is_file(mode) && spec_is_symlink(mode)),
{
}

/// An open file: the runtime's handle to a kernel descriptor.  Opening,
/// reading and writing go through the reactor's submissions; this record
/// is what the library knows of the file.
#[derive(Clone, Copy, PartialEq, Eq, Structural, Debug)]
pub struct File {
    pub fd: i32,
}

impl File {
    /// A fresh set of open options.
    pub fn options() -> (r: OpenOptions)
        ensures
            r == OpenOptions::spec_new(),
    {
        OpenOptions::new()
    }
}

/// The options an open submission is built from.
#[derive(Clone, Copy, PartialEq, Eq, Structural, Debug)]
pub struct OpenOptions {
    pub read: bool,
    pub write: bool,
    pub append: bool,
    pub truncate: bool,
    pub create: bool,
    pub create_new: bool,
    pub mode: u32,
}

pub const O_RDONLY: i32 = 0;

pub const O_WRONLY: i32 = 1;

pub const O_RDWR: i32 = 2;

pub const O_CREAT: i32 = 0x40;

pub const O_EXCL: i32 = 0x80;

pub const O_TRUNC: i32 = 0x200;

pub const O_APPEND: i32 = 0x400;

pub const O_CLOEXEC: i32 = 0x80000;

impl OpenOptions {
    /// The default options: nothing enabled, files created with mode 666.
    pub open spec fn spec_new() -> OpenOptions {
        OpenOptions {
            read: false,
            write: false,
            append: false,
            truncate: false,
            create: false,
            create_new: false,
            mode: 0o666,
        }
    }

    /// A fresh set of options.
    pub fn new() -> (r: OpenOptions)
        ensures
            r == OpenOptions::spec_new(),
    {
        OpenOptions {
            read: false,
            write: false,
            append: false,
            truncate: false,
            create: false,
            create_new: false,
            mode: 0o666,
        }
    }

    /// Enables or disables read access.
    pub fn read(self, read: bool) -> (r: OpenOptions)
        ensures
            r == (OpenOptions { read, ..self }),
    {
        OpenOptions { read, ..self }
    }

    /// Enables or disables write access.
    pub fn write(self, write: bool) -> (r: OpenOptions)
        ensures
            r == (OpenOptions { write, ..self }),
    {
        OpenOptions { write, ..self }
    }

    /// Enables or disables append mode, which implies write access.
    pub fn append(self, append: bool) -> (r: OpenOptions)
        ensures
            r == (OpenOptions { append, ..self }),
    {
        OpenOptions { append, ..self }
    }

    /// Enables or disables truncation on open.
    pub fn truncate(self, truncate: bool) -> (r: OpenOptions)
        ensures
            r == (OpenOptions { truncate, ..self }),
    {
        OpenOptions { truncate, ..self }
    }

    /// Enables or disables creating the file when missing.
    pub fn create(self, create: bool) -> (r: OpenOptions)
        ensures
            r == (OpenOptions { create, ..self }),
    {
        OpenOptions { create, ..self }
    }

    /// Enables or disables create-new, which fails when the file exists.
    pub fn create_new(self, create_new: bool) -> (r: OpenOptions)
        ensures
            r == (OpenOptions { create_new, ..self }),
    {
        OpenOptions { create_new, ..self }
    }

    /// The access bits these options ask for, or nothing when the
    /// combination grants no access.
    pub open spec fn spec_access_flags(self) -> Option<i32> {
        if self.append {
            if self.read {
                Some(O_RDWR | O_APPEND)
            } else {
                Some(O_WRONLY | O_APPEND)
            }
        } else if self.read && self.write {
            Some(O_RDWR)
        } else if self.read {
            Some(O_RDONLY)
        } else if self.write {
            Some(O_WRONLY)
        } else {
            None
        }
    }

    /// The creation bits these options ask for, or nothing when the
    /// combination is invalid: creating or truncating requires write
    /// access, and truncation contradicts append mode.
    pub open spec fn spec_creation_flags(self) -> Option<i32> {
        if (self.create || self.truncate || self.create_new) && !self.write && !self.append {
            None
        } else if self.append && self.truncate && !self.create_new {
            None
        } else if self.create_new {
            Some(O_CREAT | O_EXCL)
        } else {
            Some(
                (if self.create {
                    O_CREAT
                } else {
                    0
                }) | (if self.truncate {
                    O_TRUNC
                } else {
                    0
                }),
            )
        }
    }

    /// The flag word an open submission for these options carries, always
    /// including close-on-exec; an invalid combination is rejected, and
    /// is rejected exactly when access or creation bits are unobtainable.
    pub fn open_flags(&self) -> (r: Result<i32, ()>)
        ensures
            (self.spec_access_flags() is Some && self.spec_creation_flags() is Some) <==> r is Ok,
            r is Ok ==> r == Ok::<i32, ()>(
                O_CLOEXEC | self.spec_access_flags()->0 | self.spec_creation_flags()->0,
            ),
    {
        let access: i32 = if self.append {
            if self.read {
                O_RDWR | O_APPEND
            } else {
                O_WRONLY | O_APPEND
            }
        } else if self.read && self.write {
            O_RDWR
        } else if self.read {
            O_RDONLY
        } else if self.write {
            O_WRONLY
        } else {
            return Err(());
        };
        if (self.create || self.truncate || self.create_new) && !self.write && !self.append {
            return Err(());
        }
        if self.append && self.truncate && !self.create_new {
            return Err(());
        }
        let creation: i32 = if self.create_new {
            O_CREAT | O_EXCL
        } else {
            (if self.create {
                O_CREAT
            } else {
                0
            }) | (if self.truncate {
                O_TRUNC
            } else {
                0
            })
        };
        Ok(O_CLOEXEC | access | creation)
    }
}

} // verus!

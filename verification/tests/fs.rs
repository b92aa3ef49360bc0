use pneuma::fs::{
    dev_major, dev_minor, stat_record, statx, statx_timestamp, system_time, FileType, Metadata,
    OpenOptions, O_APPEND, O_CLOEXEC, O_CREAT, O_EXCL, O_RDONLY, O_RDWR, O_TRUNC, O_WRONLY,
};

fn sample_statx() -> statx {
    statx {
        stx_mask: 0x7ff,
        stx_blksize: 4096,
        stx_attributes: 0,
        stx_nlink: 1,
        stx_uid: 1000,
        stx_gid: 1000,
        stx_mode: 0o100644,
        stx_ino: 77,
        stx_size: 1234,
        stx_blocks: 8,
        stx_attributes_mask: 0,
        stx_atime: statx_timestamp { tv_sec: 5, tv_nsec: 250 },
        stx_btime: statx_timestamp { tv_sec: 0, tv_nsec: 0 },
        stx_ctime: statx_timestamp { tv_sec: 6, tv_nsec: 0 },
        stx_mtime: statx_timestamp { tv_sec: 7, tv_nsec: 1 },
        stx_rdev_major: 0,
        stx_rdev_minor: 0,
        stx_dev_major: 8,
        stx_dev_minor: 1,
    }
}

#[test]
fn file_types_are_exclusive() {
    let dir = FileType(0o040755);
    assert!(dir.is_dir() && !dir.is_file() && !dir.is_symlink() && !dir.is_fifo());
    let file = FileType(0o100644);
    assert!(file.is_file() && !file.is_dir() && !file.is_symlink());
    let link = FileType(0o120777);
    assert!(link.is_symlink() && !link.is_dir() && !link.is_file());
    let fifo = FileType(0o010600);
    assert!(fifo.is_fifo() && !fifo.is_dir() && !fifo.is_file());
}

#[test]
fn metadata_reads_the_record() {
    let m = Metadata { statx: sample_statx() };
    assert!(m.is_file());
    assert!(!m.is_dir());
    assert!(!m.is_symlink());
    assert!(m.file_type().is_file());
    assert_eq!(m.len(), 1234);
    assert_eq!(m.accessed(), statx_timestamp { tv_sec: 5, tv_nsec: 250 });
    assert_eq!(m.created(), statx_timestamp { tv_sec: 6, tv_nsec: 0 });
    assert_eq!(m.modified(), statx_timestamp { tv_sec: 7, tv_nsec: 1 });
}

#[test]
fn timestamps_as_nanoseconds() {
    assert_eq!(
        system_time(statx_timestamp { tv_sec: 5, tv_nsec: 250 }),
        5_000_000_250
    );
    assert_eq!(
        system_time(statx_timestamp { tv_sec: -1, tv_nsec: 0 }),
        -1_000_000_000
    );
}

#[test]
fn device_numbers_unpack() {
    // a small device number packs major and minor into the low bits
    let dev: u64 = (8 << 8) | 1;
    assert_eq!(dev_major(dev), 8);
    assert_eq!(dev_minor(dev), 1);
    // a large one spreads them into the high bits
    let major: u64 = 0x12345;
    let minor: u64 = 0xABCDE;
    let dev: u64 = ((major & 0xfff) << 8)
        | ((major & 0xfffff000) << 32)
        | (minor & 0xff)
        | ((minor & 0xffffff00) << 12);
    assert_eq!(dev_major(dev) as u64, major);
    assert_eq!(dev_minor(dev) as u64, minor);
}

#[test]
fn stat_converts_to_statx() {
    let stat = stat_record {
        st_dev: (8 << 8) | 2,
        st_ino: 42,
        st_nlink: 3,
        st_mode: 0o040755,
        st_uid: 0,
        st_gid: 0,
        st_rdev: 0,
        st_size: 512,
        st_blksize: 4096,
        st_blocks: 1,
        st_atime: 100,
        st_atime_nsec: 7,
        st_mtime: 200,
        st_mtime_nsec: 8,
        st_ctime: 300,
        st_ctime_nsec: 9,
    };
    let x = statx::from_stat(stat);
    assert_eq!(x.stx_ino, 42);
    assert_eq!(x.stx_nlink, 3);
    assert_eq!(x.stx_mode, 0o040755);
    assert_eq!(x.stx_size, 512);
    assert_eq!(x.stx_dev_major, 8);
    assert_eq!(x.stx_dev_minor, 2);
    assert_eq!(x.stx_atime, statx_timestamp { tv_sec: 100, tv_nsec: 7 });
    assert_eq!(x.stx_mtime, statx_timestamp { tv_sec: 200, tv_nsec: 8 });
    assert_eq!(x.stx_ctime, statx_timestamp { tv_sec: 300, tv_nsec: 9 });
    assert_eq!(x.stx_btime, statx_timestamp { tv_sec: 0, tv_nsec: 0 });
    assert!(Metadata { statx: x }.is_dir());
}

#[test]
fn open_flags_for_access_modes() {
    assert_eq!(
        pneuma::fs::File::options().read(true).open_flags(),
        Ok(O_CLOEXEC | O_RDONLY)
    );
    assert_eq!(
        OpenOptions::new().write(true).open_flags(),
        Ok(O_CLOEXEC | O_WRONLY)
    );
    assert_eq!(
        OpenOptions::new().read(true).write(true).open_flags(),
        Ok(O_CLOEXEC | O_RDWR)
    );
    assert_eq!(
        OpenOptions::new().append(true).open_flags(),
        Ok(O_CLOEXEC | O_WRONLY | O_APPEND)
    );
    assert_eq!(
        OpenOptions::new().read(true).append(true).open_flags(),
        Ok(O_CLOEXEC | O_RDWR | O_APPEND)
    );
}

#[test]
fn open_flags_for_creation() {
    // the composition File::create uses
    assert_eq!(
        OpenOptions::new()
            .write(true)
            .create(true)
            .truncate(true)
            .open_flags(),
        Ok(O_CLOEXEC | O_WRONLY | O_CREAT | O_TRUNC)
    );
    // the composition File::create_new uses
    assert_eq!(
        OpenOptions::new()
            .read(true)
            .write(true)
            .create_new(true)
            .open_flags(),
        Ok(O_CLOEXEC | O_RDWR | O_CREAT | O_EXCL)
    );
}

#[test]
fn open_flags_reject_invalid_combinations() {
    // no access at all
    assert!(OpenOptions::new().open_flags().is_err());
    // creating without write access
    assert!(OpenOptions::new().read(true).create(true).open_flags().is_err());
    assert!(OpenOptions::new().read(true).truncate(true).open_flags().is_err());
    // truncating an append-mode file
    assert!(OpenOptions::new()
        .append(true)
        .truncate(true)
        .open_flags()
        .is_err());
}

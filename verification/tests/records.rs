use wasi_fs::host::{
    host_file_type_to_wasi_file_type, stat_from_answer, FileAttributes, HostFileType, HostMetadata,
    StatAnswer,
};
use wasi_fs::jmp::{_longjmp, SetThrew};
use wasi_fs::wasi::{
    __wasi_filestat_t, PrestatEnum, WasiFsError, __WASI_EACCES, __WASI_EBADF, __WASI_EEXIST,
    __WASI_EIO,
};

fn metadata() -> HostMetadata {
    HostMetadata {
        file_type: HostFileType::File,
        len: 7,
        accessed: Some(11),
        modified: Some(12),
        created: Some(13),
    }
}

#[test]
fn file_types_have_numbers() {
    assert_eq!(host_file_type_to_wasi_file_type(HostFileType::Dir), 3);
    assert_eq!(host_file_type_to_wasi_file_type(HostFileType::File), 4);
    assert_eq!(host_file_type_to_wasi_file_type(HostFileType::Symlink), 7);
    assert_eq!(host_file_type_to_wasi_file_type(HostFileType::Other), 0);
}

#[test]
fn metadata_becomes_attributes() {
    let stat = stat_from_answer(StatAnswer::Metadata(Some(metadata()))).unwrap();
    let expected = __wasi_filestat_t {
        st_dev: 0,
        st_ino: 0,
        st_filetype: 4,
        st_nlink: 1,
        st_size: 7,
        st_atim: 11,
        st_mtim: 12,
        st_ctim: 13,
    };
    assert_eq!(stat, expected);
}

#[test]
fn times_keep_their_lower_bits() {
    let mut md = metadata();
    md.accessed = Some((1u128 << 64) + 5);
    md.modified = Some(u64::MAX as u128);
    let stat = stat_from_answer(StatAnswer::Metadata(Some(md))).unwrap();
    assert_eq!(stat.st_atim, 5);
    assert_eq!(stat.st_mtim, u64::MAX);
}

#[test]
fn only_the_creation_time_may_be_missing() {
    let mut md = metadata();
    md.created = None;
    assert_eq!(stat_from_answer(StatAnswer::Metadata(Some(md))).unwrap().st_ctim, 0);
    md.accessed = None;
    assert_eq!(stat_from_answer(StatAnswer::Metadata(Some(md))), None);
    let mut md = metadata();
    md.modified = None;
    assert_eq!(stat_from_answer(StatAnswer::Metadata(Some(md))), None);
    assert_eq!(stat_from_answer(StatAnswer::Metadata(None)), None);
}

#[test]
fn an_open_file_is_regular() {
    let attributes = FileAttributes {
        size: 1,
        last_accessed: 2,
        last_modified: 3,
        created_time: 4,
    };
    let stat = stat_from_answer(StatAnswer::Attributes(attributes)).unwrap();
    assert_eq!(stat.st_filetype, 4);
    assert_eq!(stat.st_size, 1);
    assert_eq!(stat.st_atim, 2);
    assert_eq!(stat.st_mtim, 3);
    assert_eq!(stat.st_ctim, 4);
    assert_eq!(stat.st_nlink, 1);
}

#[test]
fn error_numbers_have_names() {
    assert_eq!(WasiFsError::from_wasi_err(__WASI_EBADF), WasiFsError::InvalidFd);
    assert_eq!(WasiFsError::from_wasi_err(__WASI_EEXIST), WasiFsError::AlreadyExists);
    assert_eq!(WasiFsError::from_wasi_err(__WASI_EIO), WasiFsError::IOError);
    assert_eq!(
        WasiFsError::from_wasi_err(__WASI_EACCES),
        WasiFsError::UnknownError(__WASI_EACCES)
    );
}

#[test]
fn prestat_payload_keeps_the_length() {
    assert_eq!(PrestatEnum::Dir { pr_name_len: 9 }.untagged().dir.pr_name_len, 9);
}

#[test]
fn a_jump_with_zero_is_a_jump_with_one() {
    assert_eq!(_longjmp(64, 0), SetThrew { env_addr: 64, val: 1 });
}

#[test]
fn any_other_jump_keeps_its_value() {
    assert_eq!(_longjmp(-4, 1), SetThrew { env_addr: -4, val: 1 });
    assert_eq!(_longjmp(0, -7), SetThrew { env_addr: 0, val: -7 });
    assert_eq!(_longjmp(8, i32::MAX), SetThrew { env_addr: 8, val: i32::MAX });
}

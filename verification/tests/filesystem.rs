use vstd::hash_map::StringHashMap;
use wasi_fs::fs::{WasiFs, WasiState, ALL_RIGHTS, VIRTUAL_ROOT_FD};
use wasi_fs::host::{FileAttributes, HostFileType, HostMetadata, StatAnswer, StatSource};
use wasi_fs::inode::{FileHandle, Inode, Kind};
use wasi_fs::preopen::{not_a_directory_message, ProbedDir, FIRST_INODE_NUMBER};
use wasi_fs::wasi::{
    WasiFsError, __WASI_EACCES, __WASI_EBADF, __WASI_EINVAL, __WASI_EIO, __WASI_EISDIR,
};

fn dir_metadata() -> Option<HostMetadata> {
    Some(HostMetadata {
        file_type: HostFileType::Dir,
        len: 4096,
        accessed: Some(1),
        modified: Some(2),
        created: None,
    })
}

fn dir(path: &str) -> ProbedDir {
    ProbedDir { path: path.to_string(), is_dir: true, metadata: dir_metadata() }
}

fn handle(id: u64) -> FileHandle {
    FileHandle { id }
}

fn two_dirs() -> WasiFs {
    let mapped = vec![("data".to_string(), dir("/srv/data"))];
    match WasiFs::new(&[dir("home")], &mapped, handle(0), handle(1), handle(2)) {
        Ok(fs) => fs,
        Err(e) => panic!("{}", e),
    }
}

fn error_of(preopened: Vec<ProbedDir>, mapped: Vec<(String, ProbedDir)>) -> String {
    match WasiFs::new(&preopened, &mapped, handle(0), handle(1), handle(2)) {
        Ok(_) => panic!("made"),
        Err(e) => e,
    }
}

fn attributes() -> FileAttributes {
    FileAttributes { size: 10, last_accessed: 20, last_modified: 30, created_time: 40 }
}

fn open(fs: &mut WasiFs, base: u32, id: u64, name: &str) -> Result<u32, WasiFsError> {
    fs.open_file_at(base, handle(id), attributes(), name.to_string(), ALL_RIGHTS, 5, 6)
}

fn buffer() -> Kind {
    Kind::Buffer { buffer: vec![1, 2, 3] }
}

#[test]
fn a_new_filesystem_has_its_directories_open() {
    let fs = two_dirs();
    assert_eq!(fs.preopen_fds, vec![3, 4, 5]);
    assert_eq!(fs.next_fd, 6);
    assert_eq!(fs.inode_counter, FIRST_INODE_NUMBER + 3);
    assert_eq!(fs.filestat_fd(3).unwrap().st_ino, 1024);
    assert_eq!(fs.filestat_fd(3).unwrap().st_filetype, 3);
    assert_eq!(fs.filestat_fd(4).unwrap().st_ino, 1025);
    assert_eq!(fs.filestat_fd(5).unwrap().st_ino, 1026);
    assert_eq!(fs.filestat_fd(5).unwrap().st_size, 4096);
    assert_eq!(fs.fdstat(4).unwrap().fs_rights_base, ALL_RIGHTS);
    assert_eq!(fs.fdstat(4).unwrap().fs_filetype, 3);
    assert_eq!(fs.fdstat(VIRTUAL_ROOT_FD).unwrap().fs_filetype, 0);
    assert_eq!(fs.prestat_fd(3).unwrap().u.dir.pr_name_len, 2);
    assert_eq!(fs.prestat_fd(4).unwrap().u.dir.pr_name_len, 5);
    assert_eq!(fs.prestat_fd(5).unwrap().u.dir.pr_name_len, 5);
    assert_eq!(fs.prestat_fd(5).unwrap().pr_type, 0);
}

#[test]
fn every_inode_has_a_number_of_its_own() {
    let mut fs = two_dirs();
    let a = fs.create_inode_with_default_stat(buffer(), false, "a".to_string());
    let b = fs.create_inode_with_default_stat(buffer(), false, "b".to_string());
    assert_ne!(a, b);
    let fd_a = fs.create_fd(0, 0, 0, a).unwrap();
    let fd_b = fs.create_fd(0, 0, 0, b).unwrap();
    assert_eq!(fs.filestat_fd(fd_a).unwrap().st_ino, 1027);
    assert_eq!(fs.filestat_fd(fd_b).unwrap().st_ino, 1028);
}

#[test]
fn the_length_of_a_preopened_name_counts_bytes() {
    let fs = match WasiFs::new(&[dir("hé")], &[], handle(0), handle(1), handle(2)) {
        Ok(fs) => fs,
        Err(e) => panic!("{}", e),
    };
    assert_eq!(fs.prestat_fd(4).unwrap().u.dir.pr_name_len, 4);
}

#[test]
fn only_directories_are_preopened() {
    let file = ProbedDir { path: "a.txt".to_string(), is_dir: false, metadata: dir_metadata() };
    assert_eq!(
        error_of(vec![dir("home"), file], vec![]),
        "WASI only supports pre-opened directories right now; found \"a.txt\""
    );
    assert_eq!(
        not_a_directory_message("x"),
        "WASI only supports pre-opened directories right now; found \"x\""
    );
}

#[test]
fn a_mapped_path_is_shown_quoted() {
    let file = ProbedDir { path: "a\"b".to_string(), is_dir: false, metadata: dir_metadata() };
    assert_eq!(
        error_of(vec![], vec![("data".to_string(), file)]),
        "WASI only supports pre-opened directories right now; found \"\"a\\\"b\"\""
    );
}

#[test]
fn a_directory_without_metadata_is_refused() {
    let lost = ProbedDir { path: "home".to_string(), is_dir: true, metadata: None };
    assert_eq!(
        error_of(vec![lost], vec![]),
        "Failed to create inode for preopened dir: WASI error code: 29"
    );
    let lost = ProbedDir { path: "home".to_string(), is_dir: true, metadata: None };
    assert_eq!(
        error_of(vec![], vec![("x".to_string(), lost)]),
        "Failed to create inode for preopened dir: WASI error code: 29"
    );
}

#[test]
fn the_first_refusal_is_reported() {
    let file = ProbedDir { path: "a".to_string(), is_dir: false, metadata: None };
    let lost = ProbedDir { path: "b".to_string(), is_dir: true, metadata: None };
    assert_eq!(error_of(vec![file, lost], vec![]), not_a_directory_message("a"));
}

#[test]
fn unknown_descriptors_are_bad() {
    let mut fs = two_dirs();
    assert_eq!(fs.get_fd(99), Err(__WASI_EBADF));
    assert_eq!(fs.filestat_fd(99), Err(__WASI_EBADF));
    assert_eq!(fs.fdstat(99), Err(__WASI_EBADF));
    assert_eq!(fs.prestat_fd(99), Err(__WASI_EBADF));
    assert_eq!(fs.flush_request(99), Err(__WASI_EBADF));
    assert_eq!(fs.flush(99, true), Err(__WASI_EBADF));
    assert_eq!(fs.resync_request(99), Err(__WASI_EBADF));
    assert_eq!(fs.filestat_resync_size(99, 1), Err(__WASI_EBADF));
    assert_eq!(fs.swap_file(99, handle(7)), Err(WasiFsError::InvalidFd));
    assert_eq!(open(&mut fs, 99, 7, "x"), Err(WasiFsError::InvalidFd));
}

#[test]
fn a_descriptor_is_what_it_was_opened_as() {
    let mut fs = two_dirs();
    let inode = fs.create_inode_with_default_stat(buffer(), false, "b".to_string());
    assert_eq!(fs.create_fd(1, 2, 3, inode), Ok(6));
    assert_eq!(fs.create_fd(4, 5, 6, inode), Ok(7));
    let record = *fs.get_fd(6).unwrap();
    assert_eq!((record.rights, record.rights_inheriting, record.flags), (1, 2, 3));
    assert_eq!((record.offset, record.inode), (0, inode));
    let stat = fs.fdstat(7).unwrap();
    assert_eq!(stat.fs_filetype, 0);
    assert_eq!((stat.fs_rights_base, stat.fs_rights_inheriting, stat.fs_flags), (4, 5, 6));
    assert_eq!(fs.prestat_fd(7), Err(__WASI_EBADF));
}

#[test]
fn an_opened_file_is_there() {
    let mut fs = two_dirs();
    let fd = open(&mut fs, 4, 7, "new").unwrap();
    assert_eq!(fd, 6);
    assert_eq!(fs.fdstat(fd).unwrap().fs_filetype, 4);
    assert_eq!(fs.fdstat(fd).unwrap().fs_rights_base, ALL_RIGHTS);
    assert_eq!(fs.fdstat(fd).unwrap().fs_rights_inheriting, 5);
    assert_eq!(fs.fdstat(fd).unwrap().fs_flags, 6);
    let stat = fs.filestat_fd(fd).unwrap();
    assert_eq!((stat.st_ino, stat.st_size, stat.st_nlink), (1027, 10, 1));
    assert_eq!((stat.st_atim, stat.st_mtim, stat.st_ctim), (20, 30, 40));
    assert_eq!(fs.resync_request(fd), Ok(handle(7)));
    assert_eq!(fs.prestat_fd(fd), Err(__WASI_EBADF));
    assert_eq!(open(&mut fs, 4, 8, "new"), Err(WasiFsError::AlreadyExists));
    assert_eq!(fs.next_fd, 7);
}

#[test]
fn the_root_takes_no_file() {
    let mut fs = two_dirs();
    assert_eq!(open(&mut fs, VIRTUAL_ROOT_FD, 7, "new"), Err(WasiFsError::IOError));
    assert_eq!(open(&mut fs, VIRTUAL_ROOT_FD, 7, "home"), Err(WasiFsError::AlreadyExists));
    assert_eq!((fs.next_fd, fs.inode_counter), (6, 1027));
    assert_eq!(open(&mut fs, VIRTUAL_ROOT_FD, 7, "new"), Err(WasiFsError::IOError));
}

#[test]
fn a_file_is_no_base() {
    let mut fs = two_dirs();
    let fd = open(&mut fs, 4, 7, "new").unwrap();
    assert_eq!(open(&mut fs, fd, 8, "x"), Err(WasiFsError::BaseNotDirectory));
}

#[test]
fn swapping_returns_what_was_there() {
    let mut fs = two_dirs();
    let fd = open(&mut fs, 4, 7, "new").unwrap();
    assert_eq!(fs.swap_file(fd, handle(8)), Ok(Some(handle(7))));
    assert_eq!(fs.swap_file(fd, handle(9)), Ok(Some(handle(8))));
    assert_eq!(fs.resync_request(fd), Ok(handle(9)));
    assert_eq!(fs.swap_file(fd, handle(7)), Ok(Some(handle(9))));
    assert_eq!(fs.resync_request(fd), Ok(handle(7)));
}

#[test]
fn swapping_the_standard_streams() {
    let mut fs = two_dirs();
    assert_eq!(fs.swap_file(0, handle(10)), Ok(Some(handle(0))));
    assert_eq!(fs.swap_file(1, handle(11)), Ok(Some(handle(1))));
    assert_eq!(fs.swap_file(2, handle(12)), Ok(Some(handle(2))));
    assert_eq!((fs.stdin, fs.stdout, fs.stderr), (handle(10), handle(11), handle(12)));
}

#[test]
fn only_files_are_swapped() {
    let mut fs = two_dirs();
    assert_eq!(fs.swap_file(4, handle(9)), Err(WasiFsError::NotAFile));
    assert_eq!(fs.swap_file(3, handle(9)), Err(WasiFsError::NotAFile));
}

#[test]
fn a_closed_file_is_swapped_for_nothing() {
    let mut fs = two_dirs();
    let kind = Kind::File { handle: None, path: "home/f".to_string() };
    let inode = fs.create_inode_with_default_stat(kind, false, "f".to_string());
    let fd = fs.create_fd(ALL_RIGHTS, 0, 0, inode).unwrap();
    assert_eq!(fs.resync_request(fd), Err(__WASI_EBADF));
    assert_eq!(fs.flush_request(fd), Err(__WASI_EIO));
    assert_eq!(fs.swap_file(fd, handle(9)), Ok(None));
    assert_eq!(fs.resync_request(fd), Ok(handle(9)));
    assert_eq!(fs.flush_request(fd), Ok(Some(handle(9))));
}

#[test]
fn a_resynced_size_is_shown() {
    let mut fs = two_dirs();
    let fd = open(&mut fs, 4, 7, "new").unwrap();
    assert_eq!(fs.filestat_resync_size(fd, 77), Ok(77));
    assert_eq!(fs.filestat_fd(fd).unwrap().st_size, 77);
    assert_eq!(fs.filestat_fd(fd).unwrap().st_ino, 1027);
    assert_eq!(fs.filestat_resync_size(4, 1), Err(__WASI_EISDIR));
    assert_eq!(fs.filestat_resync_size(3, 1), Err(__WASI_EISDIR));
    let inode = fs.create_inode_with_default_stat(buffer(), false, "b".to_string());
    let buf = fs.create_fd(0, 0, 0, inode).unwrap();
    assert_eq!(fs.filestat_resync_size(buf, 1), Err(__WASI_EINVAL));
}

#[test]
fn flushing_goes_to_the_open_file() {
    let mut fs = two_dirs();
    let fd = open(&mut fs, 4, 7, "new").unwrap();
    assert_eq!(fs.flush_request(0), Ok(None));
    assert_eq!(fs.flush_request(1), Ok(Some(handle(1))));
    assert_eq!(fs.flush_request(2), Ok(Some(handle(2))));
    assert_eq!(fs.flush_request(fd), Ok(Some(handle(7))));
    assert_eq!(fs.flush(0, false), Ok(()));
    assert_eq!(fs.flush(1, true), Ok(()));
    assert_eq!(fs.flush(1, false), Err(__WASI_EIO));
    assert_eq!(fs.flush(fd, true), Ok(()));
    assert_eq!(fs.flush(fd, false), Err(__WASI_EIO));
}

#[test]
fn flushing_needs_the_right_and_a_file() {
    let mut fs = two_dirs();
    let inode = fs.get_fd(4).unwrap().inode;
    let weak = fs.create_fd(ALL_RIGHTS - 1, 0, 0, inode).unwrap();
    assert_eq!(fs.flush(weak, true), Err(__WASI_EACCES));
    assert_eq!(fs.flush(4, true), Err(__WASI_EISDIR));
    assert_eq!(fs.flush(3, true), Err(__WASI_EIO));
    let buf = fs.create_inode_with_default_stat(buffer(), false, "b".to_string());
    let fd = fs.create_fd(1, 0, 0, buf).unwrap();
    assert_eq!(fs.flush(fd, false), Ok(()));
}

#[test]
fn an_inode_needs_attributes() {
    let mut fs = two_dirs();
    let kind = Kind::File { handle: None, path: "home/f".to_string() };
    let lost = StatAnswer::Metadata(None);
    assert_eq!(fs.create_inode(kind, false, "f".to_string(), lost), Err(__WASI_EIO));
    assert_eq!(fs.create_inode(buffer(), false, "b".to_string(), lost), Err(__WASI_EIO));
    assert_eq!(fs.inode_counter, 1027);
    let kind = Kind::File { handle: None, path: "home/f".to_string() };
    let answer = StatAnswer::Metadata(dir_metadata());
    let inode = fs.create_inode(kind, true, "f".to_string(), answer).unwrap();
    let fd = fs.create_fd(0, 0, 0, inode).unwrap();
    assert_eq!(fs.filestat_fd(fd).unwrap().st_size, 4096);
    assert_eq!(fs.filestat_fd(fd).unwrap().st_ino, 1027);
    assert_eq!(fs.prestat_fd(fd).unwrap().u.dir.pr_name_len, 2);
}

fn source_text(fs: &WasiFs, kind: &Kind) -> String {
    match fs.stat_request(kind) {
        Some(StatSource::Handle(h)) => format!("handle {}", h.id),
        Some(StatSource::Metadata(p)) => format!("stat {}", p),
        Some(StatSource::SymlinkMetadata(p)) => format!("lstat {}", p),
        None => "nothing".to_string(),
    }
}

#[test]
fn each_kind_has_its_source_of_attributes() {
    let fs = two_dirs();
    let open_file = Kind::File { handle: Some(handle(7)), path: String::new() };
    assert_eq!(source_text(&fs, &open_file), "handle 7");
    let file = Kind::File { handle: None, path: "home/f".to_string() };
    assert_eq!(source_text(&fs, &file), "stat home/f");
    let folder = Kind::Dir {
        parent: None,
        path: "home/d".to_string(),
        entries: StringHashMap::new(),
    };
    assert_eq!(source_text(&fs, &folder), "stat home/d");
    let link = Kind::Symlink {
        base_po_dir: 5,
        path_to_symlink: "a/l".to_string(),
        relative_path: "x".to_string(),
    };
    assert_eq!(source_text(&fs, &link), "lstat /srv/data/a/l");
    let rooted = Kind::Symlink {
        base_po_dir: 3,
        path_to_symlink: "a/l".to_string(),
        relative_path: "x".to_string(),
    };
    assert_eq!(source_text(&fs, &rooted), "lstat a/l");
    assert_eq!(source_text(&fs, &buffer()), "nothing");
    let root = Kind::Root { entries: StringHashMap::new() };
    assert_eq!(source_text(&fs, &root), "nothing");
    let answer = StatAnswer::Metadata(dir_metadata());
    assert_eq!(fs.get_stat_for_kind(&file, answer).unwrap().st_filetype, 3);
    assert_eq!(fs.get_stat_for_kind(&root, answer), None);
    assert_eq!(fs.get_stat_for_kind(&file, StatAnswer::Metadata(None)), None);
}

#[test]
fn a_removed_inode_is_gone() {
    let mut fs = two_dirs();
    let a = fs.create_inode_with_default_stat(buffer(), false, "a".to_string());
    assert!(fs.remove_inode(a));
    assert!(!fs.remove_inode(a));
    let b = fs.create_inode_with_default_stat(buffer(), false, "b".to_string());
    assert_ne!(a, b);
    assert!(!fs.remove_inode(a));
    assert!(fs.remove_inode(b));
    assert!(!fs.remove_inode(Inode { index: 9999, generation: 0 }));
}

#[test]
fn symbolic_links_show_their_type() {
    let mut fs = two_dirs();
    let link = Kind::Symlink {
        base_po_dir: 4,
        path_to_symlink: "l".to_string(),
        relative_path: "x".to_string(),
    };
    let inode = fs.create_inode_with_default_stat(link, false, "l".to_string());
    let fd = fs.create_fd(0, 0, 0, inode).unwrap();
    assert_eq!(fs.fdstat(fd).unwrap().fs_filetype, 7);
    assert_eq!(fs.filestat_resync_size(fd, 1), Err(__WASI_EINVAL));
    assert_eq!(fs.swap_file(fd, handle(1)), Err(WasiFsError::NotAFile));
}

#[test]
fn the_state_holds_arguments_and_environment() {
    let args = vec![b"prog".to_vec()];
    let envs = vec![b"A=1".to_vec()];
    let state = WasiState { fs: two_dirs(), args: &args, envs: &envs };
    assert_eq!(state.args.len(), 1);
    assert_eq!(state.envs[0], b"A=1".to_vec());
    assert_eq!(state.fs.next_fd, 6);
}

#[test]
fn the_way_up_is_counted() {
    let mut fs = two_dirs();
    let home = fs.get_fd(4).unwrap().inode;
    let a = fs.create_inode_with_default_stat(
        Kind::Dir { parent: Some(home), path: "home/a".to_string(), entries: StringHashMap::new() },
        false,
        "a".to_string(),
    );
    let b = fs.create_inode_with_default_stat(
        Kind::Dir { parent: Some(a), path: "home/a/b".to_string(), entries: StringHashMap::new() },
        false,
        "b".to_string(),
    );
    let file = fs.create_inode_with_default_stat(
        Kind::File { handle: None, path: "home/f".to_string() },
        false,
        "f".to_string(),
    );
    assert_eq!(fs.path_depth_from_fd(4, home), Ok(0));
    assert_eq!(fs.path_depth_from_fd(4, a), Ok(1));
    assert_eq!(fs.path_depth_from_fd(4, b), Ok(2));
    assert_eq!(fs.path_depth_from_fd(3, b), Ok(3));
    assert_eq!(fs.path_depth_from_fd(5, b), Err(__WASI_EINVAL));
    assert_eq!(fs.path_depth_from_fd(4, file), Err(__WASI_EINVAL));
    assert_eq!(fs.path_depth_from_fd(99, b), Err(__WASI_EBADF));
    assert_eq!(fs.path_relative_to_fd(4, home), Ok("".to_string()));
    assert_eq!(fs.path_relative_to_fd(4, b), Ok("a/b".to_string()));
    assert_eq!(fs.path_relative_to_fd(3, b), Ok("home/a/b".to_string()));
    assert_eq!(fs.path_relative_to_fd(5, b), Err(__WASI_EINVAL));
    assert_eq!(fs.path_relative_to_fd(99, b), Err(__WASI_EBADF));
}

#[test]
fn a_refused_file_needs_no_numbers() {
    let mut fs = two_dirs();
    fs.next_fd = u32::MAX;
    fs.inode_counter = u64::MAX;
    assert_eq!(open(&mut fs, 99, 7, "x"), Err(WasiFsError::InvalidFd));
    assert_eq!(open(&mut fs, VIRTUAL_ROOT_FD, 7, "home"), Err(WasiFsError::AlreadyExists));
}

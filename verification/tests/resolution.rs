use generational_arena::Index;
use wasi_fs::fs::WasiFs;
use wasi_fs::host::{FileAttributes, HostFileType, HostMetadata, StatAnswer, StatSource};
use wasi_fs::inode::{FileHandle, Inode, Kind};
use wasi_fs::preopen::ProbedDir;
use wasi_fs::cursor::{
    PathCursor, PathReply, PathRequest, PathStep, Unsupported, MAX_SYMLINKS,
};
use wasi_fs::wasi::{
    __WASI_EACCES, __WASI_EBADF, __WASI_EINVAL, __WASI_EIO, __WASI_EMLINK, __WASI_ENOTDIR,
};

/// A host whose files are listed, and that writes down what it is asked.
struct Host {
    files: Vec<(String, HostFileType)>,
    links: Vec<(String, String)>,
    asked: Vec<String>,
}

impl Host {
    fn new(dirs: &[&str], files: &[&str], links: &[(&str, &str)]) -> Host {
        let mut all = Vec::new();
        for d in dirs {
            all.push((d.to_string(), HostFileType::Dir));
        }
        for f in files {
            all.push((f.to_string(), HostFileType::File));
        }
        for (l, _) in links {
            all.push((l.to_string(), HostFileType::Symlink));
        }
        Host {
            files: all,
            links: links.iter().map(|(l, v)| (l.to_string(), v.to_string())).collect(),
            asked: Vec::new(),
        }
    }

    fn file_type(&self, path: &str) -> Option<HostFileType> {
        self.files.iter().find(|(p, _)| p == path).map(|(_, t)| *t)
    }

    fn metadata(&self, path: &str) -> Option<HostMetadata> {
        self.file_type(path).map(|file_type| HostMetadata {
            file_type,
            len: path.len() as u64,
            accessed: Some(1),
            modified: Some(2),
            created: Some(3),
        })
    }

    fn reply(&mut self, request: PathRequest) -> PathReply {
        match request {
            PathRequest::FileType(p) => {
                self.asked.push(format!("type {}", p));
                PathReply::FileType(self.file_type(&p))
            }
            PathRequest::LinkValue(p) => {
                self.asked.push(format!("link {}", p));
                let found = self.links.iter().find(|(l, _)| *l == p);
                PathReply::LinkValue(found.map(|(_, v)| v.to_string()))
            }
            PathRequest::Stat(StatSource::Metadata(p)) => {
                self.asked.push(format!("stat {}", p));
                PathReply::Stat(StatAnswer::Metadata(self.metadata(&p)))
            }
            PathRequest::Stat(StatSource::SymlinkMetadata(p)) => {
                self.asked.push(format!("lstat {}", p));
                PathReply::Stat(StatAnswer::Metadata(self.metadata(&p)))
            }
            PathRequest::Stat(StatSource::Handle(_)) => panic!("no open file is asked for"),
        }
    }
}

#[derive(Debug, PartialEq)]
enum End {
    Found(Inode),
    Failed(u16),
    Unsupported(Unsupported),
}

fn run(fs: &mut WasiFs, host: &mut Host, cursor: PathCursor) -> End {
    let mut step = fs.step_path(cursor, PathReply::Nothing);
    loop {
        step = match step {
            PathStep::Continue(cursor) => {
                assert!(cursor.frames.iter().all(|f| f.symlink_count <= MAX_SYMLINKS));
                fs.step_path(cursor, PathReply::Nothing)
            }
            PathStep::Ask(request, cursor) => {
                let reply = host.reply(request);
                fs.step_path(cursor, reply)
            }
            PathStep::Done(Ok(inode)) => return End::Found(inode),
            PathStep::Done(Err(e)) => return End::Failed(e),
            PathStep::Unsupported(u) => return End::Unsupported(u),
        };
    }
}

fn resolve(fs: &mut WasiFs, host: &mut Host, base: u32, path: &str, follow: bool) -> End {
    match fs.get_inode_at_path(base, path, follow) {
        Ok(cursor) => run(fs, host, cursor),
        Err(e) => End::Failed(e),
    }
}

fn found(end: End) -> Inode {
    match end {
        End::Found(inode) => inode,
        other => panic!("{:?}", other),
    }
}

fn preopened(path: &str) -> ProbedDir {
    ProbedDir {
        path: path.to_string(),
        is_dir: true,
        metadata: Some(HostMetadata {
            file_type: HostFileType::Dir,
            len: 0,
            accessed: Some(1),
            modified: Some(1),
            created: None,
        }),
    }
}

fn handle(id: u64) -> FileHandle {
    FileHandle { id }
}

fn with_dirs(paths: &[&str]) -> WasiFs {
    let dirs: Vec<ProbedDir> = paths.iter().map(|p| preopened(p)).collect();
    match WasiFs::new(&dirs, &[], handle(0), handle(1), handle(2)) {
        Ok(fs) => fs,
        Err(e) => panic!("{}", e),
    }
}

fn name_of(fs: &mut WasiFs, inode: Inode) -> u64 {
    let fd = fs.create_fd(0, 0, 0, inode).unwrap();
    fs.filestat_fd(fd).unwrap().st_ino
}

fn kind_of(fs: &WasiFs, inode: Inode) -> &Kind {
    &fs.inodes[Index::from_raw_parts(inode.index, inode.generation)].kind
}

fn file_type_of(fs: &mut WasiFs, inode: Inode) -> u8 {
    let fd = fs.create_fd(0, 0, 0, inode).unwrap();
    fs.fdstat(fd).unwrap().fs_filetype
}

#[test]
fn an_empty_path_is_its_base() {
    let mut fs = with_dirs(&["home"]);
    let mut host = Host::new(&[], &[], &[]);
    let home = fs.get_fd(4).unwrap().inode;
    assert_eq!(resolve(&mut fs, &mut host, 4, "", true), End::Found(home));
    assert_eq!(resolve(&mut fs, &mut host, 4, ".", true), End::Found(home));
    assert!(host.asked.is_empty());
}

#[test]
fn an_unknown_base_is_bad() {
    let mut fs = with_dirs(&["home"]);
    let mut host = Host::new(&[], &[], &[]);
    assert_eq!(resolve(&mut fs, &mut host, 99, "a", true), End::Failed(__WASI_EBADF));
}

#[test]
fn files_are_loaded_once() {
    let mut fs = with_dirs(&["home"]);
    let mut host = Host::new(&["home/d"], &["home/d/f"], &[]);
    let first = found(resolve(&mut fs, &mut host, 4, "d/f", true));
    assert_eq!(
        host.asked,
        vec!["type home/d", "stat home/d", "type home/d/f", "stat home/d/f"]
    );
    assert_eq!(file_type_of(&mut fs, first), 4);
    assert_eq!(name_of(&mut fs, first), 1027);
    host.asked.clear();
    assert_eq!(resolve(&mut fs, &mut host, 4, "d/f", true), End::Found(first));
    assert_eq!(resolve(&mut fs, &mut host, 3, "home/d/./f", false), End::Found(first));
    assert!(host.asked.is_empty());
    assert_eq!(fs.inode_counter, 1028);
}

#[test]
fn dots_at_the_root_stay_there() {
    let mut fs = with_dirs(&["home"]);
    let mut host = Host::new(&[], &[], &[]);
    let root = fs.get_fd(3).unwrap().inode;
    let home = fs.get_fd(4).unwrap().inode;
    assert_eq!(resolve(&mut fs, &mut host, 3, "../../.", true), End::Found(root));
    assert_eq!(resolve(&mut fs, &mut host, 3, "../home", true), End::Found(home));
    assert_eq!(resolve(&mut fs, &mut host, 4, "..", true), End::Found(root));
    assert_eq!(resolve(&mut fs, &mut host, 4, "../../home", true), End::Found(home));
    assert!(host.asked.is_empty());
}

#[test]
fn nothing_is_looked_up_in_the_root() {
    let mut fs = with_dirs(&["home"]);
    let mut host = Host::new(&["etc"], &[], &[]);
    assert_eq!(resolve(&mut fs, &mut host, 3, "etc", true), End::Failed(__WASI_EINVAL));
    assert_eq!(resolve(&mut fs, &mut host, 3, "/home", true), End::Failed(__WASI_EINVAL));
    assert!(host.asked.is_empty());
}

#[test]
fn what_the_host_does_not_have_is_invalid() {
    let mut fs = with_dirs(&["home"]);
    let mut host = Host::new(&[], &[], &[]);
    assert_eq!(resolve(&mut fs, &mut host, 4, "x", true), End::Failed(__WASI_EINVAL));
    assert_eq!(host.asked, vec!["type home/x"]);
}

#[test]
fn a_file_is_not_a_directory() {
    let mut fs = with_dirs(&["home"]);
    let mut host = Host::new(&[], &["home/f"], &[]);
    assert_eq!(resolve(&mut fs, &mut host, 4, "f/x", true), End::Failed(__WASI_ENOTDIR));
    assert_eq!(resolve(&mut fs, &mut host, 4, "f/..", true), End::Failed(__WASI_ENOTDIR));
}

#[test]
fn a_directory_without_a_parent_cannot_be_left() {
    let mut fs = with_dirs(&["home"]);
    let mut host = Host::new(&[], &[], &[]);
    let kind = Kind::Dir {
        parent: None,
        path: "lone".to_string(),
        entries: vstd::hash_map::StringHashMap::new(),
    };
    let inode = fs.create_inode_with_default_stat(kind, false, "lone".to_string());
    let fd = fs.create_fd(0, 0, 0, inode).unwrap();
    assert_eq!(
        resolve(&mut fs, &mut host, fd, "..", true),
        End::Failed(__WASI_EACCES)
    );
}

#[test]
fn a_followed_link_leads_to_its_file() {
    let mut fs = with_dirs(&["home"]);
    let mut host = Host::new(&["home/d"], &["home/f"], &[("home/d/l", "../f")]);
    let file = found(resolve(&mut fs, &mut host, 4, "f", true));
    host.asked.clear();
    assert_eq!(resolve(&mut fs, &mut host, 4, "d/l", true), End::Found(file));
    assert_eq!(
        host.asked,
        vec![
            "type home/d",
            "stat home/d",
            "type home/d/l",
            "link home/d/l",
            "lstat home/d/l"
        ]
    );
}

#[test]
fn a_link_does_not_become_an_entry() {
    let mut fs = with_dirs(&["home"]);
    let mut host = Host::new(&[], &["home/f"], &[("home/l", "f")]);
    found(resolve(&mut fs, &mut host, 4, "l", true));
    host.asked.clear();
    found(resolve(&mut fs, &mut host, 4, "l", true));
    assert_eq!(host.asked, vec!["type home/l", "link home/l", "lstat home/l"]);
}

#[test]
fn the_last_link_is_kept_unless_followed() {
    let mut fs = with_dirs(&["home"]);
    let mut host = Host::new(&["home/d"], &["home/d/f"], &[("home/l", "d"), ("home/m", "d/f")]);
    let link = found(resolve(&mut fs, &mut host, 4, "m", false));
    assert_eq!(file_type_of(&mut fs, link), 7);
    let file = found(resolve(&mut fs, &mut host, 4, "d/f", false));
    // a link on the way is followed in any case
    assert_eq!(resolve(&mut fs, &mut host, 4, "l/f", false), End::Found(file));
    assert_eq!(resolve(&mut fs, &mut host, 4, "l/f", true), End::Found(file));
    assert_eq!(resolve(&mut fs, &mut host, 4, "m", true), End::Found(file));
}

#[test]
fn links_through_links_lead_on() {
    let mut fs = with_dirs(&["home"]);
    let mut host = Host::new(&[], &["home/f"], &[("home/a", "b"), ("home/b", "c"), ("home/c", "f")]);
    let file = found(resolve(&mut fs, &mut host, 4, "f", true));
    assert_eq!(resolve(&mut fs, &mut host, 4, "a", true), End::Found(file));
}

#[test]
fn a_link_that_cannot_be_read_fails() {
    let mut fs = with_dirs(&["home"]);
    let mut host = Host::new(&[], &[], &[("home/l", "x")]);
    host.links.clear();
    assert_eq!(resolve(&mut fs, &mut host, 4, "l", true), End::Failed(__WASI_EIO));
}

#[test]
fn an_absolute_link_is_not_supported() {
    let mut fs = with_dirs(&["home"]);
    let mut host = Host::new(&[], &[], &[("home/l", "/etc/passwd")]);
    assert_eq!(
        resolve(&mut fs, &mut host, 4, "l", true),
        End::Unsupported(Unsupported::AbsoluteSymlink)
    );
}

#[test]
fn other_file_types_are_not_supported() {
    let mut fs = with_dirs(&["home"]);
    let mut host = Host::new(&[], &[], &[]);
    host.files.push(("home/s".to_string(), HostFileType::Other));
    assert_eq!(
        resolve(&mut fs, &mut host, 4, "s", true),
        End::Unsupported(Unsupported::FileType)
    );
}

#[test]
fn a_path_through_a_buffer_is_not_supported() {
    let mut fs = with_dirs(&["home"]);
    let mut host = Host::new(&[], &[], &[]);
    let kind = Kind::Buffer { buffer: Vec::new() };
    let inode = fs.create_inode_with_default_stat(kind, false, "b".to_string());
    let fd = fs.create_fd(0, 0, 0, inode).unwrap();
    assert_eq!(
        resolve(&mut fs, &mut host, fd, "x", true),
        End::Unsupported(Unsupported::Buffer)
    );
    assert_eq!(resolve(&mut fs, &mut host, fd, "", true), End::Found(inode));
}

/// Links from `l0` on, each to the next.
fn chain(n: usize) -> Vec<(String, String)> {
    (0..n).map(|k| (format!("home/l{}", k), format!("l{}", k + 1))).collect()
}

fn chained(n: usize, follow: bool) -> (End, End) {
    let links = chain(n);
    let pairs: Vec<(&str, &str)> = links.iter().map(|(a, b)| (a.as_str(), b.as_str())).collect();
    let last = format!("l{}", n);
    let mut fs = with_dirs(&["home"]);
    let mut host = Host::new(&[], &[format!("home/{}", last).as_str()], &pairs);
    let file = resolve(&mut fs, &mut host, 4, &last, true);
    (resolve(&mut fs, &mut host, 4, "l0", follow), file)
}

#[test]
fn a_chain_within_the_limit_leads_to_its_end() {
    for n in vec![1, 2, 64, 65, MAX_SYMLINKS as usize - 1, MAX_SYMLINKS as usize] {
        let (end, file) = chained(n, true);
        assert_eq!(end, file, "{}", n);
        assert!(matches!(end, End::Found(_)));
    }
}

#[test]
fn a_chain_past_the_limit_is_refused() {
    for n in vec![MAX_SYMLINKS as usize + 1, 200] {
        assert_eq!(chained(n, true).0, End::Failed(__WASI_EMLINK), "{}", n);
        // the first link itself is found where it is not to be followed
        assert!(matches!(chained(n, false).0, End::Found(_)));
    }
}

#[test]
fn the_limit_counts_the_links_of_the_whole_path() {
    // each `d` is a link to its own directory
    let mut fs = with_dirs(&["home"]);
    let mut host = Host::new(&[], &["home/f"], &[("home/d", ".")]);
    let file = found(resolve(&mut fs, &mut host, 4, "f", true));
    let within = format!("{}f", "d/".repeat(MAX_SYMLINKS as usize));
    let past = format!("{}f", "d/".repeat(MAX_SYMLINKS as usize + 1));
    for follow in vec![true, false] {
        assert_eq!(resolve(&mut fs, &mut host, 4, &within, follow), End::Found(file));
        assert_eq!(resolve(&mut fs, &mut host, 4, &past, follow), End::Failed(__WASI_EMLINK));
    }
}

#[test]
fn a_chain_that_leads_nowhere_is_invalid() {
    let mut fs = with_dirs(&["home"]);
    let mut host = Host::new(&[], &[], &[("home/a", "b"), ("home/b", "c")]);
    assert_eq!(resolve(&mut fs, &mut host, 4, "a", true), End::Failed(__WASI_EINVAL));
}

#[test]
fn links_in_a_circle_are_too_many() {
    let mut fs = with_dirs(&["home"]);
    let mut host = Host::new(&[], &[], &[("home/a", "b"), ("home/b", "a"), ("home/s", "s")]);
    assert_eq!(resolve(&mut fs, &mut host, 4, "a", true), End::Failed(__WASI_EMLINK));
    assert_eq!(resolve(&mut fs, &mut host, 4, "s", true), End::Failed(__WASI_EMLINK));
    assert_eq!(resolve(&mut fs, &mut host, 4, "s/x", false), End::Failed(__WASI_EMLINK));
    let link = found(resolve(&mut fs, &mut host, 4, "a", false));
    assert_eq!(file_type_of(&mut fs, link), 7);
}

#[test]
fn a_new_inode_needs_attributes() {
    let mut fs = with_dirs(&["home"]);
    let cursor = fs.get_inode_at_path(4, "f", true).ok().unwrap();
    let step = fs.step_path(cursor, PathReply::Nothing);
    let cursor = match step {
        PathStep::Ask(PathRequest::FileType(p), cursor) => {
            assert_eq!(p, "home/f");
            cursor
        }
        _ => panic!("the type is asked first"),
    };
    let step = fs.step_path(cursor, PathReply::FileType(Some(HostFileType::File)));
    let cursor = match step {
        PathStep::Ask(PathRequest::Stat(StatSource::Metadata(p)), cursor) => {
            assert_eq!(p, "home/f");
            cursor
        }
        _ => panic!("the attributes are asked next"),
    };
    let step = fs.step_path(cursor, PathReply::Stat(StatAnswer::Metadata(None)));
    assert!(matches!(step, PathStep::Done(Err(__WASI_EIO))));
    assert_eq!(fs.inode_counter, 1026);
}

#[test]
fn an_opened_file_is_found_by_name() {
    let mut fs = with_dirs(&["home"]);
    let mut host = Host::new(&[], &[], &[]);
    let attributes = FileAttributes {
        size: 1,
        last_accessed: 1,
        last_modified: 1,
        created_time: 1,
    };
    let fd = fs
        .open_file_at(4, handle(7), attributes, "new".to_string(), 1, 1, 0)
        .unwrap();
    let inode = fs.get_fd(fd).unwrap().inode;
    assert_eq!(resolve(&mut fs, &mut host, 3, "home/new", true), End::Found(inode));
    assert!(host.asked.is_empty());
}

fn parent(fs: &mut WasiFs, host: &mut Host, base: u32, path: &str) -> (End, String) {
    let (cursor, name) = fs.get_parent_inode_at_path(base, path, false).ok().unwrap();
    let end = match run(fs, host, cursor) {
        End::Found(inode) => match fs.parent_found(inode) {
            Ok(inode) => End::Found(inode),
            Err(e) => End::Failed(e),
        },
        other => other,
    };
    (end, name)
}

#[test]
fn the_parent_and_the_name_are_parted() {
    let mut fs = with_dirs(&["home"]);
    let mut host = Host::new(&["home/d"], &[], &[]);
    let (end, name) = parent(&mut fs, &mut host, 4, "d//new/");
    assert_eq!(name, "new");
    let dir = found(end);
    assert_eq!(host.asked, vec!["type home/d", "stat home/d"]);
    assert_eq!(resolve(&mut fs, &mut host, 4, "d", true), End::Found(dir));
    let home = fs.get_fd(4).unwrap().inode;
    let root = fs.get_fd(3).unwrap().inode;
    assert_eq!(parent(&mut fs, &mut host, 4, "new"), (End::Found(home), "new".to_string()));
    assert_eq!(parent(&mut fs, &mut host, 3, "home"), (End::Found(root), "home".to_string()));
}

#[test]
fn a_parent_is_a_directory_or_the_root() {
    let mut fs = with_dirs(&["home"]);
    let mut host = Host::new(&["home/d"], &["home/f"], &[("home/l", "d"), ("home/m", "f")]);
    let file = found(resolve(&mut fs, &mut host, 4, "f", true));
    let dir = found(resolve(&mut fs, &mut host, 4, "d", true));
    let fd = fs.create_fd(0, 0, 0, file).unwrap();
    assert_eq!(parent(&mut fs, &mut host, fd, "x").0, End::Failed(__WASI_ENOTDIR));
    assert_eq!(parent(&mut fs, &mut host, 4, "f/x").0, End::Failed(__WASI_ENOTDIR));
    assert_eq!(parent(&mut fs, &mut host, 4, "m/x").0, End::Failed(__WASI_ENOTDIR));
    // a link to the parent is followed
    assert_eq!(parent(&mut fs, &mut host, 4, "l/x").0, End::Found(dir));
    let buffer = Kind::Buffer { buffer: Vec::new() };
    let inode = fs.create_inode_with_default_stat(buffer, false, "b".to_string());
    assert_eq!(fs.parent_found(inode), Err(__WASI_ENOTDIR));
    let link = found(resolve(&mut fs, &mut host, 4, "l", false));
    assert_eq!(fs.parent_found(link), Err(__WASI_ENOTDIR));
}

#[test]
fn a_path_without_components_has_no_parent() {
    let fs = with_dirs(&["home"]);
    assert!(matches!(fs.get_parent_inode_at_path(4, "", true), Err(__WASI_EINVAL)));
    assert!(matches!(fs.get_parent_inode_at_path(99, "", true), Err(__WASI_EINVAL)));
    assert!(matches!(fs.get_parent_inode_at_path(99, "a", true), Err(__WASI_EBADF)));
}

#[test]
fn host_paths_lie_below_the_first_preopened_directory() {
    let fs = with_dirs(&["home", "home/inner", "/abs"]);
    let split = |p: &str| fs.path_into_pre_open_and_relative_path(p);
    assert_eq!(split("home/inner/x"), Ok((4, "inner/x".to_string())));
    assert_eq!(split("home"), Ok((4, "".to_string())));
    assert_eq!(split("homes/x"), Err(__WASI_EINVAL));
    // the root stands for the host's root and comes first
    assert_eq!(split("/abs/x"), Ok((3, "abs/x".to_string())));
}

#[test]
fn only_what_is_inside_is_asked_about() {
    let mut fs = with_dirs(&["home"]);
    let mut host = Host::new(
        &["home/d", "home/d/e"],
        &["home/f", "home/d/e/g"],
        &[("home/d/l", "../../../../f"), ("home/d/e/m", "../../d/e/g")],
    );
    for path in vec!["d/l", "d/e/m", "../../../etc/passwd", "d/../../x", "d/e/../../f"] {
        for follow in vec![true, false] {
            resolve(&mut fs, &mut host, 4, path, follow);
        }
    }
    assert!(!host.asked.is_empty());
    for asked in &host.asked {
        let path = asked.split(' ').nth(1).unwrap();
        assert!(path.starts_with("home/"), "{}", asked);
        assert!(!path.contains(".."), "{}", asked);
    }
}

#[test]
fn resolution_only_adds() {
    let mut fs = with_dirs(&["home"]);
    let mut host = Host::new(&["home/d"], &["home/d/f"], &[]);
    let before_fds = fs.preopen_fds.clone();
    let root = fs.get_fd(3).unwrap().inode;
    found(resolve(&mut fs, &mut host, 3, "home/d/f", true));
    assert_eq!(fs.preopen_fds, before_fds);
    assert_eq!(fs.next_fd, 5);
    assert_eq!(fs.get_fd(3).unwrap().inode, root);
    assert_eq!(resolve(&mut fs, &mut host, 3, "d", true), End::Failed(__WASI_EINVAL));
}

#[test]
fn a_link_starts_from_its_directory_and_not_from_the_root() {
    let mut fs = with_dirs(&["/d"]);
    let mut host = Host::new(&[], &["/d/t"], &[("/d/l", "t")]);
    let link = found(resolve(&mut fs, &mut host, 4, "l", false));
    match kind_of(&fs, link) {
        Kind::Symlink { base_po_dir, path_to_symlink, relative_path } => {
            assert_eq!(*base_po_dir, 4);
            assert_eq!(path_to_symlink, "l");
            assert_eq!(relative_path, "t");
        }
        _ => panic!("a link"),
    }
    assert_eq!(host.asked, vec!["type /d/l", "link /d/l", "lstat /d/l"]);
    let file = found(resolve(&mut fs, &mut host, 4, "t", true));
    assert_eq!(resolve(&mut fs, &mut host, 4, "l", true), End::Found(file));
}

#[test]
fn a_link_below_a_relative_directory_starts_from_it() {
    let mut fs = with_dirs(&["home", "other"]);
    let mut host = Host::new(&[], &["other/f"], &[("other/l", "f")]);
    let file = found(resolve(&mut fs, &mut host, 5, "f", true));
    host.asked.clear();
    assert_eq!(resolve(&mut fs, &mut host, 5, "l", true), End::Found(file));
    assert_eq!(host.asked, vec!["type other/l", "link other/l", "lstat other/l"]);
}

#[test]
fn an_absolute_path_leads_nowhere() {
    let mut fs = with_dirs(&["home"]);
    let mut host = Host::new(&["/", "/etc"], &["/f"], &[]);
    for path in vec!["/", "/f", "/etc", "//etc/../f"] {
        assert_eq!(resolve(&mut fs, &mut host, 4, path, true), End::Failed(__WASI_EINVAL));
        assert_eq!(resolve(&mut fs, &mut host, 3, path, true), End::Failed(__WASI_EINVAL));
    }
    assert!(host.asked.is_empty());
}

#[test]
fn an_absolute_path_behind_a_link_leads_nowhere() {
    let mut fs = with_dirs(&["home"]);
    let mut host = Host::new(&["/"], &["/f"], &[]);
    let kind = Kind::Symlink {
        base_po_dir: 4,
        path_to_symlink: "l".to_string(),
        relative_path: "/f".to_string(),
    };
    let inode = fs.create_inode_with_default_stat(kind, false, "l".to_string());
    let fd = fs.create_fd(0, 0, 0, inode).unwrap();
    assert_eq!(resolve(&mut fs, &mut host, fd, "x", true), End::Failed(__WASI_EINVAL));
    assert!(host.asked.is_empty());
    // an empty path is its base, whatever that is
    assert_eq!(resolve(&mut fs, &mut host, fd, "", true), End::Found(inode));
}

#[test]
fn a_followed_link_to_a_directory_is_the_directory() {
    let mut fs = with_dirs(&["d"]);
    let mut host = Host::new(&["d/t"], &["d/t/x"], &[("d/l", "t")]);
    let dir = found(resolve(&mut fs, &mut host, 4, "t", true));
    let file = found(resolve(&mut fs, &mut host, 4, "t/x", true));
    assert_eq!(resolve(&mut fs, &mut host, 4, "l", true), End::Found(dir));
    assert_eq!(resolve(&mut fs, &mut host, 4, "l/x", true), End::Found(file));
    assert_eq!(resolve(&mut fs, &mut host, 4, "l/x", false), End::Found(file));
    assert_eq!(resolve(&mut fs, &mut host, 4, "l/../l/x", true), End::Found(file));
}

#[test]
fn a_link_to_a_file_has_nothing_below_it() {
    let mut fs = with_dirs(&["d"]);
    let mut host = Host::new(&[], &["d/f"], &[("d/l", "f")]);
    for follow in vec![true, false] {
        assert_eq!(resolve(&mut fs, &mut host, 4, "l/x", follow), End::Failed(__WASI_ENOTDIR));
        assert_eq!(resolve(&mut fs, &mut host, 4, "f/x", follow), End::Failed(__WASI_ENOTDIR));
    }
}

#[test]
fn a_link_that_is_an_entry_is_followed_like_any_other() {
    let mut fs = with_dirs(&["d"]);
    let mut host = Host::new(&[], &["d/f"], &[]);
    let home = fs.get_fd(4).unwrap().inode;
    let file = found(resolve(&mut fs, &mut host, 4, "f", true));
    let kind = Kind::Symlink {
        base_po_dir: 4,
        path_to_symlink: "l".to_string(),
        relative_path: "f".to_string(),
    };
    let link = fs.create_inode_with_default_stat(kind, false, "l".to_string());
    match &mut fs.inodes[Index::from_raw_parts(home.index, home.generation)].kind {
        Kind::Dir { entries, .. } => {
            entries.insert("l".to_string(), link);
        }
        _ => panic!("a directory"),
    }
    assert_eq!(resolve(&mut fs, &mut host, 4, "l", false), End::Found(link));
    assert_eq!(resolve(&mut fs, &mut host, 4, "l", true), End::Found(file));
}

#[test]
fn resolving_again_comes_to_the_same() {
    let mut fs = with_dirs(&["home"]);
    let mut host = Host::new(&["home/d"], &["home/d/f"], &[]);
    for path in vec!["d/f", "d/none", "d/f/x", "../home/d", "/d", "d/./../d/f"] {
        let first = resolve(&mut fs, &mut host, 4, path, true);
        let counter = fs.inode_counter;
        assert_eq!(resolve(&mut fs, &mut host, 4, path, true), first, "{}", path);
        assert_eq!(fs.inode_counter, counter);
    }
}

#[test]
fn two_stages_are_one() {
    let mut fs = with_dirs(&["home"]);
    let mut host = Host::new(
        &["home/d", "home/d/e"],
        &["home/d/e/f", "home/d/g"],
        &[("home/d/l", "e/f")],
    );
    let dir = found(resolve(&mut fs, &mut host, 3, "home/d", true));
    let fd = fs.create_fd(0, 0, 0, dir).unwrap();
    for q in vec!["e/f", "./g", "..", "none", "g/x", ".", "l"] {
        let at_once = format!("home/d/{}", q);
        let one = resolve(&mut fs, &mut host, 3, &at_once, true);
        assert_eq!(resolve(&mut fs, &mut host, fd, q, true), one, "{}", q);
    }
}

#[test]
fn every_inode_number_is_at_least_the_first() {
    let mut fs = with_dirs(&["home"]);
    let mut host = Host::new(&["home/d"], &["home/d/f"], &[("home/l", "d")]);
    found(resolve(&mut fs, &mut host, 4, "l/f", true));
    let mut numbers: Vec<u64> = fs.inodes.iter().map(|(_, v)| v.stat.st_ino).collect();
    numbers.sort();
    assert_eq!(numbers, vec![1024, 1025, 1026, 1027, 1028]);
}

#[test]
fn at_the_limit_what_is_no_link_is_still_found() {
    let mut fs = with_dirs(&["home"]);
    let mut host = Host::new(&["home/e", "home/e/e"], &["home/e/e/f"], &[("home/d", ".")]);
    let file = found(resolve(&mut fs, &mut host, 4, "e/e/f", true));
    let path = format!("{}e/./e/../e/f", "d/".repeat(MAX_SYMLINKS as usize));
    assert_eq!(resolve(&mut fs, &mut host, 4, &path, true), End::Found(file));
}

#[test]
fn an_unset_flag_differs_only_at_the_last_link() {
    let mut fs = with_dirs(&["home"]);
    let mut host = Host::new(
        &["home/d", "home/d/e"],
        &["home/d/e/f"],
        &[("home/a", "b"), ("home/b", "d"), ("home/d/l", "e"), ("home/s", "s")],
    );
    for path in vec!["a/e/f", "a/l/f", "a/l/none", "a/l/f/x", "s/x", "b/../a/e", "d/e", "/d"] {
        let kept = resolve(&mut fs, &mut host, 4, path, false);
        assert_eq!(resolve(&mut fs, &mut host, 4, path, true), kept, "{}", path);
    }
    let kept = found(resolve(&mut fs, &mut host, 4, "a", false));
    let followed = found(resolve(&mut fs, &mut host, 4, "a", true));
    assert_eq!(file_type_of(&mut fs, kept), 7);
    assert_eq!(file_type_of(&mut fs, followed), 3);
}

#[test]
fn the_parent_is_what_the_rest_comes_to() {
    let mut fs = with_dirs(&["home"]);
    let mut host = Host::new(
        &["home/d"],
        &["home/f"],
        &[("home/a", "b"), ("home/b", "d"), ("home/s", "s")],
    );
    for rest in vec!["d", "d/..", "a/../d", "none", "f/x", "s/y", ""] {
        let path = if rest.is_empty() { "new".to_string() } else { format!("{}/new", rest) };
        for follow in vec![true, false] {
            let end = resolve(&mut fs, &mut host, 4, rest, follow);
            assert_eq!(parent(&mut fs, &mut host, 4, &path), (end, "new".to_string()), "{}", rest);
        }
    }
}

#[test]
fn an_empty_path_is_its_base_even_where_that_is_gone() {
    let mut fs = with_dirs(&["home"]);
    let mut host = Host::new(&[], &[], &[]);
    let buffer = Kind::Buffer { buffer: Vec::new() };
    let inode = fs.create_inode_with_default_stat(buffer, false, "b".to_string());
    let fd = fs.create_fd(0, 0, 0, inode).unwrap();
    assert!(fs.remove_inode(inode));
    assert_eq!(resolve(&mut fs, &mut host, fd, "", true), End::Found(inode));
}

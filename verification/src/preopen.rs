//! How a filesystem begins: the virtual root and the directories that are open
//! in it before the guest runs.
use crate::arena::arena_new;
use crate::fs::{root_inode, WasiFs, ALL_RIGHTS, VIRTUAL_ROOT_FD};
use crate::host::{stat_of_answer, HostMetadata, StatAnswer};
use crate::inode::{Fd, FileHandle, Inode, InodeView, Kind, KindView};
use crate::laws::law_fresh_is_in_order;
use crate::model::FsView;
use crate::wasi::{__wasi_errno_t, __wasi_filestat_t, __WASI_EIO};
use std::collections::HashMap;
use vstd::hash_map::StringHashMap;
use vstd::prelude::*;
use vstd::string::*;

verus! {

broadcast use vstd::std_specs::hash::group_hash_axioms;

/// The first inode number.
pub const FIRST_INODE_NUMBER: u64 = 1024;

/// A host directory to preopen, and what the host told of its path: whether it
/// is a directory, and the metadata that its inode shows.
pub struct ProbedDir {
    pub path: String,
    pub is_dir: bool,
    pub metadata: Option<HostMetadata>,
}

/// A directory to preopen: the name it gets in the root, and what the host told.
#[verifier::ext_equal]
pub struct DirView {
    pub name: Seq<char>,
    pub path: Seq<char>,
    pub is_dir: bool,
    pub metadata: Option<HostMetadata>,
    /// the name was given apart from the path
    pub mapped: bool,
}

/// Directories that are preopened under their own path.
pub open spec fn preopened_views(dirs: Seq<ProbedDir>) -> Seq<DirView> {
    dirs.map_values(
        |d: ProbedDir|
            DirView {
                name: d.path@,
                path: d.path@,
                is_dir: d.is_dir,
                metadata: d.metadata,
                mapped: false,
            },
    )
}

/// Directories that are preopened under an alias.
pub open spec fn mapped_views(dirs: Seq<(String, ProbedDir)>) -> Seq<DirView> {
    dirs.map_values(
        |d: (String, ProbedDir)|
            DirView {
                name: d.0@,
                path: d.1.path@,
                is_dir: d.1.is_dir,
                metadata: d.1.metadata,
                mapped: true,
            },
    )
}

/// All the directories that are preopened, in the order in which they are.
pub open spec fn all_dirs(
    preopened_dirs: Seq<ProbedDir>,
    mapped_dirs: Seq<(String, ProbedDir)>,
) -> Seq<DirView> {
    preopened_views(preopened_dirs) + mapped_views(mapped_dirs)
}

/// The directory can be preopened.
pub open spec fn is_accepted(dir: DirView) -> bool {
    dir.is_dir && stat_of_answer(StatAnswer::Metadata(dir.metadata)) is Some
}

/// The first `k` directories can all be preopened.
pub open spec fn accepted_before(dirs: Seq<DirView>, k: int) -> bool {
    forall|j: int| 0 <= j < k ==> is_accepted(#[trigger] dirs[j])
}

/// No two directories that come to be preopened have one name.
pub open spec fn no_collision(dirs: Seq<DirView>) -> bool {
    forall|i: int, j: int|
        #![trigger dirs[i], dirs[j]]
        0 <= i < j < dirs.len() && accepted_before(dirs, j + 1) ==> dirs[i].name != dirs[j].name
}

/// The text that Rust's `Debug` gives for a path.
pub uninterp spec fn path_debug_text(path: Seq<char>) -> Seq<char>;

/// Calls `Debug::fmt` of `std::path::Path` by way of `format!`: the text is a
/// function of the path alone. What the text is, quotes and escapes and all, is
/// not said.
#[verifier::external_body]
fn path_debug(path: &str) -> (text: String)
    ensures
        text@ == path_debug_text(path@),
{
    format!("{:?}", std::path::Path::new(path))
}

/// The complaint about something that is not a directory, given how it is shown.
pub open spec fn not_a_directory(shown: Seq<char>) -> Seq<char> {
    "WASI only supports pre-opened directories right now; found \""@ + shown + "\""@
}

/// Why a directory cannot be preopened.
pub open spec fn refusal(dir: DirView) -> Seq<char> {
    if !dir.is_dir {
        not_a_directory(if dir.mapped { path_debug_text(dir.path) } else { dir.path })
    } else {
        "Failed to create inode for preopened dir: WASI error code: 29"@
    }
}

/// The complaint about something that is not a directory.
pub fn not_a_directory_message(shown: &str) -> (text: String)
    ensures
        text@ == not_a_directory(shown@),
{
    let mut text: String = "WASI only supports pre-opened directories right now; found \""
        .to_owned();
    text.append(shown);
    text.append("\"");
    text
}

/// The complaint that the inode of a directory could not be made.
fn inode_failure_message() -> (text: String)
    ensures
        text@ == "Failed to create inode for preopened dir: WASI error code: 29"@,
{
    "Failed to create inode for preopened dir: WASI error code: 29".to_owned()
}

/// The inode of a preopened directory.
pub open spec fn dir_inode(dir: DirView, ino: u64, root: Inode) -> InodeView {
    InodeView {
        stat: __wasi_filestat_t {
            st_ino: ino,
            ..stat_of_answer(StatAnswer::Metadata(dir.metadata))->0
        },
        is_preopened: true,
        name: dir.name,
        kind: KindView::Dir { parent: Some(root), path: dir.path, entries: Map::empty() },
    }
}

/// The inode behind the `k`th preopened descriptor; the root comes first.
pub open spec fn nth_preopen(fs: FsView, k: int) -> Inode {
    fs.fds[(VIRTUAL_ROOT_FD + k) as u32].inode
}

/// The filesystem is the one that has just been made with these directories: the
/// root and each directory have a descriptor, in order and with all rights, and an
/// inode, numbered in order; the root has each directory under its name; there is
/// nothing else.
pub open spec fn is_fresh(fs: FsView, dirs: Seq<DirView>) -> bool {
    let n = dirs.len();
    let root = nth_preopen(fs, 0);
    &&& fs.preopen_fds == Seq::new(n + 1, |k: int| (VIRTUAL_ROOT_FD + k) as u32)
    &&& fs.name_map == Map::<Seq<char>, Inode>::empty()
    &&& fs.next_fd == VIRTUAL_ROOT_FD + n + 1
    &&& fs.next_ino == FIRST_INODE_NUMBER + n + 1
    &&& fs.generation == 0
    &&& forall|fd: u32| #[trigger]
        fs.fds.contains_key(fd) <==> VIRTUAL_ROOT_FD <= fd <= VIRTUAL_ROOT_FD + n
    &&& forall|fd: u32| #[trigger]
        fs.fds.contains_key(fd) ==> fs.fds[fd] == (Fd {
            rights: ALL_RIGHTS,
            rights_inheriting: ALL_RIGHTS,
            flags: 0,
            offset: 0,
            inode: fs.fds[fd].inode,
        })
    &&& forall|i: Inode| #[trigger]
        fs.inodes.contains_key(i) <==> exists|k: int|
            0 <= k <= n && i == #[trigger] nth_preopen(fs, k)
    &&& forall|i: Inode| #[trigger] fs.inodes.contains_key(i) ==> i.generation == 0
    &&& fs.inodes[root] == root_inode(FIRST_INODE_NUMBER, fs.kind(root).entries())
    &&& forall|name: Seq<char>| #[trigger]
        fs.kind(root).entries().contains_key(name) <==> exists|k: int|
            0 <= k < n && #[trigger] dirs[k].name == name
    &&& forall|k: int|
        0 <= k < n ==> {
            &&& fs.kind(root).entries()[(#[trigger] dirs[k]).name] == nth_preopen(fs, k + 1)
            &&& fs.inodes[nth_preopen(fs, k + 1)] == dir_inode(
                dirs[k],
                (FIRST_INODE_NUMBER + k + 1) as u64,
                root,
            )
        }
}

/// The filesystem is the one that has just been made with these directories and these
/// standard files.
pub open spec fn is_made(
    fs: FsView,
    dirs: Seq<DirView>,
    stdin: FileHandle,
    stdout: FileHandle,
    stderr: FileHandle,
) -> bool {
    &&& is_fresh(fs, dirs)
    &&& fs.stdin == stdin
    &&& fs.stdout == stdout
    &&& fs.stderr == stderr
}

/// The filesystem after one more directory was preopened as the given inode.
pub open spec fn with_preopened(fs: FsView, root: Inode, dir: DirView, inode: Inode) -> FsView {
    let opened = fs.with_new_inode(inode, dir_inode(dir, fs.next_ino, root)).with_new_fd(
        ALL_RIGHTS,
        ALL_RIGHTS,
        0,
        inode,
    );
    let named = opened.with_entry(root, dir.name, inode);
    FsView { preopen_fds: named.preopen_fds.push(fs.next_fd), ..named }
}

proof fn lemma_preopened_is_fresh(fs: FsView, dirs: Seq<DirView>, dir: DirView, inode: Inode)
    requires
        is_fresh(fs, dirs),
        VIRTUAL_ROOT_FD + dirs.len() + 1 < u32::MAX,
        fs.is_free(inode),
        forall|k: int| 0 <= k < dirs.len() ==> (#[trigger] dirs[k]).name != dir.name,
    ensures
        is_fresh(with_preopened(fs, nth_preopen(fs, 0), dir, inode), dirs.push(dir)),
{
    let n = dirs.len();
    let root = nth_preopen(fs, 0);
    let after = with_preopened(fs, root, dir, inode);
    let more = dirs.push(dir);
    assert(fs.fds.contains_key(VIRTUAL_ROOT_FD));
    assert(fs.inodes.contains_key(root));
    assert(root != inode);
    assert(nth_preopen(after, 0) == root);
    assert forall|k: int| 0 <= k <= n implies #[trigger] nth_preopen(after, k) == nth_preopen(
        fs,
        k,
    ) by {
        assert(fs.fds.contains_key((VIRTUAL_ROOT_FD + k) as u32));
    }
    assert(nth_preopen(after, n as int + 1) == inode);
    assert(after.preopen_fds =~= Seq::new(n + 2, |k: int| (VIRTUAL_ROOT_FD + k) as u32));
    assert forall|i: Inode| #[trigger]
        after.inodes.contains_key(i) <==> exists|k: int|
            0 <= k <= n + 1 && i == #[trigger] nth_preopen(after, k) by {
        if after.inodes.contains_key(i) {
            if i == inode {
                assert(i == nth_preopen(after, n as int + 1));
            } else {
                assert(fs.inodes.contains_key(i));
                let k = choose|k: int| 0 <= k <= n && i == #[trigger] nth_preopen(fs, k);
                assert(i == nth_preopen(after, k));
            }
        }
        if exists|k: int| 0 <= k <= n + 1 && i == #[trigger] nth_preopen(after, k) {
            let k = choose|k: int| 0 <= k <= n + 1 && i == #[trigger] nth_preopen(after, k);
            if k <= n {
                assert(i == nth_preopen(fs, k));
                assert(fs.inodes.contains_key(i));
            }
        }
    }
    let before_entries = fs.kind(root).entries();
    let entries = after.kind(root).entries();
    assert(entries == before_entries.insert(dir.name, inode));
    assert forall|name: Seq<char>| #[trigger]
        entries.contains_key(name) <==> exists|k: int|
            0 <= k < n + 1 && #[trigger] more[k].name == name by {
        if entries.contains_key(name) {
            if name == dir.name {
                assert(more[n as int].name == name);
            } else {
                assert(before_entries.contains_key(name));
                let k = choose|k: int| 0 <= k < n && #[trigger] dirs[k].name == name;
                assert(more[k].name == name);
            }
        }
        if exists|k: int| 0 <= k < n + 1 && #[trigger] more[k].name == name {
            let k = choose|k: int| 0 <= k < n + 1 && #[trigger] more[k].name == name;
            if k < n {
                assert(dirs[k].name == name);
                assert(before_entries.contains_key(name));
            }
        }
    }
    assert forall|k: int| 0 <= k < n + 1 implies {
        &&& entries[(#[trigger] more[k]).name] == nth_preopen(after, k + 1)
        &&& after.inodes[nth_preopen(after, k + 1)] == dir_inode(
            more[k],
            (FIRST_INODE_NUMBER + k + 1) as u64,
            root,
        )
    } by {
        if k < n {
            assert(more[k] == dirs[k]);
            assert(nth_preopen(after, k + 1) == nth_preopen(fs, k + 1));
            assert(fs.inodes.contains_key(nth_preopen(fs, k + 1)));
            assert(fs.inodes[nth_preopen(fs, k + 1)] == dir_inode(
                dirs[k],
                (FIRST_INODE_NUMBER + k + 1) as u64,
                root,
            ));
            assert(nth_preopen(fs, k + 1) != root) by {
                assert(fs.inodes[root].kind is Root);
            }
        } else {
            assert(nth_preopen(after, k + 1) == inode);
        }
    }
    assert forall|fd: u32| #[trigger] after.fds.contains_key(fd) implies after.fds[fd] == (Fd {
        rights: ALL_RIGHTS,
        rights_inheriting: ALL_RIGHTS,
        flags: 0,
        offset: 0,
        inode: after.fds[fd].inode,
    }) by {
        if fd != fs.next_fd {
            assert(fs.fds.contains_key(fd));
        }
    }
    assert(fs.inodes[root] == root_inode(FIRST_INODE_NUMBER, before_entries));
    assert(after.inodes[root] =~= root_inode(FIRST_INODE_NUMBER, entries));
}

/// One more directory of a list keeps the filesystem fresh.
proof fn lemma_next_is_fresh(fs: FsView, dirs: Seq<DirView>, k: int, inode: Inode)
    requires
        0 <= k < dirs.len(),
        VIRTUAL_ROOT_FD + dirs.len() < u32::MAX,
        no_collision(dirs),
        accepted_before(dirs, k),
        is_accepted(dirs[k]),
        is_fresh(fs, dirs.take(k)),
        fs.is_free(inode),
    ensures
        is_fresh(with_preopened(fs, nth_preopen(fs, 0), dirs[k], inode), dirs.take(k + 1)),
        accepted_before(dirs, k + 1),
        nth_preopen(with_preopened(fs, nth_preopen(fs, 0), dirs[k], inode), 0) == nth_preopen(
            fs,
            0,
        ),
{
    let done = dirs.take(k);
    assert forall|j: int| 0 <= j < done.len() implies (#[trigger] done[j]).name != dirs[k].name by {
        assert(done[j] == dirs[j]);
        assert(accepted_before(dirs, k + 1));
    }
    lemma_preopened_is_fresh(fs, done, dirs[k], inode);
    assert(done.push(dirs[k]) =~= dirs.take(k + 1));
}

impl WasiFs {
    /// Makes a filesystem: the virtual root, then each directory under its path,
    /// then each directory under its alias. The first directory that cannot be
    /// preopened ends it, and the error says why.
    pub fn new(
        preopened_dirs: &[ProbedDir],
        mapped_dirs: &[(String, ProbedDir)],
        stdin: FileHandle,
        stdout: FileHandle,
        stderr: FileHandle,
    ) -> (r: Result<WasiFs, String>)
        requires
            VIRTUAL_ROOT_FD + preopened_dirs@.len() + mapped_dirs@.len() < u32::MAX,
            no_collision(all_dirs(preopened_dirs@, mapped_dirs@)),
        ensures
            match r {
                Ok(fs) => {
                    let dirs = all_dirs(preopened_dirs@, mapped_dirs@);
                    &&& accepted_before(dirs, dirs.len() as int)
                    &&& is_fresh(fs@, dirs)
                    &&& fs@.wf()
                    &&& fs@.numbered()
                    &&& fs@.rooted()
                    &&& fs@.stdin == stdin
                    &&& fs@.stdout == stdout
                    &&& fs@.stderr == stderr
                    &&& is_made(fs@, dirs, stdin, stdout, stderr)
                },
                Err(message) => {
                    let dirs = all_dirs(preopened_dirs@, mapped_dirs@);
                    exists|k: int|
                        0 <= k < dirs.len() && accepted_before(dirs, k) && !is_accepted(
                            #[trigger] dirs[k],
                        ) && message@ == refusal(dirs[k])
                },
            },
    {
        let ghost dirs = all_dirs(preopened_dirs@, mapped_dirs@);
        let mut wasi_fs = WasiFs {
            preopen_fds: Vec::new(),
            name_map: StringHashMap::new(),
            inodes: arena_new(),
            fd_map: HashMap::new(),
            next_fd: VIRTUAL_ROOT_FD,
            inode_counter: FIRST_INODE_NUMBER,
            stdout,
            stderr,
            stdin,
        };
        assert(wasi_fs@.inodes =~= Map::empty());
        let root_inode = wasi_fs.create_virtual_root();
        let fd = match wasi_fs.create_fd(ALL_RIGHTS, ALL_RIGHTS, 0, root_inode) {
            Ok(fd) => fd,
            Err(_) => {
                return Err(String::new());
            },
        };
        wasi_fs.preopen_fds.push(fd);
        assert(is_fresh(wasi_fs@, dirs.take(0))) by {
            let fs = wasi_fs@;
            assert(fs.preopen_fds =~= Seq::new(1, |k: int| (VIRTUAL_ROOT_FD + k) as u32));
            assert(nth_preopen(fs, 0) == root_inode);
            assert forall|i: Inode| #[trigger]
                fs.inodes.contains_key(i) <==> exists|k: int|
                    0 <= k <= 0 && i == #[trigger] nth_preopen(fs, k) by {
                if i == root_inode {
                    assert(i == nth_preopen(fs, 0));
                }
            }
            assert(fs.kind(root_inode).entries() =~= Map::empty());
        }
        let mut k: usize = 0;
        while k < preopened_dirs.len()
            invariant
                k <= preopened_dirs@.len(),
                dirs == all_dirs(preopened_dirs@, mapped_dirs@),
                VIRTUAL_ROOT_FD + dirs.len() < u32::MAX,
                no_collision(dirs),
                accepted_before(dirs, k as int),
                is_fresh(wasi_fs@, dirs.take(k as int)),
                nth_preopen(wasi_fs@, 0) == root_inode,
                wasi_fs@.stdin == stdin,
                wasi_fs@.stdout == stdout,
                wasi_fs@.stderr == stderr,
            decreases preopened_dirs@.len() - k,
        {
            let dir = &preopened_dirs[k];
            let ghost before = wasi_fs@;
            assert(dirs[k as int] == preopened_views(preopened_dirs@)[k as int]);
            if !dir.is_dir {
                assert(!is_accepted(dirs[k as int]));
                return Err(not_a_directory_message(dir.path.as_str()));
            }
            match wasi_fs.preopen(root_inode, &dir.path, dir) {
                Ok(_) => {},
                Err(_) => {
                    assert(!is_accepted(dirs[k as int]));
                    return Err(inode_failure_message());
                },
            }
            proof {
                lemma_next_is_fresh(before, dirs, k as int, nth_new(before, wasi_fs@));
            }
            k = k + 1;
        }
        let mut m: usize = 0;
        while m < mapped_dirs.len()
            invariant
                m <= mapped_dirs@.len(),
                dirs == all_dirs(preopened_dirs@, mapped_dirs@),
                VIRTUAL_ROOT_FD + dirs.len() < u32::MAX,
                no_collision(dirs),
                accepted_before(dirs, preopened_dirs@.len() + m),
                is_fresh(wasi_fs@, dirs.take(preopened_dirs@.len() + m)),
                nth_preopen(wasi_fs@, 0) == root_inode,
                wasi_fs@.stdin == stdin,
                wasi_fs@.stdout == stdout,
                wasi_fs@.stderr == stderr,
            decreases mapped_dirs@.len() - m,
        {
            let dir = &mapped_dirs[m];
            let ghost before = wasi_fs@;
            let ghost k = preopened_dirs@.len() + m;
            assert(dirs[k] == mapped_views(mapped_dirs@)[m as int]);
            if !dir.1.is_dir {
                assert(!is_accepted(dirs[k]));
                let shown = path_debug(dir.1.path.as_str());
                return Err(not_a_directory_message(shown.as_str()));
            }
            match wasi_fs.preopen(root_inode, &dir.0, &dir.1) {
                Ok(_) => {},
                Err(_) => {
                    assert(!is_accepted(dirs[k]));
                    return Err(inode_failure_message());
                },
            }
            proof {
                lemma_next_is_fresh(before, dirs, k, nth_new(before, wasi_fs@));
            }
            m = m + 1;
        }
        assert(dirs.take(dirs.len() as int) =~= dirs);
        proof {
            law_fresh_is_in_order(wasi_fs@, dirs);
        }
        Ok(wasi_fs)
    }

    /// Preopens one directory.
    fn preopen(&mut self, root: Inode, name: &String, dir: &ProbedDir) -> (r: Result<
        (),
        __wasi_errno_t,
    >)
        requires
            old(self)@.live(root),
            old(self)@.next_fd < u32::MAX,
            old(self)@.next_ino < u64::MAX,
        ensures
            match r {
                Ok(_) => {
                    &&& stat_of_answer(StatAnswer::Metadata(dir.metadata)) is Some
                    &&& old(self)@.is_free(nth_new(old(self)@, final(self)@))
                    &&& final(self)@ == with_preopened(
                        old(self)@,
                        root,
                        DirView {
                            name: name@,
                            path: dir.path@,
                            is_dir: dir.is_dir,
                            metadata: dir.metadata,
                            mapped: false,
                        },
                        nth_new(old(self)@, final(self)@),
                    )
                },
                Err(e) => {
                    &&& stat_of_answer(StatAnswer::Metadata(dir.metadata)) is None
                    &&& e == __WASI_EIO
                    &&& final(self)@ == old(self)@
                },
            },
    {
        let kind = Kind::Dir {
            parent: Some(root),
            path: dir.path.clone(),
            entries: StringHashMap::new(),
        };
        let answer = StatAnswer::Metadata(dir.metadata);
        let inode = match self.create_inode(kind, true, name.clone(), answer) {
            Ok(inode) => inode,
            Err(e) => {
                return Err(e);
            },
        };
        let fd = match self.create_fd(ALL_RIGHTS, ALL_RIGHTS, 0, inode) {
            Ok(fd) => fd,
            Err(e) => {
                return Err(e);
            },
        };
        self.insert_entry(root, name.clone(), inode);
        self.preopen_fds.push(fd);
        Ok(())
    }
}

/// The inode behind the descriptor that was opened between two states.
spec fn nth_new(before: FsView, after: FsView) -> Inode {
    after.fds[before.next_fd].inode
}

} // verus!

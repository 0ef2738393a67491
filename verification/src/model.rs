//! The mathematical value of the filesystem, and what its parts mean.
use crate::host::{answers, stat_of_answer, FileAttributes, StatAnswer, StatSourceView};
use crate::inode::{Fd, FileHandle, Inode, InodeView, KindView};
use crate::path::path_push;
use crate::preopen::FIRST_INODE_NUMBER;
use crate::wasi::{
    __wasi_errno_t, __wasi_fd_t, __wasi_fdflags_t, __wasi_fdstat_t, __wasi_filestat_t,
    __wasi_filetype_t, __wasi_prestat_t, __wasi_prestat_u, __wasi_prestat_u_dir_t,
    __wasi_rights_t, default_filestat, WasiFsError, __WASI_EACCES, __WASI_EBADF, __WASI_EINVAL,
    __WASI_EIO, __WASI_EISDIR, __WASI_FILETYPE_DIRECTORY, __WASI_FILETYPE_REGULAR_FILE,
    __WASI_FILETYPE_SYMBOLIC_LINK, __WASI_FILETYPE_UNKNOWN, __WASI_PREOPENTYPE_DIR, __WASI_RIGHT_FD_DATASYNC,
    __WASI_STDERR_FILENO, __WASI_STDIN_FILENO, __WASI_STDOUT_FILENO,
};
use vstd::prelude::*;
use vstd::utf8::encode_utf8;

verus! {

/// The mathematical value of a filesystem.
#[verifier::ext_equal]
pub struct FsView {
    pub preopen_fds: Seq<u32>,
    pub name_map: Map<Seq<char>, Inode>,
    pub inodes: Map<Inode, InodeView>,
    /// how many inodes have been removed
    pub generation: u64,
    pub fds: Map<u32, Fd>,
    pub next_fd: u32,
    pub next_ino: u64,
    pub stdout: FileHandle,
    pub stderr: FileHandle,
    pub stdin: FileHandle,
}

impl FsView {
    /// The inode exists.
    pub open spec fn live(self, inode: Inode) -> bool {
        self.inodes.contains_key(inode)
    }

    /// The inode is one that may be given out next: it does not exist, and it is of
    /// the generation that is current.
    pub open spec fn is_free(self, inode: Inode) -> bool {
        !self.live(inode) && inode.generation == self.generation
    }

    /// The inode has been removed.
    pub open spec fn is_spent(self, inode: Inode) -> bool {
        !self.live(inode) && inode.generation < self.generation
    }

    /// What an inode is.
    pub open spec fn kind(self, inode: Inode) -> KindView {
        self.inodes[inode].kind
    }

    /// If the descriptor is open, its inode exists.
    pub open spec fn fd_live(self, fd: __wasi_fd_t) -> bool {
        self.fds.contains_key(fd) ==> self.live(self.fds[fd].inode)
    }

    /// The descriptor is open on an inode that has entries.
    pub open spec fn is_base(self, fd: __wasi_fd_t) -> bool {
        &&& self.fds.contains_key(fd)
        &&& self.live(self.fds[fd].inode)
        &&& self.kind(self.fds[fd].inode).has_entries()
    }

    /// The inodes that a kind refers to all exist.
    pub open spec fn kind_live(self, kind: KindView) -> bool {
        &&& kind.parent() is Some ==> self.live(kind.parent()->0)
        &&& forall|name: Seq<char>| #[trigger]
            kind.entries().contains_key(name) ==> self.live(kind.entries()[name])
    }

    /// Each preopened descriptor is open on a directory or the root.
    pub open spec fn preopens_open(self) -> bool {
        forall|k: int|
            0 <= k < self.preopen_fds.len() ==> self.is_base(#[trigger] self.preopen_fds[k])
    }

    /// Every reference leads somewhere: each open descriptor to an inode, each
    /// preopened one to a directory or the root, each parent and each entry of a
    /// directory to an inode.
    pub open spec fn wf(self) -> bool {
        &&& forall|fd: u32| #[trigger] self.fds.contains_key(fd) ==> self.live(self.fds[fd].inode)
        &&& self.preopens_open()
        &&& forall|i: Inode| #[trigger] self.inodes.contains_key(i) ==> self.kind_live(self.kind(i))
    }

    /// Numbers are handed out in order and never twice: what has been handed out lies
    /// below what comes next and no inode's number below the first, no two inodes share a
    /// number, and none is of a generation to come.
    pub open spec fn numbered(self) -> bool {
        &&& forall|fd: u32| #[trigger] self.fds.contains_key(fd) ==> fd < self.next_fd
        &&& FIRST_INODE_NUMBER <= self.next_ino
        &&& forall|i: Inode| #[trigger]
            self.inodes.contains_key(i) ==> FIRST_INODE_NUMBER <= self.inodes[i].stat.st_ino
                < self.next_ino && i.generation <= self.generation
        &&& forall|i: Inode, j: Inode|
            #![trigger self.inodes[i], self.inodes[j]]
            self.inodes.contains_key(i) && self.inodes.contains_key(j) && self.inodes[i].stat.st_ino
                == self.inodes[j].stat.st_ino ==> i == j
    }

    /// Every directory has a parent, which was there before it.
    pub open spec fn rooted(self) -> bool {
        forall|i: Inode| #[trigger]
            self.inodes.contains_key(i) && self.kind(i) is Dir ==> self.has_elder_parent(i)
    }

    /// The inode has a parent with a lower number.
    pub open spec fn has_elder_parent(self, inode: Inode) -> bool {
        match self.kind(inode).parent() {
            Some(p) => self.live(p) && self.inodes[p].stat.st_ino < self.inodes[inode].stat.st_ino,
            None => false,
        }
    }

    /// A directory of this kind would have a parent.
    pub open spec fn kind_rooted(self, kind: KindView) -> bool {
        kind is Dir ==> kind.parent() is Some && self.live(kind.parent()->0)
    }

    /// The inode is named by a descriptor, as a parent or by an entry.
    pub open spec fn refers_to(self, inode: Inode) -> bool {
        ||| exists|fd: u32| #[trigger] self.fds.contains_key(fd) && self.fds[fd].inode == inode
        ||| exists|i: Inode| #[trigger]
            self.inodes.contains_key(i) && self.kind(i).parent() == Some(inode)
        ||| exists|i: Inode, name: Seq<char>|
            self.inodes.contains_key(i) && #[trigger] self.kind(i).entries().contains_key(name)
                && self.kind(i).entries()[name] == inode
    }

    /// The inode that is made next with the given attributes.
    pub open spec fn next_inode(
        self,
        kind: KindView,
        is_preopened: bool,
        name: Seq<char>,
        stat: __wasi_filestat_t,
    ) -> InodeView {
        InodeView {
            stat: __wasi_filestat_t { st_ino: self.next_ino, ..stat },
            is_preopened,
            name,
            kind,
        }
    }

    /// The filesystem after an inode was added, which took the next number.
    pub open spec fn with_new_inode(self, inode: Inode, value: InodeView) -> FsView {
        FsView {
            inodes: self.inodes.insert(inode, value),
            next_ino: (self.next_ino + 1) as u64,
            ..self
        }
    }

    /// The attributes, but for the number, of the inode that is made next, or why none is.
    pub open spec fn creation(self, kind: KindView, answer: StatAnswer) -> Result<
        __wasi_filestat_t,
        __wasi_errno_t,
    > {
        match self.stat_for_kind(kind, answer) {
            Some(stat) => Ok(stat),
            None => Err(__WASI_EIO),
        }
    }

    /// Whether removing an inode removes one.
    pub open spec fn removal(self, inode: Inode) -> bool {
        self.live(inode)
    }

    /// The filesystem after an inode was removed, where it existed.
    pub open spec fn without_inode(self, inode: Inode) -> FsView {
        if self.live(inode) {
            FsView {
                inodes: self.inodes.remove(inode),
                generation: (self.generation + 1) as u64,
                ..self
            }
        } else {
            self
        }
    }

    /// The filesystem with one inode's kind replaced.
    pub open spec fn with_kind(self, inode: Inode, kind: KindView) -> FsView {
        FsView {
            inodes: self.inodes.insert(inode, InodeView { kind, ..self.inodes[inode] }),
            ..self
        }
    }

    /// The filesystem with one inode's attributes replaced.
    pub open spec fn with_stat(self, inode: Inode, stat: __wasi_filestat_t) -> FsView {
        FsView {
            inodes: self.inodes.insert(inode, InodeView { stat, ..self.inodes[inode] }),
            ..self
        }
    }

    /// The filesystem after a descriptor was opened, which took the next number.
    pub open spec fn with_new_fd(
        self,
        rights: __wasi_rights_t,
        rights_inheriting: __wasi_rights_t,
        flags: __wasi_fdflags_t,
        inode: Inode,
    ) -> FsView {
        FsView {
            fds: self.fds.insert(
                self.next_fd,
                Fd { rights, rights_inheriting, flags, offset: 0, inode },
            ),
            next_fd: (self.next_fd + 1) as u32,
            ..self
        }
    }

    /// What swapping the file behind a descriptor returns.
    pub open spec fn swap_result(self, fd: __wasi_fd_t) -> Result<Option<FileHandle>, WasiFsError> {
        if fd == __WASI_STDIN_FILENO {
            Ok(Some(self.stdin))
        } else if fd == __WASI_STDOUT_FILENO {
            Ok(Some(self.stdout))
        } else if fd == __WASI_STDERR_FILENO {
            Ok(Some(self.stderr))
        } else if !self.fds.contains_key(fd) {
            Err(WasiFsError::InvalidFd)
        } else {
            match self.kind(self.fds[fd].inode) {
                KindView::File { handle, .. } => Ok(handle),
                _ => Err(WasiFsError::NotAFile),
            }
        }
    }

    /// The filesystem after the file behind a descriptor was swapped.
    pub open spec fn swapped(self, fd: __wasi_fd_t, file: FileHandle) -> FsView {
        if fd == __WASI_STDIN_FILENO {
            FsView { stdin: file, ..self }
        } else if fd == __WASI_STDOUT_FILENO {
            FsView { stdout: file, ..self }
        } else if fd == __WASI_STDERR_FILENO {
            FsView { stderr: file, ..self }
        } else if !self.fds.contains_key(fd) {
            self
        } else {
            match self.kind(self.fds[fd].inode) {
                KindView::File { path, .. } => self.with_kind(
                    self.fds[fd].inode,
                    KindView::File { handle: Some(file), path },
                ),
                _ => self,
            }
        }
    }

    /// What opening a file by name in the directory behind a descriptor returns. The root
    /// takes no entry after creation.
    pub open spec fn open_result(self, base: __wasi_fd_t, name: Seq<char>) -> Result<
        __wasi_fd_t,
        WasiFsError,
    > {
        if !self.fds.contains_key(base) {
            Err(WasiFsError::InvalidFd)
        } else if !self.is_base(base) {
            Err(WasiFsError::BaseNotDirectory)
        } else if self.kind(self.fds[base].inode).entries().contains_key(name) {
            Err(WasiFsError::AlreadyExists)
        } else if self.kind(self.fds[base].inode) is Root {
            Err(WasiFsError::IOError)
        } else {
            Ok(self.next_fd)
        }
    }

    /// The inode that a file gets when it is opened by name.
    pub open spec fn file_inode(
        self,
        file: FileHandle,
        attributes: FileAttributes,
        name: Seq<char>,
    ) -> InodeView {
        InodeView {
            stat: __wasi_filestat_t {
                st_ino: self.next_ino,
                st_filetype: __WASI_FILETYPE_REGULAR_FILE,
                st_size: attributes.size,
                st_atim: attributes.last_accessed,
                st_mtim: attributes.last_modified,
                st_ctim: attributes.created_time,
                ..default_filestat()
            },
            is_preopened: false,
            name,
            kind: KindView::File { handle: Some(file), path: Seq::empty() },
        }
    }

    /// The filesystem after an inode became an entry of a directory.
    pub open spec fn with_entry(self, dir: Inode, name: Seq<char>, inode: Inode) -> FsView {
        self.with_kind(dir, self.kind(dir).with_entry(name, inode))
    }

    /// The filesystem after a file was opened by name as the given inode.
    pub open spec fn with_opened(
        self,
        base: __wasi_fd_t,
        file: FileHandle,
        attributes: FileAttributes,
        name: Seq<char>,
        rights: __wasi_rights_t,
        rights_inheriting: __wasi_rights_t,
        flags: __wasi_fdflags_t,
        inode: Inode,
    ) -> FsView {
        self.with_new_inode(inode, self.file_inode(file, attributes, name)).with_entry(
            self.fds[base].inode,
            name,
            inode,
        ).with_new_fd(rights, rights_inheriting, flags, inode)
    }

    /// What has to be asked for the attributes of an inode of this kind. The root
    /// and buffers have none.
    pub open spec fn stat_source(self, kind: KindView) -> Option<StatSourceView> {
        match kind {
            KindView::File { handle: Some(handle), .. } => Some(StatSourceView::Handle(handle)),
            KindView::File { handle: None, path } => Some(StatSourceView::Metadata(path)),
            KindView::Dir { path, .. } => Some(StatSourceView::Metadata(path)),
            KindView::Symlink { base_po_dir, path_to_symlink, .. } => Some(
                StatSourceView::SymlinkMetadata(
                    match self.kind(self.fds[base_po_dir].inode) {
                        KindView::Dir { path, .. } => path_push(path, path_to_symlink),
                        _ => path_to_symlink,
                    },
                ),
            ),
            _ => None,
        }
    }

    /// The attributes of an inode of this kind, given the host's answer.
    pub open spec fn stat_for_kind(
        self,
        kind: KindView,
        answer: StatAnswer,
    ) -> Option<__wasi_filestat_t> {
        if self.stat_source(kind) is Some {
            stat_of_answer(answer)
        } else {
            None
        }
    }

    /// Where a symbolic link starts is known.
    pub open spec fn base_known(self, kind: KindView) -> bool {
        kind is Symlink ==> self.is_base(kind->base_po_dir)
    }

    /// The answer is of the sort that the kind asks for.
    pub open spec fn answered(self, kind: KindView, answer: StatAnswer) -> bool {
        self.stat_source(kind) matches Some(source) ==> answers(source, answer)
    }

    /// The open file whose size a descriptor's inode shows.
    pub open spec fn resync_target(self, fd: __wasi_fd_t) -> Result<FileHandle, __wasi_errno_t> {
        if !self.fds.contains_key(fd) {
            Err(__WASI_EBADF)
        } else {
            match self.kind(self.fds[fd].inode) {
                KindView::File { handle: Some(handle), .. } => Ok(handle),
                KindView::File { handle: None, .. } => Err(__WASI_EBADF),
                KindView::Dir { .. } => Err(__WASI_EISDIR),
                KindView::Root { .. } => Err(__WASI_EISDIR),
                _ => Err(__WASI_EINVAL),
            }
        }
    }

    /// The filesystem after the size that a descriptor's inode shows was refreshed.
    pub open spec fn resynced(self, fd: __wasi_fd_t, size: u64) -> FsView {
        let inode = self.fds[fd].inode;
        self.with_stat(inode, __wasi_filestat_t { st_size: size, ..self.inodes[inode].stat })
    }

    /// What refreshing a size returns, given the size that the file reports.
    pub open spec fn resync_result(self, fd: __wasi_fd_t, size: u64) -> Result<
        u64,
        __wasi_errno_t,
    > {
        match self.resync_target(fd) {
            Ok(_) => Ok(size),
            Err(e) => Err(e),
        }
    }

    /// The open file that flushing a descriptor flushes, if there is one.
    pub open spec fn flush_target(self, fd: __wasi_fd_t) -> Result<
        Option<FileHandle>,
        __wasi_errno_t,
    > {
        if fd == __WASI_STDIN_FILENO {
            Ok(None)
        } else if fd == __WASI_STDOUT_FILENO {
            Ok(Some(self.stdout))
        } else if fd == __WASI_STDERR_FILENO {
            Ok(Some(self.stderr))
        } else if !self.fds.contains_key(fd) {
            Err(__WASI_EBADF)
        } else if self.fds[fd].rights & __WASI_RIGHT_FD_DATASYNC == 0 {
            Err(__WASI_EACCES)
        } else {
            match self.kind(self.fds[fd].inode) {
                KindView::File { handle: Some(handle), .. } => Ok(Some(handle)),
                KindView::Dir { .. } => Err(__WASI_EISDIR),
                KindView::Buffer { .. } => Ok(None),
                _ => Err(__WASI_EIO),
            }
        }
    }

    /// The attributes that a descriptor's file shows.
    pub open spec fn filestat_result(self, fd: __wasi_fd_t) -> Result<
        __wasi_filestat_t,
        __wasi_errno_t,
    > {
        if self.fds.contains_key(fd) {
            Ok(self.inodes[self.fds[fd].inode].stat)
        } else {
            Err(__WASI_EBADF)
        }
    }

    /// The attributes that a descriptor shows of itself.
    pub open spec fn fdstat_result(self, fd: __wasi_fd_t) -> Result<
        __wasi_fdstat_t,
        __wasi_errno_t,
    > {
        if self.fds.contains_key(fd) {
            Ok(
                __wasi_fdstat_t {
                    fs_filetype: fd_file_type(self.kind(self.fds[fd].inode)),
                    fs_flags: self.fds[fd].flags,
                    fs_rights_base: self.fds[fd].rights,
                    fs_rights_inheriting: self.fds[fd].rights_inheriting,
                },
            )
        } else {
            Err(__WASI_EBADF)
        }
    }

    /// What the guest learns of a preopened directory.
    pub open spec fn prestat_result(self, fd: __wasi_fd_t) -> Result<
        __wasi_prestat_t,
        __wasi_errno_t,
    > {
        let inode = self.inodes[self.fds[fd].inode];
        if self.fds.contains_key(fd) && inode.is_preopened {
            let length = encode_utf8(inode.name).len() % 0x1_0000_0000 + 1;
            Ok(
                __wasi_prestat_t {
                    pr_type: __WASI_PREOPENTYPE_DIR,
                    u: __wasi_prestat_u {
                        dir: __wasi_prestat_u_dir_t { pr_name_len: length as u32 },
                    },
                },
            )
        } else {
            Err(__WASI_EBADF)
        }
    }

    /// What flushing a descriptor comes to, given whether the host could flush the file.
    pub open spec fn flush_result(self, fd: __wasi_fd_t, flushed: bool) -> Result<
        (),
        __wasi_errno_t,
    > {
        match self.flush_target(fd) {
            Ok(Some(_)) => if flushed {
                Ok(())
            } else {
                Err(__WASI_EIO)
            },
            Ok(None) => Ok(()),
            Err(e) => Err(e),
        }
    }

    /// Flushing stops short of an open symbolic link, for which nothing is defined.
    pub open spec fn flush_defined(self, fd: __wasi_fd_t) -> bool {
        ||| fd == __WASI_STDIN_FILENO
        ||| fd == __WASI_STDOUT_FILENO
        ||| fd == __WASI_STDERR_FILENO
        ||| !self.fds.contains_key(fd)
        ||| self.fds[fd].rights & __WASI_RIGHT_FD_DATASYNC == 0
        ||| self.live(self.fds[fd].inode) && !(self.kind(self.fds[fd].inode) is Symlink)
    }
}

/// The file type that a descriptor shows for an inode.
pub open spec fn fd_file_type(kind: KindView) -> __wasi_filetype_t {
    match kind {
        KindView::File { .. } => __WASI_FILETYPE_REGULAR_FILE,
        KindView::Dir { .. } => __WASI_FILETYPE_DIRECTORY,
        KindView::Symlink { .. } => __WASI_FILETYPE_SYMBOLIC_LINK,
        _ => __WASI_FILETYPE_UNKNOWN,
    }
}

/// A new inode whose kind refers only to inodes that exist keeps every reference
/// leading somewhere.
pub proof fn lemma_new_inode_wf(fs: FsView, inode: Inode, value: InodeView)
    requires
        fs.wf(),
        !fs.live(inode),
        fs.kind_live(value.kind),
    ensures
        fs.with_new_inode(inode, value).wf(),
{
    let after = fs.with_new_inode(inode, value);
    assert forall|k: int| 0 <= k < after.preopen_fds.len() implies after.is_base(
        #[trigger] after.preopen_fds[k],
    ) by {
        assert(fs.is_base(fs.preopen_fds[k]));
    }
    assert forall|i: Inode| #[trigger] after.inodes.contains_key(i) implies after.kind_live(
        after.kind(i),
    ) by {
        if i != inode {
            assert(fs.inodes.contains_key(i));
            assert(fs.kind_live(fs.kind(i)));
        }
    }
}

/// A new entry that leads to an inode keeps every reference leading somewhere.
pub proof fn lemma_entry_wf(fs: FsView, dir: Inode, name: Seq<char>, inode: Inode)
    requires
        fs.wf(),
        fs.live(dir),
        fs.live(inode),
    ensures
        fs.with_entry(dir, name, inode).wf(),
{
    let after = fs.with_entry(dir, name, inode);
    assert forall|k: int| 0 <= k < after.preopen_fds.len() implies after.is_base(
        #[trigger] after.preopen_fds[k],
    ) by {
        assert(fs.is_base(fs.preopen_fds[k]));
    }
    assert forall|i: Inode| #[trigger] after.inodes.contains_key(i) implies after.kind_live(
        after.kind(i),
    ) by {
        assert(fs.inodes.contains_key(i));
        assert(fs.kind_live(fs.kind(i)));
        assert forall|n: Seq<char>| #[trigger]
            after.kind(i).entries().contains_key(n) implies after.live(
            after.kind(i).entries()[n],
        ) by {
            if !(i == dir && n == name) {
                assert(fs.kind(i).entries().contains_key(n));
            }
        }
    }
}

/// A descriptor that is opened on an inode keeps every reference leading somewhere.
pub proof fn lemma_new_fd_wf(
    fs: FsView,
    rights: __wasi_rights_t,
    rights_inheriting: __wasi_rights_t,
    flags: __wasi_fdflags_t,
    inode: Inode,
)
    requires
        fs.wf(),
        fs.numbered(),
        fs.live(inode),
    ensures
        fs.with_new_fd(rights, rights_inheriting, flags, inode).wf(),
{
    let after = fs.with_new_fd(rights, rights_inheriting, flags, inode);
    assert forall|k: int| 0 <= k < after.preopen_fds.len() implies after.is_base(
        #[trigger] after.preopen_fds[k],
    ) by {
        assert(fs.is_base(fs.preopen_fds[k]));
        assert(fs.fds.contains_key(fs.preopen_fds[k]));
    }
    assert forall|i: Inode| #[trigger] after.inodes.contains_key(i) implies after.kind_live(
        after.kind(i),
    ) by {
        assert(fs.inodes.contains_key(i));
    }
}

/// A kind that takes the place of one with the same parent and entries keeps every
/// reference leading somewhere.
pub proof fn lemma_same_links_wf(fs: FsView, inode: Inode, value: InodeView)
    requires
        fs.wf(),
        fs.live(inode),
        value.kind.has_entries() == fs.kind(inode).has_entries(),
        value.kind.parent() == fs.kind(inode).parent(),
        value.kind.entries() == fs.kind(inode).entries(),
    ensures
        (FsView { inodes: fs.inodes.insert(inode, value), ..fs }).wf(),
{
    let after = FsView { inodes: fs.inodes.insert(inode, value), ..fs };
    assert forall|k: int| 0 <= k < after.preopen_fds.len() implies after.is_base(
        #[trigger] after.preopen_fds[k],
    ) by {
        assert(fs.is_base(fs.preopen_fds[k]));
    }
    assert forall|i: Inode| #[trigger] after.inodes.contains_key(i) implies after.kind_live(
        after.kind(i),
    ) by {
        assert(fs.inodes.contains_key(i));
        assert(fs.kind_live(fs.kind(i)));
    }
}

/// An inode that nothing refers to can go.
pub proof fn lemma_remove_wf(fs: FsView, inode: Inode)
    requires
        fs.wf(),
        !fs.refers_to(inode),
    ensures
        fs.without_inode(inode).wf(),
{
    let after = fs.without_inode(inode);
    assert forall|k: int| 0 <= k < after.preopen_fds.len() implies after.is_base(
        #[trigger] after.preopen_fds[k],
    ) by {
        assert(fs.is_base(fs.preopen_fds[k]));
        assert(fs.fds.contains_key(fs.preopen_fds[k]));
    }
    assert forall|i: Inode| #[trigger] after.inodes.contains_key(i) implies after.kind_live(
        after.kind(i),
    ) by {
        assert(fs.inodes.contains_key(i));
        assert(fs.kind_live(fs.kind(i)));
        assert forall|n: Seq<char>| #[trigger]
            after.kind(i).entries().contains_key(n) implies after.live(
            after.kind(i).entries()[n],
        ) by {
            assert(fs.kind(i).entries().contains_key(n));
        }
    }
}

} // verus!

//! The filesystem: its inodes, its file descriptors and what is done to them.
use crate::arena::{
    arena_contents, arena_generation, arena_index, arena_index_mut, arena_insert, arena_remove,
};
use crate::host::{stat_from_answer, FileAttributes, StatAnswer, StatSource};
use crate::inode::{Fd, FileHandle, Inode, InodeVal, InodeView, Kind, KindView};
use crate::model::{
    fd_file_type, lemma_entry_wf, lemma_new_fd_wf, lemma_new_inode_wf, lemma_remove_wf,
    lemma_same_links_wf, FsView,
};
use crate::path::{push, root_dir};
use crate::wasi::{
    __wasi_errno_t, __wasi_fd_t, __wasi_fdflags_t, __wasi_fdstat_t, __wasi_filesize_t,
    __wasi_filestat_t, __wasi_prestat_t, __wasi_rights_t, default_filestat, PrestatEnum,
    WasiFsError, __WASI_EACCES, __WASI_EBADF, __WASI_EINVAL, __WASI_EIO, __WASI_EISDIR,
    __WASI_FILETYPE_DIRECTORY, __WASI_FILETYPE_REGULAR_FILE, __WASI_FILETYPE_SYMBOLIC_LINK,
    __WASI_FILETYPE_UNKNOWN, __WASI_PREOPENTYPE_DIR, __WASI_RIGHT_FD_DATASYNC,
    __WASI_STDERR_FILENO, __WASI_STDIN_FILENO, __WASI_STDOUT_FILENO,
};
use generational_arena::Arena;
use std::collections::HashMap;
use vstd::hash_map::StringHashMap;
use vstd::prelude::*;
use vstd::utf8::encode_utf8;

verus! {

broadcast use vstd::std_specs::hash::group_hash_axioms;

/// The descriptor of the virtual root.
pub const VIRTUAL_ROOT_FD: __wasi_fd_t = 3;

/// All the rights enabled.
pub const ALL_RIGHTS: __wasi_rights_t = 0x1FFFFFFF;

/// The filesystem of one guest.
///
/// Modifying these fields directly may break what the contracts rely on.
pub struct WasiFs {
    pub preopen_fds: Vec<u32>,
    pub name_map: StringHashMap<Inode>,
    pub inodes: Arena<InodeVal>,
    pub fd_map: HashMap<u32, Fd>,
    pub next_fd: u32,
    pub inode_counter: u64,
    pub stdout: FileHandle,
    pub stderr: FileHandle,
    pub stdin: FileHandle,
}

/// The filesystem together with the guest's arguments and environment.
pub struct WasiState<'a> {
    pub fs: WasiFs,
    pub args: &'a [Vec<u8>],
    pub envs: &'a [Vec<u8>],
}

impl View for WasiFs {
    type V = FsView;

    open spec fn view(&self) -> FsView {
        FsView {
            preopen_fds: self.preopen_fds@,
            name_map: self.name_map@,
            inodes: arena_contents(self.inodes).map_values(|v: InodeVal| v@),
            generation: arena_generation(self.inodes),
            fds: self.fd_map@,
            next_fd: self.next_fd,
            next_ino: self.inode_counter,
            stdout: self.stdout,
            stderr: self.stderr,
            stdin: self.stdin,
        }
    }
}

impl WasiFs {
    /// Hands out the next inode number.
    pub(crate) fn get_next_inode_index(&mut self) -> (next: u64)
        requires
            old(self)@.next_ino < u64::MAX,
        ensures
            next == old(self)@.next_ino,
            final(self)@ == (FsView { next_ino: (old(self)@.next_ino + 1) as u64, ..old(self)@ }),
    {
        let next: u64 = self.inode_counter;
        self.inode_counter = next + 1;
        next
    }

    /// Puts a value into the arena, as an inode of its own.
    fn insert_inode(&mut self, value: InodeVal) -> (inode: Inode)
        ensures
            old(self)@.is_free(inode),
            final(self)@ == (FsView {
                inodes: old(self)@.inodes.insert(inode, value@),
                ..old(self)@
            }),
    {
        let inode = arena_insert(&mut self.inodes, value);
        assert(self@.inodes =~= old(self)@.inodes.insert(inode, value@));
        inode
    }

    /// Opens a user-supplied file in the directory specified with the name and
    /// flags given. The root is immutable after creation and takes no file.
    pub fn open_file_at(
        &mut self,
        base: __wasi_fd_t,
        file: FileHandle,
        attributes: FileAttributes,
        name: String,
        rights: __wasi_rights_t,
        rights_inheriting: __wasi_rights_t,
        flags: __wasi_fdflags_t,
    ) -> (r: Result<__wasi_fd_t, WasiFsError>)
        requires
            old(self)@.fd_live(base),
            old(self)@.open_result(base, name@) is Ok ==> old(self)@.next_ino < u64::MAX
                && old(self)@.next_fd < u32::MAX,
        ensures
            r == old(self)@.open_result(base, name@),
            r is Ok <==> old(self)@.fds.contains_key(base) && (old(self)@.kind(
                old(self)@.fds[base].inode,
            ) matches KindView::Dir { entries, .. } && !entries.contains_key(name@)),
            r matches Ok(fd) ==> fd == old(self)@.next_fd,
            r is Err ==> final(self)@ == old(self)@,
            r matches Ok(fd) ==> {
                let inode = final(self)@.fds[fd].inode;
                &&& old(self)@.is_free(inode)
                &&& final(self)@ == old(self)@.with_opened(
                    base,
                    file,
                    attributes,
                    name@,
                    rights,
                    rights_inheriting,
                    flags,
                    inode,
                )
            },
            old(self)@.numbered() ==> final(self)@.numbered(),
            old(self)@.wf() && old(self)@.numbered() ==> final(self)@.wf(),
    {
        let base_inode = match self.get_fd(base) {
            Ok(fd) => fd.inode,
            Err(e) => {
                return Err(WasiFsError::from_wasi_err(e));
            },
        };
        let (exists, is_root) = match &arena_index(&self.inodes, base_inode).kind {
            Kind::Dir { entries, .. } => (entries.contains_key(name.as_str()), false),
            Kind::Root { entries } => (entries.contains_key(name.as_str()), true),
            _ => {
                return Err(WasiFsError::BaseNotDirectory);
            },
        };
        if exists {
            return Err(WasiFsError::AlreadyExists);
        }
        if is_root {
            // the root is immutable after creation
            return Err(WasiFsError::IOError);
        }
        let kind = Kind::File { handle: Some(file), path: String::new() };
        let answer = StatAnswer::Attributes(attributes);
        let inode = match self.create_inode(kind, false, name.clone(), answer) {
            Ok(inode) => inode,
            Err(_) => {
                return Err(WasiFsError::IOError);
            },
        };
        let ghost made = self@;
        self.insert_entry(base_inode, name, inode);
        proof {
            if old(self)@.wf() && old(self)@.numbered() {
                lemma_new_inode_wf(old(self)@, inode, made.inodes[inode]);
                lemma_entry_wf(made, base_inode, name@, inode);
            }
        }
        match self.create_fd(rights, rights_inheriting, flags, inode) {
            Ok(fd) => Ok(fd),
            Err(e) => Err(WasiFsError::from_wasi_err(e)),
        }
    }

    /// Adds an entry to a directory or to the root.
    pub(crate) fn insert_entry(&mut self, dir: Inode, name: String, inode: Inode)
        requires
            old(self)@.live(dir),
        ensures
            final(self)@ == old(self)@.with_entry(dir, name@, inode),
    {
        let value = arena_index_mut(&mut self.inodes, dir);
        match &mut value.kind {
            Kind::Dir { entries, .. } => {
                entries.insert(name, inode);
            },
            Kind::Root { entries } => {
                entries.insert(name, inode);
            },
            _ => {},
        }
        assert(self@.inodes =~= old(self)@.with_entry(dir, name@, inode).inodes);
    }

    /// Changes the backing of a given file descriptor.
    /// Returns the old backing.
    pub fn swap_file(&mut self, fd: __wasi_fd_t, file: FileHandle) -> (r: Result<
        Option<FileHandle>,
        WasiFsError,
    >)
        requires
            fd > __WASI_STDERR_FILENO ==> old(self)@.fd_live(fd),
        ensures
            r == old(self)@.swap_result(fd),
            r is Ok <==> fd <= 2 || old(self)@.fds.contains_key(fd) && old(self)@.kind(
                old(self)@.fds[fd].inode,
            ) is File,
            r is Ok && fd > 2 ==> r->Ok_0 == old(self)@.kind(old(self)@.fds[fd].inode)->handle,
            final(self)@ == old(self)@.swapped(fd, file),
            old(self)@.numbered() ==> final(self)@.numbered(),
            old(self)@.wf() ==> final(self)@.wf(),
    {
        if fd == __WASI_STDIN_FILENO {
            let ret = self.stdin;
            self.stdin = file;
            Ok(Some(ret))
        } else if fd == __WASI_STDOUT_FILENO {
            let ret = self.stdout;
            self.stdout = file;
            Ok(Some(ret))
        } else if fd == __WASI_STDERR_FILENO {
            let ret = self.stderr;
            self.stderr = file;
            Ok(Some(ret))
        } else {
            let base_inode = match self.get_fd(fd) {
                Ok(fd) => fd.inode,
                Err(e) => {
                    return Err(WasiFsError::from_wasi_err(e));
                },
            };
            let value = arena_index_mut(&mut self.inodes, base_inode);
            let r = match &mut value.kind {
                Kind::File { handle, .. } => {
                    let ret = *handle;
                    *handle = Some(file);
                    Ok(ret)
                },
                _ => Err(WasiFsError::NotAFile),
            };
            assert(r is Err ==> self@.inodes =~= old(self)@.inodes);
            assert(r is Ok ==> self@.inodes =~= old(self)@.with_kind(
                base_inode,
                KindView::File {
                    handle: Some(file),
                    path: old(self)@.kind(base_inode)->File_path,
                },
            ).inodes);
            proof {
                if old(self)@.wf() {
                    lemma_same_links_wf(old(self)@, base_inode, self@.inodes[base_inode]);
                }
            }
            r
        }
    }

    /// The descriptor's record.
    pub fn get_fd(&self, fd: __wasi_fd_t) -> (r: Result<&Fd, __wasi_errno_t>)
        ensures
            r == (if self@.fds.contains_key(fd) {
                Ok(&self@.fds[fd])
            } else {
                Err(__WASI_EBADF)
            }),
    {
        match self.fd_map.get(&fd) {
            Some(record) => Ok(record),
            None => Err(__WASI_EBADF),
        }
    }

    /// Which open file to ask for the size that a descriptor's inode shows.
    pub fn resync_request(&self, fd: __wasi_fd_t) -> (r: Result<FileHandle, __wasi_errno_t>)
        requires
            self@.fd_live(fd),
        ensures
            r == self@.resync_target(fd),
    {
        let inode = match self.get_fd(fd) {
            Ok(record) => record.inode,
            Err(e) => {
                return Err(e);
            },
        };
        match &arena_index(&self.inodes, inode).kind {
            Kind::File { handle, .. } => match handle {
                Some(h) => Ok(*h),
                None => Err(__WASI_EBADF),
            },
            Kind::Dir { .. } => Err(__WASI_EISDIR),
            Kind::Root { .. } => Err(__WASI_EISDIR),
            _ => Err(__WASI_EINVAL),
        }
    }

    /// Refreshes the size of an open file, given the size that the file reports.
    pub fn filestat_resync_size(&mut self, fd: __wasi_fd_t, size: u64) -> (r: Result<
        __wasi_filesize_t,
        __wasi_errno_t,
    >)
        requires
            old(self)@.fd_live(fd),
        ensures
            match old(self)@.resync_target(fd) {
                Ok(_) => {
                    &&& r == Ok::<__wasi_filesize_t, __wasi_errno_t>(size)
                    &&& final(self)@ == old(self)@.resynced(fd, size)
                },
                Err(e) => {
                    &&& r == Err::<__wasi_filesize_t, __wasi_errno_t>(e)
                    &&& final(self)@ == old(self)@
                },
            },
            r == old(self)@.resync_result(fd, size),
            old(self)@.numbered() ==> final(self)@.numbered(),
            old(self)@.wf() ==> final(self)@.wf(),
    {
        match self.resync_request(fd) {
            Ok(_) => {},
            Err(e) => {
                return Err(e);
            },
        }
        let inode = match self.get_fd(fd) {
            Ok(record) => record.inode,
            Err(e) => {
                return Err(e);
            },
        };
        let value = arena_index_mut(&mut self.inodes, inode);
        value.stat.st_size = size;
        assert(self@.inodes =~= old(self)@.resynced(fd, size).inodes);
        proof {
            if old(self)@.wf() {
                lemma_same_links_wf(old(self)@, inode, self@.inodes[inode]);
            }
        }
        Ok(size)
    }

    /// The attributes of the file behind a descriptor.
    pub fn filestat_fd(&self, fd: __wasi_fd_t) -> (r: Result<__wasi_filestat_t, __wasi_errno_t>)
        requires
            self@.fd_live(fd),
        ensures
            r == (if self@.fds.contains_key(fd) {
                Ok(self@.inodes[self@.fds[fd].inode].stat)
            } else {
                Err(__WASI_EBADF)
            }),
            r == self@.filestat_result(fd),
    {
        match self.get_fd(fd) {
            Ok(record) => Ok(arena_index(&self.inodes, record.inode).stat),
            Err(e) => Err(e),
        }
    }

    /// The attributes of a descriptor.
    pub fn fdstat(&self, fd: __wasi_fd_t) -> (r: Result<__wasi_fdstat_t, __wasi_errno_t>)
        requires
            self@.fd_live(fd),
        ensures
            r == (if self@.fds.contains_key(fd) {
                Ok(
                    __wasi_fdstat_t {
                        fs_filetype: fd_file_type(self@.kind(self@.fds[fd].inode)),
                        fs_flags: self@.fds[fd].flags,
                        fs_rights_base: self@.fds[fd].rights,
                        fs_rights_inheriting: self@.fds[fd].rights_inheriting,
                    },
                )
            } else {
                Err(__WASI_EBADF)
            }),
            r == self@.fdstat_result(fd),
    {
        let record = match self.get_fd(fd) {
            Ok(record) => record,
            Err(e) => {
                return Err(e);
            },
        };
        Ok(
            __wasi_fdstat_t {
                fs_filetype: match &arena_index(&self.inodes, record.inode).kind {
                    Kind::File { .. } => __WASI_FILETYPE_REGULAR_FILE,
                    Kind::Dir { .. } => __WASI_FILETYPE_DIRECTORY,
                    Kind::Symlink { .. } => __WASI_FILETYPE_SYMBOLIC_LINK,
                    _ => __WASI_FILETYPE_UNKNOWN,
                },
                fs_flags: record.flags,
                fs_rights_base: record.rights,
                fs_rights_inheriting: record.rights_inheriting,
            },
        )
    }

    /// What the guest learns of a preopened directory. The length counts the bytes
    /// of the name and a terminator; it is kept in 32 bits.
    pub fn prestat_fd(&self, fd: __wasi_fd_t) -> (r: Result<__wasi_prestat_t, __wasi_errno_t>)
        requires
            self@.fd_live(fd),
            self@.fds.contains_key(fd) && self@.inodes[self@.fds[fd].inode].is_preopened
                ==> encode_utf8(self@.inodes[self@.fds[fd].inode].name).len() % 0x1_0000_0000
                < u32::MAX,
        ensures
            match r {
                Ok(prestat) => {
                    let inode = self@.inodes[self@.fds[fd].inode];
                    &&& self@.fds.contains_key(fd)
                    &&& inode.is_preopened
                    &&& prestat.pr_type == __WASI_PREOPENTYPE_DIR
                    &&& prestat.u.dir.pr_name_len == encode_utf8(inode.name).len() % 0x1_0000_0000
                        + 1
                },
                Err(e) => {
                    &&& e == __WASI_EBADF
                    &&& self@.fds.contains_key(fd)
                        ==> !self@.inodes[self@.fds[fd].inode].is_preopened
                },
            },
            r == self@.prestat_result(fd),
    {
        let inode = match self.get_fd(fd) {
            Ok(record) => record.inode,
            Err(e) => {
                return Err(e);
            },
        };
        let inode_val = arena_index(&self.inodes, inode);
        if inode_val.is_preopened {
            let len: usize = inode_val.name.as_str().as_bytes().len();
            let low: u64 = len as u64 % 0x1_0000_0000u64;
            Ok(
                __wasi_prestat_t {
                    pr_type: __WASI_PREOPENTYPE_DIR,
                    u: PrestatEnum::Dir { pr_name_len: low as u32 + 1 }.untagged(),
                },
            )
        } else {
            Err(__WASI_EBADF)
        }
    }

    /// Which open file to flush for a descriptor, if there is one to flush.
    pub fn flush_request(&self, fd: __wasi_fd_t) -> (r: Result<Option<FileHandle>, __wasi_errno_t>)
        requires
            self@.flush_defined(fd),
        ensures
            r == self@.flush_target(fd),
    {
        if fd == __WASI_STDIN_FILENO {
            Ok(None)
        } else if fd == __WASI_STDOUT_FILENO {
            Ok(Some(self.stdout))
        } else if fd == __WASI_STDERR_FILENO {
            Ok(Some(self.stderr))
        } else {
            let record = match self.get_fd(fd) {
                Ok(record) => record,
                Err(e) => {
                    return Err(e);
                },
            };
            if record.rights & __WASI_RIGHT_FD_DATASYNC == 0 {
                return Err(__WASI_EACCES);
            }
            match &arena_index(&self.inodes, record.inode).kind {
                Kind::File { handle: Some(handle), .. } => Ok(Some(*handle)),
                Kind::Dir { .. } => Err(__WASI_EISDIR),
                Kind::Buffer { .. } => Ok(None),
                _ => Err(__WASI_EIO),
            }
        }
    }

    /// Flushes a descriptor, given whether the host could flush the file that
    /// [`WasiFs::flush_request`] names.
    pub fn flush(&self, fd: __wasi_fd_t, flushed: bool) -> (r: Result<(), __wasi_errno_t>)
        requires
            self@.flush_defined(fd),
        ensures
            r == (match self@.flush_target(fd) {
                Ok(Some(_)) => if flushed {
                    Ok(())
                } else {
                    Err(__WASI_EIO)
                },
                Ok(None) => Ok(()),
                Err(e) => Err(e),
            }),
            r == self@.flush_result(fd, flushed),
    {
        match self.flush_request(fd) {
            Ok(Some(_)) => if flushed {
                Ok(())
            } else {
                Err(__WASI_EIO)
            },
            Ok(None) => Ok(()),
            Err(e) => Err(e),
        }
    }

    /// Creates an inode and inserts it given a kind and some extra data. The answer
    /// is the host's to [`WasiFs::stat_request`] for the kind.
    pub fn create_inode(
        &mut self,
        kind: Kind,
        is_preopened: bool,
        name: String,
        answer: StatAnswer,
    ) -> (r: Result<Inode, __wasi_errno_t>)
        requires
            old(self)@.base_known(kind@),
            old(self)@.answered(kind@, answer),
            old(self)@.stat_for_kind(kind@, answer) is Some ==> old(self)@.next_ino < u64::MAX,
        ensures
            match r {
                Ok(inode) => {
                    &&& old(self)@.stat_for_kind(kind@, answer) is Some
                    &&& old(self)@.is_free(inode)
                    &&& final(self)@ == old(self)@.with_new_inode(
                        inode,
                        InodeView {
                            stat: __wasi_filestat_t {
                                st_ino: old(self)@.next_ino,
                                ..old(self)@.stat_for_kind(kind@, answer)->0
                            },
                            is_preopened,
                            name: name@,
                            kind: kind@,
                        },
                    )
                },
                Err(e) => {
                    &&& old(self)@.stat_for_kind(kind@, answer) is None
                    &&& e == __WASI_EIO
                    &&& final(self)@ == old(self)@
                },
            },
            match old(self)@.creation(kind@, answer) {
                Ok(_) => r is Ok,
                Err(e) => r is Err && r->Err_0 == e,
            },
            r matches Ok(inode) ==> final(self)@.inodes[inode] == old(self)@.next_inode(
                kind@,
                is_preopened,
                name@,
                old(self)@.stat_for_kind(kind@, answer)->0,
            ),
            old(self)@.numbered() ==> final(self)@.numbered(),
            old(self)@.wf() && old(self)@.kind_live(kind@) ==> final(self)@.wf(),
    {
        let mut stat = match self.get_stat_for_kind(&kind, answer) {
            Some(stat) => stat,
            None => {
                return Err(__WASI_EIO);
            },
        };
        stat.st_ino = self.get_next_inode_index();
        let inode = self.insert_inode(InodeVal { stat, is_preopened, name, kind });
        proof {
            if old(self)@.wf() && old(self)@.kind_live(kind@) {
                lemma_new_inode_wf(old(self)@, inode, self@.inodes[inode]);
            }
        }
        Ok(inode)
    }

    /// Creates an inode and inserts it given a kind; does not assume that the file
    /// exists.
    pub fn create_inode_with_default_stat(
        &mut self,
        kind: Kind,
        is_preopened: bool,
        name: String,
    ) -> (inode: Inode)
        requires
            old(self)@.next_ino < u64::MAX,
        ensures
            old(self)@.is_free(inode),
            final(self)@ == old(self)@.with_new_inode(
                inode,
                InodeView {
                    stat: __wasi_filestat_t { st_ino: old(self)@.next_ino, ..default_filestat() },
                    is_preopened,
                    name: name@,
                    kind: kind@,
                },
            ),
            final(self)@.inodes[inode] == old(self)@.next_inode(
                kind@,
                is_preopened,
                name@,
                default_filestat(),
            ),
            old(self)@.numbered() ==> final(self)@.numbered(),
            old(self)@.wf() && old(self)@.kind_live(kind@) ==> final(self)@.wf(),
    {
        let mut stat: __wasi_filestat_t = __wasi_filestat_t::default();
        stat.st_ino = self.get_next_inode_index();
        let inode = self.insert_inode(InodeVal { stat, is_preopened, name, kind });
        proof {
            if old(self)@.wf() && old(self)@.kind_live(kind@) {
                lemma_new_inode_wf(old(self)@, inode, self@.inodes[inode]);
            }
        }
        inode
    }

    /// Opens a descriptor on an inode. It gets the next number.
    pub fn create_fd(
        &mut self,
        rights: __wasi_rights_t,
        rights_inheriting: __wasi_rights_t,
        flags: __wasi_fdflags_t,
        inode: Inode,
    ) -> (r: Result<__wasi_fd_t, __wasi_errno_t>)
        requires
            old(self)@.next_fd < u32::MAX,
        ensures
            r == Ok::<__wasi_fd_t, __wasi_errno_t>(old(self)@.next_fd),
            final(self)@ == old(self)@.with_new_fd(rights, rights_inheriting, flags, inode),
            old(self)@.numbered() ==> final(self)@.numbered(),
            old(self)@.wf() && old(self)@.numbered() && old(self)@.live(inode)
                ==> final(self)@.wf(),
    {
        let idx: u32 = self.next_fd;
        self.next_fd = idx + 1;
        self.fd_map.insert(idx, Fd { rights, rights_inheriting, flags, offset: 0, inode });
        proof {
            if old(self)@.wf() && old(self)@.numbered() && old(self)@.live(inode) {
                lemma_new_fd_wf(old(self)@, rights, rights_inheriting, flags, inode);
            }
        }
        Ok(idx)
    }

    /// Removes an inode. It is the caller's part to see that all references to the
    /// inode have been removed from the filesystem.
    ///
    /// Returns true if the inode existed and was removed.
    pub fn remove_inode(&mut self, inode: Inode) -> (existed: bool)
        requires
            old(self)@.live(inode) ==> old(self)@.generation < u64::MAX,
        ensures
            existed == old(self)@.live(inode),
            existed == old(self)@.removal(inode),
            final(self)@ == old(self)@.without_inode(inode),
            old(self)@.numbered() ==> final(self)@.numbered(),
            old(self)@.wf() && !old(self)@.refers_to(inode) ==> final(self)@.wf(),
    {
        let existed = arena_remove(&mut self.inodes, inode).is_some();
        assert(self@.inodes =~= old(self)@.without_inode(inode).inodes);
        proof {
            if old(self)@.wf() && !old(self)@.refers_to(inode) {
                lemma_remove_wf(old(self)@, inode);
            }
        }
        existed
    }

    /// Creates the inode of the virtual root.
    pub(crate) fn create_virtual_root(&mut self) -> (inode: Inode)
        requires
            old(self)@.next_ino < u64::MAX,
        ensures
            old(self)@.is_free(inode),
            final(self)@ == old(self)@.with_new_inode(
                inode,
                root_inode(old(self)@.next_ino, Map::empty()),
            ),
    {
        let mut stat: __wasi_filestat_t = __wasi_filestat_t::default();
        stat.st_filetype = __WASI_FILETYPE_DIRECTORY;
        stat.st_ino = self.get_next_inode_index();
        let root_kind = Kind::Root { entries: StringHashMap::new() };
        proof {
            reveal_strlit("/");
        }
        let name = "/".to_owned();
        assert(name@ =~= root_dir());
        self.insert_inode(InodeVal { stat, is_preopened: true, name, kind: root_kind })
    }

    /// What to ask the host for the attributes of an inode of this kind.
    pub fn stat_request(&self, kind: &Kind) -> (source: Option<StatSource>)
        requires
            self@.base_known(kind@),
        ensures
            match source {
                Some(s) => self@.stat_source(kind@) == Some(s@),
                None => self@.stat_source(kind@) is None,
            },
    {
        match kind {
            Kind::File { handle, path } => match handle {
                Some(h) => Some(StatSource::Handle(*h)),
                None => Some(StatSource::Metadata(path.clone())),
            },
            Kind::Dir { path, .. } => Some(StatSource::Metadata(path.clone())),
            Kind::Symlink { base_po_dir, path_to_symlink, .. } => {
                let base_po_inode = match self.fd_map.get(base_po_dir) {
                    Some(record) => record.inode,
                    None => {
                        return None;
                    },
                };
                match &arena_index(&self.inodes, base_po_inode).kind {
                    Kind::Dir { path, .. } => Some(
                        StatSource::SymlinkMetadata(push(path.as_str(), path_to_symlink.as_str())),
                    ),
                    _ => Some(StatSource::SymlinkMetadata(path_to_symlink.clone())),
                }
            },
            _ => None,
        }
    }

    /// The attributes of an inode of this kind, given the host's answer to
    /// [`WasiFs::stat_request`].
    pub fn get_stat_for_kind(&self, kind: &Kind, answer: StatAnswer) -> (stat: Option<
        __wasi_filestat_t,
    >)
        requires
            self@.base_known(kind@),
            self@.answered(kind@, answer),
        ensures
            stat == self@.stat_for_kind(kind@, answer),
    {
        match self.stat_request(kind) {
            Some(_) => stat_from_answer(answer),
            None => None,
        }
    }
}

/// The inode of the virtual root.
pub open spec fn root_inode(ino: u64, entries: Map<Seq<char>, Inode>) -> InodeView {
    InodeView {
        stat: __wasi_filestat_t {
            st_filetype: __WASI_FILETYPE_DIRECTORY,
            st_ino: ino,
            ..default_filestat()
        },
        is_preopened: true,
        name: root_dir(),
        kind: KindView::Root { entries },
    }
}

} // verus!

//! What every operation on a descriptor comes to, told by what the descriptor is open on.
use crate::fs::VIRTUAL_ROOT_FD;
use crate::host::FileAttributes;
use crate::inode::{FileHandle, Inode, KindView};
use crate::laws::law_fresh_preopens;
use crate::model::{fd_file_type, FsView};
use crate::preopen::{is_fresh, DirView};
use crate::wasi::{
    __wasi_errno_t, __wasi_fd_t, __wasi_fdflags_t, __wasi_filestat_t, __wasi_rights_t, WasiFsError,
};
use vstd::prelude::*;
use vstd::utf8::encode_utf8;

verus! {

/// Opening a file by name succeeds in every directory that lacks the name, preopened or
/// not, and on the next descriptor; every failure has its own cause.
pub proof fn law_when_a_file_can_be_opened(fs: FsView, base: __wasi_fd_t, name: Seq<char>)
    requires
        fs.fd_live(base),
    ensures
        !fs.fds.contains_key(base) <==> fs.open_result(base, name) == Err::<
            __wasi_fd_t,
            WasiFsError,
        >(WasiFsError::InvalidFd),
        fs.fds.contains_key(base) ==> match fs.inodes[fs.fds[base].inode].kind {
            KindView::Dir { entries, .. } => fs.open_result(base, name) == if entries.contains_key(
                name,
            ) {
                Err::<__wasi_fd_t, WasiFsError>(WasiFsError::AlreadyExists)
            } else {
                Ok::<__wasi_fd_t, WasiFsError>(fs.next_fd)
            },
            KindView::Root { entries } => fs.open_result(base, name) == if entries.contains_key(
                name,
            ) {
                Err::<__wasi_fd_t, WasiFsError>(WasiFsError::AlreadyExists)
            } else {
                Err::<__wasi_fd_t, WasiFsError>(WasiFsError::IOError)
            },
            _ => fs.open_result(base, name) == Err::<__wasi_fd_t, WasiFsError>(
                WasiFsError::BaseNotDirectory,
            ),
        },
{
}

/// Whether a file can be opened by name depends on nothing but what the descriptor is open
/// on: two filesystems in which it is open on directories with the same names agree, however
/// the directories came to be there and whatever rights the descriptors have.
pub proof fn law_opening_asks_only_for_the_name(
    fs: FsView,
    other: FsView,
    base: __wasi_fd_t,
    there: __wasi_fd_t,
    name: Seq<char>,
)
    requires
        fs.wf(),
        other.wf(),
        fs.fds.contains_key(base),
        other.fds.contains_key(there),
        fs.kind(fs.fds[base].inode) is Dir,
        other.kind(other.fds[there].inode) is Dir,
        fs.kind(fs.fds[base].inode)->Dir_entries.contains_key(name) == other.kind(
            other.fds[there].inode,
        )->Dir_entries.contains_key(name),
    ensures
        fs.open_result(base, name) is Ok == other.open_result(there, name) is Ok,
{
}

/// A file that was opened by name shows what it reported of itself, has the next number
/// and the name, and is open with the rights and flags that were given, at its beginning.
/// The directory keeps its path and parent and all that it had, and gains the name.
pub proof fn law_opened_file_shows_its_attributes(
    fs: FsView,
    base: __wasi_fd_t,
    file: FileHandle,
    attributes: FileAttributes,
    name: Seq<char>,
    rights: __wasi_rights_t,
    rights_inheriting: __wasi_rights_t,
    flags: __wasi_fdflags_t,
    inode: Inode,
)
    requires
        fs.wf(),
        fs.fds.contains_key(base),
        fs.kind(fs.fds[base].inode) is Dir,
        !fs.kind(fs.fds[base].inode)->Dir_entries.contains_key(name),
        !fs.live(inode),
    ensures
        ({
            let after = fs.with_opened(
                base,
                file,
                attributes,
                name,
                rights,
                rights_inheriting,
                flags,
                inode,
            );
            let made = after.inodes[inode];
            let record = after.fds[fs.next_fd];
            let dir = fs.fds[base].inode;
            &&& after.fds.contains_key(fs.next_fd)
            &&& record.inode == inode
            &&& record.rights == rights
            &&& record.rights_inheriting == rights_inheriting
            &&& record.flags == flags
            &&& record.offset == 0
            &&& after.next_fd == (fs.next_fd + 1) as u32
            &&& after.next_ino == (fs.next_ino + 1) as u64
            &&& made.stat.st_ino == fs.next_ino
            &&& made.stat.st_filetype == 4
            &&& made.stat.st_size == attributes.size
            &&& made.stat.st_atim == attributes.last_accessed
            &&& made.stat.st_mtim == attributes.last_modified
            &&& made.stat.st_ctim == attributes.created_time
            &&& made.stat.st_nlink == 1
            &&& made.stat.st_dev == 0
            &&& !made.is_preopened
            &&& made.name == name
            &&& made.kind matches KindView::File { handle, path: host_path }
            &&& handle == Some(file)
            &&& host_path.len() == 0
            &&& after.kind(dir) matches KindView::Dir { parent, path, entries }
            &&& parent == fs.kind(dir).parent()
            &&& path == fs.kind(dir)->Dir_path
            &&& entries.contains_key(name)
            &&& entries[name] == inode
            &&& forall|other: Seq<char>|
                other != name ==> (#[trigger] entries.contains_key(other) <==> fs.kind(
                    dir,
                )->Dir_entries.contains_key(other))
            &&& forall|other: Seq<char>|
                #![trigger entries[other]]
                fs.kind(dir)->Dir_entries.contains_key(other) ==> entries[other] == fs.kind(
                    dir,
                )->Dir_entries[other]
            &&& after.preopen_fds == fs.preopen_fds
            &&& after.name_map == fs.name_map
            &&& after.stdin == fs.stdin && after.stdout == fs.stdout && after.stderr == fs.stderr
        }),
{
}

/// Above the standard descriptors a swap succeeds on every open file descriptor of a
/// regular file, whether or not a host file is behind it, and returns what was behind it;
/// anything else is not a file, and a descriptor that is not open is not usable.
pub proof fn law_when_a_file_can_be_swapped(fs: FsView, fd: __wasi_fd_t)
    requires
        fd > 2,
    ensures
        fs.swap_result(fd) is Ok <==> fs.fds.contains_key(fd) && fs.inodes[fs.fds[fd].inode].kind
            is File,
        fs.fds.contains_key(fd) ==> match fs.inodes[fs.fds[fd].inode].kind {
            KindView::File { handle, .. } => fs.swap_result(fd) == Ok::<
                Option<FileHandle>,
                WasiFsError,
            >(handle),
            _ => fs.swap_result(fd) == Err::<Option<FileHandle>, WasiFsError>(
                WasiFsError::NotAFile,
            ),
        },
        !fs.fds.contains_key(fd) ==> fs.swap_result(fd) == Err::<Option<FileHandle>, WasiFsError>(
            WasiFsError::InvalidFd,
        ),
{
}

/// After a swap the new file is behind the descriptor, and nothing else has changed: not
/// the file's path or attributes, and no other inode or descriptor.
pub proof fn law_swapped_file_is_there(fs: FsView, fd: __wasi_fd_t, file: FileHandle, other: Inode)
    requires
        fd > 2,
        fs.fds.contains_key(fd),
        fs.live(fs.fds[fd].inode),
        fs.kind(fs.fds[fd].inode) is File,
    ensures
        ({
            let inode = fs.fds[fd].inode;
            let after = fs.swapped(fd, file);
            &&& after.kind(inode) matches KindView::File { handle, path }
            &&& handle == Some(file)
            &&& path == fs.kind(inode)->File_path
            &&& after.inodes[inode].stat == fs.inodes[inode].stat
            &&& after.inodes[inode].name == fs.inodes[inode].name
            &&& after.inodes[inode].is_preopened == fs.inodes[inode].is_preopened
            &&& after.live(other) == fs.live(other)
            &&& other != inode ==> after.inodes[other] == fs.inodes[other]
            &&& after == (FsView { inodes: after.inodes, ..fs })
        }),
{
}

/// The three standard descriptors are swapped whether or not they are open: the first is
/// standard input, then output, then errors. Only that one changes.
pub proof fn law_standard_files_are_swapped(fs: FsView, file: FileHandle)
    ensures
        fs.swap_result(0) == Ok::<Option<FileHandle>, WasiFsError>(Some(fs.stdin)),
        fs.swap_result(1) == Ok::<Option<FileHandle>, WasiFsError>(Some(fs.stdout)),
        fs.swap_result(2) == Ok::<Option<FileHandle>, WasiFsError>(Some(fs.stderr)),
        fs.swapped(0, file) == (FsView { stdin: file, ..fs }),
        fs.swapped(1, file) == (FsView { stdout: file, ..fs }),
        fs.swapped(2, file) == (FsView { stderr: file, ..fs }),
{
}

/// A size can be refreshed exactly where a descriptor is open on an open file; it is asked
/// of that file. A file that is not open is a bad descriptor, like one that is not there; a
/// directory and the root are directories; of anything else it is an invalid request.
pub proof fn law_when_a_size_can_be_refreshed(fs: FsView, fd: __wasi_fd_t)
    ensures
        !fs.fds.contains_key(fd) ==> fs.resync_target(fd) == Err::<FileHandle, __wasi_errno_t>(8),
        fs.fds.contains_key(fd) ==> match fs.inodes[fs.fds[fd].inode].kind {
            KindView::File { handle, .. } => match handle {
                Some(h) => fs.resync_target(fd) == Ok::<FileHandle, __wasi_errno_t>(h),
                None => fs.resync_target(fd) == Err::<FileHandle, __wasi_errno_t>(8),
            },
            KindView::Dir { .. } | KindView::Root { .. } => fs.resync_target(fd) == Err::<
                FileHandle,
                __wasi_errno_t,
            >(31),
            _ => fs.resync_target(fd) == Err::<FileHandle, __wasi_errno_t>(28),
        },
{
}

/// Refreshing a size returns the size wherever there is a file to ask, and otherwise why
/// there is none.
pub proof fn law_refreshing_returns_the_size(fs: FsView, fd: __wasi_fd_t, size: u64)
    ensures
        fs.resync_target(fd) is Ok ==> fs.resync_result(fd, size) == Ok::<u64, __wasi_errno_t>(
            size,
        ),
        fs.resync_target(fd) matches Err(e) ==> fs.resync_result(fd, size) == Err::<
            u64,
            __wasi_errno_t,
        >(e),
{
}

/// A size that is refreshed is the only thing that changes.
pub proof fn law_refreshing_changes_only_the_size(
    fs: FsView,
    fd: __wasi_fd_t,
    size: u64,
    other: Inode,
)
    requires
        fs.resync_target(fd) is Ok,
        fs.fd_live(fd),
    ensures
        ({
            let inode = fs.fds[fd].inode;
            let before = fs.inodes[inode];
            let after = fs.resynced(fd, size);
            let now = after.inodes[inode];
            &&& after == (FsView { inodes: after.inodes, ..fs })
            &&& after.live(other) == fs.live(other)
            &&& other != inode ==> after.inodes[other] == fs.inodes[other]
            &&& now.kind == before.kind
            &&& now.name == before.name
            &&& now.is_preopened == before.is_preopened
            &&& now.stat.st_size == size
            &&& now.stat.st_dev == before.stat.st_dev
            &&& now.stat.st_ino == before.stat.st_ino
            &&& now.stat.st_filetype == before.stat.st_filetype
            &&& now.stat.st_nlink == before.stat.st_nlink
            &&& now.stat.st_atim == before.stat.st_atim
            &&& now.stat.st_mtim == before.stat.st_mtim
            &&& now.stat.st_ctim == before.stat.st_ctim
        }),
{
}

/// What is flushed: nothing for standard input; standard output and the standard errors
/// themselves. Above those, a descriptor that is not open is bad; one that lacks the right
/// to sync, the lowest, is denied, whatever it is open on; an open file is flushed, a buffer
/// needs no flushing, a directory is a directory, and the rest is an input error.
pub proof fn law_what_is_flushed(fs: FsView, fd: __wasi_fd_t)
    ensures
        fs.flush_target(0) == Ok::<Option<FileHandle>, __wasi_errno_t>(None),
        fs.flush_target(1) == Ok::<Option<FileHandle>, __wasi_errno_t>(Some(fs.stdout)),
        fs.flush_target(2) == Ok::<Option<FileHandle>, __wasi_errno_t>(Some(fs.stderr)),
        fd > 2 && !fs.fds.contains_key(fd) ==> fs.flush_target(fd) == Err::<
            Option<FileHandle>,
            __wasi_errno_t,
        >(8),
        fd > 2 && fs.fds.contains_key(fd) && fs.fds[fd].rights % 2 == 0 ==> fs.flush_target(fd)
            == Err::<Option<FileHandle>, __wasi_errno_t>(2),
        fd > 2 && fs.fds.contains_key(fd) && fs.fds[fd].rights % 2 == 1 ==> match fs.inodes[
            fs.fds[fd].inode
        ].kind {
            KindView::File { handle: Some(h), .. } => fs.flush_target(fd) == Ok::<
                Option<FileHandle>,
                __wasi_errno_t,
            >(Some(h)),
            KindView::File { handle: None, .. } => fs.flush_target(fd) == Err::<
                Option<FileHandle>,
                __wasi_errno_t,
            >(29),
            KindView::Dir { .. } => fs.flush_target(fd) == Err::<
                Option<FileHandle>,
                __wasi_errno_t,
            >(31),
            KindView::Buffer { .. } => fs.flush_target(fd) == Ok::<
                Option<FileHandle>,
                __wasi_errno_t,
            >(None),
            KindView::Root { .. } => fs.flush_target(fd) == Err::<
                Option<FileHandle>,
                __wasi_errno_t,
            >(29),
            _ => true,
        },
{
    let rights = fs.fds[fd].rights;
    assert((rights & 1 == 0) == (rights % 2 == 0)) by (bit_vector);
}

/// A new descriptor has the next number and is what was asked for, at its beginning; the
/// numbers go on from there, and nothing but descriptors changes.
pub proof fn law_new_fd_is_what_was_asked_for(
    fs: FsView,
    rights: __wasi_rights_t,
    rights_inheriting: __wasi_rights_t,
    flags: __wasi_fdflags_t,
    inode: Inode,
    other: __wasi_fd_t,
)
    requires
        fs.next_fd < u32::MAX,
    ensures
        ({
            let after = fs.with_new_fd(rights, rights_inheriting, flags, inode);
            let record = after.fds[fs.next_fd];
            &&& after.fds.contains_key(fs.next_fd)
            &&& record.rights == rights
            &&& record.rights_inheriting == rights_inheriting
            &&& record.flags == flags
            &&& record.offset == 0
            &&& record.inode == inode
            &&& after.next_fd == fs.next_fd + 1
            &&& other != fs.next_fd ==> after.fds.contains_key(other) == fs.fds.contains_key(other)
            &&& other != fs.next_fd ==> after.fds[other] == fs.fds[other]
            &&& after == (FsView { fds: after.fds, next_fd: after.next_fd, ..fs })
        }),
{
}

/// To a descriptor a file is a regular file, whether or not it is open, a directory is one,
/// a link is one, and the root and buffers are of no known type.
pub proof fn law_what_a_descriptor_shows(kind: KindView)
    ensures
        kind is File <==> fd_file_type(kind) == 4,
        kind is Dir <==> fd_file_type(kind) == 3,
        kind is Symlink <==> fd_file_type(kind) == 7,
        kind is Root || kind is Buffer <==> fd_file_type(kind) == 0,
{
}

/// A descriptor shows the attributes of its file, all descriptors of one inode the same, and
/// its own rights and flags. One that is not open is bad.
pub proof fn law_descriptors_of_one_inode_agree(fs: FsView, fd: __wasi_fd_t, other: __wasi_fd_t)
    ensures
        fs.filestat_result(fd) is Ok <==> fs.fds.contains_key(fd),
        fs.fdstat_result(fd) is Ok <==> fs.fds.contains_key(fd),
        !fs.fds.contains_key(fd) ==> fs.filestat_result(fd)->Err_0 == 8 && fs.fdstat_result(
            fd,
        )->Err_0 == 8 && fs.prestat_result(fd) is Err && fs.prestat_result(fd)->Err_0 == 8,
        fs.fds.contains_key(fd) ==> fs.filestat_result(fd)->Ok_0
            == fs.inodes[fs.fds[fd].inode].stat,
        fs.fds.contains_key(fd) && fs.fds.contains_key(other) && fs.fds[fd].inode
            == fs.fds[other].inode ==> {
            &&& fs.filestat_result(fd) == fs.filestat_result(other)
            &&& fs.prestat_result(fd) == fs.prestat_result(other)
            &&& fs.fdstat_result(fd)->Ok_0.fs_filetype == fs.fdstat_result(other)->Ok_0.fs_filetype
        },
{
}

/// A new descriptor shows the rights and flags that it was opened with, the type of its
/// inode and the attributes that the inode has.
pub proof fn law_new_fd_shows_its_rights(
    fs: FsView,
    rights: __wasi_rights_t,
    rights_inheriting: __wasi_rights_t,
    flags: __wasi_fdflags_t,
    inode: Inode,
)
    ensures
        ({
            let after = fs.with_new_fd(rights, rights_inheriting, flags, inode);
            let shown = after.fdstat_result(fs.next_fd);
            &&& shown is Ok
            &&& shown->Ok_0.fs_rights_base == rights
            &&& shown->Ok_0.fs_rights_inheriting == rights_inheriting
            &&& shown->Ok_0.fs_flags == flags
            &&& fs.kind(inode) is File <==> shown->Ok_0.fs_filetype == 4
            &&& fs.kind(inode) is Dir <==> shown->Ok_0.fs_filetype == 3
            &&& fs.kind(inode) is Symlink <==> shown->Ok_0.fs_filetype == 7
            &&& fs.kind(inode) is Root || fs.kind(inode) is Buffer <==> shown->Ok_0.fs_filetype
                == 0
            &&& after.filestat_result(fs.next_fd) == Ok::<__wasi_filestat_t, __wasi_errno_t>(
                fs.inodes[inode].stat,
            )
        }),
{
}

/// A size that was refreshed is the size that the descriptor shows from then on.
pub proof fn law_refreshed_size_is_shown(fs: FsView, fd: __wasi_fd_t, size: u64)
    requires
        fs.resync_target(fd) is Ok,
    ensures
        fs.resynced(fd, size).filestat_result(fd) is Ok,
        fs.resynced(fd, size).filestat_result(fd)->Ok_0.st_size == size,
        fs.resynced(fd, size).fdstat_result(fd) == fs.fdstat_result(fd),
        fs.resync_result(fd, size) == Ok::<u64, __wasi_errno_t>(
            fs.resynced(fd, size).filestat_result(fd)->Ok_0.st_size,
        ),
{
}

/// The guest learns of a descriptor's directory exactly where the directory was preopened:
/// that it is a directory, and the length of its name in bytes and one more.
pub proof fn law_what_is_told_of_preopened_directories(fs: FsView, fd: __wasi_fd_t)
    ensures
        ({
            let told = fs.prestat_result(fd);
            let inode = fs.inodes[fs.fds[fd].inode];
            let length = encode_utf8(inode.name).len();
            &&& told is Ok <==> fs.fds.contains_key(fd) && inode.is_preopened
            &&& told is Err ==> told->Err_0 == 8
            &&& told is Ok ==> told->Ok_0.pr_type == 0
            &&& told is Ok && length < u32::MAX ==> told->Ok_0.u.dir.pr_name_len == length + 1
        }),
{
}

/// A directory that was preopened when the filesystem was made is told of, by the name that
/// it was given, and its descriptor is a directory's with all rights.
pub proof fn law_fresh_preopens_are_told(fs: FsView, dirs: Seq<DirView>, k: int)
    requires
        is_fresh(fs, dirs),
        VIRTUAL_ROOT_FD + dirs.len() < u32::MAX,
        0 <= k < dirs.len(),
        encode_utf8(dirs[k].name).len() < u32::MAX,
    ensures
        fs.prestat_result((4 + k) as u32) is Ok,
        fs.prestat_result((4 + k) as u32)->Ok_0.u.dir.pr_name_len == encode_utf8(
            dirs[k].name,
        ).len() + 1,
        fs.fdstat_result((4 + k) as u32) is Ok,
        fs.fdstat_result((4 + k) as u32)->Ok_0.fs_filetype == 3,
        fs.fdstat_result((4 + k) as u32)->Ok_0.fs_flags == 0,
        fs.fdstat_result((4 + k) as u32)->Ok_0.fs_rights_base == 0x1FFFFFFF,
        fs.fdstat_result((4 + k) as u32)->Ok_0.fs_rights_inheriting == 0x1FFFFFFF,
{
    law_fresh_preopens(fs, dirs, k);
    assert(fs.fds.contains_key((4 + k) as u32));
}

/// Flushing succeeds where nothing is to be flushed, and otherwise exactly where the host
/// could flush the file; what cannot be flushed at all fails whatever the host says.
pub proof fn law_flushing_is_up_to_the_host(fs: FsView, fd: __wasi_fd_t, flushed: bool)
    ensures
        fs.flush_target(fd) matches Ok(Some(_)) ==> fs.flush_result(fd, flushed) is Ok == flushed,
        fs.flush_target(fd) matches Ok(Some(_)) ==> fs.flush_result(fd, false) == Err::<
            (),
            __wasi_errno_t,
        >(29),
        fs.flush_target(fd) matches Ok(None) ==> fs.flush_result(fd, flushed) is Ok,
        fs.flush_target(fd) matches Err(e) ==> fs.flush_result(fd, flushed) == Err::<
            (),
            __wasi_errno_t,
        >(e),
        fs.flush_result(0, flushed) is Ok,
{
}

} // verus!

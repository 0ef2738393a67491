//! What holds of the filesystem as a whole, from one call to the next.
use crate::fs::{ALL_RIGHTS, VIRTUAL_ROOT_FD};
use crate::host::FileAttributes;
use crate::inode::{FileHandle, Inode, InodeView, KindView};
use crate::model::{fd_file_type, FsView};
use crate::path::{path_join, path_push};
use crate::preopen::{is_fresh, nth_preopen, DirView, FIRST_INODE_NUMBER};
use crate::tree::{ancestor, climb_ends, names_down, up};
use crate::wasi::{
    __wasi_errno_t, __wasi_fd_t, __wasi_fdflags_t, __wasi_rights_t, WasiFsError,
    __WASI_FILETYPE_REGULAR_FILE, __WASI_RIGHT_FD_DATASYNC,
};
use vstd::prelude::*;

verus! {

/// A filesystem that has just been made is in order: every reference leads
/// somewhere, numbers are handed out in order, and every directory has a parent
/// that was there before it.
pub proof fn law_fresh_is_in_order(fs: FsView, dirs: Seq<DirView>)
    requires
        is_fresh(fs, dirs),
        VIRTUAL_ROOT_FD + dirs.len() < u32::MAX,
    ensures
        fs.wf(),
        fs.numbered(),
        fs.rooted(),
{
    let n = dirs.len();
    let root = nth_preopen(fs, 0);
    assert(fs.inodes.contains_key(root));
    assert forall|k: int| 0 <= k <= n implies {
        let inode = #[trigger] nth_preopen(fs, k);
        &&& fs.inodes.contains_key(inode)
        &&& fs.inodes[inode].stat.st_ino == FIRST_INODE_NUMBER + k
        &&& k > 0 ==> fs.kind(inode) is Dir
        &&& k > 0 ==> fs.kind(inode).parent() == Some(root)
        &&& k > 0 ==> fs.kind(inode).entries() == Map::<Seq<char>, Inode>::empty()
    } by {
        if k > 0 {
            assert(dirs[k - 1] == dirs[k - 1]);
        }
    }
    assert forall|fd: u32| #[trigger] fs.fds.contains_key(fd) implies fs.live(
        fs.fds[fd].inode,
    ) by {
        let k = fd - VIRTUAL_ROOT_FD;
        assert(fs.fds[fd].inode == nth_preopen(fs, k));
    }
    assert forall|k: int| 0 <= k < fs.preopen_fds.len() implies fs.is_base(
        #[trigger] fs.preopen_fds[k],
    ) by {
        let fd = (VIRTUAL_ROOT_FD + k) as u32;
        assert(fs.preopen_fds[k] == fd);
        assert(fs.fds.contains_key(fd));
        assert(fs.fds[fd].inode == nth_preopen(fs, k));
    }
    assert forall|i: Inode| #[trigger] fs.inodes.contains_key(i) implies fs.kind_live(
        fs.kind(i),
    ) by {
        let k = choose|k: int| 0 <= k <= n && i == #[trigger] nth_preopen(fs, k);
        if k == 0 {
            assert forall|name: Seq<char>| #[trigger]
                fs.kind(i).entries().contains_key(name) implies fs.live(
                fs.kind(i).entries()[name],
            ) by {
                let j = choose|j: int| 0 <= j < n && #[trigger] dirs[j].name == name;
                assert(fs.kind(root).entries()[dirs[j].name] == nth_preopen(fs, j + 1));
            }
        }
    }
    assert forall|i: Inode, j: Inode|
        #![trigger fs.inodes[i], fs.inodes[j]]
        fs.inodes.contains_key(i) && fs.inodes.contains_key(j) && fs.inodes[i].stat.st_ino
            == fs.inodes[j].stat.st_ino implies i == j by {
        let k = choose|k: int| 0 <= k <= n && i == #[trigger] nth_preopen(fs, k);
        let m = choose|m: int| 0 <= m <= n && j == #[trigger] nth_preopen(fs, m);
    }
    assert forall|i: Inode| #[trigger] fs.inodes.contains_key(i) implies fs.inodes[i].stat.st_ino
        < fs.next_ino && (fs.kind(i) is Dir ==> fs.has_elder_parent(i)) by {
        let k = choose|k: int| 0 <= k <= n && i == #[trigger] nth_preopen(fs, k);
    }
}

/// In a filesystem that has just been made, each directory that was asked for is
/// preopened under its name with all rights, the root is its parent, and the root
/// has it as an entry.
pub proof fn law_fresh_preopens(fs: FsView, dirs: Seq<DirView>, k: int)
    requires
        is_fresh(fs, dirs),
        VIRTUAL_ROOT_FD + dirs.len() < u32::MAX,
        0 <= k < dirs.len(),
    ensures
        ({
            let fd = (VIRTUAL_ROOT_FD + 1 + k) as u32;
            let inode = fs.fds[fd].inode;
            let root = fs.fds[VIRTUAL_ROOT_FD].inode;
            &&& fs.fds.contains_key(fd)
            &&& fs.preopen_fds.contains(fd)
            &&& fs.fds[fd].rights == ALL_RIGHTS
            &&& fs.inodes[inode].is_preopened
            &&& fs.inodes[inode].name == dirs[k].name
            &&& fs.kind(inode) matches KindView::Dir { parent, path, entries }
            &&& parent == Some(root)
            &&& path == dirs[k].path
            &&& entries == Map::<Seq<char>, Inode>::empty()
            &&& fs.kind(root) matches KindView::Root { entries: names }
            &&& names.contains_key(dirs[k].name)
            &&& names[dirs[k].name] == inode
        }),
{
    let fd = (VIRTUAL_ROOT_FD + 1 + k) as u32;
    assert(nth_preopen(fs, k + 1) == fs.fds[fd].inode);
    assert(fs.preopen_fds[k + 1] == fd);
    assert(fs.fds.contains_key(fd));
    assert(fs.kind(nth_preopen(fs, 0)).entries().contains_key(dirs[k].name));
}

/// A new descriptor takes no other's place: its number was free, and every
/// descriptor that was open still is what it was.
pub proof fn law_new_fd_is_fresh(
    fs: FsView,
    rights: __wasi_rights_t,
    rights_inheriting: __wasi_rights_t,
    flags: __wasi_fdflags_t,
    inode: Inode,
)
    requires
        fs.numbered(),
    ensures
        ({
            let after = fs.with_new_fd(rights, rights_inheriting, flags, inode);
            &&& !fs.fds.contains_key(fs.next_fd)
            &&& after.fds.contains_key(fs.next_fd)
            &&& after.fds[fs.next_fd].inode == inode
            &&& forall|fd: u32| #[trigger]
                fs.fds.contains_key(fd) ==> after.fds.contains_key(fd) && after.fds[fd]
                    == fs.fds[fd]
        }),
{
}

/// A new inode gets a number that no inode has, higher than every other.
pub proof fn law_new_inode_number(fs: FsView, inode: Inode, value: InodeView, other: Inode)
    requires
        fs.numbered(),
        fs.live(other),
        !fs.live(inode),
        value.stat.st_ino == fs.next_ino,
    ensures
        fs.with_new_inode(inode, value).inodes[other].stat.st_ino < fs.with_new_inode(
            inode,
            value,
        ).inodes[inode].stat.st_ino,
{
}

/// Every directory keeps a parent that was there before it when an inode is made,
/// provided that a directory is made with a parent.
pub proof fn law_new_inode_rooted(fs: FsView, inode: Inode, value: InodeView)
    requires
        fs.rooted(),
        fs.numbered(),
        !fs.live(inode),
        value.stat.st_ino == fs.next_ino,
        fs.kind_rooted(value.kind),
    ensures
        fs.with_new_inode(inode, value).rooted(),
{
    let after = fs.with_new_inode(inode, value);
    assert forall|i: Inode| #[trigger]
        after.inodes.contains_key(i) && after.kind(i) is Dir implies after.has_elder_parent(i) by {
        if i != inode {
            assert(fs.inodes.contains_key(i));
            assert(fs.has_elder_parent(i));
        }
    }
}

/// Every directory keeps a parent that was there before it when an entry is added.
pub proof fn law_entry_rooted(fs: FsView, dir: Inode, name: Seq<char>, inode: Inode)
    requires
        fs.rooted(),
        fs.live(dir),
    ensures
        fs.with_entry(dir, name, inode).rooted(),
{
    let after = fs.with_entry(dir, name, inode);
    assert forall|i: Inode| #[trigger]
        after.inodes.contains_key(i) && after.kind(i) is Dir implies after.has_elder_parent(i) by {
        assert(fs.inodes.contains_key(i));
        assert(fs.has_elder_parent(i));
    }
}

/// Swapping a descriptor's file a second time returns what the first swap put
/// there, and only the last swap shows.
pub proof fn law_swap_returns_what_was_put(
    fs: FsView,
    fd: __wasi_fd_t,
    first: FileHandle,
    second: FileHandle,
)
    requires
        fs.swap_result(fd) is Ok,
    ensures
        fs.swapped(fd, first).swap_result(fd) == Ok::<Option<FileHandle>, WasiFsError>(Some(first)),
        fs.swapped(fd, first).swapped(fd, second) == fs.swapped(fd, second),
{
    assert(fs.swapped(fd, first).swapped(fd, second) =~= fs.swapped(fd, second));
}

/// Swapping a descriptor's file back undoes the swap.
pub proof fn law_swap_back_restores(fs: FsView, fd: __wasi_fd_t, file: FileHandle)
    requires
        fs.fd_live(fd),
        fs.swap_result(fd) matches Ok(old_file) && old_file is Some,
    ensures
        fs.swapped(fd, file).swapped(fd, fs.swap_result(fd)->Ok_0->0) == fs,
{
    let back = fs.swapped(fd, file).swapped(fd, fs.swap_result(fd)->Ok_0->0);
    if fd > 2 {
        let inode = fs.fds[fd].inode;
        assert(back.inodes[inode] =~= fs.inodes[inode]);
        assert(back.inodes =~= fs.inodes);
    }
    assert(back =~= fs);
}

/// A swap that fails changes nothing.
pub proof fn law_failed_swap_changes_nothing(fs: FsView, fd: __wasi_fd_t, file: FileHandle)
    requires
        fs.swap_result(fd) is Err,
    ensures
        fs.swapped(fd, file) == fs,
{
}

/// A file that was opened by name is there: its directory has it under the name,
/// its descriptor shows the rights it was opened with and the attributes that the
/// file reported, what is behind the descriptor is the file, and the name cannot be
/// opened again.
pub proof fn law_opened_file_is_there(
    fs: FsView,
    base: __wasi_fd_t,
    file: FileHandle,
    attributes: FileAttributes,
    name: Seq<char>,
    rights: __wasi_rights_t,
    rights_inheriting: __wasi_rights_t,
    flags: __wasi_fdflags_t,
    inode: Inode,
)
    requires
        fs.numbered(),
        fs.next_fd > 2,
        fs.open_result(base, name) is Ok,
        !fs.live(inode),
    ensures
        ({
            let fd = fs.open_result(base, name)->Ok_0;
            let after = fs.with_opened(
                base,
                file,
                attributes,
                name,
                rights,
                rights_inheriting,
                flags,
                inode,
            );
            &&& !fs.fds.contains_key(fd)
            &&& after.fds[fd].inode == inode
            &&& after.fds[fd].rights == rights
            &&& after.fds[fd].rights_inheriting == rights_inheriting
            &&& after.fds[fd].flags == flags
            &&& fd_file_type(after.kind(inode)) == __WASI_FILETYPE_REGULAR_FILE
            &&& after.inodes[inode].stat.st_size == attributes.size
            &&& after.swap_result(fd) == Ok::<Option<FileHandle>, WasiFsError>(Some(file))
            &&& after.resync_target(fd) == Ok::<FileHandle, __wasi_errno_t>(file)
            &&& after.kind(fs.fds[base].inode).entries() == fs.kind(
                fs.fds[base].inode,
            ).entries().insert(name, inode)
            &&& after.open_result(base, name) == Err::<__wasi_fd_t, WasiFsError>(
                WasiFsError::AlreadyExists,
            )
        }),
{
}

/// A file that is opened by name leaves everything else as it was: every other
/// inode, and of its directory all but the entries.
pub proof fn law_opening_leaves_the_rest(
    fs: FsView,
    base: __wasi_fd_t,
    file: FileHandle,
    attributes: FileAttributes,
    name: Seq<char>,
    rights: __wasi_rights_t,
    rights_inheriting: __wasi_rights_t,
    flags: __wasi_fdflags_t,
    inode: Inode,
    other: Inode,
)
    requires
        fs.open_result(base, name) is Ok,
        !fs.live(inode),
        fs.live(other),
    ensures
        ({
            let after = fs.with_opened(
                base,
                file,
                attributes,
                name,
                rights,
                rights_inheriting,
                flags,
                inode,
            );
            &&& after.live(other)
            &&& other != fs.fds[base].inode ==> after.inodes[other] == fs.inodes[other]
            &&& after.inodes[other].stat == fs.inodes[other].stat
            &&& after.inodes[other].name == fs.inodes[other].name
            &&& after.inodes[other].is_preopened == fs.inodes[other].is_preopened
            &&& after.kind(other).parent() == fs.kind(other).parent()
        }),
{
}

/// The root is immutable after creation: swapping a file, refreshing a size, making an
/// inode, opening a descriptor and opening a file by name all leave it as it is.
pub proof fn law_root_is_immutable(
    fs: FsView,
    root: Inode,
    fd: __wasi_fd_t,
    file: FileHandle,
    attributes: FileAttributes,
    name: Seq<char>,
    inode: Inode,
    value: InodeView,
    rights: __wasi_rights_t,
    rights_inheriting: __wasi_rights_t,
    flags: __wasi_fdflags_t,
)
    requires
        fs.live(root),
        fs.kind(root) is Root,
        !fs.live(inode),
    ensures
        fs.swapped(fd, file).inodes[root] == fs.inodes[root],
        fs.resync_target(fd) is Ok ==> fs.resynced(fd, attributes.size).inodes[root]
            == fs.inodes[root],
        fs.with_new_inode(inode, value).inodes[root] == fs.inodes[root],
        fs.with_new_fd(rights, rights_inheriting, flags, inode).inodes[root] == fs.inodes[root],
        fs.open_result(fd, name) is Ok ==> fs.with_opened(
            fd,
            file,
            attributes,
            name,
            rights,
            rights_inheriting,
            flags,
            inode,
        ).inodes[root] == fs.inodes[root],
{
}

/// The size that a file reports is the size that its descriptor shows from then on,
/// and which file to ask stays the same.
pub proof fn law_resync_shows_the_size(fs: FsView, fd: __wasi_fd_t, size: u64)
    requires
        fs.resync_target(fd) is Ok,
    ensures
        ({
            let inode = fs.fds[fd].inode;
            let after = fs.resynced(fd, size);
            &&& after.inodes[after.fds[fd].inode].stat.st_size == size
            &&& after.inodes[inode].stat.st_ino == fs.inodes[inode].stat.st_ino
            &&& after.resync_target(fd) == fs.resync_target(fd)
        }),
{
}

/// The file that a descriptor's size is asked of is the file that flushing the
/// descriptor flushes, where the descriptor has the right to.
pub proof fn law_resync_and_flush_agree(fs: FsView, fd: __wasi_fd_t)
    requires
        fd > 2,
        fs.resync_target(fd) is Ok,
        fs.fds[fd].rights & __WASI_RIGHT_FD_DATASYNC != 0,
    ensures
        fs.flush_target(fd) == Ok::<Option<FileHandle>, __wasi_errno_t>(
            Some(fs.resync_target(fd)->Ok_0),
        ),
{
}

/// Where every directory has a parent that was there before it, the way up from
/// any inode ends, after no more steps than its number.
pub proof fn law_climb_ends(fs: FsView, base: Inode, inode: Inode) -> (steps: nat)
    requires
        fs.rooted(),
        fs.live(inode),
    ensures
        climb_ends(fs, base, inode, steps),
        steps <= fs.inodes[inode].stat.st_ino,
    decreases fs.inodes[inode].stat.st_ino,
{
    if inode == base || !(fs.kind(inode) is Dir) {
        assert(ancestor(fs, inode, 0) == inode);
        0
    } else {
        assert(fs.inodes.contains_key(inode));
        assert(fs.has_elder_parent(inode));
        let p = fs.kind(inode).parent()->0;
        let m = law_climb_ends(fs, base, p);
        assert forall|k: nat| k <= m implies #[trigger] ancestor(fs, inode, k + 1) == ancestor(
            fs,
            p,
            k,
        ) by {
            lemma_ancestor_of_parent(fs, inode, k);
        }
        assert(ancestor(fs, inode, m + 1) == ancestor(fs, p, m));
        assert forall|k: nat| k < m + 1 implies {
            &&& #[trigger] ancestor(fs, inode, k) != base
            &&& fs.live(ancestor(fs, inode, k))
            &&& fs.kind(ancestor(fs, inode, k)) is Dir
        } by {
            if k == 0 {
            } else {
                let j = (k - 1) as nat;
                assert(ancestor(fs, inode, j + 1) == ancestor(fs, p, j));
            }
        }
        m + 1
    }
}

/// The ancestors of a directory's parent are those of the directory, one step on.
proof fn lemma_ancestor_of_parent(fs: FsView, inode: Inode, k: nat)
    ensures
        ancestor(fs, inode, k + 1) == ancestor(fs, up(fs, inode), k),
    decreases k,
{
    if k == 0 {
        assert(ancestor(fs, inode, 0) == inode);
        assert(ancestor(fs, inode, 1) == up(fs, ancestor(fs, inode, 0)));
    } else {
        lemma_ancestor_of_parent(fs, inode, (k - 1) as nat);
    }
}

/// A directory lies one step deeper than its parent, and its path is its parent's
/// with its name pushed.
pub proof fn law_one_deeper_than_parent(
    fs: FsView,
    base: Inode,
    inode: Inode,
    parent: Inode,
    steps: nat,
)
    requires
        inode != base,
        fs.live(inode),
        fs.kind(inode).parent() == Some(parent),
        climb_ends(fs, base, parent, steps),
    ensures
        climb_ends(fs, base, inode, steps + 1),
        ancestor(fs, inode, steps + 1) == ancestor(fs, parent, steps),
        path_join(names_down(fs, inode, steps + 1)) == path_push(
            path_join(names_down(fs, parent, steps)),
            fs.inodes[inode].name,
        ),
{
    assert forall|k: nat| k <= steps implies #[trigger] ancestor(fs, inode, k + 1) == ancestor(
        fs,
        parent,
        k,
    ) by {
        lemma_ancestor_of_parent(fs, inode, k);
    }
    assert(ancestor(fs, inode, 0) == inode);
    assert forall|k: nat| k < steps + 1 implies {
        &&& #[trigger] ancestor(fs, inode, k) != base
        &&& fs.live(ancestor(fs, inode, k))
        &&& fs.kind(ancestor(fs, inode, k)) is Dir
    } by {
        if k > 0 {
            let j = (k - 1) as nat;
            assert(ancestor(fs, inode, j + 1) == ancestor(fs, parent, j));
        }
    }
    let names = names_down(fs, inode, steps + 1);
    assert(names.last() == fs.inodes[inode].name);
    assert(names.drop_last() =~= names_down(fs, parent, steps)) by {
        assert forall|k: int| 0 <= k < steps implies #[trigger] names.drop_last()[k] == names_down(
            fs,
            parent,
            steps,
        )[k] by {
            let j = (steps - 1 - k) as nat;
            assert(ancestor(fs, inode, j + 1) == ancestor(fs, parent, j));
        }
    }
}

/// Swapping a file keeps every directory below a parent that was there before it.
pub proof fn law_swap_rooted(fs: FsView, fd: __wasi_fd_t, file: FileHandle)
    requires
        fs.rooted(),
        fs.fd_live(fd),
    ensures
        fs.swapped(fd, file).rooted(),
{
    let after = fs.swapped(fd, file);
    assert forall|i: Inode| #[trigger]
        after.inodes.contains_key(i) && after.kind(i) is Dir implies after.has_elder_parent(i) by {
        assert(fs.inodes.contains_key(i));
        assert(fs.has_elder_parent(i));
    }
}

/// Opening a descriptor and refreshing a size keep every directory below a parent that
/// was there before it.
pub proof fn law_new_fd_and_resync_rooted(
    fs: FsView,
    rights: __wasi_rights_t,
    rights_inheriting: __wasi_rights_t,
    flags: __wasi_fdflags_t,
    inode: Inode,
    fd: __wasi_fd_t,
    size: u64,
)
    requires
        fs.rooted(),
        fs.fd_live(fd),
    ensures
        fs.with_new_fd(rights, rights_inheriting, flags, inode).rooted(),
        fs.resync_target(fd) is Ok ==> fs.resynced(fd, size).rooted(),
{
    let opened = fs.with_new_fd(rights, rights_inheriting, flags, inode);
    assert forall|i: Inode| #[trigger]
        opened.inodes.contains_key(i) && opened.kind(i) is Dir implies opened.has_elder_parent(
        i,
    ) by {
        assert(fs.inodes.contains_key(i));
        assert(fs.has_elder_parent(i));
    }
    let after = fs.resynced(fd, size);
    assert forall|i: Inode| #[trigger]
        after.inodes.contains_key(i) && after.kind(i) is Dir && fs.resync_target(
            fd,
        ) is Ok implies after.has_elder_parent(i) by {
        assert(fs.inodes.contains_key(i));
        assert(fs.has_elder_parent(i));
    }
}

/// Opening a file by name keeps every directory below a parent that was there before
/// it.
pub proof fn law_open_rooted(
    fs: FsView,
    base: __wasi_fd_t,
    file: FileHandle,
    attributes: FileAttributes,
    name: Seq<char>,
    rights: __wasi_rights_t,
    rights_inheriting: __wasi_rights_t,
    flags: __wasi_fdflags_t,
    inode: Inode,
)
    requires
        fs.rooted(),
        fs.numbered(),
        fs.is_base(base),
        !fs.live(inode),
    ensures
        fs.with_opened(
            base,
            file,
            attributes,
            name,
            rights,
            rights_inheriting,
            flags,
            inode,
        ).rooted(),
{
    let value = fs.file_inode(file, attributes, name);
    let made = fs.with_new_inode(inode, value);
    law_new_inode_rooted(fs, inode, value);
    law_entry_rooted(made, fs.fds[base].inode, name, inode);
    let named = made.with_entry(fs.fds[base].inode, name, inode);
    let after = named.with_new_fd(rights, rights_inheriting, flags, inode);
    assert forall|i: Inode| #[trigger]
        after.inodes.contains_key(i) && after.kind(i) is Dir implies after.has_elder_parent(i) by {
        assert(named.inodes.contains_key(i));
        assert(named.has_elder_parent(i));
    }
}

/// Removing an inode that nothing refers to keeps every directory below a parent that
/// was there before it.
pub proof fn law_remove_rooted(fs: FsView, inode: Inode)
    requires
        fs.rooted(),
        !fs.refers_to(inode),
    ensures
        fs.without_inode(inode).rooted(),
{
    let after = fs.without_inode(inode);
    assert forall|i: Inode| #[trigger]
        after.inodes.contains_key(i) && after.kind(i) is Dir implies after.has_elder_parent(i) by {
        assert(fs.inodes.contains_key(i));
        assert(fs.has_elder_parent(i));
    }
}

/// An inode that was removed is gone, and removing it again changes nothing.
pub proof fn law_removed_is_gone(fs: FsView, inode: Inode)
    requires
        fs.numbered(),
        fs.live(inode),
        fs.generation < u64::MAX,
    ensures
        fs.without_inode(inode).is_spent(inode),
        fs.without_inode(inode).without_inode(inode) == fs.without_inode(inode),
{
}

/// An inode that has been removed is never made again: it is not one that may be given
/// out next, and it stays removed whatever inode is made or removed.
pub proof fn law_spent_stays_spent(
    fs: FsView,
    spent: Inode,
    inode: Inode,
    value: InodeView,
    other: Inode,
)
    requires
        fs.is_spent(spent),
        fs.is_free(inode),
        fs.generation < u64::MAX,
    ensures
        inode != spent,
        fs.with_new_inode(inode, value).is_spent(spent),
        fs.without_inode(other).is_spent(spent),
{
}

} // verus!

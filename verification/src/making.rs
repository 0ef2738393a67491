//! How a filesystem, an inode and a place in the tree come about.
use crate::attributes::law_metadata_is_shown;
use crate::host::{HostMetadata, StatAnswer};
use crate::inode::{FileHandle, Inode, InodeView, KindView};
use crate::laws::law_one_deeper_than_parent;
use crate::model::FsView;
use crate::path::path_push;
use crate::preopen::{
    accepted_before, all_dirs, is_accepted, is_fresh, is_made, path_debug_text, refusal, DirView,
    ProbedDir,
};
use crate::tree::{ancestor, climb_ends, depth_below, path_below};
use crate::wasi::{__wasi_errno_t, default_filestat, WasiFsError};
use vstd::prelude::*;

verus! {

/// A directory can be preopened exactly where the host says that it is a directory and
/// knows when it was accessed and modified. Neither its name, its size nor when it was
/// created matters, nor whether it has an alias.
pub proof fn law_which_directories_are_accepted(dir: DirView)
    ensures
        is_accepted(dir) <==> dir.is_dir && (dir.metadata matches Some(m) && m.accessed is Some
            && m.modified is Some),
{
}

/// The directories are preopened in the order in which they are given, those under their own
/// path before those under an alias; an alias replaces the name and leaves the path.
pub proof fn law_order_of_preopens(
    preopened_dirs: Seq<ProbedDir>,
    mapped_dirs: Seq<(String, ProbedDir)>,
    k: int,
)
    ensures
        all_dirs(preopened_dirs, mapped_dirs).len() == preopened_dirs.len() + mapped_dirs.len(),
        0 <= k < preopened_dirs.len() ==> {
            let dir = all_dirs(preopened_dirs, mapped_dirs)[k];
            &&& dir.name == preopened_dirs[k].path@
            &&& dir.path == preopened_dirs[k].path@
            &&& dir.is_dir == preopened_dirs[k].is_dir
            &&& dir.metadata == preopened_dirs[k].metadata
            &&& !dir.mapped
        },
        0 <= k < mapped_dirs.len() ==> {
            let dir = all_dirs(preopened_dirs, mapped_dirs)[preopened_dirs.len() + k];
            &&& dir.name == mapped_dirs[k].0@
            &&& dir.path == mapped_dirs[k].1.path@
            &&& dir.is_dir == mapped_dirs[k].1.is_dir
            &&& dir.metadata == mapped_dirs[k].1.metadata
            &&& dir.mapped
        },
{
}

/// The first directory that cannot be preopened is the only one whose refusal can come: a
/// list has at most one such place.
pub proof fn law_first_refusal_is_the_only_one(dirs: Seq<DirView>, j: int, k: int)
    requires
        0 <= j < dirs.len(),
        0 <= k < dirs.len(),
        accepted_before(dirs, j),
        accepted_before(dirs, k),
        !is_accepted(dirs[j]),
        !is_accepted(dirs[k]),
    ensures
        j == k,
{
    if j < k {
        assert(is_accepted(dirs[j]));
    }
    if k < j {
        assert(is_accepted(dirs[k]));
    }
}

/// What is not a directory is refused with its path between quotes at the end, and two such
/// paths are told apart; a directory whose inode cannot be made is refused in other words,
/// the same for every directory.
pub proof fn law_refusals_name_the_path(a: DirView, b: DirView)
    requires
        !a.mapped,
        !b.mapped,
    ensures
        !a.is_dir ==> (a.path + seq!['"']).is_suffix_of(refusal(a)),
        !a.is_dir ==> "WASI only supports pre-opened directories right now; found \""@.is_prefix_of(
            refusal(a),
        ),
        !a.is_dir && !b.is_dir && refusal(a) == refusal(b) ==> a.path == b.path,
        a.is_dir && b.is_dir ==> refusal(a) == refusal(b),
        a.is_dir ==> refusal(a).len() > 0 && refusal(a).last() == '9',
        !a.is_dir ==> refusal(a).last() == '"',
{
    reveal_strlit("\"");
    reveal_strlit("Failed to create inode for preopened dir: WASI error code: 29");
    let head = "WASI only supports pre-opened directories right now; found \""@;
    assert("\""@ =~= seq!['"']);
    if !a.is_dir {
        let out = refusal(a);
        let tail = a.path + seq!['"'];
        assert(out =~= head + tail);
        assert(head =~= out.take(head.len() as int));
        assert(tail =~= out.skip(out.len() - tail.len()));
        assert(tail =~= out.subrange(out.len() - tail.len(), out.len() as int));
        if !b.is_dir && refusal(a) == refusal(b) {
            assert(refusal(b) =~= head + (b.path + seq!['"']));
            assert(a.path =~= out.subrange(head.len() as int, out.len() - 1));
            assert(b.path =~= out.subrange(head.len() as int, out.len() - 1));
        }
    }
}

/// An alias changes only how the path is shown: as Rust's `Debug` shows it, in the place of the
/// path itself. What the alias is does not show.
pub proof fn law_refusals_of_aliases(a: DirView, b: DirView)
    requires
        a.mapped,
        !b.mapped,
        a.is_dir == b.is_dir,
        !a.is_dir ==> b.path == path_debug_text(a.path),
    ensures
        refusal(a) == refusal(b),
{
}

/// An inode that is made from a host file's metadata has the next number, is what it was
/// asked to be, and shows the metadata; one that is made without asking the host shows
/// nothing but its number and its one link.
pub proof fn law_created_inode_is_what_was_asked_for(
    fs: FsView,
    kind: KindView,
    is_preopened: bool,
    name: Seq<char>,
    m: HostMetadata,
)
    requires
        m.accessed is Some,
        m.modified is Some,
        kind is File || kind is Dir || kind is Symlink,
    ensures
        fs.stat_for_kind(kind, StatAnswer::Metadata(Some(m))) matches Some(stat) && {
            let made = fs.next_inode(kind, is_preopened, name, stat);
            &&& made.kind == kind
            &&& made.is_preopened == is_preopened
            &&& made.name == name
            &&& made.stat.st_ino == fs.next_ino
            &&& made.stat.st_size == m.len
            &&& m.file_type is Dir ==> made.stat.st_filetype == 3
            &&& m.file_type is File ==> made.stat.st_filetype == 4
            &&& m.file_type is Symlink ==> made.stat.st_filetype == 7
            &&& m.file_type is Other ==> made.stat.st_filetype == 0
            &&& m.accessed->0 <= u64::MAX ==> made.stat.st_atim == m.accessed->0
            &&& m.modified->0 <= u64::MAX ==> made.stat.st_mtim == m.modified->0
            &&& m.created is Some && m.created->0 <= u64::MAX ==> made.stat.st_ctim == m.created->0
            &&& m.created is None ==> made.stat.st_ctim == 0
            &&& made.stat.st_nlink == 1
            &&& made.stat.st_dev == 0
        },
        ({
            let made = fs.next_inode(kind, is_preopened, name, default_filestat());
            &&& made.kind == kind
            &&& made.is_preopened == is_preopened
            &&& made.name == name
            &&& made.stat.st_ino == fs.next_ino
            &&& made.stat.st_nlink == 1
            &&& made.stat.st_dev == 0
            &&& made.stat.st_filetype == 0
            &&& made.stat.st_size == 0
            &&& made.stat.st_atim == 0
            &&& made.stat.st_mtim == 0
            &&& made.stat.st_ctim == 0
        }),
{
    law_metadata_is_shown(m);
}

/// An inode can be made from the host's answer exactly where it is a file, a directory or a
/// link and the answer gives attributes.
pub proof fn law_when_an_inode_can_be_made(fs: FsView, kind: KindView, answer: StatAnswer)
    ensures
        fs.stat_for_kind(kind, answer) is Some <==> (kind is File || kind is Dir || kind is Symlink)
            && match answer {
            StatAnswer::Attributes(_) => true,
            StatAnswer::Metadata(None) => false,
            StatAnswer::Metadata(Some(m)) => m.accessed is Some && m.modified is Some,
        },
{
}

/// A new inode leaves every other as it was, and a number is used up.
pub proof fn law_new_inode_leaves_the_rest(
    fs: FsView,
    kind: KindView,
    is_preopened: bool,
    name: Seq<char>,
    answer: StatAnswer,
    inode: Inode,
    other: Inode,
)
    requires
        fs.next_ino < u64::MAX,
        inode != other,
    ensures
        ({
            let value = fs.next_inode(
                kind,
                is_preopened,
                name,
                fs.stat_for_kind(kind, answer)->0,
            );
            let after = fs.with_new_inode(inode, value);
            &&& after.live(inode)
            &&& after.inodes[inode] == value
            &&& after.live(other) == fs.live(other)
            &&& after.inodes[other] == fs.inodes[other]
            &&& after.next_ino == fs.next_ino + 1
            &&& after == (FsView { inodes: after.inodes, next_ino: after.next_ino, ..fs })
        }),
{
}

/// Where no inode can be made, that is an input error, whatever was to be made.
pub proof fn law_an_inode_that_cannot_be_made(fs: FsView, kind: KindView, answer: StatAnswer)
    ensures
        fs.creation(kind, answer) is Ok <==> (kind is File || kind is Dir || kind is Symlink)
            && match answer {
            StatAnswer::Attributes(_) => true,
            StatAnswer::Metadata(None) => false,
            StatAnswer::Metadata(Some(m)) => m.accessed is Some && m.modified is Some,
        },
        fs.creation(kind, answer) is Err ==> fs.creation(kind, answer)->Err_0 == 29,
{
}

/// An inode is removed once: the first removal of one that is there says so, and the next
/// says that there was none, until an inode is made in its place.
pub proof fn law_an_inode_is_removed_once(fs: FsView, inode: Inode, value: InodeView)
    requires
        !fs.live(inode),
    ensures
        !fs.removal(inode),
        fs.with_new_inode(inode, value).removal(inode),
        !fs.with_new_inode(inode, value).without_inode(inode).removal(inode),
        fs.with_new_inode(inode, value).without_inode(inode).inodes == fs.inodes,
{
    assert(fs.with_new_inode(inode, value).without_inode(inode).inodes =~= fs.inodes);
}

/// The standard files of a filesystem that has just been made are the ones that were given,
/// each in its place: swapping the first three descriptors hands them back, and the second
/// and third are what is flushed.
pub proof fn law_standard_files_are_the_ones_given(
    fs: FsView,
    dirs: Seq<DirView>,
    stdin: FileHandle,
    stdout: FileHandle,
    stderr: FileHandle,
)
    requires
        is_made(fs, dirs, stdin, stdout, stderr),
    ensures
        fs.swap_result(0) == Ok::<Option<FileHandle>, WasiFsError>(Some(stdin)),
        fs.swap_result(1) == Ok::<Option<FileHandle>, WasiFsError>(Some(stdout)),
        fs.swap_result(2) == Ok::<Option<FileHandle>, WasiFsError>(Some(stderr)),
        fs.flush_target(1) == Ok::<Option<FileHandle>, __wasi_errno_t>(Some(stdout)),
        fs.flush_target(2) == Ok::<Option<FileHandle>, __wasi_errno_t>(Some(stderr)),
        is_fresh(fs, dirs),
{
}

/// Removing an inode leaves every other as it was, and descriptors and numbers too; removing
/// what is not there changes nothing.
pub proof fn law_removal_leaves_the_rest(fs: FsView, inode: Inode, other: Inode)
    requires
        inode != other,
    ensures
        !fs.without_inode(inode).live(inode),
        fs.without_inode(inode).live(other) == fs.live(other),
        fs.live(other) ==> fs.without_inode(inode).inodes[other] == fs.inodes[other],
        fs.without_inode(inode).fds == fs.fds,
        fs.without_inode(inode).preopen_fds == fs.preopen_fds,
        fs.without_inode(inode).next_fd == fs.next_fd,
        fs.without_inode(inode).next_ino == fs.next_ino,
        !fs.live(inode) ==> fs.without_inode(inode) == fs,
{
}

/// The base itself is at depth zero below itself, and its path is empty. What is not a
/// directory and not the base is not connected.
pub proof fn law_base_is_at_depth_zero(fs: FsView, base: Inode, inode: Inode)
    requires
        inode == base || (fs.live(inode) && !(fs.kind(inode) is Dir)),
    ensures
        climb_ends(fs, base, inode, 0),
        inode == base ==> depth_below(fs, base, inode, 0) == Ok::<nat, __wasi_errno_t>(0),
        inode == base ==> path_below(fs, base, inode, 0) is Ok && path_below(
            fs,
            base,
            inode,
            0,
        )->Ok_0.len() == 0,
        inode != base ==> depth_below(fs, base, inode, 0) == Err::<nat, __wasi_errno_t>(28),
        inode != base ==> path_below(fs, base, inode, 0) == Err::<Seq<char>, __wasi_errno_t>(28),
{
    assert(ancestor(fs, inode, 0) == inode);
}

/// A directory is one deeper below the base than its parent, its path is its parent's with
/// its name pushed, and it is connected to the base exactly where its parent is.
pub proof fn law_depth_and_path_grow_by_one(
    fs: FsView,
    base: Inode,
    inode: Inode,
    parent: Inode,
    steps: nat,
)
    requires
        inode != base,
        fs.live(inode),
        fs.kind(inode).parent() == Some(parent),
        climb_ends(fs, base, parent, steps),
    ensures
        climb_ends(fs, base, inode, steps + 1),
        match depth_below(fs, base, parent, steps) {
            Ok(depth) => depth_below(fs, base, inode, steps + 1) == Ok::<nat, __wasi_errno_t>(
                depth + 1,
            ),
            Err(_) => depth_below(fs, base, inode, steps + 1) == Err::<nat, __wasi_errno_t>(28),
        },
        match path_below(fs, base, parent, steps) {
            Ok(path) => path_below(fs, base, inode, steps + 1) == Ok::<Seq<char>, __wasi_errno_t>(
                path_push(path, fs.inodes[inode].name),
            ),
            Err(_) => path_below(fs, base, inode, steps + 1) == Err::<Seq<char>, __wasi_errno_t>(
                28,
            ),
        },
{
    law_one_deeper_than_parent(fs, base, inode, parent, steps);
}

} // verus!

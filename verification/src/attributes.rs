//! What the attributes of an inode tell of the file that it was made for.
use crate::cursor::{CursorView, ReplyView, StepView};
use crate::fs::VIRTUAL_ROOT_FD;
use crate::host::{
    stat_of_answer, timestamp, FileAttributes, HostMetadata, StatAnswer, StatSourceView,
};
use crate::inode::{Inode, KindView};
use crate::model::FsView;
use crate::path::path_push;
use crate::preopen::{is_fresh, nth_preopen, DirView};
use crate::steps::{fs_after, step};
use vstd::prelude::*;

verus! {

/// The guest sees a time as it is where the time fits 64 bits, and otherwise its lower 64
/// bits: what is left out is a multiple of what 64 bits can tell apart.
pub proof fn law_times_are_kept(nanos: u128)
    ensures
        nanos <= u64::MAX ==> timestamp(nanos) == nanos,
        (nanos - timestamp(nanos)) % 0x1_0000_0000_0000_0000 == 0,
{
}

/// Metadata is shown as it is: the size in full, each type as the number that WASI gives
/// it, the times, zero for a creation time that is not known, and one link.
pub proof fn law_metadata_is_shown(m: HostMetadata)
    requires
        m.accessed is Some,
        m.modified is Some,
    ensures
        stat_of_answer(StatAnswer::Metadata(Some(m))) matches Some(stat) && {
            &&& stat.st_size == m.len
            &&& m.file_type is Dir ==> stat.st_filetype == 3
            &&& m.file_type is File ==> stat.st_filetype == 4
            &&& m.file_type is Symlink ==> stat.st_filetype == 7
            &&& m.file_type is Other ==> stat.st_filetype == 0
            &&& m.accessed->0 <= u64::MAX ==> stat.st_atim == m.accessed->0
            &&& m.modified->0 <= u64::MAX ==> stat.st_mtim == m.modified->0
            &&& m.created is Some && m.created->0 <= u64::MAX ==> stat.st_ctim == m.created->0
            &&& m.created is None ==> stat.st_ctim == 0
            &&& (m.accessed->0 - stat.st_atim) % 0x1_0000_0000_0000_0000 == 0
            &&& (m.modified->0 - stat.st_mtim) % 0x1_0000_0000_0000_0000 == 0
            &&& m.created is Some ==> (m.created->0 - stat.st_ctim) % 0x1_0000_0000_0000_0000
                == 0
            &&& stat.st_nlink == 1
            &&& stat.st_dev == 0
        },
{
}

/// Different metadata is told apart: the same attributes come only of the same type, the
/// same size and, where they fit 64 bits, the same times.
pub proof fn law_metadata_is_told_apart(a: HostMetadata, b: HostMetadata)
    requires
        a.accessed is Some && a.accessed->0 <= u64::MAX,
        b.accessed is Some && b.accessed->0 <= u64::MAX,
        a.modified is Some && a.modified->0 <= u64::MAX,
        b.modified is Some && b.modified->0 <= u64::MAX,
        stat_of_answer(StatAnswer::Metadata(Some(a))) == stat_of_answer(
            StatAnswer::Metadata(Some(b)),
        ),
    ensures
        a.len == b.len,
        a.file_type == b.file_type,
        a.accessed == b.accessed,
        a.modified == b.modified,
{
    law_metadata_is_shown(a);
    law_metadata_is_shown(b);
}

/// What an open file reports of itself is shown as it is, as a regular file's.
pub proof fn law_open_file_is_shown(a: FileAttributes)
    ensures
        stat_of_answer(StatAnswer::Attributes(a)) matches Some(stat) && {
            &&& stat.st_filetype == 4
            &&& stat.st_size == a.size
            &&& stat.st_atim == a.last_accessed
            &&& stat.st_mtim == a.last_modified
            &&& stat.st_ctim == a.created_time
            &&& stat.st_nlink == 1
            &&& stat.st_dev == 0
        },
{
}

/// There are no attributes exactly where the host has no metadata, or does not know when
/// the file was accessed or modified. That it does not know when the file was created does
/// no harm.
pub proof fn law_attributes_are_missing(answer: StatAnswer)
    ensures
        stat_of_answer(answer) is None <==> (answer matches StatAnswer::Metadata(metadata) && (
        metadata is None || metadata->0.accessed is None || metadata->0.modified is None)),
{
}

/// What is asked for an inode's attributes: an open file itself; the metadata of the host
/// path of a file that is not open or of a directory; of a symbolic link the metadata of
/// the link, found at its path below the directory that it starts from. Nothing is asked
/// for the root or a buffer, and they get no attributes, whatever the answer.
pub proof fn law_what_is_asked(fs: FsView, kind: KindView, answer: StatAnswer)
    ensures
        kind matches KindView::File { handle: Some(handle), .. } ==> fs.stat_source(kind) == Some(
            StatSourceView::Handle(handle),
        ),
        kind matches KindView::File { handle: None, path } ==> fs.stat_source(kind) == Some(
            StatSourceView::Metadata(path),
        ),
        kind matches KindView::Dir { path, .. } ==> fs.stat_source(kind) == Some(
            StatSourceView::Metadata(path),
        ),
        kind is Root || kind is Buffer ==> fs.stat_source(kind) is None && fs.stat_for_kind(
            kind,
            answer,
        ) is None,
        kind is Symlink && fs.kind(fs.fds[kind->base_po_dir].inode) is Dir ==> fs.stat_source(kind)
            == Some(
            StatSourceView::SymlinkMetadata(
                path_push(
                    fs.kind(fs.fds[kind->base_po_dir].inode)->Dir_path,
                    kind->path_to_symlink,
                ),
            ),
        ),
        kind is File || kind is Dir || kind is Symlink ==> fs.stat_for_kind(kind, answer)
            == stat_of_answer(answer),
{
}

/// The inode that is made for a host file once its metadata is known shows that metadata,
/// has the next number, the file's path as its name and no mark of a preopened directory;
/// the kind that was settled before is what it is.
pub proof fn law_loaded_inode_shows_its_file(
    fs: FsView,
    cursor: CursorView,
    m: HostMetadata,
    inode: Inode,
)
    requires
        cursor.wf(fs),
        cursor.waiting is Stat,
        m.accessed is Some,
        m.modified is Some,
        !fs.live(inode),
    ensures
        ({
            let after = fs_after(
                fs,
                cursor,
                ReplyView::Stat(StatAnswer::Metadata(Some(m))),
                inode,
            );
            let made = after.inodes[inode];
            &&& after.live(inode)
            &&& after.next_ino == (fs.next_ino + 1) as u64
            &&& made.stat.st_ino == fs.next_ino
            &&& made.stat.st_size == m.len
            &&& m.file_type is Dir ==> made.stat.st_filetype == 3
            &&& m.file_type is File ==> made.stat.st_filetype == 4
            &&& m.file_type is Symlink ==> made.stat.st_filetype == 7
            &&& m.file_type is Other ==> made.stat.st_filetype == 0
            &&& m.accessed->0 <= u64::MAX ==> made.stat.st_atim == m.accessed->0
            &&& m.modified->0 <= u64::MAX ==> made.stat.st_mtim == m.modified->0
            &&& m.created is Some && m.created->0 <= u64::MAX ==> made.stat.st_ctim
                == m.created->0
            &&& m.created is None ==> made.stat.st_ctim == 0
            &&& made.stat.st_nlink == 1
            &&& made.stat.st_dev == 0
            &&& made.name == cursor.waiting.file()
            &&& !made.is_preopened
            &&& made.kind == cursor.waiting->kind
            &&& step(
                fs,
                cursor,
                ReplyView::Stat(StatAnswer::Metadata(Some(m))),
                inode,
            ) == StepView::Continue(cursor.with_top(cursor.top().entered(inode)))
        }),
{
    law_metadata_is_shown(m);
    assert(cursor.top() == cursor.frames[cursor.frames.len() - 1]);
}

/// Without attributes no inode is made for a file: the path ends in an input error, and
/// nothing changes.
pub proof fn law_no_attributes_no_inode(
    fs: FsView,
    cursor: CursorView,
    metadata: Option<HostMetadata>,
    inode: Inode,
)
    requires
        cursor.wf(fs),
        cursor.waiting is Stat,
        metadata is None || metadata->0.accessed is None || metadata->0.modified is None,
    ensures
        ({
            let reply = ReplyView::Stat(StatAnswer::Metadata(metadata));
            &&& step(fs, cursor, reply, inode) == StepView::Done(Err(29))
            &&& fs_after(fs, cursor, reply, inode) == fs
        }),
{
}

/// In a filesystem that has just been made, each preopened directory shows what the host
/// told of it: a directory's file type where the host says that it is one, the size, the
/// times, and one link. The numbers follow the root's in order.
pub proof fn law_fresh_preopens_show_metadata(fs: FsView, dirs: Seq<DirView>, k: int)
    requires
        is_fresh(fs, dirs),
        VIRTUAL_ROOT_FD + dirs.len() < u32::MAX,
        0 <= k < dirs.len(),
        dirs[k].metadata is Some,
        dirs[k].metadata->0.accessed is Some,
        dirs[k].metadata->0.modified is Some,
    ensures
        ({
            let m = dirs[k].metadata->0;
            let stat = fs.inodes[fs.fds[(4 + k) as u32].inode].stat;
            &&& m.file_type is Dir ==> stat.st_filetype == 3
            &&& m.file_type is File ==> stat.st_filetype == 4
            &&& m.file_type is Symlink ==> stat.st_filetype == 7
            &&& m.file_type is Other ==> stat.st_filetype == 0
            &&& stat.st_size == m.len
            &&& m.accessed->0 <= u64::MAX ==> stat.st_atim == m.accessed->0
            &&& m.modified->0 <= u64::MAX ==> stat.st_mtim == m.modified->0
            &&& m.created is Some && m.created->0 <= u64::MAX ==> stat.st_ctim == m.created->0
            &&& m.created is None ==> stat.st_ctim == 0
            &&& stat.st_nlink == 1
            &&& stat.st_dev == 0
            &&& stat.st_ino == 1025 + k
        }),
{
    law_metadata_is_shown(dirs[k].metadata->0);
    assert(nth_preopen(fs, k + 1) == fs.fds[(4 + k) as u32].inode);
}

/// In a filesystem that has just been made, the root is open as descriptor three with all
/// rights, is a directory to the guest, has the first number and the name `/`, and holds
/// the names of the preopened directories and no other.
pub proof fn law_fresh_root(fs: FsView, dirs: Seq<DirView>, name: Seq<char>)
    requires
        is_fresh(fs, dirs),
        VIRTUAL_ROOT_FD + dirs.len() < u32::MAX,
    ensures
        ({
            let root = fs.inodes[fs.fds[3].inode];
            &&& fs.fds.contains_key(3)
            &&& fs.preopen_fds.len() == dirs.len() + 1
            &&& fs.preopen_fds[0] == 3
            &&& forall|k: int|
                0 <= k <= dirs.len() ==> #[trigger] fs.preopen_fds[k] == 3 + k
            &&& fs.fds[3].rights == 0x1FFFFFFF
            &&& fs.fds[3].rights_inheriting == 0x1FFFFFFF
            &&& fs.fds[3].flags == 0
            &&& fs.fds[3].offset == 0
            &&& root.stat.st_filetype == 3
            &&& root.stat.st_ino == 1024
            &&& root.stat.st_size == 0
            &&& root.stat.st_nlink == 1
            &&& root.is_preopened
            &&& root.name == seq!['/']
            &&& root.kind is Root
            &&& root.kind->Root_entries.contains_key(name) <==> exists|k: int|
                0 <= k < dirs.len() && #[trigger] dirs[k].name == name
            &&& forall|fd: u32| #[trigger] fs.fds.contains_key(fd) <==> 3 <= fd <= 3 + dirs.len()
            &&& fs.next_fd == 4 + dirs.len()
            &&& fs.next_ino == 1025 + dirs.len()
        }),
{
    assert(nth_preopen(fs, 0) == fs.fds[3].inode);
    assert(fs.fds.contains_key(3));
    assert(fs.preopen_fds[0] == 3);
    assert(fs.inodes[fs.fds[3].inode].name =~= seq!['/']);
    let entries = fs.kind(nth_preopen(fs, 0)).entries();
    assert(entries.contains_key(name) <==> exists|k: int|
        0 <= k < dirs.len() && #[trigger] dirs[k].name == name);
}

} // verus!

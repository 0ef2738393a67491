//! What a step of path resolution asks of the host, and what it makes of the replies.
use crate::confine::lemma_split_leads_back;
use crate::cursor::{
    CursorView, ReplyView, RequestView, StepView, Unsupported, WaitingView,
};
use crate::host::{HostFileType, StatSourceView};
use crate::inode::{Inode, KindView};
use crate::model::FsView;
use crate::path::{
    cur_dir, is_absolute, is_plain, lemma_components_of_join, lemma_components_of_root,
    lemma_components_shape, lemma_no_components, lemma_push_component, parent_dir,
    path_components, path_join, path_push, path_rest, root_dir,
};
use crate::steps::{
    advance, host_path_split, parent_of, parent_start, path_start, preopen_path, preopen_split,
    step,
};
use crate::wasi::{__wasi_errno_t, __wasi_fd_t};
use vstd::prelude::*;

verus! {

/// The host path lies at or below the preopened directory that comes at `k`; the root
/// stands for the host's root where it counts.
pub open spec fn lies_at_preopen(fs: FsView, path: Seq<char>, with_root: bool, k: int) -> bool {
    match fs.kind(fs.fds[fs.preopen_fds[k]].inode) {
        KindView::Dir { path: base, .. } => path_components(base).is_prefix_of(
            path_components(path),
        ),
        _ => with_root && path_components(path).len() > 0 && path_components(path)[0]
            == root_dir(),
    }
}

/// A host path is split at the first preopened directory that it lies at or below, and is
/// refused exactly where there is none. From a directory's own path, the rest leads back to
/// the whole.
pub proof fn law_split_at_the_first_preopen(
    fs: FsView,
    path: Seq<char>,
    with_root: bool,
    k: int,
)
    requires
        fs.preopens_open(),
        0 <= k < fs.preopen_fds.len(),
        forall|j: int| 0 <= j < k ==> !#[trigger] lies_at_preopen(fs, path, with_root, j),
        lies_at_preopen(fs, path, with_root, k),
    ensures
        preopen_split(fs, path, with_root, 0) is Ok,
        preopen_split(fs, path, with_root, 0)->Ok_0.0 == fs.preopen_fds[k],
        fs.kind(fs.fds[fs.preopen_fds[k]].inode) matches KindView::Dir { path: base, .. }
            ==> path_components(
            path_push(base, preopen_split(fs, path, with_root, 0)->Ok_0.1),
        ) == path_components(path),
        fs.kind(fs.fds[fs.preopen_fds[k]].inode) is Root ==> path_components(
            path_push(seq!['/'], preopen_split(fs, path, with_root, 0)->Ok_0.1),
        ) == path_components(path),
{
    lemma_first_preopen(fs, path, with_root, 0, k);
    assert(fs.is_base(fs.preopen_fds[k]));
    if let KindView::Dir { path: base, .. } = fs.kind(fs.fds[fs.preopen_fds[k]].inode) {
        lemma_split_leads_back(base, path);
    } else {
        lemma_root_prefix(path);
        lemma_split_leads_back(root_dir(), path);
    }
}

/// A path lies below the root exactly where the root is its first component.
proof fn lemma_root_prefix(path: Seq<char>)
    ensures
        path_components(root_dir()).is_prefix_of(path_components(path)) <==> path_components(
            path,
        ).len() > 0 && path_components(path)[0] == root_dir(),
{
    lemma_components_of_root();
    let cs = path_components(path);
    if cs.len() > 0 && cs[0] == root_dir() {
        assert(path_components(root_dir()) =~= cs.take(1));
    }
    if path_components(root_dir()).is_prefix_of(cs) {
        assert(path_components(root_dir())[0] == cs[0]);
    }
}

/// What is looked at from one place on is settled by the first match.
proof fn lemma_first_preopen(fs: FsView, path: Seq<char>, with_root: bool, from: int, k: int)
    requires
        fs.preopens_open(),
        0 <= from <= k < fs.preopen_fds.len(),
        forall|j: int| from <= j < k ==> !#[trigger] lies_at_preopen(fs, path, with_root, j),
        lies_at_preopen(fs, path, with_root, k),
    ensures
        preopen_split(fs, path, with_root, from) == Ok::<(__wasi_fd_t, Seq<char>), __wasi_errno_t>(
            (
                fs.preopen_fds[k],
                path_rest(path, preopen_path(fs, fs.preopen_fds[k])),
            ),
        ),
    decreases k - from,
{
    lemma_root_prefix(path);
    assert(fs.is_base(fs.preopen_fds[from]));
    if from < k {
        assert(!lies_at_preopen(fs, path, with_root, from));
        lemma_first_preopen(fs, path, with_root, from + 1, k);
    }
}

/// A host path that lies at or below no preopened directory is an invalid one.
pub proof fn law_outside_is_refused(fs: FsView, path: Seq<char>, with_root: bool)
    requires
        fs.preopens_open(),
        forall|j: int|
            0 <= j < fs.preopen_fds.len() ==> !#[trigger] lies_at_preopen(fs, path, with_root, j),
    ensures
        preopen_split(fs, path, with_root, 0) == Err::<(__wasi_fd_t, Seq<char>), __wasi_errno_t>(
            28,
        ),
{
    lemma_no_preopen(fs, path, with_root, 0);
}

proof fn lemma_no_preopen(fs: FsView, path: Seq<char>, with_root: bool, from: int)
    requires
        fs.preopens_open(),
        0 <= from,
        forall|j: int|
            from <= j < fs.preopen_fds.len() ==> !#[trigger] lies_at_preopen(
                fs,
                path,
                with_root,
                j,
            ),
    ensures
        preopen_split(fs, path, with_root, from) == Err::<
            (__wasi_fd_t, Seq<char>),
            __wasi_errno_t,
        >(28),
    decreases fs.preopen_fds.len() - from,
{
    lemma_root_prefix(path);
    if from < fs.preopen_fds.len() {
        assert(!lies_at_preopen(fs, path, with_root, from));
        assert(fs.is_base(fs.preopen_fds[from]));
        lemma_no_preopen(fs, path, with_root, from + 1);
    }
}

/// A name that a directory does not have yet is looked for on the host, at the directory's
/// host path and then the name; nothing else about the cursor changes.
pub proof fn law_unknown_name_is_asked_for(fs: FsView, cursor: CursorView)
    requires
        cursor.top().next < cursor.top().components.len(),
        fs.kind(cursor.top().cur_inode) is Dir,
        is_plain(cursor.top().component()),
        cursor.top().component() != cur_dir(),
        cursor.top().component() != parent_dir(),
        !fs.kind(cursor.top().cur_inode)->Dir_entries.contains_key(cursor.top().component()),
    ensures
        advance(fs, cursor) matches StepView::Ask(RequestView::FileType(file), next) && {
            &&& path_components(file) == path_components(
                fs.kind(cursor.top().cur_inode)->Dir_path,
            ).push(cursor.top().component())
            &&& next.waiting == (WaitingView::FileType { file })
            &&& next.frames == cursor.frames
            &&& next.follow_symlinks == cursor.follow_symlinks
        },
{
    let name = cursor.top().component();
    assert(name != root_dir()) by {
        assert(root_dir()[0] == '/');
    }
    lemma_push_component(fs.kind(cursor.top().cur_inode)->Dir_path, name);
}

/// A name that a directory or the root has leads to its inode, without a question to the
/// host, whatever the inode is.
pub proof fn law_known_name_is_entered(fs: FsView, cursor: CursorView)
    requires
        cursor.top().next < cursor.top().components.len(),
        fs.kind(cursor.top().cur_inode).has_entries(),
        cursor.top().component() != cur_dir(),
        cursor.top().component() != parent_dir(),
        fs.kind(cursor.top().cur_inode).entries().contains_key(cursor.top().component()),
    ensures
        advance(fs, cursor) matches StepView::Continue(next) && {
            &&& next.top().cur_inode == fs.kind(
                cursor.top().cur_inode,
            ).entries()[cursor.top().component()]
            &&& next.top().next == cursor.top().next + 1
            &&& next.top().components == cursor.top().components
            &&& next.top().symlink_count == cursor.top().symlink_count
            &&& next.frames.drop_last() == cursor.frames.drop_last()
            &&& next.follow_symlinks == cursor.follow_symlinks
            &&& next.waiting is Nothing
        },
{
    let next = advance(fs, cursor)->Continue_0;
    assert(next.frames.drop_last() =~= cursor.frames.drop_last());
}

/// Nothing is below a file: a path that goes on from one is told that it is no directory.
/// The root has only what it was made with, and a buffer has no rule.
pub proof fn law_what_has_no_names(fs: FsView, cursor: CursorView)
    requires
        cursor.top().next < cursor.top().components.len(),
    ensures
        fs.kind(cursor.top().cur_inode) is File ==> advance(fs, cursor) == StepView::Done(Err(54)),
        fs.kind(cursor.top().cur_inode) is Buffer ==> advance(fs, cursor) == StepView::Unsupported(
            Unsupported::Buffer,
        ),
        fs.kind(cursor.top().cur_inode) matches KindView::Root { entries } && !entries.contains_key(
            cursor.top().component(),
        ) && cursor.top().component() != cur_dir() && cursor.top().component() != parent_dir()
            ==> advance(fs, cursor) == StepView::Done(Err(28)),
{
}

/// A path comes to the inode that it has reached once no component is left, unless that is
/// a symbolic link which is to be followed and which a component has led to.
pub proof fn law_path_ends_where_it_has_come(fs: FsView, cursor: CursorView)
    requires
        cursor.frames.len() == 1,
        cursor.top().next >= cursor.top().components.len(),
    ensures
        advance(fs, cursor) == StepView::Done(Ok(cursor.top().cur_inode)) || {
            &&& cursor.follow_symlinks
            &&& cursor.top().components.len() > 0
            &&& fs.kind(cursor.top().cur_inode) is Symlink
        },
        !cursor.follow_symlinks ==> advance(fs, cursor) == StepView::Done(
            Ok(cursor.top().cur_inode),
        ),
        !(fs.kind(cursor.top().cur_inode) is Symlink) ==> advance(fs, cursor) == StepView::Done(
            Ok(cursor.top().cur_inode),
        ),
{
}

/// What the host says of a file decides what is made of it: a directory below the one that
/// it is in, with nothing in it yet, a file that is not open, each at the file's own path,
/// or a link whose value has to be read first. A file that the host cannot tell of is
/// invalid; for another type there is no rule.
pub proof fn law_what_a_host_file_becomes(fs: FsView, cursor: CursorView, inode: Inode)
    requires
        cursor.waiting is FileType,
    ensures
        ({
            let file = cursor.waiting.file();
            &&& step(fs, cursor, ReplyView::FileType(None), inode) == StepView::Done(Err(28))
            &&& step(fs, cursor, ReplyView::FileType(Some(HostFileType::Other)), inode)
                == StepView::Unsupported(Unsupported::FileType)
            &&& step(fs, cursor, ReplyView::FileType(Some(HostFileType::Symlink)), inode)
                == StepView::Ask(
                RequestView::LinkValue(file),
                CursorView { waiting: WaitingView::LinkValue { file }, ..cursor },
            )
            &&& step(fs, cursor, ReplyView::FileType(Some(HostFileType::File)), inode)
                == StepView::Ask(
                RequestView::Stat(StatSourceView::Metadata(file)),
                CursorView {
                    waiting: WaitingView::Stat {
                        file,
                        kind: KindView::File { handle: None, path: file },
                    },
                    ..cursor
                },
            )
            &&& step(fs, cursor, ReplyView::FileType(Some(HostFileType::Dir)), inode)
                == StepView::Ask(
                RequestView::Stat(StatSourceView::Metadata(file)),
                CursorView {
                    waiting: WaitingView::Stat {
                        file,
                        kind: KindView::Dir {
                            parent: Some(cursor.top().cur_inode),
                            path: file,
                            entries: Map::empty(),
                        },
                    },
                    ..cursor
                },
            )
        }),
{
}

/// What a link's value decides: one that cannot be read is an input error, an absolute one
/// has no rule, and a relative one makes a link with that value where the link lies at or
/// below a preopened directory, and is invalid elsewhere. Of the link's own metadata, not of
/// what it leads to, the host is asked at the path where the link is.
pub proof fn law_what_a_link_becomes(
    fs: FsView,
    cursor: CursorView,
    value: Seq<char>,
    inode: Inode,
    k: int,
)
    requires
        fs.preopens_open(),
        cursor.waiting is LinkValue,
    ensures
        step(fs, cursor, ReplyView::LinkValue(None), inode) == StepView::Done(Err(29)),
        is_absolute(value) ==> step(fs, cursor, ReplyView::LinkValue(Some(value)), inode)
            == StepView::Unsupported(Unsupported::AbsoluteSymlink),
        !is_absolute(value) && (forall|j: int|
            0 <= j < fs.preopen_fds.len() ==> !#[trigger] lies_at_preopen(
                fs,
                cursor.waiting.file(),
                false,
                j,
            )) ==> step(fs, cursor, ReplyView::LinkValue(Some(value)), inode) == StepView::Done(
            Err(28),
        ),
        !is_absolute(value) && 0 <= k < fs.preopen_fds.len() && lies_at_preopen(
            fs,
            cursor.waiting.file(),
            false,
            k,
        ) && (forall|j: int|
            0 <= j < k ==> !#[trigger] lies_at_preopen(fs, cursor.waiting.file(), false, j))
            ==> (step(fs, cursor, ReplyView::LinkValue(Some(value)), inode) matches StepView::Ask(
            RequestView::Stat(StatSourceView::SymlinkMetadata(path)),
            next,
        ) && {
            &&& path_components(path) == path_components(cursor.waiting.file())
            &&& next.frames == cursor.frames
            &&& next.follow_symlinks == cursor.follow_symlinks
            &&& next.waiting.file() == cursor.waiting.file()
            &&& next.waiting matches WaitingView::Stat { kind, .. }
            &&& kind matches KindView::Symlink { base_po_dir, relative_path, .. }
            &&& base_po_dir == fs.preopen_fds[k]
            &&& relative_path == value
        }),
{
    let file = cursor.waiting.file();
    if forall|j: int|
        0 <= j < fs.preopen_fds.len() ==> !#[trigger] lies_at_preopen(fs, file, false, j) {
        law_outside_is_refused(fs, file, false);
    }
    if 0 <= k < fs.preopen_fds.len() && lies_at_preopen(fs, file, false, k) && (forall|j: int|
        0 <= j < k ==> !#[trigger] lies_at_preopen(fs, file, false, j)) {
        law_split_at_the_first_preopen(fs, file, false, k);
        assert(fs.is_base(fs.preopen_fds[k]));
    }
}

/// A guest's path begins at the inode that its base descriptor is open on, with all its
/// components to go and no link traversed; without the descriptor it does not begin.
pub proof fn law_where_a_path_begins(
    fs: FsView,
    base: __wasi_fd_t,
    path: Seq<char>,
    follow_symlinks: bool,
)
    ensures
        !fs.fds.contains_key(base) <==> path_start(fs, base, path, follow_symlinks) is Err,
        !fs.fds.contains_key(base) ==> path_start(fs, base, path, follow_symlinks)->Err_0 == 8,
        fs.fds.contains_key(base) ==> {
            let cursor = path_start(fs, base, path, follow_symlinks)->Ok_0;
            &&& cursor.frames.len() == 1
            &&& cursor.top().cur_inode == fs.fds[base].inode
            &&& cursor.top().components == path_components(path)
            &&& cursor.top().next == 0
            &&& cursor.top().symlink_count == 0
            &&& cursor.follow_symlinks == follow_symlinks
            &&& cursor.waiting is Nothing
        },
{
}

/// The directory that a file is in is resolved from the same descriptor as the file would be,
/// with every link followed, and the file's name is kept apart: the components of the one and
/// then the other are those of the path. A path without components has no parent, and that
/// is said before the descriptor is looked at.
pub proof fn law_where_a_parent_begins(fs: FsView, base: __wasi_fd_t, path: Seq<char>)
    ensures
        parent_start(fs, base, path) is Ok <==> path.len() > 0 && fs.fds.contains_key(base),
        path.len() == 0 ==> parent_start(fs, base, path)->Err_0 == 28,
        path.len() > 0 && !fs.fds.contains_key(base) ==> parent_start(fs, base, path)->Err_0 == 8,
        parent_start(fs, base, path) matches Ok((cursor, name)) ==> {
            &&& cursor.frames.len() == 1
            &&& cursor.top().components.push(name) == path_components(path)
            &&& cursor.top().cur_inode == fs.fds[base].inode
            &&& cursor.top().next == 0
            &&& cursor.top().symlink_count == 0
            &&& cursor.follow_symlinks
            &&& cursor.waiting is Nothing
        },
{
    if path_components(path).len() == 0 {
        lemma_no_components(path);
    } else {
        if path.len() == 0 {
            lemma_components_of_join(Seq::empty());
            assert(path =~= path_join(Seq::empty()));
        }
        assert(path_components(path).drop_last().push(path_components(path).last())
            =~= path_components(path));
    }
}

/// Where the root is preopened first, every absolute host path is split at the root, and the
/// rest, from the host's root, leads back to the whole.
pub proof fn law_host_paths_are_split_with_the_root(fs: FsView, path: Seq<char>)
    requires
        fs.preopens_open(),
        fs.preopen_fds.len() > 0,
        fs.kind(fs.fds[fs.preopen_fds[0]].inode) is Root,
        is_absolute(path),
    ensures
        host_path_split(fs, path) is Ok,
        host_path_split(fs, path)->Ok_0.0 == fs.preopen_fds[0],
        path_components(path_push(seq!['/'], host_path_split(fs, path)->Ok_0.1))
            == path_components(path),
{
    lemma_components_shape(path);
    assert(lies_at_preopen(fs, path, true, 0));
    law_split_at_the_first_preopen(fs, path, true, 0);
}

/// A host path is split at the first of all that is preopened which it lies at or below, and
/// is invalid where there is none.
pub proof fn law_host_paths_are_split(fs: FsView, path: Seq<char>, k: int)
    requires
        fs.preopens_open(),
        0 <= k <= fs.preopen_fds.len(),
        forall|j: int| 0 <= j < k ==> !#[trigger] lies_at_preopen(fs, path, true, j),
        k < fs.preopen_fds.len() ==> lies_at_preopen(fs, path, true, k),
    ensures
        k == fs.preopen_fds.len() ==> host_path_split(fs, path) == Err::<
            (__wasi_fd_t, Seq<char>),
            __wasi_errno_t,
        >(28),
        k < fs.preopen_fds.len() ==> host_path_split(fs, path) is Ok && host_path_split(
            fs,
            path,
        )->Ok_0.0 == fs.preopen_fds[k],
        k < fs.preopen_fds.len() && fs.kind(fs.fds[fs.preopen_fds[k]].inode) is Dir
            ==> path_components(
            path_push(
                fs.kind(fs.fds[fs.preopen_fds[k]].inode)->Dir_path,
                host_path_split(fs, path)->Ok_0.1,
            ),
        ) == path_components(path),
{
    if k < fs.preopen_fds.len() {
        law_split_at_the_first_preopen(fs, path, true, k);
    } else {
        law_outside_is_refused(fs, path, true);
    }
}

/// A link can be gone through as long as fewer than a hundred and twenty-eight have been, and
/// one more is refused; a link that starts from a descriptor that is not open is refused too,
/// as is leaving a directory without a parent. Each refusal has its own number.
pub proof fn law_numbers_of_refusals(fs: FsView, cursor: CursorView)
    requires
        cursor.top().next < cursor.top().components.len(),
        cursor.top().symlink_count <= 128,
    ensures
        fs.kind(cursor.top().cur_inode) is Symlink && cursor.top().symlink_count == 128 ==> advance(
            fs,
            cursor,
        ) == StepView::Done(Err(34)),
        fs.kind(cursor.top().cur_inode) is Symlink && cursor.top().symlink_count < 128
            && !fs.fds.contains_key(fs.kind(cursor.top().cur_inode)->base_po_dir) ==> advance(
            fs,
            cursor,
        ) == StepView::Done(Err(8)),
        fs.kind(cursor.top().cur_inode) is Symlink && cursor.top().symlink_count < 128
            && fs.fds.contains_key(fs.kind(cursor.top().cur_inode)->base_po_dir) ==> advance(
            fs,
            cursor,
        ) is Continue,
        fs.kind(cursor.top().cur_inode) matches KindView::Dir { parent: None, .. }
            && cursor.top().component() == parent_dir() ==> advance(fs, cursor) == StepView::Done(
            Err(2),
        ),
{
}

/// A directory and the root can hold a file; nothing else can.
pub proof fn law_what_can_hold_a_file(fs: FsView, inode: Inode)
    ensures
        fs.kind(inode) is Dir || fs.kind(inode) is Root ==> parent_of(fs, inode) == Ok::<
            Inode,
            __wasi_errno_t,
        >(inode),
        !(fs.kind(inode) is Dir || fs.kind(inode) is Root) ==> parent_of(fs, inode) == Err::<
            Inode,
            __wasi_errno_t,
        >(54),
{
}

} // verus!

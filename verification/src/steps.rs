//! What a step of path resolution is: what comes of it and what it leaves in the
//! filesystem.
use crate::cursor::{
    replies, request_for, CursorView, FrameView, ReplyView, RequestView, StepView, Unsupported,
    WaitingView, MAX_SYMLINKS,
};
use crate::host::{HostFileType, StatAnswer};
use crate::inode::{Inode, InodeView, KindView};
use crate::model::{lemma_entry_wf, lemma_new_inode_wf, FsView};
use crate::path::{
    cur_dir, is_absolute, is_component_list, is_dots, is_under, lemma_components_shape, parent_dir,
    path_components, path_pop, path_push, path_rest, root_dir,
};
use crate::wasi::{
    __wasi_errno_t, __wasi_fd_t, __wasi_filestat_t, __WASI_EACCES, __WASI_EBADF, __WASI_EINVAL,
    __WASI_EIO, __WASI_EMLINK, __WASI_ENOTDIR,
};
use vstd::prelude::*;

verus! {

/// The beginning of a path at a base descriptor.
pub open spec fn first_frame(
    fs: FsView,
    base: __wasi_fd_t,
    path: Seq<char>,
    symlink_count: u32,
) -> Result<FrameView, __wasi_errno_t> {
    if symlink_count > MAX_SYMLINKS {
        Err(__WASI_EMLINK)
    } else if !fs.fds.contains_key(base) {
        Err(__WASI_EBADF)
    } else {
        Ok(
            FrameView {
                components: path_components(path),
                next: 0,
                cur_inode: fs.fds[base].inode,
                symlink_count,
            },
        )
    }
}

/// The cursor at the beginning of a guest's path.
pub open spec fn first_cursor(frame: FrameView, follow_symlinks: bool) -> CursorView {
    CursorView { frames: seq![frame], follow_symlinks, waiting: WaitingView::Nothing }
}

/// The beginning of the path to the directory that the file at a path is in.
pub open spec fn parent_frame(fs: FsView, base: __wasi_fd_t, path: Seq<char>) -> FrameView {
    FrameView {
        components: path_components(path).drop_last(),
        next: 0,
        cur_inode: fs.fds[base].inode,
        symlink_count: 0,
    }
}

/// The name of the file at a path.
pub open spec fn entity_name(path: Seq<char>) -> Seq<char> {
    path_components(path).last()
}

/// How the resolution of a guest's path begins, or why it does not.
pub open spec fn path_start(
    fs: FsView,
    base: __wasi_fd_t,
    path: Seq<char>,
    follow_symlinks: bool,
) -> Result<CursorView, __wasi_errno_t> {
    match first_frame(fs, base, path, 0) {
        Ok(frame) => Ok(first_cursor(frame, follow_symlinks)),
        Err(e) => Err(e),
    }
}

/// How the resolution of the directory that the file at a path is in begins, and the file's
/// name; or why it does not.
pub open spec fn parent_start(fs: FsView, base: __wasi_fd_t, path: Seq<char>) -> Result<
    (CursorView, Seq<char>),
    __wasi_errno_t,
> {
    if path_components(path).len() == 0 {
        Err(__WASI_EINVAL)
    } else if !fs.fds.contains_key(base) {
        Err(__WASI_EBADF)
    } else {
        Ok((first_cursor(parent_frame(fs, base, path), true), entity_name(path)))
    }
}

/// The preopened descriptor that a host path lies at or below, the root among them, and the
/// path from there.
pub open spec fn host_path_split(fs: FsView, path: Seq<char>) -> Result<
    (__wasi_fd_t, Seq<char>),
    __wasi_errno_t,
> {
    preopen_split(fs, path, true, 0)
}

/// What a file's parent is taken to be: a directory or the root, and nothing else.
pub open spec fn parent_of(fs: FsView, inode: Inode) -> Result<Inode, __wasi_errno_t> {
    if fs.kind(inode).has_entries() {
        Ok(inode)
    } else {
        Err(__WASI_ENOTDIR)
    }
}

/// The host path of a preopened descriptor; the root stands for the host's root.
pub open spec fn preopen_path(fs: FsView, fd: __wasi_fd_t) -> Seq<char> {
    match fs.kind(fs.fds[fd].inode) {
        KindView::Dir { path, .. } => path,
        _ => root_dir(),
    }
}

/// The first preopened descriptor, from the `k`th on, that a host path lies at or
/// below, and the path from there. The root counts only where it is asked for.
pub open spec fn preopen_split(fs: FsView, path: Seq<char>, with_root: bool, k: int) -> Result<
    (__wasi_fd_t, Seq<char>),
    __wasi_errno_t,
>
    decreases fs.preopen_fds.len() - k,
{
    if k >= fs.preopen_fds.len() {
        Err(__WASI_EINVAL)
    } else {
        let fd = fs.preopen_fds[k];
        if (with_root || fs.kind(fs.fds[fd].inode) is Dir) && is_under(
            path,
            preopen_path(fs, fd),
        ) {
            Ok((fd, path_rest(path, preopen_path(fs, fd))))
        } else {
            preopen_split(fs, path, with_root, k + 1)
        }
    }
}

/// The preopened descriptors that are looked at, from the `k`th on, until a host path
/// lies at or below one, are open on directories or the root.
pub open spec fn split_ready(fs: FsView, path: Seq<char>, with_root: bool, k: int) -> bool
    decreases fs.preopen_fds.len() - k,
{
    k >= fs.preopen_fds.len() || {
        let fd = fs.preopen_fds[k];
        &&& fs.is_base(fd)
        &&& (with_root || fs.kind(fs.fds[fd].inode) is Dir) && is_under(path, preopen_path(fs, fd))
            || split_ready(fs, path, with_root, k + 1)
    }
}

/// The kinds of inode that are made for a file in a directory.
pub open spec fn loads(fs: FsView, dir: Inode, file: Seq<char>, kind: KindView) -> bool {
    match kind {
        KindView::Dir { parent, path, entries } => {
            &&& parent == Some(dir)
            &&& path == file
            &&& entries == Map::<Seq<char>, Inode>::empty()
        },
        KindView::File { handle, path } => handle is None && path == file,
        KindView::Symlink { base_po_dir, path_to_symlink, relative_path } => {
            &&& preopen_split(fs, file, false, 0) == Ok::<
                (__wasi_fd_t, Seq<char>),
                __wasi_errno_t,
            >((base_po_dir, path_to_symlink))
            &&& fs.is_base(base_po_dir)
            &&& fs.kind(fs.fds[base_po_dir].inode) is Dir
            &&& !is_absolute(relative_path)
        },
        _ => false,
    }
}

/// The path that a symbolic link stands for, from where the link's own path starts.
pub open spec fn link_target(path_to_symlink: Seq<char>, relative_path: Seq<char>) -> Seq<char> {
    path_push(path_pop(path_to_symlink), relative_path)
}

/// A path that met a symbolic link, once the link's path is resolved: it goes on from
/// where the link led, with the links counted that were traversed on the way there.
pub open spec fn resumed(frame: FrameView, inode: Inode, symlink_count: u32) -> FrameView {
    FrameView { cur_inode: inode, symlink_count, ..frame }
}

/// The cursor once the path of a symbolic link is resolved.
pub open spec fn link_resolved(
    cursor: CursorView,
    inode: Inode,
    symlink_count: u32,
) -> CursorView {
    let rest = CursorView { frames: cursor.frames.drop_last(), ..cursor };
    rest.with_top(resumed(rest.top(), inode, symlink_count))
}

/// The path is at its end: no component is left, and its last one did not lead to a
/// symbolic link that is to be followed.
pub open spec fn is_resolved(fs: FsView, frame: FrameView, follow_symlinks: bool) -> bool {
    &&& frame.next >= frame.components.len()
    &&& !(follow_symlinks && frame.components.len() > 0 && fs.kind(frame.cur_inode) is Symlink)
}

/// A step that needs no reply. Nothing changes in the filesystem.
pub open spec fn advance(fs: FsView, cursor: CursorView) -> StepView {
    let frame = cursor.top();
    if is_resolved(fs, frame, cursor.follow_symlinks) {
        if cursor.frames.len() == 1 {
            StepView::Done(Ok(frame.cur_inode))
        } else {
            StepView::Continue(link_resolved(cursor, frame.cur_inode, frame.symlink_count))
        }
    } else {
        let name = frame.component();
        match fs.kind(frame.cur_inode) {
            KindView::Buffer { .. } => StepView::Unsupported(Unsupported::Buffer),
            KindView::File { .. } => StepView::Done(Err(__WASI_ENOTDIR)),
            KindView::Root { entries } => if is_dots(name) {
                // the root's parent is the root
                StepView::Continue(cursor.with_top(frame.skipped()))
            } else if entries.contains_key(name) {
                StepView::Continue(cursor.with_top(frame.entered(entries[name])))
            } else {
                StepView::Done(Err(__WASI_EINVAL))
            },
            KindView::Dir { parent, path, entries } => if name == parent_dir() {
                match parent {
                    Some(p) => StepView::Continue(cursor.with_top(frame.entered(p))),
                    None => StepView::Done(Err(__WASI_EACCES)),
                }
            } else if name == cur_dir() {
                StepView::Continue(cursor.with_top(frame.skipped()))
            } else if entries.contains_key(name) {
                StepView::Continue(cursor.with_top(frame.entered(entries[name])))
            } else if name == root_dir() {
                // a path does not start over at the host's root
                StepView::Done(Err(__WASI_EINVAL))
            } else {
                let file = path_push(path, name);
                StepView::Ask(
                    RequestView::FileType(file),
                    cursor.waiting_for(WaitingView::FileType { file }),
                )
            },
            KindView::Symlink { base_po_dir, path_to_symlink, relative_path } => {
                let target = link_target(path_to_symlink, relative_path);
                match first_frame(fs, base_po_dir, target, (frame.symlink_count + 1) as u32) {
                    Ok(f) => StepView::Continue(cursor.with_link(f)),
                    Err(e) => StepView::Done(Err(e)),
                }
            },
        }
    }
}

/// Asking for the attributes of an inode that is about to be made.
pub open spec fn ask_stat(
    fs: FsView,
    cursor: CursorView,
    file: Seq<char>,
    kind: KindView,
) -> StepView {
    StepView::Ask(
        RequestView::Stat(fs.stat_source(kind)->0),
        cursor.waiting_for(WaitingView::Stat { file, kind }),
    )
}

/// A step on the type of a file that is not loaded yet.
pub open spec fn learn_file_type(
    fs: FsView,
    cursor: CursorView,
    file: Seq<char>,
    file_type: Option<HostFileType>,
) -> StepView {
    match file_type {
        None => StepView::Done(Err(__WASI_EINVAL)),
        Some(HostFileType::Dir) => ask_stat(
            fs,
            cursor,
            file,
            KindView::Dir {
                parent: Some(cursor.top().cur_inode),
                path: file,
                entries: Map::empty(),
            },
        ),
        Some(HostFileType::File) => ask_stat(
            fs,
            cursor,
            file,
            KindView::File { handle: None, path: file },
        ),
        Some(HostFileType::Symlink) => StepView::Ask(
            RequestView::LinkValue(file),
            cursor.waiting_for(WaitingView::LinkValue { file }),
        ),
        Some(HostFileType::Other) => StepView::Unsupported(Unsupported::FileType),
    }
}

/// A step on the value of a symbolic link that is not loaded yet.
pub open spec fn learn_link(
    fs: FsView,
    cursor: CursorView,
    file: Seq<char>,
    value: Option<Seq<char>>,
) -> StepView {
    match value {
        None => StepView::Done(Err(__WASI_EIO)),
        Some(v) => if is_absolute(v) {
            StepView::Unsupported(Unsupported::AbsoluteSymlink)
        } else {
            match preopen_split(fs, file, false, 0) {
                Err(e) => StepView::Done(Err(e)),
                Ok((fd, rest)) => ask_stat(
                    fs,
                    cursor,
                    file,
                    KindView::Symlink {
                        base_po_dir: fd,
                        path_to_symlink: rest,
                        relative_path: v,
                    },
                ),
            }
        },
    }
}

/// The inode that is made for a file once its attributes are known.
pub open spec fn loaded_inode(
    fs: FsView,
    file: Seq<char>,
    kind: KindView,
    answer: StatAnswer,
) -> InodeView {
    InodeView {
        stat: __wasi_filestat_t {
            st_ino: fs.next_ino,
            ..fs.stat_for_kind(kind, answer)->0
        },
        is_preopened: false,
        name: file,
        kind,
    }
}

/// The filesystem once an inode is made for a file in a directory. Newly opened
/// directories and files become entries, transient symbolic links do not.
pub open spec fn with_loaded(
    fs: FsView,
    dir: Inode,
    name: Seq<char>,
    inode: Inode,
    value: InodeView,
) -> FsView {
    let made = fs.with_new_inode(inode, value);
    if value.kind is Symlink {
        made
    } else {
        made.with_entry(dir, name, inode)
    }
}

/// A step on the attributes for a new inode.
pub open spec fn learn_stat(
    fs: FsView,
    cursor: CursorView,
    kind: KindView,
    answer: StatAnswer,
    inode: Inode,
) -> StepView {
    if fs.stat_for_kind(kind, answer) is Some {
        StepView::Continue(cursor.with_top(cursor.top().entered(inode)))
    } else {
        StepView::Done(Err(__WASI_EIO))
    }
}

/// What comes of a step; `inode` is the one that is made, if one is.
pub open spec fn step(
    fs: FsView,
    cursor: CursorView,
    reply: ReplyView,
    inode: Inode,
) -> StepView {
    match (cursor.waiting, reply) {
        (WaitingView::FileType { file }, ReplyView::FileType(t)) => learn_file_type(
            fs,
            cursor,
            file,
            t,
        ),
        (WaitingView::LinkValue { file }, ReplyView::LinkValue(v)) => learn_link(
            fs,
            cursor,
            file,
            v,
        ),
        (WaitingView::Stat { kind, .. }, ReplyView::Stat(answer)) => learn_stat(
            fs,
            cursor,
            kind,
            answer,
            inode,
        ),
        _ => advance(fs, cursor),
    }
}

/// A step makes an inode.
pub open spec fn makes_inode(fs: FsView, cursor: CursorView, reply: ReplyView) -> bool {
    &&& cursor.waiting matches WaitingView::Stat { kind, .. }
    &&& reply matches ReplyView::Stat(answer)
    &&& fs.stat_for_kind(kind, answer) is Some
}

/// The inode that a step made, where it made one: the cursor has reached it.
pub open spec fn made_inode(step: StepView) -> Inode {
    step->Continue_0.top().cur_inode
}

/// The filesystem after a step; `inode` is the one that is made, if one is.
pub open spec fn fs_after(
    fs: FsView,
    cursor: CursorView,
    reply: ReplyView,
    inode: Inode,
) -> FsView {
    match (cursor.waiting, reply) {
        (WaitingView::Stat { file, kind }, ReplyView::Stat(answer)) => if fs.stat_for_kind(
            kind,
            answer,
        ) is Some {
            with_loaded(
                fs,
                cursor.top().cur_inode,
                cursor.top().component(),
                inode,
                loaded_inode(fs, file, kind, answer),
            )
        } else {
            fs
        },
        _ => fs,
    }
}

/// The cursor that a step hands on, if it does, is in order in the filesystem that it
/// leaves, and waits for what the step asks.
pub open spec fn step_wf(fs: FsView, step: StepView) -> bool {
    match step {
        StepView::Continue(cursor) => cursor.wf(fs) && cursor.waiting is Nothing,
        StepView::Ask(request, cursor) => {
            &&& cursor.wf(fs)
            &&& !(cursor.waiting is Nothing)
            &&& request == request_for(fs, cursor.waiting)
        },
        _ => true,
    }
}

/// Every inode that has been reached by the cursor that a step hands on exists.
pub open spec fn step_live(fs: FsView, step: StepView) -> bool {
    match step {
        StepView::Continue(cursor) => cursor.is_live(fs),
        StepView::Ask(_, cursor) => cursor.is_live(fs),
        _ => true,
    }
}

/// What a step reads is there: the inode that has been reached, unless the path is at its
/// end and does not ask what it has reached; and where a new symbolic link starts from.
pub open spec fn is_ready(fs: FsView, cursor: CursorView, reply: ReplyView) -> bool {
    let frame = cursor.top();
    match cursor.waiting {
        WaitingView::Nothing => {
            ||| frame.next >= frame.components.len() && !(cursor.follow_symlinks
                && frame.components.len() > 0)
            ||| fs.live(frame.cur_inode)
        },
        WaitingView::LinkValue { file } => reply matches ReplyView::LinkValue(Some(value))
            && !is_absolute(value) ==> split_ready(fs, file, false, 0),
        _ => true,
    }
}

/// Where every reference leads somewhere, the descriptors that are looked at are open.
pub proof fn lemma_wf_split_ready(fs: FsView, path: Seq<char>, with_root: bool, k: int)
    requires
        fs.preopens_open(),
        0 <= k,
    ensures
        split_ready(fs, path, with_root, k),
    decreases fs.preopen_fds.len() - k,
{
    if k < fs.preopen_fds.len() {
        assert(fs.is_base(fs.preopen_fds[k]));
        lemma_wf_split_ready(fs, path, with_root, k + 1);
    }
}

/// Where every reference leads somewhere, what a step reads is there.
pub proof fn lemma_wf_is_ready(fs: FsView, cursor: CursorView, reply: ReplyView)
    requires
        fs.wf(),
        cursor.wf(fs),
        cursor.is_live(fs),
    ensures
        is_ready(fs, cursor, reply),
{
    assert(cursor.top() == cursor.frames[cursor.frames.len() - 1]);
    lemma_wf_split_ready(fs, cursor.waiting.file(), false, 0);
}

/// Taking the path being resolved further keeps a cursor in order.
proof fn lemma_with_top_wf(fs: FsView, after: FsView, cursor: CursorView, frame: FrameView)
    requires
        cursor.wf(fs),
        is_component_list(frame.components),
        0 <= frame.next <= frame.components.len(),
        cursor.top().symlink_count <= frame.symlink_count <= MAX_SYMLINKS,
    ensures
        cursor.with_top(frame).wf(after),
{
    let c = cursor.with_top(frame);
    let n = cursor.frames.len();
    assert(cursor.frames[n - 1] == cursor.top());
    assert forall|k: int| 0 <= k < n - 1 implies #[trigger] c.frames[k] == cursor.frames[k] by {
    }
    assert(c.frames[n - 1] == frame);
}

/// A symbolic link that is gone through keeps a cursor in order.
proof fn lemma_with_link_wf(fs: FsView, cursor: CursorView, frame: FrameView)
    requires
        cursor.wf(fs),
        is_component_list(frame.components),
        frame.next == 0,
        frame.symlink_count == cursor.top().symlink_count + 1,
        frame.symlink_count <= MAX_SYMLINKS,
    ensures
        cursor.with_link(frame).wf(fs),
{
    let c = cursor.with_link(frame);
    let n = cursor.frames.len();
    assert(cursor.frames[n - 1] == cursor.top());
    assert forall|k: int| 0 <= k < n implies #[trigger] c.frames[k] == cursor.frames[k] by {
    }
    assert(c.frames[n as int] == frame);
}

/// Coming back from a symbolic link keeps a cursor in order.
proof fn lemma_link_resolved_wf(fs: FsView, cursor: CursorView)
    requires
        cursor.wf(fs),
        cursor.frames.len() > 1,
    ensures
        link_resolved(cursor, cursor.top().cur_inode, cursor.top().symlink_count).wf(fs),
{
    let n = cursor.frames.len();
    let rest = CursorView {
        frames: cursor.frames.drop_last(),
        waiting: WaitingView::Nothing,
        ..cursor
    };
    assert forall|k: int| 0 <= k < n - 1 implies #[trigger] rest.frames[k] == cursor.frames[k] by {
    }
    assert(rest.wf(fs));
    let frame = rest.top();
    assert(frame == cursor.frames[n - 2]);
    let link = cursor.top();
    assert(link == cursor.frames[n - 1]);
    let onward = resumed(frame, link.cur_inode, link.symlink_count);
    lemma_with_top_wf(fs, fs, rest, onward);
    assert(link_resolved(cursor, link.cur_inode, link.symlink_count) == rest.with_top(onward));
}

/// A path that needs no reply keeps the cursor in order.
proof fn lemma_advance_wf(fs: FsView, cursor: CursorView)
    requires
        cursor.wf(fs),
        is_ready(fs, cursor, ReplyView::Nothing),
        cursor.waiting is Nothing,
    ensures
        step_wf(fs, advance(fs, cursor)),
{
    let frame = cursor.top();
    assert(frame == cursor.frames[cursor.frames.len() - 1]);
    let kind = fs.kind(frame.cur_inode);
    if is_resolved(fs, frame, cursor.follow_symlinks) {
        if cursor.frames.len() > 1 {
            lemma_link_resolved_wf(fs, cursor);
        }
    } else if kind is Symlink {
        let target = link_target(kind->path_to_symlink, kind->relative_path);
        let link = first_frame(fs, kind->base_po_dir, target, (frame.symlink_count + 1) as u32);
        if link is Ok {
            lemma_components_shape(target);
            lemma_with_link_wf(fs, cursor, link->Ok_0);
        }
    } else {
        let name = frame.component();
        lemma_with_top_wf(fs, fs, cursor, frame.skipped());
        if kind.entries().contains_key(name) {
            lemma_with_top_wf(fs, fs, cursor, frame.entered(kind.entries()[name]));
        }
        if kind.parent() is Some {
            lemma_with_top_wf(fs, fs, cursor, frame.entered(kind.parent()->0));
        }
    }
}

/// The preopened descriptor that a path lies below is one of them, and a directory
/// where the root does not count.
pub proof fn lemma_preopen_split(fs: FsView, path: Seq<char>, with_root: bool, k: int)
    requires
        split_ready(fs, path, with_root, k),
        0 <= k,
    ensures
        match preopen_split(fs, path, with_root, k) {
            Ok((fd, rest)) => {
                &&& fs.is_base(fd)
                &&& with_root || fs.kind(fs.fds[fd].inode) is Dir
                &&& fs.preopen_fds.contains(fd)
                &&& is_under(path, preopen_path(fs, fd))
                &&& rest == path_rest(path, preopen_path(fs, fd))
            },
            Err(e) => e == __WASI_EINVAL,
        },
    decreases fs.preopen_fds.len() - k,
{
    if k < fs.preopen_fds.len() && split_ready(fs, path, with_root, k + 1) {
        lemma_preopen_split(fs, path, with_root, k + 1);
    }
}

/// The filesystem stays in order when an inode is made for a file.
pub proof fn lemma_loaded_wf(
    fs: FsView,
    dir: Inode,
    name: Seq<char>,
    inode: Inode,
    value: InodeView,
)
    requires
        fs.wf(),
        fs.live(dir),
        !fs.live(inode),
        fs.kind_live(value.kind),
    ensures
        with_loaded(fs, dir, name, inode, value).wf(),
{
    let made = fs.with_new_inode(inode, value);
    lemma_new_inode_wf(fs, inode, value);
    lemma_entry_wf(made, dir, name, inode);
}

/// Every cursor that a step hands on is in order.
pub proof fn lemma_step_cursor_wf(fs: FsView, cursor: CursorView, reply: ReplyView, inode: Inode)
    requires
        cursor.wf(fs),
        is_ready(fs, cursor, reply),
        replies(fs, cursor.waiting, reply),
    ensures
        step_wf(fs_after(fs, cursor, reply, inode), step(fs, cursor, reply, inode)),
{
    let frame = cursor.top();
    assert(frame == cursor.frames[cursor.frames.len() - 1]);
    match cursor.waiting {
        WaitingView::Nothing => lemma_advance_wf(fs, cursor),
        WaitingView::FileType { .. } => {},
        WaitingView::LinkValue { file } => {
            if step(fs, cursor, reply, inode) is Ask {
                lemma_preopen_split(fs, file, false, 0);
            }
        },
        WaitingView::Stat { file, kind } => {
            if makes_inode(fs, cursor, reply) {
                lemma_with_top_wf(
                    fs,
                    fs_after(fs, cursor, reply, inode),
                    cursor,
                    frame.entered(inode),
                );
            }
        },
    }
}

/// Taking the path being resolved further, to an inode that exists, reaches only inodes
/// that exist.
proof fn lemma_with_top_live(fs: FsView, after: FsView, cursor: CursorView, frame: FrameView)
    requires
        cursor.frames.len() > 0,
        cursor.is_live(fs),
        forall|i: Inode| #[trigger] fs.inodes.contains_key(i) ==> after.inodes.contains_key(i),
        after.live(frame.cur_inode),
    ensures
        cursor.with_top(frame).is_live(after),
{
    let c = cursor.with_top(frame);
    assert forall|k: int| #![trigger c.frames[k]] 0 <= k < c.frames.len() implies after.live(
        c.frames[k].cur_inode,
    ) by {
        if k < cursor.frames.len() - 1 {
            assert(c.frames[k] == cursor.frames[k]);
        }
    }
}

/// Where every reference leads somewhere, a step that needs no reply reaches only inodes
/// that exist.
proof fn lemma_advance_live(fs: FsView, cursor: CursorView)
    requires
        fs.wf(),
        cursor.wf(fs),
        cursor.is_live(fs),
    ensures
        step_live(fs, advance(fs, cursor)),
{
    let n = cursor.frames.len();
    let frame = cursor.top();
    assert(frame == cursor.frames[n - 1]);
    assert(fs.inodes.contains_key(frame.cur_inode));
    let kind = fs.kind(frame.cur_inode);
    assert(fs.kind_live(kind));
    if is_resolved(fs, frame, cursor.follow_symlinks) {
        if n > 1 {
            let rest = CursorView { frames: cursor.frames.drop_last(), ..cursor };
            assert forall|k: int| #![trigger rest.frames[k]] 0 <= k < n - 1 implies fs.live(
                rest.frames[k].cur_inode,
            ) by {
                assert(rest.frames[k] == cursor.frames[k]);
            }
            let onward = resumed(rest.top(), frame.cur_inode, frame.symlink_count);
            lemma_with_top_live(fs, fs, rest, onward);
        }
    } else if kind is Symlink {
        let target = link_target(kind->path_to_symlink, kind->relative_path);
        let link = first_frame(fs, kind->base_po_dir, target, (frame.symlink_count + 1) as u32);
        if link is Ok {
            let c = cursor.with_link(link->Ok_0);
            assert forall|k: int| #![trigger c.frames[k]] 0 <= k < n + 1 implies fs.live(
                c.frames[k].cur_inode,
            ) by {
                if k < n {
                    assert(c.frames[k] == cursor.frames[k]);
                }
            }
        }
    } else {
        let name = frame.component();
        lemma_with_top_live(fs, fs, cursor, frame.skipped());
        if kind.entries().contains_key(name) {
            lemma_with_top_live(fs, fs, cursor, frame.entered(kind.entries()[name]));
        }
        if kind.parent() is Some {
            lemma_with_top_live(fs, fs, cursor, frame.entered(kind.parent()->0));
        }
    }
}

/// Where every reference leads somewhere, a step reaches only inodes that exist.
proof fn lemma_step_live(fs: FsView, cursor: CursorView, reply: ReplyView, inode: Inode)
    requires
        fs.wf(),
        cursor.wf(fs),
        cursor.is_live(fs),
        replies(fs, cursor.waiting, reply),
    ensures
        step_live(fs_after(fs, cursor, reply, inode), step(fs, cursor, reply, inode)),
{
    let after = fs_after(fs, cursor, reply, inode);
    if cursor.waiting is Nothing {
        lemma_advance_live(fs, cursor);
    } else if makes_inode(fs, cursor, reply) {
        lemma_with_top_live(fs, after, cursor, cursor.top().entered(inode));
    } else if let StepView::Ask(_, next) = step(fs, cursor, reply, inode) {
        assert(next.frames == cursor.frames);
    }
}

/// A step leaves the filesystem in order, and so is every cursor that it hands on.
pub proof fn lemma_step_wf(fs: FsView, cursor: CursorView, reply: ReplyView, inode: Inode)
    requires
        fs.wf(),
        cursor.wf(fs),
        cursor.is_live(fs),
        replies(fs, cursor.waiting, reply),
        makes_inode(fs, cursor, reply) ==> !fs.live(inode),
    ensures
        fs_after(fs, cursor, reply, inode).wf(),
        step_wf(fs_after(fs, cursor, reply, inode), step(fs, cursor, reply, inode)),
        step_live(fs_after(fs, cursor, reply, inode), step(fs, cursor, reply, inode)),
{
    lemma_wf_is_ready(fs, cursor, reply);
    lemma_step_cursor_wf(fs, cursor, reply, inode);
    lemma_step_live(fs, cursor, reply, inode);
    lemma_step_fs_wf(fs, cursor, reply, inode);
}

/// A step leaves the filesystem in order.
pub proof fn lemma_step_fs_wf(fs: FsView, cursor: CursorView, reply: ReplyView, inode: Inode)
    requires
        fs.wf(),
        cursor.wf(fs),
        makes_inode(fs, cursor, reply) ==> !fs.live(inode),
    ensures
        fs_after(fs, cursor, reply, inode).wf(),
{
    if let WaitingView::Stat { file, kind } = cursor.waiting {
        if makes_inode(fs, cursor, reply) {
            let frame = cursor.top();
            let value = loaded_inode(fs, file, kind, reply->Stat_0);
            lemma_loaded_wf(fs, frame.cur_inode, frame.component(), inode, value);
        }
    }
}

} // verus!

//! The sandbox: where on the host resolution can lead.
use crate::cursor::{replies, CursorView, ReplyView, RequestView, StepView, WaitingView};
use crate::fs::VIRTUAL_ROOT_FD;
use crate::host::{FileAttributes, StatSourceView};
use crate::inode::{FileHandle, Inode, InodeView, KindView};
use crate::model::FsView;
use crate::path::{
    cur_dir, is_dots, is_plain, is_under, lemma_components_of_join, lemma_components_shape,
    lemma_no_components, lemma_push_component, lemma_push_join, path_components, path_join,
    path_push, path_rest,
};
use crate::preopen::{is_fresh, nth_preopen, DirView};
use crate::steps::{
    advance, fs_after, is_ready, lemma_preopen_split, lemma_wf_is_ready, lemma_wf_split_ready,
    loaded_inode, makes_inode, preopen_path, preopen_split, step, with_loaded,
};
use crate::wasi::{__wasi_fd_t, __wasi_fdflags_t, __wasi_rights_t};
use vstd::prelude::*;

verus! {

/// The path lies at or below the base by names alone: what comes behind the base is
/// neither the root, nor `.`, nor `..`.
pub open spec fn is_below(p: Seq<char>, base: Seq<char>) -> bool {
    &&& is_under(p, base)
    &&& forall|i: int|
        path_components(base).len() <= i < path_components(p).len() ==> is_plain(
            #[trigger] path_components(p)[i],
        ) && !is_dots(path_components(p)[i])
}

/// The `k`th preopened descriptor is a directory.
pub open spec fn is_preopened_dir(fs: FsView, k: int) -> bool {
    0 <= k < fs.preopen_fds.len() && fs.kind(fs.fds[fs.preopen_fds[k]].inode) is Dir
}

/// The host path of the `k`th preopened directory.
pub open spec fn preopened_dir(fs: FsView, k: int) -> Seq<char> {
    preopen_path(fs, fs.preopen_fds[k])
}

/// The host path lies at or below a preopened directory.
pub open spec fn is_inside(fs: FsView, p: Seq<char>) -> bool {
    exists|k: int| is_preopened_dir(fs, k) && is_below(p, #[trigger] preopened_dir(fs, k))
}

/// All that the filesystem knows of the host lies inside: every directory, and every
/// file that is not open.
pub open spec fn is_confined(fs: FsView) -> bool {
    forall|i: Inode| #[trigger]
        fs.inodes.contains_key(i) ==> is_confined_kind(fs, fs.kind(i))
}

/// An inode of this kind lies inside, where it has a path on the host.
pub open spec fn is_confined_kind(fs: FsView, kind: KindView) -> bool {
    match kind {
        KindView::Dir { path, .. } => is_inside(fs, path),
        KindView::File { handle: None, path } => is_inside(fs, path),
        _ => true,
    }
}

/// What a request asks about. An open file is not a path of the host.
pub open spec fn request_path(request: RequestView) -> Option<Seq<char>> {
    match request {
        RequestView::FileType(p) => Some(p),
        RequestView::LinkValue(p) => Some(p),
        RequestView::Stat(StatSourceView::Metadata(p)) => Some(p),
        RequestView::Stat(StatSourceView::SymlinkMetadata(p)) => Some(p),
        RequestView::Stat(StatSourceView::Handle(_)) => None,
    }
}

/// A name in a directory that lies inside lies inside.
proof fn lemma_name_inside(fs: FsView, path: Seq<char>, name: Seq<char>)
    requires
        is_inside(fs, path),
        is_plain(name),
        !is_dots(name),
    ensures
        is_inside(fs, path_push(path, name)),
{
    lemma_push_component(path, name);
    let k = choose|k: int|
        is_preopened_dir(fs, k) && is_below(path, #[trigger] preopened_dir(fs, k));
    let base = preopened_dir(fs, k);
    let cs = path_components(path);
    assert(path_components(path_push(path, name)) == cs.push(name));
    assert(is_below(path_push(path, name), base)) by {
        assert forall|i: int|
            path_components(base).len() <= i < cs.push(name).len() implies is_plain(
            #[trigger] cs.push(name)[i],
        ) && !is_dots(cs.push(name)[i]) by {
            if i < cs.len() {
                assert(cs.push(name)[i] == cs[i]);
            }
        }
    }
}

/// From the preopened directory that a host path lies below, the rest of the path leads
/// to the same file.
pub proof fn lemma_split_leads_back(base: Seq<char>, file: Seq<char>)
    requires
        is_under(file, base),
    ensures
        path_components(path_push(base, path_rest(file, base))) == path_components(file),
{
    let cs = path_components(file);
    let n = path_components(base).len() as int;
    let rest = cs.skip(n);
    lemma_components_shape(file);
    if n == 0 {
        lemma_no_components(base);
        lemma_components_of_join(cs);
        assert(rest =~= cs);
        assert(base + path_join(cs) =~= path_join(cs));
    } else {
        assert forall|i: int| #![trigger rest[i]] 0 <= i < rest.len() implies is_plain(rest[i])
            && rest[i] != cur_dir() by {
            assert(rest[i] == cs[i + n]);
        }
        lemma_push_join(base, rest);
        assert(path_components(base) + rest =~= cs);
    }
}

/// The preopened directories stay where they are as inodes are made.
proof fn lemma_loaded_preopens(
    fs: FsView,
    dir: Inode,
    name: Seq<char>,
    inode: Inode,
    value: InodeView,
    k: int,
)
    requires
        fs.wf(),
        fs.live(dir),
        !fs.live(inode),
    ensures
        is_preopened_dir(with_loaded(fs, dir, name, inode, value), k) == is_preopened_dir(fs, k),
        is_preopened_dir(fs, k) ==> preopened_dir(with_loaded(fs, dir, name, inode, value), k)
            == preopened_dir(fs, k),
{
    if 0 <= k < fs.preopen_fds.len() {
        assert(fs.is_base(fs.preopen_fds[k]));
    }
}

/// What is inside stays inside as inodes are made.
proof fn lemma_loaded_inside(
    fs: FsView,
    dir: Inode,
    name: Seq<char>,
    inode: Inode,
    value: InodeView,
    p: Seq<char>,
)
    requires
        fs.wf(),
        fs.live(dir),
        !fs.live(inode),
        is_inside(fs, p),
    ensures
        is_inside(with_loaded(fs, dir, name, inode, value), p),
{
    let after = with_loaded(fs, dir, name, inode, value);
    let k = choose|k: int| is_preopened_dir(fs, k) && is_below(p, #[trigger] preopened_dir(fs, k));
    lemma_loaded_preopens(fs, dir, name, inode, value, k);
    assert(is_below(p, preopened_dir(after, k)));
}

/// A kind that does not lead out still does not as inodes are made.
proof fn lemma_loaded_kind(
    fs: FsView,
    dir: Inode,
    name: Seq<char>,
    inode: Inode,
    value: InodeView,
    kind: KindView,
)
    requires
        fs.wf(),
        fs.live(dir),
        !fs.live(inode),
        is_confined_kind(fs, kind),
    ensures
        is_confined_kind(with_loaded(fs, dir, name, inode, value), kind),
{
    match kind {
        KindView::Dir { path, .. } => lemma_loaded_inside(fs, dir, name, inode, value, path),
        KindView::File { handle: None, path } => lemma_loaded_inside(
            fs,
            dir,
            name,
            inode,
            value,
            path,
        ),
        _ => {},
    }
}

/// The filesystem stays confined as inodes are made.
proof fn lemma_loaded_confined(
    fs: FsView,
    dir: Inode,
    name: Seq<char>,
    inode: Inode,
    value: InodeView,
)
    requires
        fs.wf(),
        is_confined(fs),
        fs.live(dir),
        !fs.live(inode),
        is_confined_kind(fs, value.kind),
    ensures
        is_confined(with_loaded(fs, dir, name, inode, value)),
{
    let after = with_loaded(fs, dir, name, inode, value);
    assert forall|i: Inode| #[trigger] after.inodes.contains_key(i) implies is_confined_kind(
        after,
        after.kind(i),
    ) by {
        if i == inode && i != dir {
            assert(after.kind(i) == value.kind);
            lemma_loaded_kind(fs, dir, name, inode, value, value.kind);
        } else {
            assert(fs.inodes.contains_key(i));
            lemma_loaded_kind(fs, dir, name, inode, value, fs.kind(i));
            assert(is_confined_kind(after, fs.kind(i)));
        }
    }
}

/// A step that needs no reply asks only about what is inside.
proof fn lemma_advance_inside(fs: FsView, cursor: CursorView)
    requires
        is_confined(fs),
        cursor.wf(fs),
        cursor.is_live(fs),
    ensures
        advance(fs, cursor) matches StepView::Ask(request, _) ==> request_path(
            request,
        ) matches Some(p) && is_inside(fs, p),
{
    let frame = cursor.top();
    assert(frame == cursor.frames[cursor.frames.len() - 1]);
    assert(fs.inodes.contains_key(frame.cur_inode));
    assert(is_confined_kind(fs, fs.kind(frame.cur_inode)));
    if advance(fs, cursor) is Ask {
        lemma_name_inside(fs, fs.kind(frame.cur_inode)->Dir_path, frame.component());
    }
}

/// A step on a reply about a file inside asks only about what is inside: about the file,
/// or, by way of the directory that it starts from, about the symbolic link that it is.
proof fn lemma_learn_inside(fs: FsView, cursor: CursorView, reply: ReplyView, inode: Inode)
    requires
        is_ready(fs, cursor, reply),
        cursor.waiting is FileType || cursor.waiting is LinkValue,
        replies(fs, cursor.waiting, reply),
        is_inside(fs, cursor.waiting.file()),
    ensures
        step(fs, cursor, reply, inode) matches StepView::Ask(request, _) ==> request_path(
            request,
        ) matches Some(p) && is_inside(fs, p),
{
    let file = cursor.waiting.file();
    if step(fs, cursor, reply, inode) is Ask && cursor.waiting is LinkValue {
        lemma_preopen_split(fs, file, false, 0);
        let (fd, rest) = preopen_split(fs, file, false, 0)->Ok_0;
        let base = preopen_path(fs, fd);
        lemma_split_leads_back(base, file);
        lemma_same_components_inside(fs, file, path_push(base, rest));
    }
}

/// The filesystem remains sandboxed. Whatever the base and whatever the path, a step of
/// resolution asks the host only about what lies at or below a preopened directory, and
/// comes to know of nothing else.
pub proof fn law_resolution_stays_inside(
    fs: FsView,
    cursor: CursorView,
    reply: ReplyView,
    inode: Inode,
)
    requires
        fs.wf(),
        is_confined(fs),
        cursor.wf(fs),
        cursor.is_live(fs),
        replies(fs, cursor.waiting, reply),
        makes_inode(fs, cursor, reply) ==> !fs.live(inode),
    ensures
        is_confined(fs_after(fs, cursor, reply, inode)),
        step(fs, cursor, reply, inode) matches StepView::Ask(request, _) ==> request_path(
            request,
        ) matches Some(p) && is_inside(fs, p),
{
    let frame = cursor.top();
    assert(frame == cursor.frames[cursor.frames.len() - 1]);
    assert(fs.inodes.contains_key(frame.cur_inode));
    assert(is_confined_kind(fs, fs.kind(frame.cur_inode)));
    lemma_wf_is_ready(fs, cursor, reply);
    if cursor.waiting is Nothing {
        lemma_advance_inside(fs, cursor);
    } else {
        let file = cursor.waiting.file();
        lemma_name_inside(fs, fs.kind(frame.cur_inode)->Dir_path, frame.component());
        if let WaitingView::Stat { kind, .. } = cursor.waiting {
            if makes_inode(fs, cursor, reply) {
                let value = loaded_inode(fs, file, kind, reply->Stat_0);
                assert(is_confined_kind(fs, kind));
                lemma_loaded_confined(fs, frame.cur_inode, frame.component(), inode, value);
            }
        } else {
            lemma_learn_inside(fs, cursor, reply, inode);
        }
    }
}

/// Paths with the same components lie in the same places.
proof fn lemma_same_components_inside(fs: FsView, p: Seq<char>, q: Seq<char>)
    requires
        is_inside(fs, p),
        path_components(p) == path_components(q),
    ensures
        is_inside(fs, q),
{
    let k = choose|k: int| is_preopened_dir(fs, k) && is_below(p, #[trigger] preopened_dir(fs, k));
    assert(is_below(q, preopened_dir(fs, k)));
}

/// There is always a preopened directory that a symbolic link starts from: one that the
/// link lies below, and from which its path leads to it. It is never the root.
pub proof fn law_links_start_from_directories(fs: FsView, file: Seq<char>)
    requires
        fs.wf(),
        is_inside(fs, file),
    ensures
        preopen_split(fs, file, false, 0) matches Ok((fd, rest)) && fs.preopen_fds.contains(fd)
            && fs.kind(fs.fds[fd].inode) is Dir && path_components(
            path_push(preopen_path(fs, fd), rest),
        ) == path_components(file),
{
    let k = choose|k: int|
        is_preopened_dir(fs, k) && is_below(file, #[trigger] preopened_dir(fs, k));
    lemma_split_reaches(fs, file, 0, k);
    lemma_wf_split_ready(fs, file, false, 0);
    lemma_preopen_split(fs, file, false, 0);
    lemma_split_leads_back(preopen_path(fs, preopen_split(fs, file, false, 0)->Ok_0.0), file);
}

/// The search for a preopened directory does not pass one by.
proof fn lemma_split_reaches(fs: FsView, file: Seq<char>, j: int, k: int)
    requires
        0 <= j <= k,
        is_preopened_dir(fs, k),
        is_under(file, preopened_dir(fs, k)),
    ensures
        preopen_split(fs, file, false, j) is Ok,
    decreases k - j,
{
    if j < k {
        lemma_split_reaches(fs, file, j + 1, k);
    }
}

/// A filesystem that has just been made is confined.
pub proof fn law_fresh_is_confined(fs: FsView, dirs: Seq<DirView>)
    requires
        is_fresh(fs, dirs),
        VIRTUAL_ROOT_FD + dirs.len() < u32::MAX,
    ensures
        is_confined(fs),
{
    let n = dirs.len();
    assert forall|k: int| 0 < k <= n implies #[trigger] fs.kind(nth_preopen(fs, k)) is Dir
        && preopened_dir(fs, k) == dirs[k - 1].path && is_preopened_dir(fs, k) by {
        assert(dirs[k - 1] == dirs[k - 1]);
        assert(fs.preopen_fds[k] == (VIRTUAL_ROOT_FD + k) as u32);
    }
    assert forall|i: Inode| #[trigger] fs.inodes.contains_key(i) implies is_confined_kind(
        fs,
        fs.kind(i),
    ) by {
        let k = choose|k: int| 0 <= k <= n && i == #[trigger] nth_preopen(fs, k);
        if k > 0 {
            assert(fs.kind(nth_preopen(fs, k)) is Dir);
            assert(is_below(dirs[k - 1].path, preopened_dir(fs, k)));
            assert(dirs[k - 1] == dirs[k - 1]);
        }
    }
}

/// Opening a file by name and swapping the file behind a descriptor keep the filesystem
/// confined: an open file is not looked up on the host.
pub proof fn law_open_files_stay_confined(
    fs: FsView,
    fd: __wasi_fd_t,
    file: FileHandle,
    attributes: FileAttributes,
    name: Seq<char>,
    rights: __wasi_rights_t,
    rights_inheriting: __wasi_rights_t,
    flags: __wasi_fdflags_t,
    inode: Inode,
)
    requires
        fs.wf(),
        fs.numbered(),
        is_confined(fs),
        !fs.live(inode),
    ensures
        is_confined(fs.swapped(fd, file)),
        fs.is_base(fd) ==> is_confined(
            fs.with_opened(fd, file, attributes, name, rights, rights_inheriting, flags, inode),
        ),
{
    lemma_same_preopens(fs, fs.swapped(fd, file));
    if fs.is_base(fd) {
        let opened = fs.with_opened(
            fd,
            file,
            attributes,
            name,
            rights,
            rights_inheriting,
            flags,
            inode,
        );
        lemma_same_preopens(fs, opened);
    }
}

/// Opening a descriptor, which is what makes a directory a base, keeps the filesystem
/// confined.
pub proof fn law_new_fd_stays_confined(
    fs: FsView,
    rights: __wasi_rights_t,
    rights_inheriting: __wasi_rights_t,
    flags: __wasi_fdflags_t,
    inode: Inode,
)
    requires
        fs.wf(),
        fs.numbered(),
        is_confined(fs),
    ensures
        is_confined(fs.with_new_fd(rights, rights_inheriting, flags, inode)),
{
    let after = fs.with_new_fd(rights, rights_inheriting, flags, inode);
    assert forall|k: int| #![trigger preopened_dir(fs, k)] is_preopened_dir(fs, k) implies
        is_preopened_dir(after, k) && preopened_dir(after, k) == preopened_dir(fs, k) by {
        assert(fs.is_base(fs.preopen_fds[k]));
        assert(fs.fds.contains_key(fs.preopen_fds[k]));
    }
    lemma_same_preopens(fs, after);
}

/// Making an inode that lies inside, or that has no path on the host, keeps the
/// filesystem confined.
pub proof fn law_new_inode_stays_confined(fs: FsView, inode: Inode, value: InodeView)
    requires
        fs.wf(),
        is_confined(fs),
        !fs.live(inode),
        is_confined_kind(fs, value.kind),
    ensures
        is_confined(fs.with_new_inode(inode, value)),
{
    let after = fs.with_new_inode(inode, value);
    assert forall|p: Seq<char>| #[trigger] is_inside(fs, p) implies is_inside(after, p) by {
        let k = choose|k: int|
            is_preopened_dir(fs, k) && is_below(p, #[trigger] preopened_dir(fs, k));
        assert(fs.is_base(fs.preopen_fds[k]));
        assert(is_below(p, preopened_dir(after, k)));
    }
    assert forall|i: Inode| #[trigger] after.inodes.contains_key(i) implies is_confined_kind(
        after,
        after.kind(i),
    ) by {
        if i != inode {
            assert(fs.inodes.contains_key(i));
        }
    }
}

/// Refreshing a size keeps the filesystem confined.
pub proof fn law_resync_stays_confined(fs: FsView, fd: __wasi_fd_t, size: u64)
    requires
        fs.wf(),
        is_confined(fs),
        fs.resync_target(fd) is Ok,
    ensures
        is_confined(fs.resynced(fd, size)),
{
    lemma_same_preopens(fs, fs.resynced(fd, size));
}

/// Removing an inode that nothing refers to keeps the filesystem confined.
pub proof fn law_remove_stays_confined(fs: FsView, inode: Inode)
    requires
        fs.wf(),
        is_confined(fs),
        !fs.refers_to(inode),
    ensures
        is_confined(fs.without_inode(inode)),
{
    let after = fs.without_inode(inode);
    assert forall|k: int| #![trigger preopened_dir(fs, k)] is_preopened_dir(fs, k) implies
        is_preopened_dir(after, k) && preopened_dir(after, k) == preopened_dir(fs, k) by {
        assert(fs.is_base(fs.preopen_fds[k]));
        assert(fs.fds.contains_key(fs.preopen_fds[k]));
    }
    lemma_same_preopens(fs, after);
}

/// What is confined stays so where the preopened directories are the same and no inode
/// gets another path on the host.
proof fn lemma_same_preopens(fs: FsView, after: FsView)
    requires
        is_confined(fs),
        fs.preopen_fds == after.preopen_fds,
        forall|k: int|
            #![trigger preopened_dir(fs, k)]
            is_preopened_dir(fs, k) ==> is_preopened_dir(after, k) && preopened_dir(after, k)
                == preopened_dir(fs, k),
        forall|i: Inode| #[trigger]
            after.inodes.contains_key(i) ==> match after.kind(i) {
                KindView::Dir { path, .. } => fs.inodes.contains_key(i) && fs.kind(i) is Dir
                    && fs.kind(i)->Dir_path == path,
                KindView::File { handle: None, path } => fs.inodes.contains_key(i) && fs.kind(i)
                    == after.kind(i),
                _ => true,
            },
    ensures
        is_confined(after),
{
    assert forall|p: Seq<char>| #[trigger] is_inside(fs, p) implies is_inside(after, p) by {
        let k = choose|k: int|
            is_preopened_dir(fs, k) && is_below(p, #[trigger] preopened_dir(fs, k));
        assert(is_below(p, preopened_dir(after, k)));
    }
    assert forall|i: Inode| #[trigger] after.inodes.contains_key(i) implies is_confined_kind(
        after,
        after.kind(i),
    ) by {
        if fs.inodes.contains_key(i) {
            assert(is_confined_kind(fs, fs.kind(i)));
        }
    }
}

} // verus!

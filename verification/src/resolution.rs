//! What holds of every step of path resolution.
use crate::cursor::{replies, CursorView, FrameView, ReplyView, StepView, MAX_SYMLINKS};
use crate::inode::{Inode, KindView};
use crate::laws::{law_entry_rooted, law_new_inode_rooted};
use crate::model::FsView;
use crate::path::{cur_dir, is_dots, parent_dir, root_dir};
use crate::steps::{
    advance, fs_after, is_ready, is_resolved, lemma_step_cursor_wf, loaded_inode, makes_inode,
    step,
};
use crate::wasi::{__WASI_EACCES, __WASI_EINVAL, __WASI_EMLINK};
use vstd::prelude::*;

verus! {

/// One kind has come of another by entries being added to a directory.
pub open spec fn is_grown(before: KindView, after: KindView) -> bool {
    match before {
        KindView::Dir { parent, path, entries } => {
            &&& after matches KindView::Dir { parent: p, path: q, entries: more }
            &&& p == parent
            &&& q == path
            &&& entries.submap_of(more)
        },
        _ => after == before,
    }
}

/// One filesystem has come of another by resolution: descriptors and everything else
/// that is not an inode are as they were, and so is every inode but for entries that a
/// directory has gained. The root in particular is unchanged.
pub open spec fn has_grown(before: FsView, after: FsView) -> bool {
    &&& after == (FsView { inodes: after.inodes, next_ino: after.next_ino, ..before })
    &&& forall|i: Inode| #[trigger] before.inodes.contains_key(i) ==> is_kept(before, after, i)
}

/// The inode is what it was, but for entries that it has gained if it is a directory.
pub open spec fn is_kept(before: FsView, after: FsView, inode: Inode) -> bool {
    &&& after.live(inode)
    &&& after.inodes[inode].stat == before.inodes[inode].stat
    &&& after.inodes[inode].is_preopened == before.inodes[inode].is_preopened
    &&& after.inodes[inode].name == before.inodes[inode].name
    &&& is_grown(before.kind(inode), after.kind(inode))
}

/// Resolution only ever adds.
pub proof fn law_step_only_adds(fs: FsView, cursor: CursorView, reply: ReplyView, inode: Inode)
    requires
        cursor.wf(fs),
        replies(fs, cursor.waiting, reply),
        makes_inode(fs, cursor, reply) ==> !fs.live(inode),
    ensures
        has_grown(fs, fs_after(fs, cursor, reply, inode)),
{
    let after = fs_after(fs, cursor, reply, inode);
    assert(cursor.top() == cursor.frames[cursor.frames.len() - 1]);
    assert forall|i: Inode| #[trigger] fs.inodes.contains_key(i) implies is_kept(fs, after, i) by {
    }
}

/// What has come of what has come of a filesystem has come of it.
pub proof fn lemma_has_grown_on(before: FsView, between: FsView, after: FsView)
    requires
        has_grown(before, between),
        has_grown(between, after),
    ensures
        has_grown(before, after),
{
    assert forall|i: Inode| #[trigger] before.inodes.contains_key(i) implies is_kept(
        before,
        after,
        i,
    ) by {
        assert(is_kept(before, between, i));
        assert(between.inodes.contains_key(i));
        assert(is_kept(between, after, i));
        let first = before.kind(i).entries();
        let second = between.kind(i).entries();
        let third = after.kind(i).entries();
        assert forall|name: Seq<char>| #[trigger]
            first.dom().contains(name) implies third.dom().contains(name) && first[name]
            == third[name] by {
            if before.kind(i) is Dir {
                assert(second.dom().contains(name));
            }
        }
    }
}

/// A step keeps numbers in order and every directory below a parent that was there
/// before it.
pub proof fn law_step_keeps_order(fs: FsView, cursor: CursorView, reply: ReplyView, inode: Inode)
    requires
        fs.numbered(),
        fs.rooted(),
        fs.next_ino < u64::MAX,
        cursor.wf(fs),
        replies(fs, cursor.waiting, reply),
        makes_inode(fs, cursor, reply) ==> fs.is_free(inode),
    ensures
        fs_after(fs, cursor, reply, inode).numbered(),
        fs_after(fs, cursor, reply, inode).rooted(),
{
    let frame = cursor.top();
    assert(frame == cursor.frames[cursor.frames.len() - 1]);
    if makes_inode(fs, cursor, reply) {
        let kind = cursor.waiting->kind;
        let value = loaded_inode(fs, cursor.waiting.file(), kind, reply->Stat_0);
        let made = fs.with_new_inode(inode, value);
        law_new_inode_rooted(fs, inode, value);
        law_entry_rooted(made, frame.cur_inode, frame.component(), inode);
    }
}

/// A directory or file that was loaded once is found again without asking the host:
/// from its directory, its name leads to the inode that was made for it.
pub proof fn law_loaded_is_found_again(
    fs: FsView,
    cursor: CursorView,
    reply: ReplyView,
    inode: Inode,
    later: CursorView,
)
    requires
        cursor.wf(fs),
        makes_inode(fs, cursor, reply),
        !(cursor.waiting->kind is Symlink),
        !fs.live(inode),
        later.top().next < later.top().components.len(),
        later.top().cur_inode == cursor.top().cur_inode,
        later.top().component() == cursor.top().component(),
    ensures
        advance(fs_after(fs, cursor, reply, inode), later) == StepView::Continue(
            later.with_top(later.top().entered(inode)),
        ),
{
    assert(cursor.top() == cursor.frames[cursor.frames.len() - 1]);
}

/// A symbolic link that was met does not become an entry: no directory changes.
pub proof fn law_links_are_transient(
    fs: FsView,
    cursor: CursorView,
    reply: ReplyView,
    inode: Inode,
    other: Inode,
)
    requires
        cursor.wf(fs),
        makes_inode(fs, cursor, reply),
        cursor.waiting->kind is Symlink,
        !fs.live(inode),
        fs.live(other),
    ensures
        fs_after(fs, cursor, reply, inode).inodes[other] == fs.inodes[other],
{
}

/// Every symbolic link that is traversed counts, on the path that the link stands for
/// and on the path that goes on from where it led, and no more than the limit are: a
/// step goes from one count to the next exactly where it begins the path of a link.
pub proof fn law_links_are_counted(fs: FsView, cursor: CursorView, reply: ReplyView, inode: Inode)
    requires
        cursor.wf(fs),
        is_ready(fs, cursor, reply),
        replies(fs, cursor.waiting, reply),
    ensures
        step(fs, cursor, reply, inode) matches StepView::Continue(next) ==> {
            &&& next.top().symlink_count <= MAX_SYMLINKS
            &&& next.top().symlink_count == if next.frames.len() > cursor.frames.len() {
                cursor.top().symlink_count + 1
            } else {
                cursor.top().symlink_count as int
            }
        },
        step(fs, cursor, reply, inode) matches StepView::Ask(_, next) ==> next.frames
            == cursor.frames,
{
    let n = cursor.frames.len();
    assert(cursor.top() == cursor.frames[n - 1]);
    lemma_step_cursor_wf(fs, cursor, reply, inode);
    if let StepView::Continue(next) = step(fs, cursor, reply, inode) {
        assert(next.top() == next.frames[next.frames.len() - 1]);
    }
}

/// One symbolic link more than can be traversed is refused, and only that: a path that
/// has traversed as many as can be still goes on to what is no link.
pub proof fn law_too_many_links_are_refused(fs: FsView, cursor: CursorView)
    requires
        cursor.top().symlink_count <= MAX_SYMLINKS,
        cursor.waiting is Nothing,
    ensures
        advance(fs, cursor) == StepView::Done(Err(__WASI_EMLINK)) <==> {
            &&& cursor.top().symlink_count == MAX_SYMLINKS
            &&& fs.kind(cursor.top().cur_inode) is Symlink
            &&& !is_resolved(fs, cursor.top(), cursor.follow_symlinks)
        },
{
}

/// At the root, `.` and `..` stay at the root.
pub proof fn law_dots_stay_at_the_root(fs: FsView, cursor: CursorView)
    requires
        cursor.top().next < cursor.top().components.len(),
        fs.kind(cursor.top().cur_inode) is Root,
        is_dots(cursor.top().component()),
    ensures
        advance(fs, cursor) == StepView::Continue(cursor.with_top(cursor.top().skipped())),
{
}

/// In a directory, `.` stays and `..` leads to the parent; a directory without one
/// cannot be left.
pub proof fn law_dots_in_a_directory(fs: FsView, cursor: CursorView)
    requires
        cursor.top().next < cursor.top().components.len(),
        fs.kind(cursor.top().cur_inode) is Dir,
    ensures
        cursor.top().component() == cur_dir() ==> advance(fs, cursor) == StepView::Continue(
            cursor.with_top(cursor.top().skipped()),
        ),
        cursor.top().component() == parent_dir() ==> match fs.kind(
            cursor.top().cur_inode,
        ).parent() {
            Some(p) => advance(fs, cursor) == StepView::Continue(
                cursor.with_top(cursor.top().entered(p)),
            ),
            None => advance(fs, cursor) == StepView::Done(Err(__WASI_EACCES)),
        },
{
    assert(cur_dir().len() != parent_dir().len());
}

/// A symbolic link that is the last component is what the path leads to where links
/// are not to be followed.
pub proof fn law_last_link_is_kept(
    fs: FsView,
    cursor: CursorView,
    reply: ReplyView,
    inode: Inode,
)
    requires
        cursor.wf(fs),
        makes_inode(fs, cursor, reply),
        cursor.waiting->kind is Symlink,
        !cursor.follow_symlinks,
        cursor.frames.len() == 1,
        cursor.top().next + 1 == cursor.top().components.len(),
    ensures
        step(fs, cursor, reply, inode) matches StepView::Continue(next) && advance(
            fs_after(fs, cursor, reply, inode),
            next,
        ) == StepView::Done(Ok(inode)),
{
}

/// Every other symbolic link is gone through, before the next component, or at the end
/// of the path where links are to be followed, as long as not too many have been.
pub proof fn law_other_links_are_followed(
    fs: FsView,
    cursor: CursorView,
    reply: ReplyView,
    inode: Inode,
)
    requires
        fs.wf(),
        cursor.wf(fs),
        makes_inode(fs, cursor, reply),
        cursor.waiting->kind is Symlink,
        cursor.follow_symlinks || cursor.top().next + 1 < cursor.top().components.len(),
        cursor.top().symlink_count < MAX_SYMLINKS,
        !fs.live(inode),
    ensures
        step(fs, cursor, reply, inode) matches StepView::Continue(next) && advance(
            fs_after(fs, cursor, reply, inode),
            next,
        ) matches StepView::Continue(through) && through.frames.len() == cursor.frames.len() + 1,
{
    assert(cursor.top() == cursor.frames[cursor.frames.len() - 1]);
}

/// Once the path of a symbolic link is resolved, the path that met the link goes on from
/// where the link led, whatever that is; the component that named the link is done with.
pub proof fn law_link_stands_for_what_it_leads_to(fs: FsView, cursor: CursorView)
    requires
        cursor.frames.len() > 1,
        is_resolved(fs, cursor.top(), cursor.follow_symlinks),
    ensures
        ({
            let met = cursor.frames[cursor.frames.len() - 2];
            advance(fs, cursor) matches StepView::Continue(next) && next.top() == (FrameView {
                cur_inode: cursor.top().cur_inode,
                symlink_count: cursor.top().symlink_count,
                ..met
            }) && next.frames.drop_last() == cursor.frames.drop_last().drop_last()
                && next.follow_symlinks == cursor.follow_symlinks && next.waiting is Nothing
        }),
{
    let next = advance(fs, cursor)->Continue_0;
    assert(next.frames.drop_last() =~= cursor.frames.drop_last().drop_last());
}

/// A path does not start over at the host's root: in a directory, as at the root, the
/// component that stands for it leads nowhere unless it is an entry.
pub proof fn law_no_path_starts_over(fs: FsView, cursor: CursorView)
    requires
        cursor.top().next < cursor.top().components.len(),
        cursor.top().component() == root_dir(),
        fs.kind(cursor.top().cur_inode).has_entries(),
        !fs.kind(cursor.top().cur_inode).entries().contains_key(root_dir()),
    ensures
        advance(fs, cursor) == StepView::Done(Err(__WASI_EINVAL)),
{
    assert(root_dir()[0] != cur_dir()[0]);
    assert(root_dir()[0] != parent_dir()[0]);
}

} // verus!

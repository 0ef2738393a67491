//! What a symbolic link stands for.
use crate::cursor::{CursorView, FrameView, ReplyView, StepView, MAX_SYMLINKS};
use crate::following::{lemma_unfold, link_frame};
use crate::host::StatAnswer;
use crate::inode::{Inode, KindView};
use crate::model::FsView;
use crate::outcomes::{lemma_walk_known, lemma_walk_same_rest};
use crate::path::{
    cur_dir, is_absolute, is_component_list, is_plain, is_under, law_push_adds_components,
    lemma_components_of_both, lemma_components_of_join, lemma_components_of_push,
    lemma_components_shape, lemma_named_pieces, lemma_push_component, lemma_without_dot_keeps,
    lemma_without_dot_of_both, named_pieces, path_components, path_join, path_pop, path_push,
    path_rest, root_dir, without_dot,
};
use crate::steps::{
    advance, fs_after, lemma_preopen_split, lemma_wf_split_ready, link_target, step,
};
use crate::walk::{
    known_path, law_resolution_ends, lemma_resolution_is, resolution, walk, HostView, Outcome,
};
use vstd::prelude::*;

verus! {

/// The value of a link counts from the directory that the link is in: the base's path and
/// then the path that the link stands for name what the directory's path and then the
/// value name.
proof fn lemma_target_is_in_the_directory(
    base: Seq<char>,
    dir: Seq<char>,
    name: Seq<char>,
    value: Seq<char>,
)
    requires
        is_plain(name),
        name != cur_dir(),
        !is_absolute(value),
        is_under(path_push(dir, name), base),
        path_components(base).len() < path_components(path_push(dir, name)).len(),
    ensures
        without_dot(
            path_components(base) + path_components(
                link_target(path_rest(path_push(dir, name), base), value),
            ),
        ) == without_dot(path_components(dir) + path_components(value)),
{
    let file = path_push(dir, name);
    let all = path_components(file);
    let n = path_components(base).len() as int;
    lemma_push_component(dir, name);
    lemma_components_shape(file);
    let below = all.skip(n);
    assert forall|i: int| #![trigger below[i]] 0 <= i < below.len() implies below[i] == all[i
        + n] by {}
    assert(is_component_list(below));
    lemma_components_of_join(below);
    assert(below.last() == name);
    assert(name != root_dir()) by {
        assert(root_dir()[0] == '/');
    }
    let above = below.drop_last();
    assert forall|i: int| #![trigger above[i]] 0 <= i < above.len() implies above[i]
        == below[i] by {}
    assert(is_component_list(above));
    lemma_components_of_join(above);
    let rest = path_rest(file, base);
    assert(path_pop(rest) == path_join(above));
    law_push_adds_components(path_join(above), value);
    let target = path_components(link_target(rest, value));
    assert(path_components(base) + above =~= path_components(dir)) by {
        assert(all.drop_last() =~= path_components(dir));
        assert(path_components(base) =~= all.take(n));
        assert(all.take(n) + above =~= all.drop_last());
    }
    lemma_without_dot_of_both(path_components(base), target);
    lemma_without_dot_of_both(path_components(base), above);
    lemma_without_dot_of_both(path_components(dir), path_components(value));
    assert(without_dot(path_components(base)) + (without_dot(above) + without_dot(
        path_components(value),
    )) =~= (without_dot(path_components(base)) + without_dot(above)) + without_dot(
        path_components(value),
    ));
}

/// A symbolic link with a relative value stands for the file that the value names from
/// the directory that the link is in, whatever the value begins with. The link is gone
/// through from a preopened directory; that directory's host path and then the path that
/// is resolved from there name what the host path of the directory that holds the link and
/// then the value name. A link whose own path is that of the preopened directory is the
/// one exception.
pub proof fn law_link_is_read_from_its_directory(
    fs: FsView,
    cursor: CursorView,
    value: Seq<char>,
    answer: StatAnswer,
    inode: Inode,
)
    requires
        fs.wf(),
        cursor.wf(fs),
        cursor.waiting is LinkValue,
        !is_absolute(value),
        cursor.follow_symlinks || cursor.top().next + 1 < cursor.top().components.len(),
        cursor.top().symlink_count < MAX_SYMLINKS,
        !fs.live(inode),
    ensures
        step(fs, cursor, ReplyView::LinkValue(Some(value)), inode) matches StepView::Ask(_, asked)
            ==> step(fs, asked, ReplyView::Stat(answer), inode) matches StepView::Continue(met)
            ==> {
            let after = fs_after(fs, asked, ReplyView::Stat(answer), inode);
            let dir = fs.kind(cursor.top().cur_inode);
            &&& met.top().cur_inode == inode
            &&& advance(after, met) matches StepView::Continue(through)
            &&& through.frames.len() == cursor.frames.len() + 1
            &&& through.top().next == 0
            &&& through.top().symlink_count == cursor.top().symlink_count + 1
            &&& through.follow_symlinks == cursor.follow_symlinks
            &&& through.waiting is Nothing
            &&& through.frames.drop_last() == met.frames
            &&& met.frames.drop_last() == cursor.frames.drop_last()
            &&& met.top().components == cursor.top().components
            &&& met.top().next == cursor.top().next + 1
            &&& fs.live(through.top().cur_inode)
            &&& fs.kind(through.top().cur_inode) matches KindView::Dir { path: base, .. }
            &&& path_components(base) != path_components(cursor.waiting.file()) ==> without_dot(
                path_components(base) + through.top().components,
            ) == without_dot(path_components(dir->Dir_path) + path_components(value))
        },
{
    let frame = cursor.top();
    assert(frame == cursor.frames[cursor.frames.len() - 1]);
    let file = cursor.waiting.file();
    let dir = fs.kind(frame.cur_inode)->Dir_path;
    let name = frame.component();
    assert(name == frame.components[frame.next]);
    assert(file == path_push(dir, name));
    assert(is_plain(name));
    if let StepView::Ask(_, asked) = step(fs, cursor, ReplyView::LinkValue(Some(value)), inode) {
        if let StepView::Continue(met) = step(fs, asked, ReplyView::Stat(answer), inode) {
            lemma_wf_split_ready(fs, file, false, 0);
            lemma_preopen_split(fs, file, false, 0);
            let after = fs_after(fs, asked, ReplyView::Stat(answer), inode);
            let through = advance(after, met)->Continue_0;
            let base = fs.kind(through.top().cur_inode)->Dir_path;
            assert(through.frames.drop_last() =~= met.frames);
            assert(met.frames.drop_last() =~= cursor.frames.drop_last());
            if path_components(base) != path_components(file) {
                assert(path_components(base).len() < path_components(file).len()) by {
                    if path_components(base).len() == path_components(file).len() {
                        assert(path_components(base) =~= path_components(file));
                    }
                }
                lemma_target_is_in_the_directory(base, dir, name, value);
            }
        }
    }
}

/// The path of a link, from where the link's own path starts, comes to what the link's value
/// comes to from the directory that the link is in.
proof fn lemma_link_from_its_directory(
    fs: FsView,
    host: HostView,
    frame: FrameView,
    follow_symlinks: bool,
    dir: Inode,
)
    requires
        fs.kind(frame.cur_inode) is Symlink,
        fs.fds.contains_key(fs.kind(frame.cur_inode)->base_po_dir),
        !is_absolute(fs.kind(frame.cur_inode)->relative_path),
        frame.symlink_count < MAX_SYMLINKS,
        path_components(fs.kind(frame.cur_inode)->path_to_symlink).len() > 0,
        path_components(fs.kind(frame.cur_inode)->path_to_symlink).last() != root_dir(),
        known_path(
            fs,
            fs.fds[fs.kind(frame.cur_inode)->base_po_dir].inode,
            path_components(fs.kind(frame.cur_inode)->path_to_symlink).drop_last(),
        ) == Some(dir),
        fs.kind(dir).has_entries(),
    ensures
        link_frame(fs, frame) is Ok,
        resolution(fs, host, link_frame(fs, frame)->Ok_0, follow_symlinks) == resolution(
            fs,
            host,
            FrameView {
                components: path_components(fs.kind(frame.cur_inode)->relative_path),
                next: 0,
                cur_inode: dir,
                symlink_count: (frame.symlink_count + 1) as u32,
            },
            follow_symlinks,
        ),
{
    let kind = fs.kind(frame.cur_inode);
    let link = link_frame(fs, frame)->Ok_0;
    let value = kind->relative_path;
    let cs = path_components(kind->path_to_symlink);
    let above = cs.drop_last();
    let n = above.len() as int;
    let direct = FrameView {
        components: path_components(value),
        next: 0,
        cur_inode: dir,
        symlink_count: (frame.symlink_count + 1) as u32,
    };
    lemma_components_shape(kind->path_to_symlink);
    assert forall|i: int| #![trigger above[i]] 0 <= i < above.len() implies above[i] == cs[i] by {}
    lemma_components_of_join(above);
    let p = path_join(above);
    assert(path_pop(kind->path_to_symlink) == p);
    if n == 0 {
        assert(p =~= Seq::empty());
        assert(path_push(p, value) =~= value);
        assert(known_path(fs, link.cur_inode, above) == Some(link.cur_inode));
        assert(link =~= direct);
    } else {
        lemma_components_of_push(p, value);
        let tail = named_pieces(value);
        let cv = path_components(value);
        assert(link.components == above + tail);
        assert(link.components.subrange(0, n) =~= above);
        let onward = FrameView { next: n, cur_inode: dir, ..link };
        assert(onward.components.skip(n) =~= tail);
        let fuel = law_resolution_ends(fs, host, onward, follow_symlinks);
        lemma_walk_known(fs, host, link, follow_symlinks, n, dir, fuel);
        lemma_resolution_is(fs, host, link, follow_symlinks, (fuel + n) as nat);
        if value.len() == 0 {
            lemma_components_of_join(Seq::empty());
            assert(value =~= path_join(Seq::empty()));
            lemma_named_pieces(value);
            lemma_without_dot_keeps(cv);
            assert(tail.len() == 0);
            lemma_resolution_is(fs, host, onward, follow_symlinks, fuel);
            assert(fuel > 0);
            assert(walk(fs, host, direct, follow_symlinks, 1) is Some);
            lemma_resolution_is(fs, host, direct, follow_symlinks, 1);
        } else {
            lemma_components_of_both(p, value);
            let m = cv.len() - tail.len();
            if m == 1 {
                let dot = seq![cur_dir()];
                assert(direct.components.subrange(0, 1) =~= dot);
                assert(dot.skip(1) =~= Seq::<Seq<char>>::empty());
                assert(known_path(fs, dir, dot.skip(1)) == Some(dir));
                assert(known_path(fs, dir, dot) == Some(dir));
            } else {
                assert(direct.components.subrange(0, 0) =~= Seq::<Seq<char>>::empty());
            }
            let from = FrameView { next: m, ..direct };
            lemma_walk_known(fs, host, direct, follow_symlinks, m, dir, fuel);
            assert(from.components.skip(m) =~= tail);
            lemma_walk_same_rest(fs, host, onward, from, follow_symlinks, fuel);
            lemma_resolution_is(fs, host, direct, follow_symlinks, (fuel + m) as nat);
        }
    }
}

/// A path that has met a symbolic link goes on as if the link's value had been resolved from
/// the directory that the link is in, and the path had gone on from there: in a directory, a
/// link with a value and the value itself come to the same, whatever the value begins with.
/// The directory is the one that the link's own path, but for its last component, leads to.
pub proof fn law_link_and_its_value_come_to_the_same(
    fs: FsView,
    host: HostView,
    frame: FrameView,
    follow_symlinks: bool,
    dir: Inode,
)
    requires
        fs.kind(frame.cur_inode) is Symlink,
        follow_symlinks && frame.components.len() > 0 || frame.next < frame.components.len(),
        fs.fds.contains_key(fs.kind(frame.cur_inode)->base_po_dir),
        !is_absolute(fs.kind(frame.cur_inode)->relative_path),
        frame.symlink_count < MAX_SYMLINKS,
        path_components(fs.kind(frame.cur_inode)->path_to_symlink).len() > 0,
        path_components(fs.kind(frame.cur_inode)->path_to_symlink).last() != root_dir(),
        known_path(
            fs,
            fs.fds[fs.kind(frame.cur_inode)->base_po_dir].inode,
            path_components(fs.kind(frame.cur_inode)->path_to_symlink).drop_last(),
        ) == Some(dir),
        fs.kind(dir).has_entries(),
    ensures
        resolution(fs, host, frame, follow_symlinks) == match resolution(
            fs,
            host,
            FrameView {
                components: path_components(fs.kind(frame.cur_inode)->relative_path),
                next: 0,
                cur_inode: dir,
                symlink_count: (frame.symlink_count + 1) as u32,
            },
            follow_symlinks,
        ) {
            (after, Outcome::Found(found, count)) => resolution(
                after,
                host,
                FrameView { cur_inode: found, symlink_count: count, ..frame },
                follow_symlinks,
            ),
            failed => failed,
        },
{
    lemma_unfold(fs, host, frame, follow_symlinks);
    lemma_link_from_its_directory(fs, host, frame, follow_symlinks, dir);
}

} // verus!

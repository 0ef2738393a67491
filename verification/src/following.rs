//! What following the last symbolic link of a path changes, and what it does not.
use crate::cursor::{FrameView, Unsupported, MAX_SYMLINKS};
use crate::inode::{Inode, KindView};
use crate::model::FsView;
use crate::outcomes::parent_resolution;
use crate::path::{
    lemma_components_of_join, lemma_components_shape, parent_dir, path_components, path_join,
    path_push, root_dir,
};
use crate::steps::{first_frame, is_resolved, link_target, parent_frame, resumed};
use crate::walk::{
    known_step, law_resolution_ends, lemma_resolution_is, lemma_walk_counts, load, may_load,
    resolution, walk, HostView, Outcome,
};
use crate::wasi::{__wasi_errno_t, __wasi_fd_t, __WASI_EACCES, __WASI_EINVAL, __WASI_ENOTDIR};
use vstd::prelude::*;

verus! {

/// What a path comes to, one component or one symbolic link at a time.
pub open spec fn unfolded(
    fs: FsView,
    host: HostView,
    frame: FrameView,
    follow_symlinks: bool,
) -> (FsView, Outcome) {
    let name = frame.component();
    if is_resolved(fs, frame, follow_symlinks) {
        (fs, Outcome::Found(frame.cur_inode, frame.symlink_count))
    } else {
        match fs.kind(frame.cur_inode) {
            KindView::Buffer { .. } => (fs, Outcome::Unsupported(Unsupported::Buffer)),
            KindView::File { .. } => (fs, Outcome::Failed(__WASI_ENOTDIR)),
            KindView::Root { .. } => match known_step(fs, frame.cur_inode, name) {
                Some(i) => resolution(fs, host, frame.entered(i), follow_symlinks),
                None => (fs, Outcome::Failed(__WASI_EINVAL)),
            },
            KindView::Dir { path, .. } => match known_step(fs, frame.cur_inode, name) {
                Some(i) => resolution(fs, host, frame.entered(i), follow_symlinks),
                None => if name == parent_dir() {
                    (fs, Outcome::Failed(__WASI_EACCES))
                } else if name == root_dir() {
                    (fs, Outcome::Failed(__WASI_EINVAL))
                } else {
                    match load(fs, host, frame.cur_inode, name, path_push(path, name)) {
                        (fs1, Ok(i)) => resolution(fs1, host, frame.entered(i), follow_symlinks),
                        (fs1, Err(outcome)) => (fs1, outcome),
                    }
                },
            },
            KindView::Symlink { .. } => match link_frame(fs, frame) {
                Err(e) => (fs, Outcome::Failed(e)),
                Ok(link) => match resolution(fs, host, link, follow_symlinks) {
                    (fs1, Outcome::Found(i, count)) => resolution(
                        fs1,
                        host,
                        resumed(frame, i, count),
                        follow_symlinks,
                    ),
                    other => other,
                },
            },
        }
    }
}

/// The beginning of the path that the symbolic link which a path has come to stands for.
pub open spec fn link_frame(fs: FsView, frame: FrameView) -> Result<FrameView, __wasi_errno_t> {
    let kind = fs.kind(frame.cur_inode);
    first_frame(
        fs,
        kind->base_po_dir,
        link_target(kind->path_to_symlink, kind->relative_path),
        (frame.symlink_count + 1) as u32,
    )
}

/// What a path comes to is what it comes to one component or one link at a time.
#[verifier::rlimit(40)]
pub proof fn lemma_unfold(fs: FsView, host: HostView, frame: FrameView, follow_symlinks: bool)
    requires
        frame.symlink_count <= MAX_SYMLINKS,
    ensures
        resolution(fs, host, frame, follow_symlinks) == unfolded(fs, host, frame, follow_symlinks),
{
    let fuel = law_resolution_ends(fs, host, frame, follow_symlinks);
    let less = (fuel - 1) as nat;
    lemma_resolution_is(fs, host, frame, follow_symlinks, fuel);
    if !is_resolved(fs, frame, follow_symlinks) {
        let name = frame.component();
        let kind = fs.kind(frame.cur_inode);
        if kind is Root || kind is Dir {
            match known_step(fs, frame.cur_inode, name) {
                Some(i) => lemma_resolution_is(fs, host, frame.entered(i), follow_symlinks, less),
                None => if kind is Dir && may_load(name) {
                    let file = path_push(kind->Dir_path, name);
                    let (fs1, loaded) = load(fs, host, frame.cur_inode, name, file);
                    if let Ok(i) = loaded {
                        lemma_resolution_is(fs1, host, frame.entered(i), follow_symlinks, less);
                    }
                },
            }
        } else if kind is Symlink {
            let link = link_frame(fs, frame);
            if link is Ok {
                lemma_resolution_is(fs, host, link->Ok_0, follow_symlinks, less);
                let traversed = walk(fs, host, link->Ok_0, follow_symlinks, less);
                if let Some((fs1, Outcome::Found(i, count))) = traversed {
                    let f = resumed(frame, i, count);
                    lemma_resolution_is(fs1, host, f, follow_symlinks, less);
                }
            }
        }
    }
}

/// What a path comes to counts the symbolic links that were traversed.
proof fn lemma_resolution_counts(
    fs: FsView,
    host: HostView,
    frame: FrameView,
    follow_symlinks: bool,
)
    requires
        frame.symlink_count <= MAX_SYMLINKS,
    ensures
        resolution(fs, host, frame, follow_symlinks).1 matches Outcome::Found(_, count)
            ==> frame.symlink_count <= count <= MAX_SYMLINKS,
{
    let fuel = law_resolution_ends(fs, host, frame, follow_symlinks);
    lemma_resolution_is(fs, host, frame, follow_symlinks, fuel);
    lemma_walk_counts(fs, host, frame, follow_symlinks, fuel);
}

/// The path at its end, at an inode.
pub open spec fn ended(frame: FrameView, inode: Inode, symlink_count: u32) -> FrameView {
    FrameView {
        next: frame.components.len() as int,
        cur_inode: inode,
        symlink_count,
        ..frame
    }
}

/// A path that goes on from a symbolic link comes to the same whether the link is followed
/// at the end of the path that led to it or before the next component.
proof fn lemma_links_at_the_end(
    fs: FsView,
    host: HostView,
    frame: FrameView,
    link: FrameView,
    inode: Inode,
    symlink_count: u32,
)
    requires
        frame.next < frame.components.len(),
        link.components.len() > 0,
        symlink_count <= MAX_SYMLINKS,
    ensures
        resolution(fs, host, resumed(frame, inode, symlink_count), true) == match resolution(
            fs,
            host,
            ended(link, inode, symlink_count),
            true,
        ) {
            (fs1, Outcome::Found(i, count)) => resolution(
                fs1,
                host,
                resumed(frame, i, count),
                true,
            ),
            other => other,
        },
    decreases MAX_SYMLINKS - symlink_count,
{
    let onward = resumed(frame, inode, symlink_count);
    let end = ended(link, inode, symlink_count);
    lemma_unfold(fs, host, onward, true);
    lemma_unfold(fs, host, end, true);
    if fs.kind(inode) is Symlink {
        let next = link_frame(fs, end);
        assert(link_frame(fs, onward) == next);
        if next is Ok {
            lemma_resolution_counts(fs, host, next->Ok_0, true);
            if let (fs1, Outcome::Found(i, count)) = resolution(fs, host, next->Ok_0, true) {
                lemma_links_at_the_end(fs1, host, frame, link, i, count);
                assert(resumed(onward, i, count) == resumed(frame, i, count));
                assert(resumed(end, i, count) == ended(link, i, count));
            }
        }
    }
}

/// A path whose links are all to be followed comes to what the one whose last link is not
/// comes to, and then to what that last link leads to.
#[verifier::rlimit(40)]
proof fn lemma_following_comes_last(fs: FsView, host: HostView, frame: FrameView)
    requires
        frame.symlink_count <= MAX_SYMLINKS,
        0 <= frame.next <= frame.components.len(),
    ensures
        resolution(fs, host, frame, true) == match resolution(fs, host, frame, false) {
            (fs1, Outcome::Found(i, count)) => resolution(
                fs1,
                host,
                ended(frame, i, count),
                true,
            ),
            other => other,
        },
    decreases MAX_SYMLINKS - frame.symlink_count, frame.components.len() - frame.next,
{
    lemma_unfold(fs, host, frame, false);
    if frame.next == frame.components.len() {
        assert(ended(frame, frame.cur_inode, frame.symlink_count) == frame);
    } else {
        lemma_unfold(fs, host, frame, true);
        let kind = fs.kind(frame.cur_inode);
        if kind is Symlink {
            lemma_following_through_link(fs, host, frame);
        } else {
            let name = frame.component();
            match known_step(fs, frame.cur_inode, name) {
                Some(i) => lemma_following_comes_last(fs, host, frame.entered(i)),
                None => if kind is Dir && may_load(name) {
                    let file = path_push(kind->Dir_path, name);
                    let (fs1, loaded) = load(fs, host, frame.cur_inode, name, file);
                    if let Ok(i) = loaded {
                        lemma_following_comes_last(fs1, host, frame.entered(i));
                    }
                },
            }
        }
    }
}

/// The same, before a component and at a symbolic link.
#[verifier::rlimit(40)]
proof fn lemma_following_through_link(fs: FsView, host: HostView, frame: FrameView)
    requires
        frame.symlink_count <= MAX_SYMLINKS,
        0 <= frame.next < frame.components.len(),
        fs.kind(frame.cur_inode) is Symlink,
    ensures
        resolution(fs, host, frame, true) == match resolution(fs, host, frame, false) {
            (fs1, Outcome::Found(i, count)) => resolution(
                fs1,
                host,
                ended(frame, i, count),
                true,
            ),
            other => other,
        },
    decreases MAX_SYMLINKS - frame.symlink_count, frame.components.len() - frame.next - 1,
{
    lemma_unfold(fs, host, frame, false);
    lemma_unfold(fs, host, frame, true);
    let begun = link_frame(fs, frame);
    if begun is Ok {
        let link = begun->Ok_0;
        lemma_following_comes_last(fs, host, link);
        lemma_resolution_counts(fs, host, link, false);
        if let (fs2, Outcome::Found(j, d)) = resolution(fs, host, link, false) {
            let onward = resumed(frame, j, d);
            lemma_following_comes_last(fs2, host, onward);
            if link.components.len() == 0 {
                lemma_unfold(fs2, host, ended(link, j, d), true);
            } else {
                lemma_links_at_the_end(fs2, host, frame, link, j, d);
            }
            if let (fs1, Outcome::Found(i, count)) = resolution(fs2, host, onward, false) {
                assert(ended(onward, i, count) == ended(frame, i, count));
            }
        }
    }
}

/// Whether the last symbolic link is to be followed makes no difference where the path
/// does not end in one: it comes to the same inode or the same error, and leaves the same
/// filesystem.
pub proof fn law_only_the_last_link_differs(fs: FsView, host: HostView, frame: FrameView)
    requires
        frame.symlink_count <= MAX_SYMLINKS,
        0 <= frame.next <= frame.components.len(),
    ensures
        match resolution(fs, host, frame, false) {
            (fs1, Outcome::Found(i, count)) => !(fs1.kind(i) is Symlink) ==> resolution(
                fs,
                host,
                frame,
                true,
            ) == (fs1, Outcome::Found(i, count)),
            other => resolution(fs, host, frame, true) == other,
        },
{
    lemma_following_comes_last(fs, host, frame);
    if let (fs1, Outcome::Found(i, count)) = resolution(fs, host, frame, false) {
        lemma_resolution_counts(fs, host, frame, false);
        lemma_unfold(fs1, host, ended(frame, i, count), true);
    }
}

/// The parent of the file at a path is what the path without its last component comes to,
/// whether or not links are to be followed there, where that is a directory or the root;
/// an error there is the error of the parent, and anything else that is no symbolic link
/// is no directory. The last component is not resolved and need not exist.
pub proof fn law_parent_is_what_the_rest_comes_to(
    fs: FsView,
    host: HostView,
    base: __wasi_fd_t,
    path: Seq<char>,
    follow_symlinks: bool,
)
    requires
        path_components(path).len() > 0,
        fs.fds.contains_key(base),
    ensures
        ({
            let rest = path_join(path_components(path).drop_last());
            let frame = first_frame(fs, base, rest, 0)->Ok_0;
            &&& first_frame(fs, base, rest, 0) is Ok
            &&& match resolution(fs, host, frame, follow_symlinks) {
                (fs1, Outcome::Found(i, count)) => {
                    &&& fs1.kind(i).has_entries() ==> parent_resolution(fs, host, base, path) == (
                        fs1,
                        Outcome::Found(i, count),
                    )
                    &&& !fs1.kind(i).has_entries() && !(fs1.kind(i) is Symlink)
                        ==> parent_resolution(fs, host, base, path) == (
                        fs1,
                        Outcome::Failed(__WASI_ENOTDIR),
                    )
                },
                other => parent_resolution(fs, host, base, path) == other,
            }
        }),
{
    let cs = path_components(path);
    let front = cs.drop_last();
    lemma_components_shape(path);
    assert forall|i: int| #![trigger front[i]] 0 <= i < front.len() implies front[i] == cs[i] by {
    }
    lemma_components_of_join(front);
    let frame = parent_frame(fs, base, path);
    assert(first_frame(fs, base, path_join(front), 0) == Ok::<FrameView, __wasi_errno_t>(frame));
    law_only_the_last_link_differs(fs, host, frame);
}

} // verus!

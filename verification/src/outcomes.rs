//! What holds of what paths come to: of known paths, of paths resolved again or in
//! stages, and of all that a resolution does on the way.
use crate::confine::{is_confined, is_inside, law_resolution_stays_inside, request_path};
use crate::cursor::{replies, FrameView, ReplyView, RequestView, StepView, MAX_SYMLINKS};
use crate::host::{answers, stat_of_answer, HostFileType, StatSourceView};
use crate::inode::{Inode, KindView};
use crate::model::FsView;
use crate::path::{
    cur_dir, is_absolute, lemma_components_of_both, lemma_components_shape,
    named_pieces, path_components, path_push,
};
use crate::resolution::{has_grown, is_kept, law_step_only_adds, lemma_has_grown_on};
use crate::steps::{
    first_cursor, first_frame, is_resolved, lemma_loaded_wf, lemma_preopen_split, lemma_step_wf,
    lemma_wf_split_ready, link_target, loaded_inode, parent_frame, parent_of, preopen_split,
    resumed, step_live, step_wf,
};
use crate::walk::{
    is_end, known_path, known_step, law_resolution_ends, lemma_resolution_is, load, may_load, once,
    reply_to, resolution, run, walk, HostView, Outcome,
};
use crate::wasi::{__wasi_errno_t, __wasi_fd_t, __wasi_fdflags_t, __wasi_rights_t, __WASI_EMLINK};
use vstd::prelude::*;

verus! {

/// A path whose components are all known leads where they lead, whatever the host
/// would say, and changes nothing, unless it ends in a symbolic link that is to be
/// followed.
pub proof fn law_known_path_is_found(
    fs: FsView,
    host: HostView,
    frame: FrameView,
    follow_symlinks: bool,
)
    requires
        0 <= frame.next <= frame.components.len(),
        frame.symlink_count <= MAX_SYMLINKS,
        known_path(fs, frame.cur_inode, frame.components.skip(frame.next)) matches Some(i) && !(
        follow_symlinks && fs.kind(i) is Symlink),
    ensures
        resolution(fs, host, frame, follow_symlinks) == (
            fs,
            Outcome::Found(
                known_path(fs, frame.cur_inode, frame.components.skip(frame.next))->0,
                frame.symlink_count,
            ),
        ),
{
    let rest = frame.components.skip(frame.next);
    let i = known_path(fs, frame.cur_inode, rest)->0;
    lemma_walk_known(fs, host, frame, follow_symlinks, rest.len() as int, i, 1);
    lemma_resolution_is(fs, host, frame, follow_symlinks, rest.len() + 1);
}

/// The first of the components that are left, where they are known, only take a path
/// further.
pub proof fn lemma_walk_known(
    fs: FsView,
    host: HostView,
    frame: FrameView,
    follow_symlinks: bool,
    n: int,
    inode: Inode,
    fuel: nat,
)
    requires
        0 <= frame.next,
        0 <= n <= frame.components.len() - frame.next,
        frame.symlink_count <= MAX_SYMLINKS,
        known_path(fs, frame.cur_inode, frame.components.subrange(frame.next, frame.next + n))
            == Some(inode),
    ensures
        walk(fs, host, frame, follow_symlinks, (fuel + n) as nat) == walk(
            fs,
            host,
            FrameView { next: frame.next + n, cur_inode: inode, ..frame },
            follow_symlinks,
            fuel,
        ),
        n == frame.components.len() - frame.next ==> known_path(
            fs,
            frame.cur_inode,
            frame.components.skip(frame.next),
        ) == Some(inode),
    decreases n,
{
    let some = frame.components.subrange(frame.next, frame.next + n);
    if n == frame.components.len() - frame.next {
        assert(some =~= frame.components.skip(frame.next));
    }
    if n > 0 {
        assert(some[0] == frame.component());
        let i = known_step(fs, frame.cur_inode, some[0])->0;
        let onward = frame.entered(i);
        assert(some.skip(1) =~= onward.components.subrange(onward.next, onward.next + n - 1));
        lemma_walk_known(fs, host, onward, follow_symlinks, n - 1, inode, fuel);
    }
}

/// The parent of a known file is the directory or the root that the file is in: the
/// components but the last lead there, and the last leads from there to the file.
pub proof fn law_parent_holds_the_file(fs: FsView, inode: Inode, components: Seq<Seq<char>>)
    requires
        components.len() > 0,
        known_path(fs, inode, components) is Some,
    ensures
        known_path(fs, inode, components.drop_last()) matches Some(parent) && fs.kind(
            parent,
        ).has_entries() && known_step(fs, parent, components.last()) == known_path(
            fs,
            inode,
            components,
        ),
    decreases components.len(),
{
    let next = known_step(fs, inode, components[0])->0;
    let rest = components.skip(1);
    let front = components.drop_last();
    if components.len() == 1 {
        assert(known_path(fs, next, rest) == Some(next));
    } else {
        law_parent_holds_the_file(fs, next, rest);
        assert(front[0] == components[0]);
        assert(front.skip(1) =~= rest.drop_last());
        assert(rest.last() == components.last());
    }
}

/// What the parent of the file at a path comes to: where the components but the last
/// lead, with every symbolic link followed, if that is a directory or the root.
pub open spec fn parent_resolution(
    fs: FsView,
    host: HostView,
    base: __wasi_fd_t,
    path: Seq<char>,
) -> (FsView, Outcome) {
    match resolution(fs, host, parent_frame(fs, base, path), true) {
        (fs1, Outcome::Found(i, count)) => match parent_of(fs1, i) {
            Ok(parent) => (fs1, Outcome::Found(parent, count)),
            Err(e) => (fs1, Outcome::Failed(e)),
        },
        other => other,
    }
}

/// The parent of a file is a directory or the root, and nothing else.
pub proof fn law_parent_is_a_directory(
    fs: FsView,
    host: HostView,
    base: __wasi_fd_t,
    path: Seq<char>,
)
    ensures
        parent_resolution(fs, host, base, path) matches (fs1, Outcome::Found(parent, _))
            ==> fs1.kind(parent) is Dir || fs1.kind(parent) is Root,
{
}

/// For some steps, the host answers what it is asked, and the inodes that the arena
/// gives out are free.
pub open spec fn is_fair(fs: FsView, host: HostView, at: StepView, steps: nat) -> bool
    decreases steps,
{
    steps > 0 ==> {
        &&& fs.is_free((host.pick)(fs))
        &&& fs.next_ino < u64::MAX
        &&& at matches StepView::Ask(RequestView::Stat(source), _) ==> answers(
            source,
            (host.stat)(source),
        )
        &&& is_fair(once(fs, host, at).0, host, once(fs, host, at).1, (steps - 1) as nat)
    }
}

/// Every reference leads somewhere, and what a step hands on can be stepped on.
pub open spec fn is_sound(fs: FsView, at: StepView) -> bool {
    fs.wf() && step_wf(fs, at) && step_live(fs, at)
}

/// What one more step finds and leaves.
proof fn lemma_once(fs: FsView, host: HostView, at: StepView)
    requires
        is_fair(fs, host, at, 1),
        is_sound(fs, at),
    ensures
        is_sound(once(fs, host, at).0, once(fs, host, at).1),
        has_grown(fs, once(fs, host, at).0),
        is_confined(fs) ==> is_confined(once(fs, host, at).0),
        is_confined(fs) && !is_end(at) ==> asks_inside(fs, once(fs, host, at).1),
{
    let inode = (host.pick)(fs);
    match at {
        StepView::Continue(c) => {
            lemma_step_wf(fs, c, ReplyView::Nothing, inode);
            law_step_only_adds(fs, c, ReplyView::Nothing, inode);
            if is_confined(fs) {
                law_resolution_stays_inside(fs, c, ReplyView::Nothing, inode);
            }
        },
        StepView::Ask(request, c) => {
            let reply = reply_to(host, request);
            assert(replies(fs, c.waiting, reply));
            lemma_step_wf(fs, c, reply, inode);
            law_step_only_adds(fs, c, reply, inode);
            if is_confined(fs) {
                law_resolution_stays_inside(fs, c, reply, inode);
            }
        },
        _ => {},
    }
}

/// What is asked of the host, if anything is, lies inside.
pub open spec fn asks_inside(fs: FsView, at: StepView) -> bool {
    at matches StepView::Ask(request, _) ==> request_path(request) matches Some(p) && is_inside(
        fs,
        p,
    )
}

/// Resolution as a whole only ever adds, and keeps the filesystem in order: whatever the
/// base and the path, after any number of steps the root is what it was, and so is
/// everything else but for inodes that are new and entries that lead to them.
pub proof fn law_resolution_only_adds(fs: FsView, host: HostView, at: StepView, steps: nat)
    requires
        is_fair(fs, host, at, steps),
        is_sound(fs, at),
    ensures
        is_sound(run(fs, host, at, steps).0, run(fs, host, at, steps).1),
        has_grown(fs, run(fs, host, at, steps).0),
    decreases steps,
{
    if steps > 0 {
        let (fs1, at1) = once(fs, host, at);
        lemma_fair_once(fs, host, at, steps);
        lemma_once(fs, host, at);
        law_resolution_only_adds(fs1, host, at1, (steps - 1) as nat);
        lemma_has_grown_on(fs, fs1, run(fs1, host, at1, (steps - 1) as nat).0);
    }
}

/// What is fair for some steps is fair for one.
proof fn lemma_fair_once(fs: FsView, host: HostView, at: StepView, steps: nat)
    requires
        is_fair(fs, host, at, steps),
        steps > 0,
    ensures
        is_fair(fs, host, at, 1),
{
    reveal_with_fuel(is_fair, 2);
}

/// Resolution as a whole keeps the filesystem sandboxed: whatever the base and the path,
/// all that comes to be known lies at or below a preopened directory, and so does all
/// that the host is asked about.
pub proof fn law_whole_resolution_stays_inside(
    fs: FsView,
    host: HostView,
    at: StepView,
    steps: nat,
)
    requires
        is_fair(fs, host, at, steps),
        is_sound(fs, at),
        is_confined(fs),
        asks_inside(fs, at),
    ensures
        is_confined(run(fs, host, at, steps).0),
        asks_inside(run(fs, host, at, steps).0, run(fs, host, at, steps).1),
    decreases steps,
{
    if steps > 0 {
        let (fs1, at1) = once(fs, host, at);
        lemma_fair_once(fs, host, at, steps);
        lemma_once(fs, host, at);
        if at1 is Ask {
            assert(fs1 == fs);
        }
        law_whole_resolution_stays_inside(fs1, host, at1, (steps - 1) as nat);
    }
}

/// A guest's path, from any base that is open, begins sound, with nothing asked.
pub proof fn law_every_path_begins_sound(
    fs: FsView,
    base: __wasi_fd_t,
    path: Seq<char>,
    follow_symlinks: bool,
)
    requires
        fs.wf(),
        fs.fds.contains_key(base),
    ensures
        ({
            let at = StepView::Continue(
                first_cursor(first_frame(fs, base, path, 0)->Ok_0, follow_symlinks),
            );
            is_sound(fs, at) && asks_inside(fs, at)
        }),
{
    lemma_components_shape(path);
}

/// On its way, a path meets no symbolic link, and the inodes that the arena gives out
/// are free.
pub open spec fn meets_no_link(fs: FsView, host: HostView, frame: FrameView) -> bool
    decreases frame.components.len() - frame.next,
{
    let kind = fs.kind(frame.cur_inode);
    if kind is Symlink {
        false
    } else if frame.next >= frame.components.len() {
        true
    } else {
        let name = frame.component();
        match known_step(fs, frame.cur_inode, name) {
            Some(i) => meets_no_link(fs, host, frame.entered(i)),
            None => kind is Dir && may_load(name) ==> {
                let file = path_push(kind->Dir_path, name);
                &&& (host.file_type)(file) != Some(HostFileType::Symlink)
                &&& fs.is_free((host.pick)(fs))
                &&& match load(fs, host, frame.cur_inode, name, file) {
                    (fs1, Ok(i)) => meets_no_link(fs1, host, frame.entered(i)),
                    _ => true,
                }
            },
        }
    }
}

/// What is known stays known.
proof fn lemma_known_stays(before: FsView, after: FsView, inode: Inode, component: Seq<char>)
    requires
        has_grown(before, after),
        before.live(inode),
        known_step(before, inode, component) is Some,
    ensures
        known_step(after, inode, component) == known_step(before, inode, component),
{
    assert(before.inodes.contains_key(inode));
    assert(is_kept(before, after, inode));
    let first = before.kind(inode).entries();
    if first.contains_key(component) {
        assert(first.dom().contains(component));
        assert(after.kind(inode).entries().dom().contains(component));
    }
}

/// A file that is loaded is an entry from then on, and everything stays in order.
proof fn lemma_load(fs: FsView, host: HostView, dir: Inode, name: Seq<char>)
    requires
        fs.wf(),
        fs.live(dir),
        fs.kind(dir) is Dir,
        known_step(fs, dir, name) is None,
        may_load(name),
        fs.is_free((host.pick)(fs)),
        (host.file_type)(path_push(fs.kind(dir)->Dir_path, name)) != Some(HostFileType::Symlink),
    ensures
        match load(fs, host, dir, name, path_push(fs.kind(dir)->Dir_path, name)) {
            (fs1, Ok(i)) => {
                &&& fs1.wf()
                &&& has_grown(fs, fs1)
                &&& fs1.live(i)
                &&& known_step(fs1, dir, name) == Some(i)
            },
            (fs1, Err(outcome)) => fs1 == fs && !(outcome is Found),
        },
{
    let file = path_push(fs.kind(dir)->Dir_path, name);
    let (fs1, loaded) = load(fs, host, dir, name, file);
    if let Ok(inode) = loaded {
        let kind = fs1.kind(inode);
        let answer = (host.stat)(fs.stat_source(kind)->0);
        lemma_loaded_wf(fs, dir, name, inode, loaded_inode(fs, file, kind, answer));
        assert forall|i: Inode| #[trigger] fs.inodes.contains_key(i) implies is_kept(
            fs,
            fs1,
            i,
        ) by {
        }
    }
}

/// A path that meets no link leaves all its components known, and counts none.
#[verifier::rlimit(40)]
proof fn lemma_plain_walk(
    fs: FsView,
    host: HostView,
    frame: FrameView,
    follow_symlinks: bool,
    fuel: nat,
)
    requires
        fs.wf(),
        fs.live(frame.cur_inode),
        0 <= frame.next <= frame.components.len(),
        meets_no_link(fs, host, frame),
        walk(fs, host, frame, follow_symlinks, fuel) is Some,
    ensures
        ({
            let (fs1, outcome) = walk(fs, host, frame, follow_symlinks, fuel)->0;
            &&& has_grown(fs, fs1)
            &&& outcome matches Outcome::Found(i, count) ==> count == frame.symlink_count
                && known_path(fs1, frame.cur_inode, frame.components.skip(frame.next)) == Some(i)
        }),
    decreases fuel,
{
    let rest = frame.components.skip(frame.next);
    let kind = fs.kind(frame.cur_inode);
    let less = (fuel - 1) as nat;
    assert(fs.inodes.contains_key(frame.cur_inode));
    assert(has_grown(fs, fs));
    if frame.next < frame.components.len() && kind.has_entries() {
        let name = frame.component();
        let (fs1, outcome) = walk(fs, host, frame, follow_symlinks, fuel)->0;
        assert(rest[0] == name);
        assert(rest.skip(1) =~= frame.components.skip(frame.next + 1));
        match known_step(fs, frame.cur_inode, name) {
            Some(i) => {
                lemma_plain_walk(fs, host, frame.entered(i), follow_symlinks, less);
                lemma_known_stays(fs, fs1, frame.cur_inode, name);
            },
            None => if kind is Dir && may_load(name) {
                lemma_load(fs, host, frame.cur_inode, name);
                let file = path_push(kind->Dir_path, name);
                let (fs2, loaded) = load(fs, host, frame.cur_inode, name, file);
                if let Ok(i) = loaded {
                    lemma_plain_walk(fs2, host, frame.entered(i), follow_symlinks, less);
                    assert(is_kept(fs, fs2, frame.cur_inode));
                    lemma_known_stays(fs2, fs1, frame.cur_inode, name);
                    lemma_has_grown_on(fs, fs2, fs1);
                }
            },
        }
    }
}

/// A walk that meets no link comes to the same in what it leaves, and leaves it as it is.
#[verifier::rlimit(40)]
proof fn lemma_walk_again(
    fs: FsView,
    host: HostView,
    frame: FrameView,
    follow_symlinks: bool,
    fuel: nat,
)
    requires
        fs.wf(),
        fs.live(frame.cur_inode),
        0 <= frame.next <= frame.components.len(),
        meets_no_link(fs, host, frame),
        walk(fs, host, frame, follow_symlinks, fuel) is Some,
    ensures
        ({
            let (fs1, outcome) = walk(fs, host, frame, follow_symlinks, fuel)->0;
            walk(fs1, host, frame, follow_symlinks, fuel) == Some((fs1, outcome))
        }),
    decreases fuel,
{
    let kind = fs.kind(frame.cur_inode);
    let less = (fuel - 1) as nat;
    let (fs1, outcome) = walk(fs, host, frame, follow_symlinks, fuel)->0;
    lemma_plain_walk(fs, host, frame, follow_symlinks, fuel);
    assert(fs.inodes.contains_key(frame.cur_inode));
    assert(is_kept(fs, fs1, frame.cur_inode));
    if frame.next < frame.components.len() && kind.has_entries() {
        let name = frame.component();
        match known_step(fs, frame.cur_inode, name) {
            Some(i) => {
                lemma_walk_again(fs, host, frame.entered(i), follow_symlinks, less);
                lemma_known_stays(fs, fs1, frame.cur_inode, name);
            },
            None => if kind is Dir && may_load(name) {
                lemma_load(fs, host, frame.cur_inode, name);
                let file = path_push(kind->Dir_path, name);
                let (fs2, loaded) = load(fs, host, frame.cur_inode, name, file);
                if let Ok(i) = loaded {
                    lemma_walk_again(fs2, host, frame.entered(i), follow_symlinks, less);
                    lemma_plain_walk(fs2, host, frame.entered(i), follow_symlinks, less);
                    assert(is_kept(fs, fs2, frame.cur_inode));
                    lemma_known_stays(fs2, fs1, frame.cur_inode, name);
                }
            },
        }
    }
}

/// Resolving a path again, on a host that has not changed, comes to the same inode or
/// the same error and changes nothing, where the path meets no symbolic link: no inode
/// is made twice for a file or directory.
pub proof fn law_resolving_again_changes_nothing(
    fs: FsView,
    host: HostView,
    base: __wasi_fd_t,
    path: Seq<char>,
    follow_symlinks: bool,
)
    requires
        fs.wf(),
        fs.fds.contains_key(base),
        meets_no_link(fs, host, first_frame(fs, base, path, 0)->Ok_0),
    ensures
        ({
            let frame = first_frame(fs, base, path, 0);
            let (fs1, outcome) = resolution(fs, host, frame->Ok_0, follow_symlinks);
            &&& first_frame(fs1, base, path, 0) == frame
            &&& resolution(fs1, host, frame->Ok_0, follow_symlinks) == (fs1, outcome)
        }),
{
    let frame = first_frame(fs, base, path, 0)->Ok_0;
    let fuel = law_resolution_ends(fs, host, frame, follow_symlinks);
    lemma_resolution_is(fs, host, frame, follow_symlinks, fuel);
    lemma_plain_walk(fs, host, frame, follow_symlinks, fuel);
    lemma_walk_again(fs, host, frame, follow_symlinks, fuel);
    let (fs1, outcome) = resolution(fs, host, frame, follow_symlinks);
    lemma_resolution_is(fs1, host, frame, follow_symlinks, fuel);
}

/// A walk depends on the components that are left, not on those that are done with.
#[verifier::rlimit(40)]
pub proof fn lemma_walk_same_rest(
    fs: FsView,
    host: HostView,
    f: FrameView,
    g: FrameView,
    follow_symlinks: bool,
    fuel: nat,
)
    requires
        0 <= f.next <= f.components.len(),
        0 <= g.next <= g.components.len(),
        f.components.len() > 0,
        g.components.len() > 0,
        f.components.skip(f.next) == g.components.skip(g.next),
        f.cur_inode == g.cur_inode,
        f.symlink_count == g.symlink_count,
    ensures
        walk(fs, host, f, follow_symlinks, fuel) == walk(fs, host, g, follow_symlinks, fuel),
    decreases fuel, 1nat,
{
    let rest = f.components.skip(f.next);
    assert(rest.len() == f.components.len() - f.next);
    assert(rest.len() == g.components.len() - g.next);
    if fuel > 0 && !is_resolved(fs, f, follow_symlinks) {
        let less = (fuel - 1) as nat;
        let kind = fs.kind(f.cur_inode);
        if kind is Symlink {
            lemma_link_same_rest(fs, host, f, g, follow_symlinks, fuel);
        } else {
            let name = f.component();
            assert(rest[0] == f.component());
            assert(rest[0] == g.component());
            assert(rest.skip(1) =~= f.components.skip(f.next + 1));
            assert(rest.skip(1) =~= g.components.skip(g.next + 1));
            match known_step(fs, f.cur_inode, name) {
                Some(i) => lemma_walk_same_rest(
                    fs,
                    host,
                    f.entered(i),
                    g.entered(i),
                    follow_symlinks,
                    less,
                ),
                None => if kind is Dir && may_load(name) {
                    let file = path_push(kind->Dir_path, name);
                    let (fs1, loaded) = load(fs, host, f.cur_inode, name, file);
                    if let Ok(i) = loaded {
                        lemma_walk_same_rest(
                            fs1,
                            host,
                            f.entered(i),
                            g.entered(i),
                            follow_symlinks,
                            less,
                        );
                    }
                },
            }
        }
    }
}

/// The same, at a symbolic link.
proof fn lemma_link_same_rest(
    fs: FsView,
    host: HostView,
    f: FrameView,
    g: FrameView,
    follow_symlinks: bool,
    fuel: nat,
)
    requires
        0 <= f.next <= f.components.len(),
        0 <= g.next <= g.components.len(),
        f.components.len() > 0,
        g.components.len() > 0,
        f.components.skip(f.next) == g.components.skip(g.next),
        f.cur_inode == g.cur_inode,
        f.symlink_count == g.symlink_count,
        fuel > 0,
        !is_resolved(fs, f, follow_symlinks),
        !is_resolved(fs, g, follow_symlinks),
        fs.kind(f.cur_inode) is Symlink,
    ensures
        walk(fs, host, f, follow_symlinks, fuel) == walk(fs, host, g, follow_symlinks, fuel),
    decreases fuel, 0nat,
{
    let less = (fuel - 1) as nat;
    let kind = fs.kind(f.cur_inode);
    let target = link_target(kind->path_to_symlink, kind->relative_path);
    let link = first_frame(fs, kind->base_po_dir, target, (f.symlink_count + 1) as u32);
    if link is Ok {
        let traversed = walk(fs, host, link->Ok_0, follow_symlinks, less);
        if let Some((fs1, Outcome::Found(i, count))) = traversed {
            lemma_walk_same_rest(
                fs1,
                host,
                resumed(f, i, count),
                resumed(g, i, count),
                follow_symlinks,
                less,
            );
        }
    }
}

/// What is known does not depend on descriptors.
proof fn lemma_known_with_fd(
    fs: FsView,
    rights: __wasi_rights_t,
    rights_inheriting: __wasi_rights_t,
    flags: __wasi_fdflags_t,
    opened: Inode,
    inode: Inode,
    components: Seq<Seq<char>>,
)
    ensures
        known_path(
            fs.with_new_fd(rights, rights_inheriting, flags, opened),
            inode,
            components,
        ) == known_path(fs, inode, components),
    decreases components.len(),
{
    if components.len() > 0 {
        if let Some(i) = known_step(fs, inode, components[0]) {
            lemma_known_with_fd(
                fs,
                rights,
                rights_inheriting,
                flags,
                opened,
                i,
                components.skip(1),
            );
        }
    }
}

/// Resolving a path in two stages comes to what resolving it at once comes to: where `p`
/// has led, without meeting a symbolic link, to a directory or the root, and a descriptor
/// was opened on it, `q` from that descriptor and `p/q` from the base come to the same
/// inode or the same error and leave the same filesystem.
#[verifier::rlimit(40)]
pub proof fn law_two_stages_are_one(
    fs: FsView,
    host: HostView,
    base: __wasi_fd_t,
    p: Seq<char>,
    q: Seq<char>,
    follow_symlinks: bool,
    rights: __wasi_rights_t,
    rights_inheriting: __wasi_rights_t,
    flags: __wasi_fdflags_t,
)
    requires
        fs.wf(),
        fs.numbered(),
        fs.fds.contains_key(base),
        p.len() > 0,
        q.len() > 0,
        !is_absolute(q),
        meets_no_link(fs, host, first_frame(fs, base, p, 0)->Ok_0),
        resolution(fs, host, first_frame(fs, base, p, 0)->Ok_0, follow_symlinks) matches (
            fs1,
            Outcome::Found(d, _),
        ) && fs1.kind(d).has_entries(),
    ensures
        ({
            let (fs1, outcome) = resolution(
                fs,
                host,
                first_frame(fs, base, p, 0)->Ok_0,
                follow_symlinks,
            );
            let fs2 = fs1.with_new_fd(rights, rights_inheriting, flags, outcome->Found_0);
            let at_once = first_frame(fs2, base, p.push('/') + q, 0)->Ok_0;
            let staged = first_frame(fs2, fs1.next_fd, q, 0)->Ok_0;
            resolution(fs2, host, at_once, follow_symlinks) == resolution(
                fs2,
                host,
                staged,
                follow_symlinks,
            )
        }),
{
    let first = first_frame(fs, base, p, 0)->Ok_0;
    let enough = law_resolution_ends(fs, host, first, follow_symlinks);
    lemma_resolution_is(fs, host, first, follow_symlinks, enough);
    lemma_plain_walk(fs, host, first, follow_symlinks, enough);
    let (fs1, outcome) = resolution(fs, host, first, follow_symlinks);
    let d = outcome->Found_0;
    let fs2 = fs1.with_new_fd(rights, rights_inheriting, flags, d);
    let at_once = first_frame(fs2, base, p.push('/') + q, 0)->Ok_0;
    let staged = first_frame(fs2, fs1.next_fd, q, 0)->Ok_0;
    let cp = path_components(p);
    let n = cp.len() as int;
    assert(base != fs1.next_fd);
    lemma_components_of_both(p, q);
    let tail = named_pieces(q);
    // at once: the components of `p` are known
    assert(first.components.skip(0) =~= cp);
    lemma_known_with_fd(fs1, rights, rights_inheriting, flags, d, first.cur_inode, cp);
    assert(at_once.components.subrange(0, n) =~= cp);
    let onward = FrameView { next: n, cur_inode: d, ..at_once };
    let fuel = law_resolution_ends(fs2, host, onward, follow_symlinks);
    lemma_walk_known(fs2, host, at_once, follow_symlinks, n, d, fuel);
    lemma_resolution_is(fs2, host, at_once, follow_symlinks, (fuel + n) as nat);
    assert(onward.components.skip(n) =~= tail);
    // staged: a leading `.` stays
    let cq = path_components(q);
    let m = cq.len() - tail.len();
    if m == 1 {
        assert(staged.components.subrange(0, 1) =~= seq![cur_dir()]);
        assert(seq![cur_dir()].skip(1) =~= Seq::<Seq<char>>::empty());
        assert(known_path(fs2, d, seq![cur_dir()].skip(1)) == Some(d));
        assert(known_path(fs2, d, seq![cur_dir()]) == Some(d));
    } else {
        assert(staged.components.subrange(0, 0) =~= Seq::<Seq<char>>::empty());
    }
    let from = FrameView { next: m, ..staged };
    lemma_walk_known(fs2, host, staged, follow_symlinks, m, d, fuel);
    assert(from.components.skip(m) =~= tail);
    lemma_walk_same_rest(fs2, host, onward, from, follow_symlinks, fuel);
    lemma_resolution_is(fs2, host, staged, follow_symlinks, (fuel + m) as nat);
}

/// The inodes and descriptors of one filesystem are all in another, as they are.
pub open spec fn is_part_of(fs: FsView, more: FsView) -> bool {
    &&& more.fds == fs.fds
    &&& more.preopen_fds == fs.preopen_fds
    &&& forall|i: Inode| #[trigger]
        fs.inodes.contains_key(i) ==> more.live(i) && more.kind(i) == fs.kind(i)
}

/// More inodes change nothing about where a host path lies.
proof fn lemma_split_in_more(fs: FsView, more: FsView, file: Seq<char>, k: int)
    requires
        fs.wf(),
        is_part_of(fs, more),
        0 <= k,
    ensures
        preopen_split(more, file, false, k) == preopen_split(fs, file, false, k),
    decreases fs.preopen_fds.len() - k,
{
    if k < fs.preopen_fds.len() {
        assert(fs.is_base(fs.preopen_fds[k]));
        assert(fs.inodes.contains_key(fs.fds[fs.preopen_fds[k]].inode));
        lemma_split_in_more(fs, more, file, k + 1);
    }
}

/// The file in a directory is a symbolic link that stands for itself: its path, from the
/// directory that it starts from, is its own name in the same directory.
pub open spec fn leads_to_itself(
    fs: FsView,
    host: HostView,
    dir: Inode,
    name: Seq<char>,
) -> bool {
    let file = path_push(fs.kind(dir)->Dir_path, name);
    &&& fs.kind(dir) is Dir
    &&& known_step(fs, dir, name) is None
    &&& may_load(name)
    &&& (host.file_type)(file) == Some(HostFileType::Symlink)
    &&& (host.link_value)(file) matches Some(value)
    &&& !is_absolute(value)
    &&& preopen_split(fs, file, false, 0) matches Ok((fd, rest))
    &&& fs.fds[fd].inode == dir
    &&& path_components(link_target(rest, value)) == seq![name]
}

/// A symbolic link that leads to itself is refused for too many links, whatever has been
/// traversed before. The host has the attributes of every file, and the arena gives out
/// none of the inodes that are there.
pub proof fn law_link_to_itself_is_refused(
    fs: FsView,
    host: HostView,
    dir: Inode,
    name: Seq<char>,
    symlink_count: u32,
)
    requires
        fs.wf(),
        fs.live(dir),
        leads_to_itself(fs, host, dir, name),
        symlink_count <= MAX_SYMLINKS,
        forall|source: StatSourceView| stat_of_answer(#[trigger] (host.stat)(source)) is Some,
        forall|g: FsView| !fs.live(#[trigger] (host.pick)(g)),
    ensures
        resolution(
            fs,
            host,
            FrameView { components: seq![name], next: 0, cur_inode: dir, symlink_count },
            true,
        ).1 == Outcome::Failed(__WASI_EMLINK),
{
    let fuel = lemma_circle(fs, fs, host, dir, name, symlink_count);
    let frame = FrameView { components: seq![name], next: 0, cur_inode: dir, symlink_count };
    lemma_resolution_is(fs, host, frame, true, fuel);
}

/// The same for a walk, in a filesystem with more inodes.
#[verifier::rlimit(40)]
proof fn lemma_circle(
    fs: FsView,
    more: FsView,
    host: HostView,
    dir: Inode,
    name: Seq<char>,
    symlink_count: u32,
) -> (fuel: nat)
    requires
        fs.wf(),
        fs.live(dir),
        leads_to_itself(fs, host, dir, name),
        is_part_of(fs, more),
        symlink_count <= MAX_SYMLINKS,
        forall|source: StatSourceView| stat_of_answer(#[trigger] (host.stat)(source)) is Some,
        forall|g: FsView| !fs.live(#[trigger] (host.pick)(g)),
    ensures
        walk(
            more,
            host,
            FrameView { components: seq![name], next: 0, cur_inode: dir, symlink_count },
            true,
            fuel,
        ) matches Some((_, Outcome::Failed(e))) && e == __WASI_EMLINK,
    decreases MAX_SYMLINKS - symlink_count,
{
    let frame = FrameView { components: seq![name], next: 0, cur_inode: dir, symlink_count };
    let file = path_push(fs.kind(dir)->Dir_path, name);
    let value = (host.link_value)(file)->0;
    let (fd, rest) = preopen_split(fs, file, false, 0)->Ok_0;
    let i = (host.pick)(more);
    assert(fs.inodes.contains_key(dir));
    lemma_split_in_more(fs, more, file, 0);
    lemma_wf_split_ready(fs, file, false, 0);
    lemma_preopen_split(fs, file, false, 0);
    let (after, loaded) = load(more, host, dir, name, file);
    assert(loaded == Ok::<Inode, Outcome>(i));
    assert(is_part_of(fs, after));
    let link = frame.entered(i);
    assert(after.kind(i) == KindView::Symlink {
        base_po_dir: fd,
        path_to_symlink: rest,
        relative_path: value,
    });
    assert(frame.component() == name);
    let next = (symlink_count + 1) as u32;
    if symlink_count == MAX_SYMLINKS {
        reveal_with_fuel(walk, 2);
        assert(walk(more, host, frame, true, 2) == walk(after, host, link, true, 1));
        2
    } else {
        let less = lemma_circle(fs, after, host, dir, name, next);
        let again = FrameView {
            components: seq![name],
            next: 0,
            cur_inode: dir,
            symlink_count: next,
        };
        assert(first_frame(after, fd, link_target(rest, value), next) == Ok::<
            FrameView,
            __wasi_errno_t,
        >(again));
        assert(walk(after, host, link, true, less + 1) == walk(after, host, again, true, less));
        assert(walk(more, host, frame, true, less + 2) == walk(
            after,
            host,
            link,
            true,
            less + 1,
        ));
        less + 2
    }
}

} // verus!

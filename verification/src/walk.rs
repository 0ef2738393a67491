//! What holds of path resolution from beginning to end.
use crate::cursor::{
    CursorView, FrameView, ReplyView, RequestView, StepView, Unsupported, WaitingView,
    MAX_SYMLINKS,
};
use crate::host::{HostFileType, StatAnswer, StatSourceView};
use crate::inode::{Inode, KindView};
use crate::model::FsView;
use crate::path::{cur_dir, is_absolute, is_dots, parent_dir, path_push, root_dir};
use crate::steps::{
    advance, first_cursor, first_frame, fs_after, is_resolved, link_resolved, link_target,
    loaded_inode, preopen_split, resumed, step, with_loaded,
};
use crate::wasi::{__wasi_errno_t, __WASI_EACCES, __WASI_EINVAL, __WASI_EIO, __WASI_ENOTDIR};
use vstd::prelude::*;

verus! {

/// One step within what is known: the inode that a component leads to from an inode
/// without asking the host, if it leads anywhere.
pub open spec fn known_step(fs: FsView, inode: Inode, component: Seq<char>) -> Option<Inode> {
    let kind = fs.kind(inode);
    if kind is Root && is_dots(component) || kind is Dir && component == cur_dir() {
        Some(inode)
    } else if kind is Dir && component == parent_dir() {
        kind.parent()
    } else if kind.entries().contains_key(component) {
        Some(kind.entries()[component])
    } else {
        None
    }
}

/// The inode that components lead to from an inode without asking the host, if they
/// lead anywhere.
pub open spec fn known_path(fs: FsView, inode: Inode, components: Seq<Seq<char>>) -> Option<Inode>
    decreases components.len(),
{
    if components.len() == 0 {
        Some(inode)
    } else {
        match known_step(fs, inode, components[0]) {
            Some(next) => known_path(fs, next, components.skip(1)),
            None => None,
        }
    }
}

/// A host that answers a question always alike, and an arena that has some order in
/// which it gives out inodes.
pub struct HostView {
    pub file_type: spec_fn(Seq<char>) -> Option<HostFileType>,
    pub link_value: spec_fn(Seq<char>) -> Option<Seq<char>>,
    pub stat: spec_fn(StatSourceView) -> StatAnswer,
    pub pick: spec_fn(FsView) -> Inode,
}

/// The host's reply to a request.
pub open spec fn reply_to(host: HostView, request: RequestView) -> ReplyView {
    match request {
        RequestView::FileType(p) => ReplyView::FileType((host.file_type)(p)),
        RequestView::LinkValue(p) => ReplyView::LinkValue((host.link_value)(p)),
        RequestView::Stat(source) => ReplyView::Stat((host.stat)(source)),
    }
}

/// What comes of one more step, with the host asked where it has to be.
pub open spec fn once(fs: FsView, host: HostView, at: StepView) -> (FsView, StepView) {
    let inode = (host.pick)(fs);
    match at {
        StepView::Continue(c) => (
            fs_after(fs, c, ReplyView::Nothing, inode),
            step(fs, c, ReplyView::Nothing, inode),
        ),
        StepView::Ask(request, c) => (
            fs_after(fs, c, reply_to(host, request), inode),
            step(fs, c, reply_to(host, request), inode),
        ),
        _ => (fs, at),
    }
}

/// What comes of some more steps.
pub open spec fn run(fs: FsView, host: HostView, at: StepView, steps: nat) -> (FsView, StepView)
    decreases steps,
{
    if steps == 0 {
        (fs, at)
    } else {
        let (fs1, at1) = once(fs, host, at);
        run(fs1, host, at1, (steps - 1) as nat)
    }
}

/// What resolving a path comes to.
pub enum Outcome {
    /// the inode that the path leads to, and how many symbolic links were traversed
    Found(Inode, u32),
    Failed(__wasi_errno_t),
    Unsupported(Unsupported),
}

/// Makes the inode for a file of a directory.
pub open spec fn make(
    fs: FsView,
    host: HostView,
    dir: Inode,
    name: Seq<char>,
    file: Seq<char>,
    kind: KindView,
) -> (FsView, Result<Inode, Outcome>) {
    let answer = (host.stat)(fs.stat_source(kind)->0);
    let inode = (host.pick)(fs);
    if fs.stat_for_kind(kind, answer) is Some {
        (
            with_loaded(fs, dir, name, inode, loaded_inode(fs, file, kind, answer)),
            Ok(inode),
        )
    } else {
        (fs, Err(Outcome::Failed(__WASI_EIO)))
    }
}

/// Loads a file of a directory that is not an entry yet.
pub open spec fn load(
    fs: FsView,
    host: HostView,
    dir: Inode,
    name: Seq<char>,
    file: Seq<char>,
) -> (FsView, Result<Inode, Outcome>) {
    match (host.file_type)(file) {
        None => (fs, Err(Outcome::Failed(__WASI_EINVAL))),
        Some(HostFileType::Dir) => make(
            fs,
            host,
            dir,
            name,
            file,
            KindView::Dir { parent: Some(dir), path: file, entries: Map::empty() },
        ),
        Some(HostFileType::File) => make(
            fs,
            host,
            dir,
            name,
            file,
            KindView::File { handle: None, path: file },
        ),
        Some(HostFileType::Symlink) => match (host.link_value)(file) {
            None => (fs, Err(Outcome::Failed(__WASI_EIO))),
            Some(value) => if is_absolute(value) {
                (fs, Err(Outcome::Unsupported(Unsupported::AbsoluteSymlink)))
            } else {
                match preopen_split(fs, file, false, 0) {
                    Err(e) => (fs, Err(Outcome::Failed(e))),
                    Ok((fd, rest)) => make(
                        fs,
                        host,
                        dir,
                        name,
                        file,
                        KindView::Symlink {
                            base_po_dir: fd,
                            path_to_symlink: rest,
                            relative_path: value,
                        },
                    ),
                }
            },
        },
        Some(HostFileType::Other) => (fs, Err(Outcome::Unsupported(Unsupported::FileType))),
    }
}

/// The component may name a file on the host: it is neither the parent nor the root.
pub open spec fn may_load(component: Seq<char>) -> bool {
    component != parent_dir() && component != root_dir()
}

/// What a path comes to, from where it is: component by component, a symbolic link on
/// the way being resolved as a path of its own. Nothing where that takes more than the
/// fuel allows.
pub open spec fn walk(
    fs: FsView,
    host: HostView,
    frame: FrameView,
    follow_symlinks: bool,
    fuel: nat,
) -> Option<(FsView, Outcome)>
    decreases fuel,
{
    let less = (fuel - 1) as nat;
    if fuel == 0 {
        None
    } else if is_resolved(fs, frame, follow_symlinks) {
        Some((fs, Outcome::Found(frame.cur_inode, frame.symlink_count)))
    } else {
        let name = frame.component();
        match fs.kind(frame.cur_inode) {
            KindView::Buffer { .. } => Some((fs, Outcome::Unsupported(Unsupported::Buffer))),
            KindView::File { .. } => Some((fs, Outcome::Failed(__WASI_ENOTDIR))),
            KindView::Root { .. } => match known_step(fs, frame.cur_inode, name) {
                Some(i) => walk(fs, host, frame.entered(i), follow_symlinks, less),
                None => Some((fs, Outcome::Failed(__WASI_EINVAL))),
            },
            KindView::Dir { path, .. } => match known_step(fs, frame.cur_inode, name) {
                Some(i) => walk(fs, host, frame.entered(i), follow_symlinks, less),
                None => if name == parent_dir() {
                    Some((fs, Outcome::Failed(__WASI_EACCES)))
                } else if name == root_dir() {
                    Some((fs, Outcome::Failed(__WASI_EINVAL)))
                } else {
                    match load(fs, host, frame.cur_inode, name, path_push(path, name)) {
                        (fs1, Ok(i)) => walk(fs1, host, frame.entered(i), follow_symlinks, less),
                        (fs1, Err(outcome)) => Some((fs1, outcome)),
                    }
                },
            },
            KindView::Symlink { base_po_dir, path_to_symlink, relative_path } => {
                let target = link_target(path_to_symlink, relative_path);
                match first_frame(fs, base_po_dir, target, (frame.symlink_count + 1) as u32) {
                    Err(e) => Some((fs, Outcome::Failed(e))),
                    Ok(link) => match walk(fs, host, link, follow_symlinks, less) {
                        Some((fs1, Outcome::Found(i, count))) => walk(
                            fs1,
                            host,
                            resumed(frame, i, count),
                            follow_symlinks,
                            less,
                        ),
                        other => other,
                    },
                }
            },
        }
    }
}

/// Where a cursor stands once the path being resolved has come to something.
pub open spec fn finished(cursor: CursorView, outcome: Outcome) -> StepView {
    match outcome {
        Outcome::Found(i, count) => if cursor.frames.len() == 1 {
            StepView::Done(Ok(i))
        } else {
            StepView::Continue(link_resolved(cursor, i, count))
        },
        Outcome::Failed(e) => StepView::Done(Err(e)),
        Outcome::Unsupported(u) => StepView::Unsupported(u),
    }
}

/// Steps that are taken in two goes are taken in one.
proof fn lemma_run_on(fs: FsView, host: HostView, at: StepView, m: nat, n: nat)
    ensures
        run(fs, host, at, m + n) == run(
            run(fs, host, at, m).0,
            host,
            run(fs, host, at, m).1,
            n,
        ),
    decreases m,
{
    if m > 0 {
        let (fs1, at1) = once(fs, host, at);
        lemma_run_on(fs1, host, at1, (m - 1) as nat, n);
    }
}

/// One step comes first.
proof fn lemma_run_once(fs: FsView, host: HostView, at: StepView, n: nat)
    ensures
        run(fs, host, at, 1) == once(fs, host, at),
        run(fs, host, at, n + 1) == run(once(fs, host, at).0, host, once(fs, host, at).1, n),
{
    reveal_with_fuel(run, 2);
}

/// Asking for the type of a file leads, in a few steps, to where loading it does.
proof fn lemma_run_load(fs: FsView, host: HostView, cursor: CursorView, file: Seq<char>) -> (n: nat)
    requires
        cursor.frames.len() > 0,
        cursor.waiting is Nothing,
    ensures
        n > 0,
        ({
            let asked = StepView::Ask(
                RequestView::FileType(file),
                cursor.waiting_for(WaitingView::FileType { file }),
            );
            let (fs1, loaded) = load(
                fs,
                host,
                cursor.top().cur_inode,
                cursor.top().component(),
                file,
            );
            run(fs, host, asked, n) == (
                fs1,
                match loaded {
                    Ok(i) => StepView::Continue(cursor.with_top(cursor.top().entered(i))),
                    Err(outcome) => finished(cursor, outcome),
                },
            )
        }),
{
    reveal_with_fuel(run, 4);
    let c1 = cursor.waiting_for(WaitingView::FileType { file });
    let asked = StepView::Ask(RequestView::FileType(file), c1);
    match (host.file_type)(file) {
        None => 1,
        Some(HostFileType::Other) => 1,
        Some(HostFileType::Symlink) => {
            let c2 = c1.waiting_for(WaitingView::LinkValue { file });
            assert(once(fs, host, asked) == (
                fs,
                StepView::Ask(RequestView::LinkValue(file), c2),
            ));
            if (host.link_value)(file) is Some && !is_absolute((host.link_value)(file)->0)
                && preopen_split(fs, file, false, 0) is Ok {
                3
            } else {
                2
            }
        },
        _ => 2,
    }
}

/// The steps of a cursor come to what the path that it resolves comes to, and leave
/// what is below that path as it was.
#[verifier::rlimit(40)]
proof fn lemma_run_walk(fs: FsView, host: HostView, cursor: CursorView, fuel: nat) -> (n: nat)
    requires
        cursor.frames.len() > 0,
        cursor.waiting is Nothing,
        walk(fs, host, cursor.top(), cursor.follow_symlinks, fuel) is Some,
    ensures
        n > 0,
        ({
            let (fs1, outcome) = walk(fs, host, cursor.top(), cursor.follow_symlinks, fuel)->0;
            run(fs, host, StepView::Continue(cursor), n) == (fs1, finished(cursor, outcome))
        }),
    decreases fuel, 1nat,
{
    let at = StepView::Continue(cursor);
    let frame = cursor.top();
    let less = (fuel - 1) as nat;
    assert(once(fs, host, at) == (fs, advance(fs, cursor)));
    lemma_run_once(fs, host, at, 0);
    if is_resolved(fs, frame, cursor.follow_symlinks) {
        1
    } else {
        match fs.kind(frame.cur_inode) {
            KindView::Buffer { .. } => 1,
            KindView::File { .. } => 1,
            KindView::Symlink { .. } => lemma_run_link(fs, host, cursor, fuel),
            _ => match known_step(fs, frame.cur_inode, frame.component()) {
                Some(i) => {
                    let n = lemma_run_frame(fs, host, cursor, frame.entered(i), less);
                    lemma_run_once(fs, host, at, n);
                    n + 1
                },
                None => if fs.kind(frame.cur_inode) is Dir && may_load(frame.component()) {
                    lemma_run_loading(fs, host, cursor, fuel)
                } else {
                    1
                },
            },
        }
    }
}

/// The same, for a cursor that has come to a file that is not an entry yet.
#[verifier::rlimit(40)]
proof fn lemma_run_loading(fs: FsView, host: HostView, cursor: CursorView, fuel: nat) -> (n: nat)
    requires
        cursor.frames.len() > 0,
        cursor.waiting is Nothing,
        walk(fs, host, cursor.top(), cursor.follow_symlinks, fuel) is Some,
        !is_resolved(fs, cursor.top(), cursor.follow_symlinks),
        fs.kind(cursor.top().cur_inode) is Dir,
        may_load(cursor.top().component()),
        known_step(fs, cursor.top().cur_inode, cursor.top().component()) is None,
    ensures
        n > 0,
        ({
            let (fs1, outcome) = walk(fs, host, cursor.top(), cursor.follow_symlinks, fuel)->0;
            run(fs, host, StepView::Continue(cursor), n) == (fs1, finished(cursor, outcome))
        }),
    decreases fuel, 0nat,
{
    let at = StepView::Continue(cursor);
    let frame = cursor.top();
    let file = path_push(fs.kind(frame.cur_inode)->Dir_path, frame.component());
    assert(once(fs, host, at) == (fs, advance(fs, cursor)));
    let m = lemma_run_load(fs, host, cursor, file);
    lemma_run_once(fs, host, at, m);
    match load(fs, host, frame.cur_inode, frame.component(), file) {
        (fs2, Ok(i)) => {
            let n = lemma_run_frame(fs2, host, cursor, frame.entered(i), (fuel - 1) as nat);
            lemma_run_on(fs, host, at, m + 1, n);
            m + 1 + n
        },
        (fs2, Err(_)) => m + 1,
    }
}

/// The same, for a cursor that has come to a symbolic link.
#[verifier::rlimit(40)]
proof fn lemma_run_link(fs: FsView, host: HostView, cursor: CursorView, fuel: nat) -> (n: nat)
    requires
        cursor.frames.len() > 0,
        cursor.waiting is Nothing,
        walk(fs, host, cursor.top(), cursor.follow_symlinks, fuel) is Some,
        !is_resolved(fs, cursor.top(), cursor.follow_symlinks),
        fs.kind(cursor.top().cur_inode) is Symlink,
    ensures
        n > 0,
        ({
            let (fs1, outcome) = walk(fs, host, cursor.top(), cursor.follow_symlinks, fuel)->0;
            run(fs, host, StepView::Continue(cursor), n) == (fs1, finished(cursor, outcome))
        }),
    decreases fuel, 0nat,
{
    let at = StepView::Continue(cursor);
    let frame = cursor.top();
    let less = (fuel - 1) as nat;
    let kind = fs.kind(frame.cur_inode);
    let target = link_target(kind->path_to_symlink, kind->relative_path);
    let begun = first_frame(fs, kind->base_po_dir, target, (frame.symlink_count + 1) as u32);
    assert(once(fs, host, at) == (fs, advance(fs, cursor)));
    lemma_run_once(fs, host, at, 0);
    if begun is Err {
        1
    } else {
        let link = begun->Ok_0;
        let inner = cursor.with_link(link);
        assert(inner.top() == link);
        let m = lemma_run_walk(fs, host, inner, less);
        lemma_run_once(fs, host, at, m);
        let (fs2, outcome) = walk(fs, host, link, cursor.follow_symlinks, less)->0;
        match outcome {
            Outcome::Found(i, count) => {
                let f = resumed(frame, i, count);
                assert(inner.frames.drop_last() =~= cursor.frames);
                assert(link_resolved(inner, i, count) =~= cursor.with_top(f));
                let n = lemma_run_frame(fs2, host, cursor, f, less);
                lemma_run_on(fs, host, at, m + 1, n);
                m + 1 + n
            },
            _ => m + 1,
        }
    }
}

/// The same, for a cursor whose path was taken further.
proof fn lemma_run_frame(
    fs: FsView,
    host: HostView,
    cursor: CursorView,
    frame: FrameView,
    fuel: nat,
) -> (n: nat)
    requires
        cursor.frames.len() > 0,
        walk(fs, host, frame, cursor.follow_symlinks, fuel) is Some,
    ensures
        n > 0,
        ({
            let (fs1, outcome) = walk(fs, host, frame, cursor.follow_symlinks, fuel)->0;
            run(fs, host, StepView::Continue(cursor.with_top(frame)), n) == (
                fs1,
                finished(cursor, outcome),
            )
        }),
    decreases fuel, 2nat,
{
    let c = cursor.with_top(frame);
    assert(c.top() == frame);
    let n = lemma_run_walk(fs, host, c, fuel);
    let (fs1, outcome) = walk(fs, host, frame, cursor.follow_symlinks, fuel)->0;
    assert(c.frames.drop_last() =~= cursor.frames.drop_last());
    if let Outcome::Found(i, count) = outcome {
        if cursor.frames.len() > 1 {
            assert(link_resolved(c, i, count) =~= link_resolved(cursor, i, count));
        }
    }
    n
}

/// Nothing more comes of a path that is resolved, or cannot be.
pub open spec fn is_end(at: StepView) -> bool {
    at is Done || at is Unsupported
}

/// An end stays the end.
proof fn lemma_end_stays(fs: FsView, host: HostView, at: StepView, n: nat)
    requires
        is_end(at),
    ensures
        run(fs, host, at, n) == (fs, at),
    decreases n,
{
    if n > 0 {
        lemma_end_stays(fs, host, at, (n - 1) as nat);
    }
}

/// More fuel than enough changes nothing.
#[verifier::rlimit(40)]
proof fn lemma_walk_more(
    fs: FsView,
    host: HostView,
    frame: FrameView,
    follow_symlinks: bool,
    fuel: nat,
    more: nat,
)
    requires
        fuel <= more,
        walk(fs, host, frame, follow_symlinks, fuel) is Some,
    ensures
        walk(fs, host, frame, follow_symlinks, more) == walk(
            fs,
            host,
            frame,
            follow_symlinks,
            fuel,
        ),
    decreases fuel,
{
    let a = (fuel - 1) as nat;
    let b = (more - 1) as nat;
    if !is_resolved(fs, frame, follow_symlinks) {
        let name = frame.component();
        let kind = fs.kind(frame.cur_inode);
        if kind is Root || kind is Dir {
            match known_step(fs, frame.cur_inode, name) {
                Some(i) => lemma_walk_more(fs, host, frame.entered(i), follow_symlinks, a, b),
                None => if kind is Dir && may_load(name) {
                    let file = path_push(kind->Dir_path, name);
                    let (fs1, loaded) = load(fs, host, frame.cur_inode, name, file);
                    if let Ok(i) = loaded {
                        lemma_walk_more(fs1, host, frame.entered(i), follow_symlinks, a, b);
                    }
                },
            }
        } else if let KindView::Symlink { base_po_dir, path_to_symlink, relative_path } = kind {
            let target = link_target(path_to_symlink, relative_path);
            let link = first_frame(fs, base_po_dir, target, (frame.symlink_count + 1) as u32);
            if link is Ok {
                lemma_walk_more(fs, host, link->Ok_0, follow_symlinks, a, b);
                let (fs1, outcome) = walk(fs, host, link->Ok_0, follow_symlinks, a)->0;
                if let Outcome::Found(i, count) = outcome {
                    let f = resumed(frame, i, count);
                    lemma_walk_more(fs1, host, f, follow_symlinks, a, b);
                }
            }
        }
    }
}

/// A path counts the symbolic links that it traverses, and never more than can be.
#[verifier::rlimit(40)]
pub proof fn lemma_walk_counts(
    fs: FsView,
    host: HostView,
    frame: FrameView,
    follow_symlinks: bool,
    fuel: nat,
)
    requires
        frame.symlink_count <= MAX_SYMLINKS,
    ensures
        walk(fs, host, frame, follow_symlinks, fuel) matches Some((_, Outcome::Found(_, count)))
            ==> frame.symlink_count <= count <= MAX_SYMLINKS,
    decreases fuel,
{
    if fuel > 0 && !is_resolved(fs, frame, follow_symlinks) {
        let less = (fuel - 1) as nat;
        let name = frame.component();
        let kind = fs.kind(frame.cur_inode);
        if kind is Root || kind is Dir {
            match known_step(fs, frame.cur_inode, name) {
                Some(i) => lemma_walk_counts(fs, host, frame.entered(i), follow_symlinks, less),
                None => if kind is Dir && may_load(name) {
                    let file = path_push(kind->Dir_path, name);
                    let (fs1, loaded) = load(fs, host, frame.cur_inode, name, file);
                    if let Ok(i) = loaded {
                        lemma_walk_counts(fs1, host, frame.entered(i), follow_symlinks, less);
                    }
                },
            }
        } else if let KindView::Symlink { base_po_dir, path_to_symlink, relative_path } = kind {
            let target = link_target(path_to_symlink, relative_path);
            let link = first_frame(fs, base_po_dir, target, (frame.symlink_count + 1) as u32);
            if link is Ok {
                lemma_walk_counts(fs, host, link->Ok_0, follow_symlinks, less);
                if let Some((fs1, Outcome::Found(i, count))) = walk(
                    fs,
                    host,
                    link->Ok_0,
                    follow_symlinks,
                    less,
                ) {
                    lemma_walk_counts(fs1, host, resumed(frame, i, count), follow_symlinks, less);
                }
            }
        }
    }
}

/// Every path comes to something: there is an amount of fuel from which on a walk has an
/// outcome, and always the same. Symbolic links that lead round in a circle end too, as
/// no more than the limit are traversed.
#[verifier::rlimit(40)]
pub proof fn law_resolution_ends(
    fs: FsView,
    host: HostView,
    frame: FrameView,
    follow_symlinks: bool,
) -> (fuel: nat)
    requires
        frame.symlink_count <= MAX_SYMLINKS,
    ensures
        walk(fs, host, frame, follow_symlinks, fuel) is Some,
        forall|more: nat|
            fuel <= more ==> #[trigger] walk(fs, host, frame, follow_symlinks, more) == walk(
                fs,
                host,
                frame,
                follow_symlinks,
                fuel,
            ),
    decreases MAX_SYMLINKS - frame.symlink_count, frame.components.len() - frame.next,
{
    let kind = fs.kind(frame.cur_inode);
    let name = frame.component();
    let fuel: nat = if is_resolved(fs, frame, follow_symlinks) {
        1
    } else if kind is Root || kind is Dir {
        match known_step(fs, frame.cur_inode, name) {
            Some(i) => law_resolution_ends(fs, host, frame.entered(i), follow_symlinks) + 1,
            None => if kind is Dir && may_load(name) {
                let file = path_push(kind->Dir_path, name);
                let (fs1, loaded) = load(fs, host, frame.cur_inode, name, file);
                match loaded {
                    Ok(i) => law_resolution_ends(fs1, host, frame.entered(i), follow_symlinks) + 1,
                    Err(_) => 1,
                }
            } else {
                1
            },
        }
    } else if kind is Symlink {
        let target = link_target(kind->path_to_symlink, kind->relative_path);
        let link = first_frame(fs, kind->base_po_dir, target, (frame.symlink_count + 1) as u32);
        if link is Ok {
            let a = law_resolution_ends(fs, host, link->Ok_0, follow_symlinks);
            lemma_walk_counts(fs, host, link->Ok_0, follow_symlinks, a);
            match walk(fs, host, link->Ok_0, follow_symlinks, a)->0 {
                (fs1, Outcome::Found(i, count)) => {
                    let f = resumed(frame, i, count);
                    let b = law_resolution_ends(fs1, host, f, follow_symlinks);
                    lemma_walk_more(fs, host, link->Ok_0, follow_symlinks, a, a + b);
                    lemma_walk_more(fs1, host, f, follow_symlinks, b, a + b);
                    a + b + 1
                },
                _ => a + 1,
            }
        } else {
            1
        }
    } else {
        1
    };
    assert(walk(fs, host, frame, follow_symlinks, fuel) is Some);
    assert forall|more: nat| fuel <= more implies #[trigger] walk(
        fs,
        host,
        frame,
        follow_symlinks,
        more,
    ) == walk(fs, host, frame, follow_symlinks, fuel) by {
        lemma_walk_more(fs, host, frame, follow_symlinks, fuel, more);
    }
    fuel
}

/// What a path comes to, with all the fuel that it takes.
pub open spec fn resolution(
    fs: FsView,
    host: HostView,
    frame: FrameView,
    follow_symlinks: bool,
) -> (FsView, Outcome) {
    walk(
        fs,
        host,
        frame,
        follow_symlinks,
        choose|fuel: nat| #[trigger] walk(fs, host, frame, follow_symlinks, fuel) is Some,
    )->0
}

/// A walk that has an outcome has the one that the path comes to.
pub proof fn lemma_resolution_is(
    fs: FsView,
    host: HostView,
    frame: FrameView,
    follow_symlinks: bool,
    fuel: nat,
)
    requires
        walk(fs, host, frame, follow_symlinks, fuel) is Some,
    ensures
        walk(fs, host, frame, follow_symlinks, fuel) == Some(
            resolution(fs, host, frame, follow_symlinks),
        ),
{
    let enough = choose|fuel: nat| #[trigger]
        walk(fs, host, frame, follow_symlinks, fuel) is Some;
    if fuel <= enough {
        lemma_walk_more(fs, host, frame, follow_symlinks, fuel, enough);
    } else {
        lemma_walk_more(fs, host, frame, follow_symlinks, enough, fuel);
    }
}

/// The end that a path comes to.
pub open spec fn end_of(outcome: Outcome) -> StepView {
    match outcome {
        Outcome::Found(i, _) => StepView::Done(Ok(i)),
        Outcome::Failed(e) => StepView::Done(Err(e)),
        Outcome::Unsupported(u) => StepView::Unsupported(u),
    }
}

/// Stepping a guest's path ends, and comes to what the path comes to, component by
/// component and link by link.
pub proof fn law_steps_come_to_the_resolution(
    fs: FsView,
    host: HostView,
    frame: FrameView,
    follow_symlinks: bool,
) -> (steps: nat)
    requires
        frame.symlink_count <= MAX_SYMLINKS,
    ensures
        ({
            let (fs1, outcome) = resolution(fs, host, frame, follow_symlinks);
            run(fs, host, StepView::Continue(first_cursor(frame, follow_symlinks)), steps) == (
                fs1,
                end_of(outcome),
            )
        }),
{
    let cursor = first_cursor(frame, follow_symlinks);
    assert(cursor.top() == frame);
    let fuel = law_resolution_ends(fs, host, frame, follow_symlinks);
    lemma_resolution_is(fs, host, frame, follow_symlinks, fuel);
    lemma_run_walk(fs, host, cursor, fuel)
}

/// Stepping a guest's path comes to nothing else: where the steps end, the path comes
/// to that end.
pub proof fn law_steps_come_to_nothing_else(
    fs: FsView,
    host: HostView,
    frame: FrameView,
    follow_symlinks: bool,
    steps: nat,
)
    requires
        frame.symlink_count <= MAX_SYMLINKS,
        is_end(
            run(
                fs,
                host,
                StepView::Continue(first_cursor(frame, follow_symlinks)),
                steps,
            ).1,
        ),
    ensures
        ({
            let (fs1, outcome) = resolution(fs, host, frame, follow_symlinks);
            run(fs, host, StepView::Continue(first_cursor(frame, follow_symlinks)), steps) == (
                fs1,
                end_of(outcome),
            )
        }),
{
    let at = StepView::Continue(first_cursor(frame, follow_symlinks));
    let n = law_steps_come_to_the_resolution(fs, host, frame, follow_symlinks);
    let (fs1, at1) = run(fs, host, at, steps);
    let (fs2, at2) = run(fs, host, at, n);
    if n <= steps {
        lemma_run_on(fs, host, at, n, (steps - n) as nat);
        lemma_end_stays(fs2, host, at2, (steps - n) as nat);
    } else {
        lemma_run_on(fs, host, at, steps, (n - steps) as nat);
        lemma_end_stays(fs1, host, at1, (n - steps) as nat);
    }
}

} // verus!

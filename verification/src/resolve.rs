//! How a guest path is resolved to an inode.
//!
//! Directories are loaded as paths lead through them, so resolution has to ask the
//! host. It is a machine: a [`PathCursor`] holds how far resolution has come, and
//! [`WasiFs::step_path`] takes it one step on, given the host's reply to what the
//! step before asked. The embedder runs the machine until it is done.
use crate::arena::arena_index;
use crate::cursor::{
    frame_views, replies, CursorView, Frame, FrameView, PathCursor, PathReply, PathRequest,
    PathStep, ReplyView, StepView, Unsupported, Waiting, WaitingView, MAX_SYMLINKS,
};
use crate::fs::WasiFs;
use crate::host::{HostFileType, StatAnswer};
use crate::inode::{Inode, Kind};
use crate::path::{
    components, has_root, is_absolute, is_component_list, is_cur_dir, is_parent_dir, join,
    lemma_components_of_join, lemma_components_shape, path_components, pop, push,
    root_dir, strip_prefix, texts,
};
use crate::steps::{
    advance, ask_stat, entity_name, first_cursor, first_frame, fs_after, host_path_split, is_ready, learn_file_type, learn_link,
    learn_stat, lemma_preopen_split, lemma_step_cursor_wf, lemma_step_fs_wf, lemma_step_wf,
    loaded_inode, made_inode, makes_inode, parent_frame, parent_of, parent_start,
    path_start, preopen_split, split_ready,
    step, step_live, step_wf, with_loaded,
};
use crate::wasi::{
    __wasi_errno_t, __wasi_fd_t, __WASI_EACCES, __WASI_EBADF, __WASI_EINVAL, __WASI_EIO,
    __WASI_EMLINK, __WASI_ENOTDIR,
};
use vstd::hash_map::StringHashMap;
use vstd::prelude::*;
use vstd::string::*;

verus! {

broadcast use vstd::std_specs::hash::group_hash_axioms;

impl WasiFs {
    /// Begins a path at a base descriptor.
    fn begin_path(&self, base: __wasi_fd_t, path: &str, symlink_count: u32) -> (r: Result<
        Frame,
        __wasi_errno_t,
    >)
        ensures
            match r {
                Ok(frame) => first_frame(self@, base, path@, symlink_count) == Ok::<
                    FrameView,
                    __wasi_errno_t,
                >(frame@),
                Err(e) => first_frame(self@, base, path@, symlink_count) == Err::<
                    FrameView,
                    __wasi_errno_t,
                >(e),
            },
    {
        if symlink_count > MAX_SYMLINKS {
            return Err(__WASI_EMLINK);
        }
        let base_dir = match self.get_fd(base) {
            Ok(fd) => fd,
            Err(e) => {
                return Err(e);
            },
        };
        Ok(
            Frame {
                components: components(path),
                next: 0,
                cur_inode: base_dir.inode,
                symlink_count,
            },
        )
    }

    /// Begins to resolve a path from a base directory.
    pub fn get_inode_at_path(
        &self,
        base: __wasi_fd_t,
        path: &str,
        follow_symlinks: bool,
    ) -> (r: Result<PathCursor, __wasi_errno_t>)
        ensures
            match r {
                Ok(cursor) => {
                    let frame = first_frame(self@, base, path@, 0);
                    frame is Ok && cursor@ == first_cursor(frame->Ok_0, follow_symlinks)
                },
                Err(e) => first_frame(self@, base, path@, 0) == Err::<FrameView, __wasi_errno_t>(e),
            },
            match path_start(self@, base, path@, follow_symlinks) {
                Ok(start) => r is Ok && r->Ok_0@ == start,
                Err(e) => r is Err && r->Err_0 == e,
            },
            r matches Ok(cursor) ==> cursor@.wf(self@),
            r matches Ok(cursor) ==> self@.fd_live(base) ==> cursor@.is_live(self@),
    {
        let frame = match self.begin_path(base, path, 0) {
            Ok(frame) => frame,
            Err(e) => {
                return Err(e);
            },
        };
        let mut frames: Vec<Frame> = Vec::new();
        frames.push(frame);
        let cursor = PathCursor { frames, follow_symlinks, waiting: Waiting::Nothing };
        assert(cursor@.frames =~= seq![frame@]);
        proof {
            lemma_components_shape(path@);
        }
        Ok(cursor)
    }

    /// Begins to resolve the directory that the file at a path is in, and strips the
    /// file's name off. Symbolic links on the way there are all followed: what is not
    /// to be followed is the last component, and that is not resolved. What the
    /// resolution ends in is to be put to [`WasiFs::parent_found`].
    pub fn get_parent_inode_at_path(
        &self,
        base: __wasi_fd_t,
        path: &str,
        _follow_symlinks: bool,
    ) -> (r: Result<(PathCursor, String), __wasi_errno_t>)
        ensures
            r is Err <==> path_components(path@).len() == 0 || !self@.fds.contains_key(base),
            r matches Err(e) ==> e == (if path_components(path@).len() == 0 {
                __WASI_EINVAL
            } else {
                __WASI_EBADF
            }),
            match parent_start(self@, base, path@) {
                Ok((start, name)) => r is Ok && r->Ok_0.0@ == start && r->Ok_0.1@ == name,
                Err(e) => r is Err && r->Err_0 == e,
            },
            r matches Ok((cursor, name)) ==> {
                &&& name@ == path_components(path@).last()
                &&& name@ == entity_name(path@)
                &&& cursor@ == first_cursor(parent_frame(self@, base, path@), true)
                &&& cursor@.wf(self@)
                &&& self@.fd_live(base) ==> cursor@.is_live(self@)
            },
    {
        let cs = components(path);
        let n: usize = cs.len();
        if n == 0 {
            return Err(__WASI_EINVAL);
        }
        let new_entity_name: String = cs[n - 1].clone();
        let parent_dir = join(&cs, 0, n - 1);
        proof {
            lemma_components_shape(path@);
            let front = path_components(path@).drop_last();
            assert forall|i: int| #![trigger front[i]] 0 <= i < front.len() implies front[i]
                == path_components(path@)[i] by {
            }
            assert(texts(cs@).subrange(0, n - 1) =~= front);
            lemma_components_of_join(front);
        }
        match self.get_inode_at_path(base, parent_dir.as_str(), true) {
            Ok(cursor) => Ok((cursor, new_entity_name)),
            Err(e) => Err(e),
        }
    }

    /// What the parent of a file is taken to be, given where the resolution that
    /// [`WasiFs::get_parent_inode_at_path`] begins has led: a directory or the root.
    pub fn parent_found(&self, inode: Inode) -> (r: Result<Inode, __wasi_errno_t>)
        requires
            self@.live(inode),
        ensures
            r == parent_of(self@, inode),
    {
        match &arena_index(&self.inodes, inode).kind {
            Kind::Dir { .. } => Ok(inode),
            Kind::Root { .. } => Ok(inode),
            _ => Err(__WASI_ENOTDIR),
        }
    }

    /// Finds the preopened descriptor that a host path lies at or below, and the path
    /// from there.
    pub fn path_into_pre_open_and_relative_path(&self, path: &str) -> (r: Result<
        (__wasi_fd_t, String),
        __wasi_errno_t,
    >)
        requires
            split_ready(self@, path@, true, 0),
        ensures
            match r {
                Ok((fd, rest)) => preopen_split(self@, path@, true, 0) == Ok::<
                    (__wasi_fd_t, Seq<char>),
                    __wasi_errno_t,
                >((fd, rest@)),
                Err(e) => preopen_split(self@, path@, true, 0) == Err::<
                    (__wasi_fd_t, Seq<char>),
                    __wasi_errno_t,
                >(e),
            },
            match host_path_split(self@, path@) {
                Ok((fd, rest)) => r is Ok && r->Ok_0.0 == fd && r->Ok_0.1@ == rest,
                Err(e) => r is Err && r->Err_0 == e,
            },
    {
        self.split_at_preopen(path, true)
    }

    /// Finds the preopened descriptor that a host path lies at or below, the root among
    /// them or not, and the path from there.
    fn split_at_preopen(&self, path: &str, with_root: bool) -> (r: Result<
        (__wasi_fd_t, String),
        __wasi_errno_t,
    >)
        requires
            split_ready(self@, path@, with_root, 0),
        ensures
            match r {
                Ok((fd, rest)) => preopen_split(self@, path@, with_root, 0) == Ok::<
                    (__wasi_fd_t, Seq<char>),
                    __wasi_errno_t,
                >((fd, rest@)),
                Err(e) => preopen_split(self@, path@, with_root, 0) == Err::<
                    (__wasi_fd_t, Seq<char>),
                    __wasi_errno_t,
                >(e),
            },
    {
        let mut k: usize = 0;
        while k < self.preopen_fds.len()
            invariant
                k <= self.preopen_fds.len(),
                split_ready(self@, path@, with_root, k as int),
                preopen_split(self@, path@, with_root, 0) == preopen_split(
                    self@,
                    path@,
                    with_root,
                    k as int,
                ),
            decreases self.preopen_fds.len() - k,
        {
            let po_fd: u32 = self.preopen_fds[k];
            assert(self@.is_base(self@.preopen_fds[k as int]));
            let po_inode = match self.get_fd(po_fd) {
                Ok(fd) => fd.inode,
                Err(e) => {
                    return Err(e);
                },
            };
            proof {
                reveal_strlit("/");
                assert("/"@ =~= root_dir());
            }
            let (po_path, counts) = match &arena_index(&self.inodes, po_inode).kind {
                Kind::Dir { path, .. } => (path.as_str(), true),
                _ => ("/", with_root),
            };
            if counts {
                match strip_prefix(path, po_path) {
                    Some(rest) => {
                        return Ok((po_fd, rest));
                    },
                    None => {},
                }
            }
            k = k + 1;
        }
        Err(__WASI_EINVAL)
    }

    /// Whether an inode is a symbolic link.
    fn is_link(&self, inode: Inode) -> (r: bool)
        requires
            self@.live(inode),
        ensures
            r == (self@.kind(inode) is Symlink),
    {
        match &arena_index(&self.inodes, inode).kind {
            Kind::Symlink { .. } => true,
            _ => false,
        }
    }

    /// Takes a step that needs no reply.
    fn advance_path(&self, cursor: PathCursor) -> (r: PathStep)
        requires
            cursor@.wf(self@),
            is_ready(self@, cursor@, ReplyView::Nothing),
            cursor@.waiting is Nothing,
        ensures
            r@ == advance(self@, cursor@),
    {
        let ghost whole = cursor@;
        let PathCursor { mut frames, follow_symlinks, waiting: _ } = cursor;
        let mut frame = frames.pop().unwrap();
        let ghost below = frame_views(frames@);
        proof {
            assert(below =~= whole.frames.drop_last());
            assert(frame@ == whole.top());
            assert(whole.top() == whole.frames[whole.frames.len() - 1]);
        }
        let len: usize = frame.components.len();
        if frame.next >= len && !(follow_symlinks && len > 0 && self.is_link(frame.cur_inode)) {
            if frames.len() == 0 {
                return PathStep::Done(Ok(frame.cur_inode));
            }
            let mut outer = frames.pop().unwrap();
            assert(frame_views(frames@) =~= below.drop_last());
            assert(outer@ == below.last());
            assert(outer@ == whole.frames[whole.frames.len() - 2]);
            outer.cur_inode = frame.cur_inode;
            outer.symlink_count = frame.symlink_count;
            return go_on(frames, outer, follow_symlinks);
        }
        match &arena_index(&self.inodes, frame.cur_inode).kind {
            Kind::Buffer { .. } => PathStep::Unsupported(Unsupported::Buffer),
            Kind::File { .. } => PathStep::Done(Err(__WASI_ENOTDIR)),
            Kind::Root { entries } => {
                let name: String = frame.components[frame.next].clone();
                if is_parent_dir(name.as_str()) || is_cur_dir(name.as_str()) {
                    // the root's parent is the root
                    frame.next = frame.next + 1;
                    return go_on(frames, frame, follow_symlinks);
                }
                match entries.get(name.as_str()) {
                    Some(entry) => {
                        frame.cur_inode = *entry;
                        frame.next = frame.next + 1;
                        go_on(frames, frame, follow_symlinks)
                    },
                    None => PathStep::Done(Err(__WASI_EINVAL)),
                }
            },
            Kind::Dir { parent, path, entries } => {
                let name: String = frame.components[frame.next].clone();
                if is_parent_dir(name.as_str()) {
                    match parent {
                        Some(p) => {
                            frame.cur_inode = *p;
                            frame.next = frame.next + 1;
                            return go_on(frames, frame, follow_symlinks);
                        },
                        None => {
                            return PathStep::Done(Err(__WASI_EACCES));
                        },
                    }
                }
                if is_cur_dir(name.as_str()) {
                    frame.next = frame.next + 1;
                    return go_on(frames, frame, follow_symlinks);
                }
                match entries.get(name.as_str()) {
                    Some(entry) => {
                        frame.cur_inode = *entry;
                        frame.next = frame.next + 1;
                        go_on(frames, frame, follow_symlinks)
                    },
                    None => {
                        if has_root(name.as_str()) {
                            // a path does not start over at the host's root
                            proof {
                                assert(whole.top() == whole.frames[whole.frames.len() - 1]);
                                assert(is_component_list(whole.top().components));
                            }
                            return PathStep::Done(Err(__WASI_EINVAL));
                        }
                        let file = push(path.as_str(), name.as_str());
                        let request = PathRequest::FileType(file.clone());
                        frames.push(frame);
                        assert(frame_views(frames@) =~= whole.frames);
                        let waiting = Waiting::FileType { file };
                        PathStep::Ask(request, PathCursor { frames, follow_symlinks, waiting })
                    },
                }
            },
            Kind::Symlink { base_po_dir, path_to_symlink, relative_path } => {
                // without the link itself, the path leads to where the link is
                let dir = pop(path_to_symlink.as_str());
                let target = push(dir.as_str(), relative_path.as_str());
                match self.begin_path(*base_po_dir, target.as_str(), frame.symlink_count + 1) {
                    Ok(link) => {
                        frames.push(frame);
                        assert(frame_views(frames@) =~= whole.frames);
                        go_on(frames, link, follow_symlinks)
                    },
                    Err(e) => PathStep::Done(Err(e)),
                }
            },
        }
    }

    /// Asks for the attributes of an inode that is about to be made for a file.
    fn ask_for_stat(&self, cursor: PathCursor, file: String, kind: Kind) -> (r: PathStep)
        requires
            self@.base_known(kind@),
            self@.stat_source(kind@) is Some,
        ensures
            r@ == ask_stat(self@, cursor@, file@, kind@),
    {
        match self.stat_request(&kind) {
            Some(source) => {
                let PathCursor { frames, follow_symlinks, waiting: _ } = cursor;
                let waiting = Waiting::Stat { file, kind };
                PathStep::Ask(
                    PathRequest::Stat(source),
                    PathCursor { frames, follow_symlinks, waiting },
                )
            },
            None => PathStep::Done(Err(__WASI_EIO)),
        }
    }

    /// Takes a step on the type of a file that is not loaded yet.
    fn learn_file_type(
        &self,
        cursor: PathCursor,
        file: String,
        file_type: Option<HostFileType>,
    ) -> (r: PathStep)
        requires
            cursor@.frames.len() > 0,
        ensures
            r@ == learn_file_type(self@, cursor@, file@, file_type),
    {
        match file_type {
            None => PathStep::Done(Err(__WASI_EINVAL)),
            Some(HostFileType::Dir) => {
                let cur_inode = cursor.frames[cursor.frames.len() - 1].cur_inode;
                let kind = Kind::Dir {
                    parent: Some(cur_inode),
                    path: file.clone(),
                    entries: StringHashMap::new(),
                };
                self.ask_for_stat(cursor, file, kind)
            },
            Some(HostFileType::File) => {
                let kind = Kind::File { handle: None, path: file.clone() };
                self.ask_for_stat(cursor, file, kind)
            },
            Some(HostFileType::Symlink) => {
                let PathCursor { frames, follow_symlinks, waiting: _ } = cursor;
                let request = PathRequest::LinkValue(file.clone());
                let waiting = Waiting::LinkValue { file };
                PathStep::Ask(request, PathCursor { frames, follow_symlinks, waiting })
            },
            Some(HostFileType::Other) => PathStep::Unsupported(Unsupported::FileType),
        }
    }

    /// Takes a step on the value of a symbolic link that is not loaded yet.
    fn learn_link(&self, cursor: PathCursor, file: String, value: Option<String>) -> (r: PathStep)
        requires
            value matches Some(v) && !is_absolute(v@) ==> split_ready(self@, file@, false, 0),
        ensures
            r@ == learn_link(
                self@,
                cursor@,
                file@,
                match value {
                    Some(v) => Some(v@),
                    None => None,
                },
            ),
    {
        let link_value = match value {
            Some(v) => v,
            None => {
                return PathStep::Done(Err(__WASI_EIO));
            },
        };
        if has_root(link_value.as_str()) {
            return PathStep::Unsupported(Unsupported::AbsoluteSymlink);
        }
        proof {
            lemma_preopen_split(self@, file@, false, 0);
        }
        match self.split_at_preopen(file.as_str(), false) {
            Ok((base_po_dir, path_to_symlink)) => {
                let kind = Kind::Symlink {
                    base_po_dir,
                    path_to_symlink,
                    relative_path: link_value,
                };
                self.ask_for_stat(cursor, file, kind)
            },
            Err(e) => PathStep::Done(Err(e)),
        }
    }

    /// Takes a step on the attributes for a new inode: makes the inode.
    fn learn_stat(
        &mut self,
        cursor: PathCursor,
        file: String,
        kind: Kind,
        answer: StatAnswer,
    ) -> (r: PathStep)
        requires
            cursor@.frames.len() > 0,
            old(self)@.live(cursor@.top().cur_inode),
            0 <= cursor@.top().next < cursor@.top().components.len(),
            old(self)@.base_known(kind@),
            old(self)@.answered(kind@, answer),
            old(self)@.stat_for_kind(kind@, answer) is Some ==> old(self)@.next_ino < u64::MAX,
        ensures
            old(self)@.stat_for_kind(kind@, answer) is Some ==> old(self)@.is_free(made_inode(r@)),
            r@ == learn_stat(old(self)@, cursor@, kind@, answer, made_inode(r@)),
            final(self)@ == (if old(self)@.stat_for_kind(kind@, answer) is Some {
                with_loaded(
                    old(self)@,
                    cursor@.top().cur_inode,
                    cursor@.top().component(),
                    made_inode(r@),
                    loaded_inode(old(self)@, file@, kind@, answer),
                )
            } else {
                old(self)@
            }),
    {
        let ghost whole = cursor@;
        let PathCursor { mut frames, follow_symlinks, waiting: _ } = cursor;
        let mut frame = frames.pop().unwrap();
        proof {
            assert(frame_views(frames@) =~= whole.frames.drop_last());
            assert(frame@ == whole.top());
        }
        let len: usize = frame.components.len();
        assert(frame.next < len);
        let is_link = match &kind {
            Kind::Symlink { .. } => true,
            _ => false,
        };
        let new_inode = match self.create_inode(kind, false, file, answer) {
            Ok(inode) => inode,
            Err(e) => {
                return PathStep::Done(Err(e));
            },
        };
        // transient symbolic links do not become entries
        if !is_link {
            let name: String = frame.components[frame.next].clone();
            self.insert_entry(frame.cur_inode, name, new_inode);
        }
        frame.next = frame.next + 1;
        frame.cur_inode = new_inode;
        go_on(frames, frame, follow_symlinks)
    }

    /// Takes the resolution of a path one step on. The reply is the host's to what
    /// the step before asked, and nothing where it asked nothing.
    pub fn step_path(&mut self, cursor: PathCursor, reply: PathReply) -> (r: PathStep)
        requires
            cursor@.wf(old(self)@),
            is_ready(old(self)@, cursor@, reply@),
            replies(old(self)@, cursor@.waiting, reply@),
            makes_inode(old(self)@, cursor@, reply@) ==> old(self)@.next_ino < u64::MAX,
        ensures
            r@ == step(old(self)@, cursor@, reply@, made_inode(r@)),
            final(self)@ == fs_after(old(self)@, cursor@, reply@, made_inode(r@)),
            makes_inode(old(self)@, cursor@, reply@) ==> old(self)@.is_free(made_inode(r@)),
            old(self)@.wf() ==> final(self)@.wf(),
            old(self)@.numbered() ==> final(self)@.numbered(),
            step_wf(final(self)@, r@),
            old(self)@.wf() && cursor@.is_live(old(self)@) ==> step_live(final(self)@, r@),
    {
        let ghost whole = cursor@;
        let PathCursor { frames, follow_symlinks, waiting } = cursor;
        let ghost replied = reply@;
        let cursor = PathCursor { frames, follow_symlinks, waiting: Waiting::Nothing };
        proof {
            assert(whole.top() == whole.frames[whole.frames.len() - 1]);
        }
        let r = match (waiting, reply) {
            (Waiting::FileType { file }, PathReply::FileType(file_type)) => {
                self.learn_file_type(cursor, file, file_type)
            },
            (Waiting::LinkValue { file }, PathReply::LinkValue(value)) => {
                self.learn_link(cursor, file, value)
            },
            (Waiting::Stat { file, kind }, PathReply::Stat(answer)) => {
                self.learn_stat(cursor, file, kind, answer)
            },
            _ => self.advance_path(cursor),
        };
        proof {
            lemma_step_cursor_wf(old(self)@, whole, replied, made_inode(r@));
            if old(self)@.wf() {
                lemma_step_fs_wf(old(self)@, whole, replied, made_inode(r@));
                if whole.is_live(old(self)@) {
                    lemma_step_wf(old(self)@, whole, replied, made_inode(r@));
                }
            }
        }
        r
    }
}

/// Goes on with a path, the ones below it waiting.
fn go_on(below: Vec<Frame>, frame: Frame, follow_symlinks: bool) -> (r: PathStep)
    ensures
        r@ == StepView::Continue(
            CursorView {
                frames: frame_views(below@).push(frame@),
                follow_symlinks,
                waiting: WaitingView::Nothing,
            },
        ),
{
    let ghost before = below@;
    let mut frames = below;
    frames.push(frame);
    assert(frame_views(frames@) =~= frame_views(before).push(frame@));
    PathStep::Continue(PathCursor { frames, follow_symlinks, waiting: Waiting::Nothing })
}

} // verus!

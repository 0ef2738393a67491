//! How far the resolution of a path has come, what it asks of the host and what it
//! is told.
use crate::host::{HostFileType, StatAnswer, StatSource, StatSourceView};
use crate::inode::{Inode, Kind, KindView};
use crate::model::FsView;
use crate::path::{is_component_list, is_dots, path_push, root_dir, texts};
use crate::steps::loads;
use crate::wasi::__wasi_errno_t;
use vstd::prelude::*;

verus! {

/// A completely arbitrary "big enough" number used as the upper limit for the
/// number of symlinks that can be traversed when resolving a path.
pub const MAX_SYMLINKS: u32 = 128;

/// One path that is being resolved: the guest's own, or the one that a symbolic
/// link on the way stands for.
pub struct Frame {
    /// the components of the path
    pub components: Vec<String>,
    /// the component that is next
    pub next: usize,
    /// the inode reached so far
    pub cur_inode: Inode,
    /// the symbolic links traversed so far
    pub symlink_count: u32,
}

/// The mathematical value of a [`Frame`].
#[verifier::ext_equal]
pub struct FrameView {
    pub components: Seq<Seq<char>>,
    pub next: int,
    pub cur_inode: Inode,
    pub symlink_count: u32,
}

impl View for Frame {
    type V = FrameView;

    open spec fn view(&self) -> FrameView {
        FrameView {
            components: texts(self.components@),
            next: self.next as int,
            cur_inode: self.cur_inode,
            symlink_count: self.symlink_count,
        }
    }
}

impl FrameView {
    /// The component that is next.
    pub open spec fn component(self) -> Seq<char> {
        self.components[self.next]
    }

    /// The component is done with, and led to an inode.
    pub open spec fn entered(self, inode: Inode) -> FrameView {
        FrameView { next: self.next + 1, cur_inode: inode, ..self }
    }

    /// The component is done with, and led nowhere else.
    pub open spec fn skipped(self) -> FrameView {
        FrameView { next: self.next + 1, ..self }
    }
}

/// The values of some frames.
pub open spec fn frame_views(frames: Seq<Frame>) -> Seq<FrameView> {
    frames.map_values(|f: Frame| f@)
}

/// What a cursor waits for.
pub enum Waiting {
    Nothing,
    /// the type of a file that is not loaded yet
    FileType { file: String },
    /// the value of a symbolic link that is not loaded yet
    LinkValue { file: String },
    /// the attributes of the inode that is about to be made for a file
    Stat { file: String, kind: Kind },
}

/// The mathematical value of a [`Waiting`].
#[verifier::ext_equal]
pub enum WaitingView {
    Nothing,
    FileType { file: Seq<char> },
    LinkValue { file: Seq<char> },
    Stat { file: Seq<char>, kind: KindView },
}

impl View for Waiting {
    type V = WaitingView;

    open spec fn view(&self) -> WaitingView {
        match *self {
            Waiting::Nothing => WaitingView::Nothing,
            Waiting::FileType { file } => WaitingView::FileType { file: file@ },
            Waiting::LinkValue { file } => WaitingView::LinkValue { file: file@ },
            Waiting::Stat { file, kind } => WaitingView::Stat { file: file@, kind: kind@ },
        }
    }
}

impl WaitingView {
    /// The host path of the file that is waited for.
    pub open spec fn file(self) -> Seq<char> {
        match self {
            WaitingView::Nothing => Seq::empty(),
            WaitingView::FileType { file } => file,
            WaitingView::LinkValue { file } => file,
            WaitingView::Stat { file, .. } => file,
        }
    }
}

/// How far the resolution of a path has come.
pub struct PathCursor {
    /// the paths being resolved, the guest's first, each next one for a symbolic
    /// link that the one before it has met
    pub frames: Vec<Frame>,
    pub follow_symlinks: bool,
    pub waiting: Waiting,
}

/// The mathematical value of a [`PathCursor`].
#[verifier::ext_equal]
pub struct CursorView {
    pub frames: Seq<FrameView>,
    pub follow_symlinks: bool,
    pub waiting: WaitingView,
}

impl View for PathCursor {
    type V = CursorView;

    open spec fn view(&self) -> CursorView {
        CursorView {
            frames: frame_views(self.frames@),
            follow_symlinks: self.follow_symlinks,
            waiting: self.waiting@,
        }
    }
}

impl CursorView {
    /// The path that is being resolved now.
    pub open spec fn top(self) -> FrameView {
        self.frames.last()
    }

    /// The cursor with the path being resolved taken further, waiting for nothing.
    pub open spec fn with_top(self, frame: FrameView) -> CursorView {
        CursorView {
            frames: self.frames.drop_last().push(frame),
            waiting: WaitingView::Nothing,
            ..self
        }
    }

    /// The cursor with the path of a symbolic link to resolve first.
    pub open spec fn with_link(self, frame: FrameView) -> CursorView {
        CursorView { frames: self.frames.push(frame), waiting: WaitingView::Nothing, ..self }
    }

    /// The cursor, waiting for the host.
    pub open spec fn waiting_for(self, waiting: WaitingView) -> CursorView {
        CursorView { waiting, ..self }
    }

    /// What holds of a cursor while it is in use: what is left of each path is
    /// components; each path has traversed more symbolic links than the one that met
    /// it, and none too many; and what the host is asked about is a file in a directory
    /// that does not have it as an entry.
    pub open spec fn wf(self, fs: FsView) -> bool {
        &&& self.frames.len() > 0
        &&& forall|k: int|
            #![trigger self.frames[k]]
            0 <= k < self.frames.len() ==> {
                &&& is_component_list(self.frames[k].components)
                &&& 0 <= self.frames[k].next <= self.frames[k].components.len()
                &&& k <= self.frames[k].symlink_count <= MAX_SYMLINKS
            }
        &&& forall|j: int, k: int|
            #![trigger self.frames[j], self.frames[k]]
            0 <= j < k < self.frames.len() ==> self.frames[j].symlink_count
                < self.frames[k].symlink_count
        &&& !(self.waiting is Nothing) ==> {
            &&& self.top().next < self.top().components.len()
            &&& fs.live(self.top().cur_inode)
            &&& fs.kind(self.top().cur_inode) matches KindView::Dir { path, entries, .. }
            &&& !is_dots(self.top().component())
            &&& self.top().component() != root_dir()
            &&& !entries.contains_key(self.top().component())
            &&& self.waiting.file() == path_push(path, self.top().component())
        }
        &&& self.waiting matches WaitingView::Stat { file, kind } ==> loads(
            fs,
            self.top().cur_inode,
            file,
            kind,
        )
    }

    /// Every inode that has been reached exists.
    pub open spec fn is_live(self, fs: FsView) -> bool {
        forall|k: int|
            #![trigger self.frames[k]]
            0 <= k < self.frames.len() ==> fs.live(self.frames[k].cur_inode)
    }
}

/// What a step asks of the host.
pub enum PathRequest {
    /// the type of the file at a path, a symbolic link not followed
    FileType(String),
    /// the value of the symbolic link at a path
    LinkValue(String),
    /// the attributes for a new inode
    Stat(StatSource),
}

/// The mathematical value of a [`PathRequest`].
#[verifier::ext_equal]
pub enum RequestView {
    FileType(Seq<char>),
    LinkValue(Seq<char>),
    Stat(StatSourceView),
}

impl View for PathRequest {
    type V = RequestView;

    open spec fn view(&self) -> RequestView {
        match *self {
            PathRequest::FileType(path) => RequestView::FileType(path@),
            PathRequest::LinkValue(path) => RequestView::LinkValue(path@),
            PathRequest::Stat(source) => RequestView::Stat(source@),
        }
    }
}

/// The host's reply to a request.
pub enum PathReply {
    /// nothing was asked
    Nothing,
    /// the file's type, missing where the host could not tell it
    FileType(Option<HostFileType>),
    /// the link's value, missing where the host could not read it
    LinkValue(Option<String>),
    /// the attributes
    Stat(StatAnswer),
}

/// The mathematical value of a [`PathReply`].
#[verifier::ext_equal]
pub enum ReplyView {
    Nothing,
    FileType(Option<HostFileType>),
    LinkValue(Option<Seq<char>>),
    Stat(StatAnswer),
}

impl View for PathReply {
    type V = ReplyView;

    open spec fn view(&self) -> ReplyView {
        match *self {
            PathReply::Nothing => ReplyView::Nothing,
            PathReply::FileType(t) => ReplyView::FileType(t),
            PathReply::LinkValue(Some(value)) => ReplyView::LinkValue(Some(value@)),
            PathReply::LinkValue(None) => ReplyView::LinkValue(None),
            PathReply::Stat(answer) => ReplyView::Stat(answer),
        }
    }
}

/// What a cursor that waits has asked.
pub open spec fn request_for(fs: FsView, waiting: WaitingView) -> RequestView {
    match waiting {
        WaitingView::LinkValue { file } => RequestView::LinkValue(file),
        WaitingView::Stat { kind, .. } => RequestView::Stat(fs.stat_source(kind)->0),
        _ => RequestView::FileType(waiting.file()),
    }
}

/// The reply is of the sort that the cursor waits for.
pub open spec fn replies(fs: FsView, waiting: WaitingView, reply: ReplyView) -> bool {
    match waiting {
        WaitingView::Nothing => reply is Nothing,
        WaitingView::FileType { .. } => reply is FileType,
        WaitingView::LinkValue { .. } => reply is LinkValue,
        WaitingView::Stat { kind, .. } => reply matches ReplyView::Stat(answer) && fs.answered(
            kind,
            answer,
        ),
    }
}

/// What resolution meets and has no answer for.
#[derive(Clone, Copy, Debug, PartialEq, Eq, Structural)]
pub enum Unsupported {
    /// a path leads through a buffer
    Buffer,
    /// a symbolic link holds an absolute path
    AbsoluteSymlink,
    /// a host file is neither a file, nor a directory, nor a symbolic link
    FileType,
}

/// What comes of a step.
pub enum PathStep {
    /// there is more to do, and nothing to ask
    Continue(PathCursor),
    /// the host has to be asked
    Ask(PathRequest, PathCursor),
    /// the path is resolved, or cannot be
    Done(Result<Inode, __wasi_errno_t>),
    /// the path cannot be resolved by any rule
    Unsupported(Unsupported),
}

/// The mathematical value of a [`PathStep`].
#[verifier::ext_equal]
pub enum StepView {
    Continue(CursorView),
    Ask(RequestView, CursorView),
    Done(Result<Inode, __wasi_errno_t>),
    Unsupported(Unsupported),
}

impl View for PathStep {
    type V = StepView;

    open spec fn view(&self) -> StepView {
        match *self {
            PathStep::Continue(cursor) => StepView::Continue(cursor@),
            PathStep::Ask(request, cursor) => StepView::Ask(request@, cursor@),
            PathStep::Done(r) => StepView::Done(r),
            PathStep::Unsupported(u) => StepView::Unsupported(u),
        }
    }
}

} // verus!

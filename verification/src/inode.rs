//! Inodes, their kinds and the file descriptors that refer to them.
use crate::wasi::{__wasi_fd_t, __wasi_fdflags_t, __wasi_filestat_t, __wasi_rights_t};
use vstd::hash_map::StringHashMap;
use vstd::prelude::*;

verus! {

/// The identity of an inode: its slot in the arena and the generation in which
/// the slot was filled.
#[derive(Clone, Copy, Debug, PartialEq, Eq, PartialOrd, Ord, Hash, Structural)]
pub struct Inode {
    pub index: usize,
    pub generation: u64,
}

/// The identity of an open host file. The embedder keeps the file itself.
#[derive(Clone, Copy, Debug, PartialEq, Eq, PartialOrd, Ord, Hash, Structural)]
pub struct FileHandle {
    pub id: u64,
}

/// What an inode is.
pub enum Kind {
    File {
        /// the open file, if it is open
        handle: Option<FileHandle>,
        /// the path on the host where the file is
        path: String,
    },
    Dir {
        /// the parent directory
        parent: Option<Inode>,
        /// the path on the host where the directory is
        path: String,
        /// the entries that have been loaded so far
        entries: StringHashMap<Inode>,
    },
    /// The virtual root: a directory with neither a parent nor a host path.
    Root { entries: StringHashMap<Inode> },
    /// The first two fields are about the link, the last is its value.
    Symlink {
        /// the preopened directory that `path_to_symlink` starts from
        base_po_dir: __wasi_fd_t,
        /// the path from `base_po_dir` to the link
        path_to_symlink: String,
        /// the value of the link, a relative path
        relative_path: String,
    },
    Buffer { buffer: Vec<u8> },
}

/// The mathematical value of a [`Kind`].
#[verifier::ext_equal]
pub enum KindView {
    File { handle: Option<FileHandle>, path: Seq<char> },
    Dir { parent: Option<Inode>, path: Seq<char>, entries: Map<Seq<char>, Inode> },
    Root { entries: Map<Seq<char>, Inode> },
    Symlink { base_po_dir: __wasi_fd_t, path_to_symlink: Seq<char>, relative_path: Seq<char> },
    Buffer { buffer: Seq<u8> },
}

impl View for Kind {
    type V = KindView;

    open spec fn view(&self) -> KindView {
        match *self {
            Kind::File { handle, path } => KindView::File { handle, path: path@ },
            Kind::Dir { parent, path, entries } => KindView::Dir {
                parent,
                path: path@,
                entries: entries@,
            },
            Kind::Root { entries } => KindView::Root { entries: entries@ },
            Kind::Symlink { base_po_dir, path_to_symlink, relative_path } => KindView::Symlink {
                base_po_dir,
                path_to_symlink: path_to_symlink@,
                relative_path: relative_path@,
            },
            Kind::Buffer { buffer } => KindView::Buffer { buffer: buffer@ },
        }
    }
}

impl KindView {
    /// A directory or the root: something that has entries.
    pub open spec fn has_entries(self) -> bool {
        self is Dir || self is Root
    }

    /// The entries of a directory or of the root; nothing has none.
    pub open spec fn entries(self) -> Map<Seq<char>, Inode> {
        match self {
            KindView::Dir { entries, .. } => entries,
            KindView::Root { entries } => entries,
            _ => Map::empty(),
        }
    }

    /// The same directory or root with one more entry.
    pub open spec fn with_entry(self, name: Seq<char>, inode: Inode) -> KindView {
        match self {
            KindView::Dir { parent, path, entries } => KindView::Dir {
                parent,
                path,
                entries: entries.insert(name, inode),
            },
            KindView::Root { entries } => KindView::Root { entries: entries.insert(name, inode) },
            _ => self,
        }
    }

    /// The parent of a directory, where it has one.
    pub open spec fn parent(self) -> Option<Inode> {
        match self {
            KindView::Dir { parent, .. } => parent,
            _ => None,
        }
    }
}

/// A file that the filesystem knows about, open or not.
pub struct InodeVal {
    pub stat: __wasi_filestat_t,
    pub is_preopened: bool,
    pub name: String,
    pub kind: Kind,
}

/// The mathematical value of an [`InodeVal`].
#[verifier::ext_equal]
pub struct InodeView {
    pub stat: __wasi_filestat_t,
    pub is_preopened: bool,
    pub name: Seq<char>,
    pub kind: KindView,
}

impl View for InodeVal {
    type V = InodeView;

    open spec fn view(&self) -> InodeView {
        InodeView {
            stat: self.stat,
            is_preopened: self.is_preopened,
            name: self.name@,
            kind: self.kind@,
        }
    }
}

/// An open file descriptor.
#[derive(Clone, Copy, Debug, PartialEq, Eq, Structural)]
pub struct Fd {
    pub rights: __wasi_rights_t,
    pub rights_inheriting: __wasi_rights_t,
    pub flags: __wasi_fdflags_t,
    pub offset: u64,
    pub inode: Inode,
}

} // verus!

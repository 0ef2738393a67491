//! What the host tells of its files, as plain data, and the attributes that the
//! guest is shown for it.
use crate::inode::FileHandle;
use crate::wasi::{
    __wasi_filestat_t, __wasi_filetype_t, default_filestat, __WASI_FILETYPE_DIRECTORY,
    __WASI_FILETYPE_REGULAR_FILE, __WASI_FILETYPE_SYMBOLIC_LINK, __WASI_FILETYPE_UNKNOWN,
};
use vstd::prelude::*;

verus! {

/// The type of a host file.
#[derive(Clone, Copy, Debug, PartialEq, Eq, Structural)]
pub enum HostFileType {
    Dir,
    File,
    Symlink,
    /// neither of these: a socket, a device
    Other,
}

/// The metadata of a host path. A time is in nanoseconds since the Unix epoch; it
/// is missing where the host does not know it or where it lies before the epoch.
#[derive(Clone, Copy, Debug, PartialEq, Eq)]
pub struct HostMetadata {
    pub file_type: HostFileType,
    pub len: u64,
    pub accessed: Option<u128>,
    pub modified: Option<u128>,
    pub created: Option<u128>,
}

/// The attributes that an open file reports of itself.
#[derive(Clone, Copy, Debug, PartialEq, Eq, Structural)]
pub struct FileAttributes {
    pub size: u64,
    pub last_accessed: u64,
    pub last_modified: u64,
    pub created_time: u64,
}

/// What has to be asked for the attributes of an inode.
pub enum StatSource {
    /// the open file itself
    Handle(FileHandle),
    /// the metadata of a path, with symbolic links followed
    Metadata(String),
    /// the metadata of a path, with the last symbolic link not followed
    SymlinkMetadata(String),
}

/// The mathematical value of a [`StatSource`].
#[verifier::ext_equal]
pub enum StatSourceView {
    Handle(FileHandle),
    Metadata(Seq<char>),
    SymlinkMetadata(Seq<char>),
}

impl View for StatSource {
    type V = StatSourceView;

    open spec fn view(&self) -> StatSourceView {
        match *self {
            StatSource::Handle(handle) => StatSourceView::Handle(handle),
            StatSource::Metadata(path) => StatSourceView::Metadata(path@),
            StatSource::SymlinkMetadata(path) => StatSourceView::SymlinkMetadata(path@),
        }
    }
}

/// The answer to a [`StatSource`].
#[derive(Clone, Copy, Debug, PartialEq, Eq)]
pub enum StatAnswer {
    /// an open file's attributes
    Attributes(FileAttributes),
    /// a path's metadata, missing where the host could not give it
    Metadata(Option<HostMetadata>),
}

/// The answer is of the sort that the source asks for.
pub open spec fn answers(source: StatSourceView, answer: StatAnswer) -> bool {
    match source {
        StatSourceView::Handle(_) => answer is Attributes,
        _ => answer is Metadata,
    }
}

/// The WASI file type of a host file type.
pub open spec fn wasi_file_type(file_type: HostFileType) -> __wasi_filetype_t {
    match file_type {
        HostFileType::Dir => __WASI_FILETYPE_DIRECTORY,
        HostFileType::File => __WASI_FILETYPE_REGULAR_FILE,
        HostFileType::Symlink => __WASI_FILETYPE_SYMBOLIC_LINK,
        HostFileType::Other => __WASI_FILETYPE_UNKNOWN,
    }
}

/// The WASI file type of a host file type.
pub fn host_file_type_to_wasi_file_type(file_type: HostFileType) -> (t: __wasi_filetype_t)
    ensures
        t == wasi_file_type(file_type),
{
    match file_type {
        HostFileType::Dir => __WASI_FILETYPE_DIRECTORY,
        HostFileType::File => __WASI_FILETYPE_REGULAR_FILE,
        HostFileType::Symlink => __WASI_FILETYPE_SYMBOLIC_LINK,
        HostFileType::Other => __WASI_FILETYPE_UNKNOWN,
    }
}

/// Nanoseconds as the guest sees them: the lower 64 bits.
pub open spec fn timestamp(nanos: u128) -> u64 {
    (nanos % 0x1_0000_0000_0000_0000) as u64
}

fn to_timestamp(nanos: u128) -> (t: u64)
    ensures
        t == timestamp(nanos),
{
    let low: u128 = nanos % 0x1_0000_0000_0000_0000u128;
    low as u64
}

/// The attributes that an answer stands for: none where the host could not give
/// the metadata, or not the times of access and modification. A creation time
/// that is not known is shown as zero.
pub open spec fn stat_of_answer(answer: StatAnswer) -> Option<__wasi_filestat_t> {
    match answer {
        StatAnswer::Attributes(a) => Some(
            __wasi_filestat_t {
                st_filetype: __WASI_FILETYPE_REGULAR_FILE,
                st_size: a.size,
                st_atim: a.last_accessed,
                st_mtim: a.last_modified,
                st_ctim: a.created_time,
                ..default_filestat()
            },
        ),
        StatAnswer::Metadata(Some(m)) => if m.accessed is Some && m.modified is Some {
            Some(
                __wasi_filestat_t {
                    st_filetype: wasi_file_type(m.file_type),
                    st_size: m.len,
                    st_atim: timestamp(m.accessed->0),
                    st_mtim: timestamp(m.modified->0),
                    st_ctim: if m.created is Some {
                        timestamp(m.created->0)
                    } else {
                        0
                    },
                    ..default_filestat()
                },
            )
        } else {
            None
        },
        StatAnswer::Metadata(None) => None,
    }
}

/// The attributes that an answer stands for.
pub fn stat_from_answer(answer: StatAnswer) -> (stat: Option<__wasi_filestat_t>)
    ensures
        stat == stat_of_answer(answer),
        answer matches StatAnswer::Attributes(a) ==> stat matches Some(s) && s.st_size == a.size,
        answer matches StatAnswer::Metadata(Some(m)) ==> stat matches Some(s) ==> s.st_size
            == m.len,
{
    let mut stat: __wasi_filestat_t = __wasi_filestat_t::default();
    match answer {
        StatAnswer::Attributes(a) => {
            stat.st_filetype = __WASI_FILETYPE_REGULAR_FILE;
            stat.st_size = a.size;
            stat.st_atim = a.last_accessed;
            stat.st_mtim = a.last_modified;
            stat.st_ctim = a.created_time;
            Some(stat)
        },
        StatAnswer::Metadata(Some(m)) => {
            match (m.accessed, m.modified) {
                (Some(accessed), Some(modified)) => {
                    stat.st_filetype = host_file_type_to_wasi_file_type(m.file_type);
                    stat.st_size = m.len;
                    stat.st_atim = to_timestamp(accessed);
                    stat.st_mtim = to_timestamp(modified);
                    stat.st_ctim = match m.created {
                        Some(created) => to_timestamp(created),
                        None => 0,
                    };
                    Some(stat)
                },
                _ => None,
            }
        },
        StatAnswer::Metadata(None) => None,
    }
}

} // verus!

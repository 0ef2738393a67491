//! The part of the WASI ABI that the filesystem speaks: type names, error
//! numbers, file types and the records handed to the guest.
use vstd::prelude::*;

verus! {

pub type __wasi_errno_t = u16;

pub type __wasi_fd_t = u32;

pub type __wasi_rights_t = u64;

pub type __wasi_fdflags_t = u16;

pub type __wasi_filetype_t = u8;

pub type __wasi_filesize_t = u64;

pub type __wasi_preopentype_t = u8;

pub const __WASI_EACCES: __wasi_errno_t = 2;

pub const __WASI_EBADF: __wasi_errno_t = 8;

pub const __WASI_EEXIST: __wasi_errno_t = 20;

pub const __WASI_EINVAL: __wasi_errno_t = 28;

pub const __WASI_EIO: __wasi_errno_t = 29;

pub const __WASI_EISDIR: __wasi_errno_t = 31;

pub const __WASI_EMLINK: __wasi_errno_t = 34;

pub const __WASI_ENOTDIR: __wasi_errno_t = 54;

pub const __WASI_STDIN_FILENO: __wasi_fd_t = 0;

pub const __WASI_STDOUT_FILENO: __wasi_fd_t = 1;

pub const __WASI_STDERR_FILENO: __wasi_fd_t = 2;

pub const __WASI_FILETYPE_UNKNOWN: __wasi_filetype_t = 0;

pub const __WASI_FILETYPE_DIRECTORY: __wasi_filetype_t = 3;

pub const __WASI_FILETYPE_REGULAR_FILE: __wasi_filetype_t = 4;

pub const __WASI_FILETYPE_SYMBOLIC_LINK: __wasi_filetype_t = 7;

pub const __WASI_PREOPENTYPE_DIR: __wasi_preopentype_t = 0;

pub const __WASI_RIGHT_FD_DATASYNC: __wasi_rights_t = 1;

/// The attributes of a file, as the guest reads them.
#[derive(Clone, Copy, Debug, PartialEq, Eq, Structural)]
pub struct __wasi_filestat_t {
    pub st_dev: u64,
    pub st_ino: u64,
    pub st_filetype: __wasi_filetype_t,
    pub st_nlink: u32,
    pub st_size: __wasi_filesize_t,
    pub st_atim: u64,
    pub st_mtim: u64,
    pub st_ctim: u64,
}

/// A file of unknown type with one link and everything else zero.
pub open spec fn default_filestat() -> __wasi_filestat_t {
    __wasi_filestat_t {
        st_dev: 0,
        st_ino: 0,
        st_filetype: __WASI_FILETYPE_UNKNOWN,
        st_nlink: 1,
        st_size: 0,
        st_atim: 0,
        st_mtim: 0,
        st_ctim: 0,
    }
}

impl Default for __wasi_filestat_t {
    fn default() -> (stat: Self)
        ensures
            stat == default_filestat(),
    {
        __wasi_filestat_t {
            st_dev: 0,
            st_ino: 0,
            st_filetype: __WASI_FILETYPE_UNKNOWN,
            st_nlink: 1,
            st_size: 0,
            st_atim: 0,
            st_mtim: 0,
            st_ctim: 0,
        }
    }
}

/// The attributes of a file descriptor, as the guest reads them.
#[derive(Clone, Copy, Debug, PartialEq, Eq, Structural)]
pub struct __wasi_fdstat_t {
    pub fs_filetype: __wasi_filetype_t,
    pub fs_flags: __wasi_fdflags_t,
    pub fs_rights_base: __wasi_rights_t,
    pub fs_rights_inheriting: __wasi_rights_t,
}

/// What the guest learns of a preopened directory.
#[derive(Clone, Copy, Debug, PartialEq, Eq, Structural)]
pub struct __wasi_prestat_u_dir_t {
    pub pr_name_len: u32,
}

/// The untagged payload of a prestat record; a directory is its only form.
#[derive(Clone, Copy, Debug, PartialEq, Eq, Structural)]
pub struct __wasi_prestat_u {
    pub dir: __wasi_prestat_u_dir_t,
}

/// The prestat record of a preopened file descriptor.
#[derive(Clone, Copy, Debug, PartialEq, Eq, Structural)]
pub struct __wasi_prestat_t {
    pub pr_type: __wasi_preopentype_t,
    pub u: __wasi_prestat_u,
}

/// The payload of a prestat record while its tag is still known.
#[derive(Clone, Copy, Debug, PartialEq, Eq, Structural)]
pub enum PrestatEnum {
    Dir { pr_name_len: u32 },
}

impl PrestatEnum {
    /// Drops the tag.
    pub fn untagged(self) -> (u: __wasi_prestat_u)
        ensures
            u.dir.pr_name_len == self->pr_name_len,
    {
        match self {
            PrestatEnum::Dir { pr_name_len } => __wasi_prestat_u {
                dir: __wasi_prestat_u_dir_t { pr_name_len },
            },
        }
    }
}

/// The errors that the embedder's side of the filesystem reports.
#[derive(Clone, Copy, Debug, PartialEq, Eq, Structural)]
pub enum WasiFsError {
    /// The descriptor given as a base was not a directory.
    BaseNotDirectory,
    /// A file was expected and something else was found.
    NotAFile,
    /// The descriptor given was not usable.
    InvalidFd,
    /// The file exists already.
    AlreadyExists,
    /// Input or output failed.
    IOError,
    /// A WASI error without a name of its own here.
    UnknownError(__wasi_errno_t),
}

/// The name of a WASI error number.
pub open spec fn error_name(err: __wasi_errno_t) -> WasiFsError {
    if err == __WASI_EBADF {
        WasiFsError::InvalidFd
    } else if err == __WASI_EEXIST {
        WasiFsError::AlreadyExists
    } else if err == __WASI_EIO {
        WasiFsError::IOError
    } else {
        WasiFsError::UnknownError(err)
    }
}

/// Three error numbers have names of their own, and every other one is kept as it is; no two
/// are confused.
pub proof fn law_errors_are_told_apart(a: __wasi_errno_t, b: __wasi_errno_t)
    ensures
        error_name(a) == WasiFsError::InvalidFd <==> a == 8,
        error_name(a) == WasiFsError::AlreadyExists <==> a == 20,
        error_name(a) == WasiFsError::IOError <==> a == 29,
        error_name(a) matches WasiFsError::UnknownError(n) ==> n == a,
        !(error_name(a) is NotAFile) && !(error_name(a) is BaseNotDirectory),
        error_name(a) == error_name(b) ==> a == b,
{
}

impl WasiFsError {
    /// Names a WASI error number.
    pub fn from_wasi_err(err: __wasi_errno_t) -> (e: WasiFsError)
        ensures
            e == (if err == __WASI_EBADF {
                WasiFsError::InvalidFd
            } else if err == __WASI_EEXIST {
                WasiFsError::AlreadyExists
            } else if err == __WASI_EIO {
                WasiFsError::IOError
            } else {
                WasiFsError::UnknownError(err)
            }),
            e == error_name(err),
    {
        if err == __WASI_EBADF {
            WasiFsError::InvalidFd
        } else if err == __WASI_EEXIST {
            WasiFsError::AlreadyExists
        } else if err == __WASI_EIO {
            WasiFsError::IOError
        } else {
            WasiFsError::UnknownError(err)
        }
    }
}

} // verus!

//! How inodes hang together: the way up from an inode through its parents.
use crate::arena::arena_index;
use crate::fs::WasiFs;
use crate::inode::{Inode, Kind};
use crate::model::FsView;
use crate::path::{path_join, push};
use crate::wasi::{__wasi_errno_t, __wasi_fd_t, __WASI_EBADF, __WASI_EINVAL};
use vstd::prelude::*;
use vstd::string::*;

verus! {

/// One step up: the parent of a directory, where it has one.
pub open spec fn up(fs: FsView, inode: Inode) -> Inode {
    match fs.kind(inode).parent() {
        Some(p) => p,
        None => inode,
    }
}

/// The inode that is some steps up.
pub open spec fn ancestor(fs: FsView, inode: Inode, steps: nat) -> Inode
    decreases steps,
{
    if steps == 0 {
        inode
    } else {
        up(fs, ancestor(fs, inode, (steps - 1) as nat))
    }
}

/// The way up from an inode ends after this many steps: at the base, or at
/// something that is not a directory. All on the way there are directories.
pub open spec fn climb_ends(fs: FsView, base: Inode, inode: Inode, steps: nat) -> bool {
    &&& forall|k: nat|
        k < steps ==> {
            &&& #[trigger] ancestor(fs, inode, k) != base
            &&& fs.live(ancestor(fs, inode, k))
            &&& fs.kind(ancestor(fs, inode, k)) is Dir
        }
    &&& ancestor(fs, inode, steps) == base || (fs.live(ancestor(fs, inode, steps)) && !(fs.kind(
        ancestor(fs, inode, steps),
    ) is Dir))
}

/// The names on the way down to an inode, from just below its ancestor.
pub open spec fn names_down(fs: FsView, inode: Inode, steps: nat) -> Seq<Seq<char>> {
    Seq::new(steps, |k: int| fs.inodes[ancestor(fs, inode, (steps - 1 - k) as nat)].name)
}

/// How many steps up from an inode the base is, where the way up ends there.
pub open spec fn depth_below(fs: FsView, base: Inode, inode: Inode, steps: nat) -> Result<
    nat,
    __wasi_errno_t,
> {
    if ancestor(fs, inode, steps) == base {
        Ok(steps)
    } else {
        Err(__WASI_EINVAL)
    }
}

/// The path from the base down to an inode, where the way up ends at the base.
pub open spec fn path_below(fs: FsView, base: Inode, inode: Inode, steps: nat) -> Result<
    Seq<char>,
    __wasi_errno_t,
> {
    if ancestor(fs, inode, steps) == base {
        Ok(path_join(names_down(fs, inode, steps)))
    } else {
        Err(__WASI_EINVAL)
    }
}

impl WasiFs {
    /// The path from the inode behind a descriptor down to an inode, made of the
    /// names of the inodes on the way.
    pub fn path_relative_to_fd(&self, fd: __wasi_fd_t, inode: Inode) -> (r: Result<
        String,
        __wasi_errno_t,
    >)
        requires
            self@.fds.contains_key(fd) ==> exists|steps: nat|
                steps < usize::MAX && #[trigger] climb_ends(
                    self@,
                    self@.fds[fd].inode,
                    inode,
                    steps,
                ),
        ensures
            !self@.fds.contains_key(fd) ==> r == Err::<String, __wasi_errno_t>(__WASI_EBADF),
            forall|steps: nat|
                self@.fds.contains_key(fd) && #[trigger] climb_ends(
                    self@,
                    self@.fds[fd].inode,
                    inode,
                    steps,
                ) ==> match r {
                    Ok(path) => {
                        &&& ancestor(self@, inode, steps) == self@.fds[fd].inode
                        &&& path@ == path_join(names_down(self@, inode, steps))
                    },
                    Err(e) => {
                        &&& ancestor(self@, inode, steps) != self@.fds[fd].inode
                        &&& e == __WASI_EINVAL
                    },
                },
            forall|steps: nat|
                self@.fds.contains_key(fd) && #[trigger] climb_ends(
                    self@,
                    self@.fds[fd].inode,
                    inode,
                    steps,
                ) ==> match path_below(self@, self@.fds[fd].inode, inode, steps) {
                    Ok(x) => r is Ok && r->Ok_0@ == x,
                    Err(e) => r is Err && r->Err_0 == e,
                },
    {
        let base_inode = match self.get_fd(fd) {
            Ok(record) => record.inode,
            Err(e) => {
                return Err(e);
            },
        };
        let ghost n = choose|steps: nat|
            steps < usize::MAX && #[trigger] climb_ends(self@, base_inode, inode, steps);
        proof {
            lemma_climb_unique(self@, base_inode, inode, n);
        }
        let mut stack: Vec<&String> = Vec::new();
        let mut cur_inode: Inode = inode;
        while cur_inode != base_inode
            invariant
                climb_ends(self@, base_inode, inode, n),
                forall|m: nat| #[trigger]
                    climb_ends(self@, base_inode, inode, m) ==> m == n,
                self@.fds.contains_key(fd),
                self@.fds[fd].inode == base_inode,
                stack@.len() <= n,
                cur_inode == ancestor(self@, inode, stack@.len()),
                forall|k: int|
                    0 <= k < stack@.len() ==> (#[trigger] stack@[k])@ == self@.inodes[ancestor(
                        self@,
                        inode,
                        k as nat,
                    )].name,
            decreases n - stack@.len(),
        {
            let value = arena_index(&self.inodes, cur_inode);
            let ghost k = stack@.len();
            stack.push(&value.name);
            match &value.kind {
                Kind::Dir { parent, .. } => {
                    assert(ancestor(self@, inode, k + 1) == up(self@, cur_inode));
                    match parent {
                        Some(p) => {
                            cur_inode = *p;
                        },
                        None => {},
                    }
                },
                _ => {
                    return Err(__WASI_EINVAL);
                },
            }
        }
        let ghost depth = stack@.len();
        assert(depth == n) by {
            if depth < n {
                assert(ancestor(self@, inode, depth) != base_inode);
            }
        }
        let ghost names = names_down(self@, inode, n);
        let mut out: String = String::new();
        let mut left: usize = stack.len();
        assert(names.take(0) =~= Seq::empty());
        while left > 0
            invariant
                left <= stack@.len(),
                stack@.len() == n,
                names == names_down(self@, inode, n),
                out@ == path_join(names.take(n - left)),
                forall|k: int|
                    0 <= k < stack@.len() ==> (#[trigger] stack@[k])@ == self@.inodes[ancestor(
                        self@,
                        inode,
                        k as nat,
                    )].name,
            decreases left,
        {
            left = left - 1;
            out = push(out.as_str(), stack[left].as_str());
            assert(names.take(n - left).drop_last() =~= names.take(n - left - 1));
            assert(names[n - left - 1] == stack@[left as int]@);
        }
        assert(names.take(n as int) =~= names);
        Ok(out)
    }

    /// Finds the number of directories between the descriptor and the inode if
    /// they are connected. Expects the inode to be a directory.
    pub fn path_depth_from_fd(&self, fd: __wasi_fd_t, inode: Inode) -> (r: Result<
        usize,
        __wasi_errno_t,
    >)
        requires
            self@.fds.contains_key(fd) ==> exists|steps: nat|
                steps < usize::MAX && #[trigger] climb_ends(
                    self@,
                    self@.fds[fd].inode,
                    inode,
                    steps,
                ),
        ensures
            !self@.fds.contains_key(fd) ==> r == Err::<usize, __wasi_errno_t>(__WASI_EBADF),
            forall|steps: nat|
                self@.fds.contains_key(fd) && #[trigger] climb_ends(
                    self@,
                    self@.fds[fd].inode,
                    inode,
                    steps,
                ) ==> match r {
                    Ok(depth) => {
                        &&& ancestor(self@, inode, steps) == self@.fds[fd].inode
                        &&& depth == steps
                    },
                    Err(e) => {
                        &&& ancestor(self@, inode, steps) != self@.fds[fd].inode
                        &&& e == __WASI_EINVAL
                    },
                },
            forall|steps: nat|
                self@.fds.contains_key(fd) && #[trigger] climb_ends(
                    self@,
                    self@.fds[fd].inode,
                    inode,
                    steps,
                ) ==> match depth_below(self@, self@.fds[fd].inode, inode, steps) {
                    Ok(x) => r is Ok && r->Ok_0 == x,
                    Err(e) => r is Err && r->Err_0 == e,
                },
    {
        let base_inode = match self.get_fd(fd) {
            Ok(record) => record.inode,
            Err(e) => {
                return Err(e);
            },
        };
        let ghost n = choose|steps: nat|
            steps < usize::MAX && #[trigger] climb_ends(self@, base_inode, inode, steps);
        proof {
            lemma_climb_unique(self@, base_inode, inode, n);
        }
        let mut counter: usize = 0;
        let mut cur_inode: Inode = inode;
        while cur_inode != base_inode
            invariant
                n < usize::MAX,
                climb_ends(self@, base_inode, inode, n),
                forall|m: nat| #[trigger]
                    climb_ends(self@, base_inode, inode, m) ==> m == n,
                self@.fds.contains_key(fd),
                self@.fds[fd].inode == base_inode,
                counter <= n,
                cur_inode == ancestor(self@, inode, counter as nat),
            decreases n - counter,
        {
            let ghost k = counter as nat;
            counter = counter + 1;
            match &arena_index(&self.inodes, cur_inode).kind {
                Kind::Dir { parent, .. } => {
                    assert(ancestor(self@, inode, k + 1) == up(self@, cur_inode));
                    match parent {
                        Some(p) => {
                            cur_inode = *p;
                        },
                        None => {},
                    }
                },
                _ => {
                    return Err(__WASI_EINVAL);
                },
            }
        }
        assert(counter == n) by {
            if counter < n {
                assert(ancestor(self@, inode, counter as nat) != base_inode);
            }
        }
        Ok(counter)
    }
}

/// The way up ends once.
proof fn lemma_climb_unique(fs: FsView, base: Inode, inode: Inode, n: nat)
    requires
        climb_ends(fs, base, inode, n),
    ensures
        forall|m: nat| #[trigger] climb_ends(fs, base, inode, m) ==> m == n,
{
    assert forall|m: nat| #[trigger] climb_ends(fs, base, inode, m) implies m == n by {
        if m < n {
            assert(ancestor(fs, inode, m) != base);
        }
        if n < m {
            assert(ancestor(fs, inode, n) != base);
        }
    }
}

} // verus!

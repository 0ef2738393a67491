# wasi_fs

The filesystem that a WebAssembly guest sees through WASI: an arena of inodes, a
table of file descriptors, a virtual root that collects the preopened directories,
and the rules by which guest paths are resolved to inodes, symbolic links included.

The library under `src/` decides and is verified with Verus. It performs no input or
output: where it needs something of the host, it hands out a request as plain data
and takes the reply as an argument. The crate under `app/` keeps the open files and
answers the requests on a real host.

| module | what it holds |
| --- | --- |
| `wasi` | the part of the WASI ABI that the filesystem speaks |
| `inode`, `arena` | inodes, their kinds, and the arena that holds them |
| `model` | the mathematical value of the filesystem |
| `path` | Unix paths as text and as components |
| `host` | what the host tells of a file, and the attributes made of it |
| `fs` | descriptors, inodes and what is done to them |
| `preopen` | how a filesystem begins |
| `cursor`, `steps`, `resolve` | path resolution, one step at a time |
| `tree` | the way up from an inode |
| `jmp` | long jumps of Emscripten guests |
| `laws` | what holds of the filesystem from one call to the next |
| `confine` | the sandbox: where on the host resolution can lead |
| `resolution`, `walk`, `outcomes`, `following` | what holds of resolution, step by step and as a whole |

Host paths are text in UTF-8 with the rules of Unix. Two paths are the same where
their components are.

//! The table of open descriptors and the protocol behind each of them.

use crate::fail::Fail;
use vstd::prelude::*;

verus! {

/// The key under which an open socket is known to the application.
pub type FileDescriptor = u32;

/// How many descriptors can be open at a time.
pub const MAX_FILES: usize = 0xffff_ffff;

/// What a descriptor stands for.
#[derive(Clone, Copy, Debug, PartialEq, Eq, Structural)]
pub enum File {
    TcpSocket,
    UdpSocket,
}

/// Whether `fd` is the lowest descriptor that is not open in `files`.
pub open spec fn is_lowest_vacant(files: Map<u32, File>, fd: u32) -> bool {
    &&& fd < MAX_FILES
    &&& !files.contains_key(fd)
    &&& forall|lower: u32| lower < fd ==> #[trigger] files.contains_key(lower)
}

/// Whether every descriptor is open in `files`.
pub open spec fn is_full(files: Map<u32, File>) -> bool {
    forall|fd: u32| fd < MAX_FILES ==> #[trigger] files.contains_key(fd)
}

/// The lowest descriptor that is not open in `files`, where there is one.
pub open spec fn lowest_vacant(files: Map<u32, File>) -> u32 {
    choose|fd: u32| is_lowest_vacant(files, fd)
}

/// There is one lowest vacant descriptor at most.
pub proof fn lemma_lowest_vacant_is_unique(files: Map<u32, File>, fd: u32)
    requires
        is_lowest_vacant(files, fd),
    ensures
        lowest_vacant(files) == fd,
        !is_full(files),
{
    let chosen = lowest_vacant(files);
    assert(is_lowest_vacant(files, chosen));
    if chosen < fd {
        assert(files.contains_key(chosen));
    }
    if fd < chosen {
        assert(files.contains_key(fd));
    }
}

/// Whether every socket of `sockets`, a peer's sockets by descriptor, stands
/// under a descriptor that is open in `files` as a file of the kind `kind`.
pub open spec fn sockets_open_as<V>(sockets: Map<u128, V>, files: Map<u32, File>, kind: File) -> bool {
    forall|key: u128| #[trigger]
        sockets.contains_key(key) ==> {
            &&& key <= u32::MAX
            &&& files.contains_key(key as u32)
            &&& files[key as u32] == kind
        }
}

/// Whether every descriptor that is open in `before` is open in `after`, for
/// the same kind of file.
pub open spec fn files_kept(before: Map<u32, File>, after: Map<u32, File>) -> bool {
    forall|fd: u32| #[trigger]
        before.contains_key(fd) ==> after.contains_key(fd) && after[fd] == before[fd]
}

/// The open descriptors. A descriptor names one file from the call that
/// opened it to the call that frees it; after that its number may serve
/// again. A new file gets the lowest descriptor that is not open.
pub struct FileTable {
    files: Vec<Option<File>>,
    /// Every descriptor below this one is open.
    first_vacant: usize,
}

impl View for FileTable {
    type V = Map<u32, File>;

    closed spec fn view(&self) -> Map<u32, File> {
        Map::new(
            |fd: u32| fd < self.files@.len() && self.files@[fd as int] is Some,
            |fd: u32| self.files@[fd as int]->Some_0,
        )
    }
}

impl FileTable {
    /// Whether the table keeps its invariant.
    pub closed spec fn wf(&self) -> bool {
        &&& self.files@.len() <= MAX_FILES
        &&& self.first_vacant <= self.files@.len()
        &&& forall|i: int| 0 <= i < self.first_vacant ==> (#[trigger] self.files@[i]) is Some
    }

    /// Whether every descriptor is open.
    pub open spec fn full(&self) -> bool {
        is_full(self@)
    }

    /// A table with no descriptor open.
    pub fn new() -> (table: FileTable)
        ensures
            table.wf(),
            table@ == Map::<u32, File>::empty(),
    {
        let table = FileTable { files: Vec::new(), first_vacant: 0 };
        assert(table@ =~= Map::<u32, File>::empty());
        table
    }

    /// Opens the lowest descriptor that is not open, for `file`. Where
    /// every descriptor is open, none is to be had.
    pub fn alloc_fd(&mut self, file: File) -> (opened: Result<FileDescriptor, Fail>)
        requires
            old(self).wf(),
        ensures
            final(self).wf(),
            match opened {
                Ok(fd) => {
                    &&& is_lowest_vacant(old(self)@, fd)
                    &&& fd == lowest_vacant(old(self)@)
                    &&& !old(self).full()
                    &&& final(self)@ == old(self)@.insert(fd, file)
                },
                Err(e) => {
                    &&& e == (Fail::ResourceExhausted { details: "Out of file descriptors" })
                    &&& old(self).full()
                    &&& final(self)@ == old(self)@
                },
            },
    {
        let ghost before = self@;
        let mut fd: usize = self.first_vacant;
        while fd < self.files.len() && self.files[fd].is_some()
            invariant
                self.wf(),
                *self == *old(self),
                self.first_vacant <= fd <= self.files@.len(),
                forall|i: int| 0 <= i < fd ==> (#[trigger] self.files@[i]) is Some,
            decreases self.files@.len() - fd,
        {
            fd = fd + 1;
        }
        if fd == MAX_FILES {
            assert forall|open: u32| open < MAX_FILES implies #[trigger] before.contains_key(
                open,
            ) by {
                assert(self.files@[open as int] is Some);
            }
            return Err(Fail::ResourceExhausted { details: "Out of file descriptors" });
        }
        proof {
            assert forall|lower: u32| lower < fd implies #[trigger] before.contains_key(
                lower,
            ) by {
                assert(self.files@[lower as int] is Some);
            }
            assert(is_lowest_vacant(before, fd as u32));
            lemma_lowest_vacant_is_unique(before, fd as u32);
        }
        if fd == self.files.len() {
            self.files.push(Some(file));
        } else {
            self.files[fd] = Some(file);
        }
        self.first_vacant = fd + 1;
        assert(self@ =~= before.insert(fd as u32, file));
        Ok(fd as u32)
    }

    /// The file behind `fd`, if `fd` is open.
    pub fn get(&self, fd: FileDescriptor) -> (file: Option<File>)
        ensures
            file == (if self@.contains_key(fd) {
                Some(self@[fd])
            } else {
                None
            }),
    {
        if (fd as usize) < self.files.len() {
            self.files[fd as usize]
        } else {
            None
        }
    }

    /// Closes `fd` and hands out the file that was behind it.
    pub fn free(&mut self, fd: FileDescriptor) -> (file: Option<File>)
        requires
            old(self).wf(),
        ensures
            final(self).wf(),
            final(self)@ == old(self)@.remove(fd),
            file == (if old(self)@.contains_key(fd) {
                Some(old(self)@[fd])
            } else {
                None
            }),
    {
        if (fd as usize) < self.files.len() {
            let file = self.files[fd as usize];
            self.files[fd as usize] = None;
            if (fd as usize) < self.first_vacant {
                self.first_vacant = fd as usize;
            }
            assert(self@ =~= old(self)@.remove(fd));
            file
        } else {
            assert(self@ =~= old(self)@.remove(fd));
            None
        }
    }
}

} // verus!

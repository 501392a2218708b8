//! A directory of shared structures: a header followed by fixed-size name
//! entries, laid out in a region of shared memory that other processes
//! read. The directory here keeps that layout as plain values; the process
//! that maps the region copies them into it.
use vstd::prelude::*;
use vstd::string::StringSliceAdditionalSpecFns;

verus! {

/// The size of a memory page.
pub const PAGE_SIZE: usize = 4096;

/// The size of an entry: names of up to 255 bytes.
pub const MAX_LEN: usize = 256;

/// Pages dedicated to the directory.
pub const DIRECTORY_PAGES: usize = 2;

/// Bytes dedicated to the directory.
pub const BYTE_SIZE: usize = 8192;

/// The size of the directory header: four machine words.
pub const HEADER_SIZE: usize = 32;

/// Directory header for shared data.
#[derive(Debug, Copy, Clone, PartialEq, Eq, Structural)]
pub struct DirectoryHeader {
    /// The index of the last registered entry.
    pub entries: usize,
    /// Used to signal that snapshotting is in progress.
    pub current_version: usize,
    pub committed_version: usize,
    /// The number of entries the directory has room for.
    pub length: usize,
}

/// A registered name, zero-padded to the entry size.
#[derive(Debug, Copy, Clone)]
pub struct DirectoryEntry {
    pub name: [u8; 256],
}

/// The entry that holds the bytes `name`, padded with zeros.
pub open spec fn entry_bytes(name: Seq<u8>) -> Seq<u8> {
    Seq::new(256, |i: int| if i < name.len() { name[i] } else { 0u8 })
}

/// A directory of shared structures.
#[derive(Debug)]
pub struct Directory {
    head: DirectoryHeader,
    data: Vec<DirectoryEntry>,
    entry: usize,
    len: usize,
}

impl Directory {
    pub closed spec fn spec_header(&self) -> DirectoryHeader {
        self.head
    }

    /// The names registered so far, in order.
    pub closed spec fn spec_names(&self) -> Seq<Seq<u8>> {
        Seq::new(self.data@.len(), |i: int| self.data@[i].name@)
    }

    /// The room for entries.
    pub closed spec fn spec_len(&self) -> nat {
        self.len as nat
    }

    pub closed spec fn wf(&self) -> bool {
        &&& self.entry == self.data@.len()
        &&& self.entry <= self.len
        &&& self.len == self.head.length
    }

    /// A directory laid out in `BYTE_SIZE` bytes: the header, then as many
    /// entries as fit (31), none registered; version 1 current and
    /// committed.
    pub fn new() -> (r: Directory)
        ensures
            r.wf(),
            r.spec_len() == 31,
            r.spec_names() == Seq::<Seq<u8>>::empty(),
            r.spec_header() == (DirectoryHeader {
                entries: 0,
                current_version: 1,
                committed_version: 1,
                length: 31,
            }),
    {
        let entries = (BYTE_SIZE - HEADER_SIZE) / MAX_LEN;
        let r = Directory {
            head: DirectoryHeader {
                entries: 0,
                current_version: 1,
                committed_version: 1,
                length: entries,
            },
            data: Vec::new(),
            entry: 0,
            len: entries,
        };
        assert(r.spec_names() =~= Seq::<Seq<u8>>::empty());
        r
    }

    /// Registers `name` in the next free entry and returns its index; `None`
    /// where the directory is full or the name has `MAX_LEN` bytes or more.
    pub fn register_new_entry(&mut self, name: &str) -> (r: Option<usize>)
        requires
            old(self).wf(),
        ensures
            final(self).wf(),
            final(self).spec_len() == old(self).spec_len(),
            old(self).spec_names().len() >= old(self).spec_len() || name.spec_bytes().len() >= MAX_LEN
                ==> r is None && final(self).spec_names() == old(self).spec_names() && final(self).spec_header()
                == old(self).spec_header(),
            !(old(self).spec_names().len() >= old(self).spec_len() || name.spec_bytes().len() >= MAX_LEN)
                ==> {
                &&& r == Some(old(self).spec_names().len() as usize)
                &&& final(self).spec_names() == old(self).spec_names().push(entry_bytes(name.spec_bytes()))
                &&& final(self).spec_header() == (DirectoryHeader {
                    entries: old(self).spec_names().len() as usize,
                    ..old(self).spec_header()
                })
            },
    {
        let entry = self.entry;
        let bytes = name.as_bytes();
        if entry >= self.len || bytes.len() >= MAX_LEN {
            None
        } else {
            let mut e = DirectoryEntry { name: [0u8; 256] };
            let mut i: usize = 0;
            while i < bytes.len()
                invariant
                    i <= bytes@.len() < 256,
                    forall|j: int| 0 <= j < i ==> #[trigger] e.name@[j] == bytes@[j],
                    forall|j: int| i <= j < 256 ==> #[trigger] e.name@[j] == 0u8,
                decreases bytes@.len() - i,
            {
                e.name.set(i, bytes[i]);
                i = i + 1;
            }
            assert(e.name@ =~= entry_bytes(bytes@));
            let ghost names = self.spec_names();
            self.data.push(e);
            self.head.entries = entry;
            self.entry = entry + 1;
            assert(self.spec_names() =~= names.push(entry_bytes(name.spec_bytes())));
            Some(entry)
        }
    }

    /// Starts a snapshot: the current version moves on by one (wrapping).
    #[inline]
    pub fn begin_snapshot(&mut self)
        requires
            old(self).wf(),
        ensures
            final(self).wf(),
            final(self).spec_names() == old(self).spec_names(),
            final(self).spec_len() == old(self).spec_len(),
            final(self).spec_header() == (DirectoryHeader {
                current_version: old(self).spec_header().current_version.wrapping_add(1),
                ..old(self).spec_header()
            }),
    {
        self.head.current_version = self.head.current_version.wrapping_add(1);
    }

    /// Ends a snapshot: the current version is committed.
    #[inline]
    pub fn end_snapshot(&mut self)
        requires
            old(self).wf(),
        ensures
            final(self).wf(),
            final(self).spec_names() == old(self).spec_names(),
            final(self).spec_len() == old(self).spec_len(),
            final(self).spec_header() == (DirectoryHeader {
                committed_version: old(self).spec_header().current_version,
                ..old(self).spec_header()
            }),
    {
        let version = self.head.current_version;
        self.head.committed_version = version;
    }

    /// The header, as it stands in the shared region.
    pub fn header(&self) -> (r: DirectoryHeader)
        ensures
            r == self.spec_header(),
    {
        self.head
    }

    /// The entry at `idx`.
    pub fn entry(&self, idx: usize) -> (r: DirectoryEntry)
        requires
            idx < self.spec_names().len(),
        ensures
            r.name@ == self.spec_names()[idx as int],
    {
        self.data[idx]
    }
}

} // verus!

use vstd::prelude::*;
use crate::codec::{decode, encode, serialize, deserialize, DeserializeError};
use crate::config::{ConfigError, MmapFileConfig};
use crate::growth::{capacity_for, capacity_for_required, lemma_capacity_for};

verus! {

/// Where one record lies in the file: its first byte and its length.
#[derive(Clone, Copy, Debug, PartialEq, Eq, Structural)]
pub struct LocationInFile {
    pub offset: usize,
    pub len: usize,
}

/// Why an operation on the file failed.
#[derive(Clone, Copy, Debug, PartialEq, Eq, Structural)]
pub enum MmapFileError {
    /// The configuration breaks `max_object_size < growth_step < max_size`.
    Config(ConfigError),
    /// Growing to the room an insertion needs would pass `max_size`.
    CapacityExceeded,
    /// A location reaches past the published capacity.
    OutOfBounds,
    /// The bytes at a location are not the stored form of a record.
    Deserialize(DeserializeError),
}

/// What a file is: its configuration, the bytes of its backing store, the capacity
/// published to readers, and the records inserted since the last flush.
pub struct FileModel {
    pub config: MmapFileConfig,
    pub contents: Seq<u8>,
    pub capacity: nat,
    pub pending: Seq<LocationInFile>,
}

/// `s` lengthened with zero bytes to at least `n` bytes; never shortened.
pub open spec fn zero_extended(s: Seq<u8>, n: nat) -> Seq<u8> {
    if s.len() >= n {
        s
    } else {
        s + Seq::new((n - s.len()) as nat, |i: int| 0u8)
    }
}

/// `s` with `data` written over it from `offset` on.
pub open spec fn written(s: Seq<u8>, offset: nat, data: Seq<u8>) -> Seq<u8> {
    s.subrange(0, offset as int) + data + s.subrange((offset + data.len()) as int, s.len() as int)
}

impl FileModel {
    /// The capacity is a positive multiple of the step within `max_size`, and the
    /// backing store holds at least that many bytes.
    pub open spec fn wf(&self) -> bool {
        &&& self.config.valid()
        &&& self.capacity % (self.config.growth_step as nat) == 0
        &&& self.config.growth_step <= self.capacity <= self.config.max_size
        &&& self.capacity <= self.contents.len()
    }

    /// The file just after opening a backing store that held `existing`.
    pub open spec fn opened(config: MmapFileConfig, existing: Seq<u8>) -> FileModel {
        FileModel {
            config,
            contents: zero_extended(existing, config.growth_step as nat),
            capacity: config.growth_step as nat,
            pending: Seq::empty(),
        }
    }

    /// The file once its capacity covers `required` bytes; `None` where that would
    /// pass `max_size`.
    pub open spec fn grown(self, required: nat) -> Option<FileModel> {
        if required <= self.capacity {
            Some(self)
        } else {
            let c = capacity_for(required, self.config.growth_step as nat);
            if c > self.config.max_size {
                None
            } else {
                Some(FileModel { capacity: c, contents: zero_extended(self.contents, c), ..self })
            }
        }
    }

    /// The room an insertion at `offset` of a stored form of `len` bytes asks for:
    /// the record and one more record of the largest size after it.
    pub open spec fn headroom(self, offset: nat, len: nat) -> nat {
        offset + len + self.config.max_object_size as nat
    }

    /// The file after inserting `obj` at `offset`; `None` where growth would pass
    /// `max_size`.
    pub open spec fn inserted(self, offset: nat, obj: Seq<u8>) -> Option<FileModel> {
        let enc = encode(obj);
        match self.grown(self.headroom(offset, enc.len())) {
            Some(g) => Some(
                FileModel {
                    contents: written(g.contents, offset, enc),
                    pending: g.pending.push(
                        LocationInFile { offset: offset as usize, len: enc.len() as usize },
                    ),
                    ..g
                },
            ),
            None => None,
        }
    }

    /// Whether `loc` lies within the published capacity.
    pub open spec fn in_bounds(self, loc: LocationInFile) -> bool {
        loc.offset + loc.len <= self.capacity
    }

    /// The bytes at `loc`.
    pub open spec fn bytes_at(self, loc: LocationInFile) -> Seq<u8> {
        self.contents.subrange(loc.offset as int, loc.offset + loc.len)
    }

    /// The record at `loc`: `None` where `loc` is out of bounds or its bytes are not a
    /// stored record.
    pub open spec fn record_at(self, loc: LocationInFile) -> Option<Seq<u8>> {
        if self.in_bounds(loc) {
            decode(self.bytes_at(loc))
        } else {
            None
        }
    }
}

/// An append-only store of byte records that grows in fixed steps up to a ceiling.
/// One writer inserts records at offsets it chooses; readers resolve locations
/// within the published capacity.
pub struct MmapFile {
    config: MmapFileConfig,
    bytes: Vec<u8>,
    capacity: usize,
    unflushed: Vec<LocationInFile>,
}

impl View for MmapFile {
    type V = FileModel;

    closed spec fn view(&self) -> FileModel {
        FileModel {
            config: self.config,
            contents: self.bytes@,
            capacity: self.capacity as nat,
            pending: self.unflushed@,
        }
    }
}

impl MmapFile {
    /// Opens a file over a backing store that holds `existing`, after checking the
    /// configuration. A store shorter than one step is extended with zeros; a
    /// longer one is kept whole. The capacity starts at one step.
    pub fn open(config: MmapFileConfig, existing: Vec<u8>) -> (r: Result<MmapFile, MmapFileError>)
        ensures
            r is Ok <==> config.valid(),
            match r {
                Ok(f) => f@ == FileModel::opened(config, existing@) && f@.wf(),
                Err(e) => e is Config && config.check() == Err::<(), ConfigError>(e->Config_0),
            },
    {
        match config.validate() {
            Err(e) => Err(MmapFileError::Config(e)),
            Ok(()) => {
                let mut bytes = existing;
                let ghost old_bytes = bytes@;
                let step = config.growth_step;
                while bytes.len() < step
                    invariant
                        old_bytes.len() <= bytes@.len(),
                        old_bytes.len() >= step ==> bytes@.len() == old_bytes.len(),
                        old_bytes.len() < step ==> bytes@.len() <= step,
                        bytes@ =~= old_bytes + Seq::new(
                            (bytes@.len() - old_bytes.len()) as nat,
                            |i: int| 0u8,
                        ),
                    decreases step - bytes@.len(),
                {
                    bytes.push(0);
                }
                assert(bytes@ =~= zero_extended(old_bytes, step as nat));
                assert(step as nat % step as nat == 0) by {
                    vstd::arithmetic::div_mod::lemma_mod_self_0(step as int);
                }
                Ok(MmapFile { config, bytes, capacity: step, unflushed: Vec::new() })
            },
        }
    }

    /// The configuration the file was opened with.
    pub fn config(&self) -> (r: MmapFileConfig)
        ensures
            r == self@.config,
    {
        self.config
    }

    /// The capacity published to readers.
    pub fn capacity(&self) -> (r: usize)
        ensures
            r == self@.capacity,
    {
        self.capacity
    }

    /// The length of the backing store.
    pub fn store_len(&self) -> (r: usize)
        ensures
            r == self@.contents.len(),
    {
        self.bytes.len()
    }

    /// Grows the capacity to the smallest multiple of the step that covers
    /// `required`, unless it already does; fails and changes nothing where that
    /// multiple passes `max_size`.
    pub fn ensure_capacity(&mut self, required: usize) -> (r: Result<(), MmapFileError>)
        requires
            old(self)@.wf(),
        ensures
            final(self)@.wf(),
            match old(self)@.grown(required as nat) {
                Some(g) => r is Ok && final(self)@ == g,
                None => r == Err::<(), MmapFileError>(MmapFileError::CapacityExceeded)
                    && final(self)@ == old(self)@,
            },
    {
        if required <= self.capacity {
            return Ok(());
        }
        proof {
            lemma_capacity_for(required as nat, self.config.growth_step as nat);
        }
        match capacity_for_required(&self.config, required) {
            None => Err(MmapFileError::CapacityExceeded),
            Some(c) => {
                let ghost old_bytes = self.bytes@;
                let ghost before = self@;
                while self.bytes.len() < c
                    invariant
                        self.config == before.config,
                        self.capacity == before.capacity,
                        self.unflushed@ == before.pending,
                        old_bytes.len() <= self.bytes@.len(),
                        old_bytes.len() >= c ==> self.bytes@.len() == old_bytes.len(),
                        old_bytes.len() < c ==> self.bytes@.len() <= c,
                        self.bytes@ =~= old_bytes + Seq::new(
                            (self.bytes@.len() - old_bytes.len()) as nat,
                            |i: int| 0u8,
                        ),
                    decreases c - self.bytes@.len(),
                {
                    self.bytes.push(0);
                }
                assert(self.bytes@ =~= zero_extended(old_bytes, c as nat));
                self.capacity = c;
                Ok(())
            },
        }
    }

    /// Stores `object` at `offset` and returns the length of its stored form. First
    /// grows the capacity to cover the record and one more record of the largest
    /// size after it; fails with `CapacityExceeded`, changing nothing, where that
    /// passes `max_size`. The location is remembered until the next flush.
    pub fn insert(&mut self, offset: usize, object: &Vec<u8>) -> (r: Result<usize, MmapFileError>)
        requires
            old(self)@.wf(),
        ensures
            final(self)@.wf(),
            r is Ok <==> old(self)@.inserted(offset as nat, object@) is Some,
            match r {
                Ok(len) => len == encode(object@).len()
                    && Some(final(self)@) == old(self)@.inserted(offset as nat, object@),
                Err(e) => e == MmapFileError::CapacityExceeded && final(self)@ == old(self)@,
            },
    {
        let enc = serialize(object);
        let len = enc.len();
        let ghost required: nat = self@.headroom(offset as nat, len as nat);
        proof {
            lemma_capacity_for(required, self.config.growth_step as nat);
        }
        let end = match offset.checked_add(len) {
            Some(e) => e,
            None => {
                return Err(MmapFileError::CapacityExceeded);
            },
        };
        let needed = match end.checked_add(self.config.max_object_size) {
            Some(n) => n,
            None => {
                return Err(MmapFileError::CapacityExceeded);
            },
        };
        match self.ensure_capacity(needed) {
            Err(e) => {
                return Err(e);
            },
            Ok(()) => {},
        }
        let ghost g = self.bytes@;
        let store_len = self.bytes.len();
        let ghost before = self@;
        let mut i: usize = 0;
        while i < len
            invariant
                self.config == before.config,
                self.capacity == before.capacity,
                self.unflushed@ == before.pending,
                i <= len,
                store_len == g.len(),
                len == enc@.len(),
                offset + len <= g.len(),
                self.bytes@.len() == g.len(),
                forall|j: int|
                    0 <= j < g.len() ==> #[trigger] self.bytes@[j] == (if offset <= j < offset + i {
                        enc@[j - offset]
                    } else {
                        g[j]
                    }),
            decreases len - i,
        {
            self.bytes.set(offset + i, enc[i]);
            i = i + 1;
        }
        assert(self.bytes@ =~= written(g, offset as nat, enc@));
        self.unflushed.push(LocationInFile { offset, len });
        Ok(len)
    }

    /// Reads the record at `loc`: fails with `OutOfBounds` where `loc` reaches past
    /// the published capacity, and with `Deserialize` where its bytes are not a
    /// stored record.
    pub fn get(&self, loc: LocationInFile) -> (r: Result<Vec<u8>, MmapFileError>)
        requires
            self@.wf(),
        ensures
            !self@.in_bounds(loc) ==> r == Err::<Vec<u8>, MmapFileError>(
                MmapFileError::OutOfBounds,
            ),
            self@.in_bounds(loc) ==> match r {
                Ok(obj) => decode(self@.bytes_at(loc)) == Some(obj@),
                Err(e) => e is Deserialize && decode(self@.bytes_at(loc)) is None,
            },
    {
        let bytes = match self.read_bytes(loc) {
            Ok(b) => b,
            Err(e) => {
                return Err(e);
            },
        };
        match deserialize(bytes.as_slice()) {
            Ok(obj) => Ok(obj),
            Err(e) => Err(MmapFileError::Deserialize(e)),
        }
    }

    /// The raw bytes at `loc`; fails with `OutOfBounds` where `loc` reaches past the
    /// published capacity.
    pub fn read_bytes(&self, loc: LocationInFile) -> (r: Result<Vec<u8>, MmapFileError>)
        requires
            self@.wf(),
        ensures
            !self@.in_bounds(loc) ==> r == Err::<Vec<u8>, MmapFileError>(
                MmapFileError::OutOfBounds,
            ),
            self@.in_bounds(loc) ==> r is Ok && r->Ok_0@ == self@.bytes_at(loc),
    {
        if loc.offset > self.capacity || loc.len > self.capacity - loc.offset {
            return Err(MmapFileError::OutOfBounds);
        }
        let store_len = self.bytes.len();
        let mut out: Vec<u8> = Vec::new();
        let mut i: usize = 0;
        while i < loc.len
            invariant
                i <= loc.len,
                store_len == self.bytes@.len(),
                loc.offset + loc.len <= self.bytes@.len(),
                out@ =~= self.bytes@.subrange(loc.offset as int, loc.offset + i),
            decreases loc.len - i,
        {
            out.push(self.bytes[loc.offset + i]);
            i = i + 1;
        }
        Ok(out)
    }

    /// Hands over the locations inserted since the last flush, in the order they were
    /// inserted, and forgets them; the bytes and the capacity stay as they are.
    pub fn flush(&mut self) -> (r: Vec<LocationInFile>)
        ensures
            r@ == old(self)@.pending,
            final(self)@ == (FileModel { pending: Seq::empty(), ..old(self)@ }),
    {
        let mut out: Vec<LocationInFile> = Vec::new();
        std::mem::swap(&mut out, &mut self.unflushed);
        out
    }
}

} // verus!

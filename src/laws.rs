use vstd::prelude::*;
use crate::codec::{encode, lemma_decode_encode};
use crate::file::{FileModel, LocationInFile};
use crate::growth::{capacity_for, lemma_capacity_for};

verus! {

/// Growing keeps the file well formed, never lowers the capacity, and leaves every
/// byte of the backing store in place.
pub proof fn lemma_grown_wf(f: FileModel, required: nat)
    requires
        f.wf(),
    ensures
        match f.grown(required) {
            Some(g) => {
                &&& g.wf()
                &&& g.config == f.config
                &&& g.pending == f.pending
                &&& f.capacity <= g.capacity
                &&& required <= g.capacity
                &&& f.contents.len() <= g.contents.len()
                &&& g.contents.subrange(0, f.contents.len() as int) == f.contents
            },
            None => required > f.capacity && capacity_for(required, f.config.growth_step as nat)
                > f.config.max_size,
        },
{
    lemma_capacity_for(required, f.config.growth_step as nat);
    if let Some(g) = f.grown(required) {
        assert(g.contents.subrange(0, f.contents.len() as int) =~= f.contents);
    }
}

/// Growth leaves every record within the old capacity as it was, so a read of a
/// published location gives the same result before and after the writer grows.
pub proof fn lemma_growth_keeps_records(f: FileModel, required: nat, loc: LocationInFile)
    requires
        f.wf(),
        f.grown(required) is Some,
        f.in_bounds(loc),
    ensures
        f.grown(required)->0.in_bounds(loc),
        f.grown(required)->0.record_at(loc) == f.record_at(loc),
{
    lemma_grown_wf(f, required);
    let g = f.grown(required)->0;
    assert(g.bytes_at(loc) =~= f.bytes_at(loc)) by {
        assert forall|j: int| 0 <= j < loc.len implies g.bytes_at(loc)[j] == f.bytes_at(loc)[j] by {
            assert(g.contents.subrange(0, f.contents.len() as int)[loc.offset + j]
                == g.contents[loc.offset + j]);
        }
    }
}

/// An insertion that succeeds leaves a well-formed file whose capacity is the old
/// one where the headroom already fit, and otherwise the smallest multiple of the
/// step that covers the headroom; the capacity never goes down.
pub proof fn lemma_insert_capacity(f: FileModel, offset: nat, obj: Seq<u8>)
    requires
        f.wf(),
        f.inserted(offset, obj) is Some,
    ensures
        ({
            let g = f.inserted(offset, obj)->0;
            let need = f.headroom(offset, encode(obj).len());
            &&& g.wf()
            &&& f.capacity <= g.capacity
            &&& g.capacity == if need <= f.capacity {
                f.capacity
            } else {
                capacity_for(need, f.config.growth_step as nat)
            }
            &&& f.contents.len() <= g.contents.len()
        }),
{
    lemma_grown_wf(f, f.headroom(offset, encode(obj).len()));
}

/// An insertion whose headroom needs growth past `max_size` is refused.
pub proof fn lemma_capacity_ceiling(f: FileModel, offset: nat, obj: Seq<u8>)
    requires
        f.wf(),
        f.headroom(offset, encode(obj).len()) > f.capacity,
        capacity_for(f.headroom(offset, encode(obj).len()), f.config.growth_step as nat)
            > f.config.max_size,
    ensures
        f.inserted(offset, obj) is None,
{
}

/// What was inserted at `offset` is read back whole at `offset` with the length
/// that the insertion reported, before and after a flush.
pub proof fn lemma_insert_then_read(f: FileModel, offset: usize, obj: Seq<u8>)
    requires
        f.wf(),
        f.inserted(offset as nat, obj) is Some,
    ensures
        ({
            let g = f.inserted(offset as nat, obj)->0;
            let loc = LocationInFile { offset, len: encode(obj).len() as usize };
            &&& g.record_at(loc) == Some(obj)
            &&& (FileModel { pending: Seq::empty(), ..g }).record_at(loc) == Some(obj)
        }),
{
    let enc = encode(obj);
    let need = f.headroom(offset as nat, enc.len());
    lemma_grown_wf(f, need);
    lemma_decode_encode(obj);
    let g = f.inserted(offset as nat, obj)->0;
    let loc = LocationInFile { offset, len: enc.len() as usize };
    assert(g.bytes_at(loc) =~= enc);
}

/// An insertion leaves in place every record within the capacity that does not
/// overlap the bytes it writes.
pub proof fn lemma_insert_keeps_other_records(
    f: FileModel,
    offset: nat,
    obj: Seq<u8>,
    loc: LocationInFile,
)
    requires
        f.wf(),
        f.inserted(offset, obj) is Some,
        f.in_bounds(loc),
        loc.offset + loc.len <= offset || offset + encode(obj).len() <= loc.offset,
    ensures
        f.inserted(offset, obj)->0.record_at(loc) == f.record_at(loc),
{
    let enc = encode(obj);
    lemma_grown_wf(f, f.headroom(offset, enc.len()));
    let g = f.inserted(offset, obj)->0;
    let grown = f.grown(f.headroom(offset, enc.len()))->0;
    assert(g.bytes_at(loc) =~= f.bytes_at(loc)) by {
        assert forall|j: int| 0 <= j < loc.len implies g.bytes_at(loc)[j] == f.bytes_at(loc)[j] by {
            assert(grown.contents[loc.offset + j] == f.contents[loc.offset + j]) by {
                assert(grown.contents.subrange(0, f.contents.len() as int)[loc.offset + j]
                    == grown.contents[loc.offset + j]);
            }
        }
    }
}

/// Reopening a store keeps all its bytes, and a record that lies within the first
/// step reads the same as before.
pub proof fn lemma_reopen_keeps_records(f: FileModel, loc: LocationInFile)
    requires
        f.wf(),
        loc.offset + loc.len <= f.config.growth_step,
    ensures
        FileModel::opened(f.config, f.contents).wf(),
        FileModel::opened(f.config, f.contents).contents == f.contents,
        FileModel::opened(f.config, f.contents).record_at(loc) == f.record_at(loc),
{
    vstd::arithmetic::div_mod::lemma_mod_self_0(f.config.growth_step as int);
}

} // verus!

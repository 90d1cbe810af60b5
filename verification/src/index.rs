//! The index file layout and its append-only semantics: entry `i` occupies
//! bytes `i * 8 .. i * 8 + 8` of the file, and the file only ever grows by
//! whole entries at the end.

use vstd::prelude::*;
use vstd::slice::slice_subrange;
use crate::codec::{be_bytes, be_value, decode_entry, encode_entry, lemma_be_round_trip};

verus! {

/// Number of whole entries a byte image holds.
pub open spec fn entry_count_of(bytes: Seq<u8>) -> nat {
    bytes.len() / 8
}

/// The entry stored at position `i`: bytes `i * 8 .. i * 8 + 8`, big-endian.
pub open spec fn entry_at(bytes: Seq<u8>, i: int) -> u64
    recommends
        0 <= i < entry_count_of(bytes),
{
    be_value(bytes.subrange(8 * i, 8 * i + 8))
}

/// All entries of a byte image, in positional order.
pub open spec fn entries_of(bytes: Seq<u8>) -> Seq<u64> {
    Seq::new(entry_count_of(bytes), |i: int| entry_at(bytes, i))
}

/// A well-formed image consists of whole entries only: its length is a
/// multiple of eight.
pub open spec fn whole_entries(bytes: Seq<u8>) -> bool {
    bytes.len() % 8 == 0
}

/// The byte image that stores exactly the given values, in order.
pub open spec fn image_of(values: Seq<u64>) -> Seq<u8>
    decreases values.len(),
{
    if values.len() == 0 {
        Seq::empty()
    } else {
        image_of(values.drop_last()) + be_bytes(values.last())
    }
}

/// Appending one encoded entry to a whole-entry image leaves every stored
/// entry in place and adds the new value at the next position.
pub proof fn lemma_append_entry(bytes: Seq<u8>, value: u64)
    requires
        whole_entries(bytes),
    ensures
        whole_entries(bytes + be_bytes(value)),
        entry_count_of(bytes + be_bytes(value)) == entry_count_of(bytes) + 1,
        entries_of(bytes + be_bytes(value)) =~= entries_of(bytes).push(value),
{
    let ext = bytes + be_bytes(value);
    let n = entry_count_of(bytes) as int;
    lemma_be_round_trip(value);
    assert(bytes.len() == 8 * n);
    assert(ext.len() == 8 * n + 8);
    assert forall|i: int| 0 <= i <= n implies entries_of(ext)[i] == entries_of(bytes).push(
        value,
    )[i] by {
        if i < n {
            assert(ext.subrange(8 * i, 8 * i + 8) =~= bytes.subrange(8 * i, 8 * i + 8));
        } else {
            assert(ext.subrange(8 * i, 8 * i + 8) =~= be_bytes(value));
        }
    }
}

/// Append/read round-trip: the image built by appending the values
/// `values[0] .. values[n-1]` in order is `8 * n` bytes long and decodes
/// back to exactly those values, so a read at any position `i` yields
/// `values[i]`.
pub proof fn lemma_image_round_trip(values: Seq<u64>)
    ensures
        image_of(values).len() == 8 * values.len(),
        whole_entries(image_of(values)),
        entries_of(image_of(values)) =~= values,
    decreases values.len(),
{
    if values.len() > 0 {
        lemma_image_round_trip(values.drop_last());
        lemma_append_entry(image_of(values.drop_last()), values.last());
        assert(entries_of(image_of(values)) =~= entries_of(image_of(values.drop_last())).push(
            values.last(),
        ));
        assert(values =~= values.drop_last().push(values.last()));
    }
}

/// Sequential placement: the `k`-th appended value is stored at position
/// `k`, that is, its big-endian image occupies bytes `k * 8 .. k * 8 + 8`
/// of the file, whatever was appended after it.
pub proof fn lemma_sequential_placement(values: Seq<u64>, k: int)
    requires
        0 <= k < values.len(),
    ensures
        image_of(values).subrange(8 * k, 8 * k + 8) =~= be_bytes(values[k]),
        entry_at(image_of(values), k) == values[k],
    decreases values.len(),
{
    lemma_image_round_trip(values);
    lemma_be_round_trip(values[k]);
    if k == values.len() - 1 {
        lemma_image_round_trip(values.drop_last());
        assert(image_of(values).subrange(8 * k, 8 * k + 8) =~= be_bytes(values[k]));
    } else {
        lemma_sequential_placement(values.drop_last(), k);
        lemma_image_round_trip(values.drop_last());
        assert(image_of(values).subrange(8 * k, 8 * k + 8) =~= image_of(
            values.drop_last(),
        ).subrange(8 * k, 8 * k + 8));
    }
}

/// Persistence across reopen: an index reopened from the stored byte image
/// of earlier appends holds exactly the entries appended before — none
/// truncated, none duplicated — and a further append lands at the prior
/// entry count.
pub proof fn lemma_reopen_continues(values: Seq<u64>, value: u64)
    ensures
        entries_of(image_of(values)) =~= values,
        entries_of(image_of(values) + be_bytes(value)) =~= values.push(value),
{
    lemma_image_round_trip(values);
    lemma_append_entry(image_of(values), value);
}

/// Failure of a positional read.
#[derive(Clone, Copy, Debug, PartialEq, Eq, Structural)]
pub enum ReadError {
    /// The requested position lies at or past the end of the index.
    EndOfFile,
}

/// The byte offset at which the entry at `position` is stored, or `None`
/// when `position * 8` exceeds the 64-bit range (no file can hold such a
/// position).
pub fn byte_offset(position: u64) -> (r: Option<u64>)
    ensures
        8 * position <= u64::MAX ==> r == Some((8 * position) as u64),
        8 * position > u64::MAX ==> r.is_none(),
{
    if position <= u64::MAX / 8 {
        Some(position * 8)
    } else {
        None
    }
}

/// An append-only index held as the exact byte image of its file: an
/// ordered run of eight-byte big-endian entries with no gaps and no
/// metadata. Entries are only ever added at the end, never changed or
/// removed.
///
/// Entry count is derived from the byte length on demand rather than
/// cached, so it can never fall out of step with the image.
pub struct Index {
    data: Vec<u8>,
}

impl Index {
    /// The byte image of the index file.
    pub closed spec fn bytes(self) -> Seq<u8> {
        self.data@
    }

    /// The number of whole entries present.
    pub open spec fn entry_count(self) -> nat {
        entry_count_of(self.bytes())
    }

    /// The stored entries, in positional order.
    pub open spec fn entries(self) -> Seq<u64> {
        entries_of(self.bytes())
    }

    /// The image holds whole entries only.
    pub open spec fn well_formed(self) -> bool {
        whole_entries(self.bytes())
    }

    /// Create the image of a fresh, empty index file.
    pub fn new() -> (r: Self)
        ensures
            r.bytes() =~= Seq::<u8>::empty(),
            r.well_formed(),
    {
        Index { data: Vec::new() }
    }

    /// Reopen an index from the byte image of an existing file. The image
    /// is preserved unchanged: nothing is truncated, validated or repaired.
    pub fn open(data: Vec<u8>) -> (r: Self)
        ensures
            r.bytes() == data@,
    {
        Index { data }
    }

    /// The stored byte image, for writing the file back out.
    pub fn into_bytes(self) -> (r: Vec<u8>)
        ensures
            r@ == self.bytes(),
    {
        self.data
    }

    /// Current file length in bytes.
    pub fn byte_len(&self) -> (r: usize)
        ensures
            r == self.bytes().len(),
    {
        self.data.len()
    }

    /// Number of entries currently present, derived from the byte length.
    pub fn count(&self) -> (r: usize)
        ensures
            r == self.entry_count(),
    {
        self.data.len() / 8
    }

    /// Read the entry at `position`. Succeeds exactly on the positions
    /// already written; one past the end (or further) is an end-of-file
    /// failure, never a value.
    pub fn read(&self, position: u64) -> (r: Result<u64, ReadError>)
        ensures
            position < self.entry_count() ==> r == Ok::<u64, ReadError>(
                self.entries()[position as int],
            ),
            position >= self.entry_count() ==> r == Err::<u64, ReadError>(ReadError::EndOfFile),
    {
        let count: u64 = (self.data.len() / 8) as u64;
        if position >= count {
            return Err(ReadError::EndOfFile);
        }
        let offset: usize = (position as usize) * 8;
        let entry = slice_subrange(self.data.as_slice(), offset, offset + 8);
        Ok(decode_entry(entry))
    }

    /// Append one entry at the end of the image: the file grows by exactly
    /// eight bytes holding the big-endian image of `value`, and on a
    /// well-formed index the new value becomes readable at the previous
    /// entry count. Nothing already stored moves or changes.
    pub fn append(&mut self, value: u64)
        ensures
            final(self).bytes() =~= old(self).bytes() + be_bytes(value),
            final(self).bytes().len() == old(self).bytes().len() + 8,
            old(self).well_formed() ==> {
                &&& final(self).well_formed()
                &&& final(self).entry_count() == old(self).entry_count() + 1
                &&& final(self).entries() =~= old(self).entries().push(value)
            },
    {
        let mut tail = encode_entry(value);
        self.data.append(&mut tail);
        proof {
            if old(self).well_formed() {
                lemma_append_entry(old(self).bytes(), value);
            }
        }
    }
}

} // verus!

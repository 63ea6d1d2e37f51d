//! The binary image in which a store is kept.
//!
//! An entry sequence is written as its length in eight bytes, then entry by
//! entry: the length of the name in bytes as eight bytes, the name in UTF-8,
//! the wins and the votes as four bytes each. All numbers are little-endian
//! and nothing stands between the fields. The lock of an entry is not kept.
//! A file holds the image behind a prefix of two bytes.

use crate::error::Error;
use crate::rel_vec::{fresh_tallies, fresh_tally, tallies, RelEntry, Tally};
use crate::text::text_of;
use vstd::bytes::*;
use vstd::prelude::*;
use vstd::slice::slice_subrange;
use vstd::string::StringExecFns;
use vstd::utf8::*;

verus! {

/// The two bytes that a file begins with.
pub open spec fn file_prefix() -> Seq<u8> {
    seq![0xADu8, 0x2Au8]
}

/// The tally can be written: its counters fit in 32 bits and the length of
/// its name in 64.
pub open spec fn storable(t: Tally) -> bool {
    &&& t.wins <= u32::MAX
    &&& t.votes <= u32::MAX
    &&& encode_utf8(t.name).len() <= u64::MAX
}

/// Every tally of the run can be written, and so can their number.
pub open spec fn storable_run(run: Seq<Tally>) -> bool {
    &&& run.len() <= u64::MAX
    &&& forall|i: int| 0 <= i < run.len() ==> storable(#[trigger] run[i])
}

/// The run with every lock open: what is left of a run once written.
pub open spec fn unlocked(run: Seq<Tally>) -> Seq<Tally> {
    Seq::new(run.len(), |i: int| Tally { locked: false, ..run[i] })
}

/// The bytes of one entry.
pub open spec fn entry_image(t: Tally) -> Seq<u8> {
    spec_u64_to_le_bytes(encode_utf8(t.name).len() as u64) + encode_utf8(t.name)
        + spec_u32_to_le_bytes(t.wins as u32) + spec_u32_to_le_bytes(t.votes as u32)
}

/// The bytes of the entries of a run, one after the other.
pub open spec fn entries_image(run: Seq<Tally>) -> Seq<u8>
    decreases run.len(),
{
    if run.len() == 0 {
        Seq::empty()
    } else {
        entries_image(run.drop_last()) + entry_image(run.last())
    }
}

/// The bytes of a run: its length, then its entries.
pub open spec fn sequence_image(run: Seq<Tally>) -> Seq<u8> {
    spec_u64_to_le_bytes(run.len() as u64) + entries_image(run)
}

/// The bytes of a file that holds the run.
pub open spec fn file_image(run: Seq<Tally>) -> Seq<u8> {
    file_prefix() + sequence_image(run)
}

/// The bytes begin with the image of the run, and the run is one that a
/// reader can hand out: it can be written, and no lock is set.
pub open spec fn decodes_to(bytes: Seq<u8>, run: Seq<Tally>) -> bool {
    &&& storable_run(run)
    &&& unlocked(run) == run
    &&& sequence_image(run).is_prefix_of(bytes)
}

/// The run whose image the bytes begin with, if there is one. What follows
/// the image is not looked at.
pub open spec fn decoded(bytes: Seq<u8>) -> Option<Seq<Tally>> {
    if exists|run: Seq<Tally>| decodes_to(bytes, run) {
        Some(choose|run: Seq<Tally>| decodes_to(bytes, run))
    } else {
        None
    }
}

/// What loading a file gives: the run behind the prefix, an invalid-file
/// failure where the prefix is missing, a serialization failure where the
/// bytes behind it hold no run.
pub open spec fn loaded(bytes: Seq<u8>) -> Result<Seq<Tally>, Error> {
    if !file_prefix().is_prefix_of(bytes) {
        Err(Error::InvalidFileError)
    } else {
        match decoded(bytes.skip(2)) {
            Some(run) => Ok(run),
            None => Err(Error::Serde),
        }
    }
}

/// Appends the bytes to the buffer.
pub fn append_bytes(out: &mut Vec<u8>, bytes: &[u8])
    ensures
        final(out)@ == old(out)@ + bytes@,
{
    let mut i: usize = 0;
    while i < bytes.len()
        invariant
            i <= bytes.len(),
            out@ == old(out)@ + bytes@.take(i as int),
        decreases bytes.len() - i,
    {
        out.push(bytes[i]);
        assert(bytes@.take(i + 1) =~= bytes@.take(i as int).push(bytes@[i as int]));
        i = i + 1;
    }
    assert(bytes@.take(i as int) =~= bytes@);
}

/// Appends the image of one entry to the buffer.
pub fn write_entry(out: &mut Vec<u8>, entry: &RelEntry)
    ensures
        final(out)@ == old(out)@ + entry_image(entry@),
        storable(entry@),
{
    let name: &[u8] = entry.name.as_str().as_bytes();
    let length: Vec<u8> = u64_to_le_bytes(name.len() as u64);
    let wins: Vec<u8> = u32_to_le_bytes(entry.wins);
    let votes: Vec<u8> = u32_to_le_bytes(entry.votes);
    append_bytes(out, length.as_slice());
    append_bytes(out, name);
    append_bytes(out, wins.as_slice());
    append_bytes(out, votes.as_slice());
    assert(out@ =~= old(out)@ + entry_image(entry@));
}

/// The image of an entry sequence. Every sequence that is handed in can be
/// written.
pub fn save_data(data: &[RelEntry]) -> (image: Vec<u8>)
    ensures
        image@ == sequence_image(tallies(data@)),
        storable_run(tallies(data@)),
{
    let mut out: Vec<u8> = u64_to_le_bytes(data.len() as u64);
    let ghost run = tallies(data@);
    let mut i: usize = 0;
    assert(run.take(0) =~= Seq::<Tally>::empty());
    while i < data.len()
        invariant
            i <= data.len(),
            run == tallies(data@),
            out@ =~= spec_u64_to_le_bytes(data.len() as u64) + entries_image(run.take(i as int)),
            forall|k: int| 0 <= k < i ==> storable(#[trigger] run[k]),
        decreases data.len() - i,
    {
        write_entry(&mut out, &data[i]);
        assert(run.take(i + 1).drop_last() =~= run.take(i as int));
        assert(run.take(i + 1).last() == data@[i as int]@);
        i = i + 1;
    }
    assert(run.take(i as int) =~= run);
    out
}


/// Where the image of a tally stands at the head of some bytes, its four
/// fields stand there one after the other.
pub proof fn lemma_entry_image_parts(t: Tally, bytes: Seq<u8>)
    requires
        storable(t),
        entry_image(t).is_prefix_of(bytes),
    ensures
        ({
            let n = encode_utf8(t.name).len() as int;
            &&& entry_image(t).len() == 16 + n
            &&& bytes.len() >= 16 + n
            &&& bytes.subrange(0, 8) == spec_u64_to_le_bytes(n as u64)
            &&& bytes.subrange(8, 8 + n) == encode_utf8(t.name)
            &&& bytes.subrange(8 + n, 12 + n) == spec_u32_to_le_bytes(t.wins as u32)
            &&& bytes.subrange(12 + n, 16 + n) == spec_u32_to_le_bytes(t.votes as u32)
        }),
{
    lemma_auto_spec_u64_to_from_le_bytes();
    lemma_auto_spec_u32_to_from_le_bytes();
    let n = encode_utf8(t.name).len() as int;
    let image = entry_image(t);
    assert(image.len() == 16 + n);
    assert(bytes.subrange(0, 8) =~= image.subrange(0, 8));
    assert(image.subrange(0, 8) =~= spec_u64_to_le_bytes(n as u64));
    assert(bytes.subrange(8, 8 + n) =~= image.subrange(8, 8 + n));
    assert(image.subrange(8, 8 + n) =~= encode_utf8(t.name));
    assert(bytes.subrange(8 + n, 12 + n) =~= image.subrange(8 + n, 12 + n));
    assert(image.subrange(8 + n, 12 + n) =~= spec_u32_to_le_bytes(t.wins as u32));
    assert(bytes.subrange(12 + n, 16 + n) =~= image.subrange(12 + n, 16 + n));
    assert(image.subrange(12 + n, 16 + n) =~= spec_u32_to_le_bytes(t.votes as u32));
}

/// Two tallies whose images stand at the head of the same bytes have the
/// same name, wins and votes.
pub proof fn lemma_entry_image_unique(t: Tally, u: Tally, bytes: Seq<u8>)
    requires
        storable(t),
        storable(u),
        entry_image(t).is_prefix_of(bytes),
        entry_image(u).is_prefix_of(bytes),
    ensures
        t.name == u.name,
        t.wins == u.wins,
        t.votes == u.votes,
        entry_image(t) == entry_image(u),
{
    lemma_auto_spec_u64_to_from_le_bytes();
    lemma_auto_spec_u32_to_from_le_bytes();
    lemma_entry_image_parts(t, bytes);
    lemma_entry_image_parts(u, bytes);
    let n = encode_utf8(t.name).len();
    let m = encode_utf8(u.name).len();
    assert(n as u64 == m as u64) by {
        assert(spec_u64_from_le_bytes(spec_u64_to_le_bytes(n as u64)) == n as u64);
        assert(spec_u64_from_le_bytes(spec_u64_to_le_bytes(m as u64)) == m as u64);
    }
    assert(t.name == u.name) by {
        encode_utf8_decode_utf8(t.name);
        encode_utf8_decode_utf8(u.name);
    }
    assert(t.wins as u32 == u.wins as u32) by {
        assert(spec_u32_from_le_bytes(spec_u32_to_le_bytes(t.wins as u32)) == t.wins as u32);
        assert(spec_u32_from_le_bytes(spec_u32_to_le_bytes(u.wins as u32)) == u.wins as u32);
    }
    assert(t.votes as u32 == u.votes as u32) by {
        assert(spec_u32_from_le_bytes(spec_u32_to_le_bytes(t.votes as u32)) == t.votes as u32);
        assert(spec_u32_from_le_bytes(spec_u32_to_le_bytes(u.votes as u32)) == u.votes as u32);
    }
}

/// Reads one entry at `pos`. Gives the entry, unlocked, with the position
/// behind it; none where the bytes from `pos` on begin with no entry.
pub fn read_entry(bytes: &[u8], pos: usize) -> (read: Option<(RelEntry, usize)>)
    requires
        pos <= bytes@.len(),
    ensures
        match read {
            Some((entry, next)) => {
                &&& pos + 16 <= next <= bytes@.len()
                &&& !entry.locked
                &&& storable(entry@)
                &&& bytes@.subrange(pos as int, next as int) == entry_image(entry@)
            },
            None => forall|t: Tally| storable(t) ==> !entry_image(t).is_prefix_of(bytes@.skip(pos as int)),
        },
{
    proof {
        lemma_auto_spec_u64_to_from_le_bytes();
        lemma_auto_spec_u32_to_from_le_bytes();
    }
    let ghost tail = bytes@.skip(pos as int);
    let len: usize = bytes.len();
    if len - pos < 8 {
        assert forall|t: Tally| storable(t) implies !entry_image(t).is_prefix_of(tail) by {
            if entry_image(t).is_prefix_of(tail) {
                lemma_entry_image_parts(t, tail);
            }
        }
        return None;
    }
    let length: u64 = u64_from_le_bytes(slice_subrange(bytes, pos, pos + 8));
    assert(bytes@.subrange(pos as int, pos + 8) =~= tail.subrange(0, 8));
    let rest: usize = len - pos - 8;
    if length > rest as u64 || rest - (length as usize) < 8 {
        assert forall|t: Tally| storable(t) implies !entry_image(t).is_prefix_of(tail) by {
            if entry_image(t).is_prefix_of(tail) {
                lemma_entry_image_parts(t, tail);
                let n = encode_utf8(t.name).len();
                assert(spec_u64_from_le_bytes(spec_u64_to_le_bytes(n as u64)) == n as u64);
            }
        }
        return None;
    }
    let n: usize = length as usize;
    let name_bytes: Vec<u8> = vstd::slice::slice_to_vec(slice_subrange(bytes, pos + 8, pos + 8 + n));
    assert(name_bytes@ =~= tail.subrange(8, 8 + n));
    let name: String = match text_of(name_bytes) {
        Some(name) => name,
        None => {
            assert forall|t: Tally| storable(t) implies !entry_image(t).is_prefix_of(tail) by {
                if entry_image(t).is_prefix_of(tail) {
                    lemma_entry_image_parts(t, tail);
                    let m = encode_utf8(t.name).len();
                    assert(spec_u64_from_le_bytes(spec_u64_to_le_bytes(m as u64)) == m as u64);
                    encode_utf8_valid_utf8(t.name);
                }
            }
            return None;
        },
    };
    let wins: u32 = u32_from_le_bytes(slice_subrange(bytes, pos + 8 + n, pos + 12 + n));
    let votes: u32 = u32_from_le_bytes(slice_subrange(bytes, pos + 12 + n, pos + 16 + n));
    let entry: RelEntry = RelEntry::new(name, wins, votes);
    proof {
        let part = bytes@.subrange(pos as int, pos + 16 + n);
        decode_utf8_encode_utf8(tail.subrange(8, 8 + n));
        assert(encode_utf8(entry@.name) == tail.subrange(8, 8 + n));
        assert(part =~= bytes@.subrange(pos as int, pos + 8) + tail.subrange(8, 8 + n)
            + bytes@.subrange(pos + 8 + n, pos + 12 + n) + bytes@.subrange(
            pos + 12 + n,
            pos + 16 + n,
        ));
    }
    Some((entry, pos + 16 + n))
}


/// The image of the first entries of a run stands at the head of the image
/// of the run, and the image of the next entry follows it.
pub proof fn lemma_entries_image_take(run: Seq<Tally>, count: int)
    requires
        0 <= count <= run.len(),
    ensures
        entries_image(run.take(count)).is_prefix_of(entries_image(run)),
        count < run.len() ==> entries_image(run.take(count + 1)) == entries_image(run.take(count))
            + entry_image(run[count]),
    decreases run.len() - count,
{
    if count < run.len() {
        assert(run.take(count + 1).drop_last() =~= run.take(count));
        assert(run.take(count + 1).last() == run[count]);
        lemma_entries_image_take(run, count + 1);
    } else {
        assert(run.take(count) =~= run);
    }
}

/// Two runs of one length whose entry images stand at the head of the same
/// bytes agree in every name, win and vote.
pub proof fn lemma_entries_image_unique(run: Seq<Tally>, other: Seq<Tally>, bytes: Seq<u8>)
    requires
        run.len() == other.len(),
        storable_run(run),
        storable_run(other),
        entries_image(run).is_prefix_of(bytes),
        entries_image(other).is_prefix_of(bytes),
    ensures
        unlocked(run) == unlocked(other),
        entries_image(run) == entries_image(other),
    decreases run.len(),
{
    if run.len() == 0 {
        assert(unlocked(run) =~= unlocked(other));
    } else {
        let head = entries_image(run.drop_last());
        lemma_entries_image_unique(run.drop_last(), other.drop_last(), bytes);
        let tail = bytes.skip(head.len() as int);
        assert(entry_image(run.last()).is_prefix_of(tail)) by {
            assert(entry_image(run.last()) =~= entries_image(run).skip(head.len() as int));
        }
        assert(entry_image(other.last()).is_prefix_of(tail)) by {
            assert(entry_image(other.last()) =~= entries_image(other).skip(head.len() as int));
        }
        lemma_entry_image_unique(run.last(), other.last(), tail);
        assert(unlocked(run) =~= unlocked(other)) by {
            assert forall|i: int| 0 <= i < run.len() implies unlocked(run)[i] == unlocked(other)[i] by {
                if i < run.len() - 1 {
                    assert(unlocked(run.drop_last())[i] == unlocked(other.drop_last())[i]);
                }
            }
        }
    }
}

/// At most one run can be read off the head of given bytes.
pub proof fn lemma_decodes_unique(bytes: Seq<u8>, run: Seq<Tally>, other: Seq<Tally>)
    requires
        decodes_to(bytes, run),
        decodes_to(bytes, other),
    ensures
        run == other,
{
    lemma_auto_spec_u64_to_from_le_bytes();
    let count = spec_u64_to_le_bytes(run.len() as u64);
    let other_count = spec_u64_to_le_bytes(other.len() as u64);
    assert(count =~= bytes.subrange(0, 8)) by {
        assert(count =~= sequence_image(run).subrange(0, 8));
    }
    assert(other_count =~= bytes.subrange(0, 8)) by {
        assert(other_count =~= sequence_image(other).subrange(0, 8));
    }
    assert(run.len() as u64 == other.len() as u64) by {
        assert(spec_u64_from_le_bytes(count) == run.len() as u64);
        assert(spec_u64_from_le_bytes(other_count) == other.len() as u64);
    }
    let body = bytes.skip(8);
    assert(entries_image(run).is_prefix_of(body)) by {
        assert(entries_image(run) =~= sequence_image(run).skip(8));
    }
    assert(entries_image(other).is_prefix_of(body)) by {
        assert(entries_image(other) =~= sequence_image(other).skip(8));
    }
    lemma_entries_image_unique(run, other, body);
}

/// Reading what was written gives the run back, whatever follows it, with
/// every lock open.
pub proof fn lemma_decoded_image(run: Seq<Tally>, rest: Seq<u8>)
    requires
        storable_run(run),
    ensures
        decoded(sequence_image(run) + rest) == Some(unlocked(run)),
{
    let bytes = sequence_image(run) + rest;
    let open = unlocked(run);
    lemma_unlocked_image(run);
    assert(unlocked(open) =~= open);
    assert(decodes_to(bytes, open));
    let found = choose|found: Seq<Tally>| decodes_to(bytes, found);
    lemma_decodes_unique(bytes, found, open);
}

/// The lock of an entry does not show in the image.
pub proof fn lemma_unlocked_image(run: Seq<Tally>)
    ensures
        entries_image(unlocked(run)) == entries_image(run),
        sequence_image(unlocked(run)) == sequence_image(run),
        storable_run(run) ==> storable_run(unlocked(run)),
    decreases run.len(),
{
    if run.len() > 0 {
        lemma_unlocked_image(run.drop_last());
        assert(unlocked(run).drop_last() =~= unlocked(run.drop_last()));
        assert(entry_image(unlocked(run).last()) == entry_image(run.last()));
    }
}

/// The entry sequence that the bytes begin with; a serialization failure
/// where they begin with none.
pub fn load_data(bytes: &[u8]) -> (read: Result<Vec<RelEntry>, Error>)
    ensures
        match decoded(bytes@) {
            Some(run) => read matches Ok(data) && tallies(data@) == run,
            None => read matches Err(Error::Serde),
        },
{
    proof {
        lemma_auto_spec_u64_to_from_le_bytes();
    }
    if bytes.len() < 8 {
        assert forall|run: Seq<Tally>| !decodes_to(bytes@, run) by {}
        return Err(Error::Serde);
    }
    let count: u64 = u64_from_le_bytes(slice_subrange(bytes, 0, 8));
    let ghost body = bytes@.skip(8);
    let mut data: Vec<RelEntry> = Vec::new();
    let mut pos: usize = 8;
    let mut i: u64 = 0;
    assert forall|run: Seq<Tally>| #[trigger] decodes_to(bytes@, run) implies run.len() == count
        && entries_image(run).is_prefix_of(body) by {
        assert(spec_u64_to_le_bytes(run.len() as u64) =~= sequence_image(run).subrange(0, 8));
        assert(sequence_image(run).subrange(0, 8) =~= bytes@.subrange(0, 8));
        assert(spec_u64_from_le_bytes(spec_u64_to_le_bytes(run.len() as u64)) == run.len());
        assert(entries_image(run) =~= sequence_image(run).skip(8));
    }
    while i < count
        invariant
            i <= count,
            8 <= pos <= bytes@.len(),
            body == bytes@.skip(8),
            data@.len() == i,
            i <= pos,
            storable_run(tallies(data@)),
            unlocked(tallies(data@)) == tallies(data@),
            entries_image(tallies(data@)) == bytes@.subrange(8, pos as int),
            forall|run: Seq<Tally>| #[trigger]
                decodes_to(bytes@, run) ==> run.len() == count && entries_image(run).is_prefix_of(
                    body,
                ),
        decreases count - i,
    {
        let ghost so_far = tallies(data@);
        match read_entry(bytes, pos) {
            Some((entry, next)) => {
                data.push(entry);
                proof {
                    let now = tallies(data@);
                    assert(now.drop_last() =~= so_far);
                    assert(now.last() == entry@);
                    assert(bytes@.subrange(8, next as int) =~= bytes@.subrange(8, pos as int)
                        + bytes@.subrange(pos as int, next as int));
                    assert forall|k: int| 0 <= k < now.len() implies storable(#[trigger] now[k])
                        && unlocked(now)[k] == now[k] by {
                        if k < so_far.len() {
                            assert(now[k] == so_far[k]);
                            assert(unlocked(so_far)[k] == so_far[k]);
                        }
                    }
                    assert(unlocked(now) =~= now);
                }
                pos = next;
                i = i + 1;
            },
            None => {
                assert forall|run: Seq<Tally>| !decodes_to(bytes@, run) by {
                    if decodes_to(bytes@, run) {
                        let head = run.take(i as int);
                        lemma_entries_image_take(run, i as int);
                        assert(entries_image(so_far).is_prefix_of(body)) by {
                            assert(bytes@.subrange(8, pos as int) =~= body.subrange(0, pos - 8));
                        }
                        lemma_entries_image_unique(head, so_far, body);
                        let at = entries_image(head).len() as int;
                        assert(entry_image(run[i as int]).is_prefix_of(bytes@.skip(pos as int))) by {
                            let upto = entries_image(run.take(i + 1));
                            lemma_entries_image_take(run, i + 1);
                            assert(entry_image(run[i as int]) =~= upto.skip(at));
                            assert(upto.is_prefix_of(body));
                            assert(bytes@.skip(pos as int) =~= body.skip(at));
                        }
                    }
                }
                return Err(Error::Serde);
            },
        }
    }
    proof {
        let run = tallies(data@);
        assert(sequence_image(run).is_prefix_of(bytes@)) by {
            assert(bytes@.subrange(0, pos as int) =~= bytes@.subrange(0, 8) + bytes@.subrange(
                8,
                pos as int,
            ));
        }
        assert(decodes_to(bytes@, run));
        let found = choose|found: Seq<Tally>| decodes_to(bytes@, found);
        lemma_decodes_unique(bytes@, found, run);
    }
    Ok(data)
}


/// A file that holds a run loads as that run, with every lock open,
/// whatever follows the image.
pub proof fn lemma_save_then_load(run: Seq<Tally>, rest: Seq<u8>)
    requires
        storable_run(run),
    ensures
        loaded(file_image(run) + rest) == Ok::<Seq<Tally>, Error>(unlocked(run)),
{
    let bytes = file_image(run) + rest;
    assert(file_prefix().is_prefix_of(bytes)) by {
        assert(file_prefix() =~= bytes.subrange(0, 2));
    }
    assert(bytes.skip(2) =~= sequence_image(run) + rest);
    lemma_decoded_image(run, rest);
}

/// Bytes that do not begin with the file prefix load as an invalid file,
/// and no other bytes do.
pub proof fn lemma_invalid_file(bytes: Seq<u8>)
    ensures
        loaded(bytes) == Err::<Seq<Tally>, Error>(Error::InvalidFileError) <==> !(bytes.len() >= 2
            && bytes[0] == 0xAD && bytes[1] == 0x2A),
{
    if bytes.len() >= 2 && bytes[0] == 0xAD && bytes[1] == 0x2A {
        assert(file_prefix() =~= bytes.subrange(0, 2));
    } else if file_prefix().is_prefix_of(bytes) {
        assert(file_prefix()[0] == bytes.subrange(0, 2)[0]);
        assert(file_prefix()[1] == bytes.subrange(0, 2)[1]);
    }
}


/// Where the first line of a text ends: at its first line feed, or at the end
/// of the text where there is none.
pub open spec fn line_end(text: Seq<u8>) -> int
    decreases text.len(),
{
    if text.len() == 0 || text[0] == 0x0A {
        0
    } else {
        1 + line_end(text.drop_first())
    }
}

/// A line without the carriage return that it may end with.
pub open spec fn without_return(line: Seq<u8>) -> Seq<u8> {
    if line.len() > 0 && line.last() == 0x0D {
        line.drop_last()
    } else {
        line
    }
}

/// The lines of a text. A line ends with a line feed, or with a carriage
/// return and a line feed, neither of which belongs to it; what stands behind
/// the last line feed is a line too, unless it is empty.
pub open spec fn lines_of(text: Seq<u8>) -> Seq<Seq<u8>>
    decreases text.len(),
{
    if text.len() == 0 {
        Seq::empty()
    } else if line_end(text) >= text.len() {
        seq![text]
    } else {
        proof {
            lemma_line_end(text);
        }
        seq![without_return(text.take(line_end(text)))] + lines_of(text.skip(line_end(text) + 1))
    }
}

/// Every line is valid UTF-8.
pub open spec fn all_spelled(lines: Seq<Seq<u8>>) -> bool {
    forall|i: int| 0 <= i < lines.len() ==> valid_utf8(#[trigger] lines[i])
}

/// The texts that the lines spell.
pub open spec fn spelled(lines: Seq<Seq<u8>>) -> Seq<Seq<char>> {
    Seq::new(lines.len(), |i: int| decode_utf8(lines[i]))
}

/// The texts of a run of strings.
pub open spec fn texts(strings: Seq<String>) -> Seq<Seq<char>> {
    Seq::new(strings.len(), |i: int| strings[i]@)
}

/// The message of a text that is not valid UTF-8.
pub open spec fn not_text() -> Seq<char> {
    "stream did not contain valid UTF-8"@
}

/// The first line of a text ends within it, at a line feed or at the end,
/// and no line feed stands before that.
pub proof fn lemma_line_end(text: Seq<u8>)
    ensures
        0 <= line_end(text) <= text.len(),
        line_end(text) < text.len() ==> text[line_end(text)] == 0x0A,
        forall|k: int| 0 <= k < line_end(text) ==> text[k] != 0x0A,
    decreases text.len(),
{
    if text.len() == 0 || text[0] == 0x0A {
    } else {
        let rest = text.drop_first();
        lemma_line_end(rest);
        assert forall|k: int| 0 <= k < line_end(text) implies text[k] != 0x0A by {
            if k > 0 {
                assert(text[k] == rest[k - 1]);
            }
        }
    }
}

/// The first position at or behind `from` that holds a line feed, or the
/// length of the text.
fn find_line_end(text: &[u8], from: usize) -> (end: usize)
    requires
        from <= text@.len(),
    ensures
        end == from + line_end(text@.skip(from as int)),
        from <= end <= text@.len(),
{
    let mut end: usize = from;
    proof {
        lemma_line_end(text@.skip(from as int));
    }
    while end < text.len() && text[end] != 0x0A
        invariant
            from <= end <= text@.len(),
            line_end(text@.skip(from as int)) == (end - from) + line_end(text@.skip(end as int)),
        decreases text@.len() - end,
    {
        assert(text@.skip(end as int).drop_first() =~= text@.skip(end + 1));
        end = end + 1;
    }
    end
}

/// The lines of a text, each as a string. A text with a line that is not
/// valid UTF-8 is an input failure.
pub fn read_lines(text: &[u8]) -> (read: Result<Vec<String>, Error>)
    ensures
        match read {
            Ok(lines) => all_spelled(lines_of(text@)) && texts(lines@) == spelled(lines_of(text@)),
            Err(error) => !all_spelled(lines_of(text@)) && (error matches Error::IoError(message)
                && message@ == not_text()),
        },
{
    let mut lines: Vec<String> = Vec::new();
    let mut pos: usize = 0;
    let ghost mut done: Seq<Seq<u8>> = Seq::empty();
    assert(text@.skip(0) =~= text@);
    while pos < text.len()
        invariant
            pos <= text@.len(),
            lines_of(text@) == done + lines_of(text@.skip(pos as int)),
            all_spelled(done),
            texts(lines@) == spelled(done),
        decreases text@.len() - pos,
    {
        let ghost tail = text@.skip(pos as int);
        let end: usize = find_line_end(text, pos);
        let mut stop: usize = end;
        if end < text.len() && end > pos && text[end - 1] == 0x0D {
            stop = end - 1;
        }
        let line: Vec<u8> = vstd::slice::slice_to_vec(slice_subrange(text, pos, stop));
        let next: usize = if end < text.len() {
            end + 1
        } else {
            end
        };
        proof {
            let first = if line_end(tail) >= tail.len() {
                tail
            } else {
                without_return(tail.take(line_end(tail)))
            };
            assert(line@ =~= first);
            assert(lines_of(tail) =~= seq![first] + lines_of(text@.skip(next as int))) by {
                if line_end(tail) >= tail.len() {
                    assert(text@.skip(next as int) =~= Seq::<u8>::empty());
                } else {
                    assert(tail.skip(line_end(tail) + 1) =~= text@.skip(next as int));
                }
            }
            assert(lines_of(text@) =~= done.push(first) + lines_of(text@.skip(next as int)));
        }
        match text_of(line) {
            Some(name) => {
                let ghost before = lines@;
                let ghost earlier = done;
                proof {
                    assert(all_spelled(done.push(line@)));
                    done = done.push(line@);
                }
                lines.push(name);
                assert(texts(lines@) =~= spelled(done)) by {
                    assert(texts(before).len() == before.len());
                    assert(spelled(earlier).len() == earlier.len());
                    assert forall|k: int| 0 <= k < lines@.len() implies texts(lines@)[k] == spelled(
                        done,
                    )[k] by {
                        if k < before.len() {
                            assert(texts(before)[k] == spelled(earlier)[k]);
                        }
                    }
                }
            },
            None => {
                proof {
                    let all = lines_of(text@);
                    assert(all[done.len() as int] == line@);
                }
                return Err(Error::IoError(String::from_str("stream did not contain valid UTF-8")));
            },
        }
        pos = next;
    }
    proof {
        assert(lines_of(text@.skip(pos as int)) =~= Seq::<Seq<u8>>::empty());
        assert(lines_of(text@) =~= done);
    }
    Ok(lines)
}

/// One fresh entry per name, in the order given.
pub fn create_data(names: Vec<String>) -> (data: Vec<RelEntry>)
    ensures
        tallies(data@) == fresh_tallies(names@),
{
    let ghost all = names@;
    let mut data: Vec<RelEntry> = Vec::new();
    for name in it: names
        invariant
            it.seq() == all,
            tallies(data@) =~= fresh_tallies(all.take(it.index())),
    {
        let ghost before = tallies(data@);
        assert(name == all[it.index()]);
        data.push(RelEntry::new(name, 0, 0));
        assert(tallies(data@) =~= before.push(fresh_tally(all[it.index()]@)));
        assert(tallies(data@) =~= fresh_tallies(all.take(it.index() + 1)));
    }
    assert(all.take(all.len() as int) =~= all);
    data
}

} // verus!

//! The record format of the log: a four-byte little-endian length, then that
//! many bytes of payload. A log is read from the front, record by record, and
//! reading stops at the first record that is not wholly there.

use crate::error::StorageError;
use vstd::bytes::{
    lemma_auto_spec_u32_to_from_le_bytes, spec_u32_from_le_bytes, spec_u32_to_le_bytes,
    u32_from_le_bytes, u32_to_le_bytes,
};
use vstd::prelude::*;
use vstd::slice::{slice_subrange, slice_to_vec};

verus! {

/// Width of the length prefix of a record.
pub const PREFIX_LEN: usize = 4;

/// The payload length that the first four bytes announce.
pub open spec fn declared_len(bytes: Seq<u8>) -> int
    recommends
        bytes.len() >= 4,
{
    spec_u32_from_le_bytes(bytes.subrange(0, 4)) as int
}

/// Whether `bytes` starts with a whole record: a prefix and all of the
/// payload that it announces.
pub open spec fn has_record(bytes: Seq<u8>) -> bool {
    bytes.len() >= 4 && bytes.len() - 4 >= declared_len(bytes)
}

/// The payload of the first record.
pub open spec fn first_payload(bytes: Seq<u8>) -> Seq<u8>
    recommends
        has_record(bytes),
{
    bytes.subrange(4, 4 + declared_len(bytes))
}

/// What follows the first record.
pub open spec fn after_first(bytes: Seq<u8>) -> Seq<u8>
    recommends
        has_record(bytes),
{
    bytes.skip(4 + declared_len(bytes))
}

/// The payloads of the whole records at the front of `bytes`, in order.
pub open spec fn records(bytes: Seq<u8>) -> Seq<Seq<u8>>
    decreases bytes.len(),
{
    if has_record(bytes) {
        seq![first_payload(bytes)] + records(after_first(bytes))
    } else {
        Seq::empty()
    }
}

/// How many bytes the whole records at the front of `bytes` take.
pub open spec fn complete_len(bytes: Seq<u8>) -> int
    decreases bytes.len(),
{
    if has_record(bytes) {
        4 + declared_len(bytes) + complete_len(after_first(bytes))
    } else {
        0
    }
}

/// A log without a torn tail: whole records and nothing after them.
pub open spec fn is_whole(bytes: Seq<u8>) -> bool {
    complete_len(bytes) == bytes.len()
}

/// The record that carries `payload`.
pub open spec fn frame(payload: Seq<u8>) -> Seq<u8>
    recommends
        payload.len() <= u32::MAX,
{
    spec_u32_to_le_bytes(payload.len() as u32) + payload
}

/// The log that holds one record for each payload, in order.
pub open spec fn frames(payloads: Seq<Seq<u8>>) -> Seq<u8>
    decreases payloads.len(),
{
    if payloads.len() == 0 {
        Seq::empty()
    } else {
        frames(payloads.drop_last()) + frame(payloads.last())
    }
}

/// A record is four bytes longer than its payload.
pub proof fn lemma_frame_len(payload: Seq<u8>)
    ensures
        frame(payload).len() == 4 + payload.len(),
{
    lemma_auto_spec_u32_to_from_le_bytes();
}

/// A record followed by anything is read back as its payload, and reading
/// goes on right after it.
pub proof fn lemma_frame_is_first_record(payload: Seq<u8>, rest: Seq<u8>)
    requires
        payload.len() <= u32::MAX,
    ensures
        has_record(frame(payload) + rest),
        declared_len(frame(payload) + rest) == payload.len(),
        first_payload(frame(payload) + rest) == payload,
        after_first(frame(payload) + rest) == rest,
        records(frame(payload) + rest) == seq![payload] + records(rest),
        complete_len(frame(payload) + rest) == 4 + payload.len() + complete_len(rest),
{
    lemma_auto_spec_u32_to_from_le_bytes();
    let prefix = spec_u32_to_le_bytes(payload.len() as u32);
    let all = frame(payload) + rest;
    assert(all.subrange(0, 4) =~= prefix);
    assert(all.subrange(4, 4 + payload.len() as int) =~= payload);
    assert(all.skip(4 + payload.len() as int) =~= rest);
}

/// The front of a record, cut anywhere before its end, holds no record.
pub proof fn lemma_torn_frame_has_no_record(payload: Seq<u8>, kept: int)
    requires
        payload.len() <= u32::MAX,
        0 <= kept < 4 + payload.len(),
    ensures
        !has_record(frame(payload).take(kept)),
        records(frame(payload).take(kept)) == Seq::<Seq<u8>>::empty(),
        complete_len(frame(payload).take(kept)) == 0,
{
    lemma_auto_spec_u32_to_from_le_bytes();
    let prefix = spec_u32_to_le_bytes(payload.len() as u32);
    let torn = frame(payload).take(kept);
    if kept >= 4 {
        assert(torn.subrange(0, 4) =~= prefix);
    }
}

/// After a log without a torn tail, reading goes on as if from a fresh start.
pub proof fn lemma_records_after_whole(log: Seq<u8>, more: Seq<u8>)
    requires
        is_whole(log),
    ensures
        records(log + more) == records(log) + records(more),
        complete_len(log + more) == log.len() + complete_len(more),
    decreases log.len(),
{
    if has_record(log) {
        let n = declared_len(log);
        let all = log + more;
        assert(all.subrange(0, 4) =~= log.subrange(0, 4));
        assert(has_record(all));
        assert(first_payload(all) =~= first_payload(log));
        assert(after_first(all) =~= after_first(log) + more);
        lemma_records_after_whole(after_first(log), more);
        assert(records(all) =~= records(log) + records(more));
    } else {
        assert(log.len() == 0);
        assert(log + more =~= more);
    }
}

/// Appending one record to a log without a torn tail adds its payload at the
/// end of what is read, and leaves no torn tail.
pub proof fn lemma_append_frame(log: Seq<u8>, payload: Seq<u8>)
    requires
        is_whole(log),
        payload.len() <= u32::MAX,
    ensures
        records(log + frame(payload)) == records(log).push(payload),
        is_whole(log + frame(payload)),
{
    lemma_auto_spec_u32_to_from_le_bytes();
    lemma_frame_is_first_record(payload, Seq::empty());
    assert(frame(payload) + Seq::<u8>::empty() =~= frame(payload));
    lemma_records_after_whole(log, frame(payload));
    assert(records(log + frame(payload)) =~= records(log).push(payload));
}

/// A log written record by record is read back as the payloads written, and
/// has no torn tail.
pub proof fn lemma_records_of_frames(payloads: Seq<Seq<u8>>)
    requires
        forall|i: int| 0 <= i < payloads.len() ==> (#[trigger] payloads[i]).len() <= u32::MAX,
    ensures
        records(frames(payloads)) == payloads,
        is_whole(frames(payloads)),
    decreases payloads.len(),
{
    if payloads.len() > 0 {
        lemma_records_of_frames(payloads.drop_last());
        lemma_append_frame(frames(payloads.drop_last()), payloads.last());
        assert(payloads.drop_last().push(payloads.last()) =~= payloads);
    }
}

/// A record that was only partly written at the end of a log is not read:
/// the records before it are, and nothing else.
pub proof fn lemma_torn_tail_is_discarded(log: Seq<u8>, payload: Seq<u8>, kept: int)
    requires
        is_whole(log),
        payload.len() <= u32::MAX,
        0 <= kept < 4 + payload.len(),
    ensures
        records(log + frame(payload).take(kept)) == records(log),
        complete_len(log + frame(payload).take(kept)) == log.len(),
{
    lemma_torn_frame_has_no_record(payload, kept);
    lemma_records_after_whole(log, frame(payload).take(kept));
    assert(records(log) + Seq::<Seq<u8>>::empty() =~= records(log));
}

/// The whole records of a log end inside it; cut there, the log has no torn
/// tail and reads as before.
pub proof fn lemma_complete_prefix(bytes: Seq<u8>)
    ensures
        0 <= complete_len(bytes) <= bytes.len(),
        is_whole(bytes.take(complete_len(bytes))),
        records(bytes.take(complete_len(bytes))) == records(bytes),
    decreases bytes.len(),
{
    let cut = complete_len(bytes);
    if has_record(bytes) {
        let rest = after_first(bytes);
        lemma_complete_prefix(rest);
        let kept = bytes.take(cut);
        assert(kept.subrange(0, 4) =~= bytes.subrange(0, 4));
        assert(has_record(kept));
        assert(first_payload(kept) =~= first_payload(bytes));
        assert(after_first(kept) =~= rest.take(complete_len(rest)));
    } else {
        assert(bytes.take(0).len() == 0);
    }
}

/// Cutting a log anywhere loses records only from the end: what is read from
/// the front part is the start of what is read from all of it, and it is all
/// of it where the cut falls behind the last whole record.
pub proof fn lemma_records_of_prefix(bytes: Seq<u8>, cut: int)
    requires
        0 <= cut <= bytes.len(),
    ensures
        records(bytes.take(cut)).len() <= records(bytes).len(),
        records(bytes.take(cut)) == records(bytes).take(records(bytes.take(cut)).len() as int),
        complete_len(bytes) <= cut ==> records(bytes.take(cut)) == records(bytes),
    decreases bytes.len(),
{
    let front = bytes.take(cut);
    if has_record(front) {
        assert(front.subrange(0, 4) =~= bytes.subrange(0, 4));
        let n = declared_len(bytes);
        assert(has_record(bytes));
        assert(first_payload(front) =~= first_payload(bytes));
        assert(after_first(front) =~= after_first(bytes).take(cut - 4 - n));
        lemma_records_of_prefix(after_first(bytes), cut - 4 - n);
        assert(records(front) =~= records(bytes).take(records(front).len() as int));
    } else {
        assert(records(front) =~= records(bytes).take(0));
        if has_record(bytes) && complete_len(bytes) <= cut {
            lemma_complete_prefix(after_first(bytes));
            assert(front.subrange(0, 4) =~= bytes.subrange(0, 4));
        }
    }
}

/// The payloads that a vector of byte vectors holds.
pub open spec fn payload_views(payloads: Seq<Vec<u8>>) -> Seq<Seq<u8>> {
    payloads.map_values(|p: Vec<u8>| p@)
}

/// Finds where the whole records at the front of `bytes` end, without
/// copying any payload.
pub fn complete_prefix_len(bytes: &[u8]) -> (end: usize)
    ensures
        end == complete_len(bytes@),
        end <= bytes@.len(),
{
    let mut pos: usize = 0;
    assert(bytes@.skip(0) =~= bytes@);
    loop
        invariant
            pos <= bytes@.len(),
            complete_len(bytes@) == pos + complete_len(bytes@.skip(pos as int)),
        ensures
            pos <= bytes@.len(),
            pos == complete_len(bytes@),
        decreases bytes@.len() - pos,
    {
        let ghost rest = bytes@.skip(pos as int);
        if bytes.len() - pos < PREFIX_LEN {
            break ;
        }
        let prefix = slice_subrange(bytes, pos, pos + PREFIX_LEN);
        assert(prefix@ =~= rest.subrange(0, 4));
        let declared = u32_from_le_bytes(prefix) as usize;
        if bytes.len() - pos - PREFIX_LEN < declared {
            break ;
        }
        assert(bytes@.skip(pos + PREFIX_LEN + declared) =~= after_first(rest));
        pos = pos + PREFIX_LEN + declared;
    }
    pos
}

/// Builds the record that carries `payload`. A payload whose length does not
/// fit the four-byte prefix cannot be written.
pub fn encode_frame(payload: &[u8]) -> (r: Result<Vec<u8>, StorageError>)
    ensures
        payload@.len() <= u32::MAX ==> r is Ok && r->Ok_0@ == frame(payload@) && r->Ok_0@.len()
            == 4 + payload@.len(),
        payload@.len() > u32::MAX ==> r == Err::<Vec<u8>, StorageError>(
            StorageError::Serialization,
        ),
{
    if payload.len() > 0xffff_ffff {
        return Err(StorageError::Serialization);
    }
    proof {
        lemma_frame_len(payload@);
    }
    let mut out = u32_to_le_bytes(payload.len() as u32);
    let ghost prefix = out@;
    out.extend_from_slice(payload);
    assert(out@ =~= prefix + payload@);
    Ok(out)
}

/// Reads the whole records at the front of `bytes`. Returns their payloads in
/// order, and the number of bytes they take; what lies beyond that number is
/// a torn tail, which is left out.
pub fn parse_records(bytes: &[u8]) -> (r: (Vec<Vec<u8>>, usize))
    ensures
        payload_views(r.0@) == records(bytes@),
        r.1 == complete_len(bytes@),
        r.1 <= bytes@.len(),
{
    let mut out: Vec<Vec<u8>> = Vec::new();
    let mut pos: usize = 0;
    assert(bytes@.skip(0) =~= bytes@);
    assert(payload_views(out@) =~= Seq::<Seq<u8>>::empty());
    loop
        invariant
            pos <= bytes@.len(),
            records(bytes@) == payload_views(out@) + records(bytes@.skip(pos as int)),
            complete_len(bytes@) == pos + complete_len(bytes@.skip(pos as int)),
        ensures
            pos <= bytes@.len(),
            payload_views(out@) == records(bytes@),
            pos == complete_len(bytes@),
        decreases bytes@.len() - pos,
    {
        let ghost rest = bytes@.skip(pos as int);
        if bytes.len() - pos < PREFIX_LEN {
            assert(!has_record(rest));
            assert(payload_views(out@) + Seq::<Seq<u8>>::empty() =~= payload_views(out@));
            break ;
        }
        let prefix = slice_subrange(bytes, pos, pos + PREFIX_LEN);
        assert(prefix@ =~= rest.subrange(0, 4));
        let declared = u32_from_le_bytes(prefix) as usize;
        if bytes.len() - pos - PREFIX_LEN < declared {
            assert(!has_record(rest));
            assert(payload_views(out@) + Seq::<Seq<u8>>::empty() =~= payload_views(out@));
            break ;
        }
        let start = pos + PREFIX_LEN;
        let payload = slice_to_vec(slice_subrange(bytes, start, start + declared));
        assert(has_record(rest));
        assert(payload@ =~= first_payload(rest));
        assert(bytes@.skip(start + declared) =~= after_first(rest));
        let ghost before = payload_views(out@);
        out.push(payload);
        assert(payload_views(out@) =~= before.push(first_payload(rest)));
        assert(before.push(first_payload(rest)) + records(after_first(rest)) =~= before + records(
            rest,
        ));
        pos = start + declared;
    }
    (out, pos)
}

} // verus!

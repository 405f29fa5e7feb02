//! Laws of the two codecs, stated over their spec-level definitions and
//! proved once and for all: opcode involution, identity on non-row events,
//! the update pair swap, budget enforcement, and the variable-length string
//! size.
use vstd::prelude::*;

verus! {

use crate::BinlogError;
use crate::bytes::{le_val, spec_varint};
use crate::jsonb::{
    spec_jsonb, JsonVal, container_word, JSONB_SMALL_OBJECT, JSONB_LARGE_OBJECT, JSONB_SMALL_ARRAY,
    JSONB_LARGE_ARRAY, JSONB_STRING,
};
use crate::rollback::{
    spec_rollback, spec_rows, spec_record_cols, BinlogEvent, EventHeader, TableMap, WRITE_EVENT_V2,
    DELETE_EVENT_V2,
};

/// Rewriting a delete event, then rewriting the result (now a write event),
/// restores the original bytes exactly.
pub proof fn lemma_delete_involution(s: Seq<u8>, hd: EventHeader, hw: EventHeader, map: TableMap)
    requires
        s.len() >= 5,
        hd.type_code == BinlogEvent::DeleteEvent,
        hw.type_code == BinlogEvent::WriteEvent,
        s[4] == DELETE_EVENT_V2,
    ensures
        spec_rollback(s, hd, map) matches Ok(w) && spec_rollback(w, hw, map) == Ok::<
            Seq<u8>,
            BinlogError,
        >(s),
{
    let w = s.update(4, WRITE_EVENT_V2);
    assert(w.update(4, DELETE_EVENT_V2) =~= s);
}

/// Rewriting a write event, then rewriting the result (now a delete event),
/// restores the original bytes exactly.
pub proof fn lemma_write_involution(s: Seq<u8>, hw: EventHeader, hd: EventHeader, map: TableMap)
    requires
        s.len() >= 5,
        hw.type_code == BinlogEvent::WriteEvent,
        hd.type_code == BinlogEvent::DeleteEvent,
        s[4] == WRITE_EVENT_V2,
    ensures
        spec_rollback(s, hw, map) matches Ok(d) && spec_rollback(d, hd, map) == Ok::<
            Seq<u8>,
            BinlogError,
        >(s),
{
    let d = s.update(4, DELETE_EVENT_V2);
    assert(d.update(4, WRITE_EVENT_V2) =~= s);
}

/// Events outside the write/update/delete kinds are returned unchanged.
pub proof fn lemma_non_row_identity(s: Seq<u8>, h: EventHeader, map: TableMap)
    requires
        h.type_code == BinlogEvent::OtherEvent,
    ensures
        spec_rollback(s, h, map) == Ok::<Seq<u8>, BinlogError>(s),
{
}

/// A root container whose header declares a byte size larger than the
/// remaining budget is rejected as corrupt, whatever follows the header.
pub proof fn lemma_budget_enforced(s: Seq<u8>, budget: nat)
    requires
        s.len() >= 1,
        s[0] == JSONB_SMALL_OBJECT || s[0] == JSONB_LARGE_OBJECT || s[0] == JSONB_SMALL_ARRAY
            || s[0] == JSONB_LARGE_ARRAY,
        budget >= 1,
        1 + 2 * container_word(s[0] == JSONB_LARGE_OBJECT || s[0] == JSONB_LARGE_ARRAY) <= s.len(),
        le_val(
            s,
            1 + container_word(s[0] == JSONB_LARGE_OBJECT || s[0] == JSONB_LARGE_ARRAY) as int,
            container_word(s[0] == JSONB_LARGE_OBJECT || s[0] == JSONB_LARGE_ARRAY),
        ) > budget - 1,
    ensures
        spec_jsonb(s, budget) == Err::<(JsonVal, int), BinlogError>(BinlogError::CorruptPayload),
{
}

/// A string tag whose length prefix encodes 300 decodes to exactly the 300
/// payload bytes after the prefix.
pub proof fn lemma_varlen_string_length(s: Seq<u8>, budget: nat)
    requires
        s.len() == 303,
        s[0] == JSONB_STRING,
        s[1] == 0xac,
        s[2] == 0x02,
        budget >= 1,
    ensures
        spec_jsonb(s, budget) matches Ok(p) && p.0 == JsonVal::Str(s.subrange(3, 303))
            && p.0->Str_0.len() == 300,
{
    assert(spec_varint(s, 1) == Some((300 as nat, 3int))) by {
        reveal_with_fuel(spec_varint, 3);
    }
}

/// For an update whose row region holds exactly two before/after pairs, the
/// rewritten region is after1, before1, after2, before2 — each record's
/// bytes kept exactly — followed by the unchanged trailing bytes.
pub proof fn lemma_update_swap_pairs(
    s: Seq<u8>,
    map: TableMap,
    event_length: int,
    cols_var: int,
    p0: int,
    p1: int,
    p2: int,
    p3: int,
    p4: int,
)
    requires
        cols_var >= 1,
        0 <= p0,
        p0 + cols_var <= s.len(),
        p1 + cols_var <= s.len(),
        p2 + cols_var <= s.len(),
        p3 + cols_var <= s.len(),
        spec_record_cols(s, p0 + cols_var, map, 0, p0, cols_var) == Ok::<int, BinlogError>(p1),
        spec_record_cols(s, p1 + cols_var, map, 0, p1, cols_var) == Ok::<int, BinlogError>(p2),
        spec_record_cols(s, p2 + cols_var, map, 0, p2, cols_var) == Ok::<int, BinlogError>(p3),
        spec_record_cols(s, p3 + cols_var, map, 0, p3, cols_var) == Ok::<int, BinlogError>(p4),
        p1 + 4 <= event_length,
        p2 + 4 <= event_length,
        p3 + 4 <= event_length,
        p4 + 4 > event_length,
    ensures
        spec_rows(s, p0, map, event_length, cols_var, None) == Ok::<Seq<u8>, BinlogError>(
            s.subrange(p1, p2) + s.subrange(p0, p1) + s.subrange(p3, p4) + s.subrange(p2, p3)
                + s.subrange(p4, s.len() as int),
        ),
{
    crate::rollback::lemma_record_cols_bounds(s, p0 + cols_var, map, 0, p0, cols_var);
    crate::rollback::lemma_record_cols_bounds(s, p1 + cols_var, map, 0, p1, cols_var);
    crate::rollback::lemma_record_cols_bounds(s, p2 + cols_var, map, 0, p2, cols_var);
    crate::rollback::lemma_record_cols_bounds(s, p3 + cols_var, map, 0, p3, cols_var);
    let rec0 = s.subrange(p0, p1);
    let rec1 = s.subrange(p1, p2);
    let rec2 = s.subrange(p2, p3);
    let rec3 = s.subrange(p3, p4);
    let tail = s.subrange(p4, s.len() as int);
    assert(spec_rows(s, p3, map, event_length, cols_var, Some(rec2)) == Ok::<Seq<u8>, BinlogError>(
        (rec3 + rec2) + tail,
    ));
    assert(spec_rows(s, p2, map, event_length, cols_var, None) == Ok::<Seq<u8>, BinlogError>(
        Seq::<u8>::empty() + ((rec3 + rec2) + tail),
    ));
    assert(spec_rows(s, p1, map, event_length, cols_var, Some(rec0)) == Ok::<Seq<u8>, BinlogError>(
        (rec1 + rec0) + (Seq::<u8>::empty() + ((rec3 + rec2) + tail)),
    ));
    assert(spec_rows(s, p0, map, event_length, cols_var, None) == Ok::<Seq<u8>, BinlogError>(
        Seq::<u8>::empty() + ((rec1 + rec0) + (Seq::<u8>::empty() + ((rec3 + rec2) + tail))),
    ));
    assert(Seq::<u8>::empty() + ((rec1 + rec0) + (Seq::<u8>::empty() + ((rec3 + rec2) + tail)))
        =~= rec1 + rec0 + rec3 + rec2 + tail);
}

} // verus!


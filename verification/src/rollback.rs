//! Row-event rollback rewriter: builds the byte-for-byte inverse of a
//! replication row event. Write and delete events swap opcodes; update
//! events swap every before-image/after-image record pair, which requires
//! walking the column stream with the per-type on-wire widths. The spec
//! functions are the definition of the rewrite; the executable code is
//! proved to follow them.
use vstd::prelude::*;

verus! {

use crate::BinlogError;
use crate::bytes::le_val;
use crate::bytes::read_le_uint;
use vstd::pervasive::VecAdditionalExecFns;
use vstd::slice::slice_subrange;
use vstd::slice::slice_to_vec;

/// Opcode written for a write (insert) event, at byte 4 of the header.
pub const WRITE_EVENT_V2: u8 = 30;

/// Opcode written for a delete event, at byte 4 of the header.
pub const DELETE_EVENT_V2: u8 = 32;

/// The row-event kinds the rewriter distinguishes.
#[derive(Clone, Copy, Debug, PartialEq, Eq, Structural)]
pub enum BinlogEvent {
    WriteEvent,
    UpdateEvent,
    DeleteEvent,
    OtherEvent,
}

/// The part of a parsed event header the rewriter reads.
#[derive(Clone, Copy, Debug, PartialEq, Eq, Structural)]
pub struct EventHeader {
    pub type_code: BinlogEvent,
    pub event_length: u32,
}

/// Column type codes of the table map, restricted to the closed enumeration
/// the rewriter knows; anything else is `MysqlTypeOther`.
#[derive(Clone, Copy, Debug, PartialEq, Eq, Structural)]
pub enum ColumnTypeDict {
    MysqlTypeTiny,
    MysqlTypeShort,
    MysqlTypeInt24,
    MysqlTypeLong,
    MysqlTypeLonglong,
    MysqlTypeFloat,
    MysqlTypeDouble,
    MysqlTypeYear,
    MysqlTypeDate,
    MysqlTypeTimestamp2,
    MysqlTypeDatetime2,
    MysqlTypeTime2,
    MysqlTypeNewdecimal,
    MysqlTypeEnum,
    MysqlTypeSet,
    MysqlTypeVarString,
    MysqlTypeVarchar,
    MysqlTypeBlob,
    MysqlTypeTinyBlob,
    MysqlTypeMediumBlob,
    MysqlTypeLongBlob,
    MysqlTypeBit,
    MysqlTypeJson,
    MysqlTypeString,
    MysqlTypeOther,
}

/// One column of the table map: its type code and its metadata words.
pub struct ColumnInfo {
    pub column_type: ColumnTypeDict,
    pub column_meta: Vec<usize>,
}

/// Ordered column descriptors of the table a row event belongs to.
pub struct TableMap {
    pub column_info: Vec<ColumnInfo>,
}

/// Fractional-second byte width for a temporal column's precision.
pub open spec fn spec_fsp(column: u8) -> u8 {
    if column == 0 {
        0
    } else if column == 1 || column == 2 {
        1
    } else if column == 3 || column == 4 {
        2
    } else if column == 5 || column == 6 {
        3
    } else {
        0
    }
}

/// Bytes a short group of `d` decimal digits occupies in a new-decimal.
pub open spec fn spec_dig2bytes(d: int) -> int {
    if d == 0 {
        0
    } else if d == 1 || d == 2 {
        1
    } else if d == 3 || d == 4 {
        2
    } else if d == 5 || d == 6 {
        3
    } else {
        4
    }
}

/// Binary size of a new-decimal with the given precision and scale: full
/// groups of nine digits take four bytes, the remainders a short group each.
pub open spec fn spec_decimal_bytes(precision: int, scale: int) -> int {
    let intg = precision - scale;
    (intg / 9) * 4 + spec_dig2bytes(intg % 9) + (scale / 9) * 4 + spec_dig2bytes(scale % 9)
}

/// Total bytes (any length prefix included) that the column value at `pos`
/// occupies, by column type and metadata, or the error when the metadata is
/// invalid, the type is unknown, or the buffer is too short.
pub open spec fn spec_col_span(s: Seq<u8>, pos: int, ty: ColumnTypeDict, meta: Seq<usize>) -> Result<
    int,
    BinlogError,
> {
    match ty {
        ColumnTypeDict::MysqlTypeTiny => spec_fixed_span(s, pos, 1),
        ColumnTypeDict::MysqlTypeShort => spec_fixed_span(s, pos, 2),
        ColumnTypeDict::MysqlTypeInt24 => spec_fixed_span(s, pos, 3),
        ColumnTypeDict::MysqlTypeLong => spec_fixed_span(s, pos, 4),
        ColumnTypeDict::MysqlTypeLonglong => spec_fixed_span(s, pos, 8),
        ColumnTypeDict::MysqlTypeYear => spec_fixed_span(s, pos, 1),
        ColumnTypeDict::MysqlTypeDate => spec_fixed_span(s, pos, 3),
        ColumnTypeDict::MysqlTypeFloat | ColumnTypeDict::MysqlTypeDouble => if meta.len() < 1 {
            Err(BinlogError::MalformedEvent)
        } else if meta[0] == 8 {
            spec_fixed_span(s, pos, 8)
        } else if meta[0] == 4 {
            spec_fixed_span(s, pos, 4)
        } else {
            Err(BinlogError::MalformedEvent)
        },
        ColumnTypeDict::MysqlTypeTimestamp2 => if meta.len() < 1 {
            Err(BinlogError::MalformedEvent)
        } else {
            spec_fixed_span(s, pos, 4 + spec_fsp((meta[0] % 256) as u8))
        },
        ColumnTypeDict::MysqlTypeDatetime2 => if meta.len() < 1 {
            Err(BinlogError::MalformedEvent)
        } else {
            spec_fixed_span(s, pos, 5 + spec_fsp((meta[0] % 256) as u8))
        },
        ColumnTypeDict::MysqlTypeTime2 => if meta.len() < 1 {
            Err(BinlogError::MalformedEvent)
        } else {
            spec_fixed_span(s, pos, 3 + spec_fsp((meta[0] % 256) as u8))
        },
        ColumnTypeDict::MysqlTypeNewdecimal => if meta.len() < 2 {
            Err(BinlogError::MalformedEvent)
        } else if meta[1] % 256 > meta[0] % 256 {
            Err(BinlogError::MalformedEvent)
        } else {
            spec_fixed_span(
                s,
                pos,
                spec_decimal_bytes((meta[0] % 256) as int, (meta[1] % 256) as int),
            )
        },
        ColumnTypeDict::MysqlTypeEnum | ColumnTypeDict::MysqlTypeSet => if meta.len() < 1 {
            Err(BinlogError::MalformedEvent)
        } else if meta[0] == 1 {
            spec_fixed_span(s, pos, 1)
        } else if meta[0] == 2 {
            spec_fixed_span(s, pos, 2)
        } else {
            Err(BinlogError::MalformedEvent)
        },
        ColumnTypeDict::MysqlTypeVarString | ColumnTypeDict::MysqlTypeVarchar
            | ColumnTypeDict::MysqlTypeBlob | ColumnTypeDict::MysqlTypeTinyBlob
            | ColumnTypeDict::MysqlTypeMediumBlob | ColumnTypeDict::MysqlTypeLongBlob
            | ColumnTypeDict::MysqlTypeBit | ColumnTypeDict::MysqlTypeJson => if meta.len() < 1 {
            Err(BinlogError::MalformedEvent)
        } else if meta[0] < 1 || meta[0] > 8 {
            Err(BinlogError::MalformedEvent)
        } else if pos + meta[0] > s.len() {
            Err(BinlogError::MalformedEvent)
        } else {
            let plen = le_val(s, pos, meta[0] as nat) as int;
            if pos + meta[0] + plen > s.len() {
                Err(BinlogError::MalformedEvent)
            } else {
                Ok(meta[0] + plen)
            }
        },
        ColumnTypeDict::MysqlTypeString => if meta.len() < 1 {
            Err(BinlogError::MalformedEvent)
        } else if meta[0] <= 255 {
            if pos + 1 > s.len() {
                Err(BinlogError::MalformedEvent)
            } else if pos + 1 + s[pos] > s.len() {
                Err(BinlogError::MalformedEvent)
            } else {
                Ok(1 + s[pos])
            }
        } else {
            if pos + 2 > s.len() {
                Err(BinlogError::MalformedEvent)
            } else if pos + 2 + le_val(s, pos, 2) > s.len() {
                Err(BinlogError::MalformedEvent)
            } else {
                Ok(2 + le_val(s, pos, 2) as int)
            }
        },
        ColumnTypeDict::MysqlTypeOther => Err(BinlogError::UnknownType),
    }
}

/// A fixed-width value: `w` bytes, or a truncation error.
pub open spec fn spec_fixed_span(s: Seq<u8>, pos: int, w: int) -> Result<int, BinlogError> {
    if pos + w > s.len() {
        Err(BinlogError::MalformedEvent)
    } else {
        Ok(w)
    }
}

/// Whether column `idx` is marked NULL in the record's bitmap at `npos`.
pub open spec fn spec_is_null(s: Seq<u8>, npos: int, idx: int) -> bool {
    (s[npos + idx / 8] >> ((idx % 8) as u8)) & 1 != 0
}

/// End position of a record's packed column values: starting at `pos`,
/// every column of the table map that is not NULL in the record's bitmap
/// (at `npos`, `nlen` bytes) contributes its span, in column order.
pub open spec fn spec_record_cols(
    s: Seq<u8>,
    pos: int,
    map: TableMap,
    i: int,
    npos: int,
    nlen: int,
) -> Result<int, BinlogError>
    decreases map.column_info@.len() - i,
{
    if i >= map.column_info@.len() {
        Ok(pos)
    } else if i / 8 >= nlen {
        Err(BinlogError::MalformedEvent)
    } else if spec_is_null(s, npos, i) {
        spec_record_cols(s, pos, map, i + 1, npos, nlen)
    } else {
        match spec_col_span(s, pos, map.column_info@[i].column_type, map.column_info@[i].column_meta@) {
            Err(e) => Err(e),
            Ok(w) => spec_record_cols(s, pos + w, map, i + 1, npos, nlen),
        }
    }
}

/// A column span is never negative and never runs past the buffer.
proof fn lemma_col_span_bounds(s: Seq<u8>, pos: int, ty: ColumnTypeDict, meta: Seq<usize>)
    ensures
        spec_col_span(s, pos, ty, meta) matches Ok(w) ==> 0 <= w && pos + w <= s.len(),
{
}

/// A record's column walk only moves the position forward, at most to the
/// end of the buffer.
pub(crate) proof fn lemma_record_cols_bounds(s: Seq<u8>, pos: int, map: TableMap, i: int, npos: int, nlen: int)
    requires
        pos <= s.len(),
    ensures
        spec_record_cols(s, pos, map, i, npos, nlen) matches Ok(end) ==> pos <= end <= s.len(),
    decreases map.column_info@.len() - i,
{
    if i < map.column_info@.len() && i / 8 < nlen {
        if spec_is_null(s, npos, i) {
            lemma_record_cols_bounds(s, pos, map, i + 1, npos, nlen);
        } else {
            match spec_col_span(s, pos, map.column_info@[i].column_type, map.column_info@[i].column_meta@) {
                Err(_) => {},
                Ok(w) => {
                    lemma_col_span_bounds(s, pos, map.column_info@[i].column_type, map.column_info@[i].column_meta@);
                    lemma_record_cols_bounds(s, pos + w, map, i + 1, npos, nlen);
                },
            }
        }
    }
}

/// The rewritten row region from `pos` on: records are read in before/after
/// order and emitted in after/before order; the trailing bytes (commonly the
/// checksum) follow the last pair unchanged. An unpaired final record is a
/// malformed event.
pub open spec fn spec_rows(
    s: Seq<u8>,
    pos: int,
    map: TableMap,
    event_length: int,
    cols_var: int,
    pending: Option<Seq<u8>>,
) -> Result<Seq<u8>, BinlogError>
    decreases s.len() - pos,
    via spec_rows_decreases
{
    if cols_var < 1 || pos < 0 || pos + cols_var > s.len() {
        Err(BinlogError::MalformedEvent)
    } else {
        match spec_record_cols(s, pos + cols_var, map, 0, pos, cols_var) {
            Err(e) => Err(e),
            Ok(end) => {
                let record = s.subrange(pos, end);
                let emit = match pending {
                    None => Seq::<u8>::empty(),
                    Some(before) => record + before,
                };
                let pending2 = match pending {
                    None => Some(record),
                    Some(_) => None,
                };
                if end + 4 > event_length {
                    if pending2 is Some {
                        Err(BinlogError::MalformedEvent)
                    } else {
                        Ok(emit + s.subrange(end, s.len() as int))
                    }
                } else {
                    match spec_rows(s, end, map, event_length, cols_var, pending2) {
                        Err(e) => Err(e),
                        Ok(rest) => Ok(emit + rest),
                    }
                }
            },
        }
    }
}

#[via_fn]
proof fn spec_rows_decreases(
    s: Seq<u8>,
    pos: int,
    map: TableMap,
    event_length: int,
    cols_var: int,
    pending: Option<Seq<u8>>,
) {
    if cols_var >= 1 && pos >= 0 && pos + cols_var <= s.len() {
        lemma_record_cols_bounds(s, pos + cols_var, map, 0, pos, cols_var);
    }
}

/// The rewritten update event: the header, post-header, extras, column
/// count and presence bitmaps are copied, then the row region is rewritten
/// with each before/after pair swapped.
pub open spec fn spec_update_rewrite(s: Seq<u8>, map: TableMap, event_length: int) -> Result<
    Seq<u8>,
    BinlogError,
> {
    if s.len() < 29 {
        Err(BinlogError::MalformedEvent)
    } else {
        let a = le_val(s, 27, 2) as int;
        let extra = if a > 2 {
            a - 2
        } else {
            0
        };
        let cpos = 29 + extra;
        if cpos + 1 > s.len() {
            Err(BinlogError::MalformedEvent)
        } else {
            let cols = s[cpos] as int;
            if cols == 0 {
                Err(BinlogError::MalformedEvent)
            } else {
                let cols_var = (cols + 7) / 8;
                let rows_start = cpos + 1 + 2 * cols_var;
                if rows_start > s.len() {
                    Err(BinlogError::MalformedEvent)
                } else {
                    match spec_rows(s, rows_start, map, event_length, cols_var, None) {
                        Err(e) => Err(e),
                        Ok(rest) => Ok(s.subrange(0, rows_start) + rest),
                    }
                }
            }
        }
    }
}

/// The rewritten event: delete and write events swap opcodes at byte 4,
/// update events swap their record pairs, and any other event is returned
/// unchanged.
pub open spec fn spec_rollback(s: Seq<u8>, header: EventHeader, map: TableMap) -> Result<
    Seq<u8>,
    BinlogError,
> {
    match header.type_code {
        BinlogEvent::UpdateEvent => spec_update_rewrite(s, map, header.event_length as int),
        BinlogEvent::DeleteEvent => if s.len() >= 5 {
            Ok(s.update(4, WRITE_EVENT_V2))
        } else {
            Err(BinlogError::MalformedEvent)
        },
        BinlogEvent::WriteEvent => if s.len() >= 5 {
            Ok(s.update(4, DELETE_EVENT_V2))
        } else {
            Err(BinlogError::MalformedEvent)
        },
        BinlogEvent::OtherEvent => Ok(s),
    }
}

/// Fractional-second byte width for a temporal column's precision.
pub fn read_datetime_fsp(column: u8) -> (r: u8)
    ensures
        r == spec_fsp(column),
{
    match column {
        0 => 0,
        1 | 2 => 1,
        3 | 4 => 2,
        5 | 6 => 3,
        _ => 0,
    }
}

/// Bytes a short group of `d` decimal digits occupies in a new-decimal.
fn dig2bytes(d: usize) -> (r: usize)
    requires
        d < 9,
    ensures
        r == spec_dig2bytes(d as int),
{
    match d {
        0 => 0,
        1 | 2 => 1,
        3 | 4 => 2,
        5 | 6 => 3,
        _ => 4,
    }
}

/// Fresh, empty before- and after-record accumulators.
pub fn tmp_var() -> (r: (Vec<u8>, Vec<u8>))
    ensures
        r.0@ == Seq::<u8>::empty(),
        r.1@ == Seq::<u8>::empty(),
{
    (Vec::new(), Vec::new())
}

/// Total bytes of the column value at `pos` (any length prefix included).
#[verifier::rlimit(100)]
fn col_span(bytes: &[u8], pos: usize, ty: &ColumnTypeDict, meta: &Vec<usize>) -> (r: Result<
    usize,
    BinlogError,
>)
    requires
        pos <= bytes@.len(),
    ensures
        match r {
            Ok(w) => spec_col_span(bytes@, pos as int, *ty, meta@) == Ok::<int, BinlogError>(
                w as int,
            ) && pos + w <= bytes@.len(),
            Err(e) => spec_col_span(bytes@, pos as int, *ty, meta@) == Err::<int, BinlogError>(e),
        },
{
    let blen = bytes.len();
    let w: usize = match ty {
        ColumnTypeDict::MysqlTypeTiny => 1,
        ColumnTypeDict::MysqlTypeShort => 2,
        ColumnTypeDict::MysqlTypeInt24 => 3,
        ColumnTypeDict::MysqlTypeLong => 4,
        ColumnTypeDict::MysqlTypeLonglong => 8,
        ColumnTypeDict::MysqlTypeYear => 1,
        ColumnTypeDict::MysqlTypeDate => 3,
        ColumnTypeDict::MysqlTypeFloat | ColumnTypeDict::MysqlTypeDouble => {
            if meta.len() < 1 {
                return Err(BinlogError::MalformedEvent);
            }
            if meta[0] == 8 {
                8
            } else if meta[0] == 4 {
                4
            } else {
                return Err(BinlogError::MalformedEvent);
            }
        },
        ColumnTypeDict::MysqlTypeTimestamp2 => {
            if meta.len() < 1 {
                return Err(BinlogError::MalformedEvent);
            }
            4 + read_datetime_fsp((meta[0] % 256) as u8) as usize
        },
        ColumnTypeDict::MysqlTypeDatetime2 => {
            if meta.len() < 1 {
                return Err(BinlogError::MalformedEvent);
            }
            5 + read_datetime_fsp((meta[0] % 256) as u8) as usize
        },
        ColumnTypeDict::MysqlTypeTime2 => {
            if meta.len() < 1 {
                return Err(BinlogError::MalformedEvent);
            }
            3 + read_datetime_fsp((meta[0] % 256) as u8) as usize
        },
        ColumnTypeDict::MysqlTypeNewdecimal => {
            if meta.len() < 2 {
                return Err(BinlogError::MalformedEvent);
            }
            let p = meta[0] % 256;
            let sc = meta[1] % 256;
            if sc > p {
                return Err(BinlogError::MalformedEvent);
            }
            let intg = p - sc;
            (intg / 9) * 4 + dig2bytes(intg % 9) + (sc / 9) * 4 + dig2bytes(sc % 9)
        },
        ColumnTypeDict::MysqlTypeEnum | ColumnTypeDict::MysqlTypeSet => {
            if meta.len() < 1 {
                return Err(BinlogError::MalformedEvent);
            }
            if meta[0] == 1 {
                1
            } else if meta[0] == 2 {
                2
            } else {
                return Err(BinlogError::MalformedEvent);
            }
        },
        ColumnTypeDict::MysqlTypeVarString | ColumnTypeDict::MysqlTypeVarchar
            | ColumnTypeDict::MysqlTypeBlob | ColumnTypeDict::MysqlTypeTinyBlob
            | ColumnTypeDict::MysqlTypeMediumBlob | ColumnTypeDict::MysqlTypeLongBlob
            | ColumnTypeDict::MysqlTypeBit | ColumnTypeDict::MysqlTypeJson => {
            if meta.len() < 1 {
                return Err(BinlogError::MalformedEvent);
            }
            let lb = meta[0];
            if lb < 1 || lb > 8 {
                return Err(BinlogError::MalformedEvent);
            }
            let (plen, _) = match read_le_uint(bytes, pos, lb) {
                Some(p) => p,
                None => {
                    return Err(BinlogError::MalformedEvent);
                },
            };
            if plen > (blen - (pos + lb)) as u64 {
                return Err(BinlogError::MalformedEvent);
            }
            lb + (plen as usize)
        },
        ColumnTypeDict::MysqlTypeString => {
            if meta.len() < 1 {
                return Err(BinlogError::MalformedEvent);
            }
            if meta[0] <= 255 {
                if pos >= blen {
                    return Err(BinlogError::MalformedEvent);
                }
                let plen = bytes[pos] as usize;
                if plen > blen - (pos + 1) {
                    return Err(BinlogError::MalformedEvent);
                }
                1 + plen
            } else {
                let (plen, _) = match read_le_uint(bytes, pos, 2) {
                    Some(p) => p,
                    None => {
                        return Err(BinlogError::MalformedEvent);
                    },
                };
                if plen > (blen - (pos + 2)) as u64 {
                    return Err(BinlogError::MalformedEvent);
                }
                2 + (plen as usize)
            }
        },
        ColumnTypeDict::MysqlTypeOther => {
            return Err(BinlogError::UnknownType);
        },
    };
    if w > blen - pos {
        return Err(BinlogError::MalformedEvent);
    }
    Ok(w)
}

/// Reads a column's length prefix of `meta` bytes at `pos`: the prefix
/// bytes themselves and the payload length they encode.
pub fn read_str_value_length(bytes: &[u8], pos: usize, meta: usize) -> (r: Result<
    (Vec<u8>, u64),
    BinlogError,
>)
    requires
        pos <= bytes@.len(),
    ensures
        match r {
            Ok(p) => 1 <= meta <= 8 && pos + meta <= bytes@.len() && p.0@ == bytes@.subrange(
                pos as int,
                pos + meta,
            ) && p.1 == le_val(bytes@, pos as int, meta as nat),
            Err(e) => e == BinlogError::MalformedEvent && (meta < 1 || meta > 8 || pos + meta
                > bytes@.len()),
        },
{
    if meta < 1 || meta > 8 {
        return Err(BinlogError::MalformedEvent);
    }
    let blen = bytes.len();
    match read_le_uint(bytes, pos, meta) {
        None => Err(BinlogError::MalformedEvent),
        Some((v, _)) => Ok((slice_to_vec(slice_subrange(bytes, pos, pos + meta)), v)),
    }
}

/// Reads the exact bytes of the column value at `pos`, length prefix
/// included, and the position just past them.
pub fn parse_row_bytes(bytes: &[u8], pos: usize, type_code: &ColumnTypeDict, col_meta: &Vec<
    usize,
>) -> (r: Result<(Vec<u8>, usize), BinlogError>)
    requires
        pos <= bytes@.len(),
    ensures
        match r {
            Ok(p) => spec_col_span(bytes@, pos as int, *type_code, col_meta@) matches Ok(w) && p.1
                == pos + w && p.0@ == bytes@.subrange(pos as int, pos + w),
            Err(e) => spec_col_span(bytes@, pos as int, *type_code, col_meta@) == Err::<
                int,
                BinlogError,
            >(e),
        },
{
    let blen = bytes.len();
    match col_span(bytes, pos, type_code, col_meta) {
        Err(e) => Err(e),
        Ok(w) => Ok((slice_to_vec(slice_subrange(bytes, pos, pos + w)), pos + w)),
    }
}

/// End position of the record's packed column values starting at `pos`,
/// with the record's NULL bitmap at `npos` (`nlen` bytes).
#[verifier::loop_isolation(false)]
fn record_cols(bytes: &[u8], pos: usize, map: &TableMap, npos: usize, nlen: usize) -> (r: Result<
    usize,
    BinlogError,
>)
    requires
        pos <= bytes@.len(),
        npos + nlen <= bytes@.len(),
    ensures
        match r {
            Ok(end) => spec_record_cols(bytes@, pos as int, *map, 0, npos as int, nlen as int)
                == Ok::<int, BinlogError>(end as int) && pos <= end <= bytes@.len(),
            Err(e) => spec_record_cols(bytes@, pos as int, *map, 0, npos as int, nlen as int)
                == Err::<int, BinlogError>(e),
        },
{
    let ncols = map.column_info.len();
    let blen = bytes.len();
    let mut cur: usize = pos;
    let mut i: usize = 0;
    while i < ncols
        invariant
            i <= ncols,
            pos <= cur <= bytes@.len(),
            match spec_record_cols(bytes@, cur as int, *map, i as int, npos as int, nlen as int) {
                Ok(end) => spec_record_cols(bytes@, pos as int, *map, 0, npos as int, nlen as int)
                    == Ok::<int, BinlogError>(end),
                Err(e) => spec_record_cols(bytes@, pos as int, *map, 0, npos as int, nlen as int)
                    == Err::<int, BinlogError>(e),
            },
        decreases ncols - i,
    {
        if i / 8 >= nlen {
            return Err(BinlogError::MalformedEvent);
        }
        let nb = bytes[npos + i / 8];
        if (nb >> ((i % 8) as u8)) & 1 != 0 {
            i = i + 1;
            continue ;
        }
        let ci = &map.column_info[i];
        match col_span(bytes, cur, &ci.column_type, &ci.column_meta) {
            Err(e) => {
                return Err(e);
            },
            Ok(w) => {
                cur = cur + w;
            },
        }
        i = i + 1;
    }
    proof {
        lemma_record_cols_bounds(bytes@, cur as int, *map, i as int, npos as int, nlen as int);
    }
    Ok(cur)
}

/// Rewrites an update event: copies everything up to the row region, then
/// swaps each before/after record pair and copies the trailing bytes.
#[verifier::loop_isolation(false)]
#[verifier::rlimit(60)]
pub fn update_event(event: &[u8], map: &TableMap, event_header: &EventHeader) -> (r: Result<
    Vec<u8>,
    BinlogError,
>)
    ensures
        match r {
            Ok(v) => spec_update_rewrite(event@, *map, event_header.event_length as int) == Ok::<
                Seq<u8>,
                BinlogError,
            >(v@),
            Err(e) => spec_update_rewrite(event@, *map, event_header.event_length as int) == Err::<
                Seq<u8>,
                BinlogError,
            >(e),
        },
{
    let blen = event.len();
    if blen < 29 {
        return Err(BinlogError::MalformedEvent);
    }
    let (a64, _) = match read_le_uint(event, 27, 2) {
        Some(p) => p,
        None => vstd::pervasive::unreached(),
    };
    proof {
        crate::bytes::lemma_le_val_bound(event@, 27, 2);
        reveal_with_fuel(crate::bytes::pow256, 3);
    }
    let a = a64 as usize;
    let extra = if a > 2 {
        a - 2
    } else {
        0
    };
    let cpos = 29 + extra;
    if cpos + 1 > blen {
        return Err(BinlogError::MalformedEvent);
    }
    let cols = event[cpos] as usize;
    if cols == 0 {
        return Err(BinlogError::MalformedEvent);
    }
    let cols_var = (cols + 7) / 8;
    let rows_start = cpos + 1 + 2 * cols_var;
    if rows_start > blen {
        return Err(BinlogError::MalformedEvent);
    }
    let event_length = event_header.event_length;
    let mut out: Vec<u8> = slice_to_vec(slice_subrange(event, 0, rows_start));
    let mut pos: usize = rows_start;
    let mut pending: Option<Vec<u8>> = None;
    loop
        invariant
            rows_start <= pos <= blen,
            blen == event@.len(),
            cols_var >= 1,
            match spec_rows(
                event@,
                pos as int,
                *map,
                event_length as int,
                cols_var as int,
                pending.deep_view(),
            ) {
                Ok(rest) => spec_update_rewrite(event@, *map, event_length as int) == Ok::<
                    Seq<u8>,
                    BinlogError,
                >(out@ + rest),
                Err(e) => spec_update_rewrite(event@, *map, event_length as int) == Err::<
                    Seq<u8>,
                    BinlogError,
                >(e),
            },
        decreases blen - pos,
    {
        if cols_var > blen - pos {
            return Err(BinlogError::MalformedEvent);
        }
        let rend = match record_cols(event, pos + cols_var, map, pos, cols_var) {
            Err(e) => {
                return Err(e);
            },
            Ok(end) => end,
        };
        let ghost out0 = out@;
        let ghost pend0 = pending.deep_view();
        let ghost rec = event@.subrange(pos as int, rend as int);
        let mut record = slice_to_vec(slice_subrange(event, pos, rend));
        let taken = pending;
        let mut unpaired: bool = false;
        match taken {
            None => {
                pending = Some(record);
                unpaired = true;
            },
            Some(before) => {
                let mut before = before;
                out.append(&mut record);
                out.append(&mut before);
                pending = None;
            },
        }
        let el = event_length as usize;
        if el < 4 || rend > el - 4 {
            if unpaired {
                return Err(BinlogError::MalformedEvent);
            }
            let mut tail = slice_to_vec(slice_subrange(event, rend, blen));
            proof {
                let tl = event@.subrange(rend as int, blen as int);
                match pend0 {
                    Some(before) => {
                        assert(out0 + ((rec + before) + tl) =~= (out@ + tl));
                    },
                    None => {},
                }
            }
            out.append(&mut tail);
            return Ok(out);
        }
        proof {
            assert(spec_record_cols(
                event@,
                pos + cols_var,
                *map,
                0,
                pos as int,
                cols_var as int,
            ) == Ok::<int, BinlogError>(rend as int));
            match pend0 {
                None => {
                    assert(pending.deep_view() == Some(rec));
                },
                Some(_) => {
                    assert(pending.deep_view() == Option::<Seq<u8>>::None);
                },
            }
            match spec_rows(
                event@,
                rend as int,
                *map,
                event_length as int,
                cols_var as int,
                pending.deep_view(),
            ) {
                Ok(rest) => {
                    match pend0 {
                        None => {
                            assert(out0 + (Seq::<u8>::empty() + rest) =~= out0 + rest);
                        },
                        Some(before) => {
                            assert(out0 + ((rec + before) + rest) =~= out@ + rest);
                        },
                    }
                },
                Err(_) => {},
            }
        }
        pos = rend;
    }
}

/// Builds the inverse of one row event: delete and write events swap
/// opcodes at byte 4 of the header, update events swap every before/after
/// record pair, and any other event is returned unchanged.
pub fn rollback_row_event(event: &Vec<u8>, event_header: &EventHeader, map: &TableMap) -> (r:
    Result<Vec<u8>, BinlogError>)
    ensures
        match r {
            Ok(v) => spec_rollback(event@, *event_header, *map) == Ok::<Seq<u8>, BinlogError>(v@),
            Err(e) => spec_rollback(event@, *event_header, *map) == Err::<Seq<u8>, BinlogError>(e),
        },
{
    match event_header.type_code {
        BinlogEvent::UpdateEvent => update_event(event.as_slice(), map, event_header),
        BinlogEvent::DeleteEvent => {
            if event.len() < 5 {
                return Err(BinlogError::MalformedEvent);
            }
            let mut new_row_event = slice_to_vec(event.as_slice());
            new_row_event.set(4, WRITE_EVENT_V2);
            Ok(new_row_event)
        },
        BinlogEvent::WriteEvent => {
            if event.len() < 5 {
                return Err(BinlogError::MalformedEvent);
            }
            let mut new_row_event = slice_to_vec(event.as_slice());
            new_row_event.set(4, DELETE_EVENT_V2);
            Ok(new_row_event)
        },
        BinlogEvent::OtherEvent => Ok(slice_to_vec(event.as_slice())),
    }
}

} // verus!

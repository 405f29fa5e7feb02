use binlog_codec::rollback::{
    rollback_row_event, update_event, parse_row_bytes, read_datetime_fsp, read_str_value_length,
    tmp_var, BinlogEvent, ColumnInfo, ColumnTypeDict, EventHeader, TableMap,
};
use binlog_codec::BinlogError;

fn two_col_map() -> TableMap {
    TableMap {
        column_info: vec![
            ColumnInfo { column_type: ColumnTypeDict::MysqlTypeLong, column_meta: vec![] },
            ColumnInfo { column_type: ColumnTypeDict::MysqlTypeVarchar, column_meta: vec![1] },
        ],
    }
}

/// A two-column UPDATE event: common header (opcode 31 at byte 4), 8-byte
/// post-header, extras length 2, column count 2, two presence bitmaps, then
/// the given records, then a 4-byte checksum.
fn update_event_bytes(records: &[&[u8]]) -> Vec<u8> {
    let mut e = vec![0u8; 19];
    e[4] = 31;
    e.extend_from_slice(&[0x11; 8]); // table id + flags
    e.extend_from_slice(&[0x02, 0x00]); // extras length: no extra bytes
    e.push(2); // column count
    e.extend_from_slice(&[0xff, 0xff]); // before/after presence bitmaps
    for r in records {
        e.extend_from_slice(r);
    }
    e.extend_from_slice(&[0xaa, 0xbb, 0xcc, 0xdd]); // checksum tail
    e
}

#[test]
fn delete_becomes_write() {
    // Byte 4 flips from 32 to 30, everything else is kept.
    let mut event = vec![0u8; 40];
    event[4] = 32;
    event[7] = 0x99;
    let header = EventHeader { type_code: BinlogEvent::DeleteEvent, event_length: 40 };
    let out = rollback_row_event(&event, &header, &two_col_map()).unwrap();
    assert_eq!(out[4], 30);
    let mut expected = event.clone();
    expected[4] = 30;
    assert_eq!(out, expected);
}

#[test]
fn write_becomes_delete() {
    // Byte 4 flips from 30 to 32.
    let mut event = vec![0u8; 40];
    event[4] = 30;
    let header = EventHeader { type_code: BinlogEvent::WriteEvent, event_length: 40 };
    let out = rollback_row_event(&event, &header, &two_col_map()).unwrap();
    assert_eq!(out[4], 32);
}

#[test]
fn opcode_flip_is_involutive() {
    // Rewriting twice restores the original bytes.
    let mut event = vec![0u8; 32];
    event[4] = 32;
    let del = EventHeader { type_code: BinlogEvent::DeleteEvent, event_length: 32 };
    let wri = EventHeader { type_code: BinlogEvent::WriteEvent, event_length: 32 };
    let map = two_col_map();
    let once = rollback_row_event(&event, &del, &map).unwrap();
    let twice = rollback_row_event(&once, &wri, &map).unwrap();
    assert_eq!(twice, event);
}

#[test]
fn non_row_events_unchanged() {
    // Any other event type is returned as it came.
    let event = vec![7u8; 23];
    let header = EventHeader { type_code: BinlogEvent::OtherEvent, event_length: 23 };
    let out = rollback_row_event(&event, &header, &two_col_map()).unwrap();
    assert_eq!(out, event);
}

#[test]
fn update_swaps_before_and_after() {
    // One row pair, before (1, "x") and after (1, "y"); the rewritten
    // event holds after then before, header and checksum untouched.
    let before: &[u8] = &[0x00, 0x01, 0x00, 0x00, 0x00, 0x01, 0x78];
    let after: &[u8] = &[0x00, 0x01, 0x00, 0x00, 0x00, 0x01, 0x79];
    let event = update_event_bytes(&[before, after]);
    // Stop once fewer than 4 bytes of declared length remain after a record.
    let header = EventHeader {
        type_code: BinlogEvent::UpdateEvent,
        event_length: (event.len() - 1) as u32,
    };
    let out = rollback_row_event(&event, &header, &two_col_map()).unwrap();
    let expected = update_event_bytes(&[after, before]);
    assert_eq!(out, expected);
    assert_eq!(&out[..32], &event[..32]);
    assert_eq!(&out[event.len() - 4..], &event[event.len() - 4..]);
    // The update path can also be driven directly.
    let direct = update_event(&event, &two_col_map(), &header).unwrap();
    assert_eq!(direct, expected);
}

#[test]
fn update_swap_two_pairs_keeps_order() {
    // Two pairs: each is swapped, and the pairs keep their order.
    let b1: &[u8] = &[0x00, 0x01, 0x00, 0x00, 0x00, 0x01, 0x78];
    let a1: &[u8] = &[0x00, 0x01, 0x00, 0x00, 0x00, 0x01, 0x79];
    let b2: &[u8] = &[0x00, 0x02, 0x00, 0x00, 0x00, 0x02, 0x68, 0x69];
    let a2: &[u8] = &[0x00, 0x02, 0x00, 0x00, 0x00, 0x02, 0x68, 0x6f];
    let event = update_event_bytes(&[b1, a1, b2, a2]);
    let header = EventHeader {
        type_code: BinlogEvent::UpdateEvent,
        event_length: (event.len() - 1) as u32,
    };
    let out = rollback_row_event(&event, &header, &two_col_map()).unwrap();
    let expected = update_event_bytes(&[a1, b1, a2, b2]);
    assert_eq!(out, expected);
}

#[test]
fn update_rewrite_is_involutive() {
    let b1: &[u8] = &[0x00, 0x01, 0x00, 0x00, 0x00, 0x01, 0x78];
    let a1: &[u8] = &[0x00, 0x01, 0x00, 0x00, 0x00, 0x01, 0x79];
    let event = update_event_bytes(&[b1, a1]);
    let header = EventHeader {
        type_code: BinlogEvent::UpdateEvent,
        event_length: (event.len() - 1) as u32,
    };
    let map = two_col_map();
    let once = rollback_row_event(&event, &header, &map).unwrap();
    let twice = rollback_row_event(&once, &header, &map).unwrap();
    assert_eq!(twice, event);
}

#[test]
fn update_with_null_column() {
    // The second column of the before image is NULL: its bit is set and no
    // bytes follow for it.
    let before: &[u8] = &[0x02, 0x01, 0x00, 0x00, 0x00];
    let after: &[u8] = &[0x00, 0x01, 0x00, 0x00, 0x00, 0x01, 0x7a];
    let event = update_event_bytes(&[before, after]);
    let header = EventHeader {
        type_code: BinlogEvent::UpdateEvent,
        event_length: (event.len() - 1) as u32,
    };
    let out = rollback_row_event(&event, &header, &two_col_map()).unwrap();
    let expected = update_event_bytes(&[after, before]);
    assert_eq!(out, expected);
}

#[test]
fn odd_record_count_is_malformed() {
    let b1: &[u8] = &[0x00, 0x01, 0x00, 0x00, 0x00, 0x01, 0x78];
    let event = update_event_bytes(&[b1]);
    let header = EventHeader {
        type_code: BinlogEvent::UpdateEvent,
        event_length: (event.len() - 1) as u32,
    };
    assert_eq!(
        rollback_row_event(&event, &header, &two_col_map()),
        Err(BinlogError::MalformedEvent)
    );
}

#[test]
fn unknown_column_type_is_rejected() {
    let before: &[u8] = &[0x00, 0x01];
    let after: &[u8] = &[0x00, 0x02];
    let event = update_event_bytes(&[before, after]);
    let header = EventHeader {
        type_code: BinlogEvent::UpdateEvent,
        event_length: (event.len() - 1) as u32,
    };
    let map = TableMap {
        column_info: vec![ColumnInfo {
            column_type: ColumnTypeDict::MysqlTypeOther,
            column_meta: vec![],
        }],
    };
    assert_eq!(rollback_row_event(&event, &header, &map), Err(BinlogError::UnknownType));
}

#[test]
fn short_event_is_malformed() {
    let header = EventHeader { type_code: BinlogEvent::UpdateEvent, event_length: 10 };
    assert_eq!(
        rollback_row_event(&vec![0u8; 10], &header, &two_col_map()),
        Err(BinlogError::MalformedEvent)
    );
    let header = EventHeader { type_code: BinlogEvent::DeleteEvent, event_length: 3 };
    assert_eq!(
        rollback_row_event(&vec![0u8; 3], &header, &two_col_map()),
        Err(BinlogError::MalformedEvent)
    );
}

#[test]
fn column_span_fixed_widths() {
    let bytes = vec![0u8; 64];
    let cases: &[(ColumnTypeDict, Vec<usize>, usize)] = &[
        (ColumnTypeDict::MysqlTypeTiny, vec![], 1),
        (ColumnTypeDict::MysqlTypeShort, vec![], 2),
        (ColumnTypeDict::MysqlTypeInt24, vec![], 3),
        (ColumnTypeDict::MysqlTypeLong, vec![], 4),
        (ColumnTypeDict::MysqlTypeLonglong, vec![], 8),
        (ColumnTypeDict::MysqlTypeYear, vec![], 1),
        (ColumnTypeDict::MysqlTypeDate, vec![], 3),
        (ColumnTypeDict::MysqlTypeFloat, vec![4], 4),
        (ColumnTypeDict::MysqlTypeDouble, vec![8], 8),
        (ColumnTypeDict::MysqlTypeTimestamp2, vec![3], 6),
        (ColumnTypeDict::MysqlTypeDatetime2, vec![6], 8),
        (ColumnTypeDict::MysqlTypeTime2, vec![0], 3),
        (ColumnTypeDict::MysqlTypeEnum, vec![1], 1),
        (ColumnTypeDict::MysqlTypeSet, vec![2], 2),
        // precision 10, scale 2: eight integer digits take 4 bytes, two
        // fractional digits take 1.
        (ColumnTypeDict::MysqlTypeNewdecimal, vec![10, 2], 5),
    ];
    for (ty, meta, want) in cases {
        let (v, end) = parse_row_bytes(&bytes, 0, ty, meta).unwrap();
        assert_eq!(v.len(), *want, "width of {:?}", ty);
        assert_eq!(end, *want);
    }
}

#[test]
fn column_span_length_prefixed() {
    // Varchar with a one-byte prefix of 3: prefix plus payload.
    let bytes = vec![0x03, 0x61, 0x62, 0x63, 0x7f];
    let (v, end) = parse_row_bytes(&bytes, 0, &ColumnTypeDict::MysqlTypeVarchar, &vec![1]).unwrap();
    assert_eq!(v, vec![0x03, 0x61, 0x62, 0x63]);
    assert_eq!(end, 4);

    // Blob with a two-byte prefix of 2.
    let bytes = vec![0x02, 0x00, 0x10, 0x20, 0x30];
    let (v, end) = parse_row_bytes(&bytes, 0, &ColumnTypeDict::MysqlTypeBlob, &vec![2]).unwrap();
    assert_eq!(v, vec![0x02, 0x00, 0x10, 0x20]);
    assert_eq!(end, 4);

    // Fixed CHAR with meta over 255: a two-byte length prefix.
    let bytes = vec![0x01, 0x00, 0x41, 0x42];
    let (v, end) = parse_row_bytes(&bytes, 0, &ColumnTypeDict::MysqlTypeString, &vec![512]).unwrap();
    assert_eq!(v, vec![0x01, 0x00, 0x41]);
    assert_eq!(end, 3);

    // Truncated payload is malformed.
    let bytes = vec![0x09, 0x61];
    assert_eq!(
        parse_row_bytes(&bytes, 0, &ColumnTypeDict::MysqlTypeVarchar, &vec![1]),
        Err(BinlogError::MalformedEvent)
    );
}

#[test]
fn str_value_length_widths() {
    let bytes = vec![0x05, 0x01, 0x00, 0x00, 0x00, 0x00, 0x00, 0x00];
    let (prefix, len) = read_str_value_length(&bytes, 0, 1).unwrap();
    assert_eq!((prefix, len), (vec![0x05], 5));
    let (prefix, len) = read_str_value_length(&bytes, 0, 2).unwrap();
    assert_eq!((prefix, len), (vec![0x05, 0x01], 0x0105));
    let (prefix, len) = read_str_value_length(&bytes, 0, 8).unwrap();
    assert_eq!(prefix, bytes);
    assert_eq!(len, 0x0105);
    assert_eq!(read_str_value_length(&bytes, 0, 9), Err(BinlogError::MalformedEvent));
    assert_eq!(read_str_value_length(&bytes, 7, 2), Err(BinlogError::MalformedEvent));
}

#[test]
fn fsp_widths() {
    assert_eq!(read_datetime_fsp(0), 0);
    assert_eq!(read_datetime_fsp(1), 1);
    assert_eq!(read_datetime_fsp(2), 1);
    assert_eq!(read_datetime_fsp(3), 2);
    assert_eq!(read_datetime_fsp(4), 2);
    assert_eq!(read_datetime_fsp(5), 3);
    assert_eq!(read_datetime_fsp(6), 3);
    assert_eq!(read_datetime_fsp(9), 0);
}

#[test]
fn tmp_var_is_empty() {
    let (before, after) = tmp_var();
    assert!(before.is_empty());
    assert!(after.is_empty());
}

#[test]
fn invalid_meta_is_malformed() {
    let bytes = vec![0u8; 16];
    assert_eq!(
        parse_row_bytes(&bytes, 0, &ColumnTypeDict::MysqlTypeFloat, &vec![2]),
        Err(BinlogError::MalformedEvent)
    );
    assert_eq!(
        parse_row_bytes(&bytes, 0, &ColumnTypeDict::MysqlTypeEnum, &vec![3]),
        Err(BinlogError::MalformedEvent)
    );
    assert_eq!(
        parse_row_bytes(&bytes, 0, &ColumnTypeDict::MysqlTypeNewdecimal, &vec![2, 10]),
        Err(BinlogError::MalformedEvent)
    );
    assert_eq!(
        parse_row_bytes(&bytes, 0, &ColumnTypeDict::MysqlTypeVarchar, &vec![9]),
        Err(BinlogError::MalformedEvent)
    );
    assert_eq!(
        parse_row_bytes(&bytes, 0, &ColumnTypeDict::MysqlTypeTimestamp2, &vec![]),
        Err(BinlogError::MalformedEvent)
    );
}

#[test]
fn update_with_json_column_round_trips_payload() {
    // A one-column table holding a JSON value: the rewriter moves the blob
    // bytes opaquely, and the decoder still reads the payload afterwards.
    let map = TableMap {
        column_info: vec![ColumnInfo {
            column_type: ColumnTypeDict::MysqlTypeJson,
            column_meta: vec![2],
        }],
    };
    let blob: &[u8] = &[0x0c, 0x03, 0x66, 0x6f, 0x6f]; // the string "foo"
    let mut before = vec![0x00u8, 0x05, 0x00]; // null bitmap, 2-byte length 5
    before.extend_from_slice(blob);
    let after = vec![0x00u8, 0x02, 0x00, 0x04, 0x01]; // literal `true`
    let mut e = vec![0u8; 19];
    e[4] = 31;
    e.extend_from_slice(&[0x11; 8]);
    e.extend_from_slice(&[0x02, 0x00]);
    e.push(1); // one column
    e.extend_from_slice(&[0xff, 0xff]);
    let rows_start = e.len();
    e.extend_from_slice(&before);
    e.extend_from_slice(&after);
    e.extend_from_slice(&[0xaa, 0xbb, 0xcc, 0xdd]);
    let header = EventHeader {
        type_code: BinlogEvent::UpdateEvent,
        event_length: (e.len() - 1) as u32,
    };
    let out = rollback_row_event(&e, &header, &map).unwrap();
    assert_eq!(&out[rows_start..rows_start + after.len()], &after[..]);
    assert_eq!(&out[rows_start + after.len()..rows_start + after.len() + before.len()], &before[..]);
    // The swapped before-image still decodes as JSONB.
    let moved = &out[rows_start + after.len() + 3..rows_start + after.len() + before.len()];
    assert_eq!(
        binlog_codec::jsonb::read_binary_json(moved, 5),
        Ok(binlog_codec::jsonb::JsonValue::Str(b"foo".to_vec()))
    );
}

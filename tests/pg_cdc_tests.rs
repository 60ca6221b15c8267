use dt_core::dt_data::{DtData, Position};
use dt_core::error::{Error, ExtractorFault};
use dt_core::meta::{RdbTbMeta, TbMetaCache};
use dt_core::pg_cdc::{
    heartbeat_lsn, pg_to_unix_millis, EventFilter, PgAction, PgCdcDecoder, PgColType, PgFrame, PgValueKind,
    RelationColumn, TupleSlot,
};
use dt_core::row::{ColValue, RowType};

fn s(x: &str) -> String {
    x.to_string()
}

fn registry() -> Vec<PgColType> {
    vec![
        PgColType { oid: 23, name: s("int4"), kind: PgValueKind::Numeric },
        PgColType { oid: 25, name: s("text"), kind: PgValueKind::Text },
        PgColType { oid: 16, name: s("bool"), kind: PgValueKind::Bool },
    ]
}

fn cache() -> TbMetaCache {
    let mut c = TbMetaCache::new();
    c.put(RdbTbMeta::new(s("public"), s("t"), vec![s("id"), s("v")], vec![(s("primary"), vec![s("id")])], vec![], vec![]));
    c
}

fn decoder(filter: EventFilter) -> (PgCdcDecoder, TbMetaCache) {
    let c = cache();
    let mut d = PgCdcDecoder::new(0x100, registry(), filter);
    let rel = PgFrame::Relation {
        rel_id: 42,
        namespace: s("public"),
        name: s("t"),
        columns: vec![
            RelationColumn { name: s("v"), type_oid: 25 },
            RelationColumn { name: s("id"), type_oid: 23 },
            RelationColumn { name: s("ok"), type_oid: 16 },
        ],
    };
    assert!(matches!(d.on_frame(&c, rel), Ok(PgAction::Nothing)));
    (d, c)
}

fn no_filter() -> EventFilter {
    EventFilter { ignore_tbs: vec![], do_events: vec![] }
}

fn text(x: &str) -> TupleSlot {
    TupleSlot::Text(s(x))
}

#[test]
fn update_without_old_tuple_projects_key() {
    let (d, c) = decoder(no_filter());
    let mut d = d;
    let frame = PgFrame::Update { rel_id: 42, old_tuple: None, key_tuple: None, new_tuple: vec![text("b"), text("1"), text("t")] };
    match d.on_frame(&c, frame).unwrap() {
        PgAction::Push(item) => match item.dt_data {
            DtData::Dml { row_data } => {
                assert_eq!(row_data.row_type, RowType::Update);
                assert_eq!(row_data.before, Some(vec![(s("id"), ColValue::Decimal(s("1")))]));
                assert_eq!(
                    row_data.after,
                    Some(vec![
                        (s("v"), ColValue::String(s("b"))),
                        (s("id"), ColValue::Decimal(s("1"))),
                        (s("ok"), ColValue::Bool(true)),
                    ])
                );
                assert_eq!(row_data.schema, s("public"));
                assert_eq!(row_data.tb, s("t"));
            },
            _ => panic!("expected a row"),
        },
        _ => panic!("expected a push"),
    }
}

#[test]
fn update_prefers_old_then_key_tuple() {
    let (d, _) = decoder(no_filter());
    let r = d.decode_update(42, Some(vec![text("a"), text("1")]), Some(vec![TupleSlot::Null, text("9")]), vec![text("b"), text("1")]).unwrap();
    let PgAction::Push(item) = r else { panic!("expected a push") };
    let DtData::Dml { row_data } = item.dt_data else { panic!("expected a row") };
    assert_eq!(row_data.before, Some(vec![(s("v"), ColValue::String(s("a"))), (s("id"), ColValue::Decimal(s("1")))]));
    let r = d.decode_update(42, None, Some(vec![TupleSlot::Null, text("9")]), vec![text("b"), text("1")]).unwrap();
    let PgAction::Push(item) = r else { panic!("expected a push") };
    let DtData::Dml { row_data } = item.dt_data else { panic!("expected a row") };
    assert_eq!(row_data.before, Some(vec![(s("v"), ColValue::Null), (s("id"), ColValue::Decimal(s("9")))]));
}

#[test]
fn unchanged_toast_fails() {
    let (d, _) = decoder(no_filter());
    let r = d.decode_insert(42, vec![TupleSlot::UnchangedToast, text("1")]);
    assert!(matches!(r, Err(Error::ExtractorError { reason: ExtractorFault::UnchangedToast })));
    let r = d.decode_insert(42, vec![text("a"), text("1"), text("t"), text("extra")]);
    assert!(matches!(r, Err(Error::ExtractorError { reason: ExtractorFault::TooManyColumns })));
    let r = d.decode_insert(7, vec![text("a")]);
    assert!(matches!(r, Err(Error::ExtractorError { reason: ExtractorFault::UnknownRelation })));
}

#[test]
fn relation_needs_metadata_and_known_types() {
    let c = cache();
    let mut d = PgCdcDecoder::new(1, registry(), no_filter());
    let unknown_table = PgFrame::Relation { rel_id: 1, namespace: s("public"), name: s("x"), columns: vec![] };
    assert!(matches!(d.on_frame(&c, unknown_table), Err(Error::MetadataError { .. })));
    let unknown_type = PgFrame::Relation {
        rel_id: 1,
        namespace: s("public"),
        name: s("t"),
        columns: vec![RelationColumn { name: s("id"), type_oid: 999 }],
    };
    assert!(matches!(d.on_frame(&c, unknown_type), Err(Error::ExtractorError { reason: ExtractorFault::UnknownType })));
}

#[test]
fn begin_and_commit_positions() {
    let (mut d, c) = decoder(no_filter());
    assert!(matches!(d.on_frame(&c, PgFrame::Begin { xid: 1234, timestamp_micros: 1_000_000 }), Ok(PgAction::Nothing)));
    assert_eq!(d.position, Position::PgCdc { lsn: 0x100, timestamp_millis: 946_684_801_000 });
    let ins = d.on_frame(&c, PgFrame::Insert { rel_id: 42, tuple: vec![text("a"), text("1"), TupleSlot::Null] }).unwrap();
    let PgAction::Push(item) = ins else { panic!("expected a push") };
    assert_eq!(item.position, Position::PgCdc { lsn: 0x100, timestamp_millis: 946_684_801_000 });
    let PgAction::Push(commit) = d.on_frame(&c, PgFrame::Commit { end_lsn: 0x200, timestamp_micros: 2_500_000 }).unwrap() else {
        panic!("expected a push")
    };
    assert_eq!(commit.dt_data, DtData::Commit { xid: s("1234") });
    assert_eq!(commit.position, Position::PgCdc { lsn: 0x200, timestamp_millis: 946_684_802_500 });
    assert_eq!(d.last_tx_end_lsn, 0x200);
    assert!(matches!(d.on_frame(&c, PgFrame::Begin { xid: 1, timestamp_micros: 0 }), Ok(PgAction::Nothing)));
    assert_eq!(d.position, Position::PgCdc { lsn: 0x200, timestamp_millis: 946_684_800_000 });
}

#[test]
fn keepalive_and_ignored_frames() {
    let (mut d, c) = decoder(no_filter());
    assert!(matches!(d.on_frame(&c, PgFrame::KeepAlive { reply_requested: true }), Ok(PgAction::Heartbeat)));
    assert!(matches!(d.on_frame(&c, PgFrame::KeepAlive { reply_requested: false }), Ok(PgAction::Nothing)));
    assert!(matches!(d.on_frame(&c, PgFrame::Ignored), Ok(PgAction::Nothing)));
}

#[test]
fn delete_without_tuples_has_empty_before() {
    let (d, _) = decoder(no_filter());
    let PgAction::Push(item) = d.decode_delete(42, None, None).unwrap() else { panic!("expected a push") };
    let DtData::Dml { row_data } = item.dt_data else { panic!("expected a row") };
    assert_eq!(row_data.row_type, RowType::Delete);
    assert_eq!(row_data.before, Some(vec![]));
    assert_eq!(row_data.after, None);
}

#[test]
fn filtered_rows_are_dropped() {
    let (d, _) = decoder(EventFilter { ignore_tbs: vec![(s("public"), s("t"))], do_events: vec![] });
    assert!(matches!(d.decode_insert(42, vec![text("a"), text("1")]), Ok(PgAction::Nothing)));
    let (d, _) = decoder(EventFilter { ignore_tbs: vec![], do_events: vec![RowType::Delete] });
    assert!(matches!(d.decode_insert(42, vec![text("a"), text("1")]), Ok(PgAction::Nothing)));
    assert!(matches!(d.decode_delete(42, None, None), Ok(PgAction::Push(_))));
    let f = EventFilter { ignore_tbs: vec![(s("a"), s("b"))], do_events: vec![RowType::Insert] };
    assert!(f.filter_event(&s("a"), &s("b"), RowType::Insert));
    assert!(!f.filter_event(&s("a"), &s("c"), RowType::Insert));
    assert!(f.filter_event(&s("a"), &s("c"), RowType::Update));
}

#[test]
fn heartbeat_acks_committed_lsn() {
    assert_eq!(heartbeat_lsn(&Position::Unknown, 0x100), 0x100);
    assert_eq!(heartbeat_lsn(&Position::PgCdc { lsn: 0x300, timestamp_millis: 0 }, 0x100), 0x300);
    assert_eq!(heartbeat_lsn(&Position::PgCdc { lsn: 0x50, timestamp_millis: 0 }, 0x100), 0x100);
}

#[test]
fn timestamp_conversion() {
    assert_eq!(pg_to_unix_millis(0), 946_684_800_000);
    assert_eq!(pg_to_unix_millis(1_999), 946_684_800_001);
    assert_eq!(pg_to_unix_millis(-1_999), 946_684_799_999);
}

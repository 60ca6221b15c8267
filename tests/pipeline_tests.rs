use dt_core::config::DbType;
use dt_core::dt_data::{DdlData, DtData, DtItem, Position, RedisEntry};
use dt_core::pg_cdc::heartbeat_due;
use dt_core::pipeline::{
    checkpoint_due, choose_sink_path, fetch_ddl, fetch_dml, fetch_raw, should_drain, PipelinePositions, SinkPath, Syncer,
};
use dt_core::row::{ColValue, RowData, RowType};

fn s(x: &str) -> String {
    x.to_string()
}

fn pos(lsn: u64) -> Position {
    Position::PgCdc { lsn, timestamp_millis: 0 }
}

fn row(pk: i32) -> RowData {
    RowData {
        schema: s("db"),
        tb: s("t"),
        row_type: RowType::Insert,
        before: None,
        after: Some(vec![(s("pk"), ColValue::Long(pk))]),
    }
}

fn dml(pk: i32, lsn: u64) -> DtItem {
    DtItem { dt_data: DtData::Dml { row_data: row(pk) }, position: pos(lsn) }
}

fn commit(lsn: u64) -> DtItem {
    DtItem { dt_data: DtData::Commit { xid: s("7") }, position: pos(lsn) }
}

fn ddl(lsn: u64) -> DtItem {
    DtItem {
        dt_data: DtData::Ddl { ddl_data: DdlData { schema: s("db"), tb: s("t"), query: s("alter table t add c int") } },
        position: pos(lsn),
    }
}

fn redis(name: &str, raw: bool, offset: u64) -> DtItem {
    DtItem {
        dt_data: DtData::Redis { entry: RedisEntry { is_raw: raw, cmd_name: s(name), args: vec![], keys: vec![] } },
        position: Position::Redis { repl_id: s("r"), repl_offset: offset },
    }
}

#[test]
fn is_ddl_on_items() {
    assert!(ddl(1).is_ddl());
    assert!(ddl(1).dt_data.is_ddl());
    assert!(!dml(1, 1).is_ddl());
    assert!(!commit(1).dt_data.is_ddl());
}

#[test]
fn sink_path_by_shape() {
    assert_eq!(choose_sink_path(true, &vec![ddl(1)]), SinkPath::Raw);
    assert_eq!(choose_sink_path(false, &vec![ddl(1), dml(1, 2)]), SinkPath::Ddl);
    assert_eq!(choose_sink_path(false, &vec![dml(1, 2), ddl(1)]), SinkPath::Dml);
    assert!(DbType::Redis.is_raw_sink());
    assert!(DbType::Kafka.is_raw_sink());
    assert!(!DbType::Mysql.is_raw_sink());
}

#[test]
fn checkpoint_advances_only_on_commit() {
    // relation frames are not pushed; the stream reaches the buffer as
    // insert, insert, commit(L1), insert
    let l1 = 0x10;
    let batch = vec![dml(1, 5), dml(2, 5), commit(l1), dml(3, l1)];
    let (rows, received, committed) = fetch_dml(batch);
    assert_eq!(rows, vec![row(1), row(2), row(3)]);
    assert_eq!(received, Some(pos(l1)));
    assert_eq!(committed, Some(pos(l1)));

    let mut p = PipelinePositions::new();
    p.record_batch(received, committed);
    let mut syncer = Syncer { checkpoint_position: Position::Unknown };
    assert!(!p.record_checkpoint(&mut syncer, false));
    assert_eq!(syncer.checkpoint_position, Position::Unknown);
    assert!(p.record_checkpoint(&mut syncer, true));
    assert_eq!(syncer.checkpoint_position, pos(l1));

    // a later batch without a commit moves the received position only
    let (_, received2, committed2) = fetch_dml(vec![dml(4, 0x20)]);
    p.record_batch(received2, committed2);
    assert_eq!(p.last_received, Some(pos(0x20)));
    assert_eq!(p.last_commit, Some(pos(l1)));
    assert!(p.record_checkpoint(&mut syncer, true));
    assert_eq!(syncer.checkpoint_position, pos(l1));
}

#[test]
fn checkpoint_written_positions_never_decrease() {
    let batches = vec![vec![dml(1, 1), commit(10)], vec![dml(2, 10)], vec![commit(20), dml(3, 20)], vec![commit(30)]];
    let mut p = PipelinePositions::new();
    let mut syncer = Syncer { checkpoint_position: Position::Unknown };
    let mut written = vec![];
    for b in batches {
        let (_, r, c) = fetch_dml(b);
        p.record_batch(r, c);
        if p.record_checkpoint(&mut syncer, true) {
            if let Position::PgCdc { lsn, .. } = syncer.checkpoint_position {
                written.push(lsn);
            }
        }
    }
    assert_eq!(written, vec![10, 10, 20, 30]);
}

#[test]
fn nothing_to_record_without_commit() {
    let p = PipelinePositions::new();
    let mut syncer = Syncer { checkpoint_position: pos(3) };
    assert!(!p.record_checkpoint(&mut syncer, true));
    assert_eq!(syncer.checkpoint_position, pos(3));
}

#[test]
fn fetch_ddl_keeps_statements() {
    let (ddls, received, committed) = fetch_ddl(vec![ddl(1), dml(9, 2), commit(3)]);
    assert_eq!(ddls.len(), 1);
    assert_eq!(ddls[0].query, s("alter table t add c int"));
    assert_eq!(received, Some(pos(3)));
    assert_eq!(committed, Some(pos(3)));
    let (_, received, committed) = fetch_ddl(vec![ddl(4)]);
    assert_eq!(received, Some(pos(4)));
    assert_eq!(committed, None);
}

#[test]
fn fetch_raw_drops_pings_and_commits() {
    let batch = vec![redis("set", false, 1), redis("PiNg", false, 2), redis("ping", true, 3), commit(4), redis("ping", false, 5)];
    let (raw, received, committed) = fetch_raw(batch);
    assert_eq!(raw.len(), 2);
    assert!(matches!(&raw[0], DtData::Redis { entry } if entry.cmd_name == "set"));
    assert!(matches!(&raw[1], DtData::Redis { entry } if entry.is_raw));
    assert_eq!(received, Some(Position::Redis { repl_id: s("r"), repl_offset: 5 }));
    assert_eq!(committed, Some(Position::Redis { repl_id: s("r"), repl_offset: 5 }));
}

#[test]
fn fetch_empty_batch() {
    let (rows, received, committed) = fetch_dml(vec![]);
    assert!(rows.is_empty());
    assert_eq!(received, None);
    assert_eq!(committed, None);
}

#[test]
fn loop_timing_decisions() {
    assert!(!should_drain(0, 5, false));
    assert!(should_drain(0, 5, true));
    assert!(should_drain(5, 5, false));
    assert!(should_drain(0, 0, false));
    assert!(checkpoint_due(10, 10));
    assert!(!checkpoint_due(9, 10));
    assert!(heartbeat_due(11, 10));
    assert!(!heartbeat_due(10, 10));
}

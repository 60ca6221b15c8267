use dt_core::dt_data::{DdlData, DtData, DtItem, Position};
use dt_core::meta::{RdbTbMeta, TbMetaCache};
use dt_core::partition::{DrainStep, PartitionParallelizer, RdbPartitioner};
use dt_core::row::{ColValue, RowData, RowType};

fn s(x: &str) -> String {
    x.to_string()
}

fn partitioner() -> RdbPartitioner {
    let mut cache = TbMetaCache::new();
    cache.put(RdbTbMeta::new(s("db"), s("t"), vec![s("pk")], vec![(s("primary"), vec![s("pk")])], vec![], vec![]));
    cache.put(RdbTbMeta::new(s("db"), s("nokey"), vec![s("pk")], vec![], vec![], vec![]));
    RdbPartitioner { meta_manager: cache }
}

fn row(tb: &str, pk: ColValue, v: &str) -> RowData {
    RowData {
        schema: s("db"),
        tb: s(tb),
        row_type: RowType::Insert,
        before: None,
        after: Some(vec![(s("pk"), pk), (s("v"), ColValue::String(s(v)))]),
    }
}

#[test]
fn same_key_same_shard() {
    let p = partitioner();
    let rows: Vec<RowData> = (0..40).map(|i| row("t", ColValue::Long(i % 5), &format!("v{}", i))).collect();
    let shards = p.partition(rows, 4).unwrap();
    assert_eq!(shards.len(), 4);
    assert_eq!(shards.iter().map(|x| x.len()).sum::<usize>(), 40);
    for k in 0..5 {
        let holding: Vec<usize> = (0..4)
            .filter(|i| shards[*i].iter().any(|r| r.after.as_ref().unwrap()[0].1 == ColValue::Long(k)))
            .collect();
        assert_eq!(holding.len(), 1);
    }
    // order within a shard is arrival order
    for shard in &shards {
        let vs: Vec<usize> = shard
            .iter()
            .map(|r| match &r.after.as_ref().unwrap()[1].1 {
                ColValue::String(x) => x[1..].parse::<usize>().unwrap(),
                _ => 0,
            })
            .collect();
        let mut sorted = vs.clone();
        sorted.sort();
        assert_eq!(vs, sorted);
    }
}

#[test]
fn single_shard_keeps_everything() {
    let p = partitioner();
    let rows = vec![row("t", ColValue::Long(1), "a"), row("unknown", ColValue::Long(2), "b")];
    let shards = p.partition(rows.clone(), 1).unwrap();
    assert_eq!(shards, vec![rows]);
}

#[test]
fn partition_needs_metadata() {
    let p = partitioner();
    assert!(p.partition(vec![row("unknown", ColValue::Long(2), "b")], 3).is_err());
}

#[test]
fn unpartitionable_rows() {
    let p = partitioner();
    assert_eq!(p.can_be_partitioned(&row("t", ColValue::Long(1), "a")).unwrap(), true);
    assert_eq!(p.can_be_partitioned(&row("t", ColValue::Null, "a")).unwrap(), false);
    assert_eq!(p.can_be_partitioned(&row("nokey", ColValue::Long(1), "a")).unwrap(), false);
    assert!(p.can_be_partitioned(&row("unknown", ColValue::Long(1), "a")).is_err());
}

#[test]
fn drain_stops_at_unpartitionable_row() {
    let par = PartitionParallelizer { partitioner: partitioner(), parallel_size: 4 };
    assert_eq!(par.get_name(), "PartitionParallelizer");
    let pos = Position::PgCdc { lsn: 1, timestamp_millis: 0 };
    let item = |d: DtData| DtItem { dt_data: d, position: pos.clone() };
    let good = item(DtData::Dml { row_data: row("t", ColValue::Long(1), "a") });
    let bad = item(DtData::Dml { row_data: row("t", ColValue::Null, "a") });
    let commit = item(DtData::Commit { xid: s("1") });
    let ddl = item(DtData::Ddl { ddl_data: DdlData { schema: s("db"), tb: s("t"), query: s("") } });
    assert_eq!(par.drain_step(&good).unwrap(), DrainStep::Take);
    assert_eq!(par.drain_step(&bad).unwrap(), DrainStep::TakeAndStop);
    assert_eq!(par.drain_step(&commit).unwrap(), DrainStep::Take);
    assert_eq!(par.drain_step(&ddl).unwrap(), DrainStep::Skip);
    let serial = PartitionParallelizer { partitioner: partitioner(), parallel_size: 1 };
    assert_eq!(serial.drain_step(&bad).unwrap(), DrainStep::Take);
}

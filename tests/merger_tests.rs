use dt_core::merger::{RdbMerger, RdbTbMergedData};
use dt_core::meta::{RdbTbMeta, TbMetaCache};
use dt_core::row::{ColValue, RowData, RowType};

fn s(x: &str) -> String {
    x.to_string()
}

fn img(pk: ColValue, v: &str) -> Vec<(String, ColValue)> {
    vec![(s("pk"), pk), (s("v"), ColValue::String(s(v)))]
}

fn ins(pk: i32, v: &str) -> RowData {
    RowData { schema: s("db"), tb: s("t"), row_type: RowType::Insert, before: None, after: Some(img(ColValue::Long(pk), v)) }
}

fn upd(pk0: i32, v0: &str, pk1: i32, v1: &str) -> RowData {
    RowData {
        schema: s("db"),
        tb: s("t"),
        row_type: RowType::Update,
        before: Some(img(ColValue::Long(pk0), v0)),
        after: Some(img(ColValue::Long(pk1), v1)),
    }
}

fn del(pk: i32) -> RowData {
    RowData { schema: s("db"), tb: s("t"), row_type: RowType::Delete, before: Some(img(ColValue::Long(pk), "")), after: None }
}

fn id_cols() -> Vec<String> {
    vec![s("pk")]
}

fn merge_all(rows: Vec<RowData>) -> RdbTbMergedData {
    let mut m = RdbTbMergedData::new();
    for r in rows {
        m.merge_row(&id_cols(), r);
    }
    m
}

fn table_meta(schema: &str, tb: &str, keys: Vec<(&str, Vec<&str>)>) -> RdbTbMeta {
    RdbTbMeta::new(
        s(schema),
        s(tb),
        vec![s("pk"), s("v")],
        keys.into_iter().map(|(k, cols)| (s(k), cols.into_iter().map(s).collect())).collect(),
        vec![],
        vec![],
    )
}

#[test]
fn merge_collapse_insert_and_updates() {
    let mut m = merge_all(vec![ins(1, "a"), upd(1, "a", 1, "b"), upd(1, "b", 1, "c")]);
    let deletes = m.get_delete_rows();
    let inserts = m.get_insert_rows();
    let unmerged = m.get_unmerged_rows();
    assert_eq!(inserts, vec![RowData {
        schema: s("db"),
        tb: s("t"),
        row_type: RowType::Insert,
        before: None,
        after: Some(img(ColValue::Long(1), "c")),
    }]);
    assert!(unmerged.is_empty());
    assert!(deletes.is_empty());
}

#[test]
fn merge_update_of_existing_row_deletes_then_inserts() {
    let mut m = merge_all(vec![upd(1, "a", 1, "b")]);
    let d = m.get_delete_rows();
    let i = m.get_insert_rows();
    assert_eq!(d.len(), 1);
    assert_eq!(d[0].row_type, RowType::Delete);
    assert_eq!(d[0].before, Some(img(ColValue::Long(1), "a")));
    assert_eq!(i.len(), 1);
    assert_eq!(i[0].after, Some(img(ColValue::Long(1), "b")));
}

#[test]
fn merge_key_change_forces_unmerged() {
    let mut m = merge_all(vec![ins(1, "a"), upd(1, "a", 2, "a"), ins(3, "x"), del(1)]);
    let inserts = m.get_insert_rows();
    let unmerged = m.get_unmerged_rows();
    assert_eq!(inserts, vec![ins(1, "a")]);
    assert_eq!(unmerged, vec![upd(1, "a", 2, "a"), ins(3, "x"), del(1)]);
    assert!(m.get_delete_rows().is_empty());
}

#[test]
fn merge_delete_cancels_prior_insert() {
    let mut m = merge_all(vec![ins(1, "a"), del(1)]);
    assert_eq!(m.get_delete_rows(), vec![del(1)]);
    assert!(m.get_insert_rows().is_empty());
    assert!(m.get_unmerged_rows().is_empty());
}

#[test]
fn merge_minimality_on_inserts_and_deletes() {
    let rows = vec![ins(1, "a"), ins(2, "b"), del(1), ins(1, "c"), del(3), ins(2, "d")];
    let n = rows.len();
    let mut m = merge_all(rows);
    let d = m.get_delete_rows();
    let i = m.get_insert_rows();
    assert!(m.get_unmerged_rows().is_empty());
    assert!(d.len() + i.len() <= n);
    assert_eq!(d, vec![del(1), del(3)]);
    assert_eq!(i, vec![ins(2, "d"), ins(1, "c")]);
}

#[test]
fn merge_null_key_is_unmerged() {
    let row = RowData {
        schema: s("db"),
        tb: s("t"),
        row_type: RowType::Insert,
        before: None,
        after: Some(vec![(s("pk"), ColValue::Null), (s("v"), ColValue::String(s("a")))]),
    };
    let mut m = merge_all(vec![row.clone(), ins(1, "a")]);
    assert_eq!(m.get_unmerged_rows(), vec![row, ins(1, "a")]);
    assert!(m.get_insert_rows().is_empty());
}

#[test]
fn merge_without_unique_key_is_unmerged() {
    let mut m = RdbTbMergedData::new();
    m.merge_row(&vec![], ins(1, "a"));
    assert_eq!(m.get_unmerged_rows(), vec![ins(1, "a")]);
}

#[test]
fn hash_code_identifies_key_values() {
    let a = RdbMerger::get_hash_code(&id_cols(), &ins(1, "a"));
    let b = RdbMerger::get_hash_code(&id_cols(), &ins(1, "zzz"));
    let c = RdbMerger::get_hash_code(&id_cols(), &ins(2, "a"));
    assert_ne!(a, 0);
    assert_eq!(a, b);
    assert_ne!(a, c);
    assert_eq!(RdbMerger::get_hash_code(&vec![], &ins(1, "a")), 0);
    // the key of a delete is read from its before image
    assert_eq!(RdbMerger::get_hash_code(&id_cols(), &del(1)), a);
}

#[test]
fn uk_change_and_collision_checks() {
    assert!(RdbMerger::check_uk_changed(&id_cols(), &upd(1, "a", 2, "a")));
    assert!(!RdbMerger::check_uk_changed(&id_cols(), &upd(1, "a", 1, "b")));
    let h = RdbMerger::get_hash_code(&id_cols(), &ins(1, "a"));
    let buffer = vec![(h, ins(2, "x"))];
    assert!(RdbMerger::check_collision(&buffer, &id_cols(), &ins(1, "a"), h));
    let buffer = vec![(h, ins(1, "x"))];
    assert!(!RdbMerger::check_collision(&buffer, &id_cols(), &ins(1, "a"), h));
    assert!(!RdbMerger::check_collision(&vec![], &id_cols(), &ins(1, "a"), h));
}

#[test]
fn split_update_into_delete_and_insert() {
    let (d, i) = RdbMerger::split_update_row_data(upd(1, "a", 1, "b"));
    assert_eq!(d.row_type, RowType::Delete);
    assert_eq!(d.before, Some(img(ColValue::Long(1), "a")));
    assert_eq!(d.after, None);
    assert_eq!(i.row_type, RowType::Insert);
    assert_eq!(i.before, None);
    assert_eq!(i.after, Some(img(ColValue::Long(1), "b")));
}

#[test]
fn merge_groups_by_table() {
    let mut cache = TbMetaCache::new();
    cache.put(table_meta("db", "t", vec![("primary", vec!["pk"])]));
    cache.put(table_meta("db", "u", vec![("primary", vec!["pk"])]));
    let merger = RdbMerger { meta_manager: cache };
    let mut other = ins(7, "q");
    other.tb = s("u");
    let out = merger.merge(vec![ins(1, "a"), other.clone(), del(1)]).unwrap();
    assert_eq!(out.len(), 2);
    let t = out.iter().find(|x| x.tb == "t").unwrap();
    let u = out.iter().find(|x| x.tb == "u").unwrap();
    assert_eq!(t.delete_rows, vec![del(1)]);
    assert!(t.insert_rows.is_empty());
    assert_eq!(u.insert_rows, vec![other]);
}

#[test]
fn merge_fails_without_metadata() {
    let merger = RdbMerger { meta_manager: TbMetaCache::new() };
    let r = merger.merge(vec![ins(1, "a")]);
    assert!(matches!(r, Err(dt_core::error::Error::MetadataError { .. })));
}

fn key_of(img: &[(String, ColValue)]) -> i32 {
    match img.iter().find(|(c, _)| c == "pk").map(|(_, v)| v.clone()) {
        Some(ColValue::Long(k)) => k,
        _ => panic!("no key"),
    }
}

fn apply(db: &mut std::collections::BTreeMap<i32, Vec<(String, ColValue)>>, r: &RowData) {
    match r.row_type {
        RowType::Insert => {
            let a = r.after.clone().unwrap();
            db.insert(key_of(&a), a);
        },
        RowType::Delete => {
            db.remove(&key_of(r.before.as_ref().unwrap()));
        },
        RowType::Update => {
            db.remove(&key_of(r.before.as_ref().unwrap()));
            let a = r.after.clone().unwrap();
            db.insert(key_of(&a), a);
        },
    }
}

#[test]
fn merged_sets_replay_like_the_stream() {
    let stream = vec![
        ins(1, "a"),
        upd(2, "x", 2, "y"),
        del(3),
        ins(3, "c"),
        upd(1, "a", 1, "b"),
        del(2),
        upd(4, "p", 5, "p"),
        ins(6, "z"),
        del(5),
    ];
    let mut initial = std::collections::BTreeMap::new();
    for (k, v) in [(2, "x"), (3, "old"), (4, "p"), (9, "keep")] {
        initial.insert(k, img(ColValue::Long(k), v));
    }
    let mut direct = initial.clone();
    for r in &stream {
        apply(&mut direct, r);
    }
    let mut m = merge_all(stream);
    let deletes = m.get_delete_rows();
    let inserts = m.get_insert_rows();
    let unmerged = m.get_unmerged_rows();
    assert_eq!(unmerged.len(), 3);
    // deletes and inserts in reverse order too: order within a set does not matter
    for order in [false, true] {
        let mut replay = initial.clone();
        let mut d = deletes.clone();
        let mut i = inserts.clone();
        if order {
            d.reverse();
            i.reverse();
        }
        for r in d.iter().chain(i.iter()).chain(unmerged.iter()) {
            apply(&mut replay, r);
        }
        assert_eq!(replay, direct);
    }
}

use dt_core::meta::{choose_id_cols, RdbTbMeta, TbMetaCache};

fn s(x: &str) -> String {
    x.to_string()
}

fn keys(v: Vec<(&str, Vec<&str>)>) -> Vec<(String, Vec<String>)> {
    v.into_iter().map(|(k, c)| (s(k), c.into_iter().map(s).collect())).collect()
}

fn meta(schema: &str, tb: &str) -> RdbTbMeta {
    RdbTbMeta::new(s(schema), s(tb), vec![s("id")], keys(vec![("primary", vec!["id"])]), vec![], vec![])
}

#[test]
fn id_cols_prefer_primary() {
    let k = keys(vec![("uk_a", vec!["a"]), ("primary", vec!["x", "y"]), ("uk_b", vec!["b"])]);
    assert_eq!(choose_id_cols(&k), vec![s("x"), s("y")]);
}

#[test]
fn id_cols_fewest_columns_then_name() {
    let k = keys(vec![("uk_z", vec!["a", "b"]), ("uk_m", vec!["c"]), ("uk_b", vec!["d"])]);
    assert_eq!(choose_id_cols(&k), vec![s("d")]);
    assert!(choose_id_cols(&vec![]).is_empty());
}

#[test]
fn order_and_partition_columns() {
    let m = meta("db", "t");
    assert_eq!(m.id_cols, vec![s("id")]);
    assert_eq!(m.order_col, Some(s("id")));
    assert_eq!(m.partition_col, s("id"));
    let m2 = RdbTbMeta::new(s("db"), s("t"), vec![], keys(vec![("uk", vec!["a", "b"])]), vec![], vec![]);
    assert_eq!(m2.order_col, None);
    assert_eq!(m2.partition_col, s("a"));
    let m3 = RdbTbMeta::new(s("db"), s("t"), vec![], vec![], vec![], vec![]);
    assert!(m3.id_cols.is_empty());
    assert_eq!(m3.partition_col, s(""));
}

#[test]
fn cache_key_is_case_insensitive() {
    let mut c = TbMetaCache::new();
    c.put(meta("db", "t"));
    assert!(c.get(&s("DB"), &s("T")).is_some());
    assert!(c.get(&s("db"), &s("other")).is_none());
}

#[test]
fn invalidation_by_table_misses_next_read() {
    let mut c = TbMetaCache::new();
    c.put(meta("db", "t"));
    c.put(meta("db", "u"));
    c.invalidate_cache(&s("db"), &s("t"));
    assert!(c.get(&s("db"), &s("t")).is_none());
    assert!(c.get(&s("db"), &s("u")).is_some());
}

#[test]
fn invalidation_with_empty_name_clears_all() {
    let mut c = TbMetaCache::new();
    c.put(meta("db", "t"));
    c.put(meta("db", "u"));
    c.invalidate_cache(&s("db"), &s(""));
    assert!(c.get(&s("db"), &s("t")).is_none());
    assert!(c.get(&s("db"), &s("u")).is_none());
}

#[test]
fn put_replaces_existing_entry() {
    let mut c = TbMetaCache::new();
    c.put(meta("db", "t"));
    let mut m = meta("DB", "T");
    m.cols = vec![s("id"), s("extra")];
    c.put(m);
    assert_eq!(c.entries.len(), 1);
    assert_eq!(c.get(&s("db"), &s("t")).unwrap().cols.len(), 2);
}

#[test]
fn order_column_falls_back_to_single_column_unique_key() {
    let m = RdbTbMeta::new(s("db"), s("t"), vec![], keys(vec![("primary", vec!["x", "y"]), ("uk_c", vec!["c"]), ("uk_d", vec!["d"])]), vec![], vec![]);
    assert_eq!(m.id_cols, vec![s("x"), s("y")]);
    assert_eq!(m.order_col, Some(s("c")));
    let m = RdbTbMeta::new(s("db"), s("t"), vec![], keys(vec![("uk_c", vec!["c"]), ("primary", vec!["x"])]), vec![], vec![]);
    assert_eq!(m.order_col, Some(s("x")));
}

#[test]
fn invalidation_keeps_other_metadata() {
    let mut c = TbMetaCache::new();
    c.put(meta("db", "t"));
    let mut u = meta("db", "u");
    u.cols = vec![s("a"), s("b")];
    c.put(u);
    c.invalidate_cache(&s("db"), &s("t"));
    assert_eq!(c.get(&s("db"), &s("u")).unwrap().cols, vec![s("a"), s("b")]);
}

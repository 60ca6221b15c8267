use dt_core::dt_data::{DtData, RedisEntry};
use dt_core::error::Error;
use dt_core::redis::{calc_key_slot, RedisParallelizer, Route};
use std::collections::HashMap;

fn entry(name: &str, keys: Vec<&str>) -> DtData {
    DtData::Redis {
        entry: RedisEntry {
            is_raw: false,
            cmd_name: name.to_string(),
            args: vec![],
            keys: keys.into_iter().map(|k| k.as_bytes().to_vec()).collect(),
        },
    }
}

fn cluster() -> (RedisParallelizer, Vec<String>) {
    let mut map = HashMap::new();
    for slot in 0u16..16384 {
        let node = if slot < 8192 { "node-a" } else { "node-b" };
        map.insert(slot, node.to_string());
    }
    (RedisParallelizer { parallel_size: 2, slot_node_map: map }, vec!["node-b".to_string(), "node-a".to_string()])
}

#[test]
fn key_slots_match_redis_cluster() {
    assert_eq!(calc_key_slot(&b"123456789".to_vec()), 12739);
    assert_eq!(calc_key_slot(&b"foo".to_vec()), 12182);
    assert_eq!(calc_key_slot(&b"a".to_vec()), 15495);
    assert_eq!(calc_key_slot(&b"{tag}b".to_vec()), calc_key_slot(&b"tag".to_vec()));
    assert_eq!(calc_key_slot(&b"{user1000}.following".to_vec()), 3443);
    assert_eq!(calc_key_slot(&b"{user1000}.followers".to_vec()), 3443);
    // an empty tag does not count: the whole key is hashed
    assert_eq!(calc_key_slot(&b"foo{}{bar}".to_vec()), 8363);
    assert_eq!(calc_key_slot(&b"".to_vec()), 0);
}

#[test]
fn cross_slot_command_is_refused() {
    let (par, ids) = cluster();
    let r = par.sink_raw_routes(&vec![entry("set", vec!["x"]), entry("MSET", vec!["a", "{tag}b"])], &ids);
    assert!(matches!(r, Err(Error::RedisCmdError { cmd }) if cmd == "MSET"));
}

#[test]
fn routes_follow_slot_owner() {
    let (par, ids) = cluster();
    assert_eq!(par.get_name(), "RedisParallelizer");
    // "a" is in slot 15495 (node-b, sinker 0); "tag" in 8338 (node-b); "123456789" in 12739
    // "{user1000}.x" in 3443 (node-a, sinker 1)
    let routes = par
        .sink_raw_routes(
            &vec![
                entry("set", vec!["a"]),
                entry("mset", vec!["{user1000}.x", "{user1000}.y"]),
                entry("swapdb", vec![]),
            ],
            &ids,
        )
        .unwrap();
    assert_eq!(routes, vec![Route::Node(0), Route::Node(1), Route::All]);
}

#[test]
fn without_cluster_everything_goes_to_first_sinker() {
    let par = RedisParallelizer { parallel_size: 1, slot_node_map: HashMap::new() };
    let routes = par.sink_raw_routes(&vec![entry("mset", vec!["a", "{tag}b"]), entry("swapdb", vec![])], &vec![]).unwrap();
    assert_eq!(routes, vec![Route::Node(0), Route::Node(0)]);
}

#[test]
fn unserved_slot_is_an_error() {
    let mut map = HashMap::new();
    map.insert(15495u16, "node-z".to_string());
    let par = RedisParallelizer { parallel_size: 1, slot_node_map: map };
    assert!(matches!(par.route(&entry("get", vec!["foo"]), &vec!["node-z".to_string()]), Err(Error::RedisRouteError { slot: 12182 })));
    assert!(matches!(par.route(&entry("get", vec!["a"]), &vec!["node-y".to_string()]), Err(Error::RedisRouteError { slot: 15495 })));
    assert_eq!(par.route(&entry("get", vec!["a"]), &vec!["node-y".to_string(), "node-z".to_string()]).unwrap(), Route::Node(1));
}

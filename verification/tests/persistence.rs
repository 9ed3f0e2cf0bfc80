use redis_core::connection::RedisConnectionHandler;
use redis_core::rdb::{LoadOutcome, RdbPersistence, RedisData};

fn ask(handler: &mut RedisConnectionHandler, request: &str, now: u64) -> String {
    handler.handle_request(request, now).expect("a reply")
}

fn words(list: &[&str]) -> Vec<String> {
    list.iter().map(|w| w.to_string()).collect()
}

fn with_path() -> RedisConnectionHandler {
    RedisConnectionHandler::new(Some("redis_data.rdb".to_string()))
}

#[test]
fn saved_text_is_the_json_of_the_two_lists() {
    let mut handler = with_path();
    assert_eq!(handler.save_to_rdb(), Some("[[],[]]".to_string()));
    ask(&mut handler, "SET a 1", 0);
    assert_eq!(handler.save_to_rdb(), Some(r#"[[["a","1"]],[["a",null]]]"#.to_string()));
    ask(&mut handler, "SET d v EX 100", 1_000_000);
    assert_eq!(
        handler.save_to_rdb(),
        Some(r#"[[["a","1"],["d","v"]],[["a",null],["d",1100000]]]"#.to_string())
    );
}

#[test]
fn rdb_save_gives_text_only_with_a_path() {
    let data = RedisData {
        store: vec![("k".to_string(), "v".to_string())],
        expiry: vec![("k".to_string(), Some(7))],
    };
    let kept = RdbPersistence::new(Some("file".to_string()));
    assert_eq!(kept.save_to_rdb(&data), Some(r#"[[["k","v"]],[["k",7]]]"#.to_string()));
    let none = RdbPersistence::new(None);
    assert_eq!(none.save_to_rdb(&data), None);
}

#[test]
fn rdb_load_reads_the_two_lists() {
    let kept = RdbPersistence::new(Some("file".to_string()));
    let data = kept
        .load_from_rdb(Some(r#" [ [["k","v"],["j","w"]] , [["k",7],["j",null]] ] "#))
        .expect("a snapshot");
    assert_eq!(
        data.store,
        vec![("k".to_string(), "v".to_string()), ("j".to_string(), "w".to_string())]
    );
    assert_eq!(data.expiry, vec![("k".to_string(), Some(7)), ("j".to_string(), None)]);
}

#[test]
fn rdb_load_gives_nothing_without_path_text_or_sense() {
    let kept = RdbPersistence::new(Some("file".to_string()));
    assert!(kept.load_from_rdb(None).is_none());
    for bad in [
        "",
        "not json",
        "{}",
        "[]",
        "[[]]",
        "[[],[],[]]",
        "[[],[]] trailing",
        r#"[[["k"]],[]]"#,
        r#"[[["k",1]],[]]"#,
        r#"[[["k","v"]],[["k","soon"]]]"#,
        r#"[[["k","v"]],[["k",-1]]]"#,
        r#"[[["k","v"]],[["k",1.5]]]"#,
        r#"[[["k","v"]],[["k",340282366920938463463374607431768211456]]]"#,
        r#"{"store":{"k":"v"},"expiry":{}}"#,
    ] {
        assert!(kept.load_from_rdb(Some(bad)).is_none(), "{:?}", bad);
    }
    let none = RdbPersistence::new(None);
    assert!(none.load_from_rdb(Some("[[],[]]")).is_none());
    assert!(none.load_from_rdb(None).is_none());
}

#[test]
fn outcome_of_encoding_and_decoding() {
    let failure = serde_json::from_str::<u8>("x").unwrap_err();
    assert_eq!(RdbPersistence::text_of_outcome(Err(failure)), None);
    assert_eq!(RdbPersistence::text_of_outcome(Ok("t".to_string())), Some("t".to_string()));
    let failure = serde_json::from_str::<u8>("x").unwrap_err();
    assert!(RdbPersistence::snapshot_of_outcome(Err(failure)).is_none());
    let data = RedisData { store: vec![("k".to_string(), "v".to_string())], expiry: vec![] };
    let taken = RdbPersistence::snapshot_of_outcome(Ok(data)).expect("a snapshot");
    assert_eq!(taken.store, vec![("k".to_string(), "v".to_string())]);
    assert_eq!(taken.expiry, vec![]);
}

#[test]
fn ttl_survives_a_restart() {
    let mut first = with_path();
    assert_eq!(ask(&mut first, "SET d v EX 100", 1_000_000), "+OK\r\n");
    let text = first.save_to_rdb().expect("a text");
    let mut second = with_path();
    assert_eq!(second.load_from_rdb(Some(&text)), LoadOutcome::Loaded);
    assert_eq!(ask(&mut second, "GET d", 1_010_000), "$1\r\nv\r\n");
    assert_eq!(ask(&mut second, "GET d", 1_099_999), "$1\r\nv\r\n");
    assert_eq!(ask(&mut second, "GET d", 1_100_000), "$-1\r\n");
}

#[test]
fn entry_that_expired_during_downtime_is_not_resurrected() {
    let mut first = with_path();
    ask(&mut first, "SET d v EX 5", 0);
    ask(&mut first, "SET keep v", 0);
    let text = first.save_to_rdb().expect("a text");
    let mut second = with_path();
    second.load_from_rdb(Some(&text));
    assert_eq!(ask(&mut second, "GET d", 60_000), "$-1\r\n");
    assert_eq!(ask(&mut second, "GET keep", 60_000), "$1\r\nv\r\n");
    assert_eq!(second.run_expiry_cycle(60_000), vec!["d".to_string()]);
}

#[test]
fn save_then_load_gives_back_every_entry() {
    let mut first = with_path();
    first.dispatch(&words(&["SET", "plain", "value"]), 0);
    first.dispatch(&words(&["SET", "quote\"and\\slash", "line\nbreak\ttab"]), 0);
    first.dispatch(&words(&["SET", "h\u{e9}llo \u{1f600}", "\u{0}\u{1f}\u{7f}"]), 0);
    first.dispatch(&words(&["SET", "", ""]), 0);
    first.dispatch(&words(&["SET", "soon", "x", "EX", "1"]), 500);
    first.dispatch(&words(&["SET", "far", "y", "EX", "18446744073709551615"]), u64::MAX);
    let text = first.save_to_rdb().expect("a text");
    let mut second = with_path();
    second.dispatch(&words(&["SET", "stale", "z"]), 0);
    second.load_from_rdb(Some(&text));
    assert_eq!(second.save_to_rdb(), Some(text));
    for now in [0u64, 1_499, 1_500, u64::MAX] {
        for key in ["plain", "quote\"and\\slash", "h\u{e9}llo \u{1f600}", "", "soon", "far", "stale"]
        {
            let request = words(&["GET", key]);
            assert_eq!(second.dispatch(&request, now), first.dispatch(&request, now));
        }
    }
    assert_eq!(second.dispatch(&words(&["GET", "stale"]), 0), "$-1\r\n");
    assert_eq!(second.dispatch(&words(&["GET", "far"]), u64::MAX), "$1\r\ny\r\n");
    let mut first_deadlines = first.snapshot().expiry;
    first_deadlines.sort();
    let mut second_deadlines = second.snapshot().expiry;
    second_deadlines.sort();
    assert_eq!(first_deadlines, second_deadlines);
}

#[test]
fn without_a_path_nothing_is_saved_or_loaded() {
    let mut handler = RedisConnectionHandler::new(None);
    ask(&mut handler, "SET a 1", 0);
    assert_eq!(handler.save_to_rdb(), None);
    assert_eq!(handler.load_from_rdb(Some(r#"[[["b","2"]],[]]"#)), LoadOutcome::Absent);
    assert_eq!(ask(&mut handler, "GET a", 0), "$1\r\n1\r\n");
    assert_eq!(ask(&mut handler, "GET b", 0), "$-1\r\n");
}

#[test]
fn load_without_a_text_leaves_the_store() {
    let mut handler = with_path();
    ask(&mut handler, "SET a 1", 0);
    assert_eq!(handler.load_from_rdb(None), LoadOutcome::Absent);
    assert_eq!(ask(&mut handler, "GET a", 0), "$1\r\n1\r\n");
}

#[test]
fn load_of_a_refused_text_leaves_the_store() {
    let mut handler = with_path();
    ask(&mut handler, "SET a 1", 0);
    assert_eq!(handler.load_from_rdb(Some("{ broken")), LoadOutcome::Corrupt);
    assert_eq!(ask(&mut handler, "GET a", 0), "$1\r\n1\r\n");
    assert_eq!(handler.load_from_rdb(Some("")), LoadOutcome::Corrupt);
    assert_eq!(ask(&mut handler, "GET a", 0), "$1\r\n1\r\n");
}

#[test]
fn load_replaces_what_the_store_held() {
    let mut handler = with_path();
    ask(&mut handler, "SET a 1", 0);
    assert_eq!(handler.load_from_rdb(Some(r#"[[["b","2"]],[["b",500]]]"#)), LoadOutcome::Loaded);
    assert_eq!(ask(&mut handler, "GET a", 0), "$-1\r\n");
    assert_eq!(ask(&mut handler, "GET b", 499), "$1\r\n2\r\n");
    assert_eq!(ask(&mut handler, "GET b", 500), "$-1\r\n");
}

#[test]
fn load_takes_the_last_of_repeated_keys_and_drops_stray_deadlines() {
    let mut handler = with_path();
    handler.load_from_rdb(Some(
        r#"[[["k","first"],["k","last"]],[["k",10],["k",20],["ghost",5]]]"#,
    ));
    assert_eq!(ask(&mut handler, "GET k", 19), "$4\r\nlast\r\n");
    assert_eq!(ask(&mut handler, "GET k", 20), "$-1\r\n");
    assert_eq!(ask(&mut handler, "GET ghost", 0), "$-1\r\n");
    assert_eq!(handler.snapshot().store.len(), 1);
}

#[test]
fn restore_takes_a_snapshot_or_leaves_the_store() {
    let mut handler = RedisConnectionHandler::new(None);
    ask(&mut handler, "SET a 1", 0);
    handler.restore(None);
    assert_eq!(ask(&mut handler, "GET a", 0), "$1\r\n1\r\n");
    let data = RedisData {
        store: vec![("b".to_string(), "2".to_string())],
        expiry: vec![("b".to_string(), Some(500))],
    };
    handler.restore(Some(data));
    assert_eq!(ask(&mut handler, "GET a", 0), "$-1\r\n");
    assert_eq!(ask(&mut handler, "GET b", 499), "$1\r\n2\r\n");
    assert_eq!(ask(&mut handler, "GET b", 500), "$-1\r\n");
}

#[test]
fn snapshot_of_the_handler_lists_every_entry() {
    let mut handler = RedisConnectionHandler::new(None);
    ask(&mut handler, "SET a 1", 0);
    ask(&mut handler, "SET b 2 EX 3", 1_000);
    let data = handler.snapshot();
    assert_eq!(
        data.store,
        vec![("a".to_string(), "1".to_string()), ("b".to_string(), "2".to_string())]
    );
    assert_eq!(data.expiry, vec![("a".to_string(), None), ("b".to_string(), Some(4_000))]);
}

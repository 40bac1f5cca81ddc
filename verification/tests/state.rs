use quill_core::json::{parse_json, print_json, Json};
use quill_core::state::{
    quill_shared_get, quill_shared_incr, quill_shared_keys, quill_shared_remove, quill_shared_set,
    SharedState,
};

fn read(state: &SharedState, key: &str) -> String {
    let mut out = [0xffu8; 64];
    let len = quill_shared_get(state, Some(key.as_bytes()), &mut out);
    assert_eq!(out[len], 0);
    String::from_utf8(out[..len].to_vec()).unwrap()
}

#[test]
fn test_basic_set_get() {
    let mut state = SharedState::new();
    state.set("key1".to_string(), Json::Integer(100));
    assert_eq!(state.get_ref("key1").and_then(|v| v.as_i64()), Some(100));
}

#[test]
fn test_massive_key_churn() {
    let mut state = SharedState::new();
    let count = 100000; // 1M is too slow for normal cargo test, using 100k
    for i in 0..count {
        state.set(format!("key_{}", i), Json::Integer(i as i64));
    }

    for i in 0..count {
        assert_eq!(
            state
                .get_ref(&format!("key_{}", i))
                .and_then(|v| v.as_i64()),
            Some(i as i64)
        );
    }
}

#[test]
fn test_ffi_invalid_utf8() {
    let mut state = SharedState::new();
    let invalid_key = [0, 159, 146, 150];
    let val = b"123";
    let res = quill_shared_set(&mut state, Some(&invalid_key), Some(val));
    assert_eq!(res, 0);
    assert_eq!(state.get_ref("").and_then(|v| v.as_i64()), Some(123));
}

#[test]
fn test_ffi_null_pointer_safety() {
    let mut state = SharedState::new();
    let res = quill_shared_set(&mut state, None, None);
    assert_eq!(res, 1);
    assert_eq!(state.keys().len(), 0);
}

#[test]
fn many_increments_add_up() {
    let mut state = SharedState::new();
    let callers = 100;
    let iterations = 1000;
    for _ in 0..callers {
        for _ in 0..iterations {
            state.increment("global_counter", 1);
        }
    }
    assert_eq!(
        state.get_ref("global_counter").and_then(|v| v.as_i64()),
        Some((callers * iterations) as i64)
    );
}

#[test]
fn a_soaked_store_counts_from_what_is_no_number() {
    let mut state = SharedState::new();
    for t in 0..20 {
        let key = format!("thread_{}", t);
        for _ in 0..50 {
            assert_eq!(quill_shared_set(&mut state, Some(key.as_bytes()), Some(b"\"value\"")), 0);
            assert_eq!(read(&state, &key), "\"value\"");
            assert_eq!(quill_shared_incr(&mut state, Some(key.as_bytes()), 1), 1);
            assert_eq!(read(&state, &key), "1");
        }
    }
    assert_eq!(state.keys().len(), 20);
}

#[test]
fn what_is_stored_reads_as_the_same_document() {
    let mut state = SharedState::new();
    let text = " {\"a\" : [1, -2, \"x\\ny\", null, true], \"a\": {} } ";
    assert_eq!(quill_shared_set(&mut state, Some(b"k"), Some(text.as_bytes())), 0);
    let again = read(&state, "k");
    assert_eq!(again, "{\"a\":[1,-2,\"x\\ny\",null,true],\"a\":{}}");
    assert_eq!(print_json(&parse_json(&again).unwrap()), again);
}

#[test]
fn a_refused_document_leaves_the_store_as_it_is() {
    let mut state = SharedState::new();
    assert_eq!(quill_shared_set(&mut state, Some(b"k"), Some(b"1")), 0);
    assert_eq!(quill_shared_set(&mut state, Some(b"k"), Some(b"{")), 1);
    assert_eq!(quill_shared_set(&mut state, Some(b"k"), Some(&[0xff])), 1);
    assert_eq!(quill_shared_set(&mut state, None, Some(b"2")), 1);
    assert_eq!(quill_shared_set(&mut state, Some(b"k"), None), 1);
    assert_eq!(read(&state, "k"), "1");
}

#[test]
fn a_document_is_cut_to_the_buffer() {
    let mut state = SharedState::new();
    quill_shared_set(&mut state, Some(b"k"), Some(b"123456"));
    let mut out = [9u8; 4];
    assert_eq!(quill_shared_get(&state, Some(b"k"), &mut out), 3);
    assert_eq!(out, *b"123\0");
    let mut none: [u8; 0] = [];
    assert_eq!(quill_shared_get(&state, Some(b"k"), &mut none), 0);
    let mut untouched = [9u8; 4];
    assert_eq!(quill_shared_get(&state, Some(b"other"), &mut untouched), 0);
    assert_eq!(quill_shared_get(&state, None, &mut untouched), 0);
    assert_eq!(untouched, [9u8; 4]);
}

#[test]
fn counters_move_by_steps() {
    let mut state = SharedState::new();
    assert_eq!(quill_shared_incr(&mut state, Some(b"n"), 5), 5);
    assert_eq!(quill_shared_incr(&mut state, Some(b"n"), -7), -2);
    assert_eq!(quill_shared_incr(&mut state, Some(b"m"), 1), 1);
    assert_eq!(state.current("n"), -2);
    assert_eq!(quill_shared_incr(&mut state, None, 1), 0);
}

#[test]
fn a_counter_does_not_leave_its_range() {
    let mut state = SharedState::new();
    quill_shared_set(&mut state, Some(b"n"), Some(b"9223372036854775807"));
    assert_eq!(quill_shared_incr(&mut state, Some(b"n"), 1), 0);
    assert_eq!(read(&state, "n"), "9223372036854775807");
    assert_eq!(quill_shared_incr(&mut state, Some(b"n"), -1), 9223372036854775806);
}

#[test]
fn a_number_beyond_signed_range_counts_from_zero() {
    let mut state = SharedState::new();
    quill_shared_set(&mut state, Some(b"n"), Some(b"18446744073709551615"));
    assert_eq!(state.current("n"), 0);
    assert_eq!(quill_shared_incr(&mut state, Some(b"n"), 3), 3);
}

#[test]
fn removal_takes_one_document_out() {
    let mut state = SharedState::new();
    quill_shared_set(&mut state, Some(b"a"), Some(b"1"));
    quill_shared_set(&mut state, Some(b"b"), Some(b"2"));
    quill_shared_set(&mut state, Some(b"c"), Some(b"3"));
    assert_eq!(quill_shared_remove(&mut state, Some(b"a")), 0);
    assert_eq!(quill_shared_remove(&mut state, Some(b"a")), 1);
    assert_eq!(quill_shared_remove(&mut state, None), 1);
    assert!(state.get_ref("a").is_none());
    assert_eq!(read(&state, "b"), "2");
    assert_eq!(read(&state, "c"), "3");
    let taken = state.remove("b").unwrap();
    assert_eq!(taken.as_u64(), Some(2));
    assert!(state.remove("b").is_none());
}

#[test]
fn keys_are_listed_once_each() {
    let mut state = SharedState::new();
    let mut out = [0u8; 64];
    assert_eq!(quill_shared_keys(&state, &mut out), 2);
    assert_eq!(&out[..3], b"[]\0");
    for key in ["x", "y", "x"] {
        quill_shared_set(&mut state, Some(key.as_bytes()), Some(b"0"));
    }
    let mut keys = state.keys();
    keys.sort();
    assert_eq!(keys, vec!["x".to_string(), "y".to_string()]);
    let len = quill_shared_keys(&state, &mut out);
    let text = std::str::from_utf8(&out[..len]).unwrap();
    assert!(text == "[\"x\",\"y\"]" || text == "[\"y\",\"x\"]");
    let mut none: [u8; 0] = [];
    assert_eq!(quill_shared_keys(&state, &mut none), 0);
}

#[test]
fn steps_of_two_counters_commute() {
    let mut state = SharedState::new();
    let mut other = SharedState::new();
    state.increment("a", 2);
    state.increment("b", 3);
    other.increment("b", 3);
    other.increment("a", 2);
    for key in ["a", "b"] {
        assert_eq!(state.current(key), other.current(key));
    }
}

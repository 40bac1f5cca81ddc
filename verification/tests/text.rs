use quill_core::float::float_less;
use quill_core::pairs::{find_pair, put_pair, put_text, put_texts};
use quill_core::tables::{IdTable, NameTable};
use quill_core::text::{decimal_text, put_c_text, read_text, same_text};

fn pair(name: &str, value: &str) -> (String, String) {
    (name.to_string(), value.to_string())
}

#[test]
fn bytes_read_as_text_or_as_the_fallback() {
    assert_eq!(read_text("h\u{e9}".as_bytes(), "no"), "h\u{e9}");
    assert_eq!(read_text(&[0xff, 0xfe], "no"), "no");
    assert_eq!(read_text(&[], "no"), "");
}

#[test]
fn texts_are_compared_whole() {
    assert!(same_text("abc", "abc"));
    assert!(!same_text("abc", "abd"));
    assert!(!same_text("ab", "abc"));
    assert!(same_text("", ""));
}

#[test]
fn a_text_is_cut_and_ended_by_a_nul() {
    let mut room = [9u8; 6];
    assert_eq!(put_c_text("abc", &mut room), 3);
    assert_eq!(&room, b"abc\0\x09\x09");
    let mut exact = [9u8; 4];
    assert_eq!(put_c_text("abc", &mut exact), 3);
    assert_eq!(&exact, b"abc\0");
    let mut short = [9u8; 3];
    assert_eq!(put_c_text("abc", &mut short), 2);
    assert_eq!(&short, b"ab\0");
    let mut one = [9u8; 1];
    assert_eq!(put_c_text("abc", &mut one), 0);
    assert_eq!(one, [0]);
    let mut none: [u8; 0] = [];
    assert_eq!(put_c_text("abc", &mut none), 0);
}

#[test]
fn numbers_are_written_in_digits() {
    for n in [0, 9, 10, 99, 100, 12345678901, u64::MAX] {
        assert_eq!(decimal_text(n), n.to_string());
    }
}

#[test]
fn floats_are_ordered_by_their_bits() {
    let numbers = [
        f64::NEG_INFINITY,
        -2.5,
        -5e-324,
        -0.0,
        0.0,
        5e-324,
        1.0,
        1e300,
        f64::INFINITY,
        f64::NAN,
        -f64::NAN,
    ];
    for a in numbers {
        for b in numbers {
            assert_eq!(float_less(a.to_bits(), b.to_bits()), a < b);
        }
    }
}

#[test]
fn a_name_is_put_in_its_place_or_at_the_end() {
    let mut entries = vec![("a".to_string(), 1), ("b".to_string(), 2)];
    put_pair(&mut entries, "a".to_string(), 3);
    put_pair(&mut entries, "c".to_string(), 4);
    assert_eq!(entries, vec![("a".to_string(), 3), ("b".to_string(), 2), ("c".to_string(), 4)]);
    assert_eq!(find_pair(&entries, "b"), Some(1));
    assert_eq!(find_pair(&entries, "d"), None);
}

#[test]
fn the_last_of_several_values_counts() {
    let mut entries = vec![pair("a", "1")];
    put_text(&mut entries, "b", "2");
    put_texts(&mut entries, &vec![pair("c", "3"), pair("a", "4"), pair("c", "5")]);
    assert_eq!(entries, vec![pair("a", "4"), pair("b", "2"), pair("c", "5")]);
}

#[test]
fn a_name_table_keeps_its_entries_apart() {
    let mut table: NameTable<u32> = NameTable::new();
    assert_eq!(table.len(), 0);
    table.set("a".to_string(), 1);
    table.set("b".to_string(), 2);
    table.set("c".to_string(), 3);
    table.set("a".to_string(), 4);
    assert_eq!(table.len(), 3);
    assert_eq!(table.remove("a"), Some(4));
    assert_eq!(table.remove("a"), None);
    assert_eq!(table.get("b"), Some(&2));
    assert_eq!(table.get("c"), Some(&3));
    assert_eq!(table.get("a"), None);
    let mut names = table.names();
    names.sort();
    assert_eq!(names, vec!["b".to_string(), "c".to_string()]);
}

#[test]
fn an_id_table_keeps_its_entries_apart() {
    let mut table: IdTable<&str> = IdTable::new();
    for id in 0..100 {
        table.set(id, "x");
    }
    table.set(7, "y");
    assert_eq!(table.remove(3), Some("x"));
    assert_eq!(table.remove(3), None);
    assert_eq!(table.get(7), Some(&"y"));
    assert_eq!(table.get(99), Some(&"x"));
    assert_eq!(table.get(100), None);
    table.set(3, "z");
    assert_eq!(table.get(3), Some(&"z"));
}

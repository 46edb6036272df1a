use spoolq::name::{
    consumed_name, ends_with, incoming_name, is_plain_name, item_name_string, item_state,
    lex_less, order_key_string, restored_name, ItemState,
};

#[test]
fn order_key_is_sixteen_hex_digits() {
    assert_eq!(order_key_string(0), "0000000000000000");
    assert_eq!(order_key_string(255), "00000000000000ff");
    assert_eq!(order_key_string(0x1234_abcd), "000000001234abcd");
    assert_eq!(order_key_string(u64::MAX), "ffffffffffffffff");
}

#[test]
fn order_keys_sort_like_counters() {
    for a in 0u64..40 {
        for b in 0u64..40 {
            let ka = order_key_string(a * 7919);
            let kb = order_key_string(b * 7919);
            assert_eq!(lex_less(&ka, &kb), a < b);
        }
    }
}

#[test]
fn item_name_joins_key_and_nonce() {
    assert_eq!(
        item_name_string(10, "AbC_-9").unwrap(),
        "000000000000000a-AbC_-9"
    );
    assert!(item_name_string(1, "").is_none());
    assert!(item_name_string(1, "a.b").is_none());
    assert!(item_name_string(1, "a/b").is_none());
}

#[test]
fn item_names_with_later_counters_sort_later() {
    let a = item_name_string(9, "zzzz").unwrap();
    let b = item_name_string(10, "AAAA").unwrap();
    assert!(lex_less(&a, &b));
    assert!(!lex_less(&b, &a));
}

#[test]
fn suffixes_mark_states() {
    assert_eq!(incoming_name("abc"), "abc.incoming");
    assert_eq!(consumed_name("abc"), "abc.consumed");
    assert_eq!(item_state("abc"), ItemState::Visible);
    assert_eq!(item_state("abc.incoming"), ItemState::Incoming);
    assert_eq!(item_state("abc.consumed"), ItemState::Consumed);
    assert_eq!(item_state(".consumed"), ItemState::Foreign);
    assert_eq!(item_state("a.b.consumed"), ItemState::Foreign);
    assert_eq!(item_state("abc.txt"), ItemState::Foreign);
    assert_eq!(item_state(""), ItemState::Foreign);
}

#[test]
fn restored_name_strips_consumed_suffix() {
    assert_eq!(restored_name("0001-xy.consumed"), Some("0001-xy".to_string()));
    assert_eq!(restored_name("0001-xy"), None);
    assert_eq!(restored_name("0001-xy.incoming"), None);
}

#[test]
fn plain_names_and_suffix_checks() {
    assert!(is_plain_name("a-b_c"));
    assert!(!is_plain_name(""));
    assert!(!is_plain_name("."));
    assert!(ends_with("hello.consumed", ".consumed"));
    assert!(!ends_with("hello", ".consumed"));
    assert!(ends_with("x", ""));
}

#[test]
fn lexicographic_order_by_code_point() {
    assert!(lex_less("", "a"));
    assert!(!lex_less("a", ""));
    assert!(!lex_less("abc", "abc"));
    assert!(lex_less("abc", "abd"));
    assert!(lex_less("ab", "abc"));
    assert!(lex_less("B", "a"));
    assert!(!lex_less("b", "aa"));
}

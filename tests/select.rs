use spoolq::select::{flush_targets, pop_rename, recover_moves, select_first, select_oldest};

fn listing(names: &[&str]) -> Vec<String> {
    names.iter().map(|n| n.to_string()).collect()
}

#[test]
fn fast_policy_takes_first_visible() {
    let ls = listing(&["a.incoming", "b.consumed", "c", "a"]);
    assert_eq!(select_first(&ls), Some(2));
    assert_eq!(select_first(&listing(&["a.incoming", "b.consumed"])), None);
    assert_eq!(select_first(&Vec::new()), None);
}

#[test]
fn fair_policy_takes_smallest_visible() {
    let ls = listing(&["0003-x", "0001-y.consumed", "0002-z", "0000-w.incoming", "0004-v"]);
    assert_eq!(select_oldest(&ls), Some(2));
    assert_eq!(select_oldest(&listing(&["x.consumed"])), None);
}

#[test]
fn pop_renames_to_consumed() {
    let ls = listing(&["k.consumed", "k2"]);
    assert_eq!(
        pop_rename(&ls),
        Some(("k2".to_string(), "k2.consumed".to_string()))
    );
    assert_eq!(pop_rename(&listing(&["k.consumed"])), None);
}

#[test]
fn flush_deletes_only_consumed() {
    let ls = listing(&["a", "b.consumed", "c.incoming", "d.consumed", "e.f"]);
    assert_eq!(flush_targets(&ls), listing(&["b.consumed", "d.consumed"]));
    assert!(flush_targets(&listing(&["a", "b"])).is_empty());
}

#[test]
fn recover_restores_only_consumed() {
    let ls = listing(&["a", "b.consumed", "c.incoming", "d.consumed"]);
    assert_eq!(
        recover_moves(&ls),
        vec![
            ("b.consumed".to_string(), "b".to_string()),
            ("d.consumed".to_string(), "d".to_string()),
        ]
    );
    assert!(recover_moves(&listing(&["a", "c.incoming"])).is_empty());
}

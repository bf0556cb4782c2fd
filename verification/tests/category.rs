use gbtree::category::build_category_map;

fn some(s: &str) -> Option<String> {
    Some(s.to_string())
}

#[test]
fn first_seen_order_not_alphabetical() {
    let values = vec![some("b"), some("a"), some("b"), None, some("c")];
    let m = build_category_map(&values);
    assert_eq!(m.lookup(&some("b")), 0);
    assert_eq!(m.lookup(&some("a")), 1);
    assert_eq!(m.lookup(&some("c")), 2);
}

#[test]
fn missing_and_unknown_map_to_255() {
    let values = vec![some("x")];
    let m = build_category_map(&values);
    assert_eq!(m.lookup(&None), 255);
    assert_eq!(m.lookup(&some("__MISSING__")), 255);
    assert_eq!(m.lookup(&some("never seen")), 255);
    assert_eq!(m.lookup(&some("x")), 0);
}

#[test]
fn cap_at_254_real_categories() {
    let values: Vec<Option<String>> = (0..300).map(|i| Some(format!("cat{}", i))).collect();
    let m = build_category_map(&values);
    assert_eq!(m.lookup(&some("cat0")), 0);
    assert_eq!(m.lookup(&some("cat253")), 253);
    // Values seen after the cap get no id of their own.
    assert_eq!(m.lookup(&some("cat254")), 255);
    assert_eq!(m.lookup(&some("cat299")), 255);
}

#[test]
fn literal_missing_key_consumes_an_id_but_answers_255() {
    let values = vec![some("__MISSING__"), some("x")];
    let m = build_category_map(&values);
    assert_eq!(m.lookup(&some("__MISSING__")), 255);
    assert_eq!(m.lookup(&some("x")), 1);
}

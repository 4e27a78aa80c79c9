use byzer_shell::history::History;

#[test]
fn history_records_in_order() {
    let mut h = History::new(10);
    assert_eq!(h.len(), 0);
    h.push("a;");
    h.push("b;");
    assert_eq!(h.len(), 2);
    assert_eq!(h.get(0).unwrap(), "a;");
    assert_eq!(h.get(1).unwrap(), "b;");
    assert!(h.get(2).is_none());
}

#[test]
fn history_evicts_oldest_first() {
    let mut h = History::new(2);
    h.push("a;");
    h.push("b;");
    h.push("c;");
    assert_eq!(h.len(), 2);
    assert_eq!(h.get(0).unwrap(), "b;");
    assert_eq!(h.get(1).unwrap(), "c;");
    h.push("d;");
    assert_eq!(h.get(0).unwrap(), "c;");
    assert_eq!(h.get(1).unwrap(), "d;");
}

#[test]
fn history_listing_lines() {
    let mut h = History::new(3);
    h.push("first;");
    h.push("second;");
    let lines = h.render_lines();
    assert_eq!(lines, vec![String::from("0: first;"), String::from("1: second;")]);
}

#[test]
fn history_capacity_is_kept() {
    let mut h = History::new(1);
    for line in ["a;", "b;", "c;", "d;"] {
        h.push(line);
        assert_eq!(h.len(), 1);
    }
    assert_eq!(h.get(0).unwrap(), "d;");
    assert_eq!(h.capacity(), 1);
}

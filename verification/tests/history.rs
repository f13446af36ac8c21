use juk_com::history::History;

#[test]
fn repeated_line_is_stored_once_and_browsing_returns_the_saved_line() {
    let mut h = History::new();
    h.add("ls");
    h.add("ls");
    assert_eq!(h.len(), 1);
    h.add("pwd");
    assert_eq!(h.len(), 2);
    assert_eq!(h.previous("draft"), Some("pwd"));
    assert_eq!(h.previous("ignored"), Some("ls"));
    assert_eq!(h.next(), Some("pwd".to_string()));
    assert_eq!(h.next(), Some("draft".to_string()));
    assert_eq!(h.next(), None);
}

#[test]
fn empty_history_has_nothing_to_show() {
    let mut h = History::new();
    assert_eq!(h.len(), 0);
    assert_eq!(h.previous("x"), None);
    assert_eq!(h.next(), None);
}

#[test]
fn blank_lines_are_not_added() {
    let mut h = History::new();
    h.add("");
    h.add("   ");
    h.add("\t\n");
    assert_eq!(h.len(), 0);
}

#[test]
fn lines_are_trimmed_when_added() {
    let mut h = History::new();
    h.add("  ls -l \n");
    assert_eq!(h.previous(""), Some("ls -l"));
    h.add(" ls -l");
    assert_eq!(h.len(), 1);
}

#[test]
fn only_adjacent_repeats_are_dropped() {
    let mut h = History::new();
    h.add("a");
    h.add("b");
    h.add("a");
    assert_eq!(h.len(), 3);
    assert_eq!(h.previous(""), Some("a"));
    assert_eq!(h.previous(""), Some("b"));
    assert_eq!(h.previous(""), Some("a"));
}

#[test]
fn previous_stops_at_the_oldest_entry() {
    let mut h = History::new();
    h.add("one");
    h.add("two");
    assert_eq!(h.previous("cur"), Some("two"));
    assert_eq!(h.previous("cur"), Some("one"));
    assert_eq!(h.previous("cur"), Some("one"));
    assert_eq!(h.previous("cur"), Some("one"));
    assert_eq!(h.next(), Some("two".to_string()));
    assert_eq!(h.next(), Some("cur".to_string()));
}

#[test]
fn the_seventeenth_line_evicts_the_oldest() {
    let mut h = History::new();
    for i in 0..16 {
        h.add(&format!("cmd{}", i));
    }
    assert_eq!(h.len(), 16);
    h.add("cmd16");
    assert_eq!(h.len(), 16);
    let mut oldest = String::new();
    for _ in 0..40 {
        oldest = h.previous("").unwrap().to_string();
    }
    assert_eq!(oldest, "cmd1");
    for _ in 0..20 {
        h.add("x");
        h.add("y");
    }
    assert_eq!(h.len(), 16);
}

#[test]
fn entries_come_back_newest_first() {
    let mut h = History::new();
    for i in 0..20 {
        h.add(&format!("c{}", i));
    }
    for i in 0..16 {
        assert_eq!(h.previous("live"), Some(format!("c{}", 19 - i).as_str()));
    }
    for i in 0..15 {
        assert_eq!(h.next(), Some(format!("c{}", 5 + i)));
    }
    assert_eq!(h.next(), Some("live".to_string()));
    assert_eq!(h.next(), None);
}

#[test]
fn adding_ends_browsing() {
    let mut h = History::new();
    h.add("a");
    h.add("b");
    assert_eq!(h.previous("cur"), Some("b"));
    assert_eq!(h.previous("cur"), Some("a"));
    h.add("c");
    assert_eq!(h.next(), None);
    assert_eq!(h.previous("new"), Some("c"));
    assert_eq!(h.next(), Some("new".to_string()));
}

#[test]
fn rejected_line_does_not_end_browsing() {
    let mut h = History::new();
    h.add("a");
    h.add("b");
    assert_eq!(h.previous("cur"), Some("b"));
    h.add("  ");
    h.add("b");
    assert_eq!(h.previous("cur"), Some("a"));
    assert_eq!(h.next(), Some("b".to_string()));
    assert_eq!(h.next(), Some("cur".to_string()));
}

#[test]
fn reset_view_drops_the_saved_line() {
    let mut h = History::new();
    h.add("a");
    assert_eq!(h.previous("cur"), Some("a"));
    h.reset_view();
    assert_eq!(h.next(), None);
    assert_eq!(h.previous("other"), Some("a"));
    assert_eq!(h.next(), Some("other".to_string()));
}

#[test]
fn the_saved_line_is_kept_as_given() {
    let mut h = History::new();
    h.add("a");
    assert_eq!(h.previous("  spaced  "), Some("a"));
    assert_eq!(h.next(), Some("  spaced  ".to_string()));
    assert_eq!(h.previous(""), Some("a"));
    assert_eq!(h.next(), Some(String::new()));
}

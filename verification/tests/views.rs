use ouniq::line_count::OrderedLineCount;

fn lines(items: &[&str]) -> Vec<String> {
    items.iter().map(|s| s.to_string()).collect()
}

fn runs(items: &[(usize, &str)]) -> Vec<(usize, String)> {
    items.iter().map(|&(c, s)| (c, s.to_string())).collect()
}

#[test]
fn group_happy_path() {
    let counts = OrderedLineCount::from_lines(&lines(&["a\n", "b\n", "b\n", "c\n"]));
    assert_eq!(counts.deduped(), runs(&[(1, "a\n"), (2, "b\n"), (1, "c\n")]));
}

#[test]
fn group_blank_lines() {
    let counts = OrderedLineCount::from_lines(&lines(&["a\n", "\n", "\n", "c\n"]));
    assert_eq!(counts.deduped(), runs(&[(1, "a\n"), (2, "\n"), (1, "c\n")]));
}

#[test]
fn group_no_dups() {
    let counts = OrderedLineCount::from_lines(&lines(&["a\n", "b\n", "c\n"]));
    assert_eq!(counts.deduped(), runs(&[(1, "a\n"), (1, "b\n"), (1, "c\n")]));
}

#[test]
fn group_empty() {
    let counts = OrderedLineCount::from_lines(&lines(&[]));
    assert_eq!(counts.deduped(), runs(&[]));
}

#[test]
fn group_single_line() {
    let counts = OrderedLineCount::from_lines(&lines(&["a\n"]));
    assert_eq!(counts.deduped(), runs(&[(1, "a\n")]));
}

#[test]
fn group_separated_runs_stay_apart() {
    let counts = OrderedLineCount::from_lines(&lines(&["b\n", "b\n", "a\n", "b\n", "b\n"]));
    assert_eq!(counts.deduped(), runs(&[(2, "b\n"), (1, "a\n"), (2, "b\n")]));
}

#[test]
fn group_keeps_terminator_distinct() {
    // "a" and "a\n" differ: equality is exact, terminator included
    let counts = OrderedLineCount::from_lines(&lines(&["a\n", "a"]));
    assert_eq!(counts.deduped(), runs(&[(1, "a\n"), (1, "a")]));
}

#[test]
fn only_unique_view() {
    let counts = OrderedLineCount::from_lines(&lines(&["a\n", "b\n", "b\n", "c\n"]));
    assert_eq!(counts.only_unique(), runs(&[(1, "a\n"), (1, "c\n")]));
}

#[test]
fn only_dups_view() {
    let counts = OrderedLineCount::from_lines(&lines(&["a\n", "b\n", "b\n", "c\n"]));
    assert_eq!(counts.only_dups(), runs(&[(2, "b\n")]));
}

#[test]
fn all_dups_view() {
    let counts = OrderedLineCount::from_lines(&lines(&["a\n", "b\n", "b\n", "c\n"]));
    assert_eq!(counts.all_dups(), lines(&["b\n", "b\n"]));
}

#[test]
fn all_dups_expands_each_run() {
    let counts = OrderedLineCount::from_lines(&lines(&["x\n", "x\n", "x\n", "y\n", "y\n"]));
    assert_eq!(counts.all_dups(), lines(&["x\n", "x\n", "x\n", "y\n", "y\n"]));
}

#[test]
fn empty_input_all_views() {
    assert_eq!(OrderedLineCount::from_lines(&lines(&[])).deduped(), runs(&[]));
    assert_eq!(OrderedLineCount::from_lines(&lines(&[])).only_unique(), runs(&[]));
    assert_eq!(OrderedLineCount::from_lines(&lines(&[])).only_dups(), runs(&[]));
    assert_eq!(
        OrderedLineCount::from_lines(&lines(&[])).all_dups(),
        Vec::<String>::new()
    );
}

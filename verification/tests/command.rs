use ouniq::options::Options;
use ouniq::Command;

fn lines(items: &[&str]) -> Vec<String> {
    items.iter().map(|s| s.to_string()).collect()
}

fn opts(count: bool, unique: bool, duplicated: bool, all_duplicated: bool) -> Options {
    Options {
        input: "-".to_string(),
        output: None,
        count,
        unique,
        duplicated,
        all_duplicated,
    }
}

#[test]
fn default_view() {
    let cmd = Command::from(opts(false, false, false, false));
    let out = cmd.run(lines(&["a\n", "b\n", "b\n", "c\n"]));
    assert_eq!(out, lines(&["a\n", "b\n", "c\n"]));
}

#[test]
fn counted_view() {
    let cmd = Command::from(opts(true, false, false, false));
    let out = cmd.run(lines(&["a\n", "b\n", "b\n", "c\n"]));
    assert_eq!(out, lines(&["   1 a\n", "   2 b\n", "   1 c\n"]));
}

#[test]
fn duplicated_view() {
    let cmd = Command::from(opts(false, false, true, false));
    let out = cmd.run(lines(&["a\n", "b\n", "b\n", "c\n"]));
    assert_eq!(out, lines(&["b\n"]));
}

#[test]
fn all_duplicated_view() {
    let cmd = Command::from(opts(false, false, false, true));
    let out = cmd.run(lines(&["a\n", "b\n", "b\n", "c\n"]));
    assert_eq!(out, lines(&["b\n", "b\n"]));
}

#[test]
fn unique_view() {
    let cmd = Command::from(opts(false, true, false, false));
    let out = cmd.run(lines(&["a\n", "b\n", "b\n", "c\n"]));
    assert_eq!(out, lines(&["a\n", "c\n"]));
}

#[test]
fn blank_line_run_default() {
    let cmd = Command::from(opts(false, false, false, false));
    let out = cmd.run(lines(&["a\n", "\n", "\n", "c\n"]));
    assert_eq!(out, lines(&["a\n", "\n", "c\n"]));
}

#[test]
fn blank_line_run_counted() {
    let cmd = Command::from(opts(true, false, false, false));
    let out = cmd.run(lines(&["a\n", "\n", "\n", "c\n"]));
    assert_eq!(out, lines(&["   1 a\n", "   2 \n", "   1 c\n"]));
}

#[test]
fn empty_input_every_configuration() {
    let configs = [
        (false, false, false, false),
        (true, false, false, false),
        (false, true, false, false),
        (false, false, true, false),
        (false, false, false, true),
        (true, true, false, false),
        (true, false, true, false),
    ];
    for &(c, u, d, a) in configs.iter() {
        let cmd = Command::from(opts(c, u, d, a));
        assert_eq!(cmd.run(Vec::new()), Vec::<String>::new());
    }
}

#[test]
fn conflict_is_detected() {
    let options = opts(true, false, false, true);
    assert!(options.has_conflict());
    assert!(!opts(true, false, false, false).has_conflict());
    assert!(!opts(false, false, false, true).has_conflict());
}

use ouniq::line_count::OrderedLineCount;

fn lines(items: &[&str]) -> Vec<String> {
    items.iter().map(|s| s.to_string()).collect()
}

fn group(input: &[&str]) -> Vec<(usize, String)> {
    OrderedLineCount::from_lines(&lines(input)).deduped()
}

#[test]
fn runs_reconstruct_input() {
    let input = lines(&["a\n", "b\n", "b\n", "c\n", "c\n", "c\n", "a\n"]);
    let mut rebuilt: Vec<String> = Vec::new();
    for (count, line) in OrderedLineCount::from_lines(&input).deduped() {
        for _ in 0..count {
            rebuilt.push(line.clone());
        }
    }
    assert_eq!(rebuilt, input);
}

#[test]
fn adjacent_runs_never_equal() {
    let runs = group(&["b\n", "b\n", "a\n", "b\n", "b\n", "b\n", "c\n"]);
    for pair in runs.windows(2) {
        assert_ne!(pair[0].1, pair[1].1);
    }
    for run in &runs {
        assert!(run.0 >= 1);
    }
}

#[test]
fn unique_and_dups_partition_runs() {
    let input = lines(&["a\n", "b\n", "b\n", "c\n", "c\n", "d\n"]);
    let all = OrderedLineCount::from_lines(&input).deduped();
    let unique = OrderedLineCount::from_lines(&input).only_unique();
    let dups = OrderedLineCount::from_lines(&input).only_dups();
    assert_eq!(unique.len() + dups.len(), all.len());
    for run in &unique {
        assert_eq!(run.0, 1);
        assert!(all.contains(run));
    }
    for run in &dups {
        assert!(run.0 > 1);
        assert!(all.contains(run));
    }
}

#[test]
fn all_dups_regroups_to_only_dups() {
    let input = lines(&["a\n", "b\n", "b\n", "c\n", "c\n", "d\n"]);
    let expanded = OrderedLineCount::from_lines(&input).all_dups();
    let regrouped = OrderedLineCount::from_lines(&expanded).deduped();
    let dups = OrderedLineCount::from_lines(&input).only_dups();
    assert_eq!(regrouped, dups);
}

#[test]
fn deduped_is_idempotent() {
    let input = lines(&["a\n", "a\n", "b\n", "c\n", "c\n"]);
    let once: Vec<String> = OrderedLineCount::from_lines(&input)
        .deduped()
        .into_iter()
        .map(|r| r.1)
        .collect();
    let twice: Vec<String> = OrderedLineCount::from_lines(&once)
        .deduped()
        .into_iter()
        .map(|r| r.1)
        .collect();
    assert_eq!(twice, once);
}

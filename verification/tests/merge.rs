use tmux_session::tmux::command::{load_windows, merge_windows_keeping_order};
use tmux_session::tmux::window::Window;

fn record(session: &str, name: &str, path: &str) -> Window {
    Window::from_str(&format!("{session}\t{name}\t{path} - 0000")).unwrap()
}

fn no_denylist() -> Vec<String> {
    Vec::new()
}

#[test]
fn merge_groups_repeated_identity() {
    let records = vec![record("S", "W", "/p1"), record("S", "W", "/p2"), record("S2", "W2", "/p3")];
    let merged = merge_windows_keeping_order(records);
    assert_eq!(merged.len(), 2);
    assert_eq!(merged[0].session(), "S");
    assert_eq!(merged[0].name(), "W");
    let paths: Vec<&str> = merged[0].panes().iter().map(|p| p.path()).collect();
    assert_eq!(paths, vec!["/p1", "/p2"]);
    assert_eq!(merged[1].session(), "S2");
    assert_eq!(merged[1].name(), "W2");
    let paths: Vec<&str> = merged[1].panes().iter().map(|p| p.path()).collect();
    assert_eq!(paths, vec!["/p3"]);
}

#[test]
fn merge_interleaved_identities() {
    // Repeats separated by other identities: the pane must land on the
    // entry with the matching identity, not at some positional guess.
    let records = vec![
        record("A", "a", "/a1"),
        record("B", "b", "/b1"),
        record("A", "a", "/a2"),
        record("C", "c", "/c1"),
        record("B", "b", "/b2"),
        record("A", "a", "/a3"),
    ];
    let merged = merge_windows_keeping_order(records);
    assert_eq!(merged.len(), 3);
    let summary: Vec<((String, String), Vec<&str>)> = merged
        .iter()
        .map(|w| (w.id(), w.panes().iter().map(|p| p.path()).collect()))
        .collect();
    assert_eq!(
        summary,
        vec![
            (("A".to_string(), "a".to_string()), vec!["/a1", "/a2", "/a3"]),
            (("B".to_string(), "b".to_string()), vec!["/b1", "/b2"]),
            (("C".to_string(), "c".to_string()), vec!["/c1"]),
        ]
    );
}

#[test]
fn merge_of_nothing_is_nothing() {
    assert!(merge_windows_keeping_order(Vec::new()).is_empty());
}

#[test]
fn identity_is_the_pair_not_a_joined_string() {
    // ("a:b", "c") and ("a", "b:c") would collide under a ":"-joined
    // string; as pairs they are distinct windows and never merge.
    let first = Window::from_str("a:b\tc\t/p - 0000").unwrap();
    let second = Window::from_str("a\tb:c\t/q - 0000").unwrap();
    assert_ne!(first.id(), second.id());
    let merged = merge_windows_keeping_order(vec![first, second]);
    assert_eq!(merged.len(), 2);
    assert_eq!(merged[0].id(), ("a:b".to_string(), "c".to_string()));
    assert_eq!(merged[1].id(), ("a".to_string(), "b:c".to_string()));
}

#[test]
fn load_merges_lines_in_first_seen_order() {
    let content = "dev\tmain\t/home - 0000\nops\tlogs\t/var - 0000\ndev\tmain\t/etc - 1000\n";
    let wins = load_windows(content, &no_denylist());
    assert_eq!(wins.len(), 2);
    assert_eq!(wins[0].id(), ("dev".to_string(), "main".to_string()));
    let paths: Vec<&str> = wins[0].panes().iter().map(|p| p.path()).collect();
    assert_eq!(paths, vec!["/home", "/etc"]);
    assert_eq!(wins[1].id(), ("ops".to_string(), "logs".to_string()));
}

#[test]
fn load_drops_denylisted_window_with_many_panes() {
    let content = "dev\tSPOTIFY\t/a - 0000\ndev\tmain\t/home - 0000\ndev\tSPOTIFY\t/b - 0000\n";
    let denylist = vec!["SPOTIFY".to_string()];
    let wins = load_windows(content, &denylist);
    assert_eq!(wins.len(), 1);
    assert_eq!(wins[0].id(), ("dev".to_string(), "main".to_string()));
}

#[test]
fn load_drops_malformed_lines_silently() {
    // One good line and one with only two tab-separated fields: the
    // malformed line is dropped, no error reaches the caller.
    let content = "dev\tmain\t/home - 0000\nbroken\tline\n";
    let wins = load_windows(content, &no_denylist());
    assert_eq!(wins.len(), 1);
    assert_eq!(wins[0].id(), ("dev".to_string(), "main".to_string()));
}

#[test]
fn load_of_empty_content_is_empty() {
    assert!(load_windows("", &no_denylist()).is_empty());
}

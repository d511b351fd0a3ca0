use tmux_session::tmux::command::{current_state, load_windows, start_server, TmuxCommand};
use tmux_session::tmux::window::{Pane, Window};
use tmux_session::tmux::{excluded, file_name, known_cmds};

#[test]
fn builder_collects_arguments_in_order() {
    let cmd = TmuxCommand::new().with_arg("one").with_args(&["two", "three"]).with_arg("four");
    assert_eq!(cmd.args(), &vec!["one", "two", "three", "four"]);
}

#[test]
fn builder_allowlist_gates_command_names() {
    let known = known_cmds();
    let kept = TmuxCommand::new().with_arg("splitw").with_cmd("nvim", &known);
    assert_eq!(kept.args(), &vec!["splitw", "nvim"]);
    let dropped = TmuxCommand::new().with_arg("splitw").with_cmd("rm", &known);
    assert_eq!(dropped.args(), &vec!["splitw"]);
}

#[test]
fn start_server_command() {
    assert_eq!(start_server().args(), &vec!["start"]);
}

#[test]
fn current_state_command() {
    let cmd = current_state();
    assert_eq!(
        cmd.args(),
        &vec![
            "lsp",
            "-a",
            "-F",
            "#S\t#W\t#{pane_current_path} - #{pane_at_left}#{pane_at_top}#{pane_at_right}#{pane_at_bottom}",
        ]
    );
}

#[test]
fn configuration_constants() {
    assert_eq!(file_name(), ".tmux-session-rust");
    assert_eq!(excluded(), vec!["SPOTIFY", "WIKI", "VPN"]);
    assert_eq!(known_cmds(), vec!["nvim"]);
}

#[test]
fn pane_split_direction_follows_geometry() {
    let horizontal = Pane::from_str("/work - 0000").unwrap();
    assert_eq!(
        horizontal.split("dev", "main").args(),
        &vec!["splitw", "-h", "-c", "/work", "-t", "dev:main"]
    );
    let vertical = Pane::from_str("/work - 1000").unwrap();
    assert_eq!(
        vertical.split("dev", "main").args(),
        &vec!["splitw", "-v", "-c", "/work", "-t", "dev:main"]
    );
}

#[test]
fn exists_probe_command() {
    let w = Window::from_str("dev\tmain\t/home - 0000").unwrap();
    assert_eq!(w.exists_probe().args(), &vec!["has", "-t", "dev"]);
}

#[test]
fn restore_creates_session_when_probe_says_absent() {
    let mut w = Window::from_str("dev\tmain\t/a - 0000").unwrap();
    w.add_pane(Pane::from_str("/b - 1000").unwrap());
    w.add_pane(Pane::from_str("/c - 0000").unwrap());
    let plan = w.restore_commands(false);
    assert_eq!(plan.len(), 3);
    assert_eq!(plan[0].args(), &vec!["new", "-d", "-s", "dev", "-n", "main", "-c", "/a"]);
    assert_eq!(plan[1].args(), &vec!["splitw", "-v", "-c", "/b", "-t", "dev:main"]);
    assert_eq!(plan[2].args(), &vec!["splitw", "-h", "-c", "/c", "-t", "dev:main"]);
}

#[test]
fn restore_creates_window_when_probe_says_present() {
    let mut w = Window::from_str("dev\tmain\t/a - 0000").unwrap();
    w.add_pane(Pane::from_str("/b - 0000").unwrap());
    let plan = w.restore_commands(true);
    assert_eq!(plan.len(), 2);
    assert_eq!(plan[0].args(), &vec!["neww", "-d", "-t", "dev", "-n", "main", "-c", "/a"]);
    assert_eq!(plan[1].args(), &vec!["splitw", "-h", "-c", "/b", "-t", "dev:main"]);
}

#[test]
fn end_to_end_single_line() {
    // The canonical example: one saved line, one window, one creation
    // command and no splits, whichever way the probe answers.
    let content = "dev\tmain\t/home - 0000\n";
    let wins = load_windows(content, &excluded());
    assert_eq!(wins.len(), 1);
    let w = &wins[0];
    assert_eq!(w.session(), "dev");
    assert_eq!(w.name(), "main");
    assert_eq!(w.panes().len(), 1);
    assert_eq!(w.panes()[0].path(), "/home");
    let absent = w.restore_commands(false);
    assert_eq!(absent.len(), 1);
    assert_eq!(absent[0].args()[0], "new");
    let present = w.restore_commands(true);
    assert_eq!(present.len(), 1);
    assert_eq!(present[0].args()[0], "neww");
}

#[test]
fn end_to_end_malformed_line_is_ignored() {
    let content = "dev\tmain\t/home - 0000\nonly\ttwo\n";
    let wins = load_windows(content, &excluded());
    assert_eq!(wins.len(), 1);
    assert_eq!(wins[0].id(), ("dev".to_string(), "main".to_string()));
}

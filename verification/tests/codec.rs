use tmux_session::error::TmuxError;
use tmux_session::tmux::window::{Geometry, Pane, Window};

#[test]
fn geometry_decode_all_zero() {
    let g = Geometry::decode("0000").unwrap();
    assert_eq!(g, Geometry { left: false, up: false, right: false, down: false });
    assert!(g.is_horizontal());
}

#[test]
fn geometry_decode_all_one() {
    let g = Geometry::decode("1111").unwrap();
    assert_eq!(g, Geometry { left: true, up: true, right: true, down: true });
    assert!(!g.is_horizontal());
}

#[test]
fn geometry_horizontal_follows_first_flag() {
    // Every 4-character string over {0,1}: horizontal iff char 0 != '1'.
    for bits in 0..16u32 {
        let s: String = (0..4).map(|i| if bits & (1 << i) != 0 { '1' } else { '0' }).collect();
        let g = Geometry::decode(&s).unwrap();
        assert_eq!(g.is_horizontal(), s.as_bytes()[0] != b'1');
    }
}

#[test]
fn geometry_decode_wrong_length_fails() {
    for s in ["", "0", "010", "01010", "a much longer string"] {
        match Geometry::decode(s) {
            Err(TmuxError::LayoutParsing(t)) => assert_eq!(t, s),
            other => panic!("expected a layout error, got {other:?}"),
        }
    }
}

#[test]
fn geometry_decode_is_lenient_about_characters() {
    // Anything but '1' decodes as false; only the length is validated.
    let g = Geometry::decode("1xy2").unwrap();
    assert_eq!(g, Geometry { left: true, up: false, right: false, down: false });
}

#[test]
fn pane_parse_simple() {
    let p = Pane::from_str("/home/user - 0100").unwrap();
    assert_eq!(p.path(), "/home/user");
    assert_eq!(p.geometry(), Geometry { left: false, up: true, right: false, down: false });
}

#[test]
fn pane_parse_round_trip() {
    let path = "/tmp/work dir";
    let layout = "0110";
    let line = format!("{path} - {layout}");
    let p = Pane::from_str(&line).unwrap();
    assert_eq!(p.path(), path);
    assert_eq!(p.geometry(), Geometry::decode(layout).unwrap());
}

#[test]
fn pane_parse_wrong_field_count_fails() {
    for s in ["/home", "/home - 0000 - extra", "a - b - c - d"] {
        match Pane::from_str(s) {
            Err(TmuxError::PaneParsing(t)) => assert_eq!(t, s),
            other => panic!("expected a pane error, got {other:?}"),
        }
    }
}

#[test]
fn pane_parse_bad_layout_fails() {
    match Pane::from_str("/home - 00") {
        Err(TmuxError::LayoutParsing(t)) => assert_eq!(t, "00"),
        other => panic!("expected a layout error, got {other:?}"),
    }
}

#[test]
fn window_parse_simple() {
    let w = Window::from_str("dev\tmain\t/home - 0000").unwrap();
    assert_eq!(w.session(), "dev");
    assert_eq!(w.name(), "main");
    assert_eq!(w.id(), ("dev".to_string(), "main".to_string()));
    assert_eq!(w.panes().len(), 1);
    assert_eq!(w.panes()[0].path(), "/home");
}

#[test]
fn window_parse_wrong_field_count_fails() {
    for s in ["dev\tmain", "dev", "", "dev\tmain\t/home - 0000\textra"] {
        match Window::from_str(s) {
            Err(TmuxError::WindowParsing(t)) => assert_eq!(t, s),
            other => panic!("expected a window error, got {other:?}"),
        }
    }
}

#[test]
fn window_parse_bad_pane_fails() {
    match Window::from_str("dev\tmain\tno delimiter here") {
        Err(TmuxError::PaneParsing(t)) => assert_eq!(t, "no delimiter here"),
        other => panic!("expected a pane error, got {other:?}"),
    }
    match Window::from_str("dev\tmain\t/home - 000") {
        Err(TmuxError::LayoutParsing(t)) => assert_eq!(t, "000"),
        other => panic!("expected a layout error, got {other:?}"),
    }
}

#[test]
fn window_add_pane_appends() {
    let mut w = Window::from_str("dev\tmain\t/a - 0000").unwrap();
    let p = Pane::from_str("/b - 1000").unwrap();
    w.add_pane(p);
    assert_eq!(w.panes().len(), 2);
    assert_eq!(w.panes()[0].path(), "/a");
    assert_eq!(w.panes()[1].path(), "/b");
}

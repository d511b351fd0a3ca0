//! Panes, windows, and the save-format codec.
//!
//! A saved line reads `<session>\t<name>\t<path> - <layout>`, where the
//! layout is four digit characters telling which window edges the pane
//! touches. Lines decode into single-pane `Window` records; the merge in
//! the `command` module folds records that share an identity.

use vstd::prelude::*;

use crate::error::TmuxError;
use crate::text::{delim_at, lemma_split_first, lemma_split_none, split_on, split_str, seq_views};
use crate::tmux::command::TmuxCommand;

verus! {

/// Which edges of its window a pane touches: the split-direction
/// descriptor.
#[derive(Clone, Copy, PartialEq, Eq, Structural, Debug)]
pub struct Geometry {
    pub left: bool,
    pub up: bool,
    pub right: bool,
    pub down: bool,
}

/// The descriptor read off a four-character layout field: one flag per
/// character, `'1'` meaning the pane touches that edge, in the order
/// left, up, right, down. Any other character decodes as false.
pub open spec fn geometry_of(s: Seq<char>) -> Geometry {
    Geometry { left: s[0] == '1', up: s[1] == '1', right: s[2] == '1', down: s[3] == '1' }
}

/// A pane not flush with the left edge is taken to come from a
/// horizontal split.
pub open spec fn spec_is_horizontal(g: Geometry) -> bool {
    !g.left
}

impl Geometry {
    /// Decodes a layout field. Fails unless the field is exactly four
    /// characters long; the characters themselves are not validated, a
    /// deliberately lenient reading of multiplexer output.
    pub fn decode(s: &str) -> (r: Result<Geometry, TmuxError>)
        ensures
            match r {
                Result::Ok(g) => s@.len() == 4 && g == geometry_of(s@),
                Result::Err(e) => s@.len() != 4 && (e matches TmuxError::LayoutParsing(t) && t@
                    == s@),
            },
    {
        if s.unicode_len() != 4 {
            return Result::Err(TmuxError::LayoutParsing(String::from_str(s)));
        }
        Result::Ok(
            Geometry {
                left: s.get_char(0) == '1',
                up: s.get_char(1) == '1',
                right: s.get_char(2) == '1',
                down: s.get_char(3) == '1',
            },
        )
    }

    /// Whether a pane with this descriptor is recreated by a horizontal
    /// split.
    pub fn is_horizontal(&self) -> (r: bool)
        ensures
            r == spec_is_horizontal(*self),
    {
        !self.left
    }
}

/// Law: a four-character layout decodes to a horizontal split exactly
/// when its first character is not `'1'`.
pub proof fn lemma_decode_horizontal(s: Seq<char>)
    requires
        s.len() == 4,
    ensures
        spec_is_horizontal(geometry_of(s)) == (s[0] != '1'),
{
}

/// A single terminal viewport: the directory it starts in and its split
/// geometry.
#[derive(Debug)]
pub struct Pane {
    path: String,
    geometry: Geometry,
}

/// The mathematical image of a `Pane`.
#[verifier::ext_equal]
pub struct PaneView {
    pub path: Seq<char>,
    pub geometry: Geometry,
}

impl View for Pane {
    type V = PaneView;

    closed spec fn view(&self) -> PaneView {
        PaneView { path: self.path@, geometry: self.geometry }
    }
}

/// The views of a sequence of owned panes.
pub open spec fn pane_views(v: Seq<Pane>) -> Seq<PaneView> {
    Seq::new(v.len(), |k: int| v[k]@)
}

/// The delimiter between the path field and the layout field.
pub open spec fn pane_delim() -> Seq<char> {
    seq![' ', '-', ' ']
}

/// The fields of a pane descriptor.
pub open spec fn pane_fields(s: Seq<char>) -> Seq<Seq<char>> {
    split_on(s, pane_delim())
}

/// A pane descriptor parses when it has exactly two fields and the
/// second is a four-character layout.
pub open spec fn pane_parse_ok(s: Seq<char>) -> bool {
    pane_fields(s).len() == 2 && pane_fields(s)[1].len() == 4
}

/// The pane read off a well-formed descriptor.
pub open spec fn pane_of(s: Seq<char>) -> PaneView {
    PaneView { path: pane_fields(s)[0], geometry: geometry_of(pane_fields(s)[1]) }
}

impl Pane {
    /// Parses `<path> - <layout>`. A descriptor without exactly two
    /// delimiter-separated fields is a pane error; a layout of the wrong
    /// length is a layout error.
    pub fn from_str(s: &str) -> (r: Result<Pane, TmuxError>)
        ensures
            match r {
                Result::Ok(p) => pane_parse_ok(s@) && p@ == pane_of(s@),
                Result::Err(e) => match e {
                    TmuxError::PaneParsing(t) => pane_fields(s@).len() != 2 && t@ == s@,
                    TmuxError::LayoutParsing(t) => pane_fields(s@).len() == 2 && pane_fields(
                        s@,
                    )[1].len() != 4 && t@ == pane_fields(s@)[1],
                    _ => false,
                },
            },
    {
        proof {
            reveal_strlit(" - ");
            assert(" - "@ =~= pane_delim());
        }
        let parts = split_str(s, " - ");
        if parts.len() != 2 {
            return Result::Err(TmuxError::PaneParsing(String::from_str(s)));
        }
        proof {
            assert(parts@[0]@ == pane_fields(s@)[0]);
            assert(parts@[1]@ == pane_fields(s@)[1]);
        }
        let geometry = match Geometry::decode(parts[1].as_str()) {
            Result::Ok(g) => g,
            Result::Err(e) => {
                return Result::Err(e);
            },
        };
        let path = parts[0].clone();
        Result::Ok(Pane { path, geometry })
    }

    /// The directory the pane starts in.
    pub fn path(&self) -> (r: &str)
        ensures
            r@ == self@.path,
    {
        self.path.as_str()
    }

    /// The pane's split geometry.
    pub fn geometry(&self) -> (r: Geometry)
        ensures
            r == self@.geometry,
    {
        self.geometry
    }

    /// The command that recreates this pane by splitting the current pane
    /// of the window `session:window`.
    pub fn split(&self, session: &str, window: &str) -> (r: TmuxCommand)
        ensures
            r@ == split_command(self@, session@, window@),
    {
        self.split_window(self.geometry.is_horizontal(), session, window)
    }

    fn split_window(&self, horizontal: bool, session: &str, window: &str) -> (r: TmuxCommand)
        ensures
            r@ == seq![
                "splitw"@,
                (if horizontal {
                    "-h"@
                } else {
                    "-v"@
                }),
                "-c"@,
                self@.path,
                "-t"@,
                session@ + ":"@ + window@,
            ],
    {
        let split = if horizontal {
            "-h"
        } else {
            "-v"
        };
        let target = String::from_str(session).concat(":").concat(window);
        let r = TmuxCommand::new().with_arg("splitw").with_arg(split).with_arg("-c").with_arg(
            self.path.as_str(),
        ).with_arg("-t").with_arg(target.as_str());
        proof {
            assert(r@ =~= seq![
                "splitw"@,
                (if horizontal {
                    "-h"@
                } else {
                    "-v"@
                }),
                "-c"@,
                self@.path,
                "-t"@,
                session@ + ":"@ + window@,
            ]);
        }
        r
    }
}

/// Law: a pane rendered as `<path> - <layout>` parses back to itself.
/// The path may not contain the delimiter and may not end with `" -"`
/// (either would make the delimiter occur before the intended spot),
/// and the layout is four digit characters.
pub proof fn lemma_pane_round_trip(path: Seq<char>, layout: Seq<char>)
    requires
        forall|j: int| !delim_at(path, pane_delim(), j),
        !(path.len() >= 2 && path[path.len() - 2] == ' ' && path[path.len() - 1] == '-'),
        layout.len() == 4,
        forall|i: int| 0 <= i < 4 ==> layout[i] == '0' || layout[i] == '1',
    ensures
        pane_parse_ok(path + pane_delim() + layout),
        pane_of(path + pane_delim() + layout) == (PaneView {
            path: path,
            geometry: geometry_of(layout),
        }),
{
    let d = pane_delim();
    let s = path + d + layout;
    let n = path.len() as int;
    assert(s.len() == n + 7);
    assert(s.subrange(n, n + 3) =~= d);
    assert(delim_at(s, d, n));
    assert forall|j: int| 0 <= j < n implies !delim_at(s, d, j) by {
        if delim_at(s, d, j) {
            if j + 3 <= n {
                assert(path.subrange(j, j + 3) =~= s.subrange(j, j + 3));
                assert(delim_at(path, d, j));
            } else if j == n - 2 {
                assert(s.subrange(j, j + 3)[0] == path[n - 2]);
                assert(s.subrange(j, j + 3)[1] == path[n - 1]);
                assert(path[n - 2] == ' ' && path[n - 1] == '-');
            } else {
                assert(j == n - 1);
                assert(s.subrange(j, j + 3)[1] == d[0]);
                assert(d[1] == '-' && d[0] == ' ');
            }
        }
    }
    lemma_split_first(s, d, n);
    assert(s.take(n) =~= path);
    assert(s.skip(n + 3) =~= layout);
    assert forall|j: int| !delim_at(layout, d, j) by {
        if delim_at(layout, d, j) {
            assert(layout.subrange(j, j + 3)[0] == layout[j]);
            assert(layout[j] == '0' || layout[j] == '1');
        }
    }
    lemma_split_none(layout, d);
    assert(pane_fields(s) =~= seq![path, layout]);
    assert(pane_of(s) =~= (PaneView { path: path, geometry: geometry_of(layout) }));
}

/// The command that splits the current pane of `session:name` for `p`.
pub open spec fn split_command(p: PaneView, session: Seq<char>, name: Seq<char>) -> Seq<
    Seq<char>,
> {
    seq![
        "splitw"@,
        (if spec_is_horizontal(p.geometry) {
            "-h"@
        } else {
            "-v"@
        }),
        "-c"@,
        p.path,
        "-t"@,
        session + ":"@ + name,
    ]
}

/// The command that opens a new window `name` in the existing session.
pub open spec fn new_window_command(session: Seq<char>, name: Seq<char>, path: Seq<char>) -> Seq<
    Seq<char>,
> {
    seq!["neww"@, "-d"@, "-t"@, session, "-n"@, name, "-c"@, path]
}

/// The command that creates the session with its first window.
pub open spec fn new_session_command(session: Seq<char>, name: Seq<char>, path: Seq<char>) -> Seq<
    Seq<char>,
> {
    seq!["new"@, "-d"@, "-s"@, session, "-n"@, name, "-c"@, path]
}

/// The probe whose exit status tells whether the session exists.
pub open spec fn probe_command(session: Seq<char>) -> Seq<Seq<char>> {
    seq!["has"@, "-t"@, session]
}

/// A named window of a session, with its panes in restore order.
#[derive(Debug)]
pub struct Window {
    session: String,
    name: String,
    panes: Vec<Pane>,
}

/// The mathematical image of a `Window`.
#[verifier::ext_equal]
pub struct WindowView {
    pub session: Seq<char>,
    pub name: Seq<char>,
    pub panes: Seq<PaneView>,
}

impl View for Window {
    type V = WindowView;

    closed spec fn view(&self) -> WindowView {
        WindowView { session: self.session@, name: self.name@, panes: pane_views(self.panes@) }
    }
}

/// Whether two window records carry the same (session, name) identity.
pub open spec fn same_id(a: WindowView, b: WindowView) -> bool {
    a.session == b.session && a.name == b.name
}

/// The views of a sequence of owned windows.
pub open spec fn window_views(v: Seq<Window>) -> Seq<WindowView> {
    Seq::new(v.len(), |k: int| v[k]@)
}

/// The delimiter between the fields of a saved line.
pub open spec fn tab_delim() -> Seq<char> {
    seq!['\t']
}

/// The fields of a saved line.
pub open spec fn window_fields(s: Seq<char>) -> Seq<Seq<char>> {
    split_on(s, tab_delim())
}

/// A saved line parses when it has exactly three tab-separated fields
/// and the third is a well-formed pane descriptor.
pub open spec fn window_parse_ok(s: Seq<char>) -> bool {
    window_fields(s).len() == 3 && pane_parse_ok(window_fields(s)[2])
}

/// The single-pane window record read off a well-formed line.
pub open spec fn window_of(s: Seq<char>) -> WindowView {
    WindowView {
        session: window_fields(s)[0],
        name: window_fields(s)[1],
        panes: seq![pane_of(window_fields(s)[2])],
    }
}

impl Window {
    /// Parses one saved line, `<session>\t<name>\t<pane descriptor>`.
    pub fn from_str(s: &str) -> (r: Result<Window, TmuxError>)
        ensures
            match r {
                Result::Ok(w) => window_parse_ok(s@) && w@ == window_of(s@),
                Result::Err(e) => match e {
                    TmuxError::WindowParsing(t) => window_fields(s@).len() != 3 && t@ == s@,
                    TmuxError::PaneParsing(t) => window_fields(s@).len() == 3 && pane_fields(
                        window_fields(s@)[2],
                    ).len() != 2 && t@ == window_fields(s@)[2],
                    TmuxError::LayoutParsing(t) => window_fields(s@).len() == 3 && pane_fields(
                        window_fields(s@)[2],
                    ).len() == 2 && pane_fields(window_fields(s@)[2])[1].len() != 4 && t@
                        == pane_fields(window_fields(s@)[2])[1],
                    _ => false,
                },
            },
    {
        proof {
            reveal_strlit("\t");
            assert("\t"@ =~= tab_delim());
        }
        let parts = split_str(s, "\t");
        if parts.len() != 3 {
            return Result::Err(TmuxError::WindowParsing(String::from_str(s)));
        }
        proof {
            assert(parts@[0]@ == window_fields(s@)[0]);
            assert(parts@[1]@ == window_fields(s@)[1]);
            assert(parts@[2]@ == window_fields(s@)[2]);
        }
        let pane = match Pane::from_str(parts[2].as_str()) {
            Result::Ok(p) => p,
            Result::Err(e) => {
                return Result::Err(e);
            },
        };
        let session = parts[0].clone();
        let name = parts[1].clone();
        let mut panes: Vec<Pane> = Vec::new();
        panes.push(pane);
        let w = Window { session, name, panes };
        proof {
            assert(w@.panes =~= seq![pane_of(window_fields(s@)[2])]);
            assert(w@ =~= window_of(s@));
        }
        Result::Ok(w)
    }

    /// The (session, name) identity under which records of this window
    /// are merged: two windows carry the same identity exactly when both
    /// components agree. The pair is returned as it stands — a joined
    /// string could conflate distinct pairs whose parts contain the
    /// separator.
    pub fn id(&self) -> (r: (String, String))
        ensures
            r.0@ == self@.session,
            r.1@ == self@.name,
    {
        (self.session.clone(), self.name.clone())
    }

    /// The window's title.
    pub fn name(&self) -> (r: &str)
        ensures
            r@ == self@.name,
    {
        self.name.as_str()
    }

    /// The enclosing session's name.
    pub fn session(&self) -> (r: &str)
        ensures
            r@ == self@.session,
    {
        self.session.as_str()
    }

    /// The panes, in restore order.
    pub fn panes(&self) -> (r: &Vec<Pane>)
        ensures
            pane_views(r@) == self@.panes,
    {
        &self.panes
    }

    /// Appends a pane; the merge uses this to fold a later record of the
    /// same window into this one.
    pub fn add_pane(&mut self, pane: Pane)
        ensures
            final(self)@.session == old(self)@.session,
            final(self)@.name == old(self)@.name,
            final(self)@.panes == old(self)@.panes.push(pane@),
    {
        self.panes.push(pane);
        proof {
            assert(self@.panes =~= old(self)@.panes.push(pane@));
        }
    }

    /// Whether this record carries the same identity as `other`.
    pub fn same_identity(&self, other: &Window) -> (r: bool)
        ensures
            r == same_id(self@, other@),
    {
        self.session == other.session && self.name == other.name
    }

    /// Surrenders the pane list; the merge folds it into the first
    /// record seen of the same identity.
    pub fn into_panes(self) -> (r: Vec<Pane>)
        ensures
            pane_views(r@) == self@.panes,
    {
        proof {
            assert(pane_views(self.panes@) == self@.panes);
        }
        self.panes
    }

    /// The probe that asks the multiplexer whether this window's session
    /// exists; a zero exit status means it does.
    pub fn exists_probe(&self) -> (r: TmuxCommand)
        ensures
            r@ == probe_command(self@.session),
    {
        let r = TmuxCommand::new().with_arg("has").with_arg("-t").with_arg(self.session.as_str());
        proof {
            assert(r@ =~= probe_command(self@.session));
        }
        r
    }

    fn add(&self, pane: &Pane) -> (r: TmuxCommand)
        ensures
            r@ == new_window_command(self@.session, self@.name, pane@.path),
    {
        let r = TmuxCommand::new().with_arg("neww").with_arg("-d").with_arg("-t").with_arg(
            self.session.as_str(),
        ).with_arg("-n").with_arg(self.name.as_str()).with_arg("-c").with_arg(pane.path());
        proof {
            assert(r@ =~= new_window_command(self@.session, self@.name, pane@.path));
        }
        r
    }

    fn new_session(&self, pane: &Pane) -> (r: TmuxCommand)
        ensures
            r@ == new_session_command(self@.session, self@.name, pane@.path),
    {
        let r = TmuxCommand::new().with_arg("new").with_arg("-d").with_arg("-s").with_arg(
            self.session.as_str(),
        ).with_arg("-n").with_arg(self.name.as_str()).with_arg("-c").with_arg(pane.path());
        proof {
            assert(r@ =~= new_session_command(self@.session, self@.name, pane@.path));
        }
        r
    }

    /// The strict linear replay plan for this window: given the result of
    /// the existence probe, the first pane creates the session or only a
    /// window within it, and every later pane issues one split, in index
    /// order.
    pub fn restore_commands(&self, session_exists: bool) -> (r: Vec<TmuxCommand>)
        ensures
            r@.len() == self@.panes.len(),
            r@.len() > 0 ==> r@[0]@ == (if session_exists {
                new_window_command(self@.session, self@.name, self@.panes[0].path)
            } else {
                new_session_command(self@.session, self@.name, self@.panes[0].path)
            }),
            forall|i: int|
                1 <= i < r@.len() ==> r@[i]@ == split_command(
                    self@.panes[i],
                    self@.session,
                    self@.name,
                ),
    {
        let mut r: Vec<TmuxCommand> = Vec::new();
        let mut i: usize = 0;
        while i < self.panes.len()
            invariant
                i <= self@.panes.len(),
                r@.len() == i,
                i > 0 ==> r@[0]@ == (if session_exists {
                    new_window_command(self@.session, self@.name, self@.panes[0].path)
                } else {
                    new_session_command(self@.session, self@.name, self@.panes[0].path)
                }),
                forall|k: int|
                    1 <= k < i ==> r@[k]@ == split_command(
                        self@.panes[k],
                        self@.session,
                        self@.name,
                    ),
            decreases self@.panes.len() - i,
        {
            proof {
                assert(self.panes@[i as int]@ == self@.panes[i as int]);
            }
            let pane = &self.panes[i];
            if i == 0 {
                if session_exists {
                    r.push(self.add(pane));
                } else {
                    r.push(self.new_session(pane));
                }
            } else {
                r.push(pane.split(self.session.as_str(), self.name.as_str()));
            }
            i = i + 1;
        }
        r
    }
}

} // verus!


//! Building argument vectors for the external multiplexer.
//!
//! A `TmuxCommand` is nothing but an ordered argument list; running it
//! against the multiplexer binary is the caller's affair. The builder
//! keeps the one rule worth checking here: an arbitrary program name is
//! appended only when it stands on the caller's allowlist.

use vstd::prelude::*;

use crate::error::TmuxError;
use crate::text::{seq_views, split_on, split_str};
use crate::tmux::window::{
    same_id, window_of, window_parse_ok, window_views, pane_views, PaneView, Window, WindowView,
};

verus! {

/// An argument vector for one invocation of the multiplexer binary.
pub struct TmuxCommand {
    args: Vec<String>,
}

impl View for TmuxCommand {
    type V = Seq<Seq<char>>;

    closed spec fn view(&self) -> Seq<Seq<char>> {
        seq_views(self.args@)
    }
}

impl TmuxCommand {
    /// An invocation with no arguments yet.
    pub fn new() -> (r: Self)
        ensures
            r@ == Seq::<Seq<char>>::empty(),
    {
        let r = TmuxCommand { args: Vec::new() };
        proof {
            assert(r@ =~= Seq::<Seq<char>>::empty());
        }
        r
    }

    /// Appends one argument.
    pub fn with_arg(self, arg: &str) -> (r: Self)
        ensures
            r@ == self@.push(arg@),
    {
        let mut args = self.args;
        args.push(String::from_str(arg));
        let r = TmuxCommand { args };
        proof {
            assert(r@ =~= seq_views(self.args@).push(arg@));
        }
        r
    }

    /// Appends each argument of a slice, in order.
    pub fn with_args(self, args: &[&str]) -> (r: Self)
        ensures
            r@ == self@ + Seq::new(args@.len(), |k: int| args@[k]@),
    {
        let ghost orig = self@;
        let mut cur = self;
        let mut i: usize = 0;
        while i < args.len()
            invariant
                i <= args@.len(),
                cur@ == orig + Seq::new(i as nat, |k: int| args@[k]@),
            decreases args@.len() - i,
        {
            cur = cur.with_arg(args[i]);
            proof {
                assert(cur@ =~= orig + Seq::new((i + 1) as nat, |k: int| args@[k]@));
            }
            i = i + 1;
        }
        cur
    }

    /// Appends the program name `cmd` only when the caller's allowlist
    /// `known` holds it; an unrecognized name is dropped silently. The
    /// save format carries no program to relaunch, so the restore path
    /// never appends one; the allowlist filter remains part of the
    /// executor for formats that do.
    pub fn with_cmd(self, cmd: &str, known: &Vec<String>) -> (r: Self)
        ensures
            r@ == (if seq_views(known@).contains(cmd@) {
                self@.push(cmd@)
            } else {
                self@
            }),
    {
        let owned = String::from_str(cmd);
        let mut k: usize = 0;
        while k < known.len()
            invariant
                k <= known@.len(),
                owned@ == cmd@,
                forall|m: int| 0 <= m < k ==> known@[m]@ != cmd@,
            decreases known@.len() - k,
        {
            if known[k] == owned {
                proof {
                    assert(seq_views(known@)[k as int] == cmd@);
                    assert(seq_views(known@).contains(cmd@));
                }
                return self.with_arg(cmd);
            }
            k = k + 1;
        }
        proof {
            assert forall|m: int| 0 <= m < seq_views(known@).len() implies seq_views(known@)[m]
                != cmd@ by {
                assert(known@[m]@ != cmd@);
            }
            assert(!seq_views(known@).contains(cmd@));
        }
        self
    }

    /// The finished argument list, for the caller that runs the binary.
    pub fn args(&self) -> (r: &Vec<String>)
        ensures
            seq_views(r@) == self@,
    {
        &self.args
    }
}

/// The idempotent command that makes sure the multiplexer server runs.
pub fn start_server() -> (r: TmuxCommand)
    ensures
        r@ == seq!["start"@],
{
    let r = TmuxCommand::new().with_arg("start");
    proof {
        assert(r@ =~= seq!["start"@]);
    }
    r
}

/// The per-pane listing format: tab-separated session and window name,
/// then the pane's directory and its four edge flags.
pub open spec fn state_format() -> Seq<char> {
    "#S\t#W\t#{pane_current_path} - #{pane_at_left}#{pane_at_top}#{pane_at_right}#{pane_at_bottom}"@
}

/// The command whose output lists every live pane in the save format.
pub fn current_state() -> (r: TmuxCommand)
    ensures
        r@ == seq!["lsp"@, "-a"@, "-F"@, state_format()],
{
    let r = TmuxCommand::new().with_arg("lsp").with_arg("-a").with_arg("-F").with_arg(
        "#S\t#W\t#{pane_current_path} - #{pane_at_left}#{pane_at_top}#{pane_at_right}#{pane_at_bottom}",
    );
    proof {
        assert(r@ =~= seq!["lsp"@, "-a"@, "-F"@, state_format()]);
    }
    r
}

/// The least index of `out` carrying the identity `(session, name)`, or
/// a negative number when none does.
pub open spec fn first_index(out: Seq<WindowView>, session: Seq<char>, name: Seq<char>) -> int
    decreases out.len(),
{
    if out.len() == 0 {
        -1
    } else if out[0].session == session && out[0].name == name {
        0
    } else {
        let r = first_index(out.skip(1), session, name);
        if r < 0 {
            -1
        } else {
            r + 1
        }
    }
}

/// `first_index` finds the least matching index, when one exists.
pub proof fn lemma_first_index(out: Seq<WindowView>, session: Seq<char>, name: Seq<char>)
    ensures
        first_index(out, session, name) >= 0 ==> {
            let i = first_index(out, session, name);
            &&& 0 <= i < out.len()
            &&& out[i].session == session && out[i].name == name
            &&& forall|k: int|
                0 <= k < i ==> !(out[k].session == session && out[k].name == name)
        },
        first_index(out, session, name) < 0 ==> forall|k: int|
            0 <= k < out.len() ==> !(out[k].session == session && out[k].name == name),
    decreases out.len(),
{
    if out.len() == 0 {
    } else if out[0].session == session && out[0].name == name {
    } else {
        lemma_first_index(out.skip(1), session, name);
        assert forall|k: int| 1 <= k < out.len() implies out.skip(1)[k - 1] == out[k] by {}
    }
}

/// One merge step: a record of a known identity hands its panes to the
/// entry already holding that identity; a new identity appends a fresh
/// entry.
pub open spec fn merge_one(out: Seq<WindowView>, w: WindowView) -> Seq<WindowView> {
    let i = first_index(out, w.session, w.name);
    if i < 0 {
        out.push(w)
    } else {
        out.update(i, WindowView { panes: out[i].panes + w.panes, ..out[i] })
    }
}

/// The canonical window list: the records folded left to right, one
/// output entry per distinct identity in first-seen order.
pub open spec fn merge_spec(ws: Seq<WindowView>) -> Seq<WindowView>
    decreases ws.len(),
{
    if ws.len() == 0 {
        Seq::<WindowView>::empty()
    } else {
        merge_one(merge_spec(ws.drop_last()), ws.last())
    }
}

/// The concatenation, in record order, of the pane lists of exactly the
/// records carrying the identity `(session, name)`.
pub open spec fn panes_of(ws: Seq<WindowView>, session: Seq<char>, name: Seq<char>) -> Seq<
    PaneView,
>
    decreases ws.len(),
{
    if ws.len() == 0 {
        Seq::<PaneView>::empty()
    } else {
        panes_of(ws.drop_last(), session, name) + (if ws.last().session == session
            && ws.last().name == name {
            ws.last().panes
        } else {
            Seq::<PaneView>::empty()
        })
    }
}

/// Appending a record moves no identity's first position, and gives a
/// fresh identity its position at the end.
pub proof fn lemma_first_index_push(
    out: Seq<WindowView>,
    w: WindowView,
    session: Seq<char>,
    name: Seq<char>,
)
    ensures
        first_index(out.push(w), session, name) == (if first_index(out, session, name) >= 0 {
            first_index(out, session, name)
        } else if w.session == session && w.name == name {
            out.len() as int
        } else {
            -1
        }),
    decreases out.len(),
{
    if out.len() == 0 {
        assert(out.push(w)[0] == w);
        assert(out.push(w).skip(1) =~= Seq::<WindowView>::empty());
        assert(first_index(Seq::<WindowView>::empty(), session, name) == -1);
        assert(first_index(out, session, name) == -1);
    } else {
        assert(out.push(w)[0] == out[0]);
        assert(out.push(w).skip(1) =~= out.skip(1).push(w));
        lemma_first_index_push(out.skip(1), w, session, name);
        assert(first_index(out.push(w), session, name) == (if out[0].session == session && out[0].name
            == name {
            0
        } else {
            let r = first_index(out.skip(1).push(w), session, name);
            if r < 0 {
                -1
            } else {
                r + 1
            }
        }));
    }
}

/// Replacing an entry by one of the same identity moves no first
/// position.
pub proof fn lemma_first_index_update(
    out: Seq<WindowView>,
    i: int,
    entry: WindowView,
    session: Seq<char>,
    name: Seq<char>,
)
    requires
        0 <= i < out.len(),
        entry.session == out[i].session,
        entry.name == out[i].name,
    ensures
        first_index(out.update(i, entry), session, name) == first_index(out, session, name),
    decreases out.len(),
{
    if i == 0 {
        assert(out.update(0, entry)[0] == entry);
        assert(out.update(0, entry).skip(1) =~= out.skip(1));
    } else {
        assert(out.update(i, entry)[0] == out[0]);
        assert(out.update(i, entry).skip(1) =~= out.skip(1).update(i - 1, entry));
        lemma_first_index_update(out.skip(1), i - 1, entry, session, name);
    }
}

/// Records without an identity contribute no panes to it.
pub proof fn lemma_panes_of_absent(ws: Seq<WindowView>, session: Seq<char>, name: Seq<char>)
    requires
        forall|j: int| 0 <= j < ws.len() ==> !(ws[j].session == session && ws[j].name == name),
    ensures
        panes_of(ws, session, name) == Seq::<PaneView>::empty(),
    decreases ws.len(),
{
    if ws.len() == 0 {
    } else {
        assert(ws.last() == ws[ws.len() - 1]);
        assert forall|j: int| 0 <= j < ws.drop_last().len() implies !(ws.drop_last()[j].session
            == session && ws.drop_last()[j].name == name) by {
            assert(ws.drop_last()[j] == ws[j]);
        }
        lemma_panes_of_absent(ws.drop_last(), session, name);
        assert(Seq::<PaneView>::empty() + Seq::<PaneView>::empty() =~= Seq::<PaneView>::empty());
    }
}

/// Law: the merge groups records by identity and keeps first-seen
/// order. Every entry of the merged list carries a distinct identity
/// that occurs among the records; its panes are the concatenation, in
/// record order, of the pane lists of exactly the records with that
/// identity; entries stand in the order in which their identities first
/// occur; and no identity of the records is lost. This holds however
/// dedup interleaves with insertion: the entry that takes a repeated
/// identity's panes is found by the identity itself, never by a count.
pub proof fn lemma_merge_groups(ws: Seq<WindowView>)
    ensures
        forall|a: int, b: int|
            0 <= a < b < merge_spec(ws).len() ==> !same_id(merge_spec(ws)[a], merge_spec(ws)[b]),
        forall|k: int|
            0 <= k < merge_spec(ws).len() ==> merge_spec(ws)[k].panes == panes_of(
                ws,
                merge_spec(ws)[k].session,
                merge_spec(ws)[k].name,
            ),
        forall|k: int|
            0 <= k < merge_spec(ws).len() ==> first_index(
                ws,
                merge_spec(ws)[k].session,
                merge_spec(ws)[k].name,
            ) >= 0,
        forall|a: int, b: int|
            0 <= a < b < merge_spec(ws).len() ==> first_index(
                ws,
                merge_spec(ws)[a].session,
                merge_spec(ws)[a].name,
            ) < first_index(ws, merge_spec(ws)[b].session, merge_spec(ws)[b].name),
        forall|j: int|
            0 <= j < ws.len() ==> first_index(merge_spec(ws), ws[j].session, ws[j].name) >= 0,
    decreases ws.len(),
{
    if ws.len() == 0 {
    } else {
        let ws0 = ws.drop_last();
        let w = ws.last();
        lemma_merge_groups(ws0);
        let m = merge_spec(ws0);
        let mm = merge_spec(ws);
        let i = first_index(m, w.session, w.name);
        lemma_first_index(m, w.session, w.name);
        assert(ws0.push(w) =~= ws);
        assert forall|j: int| 0 <= j < ws0.len() implies ws0[j] == ws[j] by {}
        if i < 0 {
            assert(mm == m.push(w));
            assert(mm[m.len() as int] == w);
            assert forall|k: int| 0 <= k < m.len() implies mm[k] == m[k] by {}
            // w's identity occurs in no earlier record
            assert forall|j: int| 0 <= j < ws0.len() implies !(ws0[j].session == w.session
                && ws0[j].name == w.name) by {
                if ws0[j].session == w.session && ws0[j].name == w.name {
                    assert(first_index(m, ws0[j].session, ws0[j].name) >= 0);
                }
            }
            lemma_first_index(ws0, w.session, w.name);
            assert(first_index(ws0, w.session, w.name) < 0);
            lemma_panes_of_absent(ws0, w.session, w.name);
            // grouping
            assert forall|k: int| 0 <= k < mm.len() implies mm[k].panes == panes_of(
                ws,
                mm[k].session,
                mm[k].name,
            ) by {
                if k < m.len() {
                    assert(!(m[k].session == w.session && m[k].name == w.name));
                    assert(panes_of(ws, m[k].session, m[k].name) == panes_of(
                        ws0,
                        m[k].session,
                        m[k].name,
                    ) + Seq::<PaneView>::empty());
                    assert(panes_of(ws0, m[k].session, m[k].name) + Seq::<PaneView>::empty()
                        =~= panes_of(ws0, m[k].session, m[k].name));
                } else {
                    assert(mm[k] == w);
                    assert(panes_of(ws, w.session, w.name) == panes_of(ws0, w.session, w.name)
                        + w.panes);
                    assert(Seq::<PaneView>::empty() + w.panes =~= w.panes);
                }
            }
            // first positions in the extended record list
            assert forall|k: int| 0 <= k < mm.len() implies first_index(
                ws,
                mm[k].session,
                mm[k].name,
            ) >= 0 && (k < m.len() ==> first_index(ws, mm[k].session, mm[k].name) == first_index(
                ws0,
                mm[k].session,
                mm[k].name,
            ) && first_index(ws0, mm[k].session, mm[k].name) < ws0.len()) && (k == m.len()
                ==> first_index(ws, mm[k].session, mm[k].name) == ws0.len()) by {
                lemma_first_index_push(ws0, w, mm[k].session, mm[k].name);
                if k < m.len() {
                    lemma_first_index(ws0, mm[k].session, mm[k].name);
                }
            }
            // distinctness
            assert forall|a: int, b: int| 0 <= a < b < mm.len() implies !same_id(
                mm[a],
                mm[b],
            ) by {
                if b == m.len() {
                    if same_id(mm[a], mm[b]) {
                        assert(m[a].session == w.session && m[a].name == w.name);
                    }
                }
            }
            // order
            assert forall|a: int, b: int| 0 <= a < b < mm.len() implies first_index(
                ws,
                mm[a].session,
                mm[a].name,
            ) < first_index(ws, mm[b].session, mm[b].name) by {}
            // completeness
            assert forall|j: int| 0 <= j < ws.len() implies first_index(
                mm,
                ws[j].session,
                ws[j].name,
            ) >= 0 by {
                lemma_first_index_push(m, w, ws[j].session, ws[j].name);
            }
        } else {
            let entry = WindowView { panes: m[i].panes + w.panes, ..m[i] };
            assert(mm == m.update(i, entry));
            assert forall|k: int| 0 <= k < mm.len() implies mm[k].session == m[k].session
                && mm[k].name == m[k].name by {}
            // grouping
            assert forall|k: int| 0 <= k < mm.len() implies mm[k].panes == panes_of(
                ws,
                mm[k].session,
                mm[k].name,
            ) by {
                if k == i {
                    assert(mm[k].panes == m[i].panes + w.panes);
                    assert(m[i].session == w.session && m[i].name == w.name);
                    assert(panes_of(ws, w.session, w.name) == panes_of(ws0, w.session, w.name)
                        + w.panes);
                } else {
                    assert(!same_id(m[k], m[i]));
                    assert(!(m[k].session == w.session && m[k].name == w.name));
                    assert(panes_of(ws, m[k].session, m[k].name) == panes_of(
                        ws0,
                        m[k].session,
                        m[k].name,
                    ) + Seq::<PaneView>::empty());
                    assert(panes_of(ws0, m[k].session, m[k].name) + Seq::<PaneView>::empty()
                        =~= panes_of(ws0, m[k].session, m[k].name));
                }
            }
            // first positions are unchanged
            assert forall|k: int| 0 <= k < mm.len() implies first_index(
                ws,
                mm[k].session,
                mm[k].name,
            ) >= 0 && first_index(ws, mm[k].session, mm[k].name) == first_index(
                ws0,
                mm[k].session,
                mm[k].name,
            ) by {
                lemma_first_index_push(ws0, w, mm[k].session, mm[k].name);
            }
            // distinctness and order carry over from the sub-list
            assert forall|a: int, b: int| 0 <= a < b < mm.len() implies !same_id(mm[a], mm[b])
                && first_index(ws, mm[a].session, mm[a].name) < first_index(
                ws,
                mm[b].session,
                mm[b].name,
            ) by {
                if same_id(mm[a], mm[b]) {
                    assert(same_id(m[a], m[b]));
                }
            }
            // completeness
            assert forall|j: int| 0 <= j < ws.len() implies first_index(
                mm,
                ws[j].session,
                ws[j].name,
            ) >= 0 by {
                lemma_first_index_update(m, i, entry, ws[j].session, ws[j].name);
                if j < ws0.len() {
                } else {
                    assert(ws[j] == w);
                }
            }
        }
    }
}

/// The first entry of `out` carrying the identity of `w`, by a linear
/// scan.
fn find_entry(out: &Vec<Window>, w: &Window) -> (r: Option<usize>)
    ensures
        match r {
            Option::Some(j) => 0 <= j < out@.len() && first_index(
                window_views(out@),
                w@.session,
                w@.name,
            ) == j as int,
            Option::None => first_index(window_views(out@), w@.session, w@.name) < 0,
        },
{
    let ghost ov = window_views(out@);
    let mut j: usize = 0;
    while j < out.len()
        invariant
            j <= out@.len(),
            ov == window_views(out@),
            forall|k: int| 0 <= k < j ==> !(ov[k].session == w@.session && ov[k].name == w@.name),
        decreases out@.len() - j,
    {
        if out[j].same_identity(w) {
            proof {
                lemma_first_index(ov, w@.session, w@.name);
                assert(ov[j as int] == out@[j as int]@);
                let i = first_index(ov, w@.session, w@.name);
                if i < 0 {
                    assert(!(ov[j as int].session == w@.session && ov[j as int].name == w@.name));
                }
                assert(i <= j);
                assert(i >= j);
            }
            return Option::Some(j);
        }
        proof {
            assert(ov[j as int] == out@[j as int]@);
        }
        j = j + 1;
    }
    proof {
        lemma_first_index(ov, w@.session, w@.name);
        let i = first_index(ov, w@.session, w@.name);
        if i >= 0 {
            assert(!(ov[i].session == w@.session && ov[i].name == w@.name));
        }
    }
    Option::None
}

/// Folds the parsed single-pane records into one window per distinct
/// (session, name) identity, in first-seen order, each carrying every
/// pane observed for that identity in input order. The entry that takes
/// a later record's panes is found by its identity, never by position.
pub fn merge_windows_keeping_order(windows: Vec<Window>) -> (r: Vec<Window>)
    ensures
        window_views(r@) == merge_spec(window_views(windows@)),
{
    let ghost orig = window_views(windows@);
    let mut input = windows;
    let mut out: Vec<Window> = Vec::new();
    proof {
        assert(window_views(input@) =~= orig.skip(0));
        assert(orig.take(0) =~= Seq::<WindowView>::empty());
        assert(window_views(out@) =~= merge_spec(orig.take(0)));
    }
    while input.len() > 0
        invariant
            input@.len() <= orig.len(),
            window_views(input@) == orig.skip(orig.len() - input@.len()),
            window_views(out@) == merge_spec(orig.take(orig.len() - input@.len())),
        decreases input@.len(),
    {
        let ghost p = orig.len() - input@.len();
        let ghost out0 = window_views(out@);
        let ghost input0 = input@;
        let w = input.remove(0);
        let ghost wv = w@;
        proof {
            assert(window_views(input0)[0] == wv);
            assert(wv == orig[p]);
            assert(input@ =~= input0.subrange(1, input0.len() as int));
            assert forall|k: int| 0 <= k < input@.len() implies window_views(input@)[k]
                == orig.skip(p + 1)[k] by {
                assert(input@[k] == input0[k + 1]);
                assert(window_views(input0)[k + 1] == orig.skip(p)[k + 1]);
            }
            assert(window_views(input@) =~= orig.skip(p + 1));
        }
        match find_entry(&out, &w) {
            Option::Some(j) => {
                let ghost outvec0 = out@;
                let mut entry = out.remove(j);
                let ghost entry0 = entry@;
                proof {
                    assert(entry0 == out0[j as int]);
                }
                let mut ps = w.into_panes();
                let ghost ps0 = pane_views(ps@);
                proof {
                    assert(ps0.take(0) =~= Seq::<PaneView>::empty());
                    assert(entry@.panes =~= entry0.panes + ps0.take(0));
                }
                while ps.len() > 0
                    invariant
                        ps@.len() <= ps0.len(),
                        pane_views(ps@) == ps0.skip(ps0.len() - ps@.len()),
                        entry@.session == entry0.session,
                        entry@.name == entry0.name,
                        entry@.panes == entry0.panes + ps0.take(ps0.len() - ps@.len()),
                    decreases ps@.len(),
                {
                    let ghost q = ps0.len() - ps@.len();
                    let ghost psvec0 = ps@;
                    let pane = ps.remove(0);
                    proof {
                        assert(pane_views(psvec0)[0] == pane@);
                        assert(pane@ == ps0[q]);
                        assert(ps@ =~= psvec0.subrange(1, psvec0.len() as int));
                        assert forall|k: int| 0 <= k < ps@.len() implies pane_views(ps@)[k]
                            == ps0.skip(q + 1)[k] by {
                            assert(ps@[k] == psvec0[k + 1]);
                            assert(pane_views(psvec0)[k + 1] == ps0.skip(q)[k + 1]);
                        }
                        assert(pane_views(ps@) =~= ps0.skip(q + 1));
                    }
                    entry.add_pane(pane);
                    proof {
                        assert(ps0.take(q + 1) =~= ps0.take(q).push(ps0[q]));
                        assert(entry@.panes =~= entry0.panes + ps0.take(q + 1));
                    }
                }
                proof {
                    assert(ps0.take(ps0.len() as int) =~= ps0);
                    assert(entry@.panes == entry0.panes + ps0);
                }
                out.insert(j, entry);
                proof {
                    assert(out@ =~= outvec0.update(j as int, entry));
                    assert(window_views(out@) =~= out0.update(j as int, entry@));
                    lemma_first_index(out0, wv.session, wv.name);
                    assert(entry@ =~= (WindowView {
                        panes: out0[j as int].panes + wv.panes,
                        ..out0[j as int]
                    }));
                    assert(window_views(out@) == merge_one(out0, wv));
                }
            },
            Option::None => {
                out.push(w);
                proof {
                    assert(window_views(out@) =~= out0.push(wv));
                    assert(window_views(out@) == merge_one(out0, wv));
                }
            },
        }
        proof {
            assert(orig.take(p + 1).drop_last() =~= orig.take(p));
            assert(orig.take(p + 1).last() == orig[p]);
            assert(window_views(out@) == merge_spec(orig.take(p + 1)));
        }
    }
    proof {
        assert(orig.take(orig.len() as int) =~= orig);
    }
    out
}

/// The delimiter between saved lines.
pub open spec fn nl_delim() -> Seq<char> {
    seq!['\n']
}

/// The records that survive lenient line parsing and the exclusion
/// filter: a line that fails to parse is dropped silently, as is a
/// window whose name stands on the denylist.
pub open spec fn kept_records(lines: Seq<Seq<char>>, excluded: Seq<Seq<char>>) -> Seq<WindowView>
    decreases lines.len(),
{
    if lines.len() == 0 {
        Seq::<WindowView>::empty()
    } else {
        kept_records(lines.drop_last(), excluded) + (if window_parse_ok(lines.last())
            && !excluded.contains(window_of(lines.last()).name) {
            seq![window_of(lines.last())]
        } else {
            Seq::<WindowView>::empty()
        })
    }
}

/// No surviving record carries a denylisted name.
pub proof fn lemma_kept_records_not_excluded(lines: Seq<Seq<char>>, excluded: Seq<Seq<char>>)
    ensures
        forall|j: int|
            0 <= j < kept_records(lines, excluded).len() ==> !excluded.contains(
                kept_records(lines, excluded)[j].name,
            ),
    decreases lines.len(),
{
    if lines.len() == 0 {
    } else {
        lemma_kept_records_not_excluded(lines.drop_last(), excluded);
        let prefix = kept_records(lines.drop_last(), excluded);
        let whole = kept_records(lines, excluded);
        assert forall|j: int| 0 <= j < whole.len() implies !excluded.contains(whole[j].name) by {
            if j < prefix.len() {
                assert(whole[j] == prefix[j]);
            } else {
                assert(whole[j] == window_of(lines.last()));
            }
        }
    }
}

/// Law: a window whose name stands on the denylist never appears in
/// the restore plan, however many pane records the save file held for
/// it.
pub proof fn lemma_excluded_never_restored(content: Seq<char>, excluded: Seq<Seq<char>>, k: int)
    requires
        0 <= k < merge_spec(kept_records(split_on(content, nl_delim()), excluded)).len(),
    ensures
        !excluded.contains(
            merge_spec(kept_records(split_on(content, nl_delim()), excluded))[k].name,
        ),
{
    let rs = kept_records(split_on(content, nl_delim()), excluded);
    let m = merge_spec(rs);
    lemma_kept_records_not_excluded(split_on(content, nl_delim()), excluded);
    lemma_merge_groups(rs);
    assert(first_index(rs, m[k].session, m[k].name) >= 0);
    lemma_first_index(rs, m[k].session, m[k].name);
    let i = first_index(rs, m[k].session, m[k].name);
    assert(rs[i].name == m[k].name);
    assert(!excluded.contains(rs[i].name));
}

/// Whether some string of `v` reads as `s`.
fn contains_str(v: &Vec<String>, s: &str) -> (r: bool)
    ensures
        r == seq_views(v@).contains(s@),
{
    let owned = String::from_str(s);
    let mut k: usize = 0;
    while k < v.len()
        invariant
            k <= v@.len(),
            owned@ == s@,
            forall|m: int| 0 <= m < k ==> v@[m]@ != s@,
        decreases v@.len() - k,
    {
        if v[k] == owned {
            proof {
                assert(seq_views(v@)[k as int] == s@);
                assert(seq_views(v@).contains(s@));
            }
            return true;
        }
        k = k + 1;
    }
    proof {
        assert forall|m: int| 0 <= m < seq_views(v@).len() implies seq_views(v@)[m] != s@ by {
            assert(v@[m]@ != s@);
        }
        assert(!seq_views(v@).contains(s@));
    }
    false
}

/// Parses the whole save file and folds it into the canonical window
/// list: each line is parsed leniently, windows with denylisted names
/// are dropped, and the surviving records are merged in first-seen
/// order. The result is the replay plan of a restore, one entry per
/// window to recreate.
pub fn load_windows(content: &str, excluded: &Vec<String>) -> (r: Vec<Window>)
    ensures
        window_views(r@) == merge_spec(
            kept_records(split_on(content@, nl_delim()), seq_views(excluded@)),
        ),
{
    proof {
        reveal_strlit("\n");
        assert("\n"@ =~= nl_delim());
    }
    let lines = split_str(content, "\n");
    let ghost lv = seq_views(lines@);
    let ghost ev = seq_views(excluded@);
    let mut wins: Vec<Window> = Vec::new();
    let mut j: usize = 0;
    proof {
        assert(lv.take(0) =~= Seq::<Seq<char>>::empty());
        assert(window_views(wins@) =~= kept_records(lv.take(0), ev));
    }
    while j < lines.len()
        invariant
            j <= lines@.len(),
            lv == seq_views(lines@),
            ev == seq_views(excluded@),
            window_views(wins@) == kept_records(lv.take(j as int), ev),
        decreases lines@.len() - j,
    {
        let ghost wins0 = window_views(wins@);
        proof {
            assert(lines@[j as int]@ == lv[j as int]);
        }
        match Window::from_str(lines[j].as_str()) {
            Result::Ok(w) => {
                if !contains_str(excluded, w.name()) {
                    let ghost wv = w@;
                    wins.push(w);
                    proof {
                        assert(window_views(wins@) =~= wins0.push(wv));
                        assert(wins0.push(wv) =~= wins0 + seq![window_of(lv[j as int])]);
                    }
                }
            },
            Result::Err(_) => {},
        }
        proof {
            assert(lv.take(j + 1).drop_last() =~= lv.take(j as int));
            assert(lv.take(j + 1).last() == lv[j as int]);
            if !(window_parse_ok(lv[j as int]) && !ev.contains(window_of(lv[j as int]).name)) {
                assert(wins0 + Seq::<WindowView>::empty() =~= wins0);
            }
            assert(window_views(wins@) == kept_records(lv.take(j + 1), ev));
        }
        j = j + 1;
    }
    proof {
        assert(lv.take(lines@.len() as int) =~= lv);
    }
    merge_windows_keeping_order(wins)
}

} // verus!

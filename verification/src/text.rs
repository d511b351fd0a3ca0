//! Splitting text on a fixed delimiter.
//!
//! The save format separates fields with single characters (tabs, newlines)
//! and with one multi-character delimiter. `split_on` is the mathematical
//! account of that splitting, and `split_str` the verified executable form.

use vstd::prelude::*;

verus! {

/// Holds when the delimiter `d` occurs in `s` starting at index `i`.
pub open spec fn delim_at(s: Seq<char>, d: Seq<char>, i: int) -> bool {
    &&& 0 <= i
    &&& i + d.len() <= s.len()
    &&& s.subrange(i, i + d.len() as int) == d
}

/// The fields of `s`, split on every non-overlapping occurrence of `d`,
/// scanning left to right. Splitting an empty sequence yields one empty
/// field, as `str::split` does.
pub open spec fn split_on(s: Seq<char>, d: Seq<char>) -> Seq<Seq<char>>
    decreases s.len(),
{
    if d.len() == 0 {
        seq![s]
    } else if delim_at(s, d, 0) {
        seq![Seq::<char>::empty()] + split_on(s.skip(d.len() as int), d)
    } else if s.len() == 0 {
        seq![s]
    } else {
        let rest = split_on(s.skip(1), d);
        rest.update(0, seq![s[0]] + rest[0])
    }
}

/// The views of a sequence of owned strings.
pub open spec fn seq_views(v: Seq<String>) -> Seq<Seq<char>> {
    Seq::new(v.len(), |k: int| v[k]@)
}

/// An occurrence of `d` in a suffix of `s` is an occurrence in `s`, shifted.
pub proof fn lemma_delim_at_skip(s: Seq<char>, d: Seq<char>, p: int)
    requires
        0 <= p <= s.len(),
    ensures
        forall|j: int| 0 <= j ==> (delim_at(s.skip(p), d, j) <==> delim_at(s, d, p + j)),
{
    assert forall|j: int| 0 <= j implies (delim_at(s.skip(p), d, j) <==> delim_at(
        s,
        d,
        p + j,
    )) by {
        if j + d.len() <= s.skip(p).len() {
            assert(s.skip(p).subrange(j, j + d.len() as int) =~= s.subrange(
                p + j,
                p + j + d.len() as int,
            ));
        }
    }
}

/// A sequence without any occurrence of the delimiter splits into itself.
pub proof fn lemma_split_none(s: Seq<char>, d: Seq<char>)
    requires
        d.len() >= 1,
        forall|j: int| !delim_at(s, d, j),
    ensures
        split_on(s, d) == seq![s],
    decreases s.len(),
{
    if s.len() == 0 {
    } else {
        lemma_delim_at_skip(s, d, 1);
        lemma_split_none(s.skip(1), d);
        let rest = split_on(s.skip(1), d);
        assert(rest == seq![s.skip(1)]);
        assert(seq![s[0]] + s.skip(1) =~= s);
        assert(rest.update(0, seq![s[0]] + rest[0]) =~= seq![s]);
    }
}

/// Splitting at the first occurrence of the delimiter: the head field is
/// everything before it, and the tail fields come from the remainder.
pub proof fn lemma_split_first(s: Seq<char>, d: Seq<char>, i: int)
    requires
        d.len() >= 1,
        delim_at(s, d, i),
        forall|j: int| 0 <= j < i ==> !delim_at(s, d, j),
    ensures
        split_on(s, d) == seq![s.take(i)] + split_on(s.skip(i + d.len()), d),
    decreases s.len(),
{
    if i == 0 {
        assert(s.take(0) =~= Seq::<char>::empty());
        assert(seq![Seq::<char>::empty()] + split_on(s.skip(d.len() as int), d) =~= seq![
            s.take(0),
        ] + split_on(s.skip(i + d.len()), d));
    } else {
        assert(!delim_at(s, d, 0));
        lemma_delim_at_skip(s, d, 1);
        assert(delim_at(s.skip(1), d, i - 1));
        assert forall|j: int| 0 <= j < i - 1 implies !delim_at(s.skip(1), d, j) by {
            assert(!delim_at(s, d, 1 + j));
        }
        lemma_split_first(s.skip(1), d, i - 1);
        let rest = split_on(s.skip(1), d);
        assert(rest == seq![s.skip(1).take(i - 1)] + split_on(s.skip(1).skip(i - 1 + d.len()), d));
        assert(s.skip(1).skip(i - 1 + d.len()) =~= s.skip(i + d.len()));
        assert(seq![s[0]] + s.skip(1).take(i - 1) =~= s.take(i));
        assert(rest.update(0, seq![s[0]] + rest[0]) =~= seq![s.take(i)] + split_on(
            s.skip(i + d.len()),
            d,
        ));
    }
}

/// Whether `d` occurs in `s` at exactly the position `i`.
fn delim_match_at(s: &str, d: &str, i: usize, sl: usize, dl: usize) -> (r: bool)
    requires
        sl == s@.len(),
        dl == d@.len(),
        i + dl <= sl,
    ensures
        r == delim_at(s@, d@, i as int),
{
    let mut k: usize = 0;
    while k < dl
        invariant
            sl == s@.len(),
            dl == d@.len(),
            i + dl <= sl,
            k <= dl,
            forall|m: int| 0 <= m < k ==> s@[i + m] == d@[m],
        decreases dl - k,
    {
        if s.get_char(i + k) != d.get_char(k) {
            proof {
                assert(s@.subrange(i as int, i + dl as int)[k as int] == s@[i + k]);
            }
            return false;
        }
        k = k + 1;
    }
    proof {
        assert(s@.subrange(i as int, i + dl as int) =~= d@);
    }
    true
}

/// The first occurrence of `d` in `s` at or after position `from`, if any.
fn find_delim_from(s: &str, d: &str, from: usize, sl: usize, dl: usize) -> (r: Option<usize>)
    requires
        sl == s@.len(),
        dl == d@.len(),
        dl >= 1,
        from <= sl,
    ensures
        match r {
            Option::Some(i) => from <= i && delim_at(s@, d@, i as int) && forall|j: int|
                from <= j < i ==> !delim_at(s@, d@, j),
            Option::None => forall|j: int| from <= j ==> !delim_at(s@, d@, j),
        },
{
    if dl > sl || from > sl - dl {
        return Option::None;
    }
    let mut i: usize = from;
    while i <= sl - dl
        invariant
            sl == s@.len(),
            dl == d@.len(),
            dl >= 1,
            dl <= sl,
            from <= i,
            i <= sl - dl + 1,
            forall|j: int| from <= j < i ==> !delim_at(s@, d@, j),
        decreases sl - i,
    {
        if delim_match_at(s, d, i, sl, dl) {
            return Option::Some(i);
        }
        i = i + 1;
    }
    Option::None
}

/// Splits `s` on every occurrence of the delimiter `d`, as `str::split` does.
pub fn split_str(s: &str, d: &str) -> (r: Vec<String>)
    requires
        d@.len() >= 1,
    ensures
        seq_views(r@) == split_on(s@, d@),
{
    let sl = s.unicode_len();
    let dl = d.unicode_len();
    let mut parts: Vec<String> = Vec::new();
    let mut pos: usize = 0;
    proof {
        assert(s@.skip(0) =~= s@);
        assert(seq_views(parts@) =~= Seq::<Seq<char>>::empty());
        assert(seq_views(parts@) + split_on(s@, d@) =~= split_on(s@, d@));
    }
    loop
        invariant
            sl == s@.len(),
            dl == d@.len(),
            dl >= 1,
            pos <= sl,
            split_on(s@, d@) == seq_views(parts@) + split_on(s@.skip(pos as int), d@),
        decreases sl - pos,
    {
        match find_delim_from(s, d, pos, sl, dl) {
            Option::Some(i) => {
                let field = s.substring_char(pos, i);
                proof {
                    lemma_delim_at_skip(s@, d@, pos as int);
                    assert(delim_at(s@.skip(pos as int), d@, i - pos));
                    assert forall|j: int| 0 <= j < i - pos implies !delim_at(
                        s@.skip(pos as int),
                        d@,
                        j,
                    ) by {
                        assert(!delim_at(s@, d@, pos + j));
                    }
                    lemma_split_first(s@.skip(pos as int), d@, i - pos);
                    assert(s@.skip(pos as int).take(i - pos) =~= s@.subrange(pos as int, i as int));
                    assert(s@.skip(pos as int).skip(i - pos + d@.len()) =~= s@.skip(
                        i + dl as int,
                    ));
                }
                let owned = String::from_str(field);
                proof {
                    assert(seq_views(parts@.push(owned)) =~= seq_views(parts@).push(field@));
                    assert(seq_views(parts@).push(field@) + split_on(s@.skip(i + dl as int), d@)
                        =~= seq_views(parts@) + (seq![field@] + split_on(
                        s@.skip(i + dl as int),
                        d@,
                    )));
                }
                parts.push(owned);
                pos = i + dl;
            },
            Option::None => {
                let field = s.substring_char(pos, sl);
                proof {
                    lemma_delim_at_skip(s@, d@, pos as int);
                    assert forall|j: int| !delim_at(s@.skip(pos as int), d@, j) by {
                        if j >= 0 {
                            assert(!delim_at(s@, d@, pos + j));
                        }
                    }
                    lemma_split_none(s@.skip(pos as int), d@);
                    assert(field@ =~= s@.skip(pos as int));
                }
                let owned = String::from_str(field);
                proof {
                    assert(seq_views(parts@.push(owned)) =~= seq_views(parts@).push(field@));
                    assert(seq_views(parts@).push(field@) =~= seq_views(parts@) + seq![field@]);
                }
                parts.push(owned);
                proof {
                    assert(seq_views(parts@) =~= split_on(s@, d@));
                }
                return parts;
            },
        }
    }
}

} // verus!

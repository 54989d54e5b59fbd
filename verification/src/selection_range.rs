//! The ranges to select around a position in a `.mat` file, from the
//! innermost out: each range's parent is the one after it.
use vstd::prelude::*;
use crate::diagnostics::{TextPosition, TextRange};
use crate::navigation::{in_range, position_in_range};
use crate::parser::{MatFile, MaterialView, ParameterView, ValueView};

verus! {

/// The ranges of the parameters that hold a position, at depth 1.
pub open spec fn param_candidates(ps: Seq<ParameterView>, line: u32, character: u32) -> Seq<(TextRange, u32)>
    decreases ps.len(),
{
    if ps.len() == 0 {
        seq![]
    } else {
        param_candidates(ps.drop_last(), line, character) + if in_range(line, character, ps.last().range) {
            seq![(ps.last().range, 1u32)]
        } else {
            seq![]
        }
    }
}

/// The ranges of the property values that hold a position, at depth 1.
pub open spec fn property_candidates(ps: Seq<(Seq<char>, ValueView, TextRange)>, line: u32, character: u32) -> Seq<(TextRange, u32)>
    decreases ps.len(),
{
    if ps.len() == 0 {
        seq![]
    } else {
        property_candidates(ps.drop_last(), line, character) + if in_range(line, character, ps.last().2) {
            seq![(ps.last().2, 1u32)]
        } else {
            seq![]
        }
    }
}

/// The value part of a `shadingModel` property: from the width of
/// `shadingModel : ` after its start to its end.
pub open spec fn shading_value_range(r: TextRange) -> TextRange {
    TextRange { start: TextPosition { line: r.start.line, character: (r.start.character + 15) as u32 }, end: r.end }
}

/// The ranges that hold a position, with their depths, in the order they
/// are found: the material block, parameters, property values, the name,
/// and the shading model with its value part.
pub open spec fn selection_candidates(m: MaterialView, line: u32, character: u32) -> Seq<(TextRange, u32)> {
    (if in_range(line, character, m.range) { seq![(m.range, 0u32)] } else { seq![] })
        + param_candidates(m.parameters, line, character)
        + property_candidates(m.properties, line, character)
        + match m.name {
            Some((_, r)) => if in_range(line, character, r) { seq![(r, 1u32)] } else { seq![] },
            None => seq![],
        }
        + match m.shading_model {
            Some((_, r)) => if in_range(line, character, r) {
                seq![(r, 1u32)] + if in_range(line, character, shading_value_range(r)) {
                    seq![(shading_value_range(r), 2u32)]
                } else {
                    seq![]
                }
            } else {
                seq![]
            },
            None => seq![],
        }
}

/// The ranges of the candidates at one depth, in order.
pub open spec fn with_depth(c: Seq<(TextRange, u32)>, d: u32) -> Seq<TextRange>
    decreases c.len(),
{
    if c.len() == 0 {
        seq![]
    } else {
        with_depth(c.drop_last(), d) + if c.last().1 == d { seq![c.last().0] } else { seq![] }
    }
}

/// A sequence without runs of equal neighbours: each run kept once.
pub open spec fn dedup(s: Seq<TextRange>) -> Seq<TextRange>
    decreases s.len(),
{
    if s.len() == 0 {
        s
    } else {
        let d = dedup(s.drop_last());
        if d.len() > 0 && d.last() == s.last() { d } else { d.push(s.last()) }
    }
}

/// The selection ranges at a position: the candidates deepest first (in
/// the order found among equal depths), without repeats of a range next to
/// itself.
pub open spec fn selection_ranges(m: MaterialView, line: u32, character: u32) -> Seq<TextRange> {
    let c = selection_candidates(m, line, character);
    dedup(with_depth(c, 2) + with_depth(c, 1) + with_depth(c, 0))
}

/// Appends the candidates of depth `d`.
fn push_depth(out: &mut Vec<TextRange>, c: &Vec<(TextRange, u32)>, d: u32)
    ensures
        final(out)@ == old(out)@ + with_depth(c@, d),
{
    let ghost o = out@;
    let mut i: usize = 0;
    assert(c@.take(0) =~= Seq::<(TextRange, u32)>::empty());
    while i < c.len()
        invariant
            i <= c@.len(),
            out@ == o + with_depth(c@.take(i as int), d),
        decreases c.len() - i,
    {
        assert(c@.take(i + 1).drop_last() =~= c@.take(i as int));
        if c[i].1 == d {
            out.push(c[i].0);
        }
        assert(out@ =~= o + with_depth(c@.take(i + 1), d));
        i = i + 1;
    }
    assert(c@.take(i as int) =~= c@);
}

/// Builds the selection ranges for a position in a file: the innermost
/// range first, each followed by the range that holds it.
pub fn build_selection_ranges(matfile: &MatFile, line: u32, character: u32) -> (r: Vec<TextRange>)
    requires
        matfile.material@.shading_model matches Some((_, sr)) ==> sr.start.character + 15 <= u32::MAX,
    ensures
        r@ == selection_ranges(matfile.material@, line, character),
{
    let m = &matfile.material;
    let ghost mv = m@;
    let mut c: Vec<(TextRange, u32)> = Vec::new();
    if position_in_range(line, character, m.range) {
        c.push((m.range, 0));
    }
    let ghost head = c@;
    let ghost pv = mv.parameters;
    let mut i: usize = 0;
    assert(pv.take(0) =~= Seq::<ParameterView>::empty());
    while i < m.parameters.len()
        invariant
            i <= m.parameters@.len(),
            pv == mv.parameters,
            mv == m@,
            pv.len() == m.parameters@.len(),
            forall|k: int| 0 <= k < pv.len() ==> #[trigger] pv[k].range == m.parameters@[k].range,
            c@ == head + param_candidates(pv.take(i as int), line, character),
        decreases m.parameters.len() - i,
    {
        assert(pv.take(i + 1).drop_last() =~= pv.take(i as int));
        let pr = m.parameters[i].range;
        if position_in_range(line, character, pr) {
            c.push((pr, 1));
        }
        assert(c@ =~= head + param_candidates(pv.take(i + 1), line, character));
        i = i + 1;
    }
    assert(pv.take(i as int) =~= pv);
    let ghost head2 = c@;
    let ghost qv = mv.properties;
    let mut j: usize = 0;
    assert(qv.take(0) =~= Seq::<(Seq<char>, ValueView, TextRange)>::empty());
    while j < m.properties.len()
        invariant
            j <= m.properties@.len(),
            qv == mv.properties,
            mv == m@,
            qv.len() == m.properties@.len(),
            forall|k: int| 0 <= k < qv.len() ==> #[trigger] qv[k].2 == m.properties@[k].1.range,
            c@ == head2 + property_candidates(qv.take(j as int), line, character),
        decreases m.properties.len() - j,
    {
        assert(qv.take(j + 1).drop_last() =~= qv.take(j as int));
        let vr = m.properties[j].1.range;
        if position_in_range(line, character, vr) {
            c.push((vr, 1));
        }
        assert(c@ =~= head2 + property_candidates(qv.take(j + 1), line, character));
        j = j + 1;
    }
    assert(qv.take(j as int) =~= qv);
    match &m.name {
        Some(n) => {
            if position_in_range(line, character, n.range) {
                c.push((n.range, 1));
            }
        },
        None => {},
    }
    match &m.shading_model {
        Some(sm) => {
            if position_in_range(line, character, sm.range) {
                c.push((sm.range, 1));
                let vr = TextRange {
                    start: TextPosition { line: sm.range.start.line, character: sm.range.start.character + 15 },
                    end: sm.range.end,
                };
                if position_in_range(line, character, vr) {
                    c.push((vr, 2));
                }
            }
        },
        None => {},
    }
    assert(c@ =~= selection_candidates(mv, line, character));
    let mut sorted: Vec<TextRange> = Vec::new();
    push_depth(&mut sorted, &c, 2);
    push_depth(&mut sorted, &c, 1);
    push_depth(&mut sorted, &c, 0);
    assert(sorted@ =~= with_depth(c@, 2) + with_depth(c@, 1) + with_depth(c@, 0));
    let mut out: Vec<TextRange> = Vec::new();
    let mut k: usize = 0;
    assert(sorted@.take(0) =~= Seq::<TextRange>::empty());
    while k < sorted.len()
        invariant
            k <= sorted@.len(),
            out@ == dedup(sorted@.take(k as int)),
        decreases sorted.len() - k,
    {
        assert(sorted@.take(k + 1).drop_last() =~= sorted@.take(k as int));
        let x = sorted[k];
        let n = out.len();
        if n == 0 || out[n - 1] != x {
            out.push(x);
        }
        k = k + 1;
    }
    assert(sorted@.take(k as int) =~= sorted@);
    out
}

proof fn lemma_param_candidates(ps: Seq<ParameterView>, line: u32, character: u32)
    ensures
        forall|i: int| 0 <= i < param_candidates(ps, line, character).len() ==> in_range(line, character, (#[trigger] param_candidates(ps, line, character)[i]).0),
    decreases ps.len(),
{
    if ps.len() > 0 {
        lemma_param_candidates(ps.drop_last(), line, character);
        let r = param_candidates(ps.drop_last(), line, character);
        let c = param_candidates(ps, line, character);
        assert forall|i: int| 0 <= i < c.len() implies in_range(line, character, (#[trigger] c[i]).0) by {
            if i < r.len() {
                assert(c[i] == r[i]);
            }
        }
    }
}

proof fn lemma_property_candidates(ps: Seq<(Seq<char>, ValueView, TextRange)>, line: u32, character: u32)
    ensures
        forall|i: int| 0 <= i < property_candidates(ps, line, character).len() ==> in_range(line, character, (#[trigger] property_candidates(ps, line, character)[i]).0),
    decreases ps.len(),
{
    if ps.len() > 0 {
        lemma_property_candidates(ps.drop_last(), line, character);
        let r = property_candidates(ps.drop_last(), line, character);
        let c = property_candidates(ps, line, character);
        assert forall|i: int| 0 <= i < c.len() implies in_range(line, character, (#[trigger] c[i]).0) by {
            if i < r.len() {
                assert(c[i] == r[i]);
            }
        }
    }
}

proof fn lemma_with_depth(c: Seq<(TextRange, u32)>, d: u32, line: u32, character: u32)
    requires
        forall|i: int| 0 <= i < c.len() ==> in_range(line, character, (#[trigger] c[i]).0),
    ensures
        forall|i: int| 0 <= i < with_depth(c, d).len() ==> in_range(line, character, #[trigger] with_depth(c, d)[i]),
    decreases c.len(),
{
    if c.len() > 0 {
        let t = c.drop_last();
        assert forall|i: int| 0 <= i < t.len() implies in_range(line, character, (#[trigger] t[i]).0) by {
            assert(t[i] == c[i]);
        }
        lemma_with_depth(t, d, line, character);
        let r = with_depth(t, d);
        let w = with_depth(c, d);
        assert forall|i: int| 0 <= i < w.len() implies in_range(line, character, #[trigger] w[i]) by {
            if i < r.len() {
                assert(w[i] == r[i]);
            } else {
                assert(c[c.len() - 1] == c.last());
            }
        }
    }
}

proof fn lemma_dedup(s: Seq<TextRange>, line: u32, character: u32)
    requires
        forall|i: int| 0 <= i < s.len() ==> in_range(line, character, #[trigger] s[i]),
    ensures
        forall|i: int| 0 <= i < dedup(s).len() ==> in_range(line, character, #[trigger] dedup(s)[i]),
    decreases s.len(),
{
    if s.len() > 0 {
        let t = s.drop_last();
        assert forall|i: int| 0 <= i < t.len() implies in_range(line, character, #[trigger] t[i]) by {
            assert(t[i] == s[i]);
        }
        lemma_dedup(t, line, character);
        let r = dedup(t);
        let w = dedup(s);
        assert forall|i: int| 0 <= i < w.len() implies in_range(line, character, #[trigger] w[i]) by {
            if i < r.len() {
                assert(w[i] == r[i]);
            } else {
                assert(s[s.len() - 1] == s.last());
            }
        }
    }
}

/// Every selection range holds the position it was asked for.
pub proof fn lemma_selection_holds_position(m: MaterialView, line: u32, character: u32)
    ensures
        forall|i: int| 0 <= i < selection_ranges(m, line, character).len() ==> in_range(line, character, #[trigger] selection_ranges(m, line, character)[i]),
{
    let c = selection_candidates(m, line, character);
    lemma_param_candidates(m.parameters, line, character);
    lemma_property_candidates(m.properties, line, character);
    assert forall|i: int| 0 <= i < c.len() implies in_range(line, character, (#[trigger] c[i]).0) by {
        let a = if in_range(line, character, m.range) { seq![(m.range, 0u32)] } else { Seq::<(TextRange, u32)>::empty() };
        let b = param_candidates(m.parameters, line, character);
        let p = property_candidates(m.properties, line, character);
        let n = match m.name {
            Some((_, r)) => if in_range(line, character, r) { seq![(r, 1u32)] } else { seq![] },
            None => seq![],
        };
        let sm = match m.shading_model {
            Some((_, r)) => if in_range(line, character, r) {
                seq![(r, 1u32)] + if in_range(line, character, shading_value_range(r)) {
                    seq![(shading_value_range(r), 2u32)]
                } else {
                    seq![]
                }
            } else {
                seq![]
            },
            None => seq![],
        };
        assert(c == a + b + p + n + sm);
        if i < a.len() {
        } else if i < a.len() + b.len() {
            assert(c[i] == b[i - a.len()]);
        } else if i < a.len() + b.len() + p.len() {
            assert(c[i] == p[i - a.len() - b.len()]);
        } else if i < a.len() + b.len() + p.len() + n.len() {
            assert(c[i] == n[i - a.len() - b.len() - p.len()]);
        } else {
            assert(c[i] == sm[i - a.len() - b.len() - p.len() - n.len()]);
        }
    }
    lemma_with_depth(c, 2, line, character);
    lemma_with_depth(c, 1, line, character);
    lemma_with_depth(c, 0, line, character);
    let all = with_depth(c, 2) + with_depth(c, 1) + with_depth(c, 0);
    assert forall|i: int| 0 <= i < all.len() implies in_range(line, character, #[trigger] all[i]) by {
        let x = with_depth(c, 2);
        let y = with_depth(c, 1);
        if i < x.len() {
        } else if i < x.len() + y.len() {
            assert(all[i] == y[i - x.len()]);
        } else {
            assert(all[i] == with_depth(c, 0)[i - x.len() - y.len()]);
        }
    }
    lemma_dedup(all, line, character);
}

} // verus!

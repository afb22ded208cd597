//! What holds of every answer to a query, proved from the meaning of
//! [`answers`] alone.

use crate::date::CivilDate;
use crate::observation::Observation;
use crate::select::{
    answers, ascending, dated_after, distinct_dates, is_anchor, lemma_same_members,
    strictly_ascending,
};
use vstd::prelude::*;

verus! {

/// All anchors of the same observations for the same start have one date.
pub proof fn lemma_anchor_date(s: Seq<Observation>, start: CivilDate, a: Observation, b: Observation)
    requires
        is_anchor(s, start, a),
        is_anchor(s, start, b),
    ensures
        a.d == b.d,
        distinct_dates(s) ==> a == b,
{
    let i = choose|i: int| 0 <= i < s.len() && s[i] == a;
    let j = choose|j: int| 0 <= j < s.len() && s[j] == b;
    assert(s[i].d.on_or_before(b.d));
    assert(s[j].d.on_or_before(a.d));
    if distinct_dates(s) {
        if i < j {
            assert(s[i].d != s[j].d);
        }
        if j < i {
            assert(s[j].d != s[i].d);
        }
    }
}

/// With no date twice in `s`, what `s` holds after `start` has no date twice
/// either, and holds observations of `s` only.
proof fn lemma_rest_distinct(s: Seq<Observation>, start: CivilDate, rest: Seq<Observation>)
    requires
        distinct_dates(s),
        rest.to_multiset() == s.to_multiset().filter(dated_after(start)),
    ensures
        distinct_dates(rest),
        forall|i: int| 0 <= i < rest.len() ==> start.before((#[trigger] rest[i]).d),
        forall|i: int| 0 <= i < rest.len() ==> s.contains(#[trigger] rest[i]),
{
    broadcast use vstd::multiset::group_multiset_axioms;

    assert(s.no_duplicates()) by {
        assert forall|i: int, j: int| 0 <= i < s.len() && 0 <= j < s.len() && i != j implies s[i]
            != s[j] by {
            if i < j {
                assert(s[i].d != s[j].d);
            } else {
                assert(s[j].d != s[i].d);
            }
        }
    }
    s.lemma_multiset_has_no_duplicates();
    assert forall|i: int| 0 <= i < rest.len() implies start.before((#[trigger] rest[i]).d)
        && s.contains(rest[i]) by {
        assert(rest.contains(rest[i]));
        vstd::seq_lib::to_multiset_contains(rest, rest[i]);
        vstd::seq_lib::to_multiset_contains(s, rest[i]);
    }
    assert forall|x: Observation| rest.to_multiset().contains(x) implies rest.to_multiset().count(
        x,
    ) == 1 by {
        assert(s.to_multiset().contains(x));
    }
    rest.lemma_multiset_has_no_duplicates_conv();
    assert forall|i: int, j: int| 0 <= i < j < rest.len() implies #[trigger] rest[i].d
        != #[trigger] rest[j].d by {
        assert(rest[i] != rest[j]);
        assert(s.contains(rest[i]));
        assert(s.contains(rest[j]));
        let p = choose|p: int| 0 <= p < s.len() && s[p] == rest[i];
        let q = choose|q: int| 0 <= q < s.len() && s[q] == rest[j];
        if p < q {
            assert(s[p].d != s[q].d);
        }
        if q < p {
            assert(s[q].d != s[p].d);
        }
    }
}

/// Two sequences in the order of their dates that hold the same observations,
/// with no date twice, are one sequence.
proof fn lemma_one_order(x: Seq<Observation>, y: Seq<Observation>)
    requires
        ascending(x),
        ascending(y),
        distinct_dates(x),
        x.to_multiset() == y.to_multiset(),
    ensures
        x == y,
    decreases x.len(),
{
    vstd::seq_lib::to_multiset_len(x);
    vstd::seq_lib::to_multiset_len(y);
    if x.len() == 0 {
        assert(x =~= y);
    } else {
        lemma_same_members(x, y);
        assert(y.contains(y[0]));
        assert(x.contains(x[0]));
        let i = choose|i: int| 0 <= i < x.len() && x[i] == y[0];
        let j = choose|j: int| 0 <= j < y.len() && y[j] == x[0];
        if i > 0 {
            assert(x[0].d.on_or_before(x[i].d));
            assert(x[0].d != x[i].d);
            if j > 0 {
                assert(y[0].d.on_or_before(y[j].d));
            }
        }
        assert(x[0] == y[0]);
        vstd::seq_lib::to_multiset_remove(x, 0);
        vstd::seq_lib::to_multiset_remove(y, 0);
        let xs = x.remove(0);
        let ys = y.remove(0);
        assert(ascending(xs)) by {
            assert forall|a: int, b: int| 0 <= a < b < xs.len() implies #[trigger] xs[a].d.on_or_before(
                #[trigger] xs[b].d,
            ) by {
                assert(x[a + 1].d.on_or_before(x[b + 1].d));
            }
        }
        assert(ascending(ys)) by {
            assert forall|a: int, b: int| 0 <= a < b < ys.len() implies #[trigger] ys[a].d.on_or_before(
                #[trigger] ys[b].d,
            ) by {
                assert(y[a + 1].d.on_or_before(y[b + 1].d));
            }
        }
        assert(distinct_dates(xs)) by {
            assert forall|a: int, b: int| 0 <= a < b < xs.len() implies #[trigger] xs[a].d
                != #[trigger] xs[b].d by {
                assert(x[a + 1].d != x[b + 1].d);
            }
        }
        lemma_one_order(xs, ys);
        assert(x =~= seq![x[0]] + xs);
        assert(y =~= seq![y[0]] + ys);
    }
}

/// A query for a single date that has an observation is answered by an
/// observation of that very date, and by nothing else. Where no date occurs
/// twice, that is the observation itself.
pub proof fn theorem_exact_date(
    s: Seq<Observation>,
    start: CivilDate,
    o: Observation,
    out: Seq<Observation>,
)
    requires
        s.contains(o),
        o.d == start,
        answers(s, start, false, out),
    ensures
        out.len() == 1,
        s.contains(out[0]),
        out[0].d == start,
        distinct_dates(s) ==> out == seq![o],
{
    let i = choose|i: int| 0 <= i < s.len() && s[i] == o;
    assert(s[i].d.on_or_before(out[0].d));
    if distinct_dates(s) {
        assert(is_anchor(s, start, o));
        lemma_anchor_date(s, start, o, out[0]);
        assert(out =~= seq![o]);
    }
}

/// A query for a single date that has no observation is answered by the
/// observation with the latest date before it.
pub proof fn theorem_gap_falls_back(s: Seq<Observation>, start: CivilDate, out: Seq<Observation>)
    requires
        forall|i: int| 0 <= i < s.len() ==> (#[trigger] s[i]).d != start,
        answers(s, start, false, out),
    ensures
        out.len() == 1,
        s.contains(out[0]),
        out[0].d.before(start),
        forall|i: int|
            0 <= i < s.len() && (#[trigger] s[i]).d.before(start) ==> s[i].d.on_or_before(out[0].d),
{
    let i = choose|i: int| 0 <= i < s.len() && s[i] == out[0];
    assert(s[i].d != start);
}

/// The answer to a query for a range starts with an observation dated on the
/// start or before it, the latest such that there is; its dates never go
/// down, and where the observations have no date twice, they go up from each
/// to the next.
pub proof fn theorem_range_shape(s: Seq<Observation>, start: CivilDate, out: Seq<Observation>)
    requires
        answers(s, start, true, out),
    ensures
        s.contains(out[0]),
        out[0].d.on_or_before(start),
        forall|i: int|
            0 <= i < s.len() && (#[trigger] s[i]).d.on_or_before(start) ==> s[i].d.on_or_before(
                out[0].d,
            ),
        forall|i: int| 1 <= i < out.len() ==> start.before((#[trigger] out[i]).d),
        ascending(out),
        distinct_dates(s) ==> strictly_ascending(out),
{
    broadcast use vstd::multiset::group_multiset_axioms;

    let rest = out.skip(1);
    assert forall|i: int| 1 <= i < out.len() implies start.before((#[trigger] out[i]).d) by {
        assert(rest[i - 1] == out[i]);
        assert(rest.contains(rest[i - 1]));
        vstd::seq_lib::to_multiset_contains(rest, out[i]);
    }
    if distinct_dates(s) {
        lemma_rest_distinct(s, start, rest);
        assert forall|i: int, j: int| 0 <= i < j < out.len() implies #[trigger] out[i].d.before(
            #[trigger] out[j].d,
        ) by {
            assert(out[i].d.on_or_before(out[j].d));
            if i >= 1 {
                assert(rest[i - 1].d != rest[j - 1].d);
            }
        }
    }
}

/// Asking an answer for its own first date gives back its first observation.
pub proof fn theorem_idempotent(
    s: Seq<Observation>,
    start: CivilDate,
    is_range: bool,
    out: Seq<Observation>,
    again: Seq<Observation>,
)
    requires
        answers(s, start, is_range, out),
        answers(out, out[0].d, false, again),
    ensures
        again == seq![out[0]],
{
    broadcast use vstd::multiset::group_multiset_axioms;

    let i = choose|i: int| 0 <= i < out.len() && out[i] == again[0];
    assert(out[0].d.on_or_before(again[0].d));
    if i >= 1 {
        let rest = out.skip(1);
        assert(rest[i - 1] == out[i]);
        assert(rest.contains(rest[i - 1]));
        vstd::seq_lib::to_multiset_contains(rest, out[i]);
        assert(start.before(out[i].d));
    }
    assert(again =~= seq![out[0]]);
}

/// The order in which the observations come does not matter: two inputs that
/// hold the same observations, with no date twice, have the same answer.
pub proof fn theorem_order_independent(
    a: Seq<Observation>,
    b: Seq<Observation>,
    start: CivilDate,
    is_range: bool,
    out_a: Seq<Observation>,
    out_b: Seq<Observation>,
)
    requires
        a.to_multiset() == b.to_multiset(),
        distinct_dates(a),
        answers(a, start, is_range, out_a),
        answers(b, start, is_range, out_b),
    ensures
        out_a == out_b,
{
    lemma_same_members(a, b);
    assert(is_anchor(a, start, out_b[0])) by {
        assert forall|i: int| 0 <= i < a.len() && (#[trigger] a[i]).d.on_or_before(start) implies a[i].d.on_or_before(
            out_b[0].d,
        ) by {
            assert(a.contains(a[i]));
            let j = choose|j: int| 0 <= j < b.len() && b[j] == a[i];
            assert(b[j].d.on_or_before(out_b[0].d));
        }
    }
    lemma_anchor_date(a, start, out_a[0], out_b[0]);
    if is_range {
        let rest_a = out_a.skip(1);
        let rest_b = out_b.skip(1);
        lemma_rest_distinct(a, start, rest_a);
        assert(ascending(rest_a)) by {
            assert forall|i: int, j: int| 0 <= i < j < rest_a.len() implies #[trigger] rest_a[i].d.on_or_before(
                #[trigger] rest_a[j].d,
            ) by {
                assert(out_a[i + 1].d.on_or_before(out_a[j + 1].d));
            }
        }
        assert(ascending(rest_b)) by {
            assert forall|i: int, j: int| 0 <= i < j < rest_b.len() implies #[trigger] rest_b[i].d.on_or_before(
                #[trigger] rest_b[j].d,
            ) by {
                assert(out_b[i + 1].d.on_or_before(out_b[j + 1].d));
            }
        }
        lemma_one_order(rest_a, rest_b);
        assert(out_a =~= seq![out_a[0]] + rest_a);
        assert(out_b =~= seq![out_b[0]] + rest_b);
    } else {
        assert(out_a =~= out_b);
    }
}

} // verus!

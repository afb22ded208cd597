//! Selection: which observations answer a query for a date or a range.
//!
//! A query names a start date. The observation that answers for it is the one
//! published on that day, or, where nothing was published then, the latest
//! one before it. A query for a range is answered by that observation and all
//! later ones, in the order of their dates.

use crate::date::CivilDate;
use crate::observation::Observation;
use vstd::prelude::*;

verus! {

/// Why a selection has no answer.
#[derive(Clone, Copy, Debug, PartialEq, Eq, Structural)]
pub enum SelectError {
    /// There are no observations at all.
    NoObservations,
    /// Every observation is dated after the start date.
    NothingInReach,
}

/// The dates of `s` never go down from one observation to the next.
pub open spec fn ascending(s: Seq<Observation>) -> bool {
    forall|i: int, j: int|
        #![trigger s[i], s[j]]
        0 <= i < j < s.len() ==> s[i].d.on_or_before(s[j].d)
}

/// The dates of `s` go up from each observation to the next.
pub open spec fn strictly_ascending(s: Seq<Observation>) -> bool {
    forall|i: int, j: int|
        #![trigger s[i], s[j]]
        0 <= i < j < s.len() ==> s[i].d.before(s[j].d)
}

/// No two observations of `s` have the same date.
pub open spec fn distinct_dates(s: Seq<Observation>) -> bool {
    forall|i: int, j: int|
        #![trigger s[i], s[j]]
        0 <= i < j < s.len() ==> s[i].d != s[j].d
}

/// Some observation of `s` is dated on `start` or before it.
pub open spec fn in_reach(s: Seq<Observation>, start: CivilDate) -> bool {
    exists|i: int| 0 <= i < s.len() && (#[trigger] s[i]).d.on_or_before(start)
}

/// `a` is an observation of `s` dated on `start` or before it, and none of
/// `s` within that bound is dated later than `a`.
pub open spec fn is_anchor(s: Seq<Observation>, start: CivilDate, a: Observation) -> bool {
    &&& s.contains(a)
    &&& a.d.on_or_before(start)
    &&& forall|i: int|
        0 <= i < s.len() && (#[trigger] s[i]).d.on_or_before(start) ==> s[i].d.on_or_before(a.d)
}

/// The test that an observation is dated on `date`.
pub open spec fn dated_on(date: CivilDate) -> spec_fn(Observation) -> bool {
    |o: Observation| o.d == date
}

/// The observations of each date stand in `after` in the order in which they
/// stand in `before`.
pub open spec fn same_order_within_dates(before: Seq<Observation>, after: Seq<Observation>) -> bool {
    forall|date: CivilDate| #[trigger] after.filter(dated_on(date)) == before.filter(dated_on(date))
}

/// The test that an observation is dated after `start`.
pub open spec fn dated_after(start: CivilDate) -> spec_fn(Observation) -> bool {
    |o: Observation| start.before(o.d)
}

/// `out` answers the query on the observations `s`.
///
/// Its first element is an anchor of `s` for `start`. For a single date that
/// is all of it. For a range it goes on with the observations of `s` that are
/// dated after `start`, each as often as `s` has it, in ascending order.
pub open spec fn answers(
    s: Seq<Observation>,
    start: CivilDate,
    is_range: bool,
    out: Seq<Observation>,
) -> bool {
    &&& out.len() >= 1
    &&& is_anchor(s, start, out[0])
    &&& if is_range {
        &&& ascending(out)
        &&& out.skip(1).to_multiset() == s.to_multiset().filter(dated_after(start))
    } else {
        out.len() == 1
    }
}

/// Where none of `s` passes the test, nothing is left of it.
proof fn lemma_filter_none(s: Seq<Observation>, test: spec_fn(Observation) -> bool)
    requires
        forall|i: int| 0 <= i < s.len() ==> !test(#[trigger] s[i]),
    ensures
        s.filter(test) == Seq::<Observation>::empty(),
{
    let kept = s.filter(test);
    if kept.len() > 0 {
        s.lemma_filter_pred(test, 0);
        assert(kept.contains(kept[0]));
        s.lemma_filter_contains_rev(test, kept[0]);
        let i = choose|i: int| 0 <= i < s.len() && s[i] == kept[0];
        assert(!test(s[i]));
    }
    assert(kept =~= Seq::<Observation>::empty());
}

/// Moving an observation towards the front, past observations of other dates
/// only, leaves the observations of each date in the order they had.
proof fn lemma_move_keeps_order(v: Seq<Observation>, to: int, from: int, date: CivilDate)
    requires
        0 <= to <= from < v.len(),
        forall|k: int| to <= k < from ==> (#[trigger] v[k]).d != v[from].d,
    ensures
        v.remove(from).insert(to, v[from]).filter(dated_on(date)) == v.filter(dated_on(date)),
{
    let test = dated_on(date);
    let x = seq![v[from]];
    let a = v.subrange(0, to);
    let b = v.subrange(to, from);
    let c = v.subrange(from + 1, v.len() as int);
    assert(v =~= ((a + b) + x) + c);
    assert(v.remove(from).insert(to, v[from]) =~= ((a + x) + b) + c);
    Seq::filter_distributes_over_add((a + b) + x, c, test);
    Seq::filter_distributes_over_add(a + b, x, test);
    Seq::filter_distributes_over_add(a, b, test);
    Seq::filter_distributes_over_add((a + x) + b, c, test);
    Seq::filter_distributes_over_add(a + x, b, test);
    Seq::filter_distributes_over_add(a, x, test);
    if v[from].d == date {
        lemma_filter_none(b, test);
    } else {
        lemma_filter_none(x, test);
    }
    assert((a.filter(test) + b.filter(test)) + x.filter(test) =~= (a.filter(test) + x.filter(test))
        + b.filter(test));
}

/// Puts the observations in the order of their dates. Observations of one
/// date keep the order they came in.
pub fn sort_by_date(v: &mut Vec<Observation>)
    ensures
        ascending(final(v)@),
        final(v)@.to_multiset() == old(v)@.to_multiset(),
        same_order_within_dates(old(v)@, final(v)@),
{
    let ghost start = v@;
    let n: usize = v.len();
    let mut i: usize = 0;
    while i < n
        invariant
            v@.len() == n,
            i <= n,
            ascending(v@.take(i as int)),
            v@.to_multiset() == start.to_multiset(),
            same_order_within_dates(start, v@),
        decreases n - i,
    {
        let x: Observation = v[i];
        let mut j: usize = i;
        while j > 0 && x < v[j - 1]
            invariant
                j <= i < n,
                v@.len() == n,
                x == v@[i as int],
                forall|k: int| j <= k < i ==> x.d.before(#[trigger] v@[k].d),
            decreases j,
        {
            j -= 1;
        }
        let ghost before = v@;
        v.remove(i);
        v.insert(j, x);
        proof {
            assert forall|date: CivilDate| #[trigger]
                v@.filter(dated_on(date)) == start.filter(dated_on(date)) by {
                lemma_move_keeps_order(before, j as int, i as int, date);
            }
            let mid = before.remove(i as int);
            assert(before.contains(x)) by {
                assert(before[i as int] == x);
            }
            vstd::seq_lib::to_multiset_contains(before, x);
            vstd::seq_lib::to_multiset_remove(before, i as int);
            vstd::seq_lib::to_multiset_insert(mid, j as int, x);
            assert(v@.to_multiset() =~= before.to_multiset());
            let next = v@.take(i + 1);
            assert forall|a: int, b: int| 0 <= a < b < next.len() implies #[trigger] next[a].d.on_or_before(
                #[trigger] next[b].d,
            ) by {
                let pa = if a < j { a } else { a - 1 };
                let pb = if b < j { b } else { b - 1 };
                if a != j {
                    assert(v@[a] == before.take(i as int)[pa]);
                }
                if b != j {
                    assert(v@[b] == before.take(i as int)[pb]);
                }
                if j > 0 {
                    assert(before.take(i as int)[j - 1].d.on_or_before(x.d));
                }
            }
        }
        i += 1;
    }
    assert(v@.take(n as int) =~= v@);
}

/// The place of the last observation dated on `start` or before it, in
/// observations that are in the order of their dates.
pub fn last_in_reach(v: &Vec<Observation>, start: &CivilDate) -> (at: Option<usize>)
    requires
        ascending(v@),
    ensures
        at.is_some() <==> in_reach(v@, *start),
        at matches Some(k) ==> {
            &&& k < v@.len()
            &&& forall|i: int| 0 <= i <= k ==> (#[trigger] v@[i]).d.on_or_before(*start)
            &&& forall|i: int| k < i < v@.len() ==> start.before((#[trigger] v@[i]).d)
        },
{
    let mut lo: usize = 0;
    let mut hi: usize = v.len();
    while lo < hi
        invariant
            lo <= hi <= v@.len(),
            ascending(v@),
            forall|i: int| 0 <= i < lo ==> (#[trigger] v@[i]).d.on_or_before(*start),
            forall|i: int| hi <= i < v@.len() ==> start.before((#[trigger] v@[i]).d),
        decreases hi - lo,
    {
        let mid: usize = lo + (hi - lo) / 2;
        if v[mid].d.is_on_or_before(start) {
            lo = mid + 1;
        } else {
            hi = mid;
        }
    }
    if lo == 0 {
        None
    } else {
        assert(v@[lo - 1].d.on_or_before(*start));
        Some(lo - 1)
    }
}

/// Sequences that hold the same observations, each as often as the other,
/// have the same members.
pub proof fn lemma_same_members(a: Seq<Observation>, b: Seq<Observation>)
    requires
        a.to_multiset() == b.to_multiset(),
    ensures
        forall|o: Observation| a.contains(o) <==> b.contains(o),
{
    assert forall|o: Observation| a.contains(o) <==> b.contains(o) by {
        vstd::seq_lib::to_multiset_contains(a, o);
        vstd::seq_lib::to_multiset_contains(b, o);
    }
}

/// In observations `v` put in order, from those of `s`, the last one within
/// reach of `start` is an anchor of `s`, and what follows it is what `s` has
/// after `start`.
proof fn lemma_split_at_anchor(s: Seq<Observation>, v: Seq<Observation>, start: CivilDate, k: int)
    requires
        s.to_multiset() == v.to_multiset(),
        ascending(v),
        0 <= k < v.len(),
        forall|i: int| 0 <= i <= k ==> (#[trigger] v[i]).d.on_or_before(start),
        forall|i: int| k < i < v.len() ==> start.before((#[trigger] v[i]).d),
    ensures
        is_anchor(s, start, v[k]),
        v.subrange(k + 1, v.len() as int).to_multiset() == s.to_multiset().filter(
            dated_after(start),
        ),
{
    broadcast use vstd::multiset::group_multiset_axioms;

    lemma_same_members(s, v);
    assert(v.contains(v[k]));
    assert forall|i: int| 0 <= i < s.len() && (#[trigger] s[i]).d.on_or_before(start) implies s[i].d.on_or_before(
        v[k].d,
    ) by {
        assert(s.contains(s[i]));
        let j = choose|j: int| 0 <= j < v.len() && v[j] == s[i];
        if j < k {
            assert(v[j].d.on_or_before(v[k].d));
        }
    }
    let head = v.subrange(0, k + 1);
    let tail = v.subrange(k + 1, v.len() as int);
    assert(head + tail =~= v);
    vstd::seq_lib::lemma_multiset_commutative(head, tail);
    assert forall|o: Observation|
        tail.to_multiset().count(o) == s.to_multiset().filter(dated_after(start)).count(o) by {
        vstd::seq_lib::to_multiset_contains(head, o);
        vstd::seq_lib::to_multiset_contains(tail, o);
        if start.before(o.d) {
            if head.contains(o) {
                let j = choose|j: int| 0 <= j < head.len() && head[j] == o;
                assert(v[j].d.on_or_before(start));
            }
        } else {
            if tail.contains(o) {
                let j = choose|j: int| 0 <= j < tail.len() && tail[j] == o;
                assert(start.before(v[k + 1 + j].d));
            }
        }
    }
    assert(tail.to_multiset() =~= s.to_multiset().filter(dated_after(start)));
}

/// The observations that answer a query: for a single date the one dated on
/// `start_date` or, failing that, the latest before it; for a range that one
/// and every later one, in the order of their dates.
///
/// The observations may come in any order. There is no answer when there are
/// no observations, or when all of them are dated after `start_date`.
pub fn filter_rates(start_date: CivilDate, is_range: bool, observations: Vec<Observation>) -> (r:
    Result<Vec<Observation>, SelectError>)
    ensures
        r.is_ok() <==> in_reach(observations@, start_date),
        match r {
            Ok(out) => answers(observations@, start_date, is_range, out@),
            Err(SelectError::NoObservations) => observations@.len() == 0,
            Err(SelectError::NothingInReach) => observations@.len() > 0,
        },
{
    let mut sorted = observations;
    if sorted.len() == 0 {
        return Err(SelectError::NoObservations);
    }
    sort_by_date(&mut sorted);
    proof {
        lemma_same_members(observations@, sorted@);
        assert(in_reach(observations@, start_date) <==> in_reach(sorted@, start_date)) by {
            if in_reach(observations@, start_date) {
                let i = choose|i: int|
                    0 <= i < observations@.len() && (#[trigger] observations@[i]).d.on_or_before(
                        start_date,
                    );
                assert(observations@.contains(observations@[i]));
                let j = choose|j: int| 0 <= j < sorted@.len() && sorted@[j] == observations@[i];
                assert(sorted@[j].d.on_or_before(start_date));
            }
            if in_reach(sorted@, start_date) {
                let i = choose|i: int|
                    0 <= i < sorted@.len() && (#[trigger] sorted@[i]).d.on_or_before(start_date);
                assert(sorted@.contains(sorted@[i]));
                let j = choose|j: int|
                    0 <= j < observations@.len() && observations@[j] == sorted@[i];
                assert(observations@[j].d.on_or_before(start_date));
            }
        }
    }
    match last_in_reach(&sorted, &start_date) {
        None => Err(SelectError::NothingInReach),
        Some(k) => {
            proof {
                lemma_split_at_anchor(observations@, sorted@, start_date, k as int);
            }
            let ghost whole = sorted@;
            let mut out: Vec<Observation> = sorted.split_off(k);
            assert(out@.skip(1) =~= whole.subrange(k + 1, whole.len() as int));
            if !is_range {
                out.truncate(1);
            }
            Ok(out)
        },
    }
}

} // verus!

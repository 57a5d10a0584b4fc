//! Named measurements of workers, added up by name.

use vstd::prelude::*;

use crate::ordered_map::OrderedMap;
use crate::protocol::{PhaseTiming, WorkerMetric};

verus! {

/// One measurement: the milliseconds of a phase, or the value of a metric.
#[derive(Debug, PartialEq, Eq)]
pub struct WorkerMeasure {
    pub name: String,
    pub value: u64,
}

impl Clone for WorkerMeasure {
    fn clone(&self) -> (result: Self)
        ensures
            result == *self,
    {
        WorkerMeasure { name: self.name.clone(), value: self.value }
    }
}

/// The timings of a worker as measurements.
pub open spec fn of_timings(timings: Seq<PhaseTiming>) -> Seq<WorkerMeasure> {
    timings.map_values(
        |timing: PhaseTiming| WorkerMeasure { name: timing.phase, value: timing.elapsed_millis },
    )
}

/// The metrics of a worker as measurements.
pub open spec fn of_metrics(metrics: Seq<WorkerMetric>) -> Seq<WorkerMeasure> {
    metrics.map_values(
        |metric: WorkerMetric| WorkerMeasure { name: metric.name, value: metric.value },
    )
}

/// Takes the timings of a worker as measurements.
pub fn timing_measures(timings: &[PhaseTiming]) -> (result: Vec<WorkerMeasure>)
    ensures
        result@ == of_timings(timings@),
{
    let mut result: Vec<WorkerMeasure> = Vec::new();
    let mut i: usize = 0;
    while i < timings.len()
        invariant
            i <= timings@.len(),
            result@ == of_timings(timings@).take(i as int),
        decreases timings@.len() - i,
    {
        let timing = &timings[i];
        result.push(WorkerMeasure { name: timing.phase.clone(), value: timing.elapsed_millis });
        i = i + 1;
        assert(result@ =~= of_timings(timings@).take(i as int));
    }
    assert(of_timings(timings@).take(i as int) =~= of_timings(timings@));
    result
}

/// Takes the metrics of a worker as measurements.
pub fn metric_measures(metrics: &[WorkerMetric]) -> (result: Vec<WorkerMeasure>)
    ensures
        result@ == of_metrics(metrics@),
{
    let mut result: Vec<WorkerMeasure> = Vec::new();
    let mut i: usize = 0;
    while i < metrics.len()
        invariant
            i <= metrics@.len(),
            result@ == of_metrics(metrics@).take(i as int),
        decreases metrics@.len() - i,
    {
        let metric = &metrics[i];
        result.push(WorkerMeasure { name: metric.name.clone(), value: metric.value });
        i = i + 1;
        assert(result@ =~= of_metrics(metrics@).take(i as int));
    }
    assert(of_metrics(metrics@).take(i as int) =~= of_metrics(metrics@));
    result
}

/// The sum of the measurements of a name.
pub open spec fn total(measures: Seq<WorkerMeasure>, name: Seq<char>) -> nat
    decreases measures.len(),
{
    if measures.len() == 0 {
        0
    } else {
        total(measures.drop_last(), name) + (if measures.last().name@ == name {
            measures.last().value as nat
        } else {
            0nat
        })
    }
}

/// The names that are measured.
pub open spec fn measured(measures: Seq<WorkerMeasure>) -> Set<Seq<char>>
    decreases measures.len(),
{
    if measures.len() == 0 {
        Set::empty()
    } else {
        measured(measures.drop_last()).insert(measures.last().name@)
    }
}

/// The value of a name, zero where it has none.
pub open spec fn value_of(map: Map<Seq<char>, u64>, name: Seq<char>) -> nat {
    if map.dom().contains(name) {
        map[name] as nat
    } else {
        0
    }
}

/// Whether a map is another with measurements added to it.
pub open spec fn is_sum(
    after: Map<Seq<char>, u64>,
    before: Map<Seq<char>, u64>,
    measures: Seq<WorkerMeasure>,
) -> bool {
    &&& after.dom() == before.dom().union(measured(measures))
    &&& forall|name: Seq<char>| #[trigger]
        after.dom().contains(name) ==> after[name] == value_of(before, name) + total(measures, name)
}

/// Whether every sum fits in 64 bits.
pub open spec fn sums_fit(before: Map<Seq<char>, u64>, measures: Seq<WorkerMeasure>) -> bool {
    forall|name: Seq<char>| #[trigger] value_of(before, name) + total(measures, name) <= u64::MAX
}

proof fn lemma_total_grows(measures: Seq<WorkerMeasure>, n: int, name: Seq<char>)
    requires
        0 <= n <= measures.len(),
    ensures
        total(measures.take(n), name) <= total(measures, name),
    decreases measures.len(),
{
    if n < measures.len() {
        assert(measures.drop_last().take(n) =~= measures.take(n));
        lemma_total_grows(measures.drop_last(), n, name);
    } else {
        assert(measures.take(n) =~= measures);
    }
}

/// Adds measurements up by name.
pub fn add_measures(map: &mut OrderedMap<u64>, measures: &[WorkerMeasure])
    requires
        old(map).wf(),
        sums_fit(old(map)@, measures@),
    ensures
        final(map).wf(),
        is_sum(final(map)@, old(map)@, measures@),
{
    let ghost before = map@;
    let mut i: usize = 0;
    assert(measured(measures@.take(0)) =~= Set::empty());
    assert(before.dom().union(Set::empty()) =~= before.dom());
    while i < measures.len()
        invariant
            map.wf(),
            sums_fit(before, measures@),
            i <= measures@.len(),
            is_sum(map@, before, measures@.take(i as int)),
        decreases measures@.len() - i,
    {
        let measure = &measures[i];
        let ghost now = map@;
        let ghost name = measure.name@;
        proof {
            assert(measures@.take(i + 1).drop_last() =~= measures@.take(i as int));
            lemma_total_grows(measures@, i + 1, name);
            assert(value_of(before, name) + total(measures@, name) <= u64::MAX);
            if !now.dom().contains(name) {
                lemma_unmeasured(measures@.take(i as int), name);
            }
        }
        let value: u64 = match map.get(measure.name.as_str()) {
            Some(value) => *value + measure.value,
            None => measure.value,
        };
        map.insert(measure.name.clone(), value);
        i = i + 1;
        proof {
            assert(map@.dom() =~= before.dom().union(measured(measures@.take(i as int))));
            assert forall|other: Seq<char>| #[trigger] map@.dom().contains(other) implies map@[other]
                == value_of(before, other) + total(measures@.take(i as int), other) by {
                if other != name {
                    assert(now.dom().contains(other));
                }
            }
        }
    }
    assert(measures@.take(i as int) =~= measures@);
}

proof fn lemma_unmeasured(measures: Seq<WorkerMeasure>, name: Seq<char>)
    requires
        !measured(measures).contains(name),
    ensures
        total(measures, name) == 0,
    decreases measures.len(),
{
    if measures.len() > 0 {
        lemma_unmeasured(measures.drop_last(), name);
    }
}

proof fn lemma_total_bound(measures: Seq<WorkerMeasure>, name: Seq<char>)
    ensures
        total(measures, name) <= measures.len() * u64::MAX,
    decreases measures.len(),
{
    if measures.len() > 0 {
        lemma_total_bound(measures.drop_last(), name);
    }
}

/// Whether every sum fits in 64 bits.
pub fn do_sums_fit(map: &OrderedMap<u64>, measures: &[WorkerMeasure]) -> (result: bool)
    requires
        map.wf(),
        measures@.len() < u64::MAX,
    ensures
        result == sums_fit(map@, measures@),
{
    let mut i: usize = 0;
    while i < measures.len()
        invariant
            map.wf(),
            measures@.len() < u64::MAX,
            i <= measures@.len(),
            forall|name: Seq<char>|
                measured(measures@.take(i as int)).contains(name) ==> #[trigger] value_of(map@, name)
                    + total(measures@, name) <= u64::MAX,
        decreases measures@.len() - i,
    {
        let name = measures[i].name.as_str();
        let mut sum: u128 = match map.get(name) {
            Some(value) => *value as u128,
            None => 0,
        };
        let ghost start = value_of(map@, name@);
        let mut j: usize = 0;
        while j < measures.len()
            invariant
                measures@.len() < u64::MAX,
                j <= measures@.len(),
                start <= u64::MAX,
                sum == start + total(measures@.take(j as int), name@),
            decreases measures@.len() - j,
        {
            proof {
                assert(measures@.take(j + 1).drop_last() =~= measures@.take(j as int));
                lemma_total_bound(measures@.take(j + 1), name@);
                let n = j as int;
                assert((n + 1) * u64::MAX <= (u64::MAX - 1) * u64::MAX) by (nonlinear_arith)
                    requires
                        n + 1 <= u64::MAX - 1,
                ;
                assert(u64::MAX + (u64::MAX - 1) * u64::MAX <= u128::MAX) by (nonlinear_arith);
            }
            if crate::text::same_text(measures[j].name.as_str(), name) {
                sum = sum + measures[j].value as u128;
            }
            j = j + 1;
        }
        assert(measures@.take(j as int) =~= measures@);
        if sum > u64::MAX as u128 {
            assert(value_of(map@, name@) + total(measures@, name@) > u64::MAX);
            return false;
        }
        i = i + 1;
        proof {
            assert(measures@.take(i as int).drop_last() =~= measures@.take(i - 1));
        }
    }
    proof {
        assert(measures@.take(i as int) =~= measures@);
        assert forall|name: Seq<char>| #[trigger]
            value_of(map@, name) + total(measures@, name) <= u64::MAX by {
            if !measured(measures@).contains(name) {
                lemma_unmeasured(measures@, name);
            }
        }
    }
    true
}

/// Whether a map is another with a third added to it.
pub open spec fn is_map_sum(
    after: Map<Seq<char>, u64>,
    before: Map<Seq<char>, u64>,
    added: Map<Seq<char>, u64>,
) -> bool {
    &&& after.dom() == before.dom().union(added.dom())
    &&& forall|name: Seq<char>| #[trigger]
        after.dom().contains(name) ==> after[name] == value_of(before, name) + value_of(added, name)
}

/// Whether every sum of two maps fits in 64 bits.
pub open spec fn map_sums_fit(before: Map<Seq<char>, u64>, added: Map<Seq<char>, u64>) -> bool {
    forall|name: Seq<char>| #[trigger] value_of(before, name) + value_of(added, name) <= u64::MAX
}

/// Adds one map of sums to another.
pub fn add_map(map: &mut OrderedMap<u64>, added: &OrderedMap<u64>)
    requires
        old(map).wf(),
        added.wf(),
        map_sums_fit(old(map)@, added@),
    ensures
        final(map).wf(),
        is_map_sum(final(map)@, old(map)@, added@),
{
    let ghost before = map@;
    let ghost order = added.order();
    proof {
        added.lemma_order();
        assert(before.dom().union(order.take(0).to_set()) =~= before.dom());
    }
    let mut i: usize = 0;
    while i < added.len()
        invariant
            map.wf(),
            added.wf(),
            map_sums_fit(before, added@),
            order == added.order(),
            order.to_set() == added@.dom(),
            crate::ordering::ascending(order),
            i <= order.len(),
            map@.dom() == before.dom().union(order.take(i as int).to_set()),
            forall|name: Seq<char>| #[trigger]
                map@.dom().contains(name) ==> map@[name] == value_of(before, name) + (if order.take(
                    i as int,
                ).contains(name) {
                    value_of(added@, name)
                } else {
                    0nat
                }),
        decreases order.len() - i,
    {
        let key = added.key_at(i);
        let ghost now = map@;
        let ghost name = key@;
        proof {
            let taken = order.take(i as int);
            let next = order.take(i + 1);
            assert(next =~= taken.push(name));
            assert(value_of(before, name) + value_of(added@, name) <= u64::MAX);
            if taken.contains(name) {
                let k = taken.index_of(name);
                assert(crate::text::text_lt(order[k], order[i as int]));
                crate::text::lemma_text_lt_irreflexive(name);
            }
            assert forall|t: Seq<char>| #[trigger] next.contains(t) == (taken.contains(t) || t
                == name) by {
                if taken.contains(t) {
                    let k = taken.index_of(t);
                    assert(next[k] == t);
                }
                assert(next[i as int] == name);
                if next.contains(t) && t != name {
                    let k = next.index_of(t);
                    assert(taken[k] == t);
                }
            }
        }
        let amount: u64 = *added.value_at(i);
        let value: u64 = match map.get(key.as_str()) {
            Some(value) => *value + amount,
            None => amount,
        };
        map.insert(key.clone(), value);
        i = i + 1;
        proof {
            assert(map@.dom() =~= before.dom().union(order.take(i as int).to_set()));
        }
    }
    proof {
        assert(order.take(i as int) =~= order);
        assert(map@.dom() =~= before.dom().union(added@.dom()));
        assert forall|other: Seq<char>| #[trigger] map@.dom().contains(other) implies map@[other]
            == value_of(before, other) + value_of(added@, other) by {
            assert(order.contains(other) == order.to_set().contains(other));
        }
    }
}

/// The order in which measurements came does not show in their sums.
pub proof fn law_totals_ignore_order(a: Seq<WorkerMeasure>, b: Seq<WorkerMeasure>, name: Seq<char>)
    ensures
        total(a + b, name) == total(a, name) + total(b, name),
        total(a + b, name) == total(b + a, name),
    decreases a.len() + b.len(),
{
    lemma_total_append(a, b, name);
    lemma_total_append(b, a, name);
}

proof fn lemma_total_append(a: Seq<WorkerMeasure>, b: Seq<WorkerMeasure>, name: Seq<char>)
    ensures
        total(a + b, name) == total(a, name) + total(b, name),
    decreases b.len(),
{
    if b.len() == 0 {
        assert(a + b =~= a);
    } else {
        assert((a + b).drop_last() =~= a + b.drop_last());
        lemma_total_append(a, b.drop_last(), name);
    }
}

/// A measurement adds its value to that of its name and leaves every other name
/// as it is.
pub proof fn law_measurement_adds_to_its_name(
    map: &mut OrderedMap<u64>,
    measures: &[WorkerMeasure],
    other: Seq<char>,
)
    requires
        old(map).wf(),
        measures@.len() == 1,
        call_ensures(add_measures, (map, measures), ()),
    ensures
        ({
            let name = measures@[0].name@;
            let value = measures@[0].value;
            &&& final(map)@.dom().contains(name)
            &&& old(map)@.dom().contains(name) ==> final(map)@[name] == old(map)@[name] + value
            &&& !old(map)@.dom().contains(name) ==> final(map)@[name] == value
            &&& other != name ==> (final(map)@.dom().contains(other) <==> old(
                map)@.dom().contains(other))
            &&& other != name && old(map)@.dom().contains(other) ==> final(map)@[other] == old(
                map)@[other]
        }),
{
    let name = measures@[0].name@;
    reveal_with_fuel(total, 2);
    reveal_with_fuel(measured, 2);
    assert(measures@.last() == measures@[0]);
    assert(final(map)@.dom().contains(name));
}

/// Adding a map of sums adds name by name.
pub proof fn law_maps_add_up_by_name(
    map: &mut OrderedMap<u64>,
    added: &OrderedMap<u64>,
    name: Seq<char>,
)
    requires
        old(map).wf(),
        added.wf(),
        call_ensures(add_map, (map, added), ()),
    ensures
        final(map)@.dom().contains(name) <==> old(map)@.dom().contains(name)
            || added@.dom().contains(name),
        old(map)@.dom().contains(name) && added@.dom().contains(name) ==> final(map)@[name]
            == old(map)@[name] + added@[name],
        old(map)@.dom().contains(name) && !added@.dom().contains(name) ==> final(map)@[name]
            == old(map)@[name],
        !old(map)@.dom().contains(name) && added@.dom().contains(name) ==> final(map)@[name]
            == added@[name],
{
}

} // verus!

//! The flat list of rows that the dashboard scrolls through, and the order
//! in which they are shown.

use crate::decimal::{lemma_below_asymmetric, lemma_below_chain, Decimal};
use crate::sensors::{Adapter, AdapterModel, InputModel};
use crate::views::{lemma_views_push, views};
use vstd::prelude::*;
use vstd::seq_lib::seq_to_set_is_finite;
use vstd::set_lib::{lemma_int_range, lemma_subset_equality, set_int_range};

verus! {

/// One temperature input as the dashboard lists it.
#[derive(Debug)]
pub struct FlatRow {
    pub adapter: String,
    pub input: String,
    pub temperature: Decimal,
}

/// A [`FlatRow`] with its names as sequences of characters.
pub struct RowModel {
    pub adapter: Seq<char>,
    pub input: Seq<char>,
    pub temperature: Decimal,
}

impl View for FlatRow {
    type V = RowModel;

    open spec fn view(&self) -> RowModel {
        RowModel { adapter: self.adapter@, input: self.input@, temperature: self.temperature }
    }
}

impl FlatRow {
    /// A row with the same names and temperature.
    pub fn duplicate(&self) -> (result: FlatRow)
        ensures
            result@ == self@,
    {
        FlatRow {
            adapter: self.adapter.clone(),
            input: self.input.clone(),
            temperature: self.temperature,
        }
    }
}

/// The temperatures of the rows, in the order of the rows.
pub open spec fn temperatures(rows: Seq<RowModel>) -> Seq<Decimal> {
    rows.map_values(|row: RowModel| row.temperature)
}

/// Whether the reading at index `i` is shown before the one at index `j`
/// when the rows are sorted: the higher temperature first, and of two equal
/// temperatures the one that came first.
pub open spec fn precedes(temps: Seq<Decimal>, i: int, j: int) -> bool {
    temps[j].below(temps[i]) || (!temps[i].below(temps[j]) && i < j)
}

/// Whether `order` lists indices below `n`, none of them twice, and as many
/// as `n`: each index below `n` then occurs exactly once.
pub open spec fn is_arrangement(order: Seq<usize>, n: nat) -> bool {
    &&& order.len() == n
    &&& forall|p: int| 0 <= p < order.len() ==> #[trigger] order[p] < n
    &&& forall|p: int, q: int|
        0 <= p < q < order.len() ==> #[trigger] order[p] != #[trigger] order[q]
}

/// Whether each index in `order` precedes all that follow it.
pub open spec fn is_descending(temps: Seq<Decimal>, order: Seq<usize>) -> bool {
    forall|p: int, q: int|
        0 <= p < q < order.len() ==> precedes(
            temps,
            #[trigger] order[p] as int,
            #[trigger] order[q] as int,
        )
}

/// Whether `order` is the order in which the sorted dashboard shows the
/// readings `temps`: all of them, by descending temperature, equal
/// temperatures in their first order.
pub open spec fn is_display_order(temps: Seq<Decimal>, order: Seq<usize>) -> bool {
    is_arrangement(order, temps.len()) && is_descending(temps, order)
}

/// Computes the order in which the sorted dashboard shows the readings: a
/// stable sort by descending temperature.
pub fn display_order(temps: &Vec<Decimal>) -> (order: Vec<usize>)
    ensures
        is_display_order(temps@, order@),
{
    let n = temps.len();
    let mut order: Vec<usize> = Vec::new();
    let mut i: usize = 0;
    while i < n
        invariant
            i <= n,
            n == temps.len(),
            is_arrangement(order@, i as nat),
            is_descending(temps@, order@),
        decreases n - i,
    {
        let mut p: usize = 0;
        while p < order.len() && !temps[order[p]].is_below(&temps[i])
            invariant
                p <= order.len(),
                i < n,
                n == temps.len(),
                is_arrangement(order@, i as nat),
                forall|q: int|
                    0 <= q < p ==> !temps@[#[trigger] order@[q] as int].below(temps@[i as int]),
            decreases order.len() - p,
        {
            p += 1;
        }
        let ghost before = order@;
        order.insert(p, i);
        proof {
            let after = order@;
            assert forall|a: int, b: int| 0 <= a < b < after.len() implies precedes(
                temps@,
                #[trigger] after[a] as int,
                #[trigger] after[b] as int,
            ) by {
                if b < p {
                    assert(after[a] == before[a] && after[b] == before[b]);
                } else if b == p {
                    assert(after[a] == before[a]);
                } else if a < p {
                    assert(after[a] == before[a] && after[b] == before[b - 1]);
                } else if a == p {
                    let x = temps@[before[b - 1] as int];
                    let y = temps@[before[p as int] as int];
                    let z = temps@[i as int];
                    if b - 1 > p {
                        assert(precedes(temps@, before[p as int] as int, before[b - 1] as int));
                        lemma_below_asymmetric(x, y);
                        lemma_below_chain(x, y, z);
                    }
                } else {
                    assert(after[a] == before[a - 1] && after[b] == before[b - 1]);
                }
            }
            assert forall|a: int, b: int| 0 <= a < b < after.len() implies #[trigger] after[a]
                != #[trigger] after[b] by {
                if a < p && b > p {
                    assert(after[a] == before[a] && after[b] == before[b - 1]);
                } else if a > p {
                    assert(after[a] == before[a - 1] && after[b] == before[b - 1]);
                } else if b < p {
                    assert(after[a] == before[a] && after[b] == before[b]);
                } else if a == p {
                    assert(after[b] == before[b - 1]);
                } else {
                    assert(after[a] == before[a]);
                }
            }
            assert forall|a: int| 0 <= a < after.len() implies #[trigger] after[a] < i + 1 by {
                if a < p {
                    assert(after[a] == before[a]);
                } else if a > p {
                    assert(after[a] == before[a - 1]);
                }
            }
        }
        i += 1;
    }
    order
}

/// Of two different indices exactly one precedes the other.
pub proof fn lemma_precedes_total(temps: Seq<Decimal>, i: int, j: int)
    requires
        i != j,
    ensures
        precedes(temps, i, j) != precedes(temps, j, i),
{
    lemma_below_asymmetric(temps[i], temps[j]);
}

/// Every index below `n` occurs in an arrangement of `n` indices.
proof fn lemma_arrangement_covers(order: Seq<usize>, n: nat, i: int)
    requires
        is_arrangement(order, n),
        0 <= i < n,
    ensures
        exists|p: int| 0 <= p < order.len() && order[p] == i,
{
    let ints = order.map_values(|x: usize| x as int);
    assert(ints.no_duplicates()) by {
        assert forall|p: int, q: int|
            0 <= p < ints.len() && 0 <= q < ints.len() && p != q implies ints[p] != ints[q] by {
            if p < q {
                assert(order[p] != order[q]);
            } else {
                assert(order[q] != order[p]);
            }
        }
    }
    ints.unique_seq_to_set();
    seq_to_set_is_finite(ints);
    lemma_int_range(0, n as int);
    assert(ints.to_set().subset_of(set_int_range(0, n as int))) by {
        assert forall|x: int| ints.to_set().contains(x) implies set_int_range(0, n as int).contains(
            x,
        ) by {
            let p = choose|p: int| 0 <= p < ints.len() && ints[p] == x;
            assert(order[p] < n);
        }
    }
    lemma_subset_equality(ints.to_set(), set_int_range(0, n as int));
    assert(set_int_range(0, n as int).contains(i));
    assert(ints.to_set().contains(i));
    let p = choose|p: int| 0 <= p < ints.len() && ints[p] == i;
    assert(order[p] == i);
}

/// Two display orders of the same readings agree on their first `k` places.
proof fn lemma_orders_agree(temps: Seq<Decimal>, a: Seq<usize>, b: Seq<usize>, k: int)
    requires
        is_display_order(temps, a),
        is_display_order(temps, b),
        0 <= k <= temps.len(),
    ensures
        forall|p: int| 0 <= p < k ==> a[p] == b[p],
    decreases k,
{
    if k > 0 {
        lemma_orders_agree(temps, a, b, k - 1);
        let x = a[k - 1];
        let y = b[k - 1];
        if x != y {
            lemma_precedes_total(temps, x as int, y as int);
            if precedes(temps, x as int, y as int) {
                lemma_misplaced(temps, b, a, k - 1);
            } else {
                lemma_misplaced(temps, a, b, k - 1);
            }
        }
    }
}

/// Where two display orders agree before the place `at`, the index that
/// `other` holds there cannot precede the one that `order` holds there,
/// unless they are the same.
proof fn lemma_misplaced(temps: Seq<Decimal>, order: Seq<usize>, other: Seq<usize>, at: int)
    requires
        is_display_order(temps, order),
        is_display_order(temps, other),
        0 <= at < temps.len(),
        forall|p: int| 0 <= p < at ==> order[p] == other[p],
        order[at] != other[at],
    ensures
        !precedes(temps, other[at] as int, order[at] as int),
{
    let x = other[at];
    let y = order[at];
    if precedes(temps, x as int, y as int) {
        lemma_arrangement_covers(order, temps.len(), x as int);
        let q = choose|q: int| 0 <= q < order.len() && order[q] == x;
        if q < at {
            assert(other[q] == x);
            assert(other[q] != other[at]);
        } else {
            assert(precedes(temps, order[at] as int, order[q] as int));
            lemma_precedes_total(temps, x as int, y as int);
        }
    }
}

/// The readings have one display order only.
pub proof fn lemma_display_order_unique(temps: Seq<Decimal>, a: Seq<usize>, b: Seq<usize>)
    requires
        is_display_order(temps, a),
        is_display_order(temps, b),
    ensures
        a == b,
{
    lemma_orders_agree(temps, a, b, temps.len() as int);
    assert(a =~= b);
}

/// Sorting is stable: of two readings with the same temperature, the one
/// that came first in the list is shown first.
pub proof fn lemma_display_order_stable(temps: Seq<Decimal>, order: Seq<usize>, p: int, q: int)
    requires
        is_display_order(temps, order),
        0 <= p < order.len(),
        0 <= q < order.len(),
        order[p] < order[q],
        temps[order[p] as int].same_value(temps[order[q] as int]),
    ensures
        p < q,
{
    if q < p {
        assert(precedes(temps, order[q] as int, order[p] as int));
        lemma_below_asymmetric(temps[order[p] as int], temps[order[q] as int]);
    }
}

/// The readings in the given order.
pub open spec fn arranged<T>(items: Seq<T>, order: Seq<usize>) -> Seq<T> {
    Seq::new(order.len(), |p: int| items[order[p] as int])
}

/// The indices `0` to `n - 1` in rising order.
pub open spec fn first_order(n: nat) -> Seq<usize> {
    Seq::new(n, |p: int| p as usize)
}

/// Sorting what is sorted changes nothing: readings that stand in their
/// display order are shown as they stand.
pub proof fn lemma_sorted_stays(temps: Seq<Decimal>, order: Seq<usize>)
    requires
        is_display_order(temps, order),
        temps.len() <= usize::MAX,
    ensures
        is_display_order(arranged(temps, order), first_order(temps.len())),
{
    let sorted = arranged(temps, order);
    let same = first_order(temps.len());
    assert forall|p: int, q: int| 0 <= p < q < same.len() implies precedes(
        sorted,
        #[trigger] same[p] as int,
        #[trigger] same[q] as int,
    ) by {
        assert(precedes(temps, order[p] as int, order[q] as int));
    }
}

/// The order in which the sorted dashboard shows the readings.
pub open spec fn display_order_of(temps: Seq<Decimal>) -> Seq<usize> {
    choose|order: Seq<usize>| is_display_order(temps, order)
}

/// The rows as the dashboard lists them: by descending temperature where
/// sorting is on, else as they stand.
pub open spec fn listed_rows(rows: Seq<RowModel>, sort_by_temp: bool) -> Seq<RowModel> {
    if sort_by_temp {
        arranged(rows, display_order_of(temperatures(rows)))
    } else {
        rows
    }
}

/// Lists the rows the dashboard scrolls through and copies out those from
/// index `first` up to index `last`.
pub fn listed_range(rows: &Vec<FlatRow>, sort_by_temp: bool, first: usize, last: usize) -> (result:
    Vec<FlatRow>)
    requires
        first <= last <= rows.len(),
    ensures
        views(result@) == listed_rows(views(rows@), sort_by_temp).subrange(
            first as int,
            last as int,
        ),
{
    let mut result: Vec<FlatRow> = Vec::new();
    if sort_by_temp {
        let mut temps: Vec<Decimal> = Vec::new();
        let mut k: usize = 0;
        while k < rows.len()
            invariant
                k <= rows.len(),
                temps@ == temperatures(views(rows@)).take(k as int),
            decreases rows.len() - k,
        {
            temps.push(rows[k].temperature);
            proof {
                assert(temps@ =~= temperatures(views(rows@)).take(k + 1));
            }
            k += 1;
        }
        proof {
            assert(temps@ =~= temperatures(views(rows@)));
        }
        let order = display_order(&temps);
        proof {
            lemma_display_order_unique(temps@, order@, display_order_of(temps@));
        }
        let mut i: usize = first;
        while i < last
            invariant
                first <= i <= last <= rows.len(),
                is_display_order(temperatures(views(rows@)), order@),
                views(result@) == arranged(views(rows@), order@).subrange(first as int, i as int),
            decreases last - i,
        {
            let row = rows[order[i]].duplicate();
            proof {
                lemma_views_push(result@, row);
                assert(arranged(views(rows@), order@).subrange(first as int, i + 1)
                    =~= arranged(views(rows@), order@).subrange(first as int, i as int).push(
                    row@,
                ));
            }
            result.push(row);
            i += 1;
        }
    } else {
        let mut i: usize = first;
        while i < last
            invariant
                first <= i <= last <= rows.len(),
                views(result@) == views(rows@).subrange(first as int, i as int),
            decreases last - i,
        {
            let row = rows[i].duplicate();
            proof {
                lemma_views_push(result@, row);
                assert(views(rows@).subrange(first as int, i + 1) =~= views(rows@).subrange(
                    first as int,
                    i as int,
                ).push(row@));
            }
            result.push(row);
            i += 1;
        }
    }
    result
}

/// The rows of one adapter: one for each input, in order.
pub open spec fn adapter_rows(adapter: AdapterModel) -> Seq<RowModel> {
    adapter.inputs.map_values(
        |input: InputModel|
            RowModel { adapter: adapter.name, input: input.name, temperature: input.temp },
    )
}

/// The rows of all adapters, adapter by adapter.
pub open spec fn flat_rows(adapters: Seq<AdapterModel>) -> Seq<RowModel>
    decreases adapters.len(),
{
    if adapters.len() == 0 {
        Seq::empty()
    } else {
        flat_rows(adapters.drop_last()) + adapter_rows(adapters.last())
    }
}

/// Lists the inputs of all adapters as rows.
pub fn flatten(adapters: &Vec<Adapter>) -> (rows: Vec<FlatRow>)
    ensures
        views(rows@) == flat_rows(views(adapters@)),
{
    let mut rows: Vec<FlatRow> = Vec::new();
    let mut a: usize = 0;
    proof {
        assert(views(rows@) =~= Seq::empty());
        assert(views(adapters@).take(0) =~= Seq::empty());
    }
    while a < adapters.len()
        invariant
            a <= adapters.len(),
            views(rows@) == flat_rows(views(adapters@).take(a as int)),
        decreases adapters.len() - a,
    {
        let adapter = &adapters[a];
        let ghost before = views(rows@);
        let mut i: usize = 0;
        proof {
            assert(adapter_rows(adapter@).take(0) =~= Seq::empty());
            assert(before + Seq::<RowModel>::empty() =~= before);
        }
        while i < adapter.inputs.len()
            invariant
                i <= adapter.inputs.len(),
                views(rows@) == before + adapter_rows(adapter@).take(i as int),
            decreases adapter.inputs.len() - i,
        {
            let input = &adapter.inputs[i];
            let row = FlatRow {
                adapter: adapter.name.clone(),
                input: input.name.clone(),
                temperature: input.temp,
            };
            proof {
                lemma_views_push(rows@, row);
                assert(input@ == adapter@.inputs[i as int]);
                assert(adapter_rows(adapter@).take(i + 1) =~= adapter_rows(adapter@).take(
                    i as int,
                ).push(row@));
                assert((before + adapter_rows(adapter@).take(i as int)).push(row@) =~= before
                    + adapter_rows(adapter@).take(i + 1));
            }
            rows.push(row);
            i += 1;
        }
        proof {
            let seen = views(adapters@).take(a + 1);
            assert(seen.drop_last() =~= views(adapters@).take(a as int));
            assert(seen.last() == adapter@);
            assert(adapter_rows(adapter@).take(adapter.inputs.len() as int) =~= adapter_rows(
                adapter@,
            ));
        }
        a += 1;
    }
    proof {
        assert(views(adapters@).take(adapters.len() as int) =~= views(adapters@));
    }
    rows
}

} // verus!

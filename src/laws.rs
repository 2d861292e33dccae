//! Laws of runs of calls: heap order and the length hold over any mix of
//! insertions and extractions; successive extractions come out in
//! non-increasing priority, a full drain yields exactly what the heap held,
//! and an emptied heap stays empty.
use vstd::multiset::{group_multiset_properties, Multiset};
use vstd::prelude::*;
use vstd::seq_lib::group_to_multiset_ensures;

use crate::heap::Heap;
use crate::order::Comparator;

verus! {

broadcast use group_to_multiset_ensures, group_multiset_properties;

/// `rs[i]` is what the `i`-th of successive calls of `next` returned, and
/// `hs[i + 1]` the heap it left; `hs[0]` is the heap before the first call.
pub open spec fn extraction_run<T, C: Comparator<T>>(
    hs: Seq<Heap<T, C>>,
    rs: Seq<Option<T>>,
) -> bool {
    &&& hs.len() == rs.len() + 1
    &&& forall|i: int|
        #![trigger rs[i]]
        0 <= i < rs.len() ==> Heap::extracts(hs[i], hs[i + 1], rs[i])
}

/// The values present among `rs`, counted with multiplicity.
pub open spec fn yielded<T>(rs: Seq<Option<T>>) -> Multiset<T>
    decreases rs.len(),
{
    if rs.len() == 0 {
        Multiset::empty()
    } else {
        match rs.last() {
            Some(x) => yielded(rs.drop_last()).insert(x),
            None => yielded(rs.drop_last()),
        }
    }
}

proof fn lemma_run_sizes<T, C: Comparator<T>>(hs: Seq<Heap<T, C>>, rs: Seq<Option<T>>, i: int)
    requires
        extraction_run(hs, rs),
        hs[0].wf(),
        0 <= i < hs.len(),
    ensures
        hs[i].wf(),
        hs[i].comparator() == hs[0].comparator(),
        hs[i]@.len() == if i <= hs[0]@.len() {
            hs[0]@.len() - i
        } else {
            0
        },
        hs[0]@.to_multiset() == hs[i]@.to_multiset().add(yielded(rs.take(i))),
    decreases i,
{
    if i == 0 {
        assert(yielded(rs.take(0)) =~= Multiset::empty());
        assert(hs[0]@.to_multiset() =~= hs[0]@.to_multiset().add(Multiset::empty()));
    } else {
        lemma_run_sizes(hs, rs, i - 1);
        let r = rs[i - 1];
        assert(Heap::extracts(hs[i - 1], hs[i], r));
        assert(rs.take(i).drop_last() =~= rs.take(i - 1));
        assert(rs.take(i).last() == r);
        match r {
            Some(x) => {
                assert(hs[i - 1]@.to_multiset().len() == hs[i]@.to_multiset().len() + 1);
                assert(hs[0]@.to_multiset() =~= hs[i]@.to_multiset().add(yielded(rs.take(i))));
            },
            None => {
                assert(hs[0]@.to_multiset() =~= hs[i]@.to_multiset().add(yielded(rs.take(i))));
            },
        }
    }
}

proof fn lemma_run_keeps_earlier<T, C: Comparator<T>>(
    hs: Seq<Heap<T, C>>,
    rs: Seq<Option<T>>,
    i: int,
    j: int,
    y: T,
)
    requires
        extraction_run(hs, rs),
        0 <= i <= j < hs.len(),
        hs[j]@.contains(y),
    ensures
        hs[i]@.contains(y),
    decreases j - i,
{
    if i < j {
        lemma_run_keeps_earlier(hs, rs, i + 1, j, y);
        assert(Heap::extracts(hs[i], hs[i + 1], rs[i]));
        assert(hs[i + 1]@.to_multiset().count(y) > 0);
        assert(hs[i]@.to_multiset().count(y) > 0);
    }
}

/// Successive extractions come out in non-increasing priority: a later
/// value never outranks an earlier one, and once a call yields nothing no
/// later call yields anything. A run of at least as many calls as the heap
/// held elements yields exactly those elements.
pub proof fn lemma_drain_sorted<T, C: Comparator<T>>(hs: Seq<Heap<T, C>>, rs: Seq<Option<T>>)
    requires
        extraction_run(hs, rs),
        hs[0].wf(),
    ensures
        forall|i: int, j: int|
            #![trigger rs[i], rs[j]]
            0 <= i < j < rs.len() && rs[j] is Some ==> rs[i] is Some && !hs[0].comparator().outranks(
                rs[j]->0,
                rs[i]->0,
            ),
        rs.len() >= hs[0]@.len() ==> yielded(rs) == hs[0]@.to_multiset(),
{
    assert forall|i: int, j: int|
        #![trigger rs[i], rs[j]]
        0 <= i < j < rs.len() && rs[j] is Some implies rs[i] is Some
        && !hs[0].comparator().outranks(rs[j]->0, rs[i]->0) by {
        lemma_run_sizes(hs, rs, i);
        lemma_run_sizes(hs, rs, j);
        let y = rs[j]->0;
        assert(Heap::extracts(hs[j], hs[j + 1], rs[j]));
        assert(hs[j]@.to_multiset().count(y) > 0);
        lemma_run_keeps_earlier(hs, rs, i, j, y);
        assert(Heap::extracts(hs[i], hs[i + 1], rs[i]));
    }
    if rs.len() >= hs[0]@.len() {
        let last = rs.len() as int;
        lemma_run_sizes(hs, rs, last);
        assert(rs.take(last) =~= rs);
        assert(hs[last]@.to_multiset() =~= Multiset::empty());
        assert(yielded(rs) =~= hs[0]@.to_multiset());
    }
}

/// Extracting from an empty heap, a freshly built one included, yields
/// nothing and leaves the heap empty.
pub proof fn lemma_empty_yields_nothing<T, C: Comparator<T>>(
    h: Heap<T, C>,
    after: Heap<T, C>,
    r: Option<T>,
)
    requires
        h.wf(),
        h@.len() == 0,
        Heap::extracts(h, after, r),
    ensures
        r is None,
        after@.len() == 0,
{
}

/// Once as many extractions as the heap held elements have been made, every
/// further one yields nothing; each of the first ones yields a value.
pub proof fn lemma_drained_stays_empty<T, C: Comparator<T>>(
    hs: Seq<Heap<T, C>>,
    rs: Seq<Option<T>>,
)
    requires
        extraction_run(hs, rs),
        hs[0].wf(),
    ensures
        forall|i: int| #![trigger rs[i]] 0 <= i < rs.len() ==> (rs[i] is None <==> i >= hs[0]@.len()),
{
    assert forall|i: int| #![trigger rs[i]] 0 <= i < rs.len() implies (rs[i] is None <==> i
        >= hs[0]@.len()) by {
        lemma_run_sizes(hs, rs, i);
        assert(Heap::extracts(hs[i], hs[i + 1], rs[i]));
    }
}

/// One call on a heap, with what it returned: `add` of a value, or `next`.
pub enum Call<T> {
    Add(T),
    Next(Option<T>),
}

/// `calls[i]` is the `i`-th of successive calls on a heap, and `hs[i + 1]`
/// the heap it left; `hs[0]` is the heap before the first call.
pub open spec fn call_run<T, C: Comparator<T>>(hs: Seq<Heap<T, C>>, calls: Seq<Call<T>>) -> bool {
    &&& hs.len() == calls.len() + 1
    &&& forall|i: int|
        #![trigger calls[i]]
        0 <= i < calls.len() ==> match calls[i] {
            Call::Add(v) => Heap::adds(hs[i], hs[i + 1], v),
            Call::Next(r) => Heap::extracts(hs[i], hs[i + 1], r),
        }
}

/// How many of `calls` added a value.
pub open spec fn added_count<T>(calls: Seq<Call<T>>) -> nat
    decreases calls.len(),
{
    if calls.len() == 0 {
        0
    } else {
        added_count(calls.drop_last()) + match calls.last() {
            Call::Add(_) => 1nat,
            Call::Next(_) => 0nat,
        }
    }
}

/// How many of `calls` extracted a value.
pub open spec fn extracted_count<T>(calls: Seq<Call<T>>) -> nat
    decreases calls.len(),
{
    if calls.len() == 0 {
        0
    } else {
        extracted_count(calls.drop_last()) + match calls.last() {
            Call::Next(Some(_)) => 1nat,
            _ => 0nat,
        }
    }
}

/// The values that `calls` added, counted with multiplicity.
pub open spec fn added_values<T>(calls: Seq<Call<T>>) -> Multiset<T>
    decreases calls.len(),
{
    if calls.len() == 0 {
        Multiset::empty()
    } else {
        match calls.last() {
            Call::Add(v) => added_values(calls.drop_last()).insert(v),
            Call::Next(_) => added_values(calls.drop_last()),
        }
    }
}

/// The values that `calls` extracted, counted with multiplicity.
pub open spec fn extracted_values<T>(calls: Seq<Call<T>>) -> Multiset<T>
    decreases calls.len(),
{
    if calls.len() == 0 {
        Multiset::empty()
    } else {
        match calls.last() {
            Call::Next(Some(x)) => extracted_values(calls.drop_last()).insert(x),
            _ => extracted_values(calls.drop_last()),
        }
    }
}

proof fn lemma_call_run_at<T, C: Comparator<T>>(hs: Seq<Heap<T, C>>, calls: Seq<Call<T>>, i: int)
    requires
        call_run(hs, calls),
        hs[0].wf(),
        0 <= i < hs.len(),
    ensures
        hs[i].wf(),
        hs[i].comparator() == hs[0].comparator(),
        hs[i]@.len() + extracted_count(calls.take(i)) == hs[0]@.len() + added_count(calls.take(i)),
        hs[i]@.to_multiset().add(extracted_values(calls.take(i))) == hs[0]@.to_multiset().add(
            added_values(calls.take(i)),
        ),
    decreases i,
{
    if i == 0 {
        assert(calls.take(0).len() == 0);
        assert(hs[0]@.to_multiset().add(extracted_values(calls.take(0))) =~= hs[0]@.to_multiset().add(
            added_values(calls.take(0)),
        ));
    } else {
        lemma_call_run_at(hs, calls, i - 1);
        assert(calls.take(i).drop_last() =~= calls.take(i - 1));
        assert(calls.take(i).last() == calls[i - 1]);
        let before = hs[i - 1]@.to_multiset();
        let after = hs[i]@.to_multiset();
        match calls[i - 1] {
            Call::Add(v) => {
                assert(Heap::adds(hs[i - 1], hs[i], v));
                assert(added_values(calls.take(i)) == added_values(calls.take(i - 1)).insert(v));
                assert(extracted_values(calls.take(i)) == extracted_values(calls.take(i - 1)));
                assert(after == before.insert(v));
                let e = extracted_values(calls.take(i - 1));
                let a = added_values(calls.take(i - 1));
                assert(after.add(e) =~= before.add(e).insert(v));
                assert(hs[0]@.to_multiset().add(a).insert(v) =~= hs[0]@.to_multiset().add(
                    a.insert(v),
                ));
            },
            Call::Next(r) => {
                assert(Heap::extracts(hs[i - 1], hs[i], r));
                assert(added_values(calls.take(i)) == added_values(calls.take(i - 1)));
                match r {
                    Some(x) => {
                        assert(extracted_values(calls.take(i)) == extracted_values(
                            calls.take(i - 1),
                        ).insert(x));
                        assert(before == after.insert(x));
                        let e = extracted_values(calls.take(i - 1));
                        assert(after.add(e.insert(x)) =~= before.add(e));
                    },
                    None => {
                        assert(extracted_values(calls.take(i)) == extracted_values(
                            calls.take(i - 1),
                        ));
                        assert(after == before);
                    },
                }
            },
        }
        assert(hs[i]@.to_multiset().add(extracted_values(calls.take(i))) =~= hs[0]@.to_multiset().add(
            added_values(calls.take(i)),
        ));
    }
}

/// Over any run of insertions and extractions the heap stays in heap order
/// under the same comparator; its length is what it started with plus the
/// number of values added minus the number extracted, and its contents are
/// what it started with plus the values added minus those extracted.
pub proof fn lemma_call_run<T, C: Comparator<T>>(hs: Seq<Heap<T, C>>, calls: Seq<Call<T>>)
    requires
        call_run(hs, calls),
        hs[0].wf(),
    ensures
        forall|i: int|
            #![trigger hs[i]]
            0 <= i < hs.len() ==> {
                &&& hs[i].wf()
                &&& hs[i].comparator() == hs[0].comparator()
                &&& hs[i]@.len() + extracted_count(calls.take(i)) == hs[0]@.len()
                    + added_count(calls.take(i))
                &&& hs[i]@.to_multiset().add(extracted_values(calls.take(i)))
                    == hs[0]@.to_multiset().add(added_values(calls.take(i)))
            },
{
    assert forall|i: int| #![trigger hs[i]] 0 <= i < hs.len() implies {
        &&& hs[i].wf()
        &&& hs[i].comparator() == hs[0].comparator()
        &&& hs[i]@.len() + extracted_count(calls.take(i)) == hs[0]@.len() + added_count(
            calls.take(i),
        )
        &&& hs[i]@.to_multiset().add(extracted_values(calls.take(i))) == hs[0]@.to_multiset().add(
            added_values(calls.take(i)),
        )
    } by {
        lemma_call_run_at(hs, calls, i);
    }
}

} // verus!

//! Sorting outputs by value.
use crate::types::OutputData;
use vstd::prelude::*;

verus! {

/// The outputs of `s` that are worth `value`, in their order.
pub open spec fn worth(s: Seq<OutputData>, value: u64) -> Seq<OutputData> {
    s.filter(|out: OutputData| out.value == value)
}

/// The values of `s` do not decrease.
pub open spec fn increasing(s: Seq<OutputData>) -> bool {
    forall|i: int, j: int| 0 <= i <= j < s.len() ==> (#[trigger] s[i]).value <= (#[trigger] s[j]).value
}

/// `t` holds the outputs of `s` by increasing value, and outputs of one value in
/// the order in which `s` has them.
pub open spec fn is_sorting(t: Seq<OutputData>, s: Seq<OutputData>) -> bool {
    &&& increasing(t)
    &&& forall|value: u64| #[trigger] worth(t, value) == worth(s, value)
}

/// The outputs of `s` by increasing value.
pub open spec fn by_value(s: Seq<OutputData>) -> Seq<OutputData> {
    choose|t: Seq<OutputData>| is_sorting(t, s)
}

/// An output is among those of its value.
proof fn lemma_worth_push(s: Seq<OutputData>, out: OutputData, value: u64)
    ensures
        worth(s.push(out), value) == if out.value == value {
            worth(s, value).push(out)
        } else {
            worth(s, value)
        },
{
    reveal(Seq::filter);
    assert(s.push(out).drop_last() =~= s);
}

/// Appending keeps the outputs of each value in order.
proof fn lemma_worth_add(s: Seq<OutputData>, t: Seq<OutputData>, value: u64)
    ensures
        worth(s + t, value) == worth(s, value) + worth(t, value),
{
    Seq::filter_distributes_over_add(s, t, |out: OutputData| out.value == value);
}

/// Of a value that no output has, there is none.
proof fn lemma_worth_none(s: Seq<OutputData>, value: u64)
    requires
        forall|i: int| 0 <= i < s.len() ==> (#[trigger] s[i]).value != value,
    ensures
        worth(s, value) =~= Seq::<OutputData>::empty(),
    decreases s.len(),
{
    reveal(Seq::filter);
    if s.len() > 0 {
        lemma_worth_none(s.drop_last(), value);
    }
}

/// Where an output of a value is listed, the sequence holds one.
proof fn lemma_worth_some(s: Seq<OutputData>, value: u64)
    requires
        worth(s, value).len() > 0,
    ensures
        exists|i: int| 0 <= i < s.len() && (#[trigger] s[i]).value == value,
{
    if forall|i: int| 0 <= i < s.len() ==> (#[trigger] s[i]).value != value {
        lemma_worth_none(s, value);
    }
}

/// The last output is the last of its value.
proof fn lemma_worth_last(s: Seq<OutputData>, value: u64)
    requires
        s.len() > 0,
    ensures
        worth(s, value) == if s.last().value == value {
            worth(s.drop_last(), value).push(s.last())
        } else {
            worth(s.drop_last(), value)
        },
{
    assert(s =~= s.drop_last().push(s.last()));
    lemma_worth_push(s.drop_last(), s.last(), value);
}

/// There is one way to sort.
pub proof fn lemma_sorting_unique(t: Seq<OutputData>, u: Seq<OutputData>)
    requires
        increasing(t),
        increasing(u),
        forall|value: u64| #[trigger] worth(t, value) == worth(u, value),
    ensures
        t == u,
    decreases t.len(),
{
    if t.len() == 0 {
        if u.len() > 0 {
            let value = u.last().value;
            lemma_worth_last(u, value);
            assert(worth(t, value) == worth(u, value));
            lemma_worth_some(t, value);
        }
        assert(t =~= u);
    } else {
        let value = t.last().value;
        lemma_worth_last(t, value);
        assert(worth(t, value) == worth(u, value));
        lemma_worth_some(u, value);
        let top = u.last().value;
        lemma_worth_last(u, top);
        assert(worth(t, top) == worth(u, top));
        lemma_worth_some(t, top);
        assert(value == top);
        lemma_worth_last(u, value);
        assert(worth(t, value).last() == t.last());
        assert(worth(u, value).last() == u.last());
        let t1 = t.drop_last();
        let u1 = u.drop_last();
        assert forall|v: u64| #[trigger] worth(t1, v) == worth(u1, v) by {
            lemma_worth_last(t, v);
            lemma_worth_last(u, v);
            assert(worth(t, v) == worth(u, v));
            if v == value {
                assert(worth(t1, v) =~= worth(t, v).drop_last());
                assert(worth(u1, v) =~= worth(u, v).drop_last());
            }
        }
        lemma_sorting_unique(t1, u1);
        assert(t =~= t1.push(t.last()));
        assert(u =~= u1.push(u.last()));
    }
}

/// In an increasing sequence, the outputs worth at most `value` come first.
proof fn lemma_split(t: Seq<OutputData>, value: u64) -> (at: int)
    requires
        increasing(t),
    ensures
        0 <= at <= t.len(),
        forall|i: int| 0 <= i < at ==> (#[trigger] t[i]).value <= value,
        forall|i: int| at <= i < t.len() ==> (#[trigger] t[i]).value > value,
    decreases t.len(),
{
    if t.len() == 0 || t.last().value <= value {
        t.len() as int
    } else {
        let rest = t.drop_last();
        assert(forall|i: int| 0 <= i < rest.len() ==> rest[i] == t[i]);
        lemma_split(rest, value)
    }
}

/// Everything can be sorted.
proof fn lemma_sorting_exists(s: Seq<OutputData>) -> (t: Seq<OutputData>)
    ensures
        is_sorting(t, s),
    decreases s.len(),
{
    if s.len() == 0 {
        s
    } else {
        let out = s.last();
        let rest = lemma_sorting_exists(s.drop_last());
        let at = lemma_split(rest, out.value);
        let low = rest.take(at);
        let high = rest.skip(at);
        let t = low.push(out) + high;
        assert(rest =~= low + high);
        assert forall|value: u64| #[trigger] worth(t, value) == worth(s, value) by {
            lemma_worth_add(low.push(out), high, value);
            lemma_worth_push(low, out, value);
            lemma_worth_add(low, high, value);
            lemma_worth_last(s, value);
            assert(worth(rest, value) == worth(s.drop_last(), value));
            if value == out.value {
                lemma_worth_none(high, value);
                assert(worth(t, value) =~= worth(s, value));
            }
        }
        t
    }
}

/// The outputs by increasing value are the same outputs, sorted.
pub proof fn lemma_by_value_sorts(s: Seq<OutputData>)
    ensures
        is_sorting(by_value(s), s),
        increasing(by_value(s)),
        by_value(s).to_multiset() == s.to_multiset(),
        by_value(s).len() == s.len(),
{
    let t = lemma_sorting_exists(s);
    assert(is_sorting(t, s));
    lemma_sorting_keeps(by_value(s), s);
}

/// A sorting is the sorting.
pub proof fn lemma_by_value(t: Seq<OutputData>, s: Seq<OutputData>)
    requires
        is_sorting(t, s),
    ensures
        t == by_value(s),
{
    let u = by_value(s);
    assert(is_sorting(u, s));
    assert forall|value: u64| #[trigger] worth(t, value) == worth(u, value) by {
        assert(worth(t, value) == worth(s, value));
        assert(worth(u, value) == worth(s, value));
    }
    lemma_sorting_unique(t, u);
}

/// An output occurs as often in a sequence as among the outputs of its value.
proof fn lemma_worth_count(s: Seq<OutputData>, out: OutputData)
    ensures
        s.to_multiset().count(out) == worth(s, out.value).to_multiset().count(out),
    decreases s.len(),
{
    broadcast use vstd::seq_lib::group_to_multiset_ensures;

    if s.len() == 0 {
        lemma_worth_none(s, out.value);
        assert(s =~= worth(s, out.value));
    } else {
        let rest = s.drop_last();
        lemma_worth_count(rest, out);
        lemma_worth_last(s, out.value);
        assert(s =~= rest.push(s.last()));
    }
}

/// Sorting neither drops an output nor doubles one.
pub proof fn lemma_sorting_keeps(t: Seq<OutputData>, s: Seq<OutputData>)
    requires
        is_sorting(t, s),
    ensures
        t.to_multiset() == s.to_multiset(),
        t.len() == s.len(),
{
    broadcast use vstd::seq_lib::group_to_multiset_ensures;

    assert forall|out: OutputData| t.to_multiset().count(out) == s.to_multiset().count(out) by {
        lemma_worth_count(t, out);
        lemma_worth_count(s, out);
        assert(worth(t, out.value) == worth(s, out.value));
    }
    assert(t.to_multiset() =~= s.to_multiset());
    assert(t.len() == t.to_multiset().len());
    assert(s.len() == s.to_multiset().len());
}

/// Merges two sorted runs; of equal values, those of `left` come first.
fn merge(left: &Vec<OutputData>, right: &Vec<OutputData>) -> (merged: Vec<OutputData>)
    requires
        increasing(left@),
        increasing(right@),
    ensures
        is_sorting(merged@, left@ + right@),
{
    let mut merged: Vec<OutputData> = Vec::new();
    let mut i: usize = 0;
    let mut j: usize = 0;
    proof {
        assert forall|value: u64| #[trigger] worth(merged@, value) == worth(left@.take(0), value) + worth(
            right@.take(0),
            value,
        ) by {
            lemma_worth_none(merged@, value);
            lemma_worth_none(left@.take(0), value);
            lemma_worth_none(right@.take(0), value);
        }
    }
    while i < left.len() || j < right.len()
        invariant
            increasing(left@),
            increasing(right@),
            i <= left.len(),
            j <= right.len(),
            increasing(merged@),
            forall|a: int, b: int|
                0 <= a < merged.len() && i <= b < left.len() ==> (#[trigger] merged[a]).value <= (
                #[trigger] left[b]).value,
            forall|a: int, b: int|
                0 <= a < merged.len() && j <= b < right.len() ==> (#[trigger] merged[a]).value <= (
                #[trigger] right[b]).value,
            forall|a: int, b: int|
                0 <= a < j && i <= b < left.len() ==> (#[trigger] right[a]).value < (
                #[trigger] left[b]).value,
            forall|value: u64| #[trigger]
                worth(merged@, value) == worth(left@.take(i as int), value) + worth(
                    right@.take(j as int),
                    value,
                ),
        decreases left.len() - i + right.len() - j,
    {
        let ghost before = merged@;
        let from_left = i < left.len() && (j >= right.len() || left[i].value <= right[j].value);
        if from_left {
            merged.push(left[i].clone());
            proof {
                let out = left[i as int];
                assert(left@.take(i + 1) =~= left@.take(i as int).push(out));
                assert forall|value: u64| #[trigger] worth(merged@, value) == worth(
                    left@.take(i + 1),
                    value,
                ) + worth(right@.take(j as int), value) by {
                    assert(worth(before, value) == worth(left@.take(i as int), value) + worth(
                        right@.take(j as int),
                        value,
                    ));
                    lemma_worth_push(before, out, value);
                    lemma_worth_push(left@.take(i as int), out, value);
                    if value == out.value {
                        lemma_worth_none(right@.take(j as int), value);
                        assert(worth(merged@, value) =~= worth(left@.take(i + 1), value) + worth(
                            right@.take(j as int),
                            value,
                        ));
                    }
                }
            }
            i = i + 1;
        } else {
            merged.push(right[j].clone());
            proof {
                let out = right[j as int];
                assert(right@.take(j + 1) =~= right@.take(j as int).push(out));
                assert forall|value: u64| #[trigger] worth(merged@, value) == worth(
                    left@.take(i as int),
                    value,
                ) + worth(right@.take(j + 1), value) by {
                    assert(worth(before, value) == worth(left@.take(i as int), value) + worth(
                        right@.take(j as int),
                        value,
                    ));
                    lemma_worth_push(before, out, value);
                    lemma_worth_push(right@.take(j as int), out, value);
                    assert(worth(merged@, value) =~= worth(left@.take(i as int), value) + worth(
                        right@.take(j + 1),
                        value,
                    ));
                }
            }
            j = j + 1;
        }
    }
    proof {
        assert(left@.take(i as int) =~= left@);
        assert(right@.take(j as int) =~= right@);
        assert forall|value: u64| #[trigger] worth(merged@, value) == worth(left@ + right@, value) by {
            lemma_worth_add(left@, right@, value);
        }
    }
    merged
}

/// Sorts outputs by increasing value; outputs of one value keep their order.
pub fn sort_by_value(outputs: Vec<OutputData>) -> (sorted: Vec<OutputData>)
    ensures
        is_sorting(sorted@, outputs@),
        sorted@ == by_value(outputs@),
    decreases outputs.len(),
{
    let count: usize = outputs.len();
    if count <= 1 {
        proof {
            lemma_by_value(outputs@, outputs@);
        }
        return outputs;
    }
    let ghost all = outputs@;
    let mut left = outputs;
    let right = left.split_off(count / 2);
    let ghost halves = (left@, right@);
    let left = sort_by_value(left);
    let right = sort_by_value(right);
    let sorted = merge(&left, &right);
    proof {
        assert(all =~= halves.0 + halves.1);
        assert forall|value: u64| #[trigger] worth(sorted@, value) == worth(all, value) by {
            assert(worth(sorted@, value) == worth(left@ + right@, value));
            lemma_worth_add(left@, right@, value);
            lemma_worth_add(halves.0, halves.1, value);
            assert(worth(left@, value) == worth(halves.0, value));
            assert(worth(right@, value) == worth(halves.1, value));
        }
        lemma_by_value(sorted@, all);
    }
    sorted
}

} // verus!

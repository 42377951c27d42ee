//! What outputs are worth together.
use crate::types::OutputData;
use vstd::prelude::*;

verus! {

/// What the outputs of `s` are worth together.
pub open spec fn total(s: Seq<OutputData>) -> nat
    decreases s.len(),
{
    if s.len() == 0 {
        0
    } else {
        total(s.drop_last()) + s.last().value as nat
    }
}

/// One more output adds its value.
pub proof fn lemma_total_push(s: Seq<OutputData>, out: OutputData)
    ensures
        total(s.push(out)) == total(s) + out.value,
{
    assert(s.push(out).drop_last() =~= s);
}

/// Totals add up.
pub proof fn lemma_total_add(s: Seq<OutputData>, t: Seq<OutputData>)
    ensures
        total(s + t) == total(s) + total(t),
    decreases t.len(),
{
    if t.len() == 0 {
        assert(s + t =~= s);
    } else {
        assert((s + t).drop_last() =~= s + t.drop_last());
        lemma_total_add(s, t.drop_last());
    }
}

/// The next output adds its value to those before it.
pub proof fn lemma_total_take(s: Seq<OutputData>, k: int)
    requires
        0 <= k < s.len(),
    ensures
        total(s.take(k + 1)) == total(s.take(k)) + s[k].value,
{
    assert(s.take(k + 1) =~= s.take(k).push(s[k]));
    lemma_total_push(s.take(k), s[k]);
}

/// More outputs are worth no less.
pub proof fn lemma_total_take_monotone(s: Seq<OutputData>, k: int, l: int)
    requires
        0 <= k <= l <= s.len(),
    ensures
        total(s.take(k)) <= total(s.take(l)),
    decreases l,
{
    if k < l {
        lemma_total_take_monotone(s, k, l - 1);
        lemma_total_take(s, l - 1);
    }
}

/// The order does not matter.
pub proof fn lemma_total_reverse(s: Seq<OutputData>)
    ensures
        total(s.reverse()) == total(s),
    decreases s.len(),
{
    if s.len() > 0 {
        let rest = s.drop_last();
        lemma_total_reverse(rest);
        assert(s.reverse() =~= seq![s.last()] + rest.reverse());
        lemma_total_add(seq![s.last()], rest.reverse());
        assert(seq![s.last()] =~= Seq::<OutputData>::empty().push(s.last()));
        lemma_total_push(Seq::<OutputData>::empty(), s.last());
    }
}

/// A run of outputs holds no more of an output than the whole does.
pub proof fn lemma_run_within(s: Seq<OutputData>, from: int, to: int)
    requires
        0 <= from <= to <= s.len(),
    ensures
        s.subrange(from, to).to_multiset().subset_of(s.to_multiset()),
{
    broadcast use vstd::multiset::group_multiset_axioms;

    let before = s.take(from);
    let run = s.subrange(from, to);
    let after = s.skip(to);
    assert(s =~= before + (run + after));
    vstd::seq_lib::lemma_multiset_commutative(before, run + after);
    vstd::seq_lib::lemma_multiset_commutative(run, after);
}

/// The order does not matter to how often an output occurs.
pub proof fn lemma_reverse_same(s: Seq<OutputData>)
    ensures
        s.reverse().to_multiset() == s.to_multiset(),
    decreases s.len(),
{
    broadcast use vstd::multiset::group_multiset_axioms;

    if s.len() > 0 {
        let rest = s.drop_last();
        lemma_reverse_same(rest);
        assert(s.reverse() =~= seq![s.last()] + rest.reverse());
        assert(s =~= rest + seq![s.last()]);
        vstd::seq_lib::lemma_multiset_commutative(seq![s.last()], rest.reverse());
        vstd::seq_lib::lemma_multiset_commutative(rest, seq![s.last()]);
        assert(s.reverse().to_multiset() =~= s.to_multiset());
    } else {
        assert(s.reverse() =~= s);
    }
}

/// The same outputs are worth the same, in whatever order.
pub proof fn lemma_total_same(s: Seq<OutputData>, t: Seq<OutputData>)
    requires
        s.to_multiset() == t.to_multiset(),
    ensures
        total(s) == total(t),
    decreases s.len(),
{
    broadcast use vstd::seq_lib::group_to_multiset_ensures;

    assert(s.len() == s.to_multiset().len());
    assert(t.len() == t.to_multiset().len());
    if s.len() > 0 {
        let out = s.last();
        assert(s.contains(out));
        assert(t.to_multiset().count(out) > 0);
        assert(t.contains(out));
        let i = choose|i: int| 0 <= i < t.len() && t[i] == out;
        assert(s.remove(s.len() - 1) =~= s.drop_last());
        lemma_total_same(s.drop_last(), t.remove(i));
        lemma_total_remove(t, i);
    }
}

/// An output taken out takes its value with it.
pub proof fn lemma_total_remove(s: Seq<OutputData>, i: int)
    requires
        0 <= i < s.len(),
    ensures
        total(s) == total(s.remove(i)) + s[i].value,
{
    let before = s.take(i);
    let after = s.skip(i + 1);
    assert(s =~= before.push(s[i]) + after);
    assert(s.remove(i) =~= before + after);
    lemma_total_add(before.push(s[i]), after);
    lemma_total_add(before, after);
    lemma_total_push(before, s[i]);
}

/// A filter holds no more of an output than the whole does.
pub proof fn lemma_filter_within(s: Seq<OutputData>, wanted: spec_fn(OutputData) -> bool)
    ensures
        s.filter(wanted).to_multiset().subset_of(s.to_multiset()),
    decreases s.len(),
{
    broadcast use vstd::seq_lib::group_to_multiset_ensures;
    broadcast use vstd::multiset::group_multiset_axioms;

    reveal(Seq::filter);
    if s.len() > 0 {
        lemma_filter_within(s.drop_last(), wanted);
        assert(s =~= s.drop_last().push(s.last()));
    }
}

/// Outputs without value are worth nothing together.
pub proof fn lemma_total_nothing(s: Seq<OutputData>)
    requires
        forall|i: int| 0 <= i < s.len() ==> (#[trigger] s[i]).value == 0,
    ensures
        total(s) == 0,
    decreases s.len(),
{
    if s.len() > 0 {
        lemma_total_nothing(s.drop_last());
    }
}

/// A part is worth no more than the whole, and as much where it is as many.
pub proof fn lemma_total_within(t: Seq<OutputData>, s: Seq<OutputData>)
    requires
        t.to_multiset().subset_of(s.to_multiset()),
    ensures
        total(t) <= total(s),
        t.len() <= s.len(),
        t.len() == s.len() ==> total(t) == total(s),
    decreases t.len(),
{
    broadcast use vstd::seq_lib::group_to_multiset_ensures;
    broadcast use vstd::multiset::group_multiset_axioms;

    if t.len() > 0 {
        let out = t.last();
        assert(t.contains(out));
        assert(t.to_multiset().count(out) > 0);
        assert(s.to_multiset().count(out) > 0);
        assert(s.contains(out));
        let i = choose|i: int| 0 <= i < s.len() && s[i] == out;
        assert(t.remove(t.len() - 1) =~= t.drop_last());
        lemma_total_within(t.drop_last(), s.remove(i));
        lemma_total_remove(s, i);
    }
}

} // verus!

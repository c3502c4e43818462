pub mod chars;
pub mod dom;
pub mod extract;
pub mod model;
pub mod names;
pub mod phones;
pub mod text;

use vstd::prelude::*;

verus! {

/// What one dedup-checked append leaves behind: the sequence unchanged when
/// the value is already present, else the sequence with the value at the end.
pub open spec fn push_unique_spec(l: Seq<Seq<char>>, v: Seq<char>) -> Seq<Seq<char>> {
    if l.contains(v) {
        l
    } else {
        l.push(v)
    }
}

/// Appends `value` to `list` only if no element equal to it is already there.
pub fn push_unique(list: &mut Vec<String>, value: String)
    ensures
        final(list).deep_view() == push_unique_spec(old(list).deep_view(), value@),
{
    let ghost orig = old(list).deep_view();
    let mut i: usize = 0;
    while i < list.len()
        invariant
            i <= list.len(),
            *list == *old(list),
            orig == old(list).deep_view(),
            forall|j: int| 0 <= j < i ==> list@[j]@ != value@,
        decreases list@.len() - i,
    {
        if list[i] == value {
            proof {
                assert(orig[i as int] == value@);
                assert(orig.contains(value@));
            }
            return;
        }
        i += 1;
    }
    proof {
        assert(forall|j: int| 0 <= j < orig.len() ==> orig[j] != value@);
        assert(!orig.contains(value@));
    }
    list.push(value);
    proof {
        assert(list.deep_view() =~= orig.push(value@));
    }
}

/// The result of appending each value of `vs` in order, each under the
/// dedup rule.
pub open spec fn push_all(l: Seq<Seq<char>>, vs: Seq<Seq<char>>) -> Seq<Seq<char>>
    decreases vs.len(),
{
    if vs.len() == 0 {
        l
    } else {
        push_all(push_unique_spec(l, vs[0]), vs.drop_first())
    }
}

/// One dedup-checked append folded over a cons cell: pushing a list headed
/// by `v` is pushing `v`, then the tail.
pub proof fn lemma_push_all_step(l: Seq<Seq<char>>, v: Seq<char>, vs: Seq<Seq<char>>)
    ensures
        push_all(l, seq![v] + vs) == push_all(push_unique_spec(l, v), vs),
{
    assert((seq![v] + vs)[0] == v);
    assert((seq![v] + vs).drop_first() =~= vs);
}

/// Appends every value of `values` in order, each under the dedup rule.
pub fn push_all_unique(list: &mut Vec<String>, values: &Vec<String>)
    ensures
        final(list).deep_view() == push_all(old(list).deep_view(), values.deep_view()),
{
    let ghost target = push_all(old(list).deep_view(), values.deep_view());
    proof {
        assert(values.deep_view().skip(0) =~= values.deep_view());
    }
    let mut j: usize = 0;
    while j < values.len()
        invariant
            j <= values@.len(),
            push_all(list.deep_view(), values.deep_view().skip(j as int)) == target,
        decreases values@.len() - j,
    {
        let ghost pre = list.deep_view();
        let ghost vs = values.deep_view().skip(j as int);
        push_unique(list, values[j].clone());
        proof {
            assert(vs[0] == values.deep_view()[j as int]);
            assert(values@[j as int]@ == values.deep_view()[j as int]);
            assert(vs.drop_first() =~= values.deep_view().skip(j + 1));
            assert(push_all(pre, vs) == push_all(push_unique_spec(pre, vs[0]), vs.drop_first()));
        }
        j += 1;
    }
    proof {
        assert(values.deep_view().skip(j as int) =~= Seq::<Seq<char>>::empty());
    }
}

/// Appending the same value a second time never changes the collection:
/// the first append leaves the value present, and an append of a present
/// value is a no-op.
pub proof fn lemma_push_unique_idempotent(l: Seq<Seq<char>>, v: Seq<char>)
    ensures
        push_unique_spec(push_unique_spec(l, v), v) == push_unique_spec(l, v),
{
    if !l.contains(v) {
        assert(l.push(v)[l.len() as int] == v);
        assert(l.push(v).contains(v));
    }
}

} // verus!

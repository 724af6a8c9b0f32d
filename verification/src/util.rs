//! Small verified helpers over vectors of strings and integers that the
//! store and dispatch logic share.

use vstd::prelude::*;

verus! {

/// Whether `v` holds a string equal to `s`.
pub fn contains_string(v: &Vec<String>, s: &String) -> (r: bool)
    ensures
        r <==> v.deep_view().contains(s@),
{
    let mut i: usize = 0;
    while i < v.len()
        invariant
            i <= v.len(),
            forall|j: int| 0 <= j < i ==> v.deep_view()[j] != s@,
        decreases v.len() - i,
    {
        if v[i].eq(s) {
            assert(v.deep_view()[i as int] == s@);
            return true;
        }
        assert(v.deep_view()[i as int] != s@);
        i = i + 1;
    }
    false
}

/// Whether the two vectors share an element: the `$in` filter of the claim
/// step, applied to `agents_required` against the online names.
pub fn shares_element(a: &Vec<String>, b: &Vec<String>) -> (r: bool)
    ensures
        r <==> exists|i: int|
            0 <= i < a.deep_view().len() && b.deep_view().contains(#[trigger] a.deep_view()[i]),
{
    let mut i: usize = 0;
    while i < a.len()
        invariant
            i <= a.len(),
            forall|j: int| 0 <= j < i ==> !b.deep_view().contains(#[trigger] a.deep_view()[j]),
        decreases a.len() - i,
    {
        if contains_string(b, &a[i]) {
            assert(b.deep_view().contains(a.deep_view()[i as int]));
            return true;
        }
        assert(!b.deep_view().contains(a.deep_view()[i as int]));
        i = i + 1;
    }
    false
}

/// Whether `v` holds the integer `x`.
pub fn contains_i32(v: &Vec<i32>, x: i32) -> (r: bool)
    ensures
        r <==> v@.contains(x),
{
    let mut i: usize = 0;
    while i < v.len()
        invariant
            i <= v.len(),
            forall|j: int| 0 <= j < i ==> v@[j] != x,
        decreases v.len() - i,
    {
        if v[i] == x {
            return true;
        }
        i = i + 1;
    }
    false
}

/// An element-wise copy of a string vector, with the same view.
pub fn clone_string_vec(v: &Vec<String>) -> (r: Vec<String>)
    ensures
        r.deep_view() == v.deep_view(),
        r@.len() == v@.len(),
{
    let mut r: Vec<String> = Vec::new();
    let mut i: usize = 0;
    while i < v.len()
        invariant
            i <= v.len(),
            r@.len() == i,
            forall|j: int| 0 <= j < i ==> r.deep_view()[j] == v.deep_view()[j],
        decreases v.len() - i,
    {
        r.push(v[i].clone());
        i = i + 1;
    }
    assert(r.deep_view() =~= v.deep_view());
    r
}

/// An element-wise copy of an integer vector, with the same view.
pub fn clone_i32_vec(v: &Vec<i32>) -> (r: Vec<i32>)
    ensures
        r@ == v@,
{
    let mut r: Vec<i32> = Vec::new();
    let mut i: usize = 0;
    while i < v.len()
        invariant
            i <= v.len(),
            r@ =~= v@.take(i as int),
        decreases v.len() - i,
    {
        r.push(v[i]);
        assert(r@ =~= v@.take(i as int + 1));
        i = i + 1;
    }
    assert(r@ =~= v@);
    r
}

/// The parts joined with single spaces: how a job's argument list is
/// carried in one `DispatchJob` string.
pub open spec fn spec_join_spaced(parts: Seq<Seq<char>>) -> Seq<char>
    decreases parts.len(),
{
    if parts.len() == 0 {
        Seq::empty()
    } else if parts.len() == 1 {
        parts[0]
    } else {
        parts[0] + seq![' '] + spec_join_spaced(parts.drop_first())
    }
}

/// Joining one more part appends a space and the part (or is the part
/// itself on an empty list).
pub proof fn lemma_join_spaced_push(parts: Seq<Seq<char>>, x: Seq<char>)
    ensures
        parts.len() == 0 ==> spec_join_spaced(parts.push(x)) == x,
        parts.len() > 0 ==> spec_join_spaced(parts.push(x)) == spec_join_spaced(parts)
            + seq![' '] + x,
    decreases parts.len(),
{
    if parts.len() == 0 {
        assert(parts.push(x)[0] == x);
    } else if parts.len() == 1 {
        assert(parts.push(x)[0] == parts[0]);
        assert(parts.push(x).drop_first() =~= seq![x]);
        assert(spec_join_spaced(seq![x]) == x);
    } else {
        assert(parts.push(x)[0] == parts[0]);
        assert(parts.push(x).drop_first() =~= parts.drop_first().push(x));
        lemma_join_spaced_push(parts.drop_first(), x);
        assert(spec_join_spaced(parts.push(x)) == parts[0] + seq![' ']
            + spec_join_spaced(parts.drop_first().push(x)));
        assert(parts[0] + seq![' '] + (spec_join_spaced(parts.drop_first()) + seq![' '] + x)
            =~= (parts[0] + seq![' '] + spec_join_spaced(parts.drop_first())) + seq![' '] + x);
    }
}

/// Joins the parts with single spaces.
pub fn join_spaced(parts: &Vec<String>) -> (r: String)
    ensures
        r@ == spec_join_spaced(parts.deep_view()),
{
    let ghost pv = parts.deep_view();
    let mut s = String::new();
    let mut i: usize = 0;
    proof {
        assert(pv.take(0) =~= Seq::<Seq<char>>::empty());
    }
    while i < parts.len()
        invariant
            i <= parts.len(),
            pv == parts.deep_view(),
            pv.len() == parts.len(),
            s@ == spec_join_spaced(pv.take(i as int)),
        decreases parts.len() - i,
    {
        let ghost prefix = pv.take(i as int);
        proof {
            lemma_join_spaced_push(prefix, pv[i as int]);
            assert(pv.take(i as int + 1) =~= prefix.push(pv[i as int]));
            reveal_strlit(" ");
        }
        if i > 0 {
            s.append(" ");
        }
        s.append(parts[i].as_str());
        assert(s@ == spec_join_spaced(pv.take(i as int + 1)));
        i = i + 1;
    }
    assert(pv.take(parts.len() as int) =~= pv);
    s
}

} // verus!

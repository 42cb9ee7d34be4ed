//! Stable insertion sorts for strings (code-point order, the order of `str`)
//! and for paths held as strings (component order, the order of `Path`).
use vstd::prelude::*;

use crate::text::views;
use crate::path::{
    chars_less, chars_lt, lemma_chars_lt_order, lemma_components_lt_irreflexive,
    lemma_path_lt_order, path_components, path_eq, path_less, path_lt,
};

verus! {

broadcast use vstd::seq_lib::group_to_multiset_ensures;

/// `v` is in non-decreasing code-point order.
pub open spec fn sorted_by_chars(v: Seq<String>) -> bool {
    forall|i: int, j: int| 0 <= i < j < v.len() ==> !chars_lt(#[trigger] v[j]@, #[trigger] v[i]@)
}

/// `v` is in non-decreasing path order.
pub open spec fn sorted_by_path(v: Seq<String>) -> bool {
    forall|i: int, j: int| 0 <= i < j < v.len() ==> !path_lt(#[trigger] v[j]@, #[trigger] v[i]@)
}

/// The items of `v` that equal `p` as paths, in their order in `v`.
pub open spec fn same_path_items(v: Seq<String>, p: Seq<char>) -> Seq<String> {
    v.filter(|x: String| path_eq(x@, p))
}

/// Inserting `x` before items that all come after it in path order appends
/// `x` to the items equal to it as paths and leaves the others unchanged.
proof fn lemma_insert_same_path_items(s: Seq<String>, j: int, x: String, p: Seq<char>)
    requires
        0 <= j <= s.len(),
        forall|k: int| j <= k < s.len() ==> path_lt(x@, #[trigger] s[k]@),
    ensures
        same_path_items(s.insert(j, x), p) == if path_eq(x@, p) {
            same_path_items(s, p).push(x)
        } else {
            same_path_items(s, p)
        },
{
    let f = |y: String| path_eq(y@, p);
    let a = s.subrange(0, j);
    let b = s.subrange(j, s.len() as int);
    let one = Seq::<String>::empty().push(x);
    assert(s == a + b);
    assert(s.insert(j, x) == (a + one) + b);
    Seq::filter_distributes_over_add(a, b, f);
    Seq::filter_distributes_over_add(a + one, b, f);
    Seq::filter_distributes_over_add(a, one, f);
    Seq::<String>::empty().lemma_filter_push(x, f);
    assert(Seq::<String>::empty().filter(f) == Seq::<String>::empty()) by {
        reveal(Seq::filter);
    }
    if path_eq(x@, p) {
        assert forall|k: int| 0 <= k < b.len() implies !#[trigger] f(b[k]) by {
            assert(path_lt(x@, s[j + k]@));
            if f(b[k]) {
                lemma_components_lt_irreflexive(path_components(x@));
            }
        }
        b.lemma_all_neg_filter_empty(f);
        assert(b.filter(f) == Seq::<String>::empty());
    }
}

proof fn lemma_insert_multiset<A>(s: Seq<A>, j: int, x: A)
    requires
        0 <= j <= s.len(),
    ensures
        s.insert(j, x).to_multiset() == s.to_multiset().insert(x),
{
    let t = s.insert(j, x);
    assert(t.remove(j) == s);
    assert(t[j] == x);
    assert(t.to_multiset().remove(x) == s.to_multiset());
    assert(t.to_multiset().count(x) > 0) by {
        assert(t.contains(x));
    }
    assert(t.to_multiset() =~= s.to_multiset().insert(x));
}

proof fn lemma_chars_le_trans(a: Seq<char>, b: Seq<char>, c: Seq<char>)
    requires
        !chars_lt(b, a),
        !chars_lt(c, b),
    ensures
        !chars_lt(c, a),
{
    lemma_chars_lt_order(a, b, c);
    lemma_chars_lt_order(c, a, b);
}

proof fn lemma_path_le_trans(a: Seq<char>, b: Seq<char>, c: Seq<char>)
    requires
        !path_lt(b, a),
        !path_lt(c, b),
    ensures
        !path_lt(c, a),
{
    lemma_path_lt_order(a, b, c);
    lemma_path_lt_order(c, a, b);
}

/// The strings of `v`, sorted in code-point order; equal strings keep their
/// relative order.
pub fn sort_strings(v: &Vec<String>) -> (r: Vec<String>)
    ensures
        r@.to_multiset() == v@.to_multiset(),
        views(r@).to_multiset() == views(v@).to_multiset(),
        sorted_by_chars(r@),
{
    let mut r: Vec<String> = Vec::new();
    let mut i: usize = 0;
    while i < v.len()
        invariant
            i <= v@.len(),
            r@.to_multiset() == v@.subrange(0, i as int).to_multiset(),
            views(r@).to_multiset() == views(v@.subrange(0, i as int)).to_multiset(),
            sorted_by_chars(r@),
        decreases v@.len() - i,
    {
        let x = v[i].clone();
        let xv = crate::text::chars_of(x.as_str());
        let mut j = r.len();
        while j > 0 && chars_less(xv.as_slice(), crate::text::chars_of(r[j - 1].as_str()).as_slice())
            invariant
                j <= r@.len(),
                xv@ == x@,
                forall|k: int| j <= k < r@.len() ==> chars_lt(x@, #[trigger] r@[k]@),
            decreases j,
        {
            j = j - 1;
        }
        let ghost old_r = r@;
        proof {
            assert forall|a: int, b: int| 0 <= a < b < old_r.len() + 1 implies !chars_lt(
                #[trigger] old_r.insert(j as int, x)[b]@,
                #[trigger] old_r.insert(j as int, x)[a]@,
            ) by {
                let t = old_r.insert(j as int, x);
                old_r.insert_ensures(j as int, x);
                if b < j {
                } else if a < j && b == j {
                    if a < j - 1 {
                        assert(!chars_lt(old_r[j - 1]@, old_r[a]@));
                    } else {
                        lemma_chars_lt_order(old_r[a]@, old_r[a]@, old_r[a]@);
                    }
                    lemma_chars_le_trans(old_r[a]@, old_r[j - 1]@, x@);
                } else if a < j && b > j {
                    assert(t[b] == old_r[b - 1]);
                } else if a == j {
                    assert(t[b] == old_r[b - 1]);
                    lemma_chars_lt_order(x@, old_r[b - 1]@, x@);
                } else {
                    assert(t[b] == old_r[b - 1]);
                    assert(t[a] == old_r[a - 1]);
                }
            }
            lemma_insert_multiset(old_r, j as int, x);
            assert(views(old_r.insert(j as int, x)) == views(old_r).insert(j as int, x@));
            lemma_insert_multiset(views(old_r), j as int, x@);
            assert(v@.subrange(0, i + 1) == v@.subrange(0, i as int).push(v@[i as int]));
            assert(views(v@.subrange(0, i + 1)) == views(v@.subrange(0, i as int)).push(v@[i as int]@));
        }
        r.insert(j, x);
        i = i + 1;
    }
    assert(v@.subrange(0, v@.len() as int) == v@);
    r
}

/// The paths of `v`, sorted in path order; paths that compare equal keep
/// their relative order.
pub fn sort_paths(v: &Vec<String>) -> (r: Vec<String>)
    ensures
        r@.to_multiset() == v@.to_multiset(),
        sorted_by_path(r@),
        forall|p: Seq<char>| #[trigger] same_path_items(r@, p) == same_path_items(v@, p),
{
    let mut r: Vec<String> = Vec::new();
    let mut i: usize = 0;
    while i < v.len()
        invariant
            i <= v@.len(),
            r@.to_multiset() == v@.subrange(0, i as int).to_multiset(),
            sorted_by_path(r@),
            forall|p: Seq<char>|
                #[trigger] same_path_items(r@, p) == same_path_items(v@.subrange(0, i as int), p),
        decreases v@.len() - i,
    {
        let x = v[i].clone();
        let mut j = r.len();
        while j > 0 && path_less(x.as_str(), r[j - 1].as_str())
            invariant
                j <= r@.len(),
                forall|k: int| j <= k < r@.len() ==> path_lt(x@, #[trigger] r@[k]@),
            decreases j,
        {
            j = j - 1;
        }
        let ghost old_r = r@;
        proof {
            assert forall|a: int, b: int| 0 <= a < b < old_r.len() + 1 implies !path_lt(
                #[trigger] old_r.insert(j as int, x)[b]@,
                #[trigger] old_r.insert(j as int, x)[a]@,
            ) by {
                let t = old_r.insert(j as int, x);
                old_r.insert_ensures(j as int, x);
                if b < j {
                } else if a < j && b == j {
                    if a < j - 1 {
                        assert(!path_lt(old_r[j - 1]@, old_r[a]@));
                    } else {
                        lemma_path_lt_order(old_r[a]@, old_r[a]@, old_r[a]@);
                    }
                    lemma_path_le_trans(old_r[a]@, old_r[j - 1]@, x@);
                } else if a < j && b > j {
                    assert(t[b] == old_r[b - 1]);
                } else if a == j {
                    assert(t[b] == old_r[b - 1]);
                    lemma_path_lt_order(x@, old_r[b - 1]@, x@);
                } else {
                    assert(t[b] == old_r[b - 1]);
                    assert(t[a] == old_r[a - 1]);
                }
            }
            lemma_insert_multiset(old_r, j as int, x);
            assert(v@.subrange(0, i + 1) == v@.subrange(0, i as int).push(v@[i as int]));
            assert forall|p: Seq<char>| #[trigger]
                same_path_items(old_r.insert(j as int, x), p) == same_path_items(
                    v@.subrange(0, i + 1),
                    p,
                ) by {
                lemma_insert_same_path_items(old_r, j as int, x, p);
                v@.subrange(0, i as int).lemma_filter_push(x, |y: String| path_eq(y@, p));
            }
        }
        r.insert(j, x);
        i = i + 1;
    }
    assert(v@.subrange(0, v@.len() as int) == v@);
    r
}

} // verus!

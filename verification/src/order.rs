//! The order of `String`s (lexicographic by code point) and sorting by it.
use vstd::prelude::*;
use vstd::relations::{sorted_by, total_ordering};
use crate::text::{chars_of, string_views};

verus! {

/// `a` comes before `b` or equals it, comparing character by character
/// (`str`'s `Ord`, which orders by code point).
pub open spec fn lex_le(a: Seq<char>, b: Seq<char>) -> bool
    decreases a.len(),
{
    if a.len() == 0 {
        true
    } else if b.len() == 0 {
        false
    } else if a[0] != b[0] {
        a[0] < b[0]
    } else {
        lex_le(a.drop_first(), b.drop_first())
    }
}

/// The descending order: `a` comes after `b` or equals it.
pub open spec fn descending() -> spec_fn(Seq<char>, Seq<char>) -> bool {
    |a: Seq<char>, b: Seq<char>| lex_le(b, a)
}

/// `s` sorted from the greatest text to the least (`sort` then `reverse`).
pub open spec fn sorted_descending(s: Seq<Seq<char>>) -> Seq<Seq<char>> {
    s.sort_by(descending())
}

proof fn lemma_lex_reflexive(a: Seq<char>)
    ensures
        lex_le(a, a),
    decreases a.len(),
{
    if a.len() > 0 {
        lemma_lex_reflexive(a.drop_first());
    }
}

proof fn lemma_lex_antisymmetric(a: Seq<char>, b: Seq<char>)
    requires
        lex_le(a, b),
        lex_le(b, a),
    ensures
        a == b,
    decreases a.len(),
{
    if a.len() > 0 && b.len() > 0 {
        lemma_lex_antisymmetric(a.drop_first(), b.drop_first());
        assert(a =~= seq![a[0]] + a.drop_first());
        assert(b =~= seq![b[0]] + b.drop_first());
    } else {
        assert(a =~= b);
    }
}

proof fn lemma_lex_transitive(a: Seq<char>, b: Seq<char>, c: Seq<char>)
    requires
        lex_le(a, b),
        lex_le(b, c),
    ensures
        lex_le(a, c),
    decreases a.len(),
{
    if a.len() > 0 && b.len() > 0 && c.len() > 0 {
        if a[0] == b[0] && b[0] == c[0] {
            lemma_lex_transitive(a.drop_first(), b.drop_first(), c.drop_first());
        }
    }
}

proof fn lemma_lex_total(a: Seq<char>, b: Seq<char>)
    ensures
        lex_le(a, b) || lex_le(b, a),
    decreases a.len(),
{
    if a.len() > 0 && b.len() > 0 && a[0] == b[0] {
        lemma_lex_total(a.drop_first(), b.drop_first());
    }
}

/// The descending order is a total order.
pub proof fn lemma_descending_total()
    ensures
        total_ordering(descending()),
{
    let ghost r = descending();
    assert forall|x: Seq<char>| #[trigger] r(x, x) by {
        lemma_lex_reflexive(x);
    }
    assert forall|x: Seq<char>, y: Seq<char>| #[trigger] r(x, y) && #[trigger] r(y, x) implies x
        == y by {
        lemma_lex_antisymmetric(x, y);
    }
    assert forall|x: Seq<char>, y: Seq<char>, z: Seq<char>| #[trigger]
        r(x, y) && #[trigger] r(y, z) implies r(x, z) by {
        lemma_lex_transitive(z, y, x);
    }
    assert forall|x: Seq<char>, y: Seq<char>| #[trigger] r(x, y) || #[trigger] r(y, x) by {
        lemma_lex_total(x, y);
    }
}

/// What sorting gives: the same texts, each at least as great as the ones
/// after it.
pub proof fn lemma_sorted_descending_facts(s: Seq<Seq<char>>)
    ensures
        sorted_descending(s).to_multiset() == s.to_multiset(),
        sorted_descending(s).len() == s.len(),
        forall|i: int, j: int|
            0 <= i < j < s.len() ==> lex_le(
                #[trigger] sorted_descending(s)[j],
                #[trigger] sorted_descending(s)[i],
            ),
{
    lemma_descending_total();
    s.lemma_sort_by_ensures(descending());
    vstd::seq_lib::to_multiset_len(s);
    vstd::seq_lib::to_multiset_len(sorted_descending(s));
    assert forall|i: int, j: int| 0 <= i < j < s.len() implies lex_le(
        #[trigger] sorted_descending(s)[j],
        #[trigger] sorted_descending(s)[i],
    ) by {
        assert(descending()(sorted_descending(s)[i], sorted_descending(s)[j]));
    }
}

/// Sorting forgets the order the texts came in.
pub proof fn lemma_sorted_descending_permutation(a: Seq<Seq<char>>, b: Seq<Seq<char>>)
    requires
        a.to_multiset() == b.to_multiset(),
    ensures
        sorted_descending(a) == sorted_descending(b),
{
    lemma_descending_total();
    a.lemma_sort_by_ensures(descending());
    b.lemma_sort_by_ensures(descending());
    vstd::seq_lib::lemma_sorted_unique(sorted_descending(a), sorted_descending(b), descending());
}

fn lex_le_exec(a: &Vec<char>, b: &Vec<char>) -> (res: bool)
    ensures
        res == lex_le(a@, b@),
{
    let mut i: usize = 0;
    assert(a@.skip(0) =~= a@);
    assert(b@.skip(0) =~= b@);
    while i < a.len() && i < b.len()
        invariant
            i <= a.len(),
            i <= b.len(),
            lex_le(a@, b@) == lex_le(a@.skip(i as int), b@.skip(i as int)),
        decreases a.len() - i,
    {
        assert(a@.skip(i as int)[0] == a@[i as int]);
        assert(b@.skip(i as int)[0] == b@[i as int]);
        if a[i] != b[i] {
            return a[i] < b[i];
        }
        assert(a@.skip(i as int).drop_first() =~= a@.skip(i + 1));
        assert(b@.skip(i as int).drop_first() =~= b@.skip(i + 1));
        i = i + 1;
    }
    a.len() <= b.len()
}

/// `v` sorted from the greatest text to the least.
pub fn sort_descending(v: &Vec<String>) -> (res: Vec<String>)
    ensures
        string_views(res@) == sorted_descending(string_views(v@)),
{
    let ghost r = descending();
    let ghost input = string_views(v@);
    let mut out: Vec<String> = Vec::new();
    let mut out_chars: Vec<Vec<char>> = Vec::new();
    let mut i: usize = 0;
    assert(string_views(out@) =~= input.take(0));
    while i < v.len()
        invariant
            i <= v.len(),
            input == string_views(v@),
            r == descending(),
            out_chars@.len() == out@.len(),
            forall|k: int| 0 <= k < out@.len() ==> #[trigger] out_chars@[k]@ == out@[k]@,
            sorted_by(string_views(out@), r),
            string_views(out@).to_multiset() == input.take(i as int).to_multiset(),
        decreases v.len() - i,
    {
        let x = v[i].clone();
        let xc = chars_of(x.as_str());
        let mut k: usize = 0;
        while k < out.len() && lex_le_exec(&xc, &out_chars[k])
            invariant
                k <= out.len(),
                xc@ == x@,
                out_chars@.len() == out@.len(),
                forall|q: int| 0 <= q < out@.len() ==> #[trigger] out_chars@[q]@ == out@[q]@,
                forall|q: int| 0 <= q < k ==> lex_le(x@, #[trigger] out@[q]@),
            decreases out.len() - k,
        {
            k = k + 1;
        }
        let ghost old_views = string_views(out@);
        proof {
            if k < out.len() {
                lemma_lex_total(x@, out@[k as int]@);
            }
            assert forall|a: int, b: int|
                0 <= a < b < old_views.len() implies #[trigger] r(old_views[a], old_views[b]) by {
                assert(r(old_views[a], old_views[b]));
            }
        }
        out.insert(k, x);
        out_chars.insert(k, xc);
        let ghost nv = string_views(out@);
        assert(nv =~= old_views.insert(k as int, v@[i as int]@));
        proof {
            assert forall|a: int, b: int| 0 <= a < b < nv.len() implies #[trigger] r(
                nv[a],
                nv[b],
            ) by {
                if b < k {
                    assert(r(old_views[a], old_views[b]));
                } else if b == k {
                    assert(lex_le(v@[i as int]@, old_views[a]));
                } else if a < k {
                    assert(lex_le(v@[i as int]@, old_views[a]));
                    assert(lex_le(old_views[b - 1], v@[i as int]@)) by {
                        if b - 1 > k {
                            assert(r(old_views[k as int], old_views[b - 1]));
                            lemma_lex_transitive(old_views[b - 1], old_views[k as int], v@[i as int]@);
                        }
                    }
                    lemma_lex_transitive(old_views[b - 1], v@[i as int]@, old_views[a]);
                } else if a == k {
                    if b - 1 > k {
                        assert(r(old_views[k as int], old_views[b - 1]));
                        lemma_lex_transitive(old_views[b - 1], old_views[k as int], v@[i as int]@);
                    }
                } else {
                    assert(r(old_views[a - 1], old_views[b - 1]));
                }
            }
            vstd::seq_lib::to_multiset_insert(old_views, k as int, v@[i as int]@);
            vstd::seq_lib::to_multiset_build(input.take(i as int), v@[i as int]@);
            assert(input.take(i + 1) =~= input.take(i as int).push(v@[i as int]@));
            assert forall|q: int| 0 <= q < out@.len() implies #[trigger] out_chars@[q]@ == out@[q]@ by {
                if q < k {
                } else if q > k {
                }
            }
        }
        i = i + 1;
    }
    proof {
        assert(input.take(v.len() as int) =~= input);
        lemma_descending_total();
        input.lemma_sort_by_ensures(r);
        vstd::seq_lib::lemma_sorted_unique(string_views(out@), input.sort_by(r), r);
    }
    out
}

} // verus!

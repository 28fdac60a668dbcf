//! The order of `String` (byte order, which for UTF-8 is code point order),
//! and the sorting that the project list and key index use.
use vstd::prelude::*;
use vstd::relations::{sorted_by, total_ordering};

use crate::keychain::string_views;
use crate::text::chars_of;

verus! {

/// Lexicographic order of character sequences by code point: the order of
/// `String`'s `Ord`.
pub open spec fn chars_le(a: Seq<char>, b: Seq<char>) -> bool
    decreases a.len(),
{
    if a.len() == 0 {
        true
    } else if b.len() == 0 {
        false
    } else if a[0] != b[0] {
        a[0] < b[0]
    } else {
        chars_le(a.drop_first(), b.drop_first())
    }
}

/// Strictly before, in `chars_le` order.
pub open spec fn chars_lt(a: Seq<char>, b: Seq<char>) -> bool {
    chars_le(a, b) && a != b
}

/// `chars_le` as a relation.
pub open spec fn le_rel() -> spec_fn(Seq<char>, Seq<char>) -> bool {
    |a: Seq<char>, b: Seq<char>| chars_le(a, b)
}

/// `chars_lt` as a relation.
pub open spec fn lt_rel() -> spec_fn(Seq<char>, Seq<char>) -> bool {
    |a: Seq<char>, b: Seq<char>| chars_lt(a, b)
}

/// Every sequence sorts no later than itself.
pub proof fn lemma_le_reflexive(a: Seq<char>)
    ensures
        chars_le(a, a),
    decreases a.len(),
{
    if a.len() > 0 {
        lemma_le_reflexive(a.drop_first());
    }
}

/// Two sequences that each sort no later than the other are equal.
pub proof fn lemma_le_antisymmetric(a: Seq<char>, b: Seq<char>)
    requires
        chars_le(a, b),
        chars_le(b, a),
    ensures
        a == b,
    decreases a.len(),
{
    if a.len() == 0 {
        assert(b.len() == 0);
        assert(a =~= b);
    } else {
        assert(b.len() > 0);
        assert(a[0] == b[0]);
        lemma_le_antisymmetric(a.drop_first(), b.drop_first());
        assert(a =~= seq![a[0]] + a.drop_first());
        assert(b =~= seq![b[0]] + b.drop_first());
    }
}

/// The order is transitive.
pub proof fn lemma_le_transitive(a: Seq<char>, b: Seq<char>, c: Seq<char>)
    requires
        chars_le(a, b),
        chars_le(b, c),
    ensures
        chars_le(a, c),
    decreases a.len(),
{
    if a.len() > 0 {
        assert(b.len() > 0);
        assert(c.len() > 0);
        if a[0] == b[0] && b[0] == c[0] {
            lemma_le_transitive(a.drop_first(), b.drop_first(), c.drop_first());
        }
    }
}

/// Any two sequences are ordered one way or the other.
pub proof fn lemma_le_total(a: Seq<char>, b: Seq<char>)
    ensures
        chars_le(a, b) || chars_le(b, a),
    decreases a.len(),
{
    if a.len() > 0 && b.len() > 0 && a[0] == b[0] {
        lemma_le_total(a.drop_first(), b.drop_first());
    }
}

/// `chars_le` is a total order.
pub proof fn lemma_le_total_ordering()
    ensures
        total_ordering(le_rel()),
{
    assert forall|a: Seq<char>| #[trigger] le_rel()(a, a) by {
        lemma_le_reflexive(a);
    }
    assert forall|a: Seq<char>, b: Seq<char>|
        #[trigger] le_rel()(a, b) && #[trigger] le_rel()(b, a) implies a == b by {
        lemma_le_antisymmetric(a, b);
    }
    assert forall|a: Seq<char>, b: Seq<char>, c: Seq<char>|
        #[trigger] le_rel()(a, b) && #[trigger] le_rel()(b, c) implies le_rel()(a, c) by {
        lemma_le_transitive(a, b, c);
    }
    assert forall|a: Seq<char>, b: Seq<char>| #[trigger] le_rel()(a, b) || #[trigger] le_rel()(b, a) by {
        lemma_le_total(a, b);
    }
}

proof fn lemma_le_step(a: Seq<char>, b: Seq<char>, i: int)
    requires
        0 <= i < a.len(),
        i < b.len(),
        a[i] == b[i],
    ensures
        chars_le(a.subrange(i, a.len() as int), b.subrange(i, b.len() as int)) == chars_le(
            a.subrange(i + 1, a.len() as int),
            b.subrange(i + 1, b.len() as int),
        ),
{
    assert(a.subrange(i, a.len() as int).drop_first() =~= a.subrange(i + 1, a.len() as int));
    assert(b.subrange(i, b.len() as int).drop_first() =~= b.subrange(i + 1, b.len() as int));
}

/// Whether `a` sorts no later than `b`.
pub fn le_chars(a: &Vec<char>, b: &Vec<char>) -> (r: bool)
    ensures
        r == chars_le(a@, b@),
{
    let mut i: usize = 0;
    assert(a@.subrange(0, a.len() as int) =~= a@);
    assert(b@.subrange(0, b.len() as int) =~= b@);
    while i < a.len() && i < b.len() && a[i] == b[i]
        invariant
            i <= a.len(),
            i <= b.len(),
            chars_le(a@, b@) == chars_le(
                a@.subrange(i as int, a.len() as int),
                b@.subrange(i as int, b.len() as int),
            ),
        decreases a.len() - i,
    {
        proof {
            lemma_le_step(a@, b@, i as int);
        }
        i += 1;
    }
    if i == a.len() {
        true
    } else if i == b.len() {
        false
    } else {
        assert(a@.subrange(i as int, a.len() as int)[0] == a@[i as int]);
        assert(b@.subrange(i as int, b.len() as int)[0] == b@[i as int]);
        a[i] < b[i]
    }
}

/// Whether `a` sorts no later than `b`.
pub fn le_strings(a: &String, b: &String) -> (r: bool)
    ensures
        r == chars_le(a@, b@),
{
    let x = chars_of(a.as_str());
    let y = chars_of(b.as_str());
    le_chars(&x, &y)
}

proof fn lemma_insert_multiset(s: Seq<Seq<char>>, i: int, x: Seq<char>)
    requires
        0 <= i <= s.len(),
    ensures
        s.insert(i, x).to_multiset() == s.to_multiset().insert(x),
{
    broadcast use vstd::seq_lib::group_to_multiset_ensures;
}

/// The strings sorted in `String` order, as `Vec::sort` leaves them: the
/// result is sorted and holds the same strings, as often.
pub fn sort_strings(v: Vec<String>) -> (r: Vec<String>)
    ensures
        sorted_by(string_views(r@), le_rel()),
        string_views(r@).to_multiset() == string_views(v@).to_multiset(),
{
    proof {
        lemma_le_total_ordering();
    }
    let mut out: Vec<String> = Vec::new();
    let mut i: usize = 0;
    assert(string_views(v@).subrange(0, 0) =~= Seq::<Seq<char>>::empty());
    assert(string_views(out@) =~= Seq::<Seq<char>>::empty());
    while i < v.len()
        invariant
            i <= v.len(),
            total_ordering(le_rel()),
            sorted_by(string_views(out@), le_rel()),
            string_views(out@).to_multiset() == string_views(v@).subrange(0, i as int).to_multiset(),
        decreases v.len() - i,
    {
        let x = v[i].clone();
        let ghost os = string_views(out@);
        let mut pos: usize = 0;
        while pos < out.len() && le_strings(&out[pos], &x)
            invariant
                pos <= out.len(),
                os == string_views(out@),
                forall|t: int| 0 <= t < pos ==> chars_le(#[trigger] os[t], x@),
            decreases out.len() - pos,
        {
            pos += 1;
        }
        let ghost before = out@;
        out.insert(pos, x);
        proof {
            let ns = string_views(out@);
            assert(ns =~= os.insert(pos as int, x@));
            lemma_insert_multiset(os, pos as int, x@);
            let vs = string_views(v@);
            assert(vs.subrange(0, i + 1) =~= vs.subrange(0, i as int).push(x@));
            broadcast use vstd::seq_lib::group_to_multiset_ensures;
            assert forall|a: int, b: int| 0 <= a < b < ns.len() implies #[trigger] le_rel()(
                ns[a],
                ns[b],
            ) by {
                if b < pos {
                    assert(ns[a] == os[a] && ns[b] == os[b]);
                } else if b == pos {
                    assert(ns[a] == os[a]);
                } else if a == pos {
                    // x sorts before os[pos] (the first string after it), which sorts before ns[b]
                    assert(ns[b] == os[b - 1]);
                    assert(!chars_le(os[pos as int], x@));
                    lemma_le_total(os[pos as int], x@);
                    if b - 1 > pos {
                        assert(le_rel()(os[pos as int], os[b - 1]));
                        lemma_le_transitive(x@, os[pos as int], os[b - 1]);
                    }
                } else if a < pos {
                    assert(ns[a] == os[a] && ns[b] == os[b - 1]);
                    assert(le_rel()(os[a], os[b - 1]));
                } else {
                    assert(ns[a] == os[a - 1] && ns[b] == os[b - 1]);
                    assert(le_rel()(os[a - 1], os[b - 1]));
                }
            }
        }
        i += 1;
    }
    assert(string_views(v@).subrange(0, v.len() as int) =~= string_views(v@));
    out
}

/// Adds `x` to a strictly sorted list unless it is there already; the list
/// stays strictly sorted and its set of strings gains `x`.
pub fn insert_unique_sorted(out: &mut Vec<String>, x: &String)
    requires
        sorted_by(string_views(old(out)@), lt_rel()),
    ensures
        sorted_by(string_views(final(out)@), lt_rel()),
        string_views(final(out)@).to_set() == string_views(old(out)@).to_set().insert(x@),
{
    proof {
        lemma_le_total_ordering();
    }
    let ghost os = string_views(out@);
    let mut pos: usize = 0;
    while pos < out.len() && le_strings(&out[pos], x) && !(out[pos] == *x)
        invariant
            pos <= out.len(),
            os == string_views(out@),
            forall|t: int| 0 <= t < pos ==> chars_lt(#[trigger] os[t], x@),
        decreases out.len() - pos,
    {
        pos += 1;
    }
    if pos < out.len() && out[pos] == *x {
        assert(os[pos as int] == x@);
        assert(os.to_set().insert(x@) =~= os.to_set());
        return;
    }
    let y = x.clone();
    out.insert(pos, y);
    proof {
        let ns = string_views(out@);
        assert(ns =~= os.insert(pos as int, x@));
        if pos < os.len() {
            assert(!chars_le(os[pos as int], x@) || os[pos as int] == x@);
            assert(os[pos as int] != x@);
            lemma_le_total(os[pos as int], x@);
            assert(chars_lt(x@, os[pos as int]));
        }
        assert forall|a: int, b: int| 0 <= a < b < ns.len() implies #[trigger] lt_rel()(
            ns[a],
            ns[b],
        ) by {
            if b < pos {
                assert(ns[a] == os[a] && ns[b] == os[b]);
            } else if b == pos {
                assert(ns[a] == os[a]);
            } else if a == pos {
                assert(ns[b] == os[b - 1]);
                if b - 1 > pos {
                    assert(lt_rel()(os[pos as int], os[b - 1]));
                    lemma_le_transitive(x@, os[pos as int], os[b - 1]);
                    if x@ == os[b - 1] {
                        lemma_le_antisymmetric(x@, os[pos as int]);
                    }
                }
            } else if a < pos {
                assert(ns[a] == os[a] && ns[b] == os[b - 1]);
                assert(lt_rel()(os[a], os[b - 1]));
            } else {
                assert(ns[a] == os[a - 1] && ns[b] == os[b - 1]);
                assert(lt_rel()(os[a - 1], os[b - 1]));
            }
        }
        assert forall|s: Seq<char>| ns.to_set().contains(s) <==> os.to_set().insert(x@).contains(s) by {
            if ns.contains(s) {
                let t = choose|t: int| 0 <= t < ns.len() && ns[t] == s;
                if t < pos {
                    assert(os[t] == s);
                } else if t > pos {
                    assert(os[t - 1] == s);
                }
            }
            if os.contains(s) {
                let t = choose|t: int| 0 <= t < os.len() && os[t] == s;
                if t < pos {
                    assert(ns[t] == s);
                } else {
                    assert(ns[t + 1] == s);
                }
            }
            if s == x@ {
                assert(ns[pos as int] == s);
            }
        }
        assert(ns.to_set() =~= os.to_set().insert(x@));
    }
}

/// A strictly sorted list is fixed by its set of strings: two strictly
/// sorted lists that hold the same strings are equal.
pub proof fn lemma_strictly_sorted_unique(a: Seq<Seq<char>>, b: Seq<Seq<char>>)
    requires
        sorted_by(a, lt_rel()),
        sorted_by(b, lt_rel()),
        a.to_set() == b.to_set(),
    ensures
        a == b,
    decreases a.len(),
{
    if a.len() == 0 {
        if b.len() > 0 {
            assert(b.to_set().contains(b[0]));
        }
        assert(a =~= b);
    } else {
        assert(a.to_set().contains(a[0]));
        assert(b.len() > 0);
        assert(b.to_set().contains(b[0]));
        let j = choose|j: int| 0 <= j < b.len() && b[j] == a[0];
        let i = choose|i: int| 0 <= i < a.len() && a[i] == b[0];
        if j > 0 {
            assert(lt_rel()(b[0], b[j]));
            if i > 0 {
                assert(lt_rel()(a[0], a[i]));
                lemma_le_antisymmetric(a[0], b[0]);
            }
        }
        assert(a[0] == b[0]);
        let ar = a.drop_first();
        let br = b.drop_first();
        assert(sorted_by(ar, lt_rel())) by {
            assert forall|x: int, y: int| 0 <= x < y < ar.len() implies #[trigger] lt_rel()(ar[x], ar[y]) by {
                assert(ar[x] == a[x + 1] && ar[y] == a[y + 1]);
            }
        }
        assert(sorted_by(br, lt_rel())) by {
            assert forall|x: int, y: int| 0 <= x < y < br.len() implies #[trigger] lt_rel()(br[x], br[y]) by {
                assert(br[x] == b[x + 1] && br[y] == b[y + 1]);
            }
        }
        assert forall|s: Seq<char>| ar.to_set().contains(s) <==> br.to_set().contains(s) by {
            if ar.contains(s) {
                let t = choose|t: int| 0 <= t < ar.len() && ar[t] == s;
                assert(a[t + 1] == s);
                assert(lt_rel()(a[0], a[t + 1]));
                assert(a.to_set().contains(s));
                let u = choose|u: int| 0 <= u < b.len() && b[u] == s;
                if u == 0 {
                    assert(s == a[0]);
                } else {
                    assert(br[u - 1] == s);
                }
            }
            if br.contains(s) {
                let t = choose|t: int| 0 <= t < br.len() && br[t] == s;
                assert(b[t + 1] == s);
                assert(lt_rel()(b[0], b[t + 1]));
                assert(b.to_set().contains(s));
                let u = choose|u: int| 0 <= u < a.len() && a[u] == s;
                if u == 0 {
                    assert(s == b[0]);
                } else {
                    assert(ar[u - 1] == s);
                }
            }
        }
        assert(ar.to_set() =~= br.to_set());
        lemma_strictly_sorted_unique(ar, br);
        assert(a =~= seq![a[0]] + ar);
        assert(b =~= seq![b[0]] + br);
    }
}

} // verus!

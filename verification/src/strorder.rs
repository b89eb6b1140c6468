//! Lexicographic order on strings, and sorted deduplicated sequences.
//!
//! Monitor identifiers are opaque string tokens whose order is
//! lexicographic comparison of their characters.  Slot positions depend
//! on that order, so it is pinned down here once: `lex_le` is the
//! mathematical order, `str_le` the verified executable comparison, and
//! `canonicalize` produces the sorted, deduplicated sequence that every
//! topology snapshot carries.

use vstd::prelude::*;
use vstd::string::*;

verus! {

/// Lexicographic "less or equal" on character sequences, ordering
/// characters by their scalar value.
pub open spec fn lex_le(a: Seq<char>, b: Seq<char>) -> bool
    decreases a.len(),
{
    if a.len() == 0 {
        true
    } else if b.len() == 0 {
        false
    } else if (a[0] as u32) < (b[0] as u32) {
        true
    } else if (a[0] as u32) > (b[0] as u32) {
        false
    } else {
        lex_le(a.skip(1), b.skip(1))
    }
}

/// Strict lexicographic order.
pub open spec fn lex_lt(a: Seq<char>, b: Seq<char>) -> bool {
    lex_le(a, b) && a != b
}

/// The order is total: two strings always compare one way or the other.
pub proof fn lemma_lex_total(a: Seq<char>, b: Seq<char>)
    ensures
        lex_le(a, b) || lex_le(b, a),
    decreases a.len(),
{
    if a.len() == 0 {
        assert(lex_le(a, b));
    } else if b.len() == 0 {
        assert(lex_le(b, a));
    } else if (a[0] as u32) < (b[0] as u32) {
        assert(lex_le(a, b));
    } else if (a[0] as u32) > (b[0] as u32) {
        assert(lex_le(b, a));
    } else {
        lemma_lex_total(a.skip(1), b.skip(1));
        assert(lex_le(a, b) == lex_le(a.skip(1), b.skip(1)));
        assert(lex_le(b, a) == lex_le(b.skip(1), a.skip(1)));
    }
}

/// The order is antisymmetric: strings that compare both ways are equal.
pub proof fn lemma_lex_antisym(a: Seq<char>, b: Seq<char>)
    requires
        lex_le(a, b),
        lex_le(b, a),
    ensures
        a == b,
    decreases a.len(),
{
    if a.len() == 0 {
        assert(b.len() == 0);
        assert(a =~= b);
    } else {
        if b.len() == 0 {
            assert(!lex_le(a, b));
        }
        assert(b.len() > 0);
        if (a[0] as u32) < (b[0] as u32) {
            assert(!lex_le(b, a));
        } else if (a[0] as u32) > (b[0] as u32) {
            assert(!lex_le(a, b));
        }
        assert(a[0] as u32 == b[0] as u32);
        vstd::utf8::char_u32_cast(a[0], a[0] as u32);
        vstd::utf8::char_u32_cast(b[0], a[0] as u32);
        assert(a[0] == b[0]);
        assert(lex_le(a, b) == lex_le(a.skip(1), b.skip(1)));
        assert(lex_le(b, a) == lex_le(b.skip(1), a.skip(1)));
        lemma_lex_antisym(a.skip(1), b.skip(1));
        assert(a =~= b) by {
            assert(forall|i: int|
                1 <= i < a.len() ==> a[i] == a.skip(1)[i - 1] && b[i] == b.skip(1)[i - 1]);
        }
    }
}

/// The order is transitive.
pub proof fn lemma_lex_trans(a: Seq<char>, b: Seq<char>, c: Seq<char>)
    requires
        lex_le(a, b),
        lex_le(b, c),
    ensures
        lex_le(a, c),
    decreases a.len(),
{
    if a.len() == 0 {
        assert(lex_le(a, c));
    } else {
        if b.len() == 0 {
            assert(!lex_le(a, b));
        }
        if c.len() == 0 {
            assert(!lex_le(b, c));
        }
        assert(b.len() > 0 && c.len() > 0);
        if (a[0] as u32) > (b[0] as u32) {
            assert(!lex_le(a, b));
        }
        if (b[0] as u32) > (c[0] as u32) {
            assert(!lex_le(b, c));
        }
        assert((a[0] as u32) <= (b[0] as u32) <= (c[0] as u32));
        if (a[0] as u32) < (c[0] as u32) {
            assert(lex_le(a, c));
        } else {
            assert(a[0] as u32 == b[0] as u32 && b[0] as u32 == c[0] as u32);
            vstd::utf8::char_u32_cast(a[0], a[0] as u32);
            vstd::utf8::char_u32_cast(b[0], a[0] as u32);
            vstd::utf8::char_u32_cast(c[0], a[0] as u32);
            assert(a[0] == b[0] && b[0] == c[0]);
            assert(lex_le(a, b) == lex_le(a.skip(1), b.skip(1)));
            assert(lex_le(b, c) == lex_le(b.skip(1), c.skip(1)));
            lemma_lex_trans(a.skip(1), b.skip(1), c.skip(1));
            assert(lex_le(a, c) == lex_le(a.skip(1), c.skip(1)));
        }
    }
}

/// Verified lexicographic comparison of two strings.
pub fn str_le(a: &str, b: &str) -> (r: bool)
    ensures
        r == lex_le(a@, b@),
{
    let alen = a.unicode_len();
    let blen = b.unicode_len();
    let mut i: usize = 0;
    proof {
        assert(a@.skip(0) =~= a@);
        assert(b@.skip(0) =~= b@);
    }
    loop
        invariant
            i <= alen,
            i <= blen,
            alen == a@.len(),
            blen == b@.len(),
            lex_le(a@, b@) == lex_le(a@.skip(i as int), b@.skip(i as int)),
        decreases alen - i,
    {
        if i == alen {
            assert(a@.skip(i as int).len() == 0);
            return true;
        }
        if i == blen {
            assert(b@.skip(i as int).len() == 0);
            assert(a@.skip(i as int).len() > 0);
            return false;
        }
        let ca = a.get_char(i);
        let cb = b.get_char(i);
        assert(a@.skip(i as int)[0] == a@[i as int]);
        assert(b@.skip(i as int)[0] == b@[i as int]);
        if (ca as u32) < (cb as u32) {
            return true;
        }
        if (ca as u32) > (cb as u32) {
            return false;
        }
        proof {
            assert(a@.skip(i as int).skip(1) =~= a@.skip(i + 1));
            assert(b@.skip(i as int).skip(1) =~= b@.skip(i + 1));
        }
        i = i + 1;
    }
}

/// The views of a sequence of strings.
pub open spec fn views(v: Seq<String>) -> Seq<Seq<char>> {
    v.map_values(|s: String| s@)
}

/// Strictly ascending in lexicographic order; such a sequence holds each
/// value at most once, since `lex_lt` values differ.
pub open spec fn strictly_sorted(s: Seq<Seq<char>>) -> bool {
    forall|i: int, j: int| 0 <= i < j < s.len() ==> lex_lt(s[i], s[j])
}

/// Position where a value would be inserted: the first index whose entry
/// is not below `s`.
fn lower_bound(r: &Vec<String>, s: &String) -> (j: usize)
    requires
        strictly_sorted(views(r@)),
    ensures
        j <= r@.len(),
        forall|k: int| 0 <= k < j ==> lex_lt(#[trigger] r@[k]@, s@),
        j < r@.len() ==> lex_le(s@, r@[j as int]@),
{
    let n = r.len();
    let mut j: usize = 0;
    while j < n
        invariant
            n == r@.len(),
            j <= n,
            forall|k: int| 0 <= k < j ==> lex_lt(#[trigger] r@[k]@, s@),
        decreases n - j,
    {
        if str_le(s.as_str(), r[j].as_str()) {
            return j;
        }
        proof {
            lemma_lex_total(s@, r@[j as int]@);
        }
        j = j + 1;
    }
    j
}

/// The set of character sequences that appear as the view of some
/// element: membership of a value among a vector of strings.
pub open spec fn has_view(v: Seq<String>, x: Seq<char>) -> bool {
    exists|i: int| 0 <= i < v.len() && v[i]@ == x
}

/// Every element's view is a member.
pub proof fn lemma_has_view_index(v: Seq<String>, i: int)
    requires
        0 <= i < v.len(),
    ensures
        has_view(v, v[i]@),
{
    assert(0 <= i < v.len() && v[i]@ == v[i]@);
}

/// Appending an element grows the membership by exactly its view.
pub proof fn lemma_has_view_push(v: Seq<String>, s: String)
    ensures
        forall|x: Seq<char>| #[trigger] has_view(v.push(s), x) <==> has_view(v, x) || x == s@,
{
    let w = v.push(s);
    assert forall|x: Seq<char>| #[trigger] has_view(w, x) <==> has_view(v, x) || x == s@ by {
        if has_view(w, x) {
            let i = choose|i: int| 0 <= i < w.len() && w[i]@ == x;
            if i < v.len() {
                assert(v[i]@ == x);
                lemma_has_view_index(v, i);
            } else {
                assert(w[v.len() as int]@ == s@);
            }
        }
        if has_view(v, x) {
            let i = choose|i: int| 0 <= i < v.len() && v[i]@ == x;
            assert(w[i]@ == x);
            lemma_has_view_index(w, i);
        }
        if x == s@ {
            assert(w[v.len() as int]@ == x);
            lemma_has_view_index(w, v.len() as int);
        }
    }
}

/// Insert a string into a strictly sorted vector, keeping it strictly
/// sorted; a value already present is not inserted again.
fn insert_sorted(r: &mut Vec<String>, s: &String)
    requires
        strictly_sorted(views(old(r)@)),
    ensures
        strictly_sorted(views(final(r)@)),
        forall|x: Seq<char>|
            #[trigger] has_view(final(r)@, x) <==> has_view(old(r)@, x) || x == s@,
{
    let n = r.len();
    let j = lower_bound(r, s);
    if j < n && str_le(r[j].as_str(), s.as_str()) {
        // both comparisons hold, so the value is already present
        proof {
            lemma_lex_antisym(s@, r@[j as int]@);
            assert(r@[j as int]@ == s@);
            lemma_has_view_index(r@, j as int);
            assert(has_view(r@, s@));
        }
        return;
    }
    proof {
        if j < n {
            assert(lex_le(s@, r@[j as int]@));
            lemma_lex_total(r@[j as int]@, s@);
            assert(s@ != r@[j as int]@);
        }
    }
    let ghost ov = views(r@);
    let ghost oldr = r@;
    let ghost jj = j as int;
    r.insert(j, s.clone());
    proof {
        let rv = views(r@);
        assert(rv =~= ov.insert(jj, s@));
        assert forall|x: int, y: int| 0 <= x < y < rv.len() implies lex_lt(rv[x], rv[y]) by {
            if y < jj {
                assert(lex_lt(ov[x], ov[y]));
            } else if x > jj {
                assert(lex_lt(ov[x - 1], ov[y - 1]));
            } else if x < jj && y == jj {
                assert(lex_lt(ov[x], s@));
            } else if x == jj {
                // rv[y] == ov[y - 1] with y - 1 >= jj
                if y - 1 == jj {
                    assert(lex_lt(s@, ov[jj]));
                } else {
                    assert(lex_lt(s@, ov[jj]));
                    assert(lex_lt(ov[jj], ov[y - 1]));
                    lemma_lex_trans(s@, ov[jj], ov[y - 1]);
                    if s@ == ov[y - 1] {
                        lemma_lex_antisym(s@, ov[jj]);
                    }
                }
            } else {
                // x < jj < y
                assert(lex_lt(ov[x], s@));
                if y - 1 == jj {
                    assert(lex_lt(s@, ov[jj]));
                    lemma_lex_trans(ov[x], s@, ov[jj]);
                    if ov[x] == ov[jj] {
                        lemma_lex_antisym(ov[x], s@);
                        assert(false);
                    }
                } else {
                    assert(lex_lt(ov[jj], ov[y - 1]));
                    assert(lex_lt(s@, ov[jj]));
                    lemma_lex_trans(ov[x], s@, ov[jj]);
                    lemma_lex_trans(ov[x], ov[jj], ov[y - 1]);
                    if ov[x] == ov[y - 1] {
                        lemma_lex_antisym(ov[x], ov[jj]);
                        assert(false);
                    }
                }
            }
        }
        assert(r@[jj]@ == s@);
        assert forall|x: Seq<char>|
            #[trigger] has_view(r@, x) <==> has_view(oldr, x) || x == s@ by {
            if has_view(r@, x) {
                let i = choose|i: int| 0 <= i < r@.len() && r@[i]@ == x;
                if i == jj {
                    assert(x == s@);
                } else if i < jj {
                    assert(oldr[i]@ == x);
                    lemma_has_view_index(oldr, i);
                } else {
                    assert(oldr[i - 1]@ == x);
                    lemma_has_view_index(oldr, i - 1);
                }
            }
            if has_view(oldr, x) {
                let q = choose|q: int| 0 <= q < oldr.len() && oldr[q]@ == x;
                if q < jj {
                    assert(r@[q]@ == x);
                    lemma_has_view_index(r@, q);
                } else {
                    assert(r@[q + 1]@ == x);
                    lemma_has_view_index(r@, q + 1);
                }
            }
            if x == s@ {
                lemma_has_view_index(r@, jj);
            }
        }
    }
}

/// Consuming one more input value grows the membership of the consumed
/// prefix by exactly that value.
proof fn lemma_prefix_grow(v: Seq<String>, k: int)
    requires
        0 <= k < v.len(),
    ensures
        forall|x: Seq<char>|
            #[trigger] has_view(v.subrange(0, k + 1), x) <==> has_view(
                v.subrange(0, k),
                x,
            ) || x == v[k]@,
{
    let pre = v.subrange(0, k);
    let ext = v.subrange(0, k + 1);
    assert forall|x: Seq<char>|
        #[trigger] has_view(ext, x) <==> has_view(pre, x) || x == v[k]@ by {
        if has_view(ext, x) {
            let i = choose|i: int| 0 <= i < ext.len() && ext[i]@ == x;
            if i < k {
                assert(pre[i]@ == x);
                lemma_has_view_index(pre, i);
            } else {
                assert(ext[k]@ == v[k]@);
            }
        }
        if has_view(pre, x) {
            let i = choose|i: int| 0 <= i < pre.len() && pre[i]@ == x;
            assert(ext[i]@ == x);
            lemma_has_view_index(ext, i);
        }
        if x == v[k]@ {
            assert(ext[k]@ == x);
            lemma_has_view_index(ext, k);
        }
    }
}

/// Sort the strings and drop duplicates: the canonical form of a set of
/// string tokens.  The result is the unique strictly ascending sequence
/// holding exactly the values of the input.
pub fn canonicalize(v: &Vec<String>) -> (r: Vec<String>)
    ensures
        strictly_sorted(views(r@)),
        forall|x: Seq<char>| #[trigger] has_view(r@, x) <==> has_view(v@, x),
{
    let mut r: Vec<String> = Vec::new();
    let n = v.len();
    let mut k: usize = 0;
    proof {
        assert(v@.subrange(0, 0).len() == 0);
    }
    while k < n
        invariant
            n == v@.len(),
            k <= n,
            strictly_sorted(views(r@)),
            forall|x: Seq<char>|
                #[trigger] has_view(r@, x) <==> has_view(v@.subrange(0, k as int), x),
        decreases n - k,
    {
        let ghost prev = r@;
        insert_sorted(&mut r, &v[k]);
        proof {
            lemma_prefix_grow(v@, k as int);
        }
        k = k + 1;
    }
    proof {
        assert(v@.subrange(0, n as int) =~= v@);
    }
    r
}

} // verus!

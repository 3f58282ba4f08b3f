//! Verified string utilities over character sequences: lexicographic order,
//! separator-joined layer lists, and component-wise path prefixes.

use vstd::prelude::*;

verus! {

// ----- lexicographic order on character sequences -----

/// `a` is lexicographically at or before `b`, comparing code points.
pub open spec fn lex_le(a: Seq<char>, b: Seq<char>) -> bool
    decreases a.len(),
{
    if a.len() == 0 {
        true
    } else if b.len() == 0 {
        false
    } else if a[0] < b[0] {
        true
    } else if b[0] < a[0] {
        false
    } else {
        lex_le(a.skip(1), b.skip(1))
    }
}

/// Strict lexicographic order.
pub open spec fn lex_lt(a: Seq<char>, b: Seq<char>) -> bool {
    lex_le(a, b) && a != b
}

/// The order is total.
pub proof fn lemma_lex_le_total(a: Seq<char>, b: Seq<char>)
    ensures
        lex_le(a, b) || lex_le(b, a),
    decreases a.len(),
{
    if a.len() == 0 || b.len() == 0 {
    } else if a[0] < b[0] || b[0] < a[0] {
    } else {
        lemma_lex_le_total(a.skip(1), b.skip(1));
    }
}

/// The order is antisymmetric.
pub proof fn lemma_lex_le_antisym(a: Seq<char>, b: Seq<char>)
    requires
        lex_le(a, b),
        lex_le(b, a),
    ensures
        a == b,
    decreases a.len(),
{
    if a.len() == 0 {
        assert(b.len() == 0);
        assert(a =~= b);
    } else {
        assert(b.len() != 0);
        assert(a[0] == b[0]);
        lemma_lex_le_antisym(a.skip(1), b.skip(1));
        assert(a =~= b) by {
            assert(forall|i: int|
                1 <= i < a.len() ==> a[i] == a.skip(1)[i - 1] && b[i] == b.skip(1)[i - 1]);
        }
    }
}

/// The order is transitive.
pub proof fn lemma_lex_le_trans(a: Seq<char>, b: Seq<char>, c: Seq<char>)
    requires
        lex_le(a, b),
        lex_le(b, c),
    ensures
        lex_le(a, c),
    decreases a.len(),
{
    if a.len() == 0 {
    } else {
        assert(b.len() != 0);
        assert(c.len() != 0);
        if a[0] < b[0] {
        } else {
            assert(a[0] == b[0]);
            if b[0] < c[0] {
            } else {
                assert(b[0] == c[0]);
                lemma_lex_le_trans(a.skip(1), b.skip(1), c.skip(1));
            }
        }
    }
}

/// Executable lexicographic comparison of two strings.
pub fn str_lex_le(a: &str, b: &str) -> (r: bool)
    ensures
        r == lex_le(a@, b@),
    decreases a@.len(),
{
    let alen = a.unicode_len();
    let blen = b.unicode_len();
    if alen == 0 {
        true
    } else if blen == 0 {
        false
    } else {
        let ca = a.get_char(0);
        let cb = b.get_char(0);
        if ca < cb {
            true
        } else if cb < ca {
            false
        } else {
            str_lex_le(a.substring_char(1, alen), b.substring_char(1, blen))
        }
    }
}

// ----- separator joins for overlay layer configuration -----

/// Every part in order, each followed by the separator.
pub open spec fn flat_sep(parts: Seq<Seq<char>>, sep: Seq<char>) -> Seq<char>
    decreases parts.len(),
{
    if parts.len() == 0 {
        Seq::empty()
    } else {
        flat_sep(parts.drop_last(), sep) + parts.last() + sep
    }
}

/// The parts in order, separated, with `last` as the final element.
pub open spec fn join_last(parts: Seq<Seq<char>>, last: Seq<char>, sep: Seq<char>) -> Seq<char> {
    flat_sep(parts, sep) + last
}

/// Joins the given parts in order, then `last`, separated by `sep`.
pub fn join_with_last(parts: &Vec<String>, last: &str, sep: &str) -> (r: String)
    ensures
        r@ == join_last(parts.deep_view(), last@, sep@),
{
    let ghost dv = parts.deep_view();
    let mut s = String::new();
    let mut i: usize = 0;
    while i < parts.len()
        invariant
            i <= parts.len(),
            dv == parts.deep_view(),
            dv.len() == parts@.len(),
            s@ == flat_sep(dv.take(i as int), sep@),
        decreases parts.len() - i,
    {
        s.append(parts[i].as_str());
        s.append(sep);
        proof {
            assert(dv.take(i + 1).drop_last() =~= dv.take(i as int));
            assert(dv.take(i + 1).last() == dv[i as int]);
        }
        i += 1;
    }
    proof {
        assert(dv.take(parts@.len() as int) =~= dv);
    }
    s.append(last);
    s
}

// ----- component-wise path prefixes -----

/// `q` lies at or beneath `p` in the path tree: `p` is a whole-component
/// prefix of `q`. The filesystem root is a prefix of every absolute path.
/// Paths are taken slash-normalized, without a trailing separator.
pub open spec fn path_starts_with(q: Seq<char>, p: Seq<char>) -> bool {
    if p == seq!['/'] {
        q.len() >= 1 && q[0] == '/'
    } else {
        p.len() <= q.len() && q.subrange(0, p.len() as int) == p && (q.len() == p.len()
            || q[p.len() as int] == '/')
    }
}

/// Every path lies at or beneath itself.
pub proof fn lemma_path_starts_with_refl(p: Seq<char>)
    ensures
        path_starts_with(p, p),
{
    if p == seq!['/'] {
    } else {
        assert(p.subrange(0, p.len() as int) =~= p);
    }
}

/// Executable component-wise prefix test.
pub fn str_path_starts_with(q: &str, p: &str) -> (r: bool)
    ensures
        r == path_starts_with(q@, p@),
{
    let plen = p.unicode_len();
    let qlen = q.unicode_len();
    if plen == 1 && p.get_char(0) == '/' {
        proof {
            assert(p@ =~= seq!['/']);
        }
        if qlen >= 1 {
            let c = q.get_char(0);
            c == '/'
        } else {
            false
        }
    } else {
        proof {
            assert(p@ != seq!['/']) by {
                if p@ == seq!['/'] {
                    assert(p@.len() == 1 && p@[0] == '/');
                }
            }
        }
        if plen > qlen {
            return false;
        }
        let mut i: usize = 0;
        while i < plen
            invariant
                i <= plen,
                plen <= qlen,
                plen == p@.len(),
                qlen == q@.len(),
                p@ != seq!['/'],
                forall|j: int| 0 <= j < i ==> q@[j] == p@[j],
            decreases plen - i,
        {
            if q.get_char(i) != p.get_char(i) {
                proof {
                    assert(q@.subrange(0, plen as int)[i as int] != p@[i as int]);
                }
                return false;
            }
            i += 1;
        }
        proof {
            assert(q@.subrange(0, plen as int) =~= p@);
        }
        if qlen == plen {
            true
        } else {
            let c = q.get_char(plen);
            c == '/'
        }
    }
}

/// Appends `b` to a copy of `a`.
pub fn str_concat(a: &str, b: &str) -> (r: String)
    ensures
        r@ == a@ + b@,
{
    let mut s = String::from_str(a);
    s.append(b);
    s
}

// ----- sorted, duplicate-free path lists -----

/// The strict order is transitive.
pub proof fn lemma_lex_lt_trans(a: Seq<char>, b: Seq<char>, c: Seq<char>)
    requires
        lex_lt(a, b),
        lex_lt(b, c),
    ensures
        lex_lt(a, c),
{
    lemma_lex_le_trans(a, b, c);
    if a == c {
        lemma_lex_le_antisym(a, b);
    }
}

/// Strictly ascending lexicographic order: sorted with no duplicates.
pub open spec fn sorted_strict(s: Seq<Seq<char>>) -> bool {
    forall|i: int, j: int| 0 <= i < j < s.len() ==> lex_lt(s[i], s[j])
}

/// Inserts `x` into a strictly sorted vector at its ordered position,
/// unless an equal element is already present.
pub fn insert_sorted_unique(v: &mut Vec<String>, x: String)
    requires
        sorted_strict(old(v).deep_view()),
    ensures
        sorted_strict(final(v).deep_view()),
        forall|s: Seq<char>|
            final(v).deep_view().contains(s) <==> (old(v).deep_view().contains(s) || s == x@),
{
    let ghost dv0 = v.deep_view();
    let mut idx: usize = 0;
    let mut place_found = false;
    while idx < v.len() && !place_found
        invariant
            idx <= v.len(),
            dv0 == v.deep_view(),
            dv0.len() == v@.len(),
            sorted_strict(dv0),
            forall|j: int| 0 <= j < idx ==> lex_lt(#[trigger] dv0[j], x@),
            place_found ==> idx < v.len() && lex_lt(x@, dv0[idx as int]),
        decreases v.len() - idx + (if place_found { 0int } else { 1int }),
    {
        if v[idx] == x {
            proof {
                assert(dv0.contains(x@)) by {
                    assert(dv0[idx as int] == x@);
                }
            }
            return ;
        }
        let le = str_lex_le(v[idx].as_str(), x.as_str());
        if le {
            idx += 1;
        } else {
            proof {
                lemma_lex_le_total(dv0[idx as int], x@);
            }
            place_found = true;
        }
    }
    proof {
        if idx < v@.len() {
            assert(lex_lt(x@, dv0[idx as int]));
        }
    }
    let ghost xs = x@;
    v.insert(idx, x);
    proof {
        let dv1 = v.deep_view();
        assert(dv1 =~= dv0.take(idx as int) + seq![xs] + dv0.skip(idx as int)) by {
            assert(v@ == old(v)@.insert(idx as int, x));
            assert forall|k: int| 0 <= k < dv1.len() implies dv1[k] == (dv0.take(idx as int)
                + seq![xs] + dv0.skip(idx as int))[k] by {
                if k < idx {
                    assert(v@[k] == old(v)@[k]);
                } else if k == idx {
                    assert(v@[k] == x);
                } else {
                    assert(v@[k] == old(v)@[k - 1]);
                }
            }
        }
        assert forall|i: int, j: int| 0 <= i < j < dv1.len() implies lex_lt(dv1[i], dv1[j]) by {
            if j < idx {
            } else if i < idx && j == idx {
                assert(lex_lt(dv0[i], xs));
            } else if i < idx && j > idx {
                assert(lex_lt(dv0[i], xs));
                if j - 1 == idx {
                    assert(lex_lt(xs, dv0[j - 1]));
                } else {
                    assert(lex_lt(dv0[idx as int], dv0[j - 1]));
                    lemma_lex_lt_trans(xs, dv0[idx as int], dv0[j - 1]);
                }
                lemma_lex_lt_trans(dv0[i], xs, dv0[j - 1]);
            } else if i == idx {
                assert(j > idx);
                if j - 1 == idx {
                    assert(lex_lt(xs, dv0[j - 1]));
                } else {
                    assert(lex_lt(dv0[idx as int], dv0[j - 1]));
                    lemma_lex_lt_trans(xs, dv0[idx as int], dv0[j - 1]);
                }
            } else {
                assert(lex_lt(dv0[i - 1], dv0[j - 1]));
            }
        }
        assert forall|s: Seq<char>|
            dv1.contains(s) <==> (dv0.contains(s) || s == xs) by {
            if dv1.contains(s) {
                let k = choose|k: int| 0 <= k < dv1.len() && dv1[k] == s;
                if k < idx {
                    assert(dv0[k] == s);
                } else if k == idx {
                } else {
                    assert(dv0[k - 1] == s);
                }
            }
            if dv0.contains(s) {
                let k = choose|k: int| 0 <= k < dv0.len() && dv0[k] == s;
                if k < idx {
                    assert(dv1[k] == s);
                } else {
                    assert(dv1[k + 1] == s);
                }
            }
            if s == xs {
                assert(dv1[idx as int] == s);
            }
        }
    }
}

/// Sorts the given paths lexicographically and removes duplicates:
/// the result is strictly ascending and holds exactly the given elements.
pub fn sort_dedup(items: Vec<String>) -> (r: Vec<String>)
    ensures
        sorted_strict(r.deep_view()),
        forall|s: Seq<char>| r.deep_view().contains(s) <==> items.deep_view().contains(s),
{
    let ghost src = items.deep_view();
    let mut out: Vec<String> = Vec::new();
    let mut items = items;
    proof {
        assert(out.deep_view() =~= Seq::<Seq<char>>::empty());
    }
    let mut i: usize = 0;
    while i < items.len()
        invariant
            i <= items.len(),
            src == items.deep_view(),
            src.len() == items@.len(),
            sorted_strict(out.deep_view()),
            forall|s: Seq<char>|
                out.deep_view().contains(s) <==> src.take(i as int).contains(s),
        decreases items.len() - i,
    {
        let ghost before = out.deep_view();
        let x = items[i].clone();
        proof {
            assert(x@ == src[i as int]);
        }
        insert_sorted_unique(&mut out, x);
        proof {
            assert forall|s: Seq<char>|
                out.deep_view().contains(s) <==> src.take(i + 1).contains(s) by {
                assert(src.take(i + 1).drop_last() =~= src.take(i as int));
                if src.take(i + 1).contains(s) {
                    let k = choose|k: int| 0 <= k < i + 1 && #[trigger] src.take(i + 1)[k] == s;
                    if k < i {
                        assert(src.take(i as int)[k] == s);
                    } else {
                        assert(s == src[i as int]);
                    }
                }
                if src.take(i as int).contains(s) {
                    let k = choose|k: int| 0 <= k < i && src.take(i as int)[k] == s;
                    assert(src.take(i + 1)[k] == s);
                }
                if s == src[i as int] {
                    assert(src.take(i + 1)[i as int] == s);
                }
            }
        }
        i += 1;
    }
    proof {
        assert(src.take(items@.len() as int) =~= src);
    }
    out
}

} // verus!

//! The order of strings (`String`'s `Ord`: code point by code point, a proper
//! prefix first), and sorting by it.

use vstd::prelude::*;
use vstd::relations::{sorted_by, total_ordering};
use crate::text::strings_view;
use crate::langid::{lang_identity, normalize_lang};
use crate::text::{chars_eq, chars_of};

verus! {

broadcast use vstd::seq_lib::group_to_multiset_ensures;

/// `a` comes strictly before `b`.
pub open spec fn lex_lt(a: Seq<char>, b: Seq<char>) -> bool
    decreases a.len(),
{
    if a.len() == 0 {
        b.len() > 0
    } else if b.len() == 0 {
        false
    } else if a[0] != b[0] {
        (a[0] as int) < (b[0] as int)
    } else {
        lex_lt(a.drop_first(), b.drop_first())
    }
}

/// `a` comes no later than `b`.
pub open spec fn lex_le(a: Seq<char>, b: Seq<char>) -> bool {
    a == b || lex_lt(a, b)
}

/// The order of strings, as a relation.
pub open spec fn text_leq() -> spec_fn(Seq<char>, Seq<char>) -> bool {
    |a: Seq<char>, b: Seq<char>| lex_le(a, b)
}

pub proof fn lemma_lex_irrefl(a: Seq<char>)
    ensures
        !lex_lt(a, a),
    decreases a.len(),
{
    if a.len() > 0 {
        lemma_lex_irrefl(a.drop_first());
    }
}

pub proof fn lemma_lex_trans(a: Seq<char>, b: Seq<char>, c: Seq<char>)
    requires
        lex_lt(a, b),
        lex_lt(b, c),
    ensures
        lex_lt(a, c),
    decreases a.len(),
{
    if a.len() > 0 && b.len() > 0 && c.len() > 0 && a[0] == b[0] && b[0] == c[0] {
        lemma_lex_trans(a.drop_first(), b.drop_first(), c.drop_first());
    }
}

pub proof fn lemma_lex_total(a: Seq<char>, b: Seq<char>)
    ensures
        a == b || lex_lt(a, b) || lex_lt(b, a),
    decreases a.len(),
{
    if a.len() > 0 && b.len() > 0 && a[0] == b[0] {
        lemma_lex_total(a.drop_first(), b.drop_first());
        if a.drop_first() == b.drop_first() {
            assert(a =~= b) by {
                assert(a == seq![a[0]] + a.drop_first());
                assert(b == seq![b[0]] + b.drop_first());
            }
        }
    } else if a.len() == 0 && b.len() == 0 {
        assert(a =~= b);
    } else if a.len() > 0 && b.len() > 0 {
        assert((a[0] as int) != (b[0] as int));
    }
}

pub proof fn lemma_lex_asym(a: Seq<char>, b: Seq<char>)
    requires
        lex_lt(a, b),
    ensures
        !lex_lt(b, a),
{
    if lex_lt(b, a) {
        lemma_lex_trans(a, b, a);
        lemma_lex_irrefl(a);
    }
}

/// The order of strings is a total order.
pub proof fn lemma_text_order()
    ensures
        total_ordering(text_leq()),
{
    let r = text_leq();
    assert forall|x: Seq<char>, y: Seq<char>| #[trigger] r(x, y) && r(y, x) implies x == y by {
        if x != y {
            lemma_lex_asym(x, y);
        }
    }
    assert forall|x: Seq<char>, y: Seq<char>, z: Seq<char>|
        #[trigger] r(x, y) && #[trigger] r(y, z) implies r(x, z) by {
        if x != y && y != z {
            lemma_lex_trans(x, y, z);
        }
    }
    assert forall|x: Seq<char>, y: Seq<char>| #[trigger] r(x, y) || r(y, x) by {
        lemma_lex_total(x, y);
    }
}

/// Whether `a` comes strictly before `b`.
pub fn lex_less(a: &[char], b: &[char]) -> (r: bool)
    ensures
        r == lex_lt(a@, b@),
{
    let mut i: usize = 0;
    assert(a@.skip(0) =~= a@);
    assert(b@.skip(0) =~= b@);
    while i < a.len() && i < b.len() && a[i] == b[i]
        invariant
            i <= a@.len(),
            i <= b@.len(),
            lex_lt(a@, b@) == lex_lt(a@.skip(i as int), b@.skip(i as int)),
        decreases a.len() - i,
    {
        assert(a@.skip(i as int).drop_first() =~= a@.skip(i + 1));
        assert(b@.skip(i as int).drop_first() =~= b@.skip(i + 1));
        i = i + 1;
    }
    let ghost sa = a@.skip(i as int);
    let ghost sb = b@.skip(i as int);
    if i == a.len() {
        assert(sa.len() == 0);
        i < b.len()
    } else if i == b.len() {
        false
    } else {
        assert(sa[0] == a@[i as int] && sb[0] == b@[i as int]);
        a[i] < b[i]
    }
}

/// Inserting into a sorted sequence at a place where the element fits keeps
/// it sorted.
pub proof fn lemma_insert_sorted<A>(s: Seq<A>, p: int, x: A, leq: spec_fn(A, A) -> bool)
    requires
        total_ordering(leq),
        0 <= p <= s.len(),
        sorted_by(s, leq),
        forall|k: int| 0 <= k < p ==> leq(#[trigger] s[k], x),
        p < s.len() ==> leq(x, s[p]),
    ensures
        sorted_by(s.insert(p, x), leq),
{
    let t = s.insert(p, x);
    assert forall|i: int, j: int| 0 <= i < j < t.len() implies #[trigger] leq(t[i], t[j]) by {
        if j < p {
            assert(leq(s[i], s[j]));
        } else if j == p {
            assert(leq(s[i], x));
        } else if i < p {
            assert(leq(s[i], s[j - 1]));
        } else if i == p {
            assert(leq(s[p], s[j - 1]));
        } else {
            assert(leq(s[i - 1], s[j - 1]));
        }
    }
}

/// The strings of `v` in the order of strings.
pub fn sort_texts(v: Vec<String>) -> (r: Vec<String>)
    ensures
        strings_view(r@) == strings_view(v@).sort_by(text_leq()),
{
    let ghost sv = strings_view(v@);
    let mut r: Vec<String> = Vec::new();
    let mut i: usize = 0;
    while i < v.len()
        invariant
            i <= v@.len(),
            sv == strings_view(v@),
            sorted_by(strings_view(r@), text_leq()),
            strings_view(r@).to_multiset() == sv.take(i as int).to_multiset(),
        decreases v.len() - i,
    {
        let x = v[i].clone();
        let xc = crate::text::chars_of(x.as_str());
        let mut p: usize = 0;
        while p < r.len() && !lex_less(xc.as_slice(), crate::text::chars_of(r[p].as_str()).as_slice())
            invariant
                p <= r@.len(),
                xc@ == x@,
                forall|k: int| 0 <= k < p ==> lex_le(#[trigger] strings_view(r@)[k], x@),
            decreases r.len() - p,
        {
            proof {
                lemma_lex_total(x@, r@[p as int]@);
            }
            p = p + 1;
        }
        let ghost before = strings_view(r@);
        proof {
            lemma_text_order();
            lemma_insert_sorted(before, p as int, x@, text_leq());
            assert(sv.take(i + 1) =~= sv.take(i as int).push(x@));
        }
        r.insert(p, x);
        assert(strings_view(r@) =~= before.insert(p as int, v@[i as int]@));
        i = i + 1;
    }
    proof {
        assert(sv.take(v@.len() as int) =~= sv);
        lemma_text_order();
        sv.lemma_sort_by_ensures(text_leq());
        vstd::seq_lib::lemma_sorted_unique(strings_view(r@), sv.sort_by(text_leq()), text_leq());
    }
    r
}

/// The order of language tags by identity, and by text between tags of one
/// identity.
pub open spec fn identity_leq() -> spec_fn(Seq<char>, Seq<char>) -> bool {
    |a: Seq<char>, b: Seq<char>|
        lex_lt(lang_identity(a), lang_identity(b)) || (lang_identity(a) == lang_identity(b)
            && lex_le(a, b))
}

/// The order of language tags by identity is a total order.
pub proof fn lemma_identity_order()
    ensures
        total_ordering(identity_leq()),
{
    let r = identity_leq();
    assert forall|x: Seq<char>| #[trigger] r(x, x) by {}
    assert forall|x: Seq<char>, y: Seq<char>| #[trigger] r(x, y) && r(y, x) implies x == y by {
        let (ix, iy) = (lang_identity(x), lang_identity(y));
        if lex_lt(ix, iy) {
            lemma_lex_asym(ix, iy);
            lemma_lex_irrefl(ix);
        } else if lex_lt(iy, ix) {
            lemma_lex_asym(iy, ix);
            lemma_lex_irrefl(ix);
        } else if x != y {
            lemma_lex_asym(x, y);
        }
    }
    assert forall|x: Seq<char>, y: Seq<char>, z: Seq<char>|
        #[trigger] r(x, y) && #[trigger] r(y, z) implies r(x, z) by {
        let (ix, iy, iz) = (lang_identity(x), lang_identity(y), lang_identity(z));
        if lex_lt(ix, iy) && lex_lt(iy, iz) {
            lemma_lex_trans(ix, iy, iz);
        } else if ix == iy && iy == iz {
            if x != y && y != z {
                lemma_lex_trans(x, y, z);
            }
        }
    }
    assert forall|x: Seq<char>, y: Seq<char>| #[trigger] r(x, y) || r(y, x) by {
        lemma_lex_total(lang_identity(x), lang_identity(y));
        lemma_lex_total(x, y);
    }
}

/// Whether tag `a` comes no later than tag `b` by identity.
pub fn identity_le(a: &str, b: &str) -> (r: bool)
    ensures
        r == identity_leq()(a@, b@),
{
    let ia = normalize_lang(a);
    let ib = normalize_lang(b);
    if lex_less(ia.as_slice(), ib.as_slice()) {
        true
    } else if chars_eq(ia.as_slice(), ib.as_slice()) {
        let ca = chars_of(a);
        let cb = chars_of(b);
        chars_eq(ca.as_slice(), cb.as_slice()) || lex_less(ca.as_slice(), cb.as_slice())
    } else {
        false
    }
}

/// The tags of `v` ordered by identity.
pub fn sort_by_identity(v: Vec<String>) -> (r: Vec<String>)
    ensures
        strings_view(r@) == strings_view(v@).sort_by(identity_leq()),
{
    let ghost sv = strings_view(v@);
    let mut r: Vec<String> = Vec::new();
    let mut i: usize = 0;
    proof {
        lemma_identity_order();
    }
    while i < v.len()
        invariant
            i <= v@.len(),
            sv == strings_view(v@),
            total_ordering(identity_leq()),
            sorted_by(strings_view(r@), identity_leq()),
            strings_view(r@).to_multiset() == sv.take(i as int).to_multiset(),
        decreases v.len() - i,
    {
        let x = v[i].clone();
        let mut p: usize = 0;
        while p < r.len() && identity_le(r[p].as_str(), x.as_str())
            invariant
                p <= r@.len(),
                forall|k: int| 0 <= k < p ==> identity_leq()(#[trigger] strings_view(r@)[k], x@),
            decreases r.len() - p,
        {
            p = p + 1;
        }
        let ghost before = strings_view(r@);
        proof {
            if p < r@.len() {
                assert(identity_leq()(x@, before[p as int]) || identity_leq()(before[p as int], x@));
            }
            lemma_insert_sorted(before, p as int, x@, identity_leq());
            assert(sv.take(i + 1) =~= sv.take(i as int).push(x@));
        }
        r.insert(p, x);
        assert(strings_view(r@) =~= before.insert(p as int, v@[i as int]@));
        i = i + 1;
    }
    proof {
        assert(sv.take(v@.len() as int) =~= sv);
        sv.lemma_sort_by_ensures(identity_leq());
        vstd::seq_lib::lemma_sorted_unique(strings_view(r@), sv.sort_by(identity_leq()), identity_leq());
    }
    r
}

/// `s` without the elements equal to the one before them (`Vec::dedup`).
pub open spec fn dedup_adjacent(s: Seq<Seq<char>>) -> Seq<Seq<char>>
    decreases s.len(),
{
    if s.len() == 0 {
        s
    } else if s.len() >= 2 && s[s.len() - 2] == s.last() {
        dedup_adjacent(s.drop_last())
    } else {
        dedup_adjacent(s.drop_last()).push(s.last())
    }
}

/// The distinct strings of a sequence, in the order of strings (what a sort
/// followed by `dedup` leaves, and what a `BTreeSet` holds).
pub open spec fn sorted_unique(s: Seq<Seq<char>>) -> Seq<Seq<char>> {
    dedup_adjacent(s.sort_by(text_leq()))
}

/// Removes the strings equal to the one before them.
pub fn dedup_texts(v: Vec<String>) -> (r: Vec<String>)
    ensures
        strings_view(r@) == dedup_adjacent(strings_view(v@)),
{
    let ghost sv = strings_view(v@);
    let mut r: Vec<String> = Vec::new();
    let mut i: usize = 0;
    assert(sv.take(0) =~= Seq::<Seq<char>>::empty());
    assert(strings_view(r@) =~= Seq::<Seq<char>>::empty());
    while i < v.len()
        invariant
            i <= v@.len(),
            sv == strings_view(v@),
            strings_view(r@) == dedup_adjacent(sv.take(i as int)),
        decreases v.len() - i,
    {
        let ghost t = sv.take(i + 1);
        assert(t.drop_last() =~= sv.take(i as int));
        let ghost before = strings_view(r@);
        let repeat = i > 0 && crate::text::str_eq(v[i - 1].as_str(), v[i].as_str());
        if !repeat {
            r.push(v[i].clone());
            assert(strings_view(r@) =~= before.push(sv[i as int]));
        }
        i = i + 1;
    }
    assert(sv.take(i as int) =~= sv);
    r
}

/// The distinct strings of `v` in the order of strings.
pub fn sorted_unique_texts(v: Vec<String>) -> (r: Vec<String>)
    ensures
        strings_view(r@) == sorted_unique(strings_view(v@)),
{
    let s = sort_texts(v);
    dedup_texts(s)
}

} // verus!

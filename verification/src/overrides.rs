//! Override sets: ordered lists of key/value pairs with last-write-wins
//! semantics, and their canonical form — sorted by key, duplicate keys
//! resolved to the last write. The canonical form is what the state-root
//! computation consumes, and it depends only on the override map.

use vstd::prelude::*;
use crate::order::{
    lex_lt, lemma_lex_irreflexive, lemma_lex_asymmetric, lemma_lex_transitive, lemma_lex_lt_ne,
    compare_keys, KeyOrder,
};
use crate::util::clone_bytes;

verus! {

/// The mathematical contents of a list of byte-vector pairs.
pub open spec fn pairs_view(s: Seq<(Vec<u8>, Vec<u8>)>) -> Seq<(Seq<u8>, Seq<u8>)> {
    s.map_values(|p: (Vec<u8>, Vec<u8>)| (p.0@, p.1@))
}

/// The keys of the pairs are strictly increasing in lexicographic order
/// (so in particular no key repeats).
pub open spec fn keys_sorted(s: Seq<(Seq<u8>, Seq<u8>)>) -> bool {
    forall|i: int, j: int| #![trigger s[i], s[j]] 0 <= i < j < s.len() ==> lex_lt(s[i].0, s[j].0)
}

/// The key/value map described by an override list, duplicate keys resolved
/// last-write-wins.
pub open spec fn overrides_map(s: Seq<(Seq<u8>, Seq<u8>)>) -> Map<Seq<u8>, Seq<u8>>
    decreases s.len(),
{
    if s.len() == 0 {
        Map::empty()
    } else {
        overrides_map(s.drop_last()).insert(s.last().0, s.last().1)
    }
}

/// Inserting a pair into a list at its ordered position, replacing an
/// equal key.
pub open spec fn insert_pair(
    s: Seq<(Seq<u8>, Seq<u8>)>,
    k: Seq<u8>,
    v: Seq<u8>,
) -> Seq<(Seq<u8>, Seq<u8>)>
    decreases s.len(),
{
    if s.len() == 0 {
        seq![(k, v)]
    } else if lex_lt(k, s[0].0) {
        seq![(k, v)] + s
    } else if k == s[0].0 {
        seq![(k, v)] + s.skip(1)
    } else {
        seq![s[0]] + insert_pair(s.skip(1), k, v)
    }
}

/// The canonical form of an override list: pairs inserted in order into a
/// sorted list, so that a later write to the same key replaces the earlier.
pub open spec fn normalize_spec(s: Seq<(Seq<u8>, Seq<u8>)>) -> Seq<(Seq<u8>, Seq<u8>)>
    decreases s.len(),
{
    if s.len() == 0 {
        Seq::empty()
    } else {
        insert_pair(normalize_spec(s.drop_last()), s.last().0, s.last().1)
    }
}

/// Any two byte strings are ordered, equal, or ordered the other way.
pub proof fn lemma_lex_trichotomy(a: Seq<u8>, b: Seq<u8>)
    ensures
        lex_lt(a, b) || a == b || lex_lt(b, a),
    decreases a.len(),
{
    if a.len() > 0 && b.len() > 0 && a[0] == b[0] {
        lemma_lex_trichotomy(a.skip(1), b.skip(1));
        if a.skip(1) == b.skip(1) {
            assert(a =~= seq![a[0]] + a.skip(1));
            assert(b =~= seq![b[0]] + b.skip(1));
        }
    }
}

/// A key is in the domain of the override map exactly when some pair
/// carries it.
pub proof fn lemma_overrides_dom(s: Seq<(Seq<u8>, Seq<u8>)>, k: Seq<u8>)
    ensures
        overrides_map(s).dom().contains(k) <==> exists|i: int|
            0 <= i < s.len() && #[trigger] s[i].0 == k,
    decreases s.len(),
{
    if s.len() > 0 {
        lemma_overrides_dom(s.drop_last(), k);
        if s.last().0 == k {
            assert(s[s.len() - 1].0 == k);
        } else if overrides_map(s).dom().contains(k) {
            let i = choose|i: int| 0 <= i < s.drop_last().len() && #[trigger] s.drop_last()[i].0
                == k;
            assert(s[i].0 == k);
        } else {
            assert forall|i: int| 0 <= i < s.len() implies #[trigger] s[i].0 != k by {
                if i < s.len() - 1 {
                    assert(s.drop_last()[i].0 == s[i].0);
                }
            }
        }
    }
}

/// Peeling the first pair off an override list: it only contributes its
/// binding when no later pair writes the same key.
pub proof fn lemma_overrides_map_cons(p: (Seq<u8>, Seq<u8>), s: Seq<(Seq<u8>, Seq<u8>)>)
    ensures
        overrides_map(seq![p] + s) == if overrides_map(s).dom().contains(p.0) {
            overrides_map(s)
        } else {
            overrides_map(s).insert(p.0, p.1)
        },
    decreases s.len(),
{
    if s.len() == 0 {
        let e: Seq<(Seq<u8>, Seq<u8>)> = Seq::empty();
        assert(overrides_map(e) == Map::<Seq<u8>, Seq<u8>>::empty());
        assert((seq![p] + s).drop_last() =~= e);
        assert((seq![p] + s).last() == p);
        assert(overrides_map(seq![p] + s) == overrides_map(e).insert(p.0, p.1));
    } else {
        let q = s.last();
        assert((seq![p] + s).last() == q);
        assert((seq![p] + s).drop_last() =~= seq![p] + s.drop_last());
        lemma_overrides_map_cons(p, s.drop_last());
        lemma_overrides_dom(s, p.0);
        lemma_overrides_dom(s.drop_last(), p.0);
        if overrides_map(s).dom().contains(p.0) {
            if overrides_map(s.drop_last()).dom().contains(p.0) {
                assert(overrides_map(seq![p] + s) =~= overrides_map(s));
            } else {
                // the only pair with key p.0 in s is its last
                assert(q.0 == p.0) by {
                    let i = choose|i: int| 0 <= i < s.len() && #[trigger] s[i].0 == p.0;
                    if i < s.len() - 1 {
                        assert(s.drop_last()[i].0 == p.0);
                    }
                }
                assert(overrides_map(seq![p] + s) =~= overrides_map(s));
            }
        } else {
            assert(!overrides_map(s.drop_last()).dom().contains(p.0));
            assert(q.0 != p.0) by {
                assert(s[s.len() - 1].0 == q.0);
            }
            assert(overrides_map(seq![p] + s) =~= overrides_map(s).insert(p.0, p.1));
        }
    }
}

/// Inserting a pair into a sorted list updates its map by that binding.
pub proof fn lemma_insert_pair_map(s: Seq<(Seq<u8>, Seq<u8>)>, k: Seq<u8>, v: Seq<u8>)
    requires
        keys_sorted(s),
    ensures
        overrides_map(insert_pair(s, k, v)) == overrides_map(s).insert(k, v),
    decreases s.len(),
{
    if s.len() == 0 {
        let e: Seq<(Seq<u8>, Seq<u8>)> = Seq::empty();
        assert(overrides_map(e) == Map::<Seq<u8>, Seq<u8>>::empty());
        assert(seq![(k, v)].drop_last() =~= e);
        assert(seq![(k, v)].last() == (k, v));
        assert(overrides_map(seq![(k, v)]) == overrides_map(e).insert(k, v));
    } else {
        let h = s[0];
        let t = s.skip(1);
        assert(s =~= seq![h] + t);
        assert(keys_sorted(t)) by {
            assert forall|i: int, j: int| 0 <= i < j < t.len() implies lex_lt(
                t[i].0,
                t[j].0,
            ) by {
                assert(t[i] == s[i + 1]);
                assert(t[j] == s[j + 1]);
                assert(lex_lt(s[i + 1].0, s[j + 1].0));
            }
        }
        // the head key is strictly below every tail key
        assert forall|i: int| 0 <= i < t.len() implies lex_lt(h.0, #[trigger] t[i].0) by {
            assert(t[i] == s[i + 1]);
            assert(lex_lt(s[0].0, s[i + 1].0));
        }
        lemma_overrides_dom(t, h.0);
        if overrides_map(t).dom().contains(h.0) {
            let i = choose|i: int| 0 <= i < t.len() && #[trigger] t[i].0 == h.0;
            lemma_lex_irreflexive(h.0);
            assert(false);
        }
        lemma_overrides_map_cons(h, t);
        assert(overrides_map(s) == overrides_map(t).insert(h.0, h.1));
        if lex_lt(k, h.0) {
            lemma_overrides_map_cons((k, v), s);
            lemma_overrides_dom(s, k);
            if overrides_map(s).dom().contains(k) {
                let i = choose|i: int| 0 <= i < s.len() && #[trigger] s[i].0 == k;
                if i == 0 {
                    lemma_lex_irreflexive(k);
                } else {
                    lemma_lex_transitive(k, s[0].0, s[i].0);
                    lemma_lex_irreflexive(k);
                }
                assert(false);
            }
            assert(overrides_map(insert_pair(s, k, v)) == overrides_map(s).insert(k, v));
        } else if k == h.0 {
            lemma_overrides_map_cons((k, v), t);
            lemma_overrides_dom(t, k);
            if overrides_map(t).dom().contains(k) {
                let i = choose|i: int| 0 <= i < t.len() && #[trigger] t[i].0 == k;
                lemma_lex_irreflexive(k);
                assert(false);
            }
            assert(overrides_map(insert_pair(s, k, v)) == overrides_map(t).insert(k, v));
            assert(overrides_map(t).insert(k, v) =~= overrides_map(t).insert(h.0, h.1).insert(
                k,
                v,
            ));
        } else {
            lemma_lex_trichotomy(k, h.0);
            assert(lex_lt(h.0, k));
            lemma_lex_lt_ne(h.0, k);
            lemma_insert_pair_map(t, k, v);
            lemma_overrides_map_cons(h, insert_pair(t, k, v));
            lemma_overrides_dom(insert_pair(t, k, v), h.0);
            if overrides_map(insert_pair(t, k, v)).dom().contains(h.0) {
                assert(overrides_map(insert_pair(t, k, v)).dom() =~= overrides_map(t).insert(
                    k,
                    v,
                ).dom());
                lemma_overrides_dom(t, h.0);
                assert(false);
            }
            assert(insert_pair(s, k, v) == seq![h] + insert_pair(t, k, v));
            assert(overrides_map(insert_pair(s, k, v)) == overrides_map(t).insert(k, v).insert(
                h.0,
                h.1,
            ));
            assert(overrides_map(t).insert(k, v).insert(h.0, h.1)
                =~= overrides_map(t).insert(h.0, h.1).insert(k, v));
        }
    }
}

/// Every key below `k` and below every key of `s` is below every key of
/// the insertion of `(k, v)` into `s`.
pub proof fn lemma_insert_pair_lower_bound(
    s: Seq<(Seq<u8>, Seq<u8>)>,
    k: Seq<u8>,
    v: Seq<u8>,
    x: Seq<u8>,
)
    requires
        lex_lt(x, k),
        forall|i: int| 0 <= i < s.len() ==> lex_lt(x, #[trigger] s[i].0),
    ensures
        forall|i: int|
            0 <= i < insert_pair(s, k, v).len() ==> lex_lt(x, #[trigger] insert_pair(s, k, v)[i].0),
    decreases s.len(),
{
    if s.len() == 0 {
    } else if lex_lt(k, s[0].0) {
    } else if k == s[0].0 {
        assert forall|i: int| 0 <= i < insert_pair(s, k, v).len() implies lex_lt(
            x,
            insert_pair(s, k, v)[i].0,
        ) by {
            if i > 0 {
                assert(insert_pair(s, k, v)[i] == s[i]);
            }
        }
    } else {
        assert forall|i: int| 0 <= i < s.skip(1).len() implies lex_lt(
            x,
            #[trigger] s.skip(1)[i].0,
        ) by {
            assert(s.skip(1)[i] == s[i + 1]);
        }
        lemma_insert_pair_lower_bound(s.skip(1), k, v, x);
        assert forall|i: int| 0 <= i < insert_pair(s, k, v).len() implies lex_lt(
            x,
            insert_pair(s, k, v)[i].0,
        ) by {
            if i > 0 {
                assert(insert_pair(s, k, v)[i] == insert_pair(s.skip(1), k, v)[i - 1]);
            }
        }
    }
}

/// Insertion keeps the keys sorted.
pub proof fn lemma_insert_pair_sorted(s: Seq<(Seq<u8>, Seq<u8>)>, k: Seq<u8>, v: Seq<u8>)
    requires
        keys_sorted(s),
    ensures
        keys_sorted(insert_pair(s, k, v)),
    decreases s.len(),
{
    let r = insert_pair(s, k, v);
    if s.len() == 0 {
    } else if lex_lt(k, s[0].0) {
        assert forall|i: int, j: int| 0 <= i < j < r.len() implies lex_lt(r[i].0, r[j].0) by {
            if i == 0 {
                assert(r[j] == s[j - 1]);
                if j == 1 {
                } else {
                    lemma_lex_transitive(k, s[0].0, s[j - 1].0);
                }
            } else {
                assert(r[i] == s[i - 1]);
                assert(r[j] == s[j - 1]);
            }
        }
    } else if k == s[0].0 {
        assert forall|i: int, j: int| 0 <= i < j < r.len() implies lex_lt(r[i].0, r[j].0) by {
            assert(r[j] == s[j]);
            if i == 0 {
                assert(lex_lt(s[0].0, s[j].0));
            } else {
                assert(r[i] == s[i]);
            }
        }
    } else {
        lemma_lex_trichotomy(k, s[0].0);
        assert(lex_lt(s[0].0, k));
        let t = s.skip(1);
        assert(keys_sorted(t)) by {
            assert forall|i: int, j: int| 0 <= i < j < t.len() implies lex_lt(
                t[i].0,
                t[j].0,
            ) by {
                assert(t[i] == s[i + 1]);
                assert(t[j] == s[j + 1]);
                assert(lex_lt(s[i + 1].0, s[j + 1].0));
            }
        }
        lemma_insert_pair_sorted(t, k, v);
        assert forall|i: int| 0 <= i < t.len() implies lex_lt(s[0].0, #[trigger] t[i].0) by {
            assert(t[i] == s[i + 1]);
            assert(lex_lt(s[0].0, s[i + 1].0));
        }
        lemma_insert_pair_lower_bound(t, k, v, s[0].0);
        assert forall|i: int, j: int| 0 <= i < j < r.len() implies lex_lt(r[i].0, r[j].0) by {
            if i == 0 {
                assert(r[j] == insert_pair(t, k, v)[j - 1]);
            } else {
                assert(r[i] == insert_pair(t, k, v)[i - 1]);
                assert(r[j] == insert_pair(t, k, v)[j - 1]);
                assert(lex_lt(insert_pair(t, k, v)[i - 1].0, insert_pair(t, k, v)[j - 1].0));
            }
        }
    }
}

/// The canonical form is sorted.
pub proof fn lemma_normalize_spec_sorted(s: Seq<(Seq<u8>, Seq<u8>)>)
    ensures
        keys_sorted(normalize_spec(s)),
    decreases s.len(),
{
    if s.len() > 0 {
        lemma_normalize_spec_sorted(s.drop_last());
        lemma_insert_pair_sorted(normalize_spec(s.drop_last()), s.last().0, s.last().1);
    }
}

/// The canonical form has the same last-write-wins map as the list itself.
pub proof fn lemma_normalize_spec_map(s: Seq<(Seq<u8>, Seq<u8>)>)
    ensures
        overrides_map(normalize_spec(s)) == overrides_map(s),
    decreases s.len(),
{
    if s.len() > 0 {
        lemma_normalize_spec_map(s.drop_last());
        lemma_normalize_spec_sorted(s.drop_last());
        lemma_insert_pair_map(normalize_spec(s.drop_last()), s.last().0, s.last().1);
    }
}

/// A sorted list is determined by its map: the map's least key must stand
/// first, and so on down the tail.
pub proof fn lemma_sorted_canonical(c1: Seq<(Seq<u8>, Seq<u8>)>, c2: Seq<(Seq<u8>, Seq<u8>)>)
    requires
        keys_sorted(c1),
        keys_sorted(c2),
        overrides_map(c1) == overrides_map(c2),
    ensures
        c1 == c2,
    decreases c1.len(),
{
    if c1.len() == 0 {
        if c2.len() > 0 {
            lemma_overrides_dom(c1, c2[0].0);
            lemma_overrides_dom(c2, c2[0].0);
            assert(false);
        }
        assert(c1 =~= c2);
    } else if c2.len() == 0 {
        lemma_overrides_dom(c1, c1[0].0);
        lemma_overrides_dom(c2, c1[0].0);
        assert(false);
    } else {
        // the head keys agree: each is in the other's map, and a later
        // position would contradict sortedness both ways
        lemma_overrides_dom(c1, c1[0].0);
        lemma_overrides_dom(c2, c1[0].0);
        lemma_overrides_dom(c2, c2[0].0);
        lemma_overrides_dom(c1, c2[0].0);
        let i2 = choose|i: int| 0 <= i < c2.len() && #[trigger] c2[i].0 == c1[0].0;
        let i1 = choose|i: int| 0 <= i < c1.len() && #[trigger] c1[i].0 == c2[0].0;
        assert(c1[0].0 == c2[0].0) by {
            if i2 > 0 && i1 > 0 {
                assert(lex_lt(c2[0].0, c2[i2].0));
                assert(lex_lt(c1[0].0, c1[i1].0));
                lemma_lex_transitive(c1[0].0, c1[i1].0, c1[0].0);
                lemma_lex_irreflexive(c1[0].0);
            }
        }
        let t1 = c1.skip(1);
        let t2 = c2.skip(1);
        assert(c1 =~= seq![c1[0]] + t1);
        assert(c2 =~= seq![c2[0]] + t2);
        sorted_tail_facts(c1);
        sorted_tail_facts(c2);
        lemma_overrides_map_cons(c1[0], t1);
        lemma_overrides_map_cons(c2[0], t2);
        lemma_overrides_dom(t1, c1[0].0);
        lemma_overrides_dom(t2, c2[0].0);
        if overrides_map(t1).dom().contains(c1[0].0) {
            let i = choose|i: int| 0 <= i < t1.len() && #[trigger] t1[i].0 == c1[0].0;
            assert(lex_lt(c1[0].0, t1[i].0));
            lemma_lex_irreflexive(c1[0].0);
        }
        if overrides_map(t2).dom().contains(c2[0].0) {
            let i = choose|i: int| 0 <= i < t2.len() && #[trigger] t2[i].0 == c2[0].0;
            assert(lex_lt(c2[0].0, t2[i].0));
            lemma_lex_irreflexive(c2[0].0);
        }
        assert(c1[0].1 == c2[0].1) by {
            assert(overrides_map(c1)[c1[0].0] == c1[0].1);
            assert(overrides_map(c2)[c2[0].0] == c2[0].1);
        }
        assert(overrides_map(t1) =~= overrides_map(t2)) by {
            assert(overrides_map(c1).remove(c1[0].0) =~= overrides_map(t1));
            assert(overrides_map(c2).remove(c2[0].0) =~= overrides_map(t2));
        }
        lemma_sorted_canonical(t1, t2);
        assert(c1 =~= seq![c1[0]] + t1);
        assert(c2 =~= seq![c2[0]] + t2);
    }
}

/// The tail of a sorted list is sorted, and every tail key is above the head.
pub proof fn sorted_tail_facts(s: Seq<(Seq<u8>, Seq<u8>)>)
    requires
        keys_sorted(s),
        s.len() > 0,
    ensures
        keys_sorted(s.skip(1)),
        forall|i: int| 0 <= i < s.skip(1).len() ==> lex_lt(s[0].0, #[trigger] s.skip(1)[i].0),
{
    assert forall|i: int, j: int| 0 <= i < j < s.skip(1).len() implies lex_lt(
        s.skip(1)[i].0,
        s.skip(1)[j].0,
    ) by {
        assert(s.skip(1)[i] == s[i + 1]);
        assert(s.skip(1)[j] == s[j + 1]);
        assert(lex_lt(s[i + 1].0, s[j + 1].0));
    }
    assert forall|i: int| 0 <= i < s.skip(1).len() implies lex_lt(
        s[0].0,
        #[trigger] s.skip(1)[i].0,
    ) by {
        assert(s.skip(1)[i] == s[i + 1]);
        assert(lex_lt(s[0].0, s[i + 1].0));
    }
}

/// Law: the canonical form of an override list depends only on its
/// last-write-wins map. Two override lists that describe the same map —
/// whatever their order or duplicates — normalize to the same list, so
/// everything computed from the canonical form is a pure function of the map.
pub proof fn lemma_normalize_canonical(o1: Seq<(Seq<u8>, Seq<u8>)>, o2: Seq<(Seq<u8>, Seq<u8>)>)
    requires
        overrides_map(o1) == overrides_map(o2),
    ensures
        normalize_spec(o1) == normalize_spec(o2),
{
    lemma_normalize_spec_sorted(o1);
    lemma_normalize_spec_sorted(o2);
    lemma_normalize_spec_map(o1);
    lemma_normalize_spec_map(o2);
    lemma_sorted_canonical(normalize_spec(o1), normalize_spec(o2));
}

/// Inserting a key that already stands at position `p` (with all earlier
/// keys below it) replaces that entry.
proof fn lemma_insert_pair_replaces(s: Seq<(Seq<u8>, Seq<u8>)>, k: Seq<u8>, v: Seq<u8>, p: int)
    requires
        0 <= p < s.len(),
        forall|j: int| 0 <= j < p ==> lex_lt(#[trigger] s[j].0, k),
        s[p].0 == k,
    ensures
        insert_pair(s, k, v) == s.update(p, (k, v)),
    decreases p,
{
    if p == 0 {
        lemma_lex_irreflexive(k);
        assert(insert_pair(s, k, v) == seq![(k, v)] + s.skip(1));
        assert(seq![(k, v)] + s.skip(1) =~= s.update(0, (k, v)));
    } else {
        lemma_lex_asymmetric(s[0].0, k);
        lemma_lex_lt_ne(s[0].0, k);
        let t = s.skip(1);
        assert forall|j: int| 0 <= j < p - 1 implies lex_lt(#[trigger] t[j].0, k) by {
            assert(t[j] == s[j + 1]);
        }
        assert(t[p - 1] == s[p]);
        lemma_insert_pair_replaces(t, k, v, p - 1);
        assert(insert_pair(s, k, v) == seq![s[0]] + insert_pair(t, k, v));
        assert(seq![s[0]] + t.update(p - 1, (k, v)) =~= s.update(p, (k, v)));
    }
}

/// Inserting a key that belongs at position `p` (all earlier keys below it,
/// the key at `p` — if any — above it) places it there.
proof fn lemma_insert_pair_inserts(s: Seq<(Seq<u8>, Seq<u8>)>, k: Seq<u8>, v: Seq<u8>, p: int)
    requires
        0 <= p <= s.len(),
        forall|j: int| 0 <= j < p ==> lex_lt(#[trigger] s[j].0, k),
        p == s.len() || lex_lt(k, s[p].0),
    ensures
        insert_pair(s, k, v) == s.take(p) + seq![(k, v)] + s.skip(p),
    decreases p,
{
    if p == 0 {
        if s.len() == 0 {
            assert(insert_pair(s, k, v) == seq![(k, v)]);
            assert(s.take(0) + seq![(k, v)] + s.skip(0) =~= seq![(k, v)]);
        } else {
            assert(insert_pair(s, k, v) == seq![(k, v)] + s);
            assert(s.take(0) + seq![(k, v)] + s.skip(0) =~= seq![(k, v)] + s);
        }
    } else {
        lemma_lex_asymmetric(s[0].0, k);
        lemma_lex_lt_ne(s[0].0, k);
        let t = s.skip(1);
        assert forall|j: int| 0 <= j < p - 1 implies lex_lt(#[trigger] t[j].0, k) by {
            assert(t[j] == s[j + 1]);
        }
        if p < s.len() {
            assert(t[p - 1] == s[p]);
        }
        lemma_insert_pair_inserts(t, k, v, p - 1);
        assert(insert_pair(s, k, v) == seq![s[0]] + insert_pair(t, k, v));
        assert(seq![s[0]] + (t.take(p - 1) + seq![(k, v)] + t.skip(p - 1)) =~= s.take(p) + seq![
            (k, v),
        ] + s.skip(p));
    }
}

/// Brings an override list to its canonical form: keys sorted, duplicate
/// keys resolved to the last write in the list.
pub fn normalize_overrides(overrides: &Vec<(Vec<u8>, Vec<u8>)>) -> (r: Vec<(Vec<u8>, Vec<u8>)>)
    ensures
        pairs_view(r@) == normalize_spec(pairs_view(overrides@)),
        keys_sorted(pairs_view(r@)),
        overrides_map(pairs_view(r@)) == overrides_map(pairs_view(overrides@)),
{
    let ghost all = pairs_view(overrides@);
    let mut r: Vec<(Vec<u8>, Vec<u8>)> = Vec::new();
    proof {
        assert(all.take(0) =~= Seq::<(Seq<u8>, Seq<u8>)>::empty());
        assert(pairs_view(r@) =~= Seq::<(Seq<u8>, Seq<u8>)>::empty());
    }
    let mut idx: usize = 0;
    while idx < overrides.len()
        invariant
            0 <= idx <= overrides@.len(),
            all == pairs_view(overrides@),
            pairs_view(r@) == normalize_spec(all.take(idx as int)),
        decreases overrides@.len() - idx,
    {
        let ghost prev = pairs_view(r@);
        let entry = &overrides[idx];
        let k = clone_bytes(&entry.0);
        let v = clone_bytes(&entry.1);
        let mut p: usize = 0;
        let mut stop = false;
        while !stop
            invariant
                0 <= p <= r@.len(),
                prev == pairs_view(r@),
                k@ == all[idx as int].0,
                forall|j: int| 0 <= j < p ==> lex_lt(#[trigger] prev[j].0, k@),
                stop ==> p == r@.len() || !lex_lt(prev[p as int].0, k@),
            decreases r@.len() - p + (if stop {
                0int
            } else {
                1int
            }),
        {
            if p == r.len() {
                stop = true;
            } else {
                let e = &r[p];
                match compare_keys(&e.0, &k) {
                    KeyOrder::Less => {
                        p = p + 1;
                    },
                    KeyOrder::Equal => {
                        stop = true;
                    },
                    KeyOrder::Greater => {
                        stop = true;
                        proof {
                            lemma_lex_asymmetric(k@, prev[p as int].0);
                        }
                    },
                }
            }
        }
        let mut is_equal = false;
        if p < r.len() {
            let e = &r[p];
            match compare_keys(&e.0, &k) {
                KeyOrder::Equal => {
                    is_equal = true;
                },
                _ => {},
            }
        }
        if is_equal {
            proof {
                lemma_insert_pair_replaces(prev, k@, v@, p as int);
            }
            r[p] = (k, v);
            proof {
                assert(pairs_view(r@) =~= prev.update(p as int, (k@, v@)));
            }
        } else {
            proof {
                if p < r@.len() {
                    lemma_lex_trichotomy(k@, prev[p as int].0);
                }
                lemma_insert_pair_inserts(prev, k@, v@, p as int);
            }
            r.insert(p, (k, v));
            proof {
                assert(pairs_view(r@) =~= prev.take(p as int) + seq![(k@, v@)] + prev.skip(
                    p as int,
                ));
            }
        }
        proof {
            assert(pairs_view(r@) == insert_pair(prev, k@, v@));
            assert(all.take(idx + 1).drop_last() =~= all.take(idx as int));
            assert(all.take(idx + 1).last() == all[idx as int]);
            assert(all[idx as int] == (overrides@[idx as int].0@, overrides@[idx as int].1@));
        }
        idx = idx + 1;
    }
    proof {
        assert(all.take(overrides@.len() as int) =~= all);
        lemma_normalize_spec_sorted(all);
        lemma_normalize_spec_map(all);
    }
    r
}

} // verus!

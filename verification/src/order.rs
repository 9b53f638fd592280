//! Lexicographic order on byte strings, used to keep storage keys in the
//! canonical order that the state-root computation expects.

use vstd::prelude::*;

verus! {

/// Strict lexicographic order on byte sequences: `a` comes before `b`.
pub open spec fn lex_lt(a: Seq<u8>, b: Seq<u8>) -> bool
    decreases a.len(),
{
    if b.len() == 0 {
        false
    } else if a.len() == 0 {
        true
    } else if a[0] < b[0] {
        true
    } else if a[0] > b[0] {
        false
    } else {
        lex_lt(a.skip(1), b.skip(1))
    }
}

/// No byte string comes before itself.
pub proof fn lemma_lex_irreflexive(a: Seq<u8>)
    ensures
        !lex_lt(a, a),
    decreases a.len(),
{
    if a.len() > 0 {
        lemma_lex_irreflexive(a.skip(1));
    }
}

/// At most one of `a` before `b` and `b` before `a` holds.
pub proof fn lemma_lex_asymmetric(a: Seq<u8>, b: Seq<u8>)
    requires
        lex_lt(a, b),
    ensures
        !lex_lt(b, a),
    decreases a.len(),
{
    if a.len() > 0 && b.len() > 0 && a[0] == b[0] {
        lemma_lex_asymmetric(a.skip(1), b.skip(1));
    }
}

/// The order is transitive.
pub proof fn lemma_lex_transitive(a: Seq<u8>, b: Seq<u8>, c: Seq<u8>)
    requires
        lex_lt(a, b),
        lex_lt(b, c),
    ensures
        lex_lt(a, c),
    decreases a.len(),
{
    if a.len() > 0 && b.len() > 0 && c.len() > 0 {
        if a[0] == b[0] && b[0] == c[0] {
            lemma_lex_transitive(a.skip(1), b.skip(1), c.skip(1));
        }
    }
}

/// A byte string that comes before another is not equal to it.
pub proof fn lemma_lex_lt_ne(a: Seq<u8>, b: Seq<u8>)
    requires
        lex_lt(a, b),
    ensures
        a != b,
{
    lemma_lex_irreflexive(a);
}

/// If `a` and `b` agree on the first `i` bytes and differ at `i`
/// (or `a` ends there), then `a` comes before `b`.
pub proof fn lemma_lex_lt_from_diff(a: Seq<u8>, b: Seq<u8>, i: int)
    requires
        0 <= i <= a.len(),
        i <= b.len(),
        forall|j: int| 0 <= j < i ==> a[j] == b[j],
        (i < a.len() && i < b.len() && a[i] < b[i]) || (i == a.len() && i < b.len()),
    ensures
        lex_lt(a, b),
    decreases i,
{
    if i > 0 {
        lemma_lex_lt_from_diff(a.skip(1), b.skip(1), i - 1);
    }
}

/// Three-way comparison result for byte-string keys.
pub enum KeyOrder {
    Less,
    Equal,
    Greater,
}

/// Compares two byte strings in lexicographic order.
pub fn compare_keys(a: &Vec<u8>, b: &Vec<u8>) -> (r: KeyOrder)
    ensures
        r is Less <==> lex_lt(a@, b@),
        r is Equal <==> a@ == b@,
        r is Greater <==> lex_lt(b@, a@),
{
    let mut i: usize = 0;
    loop
        invariant
            0 <= i <= a@.len(),
            i <= b@.len(),
            forall|j: int| 0 <= j < i ==> a@[j] == b@[j],
        decreases a@.len() - i,
    {
        if i == a.len() {
            if i == b.len() {
                proof {
                    assert(a@ =~= b@);
                    lemma_lex_irreflexive(a@);
                }
                return KeyOrder::Equal;
            } else {
                proof {
                    lemma_lex_lt_from_diff(a@, b@, i as int);
                    lemma_lex_asymmetric(a@, b@);
                    lemma_lex_lt_ne(a@, b@);
                }
                return KeyOrder::Less;
            }
        }
        if i == b.len() {
            proof {
                lemma_lex_lt_from_diff(b@, a@, i as int);
                lemma_lex_asymmetric(b@, a@);
                lemma_lex_lt_ne(b@, a@);
            }
            return KeyOrder::Greater;
        }
        let x = a[i];
        let y = b[i];
        if x < y {
            proof {
                lemma_lex_lt_from_diff(a@, b@, i as int);
                lemma_lex_asymmetric(a@, b@);
                lemma_lex_lt_ne(a@, b@);
            }
            return KeyOrder::Less;
        }
        if x > y {
            proof {
                lemma_lex_lt_from_diff(b@, a@, i as int);
                lemma_lex_asymmetric(b@, a@);
                lemma_lex_lt_ne(b@, a@);
            }
            return KeyOrder::Greater;
        }
        i = i + 1;
    }
}

/// Whether two byte strings hold the same bytes.
pub fn bytes_equal(a: &Vec<u8>, b: &Vec<u8>) -> (r: bool)
    ensures
        r <==> a@ == b@,
{
    match compare_keys(a, b) {
        KeyOrder::Equal => true,
        _ => false,
    }
}

} // verus!

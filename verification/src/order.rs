//! The order of byte strings, and what it takes to be sortable.

use vstd::prelude::*;

verus! {

/// A type whose values can be put in order. The order ranks values: two values of the same
/// rank need not be equal.
pub trait Ranked: Sized {
    /// `self` may stand before `other` in a sorted sequence.
    spec fn ranks_le(self, other: Self) -> bool;

    proof fn lemma_total(a: Self, b: Self)
        ensures
            a.ranks_le(b) || b.ranks_le(a),
    ;

    proof fn lemma_transitive(a: Self, b: Self, c: Self)
        requires
            a.ranks_le(b),
            b.ranks_le(c),
        ensures
            a.ranks_le(c),
    ;

    fn le(&self, other: &Self) -> (le: bool)
        ensures
            le == self.ranks_le(*other),
    ;
}

/// Byte strings in dictionary order: the first differing byte decides, and a proper prefix
/// comes before what it is a prefix of.
pub open spec fn lex_le(a: Seq<u8>, b: Seq<u8>) -> bool
    decreases a.len(),
{
    ||| a.len() == 0
    ||| b.len() > 0 && (a[0] < b[0] || a[0] == b[0] && lex_le(a.drop_first(), b.drop_first()))
}

pub proof fn lemma_lex_total(a: Seq<u8>, b: Seq<u8>)
    ensures
        lex_le(a, b) || lex_le(b, a),
    decreases a.len(),
{
    if a.len() > 0 && b.len() > 0 && a[0] == b[0] {
        lemma_lex_total(a.drop_first(), b.drop_first());
    }
}

pub proof fn lemma_lex_transitive(a: Seq<u8>, b: Seq<u8>, c: Seq<u8>)
    requires
        lex_le(a, b),
        lex_le(b, c),
    ensures
        lex_le(a, c),
    decreases a.len(),
{
    if a.len() > 0 && a[0] == b[0] && b[0] == c[0] {
        lemma_lex_transitive(a.drop_first(), b.drop_first(), c.drop_first());
    }
}

pub proof fn lemma_lex_antisymmetric(a: Seq<u8>, b: Seq<u8>)
    requires
        lex_le(a, b),
        lex_le(b, a),
    ensures
        a == b,
    decreases a.len(),
{
    if a.len() == 0 || b.len() == 0 {
        assert(a =~= b);
    } else {
        lemma_lex_antisymmetric(a.drop_first(), b.drop_first());
        assert(a =~= seq![a[0]] + a.drop_first());
        assert(b =~= seq![b[0]] + b.drop_first());
    }
}

/// One byte string comes before another or equals it exactly when it is a prefix of it, or has the
/// smaller byte where they first differ.
pub proof fn law_lex_le_is_dictionary_order(a: Seq<u8>, b: Seq<u8>)
    ensures
        lex_le(a, b) <==> (a.len() <= b.len() && b.take(a.len() as int) == a) || exists|k: int|
            0 <= k < a.len() && k < b.len() && #[trigger] a.take(k) == b.take(k) && a[k] < b[k],
    decreases a.len(),
{
    if a.len() == 0 {
        assert(b.take(0) =~= a);
    } else if b.len() > 0 {
        let a1 = a.drop_first();
        let b1 = b.drop_first();
        law_lex_le_is_dictionary_order(a1, b1);
        assert(a.take(0) =~= b.take(0));
        if lex_le(a, b) && !(a[0] < b[0]) {
            if a1.len() <= b1.len() && b1.take(a1.len() as int) == a1 {
                assert forall|i: int| 0 <= i < a.len() implies a[i] == b[i] by {
                    if i > 0 {
                        assert(a1[i - 1] == b1.take(a1.len() as int)[i - 1]);
                    }
                }
                assert(b.take(a.len() as int) =~= a);
            } else {
                let k = choose|k: int|
                    0 <= k < a1.len() && k < b1.len() && #[trigger] a1.take(k) == b1.take(k)
                        && a1[k] < b1[k];
                assert forall|i: int| 0 <= i < k + 1 implies a[i] == b[i] by {
                    if i > 0 {
                        assert(a1.take(k)[i - 1] == b1.take(k)[i - 1]);
                    }
                }
                assert(a.take(k + 1) =~= b.take(k + 1));
            }
        }
        if a.len() <= b.len() && b.take(a.len() as int) == a {
            assert forall|i: int| 0 <= i < a.len() implies a[i] == b[i] by {
                assert(b.take(a.len() as int)[i] == a[i]);
            }
            assert(b1.take(a1.len() as int) =~= a1);
        }
        if exists|k: int|
            0 <= k < a.len() && k < b.len() && #[trigger] a.take(k) == b.take(k) && a[k] < b[k] {
            let k = choose|k: int|
                0 <= k < a.len() && k < b.len() && #[trigger] a.take(k) == b.take(k) && a[k] < b[k];
            if k > 0 {
                assert(a.take(k)[0] == b.take(k)[0]);
                assert forall|i: int| 0 <= i < k - 1 implies a1[i] == b1[i] by {
                    assert(a.take(k)[i + 1] == b.take(k)[i + 1]);
                }
                assert(a1.take(k - 1) =~= b1.take(k - 1));
            }
        }
    }
}

/// Dropping a common prefix leaves the order of two byte strings as it was.
proof fn lemma_lex_skip(a: Seq<u8>, b: Seq<u8>, n: int)
    requires
        0 <= n <= a.len(),
        n <= b.len(),
        a.take(n) == b.take(n),
    ensures
        lex_le(a, b) == lex_le(a.skip(n), b.skip(n)),
    decreases n,
{
    if n == 0 {
        assert(a.skip(0) =~= a);
        assert(b.skip(0) =~= b);
    } else {
        assert(a.take(n)[0] == a[0]);
        assert(b.take(n)[0] == b[0]);
        assert(a.drop_first().take(n - 1) =~= a.take(n).drop_first());
        assert(b.drop_first().take(n - 1) =~= b.take(n).drop_first());
        lemma_lex_skip(a.drop_first(), b.drop_first(), n - 1);
        assert(a.drop_first().skip(n - 1) =~= a.skip(n));
        assert(b.drop_first().skip(n - 1) =~= b.skip(n));
    }
}

/// Whether `a` comes before `b` or equals it, in dictionary order.
pub fn bytes_le(a: &[u8], b: &[u8]) -> (le: bool)
    ensures
        le == lex_le(a@, b@),
{
    let mut i: usize = 0;
    while i < a.len() && i < b.len() && a[i] == b[i]
        invariant
            i <= a@.len(),
            i <= b@.len(),
            a@.take(i as int) == b@.take(i as int),
        decreases a@.len() - i,
    {
        assert(a@.take(i + 1) =~= a@.take(i as int).push(a@[i as int]));
        assert(b@.take(i + 1) =~= b@.take(i as int).push(b@[i as int]));
        i = i + 1;
    }
    proof {
        lemma_lex_skip(a@, b@, i as int);
    }
    if i >= a.len() {
        true
    } else if i >= b.len() {
        false
    } else {
        assert(a@.skip(i as int)[0] == a@[i as int]);
        assert(b@.skip(i as int)[0] == b@[i as int]);
        a[i] < b[i]
    }
}

/// Whether two byte strings are equal.
pub fn bytes_eq(a: &[u8], b: &[u8]) -> (eq: bool)
    ensures
        eq == (a@ == b@),
{
    if a.len() != b.len() {
        return false;
    }
    let mut i: usize = 0;
    while i < a.len()
        invariant
            i <= a@.len(),
            a@.len() == b@.len(),
            forall|k: int| 0 <= k < i ==> a@[k] == b@[k],
        decreases a@.len() - i,
    {
        if a[i] != b[i] {
            return false;
        }
        i = i + 1;
    }
    assert(a@ =~= b@);
    true
}

impl Ranked for u64 {
    open spec fn ranks_le(self, other: Self) -> bool {
        self <= other
    }

    proof fn lemma_total(a: Self, b: Self) {
    }

    proof fn lemma_transitive(a: Self, b: Self, c: Self) {
    }

    fn le(&self, other: &Self) -> (le: bool) {
        *self <= *other
    }
}

impl<'a> Ranked for &'a [u8] {
    open spec fn ranks_le(self, other: Self) -> bool {
        lex_le(self@, other@)
    }

    proof fn lemma_total(a: Self, b: Self) {
        lemma_lex_total(a@, b@);
    }

    proof fn lemma_transitive(a: Self, b: Self, c: Self) {
        lemma_lex_transitive(a@, b@, c@);
    }

    fn le(&self, other: &Self) -> (le: bool) {
        bytes_le(*self, *other)
    }
}

} // verus!

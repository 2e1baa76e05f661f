//! The order in which a sort puts the positions of an array: the
//! lexicographic order of their keys, the place of the nulls, and what it
//! means for a sequence of positions to be sorted by it.

use vstd::prelude::*;

verus! {

/// Whether `a` comes before `b` in the lexicographic order, from entry `k`
/// on: at the first entry in which they differ `a` has the smaller one, or
/// `a` ends there and `b` does not.
pub open spec fn lex_lt_from(a: Seq<int>, b: Seq<int>, k: int) -> bool
    decreases a.len() - k,
{
    if k < 0 || k >= b.len() {
        false
    } else if k >= a.len() {
        true
    } else if a[k] != b[k] {
        a[k] < b[k]
    } else {
        lex_lt_from(a, b, k + 1)
    }
}

/// Whether `a` comes before `b` in the lexicographic order: at the first
/// entry in which they differ `a` has the smaller one, or `a` ends there and
/// `b` does not. A proper prefix comes before what it is a prefix of.
pub open spec fn lex_lt(a: Seq<int>, b: Seq<int>) -> bool {
    lex_lt_from(a, b, 0)
}

/// No sequence comes before itself.
pub proof fn lemma_lex_irreflexive(a: Seq<int>, k: int)
    requires
        0 <= k,
    ensures
        !lex_lt_from(a, a, k),
    decreases a.len() - k,
{
    if k < a.len() {
        lemma_lex_irreflexive(a, k + 1);
    }
}

/// Of two sequences that agree before entry `k`, one comes before the other
/// or they are equal.
pub proof fn lemma_lex_total(a: Seq<int>, b: Seq<int>, k: int)
    requires
        0 <= k <= a.len(),
        k <= b.len(),
        forall|t: int| 0 <= t < k ==> a[t] == b[t],
        !lex_lt_from(a, b, k),
        !lex_lt_from(b, a, k),
    ensures
        a == b,
    decreases a.len() - k,
{
    if k < a.len() && k < b.len() {
        lemma_lex_total(a, b, k + 1);
    } else {
        assert(a =~= b);
    }
}

/// Of two sequences, at most one comes before the other.
pub proof fn lemma_lex_asymmetric(a: Seq<int>, b: Seq<int>, k: int)
    requires
        0 <= k,
        lex_lt_from(a, b, k),
    ensures
        !lex_lt_from(b, a, k),
    decreases a.len() - k,
{
    if k < a.len() && k < b.len() && a[k] == b[k] {
        lemma_lex_asymmetric(a, b, k + 1);
    }
}

/// The lexicographic order is transitive.
pub proof fn lemma_lex_transitive(a: Seq<int>, b: Seq<int>, c: Seq<int>, k: int)
    requires
        0 <= k,
        lex_lt_from(a, b, k),
        lex_lt_from(b, c, k),
    ensures
        lex_lt_from(a, c, k),
    decreases a.len() - k,
{
    if k < a.len() && k < b.len() && k < c.len() && a[k] == b[k] && b[k] == c[k] {
        lemma_lex_transitive(a, b, c, k + 1);
    }
}

/// Keys of one entry are ordered as their entries are.
pub proof fn lemma_lex_single(x: int, y: int)
    ensures
        lex_lt(seq![x], seq![y]) == (x < y),
{
    assert(!lex_lt_from(seq![x], seq![y], 1));
}

/// Whether position `i` comes before position `j` among the valid positions
/// of an array with the keys `keys`: by the lexicographic order of the keys,
/// turned round where `descending` holds, and by the positions themselves
/// where the keys are equal.
pub open spec fn precedes(keys: Seq<Seq<int>>, descending: bool, i: int, j: int) -> bool {
    if keys[i] == keys[j] {
        i < j
    } else if descending {
        lex_lt(keys[j], keys[i])
    } else {
        lex_lt(keys[i], keys[j])
    }
}

/// The order of the positions of an array under a sort: which positions are
/// valid, the key of each, and what the sort was asked for.
pub struct Order {
    /// Whether each position holds a value.
    pub valid: Seq<bool>,
    /// The key of each position.
    pub keys: Seq<Seq<int>>,
    /// Whether larger keys come first.
    pub descending: bool,
    /// Whether the nulls come before the values.
    pub nulls_first: bool,
    /// Whether, among the nulls, later positions come first.
    pub nulls_reversed: bool,
}

impl Order {
    /// Whether position `i` comes before position `j`. Nulls come before
    /// values or after them, as asked; nulls are ordered by their
    /// positions; values are ordered by `precedes`.
    pub open spec fn before(self, i: int, j: int) -> bool {
        if self.valid[i] != self.valid[j] {
            self.valid[j] == self.nulls_first
        } else if !self.valid[i] {
            if self.nulls_reversed {
                j < i
            } else {
                i < j
            }
        } else {
            precedes(self.keys, self.descending, i, j)
        }
    }

    /// The number of positions.
    pub open spec fn len(self) -> nat {
        self.valid.len()
    }

    /// Whether `s` holds the first `s.len()` positions in this order: each
    /// entry is a position, each comes before those behind it, and each
    /// comes before every position that `s` does not hold.
    pub open spec fn sorted_prefix(self, s: Seq<int>) -> bool {
        &&& forall|a: int| 0 <= a < s.len() ==> 0 <= #[trigger] s[a] < self.len()
        &&& forall|a: int, b: int| 0 <= a < b < s.len() ==> #[trigger] self.before(s[a], s[b])
        &&& forall|a: int, p: int|
            0 <= a < s.len() && 0 <= p < self.len() && !s.contains(p) ==> #[trigger] self.before(
                s[a],
                p,
            )
    }

    /// Whether `s` holds each position once.
    pub open spec fn covered_by(self, s: Seq<int>) -> bool {
        &&& s.len() == self.len()
        &&& forall|p: int| 0 <= p < self.len() ==> s.contains(p)
    }

    /// The first entries of a sequence that holds all positions in this
    /// order hold the first positions in this order.
    pub proof fn lemma_prefix(self, s: Seq<int>, k: int)
        requires
            self.sorted_prefix(s),
            self.covered_by(s),
            0 <= k <= s.len(),
        ensures
            self.sorted_prefix(s.take(k)),
    {
        let t = s.take(k);
        assert forall|a: int, b: int| 0 <= a < b < t.len() implies #[trigger] self.before(
            t[a],
            t[b],
        ) by {
            assert(self.before(s[a], s[b]));
        }
        assert forall|a: int, p: int|
            0 <= a < t.len() && 0 <= p < self.len() && !t.contains(p) implies #[trigger] self.before(
            t[a],
            p,
        ) by {
            assert(s.contains(p));
            let c = choose|c: int| 0 <= c < s.len() && s[c] == p;
            if c < k {
                assert(t[c] == p);
            }
            assert(self.before(s[a], s[c]));
        }
    }

    /// A sequence that holds all positions in this order is a permutation
    /// of them: it holds each position, and holds it once.
    pub proof fn lemma_permutation(self, s: Seq<int>)
        requires
            self.sorted_prefix(s),
            self.covered_by(s),
        ensures
            s.len() == self.len(),
            s.no_duplicates(),
            forall|a: int| 0 <= a < s.len() ==> 0 <= #[trigger] s[a] < self.len(),
            forall|p: int| 0 <= p < self.len() ==> s.contains(p),
    {
        self.lemma_no_duplicates(s);
    }

    /// Where the nulls come first, no value stands before a null; where
    /// they come last, no null stands before a value. So the nulls stand
    /// together at one end, whether the sort is descending or not.
    pub proof fn lemma_nulls_together(self, s: Seq<int>, a: int, b: int)
        requires
            self.sorted_prefix(s),
            0 <= a < b < s.len(),
        ensures
            self.nulls_first && !self.valid[s[b]] ==> !self.valid[s[a]],
            !self.nulls_first && !self.valid[s[a]] ==> !self.valid[s[b]],
    {
        assert(self.before(s[a], s[b]));
    }

    /// Of two values, the one that stands first has no larger key than the
    /// other, or no smaller one where the sort is descending.
    pub proof fn lemma_values_ordered(self, s: Seq<int>, a: int, b: int)
        requires
            self.sorted_prefix(s),
            0 <= a < b < s.len(),
            self.valid[s[a]],
            self.valid[s[b]],
        ensures
            !self.descending ==> !lex_lt(self.keys[s[b]], self.keys[s[a]]),
            self.descending ==> !lex_lt(self.keys[s[a]], self.keys[s[b]]),
    {
        assert(self.before(s[a], s[b]));
        let (x, y) = (self.keys[s[a]], self.keys[s[b]]);
        if x == y {
            lemma_lex_irreflexive(x, 0);
        } else if self.descending {
            lemma_lex_asymmetric(y, x, 0);
        } else {
            lemma_lex_asymmetric(x, y, 0);
        }
    }

    /// What a sort hands out under a limit is the start of what it hands
    /// out without one.
    pub proof fn lemma_limit(self, full: Seq<int>, part: Seq<int>)
        requires
            self.sorted_prefix(full),
            self.covered_by(full),
            self.sorted_prefix(part),
            part.len() <= full.len(),
        ensures
            part == full.take(part.len() as int),
    {
        self.lemma_prefix(full, part.len() as int);
        self.lemma_unique(part, full.take(part.len() as int));
    }

    /// A sequence that holds the first positions in this order holds none
    /// of them twice.
    pub proof fn lemma_no_duplicates(self, s: Seq<int>)
        requires
            self.sorted_prefix(s),
        ensures
            s.no_duplicates(),
    {
        assert forall|a: int, b: int| 0 <= a < s.len() && 0 <= b < s.len() && a != b implies s[a]
            != s[b] by {
            if a < b {
                assert(self.before(s[a], s[b]));
            } else {
                assert(self.before(s[b], s[a]));
            }
        }
    }

    /// No position comes before itself.
    pub proof fn lemma_irreflexive(self, i: int)
        ensures
            !self.before(i, i),
    {
    }

    /// Of two different positions, exactly one comes before the other.
    pub proof fn lemma_total(self, i: int, j: int)
        requires
            i != j,
        ensures
            self.before(i, j) != self.before(j, i),
    {
        if self.valid[i] == self.valid[j] && self.valid[i] && self.keys[i] != self.keys[j] {
            let (a, b) = (self.keys[i], self.keys[j]);
            if lex_lt(a, b) {
                lemma_lex_asymmetric(a, b, 0);
            } else if !lex_lt(b, a) {
                lemma_lex_total(a, b, 0);
            }
        }
    }

    /// The order is transitive.
    pub proof fn lemma_transitive(self, i: int, j: int, k: int)
        requires
            self.before(i, j),
            self.before(j, k),
        ensures
            self.before(i, k),
    {
        if self.valid[i] && self.valid[j] && self.valid[k] {
            lemma_precedes_transitive(self.keys, self.descending, i, j, k);
        }
    }

    /// Two sequences of one length that each hold the first positions in
    /// this order are one sequence.
    pub proof fn lemma_unique(self, s: Seq<int>, t: Seq<int>)
        requires
            self.sorted_prefix(s),
            self.sorted_prefix(t),
            s.len() == t.len(),
        ensures
            s == t,
    {
        assert forall|a: int| 0 <= a < s.len() implies s[a] == t[a] by {
            self.lemma_same_at(s, t, a);
        }
        assert(s =~= t);
    }

    /// Two sequences of one length that each hold the first positions in
    /// this order agree at each entry.
    proof fn lemma_same_at(self, s: Seq<int>, t: Seq<int>, a: int)
        requires
            self.sorted_prefix(s),
            self.sorted_prefix(t),
            s.len() == t.len(),
            0 <= a < s.len(),
        ensures
            s[a] == t[a],
        decreases a,
    {
        // Both agree before `a`.
        assert forall|c: int| 0 <= c < a implies s[c] == t[c] by {
            self.lemma_same_at(s, t, c);
        }
        if s[a] != t[a] {
            self.lemma_total(s[a], t[a]);
            self.lemma_misplaced(s, t, a);
            self.lemma_misplaced(t, s, a);
        }
    }

    /// Where two such sequences agree before entry `a`, the entry of the
    /// one at `a` does not come before that of the other.
    proof fn lemma_misplaced(self, s: Seq<int>, t: Seq<int>, a: int)
        requires
            self.sorted_prefix(s),
            self.sorted_prefix(t),
            s.len() == t.len(),
            0 <= a < s.len(),
            forall|c: int| 0 <= c < a ==> s[c] == t[c],
        ensures
            !self.before(s[a], t[a]),
    {
        let p = s[a];
        if self.before(p, t[a]) {
            // Then `t` holds `p`, and holds it before `a`.
            if !t.contains(p) {
                assert(self.before(t[a], p));
                self.lemma_total(p, t[a]);
            } else {
                let b = choose|b: int| 0 <= b < t.len() && t[b] == p;
                if b > a {
                    assert(self.before(t[a], t[b]));
                    self.lemma_total(p, t[a]);
                } else if b < a {
                    // Then `s` holds `p` twice.
                    assert(s[b] == p);
                    assert(self.before(s[b], s[a]));
                    self.lemma_irreflexive(p);
                } else {
                    self.lemma_irreflexive(p);
                }
            }
        }
    }
}

/// The positions of `s` as integers.
pub open spec fn as_positions(s: Seq<usize>) -> Seq<int> {
    s.map_values(|p: usize| p as int)
}

/// The order of valid positions is transitive.
pub proof fn lemma_precedes_transitive(
    keys: Seq<Seq<int>>,
    descending: bool,
    i: int,
    j: int,
    k: int,
)
    requires
        precedes(keys, descending, i, j),
        precedes(keys, descending, j, k),
    ensures
        precedes(keys, descending, i, k),
{
    let (a, b, c) = (keys[i], keys[j], keys[k]);
    if a == b || b == c {
        if a == c {
            // Then all three are equal, or `b` lies on both sides of `a`.
            if a != b {
                if descending {
                    lemma_lex_asymmetric(b, a, 0);
                } else {
                    lemma_lex_asymmetric(a, b, 0);
                }
            }
        }
    } else {
        if descending {
            lemma_lex_transitive(c, b, a, 0);
            if a == c {
                lemma_lex_irreflexive(a, 0);
            }
        } else {
            lemma_lex_transitive(a, b, c, 0);
            if a == c {
                lemma_lex_irreflexive(a, 0);
            }
        }
    }
}

/// Of two different valid positions, exactly one comes before the other.
pub proof fn lemma_precedes_total(keys: Seq<Seq<int>>, descending: bool, i: int, j: int)
    requires
        i != j,
    ensures
        precedes(keys, descending, i, j) != precedes(keys, descending, j, i),
{
    let (a, b) = (keys[i], keys[j]);
    if a != b {
        if lex_lt(a, b) {
            lemma_lex_asymmetric(a, b, 0);
        } else if !lex_lt(b, a) {
            lemma_lex_total(a, b, 0);
        }
    }
}

} // verus!

//! Ordering of match records for display: by pattern name, by rarity, by the
//! matched literal, or left as produced, optionally reversed.

use vstd::prelude::*;

use core::cmp::Ordering;

use crate::identifier::{Match, MatchView};
use crate::text::string_eq;

verus! {

/// What to order match records by.
pub enum SortKey {
    Name,
    Rarity,
    Matched,
    Unsorted,
}

/// A sorter: the key to order by and whether to reverse the order.
pub struct Sorter {
    pub key: SortKey,
    pub reverse: bool,
}

/// The reversed ordering when asked for, the given one otherwise.
pub open spec fn spec_reverse_conditionally(order: Ordering, reversed: bool) -> Ordering {
    if reversed {
        match order {
            Ordering::Less => Ordering::Greater,
            Ordering::Equal => Ordering::Equal,
            Ordering::Greater => Ordering::Less,
        }
    } else {
        order
    }
}

/// Reverses an ordering when asked for.
pub fn reverse_conditionally(order: Ordering, reversed: bool) -> (r: Ordering)
    ensures
        r == spec_reverse_conditionally(order, reversed),
{
    if reversed {
        match order {
            Ordering::Less => Ordering::Greater,
            Ordering::Equal => Ordering::Equal,
            Ordering::Greater => Ordering::Less,
        }
    } else {
        order
    }
}

/// Lexicographic order on character sequences, by code point.
pub open spec fn lex_le(a: Seq<char>, b: Seq<char>) -> bool
    decreases a.len(),
{
    if a.len() == 0 {
        true
    } else if b.len() == 0 {
        false
    } else if (a[0] as u32) < (b[0] as u32) {
        true
    } else if (a[0] as u32) > (b[0] as u32) {
        false
    } else {
        lex_le(a.drop_first(), b.drop_first())
    }
}

/// Lexicographic order is total.
pub proof fn lemma_lex_total(a: Seq<char>, b: Seq<char>)
    ensures
        lex_le(a, b) || lex_le(b, a),
    decreases a.len(),
{
    if a.len() > 0 && b.len() > 0 && (a[0] as u32) == (b[0] as u32) {
        lemma_lex_total(a.drop_first(), b.drop_first());
    }
}

/// Lexicographic order is transitive.
pub proof fn lemma_lex_trans(a: Seq<char>, b: Seq<char>, c: Seq<char>)
    requires
        lex_le(a, b),
        lex_le(b, c),
    ensures
        lex_le(a, c),
    decreases a.len(),
{
    if a.len() > 0 && b.len() > 0 && c.len() > 0 && (a[0] as u32) >= (b[0] as u32) && (b[0] as u32)
        >= (c[0] as u32) {
        lemma_lex_trans(a.drop_first(), b.drop_first(), c.drop_first());
    }
}

/// The base order of two match records under a key; an unsorted key orders
/// nothing (everything compares equal).
pub open spec fn key_le(key: SortKey, a: MatchView, b: MatchView) -> bool {
    match key {
        SortKey::Name => lex_le(a.name, b.name),
        SortKey::Rarity => a.rarity <= b.rarity,
        SortKey::Matched => lex_le(a.matched_on, b.matched_on),
        SortKey::Unsorted => true,
    }
}

/// The order the sorter arranges records in: the key order, reversed when
/// asked for.
pub open spec fn sort_le(key: SortKey, reversed: bool, a: MatchView, b: MatchView) -> bool {
    if reversed {
        key_le(key, b, a)
    } else {
        key_le(key, a, b)
    }
}

/// The sorter's order is total.
pub proof fn lemma_sort_le_total(key: SortKey, reversed: bool, a: MatchView, b: MatchView)
    ensures
        sort_le(key, reversed, a, b) || sort_le(key, reversed, b, a),
{
    match key {
        SortKey::Name => lemma_lex_total(a.name, b.name),
        SortKey::Matched => lemma_lex_total(a.matched_on, b.matched_on),
        _ => {},
    }
}

/// The sorter's order is transitive.
pub proof fn lemma_sort_le_trans(
    key: SortKey,
    reversed: bool,
    a: MatchView,
    b: MatchView,
    c: MatchView,
)
    requires
        sort_le(key, reversed, a, b),
        sort_le(key, reversed, b, c),
    ensures
        sort_le(key, reversed, a, c),
{
    match key {
        SortKey::Name => {
            if reversed {
                lemma_lex_trans(c.name, b.name, a.name);
            } else {
                lemma_lex_trans(a.name, b.name, c.name);
            }
        },
        SortKey::Matched => {
            if reversed {
                lemma_lex_trans(c.matched_on, b.matched_on, a.matched_on);
            } else {
                lemma_lex_trans(a.matched_on, b.matched_on, c.matched_on);
            }
        },
        _ => {},
    }
}

/// Exec lexicographic comparison of two strings.
fn lex_le_exec(a: &String, b: &String) -> (r: bool)
    ensures
        r == lex_le(a@, b@),
{
    let n = a.as_str().unicode_len();
    let m = b.as_str().unicode_len();
    let end = if n < m {
        n
    } else {
        m
    };
    let mut i: usize = 0;
    proof {
        assert(a@.skip(0) =~= a@);
        assert(b@.skip(0) =~= b@);
    }
    while i < end
        invariant
            n == a@.len(),
            m == b@.len(),
            end == if n < m {
                n
            } else {
                m
            },
            0 <= i <= end,
            lex_le(a@, b@) == lex_le(a@.skip(i as int), b@.skip(i as int)),
        decreases end - i,
    {
        let ca = a.as_str().get_char(i);
        let cb = b.as_str().get_char(i);
        proof {
            assert(a@.skip(i as int)[0] == ca);
            assert(b@.skip(i as int)[0] == cb);
            assert(a@.skip(i as int).drop_first() =~= a@.skip(i + 1));
            assert(b@.skip(i as int).drop_first() =~= b@.skip(i + 1));
        }
        if (ca as u32) < (cb as u32) {
            return true;
        }
        if (ca as u32) > (cb as u32) {
            return false;
        }
        i = i + 1;
    }
    proof {
        if n <= m {
            assert(a@.skip(i as int).len() == 0);
        } else {
            assert(a@.skip(i as int).len() > 0);
            assert(b@.skip(i as int).len() == 0);
        }
    }
    n <= m
}

/// Exec comparison of two match records under the sorter's order.
fn sort_le_exec(key: &SortKey, reversed: bool, a: &Match, b: &Match) -> (r: bool)
    ensures
        r == sort_le(*key, reversed, a@, b@),
{
    let (x, y) = if reversed {
        (b, a)
    } else {
        (a, b)
    };
    match key {
        SortKey::Name => lex_le_exec(&x.name, &y.name),
        SortKey::Rarity => x.rarity <= y.rarity,
        SortKey::Matched => lex_le_exec(&x.matched_on, &y.matched_on),
        SortKey::Unsorted => true,
    }
}

impl Sorter {
    /// Sets whether the order is reversed.
    pub fn reverse(self, reverse: bool) -> (r: Self)
        ensures
            r.key == self.key,
            r.reverse == reverse,
    {
        let mut this = self;
        this.reverse = reverse;
        this
    }

    /// Selects the sort key by its name: one of `name`, `rarity`, `matched`
    /// and `none`.
    pub fn key(self, key: &String) -> (r: Self)
        requires
            key@ == "name"@ || key@ == "rarity"@ || key@ == "matched"@ || key@ == "none"@,
        ensures
            r.reverse == self.reverse,
            key@ == "name"@ ==> r.key == SortKey::Name,
            key@ == "rarity"@ ==> r.key == SortKey::Rarity,
            key@ == "matched"@ ==> r.key == SortKey::Matched,
            key@ == "none"@ ==> r.key == SortKey::Unsorted,
    {
        proof {
            reveal_strlit("name");
            reveal_strlit("rarity");
            reveal_strlit("matched");
            reveal_strlit("none");
            assert("name"@.len() == 4 && "rarity"@.len() == 6 && "matched"@.len() == 7
                && "none"@.len() == 4);
            assert("name"@[1] == 'a' && "none"@[1] == 'o');
        }
        let mut this = self;
        this.key = if string_eq(key, "name") {
            SortKey::Name
        } else if string_eq(key, "rarity") {
            SortKey::Rarity
        } else if string_eq(key, "matched") {
            SortKey::Matched
        } else if string_eq(key, "none") {
            SortKey::Unsorted
        } else {
            proof {
                assert(false);
            }
            SortKey::Unsorted
        };
        this
    }

    /// Sorts the records in place by the sorter's key and direction: the
    /// result is a stable rearrangement of the input, ordered by the
    /// sorter's order — records that compare equal keep their original
    /// relative order; without a key the records are left exactly as they
    /// came.
    pub fn sort(self, matches: &mut Vec<Match>) -> (r: Self)
        ensures
            r == self,
            final(matches)@.to_multiset() == old(matches)@.to_multiset(),
            forall|p: int, q: int|
                0 <= p < q < final(matches)@.len() ==> sort_le(
                    self.key,
                    self.reverse,
                    final(matches)@[p]@,
                    final(matches)@[q]@,
                ),
            exists|idx: Seq<int>|
                #[trigger] arranged_by(old(matches)@, final(matches)@, idx) && stable_under(
                    self.key,
                    self.reverse,
                    final(matches)@,
                    idx,
                ),
            self.key is Unsorted ==> final(matches)@ == old(matches)@,
    {
        match self.key {
            SortKey::Unsorted => {
                proof {
                    let idx = Seq::new(matches@.len(), |k: int| k);
                    assert(arranged_by(matches@, matches@, idx));
                    assert(stable_under(self.key, self.reverse, matches@, idx));
                }
            },
            _ => {
                sort_matches(matches, &self.key, self.reverse);
            },
        }
        self
    }
}

/// `idx` names, for each slot of `post`, the slot of `pre` that its record
/// came from: a bijective rearrangement.
pub open spec fn arranged_by(pre: Seq<Match>, post: Seq<Match>, idx: Seq<int>) -> bool {
    &&& post.len() == pre.len()
    &&& idx.len() == pre.len()
    &&& forall|k: int| 0 <= k < idx.len() ==> 0 <= #[trigger] idx[k] < pre.len()
    &&& forall|k: int| 0 <= k < idx.len() ==> post[k] == pre[#[trigger] idx[k]]
    &&& forall|p: int, q: int|
        #![trigger idx[p], idx[q]]
        0 <= p < q < idx.len() ==> idx[p] != idx[q]
}

/// A rearrangement is stable under the sorter's order when records that
/// compare equal both ways keep their original relative order.
pub open spec fn stable_under(
    key: SortKey,
    reversed: bool,
    post: Seq<Match>,
    idx: Seq<int>,
) -> bool {
    forall|p: int, q: int|
        #![trigger idx[p], idx[q]]
        0 <= p < q < idx.len() && sort_le(key, reversed, post[q]@, post[p]@) ==> idx[p] < idx[q]
}

impl Default for Sorter {
    fn default() -> (r: Sorter)
        ensures
            r.key == SortKey::Unsorted,
            r.reverse == false,
    {
        Sorter { key: SortKey::Unsorted, reverse: false }
    }
}

/// Insertion sort of the records under the sorter's order: swaps adjacent
/// records downward until each sits above nothing larger.  A record is
/// swapped down only past records strictly above it, so equal-comparing
/// records keep their original order.
#[verifier::rlimit(100)]
fn sort_matches(v: &mut Vec<Match>, key: &SortKey, reversed: bool)
    ensures
        final(v)@.to_multiset() == old(v)@.to_multiset(),
        forall|p: int, q: int|
            0 <= p < q < final(v)@.len() ==> sort_le(*key, reversed, final(v)@[p]@, final(v)@[q]@),
        exists|idx: Seq<int>|
            #[trigger] arranged_by(old(v)@, final(v)@, idx) && stable_under(
                *key,
                reversed,
                final(v)@,
                idx,
            ),
{
    broadcast use vstd::seq_lib::group_to_multiset_ensures;

    let n = v.len();
    let ghost orig = v@;
    let ghost mut idx: Seq<int> = Seq::new(n as nat, |k: int| k);
    proof {
        assert(arranged_by(orig, v@, idx));
    }
    for i in 0..n
        invariant
            n == v@.len(),
            v@.to_multiset() == orig.to_multiset(),
            orig == old(v)@,
            arranged_by(orig, v@, idx),
            forall|k: int| i <= k < n ==> #[trigger] idx[k] == k,
            forall|k: int| 0 <= k < i ==> #[trigger] idx[k] < i,
            forall|p: int, q: int|
                0 <= p < q < i ==> sort_le(*key, reversed, v@[p]@, v@[q]@),
            forall|p: int, q: int|
                #![trigger idx[p], idx[q]]
                0 <= p < q < i && sort_le(*key, reversed, v@[q]@, v@[p]@) ==> idx[p] < idx[q],
    {
        let mut j = i;
        while j > 0 && !sort_le_exec(key, reversed, &v[j - 1], &v[j])
            invariant
                n == v@.len(),
                0 <= j <= i < n,
                v@.to_multiset() == orig.to_multiset(),
                orig == old(v)@,
                arranged_by(orig, v@, idx),
                forall|k: int| i < k < n ==> #[trigger] idx[k] == k,
                idx[j as int] == i,
                forall|k: int| 0 <= k <= i && k != j ==> #[trigger] idx[k] < i,
                forall|p: int, q: int|
                    0 <= p < q <= i && p != j && q != j ==> sort_le(
                        *key,
                        reversed,
                        v@[p]@,
                        v@[q]@,
                    ),
                forall|q: int| j < q <= i ==> sort_le(*key, reversed, v@[j as int]@, v@[q]@),
                forall|q: int|
                    j < q <= i ==> !sort_le(*key, reversed, #[trigger] v@[q]@, v@[j as int]@),
                forall|p: int, q: int|
                    #![trigger idx[p], idx[q]]
                    0 <= p < q <= i && p != j && q != j && sort_le(*key, reversed, v@[q]@, v@[p]@)
                        ==> idx[p] < idx[q],
            decreases j,
        {
            proof {
                lemma_sort_le_total(*key, reversed, v@[j - 1]@, v@[j as int]@);
            }
            let ghost before = v@;
            let moved = v.remove(j - 1);
            v.insert(j, moved);
            proof {
                broadcast use vstd::multiset::group_multiset_axioms;

                let m = before.to_multiset();
                let u1 = before.update(j - 1, before[j as int]);
                let u2 = u1.update(j as int, before[j - 1]);
                assert(v@ =~= u2);
                vstd::seq_lib::to_multiset_update(before, j - 1, before[j as int]);
                vstd::seq_lib::to_multiset_update(u1, j as int, before[j - 1]);
                vstd::seq_lib::to_multiset_contains(before, before[j - 1]);
                vstd::seq_lib::to_multiset_contains(before, before[j as int]);
                assert(before.contains(before[j - 1]) && before.contains(before[j as int]));
                assert(u1[j as int] == before[j as int]);
                assert(v@.to_multiset() =~= before.to_multiset());
                let prev_idx = idx;
                idx = idx.update(j - 1, prev_idx[j as int]).update(j as int, prev_idx[j - 1]);
                assert forall|k: int| 0 <= k < idx.len() implies v@[k] == orig[#[trigger] idx[k]]
                    && 0 <= idx[k] < orig.len() by {
                    if k != j - 1 && k != j {
                        assert(v@[k] == before[k] && idx[k] == prev_idx[k]);
                    }
                }
                assert forall|p: int, q: int|
                    #![trigger idx[p], idx[q]]
                    0 <= p < q < idx.len() implies idx[p] != idx[q] by {
                    if p != j - 1 && p != j && q != j - 1 && q != j {
                        assert(idx[p] == prev_idx[p] && idx[q] == prev_idx[q]);
                    }
                }
                assert(arranged_by(orig, v@, idx));
                assert forall|q: int| j - 1 < q <= i implies !sort_le(
                    *key,
                    reversed,
                    #[trigger] v@[q]@,
                    v@[j - 1]@,
                ) by {
                    if q != j {
                        assert(v@[q] == before[q] && v@[j - 1] == before[j as int]);
                    }
                }
                assert forall|p: int, q: int|
                    #![trigger idx[p], idx[q]]
                    0 <= p < q <= i && p != j - 1 && q != j - 1 && sort_le(
                        *key,
                        reversed,
                        v@[q]@,
                        v@[p]@,
                    ) implies idx[p] < idx[q] by {
                    if p == j {
                        assert(v@[p] == before[j - 1] && idx[p] == prev_idx[j - 1]);
                        assert(v@[q] == before[q] && idx[q] == prev_idx[q]);
                    } else if q == j {
                        assert(v@[q] == before[j - 1] && idx[q] == prev_idx[j - 1]);
                        assert(v@[p] == before[p] && idx[p] == prev_idx[p]);
                    } else {
                        assert(v@[p] == before[p] && idx[p] == prev_idx[p]);
                        assert(v@[q] == before[q] && idx[q] == prev_idx[q]);
                    }
                }
            }
            j = j - 1;
        }
        proof {
            assert forall|p: int, q: int| 0 <= p < q <= i implies sort_le(
                *key,
                reversed,
                v@[p]@,
                v@[q]@,
            ) by {
                if q == j {
                    if p < j - 1 {
                        lemma_sort_le_trans(*key, reversed, v@[p]@, v@[j - 1]@, v@[j as int]@);
                    }
                } else if p == j {
                }
            }
            assert forall|p: int, q: int|
                #![trigger idx[p], idx[q]]
                0 <= p < q <= i && sort_le(*key, reversed, v@[q]@, v@[p]@) implies idx[p]
                < idx[q] by {
                if q == j {
                    assert(idx[p] < i);
                } else if p == j {
                    assert(!sort_le(*key, reversed, v@[q]@, v@[j as int]@));
                }
            }
            assert forall|k: int| 0 <= k <= i implies #[trigger] idx[k] < i + 1 by {}
        }
    }
    proof {
        assert(arranged_by(old(v)@, v@, idx));
        assert(stable_under(*key, reversed, v@, idx));
    }
}

} // verus!

//! The ratings table of an evaluation.
//!
//! A table binds participant names to their current (opaque) rating
//! values.  It behaves as a map — one binding per name — and remembers
//! first-insertion order, so that replaying the same history always
//! lists participants in the same order.

use crate::names::str_eq;
use crate::Scalar;
use vstd::prelude::*;

verus! {

/// The rating bound to `name` in `pairs`; the first binding wins
/// (well-formed tables have at most one).
pub open spec fn spec_lookup(pairs: Seq<(Seq<char>, Scalar)>, name: Seq<char>) -> Option<Scalar>
    decreases pairs.len(),
{
    if pairs.len() == 0 {
        None
    } else if pairs[0].0 == name {
        Some(pairs[0].1)
    } else {
        spec_lookup(pairs.drop_first(), name)
    }
}

/// A name is bound iff it occurs among the keys.
pub proof fn lemma_lookup_iff_key(pairs: Seq<(Seq<char>, Scalar)>, name: Seq<char>)
    ensures
        (spec_lookup(pairs, name) is Some) <==> exists|i: int|
            0 <= i < pairs.len() && pairs[i].0 == name,
    decreases pairs.len(),
{
    if pairs.len() > 0 && pairs[0].0 != name {
        lemma_lookup_iff_key(pairs.drop_first(), name);
        if spec_lookup(pairs, name) is Some {
            let i = choose|i: int|
                0 <= i < pairs.drop_first().len() && pairs.drop_first()[i].0 == name;
            assert(pairs[i + 1].0 == name);
        }
        if exists|i: int| 0 <= i < pairs.len() && pairs[i].0 == name {
            let i = choose|i: int| 0 <= i < pairs.len() && pairs[i].0 == name;
            assert(pairs.drop_first()[i - 1].0 == name);
        }
    }
}

/// Replacing the value of the first binding of a name changes that
/// binding's lookup.
proof fn lemma_lookup_update_same(
    pairs: Seq<(Seq<char>, Scalar)>,
    pos: int,
    value: Scalar,
    name: Seq<char>,
)
    requires
        0 <= pos < pairs.len(),
        pairs[pos].0 == name,
        forall|i: int| 0 <= i < pos ==> pairs[i].0 != name,
    ensures
        spec_lookup(pairs.update(pos, (name, value)), name) == Some(value),
    decreases pos,
{
    let updated = pairs.update(pos, (name, value));
    if pos == 0 {
        assert(updated[0] == (name, value));
    } else {
        lemma_lookup_update_same(pairs.drop_first(), pos - 1, value, name);
        assert(updated.drop_first() =~= pairs.drop_first().update(pos - 1, (name, value)));
        assert(updated[0] == pairs[0]);
    }
}

/// Replacing the value of one binding leaves every other name's lookup
/// unchanged.
proof fn lemma_lookup_update_other(
    pairs: Seq<(Seq<char>, Scalar)>,
    pos: int,
    value: Scalar,
    name: Seq<char>,
    k: Seq<char>,
)
    requires
        0 <= pos < pairs.len(),
        pairs[pos].0 == name,
        k != name,
    ensures
        spec_lookup(pairs.update(pos, (name, value)), k) == spec_lookup(pairs, k),
    decreases pos,
{
    let updated = pairs.update(pos, (name, value));
    if pos == 0 {
        assert(updated[0] == (name, value));
        assert(updated.drop_first() =~= pairs.drop_first());
    } else {
        lemma_lookup_update_other(pairs.drop_first(), pos - 1, value, name, k);
        assert(updated.drop_first() =~= pairs.drop_first().update(pos - 1, (name, value)));
        assert(updated[0] == pairs[0]);
    }
}

/// Appending a binding for an absent name makes that name's lookup the
/// new value.
proof fn lemma_lookup_push_same(pairs: Seq<(Seq<char>, Scalar)>, entry: (Seq<char>, Scalar))
    requires
        spec_lookup(pairs, entry.0) is None,
    ensures
        spec_lookup(pairs.push(entry), entry.0) == Some(entry.1),
    decreases pairs.len(),
{
    if pairs.len() == 0 {
        assert(pairs.push(entry)[0] == entry);
    } else {
        lemma_lookup_push_same(pairs.drop_first(), entry);
        assert(pairs.push(entry)[0] == pairs[0]);
        assert(pairs.push(entry).drop_first() =~= pairs.drop_first().push(entry));
    }
}

/// Appending a binding leaves every other name's lookup unchanged.
proof fn lemma_lookup_push_other(
    pairs: Seq<(Seq<char>, Scalar)>,
    entry: (Seq<char>, Scalar),
    k: Seq<char>,
)
    requires
        k != entry.0,
    ensures
        spec_lookup(pairs.push(entry), k) == spec_lookup(pairs, k),
    decreases pairs.len(),
{
    if pairs.len() == 0 {
        assert(pairs.push(entry)[0] == entry);
        assert(pairs.push(entry).drop_first() =~= pairs);
    } else {
        lemma_lookup_push_other(pairs.drop_first(), entry, k);
        assert(pairs.push(entry)[0] == pairs[0]);
        assert(pairs.push(entry).drop_first() =~= pairs.drop_first().push(entry));
    }
}

/// The position of the first binding of `name`, or the length of the
/// table when `name` is absent.
pub open spec fn key_index(pairs: Seq<(Seq<char>, Scalar)>, name: Seq<char>) -> int
    decreases pairs.len(),
{
    if pairs.len() == 0 {
        0
    } else if pairs[0].0 == name {
        0
    } else {
        1 + key_index(pairs.drop_first(), name)
    }
}

pub proof fn lemma_key_index(pairs: Seq<(Seq<char>, Scalar)>, name: Seq<char>)
    ensures
        0 <= key_index(pairs, name) <= pairs.len(),
        spec_lookup(pairs, name) is Some ==> key_index(pairs, name) < pairs.len()
            && pairs[key_index(pairs, name)].0 == name,
        spec_lookup(pairs, name) is None ==> key_index(pairs, name) == pairs.len(),
        forall|m: int| 0 <= m < key_index(pairs, name) ==> pairs[m].0 != name,
    decreases pairs.len(),
{
    if pairs.len() > 0 && pairs[0].0 != name {
        lemma_key_index(pairs.drop_first(), name);
        let ki = key_index(pairs, name);
        assert forall|m: int| 0 <= m < ki implies pairs[m].0 != name by {
            if m > 0 {
                assert(pairs.drop_first()[m - 1].0 != name);
            }
        }
        if spec_lookup(pairs, name) is Some {
            assert(pairs[ki] == pairs.drop_first()[ki - 1]);
        }
    }
}

/// The table after binding `name` to `value`: an existing binding is
/// replaced in place, a new one is appended.
pub open spec fn spec_set(
    pairs: Seq<(Seq<char>, Scalar)>,
    name: Seq<char>,
    value: Scalar,
) -> Seq<(Seq<char>, Scalar)> {
    if spec_lookup(pairs, name) is Some {
        pairs.update(key_index(pairs, name), (name, value))
    } else {
        pairs.push((name, value))
    }
}

/// A participant-ratings table.
#[derive(Debug, PartialEq, Eq)]
pub struct Ratings {
    entries: Vec<(String, Scalar)>,
}

impl View for Ratings {
    type V = Seq<(Seq<char>, Scalar)>;

    /// The bindings, as (name, rating) pairs in insertion order.
    closed spec fn view(&self) -> Seq<(Seq<char>, Scalar)> {
        self.entries@.map_values(|p: (String, Scalar)| (p.0@, p.1))
    }
}

impl Ratings {
    /// The names bound by the table, in insertion order.
    pub open spec fn key_seq(self) -> Seq<Seq<char>> {
        self@.map_values(|p: (Seq<char>, Scalar)| p.0)
    }

    /// Whether `name` is bound.
    pub open spec fn contains_name(self, name: Seq<char>) -> bool {
        spec_lookup(self@, name) is Some
    }

    /// Each name is bound at most once.
    pub open spec fn wf(self) -> bool {
        forall|i: int, j: int| 0 <= i < j < self@.len() ==> self@[i].0 != self@[j].0
    }

    /// An empty table.
    pub fn new() -> (r: Ratings)
        ensures
            r@ == Seq::<(Seq<char>, Scalar)>::empty(),
            r.wf(),
    {
        let r = Ratings { entries: Vec::new() };
        proof {
            assert(r@ =~= Seq::<(Seq<char>, Scalar)>::empty());
        }
        r
    }

    /// The number of bound names.
    pub fn len(&self) -> (r: usize)
        ensures
            r == self@.len(),
    {
        self.entries.len()
    }

    /// The name of the `i`-th binding.
    pub fn name_at(&self, i: usize) -> (r: String)
        requires
            i < self@.len(),
        ensures
            r@ == self@[i as int].0,
    {
        self.entries[i].0.clone()
    }

    /// The rating bound to `name`, if any.
    pub fn get(&self, name: &str) -> (r: Option<Scalar>)
        ensures
            r == spec_lookup(self@, name@),
    {
        let n = self.entries.len();
        let mut i: usize = 0;
        proof {
            assert(self@.skip(0) =~= self@);
        }
        while i < n
            invariant
                i <= n,
                n == self@.len(),
                spec_lookup(self@, name@) == spec_lookup(self@.skip(i as int), name@),
            decreases n - i,
        {
            proof {
                assert(self@.skip(i as int)[0] == self@[i as int]);
                assert(self@.skip(i as int).drop_first() =~= self@.skip(i + 1));
            }
            if str_eq(self.entries[i].0.as_str(), name) {
                return Some(self.entries[i].1);
            }
            i += 1;
        }
        None
    }

    /// Whether `name` is bound.
    pub fn contains(&self, name: &str) -> (r: bool)
        ensures
            r == self.contains_name(name@),
    {
        self.get(name).is_some()
    }

    /// Binds `name` to `value`, replacing an existing binding in place
    /// or appending a new one.
    pub fn set(&mut self, name: &str, value: Scalar)
        requires
            old(self).wf(),
        ensures
            final(self).wf(),
            final(self)@ == spec_set(old(self)@, name@, value),
            spec_lookup(final(self)@, name@) == Some(value),
            forall|k: Seq<char>|
                k != name@ ==> spec_lookup(final(self)@, k) == spec_lookup(old(self)@, k),
            final(self).key_seq() == if old(self).contains_name(name@) {
                old(self).key_seq()
            } else {
                old(self).key_seq().push(name@)
            },
    {
        let ghost orig = self@;
        let n = self.entries.len();
        let mut i: usize = 0;
        while i < n
            invariant
                i <= n,
                n == self@.len(),
                self@ == orig,
                orig == old(self)@,
                forall|a: int, b: int| 0 <= a < b < orig.len() ==> orig[a].0 != orig[b].0,
                forall|k: int| 0 <= k < i ==> self@[k].0 != name@,
            decreases n - i,
        {
            if str_eq(self.entries[i].0.as_str(), name) {
                proof {
                    assert(orig[i as int].0 == name@);
                    lemma_lookup_update_same(orig, i as int, value, name@);
                    lemma_lookup_iff_key(orig, name@);
                    lemma_key_index(orig, name@);
                    let ki = key_index(orig, name@);
                    if ki < i as int {
                        assert(orig[ki].0 != name@);
                    }
                    assert(ki == i as int);
                }
                let owned = String::from_str(name);
                self.entries.set(i, (owned, value));
                proof {
                    assert(self@ =~= orig.update(i as int, (name@, value)));
                    assert forall|k: Seq<char>|
                        k != name@ implies spec_lookup(self@, k) == spec_lookup(orig, k) by {
                        lemma_lookup_update_other(orig, i as int, value, name@, k);
                    }
                    assert(self.key_seq() =~= old(self).key_seq());
                    assert forall|a: int, b: int| 0 <= a < b < self@.len() implies self@[a].0
                        != self@[b].0 by {
                        assert(orig[a].0 != orig[b].0);
                    }
                }
                return ;
            }
            i += 1;
        }
        proof {
            lemma_lookup_iff_key(orig, name@);
            assert(spec_lookup(orig, name@) is None);
        }
        let owned = String::from_str(name);
        self.entries.push((owned, value));
        proof {
            assert(self@ =~= orig.push((name@, value)));
            assert(spec_set(orig, name@, value) == orig.push((name@, value)));
            lemma_lookup_push_same(orig, (name@, value));
            assert forall|k: Seq<char>|
                k != name@ implies spec_lookup(self@, k) == spec_lookup(orig, k) by {
                lemma_lookup_push_other(orig, (name@, value), k);
            }
            assert(self.key_seq() =~= old(self).key_seq().push(name@));
            assert forall|a: int, b: int| 0 <= a < b < self@.len() implies self@[a].0
                != self@[b].0 by {
                if b == self@.len() - 1 {
                    lemma_lookup_iff_key(orig, self@[a].0);
                }
            }
        }
    }
}

} // verus!

//! Key-value items, kept in the order of their keys.

use crate::text::{chars_of, owned, same_text};
use vstd::prelude::*;

verus! {

/// `a` comes before `b` in the order of code points.
pub open spec fn text_less(a: Seq<char>, b: Seq<char>) -> bool
    decreases a.len(),
{
    if b.len() == 0 {
        false
    } else if a.len() == 0 {
        true
    } else if a[0] != b[0] {
        a[0] < b[0]
    } else {
        text_less(a.drop_first(), b.drop_first())
    }
}

/// No text comes before itself.
proof fn lemma_irreflexive(a: Seq<char>)
    ensures
        !text_less(a, a),
    decreases a.len(),
{
    if a.len() > 0 {
        lemma_irreflexive(a.drop_first());
    }
}

/// The order is transitive.
proof fn lemma_transitive(a: Seq<char>, b: Seq<char>, c: Seq<char>)
    requires
        text_less(a, b),
        text_less(b, c),
    ensures
        text_less(a, c),
    decreases a.len(),
{
    if a.len() > 0 && b.len() > 0 && c.len() > 0 && a[0] == b[0] && b[0] == c[0] {
        lemma_transitive(a.drop_first(), b.drop_first(), c.drop_first());
    }
}

/// Two different texts are ordered.
proof fn lemma_total(a: Seq<char>, b: Seq<char>)
    ensures
        a == b || text_less(a, b) || text_less(b, a),
    decreases a.len(),
{
    if a.len() > 0 && b.len() > 0 {
        if a[0] == b[0] {
            lemma_total(a.drop_first(), b.drop_first());
            if a.drop_first() == b.drop_first() {
                assert(seq![a[0]] + a.drop_first() =~= a);
                assert(seq![b[0]] + b.drop_first() =~= b);
            }
        }
    } else if a.len() == 0 && b.len() == 0 {
        assert(a =~= b);
    }
}

/// Whether `a` comes before `b`.
pub fn comes_before(a: &str, b: &str) -> (r: bool)
    ensures
        r == text_less(a@, b@),
{
    let x = chars_of(a);
    let y = chars_of(b);
    let mut i: usize = 0;
    assert(x@.skip(0) =~= x@);
    assert(y@.skip(0) =~= y@);
    while i < x.len() && i < y.len()
        invariant
            i <= x@.len(),
            i <= y@.len(),
            text_less(x@, y@) == text_less(x@.skip(i as int), y@.skip(i as int)),
            x@ == a@,
            y@ == b@,
        decreases x@.len() - i,
    {
        assert(x@.skip(i as int).drop_first() =~= x@.skip(i + 1));
        assert(y@.skip(i as int).drop_first() =~= y@.skip(i + 1));
        if x[i] != y[i] {
            return x[i] < y[i];
        }
        i = i + 1;
    }
    i < y.len()
}

/// Keys and values as characters.
pub open spec fn pairs(entries: Seq<(String, String)>) -> Seq<(Seq<char>, Seq<char>)> {
    Seq::new(entries.len(), |i: int| (entries[i].0@, entries[i].1@))
}

/// Each key comes before the keys behind it.
pub open spec fn sorted(p: Seq<(Seq<char>, Seq<char>)>) -> bool {
    forall|i: int, j: int| 0 <= i < j < p.len() ==> text_less(#[trigger] p[i].0, #[trigger] p[j].0)
}

/// The map that the pairs make up.
pub open spec fn pairs_map(p: Seq<(Seq<char>, Seq<char>)>) -> Map<Seq<char>, Seq<char>>
    decreases p.len(),
{
    if p.len() == 0 {
        Map::empty()
    } else {
        pairs_map(p.drop_last()).insert(p.last().0, p.last().1)
    }
}

/// A key is in the map exactly where it stands among the pairs.
proof fn lemma_pairs_map(p: Seq<(Seq<char>, Seq<char>)>)
    requires
        sorted(p),
    ensures
        forall|i: int|
            0 <= i < p.len() ==> pairs_map(p).contains_key((#[trigger] p[i]).0) && pairs_map(
                p,
            )[p[i].0] == p[i].1,
        forall|k: Seq<char>| #[trigger]
            pairs_map(p).contains_key(k) ==> exists|i: int| 0 <= i < p.len() && (#[trigger] p[i]).0 == k,
    decreases p.len(),
{
    if p.len() > 0 {
        let q = p.drop_last();
        assert forall|i: int, j: int| 0 <= i < j < q.len() implies text_less(
            #[trigger] q[i].0,
            #[trigger] q[j].0,
        ) by {
            assert(q[i] == p[i]);
            assert(q[j] == p[j]);
        }
        lemma_pairs_map(q);
        assert forall|i: int| 0 <= i < p.len() implies pairs_map(p).contains_key((#[trigger] p[i]).0)
            && pairs_map(p)[p[i].0] == p[i].1 by {
            if i < q.len() {
                assert(q[i] == p[i]);
                assert(text_less(p[i].0, p[p.len() - 1].0));
                lemma_irreflexive(p[i].0);
            }
        }
        assert forall|k: Seq<char>| #[trigger] pairs_map(p).contains_key(k) implies exists|i: int|
            0 <= i < p.len() && (#[trigger] p[i]).0 == k by {
            if k == p.last().0 {
                assert(p[p.len() - 1].0 == k);
            } else {
                assert(pairs_map(q).contains_key(k));
                let i = choose|i: int| 0 <= i < q.len() && (#[trigger] q[i]).0 == k;
                assert(p[i].0 == k);
            }
        }
    }
}

/// Two sorted lists of pairs with the same content make up the same map.
proof fn lemma_same_map(
    p: Seq<(Seq<char>, Seq<char>)>,
    m: Map<Seq<char>, Seq<char>>,
)
    requires
        sorted(p),
        forall|i: int|
            0 <= i < p.len() ==> m.contains_key((#[trigger] p[i]).0) && m[p[i].0] == p[i].1,
        forall|k: Seq<char>| #[trigger]
            m.contains_key(k) ==> exists|i: int| 0 <= i < p.len() && (#[trigger] p[i]).0 == k,
    ensures
        pairs_map(p) == m,
{
    lemma_pairs_map(p);
    assert forall|k: Seq<char>| pairs_map(p).contains_key(k) implies m.contains_key(k) && m[k]
        == pairs_map(p)[k] by {
        let i = choose|i: int| 0 <= i < p.len() && (#[trigger] p[i]).0 == k;
        assert(m.contains_key(p[i].0));
    }
    assert forall|k: Seq<char>| m.contains_key(k) implies pairs_map(p).contains_key(k) by {
        let i = choose|i: int| 0 <= i < p.len() && (#[trigger] p[i]).0 == k;
        assert(pairs_map(p).contains_key(p[i].0));
    }
    assert(pairs_map(p) =~= m);
}

/// Key-value items without duplicate keys, in the order of their keys.
#[derive(Debug, PartialEq, Eq)]
pub struct LogItems {
    entries: Vec<(String, String)>,
}

impl View for LogItems {
    type V = Map<Seq<char>, Seq<char>>;

    closed spec fn view(&self) -> Map<Seq<char>, Seq<char>> {
        pairs_map(pairs(self.entries@))
    }
}

impl Clone for LogItems {
    fn clone(&self) -> (r: Self)
        ensures
            r@ == self@,
            self.wf() ==> r.wf(),
    {
        let mut entries: Vec<(String, String)> = Vec::new();
        let mut i: usize = 0;
        while i < self.entries.len()
            invariant
                i <= self.entries@.len(),
                entries@.len() == i,
                forall|j: int|
                    0 <= j < i ==> (#[trigger] entries@[j]).0@ == self.entries@[j].0@ && entries@[j].1@
                        == self.entries@[j].1@,
            decreases self.entries@.len() - i,
        {
            entries.push((owned(self.entries[i].0.as_str()), owned(self.entries[i].1.as_str())));
            i = i + 1;
        }
        assert(pairs(entries@) =~= pairs(self.entries@));
        LogItems { entries }
    }
}

impl LogItems {
    /// The keys are in order, each one once.
    pub closed spec fn wf(&self) -> bool {
        sorted(pairs(self.entries@))
    }

    /// No items.
    pub fn new() -> (r: Self)
        ensures
            r.wf(),
            r@ == Map::<Seq<char>, Seq<char>>::empty(),
    {
        LogItems { entries: Vec::new() }
    }

    /// The items in the order of their keys.
    pub fn entries(&self) -> (r: &Vec<(String, String)>)
        requires
            self.wf(),
        ensures
            sorted(pairs(r@)),
            pairs_map(pairs(r@)) == self@,
    {
        &self.entries
    }

    /// The index of the first entry whose key does not come before `key`.
    fn position(&self, key: &str) -> (r: usize)
        requires
            self.wf(),
        ensures
            r <= self.entries@.len(),
            forall|i: int| 0 <= i < r ==> text_less((#[trigger] self.entries@[i]).0@, key@),
            r < self.entries@.len() ==> !text_less(self.entries@[r as int].0@, key@),
    {
        let mut i: usize = 0;
        while i < self.entries.len() && comes_before(self.entries[i].0.as_str(), key)
            invariant
                i <= self.entries@.len(),
                forall|j: int| 0 <= j < i ==> text_less((#[trigger] self.entries@[j]).0@, key@),
            decreases self.entries@.len() - i,
        {
            i = i + 1;
        }
        i
    }

    /// A key stands where `position` points, or nowhere.
    proof fn lemma_position(&self, key: Seq<char>, at: int)
        requires
            self.wf(),
            0 <= at <= self.entries@.len(),
            forall|i: int| 0 <= i < at ==> text_less((#[trigger] self.entries@[i]).0@, key),
            at < self.entries@.len() ==> !text_less(self.entries@[at].0@, key),
        ensures
            self@.contains_key(key) <==> at < self.entries@.len() && self.entries@[at].0@ == key,
            at < self.entries@.len() && self.entries@[at].0@ == key ==> self@[key]
                == self.entries@[at].1@,
            at < self.entries@.len() && self.entries@[at].0@ != key ==> forall|j: int|
                at <= j < self.entries@.len() ==> text_less(key, (#[trigger] self.entries@[j]).0@),
    {
        let p = pairs(self.entries@);
        lemma_pairs_map(p);
        if at < p.len() {
            assert(p[at].0 == self.entries@[at].0@);
            lemma_total(p[at].0, key);
            if p[at].0 != key {
                assert forall|j: int| at <= j < self.entries@.len() implies text_less(
                    key,
                    (#[trigger] self.entries@[j]).0@,
                ) by {
                    if j > at {
                        assert(text_less(p[at].0, p[j].0));
                        lemma_transitive(key, p[at].0, p[j].0);
                    }
                }
            }
        }
        if self@.contains_key(key) {
            let i = choose|i: int| 0 <= i < p.len() && (#[trigger] p[i]).0 == key;
            lemma_irreflexive(key);
            assert(self.entries@[i].0@ == key);
        }
    }

    /// The value of a key.
    pub fn get(&self, key: &str) -> (r: Option<&str>)
        requires
            self.wf(),
        ensures
            r is Some <==> self@.contains_key(key@),
            r matches Some(v) ==> v@ == self@[key@],
    {
        let at = self.position(key);
        proof {
            self.lemma_position(key@, at as int);
        }
        if at < self.entries.len() && same_text(self.entries[at].0.as_str(), key) {
            Some(self.entries[at].1.as_str())
        } else {
            None
        }
    }

    /// Adds an item where its key is new.
    pub fn insert_if_absent(&mut self, key: &str, value: &str)
        requires
            old(self).wf(),
        ensures
            final(self).wf(),
            final(self)@ == if old(self)@.contains_key(key@) {
                old(self)@
            } else {
                old(self)@.insert(key@, value@)
            },
    {
        let at = self.position(key);
        proof {
            self.lemma_position(key@, at as int);
        }
        if at < self.entries.len() && same_text(self.entries[at].0.as_str(), key) {
            return;
        }
        let ghost before = pairs(self.entries@);
        self.entries.insert(at, (owned(key), owned(value)));
        proof {
            let after = pairs(self.entries@);
            assert(after =~= before.insert(at as int, (key@, value@)));
            lemma_pairs_map(before);
            assert forall|i: int, j: int| 0 <= i < j < after.len() implies text_less(
                #[trigger] after[i].0,
                #[trigger] after[j].0,
            ) by {
                let a: int = if i < at {
                    i
                } else {
                    i - 1
                };
                let b: int = if j < at {
                    j
                } else {
                    j - 1
                };
                if i != at && j != at {
                    assert(text_less(before[a].0, before[b].0));
                } else if i == at {
                    assert(old(self).entries@[b].0@ == before[b].0);
                } else {
                    assert(old(self).entries@[a].0@ == before[a].0);
                }
            }
            let m = old(self)@.insert(key@, value@);
            assert forall|i: int| 0 <= i < after.len() implies m.contains_key(
                (#[trigger] after[i]).0,
            ) && m[after[i].0] == after[i].1 by {
                if i < at {
                    assert(after[i] == before[i]);
                } else if i > at {
                    assert(after[i] == before[i - 1]);
                }
            }
            assert forall|k: Seq<char>| #[trigger] m.contains_key(k) implies exists|i: int|
                0 <= i < after.len() && (#[trigger] after[i]).0 == k by {
                if k == key@ {
                    assert(after[at as int].0 == k);
                } else {
                    assert(pairs_map(before).contains_key(k));
                    let i = choose|i: int| 0 <= i < before.len() && (#[trigger] before[i]).0 == k;
                    if i < at {
                        assert(after[i].0 == k);
                    } else {
                        assert(after[i + 1].0 == k);
                    }
                }
            }
            lemma_same_map(after, m);
        }
    }

    /// Removes an item.
    pub fn remove(&mut self, key: &str)
        requires
            old(self).wf(),
        ensures
            final(self).wf(),
            final(self)@ == old(self)@.remove(key@),
    {
        let at = self.position(key);
        proof {
            self.lemma_position(key@, at as int);
        }
        if !(at < self.entries.len() && same_text(self.entries[at].0.as_str(), key)) {
            assert(self@.remove(key@) =~= self@);
            return;
        }
        let ghost before = pairs(self.entries@);
        self.entries.remove(at);
        proof {
            let after = pairs(self.entries@);
            assert(after =~= before.remove(at as int));
            lemma_pairs_map(before);
            let m = old(self)@.remove(key@);
            assert forall|i: int, j: int| 0 <= i < j < after.len() implies text_less(
                #[trigger] after[i].0,
                #[trigger] after[j].0,
            ) by {
                let a: int = if i < at {
                    i
                } else {
                    i + 1
                };
                let b: int = if j < at {
                    j
                } else {
                    j + 1
                };
                assert(text_less(before[a].0, before[b].0));
            }
            assert forall|i: int| 0 <= i < after.len() implies m.contains_key(
                (#[trigger] after[i]).0,
            ) && m[after[i].0] == after[i].1 by {
                let a: int = if i < at {
                    i
                } else {
                    i + 1
                };
                assert(after[i] == before[a]);
                lemma_irreflexive(key@);
                if a < at {
                    assert(text_less(before[a].0, before[at as int].0));
                } else {
                    assert(text_less(before[at as int].0, before[a].0));
                }
            }
            assert forall|k: Seq<char>| #[trigger] m.contains_key(k) implies exists|i: int|
                0 <= i < after.len() && (#[trigger] after[i]).0 == k by {
                assert(pairs_map(before).contains_key(k));
                let i = choose|i: int| 0 <= i < before.len() && (#[trigger] before[i]).0 == k;
                if i < at {
                    assert(after[i].0 == k);
                } else {
                    assert(after[i - 1].0 == k);
                }
            }
            lemma_same_map(after, m);
        }
    }
}

}

//! A map from string keys to values with unique keys kept in ascending
//! order, as an ordered map walks them. It holds a pet's actions (action
//! name to frame sequence) and the localized names of a gallery entry.

use vstd::prelude::*;

use crate::text::chars_of;

verus! {

/// Lexicographic order on character sequences (code point order, which for
/// strings is the order of their UTF-8 bytes).
pub open spec fn key_lt(a: Seq<char>, b: Seq<char>) -> bool
    decreases a.len(),
{
    if a.len() == 0 {
        b.len() > 0
    } else if b.len() == 0 {
        false
    } else if a[0] != b[0] {
        a[0] < b[0]
    } else {
        key_lt(a.drop_first(), b.drop_first())
    }
}

pub proof fn lemma_key_lt_irreflexive(a: Seq<char>)
    ensures
        !key_lt(a, a),
    decreases a.len(),
{
    if a.len() > 0 {
        lemma_key_lt_irreflexive(a.drop_first());
    }
}

pub proof fn lemma_key_lt_total(a: Seq<char>, b: Seq<char>)
    ensures
        a != b ==> key_lt(a, b) || key_lt(b, a),
        !(key_lt(a, b) && key_lt(b, a)),
    decreases a.len(),
{
    if a.len() > 0 && b.len() > 0 {
        if a[0] == b[0] {
            lemma_key_lt_total(a.drop_first(), b.drop_first());
            if a != b {
                assert(a.drop_first() != b.drop_first()) by {
                    if a.drop_first() == b.drop_first() {
                        assert(a =~= seq![a[0]] + a.drop_first());
                        assert(b =~= seq![b[0]] + b.drop_first());
                    }
                }
            }
        }
    } else if a.len() == 0 && b.len() == 0 {
        assert(a =~= b);
    }
}

pub proof fn lemma_key_lt_transitive(a: Seq<char>, b: Seq<char>, c: Seq<char>)
    requires
        key_lt(a, b),
        key_lt(b, c),
    ensures
        key_lt(a, c),
    decreases a.len(),
{
    if a.len() > 0 && b.len() > 0 && c.len() > 0 {
        if a[0] == b[0] && b[0] == c[0] {
            lemma_key_lt_transitive(a.drop_first(), b.drop_first(), c.drop_first());
        }
    }
}

/// Result of comparing two keys.
pub enum KeyOrder {
    Less,
    Equal,
    Greater,
}

/// Compares two keys by `key_lt`.
pub fn compare_keys(a: &Vec<char>, b: &Vec<char>) -> (r: KeyOrder)
    ensures
        r is Less <==> key_lt(a@, b@),
        r is Equal <==> a@ == b@,
        r is Greater <==> key_lt(b@, a@),
{
    proof {
        lemma_key_lt_total(a@, b@);
        lemma_key_lt_irreflexive(a@);
        assert(a@.subrange(0, a.len() as int) =~= a@);
        assert(b@.subrange(0, b.len() as int) =~= b@);
    }
    let mut i: usize = 0;
    while i < a.len() && i < b.len()
        invariant
            i <= a.len(),
            i <= b.len(),
            a@.subrange(0, i as int) == b@.subrange(0, i as int),
            key_lt(a@, b@) == key_lt(a@.subrange(i as int, a.len() as int), b@.subrange(i as int, b.len() as int)),
            key_lt(b@, a@) == key_lt(b@.subrange(i as int, b.len() as int), a@.subrange(i as int, a.len() as int)),
        decreases a.len() - i,
    {
        let ca = a[i];
        let cb = b[i];
        let ghost ra = a@.subrange(i as int, a.len() as int);
        let ghost rb = b@.subrange(i as int, b.len() as int);
        if ca != cb {
            proof {
                assert(ra[0] == ca && rb[0] == cb);
                if a@ == b@ {
                    assert(a@[i as int] == b@[i as int]);
                }
            }
            if ca < cb {
                return KeyOrder::Less;
            } else {
                return KeyOrder::Greater;
            }
        }
        proof {
            assert(ra.drop_first() =~= a@.subrange(i + 1, a.len() as int));
            assert(rb.drop_first() =~= b@.subrange(i + 1, b.len() as int));
            assert(a@.subrange(0, i + 1) =~= a@.subrange(0, i as int).push(ca));
            assert(b@.subrange(0, i + 1) =~= b@.subrange(0, i as int).push(cb));
        }
        i = i + 1;
    }
    if a.len() == b.len() {
        proof {
            assert(a@ =~= a@.subrange(0, i as int));
            assert(b@ =~= b@.subrange(0, i as int));
        }
        KeyOrder::Equal
    } else if a.len() < b.len() {
        proof {
            assert(a@ != b@);
        }
        KeyOrder::Less
    } else {
        proof {
            assert(a@ != b@);
        }
        KeyOrder::Greater
    }
}

/// The keys of a sequence of entries are strictly ascending.
pub open spec fn keys_ascending<V>(entries: Seq<(Seq<char>, V)>) -> bool {
    forall|i: int, j: int|
        0 <= i < j < entries.len() ==> #[trigger] key_lt(entries[i].0, entries[j].0)
}

/// A string-keyed map with unique keys in ascending order.
pub struct KeyedMap<V> {
    entries: Vec<(String, V)>,
}

impl<V> KeyedMap<V> {
    /// The entries, as (key, value) pairs in ascending key order.
    pub closed spec fn view(&self) -> Seq<(Seq<char>, V)> {
        self.entries@.map_values(|e: (String, V)| (e.0@, e.1))
    }

    #[verifier::type_invariant]
    closed spec fn inv(&self) -> bool {
        keys_ascending(self.view())
    }

    /// An empty map.
    pub fn new() -> (m: Self)
        ensures
            m.view() == Seq::<(Seq<char>, V)>::empty(),
    {
        let m = KeyedMap { entries: Vec::new() };
        proof {
            assert(m.view() =~= Seq::<(Seq<char>, V)>::empty());
        }
        m
    }

    /// Number of entries.
    pub fn len(&self) -> (n: usize)
        ensures
            n == self.view().len(),
            keys_ascending(self.view()),
    {
        proof {
            use_type_invariant(self);
        }
        self.entries.len()
    }

    /// The entry at position `i` in key order.
    pub fn entry(&self, i: usize) -> (e: (&String, &V))
        requires
            i < self.view().len(),
        ensures
            e.0@ == self.view()[i as int].0,
            *e.1 == self.view()[i as int].1,
    {
        let p = &self.entries[i];
        (&p.0, &p.1)
    }

    /// Appends an entry whose key is greater than every key present.
    pub fn push_greatest(&mut self, key: String, value: V)
        requires
            old(self).view().len() > 0 ==> key_lt(old(self).view().last().0, key@),
        ensures
            final(self).view() == old(self).view().push((key@, value)),
    {
        proof {
            use_type_invariant(&*self);
        }
        let ghost old_view = self.view();
        let mut entries = Vec::new();
        std::mem::swap(&mut entries, &mut self.entries);
        entries.push((key, value));
        let ghost new_view = entries@.map_values(|e: (String, V)| (e.0@, e.1));
        proof {
            assert(new_view =~= old_view.push((key@, value)));
            assert forall|i: int, j: int| 0 <= i < j < new_view.len() implies #[trigger] key_lt(
                new_view[i].0,
                new_view[j].0,
            ) by {
                if j == new_view.len() - 1 && i < j {
                    if i < old_view.len() - 1 {
                        lemma_key_lt_transitive(old_view[i].0, old_view.last().0, key@);
                    }
                }
            }
        }
        self.entries = entries;
    }

    /// Inserts `value` under `key`, replacing the value of an equal key.
    pub fn insert(&mut self, key: String, value: V)
        ensures
            final(self).view() == insert_entry(old(self).view(), key@, value),
    {
        proof {
            use_type_invariant(&*self);
        }
        let ghost old_view = self.view();
        let kc = chars_of(key.as_str());
        let mut pos: usize = 0;
        let n = self.entries.len();
        let mut found = false;
        while pos < n
            invariant_except_break
                !found,
            invariant
                n == self.entries.len(),
                old_view == self.view(),
                keys_ascending(old_view),
                kc@ == key@,
                pos <= n,
                forall|i: int| 0 <= i < pos ==> key_lt(#[trigger] old_view[i].0, key@),
            ensures
                pos <= n,
                forall|i: int| 0 <= i < pos ==> key_lt(#[trigger] old_view[i].0, key@),
                found ==> pos < n && old_view[pos as int].0 == key@,
                !found ==> (pos < n ==> key_lt(key@, old_view[pos as int].0)),
            decreases n - pos,
        {
            let ec = chars_of(self.entries[pos].0.as_str());
            assert(ec@ == old_view[pos as int].0);
            match compare_keys(&ec, &kc) {
                KeyOrder::Less => {
                    pos = pos + 1;
                },
                KeyOrder::Equal => {
                    found = true;
                    break;
                },
                KeyOrder::Greater => {
                    break;
                },
            }
        }
        proof {
            lemma_key_lt_irreflexive(key@);
            if pos < n {
                lemma_key_lt_total(key@, old_view[pos as int].0);
            }
            lemma_insert_at(old_view, key@, value, pos as int);
        }
        let ghost inserted = if found {
            old_view.update(pos as int, (key@, value))
        } else {
            old_view.insert(pos as int, (key@, value))
        };
        proof {
            lemma_insert_keeps_order(old_view, key@, value, pos as int, found);
        }
        let mut entries = Vec::new();
        std::mem::swap(&mut entries, &mut self.entries);
        if found {
            entries.set(pos, (key, value));
        } else {
            entries.insert(pos, (key, value));
        }
        proof {
            assert(entries@.map_values(|e: (String, V)| (e.0@, e.1)) =~= inserted);
        }
        self.entries = entries;
    }
}

/// Where the search for `key` stops at `pos`, inserting there is `insert_entry`.
proof fn lemma_insert_at<V>(entries: Seq<(Seq<char>, V)>, key: Seq<char>, value: V, pos: int)
    requires
        0 <= pos <= entries.len(),
        forall|i: int| 0 <= i < pos ==> key_lt(#[trigger] entries[i].0, key),
        pos < entries.len() ==> !key_lt(entries[pos].0, key),
    ensures
        insert_entry(entries, key, value) == (if pos < entries.len() && entries[pos].0 == key {
            entries.update(pos, (key, value))
        } else {
            entries.insert(pos, (key, value))
        }),
    decreases pos,
{
    if pos == 0 {
        if entries.len() == 0 {
            assert(entries.insert(0, (key, value)) =~= seq![(key, value)]);
        } else if entries[0].0 == key {
        } else {
            lemma_key_lt_total(entries[0].0, key);
            assert(entries.insert(0, (key, value)) =~= seq![(key, value)] + entries);
        }
    } else {
        lemma_key_lt_irreflexive(key);
        lemma_key_lt_total(entries[0].0, key);
        let rest = entries.drop_first();
        assert forall|i: int| 0 <= i < pos - 1 implies key_lt(#[trigger] rest[i].0, key) by {
            assert(rest[i] == entries[i + 1]);
        }
        lemma_insert_at(rest, key, value, pos - 1);
        if pos < entries.len() && entries[pos].0 == key {
            assert(seq![entries[0]] + rest.update(pos - 1, (key, value)) =~= entries.update(
                pos,
                (key, value),
            ));
        } else {
            assert(seq![entries[0]] + rest.insert(pos - 1, (key, value)) =~= entries.insert(
                pos,
                (key, value),
            ));
        }
    }
}

/// Inserting at the position the search found keeps the keys ascending.
proof fn lemma_insert_keeps_order<V>(
    entries: Seq<(Seq<char>, V)>,
    key: Seq<char>,
    value: V,
    pos: int,
    found: bool,
)
    requires
        keys_ascending(entries),
        0 <= pos <= entries.len(),
        forall|i: int| 0 <= i < pos ==> key_lt(#[trigger] entries[i].0, key),
        found ==> pos < entries.len() && entries[pos].0 == key,
        !found ==> (pos < entries.len() ==> key_lt(key, entries[pos].0)),
    ensures
        keys_ascending(
            if found {
                entries.update(pos, (key, value))
            } else {
                entries.insert(pos, (key, value))
            },
        ),
{
    if found {
        let r = entries.update(pos, (key, value));
        assert forall|i: int, j: int| 0 <= i < j < r.len() implies #[trigger] key_lt(
            r[i].0,
            r[j].0,
        ) by {
            assert(r[i].0 == entries[i].0);
            assert(r[j].0 == entries[j].0);
        }
    } else {
        let r = entries.insert(pos, (key, value));
        assert forall|i: int, j: int| 0 <= i < j < r.len() implies #[trigger] key_lt(
            r[i].0,
            r[j].0,
        ) by {
            if j < pos {
                assert(r[i] == entries[i] && r[j] == entries[j]);
            } else if j == pos {
                assert(r[i] == entries[i]);
            } else if i == pos {
                assert(r[j] == entries[j - 1]);
                if j - 1 > pos {
                    assert(key_lt(entries[pos].0, entries[j - 1].0));
                    lemma_key_lt_transitive(key, entries[pos].0, entries[j - 1].0);
                }
            } else if i < pos {
                assert(r[i] == entries[i]);
                assert(r[j] == entries[j - 1]);
                if j - 1 > pos {
                    assert(key_lt(entries[pos].0, entries[j - 1].0));
                    lemma_key_lt_transitive(key, entries[pos].0, entries[j - 1].0);
                }
                lemma_key_lt_transitive(entries[i].0, key, entries[j - 1].0);
            } else {
                assert(r[i] == entries[i - 1]);
                assert(r[j] == entries[j - 1]);
            }
        }
    }
}


/// The value stored under `key`, if any.
pub open spec fn lookup<V>(entries: Seq<(Seq<char>, V)>, key: Seq<char>) -> Option<V>
    decreases entries.len(),
{
    if entries.len() == 0 {
        None
    } else if entries[0].0 == key {
        Some(entries[0].1)
    } else {
        lookup(entries.drop_first(), key)
    }
}

impl<V> KeyedMap<V> {
    /// The value stored under `key`.
    pub fn get(&self, key: &str) -> (r: Option<&V>)
        ensures
            r matches Some(v) ==> lookup(self.view(), key@) == Some(*v),
            r is None ==> lookup(self.view(), key@) is None,
    {
        let kc = chars_of(key);
        let n = self.entries.len();
        let mut i: usize = 0;
        let ghost all = self.view();
        proof {
            assert(all.skip(0) =~= all);
        }
        while i < n
            invariant
                n == self.entries.len(),
                all == self.view(),
                kc@ == key@,
                i <= n,
                lookup(all, key@) == lookup(all.skip(i as int), key@),
            decreases n - i,
        {
            let ec = chars_of(self.entries[i].0.as_str());
            proof {
                assert(all.skip(i as int)[0] == all[i as int]);
                assert(all.skip(i as int).drop_first() =~= all.skip(i + 1));
            }
            match compare_keys(&ec, &kc) {
                KeyOrder::Equal => {
                    return Some(&self.entries[i].1);
                },
                _ => {},
            }
            i = i + 1;
        }
        None
    }
}

/// The entries after inserting `(key, value)`: an equal key has its value
/// replaced; otherwise the pair goes where the key order puts it.
pub open spec fn insert_entry<V>(entries: Seq<(Seq<char>, V)>, key: Seq<char>, value: V) -> Seq<(Seq<char>, V)>
    decreases entries.len(),
{
    if entries.len() == 0 {
        seq![(key, value)]
    } else if entries[0].0 == key {
        entries.update(0, (key, value))
    } else if key_lt(key, entries[0].0) {
        seq![(key, value)] + entries
    } else {
        seq![entries[0]] + insert_entry(entries.drop_first(), key, value)
    }
}

} // verus!

//! A map from text to values that keeps its keys in lexicographic order.

use crate::text;
use vstd::prelude::*;

verus! {

/// The map that a list of pairs stands for: of two pairs with one key the later one counts.
pub open spec fn map_of<V>(pairs: Seq<(Seq<char>, V)>) -> Map<Seq<char>, V>
    decreases pairs.len(),
{
    if pairs.len() == 0 {
        Map::empty()
    } else {
        map_of(pairs.drop_last()).insert(pairs.last().0, pairs.last().1)
    }
}

/// Keys in strictly ascending order.
pub open spec fn ascending<V>(pairs: Seq<(Seq<char>, V)>) -> bool {
    forall|i: int, j: int|
        0 <= i < j < pairs.len() ==> text::text_less(#[trigger] pairs[i].0, #[trigger] pairs[j].0)
}

/// A key is in the map of a list of pairs exactly if some pair has it.
pub proof fn lemma_map_of_dom<V>(pairs: Seq<(Seq<char>, V)>, k: Seq<char>)
    ensures
        map_of(pairs).contains_key(k) <==> exists|i: int|
            0 <= i < pairs.len() && #[trigger] pairs[i].0 == k,
    decreases pairs.len(),
{
    if pairs.len() > 0 {
        let front = pairs.drop_last();
        lemma_map_of_dom(front, k);
        if map_of(pairs).contains_key(k) {
            if pairs.last().0 == k {
                assert(pairs[pairs.len() - 1].0 == k);
            } else {
                let i = choose|i: int| 0 <= i < front.len() && #[trigger] front[i].0 == k;
                assert(pairs[i].0 == k);
            }
        }
        if exists|i: int| 0 <= i < pairs.len() && #[trigger] pairs[i].0 == k {
            let i = choose|i: int| 0 <= i < pairs.len() && #[trigger] pairs[i].0 == k;
            if i < front.len() {
                assert(front[i].0 == k);
            }
        }
    }
}

/// With ascending keys, each pair's value is what the map holds under its key.
pub proof fn lemma_map_of_value<V>(pairs: Seq<(Seq<char>, V)>, i: int)
    requires
        ascending(pairs),
        0 <= i < pairs.len(),
    ensures
        map_of(pairs).contains_key(pairs[i].0),
        map_of(pairs)[pairs[i].0] == pairs[i].1,
    decreases pairs.len(),
{
    if i < pairs.len() - 1 {
        let front = pairs.drop_last();
        assert(ascending(front)) by {
            assert forall|a: int, b: int| 0 <= a < b < front.len() implies text::text_less(
                #[trigger] front[a].0,
                #[trigger] front[b].0,
            ) by {
                assert(text::text_less(pairs[a].0, pairs[b].0));
            }
        }
        lemma_map_of_value(front, i);
        assert(text::text_less(pairs[i].0, pairs[pairs.len() - 1].0));
        text::lemma_less_irreflexive(pairs[i].0);
    }
}

/// A list with ascending keys stands for `m` if each of its pairs is in `m` and each key of
/// `m` is among its keys.
pub proof fn lemma_map_of_is<V>(pairs: Seq<(Seq<char>, V)>, m: Map<Seq<char>, V>)
    requires
        ascending(pairs),
        forall|i: int|
            0 <= i < pairs.len() ==> m.contains_key(#[trigger] pairs[i].0) && m[pairs[i].0]
                == pairs[i].1,
        forall|k: Seq<char>| #[trigger]
            m.contains_key(k) ==> exists|i: int| 0 <= i < pairs.len() && #[trigger] pairs[i].0 == k,
    ensures
        map_of(pairs) == m,
{
    assert forall|k: Seq<char>| #[trigger] map_of(pairs).contains_key(k) == m.contains_key(k) by {
        lemma_map_of_dom(pairs, k);
    }
    assert forall|k: Seq<char>| #[trigger] m.contains_key(k) implies map_of(pairs)[k] == m[k] by {
        let i = choose|i: int| 0 <= i < pairs.len() && #[trigger] pairs[i].0 == k;
        lemma_map_of_value(pairs, i);
    }
    assert(map_of(pairs) =~= m);
}

proof fn lemma_update_pair<V>(p: Seq<(Seq<char>, V)>, at: int, v: V)
    requires
        ascending(p),
        0 <= at < p.len(),
    ensures
        ascending(p.update(at, (p[at].0, v))),
        map_of(p.update(at, (p[at].0, v))) == map_of(p).insert(p[at].0, v),
{
    let k = p[at].0;
    let q = p.update(at, (k, v));
    let m = map_of(p).insert(k, v);
    assert forall|i: int, j: int| 0 <= i < j < q.len() implies text::text_less(
        #[trigger] q[i].0,
        #[trigger] q[j].0,
    ) by {
        assert(text::text_less(p[i].0, p[j].0));
    }
    text::lemma_less_irreflexive(k);
    assert forall|i: int| 0 <= i < q.len() implies m.contains_key(#[trigger] q[i].0) && m[q[i].0]
        == q[i].1 by {
        lemma_map_of_value(p, i);
        if i < at {
            assert(text::text_less(p[i].0, p[at].0));
        } else if i > at {
            assert(text::text_less(p[at].0, p[i].0));
        }
    }
    assert forall|x: Seq<char>| #[trigger] m.contains_key(x) implies exists|i: int|
        0 <= i < q.len() && #[trigger] q[i].0 == x by {
        lemma_map_of_dom(p, x);
        if x == k {
            assert(q[at].0 == x);
        } else {
            let i = choose|i: int| 0 <= i < p.len() && #[trigger] p[i].0 == x;
            assert(q[i].0 == x);
        }
    }
    lemma_map_of_is(q, m);
}

proof fn lemma_insert_pair<V>(p: Seq<(Seq<char>, V)>, at: int, k: Seq<char>, v: V)
    requires
        ascending(p),
        0 <= at <= p.len(),
        forall|j: int| 0 <= j < at ==> text::text_less(#[trigger] p[j].0, k),
        forall|j: int| at <= j < p.len() ==> text::text_less(k, #[trigger] p[j].0),
    ensures
        ascending(p.insert(at, (k, v))),
        map_of(p.insert(at, (k, v))) == map_of(p).insert(k, v),
{
    let q = p.insert(at, (k, v));
    let m = map_of(p).insert(k, v);
    assert forall|i: int, j: int| 0 <= i < j < q.len() implies text::text_less(
        #[trigger] q[i].0,
        #[trigger] q[j].0,
    ) by {
        let a = if i < at { i } else { i - 1 };
        let b = if j < at { j } else { j - 1 };
        if i != at {
            assert(q[i] == p[a]);
        }
        if j != at {
            assert(q[j] == p[b]);
        }
        if i != at && j != at {
            assert(text::text_less(p[a].0, p[b].0));
        }
    }
    text::lemma_less_irreflexive(k);
    assert forall|i: int| 0 <= i < q.len() implies m.contains_key(#[trigger] q[i].0) && m[q[i].0]
        == q[i].1 by {
        if i < at {
            assert(q[i] == p[i]);
            lemma_map_of_value(p, i);
        } else if i > at {
            assert(q[i] == p[i - 1]);
            lemma_map_of_value(p, i - 1);
        }
    }
    assert forall|x: Seq<char>| #[trigger] m.contains_key(x) implies exists|i: int|
        0 <= i < q.len() && #[trigger] q[i].0 == x by {
        lemma_map_of_dom(p, x);
        if x == k {
            assert(q[at].0 == x);
        } else {
            let i = choose|i: int| 0 <= i < p.len() && #[trigger] p[i].0 == x;
            if i < at {
                assert(q[i].0 == x);
            } else {
                assert(q[i + 1].0 == x);
            }
        }
    }
    lemma_map_of_is(q, m);
}

proof fn lemma_remove_pair<V>(p: Seq<(Seq<char>, V)>, at: int)
    requires
        ascending(p),
        0 <= at < p.len(),
    ensures
        ascending(p.remove(at)),
        map_of(p.remove(at)) == map_of(p).remove(p[at].0),
{
    let k = p[at].0;
    let q = p.remove(at);
    let m = map_of(p).remove(k);
    assert forall|i: int, j: int| 0 <= i < j < q.len() implies text::text_less(
        #[trigger] q[i].0,
        #[trigger] q[j].0,
    ) by {
        let a = if i < at { i } else { i + 1 };
        let b = if j < at { j } else { j + 1 };
        assert(q[i] == p[a] && q[j] == p[b]);
        assert(text::text_less(p[a].0, p[b].0));
    }
    text::lemma_less_irreflexive(k);
    assert forall|i: int| 0 <= i < q.len() implies m.contains_key(#[trigger] q[i].0) && m[q[i].0]
        == q[i].1 by {
        let a = if i < at { i } else { i + 1 };
        assert(q[i] == p[a]);
        lemma_map_of_value(p, a);
        if a < at {
            assert(text::text_less(p[a].0, p[at].0));
        } else {
            assert(text::text_less(p[at].0, p[a].0));
        }
    }
    assert forall|x: Seq<char>| #[trigger] m.contains_key(x) implies exists|i: int|
        0 <= i < q.len() && #[trigger] q[i].0 == x by {
        lemma_map_of_dom(p, x);
        let i = choose|i: int| 0 <= i < p.len() && #[trigger] p[i].0 == x;
        if i < at {
            assert(q[i].0 == x);
        } else {
            assert(q[i - 1].0 == x);
        }
    }
    lemma_map_of_is(q, m);
}

/// A list with ascending keys has as many pairs as its map has keys.
pub proof fn lemma_map_of_len<V>(pairs: Seq<(Seq<char>, V)>)
    requires
        ascending(pairs),
    ensures
        map_of(pairs).dom().finite(),
        map_of(pairs).dom().len() == pairs.len(),
    decreases pairs.len(),
{
    if pairs.len() > 0 {
        let front = pairs.drop_last();
        assert(ascending(front)) by {
            assert forall|a: int, b: int| 0 <= a < b < front.len() implies text::text_less(
                #[trigger] front[a].0,
                #[trigger] front[b].0,
            ) by {
                assert(text::text_less(pairs[a].0, pairs[b].0));
            }
        }
        lemma_map_of_len(front);
        let k = pairs.last().0;
        lemma_map_of_dom(front, k);
        if map_of(front).contains_key(k) {
            let i = choose|i: int| 0 <= i < front.len() && #[trigger] front[i].0 == k;
            assert(text::text_less(pairs[i].0, pairs[pairs.len() - 1].0));
            text::lemma_less_irreflexive(k);
        }
        assert(map_of(pairs).dom() =~= map_of(front).dom().insert(k));
    } else {
        assert(map_of(pairs).dom() =~= Set::<Seq<char>>::empty());
    }
}

/// The texts of a list of strings, as a set.
pub open spec fn text_set(v: Seq<String>) -> Set<Seq<char>> {
    Set::new(|k: Seq<char>| exists|i: int| 0 <= i < v.len() && #[trigger] v[i]@ == k)
}

/// Whether a list of strings is in strictly ascending order.
pub open spec fn ascending_texts(v: Seq<String>) -> bool {
    forall|i: int, j: int|
        0 <= i < j < v.len() ==> text::text_less((#[trigger] v[i])@, (#[trigger] v[j])@)
}

/// One more string is one more text.
pub proof fn lemma_text_set_push(v: Seq<String>, n: int)
    requires
        0 <= n < v.len(),
    ensures
        text_set(v.take(n + 1)) =~= text_set(v.take(n)).insert(v[n]@),
{
    let a = v.take(n);
    let b = v.take(n + 1);
    assert forall|k: Seq<char>| text_set(b).contains(k) == text_set(a).insert(v[n]@).contains(k) by {
        if text_set(b).contains(k) {
            let i = choose|i: int| 0 <= i < b.len() && #[trigger] b[i]@ == k;
            if i < n {
                assert(a[i]@ == k);
            }
        }
        if text_set(a).contains(k) {
            let i = choose|i: int| 0 <= i < a.len() && #[trigger] a[i]@ == k;
            assert(b[i]@ == k);
        }
        assert(b[n]@ == v[n]@);
    }
}

/// Whether a text is among a list of strings.
pub fn lists_text(v: &Vec<String>, s: &str) -> (r: bool)
    ensures
        r == text_set(v@).contains(s@),
{
    let mut i: usize = 0;
    while i < v.len()
        invariant
            i <= v@.len(),
            forall|j: int| 0 <= j < i ==> #[trigger] v@[j]@ != s@,
        decreases v.len() - i,
    {
        if text::same_text(v[i].as_str(), s) {
            assert(v@[i as int]@ == s@);
            return true;
        }
        i = i + 1;
    }
    false
}

/// A map from text to values. Its contents are `self@`; `self.pairs()` lists them by
/// ascending key.
#[derive(Debug)]
pub struct TextMap<V> {
    items: Vec<(String, V)>,
}

impl<V> View for TextMap<V> {
    type V = Map<Seq<char>, V>;

    open spec fn view(&self) -> Map<Seq<char>, V> {
        map_of(self.pairs())
    }
}

impl<V> TextMap<V> {
    #[verifier::type_invariant]
    spec fn well_formed(self) -> bool {
        ascending(self.pairs())
    }

    /// The contents by ascending key.
    pub closed spec fn pairs(self) -> Seq<(Seq<char>, V)> {
        Seq::new(self.items@.len(), |i: int| (self.items@[i].0@, self.items@[i].1))
    }

    /// The empty map.
    pub fn new() -> (m: Self)
        ensures
            m@ == Map::<Seq<char>, V>::empty(),
            m.pairs().len() == 0,
    {
        TextMap { items: Vec::new() }
    }

    /// The number of keys.
    pub fn len(&self) -> (n: usize)
        ensures
            n == self.pairs().len(),
            ascending(self.pairs()),
            self@.dom().finite(),
            self@.dom().len() == n,
    {
        proof {
            use_type_invariant(self);
            lemma_map_of_len(self.pairs());
        }
        self.items.len()
    }

    /// Whether the map holds nothing.
    pub fn is_empty(&self) -> (r: bool)
        ensures
            r == (self@ == Map::<Seq<char>, V>::empty()),
            r == (self.pairs().len() == 0),
    {
        let r = self.items.len() == 0;
        proof {
            if !r {
                assert(map_of(self.pairs()).contains_key(self.pairs().last().0));
            }
        }
        r
    }

    /// The key at position `i` in ascending order.
    pub fn key_at(&self, i: usize) -> (key: &String)
        requires
            i < self.pairs().len(),
        ensures
            key@ == self.pairs()[i as int].0,
            self@.contains_key(key@),
    {
        proof {
            use_type_invariant(self);
            lemma_map_of_value(self.pairs(), i as int);
        }
        &self.items[i].0
    }

    /// The value at position `i` in ascending key order.
    pub fn value_at(&self, i: usize) -> (value: &V)
        requires
            i < self.pairs().len(),
        ensures
            *value == self.pairs()[i as int].1,
            *value == self@[self.pairs()[i as int].0],
    {
        proof {
            use_type_invariant(self);
            lemma_map_of_value(self.pairs(), i as int);
        }
        &self.items[i].1
    }

    /// The position of `key`, or the position at which it would have to be inserted.
    fn locate(&self, key: &str) -> (r: (usize, bool))
        ensures
            r.0 <= self.pairs().len(),
            forall|j: int| 0 <= j < r.0 ==> text::text_less(#[trigger] self.pairs()[j].0, key@),
            r.1 ==> r.0 < self.pairs().len() && self.pairs()[r.0 as int].0 == key@,
            !r.1 && r.0 < self.pairs().len() ==> text::text_less(
                key@,
                self.pairs()[r.0 as int].0,
            ),
    {
        let mut i: usize = 0;
        while i < self.items.len() && text::comes_before(self.items[i].0.as_str(), key)
            invariant
                i <= self.items@.len(),
                forall|j: int| 0 <= j < i ==> text::text_less(#[trigger] self.pairs()[j].0, key@),
            decreases self.items.len() - i,
        {
            i = i + 1;
        }
        if i < self.items.len() {
            proof {
                text::lemma_less_total(self.pairs()[i as int].0, key@);
            }
            let found = text::same_text(self.items[i].0.as_str(), key);
            (i, found)
        } else {
            (i, false)
        }
    }

    /// What `locate` found decides whether the key is there.
    proof fn lemma_located(self, key: Seq<char>, at: int, found: bool)
        requires
            self.well_formed(),
            0 <= at <= self.pairs().len(),
            forall|j: int| 0 <= j < at ==> text::text_less(#[trigger] self.pairs()[j].0, key),
            found ==> at < self.pairs().len() && self.pairs()[at].0 == key,
            !found && at < self.pairs().len() ==> text::text_less(key, self.pairs()[at].0),
        ensures
            found == self@.contains_key(key),
            found ==> self@[key] == self.pairs()[at].1,
            forall|j: int| at < j < self.pairs().len() ==> text::text_less(key, #[trigger] self.pairs()[j].0),
    {
        let p = self.pairs();
        assert forall|j: int| at < j < p.len() implies text::text_less(key, #[trigger] p[j].0) by {
            assert(text::text_less(p[at].0, p[j].0));
            if !found {
                text::lemma_less_transitive(key, p[at].0, p[j].0);
            }
        }
        if found {
            lemma_map_of_value(p, at);
        } else {
            lemma_map_of_dom(p, key);
            if self@.contains_key(key) {
                let i = choose|i: int| 0 <= i < p.len() && #[trigger] p[i].0 == key;
                text::lemma_less_irreflexive(key);
                if i < at {
                    assert(text::text_less(p[i].0, key));
                } else if i > at {
                    assert(text::text_less(key, p[i].0));
                }
            }
        }
    }

    /// The value under `key`.
    pub fn get(&self, key: &str) -> (r: Option<&V>)
        ensures
            match r {
                Some(v) => self@.contains_key(key@) && *v == self@[key@],
                None => !self@.contains_key(key@),
            },
    {
        let (at, found) = self.locate(key);
        proof {
            use_type_invariant(self);
            self.lemma_located(key@, at as int, found);
        }
        if found {
            Some(&self.items[at].1)
        } else {
            None
        }
    }

    /// Whether the map has `key`.
    pub fn contains_key(&self, key: &str) -> (r: bool)
        ensures
            r == self@.contains_key(key@),
    {
        self.get(key).is_some()
    }

    /// Puts `value` under `key`, and gives back what was there.
    pub fn insert(&mut self, key: String, value: V) -> (r: Option<V>)
        ensures
            final(self)@ == old(self)@.insert(key@, value),
            r == (if old(self)@.contains_key(key@) {
                Some(old(self)@[key@])
            } else {
                None
            }),
    {
        let (at, found) = self.locate(key.as_str());
        proof {
            use_type_invariant(&*self);
            self.lemma_located(key@, at as int, found);
        }
        let ghost p = self.pairs();
        let ghost k = key@;
        let mut items: Vec<(String, V)> = Vec::new();
        std::mem::swap(&mut items, &mut self.items);
        let replaced = if found {
            let (_, v) = items.remove(at);
            Some(v)
        } else {
            None
        };
        items.insert(at, (key, value));
        proof {
            let q = Seq::new(items@.len(), |i: int| (items@[i].0@, items@[i].1));
            if found {
                assert(q == p.update(at as int, (k, value)));
                lemma_update_pair(p, at as int, value);
            } else {
                assert(q == p.insert(at as int, (k, value)));
                lemma_insert_pair(p, at as int, k, value);
            }
        }
        self.items = items;
        replaced
    }

    /// The keys, ascending.
    pub fn keys(&self) -> (r: Vec<String>)
        ensures
            ascending_texts(r@),
            text_set(r@) == self@.dom(),
    {
        let n = self.len();
        let mut r: Vec<String> = Vec::new();
        let mut i: usize = 0;
        while i < n
            invariant
                n == self.pairs().len(),
                i <= n,
                r@.len() == i,
                forall|j: int| 0 <= j < i ==> (#[trigger] r@[j])@ == self.pairs()[j].0,
            decreases n - i,
        {
            r.push(self.key_at(i).clone());
            i = i + 1;
        }
        proof {
            use_type_invariant(self);
            assert forall|a: int, b: int| 0 <= a < b < r@.len() implies text::text_less(
                (#[trigger] r@[a])@,
                (#[trigger] r@[b])@,
            ) by {
                assert(text::text_less(self.pairs()[a].0, self.pairs()[b].0));
            }
            assert forall|k: Seq<char>| #[trigger] text_set(r@).contains(k)
                == self@.dom().contains(k) by {
                lemma_map_of_dom(self.pairs(), k);
                if text_set(r@).contains(k) {
                    let j = choose|j: int| 0 <= j < r@.len() && #[trigger] r@[j]@ == k;
                    assert(self.pairs()[j].0 == k);
                }
                if self@.contains_key(k) {
                    let j = choose|j: int|
                        0 <= j < self.pairs().len() && #[trigger] self.pairs()[j].0 == k;
                    assert(r@[j]@ == k);
                }
            }
            assert(text_set(r@) =~= self@.dom());
        }
        r
    }

    /// Takes out everything but what is under one of `keep`.
    pub fn retain_keys(&mut self, keep: &Vec<String>)
        ensures
            final(self)@ == old(self)@.restrict(text_set(keep@)),
    {
        let ghost start = self@;
        let mut keys: Vec<String> = Vec::new();
        let n = self.len();
        let mut i: usize = 0;
        while i < n
            invariant
                n == self.pairs().len(),
                i <= n,
                self@ == start,
                keys@.len() == i,
                forall|j: int| 0 <= j < i ==> #[trigger] keys@[j]@ == self.pairs()[j].0,
            decreases n - i,
        {
            keys.push(self.key_at(i).clone());
            i = i + 1;
        }
        proof {
            assert forall|k: Seq<char>| #[trigger] start.contains_key(k) implies text_set(
                keys@,
            ).contains(k) by {
                lemma_map_of_dom(self.pairs(), k);
                let j = choose|j: int| 0 <= j < self.pairs().len() && #[trigger] self.pairs()[j].0 == k;
                assert(keys@[j]@ == k);
            }
        }
        let mut j: usize = 0;
        while j < keys.len()
            invariant
                j <= keys@.len(),
                forall|k: Seq<char>| #[trigger]
                    self@.contains_key(k) <==> start.contains_key(k) && (text_set(keep@).contains(k)
                        || !text_set(keys@.take(j as int)).contains(k)),
                forall|k: Seq<char>| #[trigger] self@.contains_key(k) ==> self@[k] == start[k],
            decreases keys.len() - j,
        {
            proof {
                lemma_text_set_push(keys@, j as int);
            }
            if !lists_text(keep, keys[j].as_str()) {
                self.remove(keys[j].as_str());
            }
            j = j + 1;
        }
        proof {
            assert(keys@.take(j as int) == keys@);
            assert(self@ =~= start.restrict(text_set(keep@)));
        }
    }

    /// Replaces the value at position `i` in ascending key order.
    pub fn set_at(&mut self, i: usize, value: V)
        requires
            i < old(self).pairs().len(),
        ensures
            final(self).pairs() == old(self).pairs().update(
                i as int,
                (old(self).pairs()[i as int].0, value),
            ),
            final(self)@ == old(self)@.insert(old(self).pairs()[i as int].0, value),
    {
        proof {
            use_type_invariant(&*self);
        }
        let ghost p = self.pairs();
        let mut items: Vec<(String, V)> = Vec::new();
        std::mem::swap(&mut items, &mut self.items);
        let (key, _) = items.remove(i);
        items.insert(i, (key, value));
        proof {
            let q = Seq::new(items@.len(), |i: int| (items@[i].0@, items@[i].1));
            assert(q == p.update(i as int, (p[i as int].0, value)));
            lemma_update_pair(p, i as int, value);
        }
        self.items = items;
    }

    /// Takes `key` out, and gives back what was under it.
    pub fn remove(&mut self, key: &str) -> (r: Option<V>)
        ensures
            final(self)@ == old(self)@.remove(key@),
            r == (if old(self)@.contains_key(key@) {
                Some(old(self)@[key@])
            } else {
                None
            }),
    {
        let (at, found) = self.locate(key);
        proof {
            use_type_invariant(&*self);
            self.lemma_located(key@, at as int, found);
        }
        if !found {
            assert(self@.remove(key@) == self@);
            return None;
        }
        let ghost p = self.pairs();
        let mut items: Vec<(String, V)> = Vec::new();
        std::mem::swap(&mut items, &mut self.items);
        let (_, v) = items.remove(at);
        proof {
            let q = Seq::new(items@.len(), |i: int| (items@[i].0@, items@[i].1));
            assert(q == p.remove(at as int));
            lemma_remove_pair(p, at as int);
        }
        self.items = items;
        Some(v)
    }
}

} // verus!

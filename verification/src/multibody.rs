//! Multibodies: the names their components get and the map from the names
//! of their links to the entities that hold them.

use vstd::prelude::*;
use crate::text::{
    decimal, decimal_string, is_digit_char, lemma_decimal_digits, lemma_decimal_injective, push_char, push_chars,
    chars_of, name_lt, name_less, lemma_name_lt_irreflexive, lemma_name_lt_total, lemma_name_lt_transitive,
};

verus! {

// ----------------------------------------------------------------------
// The map from link names to entities
// ----------------------------------------------------------------------

/// A map from the names of the links of a multibody to the entities (their
/// bits) that hold the links, kept in the ascending order of the names, as a
/// `BTreeMap` keeps its keys. Inserting a name that is present replaces its
/// entity.
pub struct ChildMap {
    entries: Vec<(String, u64)>,
}

/// Whether some entry has the name `k`.
pub open spec fn has_name(es: Seq<(String, u64)>, k: Seq<char>) -> bool {
    exists|i: int| 0 <= i < es.len() && #[trigger] es[i].0@ == k
}

/// No two entries have the same name.
pub open spec fn names_distinct(es: Seq<(String, u64)>) -> bool {
    forall|i: int, j: int|
        0 <= i < es.len() && 0 <= j < es.len() && i != j ==> #[trigger] es[i].0@ != #[trigger] es[j].0@
}

/// Every name of `ks` comes before the names after it: `ks` is strictly
/// ascending.
pub open spec fn ascending(ks: Seq<Seq<char>>) -> bool {
    forall|i: int, j: int| 0 <= i < j < ks.len() ==> name_lt(#[trigger] ks[i], #[trigger] ks[j])
}

/// The position of the entry named `k`.
pub open spec fn position_of(es: Seq<(String, u64)>, k: Seq<char>) -> int {
    choose|i: int| 0 <= i < es.len() && #[trigger] es[i].0@ == k
}

/// The map that a sequence of entries with distinct names stands for.
pub open spec fn entries_map(es: Seq<(String, u64)>) -> Map<Seq<char>, u64> {
    Map::new(|k: Seq<char>| has_name(es, k), |k: Seq<char>| es[position_of(es, k)].1)
}

proof fn lemma_position_unique(es: Seq<(String, u64)>, k: Seq<char>, i: int)
    requires
        names_distinct(es),
        0 <= i < es.len(),
        es[i].0@ == k,
    ensures
        position_of(es, k) == i,
{
    let p = position_of(es, k);
    assert(0 <= p < es.len() && es[p].0@ == k);
}

/// Inserting an entry at the place its name takes in the order keeps the
/// entries distinct and ascending, and maps its name to its entity.
proof fn lemma_insert_in_order(old_es: Seq<(String, u64)>, p: int, e: (String, u64))
    requires
        names_distinct(old_es),
        ascending(names_of(old_es)),
        0 <= p <= old_es.len(),
        forall|j: int| 0 <= j < p ==> name_lt(#[trigger] old_es[j].0@, e.0@),
        forall|j: int| p <= j < old_es.len() ==> name_lt(e.0@, #[trigger] old_es[j].0@),
    ensures
        names_distinct(old_es.insert(p, e)),
        ascending(names_of(old_es.insert(p, e))),
        entries_map(old_es.insert(p, e)) == entries_map(old_es).insert(e.0@, e.1),
{
    let es = old_es.insert(p, e);
    let k = e.0@;
    let ks = names_of(es);
    let old_ks = names_of(old_es);
    old_es.insert_ensures(p, e);
    assert forall|x: int| 0 <= x < es.len() implies #[trigger] es[x] == (if x < p {
        old_es[x]
    } else if x == p {
        e
    } else {
        old_es[x - 1]
    }) by {
        if x > p {
            assert(es[(x - 1) + 1] == old_es[x - 1]);
        }
    }
    assert(ascending(ks)) by {
        assert forall|a: int, b: int| 0 <= a < b < ks.len() implies name_lt(#[trigger] ks[a], #[trigger] ks[b]) by {
            assert(ks[a] == es[a].0@);
            assert(ks[b] == es[b].0@);
            if b < p {
                assert(old_ks[a] == old_es[a].0@);
                assert(old_ks[b] == old_es[b].0@);
            } else if a < p && b > p {
                lemma_name_lt_transitive(old_es[a].0@, k, old_es[b - 1].0@);
            } else if a > p {
                assert(old_ks[a - 1] == old_es[a - 1].0@);
                assert(old_ks[b - 1] == old_es[b - 1].0@);
            }
        }
    }
    assert(names_distinct(es)) by {
        assert forall|a: int, b: int| 0 <= a < es.len() && 0 <= b < es.len() && a != b implies #[trigger] es[a].0@
            != #[trigger] es[b].0@ by {
            assert(ks[a] == es[a].0@);
            assert(ks[b] == es[b].0@);
            lemma_name_lt_irreflexive(es[a].0@);
        }
    }
    assert(entries_map(es) =~= entries_map(old_es).insert(k, e.1)) by {
        assert forall|q: Seq<char>| has_name(es, q) <==> (has_name(old_es, q) || q == k) by {
            if has_name(old_es, q) {
                let j = choose|j: int| 0 <= j < old_es.len() && #[trigger] old_es[j].0@ == q;
                if j < p {
                    assert(es[j].0@ == q);
                } else {
                    assert(es[j + 1].0@ == q);
                }
            }
            if has_name(es, q) && q != k {
                let j = choose|j: int| 0 <= j < es.len() && #[trigger] es[j].0@ == q;
                if j < p {
                    assert(old_es[j].0@ == q);
                } else {
                    assert(j != p);
                    assert(old_es[j - 1].0@ == q);
                }
            }
            if q == k {
                assert(es[p].0@ == q);
            }
        }
        assert forall|q: Seq<char>| #[trigger] has_name(es, q) implies es[position_of(es, q)].1 == (if q == k {
            e.1
        } else {
            old_es[position_of(old_es, q)].1
        }) by {
            let x = position_of(es, q);
            if q == k {
                lemma_position_unique(es, q, p);
            } else {
                assert(x != p);
                let o = if x < p { x } else { x - 1 };
                assert(old_es[o].0@ == q);
                lemma_position_unique(old_es, q, o);
            }
        }
    }
}

/// The names of a sequence of entries, in order.
pub open spec fn names_of(es: Seq<(String, u64)>) -> Seq<Seq<char>> {
    es.map_values(|e: (String, u64)| e.0@)
}

impl View for ChildMap {
    type V = Map<Seq<char>, u64>;

    closed spec fn view(&self) -> Map<Seq<char>, u64> {
        entries_map(self.entries@)
    }
}

impl ChildMap {
    #[verifier::type_invariant]
    closed spec fn wf(self) -> bool {
        &&& names_distinct(self.entries@)
        &&& ascending(names_of(self.entries@))
    }

    /// The names of the map in ascending order.
    pub closed spec fn key_order(&self) -> Seq<Seq<char>> {
        names_of(self.entries@)
    }

    /// An empty map.
    pub fn new() -> (r: ChildMap)
        ensures
            r@ == Map::<Seq<char>, u64>::empty(),
            r.key_order() == Seq::<Seq<char>>::empty(),
    {
        let r = ChildMap { entries: Vec::new() };
        assert(r@ =~= Map::<Seq<char>, u64>::empty());
        assert(r.key_order() =~= Seq::<Seq<char>>::empty());
        r
    }

    /// Number of names in the map. (Its key order holds every name of the
    /// map once, in ascending order, and nothing else.)
    pub fn len(&self) -> (n: usize)
        ensures
            n == self@.dom().len(),
            n == self.key_order().len(),
            self.key_order().no_duplicates(),
            self.key_order().to_set() == self@.dom(),
            ascending(self.key_order()),
    {
        proof {
            use_type_invariant(self);
            self.lemma_len();
        }
        self.entries.len()
    }

    proof fn lemma_len(&self)
        requires
            names_distinct(self.entries@),
        ensures
            self@.dom().len() == self.entries@.len(),
            self@.dom().finite(),
            names_of(self.entries@).no_duplicates(),
            names_of(self.entries@).to_set() == self@.dom(),
        decreases self.entries@.len(),
    {
        let es = self.entries@;
        let keys = names_of(es);
        assert(self@.dom() =~= keys.to_set()) by {
            assert forall|k: Seq<char>| self@.dom().contains(k) implies keys.to_set().contains(k) by {
                let i = choose|i: int| 0 <= i < es.len() && #[trigger] es[i].0@ == k;
                assert(keys[i] == k);
            }
            assert forall|k: Seq<char>| keys.to_set().contains(k) implies self@.dom().contains(k) by {
                let i = choose|i: int| 0 <= i < keys.len() && keys[i] == k;
                assert(es[i].0@ == k);
            }
        }
        assert(keys.no_duplicates()) by {
            assert forall|i: int, j: int| 0 <= i < keys.len() && 0 <= j < keys.len() && i != j
                implies keys[i] != keys[j] by {
                assert(keys[i] == es[i].0@);
                assert(keys[j] == es[j].0@);
            }
        }
        keys.unique_seq_to_set();
    }

    /// The entity of the link named `name`, if there is one.
    pub fn get(&self, name: &str) -> (r: Option<u64>)
        ensures
            r == (if self@.dom().contains(name@) {
                Some(self@[name@])
            } else {
                None
            }),
    {
        proof {
            use_type_invariant(self);
        }
        match self.find(name) {
            Some(i) => Some(self.entries[i].1),
            None => None,
        }
    }

    fn find(&self, name: &str) -> (r: Option<usize>)
        requires
            names_distinct(self.entries@),
        ensures
            match r {
                Some(i) => i < self.entries@.len() && self.entries@[i as int].0@ == name@
                    && position_of(self.entries@, name@) == i,
                None => !has_name(self.entries@, name@),
            },
    {
        let key = name.to_owned();
        let mut i: usize = 0;
        while i < self.entries.len()
            invariant
                names_distinct(self.entries@),
                key@ == name@,
                i <= self.entries@.len(),
                forall|j: int| 0 <= j < i ==> self.entries@[j].0@ != name@,
            decreases self.entries.len() - i,
        {
            if self.entries[i].0 == key {
                proof {
                    lemma_position_unique(self.entries@, name@, i as int);
                }
                return Some(i);
            }
            i = i + 1;
        }
        None
    }

    /// Maps `name` to `entity`, replacing what `name` was mapped to before.
    /// (The key order stays ascending: `name` takes its place among the
    /// others.)
    pub fn insert(&mut self, name: String, entity: u64)
        ensures
            final(self)@ == old(self)@.insert(name@, entity),
    {
        proof {
            use_type_invariant(&*self);
        }
        let ghost old_es = self.entries@;
        let ghost k = name@;
        match self.find(name.as_str()) {
            Some(i) => {
                let mut entries: Vec<(String, u64)> = Vec::new();
                std::mem::swap(&mut entries, &mut self.entries);
                entries.set(i, (name, entity));
                let ghost es = entries@;
                proof {
                    assert(names_distinct(es)) by {
                        assert forall|a: int, b: int|
                            0 <= a < es.len() && 0 <= b < es.len() && a != b implies #[trigger] es[a].0@
                            != #[trigger] es[b].0@ by {
                            assert(old_es[a].0@ != old_es[b].0@);
                        }
                    }
                    assert(entries_map(es) =~= entries_map(old_es).insert(k, entity)) by {
                        assert forall|q: Seq<char>| has_name(es, q) <==> (has_name(old_es, q) || q == k) by {
                            if has_name(old_es, q) {
                                let j = choose|j: int| 0 <= j < old_es.len() && #[trigger] old_es[j].0@ == q;
                                assert(es[j].0@ == q);
                            }
                            if has_name(es, q) {
                                let j = choose|j: int| 0 <= j < es.len() && #[trigger] es[j].0@ == q;
                                assert(old_es[j].0@ == q);
                            }
                            if q == k {
                                assert(es[i as int].0@ == q);
                            }
                        }
                        assert forall|q: Seq<char>| #[trigger] has_name(es, q) implies es[position_of(es, q)].1
                            == (if q == k { entity } else { old_es[position_of(old_es, q)].1 }) by {
                            let p = position_of(es, q);
                            if q == k {
                                lemma_position_unique(es, q, i as int);
                            } else {
                                assert(p != i);
                                assert(old_es[p].0@ == q);
                                lemma_position_unique(old_es, q, p);
                            }
                        }
                    }
                }
                assert(names_of(es) =~= names_of(old_es));
                self.entries = entries;
            },
            None => {
                let p = self.insert_position(name.as_str());
                let mut entries: Vec<(String, u64)> = Vec::new();
                std::mem::swap(&mut entries, &mut self.entries);
                let ghost e = (name, entity);
                entries.insert(p, (name, entity));
                proof {
                    lemma_insert_in_order(old_es, p as int, e);
                }
                self.entries = entries;
            },
        }
    }

    /// Where a name that is not in the map goes: after the names before it
    /// and before the names after it.
    fn insert_position(&self, name: &str) -> (p: usize)
        requires
            ascending(names_of(self.entries@)),
            !has_name(self.entries@, name@),
        ensures
            p <= self.entries@.len(),
            forall|j: int| 0 <= j < p ==> name_lt(#[trigger] self.entries@[j].0@, name@),
            forall|j: int| p <= j < self.entries@.len() ==> name_lt(name@, #[trigger] self.entries@[j].0@),
    {
        let mut i: usize = 0;
        while i < self.entries.len()
            invariant
                ascending(names_of(self.entries@)),
                !has_name(self.entries@, name@),
                i <= self.entries@.len(),
                forall|j: int| 0 <= j < i ==> name_lt(#[trigger] self.entries@[j].0@, name@),
            decreases self.entries.len() - i,
        {
            if name_less(name, self.entries[i].0.as_str()) {
                proof {
                    let es = self.entries@;
                    let ks = names_of(es);
                    assert forall|j: int| i <= j < es.len() implies name_lt(name@, #[trigger] es[j].0@) by {
                        if j > i {
                            assert(ks[i as int] == es[i as int].0@);
                            assert(ks[j] == es[j].0@);
                            lemma_name_lt_transitive(name@, es[i as int].0@, es[j].0@);
                        }
                    }
                }
                return i;
            }
            proof {
                let es = self.entries@;
                if es[i as int].0@ == name@ {
                    assert(has_name(es, name@));
                }
                lemma_name_lt_total(name@, es[i as int].0@);
            }
            i = i + 1;
        }
        i
    }

    /// The names of the map with their entities, in ascending order of the
    /// names.
    pub fn entries(&self) -> (r: Vec<(String, u64)>)
        ensures
            ascending(self.key_order()),
            self.key_order().to_set() == self@.dom(),
            r@.len() == self.key_order().len(),
            forall|i: int|
                0 <= i < r@.len() ==> #[trigger] r@[i].0@ == self.key_order()[i] && r@[i].1 == self@[r@[i].0@],
    {
        proof {
            use_type_invariant(self);
            self.lemma_len();
        }
        let ghost es = self.entries@;
        let mut r: Vec<(String, u64)> = Vec::new();
        let mut i: usize = 0;
        while i < self.entries.len()
            invariant
                es == self.entries@,
                names_distinct(es),
                i <= es.len(),
                r@.len() == i,
                forall|j: int| 0 <= j < i ==> r@[j].0@ == es[j].0@ && r@[j].1 == es[j].1,
            decreases self.entries.len() - i,
        {
            let name = self.entries[i].0.clone();
            r.push((name, self.entries[i].1));
            i = i + 1;
        }
        proof {
            assert forall|j: int| 0 <= j < r@.len() implies #[trigger] r@[j].0@ == self.key_order()[j]
                && r@[j].1 == self@[r@[j].0@] by {
                let k = es[j].0@;
                lemma_position_unique(es, k, j);
            }
        }
        r
    }

    /// The entities of the map, in ascending order of their names.
    pub fn values(&self) -> (r: Vec<u64>)
        ensures
            ascending(self.key_order()),
            self.key_order().to_set() == self@.dom(),
            r@ == self.key_order().map_values(|k: Seq<char>| self@[k]),
    {
        proof {
            use_type_invariant(self);
            self.lemma_len();
        }
        let ghost es = self.entries@;
        let mut r: Vec<u64> = Vec::new();
        let mut i: usize = 0;
        while i < self.entries.len()
            invariant
                es == self.entries@,
                names_distinct(es),
                i <= es.len(),
                r@.len() == i,
                forall|j: int| 0 <= j < i ==> r@[j] == es[j].1,
            decreases self.entries.len() - i,
        {
            r.push(self.entries[i].1);
            i = i + 1;
        }
        proof {
            assert forall|j: int| 0 <= j < r@.len() implies r@[j] == self@[self.key_order()[j]] by {
                let k = es[j].0@;
                lemma_position_unique(es, k, j);
            }
            assert(r@ =~= self.key_order().map_values(|k: Seq<char>| self@[k]));
        }
        r
    }
}


// ----------------------------------------------------------------------
// Names of multibody components
// ----------------------------------------------------------------------

/// The label of a body: its name when it has one, otherwise the decimal
/// index of its entity.
pub open spec fn body_label(name: Option<Seq<char>>, index: u32) -> Seq<char> {
    match name {
        Some(n) => n,
        None => decimal(index as nat),
    }
}

/// The name of a multibody root: the label of the root body, a hyphen and
/// the index of its entity, so that two roots never share a name.
pub open spec fn root_name(label: Seq<char>, index: u32) -> Seq<char> {
    label + seq!['-'] + decimal(index as nat)
}

/// The view of an optional string.
pub open spec fn opt_view(name: Option<&str>) -> Option<Seq<char>> {
    match name {
        Some(n) => Some(n@),
        None => None,
    }
}

/// The label of a body: its name when it has one, otherwise the decimal
/// index of its entity.
pub fn label_of(name: Option<&str>, index: u32) -> (r: String)
    ensures
        r@ == body_label(opt_view(name), index),
{
    match name {
        Some(n) => n.to_owned(),
        None => decimal_string(index as u64),
    }
}

/// The name that the multibody component of a body gets: the root of a
/// multibody is named after its label and its entity index, any other link
/// after its label alone.
pub fn multibody_name(name: Option<&str>, index: u32, is_root: bool) -> (r: String)
    ensures
        r@ == (if is_root {
            root_name(body_label(opt_view(name), index), index)
        } else {
            body_label(opt_view(name), index)
        }),
{
    let mut r = label_of(name, index);
    if is_root {
        push_char(&mut r, '-');
        let digits = decimal_string(index as u64);
        let ds = chars_of(digits.as_str());
        push_chars(&mut r, &ds);
    }
    r
}

/// A root name determines both the label and the entity index it was made
/// of: roots with different entities never share a name.
pub proof fn lemma_root_names_unique(l1: Seq<char>, i1: u32, l2: Seq<char>, i2: u32)
    requires
        root_name(l1, i1) == root_name(l2, i2),
    ensures
        l1 == l2,
        i1 == i2,
{
    let d1 = decimal(i1 as nat);
    let d2 = decimal(i2 as nat);
    let s = root_name(l1, i1);
    let t = root_name(l2, i2);
    lemma_decimal_digits(i1 as nat);
    lemma_decimal_digits(i2 as nat);
    assert(s.len() == l1.len() + 1 + d1.len());
    assert(t.len() == l2.len() + 1 + d2.len());
    if d1.len() < d2.len() {
        let p = s.len() - d1.len() - 1;
        assert(s[p] == '-');
        let q = p - (t.len() - d2.len());
        assert(t[p] == d2[q]);
        assert(is_digit_char(d2[q]));
        assert(false);
    } else if d2.len() < d1.len() {
        let p = t.len() - d2.len() - 1;
        assert(t[p] == '-');
        let q = p - (s.len() - d1.len());
        assert(s[p] == d1[q]);
        assert(is_digit_char(d1[q]));
        assert(false);
    } else {
        assert(d1 =~= s.skip(s.len() - d1.len()));
        assert(d2 =~= t.skip(t.len() - d2.len()));
        assert(l1 =~= s.take(l1.len() as int));
        assert(l2 =~= t.take(l2.len() as int));
        lemma_decimal_injective(i1 as nat, i2 as nat);
    }
}

// ----------------------------------------------------------------------
// Building the link map of a multibody body
// ----------------------------------------------------------------------

/// What the map of a multibody body is built from, for one link of the
/// multibody.
pub struct LinkInfo {
    /// Whether the link is the root of the multibody.
    pub is_root: bool,
    /// The entity (its bits) that holds the link.
    pub entity: u64,
    /// The index of that entity.
    pub index: u32,
    /// The name of that entity, if it has one.
    pub name: Option<String>,
    /// Whether that entity still waits for its multibody component; links
    /// whose entities already have one are left out of the map.
    pub pending: bool,
}

/// The view of an optional owned string.
pub open spec fn opt_string_view(name: Option<String>) -> Option<Seq<char>> {
    match name {
        Some(n) => Some(n@),
        None => None,
    }
}

/// The name under which a link is listed.
pub open spec fn link_key(l: LinkInfo) -> Seq<char> {
    body_label(opt_string_view(l.name), l.index)
}

/// Whether a link is listed in the map of a body: the root link is left out
/// of the root's own map, and links whose entities already have their
/// multibody component are left out.
pub open spec fn link_listed(l: LinkInfo, body_is_root: bool) -> bool {
    l.pending && !(l.is_root && body_is_root)
}

/// The map of a body: every listed link, inserted in the order of `links`.
pub open spec fn child_map_spec(links: Seq<LinkInfo>, body_is_root: bool) -> Map<Seq<char>, u64>
    decreases links.len(),
{
    if links.len() == 0 {
        Map::empty()
    } else {
        let m = child_map_spec(links.drop_last(), body_is_root);
        let l = links.last();
        if link_listed(l, body_is_root) {
            m.insert(link_key(l), l.entity)
        } else {
            m
        }
    }
}

/// Builds the map from link names to entities that a multibody body
/// carries, from the links of its multibody.
pub fn build_child_map(links: &Vec<LinkInfo>, body_is_root: bool) -> (r: ChildMap)
    ensures
        r@ == child_map_spec(links@, body_is_root),
{
    let mut r = ChildMap::new();
    let mut i: usize = 0;
    while i < links.len()
        invariant
            i <= links@.len(),
            r@ == child_map_spec(links@.take(i as int), body_is_root),
        decreases links.len() - i,
    {
        let l = &links[i];
        proof {
            assert(links@.take(i + 1).drop_last() == links@.take(i as int));
            assert(links@.take(i + 1).last() == links@[i as int]);
        }
        if l.pending && !(l.is_root && body_is_root) {
            let key = match &l.name {
                Some(n) => n.clone(),
                None => decimal_string(l.index as u64),
            };
            r.insert(key, l.entity);
        }
        i = i + 1;
    }
    assert(links@.take(links@.len() as int) == links@);
    r
}

} // verus!

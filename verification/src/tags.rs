use vstd::prelude::*;
use crate::text::{lex_lt, chars_lt, chars_eq, str_to_chars, lemma_lex_lt_trichotomy,
    lemma_lex_lt_trans};

verus! {

/// Some index of an entry whose key reads `k`.
pub open spec fn entries_index_of(s: Seq<(String, String)>, k: Seq<char>) -> int {
    choose|i: int| 0 <= i < s.len() && s[i].0@ == k
}

/// Whether some entry's key reads `k`.
pub open spec fn entries_contain_key(s: Seq<(String, String)>, k: Seq<char>) -> bool {
    exists|i: int| 0 <= i < s.len() && s[i].0@ == k
}

/// The tag set of a metric series: a mapping from tag key to tag value with
/// unique keys, kept as an association list strictly sorted by key. Sorting
/// makes the canonical text rendering deterministic; key order never carries
/// meaning for series identity, which is the abstract map.
#[derive(Clone, Debug, PartialEq)]
pub struct TagMap {
    pub entries: Vec<(String, String)>,
}

impl TagMap {
    /// The key of entry `i`, as a character sequence.
    pub open spec fn key_at(self, i: int) -> Seq<char> {
        self.entries@[i].0@
    }

    /// The value of entry `i`, as a character sequence.
    pub open spec fn val_at(self, i: int) -> Seq<char> {
        self.entries@[i].1@
    }

    /// Entries strictly sorted by key; keys are therefore unique.
    pub open spec fn wf(self) -> bool {
        forall|i: int, j: int|
            0 <= i < j < self.entries@.len() ==> lex_lt(self.key_at(i), self.key_at(j))
    }

    pub open spec fn contains_key_spec(self, k: Seq<char>) -> bool {
        entries_contain_key(self.entries@, k)
    }

    pub open spec fn index_of(self, k: Seq<char>) -> int {
        entries_index_of(self.entries@, k)
    }

    /// In a well-formed map each key appears at exactly one index.
    pub proof fn lemma_key_unique(self, i: int, j: int)
        requires
            self.wf(),
            0 <= i < self.entries@.len(),
            0 <= j < self.entries@.len(),
            self.key_at(i) == self.key_at(j),
        ensures
            i == j,
    {
        if i < j {
            lemma_lex_lt_trichotomy(self.key_at(i), self.key_at(j));
        }
        if j < i {
            lemma_lex_lt_trichotomy(self.key_at(j), self.key_at(i));
        }
    }

    pub fn new() -> (r: TagMap)
        ensures
            r.wf(),
            r@ == Map::<Seq<char>, Seq<char>>::empty(),
            r.entries@.len() == 0,
    {
        let r = TagMap { entries: Vec::new() };
        proof {
            assert(r@ =~= Map::<Seq<char>, Seq<char>>::empty());
        }
        r
    }

    pub fn len(&self) -> (r: usize)
        ensures
            r == self.entries@.len(),
    {
        self.entries.len()
    }

    /// Insert or replace the value under `key`, keeping entries sorted.
    pub fn insert(&mut self, key: String, value: String)
        requires
            old(self).wf(),
        ensures
            final(self).wf(),
            final(self)@ == old(self)@.insert(key@, value@),
    {
        let kc = str_to_chars(key.as_str());
        let mut i: usize = 0;
        loop
            invariant
                self == old(self),
                self.wf(),
                kc@ == key@,
                i <= self.entries@.len(),
                forall|j: int| 0 <= j < i ==> lex_lt(self.key_at(j), key@),
            ensures
                self == old(self),
                kc@ == key@,
                i <= self.entries@.len(),
                forall|j: int| 0 <= j < i ==> lex_lt(self.key_at(j), key@),
                i < self.entries@.len() ==> !lex_lt(self.key_at(i as int), key@),
            decreases self.entries@.len() - i,
        {
            if i >= self.entries.len() {
                break ;
            }
            let ec = str_to_chars(self.entries[i].0.as_str());
            if chars_lt(&ec, &kc) {
                i = i + 1;
            } else {
                break ;
            }
        }
        let at_key: bool = if i < self.entries.len() {
            let ec = str_to_chars(self.entries[i].0.as_str());
            chars_eq(&ec, &kc)
        } else {
            false
        };
        let ghost prev = *self;
        let ghost e = (key, value);
        if at_key {
            self.entries.remove(i);
            self.entries.insert(i, (key, value));
            proof {
                lemma_sorted_splice(prev, *self, i as int, e, true);
            }
        } else {
            proof {
                if i < self.entries@.len() {
                    lemma_lex_lt_trichotomy(self.key_at(i as int), key@);
                }
            }
            self.entries.insert(i, (key, value));
            proof {
                lemma_sorted_splice(prev, *self, i as int, e, false);
            }
        }
    }

    /// Look a key up.
    pub fn get<'a>(&'a self, key: &str) -> (r: Option<&'a String>)
        requires
            self.wf(),
        ensures
            match r {
                Some(v) => self@.contains_key(key@) && v@ == self@[key@],
                None => !self@.contains_key(key@),
            },
    {
        let kc = str_to_chars(key);
        let mut i: usize = 0;
        while i < self.entries.len()
            invariant
                self.wf(),
                kc@ == key@,
                i <= self.entries@.len(),
                forall|j: int| 0 <= j < i ==> self.key_at(j) != key@,
            decreases self.entries@.len() - i,
        {
            let ec = str_to_chars(self.entries[i].0.as_str());
            if chars_eq(&ec, &kc) {
                proof {
                    assert(self.entries@[i as int].0@ == key@);
                    assert(self.contains_key_spec(key@));
                    let wit = self.index_of(key@);
                    assert(self.key_at(wit) == key@);
                    self.lemma_key_unique(wit, i as int);
                }
                return Some(&self.entries[i].1);
            }
            i = i + 1;
        }
        proof {
            if self.contains_key_spec(key@) {
                let w = choose|w: int| 0 <= w < self.entries@.len() && self.entries@[w].0@ == key@;
                assert(self.key_at(w) == key@);
            }
        }
        None
    }
}

/// Splicing entry `e` into a sorted entry list at position `p` — replacing
/// the entry there when `replaced` holds (its key then equals `e`'s) — keeps
/// the list sorted and binds `e`'s key to `e`'s value in the abstract map.
proof fn lemma_sorted_splice(prev: TagMap, cur: TagMap, p: int, e: (String, String), replaced: bool)
    requires
        prev.wf(),
        0 <= p <= prev.entries@.len(),
        forall|j: int| 0 <= j < p ==> lex_lt(prev.key_at(j), e.0@),
        replaced ==> p < prev.entries@.len() && prev.key_at(p) == e.0@ && cur.entries@
            == prev.entries@.remove(p).insert(p, e),
        !replaced ==> (p == prev.entries@.len() || lex_lt(e.0@, prev.key_at(p))) && cur.entries@
            == prev.entries@.insert(p, e),
    ensures
        cur.wf(),
        cur@ == prev@.insert(e.0@, e.1@),
{
    let k = e.0@;
    let v = e.1@;
    let pe = prev.entries@;
    let ce = cur.entries@;
    let off: int = if replaced {
        0
    } else {
        1
    };
    if replaced {
        pe.remove_ensures(p);
        pe.remove(p).insert_ensures(p, e);
        assert forall|j: int| p < j < ce.len() implies ce[j] == pe[j - off] by {
            assert(ce[(j - 1) + 1] == pe.remove(p)[j - 1]);
            assert(pe.remove(p)[j - 1] == pe[j]);
        }
    } else {
        pe.insert_ensures(p, e);
        assert forall|j: int| p < j < ce.len() implies ce[j] == pe[j - off] by {
            assert(ce[(j - 1) + 1] == pe[j - 1]);
        }
    }
    assert(ce.len() == pe.len() + off);
    assert(forall|j: int| 0 <= j < p ==> ce[j] == pe[j]);
    assert(ce[p] == e);
    assert(cur.key_at(p) == k);
    assert(cur.val_at(p) == v);
    assert forall|i1: int, i2: int| 0 <= i1 < i2 < ce.len() implies lex_lt(
        cur.key_at(i1),
        cur.key_at(i2),
    ) by {
        if i2 < p {
            assert(ce[i1] == pe[i1]);
            assert(ce[i2] == pe[i2]);
            assert(lex_lt(prev.key_at(i1), prev.key_at(i2)));
        } else if i1 < p && i2 == p {
            assert(ce[i1] == pe[i1]);
            assert(lex_lt(prev.key_at(i1), k));
        } else if i1 < p && i2 > p {
            assert(ce[i1] == pe[i1]);
            assert(cur.key_at(i2) == prev.key_at(i2 - off));
            assert(lex_lt(prev.key_at(i1), prev.key_at(i2 - off)));
        } else if i1 == p {
            assert(i2 > p);
            assert(cur.key_at(i2) == prev.key_at(i2 - off));
            if replaced {
                assert(lex_lt(prev.key_at(p), prev.key_at(i2 - off)));
            } else {
                assert(i2 - 1 < pe.len());
                assert(p < pe.len());
                if i2 - 1 == p {
                    assert(lex_lt(k, prev.key_at(p)));
                } else {
                    lemma_lex_lt_trans(k, prev.key_at(p), prev.key_at(i2 - 1));
                }
            }
        } else {
            assert(cur.key_at(i1) == prev.key_at(i1 - off));
            assert(cur.key_at(i2) == prev.key_at(i2 - off));
            assert(lex_lt(prev.key_at(i1 - off), prev.key_at(i2 - off)));
        }
    }
    assert(cur.wf());
    let m1 = cur@;
    let m2 = prev@.insert(k, v);
    assert forall|k2: Seq<char>|
        #![trigger m1.dom().contains(k2)]
        #![trigger m2.dom().contains(k2)]
        (m1.dom().contains(k2) <==> m2.dom().contains(k2)) && (m1.dom().contains(k2) ==> m1[k2]
        == m2[k2]) by {
        if m1.contains_key(k2) {
            let i = choose|i: int| 0 <= i < ce.len() && ce[i].0@ == k2;
            assert(cur.key_at(i) == k2);
            let ci = cur.index_of(k2);
            cur.lemma_key_unique(i, ci);
            if i == p {
                assert(k2 == k);
                assert(m2.contains_key(k2));
                assert(m1[k2] == v);
            } else {
                if k2 == k {
                    cur.lemma_key_unique(i, p);
                }
                assert(k2 != k);
                let ip: int = if i > p {
                    i - off
                } else {
                    i
                };
                assert(pe[ip].0@ == k2);
                assert(prev.contains_key_spec(k2));
                assert(m2.contains_key(k2));
                let pi = prev.index_of(k2);
                prev.lemma_key_unique(ip, pi);
                assert(m2[k2] == prev.val_at(ip));
                assert(m1[k2] == cur.val_at(i));
                assert(cur.val_at(i) == prev.val_at(ip));
            }
        }
        if m2.contains_key(k2) {
            if k2 == k {
                assert(ce[p].0@ == k2);
                assert(m1.contains_key(k2));
            } else {
                assert(prev.contains_key_spec(k2));
                let j = choose|j: int| 0 <= j < pe.len() && pe[j].0@ == k2;
                let cj: int = if j >= p {
                    j + off
                } else {
                    j
                };
                assert(ce[cj] == pe[j]);
                assert(ce[cj].0@ == k2);
                assert(m1.contains_key(k2));
            }
        }
    }
    assert(m1 =~= m2);
}

/// Entries strictly sorted by key.
pub open spec fn entries_sorted(s: Seq<(String, String)>) -> bool {
    forall|i: int, j: int| 0 <= i < j < s.len() ==> lex_lt(s[i].0@, s[j].0@)
}

/// The abstract mapping an entry list denotes.
pub open spec fn map_of(s: Seq<(String, String)>) -> Map<Seq<char>, Seq<char>> {
    Map::new(
        |k: Seq<char>| entries_contain_key(s, k),
        |k: Seq<char>| s[entries_index_of(s, k)].1@,
    )
}

/// In a sorted entry list each key appears at exactly one index.
proof fn lemma_entries_unique(s: Seq<(String, String)>, i: int, j: int)
    requires
        entries_sorted(s),
        0 <= i < s.len(),
        0 <= j < s.len(),
        s[i].0@ == s[j].0@,
    ensures
        i == j,
{
    if i < j {
        lemma_lex_lt_trichotomy(s[i].0@, s[j].0@);
    }
    if j < i {
        lemma_lex_lt_trichotomy(s[j].0@, s[i].0@);
    }
}

/// Dropping the last entry of a sorted list removes exactly its key from
/// the denoted mapping.
proof fn lemma_map_of_drop_last(s: Seq<(String, String)>)
    requires
        entries_sorted(s),
        s.len() > 0,
    ensures
        map_of(s.drop_last()) == map_of(s).remove(s.last().0@),
{
    let s2 = s.drop_last();
    let k0 = s.last().0@;
    let m2 = map_of(s2);
    let mr = map_of(s).remove(k0);
    assert forall|k: Seq<char>|
        #![trigger m2.dom().contains(k)]
        #![trigger mr.dom().contains(k)]
        (m2.dom().contains(k) <==> mr.dom().contains(k)) && (m2.dom().contains(k) ==> m2[k]
            == mr[k]) by {
        if entries_contain_key(s2, k) {
            let j = choose|j: int| 0 <= j < s2.len() && s2[j].0@ == k;
            assert(s2[j] == s[j]);
            assert(s[j].0@ == k);
            assert(entries_contain_key(s, k));
            assert(lex_lt(s[j].0@, k0));
            lemma_lex_lt_trichotomy(s[j].0@, k0);
            assert(k != k0);
            let j2 = entries_index_of(s2, k);
            assert(s2[j2].0@ == k);
            lemma_entries_unique_prefix(s, j2, j);
            let j3 = entries_index_of(s, k);
            assert(s[j3].0@ == k);
            lemma_entries_unique(s, j3, j);
            assert(m2[k] == mr[k]);
        }
        if mr.dom().contains(k) {
            assert(k != k0);
            assert(entries_contain_key(s, k));
            let j = choose|j: int| 0 <= j < s.len() && s[j].0@ == k;
            assert(j != s.len() - 1);
            assert(s2[j] == s[j]);
            assert(entries_contain_key(s2, k));
        }
    }
    assert(m2 =~= mr);
}

/// Uniqueness transported to the shortened list.
proof fn lemma_entries_unique_prefix(s: Seq<(String, String)>, i: int, j: int)
    requires
        entries_sorted(s),
        s.len() > 0,
        0 <= i < s.len() - 1,
        0 <= j < s.len() - 1,
        s.drop_last()[i].0@ == s.drop_last()[j].0@,
    ensures
        i == j,
{
    assert(s.drop_last()[i] == s[i]);
    assert(s.drop_last()[j] == s[j]);
    lemma_entries_unique(s, i, j);
}

/// Sorted association lists are a canonical form: two sorted entry lists
/// that denote the same abstract mapping agree entry by entry, at the level
/// of the character sequences of their keys and values. This is what makes
/// the sorted rendering of a tag set depend only on the mapping, never on
/// the order the tags were inserted in.
pub proof fn lemma_entries_canonical(ae: Seq<(String, String)>, be: Seq<(String, String)>)
    requires
        entries_sorted(ae),
        entries_sorted(be),
        map_of(ae) == map_of(be),
    ensures
        ae.len() == be.len(),
        forall|i: int| 0 <= i < ae.len() ==> ae[i].0@ == be[i].0@ && ae[i].1@ == be[i].1@,
    decreases ae.len(),
{
    if ae.len() == 0 && be.len() == 0 {
    } else if ae.len() == 0 {
        let kb = be.last().0@;
        assert(be[be.len() - 1].0@ == kb);
        assert(entries_contain_key(be, kb));
        assert(map_of(be).dom().contains(kb));
        assert(map_of(ae).dom().contains(kb));
        let w = choose|w: int| 0 <= w < ae.len() && ae[w].0@ == kb;
        assert(false);
    } else if be.len() == 0 {
        let ka = ae.last().0@;
        assert(ae[ae.len() - 1].0@ == ka);
        assert(entries_contain_key(ae, ka));
        assert(map_of(ae).dom().contains(ka));
        assert(map_of(be).dom().contains(ka));
        let w = choose|w: int| 0 <= w < be.len() && be[w].0@ == ka;
        assert(false);
    } else {
        let la: int = ae.len() - 1;
        let lb: int = be.len() - 1;
        let ka = ae[la].0@;
        let kb = be[lb].0@;
        assert(entries_contain_key(ae, ka));
        assert(map_of(be).dom().contains(ka));
        let ja = choose|j: int| 0 <= j < be.len() && be[j].0@ == ka;
        assert(entries_contain_key(be, kb));
        assert(map_of(ae).dom().contains(kb));
        let jb = choose|j: int| 0 <= j < ae.len() && ae[j].0@ == kb;
        if ka != kb {
            // ka sits strictly below kb in `be`, and kb strictly below ka
            // in `ae`: a cycle the strict order forbids
            assert(ja < lb);
            assert(lex_lt(be[ja].0@, kb));
            assert(jb < la);
            assert(lex_lt(ae[jb].0@, ka));
            lemma_lex_lt_trans(ka, kb, ka);
            lemma_lex_lt_trichotomy(ka, ka);
            assert(false);
        }
        let ia = entries_index_of(ae, ka);
        assert(ae[ia].0@ == ka);
        lemma_entries_unique(ae, ia, la);
        let ib = entries_index_of(be, ka);
        assert(be[ib].0@ == ka);
        lemma_entries_unique(be, ib, lb);
        assert(map_of(ae)[ka] == ae[la].1@);
        assert(map_of(be)[ka] == be[lb].1@);
        assert(ae[la].1@ == be[lb].1@);
        lemma_map_of_drop_last(ae);
        lemma_map_of_drop_last(be);
        lemma_entries_canonical(ae.drop_last(), be.drop_last());
        assert forall|i: int| 0 <= i < ae.len() implies ae[i].0@ == be[i].0@ && ae[i].1@
            == be[i].1@ by {
            if i < la {
                assert(ae.drop_last()[i] == ae[i]);
                assert(be.drop_last()[i] == be[i]);
            }
        }
    }
}

impl View for TagMap {
    type V = Map<Seq<char>, Seq<char>>;

    open spec fn view(&self) -> Map<Seq<char>, Seq<char>> {
        map_of(self.entries@)
    }
}

/// The canonical-form property carried over to whole tag maps.
pub proof fn lemma_tagmap_canonical(a: TagMap, b: TagMap)
    requires
        a.wf(),
        b.wf(),
        a@ == b@,
    ensures
        a.entries@.len() == b.entries@.len(),
        forall|i: int|
            0 <= i < a.entries@.len() ==> a.key_at(i) == b.key_at(i) && a.val_at(i) == b.val_at(i),
{
    assert forall|i: int, j: int| 0 <= i < j < a.entries@.len() implies lex_lt(
        a.entries@[i].0@,
        a.entries@[j].0@,
    ) by {
        assert(lex_lt(a.key_at(i), a.key_at(j)));
    }
    assert forall|i: int, j: int| 0 <= i < j < b.entries@.len() implies lex_lt(
        b.entries@[i].0@,
        b.entries@[j].0@,
    ) by {
        assert(lex_lt(b.key_at(i), b.key_at(j)));
    }
    lemma_entries_canonical(a.entries@, b.entries@);
}

} // verus!

use vstd::prelude::*;
use crate::text::{lex_lt, chars_lt, chars_eq, str_to_chars, lemma_lex_lt_trichotomy,
    lemma_lex_lt_trans};

verus! {

/// An unordered collection of distinct observed keys (the payload of a Set
/// metric), kept as a vector strictly sorted by the lexicographic order of
/// the character sequences. Sorting makes the canonical text rendering
/// deterministic; the abstract value is the set of members.
#[derive(Clone, Debug, PartialEq)]
pub struct StringSet {
    pub items: Vec<String>,
}

impl StringSet {
    /// Member `i`, as a character sequence.
    pub open spec fn elem_at(self, i: int) -> Seq<char> {
        self.items@[i]@
    }

    /// Members strictly sorted, hence unique.
    pub open spec fn wf(self) -> bool {
        forall|i: int, j: int|
            0 <= i < j < self.items@.len() ==> lex_lt(self.elem_at(i), self.elem_at(j))
    }

    pub open spec fn contains_spec(self, s: Seq<char>) -> bool {
        exists|i: int| 0 <= i < self.items@.len() && self.elem_at(i) == s
    }

    pub fn new() -> (r: StringSet)
        ensures
            r.wf(),
            r@ == Set::<Seq<char>>::empty(),
            r.items@.len() == 0,
    {
        let r = StringSet { items: Vec::new() };
        proof {
            assert(r@ =~= Set::<Seq<char>>::empty());
        }
        r
    }

    pub fn len(&self) -> (r: usize)
        ensures
            r == self.items@.len(),
    {
        self.items.len()
    }

    /// Remove every member.
    pub fn clear(&mut self)
        ensures
            final(self).wf(),
            final(self)@ == Set::<Seq<char>>::empty(),
            final(self).items@.len() == 0,
    {
        self.items.clear();
        proof {
            assert(self@ =~= Set::<Seq<char>>::empty());
        }
    }

    /// Insert a member, keeping the vector sorted; inserting a member that
    /// is already present leaves the collection unchanged.
    pub fn insert(&mut self, value: String)
        requires
            old(self).wf(),
        ensures
            final(self).wf(),
            final(self)@ == old(self)@.insert(value@),
    {
        let vc = str_to_chars(value.as_str());
        let mut i: usize = 0;
        loop
            invariant
                self == old(self),
                self.wf(),
                vc@ == value@,
                i <= self.items@.len(),
                forall|j: int| 0 <= j < i ==> lex_lt(self.elem_at(j), value@),
            ensures
                self == old(self),
                vc@ == value@,
                i <= self.items@.len(),
                forall|j: int| 0 <= j < i ==> lex_lt(self.elem_at(j), value@),
                i < self.items@.len() ==> !lex_lt(self.elem_at(i as int), value@),
            decreases self.items@.len() - i,
        {
            if i >= self.items.len() {
                break ;
            }
            let ec = str_to_chars(self.items[i].as_str());
            if chars_lt(&ec, &vc) {
                i = i + 1;
            } else {
                break ;
            }
        }
        let present: bool = if i < self.items.len() {
            let ec = str_to_chars(self.items[i].as_str());
            chars_eq(&ec, &vc)
        } else {
            false
        };
        if present {
            proof {
                assert(self.contains_spec(value@));
                assert(self@ =~= self@.insert(value@));
            }
            return ;
        }
        let ghost prev = *self;
        proof {
            if i < self.items@.len() {
                lemma_lex_lt_trichotomy(self.elem_at(i as int), value@);
            }
        }
        self.items.insert(i, value);
        proof {
            lemma_sorted_set_insert(prev, *self, i as int);
        }
    }
}

/// The set read off the first `n` members of a vector.
pub open spec fn prefix_set(items: Seq<String>, n: int) -> Set<Seq<char>> {
    Set::new(|s: Seq<char>| exists|j: int| 0 <= j < n && j < items.len() && items[j]@ == s)
}

impl StringSet {
    /// Add every member of `other`, collapsing duplicates: set union.
    pub fn union_with(&mut self, other: &StringSet)
        requires
            old(self).wf(),
        ensures
            final(self).wf(),
            final(self)@ == old(self)@.union(other@),
    {
        let ghost a = old(self)@;
        let mut i: usize = 0;
        proof {
            assert(self@ =~= a.union(prefix_set(other.items@, 0)));
        }
        while i < other.items.len()
            invariant
                self.wf(),
                i <= other.items@.len(),
                self@ == a.union(prefix_set(other.items@, i as int)),
            decreases other.items@.len() - i,
        {
            let ghost before = self@;
            self.insert(other.items[i].clone());
            proof {
                assert forall|s: Seq<char>|
                    #![trigger prefix_set(other.items@, i + 1).contains(s)]
                    prefix_set(other.items@, i + 1).contains(s) <==> (prefix_set(
                    other.items@,
                    i as int,
                ).contains(s) || s == other.items@[i as int]@) by {
                    if prefix_set(other.items@, i + 1).contains(s) {
                        let j = choose|j: int|
                            0 <= j < i + 1 && j < other.items@.len() && other.items@[j]@ == s;
                        if j < i {
                            assert(prefix_set(other.items@, i as int).contains(s));
                        }
                    }
                    if prefix_set(other.items@, i as int).contains(s) {
                        let j = choose|j: int|
                            0 <= j < i && j < other.items@.len() && other.items@[j]@ == s;
                        assert(0 <= j < i + 1 && j < other.items@.len() && other.items@[j]@ == s);
                    }
                    if s == other.items@[i as int]@ {
                        assert(0 <= i < i + 1 && i < other.items@.len() && other.items@[i as int]@
                            == s);
                    }
                }
                assert(self@ =~= a.union(prefix_set(other.items@, i + 1)));
            }
            i = i + 1;
        }
        proof {
            assert forall|s: Seq<char>|
                #![trigger other@.contains(s)]
                prefix_set(other.items@, other.items@.len() as int).contains(s) <==> other@.contains(
                s,
            ) by {
                if prefix_set(other.items@, other.items@.len() as int).contains(s) {
                    let j = choose|j: int|
                        0 <= j < other.items@.len() && j < other.items@.len() && other.items@[j]@
                            == s;
                    assert(other.elem_at(j) == s);
                }
                if other.contains_spec(s) {
                    let j = choose|j: int| 0 <= j < other.items@.len() && other.items@[j]@ == s;
                    assert(prefix_set(other.items@, other.items@.len() as int).contains(s));
                }
            }
            assert(self@ =~= a.union(other@));
        }
    }
}

/// Inserting a member at its sorted position keeps the vector sorted and
/// adds exactly that member to the abstract set.
proof fn lemma_sorted_set_insert(prev: StringSet, cur: StringSet, p: int)
    requires
        prev.wf(),
        0 <= p <= prev.items@.len(),
        cur.items@ == prev.items@.insert(p, cur.items@[p]),
        0 <= p < cur.items@.len(),
        forall|j: int| 0 <= j < p ==> lex_lt(prev.elem_at(j), cur.elem_at(p)),
        p == prev.items@.len() || lex_lt(cur.elem_at(p), prev.elem_at(p)),
    ensures
        cur.wf(),
        cur@ == prev@.insert(cur.elem_at(p)),
{
    let k = cur.elem_at(p);
    let pe = prev.items@;
    let ce = cur.items@;
    pe.insert_ensures(p, ce[p]);
    assert forall|j: int| p < j < ce.len() implies ce[j] == pe[j - 1] by {
        assert(ce[(j - 1) + 1] == pe[j - 1]);
    }
    assert(ce.len() == pe.len() + 1);
    assert(forall|j: int| 0 <= j < p ==> ce[j] == pe[j]);
    assert forall|i1: int, i2: int| 0 <= i1 < i2 < ce.len() implies lex_lt(
        cur.elem_at(i1),
        cur.elem_at(i2),
    ) by {
        if i2 < p {
            assert(lex_lt(prev.elem_at(i1), prev.elem_at(i2)));
        } else if i1 < p && i2 == p {
            assert(lex_lt(prev.elem_at(i1), k));
        } else if i1 < p && i2 > p {
            assert(cur.elem_at(i2) == prev.elem_at(i2 - 1));
            assert(lex_lt(prev.elem_at(i1), prev.elem_at(i2 - 1)));
        } else if i1 == p {
            assert(cur.elem_at(i2) == prev.elem_at(i2 - 1));
            assert(p < pe.len());
            if i2 - 1 == p {
                assert(lex_lt(k, prev.elem_at(p)));
            } else {
                lemma_lex_lt_trans(k, prev.elem_at(p), prev.elem_at(i2 - 1));
            }
        } else {
            assert(cur.elem_at(i1) == prev.elem_at(i1 - 1));
            assert(cur.elem_at(i2) == prev.elem_at(i2 - 1));
            assert(lex_lt(prev.elem_at(i1 - 1), prev.elem_at(i2 - 1)));
        }
    }
    assert(cur.wf());
    let s1 = cur@;
    let s2 = prev@.insert(k);
    assert forall|k2: Seq<char>|
        #![trigger s1.contains(k2)]
        #![trigger s2.contains(k2)]
        s1.contains(k2) <==> s2.contains(k2) by {
        if cur.contains_spec(k2) {
            let i = choose|i: int| 0 <= i < ce.len() && cur.elem_at(i) == k2;
            if i == p {
                assert(s2.contains(k2));
            } else {
                let ip: int = if i > p {
                    i - 1
                } else {
                    i
                };
                assert(prev.elem_at(ip) == k2);
                assert(prev.contains_spec(k2));
            }
        }
        if s2.contains(k2) {
            if k2 == k {
                assert(cur.elem_at(p) == k2);
            } else {
                assert(prev.contains_spec(k2));
                let j = choose|j: int| 0 <= j < pe.len() && prev.elem_at(j) == k2;
                let cj: int = if j >= p {
                    j + 1
                } else {
                    j
                };
                assert(cur.elem_at(cj) == k2);
            }
        }
    }
    assert(s1 =~= s2);
}

impl View for StringSet {
    type V = Set<Seq<char>>;

    open spec fn view(&self) -> Set<Seq<char>> {
        Set::new(|s: Seq<char>| self.contains_spec(s))
    }
}

} // verus!

//! The classes of a header, keyed by name: a later class of the same name
//! takes the place of an earlier one.
use vstd::prelude::*;

use crate::cls::{ClsAst, ClsAstView};

verus! {

/// The map from class name to class that a sequence of classes gives, a later
/// class of a name replacing an earlier one.
pub open spec fn entry_map(s: Seq<ClsAstView>) -> Map<Seq<char>, ClsAstView>
    decreases s.len(),
{
    if s.len() == 0 {
        Map::empty()
    } else {
        entry_map(s.drop_last()).insert(s.last().name, s.last())
    }
}

/// No two classes of `s` share a name.
pub open spec fn names_distinct(s: Seq<ClsAstView>) -> bool {
    forall|i: int, j: int| 0 <= i < s.len() && 0 <= j < s.len() && i != j ==> s[i].name != s[j].name
}

proof fn lemma_entry_map_dom(s: Seq<ClsAstView>, k: Seq<char>)
    ensures
        entry_map(s).contains_key(k) <==> exists|i: int| 0 <= i < s.len() && s[i].name == k,
    decreases s.len(),
{
    if s.len() > 0 {
        lemma_entry_map_dom(s.drop_last(), k);
        if entry_map(s.drop_last()).contains_key(k) {
            let i = choose|i: int| 0 <= i < s.drop_last().len() && s.drop_last()[i].name == k;
            assert(s[i].name == k);
        }
        if exists|i: int| 0 <= i < s.len() && s[i].name == k {
            let i = choose|i: int| 0 <= i < s.len() && s[i].name == k;
            if i < s.len() - 1 {
                assert(s.drop_last()[i].name == k);
            }
        }
    }
}

proof fn lemma_entry_map_value(s: Seq<ClsAstView>, i: int)
    requires
        names_distinct(s),
        0 <= i < s.len(),
    ensures
        entry_map(s).contains_key(s[i].name),
        entry_map(s)[s[i].name] == s[i],
    decreases s.len(),
{
    if i < s.len() - 1 {
        assert(names_distinct(s.drop_last()));
        lemma_entry_map_value(s.drop_last(), i);
        assert(s.drop_last()[i] == s[i]);
    }
}

proof fn lemma_entry_map_remove(s: Seq<ClsAstView>, idx: int)
    requires
        names_distinct(s),
        0 <= idx < s.len(),
    ensures
        names_distinct(s.remove(idx)),
        entry_map(s.remove(idx)) =~= entry_map(s).remove(s[idx].name),
{
    let r = s.remove(idx);
    assert forall|i: int, j: int| 0 <= i < r.len() && 0 <= j < r.len() && i != j implies r[i].name
        != r[j].name by {
        let si = if i < idx {
            i
        } else {
            i + 1
        };
        let sj = if j < idx {
            j
        } else {
            j + 1
        };
        assert(r[i] == s[si]);
        assert(r[j] == s[sj]);
    }
    assert forall|k: Seq<char>| #[trigger]
        entry_map(r).contains_key(k) == entry_map(s).remove(s[idx].name).contains_key(k) by {
        lemma_entry_map_dom(r, k);
        lemma_entry_map_dom(s, k);
        if exists|i: int| 0 <= i < r.len() && r[i].name == k {
            let i = choose|i: int| 0 <= i < r.len() && r[i].name == k;
            let si = if i < idx {
                i
            } else {
                i + 1
            };
            assert(r[i] == s[si]);
        }
        if entry_map(s).remove(s[idx].name).contains_key(k) {
            let j = choose|j: int| 0 <= j < s.len() && s[j].name == k;
            assert(j != idx);
            let ri = if j < idx {
                j
            } else {
                j - 1
            };
            assert(r[ri] == s[j]);
        }
    }
    assert forall|k: Seq<char>| #[trigger] entry_map(r).contains_key(k) implies entry_map(r)[k]
        == entry_map(s).remove(s[idx].name)[k] by {
        lemma_entry_map_dom(r, k);
        let i = choose|i: int| 0 <= i < r.len() && r[i].name == k;
        let si = if i < idx {
            i
        } else {
            i + 1
        };
        assert(r[i] == s[si]);
        lemma_entry_map_value(r, i);
        lemma_entry_map_value(s, si);
    }
}

/// Putting a class into a table and then taking its name out gives back that
/// class, and leaves the table as taking the name out alone would.
pub proof fn lemma_insert_then_remove(m: Map<Seq<char>, ClsAstView>, c: ClsAstView)
    ensures
        m.insert(c.name, c).contains_key(c.name),
        m.insert(c.name, c)[c.name] == c,
        m.insert(c.name, c).remove(c.name) == m.remove(c.name),
{
    assert(m.insert(c.name, c).remove(c.name) =~= m.remove(c.name));
}

/// The classes read from a header, each under its name.
pub struct ClassTable {
    entries: Vec<ClsAst>,
}

impl View for ClassTable {
    type V = Map<Seq<char>, ClsAstView>;

    closed spec fn view(&self) -> Map<Seq<char>, ClsAstView> {
        entry_map(self.entries@.map_values(|c: ClsAst| c@))
    }
}

impl ClassTable {
    /// The table's internal invariant: it holds each name once.
    pub closed spec fn wf(&self) -> bool {
        names_distinct(self.entries@.map_values(|c: ClsAst| c@))
    }

    /// The table with no class.
    pub fn new() -> (r: Self)
        ensures
            r.wf(),
            r@ == Map::<Seq<char>, ClsAstView>::empty(),
    {
        let r = ClassTable { entries: Vec::new() };
        assert(r.entries@.map_values(|c: ClsAst| c@) =~= Seq::<ClsAstView>::empty());
        r
    }

    /// The position of the class named `name`, if there is one.
    fn position(&self, name: &String) -> (r: Option<usize>)
        requires
            self.wf(),
        ensures
            r matches Some(i) ==> i < self.entries@.len() && self.entries@[i as int].name@
                == name@,
            r is None ==> forall|i: int|
                0 <= i < self.entries@.len() ==> self.entries@[i].name@ != name@,
    {
        let n = self.entries.len();
        let mut i: usize = 0;
        while i < n
            invariant
                i <= n,
                n == self.entries@.len(),
                forall|j: int| 0 <= j < i ==> self.entries@[j].name@ != name@,
            decreases n - i,
        {
            if self.entries[i].name == *name {
                return Some(i);
            }
            i = i + 1;
        }
        None
    }

    /// Puts `cls` under its name, in place of a class of the same name.
    pub fn insert(&mut self, cls: ClsAst)
        requires
            old(self).wf(),
        ensures
            final(self).wf(),
            final(self)@ == old(self)@.insert(cls@.name, cls@),
    {
        let ghost s0 = self.entries@.map_values(|c: ClsAst| c@);
        let ghost cv = cls@;
        let found = self.position(&cls.name);
        let ghost s1 = s0;
        match found {
            Some(idx) => {
                self.entries.remove(idx);
                proof {
                    lemma_entry_map_remove(s0, idx as int);
                    assert(self.entries@.map_values(|c: ClsAst| c@) =~= s0.remove(idx as int));
                    s1 = s0.remove(idx as int);
                }
            },
            None => {},
        }
        assert(forall|i: int| 0 <= i < s1.len() ==> s1[i].name != cv.name) by {
            if found is Some {
                let idx = found->0 as int;
                assert forall|i: int| 0 <= i < s1.len() implies s1[i].name != cv.name by {
                    let si = if i < idx {
                        i
                    } else {
                        i + 1
                    };
                    assert(s1[i] == s0[si]);
                }
            } else {
                assert forall|i: int| 0 <= i < s1.len() implies s1[i].name != cv.name by {
                    assert(s1[i] == self.entries@[i]@);
                }
            }
        }
        assert(entry_map(s1) =~= old(self)@.remove(cv.name)) by {
            if found is None {
                lemma_entry_map_dom(s0, cv.name);
            }
        }
        self.entries.push(cls);
        assert(self.entries@.map_values(|c: ClsAst| c@) =~= s1.push(cv));
        assert(s1.push(cv).drop_last() =~= s1);
        assert(old(self)@.remove(cv.name).insert(cv.name, cv) =~= old(self)@.insert(cv.name, cv));
    }

    /// Takes out the class named `name`; `None` where there is none.
    pub fn remove(&mut self, name: &str) -> (r: Option<ClsAst>)
        requires
            old(self).wf(),
        ensures
            final(self).wf(),
            final(self)@ == old(self)@.remove(name@),
            r is Some <==> old(self)@.contains_key(name@),
            r matches Some(c) ==> c@ == old(self)@[name@],
    {
        let ghost s0 = self.entries@.map_values(|c: ClsAst| c@);
        let key = String::from_str(name);
        match self.position(&key) {
            Some(idx) => {
                let c = self.entries.remove(idx);
                proof {
                    lemma_entry_map_remove(s0, idx as int);
                    lemma_entry_map_value(s0, idx as int);
                    assert(self.entries@.map_values(|c: ClsAst| c@) =~= s0.remove(idx as int));
                    assert(s0[idx as int] == c@);
                }
                Some(c)
            },
            None => {
                proof {
                    lemma_entry_map_dom(s0, name@);
                    if old(self)@.contains_key(name@) {
                        let i = choose|i: int| 0 <= i < s0.len() && s0[i].name == name@;
                        assert(s0[i] == self.entries@[i]@);
                    }
                    assert(old(self)@.remove(name@) =~= old(self)@);
                }
                None
            },
        }
    }
}

} // verus!

//! The transient edit-state store: per-field scratch data keyed by a
//! stable (container type name, field name) identity, owned by the host
//! UI context and handed into each render pass.

use vstd::prelude::*;
use crate::editor::EditState;

verus! {

/// One stored entry: the identity it is keyed by, and the field's edit
/// state.
pub struct StoreEntry {
    /// The enclosing record type's name.
    pub container: String,
    /// The field's name.
    pub field: String,
    /// The field's edit state.
    pub state: EditState,
}

/// The position of the first entry under the given identity, if any.
pub open spec fn spec_find(s: Seq<StoreEntry>, c: Seq<char>, f: Seq<char>) -> Option<int>
    decreases s.len(),
{
    if s.len() == 0 {
        None
    } else if s[0].container@ == c && s[0].field@ == f {
        Some(0)
    } else {
        match spec_find(s.drop_first(), c, f) {
            Some(k) => Some(k + 1),
            None => None,
        }
    }
}

proof fn lemma_find_at(s: Seq<StoreEntry>, c: Seq<char>, f: Seq<char>, k: int)
    requires
        0 <= k < s.len(),
        s[k].container@ == c && s[k].field@ == f,
        forall|j: int| 0 <= j < k ==> !(#[trigger] s[j].container@ == c && s[j].field@ == f),
    ensures
        spec_find(s, c, f) == Some(k),
    decreases s.len(),
{
    if k > 0 {
        assert(s.drop_first()[k - 1] == s[k]);
        assert forall|j: int| 0 <= j < k - 1 implies !(#[trigger] s.drop_first()[j].container@ == c
            && s.drop_first()[j].field@ == f) by {
            assert(s.drop_first()[j] == s[j + 1]);
        }
        lemma_find_at(s.drop_first(), c, f, k - 1);
    }
}

proof fn lemma_find_none(s: Seq<StoreEntry>, c: Seq<char>, f: Seq<char>)
    requires
        forall|j: int| 0 <= j < s.len() ==> !(#[trigger] s[j].container@ == c && s[j].field@ == f),
    ensures
        spec_find(s, c, f) is None,
    decreases s.len(),
{
    if s.len() > 0 {
        assert forall|j: int| 0 <= j < s.drop_first().len() implies !(#[trigger] s.drop_first()[j].container@
            == c && s.drop_first()[j].field@ == f) by {
            assert(s.drop_first()[j] == s[j + 1]);
        }
        lemma_find_none(s.drop_first(), c, f);
    }
}

/// The transient edit-state store.  Entries live until the host drops the
/// store; nothing tears them down earlier.
pub struct EditStore {
    entries: Vec<StoreEntry>,
}

impl EditStore {
    /// The stored entries, oldest first.
    pub closed spec fn entries(&self) -> Seq<StoreEntry> {
        self.entries@
    }

    /// An empty store.
    pub fn new() -> (s: EditStore)
        ensures
            s.entries().len() == 0,
    {
        EditStore { entries: Vec::new() }
    }

    /// The state stored under the given identity, if any.
    pub fn fetch(&self, container: &str, field: &str) -> (r: Option<EditState>)
        ensures
            match spec_find(self.entries(), container@, field@) {
                Some(k) => r == Some(self.entries()[k].state),
                None => r is None,
            },
    {
        let ckey: String = String::from_str(container);
        let fkey: String = String::from_str(field);
        let n: usize = self.entries.len();
        let mut i: usize = 0;
        while i < n
            invariant
                i <= n,
                n == self.entries().len(),
                ckey@ == container@,
                fkey@ == field@,
                forall|j: int|
                    0 <= j < i ==> !(#[trigger] self.entries()[j].container@ == container@
                        && self.entries()[j].field@ == field@),
            decreases n - i,
        {
            let e = &self.entries[i];
            if e.container == ckey && e.field == fkey {
                proof {
                    lemma_find_at(self.entries(), container@, field@, i as int);
                }
                return Some(EditState { text: e.state.text.clone(), failed: e.state.failed });
            }
            i = i + 1;
        }
        proof {
            lemma_find_none(self.entries(), container@, field@);
        }
        None
    }

    /// Stores a state under the given identity, replacing the entry that
    /// stood under it, or appending a new one.
    pub fn put(&mut self, container: &str, field: &str, st: EditState)
        ensures
            match spec_find(old(self).entries(), container@, field@) {
                Some(k) => {
                    &&& final(self).entries().len() == old(self).entries().len()
                    &&& forall|j: int|
                        0 <= j < old(self).entries().len() && j != k ==> final(self).entries()[j]
                            == old(self).entries()[j]
                    &&& final(self).entries()[k].container@ == container@
                    &&& final(self).entries()[k].field@ == field@
                    &&& final(self).entries()[k].state == st
                },
                None => {
                    &&& final(self).entries().len() == old(self).entries().len() + 1
                    &&& forall|j: int|
                        0 <= j < old(self).entries().len() ==> final(self).entries()[j] == old(
                            self,
                        ).entries()[j]
                    &&& final(self).entries().last().container@ == container@
                    &&& final(self).entries().last().field@ == field@
                    &&& final(self).entries().last().state == st
                },
            },
    {
        let ckey: String = String::from_str(container);
        let fkey: String = String::from_str(field);
        let n: usize = self.entries.len();
        let mut i: usize = 0;
        while i < n
            invariant
                i <= n,
                n == self.entries().len(),
                self.entries() == old(self).entries(),
                ckey@ == container@,
                fkey@ == field@,
                forall|j: int|
                    0 <= j < i ==> !(#[trigger] self.entries()[j].container@ == container@
                        && self.entries()[j].field@ == field@),
            decreases n - i,
        {
            let hit: bool = {
                let e = &self.entries[i];
                e.container == ckey && e.field == fkey
            };
            if hit {
                proof {
                    lemma_find_at(self.entries(), container@, field@, i as int);
                }
                self.entries.set(i, StoreEntry { container: ckey, field: fkey, state: st });
                return ;
            }
            i = i + 1;
        }
        proof {
            lemma_find_none(self.entries(), container@, field@);
        }
        self.entries.push(StoreEntry { container: ckey, field: fkey, state: st });
    }
}

} // verus!

//! The agents that are known.

use vstd::prelude::*;

use crate::agent_manifest::Manifest;
use crate::runtime::AgentId;
use crate::text::{owned, same_text};
use crate::vfs_path::VfsPath;

verus! {

/// One agent: its manifest, its directory, and the handle of its log.
#[derive(Clone, Debug)]
pub struct AgentRecord {
    pub manifest: Manifest,
    pub agent_dir: VfsPath,
    pub log_buffer: u64,
}

/// The contents of a record.
pub ghost struct RecordModel {
    pub manifest: crate::agent_manifest::AgentManifestModel,
    pub agent_dir: Seq<Seq<char>>,
    pub log_buffer: u64,
}

impl View for AgentRecord {
    type V = RecordModel;

    open spec fn view(&self) -> RecordModel {
        RecordModel {
            manifest: self.manifest@,
            agent_dir: self.agent_dir@,
            log_buffer: self.log_buffer,
        }
    }
}

struct Entry {
    id: AgentId,
    record: AgentRecord,
}

/// The agents that are known, by their names. No name occurs twice.
pub struct AgentRegistry {
    entries: Vec<Entry>,
}

spec fn place_of(entries: Seq<Entry>, name: Seq<char>) -> Option<int>
    decreases entries.len(),
{
    if entries.len() == 0 {
        None
    } else if entries.last().id.0@ == name {
        Some(entries.len() - 1)
    } else {
        place_of(entries.drop_last(), name)
    }
}

proof fn lemma_place_of(entries: Seq<Entry>, name: Seq<char>)
    ensures
        match place_of(entries, name) {
            Some(i) => 0 <= i < entries.len() && entries[i].id.0@ == name,
            None => forall|i: int| 0 <= i < entries.len() ==> (#[trigger] entries[i]).id.0@ != name,
        },
    decreases entries.len(),
{
    if entries.len() > 0 && entries.last().id.0@ != name {
        lemma_place_of(entries.drop_last(), name);
        assert(forall|i: int|
            0 <= i < entries.len() - 1 ==> entries.drop_last()[i] == #[trigger] entries[i]);
    }
}

impl View for AgentRegistry {
    type V = Map<Seq<char>, RecordModel>;

    closed spec fn view(&self) -> Map<Seq<char>, RecordModel> {
        Map::new(
            |name: Seq<char>| place_of(self.entries@, name) is Some,
            |name: Seq<char>| self.entries@[place_of(self.entries@, name)->0].record@,
        )
    }
}

spec fn names_distinct(entries: Seq<Entry>) -> bool {
    forall|i: int, j: int|
        0 <= i < j < entries.len() ==> (#[trigger] entries[i]).id.0@ != (
        #[trigger] entries[j]).id.0@
}

impl AgentRegistry {
    /// No name occurs twice.
    pub closed spec fn wf(&self) -> bool {
        names_distinct(self.entries@)
    }

    pub fn new() -> (r: AgentRegistry)
        ensures
            r.wf(),
            r@ == Map::<Seq<char>, RecordModel>::empty(),
    {
        let r = AgentRegistry { entries: Vec::new() };
        proof {
            assert(r@ =~= Map::<Seq<char>, RecordModel>::empty());
        }
        r
    }

    fn place(&self, name: &str) -> (r: Option<usize>)
        requires
            self.wf(),
        ensures
            match r {
                Some(i) => i < self.entries@.len() && self.entries@[i as int].id.0@ == name@
                    && place_of(self.entries@, name@) == Some(i as int),
                None => place_of(self.entries@, name@) is None,
            },
    {
        let mut i: usize = 0;
        proof {
            lemma_place_of(self.entries@, name@);
        }
        while i < self.entries.len()
            invariant
                i <= self.entries.len(),
                names_distinct(self.entries@),
                forall|j: int| 0 <= j < i ==> (#[trigger] self.entries@[j]).id.0@ != name@,
                match place_of(self.entries@, name@) {
                    Some(k) => 0 <= k < self.entries@.len() && self.entries@[k].id.0@ == name@,
                    None => forall|k: int|
                        0 <= k < self.entries@.len() ==> (#[trigger] self.entries@[k]).id.0@
                            != name@,
                },
            decreases self.entries.len() - i,
        {
            if same_text(self.entries[i].id.0.as_str(), name) {
                proof {
                    assert(self.entries@[i as int].id.0@ == name@);
                }
                return Some(i);
            }
            i = i + 1;
        }
        None
    }

    /// Puts an agent in, in place of the one with the same name.
    pub fn upsert(&mut self, id: AgentId, record: AgentRecord)
        requires
            old(self).wf(),
        ensures
            final(self).wf(),
            final(self)@ == old(self)@.insert(id.0@, record@),
    {
        let ghost want = self@.insert(id.0@, record@);
        let ghost name = id.0@;
        let _old = self.remove(&id);
        let ghost rest = self.entries@;
        let ghost less = self@;
        let e = Entry { id, record };
        self.entries.push(e);
        proof {
            let all = self.entries@;
            assert(all.drop_last() =~= rest);
            lemma_place_of(rest, name);
            assert(!less.dom().contains(name));
            assert(place_of(rest, name) is None);
            assert forall|a: int, b: int| 0 <= a < b < all.len() implies (#[trigger] all[a]).id.0@
                != (#[trigger] all[b]).id.0@ by {
                assert(all[a] == rest[a]);
                if b < rest.len() {
                    assert(all[b] == rest[b]);
                }
            }
            assert forall|q: Seq<char>| #[trigger]
                self@.dom().contains(q) == want.dom().contains(q) && (self@.dom().contains(q)
                    ==> self@[q] == want[q]) by {
                lemma_place_of(rest, q);
                assert(less.dom().contains(q) == (place_of(rest, q) is Some));
                if q != name {
                    assert(place_of(all, q) == place_of(rest, q));
                    if place_of(rest, q) is Some {
                        let k = place_of(rest, q)->0;
                        assert(all[k] == rest[k]);
                        assert(self@[q] == less[q]);
                    }
                }
            }
            assert(self@.dom() =~= want.dom());
            assert(self@ =~= want);
        }
    }

    /// The agent with a name.
    pub fn get(&self, id: &AgentId) -> (r: Option<&AgentRecord>)
        requires
            self.wf(),
        ensures
            match r {
                Some(rec) => self@.dom().contains(id.0@) && rec@ == self@[id.0@],
                None => !self@.dom().contains(id.0@),
            },
    {
        match self.place(id.0.as_str()) {
            Some(i) => Some(&self.entries[i].record),
            None => None,
        }
    }

    /// Takes an agent out.
    pub fn remove(&mut self, id: &AgentId) -> (r: Option<AgentRecord>)
        requires
            old(self).wf(),
        ensures
            final(self).wf(),
            final(self)@ == old(self)@.remove(id.0@),
            match r {
                Some(rec) => old(self)@.dom().contains(id.0@) && rec@ == old(self)@[id.0@],
                None => !old(self)@.dom().contains(id.0@),
            },
    {
        let ghost was = self.entries@;
        let ghost want = self@.remove(id.0@);
        match self.place(id.0.as_str()) {
            None => {
                proof {
                    assert(self@ =~= want);
                }
                None
            },
            Some(i) => {
                let e = self.entries.remove(i);
                proof {
                    let now = self.entries@;
                    assert(now =~= was.remove(i as int));
                    assert forall|a: int, b: int| 0 <= a < b < now.len() implies (
                    #[trigger] now[a]).id.0@ != (#[trigger] now[b]).id.0@ by {
                        let x = if a < i {
                            a
                        } else {
                            a + 1
                        };
                        let y = if b < i {
                            b
                        } else {
                            b + 1
                        };
                        assert(now[a] == was[x] && now[b] == was[y]);
                    }
                    assert forall|q: Seq<char>| #[trigger]
                        self@.dom().contains(q) == want.dom().contains(q) && (self@.dom().contains(
                            q,
                        ) ==> self@[q] == want[q]) by {
                        lemma_place_of(was, q);
                        lemma_place_of(now, q);
                        if let Some(k) = place_of(now, q) {
                            let x = if k < i {
                                k
                            } else {
                                k + 1
                            };
                            assert(now[k] == was[x]);
                            assert(was[x].id.0@ == q);
                            assert(x != i);
                            assert(q != id.0@);
                            let y = place_of(was, q)->0;
                            assert(was[y].id.0@ == q);
                            assert(x == y);
                        } else {
                            if place_of(was, q) is Some {
                                let y = place_of(was, q)->0;
                                if y < i {
                                    assert(now[y] == was[y]);
                                } else if y > i {
                                    assert(now[y - 1] == was[y]);
                                }
                                assert(y == i);
                            }
                        }
                    }
                    assert(self@.dom() =~= want.dom());
                    assert(self@ =~= want);
                }
                Some(e.record)
            },
        }
    }

    /// The names of the agents, each once.
    pub fn names(&self) -> (r: Vec<String>)
        requires
            self.wf(),
        ensures
            crate::text::texts(r@).no_duplicates(),
            forall|name: Seq<char>|
                #[trigger] crate::text::texts(r@).contains(name) == self@.dom().contains(name),
    {
        let mut out: Vec<String> = Vec::new();
        let mut i: usize = 0;
        while i < self.entries.len()
            invariant
                i <= self.entries.len(),
                out@.len() == i,
                forall|j: int| 0 <= j < i ==> (#[trigger] out@[j])@ == self.entries@[j].id.0@,
            decreases self.entries.len() - i,
        {
            out.push(owned(self.entries[i].id.0.as_str()));
            i = i + 1;
        }
        proof {
            let names = crate::text::texts(out@);
            assert forall|a: int, b: int|
                0 <= a < names.len() && 0 <= b < names.len() && a != b implies names[a]
                != names[b] by {
                assert(out@[a]@ == self.entries@[a].id.0@ && out@[b]@ == self.entries@[b].id.0@);
                if a < b {
                    assert(self.entries@[a].id.0@ != self.entries@[b].id.0@);
                } else {
                    assert(self.entries@[b].id.0@ != self.entries@[a].id.0@);
                }
            }
            assert forall|name: Seq<char>| #[trigger]
                names.contains(name) == self@.dom().contains(name) by {
                lemma_place_of(self.entries@, name);
                if names.contains(name) {
                    let k = choose|k: int| 0 <= k < names.len() && names[k] == name;
                    assert(self.entries@[k].id.0@ == name);
                }
                if let Some(k) = place_of(self.entries@, name) {
                    assert(names[k] == name);
                }
            }
        }
        out
    }
}

impl Default for AgentRegistry {
    fn default() -> (r: AgentRegistry)
        ensures
            r.wf(),
            r@ == Map::<Seq<char>, RecordModel>::empty(),
    {
        AgentRegistry::new()
    }
}

} // verus!

//! Corpus stores: append-only collections of inputs with what was observed of them.

use crate::coverage::CoverageMap;
use crate::input::{bytes_equal, Chunk, Input, InputView, Segment};
use vstd::prelude::*;

verus! {

/// The stage that produced an input.
#[derive(Clone, Copy, Debug, PartialEq, Eq, Structural)]
pub enum Origin {
    /// Loaded from the seed directory.
    Seed,
    /// A mutant built from a recorded comparison.
    InputToState,
    /// A mutant of the byte-level stage.
    Havoc,
    /// A mutant of the structure-aware stage.
    Grimoire,
}

/// Where an entry came from: the stage, and the entry it was derived from.
#[derive(Clone, Copy, Debug)]
pub struct Lineage {
    pub origin: Origin,
    pub parent: Option<usize>,
}

/// One stored input with its derived data.
#[derive(Debug)]
pub struct CorpusEntry {
    /// The handle of the entry: its position in insertion order.
    pub id: usize,
    pub input: Input,
    /// The coverage observed when the entry was accepted.
    pub coverage: CoverageMap,
    /// Duration of the accepting execution, in milliseconds.
    pub exec_time_ms: u64,
    pub lineage: Lineage,
}

/// The mathematical value of a `CorpusEntry`.
pub struct EntryView {
    pub id: nat,
    pub input: InputView,
    pub coverage: Seq<bool>,
    pub exec_time_ms: u64,
    pub lineage: Lineage,
}

impl DeepView for CorpusEntry {
    type V = EntryView;

    open spec fn deep_view(&self) -> EntryView {
        EntryView {
            id: self.id as nat,
            input: self.input.deep_view(),
            coverage: self.coverage@,
            exec_time_ms: self.exec_time_ms,
            lineage: self.lineage,
        }
    }
}

/// An append-only store of entries. The handle of an entry is its index.
#[derive(Debug)]
pub struct Corpus {
    pub entries: Vec<CorpusEntry>,
}

impl DeepView for Corpus {
    type V = Seq<EntryView>;

    open spec fn deep_view(&self) -> Seq<EntryView> {
        self.entries.deep_view()
    }
}

/// Some entry of the store holds exactly these bytes.
pub open spec fn holds_bytes(entries: Seq<EntryView>, bytes: Seq<u8>) -> bool {
    exists|i: int| 0 <= i < entries.len() && #[trigger] entries[i].input.bytes == bytes
}

impl Corpus {
    /// Every entry carries its own index as handle.
    pub open spec fn wf(&self) -> bool {
        forall|i: int| 0 <= i < self.entries@.len() ==> (#[trigger] self.entries@[i]).id == i
    }

    /// Whether every entry carries its own index as handle.
    pub fn is_wf(&self) -> (ok: bool)
        ensures
            ok == self.wf(),
    {
        let mut i: usize = 0;
        while i < self.entries.len()
            invariant
                i <= self.entries.len(),
                forall|k: int| 0 <= k < i ==> (#[trigger] self.entries@[k]).id == k,
            decreases self.entries.len() - i,
        {
            if self.entries[i].id != i {
                return false;
            }
            i = i + 1;
        }
        true
    }

    /// A store with no entries.
    pub fn new() -> (corpus: Corpus)
        ensures
            corpus.wf(),
            corpus.deep_view().len() == 0,
    {
        Corpus { entries: Vec::new() }
    }

    /// The number of entries.
    pub fn count(&self) -> (n: usize)
        ensures
            n == self.deep_view().len(),
    {
        self.entries.len()
    }

    /// Whether `id` is the handle of an entry.
    pub fn contains(&self, id: usize) -> (present: bool)
        ensures
            present == (id < self.deep_view().len()),
    {
        id < self.entries.len()
    }

    /// The entry behind a handle. A handle that the store never gave out stands for a
    /// corrupted corpus; callers halt instead of asking for it.
    pub fn get(&self, id: usize) -> (entry: &CorpusEntry)
        requires
            id < self.deep_view().len(),
        ensures
            entry.deep_view() == self.deep_view()[id as int],
            *entry == self.entries@[id as int],
    {
        &self.entries[id]
    }

    /// Appends an entry and returns its handle. Entries already stored are untouched.
    pub fn add(
        &mut self,
        input: Input,
        coverage: CoverageMap,
        exec_time_ms: u64,
        lineage: Lineage,
    ) -> (id: usize)
        requires
            old(self).wf(),
        ensures
            final(self).wf(),
            id == old(self).deep_view().len(),
            final(self).deep_view() == old(self).deep_view().push(
                EntryView {
                    id: id as nat,
                    input: input.deep_view(),
                    coverage: coverage@,
                    exec_time_ms,
                    lineage,
                },
            ),
            final(self).entries@.subrange(0, id as int) == old(self).entries@,
    {
        let id = self.entries.len();
        let ghost before = self.entries@;
        self.entries.push(CorpusEntry { id, input, coverage, exec_time_ms, lineage });
        proof {
            assert(self.entries@.subrange(0, id as int) =~= before);
            assert(self.entries.deep_view() =~= before.map_values(|e: CorpusEntry| e.deep_view()).push(
                self.entries@[id as int].deep_view(),
            ));
            assert(before.map_values(|e: CorpusEntry| e.deep_view()) =~= old(self).deep_view());
        }
        id
    }

    /// Attaches a generalized form to the entry behind `id`. Nothing else changes: the
    /// store gains no entry, and bytes, coverage, timing and lineage stay as they are.
    pub fn attach_form(&mut self, id: usize, form: Vec<Segment>)
        requires
            old(self).wf(),
            id < old(self).deep_view().len(),
        ensures
            final(self).wf(),
            final(self).deep_view() == old(self).deep_view().update(
                id as int,
                EntryView {
                    input: InputView {
                        bytes: old(self).deep_view()[id as int].input.bytes,
                        generalized: Some(form.deep_view()),
                    },
                    ..old(self).deep_view()[id as int]
                },
            ),
    {
        let ghost before = self.entries@;
        let ghost views = self.deep_view();
        let entry = self.entries.remove(id);
        let CorpusEntry { id: handle, input, coverage, exec_time_ms, lineage } = entry;
        let Input { bytes, generalized: _ } = input;
        let fresh = CorpusEntry {
            id: handle,
            input: Input { bytes, generalized: Some(form) },
            coverage,
            exec_time_ms,
            lineage,
        };
        self.entries.insert(id, fresh);
        proof {
            let after = self.entries@;
            assert(after.len() == before.len());
            assert forall|i: int| 0 <= i < after.len() implies (#[trigger] after[i]).id == i by {
                if i != id {
                    assert(after[i] == before[i]);
                }
            }
            assert forall|i: int| 0 <= i < after.len() implies self.deep_view()[i] == views.update(
                id as int,
                EntryView {
                    input: InputView {
                        bytes: views[id as int].input.bytes,
                        generalized: Some(form.deep_view()),
                    },
                    ..views[id as int]
                },
            )[i] by {
                assert(self.deep_view()[i] == after[i].deep_view());
                assert(views[i] == before[i].deep_view());
                if i != id {
                    assert(after[i] == before[i]);
                }
            }
            assert(self.deep_view() =~= views.update(
                id as int,
                EntryView {
                    input: InputView {
                        bytes: views[id as int].input.bytes,
                        generalized: Some(form.deep_view()),
                    },
                    ..views[id as int]
                },
            ));
        }
    }

    /// A copy of the store.
    pub fn duplicate(&self) -> (copy: Corpus)
        ensures
            copy.deep_view() == self.deep_view(),
            self.wf() ==> copy.wf(),
    {
        let mut entries: Vec<CorpusEntry> = Vec::new();
        let mut i: usize = 0;
        while i < self.entries.len()
            invariant
                i <= self.entries.len(),
                entries@.len() == i,
                forall|k: int|
                    0 <= k < i ==> (#[trigger] entries@[k]).deep_view() == self.entries@[k].deep_view(),
            decreases self.entries.len() - i,
        {
            let entry = &self.entries[i];
            entries.push(
                CorpusEntry {
                    id: entry.id,
                    input: entry.input.duplicate(),
                    coverage: entry.coverage.duplicate(),
                    exec_time_ms: entry.exec_time_ms,
                    lineage: entry.lineage,
                },
            );
            i = i + 1;
        }
        let copy = Corpus { entries };
        proof {
            assert(copy.deep_view() =~= self.deep_view());
            if self.wf() {
                assert forall|k: int| 0 <= k < copy.entries@.len() implies (
                #[trigger] copy.entries@[k]).id == k by {
                    assert(copy.entries@[k].deep_view() == self.entries@[k].deep_view());
                }
            }
        }
        copy
    }

    /// Whether some entry holds exactly these bytes.
    pub fn holds(&self, bytes: &Vec<u8>) -> (found: bool)
        ensures
            found == holds_bytes(self.deep_view(), bytes@),
    {
        let mut i: usize = 0;
        while i < self.entries.len()
            invariant
                i <= self.entries.len(),
                forall|k: int| 0 <= k < i ==> (#[trigger] self.deep_view()[k]).input.bytes != bytes@,
            decreases self.entries.len() - i,
        {
            if bytes_equal(&self.entries[i].input.bytes, bytes) {
                assert(self.deep_view()[i as int].input.bytes == bytes@);
                return true;
            }
            assert(self.deep_view()[i as int].input.bytes == self.entries@[i as int].input.bytes@);
            i = i + 1;
        }
        false
    }

    /// Appends an entry unless one with the same bytes is already stored: an exact
    /// duplicate is suppressed. Returns the handle of the new entry, if one was made.
    pub fn add_distinct(
        &mut self,
        input: Input,
        coverage: CoverageMap,
        exec_time_ms: u64,
        lineage: Lineage,
    ) -> (id: Option<usize>)
        requires
            old(self).wf(),
        ensures
            final(self).wf(),
            id is None <==> holds_bytes(old(self).deep_view(), input.bytes@),
            id is None ==> final(self).deep_view() == old(self).deep_view(),
            id is Some ==> id->0 == old(self).deep_view().len() && final(self).deep_view() == old(self).deep_view().push(
                EntryView {
                    id: id->0 as nat,
                    input: input.deep_view(),
                    coverage: coverage@,
                    exec_time_ms,
                    lineage,
                },
            ),
    {
        if self.holds(&input.bytes) {
            None
        } else {
            Some(self.add(input, coverage, exec_time_ms, lineage))
        }
    }
}

} // verus!

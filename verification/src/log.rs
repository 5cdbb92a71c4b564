//! Log entries and the append-only log of one task.

use crate::event::{EventView, LogEvent};
use vstd::prelude::*;

verus! {

/// One line of a log: when it was written, by which source, and what
/// happened.
#[derive(Debug, Clone, PartialEq, Eq)]
pub struct LogEntry {
    /// Milliseconds since the Unix epoch.
    pub time: i64,
    /// The file or session that wrote the line.
    pub file_name: String,
    /// The decoded event.
    pub event: LogEvent,
}

/// What a [`LogEntry`] stands for.
pub struct EntryView {
    pub time: i64,
    pub file_name: Seq<char>,
    pub event: EventView,
}

impl View for LogEntry {
    type V = EntryView;

    open spec fn view(&self) -> EntryView {
        EntryView { time: self.time, file_name: self.file_name@, event: self.event@ }
    }
}

/// The views of a run of entries, in the same order.
pub open spec fn entry_views(entries: Seq<LogEntry>) -> Seq<EntryView> {
    entries.map_values(|entry: LogEntry| entry@)
}

/// The positions in `entries` that hold a `SynthStart`, in rising order.
pub open spec fn start_positions(entries: Seq<EntryView>) -> Seq<usize>
    decreases entries.len(),
{
    if entries.len() == 0 {
        Seq::empty()
    } else {
        let earlier = start_positions(entries.drop_last());
        if entries.last().event is SynthStart {
            earlier.push((entries.len() - 1) as usize)
        } else {
            earlier
        }
    }
}

/// `start_positions` lists exactly the positions of the `SynthStart`
/// entries, each once, in rising order.
pub proof fn lemma_start_positions(entries: Seq<EntryView>)
    requires
        entries.len() <= usize::MAX,
    ensures
        start_positions(entries).len() <= entries.len(),
        forall|k: int|
            0 <= k < start_positions(entries).len() ==> {
                &&& (#[trigger] start_positions(entries)[k]) < entries.len()
                &&& entries[start_positions(entries)[k] as int].event is SynthStart
            },
        forall|j: int, k: int|
            0 <= j < k < start_positions(entries).len() ==> start_positions(entries)[j]
                < start_positions(entries)[k],
        forall|i: int|
            0 <= i < entries.len() && (#[trigger] entries[i]).event is SynthStart
                ==> start_positions(entries).contains(i as usize),
    decreases entries.len(),
{
    if entries.len() > 0 {
        let earlier = entries.drop_last();
        lemma_start_positions(earlier);
        let found = start_positions(entries);
        assert forall|i: int|
            0 <= i < entries.len() && (#[trigger] entries[i]).event is SynthStart implies found.contains(
            i as usize,
        ) by {
            if i < earlier.len() {
                assert(earlier[i] == entries[i]);
                let k = choose|k: int|
                    0 <= k < start_positions(earlier).len() && start_positions(earlier)[k]
                        == i as usize;
                assert(found[k] == i as usize);
            } else {
                assert(found[found.len() - 1] == i as usize);
            }
        }
    }
}

/// The entries of one task in arrival order, with the positions of its
/// synthesis starts kept beside them.
#[derive(Debug)]
pub struct Log {
    entries: Vec<LogEntry>,
    synth_calls: Vec<usize>,
}

impl View for Log {
    type V = Seq<EntryView>;

    closed spec fn view(&self) -> Seq<EntryView> {
        entry_views(self.entries@)
    }
}

/// Appends `entry` to `entries` and, where it is a synthesis start, its
/// position to `synth_calls`.
fn append(entries: &mut Vec<LogEntry>, synth_calls: &mut Vec<usize>, entry: LogEntry)
    requires
        old(synth_calls)@ == start_positions(entry_views(old(entries)@)),
    ensures
        final(entries)@ == old(entries)@.push(entry),
        final(synth_calls)@ == start_positions(entry_views(final(entries)@)),
{
    let ghost before = entry_views(entries@);
    match entry.event {
        LogEvent::SynthStart { .. } => {
            synth_calls.push(entries.len());
        },
        _ => {},
    }
    entries.push(entry);
    proof {
        assert(entry_views(entries@).drop_last() =~= before);
    }
}

impl Log {
    #[verifier::type_invariant]
    spec fn well_formed(self) -> bool {
        self.synth_calls@ == start_positions(entry_views(self.entries@))
    }

    /// The entries held, as they are.
    pub closed spec fn held(&self) -> Seq<LogEntry> {
        self.entries@
    }

    /// A log without entries.
    pub fn new() -> (log: Log)
        ensures
            log@ == Seq::<EntryView>::empty(),
    {
        let log = Log { entries: Vec::new(), synth_calls: Vec::new() };
        assert(log@ =~= Seq::<EntryView>::empty());
        log
    }

    /// A log holding the one entry `e`.
    pub fn with(e: LogEntry) -> (log: Log)
        ensures
            log@ == seq![e@],
    {
        let mut log = Self::new();
        log.push(e);
        assert(log@ =~= seq![e@]);
        log
    }

    /// Appends `e` as the last entry.
    pub fn push(&mut self, e: LogEntry)
        ensures
            final(self)@ == old(self)@.push(e@),
            final(self).held() == old(self).held().push(e),
    {
        let mut taken = Log::new();
        std::mem::swap(self, &mut taken);
        proof {
            use_type_invariant(&taken);
        }
        let Log { mut entries, mut synth_calls } = taken;
        append(&mut entries, &mut synth_calls, e);
        *self = Log { entries, synth_calls };
        assert(self@ =~= old(self)@.push(e@));
    }

    /// The entries in arrival order.
    pub fn entries(&self) -> (entries: &Vec<LogEntry>)
        ensures
            entries@ == self.held(),
            entry_views(entries@) == self@,
    {
        &self.entries
    }

    /// The positions of the entries that hold a synthesis start, in rising
    /// order.
    pub fn synth_calls(&self) -> (positions: &Vec<usize>)
        ensures
            positions@ == start_positions(self@),
    {
        proof {
            use_type_invariant(self);
        }
        &self.synth_calls
    }

    /// The entries that hold a synthesis start, in arrival order.
    pub fn synth_call_entries(&self) -> (starts: Vec<&LogEntry>)
        ensures
            starts@.len() == start_positions(self@).len(),
            forall|k: int|
                0 <= k < starts@.len() ==> *(#[trigger] starts@[k]) == self.held()[start_positions(
                    self@,
                )[k] as int],
    {
        proof {
            use_type_invariant(self);
            assert(self@.len() == self.entries.len());
            lemma_start_positions(self@);
        }
        let mut starts: Vec<&LogEntry> = Vec::new();
        let mut k: usize = 0;
        while k < self.synth_calls.len()
            invariant
                k <= self.synth_calls.len(),
                self.synth_calls@ == start_positions(self@),
                self@ == entry_views(self.entries@),
                forall|j: int|
                    0 <= j < self.synth_calls@.len() ==> (#[trigger] self.synth_calls@[j])
                        < self.entries@.len(),
                starts@.len() == k,
                forall|j: int|
                    0 <= j < k ==> *(#[trigger] starts@[j]) == self.entries@[self.synth_calls@[j] as int],
            decreases self.synth_calls.len() - k,
        {
            starts.push(&self.entries[self.synth_calls[k]]);
            k += 1;
        }
        starts
    }
}

} // verus!

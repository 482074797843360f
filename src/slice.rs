use vstd::prelude::*;
use crate::etable::frame_row;
use crate::etable::host_call_row;
use crate::jtable::FrameTable;
use crate::jtable::FrameTableEntry;
use crate::etable::EventTable;
use crate::etable::EventTableEntry;
use crate::external_host_call_table::ExternalHostCallEntry;
use crate::external_host_call_table::ExternalHostCallTable;

verus! {

/// The host-call rows of a run of steps: one for each host call with a recorded
/// value, in order.
pub open spec fn host_rows(entries: Seq<EventTableEntry>) -> Seq<ExternalHostCallEntry>
    decreases entries.len(),
{
    if entries.len() == 0 {
        Seq::empty()
    } else {
        let rows = host_rows(entries.drop_last());
        match host_call_row(entries.last()) {
            Some(row) => rows.push(row),
            None => rows,
        }
    }
}

/// The call frames that a run of steps opens, in order.
pub open spec fn frame_rows(entries: Seq<EventTableEntry>) -> Seq<FrameTableEntry>
    decreases entries.len(),
{
    if entries.len() == 0 {
        Seq::empty()
    } else {
        let rows = frame_rows(entries.drop_last());
        match frame_row(entries.last()) {
            Some(row) => rows.push(row),
            None => rows,
        }
    }
}

/// One sealed unit of the trace: its steps, the call frames they open, and the
/// host-call rows among them.
pub struct Slice {
    pub etable: EventTable,
    pub frame_table: FrameTable,
    pub external_host_call_table: ExternalHostCallTable,
}

impl Slice {
    /// A slice is well formed when its frame and host-call tables are drawn from its
    /// steps.
    pub open spec fn wf(&self) -> bool {
        &&& self.frame_table@ == frame_rows(self.etable@)
        &&& self.external_host_call_table@ == host_rows(self.etable@)
    }
}

/// Turns a committed run of steps into a slice.
pub struct SliceBuilder {}

impl SliceBuilder {
    pub fn new() -> (r: Self) {
        SliceBuilder {  }
    }

    pub fn build(&self, entries: Vec<EventTableEntry>) -> (r: Slice)
        ensures
            r.etable@ == entries@,
            r.wf(),
    {
        let mut rows: Vec<ExternalHostCallEntry> = Vec::new();
        let mut frames: Vec<FrameTableEntry> = Vec::new();
        let mut i: usize = 0;
        while i < entries.len()
            invariant
                i <= entries@.len(),
                rows@ == host_rows(entries@.subrange(0, i as int)),
                frames@ == frame_rows(entries@.subrange(0, i as int)),
            decreases entries@.len() - i,
        {
            let row = entries[i].to_host_call_entry();
            proof {
                assert(entries@.subrange(0, i + 1).drop_last() =~= entries@.subrange(0, i as int));
                assert(entries@.subrange(0, i + 1).last() == entries@[i as int]);
            }
            match row {
                Some(r) => rows.push(r),
                None => {},
            }
            match entries[i].to_frame_entry() {
                Some(f) => frames.push(f),
                None => {},
            }
            i = i + 1;
        }
        proof {
            assert(entries@.subrange(0, entries@.len() as int) =~= entries@);
        }
        Slice {
            etable: EventTable::new(entries),
            frame_table: FrameTable::new(frames),
            external_host_call_table: ExternalHostCallTable::new(rows),
        }
    }
}

/// A store of sealed slices that keeps them in the order they were pushed.
pub trait SliceBackend {
    fn push(&mut self, slice: Slice);

    fn len(&self) -> usize;

    fn is_empty(&self) -> bool;
}

/// The slices of a run, kept in memory.
pub struct InMemoryBackend {
    slices: Vec<Slice>,
}

impl InMemoryBackend {
    /// The steps of each stored slice, in order.
    pub closed spec fn tables(&self) -> Seq<Seq<EventTableEntry>> {
        self.slices@.map_values(|s: Slice| s.etable@)
    }

    /// Every stored slice is well formed.
    pub closed spec fn wf(&self) -> bool {
        forall|i: int| 0 <= i < self.slices@.len() ==> (#[trigger] self.slices@[i]).wf()
    }

    pub fn new() -> (r: Self)
        ensures
            r.tables() == Seq::<Seq<EventTableEntry>>::empty(),
            r.wf(),
    {
        InMemoryBackend { slices: Vec::new() }
    }

    pub fn push_slice(&mut self, slice: Slice)
        ensures
            final(self).tables() == old(self).tables().push(slice.etable@),
            old(self).wf() && slice.wf() ==> final(self).wf(),
    {
        self.slices.push(slice);
        proof {
            assert(final(self).tables() =~= old(self).tables().push(slice.etable@));
        }
    }

    pub fn slice_count(&self) -> (r: usize)
        ensures
            r == self.tables().len(),
    {
        self.slices.len()
    }

    /// The stored slices, in the order they were pushed.
    pub fn slices(&self) -> (r: &Vec<Slice>)
        ensures
            r@.map_values(|s: Slice| s.etable@) == self.tables(),
            self.wf() ==> forall|i: int| 0 <= i < r@.len() ==> (#[trigger] r@[i]).wf(),
    {
        &self.slices
    }

    /// Hands back the stored slices, in order.
    pub fn into_slices(self) -> (r: Vec<Slice>)
        ensures
            r@.map_values(|s: Slice| s.etable@) == self.tables(),
            self.wf() ==> forall|i: int| 0 <= i < r@.len() ==> (#[trigger] r@[i]).wf(),
    {
        self.slices
    }
}

impl SliceBackend for InMemoryBackend {
    fn push(&mut self, slice: Slice) {
        self.push_slice(slice);
    }

    fn len(&self) -> usize {
        self.slice_count()
    }

    fn is_empty(&self) -> bool {
        self.slices.len() == 0
    }
}

} // verus!

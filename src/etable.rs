use vstd::prelude::*;
use crate::external_host_call_table::ExternalHostCallEntry;
use crate::external_host_call_table::ExternalHostCallSignature;
use crate::jtable::FrameTableEntry;

verus! {

/// What an executed step did: an ordinary instruction, or a call to a host function.
#[derive(Clone, Copy, Debug, PartialEq, Eq, Structural)]
pub enum StepInfo {
    Instruction { opcode: u32 },
    /// A call of the function with this index.
    Call { index: u32 },
    ExternalHostCall { op: usize, value: Option<u64>, sig: ExternalHostCallSignature },
}

/// One executed step of the virtual machine.
#[derive(Clone, Copy, Debug, PartialEq, Eq, Structural)]
pub struct EventTableEntry {
    pub eid: u32,
    pub fid: u32,
    pub iid: u32,
    pub sp: u32,
    pub allocated_memory_pages: u32,
    pub last_jump_eid: u32,
    pub step_info: StepInfo,
}

/// The host-call row that a step stands for: present for a host call whose value
/// was recorded, absent for any other step.
pub open spec fn host_call_row(entry: EventTableEntry) -> Option<ExternalHostCallEntry> {
    match entry.step_info {
        StepInfo::ExternalHostCall { op, value, sig } => match value {
            Some(v) => Some(ExternalHostCallEntry { op, value: v, sig }),
            None => None,
        },
        _ => None,
    }
}

/// The call frame that a step opens: present for a call, absent for any other step.
pub open spec fn frame_row(entry: EventTableEntry) -> Option<FrameTableEntry> {
    match entry.step_info {
        StepInfo::Call { index } => Some(
            FrameTableEntry {
                frame_id: entry.eid,
                next_frame_id: entry.last_jump_eid,
                callee_fid: index,
                fid: entry.fid,
                iid: entry.iid,
            },
        ),
        _ => None,
    }
}

impl EventTableEntry {
    /// The call frame this step opens, if it is a call.
    pub fn to_frame_entry(&self) -> (r: Option<FrameTableEntry>)
        ensures
            r == frame_row(*self),
    {
        match self.step_info {
            StepInfo::Call { index } => Some(
                FrameTableEntry {
                    frame_id: self.eid,
                    next_frame_id: self.last_jump_eid,
                    callee_fid: index,
                    fid: self.fid,
                    iid: self.iid,
                },
            ),
            _ => None,
        }
    }

    /// The operation code of a host-call step.
    pub open spec fn host_op(&self) -> Option<usize> {
        match self.step_info {
            StepInfo::ExternalHostCall { op, .. } => Some(op),
            _ => None,
        }
    }

    pub fn host_call_op(&self) -> (r: Option<usize>)
        ensures
            r == self.host_op(),
    {
        match self.step_info {
            StepInfo::ExternalHostCall { op, .. } => Some(op),
            _ => None,
        }
    }

    /// The host-call row of this step, if it is a host call with a recorded value.
    pub fn to_host_call_entry(&self) -> (r: Option<ExternalHostCallEntry>)
        ensures
            r == host_call_row(*self),
    {
        match self.step_info {
            StepInfo::ExternalHostCall { op, value, sig } => match value {
                Some(v) => Some(ExternalHostCallEntry { op, value: v, sig }),
                None => None,
            },
            _ => None,
        }
    }
}

/// The executed steps of one slice, in execution order.
pub struct EventTable(pub Vec<EventTableEntry>);

impl EventTable {
    pub open spec fn view(&self) -> Seq<EventTableEntry> {
        self.0@
    }

    pub fn new(entries: Vec<EventTableEntry>) -> (r: Self)
        ensures
            r@ == entries@,
    {
        EventTable(entries)
    }

    pub fn entries(&self) -> (r: &Vec<EventTableEntry>)
        ensures
            r@ == self@,
    {
        &self.0
    }
}

/// The stack pointer that a table records for an interpreter stack pointer `sp`:
/// the distance from the top of a value stack of `limit` slots.
pub open spec fn recorded_sp(limit: u32, sp: u32) -> int {
    limit - sp - 1
}

/// A plain event-table recorder: it numbers steps from 1 and cuts a table whenever
/// it is flushed.
pub struct ETable {
    eid: u32,
    slices: Vec<EventTable>,
    entries: Vec<EventTableEntry>,
    capacity: u32,
    value_stack_limit: u32,
}

impl ETable {
    pub closed spec fn sealed(&self) -> Seq<Seq<EventTableEntry>> {
        self.slices@.map_values(|t: EventTable| t@)
    }

    pub closed spec fn current(&self) -> Seq<EventTableEntry> {
        self.entries@
    }

    pub closed spec fn last_eid(&self) -> u32 {
        self.eid
    }

    pub closed spec fn stack_limit(&self) -> u32 {
        self.value_stack_limit
    }

    /// An empty recorder for tables of `capacity` rows, on an interpreter whose value
    /// stack holds `value_stack_limit` slots.
    pub fn new(capacity: u32, value_stack_limit: u32) -> (r: Self)
        ensures
            r.last_eid() == 0,
            r.sealed() == Seq::<Seq<EventTableEntry>>::empty(),
            r.current() == Seq::<EventTableEntry>::empty(),
            r.stack_limit() == value_stack_limit,
    {
        Self {
            eid: 0,
            slices: Vec::new(),
            entries: Vec::with_capacity(capacity as usize),
            capacity,
            value_stack_limit,
        }
    }

    /// Seals the current entries as one table.
    pub fn flush(&mut self)
        ensures
            final(self).sealed() == old(self).sealed().push(old(self).current()),
            final(self).current() == Seq::<EventTableEntry>::empty(),
            final(self).last_eid() == old(self).last_eid(),
            final(self).stack_limit() == old(self).stack_limit(),
    {
        let mut entries = Vec::with_capacity(self.capacity as usize);
        std::mem::swap(&mut self.entries, &mut entries);
        let event_table = EventTable::new(entries);
        self.slices.push(event_table);
        proof {
            assert(final(self).sealed() =~= old(self).sealed().push(old(self).current()));
        }
    }

    /// Records one step under the next step number.
    pub fn push(
        &mut self,
        fid: u32,
        iid: u32,
        sp: u32,
        allocated_memory_pages: u32,
        last_jump_eid: u32,
        step_info: StepInfo,
    )
        requires
            old(self).last_eid() < u32::MAX,
            sp < old(self).stack_limit(),
        ensures
            final(self).last_eid() == old(self).last_eid() + 1,
            final(self).sealed() == old(self).sealed(),
            final(self).stack_limit() == old(self).stack_limit(),
            final(self).current() == old(self).current().push(
                EventTableEntry {
                    eid: final(self).last_eid(),
                    fid,
                    iid,
                    sp: recorded_sp(old(self).stack_limit(), sp) as u32,
                    allocated_memory_pages,
                    last_jump_eid,
                    step_info,
                },
            ),
    {
        self.eid = self.eid + 1;
        let sp = self.value_stack_limit - sp - 1;
        let eentry = EventTableEntry {
            eid: self.eid,
            fid,
            iid,
            sp,
            allocated_memory_pages,
            last_jump_eid,
            step_info,
        };
        self.entries.push(eentry);
    }

    /// The number of the step recorded last.
    pub fn eid(&self) -> (r: u32)
        ensures
            r == self.last_eid(),
    {
        self.eid
    }

    pub fn entries(&self) -> (r: &Vec<EventTableEntry>)
        ensures
            r@ == self.current(),
    {
        &self.entries
    }

    /// Seals what is left and hands back every table, in order.
    pub fn finalized(self) -> (r: Vec<EventTable>)
        ensures
            r@.map_values(|t: EventTable| t@) == self.sealed().push(self.current()),
    {
        let mut s = self;
        s.flush();
        s.slices
    }
}

} // verus!

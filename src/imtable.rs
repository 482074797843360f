use vstd::prelude::*;

verus! {

/// Where an initial value lives.
#[derive(Clone, Copy, Debug, PartialEq, Eq, Structural)]
pub enum LocationType {
    Stack,
    Heap,
    Global,
}

/// The type of an initial value.
#[derive(Clone, Copy, Debug, PartialEq, Eq, Structural)]
pub enum VarType {
    I32,
    I64,
}

/// One initial value of memory or of a global.
#[derive(Clone, Copy, Debug, PartialEq, Eq, Structural)]
pub struct InitMemoryTableEntry {
    pub ltype: LocationType,
    pub is_mutable: bool,
    pub offset: u32,
    pub vtype: VarType,
    /// The value's eight bytes, read least significant first.
    pub value: u64,
    pub eid: u32,
}

/// The entry that a table of initial values holds at a location: the last one
/// given for it.
pub open spec fn lookup(entries: Seq<InitMemoryTableEntry>, ltype: LocationType, offset: u32) -> Option<
    InitMemoryTableEntry,
>
    decreases entries.len(),
{
    if entries.len() == 0 {
        None
    } else if entries.last().ltype == ltype && entries.last().offset == offset {
        Some(entries.last())
    } else {
        lookup(entries.drop_last(), ltype, offset)
    }
}

/// The initial values of a program, keyed by location.
pub struct InitMemoryTable(Vec<InitMemoryTableEntry>);

impl InitMemoryTable {
    pub closed spec fn entries(&self) -> Seq<InitMemoryTableEntry> {
        self.0@
    }

    /// Holds each location's last entry.
    pub fn new(entries: Vec<InitMemoryTableEntry>) -> (r: Self)
        ensures
            forall|ltype: LocationType, offset: u32|
                #[trigger] lookup(r.entries(), ltype, offset) == lookup(entries@, ltype, offset),
    {
        InitMemoryTable(entries)
    }

    pub fn try_find(&self, ltype: LocationType, offset: u32) -> (r: Option<&InitMemoryTableEntry>)
        ensures
            match r {
                Some(e) => lookup(self.entries(), ltype, offset) == Some(*e),
                None => lookup(self.entries(), ltype, offset) is None,
            },
    {
        let mut i: usize = self.0.len();
        proof {
            assert(self.0@.subrange(0, i as int) =~= self.0@);
        }
        while i > 0
            invariant
                i <= self.0@.len(),
                lookup(self.0@, ltype, offset) == lookup(self.0@.subrange(0, i as int), ltype, offset),
            decreases i,
        {
            let e = &self.0[i - 1];
            proof {
                let s = self.0@.subrange(0, i as int);
                assert(s.last() == self.0@[i - 1]);
                assert(s.drop_last() =~= self.0@.subrange(0, i - 1));
            }
            if e.ltype == ltype && e.offset == offset {
                return Some(e);
            }
            i = i - 1;
        }
        None
    }
}

} // verus!

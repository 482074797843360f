use vstd::prelude::*;

verus! {

/// One target of a `br_table` instruction.
#[derive(Clone, Copy, Debug, PartialEq, Eq, Structural)]
pub struct BrTableEntry {
    pub fid: u32,
    pub iid: u32,
    pub index: u32,
    pub drop: u32,
    pub keep: u32,
    pub dst_pc: u32,
}

/// The `br_table` targets of a program.
pub struct BrTable(Vec<BrTableEntry>);

impl BrTable {
    pub closed spec fn view(&self) -> Seq<BrTableEntry> {
        self.0@
    }

    pub fn new(entries: Vec<BrTableEntry>) -> (r: Self)
        ensures
            r@ == entries@,
    {
        BrTable(entries)
    }

    pub fn entries(&self) -> (r: &Vec<BrTableEntry>)
        ensures
            r@ == self@,
    {
        &self.0
    }
}

/// One element of a function table.
#[derive(Clone, Copy, Debug, PartialEq, Eq, Structural)]
pub struct ElemEntry {
    pub table_idx: u32,
    pub type_idx: u32,
    pub offset: u32,
    pub func_idx: u32,
}

/// The function-table elements of a program.
pub struct ElemTable(Vec<ElemEntry>);

impl ElemTable {
    pub closed spec fn view(&self) -> Seq<ElemEntry> {
        self.0@
    }

    pub fn new(entries: Vec<ElemEntry>) -> (r: Self)
        ensures
            r@ == entries@,
    {
        ElemTable(entries)
    }

    pub fn entries(&self) -> (r: &Vec<ElemEntry>)
        ensures
            r@ == self@,
    {
        &self.0
    }
}

/// The two instructions that jump through a table.
#[derive(Clone, Copy, Debug, PartialEq, Eq, Structural)]
pub enum IndirectClass {
    BrTable,
    CallIndirect,
}

} // verus!

use vstd::prelude::*;

verus! {

/// One call frame: the step that opened it, the frame it returns to, the function
/// called, and where it was called from.
#[derive(Clone, Copy, Debug, PartialEq, Eq, Structural)]
pub struct FrameTableEntry {
    pub frame_id: u32,
    pub next_frame_id: u32,
    pub callee_fid: u32,
    pub fid: u32,
    pub iid: u32,
}

/// The call frames opened within one slice, in execution order.
pub struct FrameTable(pub Vec<FrameTableEntry>);

impl FrameTable {
    pub open spec fn view(&self) -> Seq<FrameTableEntry> {
        self.0@
    }

    pub fn new(entries: Vec<FrameTableEntry>) -> (r: Self)
        ensures
            r@ == entries@,
    {
        FrameTable(entries)
    }

    pub fn entries(&self) -> (r: &Vec<FrameTableEntry>)
        ensures
            r@ == self@,
    {
        &self.0
    }
}

} // verus!

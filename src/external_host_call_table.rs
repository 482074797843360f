use vstd::prelude::*;

verus! {

/// Whether a host call hands a value to the host or takes one back.
#[derive(Clone, Copy, Debug, PartialEq, Eq, Structural)]
pub enum ExternalHostCallSignature {
    Argument,
    Return,
}

impl ExternalHostCallSignature {
    pub fn is_ret(&self) -> (r: bool)
        ensures
            r == (*self == ExternalHostCallSignature::Return),
    {
        match self {
            ExternalHostCallSignature::Argument => false,
            ExternalHostCallSignature::Return => true,
        }
    }
}

/// One row of the host-call table: the operation, the value passed, and its direction.
#[derive(Clone, Copy, Debug, PartialEq, Eq, Structural)]
pub struct ExternalHostCallEntry {
    pub op: usize,
    pub value: u64,
    pub sig: ExternalHostCallSignature,
}

/// The host-call rows of one slice, in execution order.
pub struct ExternalHostCallTable(pub Vec<ExternalHostCallEntry>);

impl ExternalHostCallTable {
    pub open spec fn view(&self) -> Seq<ExternalHostCallEntry> {
        self.0@
    }

    pub fn new(entries: Vec<ExternalHostCallEntry>) -> (r: Self)
        ensures
            r@ == entries@,
    {
        Self(entries)
    }

    pub fn entries(&self) -> (r: &Vec<ExternalHostCallEntry>)
        ensures
            r@ == self@,
    {
        &self.0
    }

    pub fn push(&mut self, entry: ExternalHostCallEntry)
        ensures
            final(self)@ == old(self)@.push(entry),
    {
        self.0.push(entry);
    }
}

} // verus!

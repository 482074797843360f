use vstd::prelude::*;
use crate::brtable::BrTable;
use crate::brtable::ElemTable;
use crate::imtable::InitMemoryTable;
use crate::slice::SliceBackend;

verus! {

/// The tables fixed when a program is compiled.
pub struct CompilationTable {
    pub imtable: InitMemoryTable,
    pub br_table: BrTable,
    pub elem_table: ElemTable,
}

/// The tables produced by one run: its slices and its context inputs and outputs.
pub struct ExecutionTable<B: SliceBackend> {
    pub slice_backend: B,
    pub context_input_table: Vec<u64>,
    pub context_output_table: Vec<u64>,
}

/// Everything a proof of one run is built from.
pub struct Tables<B: SliceBackend> {
    pub compilation_tables: CompilationTable,
    pub execution_tables: ExecutionTable<B>,
}

} // verus!

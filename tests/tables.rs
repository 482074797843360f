use zkwasm_trace::brtable::BrTable;
use zkwasm_trace::brtable::BrTableEntry;
use zkwasm_trace::brtable::ElemEntry;
use zkwasm_trace::brtable::ElemTable;
use zkwasm_trace::config::common_range;
use zkwasm_trace::config::common_range_max;
use zkwasm_trace::config::is_valid_k;
use zkwasm_trace::etable::ETable;
use zkwasm_trace::etable::EventTable;
use zkwasm_trace::etable::EventTableEntry;
use zkwasm_trace::etable::StepInfo;
use zkwasm_trace::external_host_call_table::ExternalHostCallEntry;
use zkwasm_trace::external_host_call_table::ExternalHostCallSignature;
use zkwasm_trace::external_host_call_table::ExternalHostCallTable;
use zkwasm_trace::imtable::InitMemoryTable;
use zkwasm_trace::jtable::FrameTableEntry;
use zkwasm_trace::imtable::InitMemoryTableEntry;
use zkwasm_trace::imtable::LocationType;
use zkwasm_trace::imtable::VarType;
use zkwasm_trace::slice::InMemoryBackend;
use zkwasm_trace::slice::SliceBackend;
use zkwasm_trace::slice::SliceBuilder;

fn entry(eid: u32, step_info: StepInfo) -> EventTableEntry {
    EventTableEntry { eid, fid: 1, iid: 2, sp: 3, allocated_memory_pages: 1, last_jump_eid: 0, step_info }
}

#[test]
fn builder_keeps_steps_and_draws_host_rows() {
    let steps = vec![
        entry(1, StepInfo::Instruction { opcode: 0 }),
        entry(2, StepInfo::ExternalHostCall { op: 4, value: Some(77), sig: ExternalHostCallSignature::Argument }),
        entry(3, StepInfo::ExternalHostCall { op: 5, value: None, sig: ExternalHostCallSignature::Return }),
        entry(4, StepInfo::ExternalHostCall { op: 6, value: Some(1), sig: ExternalHostCallSignature::Return }),
        entry(5, StepInfo::Call { index: 12 }),
    ];
    let s = SliceBuilder::new().build(steps.clone());
    assert_eq!(s.etable.entries(), &steps);
    assert_eq!(
        s.external_host_call_table.entries(),
        &vec![
            ExternalHostCallEntry { op: 4, value: 77, sig: ExternalHostCallSignature::Argument },
            ExternalHostCallEntry { op: 6, value: 1, sig: ExternalHostCallSignature::Return },
        ]
    );
    assert_eq!(
        s.frame_table.entries(),
        &vec![FrameTableEntry { frame_id: 5, next_frame_id: 0, callee_fid: 12, fid: 1, iid: 2 }]
    );
    let mut b = InMemoryBackend::new();
    assert!(b.is_empty());
    b.push(s);
    assert_eq!(b.len(), 1);
}

#[test]
fn signature_direction() {
    assert!(ExternalHostCallSignature::Return.is_ret());
    assert!(!ExternalHostCallSignature::Argument.is_ret());
    let mut t = ExternalHostCallTable::new(vec![]);
    t.push(ExternalHostCallEntry { op: 1, value: 2, sig: ExternalHostCallSignature::Argument });
    assert_eq!(t.entries().len(), 1);
}

#[test]
fn etable_numbers_steps_and_flips_the_stack_pointer() {
    let mut t = ETable::new(4, 4096);
    t.push(1, 2, 10, 1, 0, StepInfo::Instruction { opcode: 3 });
    t.push(1, 3, 4095, 1, 0, StepInfo::Instruction { opcode: 3 });
    assert_eq!(t.eid(), 2);
    assert_eq!(t.entries()[0].eid, 1);
    assert_eq!(t.entries()[0].sp, 4085);
    assert_eq!(t.entries()[1].sp, 0);
    t.flush();
    assert!(t.entries().is_empty());
    t.push(1, 4, 0, 1, 0, StepInfo::Instruction { opcode: 3 });
    let tables: Vec<EventTable> = t.finalized();
    assert_eq!(tables.len(), 2);
    assert_eq!(tables[0].entries().len(), 2);
    assert_eq!(tables[1].entries()[0].eid, 3);
}

#[test]
fn init_memory_keeps_the_last_entry_per_location() {
    let e = |ltype, offset, value| InitMemoryTableEntry {
        ltype,
        is_mutable: true,
        offset,
        vtype: VarType::I64,
        value,
        eid: 0,
    };
    let t = InitMemoryTable::new(vec![
        e(LocationType::Heap, 0, 1),
        e(LocationType::Global, 0, 2),
        e(LocationType::Heap, 0, 3),
    ]);
    assert_eq!(t.try_find(LocationType::Heap, 0).map(|x| x.value), Some(3));
    assert_eq!(t.try_find(LocationType::Global, 0).map(|x| x.value), Some(2));
    assert!(t.try_find(LocationType::Stack, 0).is_none());
}

#[test]
fn br_and_elem_tables_hold_their_entries() {
    let b = BrTable::new(vec![BrTableEntry { fid: 1, iid: 2, index: 0, drop: 1, keep: 0, dst_pc: 9 }]);
    assert_eq!(b.entries()[0].dst_pc, 9);
    let e = ElemTable::new(vec![ElemEntry { table_idx: 0, type_idx: 1, offset: 2, func_idx: 3 }]);
    assert_eq!(e.entries()[0].func_idx, 3);
}

#[test]
fn common_range_of_k() {
    assert_eq!(common_range(18), (1 << 18) - 256);
    assert_eq!(common_range_max(18), (1 << 18) - 257);
    assert_eq!(common_range(8), 0);
    assert!(is_valid_k(18));
    assert!(is_valid_k(22));
    assert!(!is_valid_k(23));
    assert!(!is_valid_k(17));
}

use zkwasm_trace::etable::EventTableEntry;
use zkwasm_trace::etable::StepInfo;
use zkwasm_trace::external_host_call_table::ExternalHostCallSignature;
use zkwasm_trace::flush_strategy::Command;
use zkwasm_trace::flush_strategy::Event;
use zkwasm_trace::flush_strategy::FlushStrategy;
use zkwasm_trace::flush_strategy::OperationFamily;
use zkwasm_trace::flush_strategy::StandardFlushStrategy;
use zkwasm_trace::slice::InMemoryBackend;
use zkwasm_trace::slice::Slice;
use zkwasm_trace::transaction::HostTransaction;
use zkwasm_trace::transaction::TransactionError;

/// A policy that gives prepared answers to host calls, in order.
struct Script {
    answers: Vec<Command>,
    next: usize,
    reset_answer: Command,
}

impl Script {
    fn new(answers: Vec<Command>) -> Self {
        Script { answers, next: 0, reset_answer: Command::Noop }
    }
}

impl FlushStrategy for Script {
    fn notify(&mut self, event: Event) -> Command {
        match event {
            Event::Reset => self.reset_answer,
            Event::HostCall(_) => {
                let c = self.answers[self.next];
                self.next += 1;
                c
            }
        }
    }
}

fn plain(eid: u32) -> EventTableEntry {
    EventTableEntry {
        eid,
        fid: 0,
        iid: eid,
        sp: 0,
        allocated_memory_pages: 1,
        last_jump_eid: 0,
        step_info: StepInfo::Instruction { opcode: 7 },
    }
}

fn host(eid: u32, op: usize) -> EventTableEntry {
    EventTableEntry {
        eid,
        fid: 0,
        iid: eid,
        sp: 0,
        allocated_memory_pages: 1,
        last_jump_eid: 0,
        step_info: StepInfo::ExternalHostCall {
            op,
            value: Some(eid as u64 * 10),
            sig: ExternalHostCallSignature::Argument,
        },
    }
}

fn eids(slice: &Slice) -> Vec<u32> {
    slice.etable.entries().iter().map(|e| e.eid).collect()
}

fn all_eids(b: &InMemoryBackend) -> Vec<Vec<u32>> {
    b.slices().iter().map(eids).collect()
}

fn family(id: usize, ops: Vec<usize>, group_size: usize, max_rounds: usize) -> OperationFamily {
    OperationFamily { id, ops, group_size, max_rounds }
}

#[test]
fn single_group_then_plain_steps_at_capacity_ten() {
    let policy = StandardFlushStrategy::new(vec![family(7, vec![1], 3, 1)]);
    let mut t = HostTransaction::new(10, policy);
    let mut input = Vec::new();
    for eid in 1..=3 {
        input.push(host(eid, 1));
    }
    for eid in 4..=13 {
        input.push(plain(eid));
    }
    for e in &input {
        t.insert(*e).unwrap();
    }
    let b = t.finalized().unwrap();
    let slices = all_eids(&b);
    assert_eq!(slices, vec![(1..=10).collect::<Vec<u32>>(), (11..=13).collect::<Vec<u32>>()]);
    assert!(slices.iter().all(|s| s.len() <= 10));
    assert_eq!(b.slices()[0].external_host_call_table.entries().len(), 3);
    assert_eq!(b.slices()[1].external_host_call_table.entries().len(), 0);
}

#[test]
fn lazy_checkpoint_advances_when_the_group_restarts() {
    let script = Script::new(vec![
        Command::Start(1),
        Command::Commit(1, true),
        Command::Start(1),
        Command::Commit(1, false),
    ]);
    let mut t = HostTransaction::new(5, script);
    t.insert(host(1, 4)).unwrap();
    t.insert(host(2, 4)).unwrap();
    assert_eq!(t.lazy_checkpoint(1), Some(2));
    assert!(t.is_in_lazy_transaction());
    t.insert(plain(3)).unwrap();
    t.insert(host(4, 4)).unwrap();
    assert_eq!(t.lazy_checkpoint(1), Some(3));
    assert_eq!(t.open_checkpoint(1), Some(3));
    assert_eq!(t.safely_abort_position(), Some(0));
    assert_eq!(t.slices().len(), 0);
    t.insert(host(5, 4)).unwrap();
    assert_eq!(t.lazy_checkpoint(1), None);
    assert_eq!(t.safely_abort_position(), Some(5));
    assert_eq!(t.slices().len(), 0);
    assert_eq!(t.len(), 5);
}

#[test]
fn starting_an_open_id_is_fatal() {
    let script = Script::new(vec![
        Command::Start(1),
        Command::Start(2),
        Command::Commit(1, false),
        Command::Start(2),
    ]);
    let mut t = HostTransaction::new(16, script);
    t.insert(host(1, 10)).unwrap();
    t.insert(host(2, 20)).unwrap();
    t.insert(host(3, 10)).unwrap();
    assert!(t.is_in_transaction());
    assert_eq!(t.insert(host(4, 20)), Err(TransactionError::DuplicateStart(2)));
}

#[test]
fn twelve_plain_steps_at_capacity_four() {
    let mut t = HostTransaction::new(4, Script::new(vec![]));
    for eid in 1..=12 {
        t.insert(plain(eid)).unwrap();
        assert!(t.len() <= 4);
        assert_eq!(t.safely_abort_position(), None);
    }
    assert_eq!(t.slices().len(), 2);
    let b = t.finalized().unwrap();
    assert_eq!(
        all_eids(&b),
        vec![vec![1, 2, 3, 4], vec![5, 6, 7, 8], vec![9, 10, 11, 12]]
    );
}

#[test]
fn slices_concatenate_to_the_input() {
    let policy = StandardFlushStrategy::new(vec![
        family(100, vec![1, 2], 3, 2),
        family(200, vec![5], 2, 100),
    ]);
    let mut t = HostTransaction::new(6, policy);
    let mut input = Vec::new();
    let ops = [0, 1, 2, 2, 0, 5, 5, 0, 1, 2, 2, 0, 0, 5, 0, 5, 1, 1, 2, 0, 0];
    for (i, op) in ops.iter().enumerate() {
        let eid = i as u32 + 1;
        input.push(if *op == 0 { plain(eid) } else { host(eid, *op) });
    }
    for e in &input {
        t.insert(*e).unwrap();
    }
    let b = t.finalized().unwrap();
    let flat: Vec<u32> = all_eids(&b).into_iter().flatten().collect();
    let expected: Vec<u32> = input.iter().map(|e| e.eid).collect();
    assert_eq!(flat, expected);
}

#[test]
fn a_group_crossing_capacity_stays_in_one_slice() {
    let policy = StandardFlushStrategy::new(vec![family(9, vec![3], 3, 100)]);
    let mut t = HostTransaction::new(4, policy);
    let input = vec![plain(1), plain(2), host(3, 3), host(4, 3), host(5, 3), plain(6)];
    for e in &input {
        t.insert(*e).unwrap();
    }
    let b = t.finalized().unwrap();
    let slices = all_eids(&b);
    assert_eq!(slices, vec![vec![1, 2], vec![3, 4, 5, 6]]);
}

#[test]
fn group_larger_than_capacity_is_not_split() {
    let policy = StandardFlushStrategy::new(vec![family(9, vec![3], 5, 100)]);
    let mut t = HostTransaction::new(2, policy);
    for eid in 1..=5 {
        t.insert(host(eid, 3)).unwrap();
    }
    t.insert(plain(6)).unwrap();
    let b = t.finalized().unwrap();
    assert_eq!(all_eids(&b), vec![vec![1, 2, 3, 4, 5], vec![6]]);
}

#[test]
fn finalize_on_an_empty_engine_gives_no_slices() {
    let t = HostTransaction::new(3, Script::new(vec![]));
    let b = t.finalized().unwrap();
    assert_eq!(b.slice_count(), 0);
}

#[test]
fn finalize_after_an_exact_seal_adds_nothing() {
    let mut t = HostTransaction::new(2, Script::new(vec![]));
    t.insert(plain(1)).unwrap();
    t.insert(plain(2)).unwrap();
    t.insert(plain(3)).unwrap();
    assert_eq!(t.slices().len(), 1);
    let b = t.finalized().unwrap();
    assert_eq!(all_eids(&b), vec![vec![1, 2], vec![3]]);
}

#[test]
fn commit_of_an_unopened_id_is_fatal() {
    let mut t = HostTransaction::new(4, Script::new(vec![Command::Commit(3, false)]));
    assert_eq!(t.insert(host(1, 1)), Err(TransactionError::UnknownCommit(3)));
}

#[test]
fn reset_answered_otherwise_is_fatal() {
    let mut script = Script::new(vec![]);
    script.reset_answer = Command::Start(4);
    let mut t = HostTransaction::new(1, script);
    t.insert(plain(1)).unwrap();
    assert_eq!(
        t.insert(plain(2)),
        Err(TransactionError::ResetRefused(Command::Start(4)))
    );
}

#[test]
fn refusing_twice_is_fatal() {
    let mut t = HostTransaction::new(4, Script::new(vec![Command::Abort, Command::Abort]));
    assert_eq!(t.insert(host(1, 1)), Err(TransactionError::RepeatedAbort));
}

#[test]
fn a_refused_step_seals_then_is_retried() {
    let script = Script::new(vec![Command::Abort, Command::Noop, Command::Noop]);
    let mut t = HostTransaction::new(8, script);
    t.insert(plain(1)).unwrap();
    t.insert(host(2, 1)).unwrap();
    assert_eq!(t.slices().len(), 1);
    assert_eq!(eids(&t.slices()[0]), vec![1]);
    assert_eq!(t.len(), 1);
    assert!(!t.is_host_full());
    t.insert(host(3, 1)).unwrap();
    assert_eq!(t.slices().len(), 1);
    assert_eq!(t.len(), 2);
}

#[test]
fn a_refusal_with_nothing_to_seal_is_asked_again_and_marks_the_buffer_full() {
    let script = Script::new(vec![Command::Abort, Command::Noop, Command::Noop]);
    let mut t = HostTransaction::new(8, script);
    t.insert(host(1, 1)).unwrap();
    assert!(t.is_host_full());
    assert_eq!(t.len(), 1);
    t.insert(host(2, 1)).unwrap();
    assert!(!t.is_host_full());
    assert_eq!(t.slices().len(), 1);
    assert_eq!(eids(&t.slices()[0]), vec![1]);
}

#[test]
fn apply_books_each_answer() {
    let mut t = HostTransaction::new(8, Script::new(vec![]));
    t.apply(host(1, 1), Command::Start(4)).unwrap();
    assert_eq!(t.open_checkpoint(4), Some(0));
    assert_eq!(t.safely_abort_position(), Some(0));
    assert_eq!(t.apply(host(2, 1), Command::Start(4)), Err(TransactionError::DuplicateStart(4)));
    t.apply(plain(3), Command::Noop).unwrap();
    t.apply(host(4, 1), Command::CommitAndAbort(4, true)).unwrap();
    assert_eq!(t.open_checkpoint(4), None);
    assert_eq!(t.lazy_checkpoint(4), Some(3));
    assert!(t.is_host_full());
    assert_eq!(t.apply(host(5, 1), Command::Commit(9, false)), Err(TransactionError::UnknownCommit(9)));
    assert_eq!(t.apply(host(6, 1), Command::Abort), Err(TransactionError::RepeatedAbort));
}

#[test]
fn commit_and_abort_seals_before_the_next_host_call() {
    let policy = StandardFlushStrategy::new(vec![family(7, vec![1], 2, 1)]);
    let mut t = HostTransaction::new(100, policy);
    t.insert(host(1, 1)).unwrap();
    t.insert(host(2, 1)).unwrap();
    assert!(t.is_host_full());
    t.insert(plain(3)).unwrap();
    assert_eq!(t.slices().len(), 0);
    t.insert(host(4, 1)).unwrap();
    assert_eq!(t.slices().len(), 1);
    assert_eq!(eids(&t.slices()[0]), vec![1, 2, 3]);
    assert_eq!(t.open_checkpoint(7), Some(0));
}

#[test]
fn open_group_at_the_end_is_unfinished() {
    let t = {
        let mut t = HostTransaction::new(4, Script::new(vec![Command::Start(1)]));
        t.insert(host(1, 1)).unwrap();
        t
    };
    assert_eq!(t.finalized().err(), Some(TransactionError::Unfinished));
}

#[test]
fn replayed_suffix_rebuilds_the_same_bookkeeping() {
    let policy = StandardFlushStrategy::new(vec![family(9, vec![3], 3, 100)]);
    let mut sealed = HostTransaction::new(3, policy);
    for e in [plain(1), plain(2), host(3, 3), host(4, 3)] {
        sealed.insert(e).unwrap();
    }
    let fresh_policy = StandardFlushStrategy::new(vec![family(9, vec![3], 3, 100)]);
    let mut fresh = HostTransaction::new(3, fresh_policy);
    for e in [host(3, 3), host(4, 3)] {
        fresh.insert(e).unwrap();
    }
    assert_eq!(sealed.slices().len(), 1);
    assert_eq!(eids(&sealed.slices()[0]), vec![1, 2]);
    assert_eq!(sealed.len(), 2);
    assert_eq!(sealed.len(), fresh.len());
    assert_eq!(sealed.safely_abort_position(), Some(0));
    assert_eq!(sealed.safely_abort_position(), fresh.safely_abort_position());
    assert_eq!(sealed.open_checkpoint(9), Some(0));
    assert_eq!(sealed.open_checkpoint(9), fresh.open_checkpoint(9));
    assert_eq!(sealed.is_host_full(), fresh.is_host_full());
    sealed.insert(host(5, 3)).unwrap();
    fresh.insert(host(5, 3)).unwrap();
    assert_eq!(sealed.len(), fresh.len());
    assert_eq!(sealed.safely_abort_position(), fresh.safely_abort_position());
    assert_eq!(sealed.open_checkpoint(9), fresh.open_checkpoint(9));
    assert_eq!(sealed.is_in_transaction(), fresh.is_in_transaction());
}

#[test]
fn capacity_one_gives_one_step_per_slice() {
    let mut t = HostTransaction::new(1, Script::new(vec![]));
    for eid in 1..=3 {
        t.insert(plain(eid)).unwrap();
    }
    let b = t.finalized().unwrap();
    assert_eq!(all_eids(&b), vec![vec![1], vec![2], vec![3]]);
}

#[test]
fn seal_on_an_empty_buffer_changes_nothing() {
    let mut t = HostTransaction::new(3, Script::new(vec![]));
    t.seal().unwrap();
    assert_eq!(t.slices().len(), 0);
    t.insert(plain(1)).unwrap();
    t.seal().unwrap();
    assert_eq!(t.slices().len(), 1);
    t.seal().unwrap();
    assert_eq!(t.slices().len(), 1);
    assert_eq!(t.len(), 0);
}

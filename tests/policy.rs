use zkwasm_trace::flush_strategy::Command;
use zkwasm_trace::flush_strategy::Event;
use zkwasm_trace::flush_strategy::FlushStrategy;
use zkwasm_trace::flush_strategy::OperationFamily;
use zkwasm_trace::flush_strategy::StandardFlushStrategy;
use zkwasm_trace::flush_strategy::get_group_size;
use zkwasm_trace::flush_strategy::GroupedOp;

fn merkle_like() -> StandardFlushStrategy {
    StandardFlushStrategy::new(vec![
        OperationFamily { id: 3, ops: vec![10, 11, 12], group_size: 3, max_rounds: 2 },
        OperationFamily { id: 5, ops: vec![20], group_size: 2, max_rounds: 10 },
    ])
}

#[test]
fn groups_start_commit_and_reach_the_round_bound() {
    let mut p = merkle_like();
    let got: Vec<Command> = [10, 11, 12, 10, 11, 12]
        .iter()
        .map(|op| p.notify(Event::HostCall(*op)))
        .collect();
    assert_eq!(
        got,
        vec![
            Command::Start(3),
            Command::Noop,
            Command::Commit(3, false),
            Command::Start(3),
            Command::Noop,
            Command::CommitAndAbort(3, false),
        ]
    );
}

#[test]
fn unknown_operations_are_plain() {
    let mut p = merkle_like();
    assert_eq!(p.observe(Event::HostCall(99)), Command::Noop);
    assert_eq!(p.observe(Event::HostCall(20)), Command::Start(5));
    assert_eq!(p.observe(Event::HostCall(99)), Command::Noop);
    assert_eq!(p.observe(Event::HostCall(20)), Command::Commit(5, false));
}

#[test]
fn families_count_separately() {
    let mut p = merkle_like();
    assert_eq!(p.observe(Event::HostCall(10)), Command::Start(3));
    assert_eq!(p.observe(Event::HostCall(20)), Command::Start(5));
    assert_eq!(p.observe(Event::HostCall(11)), Command::Noop);
    assert_eq!(p.observe(Event::HostCall(20)), Command::Commit(5, false));
    assert_eq!(p.observe(Event::HostCall(12)), Command::Commit(3, false));
}

#[test]
fn reset_clears_every_counter() {
    let mut p = merkle_like();
    for op in [10, 11, 12, 10] {
        p.observe(Event::HostCall(op));
    }
    assert_eq!(p.observe(Event::Reset), Command::Noop);
    assert_eq!(p.observe(Event::HostCall(11)), Command::Start(3));
    assert_eq!(p.observe(Event::HostCall(11)), Command::Noop);
    assert_eq!(p.observe(Event::HostCall(11)), Command::Commit(3, false));
}

#[test]
fn round_bound_of_one_aborts_after_each_group() {
    let mut p = StandardFlushStrategy::new(vec![OperationFamily {
        id: 1,
        ops: vec![4],
        group_size: 2,
        max_rounds: 1,
    }]);
    assert_eq!(p.observe(Event::HostCall(4)), Command::Start(1));
    assert_eq!(p.observe(Event::HostCall(4)), Command::CommitAndAbort(1, false));
    assert_eq!(p.observe(Event::HostCall(4)), Command::Start(1));
    assert_eq!(p.observe(Event::HostCall(4)), Command::CommitAndAbort(1, false));
}

#[test]
fn group_sizes_of_the_families() {
    assert_eq!(get_group_size(GroupedOp::Merkle), 13);
    assert_eq!(get_group_size(GroupedOp::JubjubSum), 21);
    assert_eq!(get_group_size(GroupedOp::PoseidonHash), 37);
}

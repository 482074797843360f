use vstd::prelude::*;

verus! {

/// Identifies one atomic host-call group; the reference policy uses the id of the
/// operation family.
pub type TransactionId = usize;

/// What a flush policy is told about.
#[derive(Clone, Copy, Debug, PartialEq, Eq, Structural)]
pub enum Event {
    /// A host-call step with this operation code.
    HostCall(usize),
    /// The buffer was just sealed: every counter returns to its start.
    Reset,
}

/// What a flush policy answers about one step.
#[derive(Clone, Copy, Debug, PartialEq, Eq, Structural)]
pub enum Command {
    /// Admit the step with no change of bookkeeping.
    Noop,
    /// The step opens the group with this id.
    Start(TransactionId),
    /// The step closes the group; when the flag is set the closure is provisional.
    Commit(TransactionId, bool),
    /// The step cannot be admitted to the current buffer as things stand.
    Abort,
    /// As `Commit`, and the next host call must seal the buffer first.
    CommitAndAbort(TransactionId, bool),
}

/// Decides, for each host-call step, how the buffering engine treats it. A reset
/// must be answered with `Noop`.
pub trait FlushStrategy {
    fn notify(&mut self, event: Event) -> (r: Command)
        ensures
            event == Event::Reset ==> r == Command::Noop,
    ;
}

/// One family of host operations whose steps come in groups of a fixed size.
#[derive(Debug)]
pub struct OperationFamily {
    /// The transaction id under which this family's groups run.
    pub id: TransactionId,
    /// The operation codes of this family's steps.
    pub ops: Vec<usize>,
    /// The number of steps in one group.
    pub group_size: usize,
    /// The number of groups that one slice admits at the active circuit size.
    pub max_rounds: usize,
}

/// The host-operation families whose steps must stay together.
#[derive(Clone, Copy, Debug, PartialEq, Eq, Structural)]
pub enum GroupedOp {
    /// Address, set root, get or set, get root.
    Merkle,
    /// New, scalar, point, result point.
    JubjubSum,
    /// New, pushes, result.
    PoseidonHash,
}

/// The number of host-call steps in one group of a family.
pub fn get_group_size(optype: GroupedOp) -> (r: usize)
    ensures
        r == match optype {
            GroupedOp::Merkle => 13usize,
            GroupedOp::JubjubSum => 21usize,
            GroupedOp::PoseidonHash => 37usize,
        },
{
    match optype {
        GroupedOp::Merkle => 1 + 4 + 4 + 4,
        GroupedOp::JubjubSum => 1 + 4 + 8 + 8,
        GroupedOp::PoseidonHash => 1 + 4 * 8 + 4,
    }
}

/// The index of the first family that owns operation code `op`.
pub open spec fn find_family(families: Seq<OperationFamily>, op: usize) -> Option<int>
    decreases families.len(),
{
    if families.len() == 0 {
        None
    } else {
        match find_family(families.drop_last(), op) {
            Some(i) => Some(i),
            None => if families.last().ops@.contains(op) {
                Some(families.len() - 1)
            } else {
                None
            },
        }
    }
}

proof fn lemma_find_family_in_range(families: Seq<OperationFamily>, op: usize)
    ensures
        match find_family(families, op) {
            Some(i) => 0 <= i < families.len() && families[i].ops@.contains(op),
            None => forall|i: int| 0 <= i < families.len() ==> !(#[trigger] families[i]).ops@.contains(op),
        },
    decreases families.len(),
{
    if families.len() > 0 {
        lemma_find_family_in_range(families.drop_last(), op);
        assert forall|i: int| 0 <= i < families.len() - 1 implies families.drop_last()[i] == families[i] by {}
    }
}

proof fn lemma_find_family_prefix(families: Seq<OperationFamily>, n: int, op: usize)
    requires
        0 <= n <= families.len(),
        find_family(families.subrange(0, n), op) is Some,
    ensures
        find_family(families, op) == find_family(families.subrange(0, n), op),
    decreases families.len(),
{
    if n < families.len() {
        assert(families.drop_last().subrange(0, n) =~= families.subrange(0, n));
        lemma_find_family_prefix(families.drop_last(), n, op);
    } else {
        assert(families.subrange(0, n) =~= families);
    }
}

/// The counters of a family after one more of its steps, and the answer for that step:
/// the first step of a group starts it, the step that completes `group_size` closes it,
/// and closing the family's `max_rounds`-th group since the last reset also asks for a
/// seal.
pub open spec fn step_family(fam: OperationFamily, count: usize, total: usize) -> (
    (usize, usize),
    Command,
) {
    if count == 0 {
        ((1, total), Command::Start(fam.id))
    } else if count >= fam.group_size || count + 1 == fam.group_size {
        let t = if total == usize::MAX { total } else { (total + 1) as usize };
        if t >= fam.max_rounds {
            ((0, t), Command::CommitAndAbort(fam.id, false))
        } else {
            ((0, t), Command::Commit(fam.id, false))
        }
    } else {
        (((count + 1) as usize, total), Command::Noop)
    }
}

/// The reference policy: it counts the steps of each family's current group and the
/// groups it completed since the last reset.
pub struct StandardFlushStrategy {
    families: Vec<OperationFamily>,
    counters: Vec<(usize, usize)>,
}

impl StandardFlushStrategy {
    /// One pair of counters for each family.
    pub closed spec fn wf(&self) -> bool {
        self.counters@.len() == self.families@.len()
    }

    /// The families, in the order they were given.
    pub closed spec fn families(&self) -> Seq<OperationFamily> {
        self.families@
    }

    /// Per family: the steps seen of its current group, and its groups completed.
    pub closed spec fn counters(&self) -> Seq<(usize, usize)> {
        self.counters@
    }

    pub fn new(families: Vec<OperationFamily>) -> (r: Self)
        ensures
            r.wf(),
            r.families() == families@,
            r.counters() == Seq::new(families@.len(), |i: int| (0usize, 0usize)),
    {
        let mut counters: Vec<(usize, usize)> = Vec::new();
        let mut i: usize = 0;
        while i < families.len()
            invariant
                i <= families@.len(),
                counters@ == Seq::new(i as nat, |j: int| (0usize, 0usize)),
            decreases families@.len() - i,
        {
            counters.push((0, 0));
            i = i + 1;
            proof {
                assert(counters@ =~= Seq::new(i as nat, |j: int| (0usize, 0usize)));
            }
        }
        Self { families, counters }
    }

    /// Finds the family that owns operation code `op`.
    fn family_of(&self, op: usize) -> (r: Option<usize>)
        ensures
            match r {
                Some(i) => find_family(self.families(), op) == Some(i as int),
                None => find_family(self.families(), op) == None::<int>,
            },
    {
        let mut i: usize = 0;
        while i < self.families.len()
            invariant
                i <= self.families@.len(),
                find_family(self.families@.subrange(0, i as int), op) == None::<int>,
            decreases self.families@.len() - i,
        {
            let ops = &self.families[i].ops;
            let mut j: usize = 0;
            let mut found = false;
            while j < ops.len()
                invariant
                    j <= ops@.len(),
                    found == (exists|k: int| 0 <= k < j && ops@[k] == op),
                decreases ops@.len() - j,
            {
                if ops[j] == op {
                    found = true;
                }
                j = j + 1;
            }
            proof {
                assert(self.families@.subrange(0, i + 1).drop_last() =~= self.families@.subrange(0, i as int));
                assert(self.families@.subrange(0, i + 1).last() == self.families@[i as int]);
            }
            if found {
                proof {
                    lemma_find_family_prefix(self.families@, i + 1, op);
                }
                return Some(i);
            }
            i = i + 1;
        }
        proof {
            assert(self.families@.subrange(0, i as int) =~= self.families@);
        }
        None
    }

    /// Answers one event and updates the counters, as `notify` does.
    pub fn observe(&mut self, event: Event) -> (r: Command)
        ensures
            final(self).families() == old(self).families(),
            final(self).wf() == old(self).wf(),
            event == Event::Reset ==> r == Command::Noop,
            old(self).wf() ==> match event {
                Event::Reset => {
                    &&& r == Command::Noop
                    &&& final(self).counters() == Seq::new(
                        old(self).families().len(),
                        |i: int| (0usize, 0usize),
                    )
                },
                Event::HostCall(op) => match find_family(old(self).families(), op) {
                    None => r == Command::Noop && final(self).counters() == old(self).counters(),
                    Some(f) => {
                        let (c, t) = old(self).counters()[f];
                        let (next, cmd) = step_family(old(self).families()[f], c, t);
                        &&& r == cmd
                        &&& final(self).counters() == old(self).counters().update(f, next)
                    },
                },
            },
    {
        match event {
            Event::Reset => {
                let mut i: usize = 0;
                let n = self.counters.len();
                while i < n
                    invariant
                        n == self.counters@.len(),
                        i <= n,
                        self.families@ == old(self).families@,
                        forall|j: int| 0 <= j < i ==> self.counters@[j] == (0usize, 0usize),
                    decreases n - i,
                {
                    self.counters.set(i, (0, 0));
                    i = i + 1;
                }
                proof {
                    assert(self.counters@ =~= Seq::new(n as nat, |i: int| (0usize, 0usize)));
                }
                Command::Noop
            },
            Event::HostCall(op) => {
                match self.family_of(op) {
                    None => Command::Noop,
                    Some(f) => {
                        proof {
                            lemma_find_family_in_range(self.families@, op);
                        }
                        if f >= self.counters.len() {
                            return Command::Noop;
                        }
                        let (count, total) = self.counters[f];
                        let group_size = self.families[f].group_size;
                        let id = self.families[f].id;
                        if count == 0 {
                            self.counters.set(f, (1, total));
                            Command::Start(id)
                        } else if count >= group_size || count + 1 == group_size {
                            let t = if total == usize::MAX { total } else { total + 1 };
                            self.counters.set(f, (0, t));
                            if t >= self.families[f].max_rounds {
                                Command::CommitAndAbort(id, false)
                            } else {
                                Command::Commit(id, false)
                            }
                        } else {
                            self.counters.set(f, (count + 1, total));
                            Command::Noop
                        }
                    },
                }
            },
        }
    }
}

impl FlushStrategy for StandardFlushStrategy {
    fn notify(&mut self, event: Event) -> (r: Command) {
        self.observe(event)
    }
}

} // verus!

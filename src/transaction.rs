use vstd::prelude::*;
use crate::etable::EventTableEntry;
use crate::flush_strategy::Command;
use crate::flush_strategy::Event;
use crate::flush_strategy::FlushStrategy;
use crate::flush_strategy::TransactionId;
use crate::slice::InMemoryBackend;
use crate::slice::Slice;
use crate::slice::SliceBuilder;

verus! {

/// A broken contract between the engine and its flush policy. Each one stops the run.
#[derive(Clone, Copy, Debug, PartialEq, Eq, Structural)]
pub enum TransactionError {
    /// The policy started a group whose id is already open.
    DuplicateStart(TransactionId),
    /// The policy closed a group that is not open.
    UnknownCommit(TransactionId),
    /// The policy answered a reset with something other than `Noop`, which its
    /// contract rules out.
    ResetRefused(Command),
    /// The policy refused the same step twice in a row.
    RepeatedAbort,
    /// The run ended while a group could not yet be sealed.
    Unfinished,
}

/// An open group: its id and the buffer offset of its first step.
#[derive(Clone, Copy, Debug, PartialEq, Eq, Structural)]
pub struct Checkpoint {
    pub id: TransactionId,
    pub start: usize,
}

/// A provisionally closed group: its id and the offset up to which the region after
/// it is known to be free of other groups.
#[derive(Clone, Copy, Debug, PartialEq, Eq, Structural)]
pub struct LazyCommitted {
    pub transaction_id: TransactionId,
    pub checkpoint: usize,
}

/// The highest buffer offset known to be safe to cut at. It never moves backward
/// between resets.
pub struct SafelyAbortPosition {
    capacity: u32,
    cursor: Option<usize>,
}

impl SafelyAbortPosition {
    pub closed spec fn cursor(&self) -> Option<usize> {
        self.cursor
    }

    pub closed spec fn capacity(&self) -> u32 {
        self.capacity
    }

    pub fn new(capacity: u32) -> (r: Self)
        ensures
            r.cursor() == None::<usize>,
            r.capacity() == capacity,
    {
        Self { capacity, cursor: None }
    }

    /// Moves the cursor forward to `len`.
    pub fn update(&mut self, len: usize)
        requires
            old(self).cursor() matches Some(c) ==> c <= len,
        ensures
            final(self).cursor() == Some(len),
            final(self).capacity() == old(self).capacity(),
    {
        self.cursor = Some(len);
    }

    pub fn reset(&mut self)
        ensures
            final(self).cursor() == None::<usize>,
            final(self).capacity() == old(self).capacity(),
    {
        self.cursor = None;
    }

    /// The offset to cut at: the cursor, or the capacity where nothing set it.
    pub fn finalize(&self) -> (r: usize)
        ensures
            r == match self.cursor() {
                Some(c) => c,
                None => self.capacity() as usize,
            },
    {
        match self.cursor {
            Some(c) => c,
            None => self.capacity as usize,
        }
    }

    pub fn position(&self) -> (r: Option<usize>)
        ensures
            r == self.cursor(),
    {
        self.cursor
    }
}

/// The buffering engine: it takes executed steps one at a time, keeps host-call
/// groups whole, and seals the buffer into slices at offsets known to be safe.
pub struct HostTransaction<S: FlushStrategy> {
    slices: InMemoryBackend,
    capacity: u32,
    safely_abort_position: SafelyAbortPosition,
    lazy_committed: Vec<LazyCommitted>,
    logs: Vec<EventTableEntry>,
    started: Vec<Checkpoint>,
    controller: S,
    host_is_full: bool,
    slice_builder: SliceBuilder,
    overflowed: Ghost<bool>,
    exchanges: Ghost<Seq<(Event, Command)>>,
}

pub proof fn lemma_open_index(open: Seq<Checkpoint>, id: TransactionId)
    ensures
        -1 <= open_index(open, id) < open.len(),
        open_index(open, id) >= 0 ==> open[open_index(open, id)].id == id,
        open_index(open, id) == -1 <==> !has_open(open, id),
    decreases open.len(),
{
    if open.len() > 0 {
        lemma_open_index(open.drop_last(), id);
        if open.last().id != id {
            if has_open(open, id) {
                let i = choose|i: int| 0 <= i < open.len() && (#[trigger] open[i]).id == id;
                assert(open.drop_last()[i] == open[i]);
            }
            if has_open(open.drop_last(), id) {
                let i = choose|i: int|
                    0 <= i < open.drop_last().len() && (#[trigger] open.drop_last()[i]).id == id;
                assert(open[i] == open.drop_last()[i]);
            }
        } else {
            assert(open[open.len() - 1].id == id);
        }
    }
}

pub proof fn lemma_lazy_index(lazy: Seq<LazyCommitted>, id: TransactionId)
    ensures
        -1 <= lazy_index(lazy, id) < lazy.len(),
        lazy_index(lazy, id) >= 0 ==> lazy[lazy_index(lazy, id)].transaction_id == id,
        lazy_index(lazy, id) == -1 <==> forall|j: int|
            0 <= j < lazy.len() ==> (#[trigger] lazy[j]).transaction_id != id,
    decreases lazy.len(),
{
    if lazy.len() > 0 {
        lemma_lazy_index(lazy.drop_last(), id);
        if lazy.last().transaction_id != id {
            assert forall|j: int| 0 <= j < lazy.len() - 1 implies lazy.drop_last()[j] == lazy[j] by {}
        }
    }
}

/// `after` keeps every slice of `before`, in order, and may add more.
pub open spec fn sealed_extends(before: Seq<Seq<EventTableEntry>>, after: Seq<Seq<EventTableEntry>>) -> bool {
    &&& after.len() >= before.len()
    &&& forall|i: int| 0 <= i < before.len() ==> #[trigger] after[i] == before[i]
}

proof fn lemma_sealed_extends_trans(
    a: Seq<Seq<EventTableEntry>>,
    b: Seq<Seq<EventTableEntry>>,
    c: Seq<Seq<EventTableEntry>>,
)
    requires
        sealed_extends(a, b),
        sealed_extends(b, c),
    ensures
        sealed_extends(a, c),
{
    assert forall|i: int| 0 <= i < a.len() implies #[trigger] c[i] == a[i] by {
        assert(c[i] == b[i]);
    }
}

proof fn lemma_prefix_trans(a: Seq<(Event, Command)>, b: Seq<(Event, Command)>, c: Seq<(Event, Command)>)
    requires
        b.len() >= a.len(),
        b.subrange(0, a.len() as int) == a,
        c.len() >= b.len(),
        c.subrange(0, b.len() as int) == b,
    ensures
        c.len() >= a.len(),
        c.subrange(0, a.len() as int) == a,
{
    assert(c.subrange(0, a.len() as int) =~= b.subrange(0, a.len() as int));
}

/// The outcome of a step, without the steps handed back.
pub open spec fn unit_result<T>(r: Result<T, TransactionError>) -> Result<(), TransactionError> {
    match r {
        Ok(_) => Ok(()),
        Err(e) => Err(e),
    }
}

/// Whether the policy refused host call `log` at first while a seal was possible,
/// so that the buffer was sealed before the step was taken in again.
pub open spec fn refused_and_sealed<S: FlushStrategy>(
    old_t: HostTransaction<S>,
    log: EventTableEntry,
    new_t: HostTransaction<S>,
) -> bool {
    &&& log.host_op() is Some
    &&& new_t.exchanges().len() > old_t.exchanges().len()
    &&& new_t.exchanges()[old_t.exchanges().len() as int].1 == Command::Abort
    &&& old_t.can_seal()
}

/// The steps of `rest`, then those of `queue` from `from` on.
fn requeue(rest: Vec<EventTableEntry>, queue: &Vec<EventTableEntry>, from: usize) -> (r: Vec<
    EventTableEntry,
>)
    requires
        from <= queue@.len(),
    ensures
        r@ == rest@ + queue@.subrange(from as int, queue@.len() as int),
{
    let mut r = rest;
    let ghost first = r@;
    let mut j: usize = from;
    while j < queue.len()
        invariant
            from <= j <= queue@.len(),
            r@ == first + queue@.subrange(from as int, j as int),
        decreases queue@.len() - j,
    {
        r.push(queue[j]);
        proof {
            assert(queue@.subrange(from as int, j + 1) =~= queue@.subrange(from as int, j as int).push(
                queue@[j as int],
            ));
        }
        j = j + 1;
    }
    r
}

/// Whether some open group has this id.
pub open spec fn has_open(open: Seq<Checkpoint>, id: TransactionId) -> bool {
    exists|i: int| 0 <= i < open.len() && (#[trigger] open[i]).id == id
}

/// The position of the open group `id`, or -1.
pub open spec fn open_index(open: Seq<Checkpoint>, id: TransactionId) -> int
    decreases open.len(),
{
    if open.len() == 0 {
        -1
    } else if open.last().id == id {
        open.len() - 1
    } else {
        open_index(open.drop_last(), id)
    }
}

/// The position of the provisional closure of `id`, or -1.
pub open spec fn lazy_index(lazy: Seq<LazyCommitted>, id: TransactionId) -> int
    decreases lazy.len(),
{
    if lazy.len() == 0 {
        -1
    } else if lazy.last().transaction_id == id {
        lazy.len() - 1
    } else {
        lazy_index(lazy.drop_last(), id)
    }
}

/// No two records carry the same id.
pub open spec fn distinct_open(open: Seq<Checkpoint>) -> bool {
    forall|i: int, j: int| 0 <= i < j < open.len() ==> open[i].id != open[j].id
}

/// No two records carry the same id.
pub open spec fn distinct_lazy(lazy: Seq<LazyCommitted>) -> bool {
    forall|i: int, j: int|
        0 <= i < j < lazy.len() ==> lazy[i].transaction_id != lazy[j].transaction_id
}

/// Whether `pos` lies at or before the first step of every open group and the
/// checkpoint of every provisional closure.
pub open spec fn precedes(pos: int, open: Seq<Checkpoint>, lazy: Seq<LazyCommitted>) -> bool {
    &&& forall|i: int| 0 <= i < open.len() ==> pos <= (#[trigger] open[i]).start
    &&& forall|i: int| 0 <= i < lazy.len() ==> pos <= (#[trigger] lazy[i]).checkpoint
}

/// The try-update rule at `pos`: inside an open group nothing moves; otherwise every
/// provisional closure's checkpoint moves to `pos`, or, where there is none, the
/// cursor does.
pub open spec fn try_update(
    cursor: Option<usize>,
    open: Seq<Checkpoint>,
    lazy: Seq<LazyCommitted>,
    pos: usize,
) -> (Option<usize>, Seq<LazyCommitted>) {
    if open.len() > 0 {
        (cursor, lazy)
    } else if lazy.len() > 0 {
        (
            cursor,
            lazy.map_values(
                |l: LazyCommitted| LazyCommitted { transaction_id: l.transaction_id, checkpoint: pos },
            ),
        )
    } else {
        (Some(pos), lazy)
    }
}

/// The cursor, open groups and provisional closures after group `id` closes with the
/// buffer at length `now`: the group leaves; a provisional closure of `id` is retired,
/// the cursor moving to its checkpoint where that precedes every remaining group; a
/// provisional closure at `now` is added when `is_lazy`; then the try-update rule runs
/// at `now`.
pub open spec fn after_commit(
    cursor: Option<usize>,
    open: Seq<Checkpoint>,
    lazy: Seq<LazyCommitted>,
    id: TransactionId,
    is_lazy: bool,
    now: usize,
) -> (Option<usize>, Seq<Checkpoint>, Seq<LazyCommitted>) {
    let open1 = open.remove(open_index(open, id));
    let k = lazy_index(lazy, id);
    let lazy1 = if k >= 0 {
        lazy.remove(k)
    } else {
        lazy
    };
    let cursor1 = if k >= 0 && precedes(lazy[k].checkpoint as int, open1, lazy1) {
        Some(lazy[k].checkpoint)
    } else {
        cursor
    };
    let lazy2 = if is_lazy {
        lazy1.push(LazyCommitted { transaction_id: id, checkpoint: now })
    } else {
        lazy1
    };
    let (cursor3, lazy3) = try_update(cursor1, open1, lazy2, now);
    (cursor3, open1, lazy3)
}

/// The bookkeeping of an engine: cursor, open groups, provisional closures, and
/// whether the next host call must seal first.
pub type Book = (Option<usize>, Seq<Checkpoint>, Seq<LazyCommitted>, bool);

/// The bookkeeping of an engine that has taken in nothing.
pub open spec fn fresh_book() -> Book {
    (None, Seq::empty(), Seq::empty(), false)
}

/// Whether a step answered with `cmd` can be booked: a group may start only when not
/// open, and close only when open; a refusal is never booked.
pub open spec fn bookable(b: Book, cmd: Command) -> bool {
    match cmd {
        Command::Noop => true,
        Command::Start(id) => !has_open(b.1, id),
        Command::Commit(id, _) => has_open(b.1, id),
        Command::CommitAndAbort(id, _) => has_open(b.1, id),
        Command::Abort => false,
    }
}

/// The error for a step whose answer cannot be booked.
pub open spec fn refusal_error(cmd: Command) -> TransactionError {
    match cmd {
        Command::Start(id) => TransactionError::DuplicateStart(id),
        Command::Commit(id, _) => TransactionError::UnknownCommit(id),
        Command::CommitAndAbort(id, _) => TransactionError::UnknownCommit(id),
        _ => TransactionError::RepeatedAbort,
    }
}

/// The bookkeeping after a step answered with `cmd` is appended to a buffer of `len`
/// steps.
pub open spec fn booked(b: Book, len: usize, cmd: Command) -> Book {
    match cmd {
        Command::Start(id) => {
            let (c, l) = try_update(b.0, b.1, b.2, len);
            (c, b.1.push(Checkpoint { id, start: len }), l, b.3)
        },
        Command::Commit(id, lz) => {
            let (c, o, l) = after_commit(b.0, b.1, b.2, id, lz, (len + 1) as usize);
            (c, o, l, b.3)
        },
        Command::CommitAndAbort(id, lz) => {
            let (c, o, l) = after_commit(b.0, b.1, b.2, id, lz, (len + 1) as usize);
            (c, o, l, true)
        },
        _ => b,
    }
}

/// The outcome of booking a step answered with `cmd`: the error where it cannot be
/// booked, else success with the bookkeeping `booked` gives (and the full flag set
/// when the step had been refused once).
pub open spec fn booking_outcome(
    b: Book,
    len: usize,
    cmd: Command,
    refused: bool,
    after: Book,
    r: Result<(), TransactionError>,
) -> bool {
    if bookable(b, cmd) {
        let nb = booked(b, len, cmd);
        &&& r is Ok
        &&& after == (if refused {
            (nb.0, nb.1, nb.2, true)
        } else {
            nb
        })
    } else {
        r == Err::<(), TransactionError>(refusal_error(cmd))
    }
}

/// How one step is taken in when no seal comes first, given the bookkeeping `b`, the
/// buffer length `len` and the exchanges with the policy `ex0` before it: a plain step
/// is appended as it is; for a host call the policy is asked, and its answer booked. A
/// first refusal is followed by one more question where `can_seal` does not hold (the
/// buffer cannot be sealed); a second refusal is an error.
pub open spec fn takes_step(
    b: Book,
    len: usize,
    ex0: Seq<(Event, Command)>,
    log: EventTableEntry,
    can_seal: bool,
    after: Book,
    ex1: Seq<(Event, Command)>,
    r: Result<(), TransactionError>,
) -> bool {
    match log.host_op() {
        None => r is Ok && after == b && ex1 == ex0,
        Some(op) => {
            let n = ex0.len() as int;
            &&& ex1.len() > n
            &&& ex1.subrange(0, n) == ex0
            &&& ex1[n].0 == Event::HostCall(op)
            &&& ex1[n].1 != Command::Abort ==> ex1.len() == n + 1 && booking_outcome(
                b,
                len,
                ex1[n].1,
                false,
                after,
                r,
            )
            &&& ex1[n].1 == Command::Abort && !can_seal ==> {
                &&& ex1.len() == n + 2
                &&& ex1[n + 1].0 == Event::HostCall(op)
                &&& ex1[n + 1].1 == Command::Abort ==> r == Err::<(), TransactionError>(
                    TransactionError::RepeatedAbort,
                )
                &&& ex1[n + 1].1 != Command::Abort ==> booking_outcome(
                    b,
                    len,
                    ex1[n + 1].1,
                    true,
                    after,
                    r,
                )
            }
        },
    }
}

impl<S: FlushStrategy> HostTransaction<S> {
    /// The steps taken in and not yet sealed, in order.
    pub closed spec fn buffer(&self) -> Seq<EventTableEntry> {
        self.logs@
    }

    /// The steps of each sealed slice, in order.
    pub closed spec fn sealed(&self) -> Seq<Seq<EventTableEntry>> {
        self.slices.tables()
    }

    pub closed spec fn cursor(&self) -> Option<usize> {
        self.safely_abort_position.cursor()
    }

    pub closed spec fn open_groups(&self) -> Seq<Checkpoint> {
        self.started@
    }

    pub closed spec fn lazy_groups(&self) -> Seq<LazyCommitted> {
        self.lazy_committed@
    }

    /// Whether the next host call must seal the buffer first.
    pub closed spec fn is_full(&self) -> bool {
        self.host_is_full
    }

    pub closed spec fn cap(&self) -> u32 {
        self.capacity
    }

    /// Whether, since the last seal, the buffer reached capacity at a moment when no
    /// offset was safe to cut at (its first step belonged to a group), so that it had to
    /// grow past capacity.
    pub closed spec fn grew_past_capacity(&self) -> bool {
        self.overflowed@
    }

    /// Every event the policy was told, with its answer, in order.
    pub closed spec fn exchanges(&self) -> Seq<(Event, Command)> {
        self.exchanges@
    }

    pub open spec fn book(&self) -> Book {
        (self.cursor(), self.open_groups(), self.lazy_groups(), self.is_full())
    }

    /// Whether taking in `log` starts with a seal: the buffer is full, or `log` is a
    /// host call and an earlier group asked for a seal.
    pub open spec fn seals_before(&self, log: EventTableEntry) -> bool {
        self.buffer().len() >= self.cap() || (log.host_op() is Some && self.is_full())
    }

    /// Whether a seal now would cut anything.
    pub open spec fn can_seal(&self) -> bool {
        self.buffer().len() > 0 && self.safe_cut() > 0
    }

    /// The stored slices are well formed and the cursor belongs to this buffer.
    pub closed spec fn parts_wf(&self) -> bool {
        &&& self.slices.wf()
        &&& self.safely_abort_position.capacity() == self.capacity
    }

    /// Every step taken in so far: the sealed slices, then the buffer.
    pub open spec fn seen(&self) -> Seq<EventTableEntry> {
        self.sealed().flatten() + self.buffer()
    }

    /// The bookkeeping invariant: the cursor lies within the buffer and at or before
    /// the first step of every open group and the checkpoint of every provisional
    /// closure, and it is set whenever a group is open or provisionally closed.
    pub open spec fn wf(&self) -> bool {
        &&& self.parts_wf()
        &&& self.cap() > 0
        &&& self.buffer().len() > self.cap() ==> self.grew_past_capacity()
        &&& distinct_open(self.open_groups())
        &&& distinct_lazy(self.lazy_groups())
        &&& (self.open_groups().len() > 0 || self.lazy_groups().len() > 0) ==> self.cursor() is Some
        &&& self.cursor() matches Some(c) ==> c <= self.buffer().len()
        &&& forall|i: int|
            #![trigger self.open_groups()[i]]
            0 <= i < self.open_groups().len() ==> {
                &&& self.open_groups()[i].start <= self.buffer().len()
                &&& self.cursor().unwrap() <= self.open_groups()[i].start
            }
        &&& forall|i: int|
            #![trigger self.lazy_groups()[i]]
            0 <= i < self.lazy_groups().len() ==> {
                &&& self.lazy_groups()[i].checkpoint <= self.buffer().len()
                &&& self.cursor().unwrap() <= self.lazy_groups()[i].checkpoint
            }
    }

    /// The state of an engine that has taken in nothing since it was made or sealed.
    pub open spec fn is_fresh(&self) -> bool {
        &&& self.buffer().len() == 0
        &&& self.cursor() is None
        &&& self.open_groups().len() == 0
        &&& self.lazy_groups().len() == 0
        &&& !self.is_full()
        &&& !self.grew_past_capacity()
    }

    /// The offset a seal cuts at: the whole buffer when no group is open or
    /// provisionally closed, the cursor otherwise.
    pub open spec fn safe_cut(&self) -> int {
        if self.open_groups().len() == 0 && self.lazy_groups().len() == 0 {
            self.buffer().len() as int
        } else {
            match self.cursor() {
                Some(c) => c as int,
                None => self.cap() as int,
            }
        }
    }

    pub fn new(capacity: u32, controller: S) -> (r: Self)
        requires
            capacity > 0,
        ensures
            r.wf(),
            r.is_fresh(),
            r.cap() == capacity,
            r.sealed() == Seq::<Seq<EventTableEntry>>::empty(),
            r.seen() == Seq::<EventTableEntry>::empty(),
            r.exchanges() == Seq::<(Event, Command)>::empty(),
    {
        proof {
            assert(Seq::<Seq<EventTableEntry>>::empty().flatten() =~= Seq::<EventTableEntry>::empty());
        }
        Self {
            slices: InMemoryBackend::new(),
            slice_builder: SliceBuilder::new(),
            capacity,
            safely_abort_position: SafelyAbortPosition::new(capacity),
            lazy_committed: Vec::new(),
            logs: Vec::new(),
            started: Vec::new(),
            controller,
            host_is_full: false,
            overflowed: Ghost(false),
            exchanges: Ghost(Seq::empty()),
        }
    }

    fn now(&self) -> (r: usize)
        ensures
            r == self.buffer().len(),
    {
        self.logs.len()
    }

    /// The number of steps in the buffer.
    pub fn len(&self) -> (r: usize)
        ensures
            r == self.buffer().len(),
    {
        self.logs.len()
    }

    pub fn is_in_transaction(&self) -> (r: bool)
        ensures
            r == (self.open_groups().len() > 0),
    {
        self.started.len() != 0
    }

    pub fn is_in_lazy_transaction(&self) -> (r: bool)
        ensures
            r == (self.lazy_groups().len() > 0),
    {
        self.lazy_committed.len() != 0
    }

    pub fn is_host_full(&self) -> (r: bool)
        ensures
            r == self.is_full(),
    {
        self.host_is_full
    }

    /// The safe offset, if one is set.
    pub fn safely_abort_position(&self) -> (r: Option<usize>)
        ensures
            r == self.cursor(),
    {
        self.safely_abort_position.position()
    }

    /// The first step of the open group `id`, if it is open.
    pub fn open_checkpoint(&self, id: TransactionId) -> (r: Option<usize>)
        ensures
            match r {
                Some(s) => exists|i: int|
                    0 <= i < self.open_groups().len() && #[trigger] self.open_groups()[i]
                        == (Checkpoint { id, start: s }),
                None => !has_open(self.open_groups(), id),
            },
    {
        match self.find_started(id) {
            Some(i) => Some(self.started[i].start),
            None => None,
        }
    }

    /// The checkpoint of the provisional closure of `id`, if there is one.
    pub fn lazy_checkpoint(&self, id: TransactionId) -> (r: Option<usize>)
        ensures
            match r {
                Some(c) => exists|i: int|
                    0 <= i < self.lazy_groups().len() && #[trigger] self.lazy_groups()[i]
                        == (LazyCommitted { transaction_id: id, checkpoint: c }),
                None => forall|i: int|
                    0 <= i < self.lazy_groups().len() ==> (#[trigger] self.lazy_groups()[i]).transaction_id
                        != id,
            },
    {
        match self.find_lazy(id) {
            Some(i) => Some(self.lazy_committed[i].checkpoint),
            None => None,
        }
    }

    /// The slices sealed so far, in order.
    pub fn slices(&self) -> (r: &Vec<Slice>)
        requires
            self.wf(),
        ensures
            r@.map_values(|s: Slice| s.etable@) == self.sealed(),
            forall|i: int| 0 <= i < r@.len() ==> (#[trigger] r@[i]).wf(),
    {
        self.slices.slices()
    }

    fn find_started(&self, id: TransactionId) -> (r: Option<usize>)
        ensures
            match r {
                Some(i) => i as int == open_index(self.open_groups(), id) && i < self.open_groups().len()
                    && self.open_groups()[i as int].id == id,
                None => open_index(self.open_groups(), id) == -1 && !has_open(self.open_groups(), id),
            },
    {
        proof {
            lemma_open_index(self.started@, id);
        }
        let mut i: usize = self.started.len();
        proof {
            assert(self.started@.subrange(0, i as int) =~= self.started@);
        }
        while i > 0
            invariant
                i <= self.started@.len(),
                open_index(self.started@, id) == open_index(self.started@.subrange(0, i as int), id),
            decreases i,
        {
            proof {
                let s = self.started@.subrange(0, i as int);
                assert(s.last() == self.started@[i - 1]);
                assert(s.drop_last() =~= self.started@.subrange(0, i - 1));
            }
            if self.started[i - 1].id == id {
                return Some(i - 1);
            }
            i = i - 1;
        }
        None
    }

    fn find_lazy(&self, id: TransactionId) -> (r: Option<usize>)
        ensures
            match r {
                Some(i) => i as int == lazy_index(self.lazy_groups(), id) && i < self.lazy_groups().len()
                    && self.lazy_groups()[i as int].transaction_id == id,
                None => lazy_index(self.lazy_groups(), id) == -1 && forall|j: int|
                    0 <= j < self.lazy_groups().len() ==> (#[trigger] self.lazy_groups()[j]).transaction_id
                        != id,
            },
    {
        proof {
            lemma_lazy_index(self.lazy_committed@, id);
        }
        let mut i: usize = self.lazy_committed.len();
        proof {
            assert(self.lazy_committed@.subrange(0, i as int) =~= self.lazy_committed@);
        }
        while i > 0
            invariant
                i <= self.lazy_committed@.len(),
                lazy_index(self.lazy_committed@, id) == lazy_index(
                    self.lazy_committed@.subrange(0, i as int),
                    id,
                ),
            decreases i,
        {
            proof {
                let s = self.lazy_committed@.subrange(0, i as int);
                assert(s.last() == self.lazy_committed@[i - 1]);
                assert(s.drop_last() =~= self.lazy_committed@.subrange(0, i - 1));
            }
            if self.lazy_committed[i - 1].transaction_id == id {
                return Some(i - 1);
            }
            i = i - 1;
        }
        None
    }

    /// Whether `pos` lies at or before the first step of every open group and the
    /// checkpoint of every provisional closure.
    fn precedes_all_groups(&self, pos: usize) -> (r: bool)
        ensures
            r == ((forall|i: int|
                0 <= i < self.open_groups().len() ==> pos <= (#[trigger] self.open_groups()[i]).start)
                && (forall|i: int|
                0 <= i < self.lazy_groups().len() ==> pos <= (
                #[trigger] self.lazy_groups()[i]).checkpoint)),
    {
        let mut i: usize = 0;
        while i < self.started.len()
            invariant
                i <= self.started@.len(),
                forall|j: int| 0 <= j < i ==> pos <= (#[trigger] self.started@[j]).start,
            decreases self.started@.len() - i,
        {
            if self.started[i].start < pos {
                assert(self.open_groups()[i as int].start < pos);
                return false;
            }
            i = i + 1;
        }
        let mut k: usize = 0;
        while k < self.lazy_committed.len()
            invariant
                k <= self.lazy_committed@.len(),
                forall|j: int| 0 <= j < self.started@.len() ==> pos <= (#[trigger] self.started@[j]).start,
                forall|j: int| 0 <= j < k ==> pos <= (#[trigger] self.lazy_committed@[j]).checkpoint,
            decreases self.lazy_committed@.len() - k,
        {
            if self.lazy_committed[k].checkpoint < pos {
                assert(self.lazy_groups()[k as int].checkpoint < pos);
                return false;
            }
            k = k + 1;
        }
        true
    }

    /// Moves the safe offset up to `position` where no group is open: the checkpoints of
    /// provisional closures where there are any, the cursor itself otherwise.
    fn try_update_lazy_committed(&mut self, position: usize)
        requires
            old(self).wf(),
            position == old(self).buffer().len(),
        ensures
            final(self).wf(),
            final(self).exchanges() == old(self).exchanges(),
            (final(self).cursor(), final(self).lazy_groups()) == try_update(
                old(self).cursor(),
                old(self).open_groups(),
                old(self).lazy_groups(),
                position,
            ),
            final(self).grew_past_capacity() == old(self).grew_past_capacity(),
            final(self).buffer() == old(self).buffer(),
            final(self).sealed() == old(self).sealed(),
            final(self).open_groups() == old(self).open_groups(),
            final(self).is_full() == old(self).is_full(),
            final(self).cap() == old(self).cap(),
            final(self).lazy_groups().len() == old(self).lazy_groups().len(),
            old(self).open_groups().len() > 0 ==> final(self).cursor() == old(self).cursor()
                && final(self).lazy_groups() == old(self).lazy_groups(),
            old(self).open_groups().len() == 0 && old(self).lazy_groups().len() > 0 ==> {
                &&& final(self).cursor() == old(self).cursor()
                &&& forall|i: int|
                    0 <= i < final(self).lazy_groups().len() ==> #[trigger] final(self).lazy_groups()[i]
                        == (LazyCommitted {
                        transaction_id: old(self).lazy_groups()[i].transaction_id,
                        checkpoint: position,
                    })
            },
            old(self).open_groups().len() == 0 && old(self).lazy_groups().len() == 0
                ==> final(self).cursor() == Some(position) && final(self).lazy_groups()
                == old(self).lazy_groups(),
    {
        if self.is_in_transaction() {
        } else if self.is_in_lazy_transaction() {
            let n = self.lazy_committed.len();
            let mut updated: Vec<LazyCommitted> = Vec::new();
            let mut k: usize = 0;
            while k < n
                invariant
                    n == self.lazy_committed@.len(),
                    k <= n,
                    updated@.len() == k,
                    forall|i: int|
                        0 <= i < k ==> #[trigger] updated@[i] == (LazyCommitted {
                            transaction_id: self.lazy_committed@[i].transaction_id,
                            checkpoint: position,
                        }),
                decreases n - k,
            {
                let id = self.lazy_committed[k].transaction_id;
                updated.push(LazyCommitted { transaction_id: id, checkpoint: position });
                k = k + 1;
            }
            self.lazy_committed = updated;
            proof {
                assert forall|i: int| 0 <= i < self.lazy_groups().len() implies {
                    &&& #[trigger] self.lazy_groups()[i].checkpoint <= self.buffer().len()
                    &&& self.cursor().unwrap() <= self.lazy_groups()[i].checkpoint
                } by {
                    assert(self.lazy_groups()[i].checkpoint == position);
                }
            }
        } else {
            self.safely_abort_position.update(position);
        }
    }

    /// Opens group `id` at the current offset.
    fn start(&mut self, idx: TransactionId) -> (r: Result<(), TransactionError>)
        requires
            old(self).wf(),
        ensures
            final(self).cap() == old(self).cap(),
            final(self).exchanges() == old(self).exchanges(),
            final(self).sealed() == old(self).sealed(),
            r is Ok <==> !has_open(old(self).open_groups(), idx),
            r is Err ==> r == Err::<(), TransactionError>(TransactionError::DuplicateStart(idx)),
            r is Ok ==> {
                &&& final(self).wf()
                &&& final(self).exchanges() == old(self).exchanges()
                &&& (final(self).cursor(), final(self).lazy_groups()) == try_update(
                    old(self).cursor(),
                    old(self).open_groups(),
                    old(self).lazy_groups(),
                    old(self).buffer().len() as usize,
                )
                &&& final(self).grew_past_capacity() == old(self).grew_past_capacity()
                &&& final(self).buffer() == old(self).buffer()
                &&& final(self).sealed() == old(self).sealed()
                &&& final(self).is_full() == old(self).is_full()
                &&& final(self).cap() == old(self).cap()
                &&& final(self).open_groups() == old(self).open_groups().push(
                    Checkpoint { id: idx, start: old(self).buffer().len() as usize },
                )
            },
    {
        if let Some(_) = self.find_started(idx) {
            return Err(TransactionError::DuplicateStart(idx));
        }
        let checkpoint = Checkpoint { id: idx, start: self.now() };
        self.try_update_lazy_committed(checkpoint.start);
        self.started.push(checkpoint);
        proof {
            assert(self.open_groups().last() == checkpoint);
        }
        Ok(())
    }

    /// Closes group `id`, whose last step is the last one in the buffer. A provisional
    /// closure of the same id is retired first: the cursor moves to its checkpoint
    /// where that lies before every other group.
    fn commit(&mut self, idx: TransactionId, lazy: bool) -> (r: Result<(), TransactionError>)
        requires
            old(self).wf(),
        ensures
            final(self).cap() == old(self).cap(),
            final(self).exchanges() == old(self).exchanges(),
            final(self).sealed() == old(self).sealed(),
            r is Ok <==> has_open(old(self).open_groups(), idx),
            r is Err ==> r == Err::<(), TransactionError>(TransactionError::UnknownCommit(idx)),
            r is Ok ==> {
                &&& final(self).wf()
                &&& final(self).exchanges() == old(self).exchanges()
                &&& (final(self).cursor(), final(self).open_groups(), final(self).lazy_groups())
                    == after_commit(
                    old(self).cursor(),
                    old(self).open_groups(),
                    old(self).lazy_groups(),
                    idx,
                    lazy,
                    old(self).buffer().len() as usize,
                )
                &&& final(self).grew_past_capacity() == old(self).grew_past_capacity()
                &&& final(self).buffer() == old(self).buffer()
                &&& final(self).sealed() == old(self).sealed()
                &&& final(self).is_full() == old(self).is_full()
                &&& final(self).cap() == old(self).cap()
                &&& final(self).open_groups().len() + 1 == old(self).open_groups().len()
            },
    {
        let i = match self.find_started(idx) {
            Some(i) => i,
            None => {
                return Err(TransactionError::UnknownCommit(idx));
            },
        };
        proof {
            assert(has_open(old(self).open_groups(), idx)) by {
                assert(old(self).open_groups()[i as int].id == idx);
            }
        }
        let _ = self.started.remove(i);
        proof {
            assert forall|j: int| 0 <= j < self.open_groups().len() implies {
                &&& #[trigger] self.open_groups()[j].start <= self.buffer().len()
                &&& self.cursor().unwrap() <= self.open_groups()[j].start
            } by {
                let jj = if j < i { j } else { j + 1 };
                assert(self.open_groups()[j] == old(self).open_groups()[jj]);
            }
        }
        let now = self.now();
        if let Some(k) = self.find_lazy(idx) {
            let checkpoint = self.lazy_committed[k].checkpoint;
            proof {
                assert(old(self).cursor().unwrap() <= old(self).lazy_groups()[k as int].checkpoint);
            }
            let _ = self.lazy_committed.remove(k);
            let ghost lz = self.lazy_groups();
            let ghost og = self.open_groups();
            let precedes = self.precedes_all_groups(checkpoint);
            if precedes {
                self.safely_abort_position.update(checkpoint);
            }
            proof {
                assert forall|j: int| 0 <= j < self.lazy_groups().len() implies {
                    &&& #[trigger] self.lazy_groups()[j].checkpoint <= self.buffer().len()
                    &&& self.cursor().unwrap() <= self.lazy_groups()[j].checkpoint
                } by {
                    let jj = if j < k { j } else { j + 1 };
                    assert(self.lazy_groups()[j] == old(self).lazy_groups()[jj]);
                    if !precedes {
                        assert(old(self).cursor().unwrap() <= old(self).lazy_groups()[jj].checkpoint);
                    } else {
                        assert(lz == self.lazy_groups());
                        assert(checkpoint <= lz[j].checkpoint);
                    }
                }
                assert forall|j: int| 0 <= j < self.open_groups().len() implies {
                    &&& #[trigger] self.open_groups()[j].start <= self.buffer().len()
                    &&& self.cursor().unwrap() <= self.open_groups()[j].start
                } by {
                    let jj = if j < i { j } else { j + 1 };
                    assert(self.open_groups()[j] == old(self).open_groups()[jj]);
                    if !precedes {
                        assert(old(self).cursor().unwrap() <= old(self).open_groups()[jj].start);
                    } else {
                        assert(og == self.open_groups());
                        assert(checkpoint <= og[j].start);
                    }
                }
            }
        }
        if lazy {
            self.lazy_committed.push(LazyCommitted { transaction_id: idx, checkpoint: now });
            proof {
                assert forall|j: int| 0 <= j < self.lazy_groups().len() implies {
                    &&& #[trigger] self.lazy_groups()[j].checkpoint <= self.buffer().len()
                    &&& self.cursor().unwrap() <= self.lazy_groups()[j].checkpoint
                } by {
                    if j == self.lazy_groups().len() - 1 {
                        assert(self.lazy_groups()[j].checkpoint == now);
                    }
                }
            }
        }
        self.try_update_lazy_committed(now);
        Ok(())
    }

    /// Appends a step to the buffer; the bookkeeping is unchanged.
    fn push_log(&mut self, log: EventTableEntry)
        requires
            old(self).wf(),
            old(self).buffer().len() < old(self).cap() || old(self).grew_past_capacity(),
        ensures
            final(self).grew_past_capacity() == old(self).grew_past_capacity(),
            final(self).buffer().len() <= usize::MAX,
            final(self).wf(),
            final(self).exchanges() == old(self).exchanges(),
            final(self).buffer() == old(self).buffer().push(log),
            final(self).sealed() == old(self).sealed(),
            final(self).cursor() == old(self).cursor(),
            final(self).open_groups() == old(self).open_groups(),
            final(self).lazy_groups() == old(self).lazy_groups(),
            final(self).is_full() == old(self).is_full(),
            final(self).cap() == old(self).cap(),
    {
        self.logs.push(log);
        let _ = self.logs.len();
        proof {
            assert forall|i: int| 0 <= i < self.open_groups().len() implies {
                &&& #[trigger] self.open_groups()[i].start <= self.buffer().len()
                &&& self.cursor().unwrap() <= self.open_groups()[i].start
            } by {
                assert(old(self).open_groups()[i] == self.open_groups()[i]);
            }
            assert forall|i: int| 0 <= i < self.lazy_groups().len() implies {
                &&& #[trigger] self.lazy_groups()[i].checkpoint <= self.buffer().len()
                &&& self.cursor().unwrap() <= self.lazy_groups()[i].checkpoint
            } by {
                assert(old(self).lazy_groups()[i] == self.lazy_groups()[i]);
            }
        }
    }

    /// Asks the next host call to seal the buffer first.
    fn mark_full(&mut self)
        requires
            old(self).wf(),
        ensures
            final(self).wf(),
            final(self).exchanges() == old(self).exchanges(),
            final(self).grew_past_capacity() == old(self).grew_past_capacity(),
            final(self).is_full(),
            final(self).buffer() == old(self).buffer(),
            final(self).sealed() == old(self).sealed(),
            final(self).cursor() == old(self).cursor(),
            final(self).open_groups() == old(self).open_groups(),
            final(self).lazy_groups() == old(self).lazy_groups(),
            final(self).cap() == old(self).cap(),
    {
        self.host_is_full = true;
        proof {
            assert forall|i: int| 0 <= i < self.open_groups().len() implies {
                &&& #[trigger] self.open_groups()[i].start <= self.buffer().len()
                &&& self.cursor().unwrap() <= self.open_groups()[i].start
            } by {
                assert(old(self).open_groups()[i] == self.open_groups()[i]);
            }
            assert forall|i: int| 0 <= i < self.lazy_groups().len() implies {
                &&& #[trigger] self.lazy_groups()[i].checkpoint <= self.buffer().len()
                &&& self.cursor().unwrap() <= self.lazy_groups()[i].checkpoint
            } by {
                assert(old(self).lazy_groups()[i] == self.lazy_groups()[i]);
            }
        }
    }

    /// Seals the buffer at the safe offset: the steps before it become a slice, the
    /// bookkeeping and the policy return to their initial state, and the steps after it
    /// are handed back to be taken in again, in order. When nothing can be sealed (the
    /// buffer is empty, or its first step already belongs to a group) nothing changes.
    fn abort(&mut self) -> (r: Result<Option<Vec<EventTableEntry>>, TransactionError>)
        requires
            old(self).wf(),
        ensures
            (old(self).buffer().len() == 0 || old(self).safe_cut() == 0) ==> r == Ok::<
                Option<Vec<EventTableEntry>>,
                TransactionError,
            >(None),
            r matches Ok(None) ==> *final(self) == *old(self) && (old(self).buffer().len() == 0
                || old(self).safe_cut() == 0),
            r matches Ok(Some(rest)) ==> {
                &&& 0 < old(self).safe_cut() <= old(self).buffer().len()
                &&& final(self).exchanges() == old(self).exchanges().push((Event::Reset, Command::Noop))
                &&& final(self).wf()
                &&& final(self).is_fresh()
                &&& final(self).cap() == old(self).cap()
                &&& final(self).sealed() == old(self).sealed().push(
                    old(self).buffer().subrange(0, old(self).safe_cut()),
                )
                &&& rest@ == old(self).buffer().subrange(
                    old(self).safe_cut(),
                    old(self).buffer().len() as int,
                )
            },
            r is Ok,
    {
        if self.logs.len() == 0 {
            return Ok(None);
        }
        if !self.is_in_transaction() && !self.is_in_lazy_transaction() {
            let now = self.now();
            self.safely_abort_position.update(now);
        }
        let rollback = self.safely_abort_position.finalize();
        if rollback == 0 {
            return Ok(None);
        }
        let mut logs: Vec<EventTableEntry> = Vec::new();
        std::mem::swap(&mut self.logs, &mut logs);
        let rest = logs.split_off(rollback);
        let slice = self.slice_builder.build(logs);
        self.slices.push_slice(slice);
        self.host_is_full = false;
        self.overflowed = Ghost(false);
        self.safely_abort_position.reset();
        self.lazy_committed.clear();
        self.started.clear();
        let command = self.controller.notify(Event::Reset);
        self.exchanges = Ghost(self.exchanges@.push((Event::Reset, command)));
        match command {
            Command::Noop => Ok(Some(rest)),
            _ => Err(TransactionError::ResetRefused(command)),
        }
    }

    /// Tells the policy of `event` and records the exchange.
    fn ask(&mut self, event: Event) -> (r: Command)
        requires
            old(self).wf(),
        ensures
            final(self).wf(),
            final(self).exchanges() == old(self).exchanges().push((event, r)),
            final(self).book() == old(self).book(),
            final(self).buffer() == old(self).buffer(),
            final(self).sealed() == old(self).sealed(),
            final(self).cap() == old(self).cap(),
            final(self).grew_past_capacity() == old(self).grew_past_capacity(),
            event == Event::Reset ==> r == Command::Noop,
    {
        let ghost before = *self;
        let r = self.controller.notify(event);
        self.exchanges = Ghost(self.exchanges@.push((event, r)));
        proof {
            assert(self.buffer() == before.buffer());
            assert(self.cursor() == before.cursor());
            assert(self.open_groups() == before.open_groups());
            assert(self.lazy_groups() == before.lazy_groups());
            assert(self.parts_wf());
        }
        r
    }

    /// Books a step that the policy answered with `command` and appends it: `Noop`
    /// changes no bookkeeping; `Start` opens the group at the old length after the
    /// try-update rule; `Commit` and `CommitAndAbort` close the group as
    /// `after_commit` says, the latter also asking for a seal before the next host
    /// call. A start of an open group, a close of a group not open, and a refusal
    /// are errors.
    pub fn apply(&mut self, log: EventTableEntry, command: Command) -> (r: Result<(), TransactionError>)
        requires
            old(self).wf(),
            old(self).buffer().len() < old(self).cap() || old(self).grew_past_capacity(),
        ensures
            final(self).exchanges() == old(self).exchanges(),
            final(self).sealed() == old(self).sealed(),
            final(self).cap() == old(self).cap(),
            booking_outcome(
                old(self).book(),
                old(self).buffer().len() as usize,
                command,
                false,
                final(self).book(),
                r,
            ),
            r is Ok ==> {
                &&& final(self).wf()
                &&& final(self).buffer() == old(self).buffer().push(log)
                &&& final(self).grew_past_capacity() == old(self).grew_past_capacity()
            },
    {
        match command {
            Command::Noop => {
                self.push_log(log);
                proof {
                    assert(bookable(old(self).book(), command));
                    assert(self.book() == old(self).book());
                }
                Ok(())
            },
            Command::Start(id) => {
                match self.start(id) {
                    Err(e) => Err(e),
                    Ok(()) => {
                        self.push_log(log);
                        proof {
                            assert(self.book() == booked(old(self).book(), old(self).buffer().len() as usize, command));
                        }
                        Ok(())
                    },
                }
            },
            Command::Commit(id, lazy) => {
                self.push_log(log);
                let r = self.commit(id, lazy);
                proof {
                    if bookable(old(self).book(), command) {
                        assert(r is Ok);
                        assert(self.buffer().len() == old(self).buffer().len() + 1);
                        assert(self.book() == booked(old(self).book(), old(self).buffer().len() as usize, command));
                    }
                }
                r
            },
            Command::CommitAndAbort(id, lazy) => {
                self.push_log(log);
                let ghost mid = *self;
                match self.commit(id, lazy) {
                    Err(e) => {
                        proof {
                            assert(!has_open(mid.open_groups(), id));
                        }
                        Err(e)
                    },
                    Ok(()) => {
                        proof {
                            assert(mid.buffer().len() == old(self).buffer().len() + 1);
                        }
                        self.mark_full();
                        proof {
                            assert(self.book() == booked(old(self).book(), old(self).buffer().len() as usize, command));
                        }
                        Ok(())
                    },
                }
            },
            Command::Abort => {
                proof {
                    assert(!bookable(old(self).book(), command));
                }
                Err(TransactionError::RepeatedAbort)
            },
        }
    }

    /// Takes in one step, unless the buffer has to be sealed first; in that case it
    /// seals and hands back the steps to take in again before this one. A refused
    /// host call also seals where it can, and is then taken in again against the
    /// reset policy; where nothing can be sealed it is asked about once more.
    fn step(&mut self, log: EventTableEntry) -> (r: Result<
        Option<Vec<EventTableEntry>>,
        TransactionError,
    >)
        requires
            old(self).wf(),
        ensures
            sealed_extends(old(self).sealed(), final(self).sealed()),
            final(self).exchanges().len() >= old(self).exchanges().len(),
            final(self).exchanges().subrange(0, old(self).exchanges().len() as int) == old(self).exchanges(),
            r matches Ok(None) ==> {
                &&& final(self).wf()
                &&& final(self).cap() == old(self).cap()
                &&& final(self).sealed() == old(self).sealed()
                &&& final(self).buffer() == old(self).buffer().push(log)
            },
            r matches Ok(Some(rest)) ==> {
                &&& 0 < old(self).safe_cut() <= old(self).buffer().len()
                &&& final(self).wf()
                &&& final(self).is_fresh()
                &&& final(self).cap() == old(self).cap()
                &&& final(self).sealed() == old(self).sealed().push(
                    old(self).buffer().subrange(0, old(self).safe_cut()),
                )
                &&& rest@ == old(self).buffer().subrange(
                    old(self).safe_cut(),
                    old(self).buffer().len() as int,
                )
            },
            old(self).seals_before(log) && old(self).can_seal() ==> {
                &&& r matches Ok(Some(_))
                &&& final(self).exchanges() == old(self).exchanges().push((Event::Reset, Command::Noop))
            },
            !old(self).seals_before(log) || !old(self).can_seal() ==> {
                &&& takes_step(
                    old(self).book(),
                    old(self).buffer().len() as usize,
                    old(self).exchanges(),
                    log,
                    old(self).can_seal(),
                    final(self).book(),
                    final(self).exchanges(),
                    unit_result(r),
                )
                &&& r is Ok && !refused_and_sealed(*old(self), log, *final(self)) ==> r matches Ok(None)
            },
            r is Ok && final(self).grew_past_capacity() && !old(self).grew_past_capacity() ==> old(self).buffer().len() >= old(self).cap() && old(self).safe_cut() == 0,
    {
        if self.logs.len() >= self.capacity as usize {
            match self.abort() {
                Err(e) => {
                    return Err(e);
                },
                Ok(Some(rest)) => {
                    return Ok(Some(rest));
                },
                Ok(None) => {
                    self.overflowed = Ghost(true);
                },
            }
        }
        match log.host_call_op() {
            None => {
                self.push_log(log);
                Ok(None)
            },
            Some(op) => {
                if self.host_is_full {
                    match self.abort() {
                        Err(e) => {
                            return Err(e);
                        },
                        Ok(Some(rest)) => {
                            return Ok(Some(rest));
                        },
                        Ok(None) => {},
                    }
                }
                let ghost ex0 = self.exchanges();
                let first = self.ask(Event::HostCall(op));
                proof {
                    assert(self.exchanges().subrange(0, ex0.len() as int) =~= ex0);
                }
                if let Command::Abort = first {
                    match self.abort() {
                        Err(e) => {
                            return Err(e);
                        },
                        Ok(Some(rest)) => {
                            proof {
                                assert(self.exchanges().subrange(0, ex0.len() as int) =~= ex0);
                            }
                            return Ok(Some(rest));
                        },
                        Ok(None) => {},
                    }
                    let second = self.ask(Event::HostCall(op));
                    proof {
                        assert(self.exchanges().subrange(0, ex0.len() as int) =~= ex0);
                    }
                    if let Command::Abort = second {
                        return Err(TransactionError::RepeatedAbort);
                    }
                    match self.apply(log, second) {
                        Err(e) => Err(e),
                        Ok(()) => {
                            self.mark_full();
                            Ok(None)
                        },
                    }
                } else {
                    match self.apply(log, first) {
                        Err(e) => Err(e),
                        Ok(()) => Ok(None),
                    }
                }
            },
        }
    }

    /// Takes in each step of `logs`, in order.
    pub fn replay(&mut self, logs: Vec<EventTableEntry>) -> (r: Result<(), TransactionError>)
        requires
            old(self).wf(),
        ensures
            sealed_extends(old(self).sealed(), final(self).sealed()),
            final(self).exchanges().len() >= old(self).exchanges().len(),
            final(self).exchanges().subrange(0, old(self).exchanges().len() as int) == old(self).exchanges(),
            r is Ok ==> {
                &&& final(self).wf()
                &&& final(self).cap() == old(self).cap()
                &&& final(self).seen() == old(self).seen() + logs@
            },
    {
        let ghost input = logs@;
        let mut queue = logs;
        let mut i: usize = 0;
        while i < queue.len()
            invariant
                self.wf(),
                self.cap() == old(self).cap(),
                i <= queue@.len(),
                self.seen() + queue@.subrange(i as int, queue@.len() as int) == old(self).seen()
                    + input,
                sealed_extends(old(self).sealed(), self.sealed()),
                self.exchanges().len() >= old(self).exchanges().len(),
                self.exchanges().subrange(0, old(self).exchanges().len() as int) == old(self).exchanges(),
            decreases self.buffer().len() + queue@.len() - i, queue@.len() - i,
        {
            let log = queue[i];
            let ghost pre = *self;
            let r = self.step(log);
            proof {
                lemma_sealed_extends_trans(old(self).sealed(), pre.sealed(), self.sealed());
                lemma_prefix_trans(old(self).exchanges(), pre.exchanges(), self.exchanges());
            }
            match r {
                Err(e) => {
                    return Err(e);
                },
                Ok(None) => {
                    proof {
                        assert(queue@.subrange(i as int, queue@.len() as int) =~= seq![log]
                            + queue@.subrange(i + 1, queue@.len() as int));
                        assert(self.seen() =~= pre.seen().push(log));
                    }
                    i = i + 1;
                },
                Ok(Some(rest)) => {
                    let next = requeue(rest, &queue, i);
                    proof {
                        let cut = pre.safe_cut();
                        pre.sealed().lemma_flatten_push(pre.buffer().subrange(0, cut));
                        assert(pre.buffer() =~= pre.buffer().subrange(0, cut) + pre.buffer().subrange(
                            cut,
                            pre.buffer().len() as int,
                        ));
                        assert(self.buffer() =~= Seq::<EventTableEntry>::empty());
                        assert(next@.subrange(0, next@.len() as int) =~= next@);
                        assert(self.seen() + next@ =~= pre.seen() + queue@.subrange(
                            i as int,
                            queue@.len() as int,
                        ));
                    }
                    queue = next;
                    i = 0;
                },
            }
        }
        Ok(())
    }

    /// Takes in one executed step. Where the buffer is full, or the step is a host
    /// call and an earlier group asked for a seal, the buffer is sealed first at the
    /// safe offset and the steps after it are taken in again; the step is then booked
    /// as the policy answers. Once this has failed the engine must not be used again.
    pub fn insert(&mut self, log: EventTableEntry) -> (r: Result<(), TransactionError>)
        requires
            old(self).wf(),
        ensures
            r is Ok ==> {
                &&& final(self).wf()
                &&& final(self).cap() == old(self).cap()
                &&& final(self).seen() == old(self).seen().push(log)
            },
            sealed_extends(old(self).sealed(), final(self).sealed()),
            final(self).exchanges().len() >= old(self).exchanges().len(),
            final(self).exchanges().subrange(0, old(self).exchanges().len() as int) == old(self).exchanges(),
            old(self).seals_before(log) && old(self).can_seal() ==> {
                &&& final(self).sealed().len() > old(self).sealed().len()
                &&& final(self).sealed()[old(self).sealed().len() as int] == old(self).buffer().subrange(0, old(self).safe_cut())
                &&& final(self).sealed()[old(self).sealed().len() as int].len() > old(self).cap()
                    ==> old(self).grew_past_capacity()
                &&& forall|g: int|
                    0 <= g < old(self).open_groups().len() ==> old(self).safe_cut() <= (
                    #[trigger] old(self).open_groups()[g]).start
                &&& forall|g: int|
                    0 <= g < old(self).lazy_groups().len() ==> old(self).safe_cut() <= (
                    #[trigger] old(self).lazy_groups()[g]).checkpoint
            },
            old(self).seals_before(log) && old(self).can_seal() && old(self).safe_cut()
                == old(self).buffer().len() ==> {
                &&& takes_step(
                    fresh_book(),
                    0,
                    old(self).exchanges().push((Event::Reset, Command::Noop)),
                    log,
                    false,
                    final(self).book(),
                    final(self).exchanges(),
                    r,
                )
                &&& r is Ok ==> final(self).sealed() == old(self).sealed().push(old(self).buffer())
                    && final(self).buffer() == seq![log]
            },
            !old(self).seals_before(log) || !old(self).can_seal() ==> {
                &&& takes_step(
                    old(self).book(),
                    old(self).buffer().len() as usize,
                    old(self).exchanges(),
                    log,
                    old(self).can_seal(),
                    final(self).book(),
                    final(self).exchanges(),
                    r,
                )
                &&& r is Ok && !refused_and_sealed(*old(self), log, *final(self)) ==> {
                    &&& final(self).sealed() == old(self).sealed()
                    &&& final(self).buffer() == old(self).buffer().push(log)
                }
            },
    {
        let ghost pre = *self;
        proof {
            lemma_seal_keeps_groups_whole(pre);
            lemma_slice_within_capacity(pre);
        }
        let first = self.step(log);
        match first {
            Err(e) => Err(e),
            Ok(None) => {
                proof {
                    assert(self.seen() =~= pre.seen().push(log));
                }
                Ok(())
            },
            Ok(Some(rest)) => {
                let ghost mid = *self;
                proof {
                    let cut = pre.safe_cut();
                    pre.sealed().lemma_flatten_push(pre.buffer().subrange(0, cut));
                    assert(pre.buffer() =~= pre.buffer().subrange(0, cut) + pre.buffer().subrange(
                        cut,
                        pre.buffer().len() as int,
                    ));
                    assert(mid.book() =~= fresh_book());
                    assert(mid.sealed()[pre.sealed().len() as int] == pre.buffer().subrange(0, cut));
                }
                if rest.len() == 0 {
                    let again = self.step(log);
                    proof {
                        lemma_sealed_extends_trans(pre.sealed(), mid.sealed(), self.sealed());
                        lemma_prefix_trans(pre.exchanges(), mid.exchanges(), self.exchanges());
                        assert(self.sealed()[pre.sealed().len() as int] == mid.sealed()[pre.sealed().len() as int]);
                    }
                    match again {
                        Err(e) => Err(e),
                        Ok(None) => {
                            proof {
                                assert(pre.buffer().subrange(0, pre.safe_cut()) =~= pre.buffer());
                                assert(self.buffer() =~= seq![log]);
                                assert(self.seen() =~= pre.seen().push(log));
                            }
                            Ok(())
                        },
                        Ok(Some(_)) => Ok(()),
                    }
                } else {
                    let mut queue = rest;
                    queue.push(log);
                    proof {
                        assert(self.seen() + queue@ =~= pre.seen().push(log));
                    }
                    let r = self.replay(queue);
                    proof {
                        lemma_sealed_extends_trans(pre.sealed(), mid.sealed(), self.sealed());
                        lemma_prefix_trans(pre.exchanges(), mid.exchanges(), self.exchanges());
                        assert(self.sealed()[pre.sealed().len() as int] == mid.sealed()[pre.sealed().len() as int]);
                    }
                    r
                }
            },
        }
    }

    /// Seals the buffer at the safe offset and takes the steps after it in again. On an
    /// empty buffer, or where the first step already belongs to a group, it does
    /// nothing; where no group is open or provisionally closed the whole buffer
    /// becomes one slice.
    pub fn seal(&mut self) -> (r: Result<(), TransactionError>)
        requires
            old(self).wf(),
        ensures
            r is Ok ==> {
                &&& final(self).wf()
                &&& final(self).cap() == old(self).cap()
                &&& final(self).seen() == old(self).seen()
            },
            sealed_extends(old(self).sealed(), final(self).sealed()),
            !old(self).can_seal() ==> r is Ok && *final(self) == *old(self),
            old(self).can_seal() ==> {
                &&& final(self).sealed().len() > old(self).sealed().len()
                &&& final(self).sealed()[old(self).sealed().len() as int] == old(self).buffer().subrange(0, old(self).safe_cut())
            },
            old(self).open_groups().len() == 0 && old(self).lazy_groups().len() == 0 && old(self).buffer().len() > 0 ==> {
                &&& r is Ok
                &&& final(self).sealed() == old(self).sealed().push(old(self).buffer())
                &&& final(self).is_fresh()
            },
    {
        let ghost pre = *self;
        match self.abort() {
            Err(e) => Err(e),
            Ok(None) => Ok(()),
            Ok(Some(rest)) => {
                let ghost mid = *self;
                proof {
                    let cut = pre.safe_cut();
                    pre.sealed().lemma_flatten_push(pre.buffer().subrange(0, cut));
                    assert(pre.buffer() =~= pre.buffer().subrange(0, cut) + pre.buffer().subrange(
                        cut,
                        pre.buffer().len() as int,
                    ));
                    assert(self.seen() + rest@ =~= pre.seen());
                    if pre.open_groups().len() == 0 && pre.lazy_groups().len() == 0 {
                        assert(pre.buffer().subrange(0, cut) =~= pre.buffer());
                    }
                }
                if rest.len() > 0 {
                    let r = self.replay(rest);
                    proof {
                        lemma_sealed_extends_trans(pre.sealed(), mid.sealed(), self.sealed());
                        assert(self.sealed()[pre.sealed().len() as int] == mid.sealed()[pre.sealed().len() as int]);
                    }
                    r
                } else {
                    proof {
                        assert(self.seen() =~= pre.seen());
                    }
                    Ok(())
                }
            },
        }
    }

    /// Seals whatever is left and hands back every slice of the run, in order. It
    /// fails where a group is still open or provisionally closed, so that the buffer
    /// cannot be emptied.
    pub fn finalized(self) -> (r: Result<InMemoryBackend, TransactionError>)
        requires
            self.wf(),
        ensures
            r matches Ok(b) ==> b.wf() && b.tables().flatten() == self.seen(),
            self.open_groups().len() == 0 && self.lazy_groups().len() == 0 ==> match r {
                Ok(b) => b.tables() == if self.buffer().len() == 0 {
                    self.sealed()
                } else {
                    self.sealed().push(self.buffer())
                },
                Err(_) => false,
            },
    {
        let mut s = self;
        match s.seal() {
            Err(e) => {
                return Err(e);
            },
            Ok(()) => {},
        }
        if s.logs.len() != 0 {
            return Err(TransactionError::Unfinished);
        }
        proof {
            assert(s.seen() =~= s.sealed().flatten());
        }
        Ok(s.slices)
    }
}

/// A seal never cuts inside a group: the offset it cuts at lies within the buffer and
/// at or before the first step of every open group and the checkpoint of every
/// provisionally closed one.
pub proof fn lemma_seal_keeps_groups_whole<S: FlushStrategy>(t: HostTransaction<S>)
    requires
        t.wf(),
    ensures
        0 <= t.safe_cut() <= t.buffer().len(),
        forall|i: int|
            0 <= i < t.open_groups().len() ==> t.safe_cut() <= (#[trigger] t.open_groups()[i]).start,
        forall|i: int|
            0 <= i < t.lazy_groups().len() ==> t.safe_cut() <= (
            #[trigger] t.lazy_groups()[i]).checkpoint,
{
}

proof fn lemma_seen_prefix<S: FlushStrategy>(
    states: Seq<HostTransaction<S>>,
    input: Seq<EventTableEntry>,
    k: int,
)
    requires
        states.len() == input.len() + 1,
        states[0].seen() == Seq::<EventTableEntry>::empty(),
        forall|i: int|
            0 <= i < input.len() ==> #[trigger] states[i + 1].seen() == states[i].seen().push(
                input[i],
            ),
        0 <= k <= input.len(),
    ensures
        states[k].seen() == input.subrange(0, k),
    decreases k,
{
    if k == 0 {
        assert(input.subrange(0, 0) =~= Seq::<EventTableEntry>::empty());
    } else {
        lemma_seen_prefix(states, input, k - 1);
        assert(states[(k - 1) + 1].seen() == states[k - 1].seen().push(input[k - 1]));
        assert(input.subrange(0, k) =~= input.subrange(0, k - 1).push(input[k - 1]));
    }
}

/// Sealing loses and reorders nothing: along a run of engine states that starts having
/// seen nothing and takes in one step at a time (as `new` and `insert` state), the
/// slices that account for everything seen at the end (as `finalized` states)
/// concatenate to the steps in the order they came.
pub proof fn lemma_slices_concatenate_to_input<S: FlushStrategy>(
    states: Seq<HostTransaction<S>>,
    input: Seq<EventTableEntry>,
    slices: Seq<Seq<EventTableEntry>>,
)
    requires
        states.len() == input.len() + 1,
        states[0].seen() == Seq::<EventTableEntry>::empty(),
        forall|i: int|
            0 <= i < input.len() ==> #[trigger] states[i + 1].seen() == states[i].seen().push(
                input[i],
            ),
        slices.flatten() == states.last().seen(),
    ensures
        slices.flatten() == input,
{
    lemma_seen_prefix(states, input, input.len() as int);
    assert(input.subrange(0, input.len() as int) =~= input);
}

/// A seal cuts more than `capacity` steps only when the buffer had to grow past
/// capacity because, when it filled, no offset was safe to cut at: a group is never
/// split to keep a slice within capacity.
pub proof fn lemma_slice_within_capacity<S: FlushStrategy>(t: HostTransaction<S>)
    requires
        t.wf(),
    ensures
        t.safe_cut() > t.cap() ==> t.grew_past_capacity(),
        !t.grew_past_capacity() ==> t.buffer().len() <= t.cap(),
{
}

/// Taking in a step is a function of the bookkeeping, the buffer length and the
/// policy's answers alone: two engines with the same bookkeeping and length that get
/// the same answers for the same step end with the same outcome and, on success, the
/// same bookkeeping. With
/// `lemma_fresh_engines_agree` this makes the steps replayed after a seal rebuild the
/// bookkeeping that a new engine fed the same steps and answers would have.
pub proof fn lemma_takes_step_deterministic(
    b: Book,
    len: usize,
    log: EventTableEntry,
    ex0: Seq<(Event, Command)>,
    ex1: Seq<(Event, Command)>,
    after1: Book,
    r1: Result<(), TransactionError>,
    fx0: Seq<(Event, Command)>,
    fx1: Seq<(Event, Command)>,
    after2: Book,
    r2: Result<(), TransactionError>,
)
    requires
        takes_step(b, len, ex0, log, false, after1, ex1, r1),
        takes_step(b, len, fx0, log, false, after2, fx1, r2),
        ex1.subrange(ex0.len() as int, ex1.len() as int) == fx1.subrange(
            fx0.len() as int,
            fx1.len() as int,
        ),
    ensures
        r1 is Ok <==> r2 is Ok,
        r1 is Ok ==> after1 == after2,
        r1 is Err ==> r1 == r2,
{
    if log.host_op() is Some {
        let n = ex0.len() as int;
        let m = fx0.len() as int;
        assert(ex1[n] == ex1.subrange(n, ex1.len() as int)[0]);
        assert(fx1[m] == fx1.subrange(m, fx1.len() as int)[0]);
        if ex1[n].1 == Command::Abort {
            assert(ex1[n + 1] == ex1.subrange(n, ex1.len() as int)[1]);
            assert(fx1[m + 1] == fx1.subrange(m, fx1.len() as int)[1]);
        }
    }
}

/// Two engines that are both fresh (just made, or just sealed) hold the same
/// bookkeeping, so that the steps replayed after a seal are treated as the first
/// steps of a new engine.
pub proof fn lemma_fresh_engines_agree<S: FlushStrategy>(a: HostTransaction<S>, b: HostTransaction<S>)
    requires
        a.is_fresh(),
        b.is_fresh(),
    ensures
        a.buffer() == b.buffer(),
        a.cursor() == b.cursor(),
        a.open_groups() == b.open_groups(),
        a.lazy_groups() == b.lazy_groups(),
        a.is_full() == b.is_full(),
{
    assert(a.buffer() =~= b.buffer());
    assert(a.open_groups() =~= b.open_groups());
    assert(a.lazy_groups() =~= b.lazy_groups());
}

} // verus!

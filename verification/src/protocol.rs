//! The task-launch binding protocol: a state machine that turns a list of
//! access modes into a schedule of duplicate-then-lock operations, and an
//! executor that establishes the bindings a task body runs with.

use vstd::prelude::*;
use crate::a::A;
use crate::a::ReadGuard;
use crate::a::WriteGuard;

verus! {

/// How one variable of a launch's variable list is bound into the task
/// body: with an owned duplicate, a held read guard, or a held write guard.
#[derive(Clone, Copy, PartialEq, Eq, Structural, Debug)]
pub enum Mode {
    /// Bind a fresh duplicate of the cell; no lock is held.
    Owned,
    /// Bind a duplicate together with a read guard acquired on it.
    Shared,
    /// Bind a duplicate together with a write guard acquired on it.
    Exclusive,
}

/// One operation of a launch schedule, naming the variable it acts on by
/// position in the variable list.
#[derive(Clone, Copy, PartialEq, Eq, Structural, Debug)]
pub enum Action {
    /// Duplicate the cell at this position.
    Duplicate(usize),
    /// Acquire a read guard on the duplicate at this position.
    AcquireRead(usize),
    /// Acquire a write guard on the duplicate at this position.
    AcquireWrite(usize),
}

/// The duplicate operations of a launch of `n` variables: one per variable,
/// in declaration order.
pub open spec fn dup_schedule(n: nat) -> Seq<Action> {
    Seq::new(n, |i: int| Action::Duplicate(i as usize))
}

/// The lock operations that the variable at position `i` adds to the
/// schedule: none when owned, one acquisition otherwise.
pub open spec fn lock_step(m: Mode, i: int) -> Seq<Action> {
    match m {
        Mode::Owned => seq![],
        Mode::Shared => seq![Action::AcquireRead(i as usize)],
        Mode::Exclusive => seq![Action::AcquireWrite(i as usize)],
    }
}

/// The lock operations of a launch: for each variable in declaration order,
/// a read or write acquisition where its mode asks for one.
pub open spec fn lock_schedule(modes: Seq<Mode>) -> Seq<Action>
    decreases modes.len(),
{
    if modes.len() == 0 {
        seq![]
    } else {
        lock_schedule(modes.drop_last()) + lock_step(modes.last(), modes.len() - 1)
    }
}

/// The whole schedule of a launch: every duplicate first, then every lock
/// acquisition, both in declaration order. Duplication is lock-free and
/// always succeeds, so no lock acquisition ever competes with it.
pub open spec fn schedule(modes: Seq<Mode>) -> Seq<Action> {
    dup_schedule(modes.len()) + lock_schedule(modes)
}

/// How many lock acquisitions the schedule of `modes` holds: one per
/// variable whose mode is not `Owned`. A variable listed twice is counted
/// twice; the protocol does not deduplicate.
pub open spec fn locks_asked(modes: Seq<Mode>) -> nat
    decreases modes.len(),
{
    if modes.len() == 0 {
        0
    } else {
        locks_asked(modes.drop_last()) + lock_step(modes.last(), modes.len() - 1).len()
    }
}

/// The parsing state of the binding protocol: the duplicate operations and
/// the lock operations accumulated for the variables consumed so far.
/// `push` is the per-variable transition; `finish` is the terminal step
/// that emits the whole schedule.
pub struct Planner {
    dups: Vec<Action>,
    locks: Vec<Action>,
    modes: Ghost<Seq<Mode>>,
}

impl Planner {
    /// The modes of the variables consumed so far, in order.
    pub closed spec fn seen(self) -> Seq<Mode> {
        self.modes@
    }

    /// The accumulated lists are exactly the duplicate and lock schedules
    /// of the modes consumed so far.
    pub closed spec fn wf(self) -> bool {
        &&& self.dups@ == dup_schedule(self.seen().len())
        &&& self.locks@ == lock_schedule(self.seen())
    }

    /// A planner that has consumed nothing.
    pub fn new() -> (p: Planner)
        ensures
            p.wf(),
            p.seen() == Seq::<Mode>::empty(),
    {
        let p = Planner { dups: Vec::new(), locks: Vec::new(), modes: Ghost(Seq::empty()) };
        proof {
            assert(p.dups@ =~= dup_schedule(0));
        }
        p
    }

    /// One transition of the protocol: consume the next variable's mode,
    /// appending its duplicate operation and, for a locking mode, its lock
    /// acquisition.
    pub fn push(&mut self, m: Mode)
        requires
            old(self).wf(),
        ensures
            final(self).wf(),
            final(self).seen() == old(self).seen().push(m),
    {
        let ghost pre = old(self).seen();
        let i = self.dups.len();
        self.dups.push(Action::Duplicate(i));
        match m {
            Mode::Owned => {},
            Mode::Shared => {
                self.locks.push(Action::AcquireRead(i));
            },
            Mode::Exclusive => {
                self.locks.push(Action::AcquireWrite(i));
            },
        }
        self.modes = Ghost(self.modes@.push(m));
        proof {
            assert(pre.push(m).drop_last() =~= pre);
            assert(self.dups@ =~= dup_schedule(pre.push(m).len()));
            assert(self.locks@ =~= lock_schedule(pre) + lock_step(m, pre.len() as int));
        }
    }

    /// The terminal transition: every variable consumed, emit the whole
    /// schedule — each duplicate first, then each lock acquisition.
    pub fn finish(self) -> (plan: Vec<Action>)
        requires
            self.wf(),
        ensures
            plan@ == schedule(self.seen()),
    {
        let Planner { dups, locks, modes: _ } = self;
        let mut plan = dups;
        let mut locks = locks;
        plan.append(&mut locks);
        plan
    }
}

/// Parses a whole variable list at once: the schedule of a launch whose
/// variables carry these modes, in the order given.
pub fn plan_for(modes: &Vec<Mode>) -> (plan: Vec<Action>)
    ensures
        plan@ == schedule(modes@),
{
    let mut p = Planner::new();
    let mut i: usize = 0;
    while i < modes.len()
        invariant
            i <= modes@.len(),
            p.wf(),
            p.seen() == modes@.take(i as int),
        decreases modes@.len() - i,
    {
        p.push(modes[i]);
        proof {
            assert(modes@.take(i as int).push(modes@[i as int]) =~= modes@.take(i as int + 1));
        }
        i += 1;
    }
    proof {
        assert(modes@.take(modes@.len() as int) =~= modes@);
    }
    p.finish()
}

/// Law: the schedule of the empty variable list is empty, so a launch with
/// no variables degenerates to submitting the body unchanged.
pub proof fn lemma_schedule_empty()
    ensures
        schedule(Seq::<Mode>::empty()) =~= Seq::<Action>::empty(),
{
}

/// The position in the variable list that a schedule operation acts on.
pub open spec fn action_var(a: Action) -> usize {
    match a {
        Action::Duplicate(i) => i,
        Action::AcquireRead(i) => i,
        Action::AcquireWrite(i) => i,
    }
}

/// Every operation of the lock schedule acts on a listed variable.
proof fn lemma_lock_schedule_vars(modes: Seq<Mode>)
    requires
        modes.len() <= usize::MAX,
    ensures
        forall|j: int|
            0 <= j < lock_schedule(modes).len() ==> action_var(
                #[trigger] lock_schedule(modes)[j],
            ) < modes.len(),
    decreases modes.len(),
{
    if modes.len() > 0 {
        let bls = lock_schedule(modes.drop_last());
        let step = lock_step(modes.last(), modes.len() - 1);
        lemma_lock_schedule_vars(modes.drop_last());
        assert(lock_schedule(modes) == bls + step);
        assert forall|j: int| 0 <= j < lock_schedule(modes).len() implies action_var(
            #[trigger] lock_schedule(modes)[j],
        ) < modes.len() by {
            if j < bls.len() {
                assert(lock_schedule(modes)[j] == bls[j]);
            } else {
                assert(lock_schedule(modes)[j] == step[j - bls.len()]);
            }
        }
    }
}

/// Law: the lock schedule asks exactly what the modes ask. A read
/// acquisition for a position stands in it iff that variable's mode is
/// `Shared`, and a write acquisition iff it is `Exclusive`.
pub proof fn lemma_lock_schedule_exact(modes: Seq<Mode>)
    requires
        modes.len() <= usize::MAX,
    ensures
        forall|i: int|
            0 <= i < modes.len() ==> ((#[trigger] lock_schedule(modes).contains(
                Action::AcquireRead(i as usize),
            )) <==> modes[i] == Mode::Shared),
        forall|i: int|
            0 <= i < modes.len() ==> ((#[trigger] lock_schedule(modes).contains(
                Action::AcquireWrite(i as usize),
            )) <==> modes[i] == Mode::Exclusive),
    decreases modes.len(),
{
    if modes.len() > 0 {
        let bl = modes.drop_last();
        lemma_lock_schedule_exact(bl);
        lemma_lock_schedule_vars(bl);
        assert forall|i: int| 0 <= i < modes.len() implies ((#[trigger] lock_schedule(
            modes,
        ).contains(Action::AcquireRead(i as usize))) <==> modes[i] == Mode::Shared) by {
            lemma_lock_schedule_step_case(modes, i);
        }
        assert forall|i: int| 0 <= i < modes.len() implies ((#[trigger] lock_schedule(
            modes,
        ).contains(Action::AcquireWrite(i as usize))) <==> modes[i] == Mode::Exclusive) by {
            lemma_lock_schedule_step_case(modes, i);
        }
    }
}

/// One position's case of `lemma_lock_schedule_exact`, with the
/// induction hypothesis for the shorter list already at hand.
proof fn lemma_lock_schedule_step_case(modes: Seq<Mode>, i: int)
    requires
        modes.len() <= usize::MAX,
        0 < modes.len(),
        0 <= i < modes.len(),
        forall|j: int|
            0 <= j < modes.len() - 1 ==> ((#[trigger] lock_schedule(
                modes.drop_last(),
            ).contains(Action::AcquireRead(j as usize))) <==> modes.drop_last()[j]
                == Mode::Shared),
        forall|j: int|
            0 <= j < modes.len() - 1 ==> ((#[trigger] lock_schedule(
                modes.drop_last(),
            ).contains(Action::AcquireWrite(j as usize))) <==> modes.drop_last()[j]
                == Mode::Exclusive),
        forall|j: int|
            0 <= j < lock_schedule(modes.drop_last()).len() ==> action_var(
                #[trigger] lock_schedule(modes.drop_last())[j],
            ) < modes.len() - 1,
    ensures
        lock_schedule(modes).contains(Action::AcquireRead(i as usize)) <==> modes[i]
            == Mode::Shared,
        lock_schedule(modes).contains(Action::AcquireWrite(i as usize)) <==> modes[i]
            == Mode::Exclusive,
{
    let bl = modes.drop_last();
    let m = modes.last();
    let n = modes.len() - 1;
    let l = lock_schedule(modes);
    let bls = lock_schedule(bl);
    let step = lock_step(m, n as int);
    assert(l == bls + step);
    // whatever stands in the shorter schedule stands in the whole one
    assert forall|a: Action| bls.contains(a) implies l.contains(a) by {
        let k = choose|k: int| 0 <= k < bls.len() && bls[k] == a;
        assert(l[k] == a);
    }
    // and whatever the last variable appends stands at the end
    if step.len() > 0 {
        assert(l[bls.len() as int] == step[0]);
    }
    if i < n {
        // the appended operation, if any, acts on position n, not i
        assert forall|a: Action| l.contains(a) && action_var(a) == i as usize implies bls.contains(
            a,
        ) by {
            let k = choose|k: int| 0 <= k < l.len() && l[k] == a;
            if k >= bls.len() {
                assert(l[k] == step[k - bls.len()]);
                assert(action_var(l[k]) == n as usize);
            } else {
                assert(bls[k] == a);
            }
        }
        assert(action_var(Action::AcquireRead(i as usize)) == i as usize);
        assert(action_var(Action::AcquireWrite(i as usize)) == i as usize);
    } else {
        // i == n: the shorter schedule never acts on n, so membership is
        // decided by the appended operation alone
        assert forall|a: Action| bls.contains(a) implies action_var(a) < n as usize by {
            let k = choose|k: int| 0 <= k < bls.len() && bls[k] == a;
        }
        match m {
            Mode::Owned => {
                assert forall|a: Action| l.contains(a) implies bls.contains(a) by {
                    let k = choose|k: int| 0 <= k < l.len() && l[k] == a;
                    assert(bls[k] == a);
                }
            },
            Mode::Shared => {
                assert(l.contains(Action::AcquireRead(n as usize)));
                if l.contains(Action::AcquireWrite(n as usize)) {
                    let k = choose|k: int|
                        0 <= k < l.len() && l[k] == Action::AcquireWrite(n as usize);
                    if k < bls.len() {
                        assert(bls[k] == Action::AcquireWrite(n as usize));
                    } else {
                        assert(l[k] == step[k - bls.len()]);
                    }
                }
            },
            Mode::Exclusive => {
                assert(l.contains(Action::AcquireWrite(n as usize)));
                if l.contains(Action::AcquireRead(n as usize)) {
                    let k = choose|k: int|
                        0 <= k < l.len() && l[k] == Action::AcquireRead(n as usize);
                    if k < bls.len() {
                        assert(bls[k] == Action::AcquireRead(n as usize));
                    } else {
                        assert(l[k] == step[k - bls.len()]);
                    }
                }
            },
        }
    }
}

/// Law: lock acquisitions happen in declaration order. In the lock
/// schedule the acted-on positions strictly increase, so no variable is
/// locked twice and no acquisition overtakes an earlier variable's.
pub proof fn lemma_lock_schedule_ordered(modes: Seq<Mode>)
    requires
        modes.len() <= usize::MAX,
    ensures
        forall|j1: int, j2: int|
            0 <= j1 < j2 < lock_schedule(modes).len() ==> action_var(
                #[trigger] lock_schedule(modes)[j1],
            ) < action_var(#[trigger] lock_schedule(modes)[j2]),
    decreases modes.len(),
{
    if modes.len() > 0 {
        let bl = modes.drop_last();
        let n = modes.len() - 1;
        let l = lock_schedule(modes);
        let bls = lock_schedule(bl);
        let step = lock_step(modes.last(), n as int);
        lemma_lock_schedule_ordered(bl);
        lemma_lock_schedule_vars(bl);
        assert(l == bls + step);
        assert forall|j1: int, j2: int| 0 <= j1 < j2 < l.len() implies action_var(
            #[trigger] l[j1],
        ) < action_var(#[trigger] l[j2]) by {
            if j2 < bls.len() {
                assert(l[j1] == bls[j1]);
                assert(l[j2] == bls[j2]);
            } else {
                assert(l[j1] == bls[j1]);
                assert(l[j2] == step[j2 - bls.len()]);
                assert(action_var(l[j1]) < n as usize);
                assert(action_var(l[j2]) == n as usize);
            }
        }
    }
}

/// The lock schedule holds no duplicate operation.
proof fn lemma_lock_schedule_no_dup(modes: Seq<Mode>)
    ensures
        forall|i: int|
            0 <= i < lock_schedule(modes).len() ==> !((#[trigger] lock_schedule(modes)[i]) is Duplicate),
    decreases modes.len(),
{
    if modes.len() > 0 {
        lemma_lock_schedule_no_dup(modes.drop_last());
    }
}

/// The lock schedule is as long as `locks_asked` counts.
proof fn lemma_lock_schedule_len(modes: Seq<Mode>)
    ensures
        lock_schedule(modes).len() == locks_asked(modes),
    decreases modes.len(),
{
    if modes.len() > 0 {
        lemma_lock_schedule_len(modes.drop_last());
    }
}

/// Law: duplication precedes locking. In the schedule of any variable list
/// the first `n` operations duplicate the `n` variables in declaration
/// order, everything after them is a lock acquisition, and there is one
/// acquisition per variable whose mode asks for a lock — so every lock is
/// taken against an already-made duplicate, never against a cell that is
/// still being duplicated.
pub proof fn lemma_duplicates_before_locks(modes: Seq<Mode>)
    ensures
        schedule(modes).len() == modes.len() + locks_asked(modes),
        forall|i: int|
            0 <= i < modes.len() ==> schedule(modes)[i] == Action::Duplicate(i as usize),
        forall|i: int|
            modes.len() <= i < schedule(modes).len() ==> !((#[trigger] schedule(modes)[i]) is Duplicate),
{
    lemma_lock_schedule_no_dup(modes);
    lemma_lock_schedule_len(modes);
}

/// One established binding of a launch: the duplicate handle, together with
/// whatever guard its mode asked for. The guards release when the binding
/// is dropped, at the end of the task body that carried it.
#[verifier::reject_recursive_types(T)]
pub enum Binding<T> {
    /// A fresh duplicate; no lock held.
    Owned(A<T>),
    /// A duplicate plus a read guard held on it.
    Shared(A<T>, ReadGuard<T>),
    /// A duplicate plus a write guard held on it.
    Exclusive(A<T>, WriteGuard<T>),
}

impl<T> Binding<T> {
    /// The mode this binding was established under.
    pub open spec fn mode(self) -> Mode {
        match self {
            Binding::Owned(_) => Mode::Owned,
            Binding::Shared(_, _) => Mode::Shared,
            Binding::Exclusive(_, _) => Mode::Exclusive,
        }
    }

    /// The duplicate handle bound.
    pub open spec fn cell(self) -> A<T> {
        match self {
            Binding::Owned(c) => c,
            Binding::Shared(c, _) => c,
            Binding::Exclusive(c, _) => c,
        }
    }

    /// The guard this binding holds, where its mode asks for one, is held
    /// on the same lock as the duplicate it was acquired on.
    pub open spec fn guard_on_cell(self) -> bool {
        match self {
            Binding::Owned(_) => true,
            Binding::Shared(c, g) => g.lock() == c.lock(),
            Binding::Exclusive(c, g) => g.lock() == c.lock(),
        }
    }

    /// The duplicate handle bound, as the body of a task reads it.
    pub fn cell_ref(&self) -> (r: &A<T>)
        ensures
            *r == self.cell(),
    {
        match self {
            Binding::Owned(c) => c,
            Binding::Shared(c, _) => c,
            Binding::Exclusive(c, _) => c,
        }
    }
}

/// What a launch must establish for a variable list: one binding per
/// variable, in declaration order, each made under the variable's mode,
/// referring to the same lock as the variable's cell, and holding its
/// guard, where the mode asks for one, on that same lock.
pub open spec fn bindings_match<T>(bs: Seq<Binding<T>>, cells: Seq<A<T>>, modes: Seq<Mode>) -> bool {
    &&& bs.len() == modes.len()
    &&& forall|i: int|
        0 <= i < bs.len() ==> (#[trigger] bs[i]).mode() == modes[i] && bs[i].cell().lock()
            == cells[i].lock() && bs[i].guard_on_cell()
}

/// Establishes the bindings of one launch: first duplicates every cell, in
/// declaration order, then acquires the guards, in declaration order — the
/// schedule that `plan_for` emits. Each binding refers to the same lock as
/// the cell it was made from, so a write through a duplicate is a write
/// through the original.
///
/// Lock acquisition blocks rather than fails. A variable list that names
/// the same underlying cell twice deadlocks here when either occurrence is
/// `Exclusive`; the protocol does not deduplicate, and avoiding such lists
/// is the caller's obligation.
pub fn bind<T>(cells: &Vec<A<T>>, modes: &Vec<Mode>) -> (bs: Vec<Binding<T>>)
    requires
        cells@.len() == modes@.len(),
    ensures
        bindings_match(bs@, cells@, modes@),
{
    let mut dups: Vec<A<T>> = Vec::new();
    let mut i: usize = 0;
    while i < cells.len()
        invariant
            i <= cells@.len(),
            dups@.len() == i,
            forall|j: int| 0 <= j < i ==> (#[trigger] dups@[j]).lock() == cells@[j].lock(),
        decreases cells@.len() - i,
    {
        dups.push(cells[i].clone());
        i += 1;
    }
    let ghost all_dups = dups@;
    let mut bs: Vec<Binding<T>> = Vec::new();
    let mut k: usize = 0;
    while k < modes.len()
        invariant
            k <= modes@.len(),
            cells@.len() == modes@.len(),
            all_dups.len() == modes@.len(),
            forall|j: int| 0 <= j < all_dups.len() ==> (#[trigger] all_dups[j]).lock() == cells@[j].lock(),
            dups@ == all_dups.skip(k as int),
            bs@.len() == k,
            forall|j: int|
                0 <= j < k ==> (#[trigger] bs@[j]).mode() == modes@[j] && bs@[j].cell().lock()
                    == cells@[j].lock() && bs@[j].guard_on_cell(),
        decreases modes@.len() - k,
    {
        let d = dups.remove(0);
        proof {
            assert(d == all_dups[k as int]);
            assert(all_dups.skip(k as int).remove(0) =~= all_dups.skip(k as int + 1));
        }
        let b = match modes[k] {
            Mode::Owned => Binding::Owned(d),
            Mode::Shared => {
                let g = d.read();
                Binding::Shared(d, g)
            },
            Mode::Exclusive => {
                let g = d.write();
                Binding::Exclusive(d, g)
            },
        };
        bs.push(b);
        k += 1;
    }
    bs
}

/// A launch with the caller itself as the scheduler: establishes the
/// bindings with `bind`, hands them to `body`, and runs it to completion;
/// every guard among the bindings stays held for the body's whole run and
/// releases when the body finishes, on every exit path.
pub fn run_bound<T, R, F: FnOnce(Vec<Binding<T>>) -> R>(
    cells: &Vec<A<T>>,
    modes: &Vec<Mode>,
    body: F,
) -> (r: R)
    requires
        cells@.len() == modes@.len(),
        forall|bs: Vec<Binding<T>>|
            bindings_match(bs@, cells@, modes@) ==> #[trigger] call_requires(body, (bs,)),
    ensures
        exists|bs: Vec<Binding<T>>|
            bindings_match(bs@, cells@, modes@) && #[trigger] call_ensures(body, (bs,), r),
{
    let bs = bind(cells, modes);
    body(bs)
}

/// Law: a launch with no variables binds nothing. The only binding list
/// that matches the empty variable list is the empty one, and its schedule
/// is empty, so the body runs exactly as if it had been submitted to the
/// scheduler directly.
pub proof fn lemma_empty_launch<T>(bs: Seq<Binding<T>>, cells: Seq<A<T>>)
    requires
        cells.len() == 0,
    ensures
        bindings_match(bs, cells, Seq::<Mode>::empty()) <==> bs =~= Seq::<Binding<T>>::empty(),
        schedule(Seq::<Mode>::empty()) =~= Seq::<Action>::empty(),
{
}

} // verus!


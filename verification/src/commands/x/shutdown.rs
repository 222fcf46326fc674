//! The walk that ends the children of a pattern once its output has ended:
//! which child is asked next whether it still runs, when the children get
//! time to end by themselves, and which of them are ended by force.

use vstd::prelude::*;

verus! {

/// The time given to the children to end by themselves, in milliseconds.
pub const GRACE_MILLIS: u64 = 100;

/// What is known of a child.
#[derive(Clone, Copy, Debug, PartialEq, Eq, Structural)]
pub enum ChildState {
    /// Nothing: it was not asked yet.
    Unpolled,
    /// It still ran when it was asked first.
    Running,
    /// It has ended by itself, well or not.
    Ended,
    /// It still ran after the time it was given and was ended by force.
    Killed,
}

/// What is to be done next to end the children.
#[derive(Clone, Copy, Debug, PartialEq, Eq, Structural)]
pub enum ShutdownStep {
    /// Ask the child with the given number, without waiting for it,
    /// whether it has ended, and hand the answer to the next step.
    Poll(usize),
    /// Wait for the given number of milliseconds.
    Sleep(u64),
    /// End the child with the given number by force.
    Kill(usize),
    /// Nothing: every child has ended or was ended by force.
    Done,
}

/// What a child said when it was asked: whether it has ended, or nothing
/// where asking failed.
pub type Polled = Option<Result<bool, ()>>;

/// Tells whether a child is ended by force: where it is still running
/// after the time it was given.
pub fn must_kill(finished: bool) -> (kill: bool)
    ensures
        kill == !finished,
{
    !finished
}

/// What is known of a child after the answer to a poll. Only the child
/// that was asked changes. A child that still runs is ended by force once
/// the time to end was given, and is noted as running before. Any other
/// answer, a failure too, tells that the child has ended.
pub open spec fn after_answer(
    state: ChildState,
    asked: bool,
    slept: bool,
    polled: Polled,
) -> ChildState {
    if !asked {
        state
    } else if polled == Some(Ok::<bool, ()>(false)) {
        if slept {
            ChildState::Killed
        } else {
            ChildState::Running
        }
    } else {
        ChildState::Ended
    }
}

/// What is known of the children after the answer to a poll.
pub open spec fn answered(
    states: Seq<ChildState>,
    awaited: Option<int>,
    slept: bool,
    polled: Polled,
) -> Seq<ChildState> {
    Seq::new(states.len(), |i: int| after_answer(states[i], awaited == Some(i), slept, polled))
}

/// Number of the first child at or after `i` in the given state, or the
/// number of children where there is none.
pub open spec fn first_in(states: Seq<ChildState>, wanted: ChildState, i: int) -> int
    decreases states.len() - i,
{
    if 0 <= i < states.len() && states[i] != wanted {
        first_in(states, wanted, i + 1)
    } else {
        i
    }
}

/// The step that follows, from what is known of the children, the child
/// that was just found running after the time to end, if any, and whether
/// that time was given. A child found running then is ended by force at
/// once. Else the first child not asked yet is asked. When all were asked
/// and one still ran, the time to end is given once, and then each child
/// that still ran is asked again, in order. When none is left, the walk
/// is done.
pub open spec fn next_step(states: Seq<ChildState>, overdue: Option<int>, slept: bool) -> ShutdownStep {
    if let Some(child) = overdue {
        ShutdownStep::Kill(child as usize)
    } else if first_in(states, ChildState::Unpolled, 0) < states.len() {
        ShutdownStep::Poll(first_in(states, ChildState::Unpolled, 0) as usize)
    } else if first_in(states, ChildState::Running, 0) < states.len() {
        if slept {
            ShutdownStep::Poll(first_in(states, ChildState::Running, 0) as usize)
        } else {
            ShutdownStep::Sleep(GRACE_MILLIS)
        }
    } else {
        ShutdownStep::Done
    }
}

/// The search for a state ends inside the children, at a child in that
/// state if before the end, and passes no child in that state.
pub proof fn lemma_first_in(states: Seq<ChildState>, wanted: ChildState, i: int)
    requires
        0 <= i <= states.len(),
    ensures
        i <= first_in(states, wanted, i) <= states.len(),
        first_in(states, wanted, i) < states.len() ==> states[first_in(states, wanted, i)]
            == wanted,
        forall|k: int| i <= k < first_in(states, wanted, i) ==> states[k] != wanted,
    decreases states.len() - i,
{
    if i < states.len() && states[i] != wanted {
        lemma_first_in(states, wanted, i + 1);
    }
}

/// The walk through the children.
pub struct Shutdown {
    states: Vec<ChildState>,
    slept: bool,
    awaiting: Option<usize>,
    polls: Ghost<Seq<nat>>,
    kills: Ghost<Seq<nat>>,
}

impl Shutdown {
    /// What is known of each child.
    pub closed spec fn states(&self) -> Seq<ChildState> {
        self.states@
    }

    /// Number of children.
    pub open spec fn children(&self) -> nat {
        self.states().len()
    }

    /// True once the time to end was given.
    pub closed spec fn slept(&self) -> bool {
        self.slept
    }

    /// The child whose answer the next step takes, if one was asked.
    pub closed spec fn awaited(&self) -> Option<int> {
        match self.awaiting {
            Some(child) => Some(child as int),
            None => None,
        }
    }

    /// Number of times that the child with the given number was asked.
    pub closed spec fn polls(&self, child: int) -> nat {
        self.polls@[child]
    }

    /// Number of times that the child with the given number was ended by
    /// force.
    pub closed spec fn kills(&self, child: int) -> nat {
        self.kills@[child]
    }

    /// Number of times that the time to end was given.
    pub open spec fn sleeps(&self) -> nat {
        if self.slept() {
            1
        } else {
            0
        }
    }

    /// The counts agree with what is known of the children.
    pub closed spec fn wf(&self) -> bool {
        &&& self.polls@.len() == self.states.len()
        &&& self.kills@.len() == self.states.len()
        &&& self.awaiting matches Some(child) ==> child < self.states.len() && (self.states[child as int]
            == ChildState::Unpolled || self.states[child as int] == ChildState::Running && self.slept)
        &&& forall|i: int|
            0 <= i < self.states.len() ==> match #[trigger] self.states[i] {
                ChildState::Unpolled => !self.slept && self.kills@[i] == 0 && self.polls@[i] == (
                if self.awaited() == Some(i) {
                    1nat
                } else {
                    0nat
                }),
                ChildState::Running => self.kills@[i] == 0 && self.polls@[i] == (if self.slept
                    && self.awaited() == Some(i) {
                    2nat
                } else {
                    1nat
                }),
                ChildState::Ended => self.kills@[i] == 0 && 1 <= self.polls@[i] <= 2 && (
                self.polls@[i] == 2 ==> self.slept),
                ChildState::Killed => self.kills@[i] == 1 && self.polls@[i] == 2 && self.slept,
            }
    }

    /// No child was asked more than twice or ended by force more than
    /// once; a child was ended by force only after it was asked twice;
    /// the time to end was given only after every child was asked.
    pub open spec fn bounded(&self) -> bool {
        forall|i: int|
            0 <= i < self.children() ==> {
                &&& #[trigger] self.polls(i) <= 2
                &&& self.kills(i) <= 1
                &&& self.kills(i) == 1 <==> self.states()[i] == ChildState::Killed
                &&& self.kills(i) == 1 ==> self.polls(i) == 2
                &&& self.polls(i) == 2 ==> self.slept()
                &&& self.slept() ==> self.polls(i) >= 1
            }
    }

    /// The walk through the given number of children, none of which was
    /// asked yet.
    pub fn new(children: usize) -> (shutdown: Shutdown)
        ensures
            shutdown.wf(),
            shutdown.bounded(),
            shutdown.children() == children,
            !shutdown.slept(),
            shutdown.awaited() is None,
            forall|i: int|
                0 <= i < children ==> #[trigger] shutdown.states()[i] == ChildState::Unpolled,
            forall|i: int| 0 <= i < children ==> #[trigger] shutdown.polls(i) == 0,
            forall|i: int| 0 <= i < children ==> #[trigger] shutdown.kills(i) == 0,
    {
        let mut states: Vec<ChildState> = Vec::new();
        let mut i: usize = 0;
        while i < children
            invariant
                i <= children,
                states.len() == i,
                forall|k: int| 0 <= k < i ==> states[k] == ChildState::Unpolled,
            decreases children - i,
        {
            states.push(ChildState::Unpolled);
            i += 1;
        }
        Shutdown {
            states,
            slept: false,
            awaiting: None,
            polls: Ghost(Seq::new(children as nat, |i: int| 0nat)),
            kills: Ghost(Seq::new(children as nat, |i: int| 0nat)),
        }
    }

    /// Number of the first child in the given state, or the number of
    /// children where there is none.
    fn find(&self, wanted: ChildState) -> (child: usize)
        ensures
            child == first_in(self.states(), wanted, 0),
            child <= self.states().len(),
            child < self.states().len() ==> self.states()[child as int] == wanted,
    {
        proof {
            lemma_first_in(self.states@, wanted, 0);
        }
        let mut child: usize = 0;
        while child < self.states.len() && self.states[child] != wanted
            invariant
                child <= self.states.len(),
                first_in(self.states@, wanted, 0) == first_in(self.states@, wanted, child as int),
            decreases self.states.len() - child,
        {
            child = child + 1;
        }
        child
    }

    /// Takes the answer to the poll of the step before, if that was a poll,
    /// and gives the step that follows. An answer that is missing counts as
    /// a failure; an answer that was not asked for is left aside. A poll
    /// that fails does not end the walk: its child counts as ended.
    pub fn step(&mut self, polled: Polled) -> (next: ShutdownStep)
        requires
            old(self).wf(),
        ensures
            final(self).wf(),
            final(self).bounded(),
            final(self).states() == answered(
                old(self).states(),
                old(self).awaited(),
                old(self).slept(),
                polled,
            ),
            next == next_step(
                final(self).states(),
                if old(self).slept() && polled == Some(Ok::<bool, ()>(false)) {
                    old(self).awaited()
                } else {
                    None
                },
                old(self).slept(),
            ),
            final(self).slept() == (old(self).slept() || next is Sleep),
            final(self).sleeps() == old(self).sleeps() + (if next is Sleep {
                1nat
            } else {
                0nat
            }),
            final(self).sleeps() <= 1,
            final(self).awaited() == (match next {
                ShutdownStep::Poll(child) => Some(child as int),
                _ => None,
            }),
            forall|i: int|
                0 <= i < old(self).children() ==> #[trigger] final(self).polls(i) == old(
                    self,
                ).polls(i) + (if next == ShutdownStep::Poll(i as usize) {
                    1nat
                } else {
                    0nat
                }),
            forall|i: int|
                0 <= i < old(self).children() ==> #[trigger] final(self).kills(i) == old(
                    self,
                ).kills(i) + (if next == ShutdownStep::Kill(i as usize) {
                    1nat
                } else {
                    0nat
                }),
            next matches ShutdownStep::Poll(child) ==> child < old(self).children(),
            next matches ShutdownStep::Kill(child) ==> child < old(self).children() && old(
                self,
            ).polls(child as int) == 2,
            next is Sleep ==> !old(self).slept(),
            next is Done ==> forall|i: int|
                0 <= i < old(self).children() ==> #[trigger] final(self).states()[i]
                    == ChildState::Ended || final(self).states()[i] == ChildState::Killed,
    {
        let ghost before = self.states@;
        let mut overdue: Option<usize> = None;
        if let Some(child) = self.awaiting {
            let finished = match polled {
                Some(Ok(finished)) => finished,
                _ => true,
            };
            if must_kill(finished) {
                if self.slept {
                    self.states.set(child, ChildState::Killed);
                    overdue = Some(child);
                } else {
                    self.states.set(child, ChildState::Running);
                }
            } else {
                self.states.set(child, ChildState::Ended);
            }
            self.awaiting = None;
        }
        proof {
            assert(self.states@ =~= answered(before, old(self).awaited(), self.slept, polled));
        }
        if let Some(child) = overdue {
            proof {
                self.kills@ = self.kills@.update(child as int, 1nat);
            }
            return ShutdownStep::Kill(child);
        }
        let unpolled = self.find(ChildState::Unpolled);
        if unpolled < self.states.len() {
            self.awaiting = Some(unpolled);
            proof {
                self.polls@ = self.polls@.update(unpolled as int, self.polls@[unpolled as int] + 1);
            }
            return ShutdownStep::Poll(unpolled);
        }
        let running = self.find(ChildState::Running);
        if running < self.states.len() {
            if self.slept {
                self.awaiting = Some(running);
                proof {
                    self.polls@ = self.polls@.update(running as int, self.polls@[running as int] + 1);
                }
                return ShutdownStep::Poll(running);
            }
            proof {
                lemma_first_in(self.states@, ChildState::Unpolled, 0);
            }
            self.slept = true;
            return ShutdownStep::Sleep(GRACE_MILLIS);
        }
        proof {
            lemma_first_in(self.states@, ChildState::Unpolled, 0);
            lemma_first_in(self.states@, ChildState::Running, 0);
        }
        ShutdownStep::Done
    }
}

} // verus!

//! The worker manager of a node, and what it was asked.
//!
//! The node's worker manager is handed in as two functions. They are reached through
//! [`WorkerManager`] alone, which keeps a record of every request and its reply: contracts can then
//! say what the manager is asked, in which order and how often. [`WorkerManager::run`] and
//! [`WorkerManager::connected`] make one call each; that they make no more is not in their contracts,
//! since a function's contract cannot count calls.

use vstd::prelude::*;

use crate::worker_pool::{CommandView, PoolCommand};

verus! {

/// A request to the manager, with its reply.
pub enum Asked<E> {
    /// To carry out a command.
    Ran { command: CommandView, reply: Result<(), E> },
    /// For the cores that it has a worker on.
    Connected { reply: Result<Seq<u32>, E> },
}

/// What the logic sees of a reply that lists cores.
pub open spec fn listed<E>(reply: Result<Vec<u32>, E>) -> Result<Seq<u32>, E> {
    match reply {
        Ok(cores) => Ok(cores@),
        Err(error) => Err(error),
    }
}

/// The functions may give the reply that the record holds.
pub open spec fn may_answer<
    E,
    F: Fn(&PoolCommand) -> Result<(), E>,
    G: Fn() -> Result<Vec<u32>, E>,
>(run: F, check_connected: G, asked: Asked<E>) -> bool {
    match asked {
        Asked::Ran { command, reply } => exists|given: &PoolCommand| #[trigger]
            call_ensures(run, (given,), reply) && given@ == command,
        Asked::Connected { reply } => exists|given: Result<Vec<u32>, E>| #[trigger]
            call_ensures(check_connected, (), given) && listed(given) == reply,
    }
}

/// A worker manager.
#[verifier::reject_recursive_types(E)]
pub struct WorkerManager<
    E,
    F: Fn(&PoolCommand) -> Result<(), E>,
    G: Fn() -> Result<Vec<u32>, E>,
> {
    run: F,
    check_connected: G,
    asked: Ghost<Seq<Asked<E>>>,
}

impl<E, F: Fn(&PoolCommand) -> Result<(), E>, G: Fn() -> Result<Vec<u32>, E>> WorkerManager<
    E,
    F,
    G,
> {
    /// The functions can be called at any time.
    #[verifier::type_invariant]
    closed spec fn wf(self) -> bool {
        &&& forall|command: &PoolCommand| call_requires(self.run, (command,))
        &&& call_requires(self.check_connected, ())
    }

    /// Every request so far, in order.
    pub closed spec fn asked(self) -> Seq<Asked<E>> {
        self.asked@
    }

    /// The function that carries out a command.
    pub closed spec fn runner(self) -> F {
        self.run
    }

    /// The function that lists the cores with a worker.
    pub closed spec fn reporter(self) -> G {
        self.check_connected
    }

    /// `after` is this manager once it was asked what `log` says, and nothing else.
    pub open spec fn went_on(self, after: Self, log: Seq<Asked<E>>) -> bool {
        &&& after.runner() == self.runner()
        &&& after.reporter() == self.reporter()
        &&& after.asked() == self.asked() + log
        &&& forall|i: int|
            0 <= i < log.len() ==> may_answer(self.runner(), self.reporter(), #[trigger] log[i])
    }

    /// A manager that was not asked anything yet.
    ///
    /// - `run`: carries out a command.
    /// - `check_connected`: lists the cores that have a worker.
    pub fn new(run: F, check_connected: G) -> (r: Self)
        requires
            forall|command: &PoolCommand| call_requires(run, (command,)),
            call_requires(check_connected, ()),
        ensures
            r.runner() == run,
            r.reporter() == check_connected,
            r.asked() == Seq::<Asked<E>>::empty(),
    {
        WorkerManager { run, check_connected, asked: Ghost(Seq::empty()) }
    }

    /// Has the manager carry out a command.
    pub fn run(&mut self, command: &PoolCommand) -> (r: Result<(), E>)
        ensures
            old(self).went_on(*final(self), seq![Asked::Ran { command: command@, reply: r }]),
    {
        proof {
            use_type_invariant(&*self);
        }
        let r = (self.run)(command);
        let ghost entry = Asked::Ran { command: command@, reply: r };
        proof {
            match r {
                Ok(unit) => {
                    assert(unit == ());
                },
                Err(_) => {},
            }
            assert(may_answer(self.run, self.check_connected, entry));
            assert(self.asked@.push(entry) =~= self.asked@ + seq![entry]);
        }
        self.asked = Ghost(self.asked@.push(entry));
        r
    }

    /// Asks the manager for the cores that have a worker.
    pub fn connected(&mut self) -> (r: Result<Vec<u32>, E>)
        ensures
            old(self).went_on(*final(self), seq![Asked::Connected { reply: listed(r) }]),
    {
        proof {
            use_type_invariant(&*self);
        }
        let r = (self.check_connected)();
        let ghost entry = Asked::Connected { reply: listed(r) };
        proof {
            assert(may_answer(self.run, self.check_connected, entry));
            assert(self.asked@.push(entry) =~= self.asked@ + seq![entry]);
        }
        self.asked = Ghost(self.asked@.push(entry));
        r
    }
}

/// What a manager was asked in two stretches it was asked in one.
pub proof fn lemma_went_on_joins<
    E,
    F: Fn(&PoolCommand) -> Result<(), E>,
    G: Fn() -> Result<Vec<u32>, E>,
>(
    before: WorkerManager<E, F, G>,
    between: WorkerManager<E, F, G>,
    after: WorkerManager<E, F, G>,
    first: Seq<Asked<E>>,
    second: Seq<Asked<E>>,
)
    requires
        before.went_on(between, first),
        between.went_on(after, second),
    ensures
        before.went_on(after, first + second),
{
    let log = first + second;
    assert(before.asked() + first + second =~= before.asked() + log);
    assert forall|i: int| 0 <= i < log.len() implies may_answer(
        before.runner(),
        before.reporter(),
        #[trigger] log[i],
    ) by {
        if i < first.len() {
            assert(log[i] == first[i]);
        } else {
            assert(log[i] == second[i - first.len()]);
        }
    }
}

/// A manager that went on was asked, after all that it was asked before, exactly what the record of the
/// stretch holds, in that order; it is still the same manager, and it gave the replies that are
/// recorded.
pub proof fn law_the_record_grows_by_what_is_asked<
    E,
    F: Fn(&PoolCommand) -> Result<(), E>,
    G: Fn() -> Result<Vec<u32>, E>,
>(before: WorkerManager<E, F, G>, after: WorkerManager<E, F, G>, log: Seq<Asked<E>>)
    requires
        before.went_on(after, log),
    ensures
        after.runner() == before.runner(),
        after.reporter() == before.reporter(),
        after.asked().len() == before.asked().len() + log.len(),
        forall|i: int|
            0 <= i < before.asked().len() ==> #[trigger] after.asked()[i] == before.asked()[i],
        forall|i: int|
            0 <= i < log.len() ==> after.asked()[before.asked().len() + i] == #[trigger] log[i],
        forall|i: int|
            0 <= i < log.len() ==> match #[trigger] log[i] {
                Asked::Ran { command, reply } => exists|given: &PoolCommand| #[trigger]
                    call_ensures(before.runner(), (given,), reply) && given@ == command,
                Asked::Connected { reply: Ok(cores) } => exists|given: Vec<u32>|
                    #![trigger call_ensures(before.reporter(), (), Ok::<Vec<u32>, E>(given))]
                    call_ensures(before.reporter(), (), Ok::<Vec<u32>, E>(given)) && given@
                        == cores,
                Asked::Connected { reply: Err(error) } => call_ensures(
                    before.reporter(),
                    (),
                    Err::<Vec<u32>, E>(error),
                ),
            },
{
    assert forall|i: int| 0 <= i < log.len() implies match #[trigger] log[i] {
        Asked::Ran { command, reply } => exists|given: &PoolCommand| #[trigger]
            call_ensures(before.runner(), (given,), reply) && given@ == command,
        Asked::Connected { reply: Ok(cores) } => exists|given: Vec<u32>|
            #![trigger call_ensures(before.reporter(), (), Ok::<Vec<u32>, E>(given))]
            call_ensures(before.reporter(), (), Ok::<Vec<u32>, E>(given)) && given@ == cores,
        Asked::Connected { reply: Err(error) } => call_ensures(
            before.reporter(),
            (),
            Err::<Vec<u32>, E>(error),
        ),
    } by {
        assert(may_answer(before.runner(), before.reporter(), log[i]));
        if let Asked::Connected { reply } = log[i] {
            let given = choose|given: Result<Vec<u32>, E>| #[trigger]
                call_ensures(before.reporter(), (), given) && listed(given) == reply;
            match given {
                Ok(cores) => {
                    assert(call_ensures(before.reporter(), (), Ok::<Vec<u32>, E>(cores)));
                },
                Err(error) => {
                    assert(call_ensures(before.reporter(), (), Err::<Vec<u32>, E>(error)));
                },
            }
        }
    }
}

} // verus!

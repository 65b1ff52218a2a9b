//! The producer runtime: the swappable background execution context on
//! which producers schedule their long-running work.
//!
//! The worker thread and its executor live outside this crate; the core
//! tracks each context as a numbered generation.  Exactly one handle is
//! current at a time; a restart retires the old generation (all work
//! scheduled on it is abandoned once its shutdown is acknowledged) and then
//! replays every registered producer against the new one.

use vstd::prelude::*;

use crate::registry::ModuleView;

verus! {

/// Handle to the one current producer runtime, identified by generation.
/// The execution-context handle and the shutdown signal sender that
/// accompany it live with the host, outside this crate.
pub struct ProducerRuntimeHandle {
    pub generation: u64,
}

/// One piece of producer work scheduled on the producer runtime: which
/// producer it came from and on which runtime generation it runs.
#[derive(Clone, Copy, PartialEq, Eq, Debug)]
pub struct ProducerTask {
    pub producer: u64,
    pub generation: u64,
}

/// Mathematical view of a [`ProducerTask`]; the record is plain data, so
/// the view is the record itself.
impl ProducerTask {
    /// All tasks of one module's producers, in registration order, each
    /// scheduled on `generation`.
    pub open spec fn tasks_of(m: ModuleView, generation: u64) -> Seq<ProducerTask> {
        m.producers.map_values(|p: u64| ProducerTask { producer: p, generation })
    }
}

/// The tasks a replay schedules: for every module in registry order, for
/// every producer in registration order, one task on `generation`.
pub open spec fn replay_tasks(modules: Seq<ModuleView>, generation: u64) -> Seq<ProducerTask>
    decreases modules.len(),
{
    if modules.len() == 0 {
        Seq::empty()
    } else {
        ProducerTask::tasks_of(modules[0], generation) + replay_tasks(
            modules.drop_first(),
            generation,
        )
    }
}

/// A replay over one more module at the end schedules that module's tasks
/// after all the others.
pub proof fn lemma_replay_tasks_push(modules: Seq<ModuleView>, m: ModuleView, generation: u64)
    ensures
        replay_tasks(modules.push(m), generation) == replay_tasks(modules, generation)
            + ProducerTask::tasks_of(m, generation),
    decreases modules.len(),
{
    if modules.len() == 0 {
        assert(modules.push(m)[0] == m);
        assert(modules.push(m).drop_first() =~= Seq::<ModuleView>::empty());
        assert(replay_tasks(Seq::<ModuleView>::empty(), generation) == Seq::<
            ProducerTask,
        >::empty());
        assert(replay_tasks(modules.push(m), generation) =~= replay_tasks(modules, generation)
            + ProducerTask::tasks_of(m, generation));
    } else {
        assert(modules.push(m)[0] == modules[0]);
        assert(modules.push(m).drop_first() =~= modules.drop_first().push(m));
        lemma_replay_tasks_push(modules.drop_first(), m, generation);
        assert(replay_tasks(modules.push(m), generation) =~= replay_tasks(modules, generation)
            + ProducerTask::tasks_of(m, generation));
    }
}

/// Every task a replay schedules runs on the generation replayed onto:
/// none is left for a retired runtime.
pub proof fn lemma_replay_tasks_generation(modules: Seq<ModuleView>, generation: u64)
    ensures
        forall|i: int|
            0 <= i < replay_tasks(modules, generation).len() ==> replay_tasks(
                modules,
                generation,
            )[i].generation == generation,
    decreases modules.len(),
{
    if modules.len() > 0 {
        lemma_replay_tasks_generation(modules.drop_first(), generation);
        let head = ProducerTask::tasks_of(modules[0], generation);
        let tail = replay_tasks(modules.drop_first(), generation);
        assert(replay_tasks(modules, generation) == head + tail);
        assert forall|i: int|
            0 <= i < replay_tasks(modules, generation).len() implies replay_tasks(
            modules,
            generation,
        )[i].generation == generation by {
            if i < head.len() {
                assert((head + tail)[i] == head[i]);
                assert(head[i].generation == generation);
            } else {
                assert((head + tail)[i] == tail[i - head.len()]);
            }
        }
    }
}

} // verus!

//! Where background work runs: on the caller's own execution context, or on
//! a fallback context that is built once, on first need, from the thread
//! counts that the latest plugin start recorded.
//!
//! The [`Dispatcher`] holds what the process shares between plugin starts.
//! It decides; building a context and submitting the work is the caller's
//! part.
//!
//! Recording the thread counts and dispatching the work are two steps. A
//! start takes one after the other, but nothing ties them together: between
//! the two steps of one start another start may record counts of its own.
//! The fallback context is sized by whatever was recorded last when the
//! first work needs it, and is never built or sized again.

use crate::config::{DEFAULT_MAX_BLOCK_THREAD_NUM, DEFAULT_WORK_THREAD_NUM};
use vstd::prelude::*;

verus! {

/// The size of a thread pool.
#[derive(Clone, Copy, Debug, PartialEq, Eq, Structural)]
pub struct PoolSize {
    /// Worker threads.
    pub work_thread_num: usize,
    /// Upper bound on blocking threads.
    pub max_block_thread_num: usize,
}

/// Where a unit of work is to be submitted.
#[derive(Clone, Copy, Debug, PartialEq, Eq, Structural)]
pub enum Dispatch {
    /// On the execution context of the calling thread.
    Ambient,
    /// On the fallback context, whose size is `size`. With `build` set the
    /// context does not exist yet and is to be built first.
    Fallback { size: PoolSize, build: bool },
}

/// Something that happens to the shared state.
#[derive(Clone, Copy, Debug, PartialEq, Eq, Structural)]
pub enum Event {
    /// A plugin start records its thread counts.
    Record(PoolSize),
    /// A unit of work is dispatched; `ambient` says whether the calling
    /// thread has an execution context of its own.
    Dispatch { ambient: bool },
}

/// The state that the process shares between plugin starts.
#[derive(Debug)]
pub struct Dispatcher {
    recorded: PoolSize,
    fallback: Option<PoolSize>,
}

/// The mathematical content of a [`Dispatcher`].
pub ghost struct DispatcherModel {
    /// The thread counts that the latest start recorded.
    pub recorded: PoolSize,
    /// The size of the fallback context, once it is built.
    pub fallback: Option<PoolSize>,
}

impl View for Dispatcher {
    type V = DispatcherModel;

    closed spec fn view(&self) -> DispatcherModel {
        DispatcherModel { recorded: self.recorded, fallback: self.fallback }
    }
}

/// The thread counts before any start has recorded its own.
pub open spec fn default_size() -> PoolSize {
    PoolSize {
        work_thread_num: DEFAULT_WORK_THREAD_NUM,
        max_block_thread_num: DEFAULT_MAX_BLOCK_THREAD_NUM,
    }
}

impl DispatcherModel {
    /// The state of a fresh process.
    pub open spec fn initial() -> DispatcherModel {
        DispatcherModel { recorded: default_size(), fallback: None }
    }

    /// The state after `event`. Recording replaces the recorded counts and
    /// leaves the fallback context alone. A dispatch without an ambient
    /// context builds the fallback context from the recorded counts if it
    /// does not exist yet; any other dispatch changes nothing.
    pub open spec fn step(self, event: Event) -> DispatcherModel {
        match event {
            Event::Record(size) => DispatcherModel { recorded: size, ..self },
            Event::Dispatch { ambient } => if !ambient && self.fallback is None {
                DispatcherModel { fallback: Some(self.recorded), ..self }
            } else {
                self
            },
        }
    }

    /// Where a dispatch in this state sends the work.
    pub open spec fn target(self, ambient: bool) -> Dispatch {
        if ambient {
            Dispatch::Ambient
        } else {
            match self.fallback {
                Some(size) => Dispatch::Fallback { size, build: false },
                None => Dispatch::Fallback { size: self.recorded, build: true },
            }
        }
    }

    /// Whether `event`, in this state, builds the fallback context.
    pub open spec fn builds(self, event: Event) -> bool {
        event matches Event::Dispatch { ambient } && !ambient && self.fallback is None
    }

    /// The state after all of `events`, in order.
    pub open spec fn run(self, events: Seq<Event>) -> DispatcherModel
        decreases events.len(),
    {
        if events.len() == 0 {
            self
        } else {
            self.run(events.drop_last()).step(events.last())
        }
    }

    /// How many times the fallback context is built in the course of
    /// `events`.
    pub open spec fn build_count(self, events: Seq<Event>) -> nat
        decreases events.len(),
    {
        if events.len() == 0 {
            0
        } else {
            let before = self.build_count(events.drop_last());
            if self.run(events.drop_last()).builds(events.last()) {
                before + 1
            } else {
                before
            }
        }
    }
}

impl Dispatcher {
    /// The state of a fresh process: the default thread counts, and no
    /// fallback context.
    pub fn new() -> (r: Dispatcher)
        ensures
            r@ == DispatcherModel::initial(),
    {
        Dispatcher {
            recorded: PoolSize {
                work_thread_num: DEFAULT_WORK_THREAD_NUM,
                max_block_thread_num: DEFAULT_MAX_BLOCK_THREAD_NUM,
            },
            fallback: None,
        }
    }

    /// The thread counts that the latest start recorded.
    pub fn recorded(&self) -> (r: PoolSize)
        ensures
            r == self@.recorded,
    {
        self.recorded
    }

    /// The size of the fallback context, once it is built.
    pub fn fallback(&self) -> (r: Option<PoolSize>)
        ensures
            r == self@.fallback,
    {
        self.fallback
    }

    /// Records the thread counts of a plugin start. A fallback context that
    /// exists keeps its size.
    pub fn record(&mut self, size: PoolSize)
        ensures
            final(self)@ == old(self)@.step(Event::Record(size)),
    {
        self.recorded = size;
    }

    /// Decides where a unit of work runs. With an ambient context, there.
    /// Without one, on the fallback context, which is built on the first
    /// such call from the counts recorded by then and never again.
    pub fn dispatch(&mut self, ambient: bool) -> (r: Dispatch)
        ensures
            r == old(self)@.target(ambient),
            final(self)@ == old(self)@.step(Event::Dispatch { ambient }),
    {
        if ambient {
            Dispatch::Ambient
        } else {
            match self.fallback {
                Some(size) => Dispatch::Fallback { size, build: false },
                None => {
                    let size = self.recorded;
                    self.fallback = Some(size);
                    Dispatch::Fallback { size, build: true }
                },
            }
        }
    }
}

/// Once the fallback context is built its size is fixed: no later start and
/// no later dispatch changes it.
pub proof fn lemma_fallback_frozen(state: DispatcherModel, events: Seq<Event>)
    requires
        state.fallback is Some,
    ensures
        state.run(events).fallback == state.fallback,
    decreases events.len(),
{
    if events.len() > 0 {
        lemma_fallback_frozen(state, events.drop_last());
    }
}

/// Whatever happens, in whatever order, the fallback context is built at
/// most once; and not at all where it exists already. Two starts with
/// different thread counts never give two fallback contexts.
pub proof fn lemma_built_at_most_once(state: DispatcherModel, events: Seq<Event>)
    ensures
        state.build_count(events) <= 1,
        state.fallback is Some ==> state.build_count(events) == 0,
        state.build_count(events) == 1 ==> state.run(events).fallback is Some,
        state.fallback is None && state.build_count(events) == 0 ==> state.run(events).fallback
            is None,
    decreases events.len(),
{
    if events.len() > 0 {
        lemma_built_at_most_once(state, events.drop_last());
        if state.fallback is Some {
            lemma_fallback_frozen(state, events.drop_last());
        }
    }
}

/// None of `events` is a dispatch without an ambient context.
pub open spec fn no_fallback_use(events: Seq<Event>) -> bool {
    forall|i: int|
        0 <= i < events.len() ==> !(#[trigger] events[i] matches Event::Dispatch { ambient }
            && !ambient)
}

/// The last start before the first use wins: while no work has needed the
/// fallback context, starts only replace the recorded counts, and the first
/// dispatch without an ambient context builds the fallback context from the
/// counts recorded last, whatever was recorded before.
pub proof fn lemma_last_record_wins(state: DispatcherModel, before: Seq<Event>, size: PoolSize)
    requires
        state.fallback is None,
        no_fallback_use(before),
    ensures
        state.run(before).fallback is None,
        state.run(before.push(Event::Record(size))).target(false) == (Dispatch::Fallback {
            size,
            build: true,
        }),
        state.run(
            before.push(Event::Record(size)).push(Event::Dispatch { ambient: false }),
        ).fallback == Some(size),
    decreases before.len(),
{
    if before.len() > 0 {
        let earlier = before.drop_last();
        assert(no_fallback_use(earlier)) by {
            assert forall|i: int| 0 <= i < earlier.len() implies !(#[trigger] earlier[i] matches Event::Dispatch {
                ambient,
            } && !ambient) by {
                assert(earlier[i] == before[i]);
            }
        }
        lemma_last_record_wins(state, earlier, size);
        assert(before[before.len() - 1] == before.last());
    }
    let recorded = before.push(Event::Record(size));
    assert(recorded.drop_last() =~= before);
    let used = recorded.push(Event::Dispatch { ambient: false });
    assert(used.drop_last() =~= recorded);
}

/// Of two starts without an ambient context, one after the other, the first
/// builds the fallback context from its own thread counts, and the second
/// runs on that context as it is, whatever counts it recorded itself.
pub proof fn lemma_second_start_reuses(state: DispatcherModel, first: PoolSize, second: PoolSize)
    requires
        state.fallback is None,
    ensures
        state.step(Event::Record(first)).target(false) == (Dispatch::Fallback {
            size: first,
            build: true,
        }),
        state.step(Event::Record(first)).step(Event::Dispatch { ambient: false }).step(
            Event::Record(second),
        ).target(false) == (Dispatch::Fallback { size: first, build: false }),
        state.step(Event::Record(first)).step(Event::Dispatch { ambient: false }).step(
            Event::Record(second),
        ).step(Event::Dispatch { ambient: false }).fallback == Some(first),
{
}

} // verus!

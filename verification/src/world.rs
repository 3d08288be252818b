//! World state and the minimal scheduler: a registry of units of work keyed
//! by a stable token (at most one record per token), per-frame stage queues,
//! a token-keyed resource registry with a detectable double-insert error,
//! and the frame driver that holds every unit to the stage protocol.

use vstd::prelude::*;
use crate::system;
use crate::system::Stage;
use crate::system::SystemResult;
use crate::system::UnitReturn;

verus! {

/// The per-frame stage a unit of work can be scheduled into.
#[derive(Clone, Copy, PartialEq, Eq, Structural, Debug)]
pub enum Schedule {
    Startup,
    Update,
    Render,
    Scripting,
    Teardown,
}

/// Everything that can go wrong while registering or driving units of work
/// and resources. Each variant naming a unit carries that unit's display
/// name, so the failing unit is diagnosable.
#[derive(Clone, Copy, PartialEq, Eq, Debug)]
pub enum WorldError {
    /// A unit reported `Completed` when it was being initialized: it never
    /// went through the initialization protocol.
    SystemNotInitialized { name: &'static str },
    /// A unit reported `Stop` while being initialized.
    SystemStoppedDuringInit { name: &'static str },
    /// A unit's body failed with its own error.
    SystemFailed { name: &'static str },
    /// A unit reported `Initialized` a second time, during Execution.
    SystemReturnedInitialized { name: &'static str },
    /// A resource for this token already exists; insertion is an error,
    /// not an overwrite.
    ResourceExists,
    /// A unique resource for this token already exists.
    UniqueExists,
}

/// One queue entry: the token of a registered unit of work.
#[derive(Clone, Copy, PartialEq, Eq, Structural, Debug)]
pub struct ScheduleItem {
    pub key: u64,
}

/// One per-frame queue, in insertion order.
pub struct SchedulerStage {
    pub items: Vec<ScheduleItem>,
}

impl SchedulerStage {
    pub fn new() -> (r: SchedulerStage)
        ensures
            r.items@.len() == 0,
    {
        SchedulerStage { items: Vec::new() }
    }

    pub fn add_system(&mut self, key: u64)
        ensures
            final(self).items@ == old(self).items@.push(ScheduleItem { key }),
    {
        self.items.push(ScheduleItem { key });
    }
}

/// The five per-frame queues.
pub struct SchedulerStages {
    pub startup: SchedulerStage,
    pub update: SchedulerStage,
    pub render: SchedulerStage,
    pub scripting: SchedulerStage,
    pub teardown: SchedulerStage,
}

impl SchedulerStages {
    pub open spec fn all_empty(self) -> bool {
        &&& self.startup.items@.len() == 0
        &&& self.update.items@.len() == 0
        &&& self.render.items@.len() == 0
        &&& self.scripting.items@.len() == 0
        &&& self.teardown.items@.len() == 0
    }

    pub fn new() -> (r: SchedulerStages)
        ensures
            r.all_empty(),
    {
        SchedulerStages {
            startup: SchedulerStage::new(),
            update: SchedulerStage::new(),
            render: SchedulerStage::new(),
            scripting: SchedulerStage::new(),
            teardown: SchedulerStage::new(),
        }
    }

    /// Empty every queue; their storage is reused next frame.
    pub fn reset(&mut self)
        ensures
            final(self).all_empty(),
    {
        self.startup.items.clear();
        self.update.items.clear();
        self.render.items.clear();
        self.scripting.items.clear();
        self.teardown.items.clear();
    }
}

/// The scheduler: its stage queues.
pub struct Scheduler {
    pub stages: SchedulerStages,
}

impl Scheduler {
    pub fn new() -> (r: Scheduler)
        ensures
            r.stages.all_empty(),
    {
        Scheduler { stages: SchedulerStages::new() }
    }

    pub fn reset(&mut self)
        ensures
            final(self).stages.all_empty(),
    {
        self.stages.reset();
    }
}

/// A unique resource: a value of which the world holds at most one
/// instance per type.
pub struct Unique<T> {
    pub data: T,
}

impl<T> Unique<T> {
    pub fn new(data: T) -> (r: Unique<T>)
        ensures
            r.data == data,
    {
        Unique { data }
    }

    pub fn value(&self) -> (r: &T)
        ensures
            *r == self.data,
    {
        &self.data
    }

    pub fn value_mut(&mut self) -> (r: &mut T)
        ensures
            *r == old(self).data,
            final(self).data == *final(r),
    {
        &mut self.data
    }
}

/// Marker for types the resource registry may own.
pub trait Resource: Sized {
}

/// Whether an invocation outcome lets the frame go on.
pub open spec fn outcome_ok(o: UnitReturn) -> bool {
    o == UnitReturn::Returned(SystemResult::Completed)
        || o == UnitReturn::Returned(SystemResult::Stop)
}

/// The error reported for a fatal outcome of the named unit during
/// Execution.
pub open spec fn execution_error(o: UnitReturn, name: &'static str) -> WorldError {
    match o {
        UnitReturn::Returned(SystemResult::Initialized) =>
            WorldError::SystemReturnedInitialized { name },
        _ => WorldError::SystemFailed { name },
    }
}

/// Some entry among the first `n` queue items carries this token.
pub open spec fn key_in_prefix(items: Seq<ScheduleItem>, n: int, key: u64) -> bool {
    exists|j: int| 0 <= j < n && (#[trigger] items[j]).key == key
}

/// A state whose unit records keep their tokens (and whose queues and
/// resource registry are unchanged) stays well-formed, whatever else in the
/// records changed.
proof fn lemma_same_keys_wf(pre: State, post: State)
    requires
        pre.wf(),
        post.systems@.len() == pre.systems@.len(),
        forall|k: int| 0 <= k < pre.systems@.len() ==>
            (#[trigger] post.systems@[k].0) == pre.systems@[k].0,
        post.scheduler.stages.update.items@ == pre.scheduler.stages.update.items@,
        post.resources@ == pre.resources@,
    ensures
        post.wf(),
{
    assert forall|i: int, k: int| 0 <= i < k < post.systems@.len() implies
        (#[trigger] post.systems@[i].0) != (#[trigger] post.systems@[k].0) by {
        assert(pre.systems@[i].0 != pre.systems@[k].0);
    }
    assert forall|i: int| 0 <= i < post.scheduler.stages.update.items@.len() implies
        post.has_system((#[trigger] post.scheduler.stages.update.items@[i]).key) by {
        let qk = post.scheduler.stages.update.items@[i].key;
        assert(pre.has_system(pre.scheduler.stages.update.items@[i].key));
        assert(pre.has_system(qk));
        let w = choose|w: int| 0 <= w < pre.systems@.len()
            && (#[trigger] pre.systems@[w].0) == qk;
        assert(post.systems@[w].0 == qk);
    }
}

/// World state: the unit-of-work registry, the scheduler, and the resource
/// registry (tokens only: each token stands for one resource type, created
/// at most once).
pub struct State {
    pub systems: Vec<(u64, system::State)>,
    pub scheduler: Scheduler,
    pub resources: Vec<u64>,
}

impl State {
    /// Registered tokens are unique, and every queued unit has a record.
    pub open spec fn wf(self) -> bool {
        &&& forall|i: int, k: int| 0 <= i < k < self.systems@.len() ==>
            (#[trigger] self.systems@[i].0) != (#[trigger] self.systems@[k].0)
        &&& forall|i: int, k: int| 0 <= i < k < self.resources@.len() ==>
            (#[trigger] self.resources@[i]) != (#[trigger] self.resources@[k])
        &&& forall|i: int| 0 <= i < self.scheduler.stages.update.items@.len() ==>
            self.has_system((#[trigger] self.scheduler.stages.update.items@[i]).key)
    }

    pub open spec fn has_system(self, key: u64) -> bool {
        exists|i: int| 0 <= i < self.systems@.len() && (#[trigger] self.systems@[i].0) == key
    }

    pub open spec fn spec_system_index(self, key: u64) -> int {
        choose|i: int| 0 <= i < self.systems@.len() && (#[trigger] self.systems@[i].0) == key
    }

    /// The display name recorded for a unit of work.
    pub open spec fn spec_system_name(self, key: u64) -> &'static str {
        self.systems@[self.spec_system_index(key)].1.name
    }

    pub open spec fn has_resource(self, token: u64) -> bool {
        self.resources@.contains(token)
    }

    pub fn new() -> (r: State)
        ensures
            r.wf(),
            r.systems@.len() == 0,
            r.resources@.len() == 0,
            r.scheduler.stages.all_empty(),
    {
        State {
            systems: Vec::new(),
            scheduler: Scheduler::new(),
            resources: Vec::new(),
        }
    }

    /// Position of the record for `key`, if one exists.
    fn system_index(&self, key: u64) -> (r: Option<usize>)
        requires
            self.wf(),
        ensures
            r matches Some(i) ==> i < self.systems@.len() && self.systems@[i as int].0 == key
                && i == self.spec_system_index(key),
            r is Some <==> self.has_system(key),
    {
        let mut i: usize = 0;
        let n: usize = self.systems.len();
        while i < n
            invariant
                self.wf(),
                i <= n,
                n == self.systems@.len(),
                forall|k: int| 0 <= k < i ==> (#[trigger] self.systems@[k].0) != key,
            decreases n - i,
        {
            if self.systems[i].0 == key {
                proof {
                    let w = self.spec_system_index(key);
                    if w != i {
                        assert(self.systems@[w].0 == self.systems@[i as int].0);
                    }
                }
                return Some(i);
            }
            i = i + 1;
        }
        proof {
            if self.has_system(key) {
                let w = self.spec_system_index(key);
                assert(self.systems@[w].0 == key);
            }
        }
        None
    }

    /// Register a resource token: an error when it already exists, never an
    /// overwrite.
    pub fn add_resource(&mut self, token: u64) -> (r: Result<(), WorldError>)
        requires
            old(self).wf(),
        ensures
            final(self).wf(),
            r == (if old(self).has_resource(token) {
                Err::<(), WorldError>(WorldError::ResourceExists)
            } else {
                Ok::<(), WorldError>(())
            }),
            old(self).has_resource(token) ==> *final(self) == *old(self),
            !old(self).has_resource(token) ==> {
                &&& final(self).resources@ == old(self).resources@.push(token)
                &&& final(self).systems == old(self).systems
                &&& final(self).scheduler == old(self).scheduler
            },
            final(self).has_resource(token),
    {
        let existed: bool = self.set_resource(token);
        if existed {
            Err(WorldError::ResourceExists)
        } else {
            Ok(())
        }
    }

    /// Record a resource token, reporting whether it was already there.
    /// This is the one path that tolerates an existing entry.
    pub fn set_resource(&mut self, token: u64) -> (existed: bool)
        requires
            old(self).wf(),
        ensures
            final(self).wf(),
            existed == old(self).has_resource(token),
            existed ==> *final(self) == *old(self),
            !existed ==> {
                &&& final(self).resources@ == old(self).resources@.push(token)
                &&& final(self).systems == old(self).systems
                &&& final(self).scheduler == old(self).scheduler
            },
            final(self).has_resource(token),
    {
        let mut i: usize = 0;
        let n: usize = self.resources.len();
        while i < n
            invariant
                self.wf(),
                i <= n,
                n == self.resources@.len(),
                forall|k: int| 0 <= k < i ==> (#[trigger] self.resources@[k]) != token,
            decreases n - i,
        {
            if self.resources[i] == token {
                proof {
                    assert(self.resources@[i as int] == token);
                }
                return true;
            }
            i = i + 1;
        }
        proof {
            if self.resources@.contains(token) {
                let w = choose|w: int| 0 <= w < self.resources@.len()
                    && self.resources@[w] == token;
                assert(self.resources@[w] == token);
            }
        }
        self.resources.push(token);
        proof {
            assert(self.resources@.last() == token);
            assert forall|i2: int, k2: int| 0 <= i2 < k2 < self.resources@.len() implies
                (#[trigger] self.resources@[i2]) != (#[trigger] self.resources@[k2]) by {
                if k2 == self.resources@.len() - 1 {
                    assert(old(self).resources@[i2] != token);
                }
            }
            assert forall|i2: int| 0 <= i2 < self.scheduler.stages.update.items@.len() implies
                self.has_system((#[trigger] self.scheduler.stages.update.items@[i2]).key) by {
                let qk = self.scheduler.stages.update.items@[i2].key;
                assert(old(self).has_system(old(self).scheduler.stages.update.items@[i2].key));
                assert(old(self).has_system(qk));
                let w = choose|w: int| 0 <= w < old(self).systems@.len()
                    && (#[trigger] old(self).systems@[w].0) == qk;
                assert(self.systems@[w].0 == qk);
            }
        }
        false
    }

    /// Register a unique resource token: an error when it already exists.
    pub fn add_unique(&mut self, token: u64) -> (r: Result<(), WorldError>)
        requires
            old(self).wf(),
        ensures
            final(self).wf(),
            r == (if old(self).has_resource(token) {
                Err::<(), WorldError>(WorldError::UniqueExists)
            } else {
                Ok::<(), WorldError>(())
            }),
            old(self).has_resource(token) ==> *final(self) == *old(self),
            final(self).has_resource(token),
    {
        let existed: bool = self.set_resource(token);
        if existed {
            Err(WorldError::UniqueExists)
        } else {
            Ok(())
        }
    }

    /// Register a unit of work. A record is created on first registration
    /// (Instantination: the name is recorded and the record moves to
    /// Initialization); re-registration reuses the record, so at most one
    /// record lives per token. `init` is what the unit's initialization
    /// invocation reported: only `Initialized` enqueues it; anything else
    /// is fatal and names the unit.
    pub fn add_system(
        &mut self,
        key: u64,
        name: &'static str,
        init: UnitReturn,
        schedule: Schedule,
    ) -> (r: Result<(), WorldError>)
        requires
            old(self).wf(),
        ensures
            final(self).wf(),
            final(self).has_system(key),
            r == (match init {
                UnitReturn::Returned(SystemResult::Initialized) => Ok::<(), WorldError>(()),
                UnitReturn::Returned(SystemResult::Completed) =>
                    Err::<(), WorldError>(WorldError::SystemNotInitialized {
                        name: final(self).spec_system_name(key) }),
                UnitReturn::Returned(SystemResult::Stop) =>
                    Err::<(), WorldError>(WorldError::SystemStoppedDuringInit {
                        name: final(self).spec_system_name(key) }),
                UnitReturn::Failed =>
                    Err::<(), WorldError>(WorldError::SystemFailed {
                        name: final(self).spec_system_name(key) }),
            }),
            old(self).has_system(key) ==> final(self).systems@ == old(self).systems@,
            final(self).spec_system_name(key) == (if old(self).has_system(key) {
                old(self).spec_system_name(key)
            } else {
                name
            }),
            r is Ok && schedule is Update ==>
                final(self).scheduler.stages.update.items@ ==
                    old(self).scheduler.stages.update.items@.push(ScheduleItem { key }),
            !(r is Ok && schedule is Update) ==>
                final(self).scheduler.stages.update.items@ ==
                    old(self).scheduler.stages.update.items@,
            final(self).resources == old(self).resources,
    {
        let idx: usize = match self.system_index(key) {
            Some(i) => i,
            None => {
                let mut record = system::State::new();
                record.set_name(name);
                record.set_stage(Stage::Initialization);
                let n: usize = self.systems.len();
                self.systems.push((key, record));
                proof {
                    assert(self.systems@[n as int].0 == key);
                    assert forall|i2: int, k2: int| 0 <= i2 < k2 < self.systems@.len() implies
                        (#[trigger] self.systems@[i2].0) != (#[trigger] self.systems@[k2].0) by {
                        if k2 == self.systems@.len() - 1 {
                            if old(self).has_system(key) {
                                let w = old(self).spec_system_index(key);
                                assert(old(self).systems@[w].0 == key);
                            }
                            assert(self.systems@[i2].0 != key);
                        }
                    }
                    assert forall|i2: int| 0 <= i2 < self.scheduler.stages.update.items@.len()
                        implies self.has_system(
                            (#[trigger] self.scheduler.stages.update.items@[i2]).key) by {
                        let qk = self.scheduler.stages.update.items@[i2].key;
                        assert(old(self).has_system(
                            old(self).scheduler.stages.update.items@[i2].key));
                        assert(old(self).has_system(qk));
                        let w = choose|w: int| 0 <= w < old(self).systems@.len()
                            && (#[trigger] old(self).systems@[w].0) == qk;
                        assert(self.systems@[w].0 == qk);
                    }
                }
                n
            },
        };
        proof {
            assert(self.systems@[idx as int].0 == key);
            assert(self.has_system(key));
            let w = self.spec_system_index(key);
            if w != idx {
                assert(self.systems@[w].0 == self.systems@[idx as int].0);
            }
        }
        let sys_name: &'static str = self.systems[idx].1.name();
        match init {
            UnitReturn::Returned(SystemResult::Initialized) => {
                match schedule {
                    Schedule::Startup => self.scheduler.stages.startup.add_system(key),
                    Schedule::Update => self.scheduler.stages.update.add_system(key),
                    Schedule::Render => self.scheduler.stages.render.add_system(key),
                    Schedule::Scripting => self.scheduler.stages.scripting.add_system(key),
                    Schedule::Teardown => self.scheduler.stages.teardown.add_system(key),
                }
                proof {
                    assert(self.systems@[idx as int].0 == key);
                    assert(self.has_system(key));
                    assert forall|i2: int| 0 <= i2 < self.scheduler.stages.update.items@.len()
                        implies self.has_system(
                            (#[trigger] self.scheduler.stages.update.items@[i2]).key) by {
                        let qk = self.scheduler.stages.update.items@[i2].key;
                        if i2 < old(self).scheduler.stages.update.items@.len() {
                            assert(old(self).has_system(
                                old(self).scheduler.stages.update.items@[i2].key));
                            assert(old(self).has_system(qk));
                            let w = choose|w: int| 0 <= w < old(self).systems@.len()
                                && (#[trigger] old(self).systems@[w].0) == qk;
                            assert(self.systems@[w].0 == qk);
                        } else {
                            assert(qk == key);
                            assert(self.systems@[idx as int].0 == key);
                        }
                    }
                }
                Ok(())
            },
            UnitReturn::Returned(SystemResult::Completed) => {
                Err(WorldError::SystemNotInitialized { name: sys_name })
            },
            UnitReturn::Returned(SystemResult::Stop) => {
                Err(WorldError::SystemStoppedDuringInit { name: sys_name })
            },
            UnitReturn::Failed => {
                Err(WorldError::SystemFailed { name: sys_name })
            },
        }
    }
}

/// The world: owner of the state that units of work share.
pub struct World {
    pub state: State,
}

impl World {
    pub fn new() -> (r: World)
        ensures
            r.state.wf(),
            r.state.systems@.len() == 0,
            r.state.resources@.len() == 0,
            r.state.scheduler.stages.all_empty(),
    {
        World { state: State::new() }
    }

    /// Drive one frame: process the update queue in insertion order,
    /// holding each unit to the protocol. `outcomes[i]` is what invoking
    /// the `i`-th queued unit produced; its record's stage is set to
    /// Execution for the invocation and back to Initialization after it.
    /// `Completed` and `Stop` let the frame go on; `Initialized` or a
    /// failure aborts the frame at the first offender with an error naming
    /// that unit, leaving the queues as they are. A completed frame clears
    /// every queue (their storage is reused).
    pub fn execute(&mut self, outcomes: &Vec<UnitReturn>) -> (r: Result<(), WorldError>)
        requires
            old(self).state.wf(),
            outcomes@.len() == old(self).state.scheduler.stages.update.items@.len(),
        ensures
            final(self).state.wf(),
            r is Ok <==> (forall|i: int| 0 <= i < outcomes@.len() ==>
                outcome_ok(#[trigger] outcomes@[i])),
            r is Ok ==> final(self).state.scheduler.stages.all_empty(),
            r matches Err(e) ==> exists|i: int| 0 <= i < outcomes@.len()
                && !outcome_ok(#[trigger] outcomes@[i])
                && (forall|k: int| 0 <= k < i ==> outcome_ok(#[trigger] outcomes@[k]))
                && e == execution_error(outcomes@[i],
                    old(self).state.spec_system_name(
                        old(self).state.scheduler.stages.update.items@[i].key)),
            final(self).state.resources == old(self).state.resources,
            final(self).state.systems@.len() == old(self).state.systems@.len(),
            r is Ok ==> forall|k: int| 0 <= k < final(self).state.systems@.len() ==>
                (#[trigger] final(self).state.systems@[k]).1.stage
                    == (if key_in_prefix(old(self).state.scheduler.stages.update.items@,
                            old(self).state.scheduler.stages.update.items@.len() as int,
                            final(self).state.systems@[k].0) {
                        Stage::Initialization
                    } else {
                        old(self).state.systems@[k].1.stage
                    }),
    {
        let n: usize = self.state.scheduler.stages.update.items.len();
        let mut i: usize = 0;
        while i < n
            invariant
                self.state.wf(),
                old(self).state.wf(),
                i <= n,
                n == outcomes@.len(),
                self.state.scheduler == old(self).state.scheduler,
                n == self.state.scheduler.stages.update.items@.len(),
                self.state.resources == old(self).state.resources,
                self.state.systems@.len() == old(self).state.systems@.len(),
                forall|k: int| 0 <= k < self.state.systems@.len() ==>
                    (#[trigger] self.state.systems@[k].0) == old(self).state.systems@[k].0,
                forall|k: int| 0 <= k < self.state.systems@.len() ==>
                    (#[trigger] self.state.systems@[k].1).name
                        == old(self).state.systems@[k].1.name,
                forall|k: int| 0 <= k < i ==> outcome_ok(#[trigger] outcomes@[k]),
                forall|k: int| 0 <= k < self.state.systems@.len() ==>
                    (#[trigger] self.state.systems@[k]).1.stage
                        == (if key_in_prefix(old(self).state.scheduler.stages.update.items@,
                                i as int, self.state.systems@[k].0) {
                            Stage::Initialization
                        } else {
                            old(self).state.systems@[k].1.stage
                        }),
            decreases n - i,
        {
            let key: u64 = self.state.scheduler.stages.update.items[i].key;
            let idx_opt = self.state.system_index(key);
            proof {
                if idx_opt is None {
                    assert(self.state.has_system(key));
                }
            }
            let idx: usize = idx_opt.unwrap();
            let ghost prev = self.state;
            let record_ref = &mut self.state.systems[idx];
            record_ref.1.set_stage(Stage::Execution);
            proof {
                lemma_same_keys_wf(prev, self.state);
            }
            let sys_name: &'static str = self.state.systems[idx].1.name();
            proof {
                assert(self.state.systems@[idx as int].1.name
                    == prev.systems@[idx as int].1.name);
                assert(prev.systems@[idx as int].1.name
                    == old(self).state.systems@[idx as int].1.name);
                assert(old(self).state.systems@[idx as int].0 == key);
                assert(old(self).state.has_system(key));
                let w0 = old(self).state.spec_system_index(key);
                assert(0 <= w0 < old(self).state.systems@.len()
                    && old(self).state.systems@[w0].0 == key);
                assert(prev.systems@[idx as int].0 == key);
                assert(old(self).state.systems@[idx as int].0 == key);
                if w0 < idx as int {
                    assert(old(self).state.systems@[w0].0
                        != old(self).state.systems@[idx as int].0);
                }
                if (idx as int) < w0 {
                    assert(old(self).state.systems@[idx as int].0
                        != old(self).state.systems@[w0].0);
                }
                assert(w0 == idx);
                assert(old(self).state.spec_system_name(key)
                    == old(self).state.systems@[w0].1.name);
                assert(sys_name == old(self).state.spec_system_name(key));
            }
            let outcome: UnitReturn = outcomes[i];
            let failed: Option<WorldError> = match outcome {
                UnitReturn::Returned(SystemResult::Completed) => None,
                UnitReturn::Returned(SystemResult::Stop) => None,
                UnitReturn::Returned(SystemResult::Initialized) => {
                    Some(WorldError::SystemReturnedInitialized { name: sys_name })
                },
                UnitReturn::Failed => {
                    Some(WorldError::SystemFailed { name: sys_name })
                },
            };
            match failed {
                Some(e) => {
                    proof {
                        assert(!outcome_ok(outcomes@[i as int]));
                        assert(e == execution_error(outcomes@[i as int],
                            old(self).state.spec_system_name(
                                old(self).state.scheduler.stages.update.items@[i as int].key)));
                    }
                    return Err(e);
                },
                None => {},
            }
            let ghost prev2 = self.state;
            let record_ref2 = &mut self.state.systems[idx];
            record_ref2.1.set_stage(Stage::Initialization);
            proof {
                lemma_same_keys_wf(prev2, self.state);
                assert forall|k: int| 0 <= k < self.state.systems@.len() implies
                    (#[trigger] self.state.systems@[k].0) == old(self).state.systems@[k].0
                        && self.state.systems@[k].1.name
                            == old(self).state.systems@[k].1.name by {
                    assert(prev.systems@[k].0 == old(self).state.systems@[k].0);
                    assert(prev.systems@[k].1.name == old(self).state.systems@[k].1.name);
                    assert(prev2.systems@[k].0 == prev.systems@[k].0);
                    assert(prev2.systems@[k].1.name == prev.systems@[k].1.name);
                    assert(self.state.systems@[k].0 == prev2.systems@[k].0);
                    assert(self.state.systems@[k].1.name == prev2.systems@[k].1.name);
                }
                let items = old(self).state.scheduler.stages.update.items@;
                assert(items[i as int].key == key);
                assert forall|k: int| 0 <= k < self.state.systems@.len() implies
                    (#[trigger] self.state.systems@[k]).1.stage
                        == (if key_in_prefix(items, i + 1, self.state.systems@[k].0) {
                            Stage::Initialization
                        } else {
                            old(self).state.systems@[k].1.stage
                        }) by {
                    if k == idx {
                        assert(self.state.systems@[k].1.stage is Initialization);
                        assert(key_in_prefix(items, i + 1, key));
                    } else {
                        assert(self.state.systems@[k] == prev.systems@[k]);
                        assert(self.state.systems@[k].0 != key) by {
                            if self.state.systems@[k].0 == key {
                                assert(self.state.systems@[k as int].0
                                    == self.state.systems@[idx as int].0);
                            }
                        }
                        assert(key_in_prefix(items, i + 1, self.state.systems@[k].0)
                            == key_in_prefix(items, i as int, self.state.systems@[k].0)) by {
                            if key_in_prefix(items, i + 1, self.state.systems@[k].0) {
                                let j = choose|j: int| 0 <= j < i + 1
                                    && (#[trigger] items[j]).key == self.state.systems@[k].0;
                                assert(j < i);
                            }
                        }
                        assert(prev.systems@[k].1.stage
                            == (if key_in_prefix(items, i as int, prev.systems@[k].0) {
                                Stage::Initialization
                            } else {
                                old(self).state.systems@[k].1.stage
                            }));
                    }
                }
            }
            i = i + 1;
        }
        self.state.scheduler.reset();
        Ok(())
    }
}

} // verus!

//! What the scheduler keeps with each task.
use vstd::prelude::*;

use crate::sched::vruntime::{fresh_vruntime, VRuntime};
use crate::task::priority::Priority;

verus! {

/// The scheduler's entry of a task: at most one value of each type, held in an `anymap3` map.
#[verifier::external_body]
pub struct SchedEntityMap {
    inner: anymap3::hashbrown::Map<dyn core::any::Any + Send + Sync>,
}

/// The run time that an entry holds, if any.
pub uninterp spec fn run_time(map: SchedEntityMap) -> Option<VRuntime>;

impl SchedEntityMap {
    /// `anymap3::hashbrown::Map::new`: a map that holds no value.
    #[verifier::external_body]
    pub(crate) fn new() -> (map: Self)
        ensures
            run_time(map) is None,
    {
        SchedEntityMap { inner: anymap3::hashbrown::Map::new() }
    }

    /// `anymap3::hashbrown::Map::get` for run times: the value, or nothing if there is none.
    #[verifier::external_body]
    pub(crate) fn get(&self) -> (v: Option<&VRuntime>)
        ensures
            match v {
                Some(v) => run_time(*self) == Some(*v),
                None => run_time(*self) is None,
            },
    {
        self.inner.get::<VRuntime>()
    }

    /// `anymap3::hashbrown::Map::get_mut` for run times: the value, open to change, or nothing
    /// if there is none.
    #[verifier::external_body]
    pub(crate) fn get_mut(&mut self) -> (v: Option<&mut VRuntime>)
        ensures
            match v {
                Some(v) => run_time(*old(self)) == Some(*v) && run_time(*final(self)) == Some(
                    *final(v),
                ),
                None => run_time(*old(self)) is None && run_time(*final(self)) is None,
            },
    {
        self.inner.get_mut::<VRuntime>()
    }

    /// `anymap3::hashbrown::Map::entry` and `Entry::or_insert_with` for run times: the value, open
    /// to change, after that of a task which has not run yet was put in if there was none.
    #[verifier::external_body]
    pub(crate) fn entry_or_new(&mut self, key: usize, priority: Priority, now: u64) -> (v:
        &mut VRuntime)
        requires
            run_time(*old(self)) is None ==> priority.wf() && !priority.real_time(),
        ensures
            *v == (match run_time(*old(self)) {
                Some(held) => held,
                None => fresh_vruntime(key, priority, now),
            }),
            run_time(*final(self)) == Some(*final(v)),
    {
        self.inner.entry().or_insert_with(|| VRuntime::new(key, priority, now))
    }

    /// `anymap3::hashbrown::Map::remove` for run times: takes the value out.
    #[verifier::external_body]
    pub(crate) fn remove(&mut self) -> (v: Option<VRuntime>)
        ensures
            v == run_time(*old(self)),
            run_time(*final(self)) is None,
    {
        self.inner.remove::<VRuntime>()
    }
}

} // verus!

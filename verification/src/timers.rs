//! Periodic timers: the free-list allocator reused as a recycling pool for
//! timer records, so expiring timers hand their slots back for reuse.

use vstd::prelude::*;
use crate::slot_map::SyncSlot;
use crate::slot_map::SyncSlotMap;

verus! {

/// One timer: which component it belongs to and the tick it expires at.
#[derive(Clone, Copy, PartialEq, Eq, Structural, Debug)]
pub struct Timer {
    pub component_id: u32,
    pub end: u32,
}

/// The pool of live timers.
pub struct ComponetsTimers {
    pub timers: SyncSlotMap<Timer>,
}

impl ComponetsTimers {
    pub fn new() -> (r: ComponetsTimers)
        ensures
            r.timers.wf(),
            r.timers.fresh_free(),
            r.timers.slots@.len() == 0,
    {
        ComponetsTimers { timers: SyncSlotMap::new() }
    }

    /// Store a timer, reusing a recycled slot when one is free.
    pub fn add(&mut self, timer: Timer) -> (key: SyncSlot)
        requires
            old(self).timers.wf(),
            old(self).timers.slots@.len() < 0xFFFF_FFFE,
        ensures
            final(self).timers.wf(),
            key.wf(),
            1 <= key.index <= final(self).timers.slots@.len(),
            final(self).timers.slots@[key.index as int - 1] == (true, timer),
            final(self).timers.slots@ == (if key.index == old(self).timers.slots@.len() + 1 {
                old(self).timers.slots@.push((true, timer))
            } else {
                old(self).timers.slots@.update(key.index as int - 1, (true, timer))
            }),
            key.index == old(self).timers.slots@.len() + 1
                <==> !old(self).timers.has_free_key(),
    {
        let key = self.timers.push(timer);
        proof {
            assert(self.timers.slots@[key.index as int - 1] == (true, timer)) by {
                if key.index as int == old(self).timers.slots@.len() + 1 {
                    assert(self.timers.slots@
                        == old(self).timers.slots@.push((true, timer)));
                    assert(old(self).timers.slots@.push((true, timer))[
                        key.index as int - 1] == (true, timer));
                } else {
                    assert(self.timers.slots@ == old(self).timers.slots@.update(
                        key.index as int - 1, (true, timer)));
                    assert(old(self).timers.slots@.update(key.index as int - 1,
                        (true, timer))[key.index as int - 1] == (true, timer));
                }
            }
        }
        key
    }

    /// Expire a timer: disable its slot and hand the id back for reuse.
    /// Every other slot is untouched.
    pub fn expire(&mut self, key: SyncSlot) -> (r: Option<Timer>)
        requires
            old(self).timers.wf(),
            key.wf(),
            key.index <= old(self).timers.slots@.len(),
            old(self).timers.store_keys@.len() < usize::MAX,
        ensures
            final(self).timers.wf(),
            r == (if old(self).timers.enabled(key.index as int - 1) {
                Some(old(self).timers.payload(key.index as int - 1))
            } else {
                None::<Timer>
            }),
            final(self).timers.slots@ == (if old(self).timers.enabled(key.index as int - 1) {
                old(self).timers.slots@.update(key.index as int - 1,
                    (false, old(self).timers.slots@[key.index as int - 1].1))
            } else {
                old(self).timers.slots@
            }),
    {
        self.timers.delete(key)
    }
}

} // verus!

//! The backend loop's command queue.
//!
//! The filesystem watcher's callback translates each create or modify
//! event into one [`BackendServerCommand`] and appends it here; the
//! backend loop is the queue's single consumer and drains it strictly in
//! arrival order.  Reload requests are coalesced by construction: an event
//! that arrives while an earlier request is still being processed is
//! simply queued behind it — never dropped, never run concurrently.

use vstd::prelude::*;

use crate::app::BackendServerCommand;

verus! {

/// The queue of commands waiting for the backend loop, front first.
pub struct ServerCommandQueue {
    pub items: Vec<BackendServerCommand>,
}

impl ServerCommandQueue {
    /// An empty queue.
    pub fn new() -> (q: ServerCommandQueue)
        ensures
            q.items@ == Seq::<BackendServerCommand>::empty(),
    {
        let q = ServerCommandQueue { items: Vec::new() };
        proof {
            assert(q.items@ =~= Seq::<BackendServerCommand>::empty());
        }
        q
    }

    /// How many commands are waiting.
    pub fn len(&self) -> (n: usize)
        ensures
            n == self.items@.len(),
    {
        self.items.len()
    }

    /// Appends a command after everything already queued; the watcher
    /// callback does only this and never blocks.
    pub fn send(&mut self, command: BackendServerCommand)
        ensures
            final(self).items@ == old(self).items@.push(command),
    {
        self.items.push(command);
    }

    /// Hands the backend loop the oldest queued command, or nothing when
    /// the queue is empty.
    pub fn recv(&mut self) -> (r: Option<BackendServerCommand>)
        ensures
            match r {
                Some(c) => old(self).items@.len() > 0 && c == old(self).items@[0]
                    && final(self).items@ == old(self).items@.drop_first(),
                None => old(self).items@.len() == 0 && final(self).items@ == old(self).items@,
            },
    {
        if self.items.len() == 0 {
            return None;
        }
        let c = self.items.remove(0);
        proof {
            assert(self.items@ =~= old(self).items@.drop_first());
        }
        Some(c)
    }
}

/// A reload request that arrives while an earlier request is still
/// queued or mid-processing is processed after it: draining hands back
/// the earlier command first, and the later request stays queued — not
/// dropped, not merged, not run concurrently.
pub proof fn lemma_reload_request_kept(
    items: Seq<BackendServerCommand>,
    command: BackendServerCommand,
)
    requires
        items.len() > 0,
    ensures
        items.push(command)[0] == items[0],
        items.push(command).drop_first() == items.drop_first().push(command),
        items.push(command).drop_first().contains(command),
{
    assert(items.push(command).drop_first() =~= items.drop_first().push(command));
    let shifted = items.push(command).drop_first();
    assert(shifted[shifted.len() - 1] == command);
}

} // verus!

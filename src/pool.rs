//! The pool: a fixed list of worker handles and a shared cursor that picks
//! the next one for each message.

use crate::rotation::{slot, worker_index};
use std::sync::atomic::{AtomicUsize, Ordering};
use std::sync::Arc;
use vstd::prelude::*;

verus! {

/// Why a pool could not be built.
#[derive(Debug, Clone, Copy, PartialEq, Eq, Structural)]
pub enum PoolError {
    /// A pool needs at least one worker: with none, no message could be routed.
    EmptyPool,
}

/// A fixed, non-empty list of worker handles of type `W` behind one handle.
/// Each call of [`Pool::next_worker`] hands out the next worker in
/// round-robin order; the cursor it draws from is shared by every caller.
#[verifier::reject_recursive_types(W)]
pub struct Pool<W> {
    pub(crate) workers: Vec<W>,
    pub(crate) current: Arc<AtomicUsize>,
}

impl<W> Pool<W> {
    #[verifier::type_invariant]
    spec fn inv(&self) -> bool {
        self.workers.len() > 0
    }

    /// The worker handles, in the order the workers were started.
    pub closed spec fn handles(&self) -> Seq<W> {
        self.workers@
    }

    /// Starts `size` workers by calling `start_worker` once for each, in
    /// order, and keeps their handles. A pool of no workers is refused.
    pub fn new<F>(size: usize, start_worker: F) -> (r: Result<Self, PoolError>) where
        F: Fn() -> W,
        requires
            start_worker.requires(()),
        ensures
            r is Err <==> size == 0,
            r matches Ok(p) ==> {
                &&& p.handles().len() == size
                &&& forall|i: int|
                    0 <= i < size ==> start_worker.ensures((), #[trigger] p.handles()[i])
            },
    {
        if size == 0 {
            return Err(PoolError::EmptyPool);
        }
        let mut workers: Vec<W> = Vec::new();
        let mut i: usize = 0;
        while i < size
            invariant
                i <= size,
                workers@.len() == i,
                start_worker.requires(()),
                forall|j: int| 0 <= j < i ==> start_worker.ensures((), #[trigger] workers@[j]),
            decreases size - i,
        {
            workers.push(start_worker());
            i += 1;
        }
        Ok(Pool { workers, current: Arc::new(AtomicUsize::new(0)) })
    }

    /// Number of workers, fixed for the pool's life.
    pub fn size(&self) -> (r: usize)
        ensures
            r == self.handles().len(),
            r > 0,
    {
        proof {
            use_type_invariant(self);
        }
        self.workers.len()
    }

    /// Draws the next value of the shared cursor and returns the worker it
    /// selects, the one at the cursor modulo the pool's size. Concurrent
    /// callers each draw a value of their own.
    pub fn next_worker(&self) -> (r: &W)
        ensures
            exists|cursor: usize|
                *r == self.handles()[#[trigger] slot(cursor as nat, self.handles().len()) as int],
    {
        proof {
            use_type_invariant(self);
        }
        let cursor = self.current.fetch_add(1, Ordering::SeqCst);
        let index = worker_index(cursor, self.workers.len());
        proof {
            assert(*(&self.workers[index as int]) == self.handles()[slot(
                cursor as nat,
                self.handles().len(),
            ) as int]);
        }
        &self.workers[index]
    }
}

} // verus!

//! A fixed number of slots for accelerator commands: a worker takes a slot
//! before it allocates buffers or builds a kernel on the device, and gives it
//! back once the command is enqueued, so at most that many submissions overlap.
//!
//! A slot is taken by `acquire`, which hands out a ticket bound to its pool,
//! and given back only through that ticket. So the semaphore's count never
//! exceeds the pool's capacity, which fits the semaphore's `isize` count.

use std_semaphore::Semaphore;
use vstd::prelude::*;

verus! {

/// std-semaphore's counting semaphore, carried opaquely.
#[verifier::external_type_specification]
#[verifier::external_body]
pub struct ExSemaphore(Semaphore);

/// Relies on `Semaphore::new`: a counting semaphore whose count starts at
/// `count`, which fits an `isize`.
#[verifier::external_body]
fn new_semaphore(count: usize) -> Semaphore
    requires
        0 < count <= isize::MAX,
{
    Semaphore::new(count as isize)
}

/// Relies on `Semaphore::acquire`: blocks until the count is positive, then
/// takes one from it.
#[verifier::external_body]
fn take_permit(s: &Semaphore) {
    s.acquire()
}

/// Relies on `Semaphore::release`: adds one to the count and wakes one waiter.
/// The increment overflows only at a count of `isize::MAX`. Here a semaphore
/// made with `capacity` gets back only a permit that `take_permit` took from
/// it, so before the increment its count is below `capacity`, itself at most
/// `isize::MAX`. It unwraps its lock, which is poisoned only by a panic while
/// the lock is held; neither `acquire` nor `release` panics there, so it does
/// not unwind.
#[verifier::external_body]
fn give_back_permit(s: &Semaphore, capacity: usize)
    requires
        0 < capacity <= isize::MAX,
    opens_invariants none
    no_unwind
{
    s.release()
}

/// A pool of execution slots shared by all workers.
pub struct AcceleratorSlotPool {
    semaphore: Semaphore,
    capacity: usize,
}

impl AcceleratorSlotPool {
    /// How many slots the pool holds.
    pub closed spec fn spec_capacity(&self) -> int {
        self.capacity as int
    }

    /// The capacity is positive and fits the semaphore's count.
    #[verifier::type_invariant]
    spec fn inv(&self) -> bool {
        0 < self.capacity <= isize::MAX
    }

    /// A pool of `capacity` slots. There is none of no slots, where every
    /// acquire would wait forever, nor of more than the semaphore's count holds.
    pub fn new(capacity: usize) -> (r: Option<AcceleratorSlotPool>)
        ensures
            r is Some <==> 0 < capacity <= isize::MAX,
            r matches Some(p) ==> p.spec_capacity() == capacity,
    {
        if capacity == 0 || capacity > isize::MAX as usize {
            return None;
        }
        Some(AcceleratorSlotPool { semaphore: new_semaphore(capacity), capacity })
    }

    /// How many slots the pool holds.
    pub fn capacity(&self) -> (r: usize)
        ensures
            r == self.spec_capacity(),
            0 < r <= isize::MAX,
    {
        proof {
            use_type_invariant(self);
        }
        self.capacity
    }

    /// Waits for a free slot and takes it. The ticket gives it back to this
    /// pool.
    pub fn acquire(&self) -> (r: SlotTicket<'_>)
        ensures
            r.pool() == self,
    {
        take_permit(&self.semaphore);
        SlotTicket { pool: self }
    }
}

/// The right to issue one accelerator command, handed out by `acquire` and
/// given back, by value, to the pool that issued it.
pub struct SlotTicket<'a> {
    pool: &'a AcceleratorSlotPool,
}

impl<'a> SlotTicket<'a> {
    /// The pool that issued the ticket.
    pub closed spec fn pool(&self) -> AcceleratorSlotPool {
        *self.pool
    }

    /// Gives the slot back to the pool that issued the ticket; dropping the
    /// ticket does the same.
    pub fn release(self) {
    }
}

impl<'a> Drop for SlotTicket<'a> {
    fn drop(&mut self)
        opens_invariants none
        no_unwind
    {
        let pool = self.pool;
        proof {
            use_type_invariant(pool);
        }
        give_back_permit(&pool.semaphore, pool.capacity);
    }
}

} // verus!

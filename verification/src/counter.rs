//! A shared source of identifiers.

use std::sync::Arc;
use std::sync::atomic::AtomicU64;
use std::sync::atomic::Ordering;
use vstd::prelude::*;

verus! {

/// How many identifiers there are: 2^52. Every identifier is below this
/// bound, so that it can pass through a double-precision float unchanged.
pub const ID_MODULUS: u64 = 0x10_0000_0000_0000;

/// The identifier that the ticket `ticket` stands for: the ticket modulo
/// [`ID_MODULUS`].
pub open spec fn id_of_ticket(ticket: u64) -> u64 {
    (ticket % ID_MODULUS) as u64
}

/// The ticket that follows `ticket`: one more, and 0 after the largest.
pub open spec fn ticket_after(ticket: u64) -> u64 {
    if ticket == u64::MAX {
        0
    } else {
        (ticket + 1) as u64
    }
}

/// The identifier of the ticket that follows is the identifier that follows:
/// one more, and 0 after the largest identifier, also where the tickets
/// themselves wrap around.
pub proof fn lemma_identifiers_follow_tickets(ticket: u64)
    ensures
        id_of_ticket(ticket_after(ticket)) == if id_of_ticket(ticket) == ID_MODULUS - 1 {
            0
        } else {
            id_of_ticket(ticket) + 1
        },
{
}

/// A handle on one sequence of identifiers. The clones of a counter are
/// handles on the same sequence.
///
/// The counter holds the next ticket, a number that each call of
/// [`Counter::next`] takes and raises by one in a single atomic step, and
/// that wraps around at 2^64. The identifier handed out is the ticket modulo
/// 2^52, a divisor of 2^64, so the identifiers run from 0 to 2^52 - 1 and
/// start again at 0.
#[derive(Debug)]
pub struct Counter {
    next: Arc<AtomicU64>,
}

/// `Arc::clone`: the new handle points to the allocation of `cell`, so that
/// both are handles on the same atomic integer.
#[verifier::external_body]
fn share(cell: &Arc<AtomicU64>) -> (handle: Arc<AtomicU64>)
    ensures
        handle == *cell,
{
    Arc::clone(cell)
}

impl Clone for Counter {
    /// Another handle on the same sequence.
    fn clone(&self) -> (handle: Counter)
        ensures
            handle == *self,
    {
        Counter { next: share(&self.next) }
    }
}

impl Default for Counter {
    /// A counter of its own, at the start of the sequence.
    fn default() -> Counter {
        Counter { next: Arc::new(AtomicU64::new(0)) }
    }
}

impl Counter {
    /// The identifier for a ticket.
    pub fn id_for(ticket: u64) -> (id: u64)
        ensures
            id == id_of_ticket(ticket),
            id < ID_MODULUS,
    {
        ticket % ID_MODULUS
    }

    /// Takes the next ticket and returns its identifier.
    pub fn next(&self) -> (id: u64)
        ensures
            id < ID_MODULUS,
    {
        let ticket: u64 = self.next.fetch_add(1, Ordering::SeqCst);
        Counter::id_for(ticket)
    }

    /// Makes `ticket` the next ticket, for every handle on this sequence.
    pub fn store(&self, ticket: u64) {
        self.next.store(ticket, Ordering::SeqCst);
    }
}

} // verus!

//! The store's standing guarantees, stated on their own. Each follows from
//! well-formedness, which `TicketingSystem::new` establishes and every
//! mutating operation's contract carries forward — so each holds across any
//! sequence of operations.

use vstd::prelude::*;

use crate::store::has_key;
use crate::store::key_index;
use crate::store::TicketingSystem;
use crate::types::max_resale_price;

verus! {

/// For every event, `available_tickets` never exceeds `total_tickets` (and,
/// as an unsigned count, never goes negative), whatever sequence of
/// purchases and updates produced the state.
pub proof fn lemma_available_within_total(s: TicketingSystem, event_id: u64)
    requires
        s.wf(),
        s.has_event(event_id),
    ensures
        s.event_at(event_id).available_tickets <= s.event_at(event_id).total_tickets,
{
}

/// For every ticket, the current price respects the resale cap
/// `floor(original_price * 6 / 5)` — a multiplier of 1.2 — in particular
/// after every listing.
pub proof fn lemma_resale_price_capped(s: TicketingSystem, token_id: u64)
    requires
        s.wf(),
        s.has_ticket(token_id),
    ensures
        s.ticket_at(token_id).current_price <= max_resale_price(
            s.ticket_at(token_id).original_price,
        ),
{
}

/// For every ticket, the history is non-empty and the recorded owner equals
/// the `to` principal of its last entry, after every mutating operation.
pub proof fn lemma_owner_matches_history(s: TicketingSystem, token_id: u64)
    requires
        s.wf(),
        s.has_ticket(token_id),
    ensures
        s.ticket_at(token_id).purchase_history@.len() >= 1,
        s.ticket_at(token_id).owner@ == s.ticket_at(token_id).purchase_history@.last().to@,
{
}

/// Reverse index consistency: a principal's owner-index entry lists a token
/// id exactly when that token exists and the principal is its current
/// owner.
pub proof fn lemma_owner_index_exact(s: TicketingSystem, p: Seq<char>, token_id: u64)
    requires
        s.wf(),
    ensures
        s.owned_tokens(p).contains(token_id) <==> (s.has_ticket(token_id) && s.ticket_at(
            token_id,
        ).owner@ == p),
{
    let ut = s.user_tickets@;
    if s.owned_tokens(p).contains(token_id) {
        assert(has_key(ut, p));
        let ki = key_index(ut, p);
        assert(0 <= ki < ut.len() && ut[ki].0@ == p);
        let w = choose|w: int|
            0 <= w < s.owned_tokens(p).len() && s.owned_tokens(p)[w] == token_id;
        assert(ut[ki].1@[w] == token_id);
        assert(s.has_ticket(token_id) && s.ticket_at(token_id).owner@ == p);
    }
    if s.has_ticket(token_id) && s.ticket_at(token_id).owner@ == p {
        let t = token_id - 1;
        assert(s.tickets@[t].owner@ == p);
        assert(s.owned_tokens(s.tickets@[t].owner@).contains((t + 1) as u64));
        assert((t + 1) as u64 == token_id);
    }
}

/// Each entry of the owner index is itself sound: every token it lists is
/// owned by that entry's principal, and no entry lists a token twice.
pub proof fn lemma_owner_index_entries_sound(s: TicketingSystem, i: int, j: int)
    requires
        s.wf(),
        0 <= i < s.user_tickets@.len(),
        0 <= j < s.user_tickets@[i].1@.len(),
    ensures
        s.has_ticket(s.user_tickets@[i].1@[j]),
        s.ticket_at(s.user_tickets@[i].1@[j]).owner@ == s.user_tickets@[i].0@,
        forall|k: int|
            0 <= k < s.user_tickets@[i].1@.len() && k != j ==> s.user_tickets@[i].1@[k]
                != s.user_tickets@[i].1@[j],
{
    assert forall|k: int|
        0 <= k < s.user_tickets@[i].1@.len() && k != j implies s.user_tickets@[i].1@[k]
        != s.user_tickets@[i].1@[j] by {
        if k < j {
            assert(s.user_tickets@[i].1@[k] != s.user_tickets@[i].1@[j]);
        }
    }
}

} // verus!

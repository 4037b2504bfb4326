//! Ticket lifecycle and resale engine: issue, resell, transfer, invalidate
//! and verify tickets.

use vstd::prelude::*;

use crate::store::has_key;
use crate::store::index_push;
use crate::store::key_index;
use crate::store::lemma_organizer_index_same;
use crate::store::lemma_owner_index_same_owners;
use crate::store::TicketingSystem;
use crate::types::max_resale_price;
use crate::types::Error;
use crate::types::Event;
use crate::types::Principal;
use crate::types::Ticket;
use crate::types::TicketMetadata;
use crate::types::TicketTransfer;

verus! {

/// Any price fits under its own resale cap: listing at the original price is
/// always allowed.
proof fn lemma_price_under_cap(price: u64)
    ensures
        price <= max_resale_price(price),
{
    assert(price <= (6 * price) / 5) by (nonlinear_arith);
}

impl TicketingSystem {
    /// Reads one ticket by token id.
    pub fn get_ticket(&self, token_id: u64) -> (r: Result<Ticket, Error>)
        ensures
            match r {
                Ok(t) => self.has_ticket(token_id) && t.same_as(self.ticket_at(token_id)),
                Err(e) => !self.has_ticket(token_id) && e == Error::NotFound,
            },
    {
        if token_id >= 1 && token_id <= self.tickets.len() as u64 {
            Ok(self.tickets[(token_id - 1) as usize].clone())
        } else {
            Err(Error::NotFound)
        }
    }

    /// Gate check: a known ticket passes exactly when it is still valid and
    /// the presented principal is its current owner. Never mutates state.
    pub fn verify_ticket(&self, token_id: u64, owner: &Principal) -> (r: Result<bool, Error>)
        ensures
            match r {
                Ok(b) => self.has_ticket(token_id) && b == (self.ticket_at(token_id).is_valid
                    && self.ticket_at(token_id).owner@ == owner@),
                Err(e) => !self.has_ticket(token_id) && e == Error::NotFound,
            },
    {
        if token_id >= 1 && token_id <= self.tickets.len() as u64 {
            let t = &self.tickets[(token_id - 1) as usize];
            Ok(t.is_valid && t.owner == *owner)
        } else {
            Err(Error::NotFound)
        }
    }

    /// Sells one ticket of an event to the caller: allocates the next token
    /// id, records the initial transfer from the organizer at the event's
    /// current price, decrements availability and appends the token to the
    /// caller's owner index. Payment settlement is an external concern and
    /// is treated as already succeeded.
    pub fn purchase_ticket(&mut self, caller: &Principal, event_id: u64, now: u64) -> (r: Result<
        Ticket,
        Error,
    >)
        requires
            old(self).wf(),
        ensures
            final(self).wf(),
            ({
                let s = *old(self);
                if !s.has_event(event_id) {
                    r == Err::<Ticket, Error>(Error::NotFound) && *final(self) == s
                } else if !s.event_at(event_id).is_active {
                    r == Err::<Ticket, Error>(Error::InvalidOperation) && *final(self) == s
                } else if s.event_at(event_id).available_tickets == 0 {
                    r == Err::<Ticket, Error>(Error::SoldOut) && *final(self) == s
                } else if s.event_at(event_id).date < now {
                    r == Err::<Ticket, Error>(Error::InvalidOperation) && *final(self) == s
                } else if s.tickets@.len() == u64::MAX {
                    r == Err::<Ticket, Error>(Error::InvalidOperation) && *final(self) == s
                } else {
                    let ev = s.event_at(event_id);
                    let t = final(self).tickets@.last();
                    &&& (r matches Ok(ret) && ret.same_as(t))
                    &&& final(self).tickets@.len() == s.tickets@.len() + 1
                    &&& forall|j: int|
                        0 <= j < s.tickets@.len() ==> final(self).tickets@[j] == s.tickets@[j]
                    &&& t.token_id == s.tickets@.len() + 1
                    &&& t.event_id == event_id
                    &&& t.owner@ == caller@
                    &&& t.original_price == ev.price
                    &&& t.current_price == ev.price
                    &&& t.is_valid
                    &&& t.purchase_history@.len() == 1
                    &&& t.purchase_history@[0].from@ == ev.organizer@
                    &&& t.purchase_history@[0].to@ == caller@
                    &&& t.purchase_history@[0].price == ev.price
                    &&& t.purchase_history@[0].timestamp == now
                    &&& (t.metadata matches Some(m) && {
                        &&& m.event_name == ev.name
                        &&& m.ticket_class@ == "Standard"@
                        &&& m.seat_info is None
                        &&& m.purchase_date == now
                    })
                    &&& final(self).events@ == s.events@.update(
                        event_id - 1,
                        Event {
                            available_tickets: (ev.available_tickets - 1) as u64,
                            ..ev
                        },
                    )
                    &&& final(self).user_roles@ == s.user_roles@
                    &&& final(self).organizer_events@ == s.organizer_events@
                    &&& final(self).owner == s.owner
                    &&& final(self).owned_tokens(caller@) == s.owned_tokens(caller@).push(
                        t.token_id,
                    )
                    &&& forall|q: Seq<char>|
                        q != caller@ ==> final(self).owned_tokens(q) == s.owned_tokens(q)
                }
            }),
    {
        if !(event_id >= 1 && event_id <= self.events.len() as u64) {
            return Err(Error::NotFound);
        }
        let idx = (event_id - 1) as usize;
        if !self.events[idx].is_active {
            return Err(Error::InvalidOperation);
        }
        if self.events[idx].available_tickets == 0 {
            return Err(Error::SoldOut);
        }
        if self.events[idx].date < now {
            return Err(Error::InvalidOperation);
        }
        if self.tickets.len() as u64 == u64::MAX {
            return Err(Error::InvalidOperation);
        }
        let token_id = self.tickets.len() as u64 + 1;
        let ev = &self.events[idx];
        let transfer = TicketTransfer {
            from: ev.organizer.clone(),
            to: caller.clone(),
            price: ev.price,
            timestamp: now,
        };
        let metadata = TicketMetadata {
            event_name: ev.name.clone(),
            ticket_class: String::from_str("Standard"),
            seat_info: None,
            purchase_date: now,
        };
        let mut history: Vec<TicketTransfer> = Vec::new();
        history.push(transfer);
        let ticket = Ticket {
            token_id,
            event_id,
            owner: caller.clone(),
            original_price: ev.price,
            current_price: ev.price,
            purchase_history: history,
            is_valid: true,
            metadata: Some(metadata),
        };
        proof {
            lemma_price_under_cap(ticket.original_price);
        }
        let new_ev = Event {
            event_id: ev.event_id,
            name: ev.name.clone(),
            date: ev.date,
            venue: ev.venue.clone(),
            price: ev.price,
            total_tickets: ev.total_tickets,
            available_tickets: ev.available_tickets - 1,
            organizer: ev.organizer.clone(),
            is_active: ev.is_active,
            description: ev.description.clone(),
            image_url: crate::types::clone_opt_string(&ev.image_url),
        };
        let result = ticket.clone();
        self.tickets.push(ticket);
        self.events.set(idx, new_ev);
        let ghost mid = *self;
        index_push(&mut self.user_tickets, caller, token_id);
        proof {
            let s_old = *old(self);
            let s_new = *self;
            let ut_old = s_old.user_tickets@;
            let ut_new = s_new.user_tickets@;
            let n = ut_old.len() as int;
            assert forall|i: int| 0 <= i < s_new.events@.len() implies {
                &&& (#[trigger] s_new.events@[i]).event_id == i + 1
                &&& s_new.events@[i].available_tickets <= s_new.events@[i].total_tickets
            } by {
                assert(s_old.events@[i].event_id == i + 1);
                if i != idx as int {
                    assert(s_new.events@[i] == s_old.events@[i]);
                }
            }
            assert forall|i: int| 0 <= i < s_new.tickets@.len() implies {
                &&& (#[trigger] s_new.tickets@[i]).token_id == i + 1
                &&& s_new.has_event(s_new.tickets@[i].event_id)
                &&& s_new.tickets@[i].purchase_history@.len() >= 1
                &&& s_new.tickets@[i].owner@ == s_new.tickets@[i].purchase_history@.last().to@
                &&& s_new.tickets@[i].current_price <= max_resale_price(
                    s_new.tickets@[i].original_price,
                )
            } by {
                if i < s_old.tickets@.len() {
                    assert(s_new.tickets@[i] == s_old.tickets@[i]);
                    assert(s_old.has_event(s_old.tickets@[i].event_id));
                } else {
                    assert(s_new.tickets@[i] == mid.tickets@.last());
                }
            }
            lemma_organizer_index_same(s_old, s_new);
            // Owner index: the caller's entry grew by the fresh token id;
            // every other entry is untouched and no old entry can already
            // hold the fresh id, which exceeds every old token id.
            if has_key(ut_old, caller@) {
                let ki = key_index(ut_old, caller@);
                assert(ut_old[ki].0@ == caller@);
                assert forall|i: int, j: int|
                    0 <= i < ut_new.len() && 0 <= j < ut_new[i].1@.len() implies {
                    &&& s_new.has_ticket(#[trigger] ut_new[i].1@[j])
                    &&& s_new.ticket_at(ut_new[i].1@[j]).owner@ == ut_new[i].0@
                } by {
                    if i == ki && j == ut_new[i].1@.len() - 1 {
                        assert(ut_new[i].1@[j] == token_id);
                        assert(s_new.ticket_at(token_id) == mid.tickets@.last());
                    } else {
                        assert(ut_old[i].1@[j] == ut_new[i].1@[j]);
                        assert(s_old.has_ticket(ut_old[i].1@[j]));
                        assert(s_new.ticket_at(ut_new[i].1@[j]) == s_old.ticket_at(
                            ut_old[i].1@[j],
                        ));
                    }
                }
                assert forall|i: int, j: int, k: int|
                    0 <= i < ut_new.len() && 0 <= j < k < ut_new[i].1@.len() implies (
                #[trigger] ut_new[i].1@[j]) != (#[trigger] ut_new[i].1@[k]) by {
                    if i == ki && k == ut_new[i].1@.len() - 1 {
                        assert(ut_new[i].1@[j] == ut_old[i].1@[j]);
                        assert(s_old.has_ticket(ut_old[i].1@[j]));
                    }
                }
                assert forall|t: int| 0 <= t < s_new.tickets@.len() implies {
                    &&& has_key(ut_new, (#[trigger] s_new.tickets@[t]).owner@)
                    &&& s_new.owned_tokens(s_new.tickets@[t].owner@).contains((t + 1) as u64)
                } by {
                    if t < s_old.tickets@.len() {
                        assert(s_new.tickets@[t] == s_old.tickets@[t]);
                        let q = s_old.tickets@[t].owner@;
                        assert(has_key(ut_old, q));
                        assert(key_index(ut_new, q) == key_index(ut_old, q));
                        if key_index(ut_old, q) == ki {
                            assert(s_new.owned_tokens(q) == s_old.owned_tokens(q).push(token_id));
                            assert(s_old.owned_tokens(q).contains((t + 1) as u64));
                            let w = choose|w: int|
                                0 <= w < s_old.owned_tokens(q).len() && s_old.owned_tokens(q)[w]
                                    == (t + 1) as u64;
                            assert(s_new.owned_tokens(q)[w] == (t + 1) as u64);
                        } else {
                            assert(ut_new[key_index(ut_old, q)] == ut_old[key_index(ut_old, q)]);
                        }
                    } else {
                        assert(s_new.tickets@[t] == mid.tickets@.last());
                        assert(s_new.tickets@[t].owner@ == caller@);
                        assert(s_new.owned_tokens(caller@).last() == token_id);
                    }
                }
            } else {
                assert(s_old.owned_tokens(caller@) == Seq::<u64>::empty());
                assert(ut_new.last().1@ == seq![token_id]);
                assert(s_new.owned_tokens(caller@) =~= s_old.owned_tokens(caller@).push(
                    token_id,
                ));
                assert forall|i: int, j: int|
                    0 <= i < ut_new.len() && 0 <= j < ut_new[i].1@.len() implies {
                    &&& s_new.has_ticket(#[trigger] ut_new[i].1@[j])
                    &&& s_new.ticket_at(ut_new[i].1@[j]).owner@ == ut_new[i].0@
                } by {
                    if i == n {
                        assert(ut_new[i].1@ == seq![token_id]);
                        assert(ut_new[i].1@[j] == token_id);
                        assert(s_new.ticket_at(token_id) == mid.tickets@.last());
                    } else {
                        assert(ut_old[i] == ut_new[i]);
                        assert(s_old.has_ticket(ut_old[i].1@[j]));
                        assert(s_new.ticket_at(ut_new[i].1@[j]) == s_old.ticket_at(
                            ut_old[i].1@[j],
                        ));
                    }
                }
                assert forall|i: int, j: int, k: int|
                    0 <= i < ut_new.len() && 0 <= j < k < ut_new[i].1@.len() implies (
                #[trigger] ut_new[i].1@[j]) != (#[trigger] ut_new[i].1@[k]) by {
                    if i < n {
                        assert(ut_old[i] == ut_new[i]);
                    } else {
                        assert(ut_new[i].1@.len() == 1);
                    }
                }
                assert forall|t: int| 0 <= t < s_new.tickets@.len() implies {
                    &&& has_key(ut_new, (#[trigger] s_new.tickets@[t]).owner@)
                    &&& s_new.owned_tokens(s_new.tickets@[t].owner@).contains((t + 1) as u64)
                } by {
                    if t < s_old.tickets@.len() {
                        assert(s_new.tickets@[t] == s_old.tickets@[t]);
                        let q = s_old.tickets@[t].owner@;
                        assert(has_key(ut_old, q));
                        assert(key_index(ut_new, q) == key_index(ut_old, q));
                        assert(ut_new[key_index(ut_old, q)] == ut_old[key_index(ut_old, q)]);
                    } else {
                        assert(s_new.tickets@[t] == mid.tickets@.last());
                        assert(s_new.tickets@[t].owner@ == caller@);
                        assert(s_new.owned_tokens(caller@) == seq![token_id]);
                        assert(s_new.owned_tokens(caller@)[0] == (t + 1) as u64);
                    }
                }
            }
            assert forall|q: Seq<char>| q != caller@ implies s_new.owned_tokens(q)
                == s_old.owned_tokens(q) by {
                if has_key(ut_old, q) {
                    assert(key_index(ut_new, q) == key_index(ut_old, q));
                    assert(key_index(ut_old, q) != key_index(ut_new, caller@));
                }
            }
        }
        Ok(result)
    }

    /// Lists a ticket for resale by setting its current price; ownership is
    /// untouched. Only the current owner may list, and the price may not
    /// exceed `floor(original_price * 6 / 5)`, a resale multiplier of 1.2.
    pub fn list_ticket_for_resale(
        &mut self,
        caller: &Principal,
        token_id: u64,
        price: u64,
    ) -> (r: Result<Ticket, Error>)
        requires
            old(self).wf(),
        ensures
            final(self).wf(),
            ({
                let s = *old(self);
                if !s.has_ticket(token_id) {
                    r == Err::<Ticket, Error>(Error::NotFound) && *final(self) == s
                } else if s.ticket_at(token_id).owner@ != caller@ {
                    r == Err::<Ticket, Error>(Error::NotAuthorized) && *final(self) == s
                } else if price > max_resale_price(s.ticket_at(token_id).original_price) {
                    r == Err::<Ticket, Error>(Error::LimitExceeded) && *final(self) == s
                } else {
                    let old_t = s.ticket_at(token_id);
                    let t = final(self).ticket_at(token_id);
                    &&& (r matches Ok(ret) && ret.same_as(t))
                    &&& t.current_price == price
                    &&& t.token_id == old_t.token_id
                    &&& t.event_id == old_t.event_id
                    &&& t.owner == old_t.owner
                    &&& t.original_price == old_t.original_price
                    &&& t.purchase_history@ == old_t.purchase_history@
                    &&& t.is_valid == old_t.is_valid
                    &&& t.metadata == old_t.metadata
                    &&& final(self).tickets@ == s.tickets@.update(token_id - 1, t)
                    &&& final(self).events@ == s.events@
                    &&& final(self).user_roles@ == s.user_roles@
                    &&& final(self).user_tickets@ == s.user_tickets@
                    &&& final(self).organizer_events@ == s.organizer_events@
                    &&& final(self).owner == s.owner
                }
            }),
    {
        if !(token_id >= 1 && token_id <= self.tickets.len() as u64) {
            return Err(Error::NotFound);
        }
        let idx = (token_id - 1) as usize;
        if !(self.tickets[idx].owner == *caller) {
            return Err(Error::NotAuthorized);
        }
        let original = self.tickets[idx].original_price;
        if (price as u128) > (original as u128) * 6 / 5 {
            return Err(Error::LimitExceeded);
        }
        let t = &self.tickets[idx];
        let new_t = Ticket {
            token_id: t.token_id,
            event_id: t.event_id,
            owner: t.owner.clone(),
            original_price: t.original_price,
            current_price: price,
            purchase_history: crate::types::clone_transfers(&t.purchase_history),
            is_valid: t.is_valid,
            metadata: crate::types::clone_opt_metadata(&t.metadata),
        };
        let result = new_t.clone();
        self.tickets.set(idx, new_t);
        proof {
            self.lemma_ticket_fields_update(*old(self));
        }
        Ok(result)
    }

    /// Hands a ticket to a new owner: appends a transfer record at the given
    /// price, rewrites the owner field, and moves the token id from the
    /// previous owner's index entry to the new owner's. The one internal
    /// reassignment path shared by resale purchase and direct transfer.
    #[verifier::rlimit(100)]
    #[verifier::spinoff_prover]
    fn move_ticket(&mut self, token_id: u64, new_owner: &Principal, price: u64, now: u64) -> (r:
        Ticket)
        requires
            old(self).wf(),
            old(self).has_ticket(token_id),
            old(self).ticket_at(token_id).owner@ != new_owner@,
        ensures
            final(self).wf(),
            ({
                let s = *old(self);
                let old_t = s.ticket_at(token_id);
                let t = final(self).ticket_at(token_id);
                &&& r.same_as(t)
                &&& t.token_id == old_t.token_id
                &&& t.event_id == old_t.event_id
                &&& t.owner@ == new_owner@
                &&& t.original_price == old_t.original_price
                &&& t.current_price == old_t.current_price
                &&& t.is_valid == old_t.is_valid
                &&& t.metadata == old_t.metadata
                &&& t.purchase_history@.len() == old_t.purchase_history@.len() + 1
                &&& forall|j: int|
                    0 <= j < old_t.purchase_history@.len() ==> t.purchase_history@[j]
                        == old_t.purchase_history@[j]
                &&& t.purchase_history@.last().from == old_t.owner
                &&& t.purchase_history@.last().to@ == new_owner@
                &&& t.purchase_history@.last().price == price
                &&& t.purchase_history@.last().timestamp == now
                &&& final(self).tickets@ == s.tickets@.update(token_id - 1, t)
                &&& final(self).events@ == s.events@
                &&& final(self).user_roles@ == s.user_roles@
                &&& final(self).organizer_events@ == s.organizer_events@
                &&& final(self).owner == s.owner
                &&& final(self).owned_tokens(new_owner@) == s.owned_tokens(new_owner@).push(
                    token_id,
                )
                &&& ({
                    let toks = s.owned_tokens(old_t.owner@);
                    let k = toks.index_of(token_id);
                    &&& 0 <= k < toks.len()
                    &&& toks[k] == token_id
                    &&& final(self).owned_tokens(old_t.owner@) == toks.remove(k)
                })
                &&& forall|q: Seq<char>|
                    q != new_owner@ && q != old_t.owner@ ==> final(self).owned_tokens(q)
                        == s.owned_tokens(q)
            }),
    {
        let tlen = self.tickets.len();
        proof {
            assert(token_id - 1 < tlen as int);
        }
        let idx = (token_id - 1) as usize;
        let prev = self.tickets[idx].owner.clone();
        proof {
            assert(prev == old(self).ticket_at(token_id).owner);
        }
        let t = &self.tickets[idx];
        let transfer = TicketTransfer {
            from: t.owner.clone(),
            to: new_owner.clone(),
            price,
            timestamp: now,
        };
        let mut history = crate::types::clone_transfers(&t.purchase_history);
        history.push(transfer);
        let new_t = Ticket {
            token_id: t.token_id,
            event_id: t.event_id,
            owner: new_owner.clone(),
            original_price: t.original_price,
            current_price: t.current_price,
            purchase_history: history,
            is_valid: t.is_valid,
            metadata: crate::types::clone_opt_metadata(&t.metadata),
        };
        let result = new_t.clone();
        self.tickets.set(idx, new_t);
        let ghost s_old = *old(self);
        let ghost mid = *self;
        let pi_opt = crate::store::find_key(&self.user_tickets, &prev);
        proof {
            assert(has_key(s_old.user_tickets@, s_old.tickets@[token_id - 1].owner@));
        }
        let pi = match pi_opt {
            Some(i) => i,
            None => {
                proof {
                    assert(false);
                }
                0
            },
        };
        proof {
            crate::store::lemma_key_index(s_old.user_tickets@, prev@, pi as int);
            assert(s_old.owned_tokens(prev@) == s_old.user_tickets@[pi as int].1@);
            let ghost ti = token_id - 1;
            assert(s_old.tickets@[ti].owner@ == prev@);
            assert(s_old.owned_tokens(s_old.tickets@[ti].owner@).contains((ti + 1) as u64));
            assert((ti + 1) as u64 == token_id);
            assert(s_old.owned_tokens(prev@).contains(token_id));
        }
        crate::store::index_remove(&mut self.user_tickets, pi, token_id);
        let ghost mid2 = *self;
        index_push(&mut self.user_tickets, new_owner, token_id);
        proof {
            let s_new = *self;
            let ut_old = s_old.user_tickets@;
            let ut_mid2 = mid2.user_tickets@;
            let ut_new = s_new.user_tickets@;
            let toks_prev = ut_old[pi as int].1@;
            let k = toks_prev.index_of(token_id);
            let n2 = ut_mid2.len() as int;
            // Tickets stay well formed: only one ticket changed, and its
            // owner is the `to` of its freshly appended last record.
            assert forall|i: int| 0 <= i < s_new.tickets@.len() implies {
                &&& (#[trigger] s_new.tickets@[i]).token_id == i + 1
                &&& s_new.has_event(s_new.tickets@[i].event_id)
                &&& s_new.tickets@[i].purchase_history@.len() >= 1
                &&& s_new.tickets@[i].owner@ == s_new.tickets@[i].purchase_history@.last().to@
                &&& s_new.tickets@[i].current_price <= max_resale_price(
                    s_new.tickets@[i].original_price,
                )
            } by {
                assert(s_old.tickets@[i].token_id == i + 1);
                assert(s_old.has_event(s_old.tickets@[i].event_id));
                if i != token_id - 1 {
                    assert(s_new.tickets@[i] == s_old.tickets@[i]);
                }
            }
            lemma_organizer_index_same(s_old, s_new);
            // The previous owner's entry lost exactly the moved token.
            assert(key_index(ut_mid2, prev@) == pi as int);
            assert(ut_mid2[pi as int].1@ == toks_prev.remove(k));
            assert(forall|w: int|
                0 <= w < toks_prev.len() && w != k ==> toks_prev[w] != token_id);
            assert forall|w: int| 0 <= w < ut_mid2[pi as int].1@.len() implies {
                &&& (#[trigger] ut_mid2[pi as int].1@[w]) != token_id
                &&& toks_prev.contains(ut_mid2[pi as int].1@[w])
            } by {
                if w < k {
                    assert(ut_mid2[pi as int].1@[w] == toks_prev[w]);
                } else {
                    assert(ut_mid2[pi as int].1@[w] == toks_prev[w + 1]);
                }
            }
            let ghost prev_seq = prev@;
            if has_key(ut_old, new_owner@) {
                let ki = key_index(ut_old, new_owner@);
                assert(ut_old[ki].0@ == new_owner@);
                assert(ki != pi as int);
                assert(key_index(ut_mid2, new_owner@) == ki);
                assert(ut_mid2[ki] == ut_old[ki]);
                assert(key_index(ut_new, new_owner@) == ki);
                assert(ut_new[pi as int] == ut_mid2[pi as int]);
                assert(s_new.owned_tokens(new_owner@) == ut_old[ki].1@.push(token_id));
                assert(s_new.owned_tokens(prev@) == toks_prev.remove(k));
                // Forward: every listed token is owned by its entry's key.
                assert forall|i: int, j: int|
                    0 <= i < ut_new.len() && 0 <= j < ut_new[i].1@.len() implies {
                    &&& s_new.has_ticket(#[trigger] ut_new[i].1@[j])
                    &&& s_new.ticket_at(ut_new[i].1@[j]).owner@ == ut_new[i].0@
                } by {
                    if i == ki && j == ut_new[i].1@.len() - 1 {
                        assert(ut_new[i].1@[j] == token_id);
                        assert(s_new.ticket_at(token_id) == mid.tickets@[token_id - 1]);
                    } else {
                        let y = ut_new[i].1@[j];
                        if i == ki {
                            assert(y == ut_old[i].1@[j]);
                            assert(s_old.ticket_at(y).owner@ == new_owner@);
                            assert(y != token_id);
                        } else if i == pi as int {
                            assert(toks_prev.contains(y));
                            let w = choose|w: int|
                                0 <= w < toks_prev.len() && toks_prev[w] == y;
                            assert(s_old.ticket_at(y).owner@ == prev_seq);
                            assert(y != token_id);
                        } else {
                            assert(ut_new[i] == ut_old[i]);
                            assert(s_old.ticket_at(y).owner@ == ut_old[i].0@);
                            if y == token_id {
                                assert(s_old.ticket_at(token_id).owner@ == prev_seq);
                                assert(ut_old[i].0@ == prev_seq);
                                assert(i == pi as int);
                            }
                        }
                        assert(s_old.has_ticket(y));
                        assert(y != token_id);
                        assert(s_new.ticket_at(y) == s_old.ticket_at(y));
                    }
                }
                // Each entry still lists distinct tokens.
                assert forall|i: int, j: int, k2: int|
                    0 <= i < ut_new.len() && 0 <= j < k2 < ut_new[i].1@.len() implies (
                #[trigger] ut_new[i].1@[j]) != (#[trigger] ut_new[i].1@[k2]) by {
                    if i == ki {
                        if k2 == ut_new[i].1@.len() - 1 {
                            assert(ut_new[i].1@[j] == ut_old[i].1@[j]);
                            assert(s_old.ticket_at(ut_old[i].1@[j]).owner@ == new_owner@);
                            assert(ut_old[i].1@[j] != token_id);
                        } else {
                            assert(ut_new[i].1@[j] == ut_old[i].1@[j]);
                            assert(ut_new[i].1@[k2] == ut_old[i].1@[k2]);
                        }
                    } else if i == pi as int {
                        let a = ut_new[i].1@[j];
                        let b = ut_new[i].1@[k2];
                        if j < k && k2 < k {
                            assert(a == toks_prev[j] && b == toks_prev[k2]);
                        } else if j < k {
                            assert(a == toks_prev[j] && b == toks_prev[k2 + 1]);
                        } else {
                            assert(a == toks_prev[j + 1] && b == toks_prev[k2 + 1]);
                        }
                    } else {
                        assert(ut_new[i] == ut_old[i]);
                    }
                }
                // Reverse: every ticket is listed under its current owner.
                assert forall|t2: int| 0 <= t2 < s_new.tickets@.len() implies {
                    &&& has_key(ut_new, (#[trigger] s_new.tickets@[t2]).owner@)
                    &&& s_new.owned_tokens(s_new.tickets@[t2].owner@).contains((t2 + 1) as u64)
                } by {
                    if t2 == token_id - 1 {
                        assert(s_new.tickets@[t2].owner@ == new_owner@);
                        assert(s_new.owned_tokens(new_owner@).last() == token_id);
                    } else {
                        assert(s_new.tickets@[t2] == s_old.tickets@[t2]);
                        let q = s_old.tickets@[t2].owner@;
                        assert(has_key(ut_old, q));
                        let qi = key_index(ut_old, q);
                        assert(key_index(ut_new, q) == qi);
                        assert(s_old.owned_tokens(q).contains((t2 + 1) as u64));
                        if qi == pi as int {
                            let w = choose|w: int|
                                0 <= w < toks_prev.len() && toks_prev[w] == (t2 + 1) as u64;
                            assert(w != k);
                            if w < k {
                                assert(ut_new[qi].1@[w] == (t2 + 1) as u64);
                            } else {
                                assert(ut_new[qi].1@[w - 1] == (t2 + 1) as u64);
                            }
                            assert(s_new.owned_tokens(q).contains((t2 + 1) as u64));
                        } else if qi == ki {
                            let w = choose|w: int|
                                0 <= w < ut_old[ki].1@.len() && ut_old[ki].1@[w] == (t2
                                    + 1) as u64;
                            assert(s_new.owned_tokens(q)[w] == (t2 + 1) as u64);
                        } else {
                            assert(ut_new[qi] == ut_old[qi]);
                        }
                    }
                }
            } else {
                assert(s_old.owned_tokens(new_owner@) == Seq::<u64>::empty());
                assert(!has_key(ut_mid2, new_owner@));
                assert(ut_new.last().1@ == seq![token_id]);
                assert(ut_new.last().0@ == new_owner@);
                assert(key_index(ut_new, new_owner@) == n2);
                assert(s_new.owned_tokens(new_owner@) =~= s_old.owned_tokens(new_owner@).push(
                    token_id,
                ));
                assert(key_index(ut_new, prev@) == pi as int);
                assert(ut_new[pi as int] == ut_mid2[pi as int]);
                assert(s_new.owned_tokens(prev@) == toks_prev.remove(k));
                assert forall|i: int, j: int|
                    0 <= i < ut_new.len() && 0 <= j < ut_new[i].1@.len() implies {
                    &&& s_new.has_ticket(#[trigger] ut_new[i].1@[j])
                    &&& s_new.ticket_at(ut_new[i].1@[j]).owner@ == ut_new[i].0@
                } by {
                    if i == n2 {
                        assert(ut_new[i].1@ == seq![token_id]);
                        assert(ut_new[i].1@[j] == token_id);
                        assert(s_new.ticket_at(token_id) == mid.tickets@[token_id - 1]);
                    } else {
                        let y = ut_new[i].1@[j];
                        if i == pi as int {
                            assert(toks_prev.contains(y));
                            assert(s_old.ticket_at(y).owner@ == prev_seq);
                            assert(y != token_id);
                        } else {
                            assert(ut_new[i] == ut_old[i]);
                            assert(s_old.ticket_at(y).owner@ == ut_old[i].0@);
                            if y == token_id {
                                assert(s_old.ticket_at(token_id).owner@ == prev_seq);
                                assert(ut_old[i].0@ == prev_seq);
                                assert(i == pi as int);
                            }
                        }
                        assert(s_old.has_ticket(y));
                        assert(y != token_id);
                        assert(s_new.ticket_at(y) == s_old.ticket_at(y));
                    }
                }
                assert forall|i: int, j: int, k2: int|
                    0 <= i < ut_new.len() && 0 <= j < k2 < ut_new[i].1@.len() implies (
                #[trigger] ut_new[i].1@[j]) != (#[trigger] ut_new[i].1@[k2]) by {
                    if i == n2 {
                        assert(ut_new[i].1@.len() == 1);
                    } else if i == pi as int {
                        let a = ut_new[i].1@[j];
                        let b = ut_new[i].1@[k2];
                        if j < k && k2 < k {
                            assert(a == toks_prev[j] && b == toks_prev[k2]);
                        } else if j < k {
                            assert(a == toks_prev[j] && b == toks_prev[k2 + 1]);
                        } else {
                            assert(a == toks_prev[j + 1] && b == toks_prev[k2 + 1]);
                        }
                    } else {
                        assert(ut_new[i] == ut_old[i]);
                    }
                }
                assert forall|t2: int| 0 <= t2 < s_new.tickets@.len() implies {
                    &&& has_key(ut_new, (#[trigger] s_new.tickets@[t2]).owner@)
                    &&& s_new.owned_tokens(s_new.tickets@[t2].owner@).contains((t2 + 1) as u64)
                } by {
                    if t2 == token_id - 1 {
                        assert(s_new.tickets@[t2].owner@ == new_owner@);
                        assert(s_new.owned_tokens(new_owner@)[0] == token_id);
                    } else {
                        assert(s_new.tickets@[t2] == s_old.tickets@[t2]);
                        let q = s_old.tickets@[t2].owner@;
                        assert(has_key(ut_old, q));
                        let qi = key_index(ut_old, q);
                        assert(key_index(ut_mid2, q) == qi);
                        assert(key_index(ut_new, q) == qi);
                        assert(s_old.owned_tokens(q).contains((t2 + 1) as u64));
                        if qi == pi as int {
                            let w = choose|w: int|
                                0 <= w < toks_prev.len() && toks_prev[w] == (t2 + 1) as u64;
                            assert(w != k);
                            if w < k {
                                assert(ut_new[qi].1@[w] == (t2 + 1) as u64);
                            } else {
                                assert(ut_new[qi].1@[w - 1] == (t2 + 1) as u64);
                            }
                            assert(s_new.owned_tokens(q).contains((t2 + 1) as u64));
                        } else {
                            assert(ut_new[qi] == ut_old[qi]);
                        }
                    }
                }
            }
            // Entries of principals other than the two parties are untouched.
            assert forall|q: Seq<char>| q != new_owner@ && q != prev_seq implies s_new.owned_tokens(
                q,
            ) == s_old.owned_tokens(q) by {
                if has_key(ut_old, q) {
                    let qi = key_index(ut_old, q);
                    assert(key_index(ut_mid2, q) == qi);
                    assert(key_index(ut_new, q) == qi);
                    assert(qi != pi as int);
                    assert(ut_mid2[qi] == ut_old[qi]);
                    if has_key(ut_old, new_owner@) {
                        assert(qi != key_index(ut_old, new_owner@));
                        assert(ut_new[qi] == ut_mid2[qi]);
                    } else {
                        assert(qi < n2);
                        assert(ut_new[qi] == ut_mid2[qi]);
                    }
                } else {
                    assert(!has_key(ut_mid2, q));
                    assert(!has_key(ut_new, q));
                }
            }
        }
        result
    }

    /// Buys a listed ticket at its current price: fails when the buyer
    /// already owns it or the event is inactive or past its date; otherwise
    /// appends a transfer from the previous owner at the current price and
    /// moves the token between the two owners' index entries. Payment
    /// settlement is out of scope.
    pub fn buy_resale_ticket(&mut self, caller: &Principal, token_id: u64, now: u64) -> (r: Result<
        Ticket,
        Error,
    >)
        requires
            old(self).wf(),
        ensures
            final(self).wf(),
            ({
                let s = *old(self);
                if !s.has_ticket(token_id) {
                    r == Err::<Ticket, Error>(Error::NotFound) && *final(self) == s
                } else if s.ticket_at(token_id).owner@ == caller@ {
                    r == Err::<Ticket, Error>(Error::InvalidOperation) && *final(self) == s
                } else if !s.event_at(s.ticket_at(token_id).event_id).is_active || s.event_at(
                    s.ticket_at(token_id).event_id,
                ).date < now {
                    r == Err::<Ticket, Error>(Error::InvalidOperation) && *final(self) == s
                } else {
                    let old_t = s.ticket_at(token_id);
                    let t = final(self).ticket_at(token_id);
                    &&& (r matches Ok(ret) && ret.same_as(t))
                    &&& t.owner@ == caller@
                    &&& t.current_price == old_t.current_price
                    &&& t.purchase_history@.len() == old_t.purchase_history@.len() + 1
                    &&& forall|j: int|
                        0 <= j < old_t.purchase_history@.len() ==> t.purchase_history@[j]
                            == old_t.purchase_history@[j]
                    &&& t.purchase_history@.last().from == old_t.owner
                    &&& t.purchase_history@.last().to@ == caller@
                    &&& t.purchase_history@.last().price == old_t.current_price
                    &&& t.purchase_history@.last().timestamp == now
                    &&& t.token_id == old_t.token_id
                    &&& t.event_id == old_t.event_id
                    &&& t.original_price == old_t.original_price
                    &&& t.is_valid == old_t.is_valid
                    &&& t.metadata == old_t.metadata
                    &&& final(self).tickets@ == s.tickets@.update(token_id - 1, t)
                    &&& final(self).events@ == s.events@
                    &&& final(self).user_roles@ == s.user_roles@
                    &&& final(self).organizer_events@ == s.organizer_events@
                    &&& final(self).owner == s.owner
                    &&& final(self).owned_tokens(caller@) == s.owned_tokens(caller@).push(
                        token_id,
                    )
                    &&& ({
                        let toks = s.owned_tokens(old_t.owner@);
                        let k = toks.index_of(token_id);
                        &&& 0 <= k < toks.len()
                        &&& toks[k] == token_id
                        &&& final(self).owned_tokens(old_t.owner@) == toks.remove(k)
                    })
                    &&& forall|q: Seq<char>|
                        q != caller@ && q != old_t.owner@ ==> final(self).owned_tokens(q)
                            == s.owned_tokens(q)
                }
            }),
    {
        if !(token_id >= 1 && token_id <= self.tickets.len() as u64) {
            return Err(Error::NotFound);
        }
        let idx = (token_id - 1) as usize;
        if self.tickets[idx].owner == *caller {
            return Err(Error::InvalidOperation);
        }
        let event_id = self.tickets[idx].event_id;
        let elen = self.events.len();
        proof {
            assert(old(self).has_event(event_id));
            assert(event_id - 1 < elen as int);
        }
        let eidx = (event_id - 1) as usize;
        if !self.events[eidx].is_active || self.events[eidx].date < now {
            return Err(Error::InvalidOperation);
        }
        let price = self.tickets[idx].current_price;
        let ticket = self.move_ticket(token_id, caller, price, now);
        Ok(ticket)
    }

    /// Gives a ticket away: only the current owner may transfer, never to
    /// themselves. Records a zero-price transfer and moves the token between
    /// the two owners' index entries.
    pub fn transfer_ticket(
        &mut self,
        caller: &Principal,
        token_id: u64,
        recipient: Principal,
        now: u64,
    ) -> (r: Result<Ticket, Error>)
        requires
            old(self).wf(),
        ensures
            final(self).wf(),
            ({
                let s = *old(self);
                if !s.has_ticket(token_id) {
                    r == Err::<Ticket, Error>(Error::NotFound) && *final(self) == s
                } else if s.ticket_at(token_id).owner@ != caller@ {
                    r == Err::<Ticket, Error>(Error::NotAuthorized) && *final(self) == s
                } else if recipient@ == caller@ {
                    r == Err::<Ticket, Error>(Error::InvalidOperation) && *final(self) == s
                } else {
                    let old_t = s.ticket_at(token_id);
                    let t = final(self).ticket_at(token_id);
                    &&& (r matches Ok(ret) && ret.same_as(t))
                    &&& t.owner@ == recipient@
                    &&& t.purchase_history@.len() == old_t.purchase_history@.len() + 1
                    &&& forall|j: int|
                        0 <= j < old_t.purchase_history@.len() ==> t.purchase_history@[j]
                            == old_t.purchase_history@[j]
                    &&& t.purchase_history@.last().from == old_t.owner
                    &&& t.purchase_history@.last().to@ == recipient@
                    &&& t.purchase_history@.last().price == 0
                    &&& t.purchase_history@.last().timestamp == now
                    &&& t.token_id == old_t.token_id
                    &&& t.event_id == old_t.event_id
                    &&& t.original_price == old_t.original_price
                    &&& t.current_price == old_t.current_price
                    &&& t.is_valid == old_t.is_valid
                    &&& t.metadata == old_t.metadata
                    &&& final(self).tickets@ == s.tickets@.update(token_id - 1, t)
                    &&& final(self).events@ == s.events@
                    &&& final(self).user_roles@ == s.user_roles@
                    &&& final(self).organizer_events@ == s.organizer_events@
                    &&& final(self).owner == s.owner
                    &&& final(self).owned_tokens(recipient@) == s.owned_tokens(recipient@).push(
                        token_id,
                    )
                    &&& ({
                        let toks = s.owned_tokens(caller@);
                        let k = toks.index_of(token_id);
                        &&& 0 <= k < toks.len()
                        &&& toks[k] == token_id
                        &&& final(self).owned_tokens(caller@) == toks.remove(k)
                    })
                    &&& forall|q: Seq<char>|
                        q != recipient@ && q != caller@ ==> final(self).owned_tokens(q)
                            == s.owned_tokens(q)
                }
            }),
    {
        if !(token_id >= 1 && token_id <= self.tickets.len() as u64) {
            return Err(Error::NotFound);
        }
        let idx = (token_id - 1) as usize;
        if !(self.tickets[idx].owner == *caller) {
            return Err(Error::NotAuthorized);
        }
        if recipient == *caller {
            return Err(Error::InvalidOperation);
        }
        let ticket = self.move_ticket(token_id, &recipient, 0, now);
        Ok(ticket)
    }

    /// Marks a ticket invalid: a terminal flag; ownership and history stay
    /// meaningful for audit. Only the event's organizer or the platform
    /// owner may invalidate — deliberately not the `Admin` role.
    pub fn invalidate_ticket(&mut self, caller: &Principal, token_id: u64) -> (r: Result<
        Ticket,
        Error,
    >)
        requires
            old(self).wf(),
        ensures
            final(self).wf(),
            ({
                let s = *old(self);
                if !s.has_ticket(token_id) {
                    r == Err::<Ticket, Error>(Error::NotFound) && *final(self) == s
                } else if s.event_at(s.ticket_at(token_id).event_id).organizer@ != caller@
                    && s.owner@ != caller@ {
                    r == Err::<Ticket, Error>(Error::NotAuthorized) && *final(self) == s
                } else {
                    let old_t = s.ticket_at(token_id);
                    let t = final(self).ticket_at(token_id);
                    &&& (r matches Ok(ret) && ret.same_as(t))
                    &&& !t.is_valid
                    &&& t.token_id == old_t.token_id
                    &&& t.event_id == old_t.event_id
                    &&& t.owner == old_t.owner
                    &&& t.original_price == old_t.original_price
                    &&& t.current_price == old_t.current_price
                    &&& t.purchase_history@ == old_t.purchase_history@
                    &&& t.metadata == old_t.metadata
                    &&& final(self).tickets@ == s.tickets@.update(token_id - 1, t)
                    &&& final(self).events@ == s.events@
                    &&& final(self).user_roles@ == s.user_roles@
                    &&& final(self).user_tickets@ == s.user_tickets@
                    &&& final(self).organizer_events@ == s.organizer_events@
                    &&& final(self).owner == s.owner
                }
            }),
    {
        if !(token_id >= 1 && token_id <= self.tickets.len() as u64) {
            return Err(Error::NotFound);
        }
        let idx = (token_id - 1) as usize;
        let event_id = self.tickets[idx].event_id;
        let elen = self.events.len();
        proof {
            assert(old(self).has_event(event_id));
            assert(event_id - 1 < elen as int);
        }
        let eidx = (event_id - 1) as usize;
        if !(self.events[eidx].organizer == *caller || self.owner == *caller) {
            return Err(Error::NotAuthorized);
        }
        let t = &self.tickets[idx];
        let new_t = Ticket {
            token_id: t.token_id,
            event_id: t.event_id,
            owner: t.owner.clone(),
            original_price: t.original_price,
            current_price: t.current_price,
            purchase_history: crate::types::clone_transfers(&t.purchase_history),
            is_valid: false,
            metadata: crate::types::clone_opt_metadata(&t.metadata),
        };
        let result = new_t.clone();
        self.tickets.set(idx, new_t);
        proof {
            self.lemma_ticket_fields_update(*old(self));
        }
        Ok(result)
    }

    /// One ticket changed in place, its id, event, owner, history shape and
    /// price cap kept sound: the whole store stays well formed.
    proof fn lemma_ticket_fields_update(self, s_old: TicketingSystem)
        requires
            s_old.wf(),
            self.tickets@.len() == s_old.tickets@.len(),
            forall|i: int|
                0 <= i < s_old.tickets@.len() ==> {
                    &&& (#[trigger] self.tickets@[i]).token_id == s_old.tickets@[i].token_id
                    &&& self.tickets@[i].event_id == s_old.tickets@[i].event_id
                    &&& self.tickets@[i].owner == s_old.tickets@[i].owner
                    &&& self.tickets@[i].purchase_history@ == s_old.tickets@[i].purchase_history@
                    &&& self.tickets@[i].current_price <= max_resale_price(
                        self.tickets@[i].original_price,
                    )
                },
            self.events@ == s_old.events@,
            self.user_roles@ == s_old.user_roles@,
            self.user_tickets@ == s_old.user_tickets@,
            self.organizer_events@ == s_old.organizer_events@,
        ensures
            self.wf(),
    {
        assert forall|i: int| 0 <= i < self.tickets@.len() implies {
            &&& (#[trigger] self.tickets@[i]).token_id == i + 1
            &&& self.has_event(self.tickets@[i].event_id)
            &&& self.tickets@[i].purchase_history@.len() >= 1
            &&& self.tickets@[i].owner@ == self.tickets@[i].purchase_history@.last().to@
            &&& self.tickets@[i].current_price <= max_resale_price(self.tickets@[i].original_price)
        } by {
            assert(s_old.tickets@[i].token_id == i + 1);
            assert(s_old.has_event(s_old.tickets@[i].event_id));
            assert(s_old.tickets@[i].purchase_history@.len() >= 1);
            assert(s_old.tickets@[i].owner@ == s_old.tickets@[i].purchase_history@.last().to@);
        }
        lemma_owner_index_same_owners(s_old, self);
        lemma_organizer_index_same(s_old, self);
    }
}

} // verus!

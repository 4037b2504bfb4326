//! Event registry: creating, updating, cancelling and reading event records.

use vstd::prelude::*;

use crate::store::has_key;
use crate::store::index_push;
use crate::store::key_index;
use crate::store::lemma_owner_index_same;
use crate::store::lemma_tickets_wf_same;
use crate::store::TicketingSystem;
use crate::types::clone_opt_string;
use crate::types::Error;
use crate::types::Event;
use crate::types::Principal;
use crate::types::Role;

verus! {

/// The value of a partial-update field: the requested value when present,
/// the stored one otherwise.
pub open spec fn opt_or<T>(o: Option<T>, stored: T) -> T {
    match o {
        Some(v) => v,
        None => stored,
    }
}

impl TicketingSystem {
    /// Allocates the next event id and stores a new active event organized
    /// by the caller, with every ticket still available. Fails only when the
    /// id space is exhausted.
    pub fn create_event(
        &mut self,
        caller: &Principal,
        name: String,
        date: u64,
        venue: String,
        price: u64,
        total_tickets: u64,
        description: String,
        image_url: Option<String>,
    ) -> (r: Result<Event, Error>)
        requires
            old(self).wf(),
        ensures
            final(self).wf(),
            ({
                let s = *old(self);
                if s.events@.len() == u64::MAX {
                    r == Err::<Event, Error>(Error::InvalidOperation) && *final(self) == s
                } else {
                    let ev = final(self).events@.last();
                    &&& r == Ok::<Event, Error>(ev)
                    &&& final(self).events@.len() == s.events@.len() + 1
                    &&& forall|j: int| 0 <= j < s.events@.len() ==> final(self).events@[j] == s.events@[j]
                    &&& ev.event_id == s.events@.len() + 1
                    &&& ev.name == name
                    &&& ev.date == date
                    &&& ev.venue == venue
                    &&& ev.price == price
                    &&& ev.total_tickets == total_tickets
                    &&& ev.available_tickets == total_tickets
                    &&& ev.organizer@ == caller@
                    &&& ev.is_active
                    &&& ev.description == description
                    &&& ev.image_url == image_url
                    &&& final(self).tickets@ == s.tickets@
                    &&& final(self).user_roles@ == s.user_roles@
                    &&& final(self).user_tickets@ == s.user_tickets@
                    &&& final(self).owner == s.owner
                    &&& final(self).organized_events(caller@) == s.organized_events(caller@).push(
                        ev.event_id,
                    )
                    &&& forall|q: Seq<char>|
                        q != caller@ ==> final(self).organized_events(q) == s.organized_events(q)
                }
            }),
    {
        let next = self.events.len() as u64;
        if next == u64::MAX {
            return Err(Error::InvalidOperation);
        }
        let event_id = next + 1;
        let ev = Event {
            event_id,
            name,
            date,
            venue,
            price,
            total_tickets,
            available_tickets: total_tickets,
            organizer: caller.clone(),
            is_active: true,
            description,
            image_url,
        };
        let result = ev.clone();
        self.events.push(ev);
        let ghost mid = *self;
        proof {
            assert(has_key(old(self).organizer_events@, caller@) == has_key(
                mid.organizer_events@,
                caller@,
            ));
        }
        index_push(&mut self.organizer_events, caller, event_id);
        proof {
            let s_old = *old(self);
            let s_new = *self;
            let oe_old = s_old.organizer_events@;
            let oe_new = s_new.organizer_events@;
            let n = oe_old.len() as int;
            lemma_tickets_wf_same(s_old, s_new);
            lemma_owner_index_same(s_old, s_new);
            // The new entry or the extended entry lists the new event last;
            // everything else is as before.
            if has_key(oe_old, caller@) {
                let ki = key_index(oe_old, caller@);
                assert(oe_old[ki].0@ == caller@);
                assert forall|i: int, j: int|
                    0 <= i < oe_new.len() && 0 <= j < oe_new[i].1@.len() implies {
                    &&& s_new.has_event(#[trigger] oe_new[i].1@[j])
                    &&& s_new.event_at(oe_new[i].1@[j]).organizer@ == oe_new[i].0@
                } by {
                    if i == ki && j == oe_new[i].1@.len() - 1 {
                        assert(oe_new[i].1@[j] == event_id);
                        assert(s_new.event_at(event_id) == mid.events@.last());
                    } else {
                        assert(oe_old[i].1@[j] == oe_new[i].1@[j]);
                        assert(s_old.has_event(oe_old[i].1@[j]));
                        assert(s_new.event_at(oe_new[i].1@[j]) == s_old.event_at(
                            oe_old[i].1@[j],
                        ));
                    }
                }
                assert forall|i: int, j: int, k: int|
                    0 <= i < oe_new.len() && 0 <= j < k < oe_new[i].1@.len() implies (
                #[trigger] oe_new[i].1@[j]) != (#[trigger] oe_new[i].1@[k]) by {
                    if i == ki && k == oe_new[i].1@.len() - 1 {
                        assert(oe_new[i].1@[j] == oe_old[i].1@[j]);
                        assert(s_old.has_event(oe_old[i].1@[j]));
                    }
                }
                assert forall|e: int| 0 <= e < s_new.events@.len() implies {
                    &&& has_key(oe_new, (#[trigger] s_new.events@[e]).organizer@)
                    &&& s_new.organized_events(s_new.events@[e].organizer@).contains(
                        (e + 1) as u64,
                    )
                } by {
                    if e < s_old.events@.len() {
                        assert(s_new.events@[e] == s_old.events@[e]);
                        let q = s_old.events@[e].organizer@;
                        assert(has_key(oe_old, q));
                        assert(key_index(oe_new, q) == key_index(oe_old, q));
                        if key_index(oe_old, q) == ki {
                            assert(s_new.organized_events(q) == s_old.organized_events(q).push(
                                event_id,
                            ));
                            assert(s_old.organized_events(q).contains((e + 1) as u64));
                            let w = choose|w: int|
                                0 <= w < s_old.organized_events(q).len() && s_old.organized_events(
                                    q,
                                )[w] == (e + 1) as u64;
                            assert(s_new.organized_events(q)[w] == (e + 1) as u64);
                        } else {
                            assert(oe_new[key_index(oe_old, q)] == oe_old[key_index(oe_old, q)]);
                        }
                    } else {
                        assert(s_new.events@[e] == mid.events@.last());
                        assert(s_new.events@[e].organizer@ == caller@);
                        assert(s_new.organized_events(caller@).last() == event_id);
                    }
                }
            } else {
                assert(s_old.organized_events(caller@) == Seq::<u64>::empty());
                assert(oe_new.last().1@ == seq![event_id]);
                assert(s_new.organized_events(caller@) =~= s_old.organized_events(caller@).push(
                    event_id,
                ));
                assert forall|i: int, j: int|
                    0 <= i < oe_new.len() && 0 <= j < oe_new[i].1@.len() implies {
                    &&& s_new.has_event(#[trigger] oe_new[i].1@[j])
                    &&& s_new.event_at(oe_new[i].1@[j]).organizer@ == oe_new[i].0@
                } by {
                    if i == n {
                        assert(oe_new[i].1@ == seq![event_id]);
                        assert(oe_new[i].1@[j] == event_id);
                        assert(s_new.event_at(event_id) == mid.events@.last());
                    } else {
                        assert(oe_old[i] == oe_new[i]);
                        assert(s_old.has_event(oe_old[i].1@[j]));
                        assert(s_new.event_at(oe_new[i].1@[j]) == s_old.event_at(
                            oe_old[i].1@[j],
                        ));
                    }
                }
                assert forall|i: int, j: int, k: int|
                    0 <= i < oe_new.len() && 0 <= j < k < oe_new[i].1@.len() implies (
                #[trigger] oe_new[i].1@[j]) != (#[trigger] oe_new[i].1@[k]) by {
                    if i < n {
                        assert(oe_old[i] == oe_new[i]);
                    } else {
                        assert(oe_new[i].1@.len() == 1);
                    }
                }
                assert forall|e: int| 0 <= e < s_new.events@.len() implies {
                    &&& has_key(oe_new, (#[trigger] s_new.events@[e]).organizer@)
                    &&& s_new.organized_events(s_new.events@[e].organizer@).contains(
                        (e + 1) as u64,
                    )
                } by {
                    if e < s_old.events@.len() {
                        assert(s_new.events@[e] == s_old.events@[e]);
                        let q = s_old.events@[e].organizer@;
                        assert(has_key(oe_old, q));
                        assert(key_index(oe_new, q) == key_index(oe_old, q));
                        assert(oe_new[key_index(oe_old, q)] == oe_old[key_index(oe_old, q)]);
                    } else {
                        assert(s_new.events@[e] == mid.events@.last());
                        assert(s_new.events@[e].organizer@ == caller@);
                        assert(s_new.organized_events(caller@) == seq![event_id]);
                        assert(s_new.organized_events(caller@)[0] == (e + 1) as u64);
                    }
                }
            }
            assert forall|q: Seq<char>| q != caller@ implies s_new.organized_events(q)
                == s_old.organized_events(q) by {
                if has_key(oe_old, q) {
                    assert(key_index(oe_new, q) == key_index(oe_old, q));
                    assert(key_index(oe_old, q) != key_index(oe_new, caller@));
                }
            }
        }
        Ok(result)
    }

    /// Reads one event by id.
    pub fn get_event(&self, event_id: u64) -> (r: Result<Event, Error>)
        ensures
            match r {
                Ok(ev) => self.has_event(event_id) && ev == self.event_at(event_id),
                Err(e) => !self.has_event(event_id) && e == Error::NotFound,
            },
    {
        if event_id >= 1 && event_id <= self.events.len() as u64 {
            Ok(self.events[(event_id - 1) as usize].clone())
        } else {
            Err(Error::NotFound)
        }
    }

    /// Applies a partial update to an event: fields absent from the request
    /// stay untouched, and a rejected request leaves the whole store
    /// untouched. Only the organizer or an `Admin` may update; an empty
    /// name, a date in the past, or a decrease of `total_tickets` is
    /// rejected. Raising `total_tickets` raises `available_tickets` by the
    /// same amount, so already-sold tickets stay accounted for.
    pub fn update_event(
        &mut self,
        caller: &Principal,
        event_id: u64,
        name: Option<String>,
        date: Option<u64>,
        venue: Option<String>,
        price: Option<u64>,
        total_tickets: Option<u64>,
        is_active: Option<bool>,
        description: Option<String>,
        image_url: Option<Option<String>>,
        now: u64,
    ) -> (r: Result<Event, Error>)
        requires
            old(self).wf(),
        ensures
            final(self).wf(),
            ({
                let s = *old(self);
                if !s.has_event(event_id) {
                    r == Err::<Event, Error>(Error::NotFound) && *final(self) == s
                } else if !s.is_event_owner_or_admin(caller@, event_id) {
                    r == Err::<Event, Error>(Error::NotAuthorized) && *final(self) == s
                } else if name matches Some(n) && n@.len() == 0 {
                    r == Err::<Event, Error>(Error::InvalidOperation) && *final(self) == s
                } else if date matches Some(d) && d < now {
                    r == Err::<Event, Error>(Error::InvalidOperation) && *final(self) == s
                } else if total_tickets matches Some(t) && t < s.event_at(
                    event_id,
                ).total_tickets {
                    r == Err::<Event, Error>(Error::InvalidOperation) && *final(self) == s
                } else {
                    let old_ev = s.event_at(event_id);
                    let new_ev = final(self).event_at(event_id);
                    &&& r == Ok::<Event, Error>(new_ev)
                    &&& new_ev.event_id == event_id
                    &&& new_ev.name == opt_or(name, old_ev.name)
                    &&& new_ev.date == opt_or(date, old_ev.date)
                    &&& new_ev.venue == opt_or(venue, old_ev.venue)
                    &&& new_ev.price == opt_or(price, old_ev.price)
                    &&& new_ev.total_tickets == opt_or(total_tickets, old_ev.total_tickets)
                    &&& new_ev.available_tickets == old_ev.available_tickets + (
                    new_ev.total_tickets - old_ev.total_tickets)
                    &&& new_ev.is_active == opt_or(is_active, old_ev.is_active)
                    &&& new_ev.description == opt_or(description, old_ev.description)
                    &&& new_ev.image_url == opt_or(image_url, old_ev.image_url)
                    &&& new_ev.organizer == old_ev.organizer
                    &&& final(self).events@ == s.events@.update(event_id - 1, new_ev)
                    &&& final(self).tickets@ == s.tickets@
                    &&& final(self).user_roles@ == s.user_roles@
                    &&& final(self).user_tickets@ == s.user_tickets@
                    &&& final(self).organizer_events@ == s.organizer_events@
                    &&& final(self).owner == s.owner
                }
            }),
    {
        if !(event_id >= 1 && event_id <= self.events.len() as u64) {
            return Err(Error::NotFound);
        }
        let idx = (event_id - 1) as usize;
        let role = self.get_user_role(caller);
        if !(self.events[idx].organizer == *caller || role == Role::Admin) {
            return Err(Error::NotAuthorized);
        }
        if let Some(n) = &name {
            if n.as_str().is_empty() {
                return Err(Error::InvalidOperation);
            }
        }
        if let Some(d) = date {
            if d < now {
                return Err(Error::InvalidOperation);
            }
        }
        if let Some(t) = total_tickets {
            if t < self.events[idx].total_tickets {
                return Err(Error::InvalidOperation);
            }
        }
        let ev = &self.events[idx];
        let new_total = match total_tickets {
            Some(t) => t,
            None => ev.total_tickets,
        };
        let new_available = ev.available_tickets + (new_total - ev.total_tickets);
        let new_ev = Event {
            event_id: ev.event_id,
            name: match name {
                Some(n) => n,
                None => ev.name.clone(),
            },
            date: match date {
                Some(d) => d,
                None => ev.date,
            },
            venue: match venue {
                Some(v) => v,
                None => ev.venue.clone(),
            },
            price: match price {
                Some(p) => p,
                None => ev.price,
            },
            total_tickets: new_total,
            available_tickets: new_available,
            organizer: ev.organizer.clone(),
            is_active: match is_active {
                Some(b) => b,
                None => ev.is_active,
            },
            description: match description {
                Some(d) => d,
                None => ev.description.clone(),
            },
            image_url: match image_url {
                Some(u) => u,
                None => clone_opt_string(&ev.image_url),
            },
        };
        let result = new_ev.clone();
        self.events.set(idx, new_ev);
        proof {
            self.lemma_event_fields_update(*old(self));
        }
        Ok(result)
    }

    /// Cancels an event by clearing its active flag; issued tickets stay
    /// valid and availability is untouched (refunds are out of scope). Only
    /// the organizer or an `Admin` may cancel.
    pub fn cancel_event(&mut self, caller: &Principal, event_id: u64) -> (r: Result<bool, Error>)
        requires
            old(self).wf(),
        ensures
            final(self).wf(),
            ({
                let s = *old(self);
                if !s.has_event(event_id) {
                    r == Err::<bool, Error>(Error::NotFound) && *final(self) == s
                } else if !s.is_event_owner_or_admin(caller@, event_id) {
                    r == Err::<bool, Error>(Error::NotAuthorized) && *final(self) == s
                } else {
                    let old_ev = s.event_at(event_id);
                    let new_ev = final(self).event_at(event_id);
                    &&& r == Ok::<bool, Error>(true)
                    &&& new_ev == Event { is_active: false, ..old_ev }
                    &&& final(self).events@ == s.events@.update(event_id - 1, new_ev)
                    &&& final(self).tickets@ == s.tickets@
                    &&& final(self).user_roles@ == s.user_roles@
                    &&& final(self).user_tickets@ == s.user_tickets@
                    &&& final(self).organizer_events@ == s.organizer_events@
                    &&& final(self).owner == s.owner
                }
            }),
    {
        if !(event_id >= 1 && event_id <= self.events.len() as u64) {
            return Err(Error::NotFound);
        }
        let idx = (event_id - 1) as usize;
        let role = self.get_user_role(caller);
        if !(self.events[idx].organizer == *caller || role == Role::Admin) {
            return Err(Error::NotAuthorized);
        }
        let ev = &self.events[idx];
        let new_ev = Event {
            event_id: ev.event_id,
            name: ev.name.clone(),
            date: ev.date,
            venue: ev.venue.clone(),
            price: ev.price,
            total_tickets: ev.total_tickets,
            available_tickets: ev.available_tickets,
            organizer: ev.organizer.clone(),
            is_active: false,
            description: ev.description.clone(),
            image_url: clone_opt_string(&ev.image_url),
        };
        self.events.set(idx, new_ev);
        proof {
            self.lemma_event_fields_update(*old(self));
        }
        Ok(true)
    }

    /// One event changed in place, its id, organizer and ticket accounting
    /// kept sound: the whole store stays well formed.
    proof fn lemma_event_fields_update(self, s_old: TicketingSystem)
        requires
            s_old.wf(),
            self.events@.len() == s_old.events@.len(),
            forall|i: int|
                0 <= i < s_old.events@.len() ==> {
                    &&& (#[trigger] self.events@[i]).event_id == s_old.events@[i].event_id
                    &&& self.events@[i].organizer == s_old.events@[i].organizer
                    &&& self.events@[i].available_tickets <= self.events@[i].total_tickets
                },
            self.tickets@ == s_old.tickets@,
            self.user_roles@ == s_old.user_roles@,
            self.user_tickets@ == s_old.user_tickets@,
            self.organizer_events@ == s_old.organizer_events@,
        ensures
            self.wf(),
    {
        assert forall|i: int| 0 <= i < self.events@.len() implies {
            &&& (#[trigger] self.events@[i]).event_id == i + 1
            &&& self.events@[i].available_tickets <= self.events@[i].total_tickets
        } by {
            assert(s_old.events@[i].event_id == i + 1);
        }
        lemma_tickets_wf_same(s_old, self);
        lemma_owner_index_same(s_old, self);
        crate::store::lemma_organizer_index_same(s_old, self);
    }
}

} // verus!

//! Metadata and query facade: NFT-style projections, supply and balance
//! queries, per-owner and per-organizer listings, and event statistics.
//! Every operation here takes the store by shared reference and so can
//! never mutate it.

use vstd::prelude::*;

use crate::store::find_key;
use crate::store::key_index;
use crate::store::lemma_filter_step;
use crate::store::lemma_key_index;
use crate::store::TicketingSystem;
use crate::types::Error;
use crate::types::Event;
use crate::types::Principal;
use crate::types::Role;
use crate::types::Ticket;
use crate::types::TokenMetadata;

verus! {

/// The decimal digit character for one digit value.
pub open spec fn dec_digit(d: nat) -> char {
    if d == 0 {
        '0'
    } else if d == 1 {
        '1'
    } else if d == 2 {
        '2'
    } else if d == 3 {
        '3'
    } else if d == 4 {
        '4'
    } else if d == 5 {
        '5'
    } else if d == 6 {
        '6'
    } else if d == 7 {
        '7'
    } else if d == 8 {
        '8'
    } else {
        '9'
    }
}

/// The decimal representation of a number, most significant digit first and
/// without leading zeros.
pub open spec fn dec_str(n: nat) -> Seq<char>
    decreases n,
{
    if n < 10 {
        seq![dec_digit(n)]
    } else {
        dec_str(n / 10).push(dec_digit(n % 10))
    }
}

/// Relies on u64's `Display` implementation, which the standard library
/// documents as the decimal representation of the value.
#[verifier::external_body]
fn u64_to_string(n: u64) -> (r: String)
    ensures
        r@ == dec_str(n as nat),
{
    n.to_string()
}

/// How many tickets of an event were ever sold: one per stored ticket that
/// references it.
pub open spec fn event_sold(tickets: Seq<Ticket>, event_id: u64) -> int
    decreases tickets.len(),
{
    if tickets.len() == 0 {
        0
    } else {
        event_sold(tickets.drop_last(), event_id) + if tickets.last().event_id == event_id {
            1int
        } else {
            0int
        }
    }
}

/// The total of the original sale prices of an event's tickets.
pub open spec fn event_revenue(tickets: Seq<Ticket>, event_id: u64) -> int
    decreases tickets.len(),
{
    if tickets.len() == 0 {
        0
    } else {
        event_revenue(tickets.drop_last(), event_id) + if tickets.last().event_id == event_id {
            tickets.last().original_price as int
        } else {
            0int
        }
    }
}

/// How many of an event's tickets are still valid.
pub open spec fn event_valid_count(tickets: Seq<Ticket>, event_id: u64) -> int
    decreases tickets.len(),
{
    if tickets.len() == 0 {
        0
    } else {
        event_valid_count(tickets.drop_last(), event_id) + if tickets.last().event_id == event_id
            && tickets.last().is_valid {
            1int
        } else {
            0int
        }
    }
}

/// The three statistics are non-negative, counts are bounded by the number
/// of tickets, and every prefix contributes no more than the whole.
pub proof fn lemma_stats_bounds(tickets: Seq<Ticket>, event_id: u64, i: int)
    requires
        0 <= i <= tickets.len(),
    ensures
        0 <= event_sold(tickets.subrange(0, i), event_id),
        0 <= event_revenue(tickets.subrange(0, i), event_id),
        0 <= event_valid_count(tickets.subrange(0, i), event_id),
        event_sold(tickets.subrange(0, i), event_id) <= event_sold(tickets, event_id),
        event_revenue(tickets.subrange(0, i), event_id) <= event_revenue(tickets, event_id),
        event_valid_count(tickets.subrange(0, i), event_id) <= event_valid_count(
            tickets,
            event_id,
        ),
        event_sold(tickets, event_id) <= tickets.len(),
        event_valid_count(tickets, event_id) <= event_sold(tickets, event_id),
    decreases tickets.len() - i,
{
    lemma_stats_nonneg(tickets, event_id);
    if i == tickets.len() {
        assert(tickets.subrange(0, i) =~= tickets);
    } else {
        lemma_stats_bounds(tickets, event_id, i + 1);
        assert(tickets.subrange(0, i + 1).drop_last() =~= tickets.subrange(0, i));
        assert(tickets.subrange(0, i + 1).last() == tickets[i]);
        lemma_stats_nonneg(tickets.subrange(0, i), event_id);
    }
}

/// Each statistic of any ticket sequence is non-negative, the sold count is
/// at most the sequence length, and the valid count at most the sold count.
pub proof fn lemma_stats_nonneg(tickets: Seq<Ticket>, event_id: u64)
    ensures
        0 <= event_sold(tickets, event_id),
        0 <= event_revenue(tickets, event_id),
        0 <= event_valid_count(tickets, event_id),
        event_sold(tickets, event_id) <= tickets.len(),
        event_valid_count(tickets, event_id) <= event_sold(tickets, event_id),
    decreases tickets.len(),
{
    if tickets.len() > 0 {
        lemma_stats_nonneg(tickets.drop_last(), event_id);
    }
}

impl TicketingSystem {
    /// Synthesizes the NFT-style metadata projection of a ticket: its owner
    /// and the `eventId` and `isValid` properties; approval is out of scope
    /// and always false.
    pub fn get_token_metadata(&self, token_id: u64) -> (r: Option<TokenMetadata>)
        ensures
            match r {
                Some(m) => self.has_ticket(token_id) && {
                    let t = self.ticket_at(token_id);
                    &&& m.token_id == token_id
                    &&& m.owner == t.owner
                    &&& m.metadata_blob is None
                    &&& m.properties@.len() == 2
                    &&& m.properties@[0].0@ == "eventId"@
                    &&& m.properties@[0].1@ == dec_str(t.event_id as nat)
                    &&& m.properties@[1].0@ == "isValid"@
                    &&& m.properties@[1].1@ == (if t.is_valid {
                        "true"@
                    } else {
                        "false"@
                    })
                    &&& !m.is_approved
                },
                None => !self.has_ticket(token_id),
            },
    {
        if !(token_id >= 1 && token_id <= self.tickets.len() as u64) {
            return None;
        }
        let t = &self.tickets[(token_id - 1) as usize];
        let valid_str = if t.is_valid {
            String::from_str("true")
        } else {
            String::from_str("false")
        };
        let mut properties: Vec<(String, String)> = Vec::new();
        properties.push((String::from_str("eventId"), u64_to_string(t.event_id)));
        properties.push((String::from_str("isValid"), valid_str));
        Some(
            TokenMetadata {
                token_id,
                owner: t.owner.clone(),
                metadata_blob: None,
                properties,
                is_approved: false,
            },
        )
    }

    /// The count of tokens ever minted; invalidated tickets still count.
    pub fn total_supply(&self) -> (r: u64)
        ensures
            r == self.tickets@.len(),
    {
        self.tickets.len() as u64
    }

    /// How many tokens the owner index lists for a principal.
    pub fn balance_of(&self, owner: &Principal) -> (r: u64)
        requires
            self.wf(),
        ensures
            r == self.owned_tokens(owner@).len(),
    {
        let found = find_key(&self.user_tickets, owner);
        match found {
            Some(i) => {
                proof {
                    lemma_key_index(self.user_tickets@, owner@, i as int);
                }
                self.user_tickets[i].1.len() as u64
            },
            None => 0,
        }
    }

    /// The current owner of a token, when the token exists.
    pub fn owner_of(&self, token_id: u64) -> (r: Option<Principal>)
        ensures
            match r {
                Some(p) => self.has_ticket(token_id) && p == self.ticket_at(token_id).owner,
                None => !self.has_ticket(token_id),
            },
    {
        if token_id >= 1 && token_id <= self.tickets.len() as u64 {
            Some(self.tickets[(token_id - 1) as usize].owner.clone())
        } else {
            None
        }
    }

    /// The token ids a principal owns, in purchase order.
    pub fn tokens_of(&self, owner: &Principal) -> (r: Vec<u64>)
        requires
            self.wf(),
        ensures
            r@ == self.owned_tokens(owner@),
    {
        let mut r: Vec<u64> = Vec::new();
        let found = find_key(&self.user_tickets, owner);
        match found {
            Some(i) => {
                proof {
                    lemma_key_index(self.user_tickets@, owner@, i as int);
                }
                let n = self.user_tickets[i].1.len();
                let mut k: usize = 0;
                while k < n
                    invariant
                        i < self.user_tickets@.len(),
                        n == self.user_tickets@[i as int].1@.len(),
                        k <= n,
                        r@ =~= self.user_tickets@[i as int].1@.subrange(0, k as int),
                    decreases n - k,
                {
                    r.push(self.user_tickets[i].1[k]);
                    k = k + 1;
                }
                proof {
                    assert(r@ =~= self.user_tickets@[i as int].1@);
                }
            },
            None => {},
        }
        r
    }

    /// The tickets a principal owns, in purchase order as the owner index
    /// stores it.
    pub fn get_user_tickets(&self, user: &Principal) -> (r: Vec<Ticket>)
        requires
            self.wf(),
        ensures
            r@.len() == self.owned_tokens(user@).len(),
            forall|j: int|
                0 <= j < r@.len() ==> (#[trigger] r@[j]).same_as(
                    self.ticket_at(self.owned_tokens(user@)[j]),
                ),
    {
        let mut r: Vec<Ticket> = Vec::new();
        let found = find_key(&self.user_tickets, user);
        match found {
            Some(i) => {
                proof {
                    lemma_key_index(self.user_tickets@, user@, i as int);
                }
                let n = self.user_tickets[i].1.len();
                let tlen = self.tickets.len();
                let mut k: usize = 0;
                while k < n
                    invariant
                        self.wf(),
                        tlen == self.tickets@.len(),
                        i < self.user_tickets@.len(),
                        self.user_tickets@[i as int].0@ == user@,
                        key_index(self.user_tickets@, user@) == i as int,
                        n == self.user_tickets@[i as int].1@.len(),
                        k <= n,
                        r@.len() == k,
                        forall|j: int|
                            0 <= j < k ==> (#[trigger] r@[j]).same_as(
                                self.ticket_at(self.user_tickets@[i as int].1@[j]),
                            ),
                    decreases n - k,
                {
                    let tid = self.user_tickets[i].1[k];
                    proof {
                        assert(self.has_ticket(tid));
                        assert(tid - 1 < tlen as int);
                    }
                    let t = &self.tickets[(tid - 1) as usize];
                    r.push(t.clone());
                    k = k + 1;
                }
            },
            None => {},
        }
        r
    }

    /// The events a principal organizes, in creation order as the organizer
    /// index stores it.
    pub fn get_organizer_events(&self, organizer: &Principal) -> (r: Vec<Event>)
        requires
            self.wf(),
        ensures
            r@.len() == self.organized_events(organizer@).len(),
            forall|j: int|
                0 <= j < r@.len() ==> r@[j] == self.event_at(
                    #[trigger] self.organized_events(organizer@)[j],
                ),
    {
        let mut r: Vec<Event> = Vec::new();
        let found = find_key(&self.organizer_events, organizer);
        match found {
            Some(i) => {
                proof {
                    lemma_key_index(self.organizer_events@, organizer@, i as int);
                }
                let n = self.organizer_events[i].1.len();
                let elen = self.events.len();
                let mut k: usize = 0;
                while k < n
                    invariant
                        self.wf(),
                        elen == self.events@.len(),
                        i < self.organizer_events@.len(),
                        self.organizer_events@[i as int].0@ == organizer@,
                        key_index(self.organizer_events@, organizer@) == i as int,
                        n == self.organizer_events@[i as int].1@.len(),
                        k <= n,
                        r@.len() == k,
                        forall|j: int|
                            0 <= j < k ==> r@[j] == self.event_at(
                                #[trigger] self.organizer_events@[i as int].1@[j],
                            ),
                    decreases n - k,
                {
                    let eid = self.organizer_events[i].1[k];
                    proof {
                        assert(self.has_event(eid));
                        assert(eid - 1 < elen as int);
                    }
                    let ev = &self.events[(eid - 1) as usize];
                    r.push(ev.clone());
                    k = k + 1;
                }
            },
            None => {},
        }
        r
    }

    /// All tickets of an event, in token order.
    pub fn get_event_tickets(&self, event_id: u64) -> (r: Vec<Ticket>)
        ensures
            r@.len() == self.tickets@.filter(|t: Ticket| t.event_id == event_id).len(),
            forall|j: int|
                0 <= j < r@.len() ==> (#[trigger] r@[j]).same_as(
                    self.tickets@.filter(|t: Ticket| t.event_id == event_id)[j],
                ),
    {
        let mut r: Vec<Ticket> = Vec::new();
        let n = self.tickets.len();
        let mut k: usize = 0;
        while k < n
            invariant
                n == self.tickets@.len(),
                k <= n,
                r@.len() == self.tickets@.subrange(0, k as int).filter(
                    |t: Ticket| t.event_id == event_id,
                ).len(),
                forall|j: int|
                    0 <= j < r@.len() ==> (#[trigger] r@[j]).same_as(
                        self.tickets@.subrange(0, k as int).filter(
                            |t: Ticket| t.event_id == event_id,
                        )[j],
                    ),
            decreases n - k,
        {
            proof {
                lemma_filter_step(self.tickets@, |t: Ticket| t.event_id == event_id, k as int);
            }
            let t = &self.tickets[k];
            if t.event_id == event_id {
                r.push(t.clone());
            }
            k = k + 1;
        }
        proof {
            assert(self.tickets@.subrange(0, n as int) =~= self.tickets@);
        }
        r
    }

    /// Aggregated statistics of an event — tickets sold, revenue at original
    /// prices, still-valid tickets — gated to the organizer or an `Admin`.
    /// The revenue total must fit the result type.
    pub fn get_event_stats(&self, caller: &Principal, event_id: u64) -> (r: Result<
        (u64, u64, u64),
        Error,
    >)
        requires
            self.wf(),
            event_revenue(self.tickets@, event_id) <= u64::MAX,
        ensures
            ({
                if !self.has_event(event_id) {
                    r == Err::<(u64, u64, u64), Error>(Error::NotFound)
                } else if !self.is_event_owner_or_admin(caller@, event_id) {
                    r == Err::<(u64, u64, u64), Error>(Error::NotAuthorized)
                } else {
                    r == Ok::<(u64, u64, u64), Error>(
                        (
                            event_sold(self.tickets@, event_id) as u64,
                            event_revenue(self.tickets@, event_id) as u64,
                            event_valid_count(self.tickets@, event_id) as u64,
                        ),
                    )
                }
            }),
    {
        if !(event_id >= 1 && event_id <= self.events.len() as u64) {
            return Err(Error::NotFound);
        }
        let idx = (event_id - 1) as usize;
        let role = self.get_user_role(caller);
        if !(self.events[idx].organizer == *caller || role == Role::Admin) {
            return Err(Error::NotAuthorized);
        }
        let n = self.tickets.len();
        let mut total_sold: u64 = 0;
        let mut total_revenue: u64 = 0;
        let mut valid_tickets: u64 = 0;
        let mut k: usize = 0;
        while k < n
            invariant
                self.wf(),
                event_revenue(self.tickets@, event_id) <= u64::MAX,
                n == self.tickets@.len(),
                k <= n,
                total_sold == event_sold(self.tickets@.subrange(0, k as int), event_id),
                total_revenue == event_revenue(self.tickets@.subrange(0, k as int), event_id),
                valid_tickets == event_valid_count(self.tickets@.subrange(0, k as int), event_id),
            decreases n - k,
        {
            proof {
                lemma_stats_bounds(self.tickets@, event_id, k as int + 1);
                assert(self.tickets@.subrange(0, k as int + 1).drop_last() =~= self.tickets@
                    .subrange(0, k as int));
                assert(self.tickets@.subrange(0, k as int + 1).last() == self.tickets@[k as int]);
            }
            let t = &self.tickets[k];
            if t.event_id == event_id {
                total_sold = total_sold + 1;
                total_revenue = total_revenue + t.original_price;
                if t.is_valid {
                    valid_tickets = valid_tickets + 1;
                }
            }
            k = k + 1;
        }
        proof {
            assert(self.tickets@.subrange(0, n as int) =~= self.tickets@);
        }
        Ok((total_sold, total_revenue, valid_tickets))
    }
}

} // verus!

//! Data model of the marketplace: principals, roles, errors, events,
//! tickets, transfer records and NFT-style metadata projections.

use vstd::prelude::*;

verus! {

/// Opaque identifier of an actor (organizer, buyer, admin). The core never
/// interprets its contents; it is only compared for equality.
#[derive(Debug, Hash)]
pub struct Principal(String);

impl View for Principal {
    type V = Seq<char>;

    closed spec fn view(&self) -> Seq<char> {
        self.0@
    }
}

impl Principal {
    /// Wraps a textual identity supplied by the host environment.
    pub fn new(id: String) -> (p: Principal)
        ensures
            p@ == id@,
    {
        Principal(id)
    }

    /// The wrapped textual identity, for hosts that serialize it back out.
    pub fn id(&self) -> (r: &String)
        ensures
            r@ == self@,
    {
        &self.0
    }
}

impl Clone for Principal {
    fn clone(&self) -> (r: Self)
        ensures
            r == *self,
    {
        Principal(self.0.clone())
    }
}

impl PartialEq for Principal {
    fn eq(&self, other: &Self) -> (r: bool) {
        self.0 == other.0
    }
}

impl vstd::std_specs::cmp::PartialEqSpecImpl for Principal {
    open spec fn obeys_eq_spec() -> bool {
        true
    }

    open spec fn eq_spec(&self, other: &Self) -> bool {
        self@ == other@
    }
}

/// Exactly one role per principal; a principal with no stored role is a
/// `User`. `Admin` bypasses organizer-only checks everywhere.
#[derive(Debug, Clone, Copy, PartialEq, Eq, Structural)]
pub enum Role {
    Admin,
    Organizer,
    User,
}

/// Closed error taxonomy; every fallible operation returns one of these and
/// carries no free-form text.
#[derive(Debug, Clone, Copy, PartialEq, Eq, Structural)]
pub enum Error {
    NotFound,
    AlreadyExists,
    NotAuthorized,
    InvalidOperation,
    InsufficientFunds,
    SoldOut,
    LimitExceeded,
}

/// An event record. Ids are assigned monotonically from 1 and never reused;
/// `available_tickets <= total_tickets` holds at all times and
/// `total_tickets` never decreases.
#[derive(Debug)]
pub struct Event {
    pub event_id: u64,
    pub name: String,
    /// Unix seconds.
    pub date: u64,
    pub venue: String,
    pub price: u64,
    pub total_tickets: u64,
    pub available_tickets: u64,
    pub organizer: Principal,
    pub is_active: bool,
    pub description: String,
    pub image_url: Option<String>,
}

impl Clone for Event {
    fn clone(&self) -> (r: Self)
        ensures
            r == *self,
    {
        Event {
            event_id: self.event_id,
            name: self.name.clone(),
            date: self.date,
            venue: self.venue.clone(),
            price: self.price,
            total_tickets: self.total_tickets,
            available_tickets: self.available_tickets,
            organizer: self.organizer.clone(),
            is_active: self.is_active,
            description: self.description.clone(),
            image_url: clone_opt_string(&self.image_url),
        }
    }
}

/// Immutable provenance record of one change of hands.
#[derive(Debug)]
pub struct TicketTransfer {
    pub from: Principal,
    pub to: Principal,
    pub price: u64,
    pub timestamp: u64,
}

impl Clone for TicketTransfer {
    fn clone(&self) -> (r: Self)
        ensures
            r == *self,
    {
        TicketTransfer {
            from: self.from.clone(),
            to: self.to.clone(),
            price: self.price,
            timestamp: self.timestamp,
        }
    }
}

/// Snapshot attached to a ticket at purchase time.
#[derive(Debug)]
pub struct TicketMetadata {
    pub event_name: String,
    pub ticket_class: String,
    pub seat_info: Option<String>,
    pub purchase_date: u64,
}

impl Clone for TicketMetadata {
    fn clone(&self) -> (r: Self)
        ensures
            r == *self,
    {
        TicketMetadata {
            event_name: self.event_name.clone(),
            ticket_class: self.ticket_class.clone(),
            seat_info: clone_opt_string(&self.seat_info),
            purchase_date: self.purchase_date,
        }
    }
}

/// A ticket (token). Ids are assigned monotonically from 1 and never reused;
/// the first history entry records the initial sale and the ticket's owner
/// always equals the `to` principal of the last history entry.
#[derive(Debug)]
pub struct Ticket {
    pub token_id: u64,
    pub event_id: u64,
    pub owner: Principal,
    pub original_price: u64,
    pub current_price: u64,
    pub purchase_history: Vec<TicketTransfer>,
    pub is_valid: bool,
    pub metadata: Option<TicketMetadata>,
}

impl Ticket {
    /// Spec-level equality of tickets: every field agrees, the history
    /// compared as the sequence of its records.
    pub open spec fn same_as(self, other: Ticket) -> bool {
        &&& self.token_id == other.token_id
        &&& self.event_id == other.event_id
        &&& self.owner == other.owner
        &&& self.original_price == other.original_price
        &&& self.current_price == other.current_price
        &&& self.purchase_history@ == other.purchase_history@
        &&& self.is_valid == other.is_valid
        &&& self.metadata == other.metadata
    }
}

impl Clone for Ticket {
    fn clone(&self) -> (r: Self)
        ensures
            r.same_as(*self),
    {
        Ticket {
            token_id: self.token_id,
            event_id: self.event_id,
            owner: self.owner.clone(),
            original_price: self.original_price,
            current_price: self.current_price,
            purchase_history: clone_transfers(&self.purchase_history),
            is_valid: self.is_valid,
            metadata: clone_opt_metadata(&self.metadata),
        }
    }
}

/// Read-only NFT-style projection of a ticket for external queries.
#[derive(Debug)]
pub struct TokenMetadata {
    pub token_id: u64,
    pub owner: Principal,
    pub metadata_blob: Option<Vec<u8>>,
    pub properties: Vec<(String, String)>,
    pub is_approved: bool,
}

/// The resale price cap: the greatest integer price not exceeding 1.2 times
/// the original price, i.e. `floor(original * 6 / 5)`.
pub open spec fn max_resale_price(original: u64) -> int {
    (6 * original) / 5
}

pub(crate) fn clone_opt_string(o: &Option<String>) -> (r: Option<String>)
    ensures
        r == *o,
{
    match o {
        Some(s) => Some(s.clone()),
        None => None,
    }
}

pub(crate) fn clone_opt_metadata(o: &Option<TicketMetadata>) -> (r: Option<TicketMetadata>)
    ensures
        r == *o,
{
    match o {
        Some(m) => Some(m.clone()),
        None => None,
    }
}

pub(crate) fn clone_transfers(v: &Vec<TicketTransfer>) -> (r: Vec<TicketTransfer>)
    ensures
        r@ == v@,
{
    let mut r: Vec<TicketTransfer> = Vec::new();
    let mut i: usize = 0;
    while i < v.len()
        invariant
            i <= v.len(),
            r@ =~= v@.subrange(0, i as int),
        decreases v.len() - i,
    {
        r.push(v[i].clone());
        i = i + 1;
    }
    assert(r@ =~= v@);
    r
}

} // verus!

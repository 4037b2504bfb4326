//! A ticketing marketplace core: event records, ticket issuance, resale and
//! transfer, with ownership, pricing and role-based authorization rules
//! enforced over an in-memory store.
//!
//! The store keeps several cross-referencing indexes (event availability,
//! ticket ownership, owner and organizer indexes) consistent under every
//! mutation; the well-formedness predicate [`store::TicketingSystem::wf`]
//! states that consistency and every operation preserves it.

pub mod events;
pub mod laws;
pub mod metadata;
pub mod roles;
pub mod store;
pub mod tickets;
pub mod time;
pub mod types;

pub use store::TicketingSystem;
pub use time::current_time;
pub use types::Error;
pub use types::Event;
pub use types::Principal;
pub use types::Role;
pub use types::Ticket;
pub use types::TicketMetadata;
pub use types::TicketTransfer;
pub use types::TokenMetadata;

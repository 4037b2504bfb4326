//! The marketplace store: one mutable instance holding every entity, plus
//! the derived reverse indexes and the well-formedness predicate that ties
//! them together.

use vstd::prelude::*;

use crate::types::max_resale_price;
use crate::types::Event;
use crate::types::Principal;
use crate::types::Role;
use crate::types::Ticket;

verus! {

/// True when no two entries of an association list carry the same principal.
pub open spec fn keys_unique<V>(entries: Seq<(Principal, V)>) -> bool {
    forall|i: int, j: int|
        0 <= i < entries.len() && 0 <= j < entries.len() && i != j ==> (#[trigger] entries[i]).0@
            != (#[trigger] entries[j]).0@
}

/// True when some entry of the association list carries this principal.
pub open spec fn has_key<V>(entries: Seq<(Principal, V)>, p: Seq<char>) -> bool {
    exists|i: int| 0 <= i < entries.len() && (#[trigger] entries[i]).0@ == p
}

/// The position of the entry carrying this principal (meaningful under
/// `keys_unique` and `has_key`).
pub open spec fn key_index<V>(entries: Seq<(Principal, V)>, p: Seq<char>) -> int {
    choose|i: int| 0 <= i < entries.len() && (#[trigger] entries[i]).0@ == p
}

/// Under unique keys, any entry that carries the principal is the one that
/// `key_index` picks.
pub proof fn lemma_key_index<V>(entries: Seq<(Principal, V)>, p: Seq<char>, i: int)
    requires
        keys_unique(entries),
        0 <= i < entries.len(),
        entries[i].0@ == p,
    ensures
        has_key(entries, p),
        key_index(entries, p) == i,
{
    assert(has_key(entries, p));
    let j = key_index::<V>(entries, p);
    assert(0 <= j < entries.len() && entries[j].0@ == p);
}

/// The whole marketplace state. Events and tickets are stored in order of
/// creation, so the entity with id `n` sits at position `n - 1`; ids are
/// never reused and entries are never removed (cancellation and invalidation
/// are soft flags).
pub struct TicketingSystem {
    pub events: Vec<Event>,
    pub tickets: Vec<Ticket>,
    pub user_roles: Vec<(Principal, Role)>,
    pub user_tickets: Vec<(Principal, Vec<u64>)>,
    pub organizer_events: Vec<(Principal, Vec<u64>)>,
    /// The platform owner: the one principal with owner-level
    /// ticket-invalidation rights, distinct from the `Admin` role.
    pub owner: Principal,
}

impl TicketingSystem {
    /// An event id the store knows.
    pub open spec fn has_event(self, event_id: u64) -> bool {
        1 <= event_id && event_id <= self.events@.len()
    }

    /// The event stored under a known id.
    pub open spec fn event_at(self, event_id: u64) -> Event {
        self.events@[event_id - 1]
    }

    /// A token id the store knows.
    pub open spec fn has_ticket(self, token_id: u64) -> bool {
        1 <= token_id && token_id <= self.tickets@.len()
    }

    /// The ticket stored under a known token id.
    pub open spec fn ticket_at(self, token_id: u64) -> Ticket {
        self.tickets@[token_id - 1]
    }

    /// The stored role of a principal, `User` when none is stored.
    pub open spec fn role_of(self, p: Seq<char>) -> Role {
        if has_key(self.user_roles@, p) {
            self.user_roles@[key_index(self.user_roles@, p)].1
        } else {
            Role::User
        }
    }

    /// The authorization predicate shared by event mutation and statistics:
    /// the event's organizer, or any principal holding `Admin`.
    pub open spec fn is_event_owner_or_admin(self, p: Seq<char>, event_id: u64) -> bool {
        self.event_at(event_id).organizer@ == p || self.role_of(p) == Role::Admin
    }

    /// The token ids the owner index lists for a principal, oldest first.
    pub open spec fn owned_tokens(self, p: Seq<char>) -> Seq<u64> {
        if has_key(self.user_tickets@, p) {
            self.user_tickets@[key_index(self.user_tickets@, p)].1@
        } else {
            Seq::empty()
        }
    }

    /// The event ids the organizer index lists for a principal, oldest first.
    pub open spec fn organized_events(self, p: Seq<char>) -> Seq<u64> {
        if has_key(self.organizer_events@, p) {
            self.organizer_events@[key_index(self.organizer_events@, p)].1@
        } else {
            Seq::empty()
        }
    }

    /// Events sit at the position their id names and never oversell:
    /// `available_tickets <= total_tickets` for every event.
    pub open spec fn events_wf(self) -> bool {
        forall|i: int|
            0 <= i < self.events@.len() ==> {
                &&& (#[trigger] self.events@[i]).event_id == i + 1
                &&& self.events@[i].available_tickets <= self.events@[i].total_tickets
            }
    }

    /// Tickets sit at the position their token id names, reference a known
    /// event, carry a non-empty history whose last entry names the current
    /// owner, and respect the resale price cap.
    pub open spec fn tickets_wf(self) -> bool {
        forall|i: int|
            0 <= i < self.tickets@.len() ==> {
                &&& (#[trigger] self.tickets@[i]).token_id == i + 1
                &&& self.has_event(self.tickets@[i].event_id)
                &&& self.tickets@[i].purchase_history@.len() >= 1
                &&& self.tickets@[i].owner@ == self.tickets@[i].purchase_history@.last().to@
                &&& self.tickets@[i].current_price <= max_resale_price(
                    self.tickets@[i].original_price,
                )
            }
    }

    /// The owner index lists, per principal, exactly the tickets that
    /// principal currently owns, each once.
    pub open spec fn owner_index_wf(self) -> bool {
        let ut = self.user_tickets@;
        &&& keys_unique(ut)
        &&& forall|i: int, j: int|
            0 <= i < ut.len() && 0 <= j < ut[i].1@.len() ==> {
                &&& self.has_ticket(#[trigger] ut[i].1@[j])
                &&& self.ticket_at(ut[i].1@[j]).owner@ == ut[i].0@
            }
        &&& forall|i: int, j: int, k: int|
            0 <= i < ut.len() && 0 <= j < k < ut[i].1@.len() ==> (#[trigger] ut[i].1@[j])
                != (#[trigger] ut[i].1@[k])
        &&& forall|t: int|
            0 <= t < self.tickets@.len() ==> {
                &&& has_key(ut, (#[trigger] self.tickets@[t]).owner@)
                &&& self.owned_tokens(self.tickets@[t].owner@).contains((t + 1) as u64)
            }
    }

    /// The organizer index lists, per principal, exactly the events that
    /// principal organizes, each once.
    pub open spec fn organizer_index_wf(self) -> bool {
        let oe = self.organizer_events@;
        &&& keys_unique(oe)
        &&& forall|i: int, j: int|
            0 <= i < oe.len() && 0 <= j < oe[i].1@.len() ==> {
                &&& self.has_event(#[trigger] oe[i].1@[j])
                &&& self.event_at(oe[i].1@[j]).organizer@ == oe[i].0@
            }
        &&& forall|i: int, j: int, k: int|
            0 <= i < oe.len() && 0 <= j < k < oe[i].1@.len() ==> (#[trigger] oe[i].1@[j])
                != (#[trigger] oe[i].1@[k])
        &&& forall|e: int|
            0 <= e < self.events@.len() ==> {
                &&& has_key(oe, (#[trigger] self.events@[e]).organizer@)
                &&& self.organized_events(self.events@[e].organizer@).contains((e + 1) as u64)
            }
    }

    /// Well-formedness of the whole store: every constructor establishes it
    /// and every operation preserves it.
    pub open spec fn wf(self) -> bool {
        &&& self.events_wf()
        &&& self.tickets_wf()
        &&& keys_unique(self.user_roles@)
        &&& self.owner_index_wf()
        &&& self.organizer_index_wf()
    }

    /// Creates an empty store whose platform owner is also seeded as the one
    /// `Admin`.
    pub fn new(owner: Principal) -> (s: TicketingSystem)
        ensures
            s.wf(),
            s.events@.len() == 0,
            s.tickets@.len() == 0,
            s.owner@ == owner@,
            s.role_of(owner@) == Role::Admin,
            forall|p: Seq<char>| p != owner@ ==> s.role_of(p) == Role::User,
            forall|p: Seq<char>| s.owned_tokens(p) == Seq::<u64>::empty(),
            forall|p: Seq<char>| s.organized_events(p) == Seq::<u64>::empty(),
    {
        let mut user_roles: Vec<(Principal, Role)> = Vec::new();
        user_roles.push((owner.clone(), Role::Admin));
        let s = TicketingSystem {
            events: Vec::new(),
            tickets: Vec::new(),
            user_roles,
            user_tickets: Vec::new(),
            organizer_events: Vec::new(),
            owner,
        };
        proof {
            assert(s.user_roles@.len() == 1);
            lemma_key_index(s.user_roles@, s.user_roles@[0].0@, 0);
            assert forall|p: Seq<char>| p != s.user_roles@[0].0@ implies s.role_of(p)
                == Role::User by {
                assert(!has_key(s.user_roles@, p));
            }
        }
        s
    }

    /// Returns the stored role of a principal, `User` when none is stored.
    pub fn get_user_role(&self, user: &Principal) -> (r: Role)
        requires
            keys_unique(self.user_roles@),
        ensures
            r == self.role_of(user@),
    {
        let n = self.user_roles.len();
        let mut i: usize = 0;
        while i < n
            invariant
                n == self.user_roles@.len(),
                i <= n,
                keys_unique(self.user_roles@),
                forall|j: int| 0 <= j < i ==> (#[trigger] self.user_roles@[j]).0@ != user@,
            decreases n - i,
        {
            if self.user_roles[i].0 == *user {
                proof {
                    lemma_key_index(self.user_roles@, user@, i as int);
                }
                return self.user_roles[i].1;
            }
            i = i + 1;
        }
        proof {
            assert(!has_key(self.user_roles@, user@));
        }
        Role::User
    }
}

/// Two association lists with pointwise-equal keys agree on key lookup.
pub proof fn lemma_same_keys<V, W>(a: Seq<(Principal, V)>, b: Seq<(Principal, W)>)
    requires
        a.len() == b.len(),
        forall|j: int| 0 <= j < a.len() ==> (#[trigger] a[j]).0@ == (#[trigger] b[j]).0@,
        keys_unique(a),
    ensures
        keys_unique(b),
        forall|p: Seq<char>| has_key(a, p) <==> has_key(b, p),
        forall|p: Seq<char>| has_key(a, p) ==> key_index(a, p) == key_index(b, p),
{
    assert forall|i: int, j: int|
        0 <= i < b.len() && 0 <= j < b.len() && i != j implies (#[trigger] b[i]).0@
        != (#[trigger] b[j]).0@ by {
        assert(a[i].0@ == b[i].0@);
        assert(a[j].0@ == b[j].0@);
    }
    assert forall|p: Seq<char>| has_key(a, p) implies has_key(b, p) by {
        let i = key_index(a, p);
        assert(b[i].0@ == p);
    }
    assert forall|p: Seq<char>| has_key(b, p) implies has_key(a, p) by {
        let i = key_index(b, p);
        assert(a[i].0@ == p);
    }
    assert forall|p: Seq<char>| has_key(a, p) implies key_index(a, p) == key_index(b, p) by {
        let i = key_index(a, p);
        assert(0 <= i < a.len() && a[i].0@ == p);
        lemma_key_index(b, p, i);
    }
}

/// Unfolds one step of `Seq::filter` along a growing prefix.
pub proof fn lemma_filter_step<A>(s: Seq<A>, pred: spec_fn(A) -> bool, k: int)
    requires
        0 <= k < s.len(),
    ensures
        s.subrange(0, k + 1).filter(pred) == if pred(s[k]) {
            s.subrange(0, k).filter(pred).push(s[k])
        } else {
            s.subrange(0, k).filter(pred)
        },
{
    reveal(Seq::filter);
    let t = s.subrange(0, k + 1);
    assert(t.drop_last() =~= s.subrange(0, k));
    assert(t.last() == s[k]);
}

/// Appends a token id to the principal's entry of an ownership index,
/// creating the entry when the principal has none yet.
pub(crate) fn index_push(entries: &mut Vec<(Principal, Vec<u64>)>, p: &Principal, id: u64)
    requires
        keys_unique(old(entries)@),
    ensures
        keys_unique(final(entries)@),
        has_key(final(entries)@, p@),
        ({
            if has_key(old(entries)@, p@) {
                let ki = key_index(old(entries)@, p@);
                &&& final(entries)@.len() == old(entries)@.len()
                &&& forall|j: int|
                    0 <= j < old(entries)@.len() && j != ki ==> final(entries)@[j] == old(
                        entries,
                    )@[j]
                &&& final(entries)@[ki].0 == old(entries)@[ki].0
                &&& final(entries)@[ki].1@ == old(entries)@[ki].1@.push(id)
                &&& key_index(final(entries)@, p@) == ki
                &&& forall|q: Seq<char>| has_key(final(entries)@, q) <==> has_key(old(entries)@, q)
                &&& forall|q: Seq<char>|
                    has_key(old(entries)@, q) ==> key_index(final(entries)@, q) == key_index(
                        old(entries)@,
                        q,
                    )
            } else {
                &&& final(entries)@.len() == old(entries)@.len() + 1
                &&& forall|j: int|
                    0 <= j < old(entries)@.len() ==> final(entries)@[j] == old(entries)@[j]
                &&& final(entries)@.last().0@ == p@
                &&& final(entries)@.last().1@ == seq![id]
                &&& key_index(final(entries)@, p@) == old(entries)@.len()
                &&& forall|q: Seq<char>|
                    q != p@ ==> (has_key(final(entries)@, q) <==> has_key(old(entries)@, q))
                &&& forall|q: Seq<char>|
                    has_key(old(entries)@, q) ==> key_index(final(entries)@, q) == key_index(
                        old(entries)@,
                        q,
                    )
            }
        }),
{
    let found = find_key(entries, p);
    match found {
        Some(i) => {
            proof {
                lemma_key_index(old(entries)@, p@, i as int);
            }
            let mut entry = entries.remove(i);
            entry.1.push(id);
            entries.insert(i, entry);
            proof {
                assert forall|j: int|
                    0 <= j < old(entries)@.len() && j != i as int implies entries@[j] == old(
                    entries,
                )@[j] by {
                    if j < i as int {
                        assert(entries@[j] == old(entries)@.remove(i as int)[j]);
                    } else {
                        assert(entries@[j] == old(entries)@.remove(i as int)[j - 1]);
                    }
                }
                assert forall|j: int|
                    0 <= j < old(entries)@.len() implies (#[trigger] entries@[j]).0@ == old(
                    entries,
                )@[j].0@ by {}
                lemma_same_keys(old(entries)@, entries@);
                lemma_key_index(entries@, p@, i as int);
            }
        },
        None => {
            let mut toks: Vec<u64> = Vec::new();
            toks.push(id);
            entries.push((p.clone(), toks));
            proof {
                let n = old(entries)@.len() as int;
                assert(entries@.last().1@ =~= seq![id]);
                assert forall|i: int, j: int|
                    0 <= i < entries@.len() && 0 <= j < entries@.len() && i
                        != j implies (#[trigger] entries@[i]).0@ != (#[trigger] entries@[j]).0@ by {
                    if i < n && j < n {
                        assert(old(entries)@[i].0@ != old(entries)@[j].0@);
                    } else if i == n {
                        assert(old(entries)@[j].0@ != p@);
                    } else if j == n {
                        assert(old(entries)@[i].0@ != p@);
                    }
                }
                lemma_key_index(entries@, p@, n);
                assert forall|q: Seq<char>| q != p@ implies (has_key(entries@, q) <==>
                has_key(old(entries)@, q)) by {
                    if has_key(entries@, q) {
                        let i = key_index(entries@, q);
                        assert(i < n);
                        assert(old(entries)@[i].0@ == q);
                    }
                    if has_key(old(entries)@, q) {
                        let i = key_index(old(entries)@, q);
                        assert(entries@[i].0@ == q);
                    }
                }
                assert forall|q: Seq<char>| has_key(old(entries)@, q) implies key_index(
                    entries@,
                    q,
                ) == key_index(old(entries)@, q) by {
                    let i = key_index(old(entries)@, q);
                    assert(entries@[i].0@ == q);
                    lemma_key_index(entries@, q, i);
                }
            }
        },
    }
}

/// Removes the one occurrence of a token id from the entry at a known
/// position of an ownership index; the other entries stay untouched.
pub(crate) fn index_remove(entries: &mut Vec<(Principal, Vec<u64>)>, i: usize, id: u64)
    requires
        keys_unique(old(entries)@),
        i < old(entries)@.len(),
        old(entries)@[i as int].1@.contains(id),
        forall|j: int, k: int|
            0 <= j < k < old(entries)@[i as int].1@.len() ==> old(entries)@[i as int].1@[j] != old(
                entries,
            )@[i as int].1@[k],
    ensures
        keys_unique(final(entries)@),
        final(entries)@.len() == old(entries)@.len(),
        forall|j: int|
            0 <= j < old(entries)@.len() && j != i as int ==> final(entries)@[j] == old(
                entries,
            )@[j],
        final(entries)@[i as int].0 == old(entries)@[i as int].0,
        ({
            let toks = old(entries)@[i as int].1@;
            let k = toks.index_of(id);
            &&& 0 <= k < toks.len()
            &&& toks[k] == id
            &&& final(entries)@[i as int].1@ == toks.remove(k)
        }),
        forall|q: Seq<char>| has_key(final(entries)@, q) <==> has_key(old(entries)@, q),
        forall|q: Seq<char>|
            has_key(old(entries)@, q) ==> key_index(final(entries)@, q) == key_index(
                old(entries)@,
                q,
            ),
{
    let mut entry = entries.remove(i);
    let n = entry.1.len();
    let mut pos: usize = n;
    let mut k: usize = 0;
    while k < n
        invariant
            n == entry.1@.len(),
            k <= n,
            entry.1@.contains(id),
            if pos == n {
                forall|j: int| 0 <= j < k ==> entry.1@[j] != id
            } else {
                pos < k && entry.1@[pos as int] == id
            },
        decreases n - k,
    {
        if pos == n && entry.1[k] == id {
            pos = k;
        }
        k = k + 1;
    }
    proof {
        if pos == n as usize {
            let w = choose|w: int| 0 <= w < entry.1@.len() && entry.1@[w] == id;
            assert(entry.1@[w] != id);
        }
        let io = entry.1@.index_of(id);
        assert(0 <= io < entry.1@.len() && entry.1@[io] == id);
        if io != pos as int {
            if io < pos as int {
                assert(entry.1@[io] != entry.1@[pos as int]);
            } else {
                assert(entry.1@[pos as int] != entry.1@[io]);
            }
        }
    }
    entry.1.remove(pos);
    entries.insert(i, entry);
    proof {
        assert forall|j: int|
            0 <= j < old(entries)@.len() && j != i as int implies entries@[j] == old(
            entries,
        )@[j] by {
            if j < i as int {
                assert(entries@[j] == old(entries)@.remove(i as int)[j]);
            } else {
                assert(entries@[j] == old(entries)@.remove(i as int)[j - 1]);
            }
        }
        assert forall|j: int|
            0 <= j < old(entries)@.len() implies (#[trigger] entries@[j]).0@ == old(
            entries,
        )@[j].0@ by {}
        lemma_same_keys(old(entries)@, entries@);
    }
}

/// Finds the position of a principal's entry in an association list; `None`
/// exactly when the list has no entry for it.
pub(crate) fn find_key<V>(entries: &Vec<(Principal, V)>, p: &Principal) -> (r: Option<usize>)
    ensures
        match r {
            Some(i) => i < entries@.len() && entries@[i as int].0@ == p@,
            None => !has_key(entries@, p@),
        },
{
    let n = entries.len();
    let mut i: usize = 0;
    while i < n
        invariant
            n == entries@.len(),
            i <= n,
            forall|j: int| 0 <= j < i ==> (#[trigger] entries@[j]).0@ != p@,
        decreases n - i,
    {
        if entries[i].0 == *p {
            return Some(i);
        }
        i = i + 1;
    }
    None
}

/// The owner index stays consistent when neither the tickets nor the index
/// itself change.
pub proof fn lemma_owner_index_same(a: TicketingSystem, b: TicketingSystem)
    requires
        a.owner_index_wf(),
        b.tickets@ == a.tickets@,
        b.user_tickets@ == a.user_tickets@,
    ensures
        b.owner_index_wf(),
{
    assert forall|t: int| 0 <= t < b.tickets@.len() implies {
        &&& has_key(b.user_tickets@, (#[trigger] b.tickets@[t]).owner@)
        &&& b.owned_tokens(b.tickets@[t].owner@).contains((t + 1) as u64)
    } by {
        assert(a.tickets@[t] == b.tickets@[t]);
        assert(b.owned_tokens(b.tickets@[t].owner@) == a.owned_tokens(a.tickets@[t].owner@));
    }
}

/// The owner index stays consistent when tickets keep their owners, whatever
/// else about them changes.
pub proof fn lemma_owner_index_same_owners(a: TicketingSystem, b: TicketingSystem)
    requires
        a.owner_index_wf(),
        b.user_tickets@ == a.user_tickets@,
        b.tickets@.len() == a.tickets@.len(),
        forall|t: int|
            0 <= t < a.tickets@.len() ==> (#[trigger] b.tickets@[t]).owner == a.tickets@[t].owner,
    ensures
        b.owner_index_wf(),
{
    let ut = b.user_tickets@;
    assert forall|i: int, j: int| 0 <= i < ut.len() && 0 <= j < ut[i].1@.len() implies {
        &&& b.has_ticket(#[trigger] ut[i].1@[j])
        &&& b.ticket_at(ut[i].1@[j]).owner@ == ut[i].0@
    } by {
        assert(a.has_ticket(ut[i].1@[j]) && a.ticket_at(ut[i].1@[j]).owner@ == ut[i].0@);
        assert(b.ticket_at(ut[i].1@[j]).owner == a.ticket_at(ut[i].1@[j]).owner);
    }
    assert forall|t: int| 0 <= t < b.tickets@.len() implies {
        &&& has_key(ut, (#[trigger] b.tickets@[t]).owner@)
        &&& b.owned_tokens(b.tickets@[t].owner@).contains((t + 1) as u64)
    } by {
        assert(b.tickets@[t].owner == a.tickets@[t].owner);
        assert(has_key(ut, a.tickets@[t].owner@));
        assert(b.owned_tokens(b.tickets@[t].owner@) == a.owned_tokens(a.tickets@[t].owner@));
    }
}

/// The organizer index stays consistent when events keep their organizers
/// and their count, whatever else about them changes.
pub proof fn lemma_organizer_index_same(a: TicketingSystem, b: TicketingSystem)
    requires
        a.organizer_index_wf(),
        b.organizer_events@ == a.organizer_events@,
        b.events@.len() == a.events@.len(),
        forall|e: int|
            0 <= e < a.events@.len() ==> (#[trigger] b.events@[e]).organizer == a.events@[e].organizer,
    ensures
        b.organizer_index_wf(),
{
    let oe = b.organizer_events@;
    assert forall|i: int, j: int| 0 <= i < oe.len() && 0 <= j < oe[i].1@.len() implies {
        &&& b.has_event(#[trigger] oe[i].1@[j])
        &&& b.event_at(oe[i].1@[j]).organizer@ == oe[i].0@
    } by {
        assert(a.has_event(oe[i].1@[j]) && a.event_at(oe[i].1@[j]).organizer@ == oe[i].0@);
        assert(b.event_at(oe[i].1@[j]).organizer == a.event_at(oe[i].1@[j]).organizer);
    }
    assert forall|e: int| 0 <= e < b.events@.len() implies {
        &&& has_key(oe, (#[trigger] b.events@[e]).organizer@)
        &&& b.organized_events(b.events@[e].organizer@).contains((e + 1) as u64)
    } by {
        assert(b.events@[e].organizer == a.events@[e].organizer);
        assert(has_key(oe, a.events@[e].organizer@));
        assert(b.organized_events(b.events@[e].organizer@) == a.organized_events(
            a.events@[e].organizer@,
        ));
    }
}

/// The whole store stays well formed when every entity-bearing field is
/// unchanged and the role table keeps its keys unique.
pub proof fn lemma_wf_same(a: TicketingSystem, b: TicketingSystem)
    requires
        a.wf(),
        b.events@ == a.events@,
        b.tickets@ == a.tickets@,
        b.user_tickets@ == a.user_tickets@,
        b.organizer_events@ == a.organizer_events@,
        keys_unique(b.user_roles@),
    ensures
        b.wf(),
{
    assert forall|i: int| 0 <= i < b.events@.len() implies {
        &&& (#[trigger] b.events@[i]).event_id == i + 1
        &&& b.events@[i].available_tickets <= b.events@[i].total_tickets
    } by {
        assert(b.events@[i] == a.events@[i]);
    }
    lemma_tickets_wf_same(a, b);
    lemma_owner_index_same(a, b);
    assert forall|e: int|
        0 <= e < a.events@.len() implies (#[trigger] b.events@[e]).organizer
        == a.events@[e].organizer by {
        assert(b.events@[e] == a.events@[e]);
    }
    lemma_organizer_index_same(a, b);
}

/// Tickets stay well formed when they do not change and no event disappears.
pub proof fn lemma_tickets_wf_same(a: TicketingSystem, b: TicketingSystem)
    requires
        a.tickets_wf(),
        b.tickets@ == a.tickets@,
        b.events@.len() >= a.events@.len(),
    ensures
        b.tickets_wf(),
{
    assert forall|i: int| 0 <= i < b.tickets@.len() implies {
        &&& (#[trigger] b.tickets@[i]).token_id == i + 1
        &&& b.has_event(b.tickets@[i].event_id)
        &&& b.tickets@[i].purchase_history@.len() >= 1
        &&& b.tickets@[i].owner@ == b.tickets@[i].purchase_history@.last().to@
        &&& b.tickets@[i].current_price <= max_resale_price(b.tickets@[i].original_price)
    } by {
        assert(a.tickets@[i] == b.tickets@[i]);
        assert(a.has_event(a.tickets@[i].event_id));
    }
}

} // verus!

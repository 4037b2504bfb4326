//! Authorization layer: role assignment. Role lookup lives on the store
//! itself, next to the data it reads.

use vstd::prelude::*;

use crate::store::find_key;
use crate::store::has_key;
use crate::store::key_index;
use crate::store::lemma_key_index;
use crate::store::lemma_same_keys;
use crate::store::lemma_wf_same;
use crate::store::TicketingSystem;
use crate::types::Error;
use crate::types::Principal;
use crate::types::Role;

verus! {

impl TicketingSystem {
    /// Overwrites the target's role unconditionally — no demotion
    /// protection and no self-demotion guard. Only an `Admin` may assign.
    pub fn assign_role(&mut self, caller: &Principal, user: Principal, role: Role) -> (r: Result<
        bool,
        Error,
    >)
        requires
            old(self).wf(),
        ensures
            final(self).wf(),
            ({
                let s = *old(self);
                if s.role_of(caller@) != Role::Admin {
                    r == Err::<bool, Error>(Error::NotAuthorized) && *final(self) == s
                } else {
                    &&& r == Ok::<bool, Error>(true)
                    &&& final(self).role_of(user@) == role
                    &&& forall|q: Seq<char>| q != user@ ==> final(self).role_of(q) == s.role_of(q)
                    &&& final(self).events@ == s.events@
                    &&& final(self).tickets@ == s.tickets@
                    &&& final(self).user_tickets@ == s.user_tickets@
                    &&& final(self).organizer_events@ == s.organizer_events@
                    &&& final(self).owner == s.owner
                }
            }),
    {
        let caller_role = self.get_user_role(caller);
        if !(caller_role == Role::Admin) {
            return Err(Error::NotAuthorized);
        }
        let found = find_key(&self.user_roles, &user);
        match found {
            Some(i) => {
                proof {
                    lemma_key_index(old(self).user_roles@, user@, i as int);
                }
                self.user_roles.set(i, (user, role));
                proof {
                    let ur_old = old(self).user_roles@;
                    let ur_new = self.user_roles@;
                    assert forall|j: int|
                        0 <= j < ur_old.len() implies (#[trigger] ur_new[j]).0@
                        == ur_old[j].0@ by {}
                    lemma_same_keys(ur_old, ur_new);
                    lemma_wf_same(*old(self), *self);
                    assert(self.role_of(user@) == role);
                    assert forall|q: Seq<char>| q != user@ implies self.role_of(q) == old(
                        self,
                    ).role_of(q) by {
                        if has_key(ur_old, q) {
                            assert(key_index(ur_new, q) == key_index(ur_old, q));
                            assert(ur_old[key_index(ur_old, q)].0@ == q);
                            assert(key_index(ur_old, q) != i as int);
                        }
                    }
                }
            },
            None => {
                self.user_roles.push((user, role));
                proof {
                    let ur_old = old(self).user_roles@;
                    let ur_new = self.user_roles@;
                    let n = ur_old.len() as int;
                    assert forall|a: int, b: int|
                        0 <= a < ur_new.len() && 0 <= b < ur_new.len() && a != b implies (
                    #[trigger] ur_new[a]).0@ != (#[trigger] ur_new[b]).0@ by {
                        if a < n && b < n {
                            assert(ur_old[a].0@ != ur_old[b].0@);
                        } else if a == n {
                            assert(ur_old[b].0@ != user@);
                        } else if b == n {
                            assert(ur_old[a].0@ != user@);
                        }
                    }
                    lemma_key_index(ur_new, user@, n);
                    lemma_wf_same(*old(self), *self);
                    assert(self.role_of(user@) == role);
                    assert forall|q: Seq<char>| q != user@ implies self.role_of(q) == old(
                        self,
                    ).role_of(q) by {
                        if has_key(ur_new, q) {
                            let j = key_index(ur_new, q);
                            assert(j < n);
                            assert(ur_old[j].0@ == q);
                            lemma_key_index(ur_old, q, j);
                        } else {
                            if has_key(ur_old, q) {
                                let j = key_index(ur_old, q);
                                assert(ur_new[j].0@ == q);
                            }
                        }
                    }
                }
            },
        }
        Ok(true)
    }
}

} // verus!

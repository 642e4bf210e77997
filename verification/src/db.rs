//! The local license store.
//!
//! A transactional in-memory model of the two persisted relations the
//! licensing core owns: activation records and credential rows.  Identifiers
//! grow monotonically as the backing store's rowids do, activation codes and
//! usernames are unique, and every stored record carries both window bounds.
//! Each operation either applies completely or leaves the store untouched,
//! the all-or-nothing behaviour of the backing store's transactions.
//!
//! The process around the library loads the rows from disk through the
//! `load_*_row` methods at startup and persists the store after each
//! mutating operation.

use vstd::prelude::*;

use crate::auth::ActivationDetails;
use crate::errors::LicenseError;
use crate::strutil::str_eq;
use crate::users::User;

verus! {

/// The persisted license state of one installation.
#[derive(Debug)]
pub struct LicenseStore {
    /// Activation records, in ascending `id` order; the last one is the
    /// authoritative current activation.
    pub activations: Vec<ActivationDetails>,
    /// Credential rows, in ascending `id` order.
    pub users: Vec<User>,
    /// Next rowid the activation relation will assign.
    pub next_activation_id: i64,
    /// Next rowid the credential relation will assign.
    pub next_user_id: i64,
}

impl LicenseStore {
    /// Well-formedness: ids ascending and below the next free id, activation
    /// codes unique, usernames unique, both window bounds present.
    pub open spec fn wf(self) -> bool {
        &&& forall|i: int, j: int|
            #![trigger self.activations@[i], self.activations@[j]]
            0 <= i < j < self.activations@.len() ==> self.activations@[i].id
                < self.activations@[j].id
        &&& forall|i: int|
            0 <= i < self.activations@.len() ==> (#[trigger] self.activations@[i]).id
                < self.next_activation_id
        &&& forall|i: int, j: int|
            #![trigger self.activations@[i], self.activations@[j]]
            0 <= i < self.activations@.len() && 0 <= j < self.activations@.len() && i != j
                ==> self.activations@[i].activation_code@ != self.activations@[j].activation_code@
        &&& forall|i: int|
            0 <= i < self.activations@.len() ==> (#[trigger] self.activations@[i]).start_date
                is Some && self.activations@[i].end_date is Some
        &&& forall|i: int, j: int|
            #![trigger self.users@[i], self.users@[j]]
            0 <= i < j < self.users@.len() ==> self.users@[i].id->0 < self.users@[j].id->0
        &&& forall|i: int|
            0 <= i < self.users@.len() ==> (#[trigger] self.users@[i]).id is Some
                && self.users@[i].id->0 < self.next_user_id
        &&& forall|i: int, j: int|
            #![trigger self.users@[i], self.users@[j]]
            0 <= i < self.users@.len() && 0 <= j < self.users@.len() && i != j
                ==> self.users@[i].username@ != self.users@[j].username@
        &&& 0 < self.next_activation_id
        &&& 0 < self.next_user_id
    }

    /// No stored activation carries this code.
    pub open spec fn code_free(self, code: Seq<char>) -> bool {
        forall|i: int|
            0 <= i < self.activations@.len() ==> (#[trigger] self.activations@[i]).activation_code@
                != code
    }

    /// No credential row carries this username.
    pub open spec fn username_free(self, username: Seq<char>) -> bool {
        forall|i: int|
            0 <= i < self.users@.len() ==> (#[trigger] self.users@[i]).username@ != username
    }

    /// The transactional activation-plus-seed-credential insert can commit.
    pub open spec fn can_insert(self, code: Seq<char>, username: Seq<char>) -> bool {
        &&& self.code_free(code)
        &&& self.username_free(username)
        &&& self.next_activation_id < i64::MAX
        &&& self.next_user_id < i64::MAX
    }

    /// A record with this code bound to this device exists.
    pub open spec fn has_window_for(self, code: Seq<char>, mac: Seq<char>) -> bool {
        exists|i: int|
            0 <= i < self.activations@.len() && rec_matches(
                #[trigger] self.activations@[i],
                code,
                mac,
            )
    }

    /// An empty store, as the external initialization routine leaves a
    /// fresh installation.
    pub fn new() -> (r: LicenseStore)
        ensures
            r.wf(),
            r.activations@.len() == 0,
            r.users@.len() == 0,
    {
        LicenseStore { activations: Vec::new(), users: Vec::new(), next_activation_id: 1, next_user_id: 1 }
    }

    /// True exactly when at least one activation record exists; this is what
    /// tells "never activated" from "activated but expired".
    pub fn has_activation(&self) -> (r: bool)
        ensures
            r == (self.activations@.len() > 0),
    {
        self.activations.len() > 0
    }

    /// Appends a new activation record and the seed credential row in one
    /// transaction: on any failure neither row is written.  Fails exactly
    /// when a unique constraint (activation code, username) would break or
    /// a rowid would overflow.
    pub fn insert_activation(
        &mut self,
        email: &str,
        organization_name: &str,
        serial_mac_id: &str,
        activation_code: &str,
        start_date: &str,
        end_date: &str,
        username: &str,
        password: &str,
        role: &str,
    ) -> (r: Result<(), LicenseError>)
        requires
            old(self).wf(),
        ensures
            final(self).wf(),
            (r is Ok) == old(self).can_insert(activation_code@, username@),
            r is Ok ==> {
                &&& final(self).activations@.len() == old(self).activations@.len() + 1
                &&& final(self).activations@ == old(self).activations@.push(
                    final(self).activations@.last(),
                )
                &&& inserted_activation(
                    final(self).activations@.last(),
                    old(self).next_activation_id,
                    email@,
                    organization_name@,
                    serial_mac_id@,
                    activation_code@,
                    start_date@,
                    end_date@,
                )
                &&& final(self).users@ == old(self).users@.push(final(self).users@.last())
                &&& inserted_user(
                    final(self).users@.last(),
                    old(self).next_user_id,
                    username@,
                    password@,
                    role@,
                )
            },
            r is Err ==> *final(self) == *old(self),
            r is Err ==> r matches Err(LicenseError::StoreWriteError(_)),
    {
        if self.next_activation_id == i64::MAX || self.next_user_id == i64::MAX {
            return Err(
                LicenseError::StoreWriteError("activation store is full".to_owned()),
            );
        }
        let n = self.activations.len();
        let mut i: usize = 0;
        while i < n
            invariant
                *self == *old(self),
                self.wf(),
                n == self.activations@.len(),
                i <= n,
                forall|k: int|
                    0 <= k < i ==> (#[trigger] self.activations@[k]).activation_code@
                        != activation_code@,
            decreases n - i,
        {
            if str_eq(self.activations[i].activation_code.as_str(), activation_code) {
                return Err(
                    LicenseError::StoreWriteError(
                        "UNIQUE constraint failed: Activations.activation_code".to_owned(),
                    ),
                );
            }
            i = i + 1;
        }
        let m = self.users.len();
        let mut j: usize = 0;
        while j < m
            invariant
                *self == *old(self),
                self.wf(),
                m == self.users@.len(),
                j <= m,
                forall|k: int| 0 <= k < j ==> (#[trigger] self.users@[k]).username@ != username@,
            decreases m - j,
        {
            if str_eq(self.users[j].username.as_str(), username) {
                return Err(
                    LicenseError::StoreWriteError(
                        "UNIQUE constraint failed: Users.username".to_owned(),
                    ),
                );
            }
            j = j + 1;
        }
        let rec = ActivationDetails {
            id: self.next_activation_id,
            email: email.to_owned(),
            organization_name: organization_name.to_owned(),
            serial_mac_id: serial_mac_id.to_owned(),
            activation_code: activation_code.to_owned(),
            start_date: Some(start_date.to_owned()),
            end_date: Some(end_date.to_owned()),
        };
        let user = User {
            id: Some(self.next_user_id),
            username: username.to_owned(),
            password: password.to_owned(),
            role: role.to_owned(),
        };
        self.activations.push(rec);
        self.users.push(user);
        self.next_activation_id = self.next_activation_id + 1;
        self.next_user_id = self.next_user_id + 1;
        Ok(())
    }

    /// Updates the window of the record whose `(activation_code,
    /// serial_mac_id)` pair matches exactly, and returns how many records
    /// that was.  A code without the right device binding matches nothing;
    /// no other record is altered either way.
    pub fn update_activation_window(
        &mut self,
        activation_code: &str,
        serial_mac_id: &str,
        start_date: &str,
        end_date: &str,
    ) -> (count: usize)
        requires
            old(self).wf(),
        ensures
            final(self).wf(),
            final(self).users@ == old(self).users@,
            final(self).next_activation_id == old(self).next_activation_id,
            final(self).next_user_id == old(self).next_user_id,
            final(self).activations@.len() == old(self).activations@.len(),
            forall|i: int|
                #![trigger final(self).activations@[i]]
                0 <= i < old(self).activations@.len() ==> if rec_matches(
                    old(self).activations@[i],
                    activation_code@,
                    serial_mac_id@,
                ) {
                    window_updated(
                        old(self).activations@[i],
                        final(self).activations@[i],
                        start_date@,
                        end_date@,
                    )
                } else {
                    final(self).activations@[i] == old(self).activations@[i]
                },
            count <= 1,
            (count == 1) == old(self).has_window_for(activation_code@, serial_mac_id@),
    {
        let n = self.activations.len();
        let mut found: Option<usize> = None;
        let mut i: usize = 0;
        while i < n
            invariant
                n == self.activations@.len(),
                i <= n,
                match found {
                    Some(k) => k < i && rec_matches(
                        self.activations@[k as int],
                        activation_code@,
                        serial_mac_id@,
                    ),
                    None => forall|k: int|
                        0 <= k < i ==> !rec_matches(
                            #[trigger] self.activations@[k],
                            activation_code@,
                            serial_mac_id@,
                        ),
                },
            decreases n - i,
        {
            if str_eq(self.activations[i].activation_code.as_str(), activation_code) && str_eq(
                self.activations[i].serial_mac_id.as_str(),
                serial_mac_id,
            ) {
                found = Some(i);
            }
            i = i + 1;
        }
        match found {
            None => 0,
            Some(k) => {
                let old_rec = self.activations.remove(k);
                let new_rec = ActivationDetails {
                    id: old_rec.id,
                    email: old_rec.email,
                    organization_name: old_rec.organization_name,
                    serial_mac_id: old_rec.serial_mac_id,
                    activation_code: old_rec.activation_code,
                    start_date: Some(start_date.to_owned()),
                    end_date: Some(end_date.to_owned()),
                };
                self.activations.insert(k, new_rec);
                proof {
                    assert(final(self).activations@ =~= old(self).activations@.update(
                        k as int,
                        final(self).activations@[k as int],
                    ));
                }
                1
            },
        }
    }

    /// The validity window of the authoritative (highest-id) record, or
    /// nothing when no activation exists.
    pub fn latest_activation_window(&self) -> (r: Option<(String, String)>)
        requires
            self.wf(),
        ensures
            (r is Some) == (self.activations@.len() > 0),
            r matches Some(p) ==> {
                &&& self.activations@.last().start_date matches Some(s) && p.0@ == s@
                &&& self.activations@.last().end_date matches Some(e) && p.1@ == e@
            },
    {
        let n = self.activations.len();
        if n == 0 {
            return None;
        }
        let rec = &self.activations[n - 1];
        let s = rec.start_date.as_ref().unwrap().clone();
        let e = rec.end_date.as_ref().unwrap().clone();
        Some((s, e))
    }

    /// Returns every activation record, in stored order.
    pub fn get_activations(&self) -> (r: Vec<ActivationDetails>)
        ensures
            r@ == self.activations@,
    {
        let n = self.activations.len();
        let mut r: Vec<ActivationDetails> = Vec::new();
        let mut i: usize = 0;
        while i < n
            invariant
                n == self.activations@.len(),
                i <= n,
                r@ == self.activations@.subrange(0, i as int),
            decreases n - i,
        {
            let a = &self.activations[i];
            r.push(
                ActivationDetails {
                    id: a.id,
                    email: a.email.clone(),
                    organization_name: a.organization_name.clone(),
                    serial_mac_id: a.serial_mac_id.clone(),
                    activation_code: a.activation_code.clone(),
                    start_date: match &a.start_date {
                        Some(s) => Some(s.clone()),
                        None => None,
                    },
                    end_date: match &a.end_date {
                        Some(s) => Some(s.clone()),
                        None => None,
                    },
                },
            );
            proof {
                assert(r@ =~= self.activations@.subrange(0, i + 1));
            }
            i = i + 1;
        }
        proof {
            assert(r@ =~= self.activations@);
        }
        r
    }

    /// Exact-username lookup; returns the stored password and role.
    pub fn find_credential(&self, username: &str) -> (r: Option<(String, String)>)
        ensures
            (r is Some) == exists|i: int|
                0 <= i < self.users@.len() && (#[trigger] self.users@[i]).username@ == username@,
            r matches Some(p) ==> exists|i: int|
                {
                    &&& 0 <= i < self.users@.len()
                    &&& (#[trigger] self.users@[i]).username@ == username@
                    &&& p.0@ == self.users@[i].password@
                    &&& p.1@ == self.users@[i].role@
                },
    {
        let n = self.users.len();
        let mut i: usize = 0;
        while i < n
            invariant
                n == self.users@.len(),
                i <= n,
                forall|k: int| 0 <= k < i ==> (#[trigger] self.users@[k]).username@ != username@,
            decreases n - i,
        {
            if str_eq(self.users[i].username.as_str(), username) {
                return Some((self.users[i].password.clone(), self.users[i].role.clone()));
            }
            i = i + 1;
        }
        None
    }

    /// Replays one persisted activation row, in ascending `id` order, while
    /// the process loads its state at startup.
    pub fn load_activation_row(&mut self, rec: ActivationDetails) -> (r: Result<
        (),
        LicenseError,
    >)
        requires
            old(self).wf(),
        ensures
            final(self).wf(),
            r is Ok ==> final(self).activations@ == old(self).activations@.push(
                final(self).activations@.last(),
            ),
            r is Err ==> *final(self) == *old(self),
    {
        if rec.id < self.next_activation_id || rec.id == i64::MAX {
            return Err(LicenseError::StoreOpenError("activation rows out of order".to_owned()));
        }
        if rec.start_date.is_none() || rec.end_date.is_none() {
            return Err(
                LicenseError::StoreOpenError("activation row misses a window bound".to_owned()),
            );
        }
        let n = self.activations.len();
        let mut i: usize = 0;
        while i < n
            invariant
                *self == *old(self),
                self.wf(),
                n == self.activations@.len(),
                i <= n,
                forall|k: int|
                    0 <= k < i ==> (#[trigger] self.activations@[k]).activation_code@
                        != rec.activation_code@,
            decreases n - i,
        {
            if str_eq(self.activations[i].activation_code.as_str(), rec.activation_code.as_str()) {
                return Err(
                    LicenseError::StoreOpenError("duplicate activation code".to_owned()),
                );
            }
            i = i + 1;
        }
        self.next_activation_id = rec.id + 1;
        self.activations.push(rec);
        Ok(())
    }

    /// Replays one persisted credential row, in ascending `id` order, while
    /// the process loads its state at startup.
    pub fn load_user_row(&mut self, user: User) -> (r: Result<(), LicenseError>)
        requires
            old(self).wf(),
        ensures
            final(self).wf(),
            r is Ok ==> final(self).users@ == old(self).users@.push(final(self).users@.last()),
            r is Err ==> *final(self) == *old(self),
    {
        let id = match user.id {
            Some(v) => v,
            None => {
                return Err(LicenseError::StoreOpenError("credential row misses its id".to_owned()));
            },
        };
        if id < self.next_user_id || id == i64::MAX {
            return Err(LicenseError::StoreOpenError("credential rows out of order".to_owned()));
        }
        let n = self.users.len();
        let mut i: usize = 0;
        while i < n
            invariant
                *self == *old(self),
                self.wf(),
                n == self.users@.len(),
                i <= n,
                forall|k: int| 0 <= k < i ==> (#[trigger] self.users@[k]).username@ != user.username@,
            decreases n - i,
        {
            if str_eq(self.users[i].username.as_str(), user.username.as_str()) {
                return Err(LicenseError::StoreOpenError("duplicate username".to_owned()));
            }
            i = i + 1;
        }
        self.next_user_id = id + 1;
        self.users.push(user);
        Ok(())
    }
}

/// The last record is the authoritative one: it carries the highest id.
pub proof fn lemma_last_record_has_highest_id(s: LicenseStore)
    requires
        s.wf(),
        s.activations@.len() > 0,
    ensures
        forall|i: int|
            0 <= i < s.activations@.len() - 1 ==> (#[trigger] s.activations@[i]).id
                < s.activations@.last().id,
{
}

/// `r` carries exactly this code bound to exactly this device.
pub open spec fn rec_matches(r: ActivationDetails, code: Seq<char>, mac: Seq<char>) -> bool {
    r.activation_code@ == code && r.serial_mac_id@ == mac
}

/// `newr` is `oldr` with its window replaced by the given bounds.
pub open spec fn window_updated(
    oldr: ActivationDetails,
    newr: ActivationDetails,
    start: Seq<char>,
    end: Seq<char>,
) -> bool {
    &&& newr.id == oldr.id
    &&& newr.email == oldr.email
    &&& newr.organization_name == oldr.organization_name
    &&& newr.serial_mac_id == oldr.serial_mac_id
    &&& newr.activation_code == oldr.activation_code
    &&& newr.start_date matches Some(s) && s@ == start
    &&& newr.end_date matches Some(e) && e@ == end
}

/// The activation record a committed insert appends.
pub open spec fn inserted_activation(
    r: ActivationDetails,
    id: i64,
    email: Seq<char>,
    organization_name: Seq<char>,
    serial_mac_id: Seq<char>,
    activation_code: Seq<char>,
    start: Seq<char>,
    end: Seq<char>,
) -> bool {
    &&& r.id == id
    &&& r.email@ == email
    &&& r.organization_name@ == organization_name
    &&& r.serial_mac_id@ == serial_mac_id
    &&& r.activation_code@ == activation_code
    &&& r.start_date matches Some(s) && s@ == start
    &&& r.end_date matches Some(e) && e@ == end
}

/// The credential row a committed insert appends.
pub open spec fn inserted_user(
    u: User,
    id: i64,
    username: Seq<char>,
    password: Seq<char>,
    role: Seq<char>,
) -> bool {
    &&& u.id == Some(id)
    &&& u.username@ == username
    &&& u.password@ == password
    &&& u.role@ == role
}

} // verus!

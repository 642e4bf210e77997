//! Credential rows and their administration.
//!
//! The credential table is shared: the activation lifecycle inserts its
//! first row as part of a successful new activation, and the operations
//! here let an administrator add, list, edit and remove rows afterwards.
//! Usernames stay unique throughout.

use vstd::prelude::*;

use crate::db::LicenseStore;
use crate::errors::LicenseError;
use crate::strutil::str_eq;

verus! {

/// One credential row.  `id` is assigned by the store; a row that has not
/// been stored yet carries `None`.
#[derive(Debug, Clone)]
pub struct User {
    pub id: Option<i64>,
    pub username: String,
    pub password: String,
    pub role: String,
}

/// `u` carries the given stored id.
pub open spec fn user_has_id(u: User, id: i64) -> bool {
    u.id == Some(id)
}

/// No row other than the one at `k` carries this username.
pub open spec fn username_free_except(s: LicenseStore, username: Seq<char>, k: int) -> bool {
    forall|j: int|
        0 <= j < s.users@.len() && j != k ==> (#[trigger] s.users@[j]).username@ != username
}

/// Adds a credential row.  The store assigns the id; the row's own `id`
/// field is ignored, as the backing store's autoincrement would.  Fails
/// exactly when the username is already taken or the id space is full.
pub fn add_user(store: &mut LicenseStore, user: User) -> (r: Result<i64, LicenseError>)
    requires
        old(store).wf(),
    ensures
        final(store).wf(),
        final(store).activations@ == old(store).activations@,
        (r is Ok) == (old(store).username_free(user.username@) && old(store).next_user_id
            < i64::MAX),
        r matches Ok(id) ==> {
            &&& id == old(store).next_user_id
            &&& final(store).users@ == old(store).users@.push(final(store).users@.last())
            &&& crate::db::inserted_user(
                final(store).users@.last(),
                id,
                user.username@,
                user.password@,
                user.role@,
            )
        },
        r is Err ==> *final(store) == *old(store) && r matches Err(
            LicenseError::StoreWriteError(_),
        ),
{
    if store.next_user_id == i64::MAX {
        return Err(LicenseError::StoreWriteError("credential store is full".to_owned()));
    }
    let n = store.users.len();
    let mut i: usize = 0;
    while i < n
        invariant
            *store == *old(store),
            store.wf(),
            n == store.users@.len(),
            i <= n,
            forall|k: int| 0 <= k < i ==> (#[trigger] store.users@[k]).username@ != user.username@,
        decreases n - i,
    {
        if str_eq(store.users[i].username.as_str(), user.username.as_str()) {
            return Err(
                LicenseError::StoreWriteError(
                    "UNIQUE constraint failed: Users.username".to_owned(),
                ),
            );
        }
        i = i + 1;
    }
    let id = store.next_user_id;
    let row = User {
        id: Some(id),
        username: user.username,
        password: user.password,
        role: user.role,
    };
    store.users.push(row);
    store.next_user_id = id + 1;
    Ok(id)
}

/// Returns every credential row, in stored order.
pub fn get_users(store: &LicenseStore) -> (r: Vec<User>)
    ensures
        r@ == store.users@,
{
    let n = store.users.len();
    let mut r: Vec<User> = Vec::new();
    let mut i: usize = 0;
    while i < n
        invariant
            n == store.users@.len(),
            i <= n,
            r@ == store.users@.subrange(0, i as int),
        decreases n - i,
    {
        let u = &store.users[i];
        r.push(
            User {
                id: u.id,
                username: u.username.clone(),
                password: u.password.clone(),
                role: u.role.clone(),
            },
        );
        proof {
            assert(r@ =~= store.users@.subrange(0, i + 1));
        }
        i = i + 1;
    }
    proof {
        assert(r@ =~= store.users@);
    }
    r
}

/// Rewrites the row whose stored id equals `user.id`.  Fails exactly when
/// no row carries that id or the new username is taken by another row;
/// nothing changes on failure.
pub fn update_user(store: &mut LicenseStore, user: User) -> (r: Result<(), LicenseError>)
    requires
        old(store).wf(),
    ensures
        final(store).wf(),
        final(store).activations@ == old(store).activations@,
        final(store).users@.len() == old(store).users@.len(),
        (r is Ok) == exists|k: int|
            {
                &&& 0 <= k < old(store).users@.len()
                &&& user.id is Some
                &&& user_has_id(#[trigger] old(store).users@[k], user.id->0)
                &&& username_free_except(*old(store), user.username@, k)
            },
        r is Ok ==> exists|k: int|
            {
                &&& 0 <= k < old(store).users@.len()
                &&& user_has_id(#[trigger] old(store).users@[k], user.id->0)
                &&& final(store).users@[k].id == old(store).users@[k].id
                &&& final(store).users@[k].username@ == user.username@
                &&& final(store).users@[k].password@ == user.password@
                &&& final(store).users@[k].role@ == user.role@
                &&& forall|j: int|
                    0 <= j < old(store).users@.len() && j != k ==> final(store).users@[j] == old(
                        store,
                    ).users@[j]
            },
        r is Err ==> *final(store) == *old(store) && r matches Err(
            LicenseError::StoreWriteError(_),
        ),
{
    let id = match user.id {
        Some(v) => v,
        None => {
            return Err(LicenseError::StoreWriteError("user not found".to_owned()));
        },
    };
    let n = store.users.len();
    let mut found: Option<usize> = None;
    let mut i: usize = 0;
    while i < n
        invariant
            *store == *old(store),
            store.wf(),
            n == store.users@.len(),
            i <= n,
            match found {
                Some(k) => k < i && store.users@[k as int].id == Some(id),
                None => forall|k: int|
                    0 <= k < i ==> (#[trigger] store.users@[k]).id != Some(id),
            },
        decreases n - i,
    {
        let row_id = store.users[i].id;
        let is_target = match row_id {
            Some(v) => v == id,
            None => false,
        };
        if is_target {
            found = Some(i);
        }
        i = i + 1;
    }
    let k = match found {
        Some(k) => k,
        None => {
            return Err(LicenseError::StoreWriteError("user not found".to_owned()));
        },
    };
    let mut j: usize = 0;
    while j < n
        invariant
            *store == *old(store),
            store.wf(),
            n == store.users@.len(),
            j <= n,
            k < n,
            user.id == Some(id),
            store.users@[k as int].id == Some(id),
            forall|t: int|
                0 <= t < j && t != k ==> (#[trigger] store.users@[t]).username@ != user.username@,
        decreases n - j,
    {
        if j != k && str_eq(store.users[j].username.as_str(), user.username.as_str()) {
            proof {
                assert forall|kk: int|
                    0 <= kk < store.users@.len() && user.id is Some && user_has_id(
                        #[trigger] store.users@[kk],
                        user.id->0,
                    ) implies !username_free_except(*store, user.username@, kk) by {
                    if kk == k {
                        assert(store.users@[j as int].username@ == user.username@);
                        assert(!username_free_except(*store, user.username@, kk));
                    } else {
                        assert(store.users@[kk].id == Some(id));
                        assert(store.users@[k as int].id == Some(id));
                        assert(false);
                    }
                }
            }
            return Err(
                LicenseError::StoreWriteError(
                    "UNIQUE constraint failed: Users.username".to_owned(),
                ),
            );
        }
        j = j + 1;
    }
    let old_row = store.users.remove(k);
    let new_row = User { id: old_row.id, username: user.username, password: user.password, role: user.role };
    store.users.insert(k, new_row);
    proof {
        assert(final(store).users@ =~= old(store).users@.update(
            k as int,
            final(store).users@[k as int],
        ));
    }
    Ok(())
}

/// Removes the row whose stored id equals `id`.  Fails exactly when no row
/// carries that id; nothing changes then.
pub fn delete_user(store: &mut LicenseStore, id: i64) -> (r: Result<(), LicenseError>)
    requires
        old(store).wf(),
    ensures
        final(store).wf(),
        final(store).activations@ == old(store).activations@,
        (r is Ok) == exists|k: int|
            0 <= k < old(store).users@.len() && user_has_id(#[trigger] old(store).users@[k], id),
        r is Ok ==> exists|k: int|
            {
                &&& 0 <= k < old(store).users@.len()
                &&& user_has_id(#[trigger] old(store).users@[k], id)
                &&& final(store).users@ == old(store).users@.remove(k)
            },
        r is Err ==> *final(store) == *old(store) && r matches Err(
            LicenseError::StoreWriteError(_),
        ),
{
    let n = store.users.len();
    let mut found: Option<usize> = None;
    let mut i: usize = 0;
    while i < n
        invariant
            *store == *old(store),
            store.wf(),
            n == store.users@.len(),
            i <= n,
            match found {
                Some(k) => k < i && store.users@[k as int].id == Some(id),
                None => forall|k: int|
                    0 <= k < i ==> (#[trigger] store.users@[k]).id != Some(id),
            },
        decreases n - i,
    {
        let row_id = store.users[i].id;
        let is_target = match row_id {
            Some(v) => v == id,
            None => false,
        };
        if is_target {
            found = Some(i);
        }
        i = i + 1;
    }
    match found {
        None => Err(LicenseError::StoreWriteError("user not found".to_owned())),
        Some(k) => {
            store.users.remove(k);
            Ok(())
        },
    }
}

} // verus!

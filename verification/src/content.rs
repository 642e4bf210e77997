//! Content-path bookkeeping.
//!
//! A model of the content-path relation: each row names a directory of
//! course content, at most one of which the application treats as active.
//! Activating a path deactivates every other row in the same transaction;
//! adding a path replaces an existing row with the same text, as the
//! backing store's insert-or-replace does, and the replacement row gets a
//! fresh id.  The active row cannot be deleted.

use vstd::prelude::*;

use crate::errors::LicenseError;
use crate::strutil::str_eq;

verus! {

/// One content-path row.
#[derive(Debug, Clone)]
pub struct ContentPath {
    pub id: i64,
    pub path: String,
    pub is_active: bool,
}

/// One directory entry of a listed content path.
#[derive(Debug, Clone)]
pub struct FileEntry {
    pub name: String,
    pub is_directory: bool,
}

/// The content-path relation.
#[derive(Debug)]
pub struct ContentStore {
    /// Rows in ascending `id` order.
    pub paths: Vec<ContentPath>,
    /// Next rowid the relation will assign.
    pub next_path_id: i64,
}

/// `newp` is `oldp` switched (or left) inactive.
pub open spec fn deactivated_of(oldp: ContentPath, newp: ContentPath) -> bool {
    newp.id == oldp.id && newp.path == oldp.path && !newp.is_active
}

/// `newp` is `oldp` switched (or left) active.
pub open spec fn activated_of(oldp: ContentPath, newp: ContentPath) -> bool {
    newp.id == oldp.id && newp.path == oldp.path && newp.is_active
}

/// The freshly appended active row of an insert-or-replace.
pub open spec fn fresh_active_rec(r: ContentPath, id: i64, path: Seq<char>) -> bool {
    r.id == id && r.path@ == path && r.is_active
}

impl ContentStore {
    /// Well-formedness: ids ascending and below the next free id, path
    /// texts unique.
    pub open spec fn wf(self) -> bool {
        &&& forall|i: int, j: int|
            #![trigger self.paths@[i], self.paths@[j]]
            0 <= i < j < self.paths@.len() ==> self.paths@[i].id < self.paths@[j].id
        &&& forall|i: int|
            0 <= i < self.paths@.len() ==> (#[trigger] self.paths@[i]).id < self.next_path_id
        &&& forall|i: int, j: int|
            #![trigger self.paths@[i], self.paths@[j]]
            0 <= i < self.paths@.len() && 0 <= j < self.paths@.len() && i != j
                ==> self.paths@[i].path@ != self.paths@[j].path@
        &&& 0 < self.next_path_id
    }

    /// Some row is the active one.
    pub open spec fn has_active(self) -> bool {
        exists|i: int| 0 <= i < self.paths@.len() && (#[trigger] self.paths@[i]).is_active
    }

    /// A row with this text exists.
    pub open spec fn has_path(self, path: Seq<char>) -> bool {
        exists|i: int| 0 <= i < self.paths@.len() && (#[trigger] self.paths@[i]).path@ == path
    }

    /// An empty relation.
    pub fn new() -> (r: ContentStore)
        ensures
            r.wf(),
            r.paths@.len() == 0,
    {
        ContentStore { paths: Vec::new(), next_path_id: 1 }
    }

    /// True exactly when an active content path exists.
    pub fn has_active_content_path(&self) -> (r: bool)
        ensures
            r == self.has_active(),
    {
        let n = self.paths.len();
        let mut i: usize = 0;
        while i < n
            invariant
                n == self.paths@.len(),
                i <= n,
                forall|k: int| 0 <= k < i ==> !(#[trigger] self.paths@[k]).is_active,
            decreases n - i,
        {
            if self.paths[i].is_active {
                return true;
            }
            i = i + 1;
        }
        false
    }

    /// Returns every row, in stored order.
    pub fn get_content_paths(&self) -> (r: Vec<ContentPath>)
        ensures
            r@ == self.paths@,
    {
        let n = self.paths.len();
        let mut r: Vec<ContentPath> = Vec::new();
        let mut i: usize = 0;
        while i < n
            invariant
                n == self.paths@.len(),
                i <= n,
                r@ == self.paths@.subrange(0, i as int),
            decreases n - i,
        {
            let p = &self.paths[i];
            r.push(ContentPath { id: p.id, path: p.path.clone(), is_active: p.is_active });
            proof {
                assert(r@ =~= self.paths@.subrange(0, i + 1));
            }
            i = i + 1;
        }
        proof {
            assert(r@ =~= self.paths@);
        }
        r
    }

    /// The text of the first active row, if any.
    pub fn get_active_content_path(&self) -> (r: Option<String>)
        ensures
            (r is Some) == self.has_active(),
            r matches Some(p) ==> exists|i: int|
                {
                    &&& 0 <= i < self.paths@.len()
                    &&& (#[trigger] self.paths@[i]).is_active
                    &&& p@ == self.paths@[i].path@
                },
    {
        let n = self.paths.len();
        let mut i: usize = 0;
        while i < n
            invariant
                n == self.paths@.len(),
                i <= n,
                forall|k: int| 0 <= k < i ==> !(#[trigger] self.paths@[k]).is_active,
            decreases n - i,
        {
            if self.paths[i].is_active {
                return Some(self.paths[i].path.clone());
            }
            i = i + 1;
        }
        None
    }

    /// Deactivates every row in place.
    fn deactivate_all(&mut self)
        requires
            old(self).wf(),
        ensures
            final(self).wf(),
            final(self).next_path_id == old(self).next_path_id,
            final(self).paths@.len() == old(self).paths@.len(),
            forall|i: int|
                0 <= i < old(self).paths@.len() ==> deactivated_of(
                    old(self).paths@[i],
                    #[trigger] final(self).paths@[i],
                ),
    {
        let n = self.paths.len();
        let mut i: usize = 0;
        while i < n
            invariant
                self.wf(),
                self.next_path_id == old(self).next_path_id,
                n == self.paths@.len(),
                n == old(self).paths@.len(),
                i <= n,
                forall|k: int|
                    0 <= k < i ==> deactivated_of(
                        old(self).paths@[k],
                        #[trigger] self.paths@[k],
                    ),
                forall|k: int|
                    i <= k < n ==> #[trigger] self.paths@[k] == old(self).paths@[k],
            decreases n - i,
        {
            if self.paths[i].is_active {
                let r = self.paths.remove(i);
                self.paths.insert(
                    i,
                    ContentPath { id: r.id, path: r.path, is_active: false },
                );
            }
            i = i + 1;
        }
    }

    /// Adds `path` and makes it the single active row, deactivating every
    /// other row; a row that already carried the same text is replaced,
    /// and the new row gets a fresh id either way.
    pub fn add_and_set_active_content_path(&mut self, path: String) -> (r: Result<
        (),
        LicenseError,
    >)
        requires
            old(self).wf(),
        ensures
            final(self).wf(),
            (r is Ok) == (old(self).next_path_id < i64::MAX),
            r is Err ==> *final(self) == *old(self) && r matches Err(
                LicenseError::StoreWriteError(_),
            ),
            r is Ok ==> final(self).paths@.len() > 0 && fresh_active_rec(
                final(self).paths@.last(),
                old(self).next_path_id,
                path@,
            ),
            r is Ok && !old(self).has_path(path@) ==> {
                &&& final(self).paths@.len() == old(self).paths@.len() + 1
                &&& forall|i: int|
                    0 <= i < old(self).paths@.len() ==> deactivated_of(
                        old(self).paths@[i],
                        #[trigger] final(self).paths@[i],
                    )
            },
            r is Ok && old(self).has_path(path@) ==> exists|k: int|
                {
                    &&& 0 <= k < old(self).paths@.len()
                    &&& (#[trigger] old(self).paths@[k]).path@ == path@
                    &&& final(self).paths@.len() == old(self).paths@.len()
                    &&& forall|i: int|
                        #![trigger final(self).paths@[i]]
                        0 <= i < k ==> deactivated_of(old(self).paths@[i], final(self).paths@[i])
                    &&& forall|i: int|
                        #![trigger final(self).paths@[i]]
                        k <= i < old(self).paths@.len() - 1 ==> deactivated_of(
                            old(self).paths@[i + 1],
                            final(self).paths@[i],
                        )
                },
    {
        if self.next_path_id == i64::MAX {
            return Err(LicenseError::StoreWriteError("content store is full".to_owned()));
        }
        self.deactivate_all();
        let ghost mid = self.paths@;
        let n = self.paths.len();
        let mut found: Option<usize> = None;
        let mut i: usize = 0;
        while i < n
            invariant
                self.paths@ == mid,
                self.wf(),
                n == self.paths@.len(),
                i <= n,
                match found {
                    Some(k) => k < i && self.paths@[k as int].path@ == path@,
                    None => forall|k: int|
                        0 <= k < i ==> (#[trigger] self.paths@[k]).path@ != path@,
                },
            decreases n - i,
        {
            if str_eq(self.paths[i].path.as_str(), path.as_str()) {
                found = Some(i);
            }
            i = i + 1;
        }
        if let Some(k) = found {
            self.paths.remove(k);
            proof {
                assert(self.paths@ =~= mid.subrange(0, k as int) + mid.subrange(
                    k + 1,
                    mid.len() as int,
                ));
            }
        }
        let ghost mid2 = self.paths@;
        let id = self.next_path_id;
        self.paths.push(ContentPath { id, path, is_active: true });
        self.next_path_id = id + 1;
        proof {
            let oldv = old(self).paths@;
            match found {
                Some(k) => {
                    assert(oldv[k as int].path@ == path@);
                    assert forall|i: int| 0 <= i < k implies deactivated_of(
                        oldv[i],
                        #[trigger] self.paths@[i],
                    ) by {
                        assert(self.paths@[i] == mid2[i]);
                        assert(mid2[i] == mid[i]);
                    }
                    assert forall|i: int| k <= i < oldv.len() - 1 implies deactivated_of(
                        oldv[i + 1],
                        #[trigger] self.paths@[i],
                    ) by {
                        assert(self.paths@[i] == mid2[i]);
                        assert(mid2[i] == mid[i + 1]);
                    }
                },
                None => {
                    assert forall|t: int| 0 <= t < oldv.len() implies (#[trigger] oldv[t]).path@
                        != path@ by {
                        assert(deactivated_of(oldv[t], mid[t]));
                        assert(mid[t].path@ != path@);
                    }
                },
            }
        }
        Ok(())
    }

    /// Makes the row with this id the single active one, deactivating all
    /// others; when no row carries the id the relation is left untouched,
    /// as the rolled-back transaction leaves the backing store.
    pub fn set_active_content_path(&mut self, id: i32) -> (r: Result<(), LicenseError>)
        requires
            old(self).wf(),
        ensures
            final(self).wf(),
            final(self).next_path_id == old(self).next_path_id,
            (r is Ok) == exists|k: int|
                0 <= k < old(self).paths@.len() && (#[trigger] old(self).paths@[k]).id
                    == id as i64,
            r is Err ==> *final(self) == *old(self) && r matches Err(
                LicenseError::StoreWriteError(_),
            ),
            r is Ok ==> {
                &&& final(self).paths@.len() == old(self).paths@.len()
                &&& forall|i: int|
                    #![trigger final(self).paths@[i]]
                    0 <= i < old(self).paths@.len() ==> if old(self).paths@[i].id == id as i64 {
                        activated_of(old(self).paths@[i], final(self).paths@[i])
                    } else {
                        deactivated_of(old(self).paths@[i], final(self).paths@[i])
                    }
            },
    {
        let n = self.paths.len();
        let mut found: Option<usize> = None;
        let mut i: usize = 0;
        while i < n
            invariant
                *self == *old(self),
                self.wf(),
                n == self.paths@.len(),
                i <= n,
                match found {
                    Some(k) => k < i && self.paths@[k as int].id == id as i64,
                    None => forall|k: int|
                        0 <= k < i ==> (#[trigger] self.paths@[k]).id != id as i64,
                },
            decreases n - i,
        {
            if self.paths[i].id == id as i64 {
                found = Some(i);
            }
            i = i + 1;
        }
        let k = match found {
            Some(k) => k,
            None => {
                return Err(
                    LicenseError::StoreWriteError("Content path not found".to_owned()),
                );
            },
        };
        self.deactivate_all();
        let r = self.paths.remove(k);
        self.paths.insert(k, ContentPath { id: r.id, path: r.path, is_active: true });
        proof {
            assert(final(self).paths@ =~= final(self).paths@);
        }
        Ok(())
    }

    /// Removes the row with this id, unless it is the active one.  Fails
    /// when no row carries the id or the row is active; nothing changes
    /// then.
    pub fn delete_content_path(&mut self, id: i32) -> (r: Result<(), LicenseError>)
        requires
            old(self).wf(),
        ensures
            final(self).wf(),
            (r is Ok) == exists|k: int|
                {
                    &&& 0 <= k < old(self).paths@.len()
                    &&& (#[trigger] old(self).paths@[k]).id == id as i64
                    &&& !old(self).paths@[k].is_active
                },
            r is Ok ==> exists|k: int|
                {
                    &&& 0 <= k < old(self).paths@.len()
                    &&& (#[trigger] old(self).paths@[k]).id == id as i64
                    &&& final(self).paths@ == old(self).paths@.remove(k)
                },
            r is Err ==> *final(self) == *old(self) && r matches Err(
                LicenseError::StoreWriteError(_),
            ),
    {
        let n = self.paths.len();
        let mut found: Option<usize> = None;
        let mut i: usize = 0;
        while i < n
            invariant
                *self == *old(self),
                self.wf(),
                n == self.paths@.len(),
                i <= n,
                match found {
                    Some(k) => k < i && self.paths@[k as int].id == id as i64,
                    None => forall|k: int|
                        0 <= k < i ==> (#[trigger] self.paths@[k]).id != id as i64,
                },
            decreases n - i,
        {
            if self.paths[i].id == id as i64 {
                found = Some(i);
            }
            i = i + 1;
        }
        let k = match found {
            Some(k) => k,
            None => {
                return Err(
                    LicenseError::StoreWriteError("Query returned no rows".to_owned()),
                );
            },
        };
        if self.paths[k].is_active {
            return Err(
                LicenseError::StoreWriteError(
                    "Cannot delete the active content path.".to_owned(),
                ),
            );
        }
        self.paths.remove(k);
        Ok(())
    }

    /// Replays one persisted row, in ascending `id` order, while the
    /// process loads its state at startup.
    pub fn load_path_row(&mut self, rec: ContentPath) -> (r: Result<(), LicenseError>)
        requires
            old(self).wf(),
        ensures
            final(self).wf(),
            r is Ok ==> final(self).paths@ == old(self).paths@.push(final(self).paths@.last()),
            r is Err ==> *final(self) == *old(self),
    {
        if rec.id < self.next_path_id || rec.id == i64::MAX {
            return Err(LicenseError::StoreOpenError("content rows out of order".to_owned()));
        }
        let n = self.paths.len();
        let mut i: usize = 0;
        while i < n
            invariant
                *self == *old(self),
                self.wf(),
                n == self.paths@.len(),
                i <= n,
                forall|k: int| 0 <= k < i ==> (#[trigger] self.paths@[k]).path@ != rec.path@,
            decreases n - i,
        {
            if str_eq(self.paths[i].path.as_str(), rec.path.as_str()) {
                return Err(LicenseError::StoreOpenError("duplicate content path".to_owned()));
            }
            i = i + 1;
        }
        self.next_path_id = rec.id + 1;
        self.paths.push(rec);
        Ok(())
    }
}

} // verus!

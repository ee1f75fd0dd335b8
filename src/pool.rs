//! The per-database connection directory, with the primary database addressable by
//! id and as the default, and the default pool bounds.

use vstd::prelude::*;

use crate::text::str_equal;

verus! {

/// The most databases a project can connect to.
pub const DATABASE_LIMIT: usize = 9;

/// Why the directory could not be formed.
#[derive(Clone, Debug, PartialEq, Eq, Structural)]
pub enum PoolError {
    /// No database is marked primary.
    NoPrimary,
    /// More than one database is marked primary.
    SeveralPrimaries,
    /// More databases than `DATABASE_LIMIT`.
    TooMany,
}

/// The number of entries marked primary.
pub open spec fn primary_count<T>(s: Seq<(String, bool, T)>) -> nat
    decreases s.len(),
{
    if s.len() == 0 {
        0
    } else {
        primary_count(s.drop_last()) + if s.last().1 {
            1nat
        } else {
            0nat
        }
    }
}

/// The ids and handles of the entries not marked primary, in order.
pub open spec fn non_primary<T>(s: Seq<(String, bool, T)>) -> Seq<(Seq<char>, T)>
    decreases s.len(),
{
    if s.len() == 0 {
        Seq::empty()
    } else if s.last().1 {
        non_primary(s.drop_last())
    } else {
        non_primary(s.drop_last()).push((s.last().0@, s.last().2))
    }
}

/// One handle per database id; the primary one kept apart.
pub struct DatabasesConnections<T> {
    primary_id: String,
    primary: T,
    others: Vec<(String, T)>,
}

impl<T> DatabasesConnections<T> {
    pub closed spec fn spec_primary_id(&self) -> Seq<char> {
        self.primary_id@
    }

    pub closed spec fn spec_primary(&self) -> T {
        self.primary
    }

    /// The other databases' ids and handles, in configuration order.
    pub closed spec fn spec_others(&self) -> Seq<(Seq<char>, T)> {
        self.others@.map_values(|e: (String, T)| (e.0@, e.1))
    }

    /// Forms the directory from `(id, is_primary, handle)` entries: exactly one must
    /// be primary, and there may be at most `DATABASE_LIMIT`.
    pub fn new(entries: Vec<(String, bool, T)>) -> (r: Result<Self, PoolError>)
        ensures
            entries@.len() > DATABASE_LIMIT ==> r == Err::<Self, PoolError>(PoolError::TooMany),
            entries@.len() <= DATABASE_LIMIT && primary_count(entries@) == 0 ==> r == Err::<
                Self,
                PoolError,
            >(PoolError::NoPrimary),
            entries@.len() <= DATABASE_LIMIT && primary_count(entries@) > 1 ==> r == Err::<
                Self,
                PoolError,
            >(PoolError::SeveralPrimaries),
            entries@.len() <= DATABASE_LIMIT && primary_count(entries@) == 1 ==> (r matches Ok(d)
                && exists|k: int|
                0 <= k < entries@.len() && entries@[k].1 && d.spec_primary_id() == entries@[k].0@
                    && d.spec_primary() == entries@[k].2 && d.spec_others() == non_primary(
                    entries@,
                )),
    {
        if entries.len() > DATABASE_LIMIT {
            return Err(PoolError::TooMany);
        }
        let ghost all = entries@;
        let n = entries.len();
        let mut rest = entries;
        let mut primary: Option<(String, T)> = None;
        let mut others: Vec<(String, T)> = Vec::new();
        let mut seen: usize = 0;
        let mut i: usize = 0;
        let ghost mut pk: int = -1;
        proof {
            assert(all.subrange(0, 0) =~= Seq::<(String, bool, T)>::empty());
            assert(rest@ =~= all.subrange(0, n as int));
        }
        while i < n
            invariant
                n == all.len(),
                n <= DATABASE_LIMIT,
                i <= n,
                rest@ == all.subrange(i as int, n as int),
                seen == primary_count(all.subrange(0, i as int)),
                seen <= i,
                others@.len() + (if primary is Some {
                    1int
                } else {
                    0int
                }) == i,
                primary is Some <==> seen > 0,
                seen <= 1 ==> others@.map_values(|e: (String, T)| (e.0@, e.1)) == non_primary(
                    all.subrange(0, i as int),
                ),
                primary matches Some(p) ==> 0 <= pk < i && all[pk].1 && p.0@ == all[pk].0@ && p.1
                    == all[pk].2,
            decreases n - i,
        {
            let ghost before = others@.map_values(|e: (String, T)| (e.0@, e.1));
            let (id, is_primary, handle) = rest.remove(0);
            proof {
                let s = all.subrange(0, i as int + 1);
                assert(s.drop_last() =~= all.subrange(0, i as int));
                assert(s.last() == all[i as int]);
            }
            if is_primary {
                seen = seen + 1;
                if primary.is_none() {
                    primary = Some((id, handle));
                    proof {
                        pk = i as int;
                    }
                } else {
                    others.push((id, handle));
                }
            } else {
                let ghost idv = id@;
                others.push((id, handle));
                proof {
                    assert(others@.map_values(|e: (String, T)| (e.0@, e.1)) =~= before.push(
                        (idv, handle),
                    ));
                }
            }
            i = i + 1;
            proof {
                assert(rest@ =~= all.subrange(i as int, n as int));
            }
        }
        proof {
            assert(all.subrange(0, n as int) =~= all);
        }
        if seen > 1 {
            return Err(PoolError::SeveralPrimaries);
        }
        match primary {
            None => Err(PoolError::NoPrimary),
            Some((primary_id, primary)) => {
                let d = DatabasesConnections { primary_id, primary, others };
                proof {
                    assert(d.spec_others().len() == d.others@.len());
                }
                Ok(d)
            },
        }
    }

    /// The handle of database `id`, or of the primary database when `id` is none.
    pub fn search(&self, id: &Option<String>) -> (r: Option<&T>)
        ensures
            match id {
                None => r == Some(&self.spec_primary()),
                Some(x) => if x@ == self.spec_primary_id() {
                    r == Some(&self.spec_primary())
                } else {
                    match r {
                        Some(h) => exists|k: int|
                            0 <= k < self.spec_others().len() && self.spec_others()[k].0 == x@
                                && self.spec_others()[k].1 == *h && forall|j: int|
                                0 <= j < k ==> self.spec_others()[j].0 != x@,
                        None => forall|k: int|
                            0 <= k < self.spec_others().len() ==> self.spec_others()[k].0 != x@,
                    }
                },
            },
    {
        match id {
            None => Some(&self.primary),
            Some(x) => {
                if str_equal(x.as_str(), self.primary_id.as_str()) {
                    return Some(&self.primary);
                }
                let mut i: usize = 0;
                while i < self.others.len()
                    invariant
                        i <= self.others@.len(),
                        self.spec_others().len() == self.others@.len(),
                        forall|j: int| 0 <= j < i ==> self.spec_others()[j].0 != x@,
                        id matches Some(y) && y@ == x@,
                        x@ != self.spec_primary_id(),
                    decreases self.others@.len() - i,
                {
                    if str_equal(self.others[i].0.as_str(), x.as_str()) {
                        assert(self.spec_others()[i as int].0 == x@);
                        assert(self.spec_others()[i as int].1 == self.others@[i as int].1);
                        return Some(&self.others[i].1);
                    }
                    i = i + 1;
                }
                None
            },
        }
    }
}

/// The pool bounds of a database: the configured minimum or the available
/// parallelism, and the configured maximum or twice the parallelism (saturating).
pub fn pool_bounds(min: Option<u64>, max: Option<u64>, parallelism: u64) -> (r: (u64, u64))
    ensures
        r.0 == match min {
            Some(m) => m,
            None => parallelism,
        },
        r.1 == match max {
            Some(m) => m as int,
            None => if 2 * parallelism <= u64::MAX {
                2 * parallelism
            } else {
                u64::MAX as int
            },
        },
{
    let lo = match min {
        Some(m) => m,
        None => parallelism,
    };
    let hi = match max {
        Some(m) => m,
        None => if parallelism <= u64::MAX / 2 {
            2 * parallelism
        } else {
            u64::MAX
        },
    };
    (lo, hi)
}

} // verus!

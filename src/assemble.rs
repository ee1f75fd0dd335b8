//! Assembling a build from its parts, and the checks a build must pass before the
//! runtime serves it.

use vstd::prelude::*;

use crate::checksum::DatabaseChecksum;
use crate::endpoint::{Endpoint, Endpoints, all_unique, endpoints_conflict, merge_dropped, merge_spec};
use crate::project::{Build, DatabaseConfig, Executor, General};
use crate::text::str_equal;

verus! {

/// The set after merging each endpoint set of `sets` in turn.
pub open spec fn merge_all(s: Seq<Endpoint>, sets: Seq<Seq<Endpoint>>) -> Seq<Endpoint>
    decreases sets.len(),
{
    if sets.len() == 0 {
        s
    } else {
        merge_spec(merge_all(s, sets.drop_last()), sets.last())
    }
}

/// The ids dropped while merging each endpoint set of `sets` in turn, in order.
pub open spec fn dropped_all(s: Seq<Endpoint>, sets: Seq<Seq<Endpoint>>) -> Seq<Seq<char>>
    decreases sets.len(),
{
    if sets.len() == 0 {
        Seq::empty()
    } else {
        dropped_all(s, sets.drop_last()) + merge_dropped(merge_all(s, sets.drop_last()), sets.last())
    }
}

/// The endpoints of each set.
pub open spec fn sets_view(v: Seq<Endpoints>) -> Seq<Seq<Endpoint>> {
    v.map_values(|e: Endpoints| e@)
}

/// Assembles a build: the endpoint sets read from the project's endpoint files, then
/// those discovered from the databases, are merged in that order into one set, where
/// an endpoint with the id or key of an earlier one is dropped (its id is returned
/// for the caller to report) rather than failing the build.
pub fn build(
    general: General,
    executor: Executor,
    user_endpoints: Vec<Endpoints>,
    discovered: Vec<Endpoints>,
    database_checksums: Vec<DatabaseChecksum>,
) -> (r: (Build, Vec<String>))
    ensures
        r.0.general == general,
        r.0.executor == executor,
        r.0.database_checksums == database_checksums,
        r.0.endpoints.well_formed(),
        r.0.endpoints@ == merge_all(Seq::empty(), sets_view(user_endpoints@ + discovered@)),
        r.1@.map_values(|d: String| d@) == dropped_all(
            Seq::empty(),
            sets_view(user_endpoints@ + discovered@),
        ),
{
    let ghost all = sets_view(user_endpoints@ + discovered@);
    let mut sets = user_endpoints;
    let mut more = discovered;
    sets.append(&mut more);
    assert(sets_view(sets@) =~= all);
    let n = sets.len();
    let mut endpoints = Endpoints::empty();
    let mut dropped: Vec<String> = Vec::new();
    let mut i: usize = 0;
    proof {
        assert(all.subrange(0, 0) =~= Seq::<Seq<Endpoint>>::empty());
        assert(dropped@.map_values(|d: String| d@) =~= Seq::<Seq<char>>::empty());
        assert(sets_view(sets@) =~= all.subrange(0, n as int));
    }
    while i < n
        invariant
            n == all.len(),
            i <= n,
            sets@.len() == n - i,
            sets_view(sets@) == all.subrange(i as int, n as int),
            endpoints.well_formed(),
            endpoints@ == merge_all(Seq::empty(), all.subrange(0, i as int)),
            dropped@.map_values(|d: String| d@) == dropped_all(
                Seq::empty(),
                all.subrange(0, i as int),
            ),
        decreases n - i,
    {
        let ghost sv = sets@;
        let set = sets.remove(0);
        proof {
            let s = all.subrange(0, i as int + 1);
            assert(s.drop_last() =~= all.subrange(0, i as int));
            assert(set == sv[0]);
            assert(sets_view(sv)[0] == all[i as int]);
            assert(s.last() == all[i as int]);
        }
        let ghost before = dropped@.map_values(|d: String| d@);
        let mut skipped = endpoints.merge(set);
        let ghost sk = skipped@.map_values(|d: String| d@);
        dropped.append(&mut skipped);
        proof {
            assert(dropped@.map_values(|d: String| d@) =~= before + sk);
        }
        i = i + 1;
        proof {
            assert(sets@ =~= sv.subrange(1, sv.len() as int));
            assert forall|j: int| 0 <= j < sets@.len() implies sets_view(sets@)[j] == all[i + j] by {
                assert(sets@[j] == sv[j + 1]);
                assert(sets_view(sv)[j + 1] == all[i - 1 + j + 1]);
            }
            assert(sets_view(sets@) =~= all.subrange(i as int, n as int));
        }
    }
    proof {
        assert(all.subrange(0, n as int) =~= all);
    }
    (Build { general, executor, endpoints, database_checksums }, dropped)
}

/// The ids of the configured databases.
pub open spec fn database_ids(dbs: Seq<DatabaseConfig>) -> Seq<Seq<char>> {
    dbs.map_values(|d: DatabaseConfig| d.id@)
}

/// The number of databases marked primary.
pub open spec fn primaries(dbs: Seq<DatabaseConfig>) -> nat
    decreases dbs.len(),
{
    if dbs.len() == 0 {
        0
    } else {
        primaries(dbs.drop_last()) + if dbs.last().is_primary {
            1nat
        } else {
            0nat
        }
    }
}

/// A build the runtime may serve: exactly one primary database, every checksum and
/// every endpoint's target naming a configured database, and no two conflicting
/// endpoints.
pub open spec fn servable(b: Build) -> bool {
    let ids = database_ids(b.general.databases@);
    &&& primaries(b.general.databases@) == 1
    &&& forall|i: int|
        0 <= i < b.database_checksums@.len() ==> ids.contains(
            (#[trigger] b.database_checksums@[i]).database_id@,
        )
    &&& forall|i: int|
        0 <= i < b.endpoints@.len() ==> ((#[trigger] b.endpoints@[i]).target_database matches Some(
            t,
        ) ==> ids.contains(t@))
    &&& all_unique(b.endpoints@)
}

/// Why a build cannot be served.
#[derive(Clone, Debug)]
pub enum BuildError {
    NoPrimary,
    SeveralPrimaries,
    /// A recorded checksum names no configured database.
    UnknownChecksumDatabase { database_id: String },
    /// An endpoint targets no configured database.
    UnknownTargetDatabase { endpoint_id: String },
    /// Two endpoints share an id or a key.
    DuplicateEndpoint { endpoint_id: String },
}

fn is_database(dbs: &Vec<DatabaseConfig>, id: &str) -> (r: bool)
    ensures
        r == database_ids(dbs@).contains(id@),
{
    let ghost ids = database_ids(dbs@);
    let mut i: usize = 0;
    while i < dbs.len()
        invariant
            i <= dbs@.len(),
            ids == database_ids(dbs@),
            forall|j: int| 0 <= j < i ==> ids[j] != id@,
        decreases dbs@.len() - i,
    {
        if str_equal(dbs[i].id.as_str(), id) {
            assert(ids[i as int] == id@);
            return true;
        }
        i = i + 1;
    }
    false
}

fn count_primaries(dbs: &Vec<DatabaseConfig>) -> (r: usize)
    ensures
        r == primaries(dbs@),
{
    let mut c: usize = 0;
    let mut i: usize = 0;
    proof {
        assert(dbs@.subrange(0, 0) =~= Seq::<DatabaseConfig>::empty());
    }
    while i < dbs.len()
        invariant
            i <= dbs@.len(),
            c <= i,
            c == primaries(dbs@.subrange(0, i as int)),
        decreases dbs@.len() - i,
    {
        proof {
            let s = dbs@.subrange(0, i as int + 1);
            assert(s.drop_last() =~= dbs@.subrange(0, i as int));
        }
        if dbs[i].is_primary {
            c = c + 1;
        }
        i = i + 1;
    }
    assert(dbs@.subrange(0, dbs@.len() as int) =~= dbs@);
    c
}

/// Checks a decoded build before it is served: exactly one primary database, every
/// recorded checksum and every endpoint target naming a configured database, and no
/// two endpoints sharing an id or a (method, trimmed route, version) key.
pub fn load_build(build: &Build) -> (r: Result<(), BuildError>)
    ensures
        r is Ok <==> servable(*build),
        r matches Err(BuildError::NoPrimary) ==> primaries(build.general.databases@) == 0,
        r matches Err(BuildError::SeveralPrimaries) ==> primaries(build.general.databases@) > 1,
        r matches Err(BuildError::UnknownChecksumDatabase { database_id }) ==> !database_ids(
            build.general.databases@,
        ).contains(database_id@),
        r matches Err(BuildError::UnknownTargetDatabase { endpoint_id }) ==> exists|i: int|
            0 <= i < build.endpoints@.len() && build.endpoints@[i].id@ == endpoint_id@
                && build.endpoints@[i].target_database is Some,
{
    let dbs = &build.general.databases;
    let p = count_primaries(dbs);
    if p == 0 {
        return Err(BuildError::NoPrimary);
    }
    if p > 1 {
        return Err(BuildError::SeveralPrimaries);
    }
    let sums = &build.database_checksums;
    let mut i: usize = 0;
    while i < sums.len()
        invariant
            i <= sums@.len(),
            sums@ == build.database_checksums@,
            dbs@ == build.general.databases@,
            forall|j: int|
                0 <= j < i ==> database_ids(dbs@).contains((#[trigger] sums@[j]).database_id@),
        decreases sums@.len() - i,
    {
        if !is_database(dbs, sums[i].database_id.as_str()) {
            proof {
                assert(!database_ids(dbs@).contains(build.database_checksums@[i as int].database_id@));
            }
            return Err(BuildError::UnknownChecksumDatabase { database_id: sums[i].database_id.clone() });
        }
        i = i + 1;
    }
    let eps = &build.endpoints.inner;
    let mut k: usize = 0;
    while k < eps.len()
        invariant
            k <= eps@.len(),
            eps@ == build.endpoints@,
            dbs@ == build.general.databases@,
            forall|j: int|
                0 <= j < k ==> ((#[trigger] eps@[j]).target_database matches Some(t)
                    ==> database_ids(dbs@).contains(t@)),
        decreases eps@.len() - k,
    {
        match &eps[k].target_database {
            Some(t) => {
                if !is_database(dbs, t.as_str()) {
                    proof {
                        assert(build.endpoints@[k as int].target_database matches Some(tt) && !database_ids(dbs@).contains(tt@));
                    }
                    return Err(BuildError::UnknownTargetDatabase { endpoint_id: eps[k].id.clone() });
                }
            },
            None => {},
        }
        k = k + 1;
    }
    let mut a: usize = 0;
    while a < eps.len()
        invariant
            a <= eps@.len(),
            eps@ == build.endpoints@,
            forall|x: int, y: int|
                0 <= x < a && x < y < eps@.len() ==> !crate::endpoint::conflicts(
                    #[trigger] eps@[x],
                    #[trigger] eps@[y],
                ),
        decreases eps@.len() - a,
    {
        let mut b: usize = a + 1;
        while b < eps.len()
            invariant
                a < eps@.len(),
                eps@ == build.endpoints@,
                a + 1 <= b <= eps@.len(),
                forall|x: int, y: int|
                    0 <= x < a && x < y < eps@.len() ==> !crate::endpoint::conflicts(
                        #[trigger] eps@[x],
                        #[trigger] eps@[y],
                    ),
                forall|y: int| a < y < b ==> !crate::endpoint::conflicts(eps@[a as int], #[trigger] eps@[y]),
            decreases eps@.len() - b,
        {
            if endpoints_conflict(&eps[a], &eps[b]) {
                proof {
                    assert(crate::endpoint::conflicts(build.endpoints@[a as int], build.endpoints@[b as int]));
                    assert(!all_unique(build.endpoints@));
                }
                return Err(BuildError::DuplicateEndpoint { endpoint_id: eps[b].id.clone() });
            }
            b = b + 1;
        }
        a = a + 1;
    }
    Ok(())
}

} // verus!

use crate::base::{Coordinates, Location};
use crate::bulk::{batches, bulk_collect, found_values, joined, batch_views};
use crate::json::{json_text, json_wf, merge_patch, parsed_json, patch_document, Json, JsonView};
use crate::keys::{key_le, key_leq, names_of, primary_keys, GetKeysError};
use crate::plan_type::{read_type_of, PlanTypeCreate, PlanTypeRead, PlanTypeUpdate};
use crate::schedule::{ScheduleCreate, ScheduleRead, ScheduleUpdate, ScheduleView};
use vstd::prelude::*;
use vstd::string::*;

verus! {

broadcast use vstd::seq_lib::group_seq_properties;

/// A plan as supplied on creation; its id is the store key it is created under.
#[derive(Debug)]
pub struct PlanCreate {
    pub plan_type: PlanTypeCreate,
    pub organization_name: String,
    pub plan_name: String,
    pub description: String,
    pub is_child_friendly: bool,
    pub is_recommended: bool,
    pub schedule: ScheduleCreate,
    pub location: Vec<Location>,
    pub coordinates: Option<Coordinates>,
}

/// A stored plan record.
#[derive(Debug)]
pub struct PlanRead {
    pub id: String,
    pub plan_type: PlanTypeRead,
    pub organization_name: String,
    pub plan_name: String,
    pub description: String,
    pub is_child_friendly: bool,
    pub is_recommended: bool,
    pub schedule: ScheduleRead,
    pub location: Vec<Location>,
    pub coordinates: Option<Coordinates>,
}

/// A partial update of a plan; `None` leaves a field as stored.
#[derive(Debug)]
pub struct PlanUpdate {
    pub plan_type: Option<PlanTypeUpdate>,
    pub organization_name: Option<String>,
    pub plan_name: Option<String>,
    pub description: Option<String>,
    pub is_child_friendly: Option<bool>,
    pub is_recommended: Option<bool>,
    pub schedule: Option<ScheduleUpdate>,
    pub location: Option<Vec<Location>>,
    pub coordinates: Option<Option<Coordinates>>,
}

/// A failure of the record store, as it reported it.
#[derive(Debug)]
pub struct StoreError {
    pub message: String,
}

#[derive(Debug)]
pub enum PlanCreateError {
    /// A record is already stored under the id.
    Conflict,
    KvError(StoreError),
}

#[derive(Debug)]
pub enum PlanReadError {
    NotFound,
    KvError(StoreError),
    WorkerError(StoreError),
    GetKeysError(GetKeysError),
}

#[derive(Debug)]
pub enum PlanUpdateError {
    NotFound,
    KvError(StoreError),
    WorkerError(StoreError),
    SerdeError(serde_json::Error),
}

impl PlanCreate {
    /// Creation of plan `id`, given what the store holds under `id`: refused
    /// with `Conflict` when something is stored there, else the record to store.
    pub fn create(self, id: &str, existing: Option<String>) -> (r: Result<PlanRead, PlanCreateError>)
        ensures
            existing is Some <==> r matches Err(PlanCreateError::Conflict),
            existing is None ==> (r matches Ok(p) && p.id@ == id@ && p.plan_type
                == read_type_of(self.plan_type) && p.organization_name
                == self.organization_name && p.plan_name == self.plan_name && p.description
                == self.description && p.is_child_friendly == self.is_child_friendly
                && p.is_recommended == self.is_recommended && p.schedule@
                == (ScheduleView::NotCombined {
                day1: self.schedule.day1@,
                day2: self.schedule.day2@,
            }) && p.location == self.location && p.coordinates == self.coordinates),
    {
        if existing.is_some() {
            return Err(PlanCreateError::Conflict);
        }
        Ok(
            PlanRead {
                id: id.to_string(),
                plan_type: PlanTypeRead::from(self.plan_type),
                organization_name: self.organization_name,
                plan_name: self.plan_name,
                description: self.description,
                is_child_friendly: self.is_child_friendly,
                is_recommended: self.is_recommended,
                schedule: ScheduleRead::from(self.schedule),
                location: self.location,
                coordinates: self.coordinates,
            },
        )
    }
}

/// Ascending by id.
pub open spec fn sorted_by_id(s: Seq<PlanRead>) -> bool {
    forall|i: int, j: int| 0 <= i < j < s.len() ==> key_le(s[i].id@, s[j].id@)
}

/// The plans that a set of multi-get results found.
pub open spec fn found_plans(results: Seq<Vec<(String, Option<PlanRead>)>>) -> Seq<PlanRead>
    decreases results.len(),
{
    if results.len() == 0 {
        Seq::empty()
    } else {
        found_plans(results.drop_last()) + found_values(results.last()@).map_values(
            |e: (String, PlanRead)| e.1,
        )
    }
}

fn insert_by_id(out: &mut Vec<PlanRead>, p: PlanRead)
    requires
        sorted_by_id(old(out)@),
    ensures
        sorted_by_id(final(out)@),
        final(out)@.to_multiset() == old(out)@.to_multiset().insert(p),
{
    let ghost s = out@;
    let mut j: usize = 0;
    while j < out.len() && key_leq(out[j].id.as_str(), p.id.as_str())
        invariant
            j <= out@.len(),
            out@ == s,
            forall|x: int| 0 <= x < j ==> key_le(#[trigger] s[x].id@, p.id@),
        decreases out@.len() - j,
    {
        j = j + 1;
    }
    proof {
        if j < s.len() {
            crate::keys::lemma_key_le_total(s[j as int].id@, p.id@);
        }
    }
    let ghost pid = p.id@;
    let ghost pv = p;
    out.insert(j, p);
    let ghost t = out@;
    assert(t == s.insert(j as int, pv));
    assert forall|x: int, y: int| 0 <= x < y < t.len() implies key_le(t[x].id@, t[y].id@) by {
        s.insert_ensures(j as int, pv);
        if y < j {
        } else if y == j {
            assert(t[x] == s[x]);
        } else if x == j {
            assert(t[y] == s[y - 1]);
            assert(key_le(pid, s[j as int].id@));
            if y - 1 > j {
                assert(key_le(s[j as int].id@, s[y - 1].id@));
                crate::keys::lemma_key_le_transitive(pid, s[j as int].id@, s[y - 1].id@);
            }
        } else if x < j {
            assert(t[x] == s[x] && t[y] == s[y - 1]);
        } else {
            assert(t[x] == s[x - 1] && t[y] == s[y - 1]);
        }
    }
    proof {
        let a = s.subrange(0, j as int);
        let b = s.subrange(j as int, s.len() as int);
        assert(s =~= a + b);
        assert(t =~= a.push(pv) + b);
        vstd::seq_lib::lemma_multiset_commutative(a, b);
        vstd::seq_lib::lemma_multiset_commutative(a.push(pv), b);
        a.to_multiset_ensures();
        assert(t.to_multiset() =~= s.to_multiset().insert(pv));
    }
}

impl PlanRead {
    /// The record found under an id; none found is `NotFound`.
    pub fn read(found: Option<PlanRead>) -> (r: Result<PlanRead, PlanReadError>)
        ensures
            found matches Some(p) ==> r matches Ok(q) && q == p,
            found is None ==> r matches Err(PlanReadError::NotFound),
    {
        match found {
            Some(plan) => Ok(plan),
            None => Err(PlanReadError::NotFound),
        }
    }

    /// The batches in which to fetch all plans, from the key index: the
    /// index's own keys left out, at most `BATCH_SIZE` keys a batch.
    pub fn read_all_batches(all_keys: &Vec<String>) -> (r: Vec<Vec<String>>)
        ensures
            joined(batch_views(r@)) == primary_keys(names_of(all_keys@)),
            r@.len() == (primary_keys(names_of(all_keys@)).len() + 99) / 100,
            forall|i: int| 0 <= i < r@.len() ==> 0 < #[trigger] r@[i]@.len() <= 100,
    {
        let mut plan_keys: Vec<String> = Vec::new();
        let mut i: usize = 0;
        while i < all_keys.len()
            invariant
                i <= all_keys.len(),
                names_of(plan_keys@) == primary_keys(names_of(all_keys@.subrange(0, i as int))),
            decreases all_keys.len() - i,
        {
            let ghost before = plan_keys@;
            assert(names_of(all_keys@.subrange(0, i + 1)).drop_last() =~= names_of(
                all_keys@.subrange(0, i as int),
            ));
            if !crate::keys::is_index_key(all_keys[i].as_str()) {
                plan_keys.push(all_keys[i].clone());
                assert(names_of(plan_keys@) =~= names_of(before).push(all_keys@[i as int]@));
            }
            i = i + 1;
        }
        assert(all_keys@.subrange(0, i as int) =~= all_keys@);
        batches(&plan_keys)
    }

    /// All plans, from the multi-get results of the batches: keys without a
    /// record are left out, and the plans come in ascending order of id.
    pub fn read_all(results: Vec<Vec<(String, Option<PlanRead>)>>) -> (r: Vec<PlanRead>)
        ensures
            sorted_by_id(r@),
            r@.to_multiset() == found_plans(results@).to_multiset(),
    {
        let ghost all = results@;
        let mut rest = results;
        let mut values: Vec<PlanRead> = Vec::new();
        let n = rest.len();
        let mut b: usize = 0;
        while b < n
            invariant
                b <= n == all.len(),
                rest@ == all.subrange(b as int, n as int),
                sorted_by_id(values@),
                values@.to_multiset() == found_plans(all.subrange(0, b as int)).to_multiset(),
            decreases n - b,
        {
            let batch = rest.remove(0);
            assert(all[b as int] == batch);
            assert(all.subrange(0, b + 1).drop_last() =~= all.subrange(0, b as int));
            let found = bulk_collect(batch);
            let ghost fv = found@;
            let ghost before = values@;
            let mut left = found;
            let m = left.len();
            let mut k: usize = 0;
            while k < m
                invariant
                    k <= m == fv.len(),
                    left@ == fv.subrange(k as int, m as int),
                    sorted_by_id(values@),
                    values@.to_multiset() == before.to_multiset().add(
                        fv.subrange(0, k as int).map_values(|e: (String, PlanRead)| e.1).to_multiset(),
                    ),
                decreases m - k,
            {
                let (_key, plan) = left.remove(0);
                assert(fv[k as int].1 == plan);
                let ghost pv = plan;
                assert(fv.subrange(0, k + 1).map_values(|e: (String, PlanRead)| e.1) =~= fv.subrange(
                    0,
                    k as int,
                ).map_values(|e: (String, PlanRead)| e.1).push(pv));
                proof {
                    fv.subrange(0, k as int).map_values(|e: (String, PlanRead)| e.1).to_multiset_ensures();
                }
                insert_by_id(&mut values, plan);
                k = k + 1;
                assert(left@ =~= fv.subrange(k as int, m as int));
                assert(values@.to_multiset() =~= before.to_multiset().add(
                    fv.subrange(0, k as int).map_values(|e: (String, PlanRead)| e.1).to_multiset(),
                ));
            }
            assert(fv.subrange(0, m as int) =~= fv);
            proof {
                vstd::seq_lib::lemma_multiset_commutative(
                    found_plans(all.subrange(0, b as int)),
                    fv.map_values(|e: (String, PlanRead)| e.1),
                );
            }
            b = b + 1;
            assert(rest@ =~= all.subrange(b as int, n as int));
        }
        assert(all.subrange(0, n as int) =~= all);
        values
    }
}

impl PlanUpdate {
    /// Merge-patch of the stored record of a plan: `patch` is this update as
    /// JSON text, its unset fields left out. No stored record is `NotFound`;
    /// a stored record or patch that is not JSON is a `SerdeError`; otherwise
    /// the merged text to store back.
    pub fn update(stored: Option<String>, patch: &str) -> (r: Result<String, PlanUpdateError>)
        ensures
            stored is None ==> r matches Err(PlanUpdateError::NotFound),
            stored matches Some(t) ==> (if parsed_json(t@) is Some && parsed_json(patch@) is Some {
                r matches Ok(out) && out@ == json_text(
                    merge_patch(parsed_json(t@)->Some_0, parsed_json(patch@)->Some_0),
                )
            } else {
                r matches Err(PlanUpdateError::SerdeError(_))
            }),
    {
        match stored {
            None => Err(PlanUpdateError::NotFound),
            Some(text) => match patch_document(text.as_str(), patch) {
                Ok(out) => Ok(out),
                Err(e) => Err(PlanUpdateError::SerdeError(e)),
            },
        }
    }
}

} // verus!

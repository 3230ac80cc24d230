use crate::json::{json_text, json_wf, merge_patch, parsed_json, patch_document, Json, JsonView};
use crate::plan::StoreError;
use crate::products::{ProductsCreate, ProductsRead};
use vstd::prelude::*;

verus! {

/// Plan details as supplied: a product catalog and free-text information.
#[derive(Debug)]
pub struct CreatePlanDetails {
    pub product: Option<ProductsCreate>,
    pub additional_info: Option<String>,
}

/// Stored plan details.
#[derive(Debug)]
pub struct ReadPlanDetails {
    pub product: Option<ProductsRead>,
    pub additional_info: Option<String>,
}

/// A partial update of plan details; `None` leaves a field as stored.
#[derive(Debug)]
pub struct UpdatePlanDetails {
    pub product: Option<ProductsCreate>,
    pub additional_info: Option<String>,
}

#[derive(Debug)]
pub enum PlanDetailsCreateError {
    KvError(StoreError),
    SerdeError(serde_json::Error),
}

#[derive(Debug)]
pub enum PlanDetailsReadError {
    NotFound,
    KvError(StoreError),
}

#[derive(Debug)]
pub enum PlanDetailsUpdateError {
    NotFound,
    KvError(StoreError),
    WorkerError(StoreError),
    SerdeError(serde_json::Error),
}

impl CreatePlanDetails {
    /// The record to store for these details; a put overwrites what was there.
    pub fn create(self) -> (r: ReadPlanDetails)
        ensures
            r.additional_info == self.additional_info,
            self.product is None ==> r.product is None,
            self.product matches Some(p) ==> r.product matches Some(q) && q.items == p.items
                && q.description == p.description,
    {
        let product = match self.product {
            Some(p) => Some(ProductsRead::from(p)),
            None => None,
        };
        ReadPlanDetails { product, additional_info: self.additional_info }
    }
}

impl ReadPlanDetails {
    /// The details found under an id; none found is `NotFound`.
    pub fn read(found: Option<ReadPlanDetails>) -> (r: Result<ReadPlanDetails, PlanDetailsReadError>)
        ensures
            found matches Some(d) ==> r matches Ok(e) && e == d,
            found is None ==> r matches Err(PlanDetailsReadError::NotFound),
    {
        match found {
            Some(details) => Ok(details),
            None => Err(PlanDetailsReadError::NotFound),
        }
    }
}

impl UpdatePlanDetails {
    /// Merge-patch of the stored details: `patch` is this update as JSON text,
    /// its unset fields left out. No stored record is `NotFound`; a stored
    /// record or patch that is not JSON is a `SerdeError`; otherwise the merged
    /// text to store back.
    pub fn update(stored: Option<String>, patch: &str) -> (r: Result<String, PlanDetailsUpdateError>)
        ensures
            stored is None ==> r matches Err(PlanDetailsUpdateError::NotFound),
            stored matches Some(t) ==> (if parsed_json(t@) is Some && parsed_json(patch@) is Some {
                r matches Ok(out) && out@ == json_text(
                    merge_patch(parsed_json(t@)->Some_0, parsed_json(patch@)->Some_0),
                )
            } else {
                r matches Err(PlanDetailsUpdateError::SerdeError(_))
            }),
    {
        match stored {
            None => Err(PlanDetailsUpdateError::NotFound),
            Some(text) => match patch_document(text.as_str(), patch) {
                Ok(out) => Ok(out),
                Err(e) => Err(PlanDetailsUpdateError::SerdeError(e)),
            },
        }
    }
}

} // verus!

//! The records of model discovery and of the persisted frequency map.

use vstd::prelude::*;
use crate::frequency::FrequencyMap;

verus! {

/// The listing that the endpoint gives of its models.
#[derive(Debug)]
pub struct ModelsResponse {
    pub data: Vec<ModelData>,
}

/// One model of a listing.
#[derive(Debug)]
pub struct ModelData {
    pub id: String,
}

/// The models that are offered to the caller, in the order of the offer.
#[derive(Debug)]
pub struct AvailableModelsResponse {
    pub models: Vec<String>,
}

/// The frequency map as it is persisted.
#[derive(Debug)]
pub struct ModelFrequency {
    pub frequencies: FrequencyMap,
}

/// The identifiers of a listing, in its order.
pub open spec fn listed_ids(data: Seq<ModelData>) -> Seq<Seq<char>> {
    data.map_values(|model: ModelData| model.id@)
}

} // verus!

//! Request and response bodies of the HTTP API, and the conversions between
//! their text fields and the library's values.

use vstd::prelude::*;
use vstd::string::StringExecFns;
use crate::sharding::vector_index::DistanceMetric;
use crate::sharding::vector_index::lowercase;
use crate::sharding::vector_index::metric_name;
use crate::sharding::vector_index::metric_named;
use crate::sharding::vector_index::metric_from_name;
use crate::sharding::vector_index::is_ascii_lower_word;
use crate::sharding::vector_index::{ascii_lower, is_ascii_text};

verus! {

/// Body of a request to create a shard.
#[derive(Debug, Clone)]
pub struct CreateShardRequest {
    pub name: String,
}

/// Body of an error reply.
#[derive(Debug, Clone)]
pub struct ErrorResponse {
    pub error: String,
}

/// Parses a metric name in any letter case; an unknown name gives the
/// message "Unknown distance metric: " followed by the name.
pub fn parse_distance_metric(metric: &str) -> (r: Result<DistanceMetric, String>)
    ensures
        match r {
            Ok(m) => metric_named(lowercase(metric@)) == Some(m),
            Err(e) => metric_named(lowercase(metric@)) is None && e@ == "Unknown distance metric: "@ + metric@,
        },
        is_ascii_lower_word(metric@) ==> match r {
            Ok(m) => metric_named(metric@) == Some(m),
            Err(_) => metric_named(metric@) is None,
        },
        is_ascii_text(metric@) ==> match r {
            Ok(m) => metric_named(ascii_lower(metric@)) == Some(m),
            Err(_) => metric_named(ascii_lower(metric@)) is None,
        },
{
    match metric_from_name(metric) {
        Some(m) => Ok(m),
        None => {
            let mut msg = "Unknown distance metric: ".to_owned();
            msg.append(metric);
            Err(msg)
        },
    }
}

/// Lower-case name of `metric`.
pub fn distance_metric_to_string(metric: DistanceMetric) -> (s: String)
    ensures
        s@ == metric_name(metric),
{
    match metric {
        DistanceMetric::Euclidean => "euclidean".to_owned(),
        DistanceMetric::Cosine => "cosine".to_owned(),
        DistanceMetric::Manhattan => "manhattan".to_owned(),
        DistanceMetric::Hamming => "hamming".to_owned(),
    }
}

} // verus!

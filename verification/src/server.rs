use vstd::prelude::*;

use crate::api_err::{reply_with, STATUS_BAD_REQUEST};
use crate::structs::{ErrorResponse, OrsMatrixRequest, RouteRequest};

verus! {

/// The travel profile of a route request: `profile`, or "driving-car".
pub open spec fn requested_profile<C>(payload: RouteRequest<C>) -> Seq<char> {
    match payload.profile {
        Some(profile) => profile@,
        None => "driving-car"@,
    }
}

/// Checks a route request before the routing service is asked for the travel
/// matrix, and makes that matrix request: at least two locations are needed,
/// the optimisation profile is refused, and the matrix is asked for in
/// distance and duration, for the requested travel profile.
pub fn plan_matrix_request<'a, C>(payload: &'a RouteRequest<C>) -> (res: Result<
    OrsMatrixRequest<'a, C>,
    (u16, ErrorResponse),
>)
    ensures
        if payload.coordinates@.len() < 2 {
            res matches Err(reply) && reply_with(
                STATUS_BAD_REQUEST,
                "At least two coordinates are required"@,
                reply,
            )
        } else if payload.optimization_profile == Some(true) {
            res matches Err(reply) && reply_with(
                STATUS_BAD_REQUEST,
                "optimization_profile is not yet implemented"@,
                reply,
            )
        } else {
            res matches Ok(request) && {
                &&& request.locations@ == payload.coordinates@
                &&& request.metrics@.len() == 2
                &&& request.metrics@[0]@ == "distance"@
                &&& request.metrics@[1]@ == "duration"@
                &&& request.profile@ == requested_profile(*payload)
                &&& payload.profile matches Some(profile) ==> request.profile@ == profile@
                &&& payload.profile is None ==> request.profile@ == "driving-car"@
            }
        },
{
    if payload.coordinates.len() < 2 {
        return Err(
            (
                STATUS_BAD_REQUEST,
                ErrorResponse { error: String::from_str("At least two coordinates are required") },
            ),
        );
    }
    let optimization_profile = match payload.optimization_profile {
        Some(wanted) => wanted,
        None => false,
    };
    if optimization_profile {
        return Err(
            (
                STATUS_BAD_REQUEST,
                ErrorResponse { error: String::from_str("optimization_profile is not yet implemented") },
            ),
        );
    }
    let profile = match &payload.profile {
        Some(profile) => profile.clone(),
        None => String::from_str("driving-car"),
    };
    let mut metrics: Vec<&'static str> = Vec::new();
    metrics.push("distance");
    metrics.push("duration");
    Ok(OrsMatrixRequest { locations: payload.coordinates.as_slice(), metrics, profile })
}

/// Checks the payload of an optimisation request: it must be a JSON object.
pub fn check_optimize_payload(is_object: bool) -> (res: Result<(), (u16, ErrorResponse)>)
    ensures
        res is Ok <==> is_object,
        res matches Err(reply) ==> reply_with(
            STATUS_BAD_REQUEST,
            "VROOM optimize request must be a JSON object"@,
            reply,
        ),
{
    if !is_object {
        return Err(
            (
                STATUS_BAD_REQUEST,
                ErrorResponse { error: String::from_str("VROOM optimize request must be a JSON object") },
            ),
        );
    }
    Ok(())
}

} // verus!

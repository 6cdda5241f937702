use vstd::prelude::*;

use crate::api_err::{
    is_bad_request_with, reply_with, spec_response, ApiError, STATUS_BAD_REQUEST,
    STATUS_INTERNAL_SERVER_ERROR,
};
use crate::http_status::{status_display, status_text};
use crate::gnn::{build_route, follows_order, route_failure, route_order};
use crate::structs::{
    EnvSetting, ErrorResponse, HealthVerdict, OrsHealthResponse, OrsMatrixResponse, RouteRequest,
    RouteResponse,
};
use crate::text::{
    contains_text, eq_ignore_ascii_case, equal_ignoring_ascii_case, has_infix, to_lowercase,
    trim_end_char, trim_trailing_slashes, unicode_lowercase,
};

verus! {

/// An HTTP status code of success: 200 to 299.
pub open spec fn is_success_code(code: u16) -> bool {
    200 <= code < 300
}

/// Whether an HTTP status code is one of success.
pub fn is_success(code: u16) -> (success: bool)
    ensures
        success == is_success_code(code),
{
    200 <= code && code < 300
}

/// The address of an endpoint below a base address: the base without its
/// trailing slashes, then `path`.
pub fn endpoint_url(base_url: &str, path: &str) -> (url: String)
    ensures
        url@ == trim_end_char(base_url@, '/') + path@,
{
    let mut url = String::from_str(trim_trailing_slashes(base_url));
    url.append(path);
    url
}

/// The address of the routing service's matrix endpoint for a travel profile.
pub fn matrix_url(ors_base_url: &str, profile: &str) -> (url: String)
    ensures
        url@ == trim_end_char(ors_base_url@, '/') + "/matrix/"@ + profile@,
{
    let mut url = endpoint_url(ors_base_url, "/matrix/");
    url.append(profile);
    url
}

/// Checks the status with which the routing service answered a matrix
/// request: anything but success is a bad request, reported with the status
/// (as the `http` crate shows it) and the body of the answer.
pub fn check_matrix_status(code: u16, body: &str) -> (res: Result<(), ApiError>)
    requires
        100 <= code <= 999,
    ensures
        res is Ok <==> is_success_code(code),
        res matches Err(err) ==> is_bad_request_with(
            err,
            "ORS matrix returned "@ + status_display(code) + ": "@ + body@,
        ),
{
    if is_success(code) {
        Ok(())
    } else {
        let mut message = String::from_str("ORS matrix returned ");
        message.append(status_text(code).as_str());
        message.append(": ");
        message.append(body);
        Err(ApiError::bad_request(message))
    }
}

/// The start of a route request: `start_index`, or the first location.
pub open spec fn requested_start<C>(payload: RouteRequest<C>) -> usize {
    match payload.start_index {
        Some(start) => start,
        None => 0,
    }
}

/// Whether a route request asks for a round trip: `round_trip`, or yes.
pub open spec fn requested_round_trip<C>(payload: RouteRequest<C>) -> bool {
    match payload.round_trip {
        Some(round_trip) => round_trip,
        None => true,
    }
}

/// The message with which a route request is refused before any route is
/// built, or `None` where it is accepted.
pub open spec fn request_refusal<C>(payload: RouteRequest<C>) -> Option<Seq<char>> {
    let n = payload.coordinates@.len();
    let start = requested_start(payload);
    if start >= n {
        Some("start_index is out of range"@)
    } else if payload.end_index matches Some(end) && end >= n {
        Some("end_index is out of range"@)
    } else if payload.end_index == Some(start) && n > 2 && !requested_round_trip(payload) {
        Some("end_index cannot be the same as start_index unless round_trip is enabled"@)
    } else {
        None
    }
}

/// Answers a route request from the travel matrix that the routing service
/// returned (or the error met on the way to it): checks the requested start
/// and end, then builds the greedy route and reports it with `profile`.
pub fn handle_ors_req_res<C: Copy, T: Copy>(
    response: Result<OrsMatrixResponse<T>, ApiError>,
    payload: RouteRequest<C>,
    profile: &str,
) -> (res: Result<RouteResponse<C, T>, (u16, ErrorResponse)>)
    ensures
        ({
            let n = payload.coordinates@.len();
            let start = requested_start(payload);
            let round_trip = requested_round_trip(payload);
            match request_refusal(payload) {
                Some(message) => res matches Err(reply) && reply_with(STATUS_BAD_REQUEST, message, reply),
                None => match response {
                    Err(err) => res matches Err(reply) && reply == spec_response(err),
                    Ok(matrix) => match route_failure(matrix, n, start, payload.end_index, round_trip) {
                        Some(message) => res matches Err(reply) && reply_with(
                            STATUS_INTERNAL_SERVER_ERROR,
                            message,
                            reply,
                        ),
                        None => res matches Ok(answer) && {
                            &&& follows_order(
                                answer.route_indices@,
                                answer.route@,
                                answer.legs@,
                                route_order(matrix.distances@, n, start, payload.end_index, round_trip)->0,
                                payload.coordinates@,
                                matrix,
                            )
                            &&& answer.profile@ == profile@
                            &&& answer.round_trip == round_trip
                            &&& answer.end_index == payload.end_index
                        },
                    },
                },
            }
        }),
        res matches Ok(answer) ==> {
            &&& (payload.start_index matches Some(start) ==> start < payload.coordinates@.len())
            &&& (payload.end_index matches Some(end) ==> end < payload.coordinates@.len())
            &&& answer.route_indices@.len() >= 1
            &&& answer.route_indices@[0] == match payload.start_index {
                Some(start) => start,
                None => 0,
            }
            &&& answer.route@.len() == answer.route_indices@.len()
            &&& answer.legs@.len() + 1 == answer.route_indices@.len()
            &&& forall|k: int|
                0 <= k < answer.route@.len() ==> #[trigger] answer.route@[k]
                    == payload.coordinates@[answer.route_indices@[k] as int]
            &&& forall|k: int|
                0 <= k < answer.legs@.len() ==> (#[trigger] answer.legs@[k]).from_index
                    == answer.route_indices@[k] && answer.legs@[k].to_index == answer.route_indices@[k + 1]
            &&& response matches Ok(matrix) && forall|k: int| 0 <= k < answer.legs@.len() ==> {
                let leg = #[trigger] answer.legs@[k];
                &&& leg.distance_meters == matrix.distances@[leg.from_index as int]@[leg.to_index as int].value
                &&& leg.duration_seconds == match matrix.durations {
                    Some(durations) => Some(durations@[leg.from_index as int]@[leg.to_index as int]),
                    None => None,
                }
            }
        },
{
    let start_index = match payload.start_index {
        Some(start) => start,
        None => 0,
    };
    if start_index >= payload.coordinates.len() {
        return Err(
            (
                STATUS_BAD_REQUEST,
                ErrorResponse { error: String::from_str("start_index is out of range") },
            ),
        );
    }
    let round_trip = match payload.round_trip {
        Some(round_trip) => round_trip,
        None => true,
    };
    let end_index = payload.end_index;
    if let Some(end) = end_index {
        if end >= payload.coordinates.len() {
            return Err(
                (
                    STATUS_BAD_REQUEST,
                    ErrorResponse { error: String::from_str("end_index is out of range") },
                ),
            );
        }
        if end == start_index && payload.coordinates.len() > 2 && !round_trip {
            return Err(
                (
                    STATUS_BAD_REQUEST,
                    ErrorResponse {
                        error: String::from_str(
                            "end_index cannot be the same as start_index unless round_trip is enabled",
                        ),
                    },
                ),
            );
        }
    }

    let matrix = match response {
        Ok(matrix) => matrix,
        Err(err) => return Err(err.into_response()),
    };

    match build_route(payload.coordinates.as_slice(), &matrix, start_index, end_index, round_trip) {
        Ok(result) => Ok(
            RouteResponse {
                route_indices: result.route_indices,
                route: result.route,
                legs: result.legs,
                profile: String::from_str(profile),
                round_trip,
                end_index,
            },
        ),
        Err(err) => Err(err.into_response()),
    }
}

/// `field` is present and, in lower case, mentions a failure.
pub open spec fn reports_failure(field: Option<String>) -> bool {
    field matches Some(text) && has_infix(unicode_lowercase(text@), "failed"@)
}

/// `status` is present and is `word` but for the case of ASCII letters.
pub open spec fn status_is(status: Option<String>, word: Seq<char>) -> bool {
    status matches Some(text) && equal_ignoring_ascii_case(text@, word)
}

/// Whether `field` is present and, in lower case, mentions a failure.
fn mentions_failure(field: &Option<String>) -> (failed: bool)
    ensures
        failed == reports_failure(*field),
{
    match field {
        Some(text) => {
            let lower = to_lowercase(text.as_str());
            contains_text(lower.as_str(), "failed")
        },
        None => false,
    }
}

/// Whether `status` is present and is `word` but for the case of ASCII letters.
fn status_equals(status: &Option<String>, word: &str) -> (equal: bool)
    ensures
        equal == status_is(*status, word@),
{
    match status {
        Some(text) => eq_ignore_ascii_case(text.as_str(), word),
        None => false,
    }
}

/// What the answer of the routing service's health endpoint (or the error met
/// while asking for it) says about the service: it is up when its status is
/// "available" or "ready"; it is starting when its status is "not ready";
/// it must be started when its message or error mentions a failure, or when it
/// could not be asked; otherwise its state is unknown.
pub fn ors_health_verdict(outcome: Result<OrsHealthResponse, String>) -> (verdict: HealthVerdict)
    ensures
        match outcome {
            Ok(health) => if status_is(health.status, "available"@) || status_is(health.status, "ready"@) {
                verdict is Ready
            } else if status_is(health.status, "not ready"@) || status_is(health.status, "not_ready"@) {
                verdict matches HealthVerdict::Unavailable(message)
                    && message@ == "ORS is not ready yet, please wait a moment and try again"@
            } else if reports_failure(health.message) || reports_failure(health.error) {
                verdict matches HealthVerdict::Restart(message)
                    && message@ == "ORS is starting, please wait a moment and try again"@
            } else {
                verdict matches HealthVerdict::Unavailable(message)
                    && message@ == "Unable to confirm ORS status. Please check the ORS instance and try again."@
            },
            Err(err) => verdict matches HealthVerdict::Restart(message) && message@ == "ORS is not running or unreachable: "@
                + err@ + ". Starting ORS now; please wait and try again."@,
        },
{
    match outcome {
        Ok(health) => {
            if status_equals(&health.status, "available") || status_equals(&health.status, "ready") {
                return HealthVerdict::Ready;
            }
            if status_equals(&health.status, "not ready") || status_equals(&health.status, "not_ready") {
                return HealthVerdict::Unavailable(
                    String::from_str("ORS is not ready yet, please wait a moment and try again"),
                );
            }
            if mentions_failure(&health.message) || mentions_failure(&health.error) {
                return HealthVerdict::Restart(
                    String::from_str("ORS is starting, please wait a moment and try again"),
                );
            }
            HealthVerdict::Unavailable(
                String::from_str(
                    "Unable to confirm ORS status. Please check the ORS instance and try again.",
                ),
            )
        },
        Err(err) => {
            let mut message = String::from_str("ORS is not running or unreachable: ");
            message.append(err.as_str());
            message.append(". Starting ORS now; please wait and try again.");
            HealthVerdict::Restart(message)
        },
    }
}

/// What the server does with the value of `ORS_BASE_URL` (`None` where it is
/// not set): announce the service's address, or report the missing variable
/// and stop.
pub fn get_ors_env(value: Option<String>) -> (setting: EnvSetting)
    ensures
        match value {
            Some(url) => setting matches EnvSetting::Found { url: found, notice } && found == url
                && notice@ == "Starting with ORS integration enabled on "@ + url@ + "."@,
            None => setting matches EnvSetting::Missing { warning } && warning@
                == "Warning: ORS_BASE_URL environment variable is not set. Use the .env file to set it to the base URL of your OpenRouteService instance."@,
        },
{
    match value {
        Some(url) => {
            let mut notice = String::from_str("Starting with ORS integration enabled on ");
            notice.append(url.as_str());
            notice.append(".");
            EnvSetting::Found { url, notice }
        },
        None => EnvSetting::Missing {
            warning: String::from_str(
                "Warning: ORS_BASE_URL environment variable is not set. Use the .env file to set it to the base URL of your OpenRouteService instance.",
            ),
        },
    }
}


/// A request whose start and end (where given) are locations of the request,
/// and that asks for a round trip (or leaves it to the default), is never
/// refused.
pub proof fn lemma_in_range_round_trip_is_accepted<C>(payload: RouteRequest<C>)
    requires
        payload.start_index matches Some(start) ==> start < payload.coordinates@.len(),
        payload.start_index is None ==> payload.coordinates@.len() > 0,
        payload.end_index matches Some(end) ==> end < payload.coordinates@.len(),
        payload.round_trip != Some(false),
    ensures
        request_refusal(payload) is None,
{
}

/// A request is refused unless its start and end (where given) are locations
/// of the request: an out-of-range start is refused as such, and, the start
/// being in range, an end at or beyond the number of locations is refused as
/// out of range.
pub proof fn lemma_indices_out_of_range_are_refused<C>(payload: RouteRequest<C>)
    ensures
        request_refusal(payload) is None ==> {
            &&& (payload.start_index matches Some(start) ==> start < payload.coordinates@.len())
            &&& (payload.start_index is None ==> payload.coordinates@.len() > 0)
            &&& (payload.end_index matches Some(end) ==> end < payload.coordinates@.len())
        },
        (payload.start_index matches Some(start) && start >= payload.coordinates@.len())
            ==> request_refusal(payload) == Some("start_index is out of range"@),
        (payload.start_index matches Some(start) ==> start < payload.coordinates@.len())
            && (payload.start_index is None ==> payload.coordinates@.len() > 0)
            && (payload.end_index matches Some(end) && end >= payload.coordinates@.len())
            ==> request_refusal(payload) == Some("end_index is out of range"@),
{
}

/// A field reports a failure exactly when the word "failed" occurs somewhere
/// in its lower-case form: at its start, its end, or anywhere between.
pub proof fn lemma_failure_word_anywhere(text: String)
    ensures
        reports_failure(Some(text)) <==> exists|before: Seq<char>, after: Seq<char>|
            unicode_lowercase(text@) == before + "failed"@ + after,
{
    let lower = unicode_lowercase(text@);
    let word = "failed"@;
    if reports_failure(Some(text)) {
        let i = choose|i: int| 0 <= i && i + word.len() <= lower.len() && #[trigger] lower.subrange(i, i + word.len()) == word;
        let before = lower.subrange(0, i);
        let after = lower.subrange(i + word.len(), lower.len() as int);
        assert(lower =~= before + word + after);
    }
    if exists|before: Seq<char>, after: Seq<char>| lower == before + word + after {
        let (before, after) = choose|before: Seq<char>, after: Seq<char>| lower == before + word + after;
        let i = before.len() as int;
        assert(lower.subrange(i, i + word.len()) =~= word);
        assert(has_infix(lower, word));
    }
}


/// The status codes of success are exactly 200 to 299.
pub proof fn lemma_success_codes(code: u16)
    ensures
        is_success_code(code) <==> (code >= 200 && code <= 299),
{
}

} // verus!

use vstd::prelude::*;

verus! {

/// The body of an error reply.
pub struct ErrorResponse {
    pub error: String,
}

/// One entry of the distance matrix: the distance itself, and its rank.
///
/// `rank` orders distances as the numbers themselves are ordered (equal
/// distances have equal ranks). It is `None` where the distance can never be
/// chosen as the nearest one: where it is not a number, or is positive infinity.
pub struct Distance<T> {
    pub value: T,
    pub rank: Option<u64>,
}

/// The travel matrix that the routing service answers with: `distances[i][j]`
/// and `durations[i][j]` are measured from location `i` to location `j`.
pub struct OrsMatrixResponse<T> {
    pub distances: Vec<Vec<Distance<T>>>,
    pub durations: Option<Vec<Vec<T>>>,
}

/// One leg of a route. `duration_seconds` is `None` where the travel matrix
/// carried no durations (the leg then takes no time).
pub struct RouteLeg<T> {
    pub from_index: usize,
    pub to_index: usize,
    pub distance_meters: T,
    pub duration_seconds: Option<T>,
}

/// A route through the given locations.
pub struct RouteResult<C, T> {
    pub route_indices: Vec<usize>,
    pub route: Vec<C>,
    pub legs: Vec<RouteLeg<T>>,
}


/// A request for a route through `coordinates`.
pub struct RouteRequest<C> {
    pub coordinates: Vec<C>,
    pub start_index: Option<usize>,
    pub end_index: Option<usize>,
    pub round_trip: Option<bool>,
    pub profile: Option<String>,
    pub optimization_profile: Option<bool>,
}

/// The answer to a route request.
pub struct RouteResponse<C, T> {
    pub route_indices: Vec<usize>,
    pub route: Vec<C>,
    pub legs: Vec<RouteLeg<T>>,
    pub profile: String,
    pub round_trip: bool,
    pub end_index: Option<usize>,
}

/// What the routing service is asked for: the travel matrix between
/// `locations`, measured in `metrics`, for the travel `profile`.
pub struct OrsMatrixRequest<'a, C> {
    pub locations: &'a [C],
    pub metrics: Vec<&'static str>,
    pub profile: String,
}

/// The answer of the routing service's health endpoint.
pub struct OrsHealthResponse {
    pub status: Option<String>,
    pub message: Option<String>,
    pub error: Option<String>,
}

/// The answer of the optimisation service's health endpoint.
pub struct VrmHealthResponse {
    pub status: Option<String>,
}

/// What a health check concludes about an outside service.
pub enum HealthVerdict {
    /// The service is up.
    Ready,
    /// The service cannot be used now; the message says why.
    Unavailable(String),
    /// The service must be started; the message then says why it cannot be used now.
    Restart(String),
}

/// What the server does with the value of an environment variable that names
/// an outside service.
pub enum EnvSetting {
    /// The service is at `url`; `notice` is announced.
    Found { url: String, notice: String },
    /// The variable is not set: `warning` is reported and the server stops.
    Missing { warning: String },
}

} // verus!

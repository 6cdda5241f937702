use vstd::prelude::*;
use vstd::set_lib::{lemma_int_range, lemma_subset_equality, set_int_range};

use crate::api_err::{is_internal_with, ApiError};
use crate::structs::{Distance, OrsMatrixResponse, RouteLeg, RouteResult};

verus! {

/// There are `n` rows, and each of them has `n` entries.
pub open spec fn is_square<X>(rows: Seq<Vec<X>>, n: nat) -> bool {
    &&& rows.len() == n
    &&& forall|i: int| 0 <= i < n ==> #[trigger] rows[i]@.len() == n
}

/// The rank of the distance from `from` to `to`.
pub open spec fn rank_of<T>(distances: Seq<Vec<Distance<T>>>, from: int, to: int) -> Option<u64> {
    distances[from]@[to].rank
}

/// `candidate` may be the stop that follows `current`: it has not been
/// visited, it is not `current` itself, its distance from `current` can be
/// chosen, and it is not the requested end of the route unless this is the
/// last step.
pub open spec fn is_candidate<T>(
    distances: Seq<Vec<Distance<T>>>,
    visited: Seq<bool>,
    end_index: Option<usize>,
    last_step: bool,
    current: int,
    candidate: int,
) -> bool {
    &&& 0 <= candidate < visited.len()
    &&& !visited[candidate]
    &&& (end_index == Some(candidate as usize) ==> last_step)
    &&& candidate != current
    &&& rank_of(distances, current, candidate) is Some
}

/// Candidate `a` (with rank `ra`) is preferred to candidate `b` (with rank
/// `rb`): it is nearer, or as near and comes first.
pub open spec fn goes_before(ra: u64, a: int, rb: u64, b: int) -> bool {
    ra < rb || (ra == rb && a <= b)
}

/// `next` is the nearest candidate after `current`; among equally near
/// candidates, the one with the smallest index.
pub open spec fn is_nearest<T>(
    distances: Seq<Vec<Distance<T>>>,
    visited: Seq<bool>,
    end_index: Option<usize>,
    last_step: bool,
    current: int,
    next: int,
) -> bool {
    &&& is_candidate(distances, visited, end_index, last_step, current, next)
    &&& forall|other: int|
        #[trigger] is_candidate(distances, visited, end_index, last_step, current, other)
            ==> goes_before(
            rank_of(distances, current, next)->0,
            next,
            rank_of(distances, current, other)->0,
            other,
        )
}

/// The stop that the greedy strategy takes after `current`, if there is a candidate.
pub open spec fn nearest<T>(
    distances: Seq<Vec<Distance<T>>>,
    visited: Seq<bool>,
    end_index: Option<usize>,
    last_step: bool,
    current: int,
) -> Option<int> {
    if exists|next: int| is_nearest(distances, visited, end_index, last_step, current, next) {
        Some(choose|next: int| is_nearest(distances, visited, end_index, last_step, current, next))
    } else {
        None
    }
}

/// The stops that the greedy strategy visits after `current`, `remaining` of
/// them, where `visited` marks the stops already on the route; `None` if at
/// some step no candidate is left.
pub open spec fn greedy_walk<T>(
    distances: Seq<Vec<Distance<T>>>,
    end_index: Option<usize>,
    current: int,
    visited: Seq<bool>,
    remaining: nat,
) -> Option<Seq<usize>>
    decreases remaining,
{
    if remaining == 0 {
        Some(Seq::empty())
    } else {
        match nearest(distances, visited, end_index, remaining == 1, current) {
            None => None,
            Some(next) => match greedy_walk(
                distances,
                end_index,
                next,
                visited.update(next, true),
                (remaining - 1) as nat,
            ) {
                None => None,
                Some(rest) => Some(seq![next as usize] + rest),
            },
        }
    }
}

/// Of `n` stops, only `start` has been visited.
pub open spec fn initially_visited(n: nat, start: int) -> Seq<bool> {
    Seq::new(n, |i: int| i == start)
}

/// The order in which a route through `n` stops visits them: it begins at
/// `start`, takes the nearest candidate at each step until every stop has been
/// visited, and, on a round trip, returns to `start`. `None` if at some step
/// no candidate is left.
pub open spec fn route_order<T>(
    distances: Seq<Vec<Distance<T>>>,
    n: nat,
    start: usize,
    end_index: Option<usize>,
    round_trip: bool,
) -> Option<Seq<usize>> {
    match greedy_walk(
        distances,
        end_index,
        start as int,
        initially_visited(n, start as int),
        (n - 1) as nat,
    ) {
        None => None,
        Some(rest) => Some(
            if round_trip {
                seq![start] + rest + seq![start]
            } else {
                seq![start] + rest
            },
        ),
    }
}

/// The leg from `from` to `to`, measured by the travel matrix.
pub open spec fn leg_between<T>(matrix: OrsMatrixResponse<T>, from: usize, to: usize) -> RouteLeg<T> {
    RouteLeg {
        from_index: from,
        to_index: to,
        distance_meters: matrix.distances@[from as int]@[to as int].value,
        duration_seconds: match matrix.durations {
            Some(durations) => Some(durations@[from as int]@[to as int]),
            None => None,
        },
    }
}

/// `route_indices`, `route` and `legs` visit the stops in `order`: the
/// coordinates are those of the stops, and the legs join each stop to the next one.
pub open spec fn follows_order<C, T>(
    route_indices: Seq<usize>,
    route: Seq<C>,
    legs: Seq<RouteLeg<T>>,
    order: Seq<usize>,
    coordinates: Seq<C>,
    matrix: OrsMatrixResponse<T>,
) -> bool {
    &&& route_indices == order
    &&& route.len() == order.len()
    &&& forall|k: int| 0 <= k < order.len() ==> #[trigger] route[k] == coordinates[order[k] as int]
    &&& legs.len() + 1 == order.len()
    &&& forall|k: int| 0 <= k < legs.len() ==> #[trigger] legs[k] == leg_between(matrix, order[k], order[k + 1])
}

/// `Some(prefix + rest)` where `walk` is `Some(rest)`.
pub open spec fn prepend(prefix: Seq<usize>, walk: Option<Seq<usize>>) -> Option<Seq<usize>> {
    match walk {
        None => None,
        Some(rest) => Some(prefix + rest),
    }
}

/// A leg is measured in the matrix's row of its origin and column of its
/// destination: the distance and duration from `from` to `to`, whatever the
/// entries from `to` back to `from` hold.
pub proof fn lemma_leg_measured_from_origin_to_destination<T>(
    matrix: OrsMatrixResponse<T>,
    from: usize,
    to: usize,
)
    ensures
        leg_between(matrix, from, to).from_index == from,
        leg_between(matrix, from, to).to_index == to,
        leg_between(matrix, from, to).distance_meters == matrix.distances@[from as int]@[to as int].value,
        matrix.durations matches Some(durations) ==> leg_between(matrix, from, to).duration_seconds
            == Some(durations@[from as int]@[to as int]),
        matrix.durations is None ==> leg_between(matrix, from, to).duration_seconds is None,
{
}

/// Two nearest candidates are the same one.
pub proof fn lemma_nearest_unique<T>(
    distances: Seq<Vec<Distance<T>>>,
    visited: Seq<bool>,
    end_index: Option<usize>,
    last_step: bool,
    current: int,
    a: int,
    b: int,
)
    requires
        is_nearest(distances, visited, end_index, last_step, current, a),
        is_nearest(distances, visited, end_index, last_step, current, b),
    ensures
        a == b,
{
    assert(is_candidate(distances, visited, end_index, last_step, current, b));
    assert(is_candidate(distances, visited, end_index, last_step, current, a));
}

/// A nearest candidate is the one that `nearest` names.
pub proof fn lemma_nearest_is<T>(
    distances: Seq<Vec<Distance<T>>>,
    visited: Seq<bool>,
    end_index: Option<usize>,
    last_step: bool,
    current: int,
    next: int,
)
    requires
        is_nearest(distances, visited, end_index, last_step, current, next),
    ensures
        nearest(distances, visited, end_index, last_step, current) == Some(next),
{
    let chosen = choose|c: int| is_nearest(distances, visited, end_index, last_step, current, c);
    lemma_nearest_unique(distances, visited, end_index, last_step, current, chosen, next);
}

/// Whether every row has `n` entries.
fn rows_have_len<X>(rows: &Vec<Vec<X>>, n: usize) -> (ok: bool)
    ensures
        ok == (forall|i: int| 0 <= i < rows@.len() ==> #[trigger] rows@[i]@.len() == n),
{
    let mut i: usize = 0;
    while i < rows.len()
        invariant
            i <= rows@.len(),
            forall|j: int| 0 <= j < i ==> #[trigger] rows@[j]@.len() == n,
        decreases rows@.len() - i,
    {
        if rows[i].len() != n {
            return false;
        }
        i += 1;
    }
    true
}

/// Picks the stop that follows `current`: the unvisited stop nearest to it,
/// skipping the requested end of the route unless this is the last step.
fn select_next_index<T>(
    current: usize,
    visited: &Vec<bool>,
    end_index: Option<usize>,
    last_step: bool,
    distances: &Vec<Vec<Distance<T>>>,
) -> (res: Result<usize, ApiError>)
    requires
        current < distances@.len(),
        visited@.len() <= distances@[current as int]@.len(),
    ensures
        match res {
            Ok(next) => is_nearest(distances@, visited@, end_index, last_step, current as int, next as int),
            Err(err) => {
                &&& forall|c: int| !is_candidate(distances@, visited@, end_index, last_step, current as int, c)
                &&& is_internal_with(err, no_next_stop_message())
            },
        },
{
    let n = visited.len();
    let mut best_index: Option<usize> = None;
    let mut best_rank: u64 = 0;
    let mut candidate: usize = 0;
    while candidate < n
        invariant
            n == visited@.len(),
            current < distances@.len(),
            n <= distances@[current as int]@.len(),
            candidate <= n,
            match best_index {
                None => forall|o: int|
                    0 <= o < candidate ==> !is_candidate(distances@, visited@, end_index, last_step, current as int, o),
                Some(b) => {
                    &&& b < candidate
                    &&& is_candidate(distances@, visited@, end_index, last_step, current as int, b as int)
                    &&& rank_of(distances@, current as int, b as int) == Some(best_rank)
                    &&& forall|o: int|
                        0 <= o < candidate && #[trigger] is_candidate(
                            distances@,
                            visited@,
                            end_index,
                            last_step,
                            current as int,
                            o,
                        ) ==> goes_before(best_rank, b as int, rank_of(distances@, current as int, o)->0, o)
                },
            },
        decreases n - candidate,
    {
        let skipped_end = match end_index {
            Some(end) => candidate == end && !last_step,
            None => false,
        };
        if !visited[candidate] && !skipped_end && candidate != current {
            match distances[current][candidate].rank {
                Some(rank) => {
                    let better = match best_index {
                        None => true,
                        Some(_) => rank < best_rank,
                    };
                    if better {
                        best_rank = rank;
                        best_index = Some(candidate);
                    }
                },
                None => {},
            }
        }
        candidate += 1;
    }
    match best_index {
        Some(b) => Ok(b),
        None => Err(ApiError::internal(String::from_str("Unable to select a next route index"))),
    }
}


/// The message of the error raised when the distance matrix does not fit the locations.
pub open spec fn distances_mismatch_message() -> Seq<char> {
    "ORS matrix response size does not match coordinate count"@
}

/// The message of the error raised when the duration matrix does not fit the locations.
pub open spec fn durations_mismatch_message() -> Seq<char> {
    "ORS durations matrix size does not match coordinate count"@
}

/// The message of the error raised when no stop is left to go to.
pub open spec fn no_next_stop_message() -> Seq<char> {
    "Unable to select a next route index"@
}

/// The matrix has a distance, and a duration where it has durations, for each
/// pair of the `n` locations.
pub open spec fn fits<T>(matrix: OrsMatrixResponse<T>, n: nat) -> bool {
    &&& is_square(matrix.distances@, n)
    &&& matrix.durations matches Some(d) ==> is_square(d@, n)
}

/// The message of the internal error with which building a route through `n`
/// locations fails, or `None` where it succeeds.
pub open spec fn route_failure<T>(
    matrix: OrsMatrixResponse<T>,
    n: nat,
    start: usize,
    end_index: Option<usize>,
    round_trip: bool,
) -> Option<Seq<char>> {
    if !is_square(matrix.distances@, n) {
        Some(distances_mismatch_message())
    } else if !fits(matrix, n) {
        Some(durations_mismatch_message())
    } else if route_order(matrix.distances@, n, start, end_index, round_trip) is None {
        Some(no_next_stop_message())
    } else {
        None
    }
}

/// Builds the greedy nearest-neighbour route through `coordinates`: from
/// `start_index`, it goes each time to the nearest stop not yet visited
/// (keeping `end_index` for the last step), until every stop has been visited,
/// then back to the start on a round trip.
pub fn build_route<C: Copy, T: Copy>(
    coordinates: &[C],
    matrix: &OrsMatrixResponse<T>,
    start_index: usize,
    end_index: Option<usize>,
    round_trip: bool,
) -> (res: Result<RouteResult<C, T>, ApiError>)
    requires
        fits(*matrix, coordinates@.len()) ==> start_index < coordinates@.len(),
    ensures
        match route_failure(*matrix, coordinates@.len(), start_index, end_index, round_trip) {
            Some(message) => res matches Err(err) && is_internal_with(err, message),
            None => res matches Ok(route) && follows_order(
                route.route_indices@,
                route.route@,
                route.legs@,
                route_order(matrix.distances@, coordinates@.len(), start_index, end_index, round_trip)->0,
                coordinates@,
                *matrix,
            ),
        },
        res matches Ok(route) ==> {
            &&& route.route_indices@.len() >= 1
            &&& route.route_indices@[0] == start_index
            &&& route.route@.len() == route.route_indices@.len()
            &&& route.legs@.len() + 1 == route.route_indices@.len()
            &&& forall|k: int|
                0 <= k < route.route@.len() ==> #[trigger] route.route@[k]
                    == coordinates@[route.route_indices@[k] as int]
            &&& forall|k: int|
                0 <= k < route.legs@.len() ==> (#[trigger] route.legs@[k]).from_index
                    == route.route_indices@[k] && route.legs@[k].to_index == route.route_indices@[k + 1]
        },
        res matches Ok(route) ==> forall|k: int| 0 <= k < route.legs@.len() ==> {
            let leg = #[trigger] route.legs@[k];
            &&& leg.from_index < coordinates@.len()
            &&& leg.to_index < coordinates@.len()
            &&& leg.distance_meters == matrix.distances@[leg.from_index as int]@[leg.to_index as int].value
            &&& leg.duration_seconds == match matrix.durations {
                Some(durations) => Some(durations@[leg.from_index as int]@[leg.to_index as int]),
                None => None,
            }
        },
{
    let n = coordinates.len();
    if matrix.distances.len() != n || !rows_have_len(&matrix.distances, n) {
        return Err(
            ApiError::internal(String::from_str("ORS matrix response size does not match coordinate count")),
        );
    }
    match &matrix.durations {
        Some(durations) => {
            if durations.len() != n || !rows_have_len(durations, n) {
                return Err(
                    ApiError::internal(
                        String::from_str("ORS durations matrix size does not match coordinate count"),
                    ),
                );
            }
        },
        None => {},
    }

    let ghost distances = matrix.distances@;
    let ghost whole_walk = greedy_walk(
        distances,
        end_index,
        start_index as int,
        initially_visited(n as nat, start_index as int),
        (n - 1) as nat,
    );

    let mut visited: Vec<bool> = vec![false; n];
    visited[start_index] = true;
    assert(visited@ =~= initially_visited(n as nat, start_index as int));
    let mut route_indices: Vec<usize> = Vec::new();
    route_indices.push(start_index);
    let mut legs: Vec<RouteLeg<T>> = Vec::new();
    let mut current = start_index;
    let mut remaining = n - 1;
    assert(route_indices@.drop_first() + Seq::<usize>::empty() =~= Seq::<usize>::empty());

    while remaining > 0
        invariant
            n == coordinates@.len(),
            distances == matrix.distances@,
            whole_walk == greedy_walk(
                distances,
                end_index,
                start_index as int,
                initially_visited(n as nat, start_index as int),
                (n - 1) as nat,
            ),
            fits(*matrix, n as nat),
            visited@.len() == n,
            current < n,
            visited@[current as int],
            route_indices@.len() + remaining == n,
            route_indices@.len() >= 1,
            route_indices@[0] == start_index,
            route_indices@.last() == current,
            forall|k: int| 0 <= k < route_indices@.len() ==> #[trigger] route_indices@[k] < n,
            legs@.len() + 1 == route_indices@.len(),
            forall|k: int|
                0 <= k < legs@.len() ==> #[trigger] legs@[k] == leg_between(
                    *matrix,
                    route_indices@[k],
                    route_indices@[k + 1],
                ),
            whole_walk == prepend(
                route_indices@.drop_first(),
                greedy_walk(distances, end_index, current as int, visited@, remaining as nat),
            ),
        decreases remaining,
    {
        let next_index = match select_next_index(current, &visited, end_index, remaining == 1, &matrix.distances) {
            Ok(next) => next,
            Err(err) => {
                assert(nearest(distances, visited@, end_index, remaining == 1, current as int) is None);
                assert(greedy_walk(distances, end_index, current as int, visited@, remaining as nat) is None);
                return Err(err);
            },
        };
        proof {
            lemma_nearest_is(distances, visited@, end_index, remaining == 1, current as int, next_index as int);
        }
        if visited[next_index] {
            return Err(
                ApiError::internal(String::from_str("Routing algorithm selected an already visited index")),
            );
        }

        let distance = matrix.distances[current][next_index].value;
        let duration = match &matrix.durations {
            Some(durations) => Some(durations[current][next_index]),
            None => None,
        };
        legs.push(
            RouteLeg {
                from_index: current,
                to_index: next_index,
                distance_meters: distance,
                duration_seconds: duration,
            },
        );
        let ghost before = route_indices@;
        let ghost visited_before = visited@;
        visited[next_index] = true;
        route_indices.push(next_index);
        current = next_index;
        remaining -= 1;
        proof {
            assert(visited@ =~= visited_before.update(next_index as int, true));
            assert(route_indices@.drop_first() =~= before.drop_first().push(next_index));
            match greedy_walk(distances, end_index, current as int, visited@, remaining as nat) {
                None => {},
                Some(rest) => {
                    assert(before.drop_first() + (seq![next_index] + rest)
                        =~= route_indices@.drop_first() + rest);
                },
            }
            assert forall|k: int| 0 <= k < legs@.len() implies #[trigger] legs@[k] == leg_between(
                *matrix,
                route_indices@[k],
                route_indices@[k + 1],
            ) by {
                if k + 1 < legs@.len() {
                    assert(route_indices@[k] == before[k]);
                    assert(route_indices@[k + 1] == before[k + 1]);
                }
            }
        }
    }

    if round_trip {
        let distance = matrix.distances[current][start_index].value;
        let duration = match &matrix.durations {
            Some(durations) => Some(durations[current][start_index]),
            None => None,
        };
        legs.push(
            RouteLeg {
                from_index: current,
                to_index: start_index,
                distance_meters: distance,
                duration_seconds: duration,
            },
        );
        let ghost before = route_indices@;
        route_indices.push(start_index);
        proof {
            assert forall|k: int| 0 <= k < legs@.len() implies #[trigger] legs@[k] == leg_between(
                *matrix,
                route_indices@[k],
                route_indices@[k + 1],
            ) by {
                if k + 1 < legs@.len() {
                    assert(route_indices@[k] == before[k]);
                    assert(route_indices@[k + 1] == before[k + 1]);
                }
            }
        }
    }
    assert(route_indices@ =~= route_order(distances, n as nat, start_index, end_index, round_trip)->0);

    let mut route: Vec<C> = Vec::new();
    let mut k: usize = 0;
    while k < route_indices.len()
        invariant
            n == coordinates@.len(),
            k <= route_indices@.len(),
            route@.len() == k,
            forall|j: int| 0 <= j < route_indices@.len() ==> #[trigger] route_indices@[j] < n,
            forall|j: int| 0 <= j < k ==> #[trigger] route@[j] == coordinates@[route_indices@[j] as int],
        decreases route_indices@.len() - k,
    {
        route.push(coordinates[route_indices[k]]);
        k += 1;
    }

    assert(route_indices@[0] == start_index);
    assert forall|k: int| 0 <= k < legs@.len() implies #[trigger] legs@[k].from_index < n
        && legs@[k].to_index < n by {
        assert(route_indices@[k] < n && route_indices@[k + 1] < n);
    }
    Ok(RouteResult { route_indices, route, legs })
}


/// A greedy walk takes `remaining` stops, each one not visited before it,
/// none of them twice, and takes the requested end of the route, if it takes
/// it at all, only as its last stop.
pub proof fn lemma_walk_takes_fresh_stops<T>(
    distances: Seq<Vec<Distance<T>>>,
    end_index: Option<usize>,
    current: int,
    visited: Seq<bool>,
    remaining: nat,
    rest: Seq<usize>,
)
    requires
        visited.len() <= usize::MAX,
        greedy_walk(distances, end_index, current, visited, remaining) == Some(rest),
    ensures
        rest.len() == remaining,
        forall|k: int| 0 <= k < rest.len() ==> #[trigger] rest[k] < visited.len() && !visited[rest[k] as int],
        rest.no_duplicates(),
        end_index matches Some(end) ==> forall|k: int| 0 <= k < rest.len() - 1 ==> #[trigger] rest[k] != end,
    decreases remaining,
{
    if remaining > 0 {
        let last_step = remaining == 1;
        let next = nearest(distances, visited, end_index, last_step, current)->0;
        assert(is_nearest(distances, visited, end_index, last_step, current, next));
        let marked = visited.update(next, true);
        let tail = greedy_walk(distances, end_index, next, marked, (remaining - 1) as nat)->0;
        lemma_walk_takes_fresh_stops(distances, end_index, next, marked, (remaining - 1) as nat, tail);
        assert(rest == seq![next as usize] + tail);
        assert forall|k: int| 0 <= k < rest.len() implies #[trigger] rest[k] < visited.len() && !visited[rest[k] as int] by {
            if k > 0 {
                assert(rest[k] == tail[k - 1]);
                assert(!marked[tail[k - 1] as int]);
            }
        }
        assert forall|i: int, j: int| 0 <= i < rest.len() && 0 <= j < rest.len() && i != j implies rest[i] != rest[j] by {
            if i > 0 && j > 0 {
                assert(rest[i] == tail[i - 1] && rest[j] == tail[j - 1]);
            } else if i == 0 {
                assert(rest[j] == tail[j - 1]);
                assert(!marked[tail[j - 1] as int]);
            } else {
                assert(rest[i] == tail[i - 1]);
                assert(!marked[tail[i - 1] as int]);
            }
        }
        if let Some(end) = end_index {
            assert forall|k: int| 0 <= k < rest.len() - 1 implies #[trigger] rest[k] != end by {
                if k > 0 {
                    assert(rest[k] == tail[k - 1]);
                }
            }
        }
    }
}

/// A sequence of `n` distinct stops, each below `n`, holds every stop below `n`.
pub proof fn lemma_distinct_stops_cover_all(stops: Seq<usize>, n: nat)
    requires
        stops.len() == n,
        stops.no_duplicates(),
        forall|k: int| 0 <= k < stops.len() ==> #[trigger] stops[k] < n,
    ensures
        forall|v: usize| v < n ==> stops.contains(v),
{
    let ints = stops.map_values(|x: usize| x as int);
    assert forall|i: int, j: int| 0 <= i < ints.len() && 0 <= j < ints.len() && i != j implies ints[i] != ints[j] by {
        assert(stops[i] != stops[j]);
    }
    ints.unique_seq_to_set();
    lemma_int_range(0, n as int);
    assert forall|x: int| ints.to_set().contains(x) implies set_int_range(0, n as int).contains(x) by {
        let k = choose|k: int| 0 <= k < ints.len() && ints[k] == x;
        assert(stops[k] < n);
    }
    lemma_subset_equality(ints.to_set(), set_int_range(0, n as int));
    assert forall|v: usize| v < n implies stops.contains(v) by {
        assert(set_int_range(0, n as int).contains(v as int));
        assert(ints.to_set().contains(v as int));
        let k = choose|k: int| 0 <= k < ints.len() && ints[k] == v as int;
        assert(stops[k] == v);
    }
}

/// A route through `n` stops begins at `start`, visits every stop exactly
/// once, and on a round trip then returns to `start`.
pub proof fn lemma_route_visits_every_stop_once<T>(
    distances: Seq<Vec<Distance<T>>>,
    n: usize,
    start: usize,
    end_index: Option<usize>,
    round_trip: bool,
    order: Seq<usize>,
)
    requires
        start < n,
        route_order(distances, n as nat, start, end_index, round_trip) == Some(order),
    ensures
        order.len() == (if round_trip { n + 1 } else { n as int }),
        order[0] == start,
        round_trip ==> order.last() == start,
        forall|k: int| 0 <= k < order.len() ==> #[trigger] order[k] < n,
        order.take(n as int).no_duplicates(),
        forall|stop: usize| stop < n ==> order.take(n as int).contains(stop),
{
    let visited = initially_visited(n as nat, start as int);
    let rest = greedy_walk(distances, end_index, start as int, visited, (n - 1) as nat)->0;
    lemma_walk_takes_fresh_stops(distances, end_index, start as int, visited, (n - 1) as nat, rest);
    let tour = seq![start] + rest;
    assert(order.take(n as int) =~= tour);
    assert forall|k: int| 0 <= k < tour.len() implies #[trigger] tour[k] < n by {
        if k > 0 {
            assert(tour[k] == rest[k - 1]);
        }
    }
    assert forall|i: int, j: int| 0 <= i < tour.len() && 0 <= j < tour.len() && i != j implies tour[i] != tour[j] by {
        if i > 0 && j > 0 {
            assert(tour[i] == rest[i - 1] && tour[j] == rest[j - 1]);
        } else if i == 0 {
            assert(tour[j] == rest[j - 1]);
            assert(!visited[rest[j - 1] as int]);
        } else {
            assert(tour[i] == rest[i - 1]);
            assert(!visited[rest[i - 1] as int]);
        }
    }
    lemma_distinct_stops_cover_all(tour, n as nat);
    assert forall|k: int| 0 <= k < order.len() implies #[trigger] order[k] < n by {
        if k < n {
            assert(order[k] == tour[k]);
        }
    }
}

/// A route with a requested end other than its start visits that end last
/// (before returning to the start, on a round trip).
pub proof fn lemma_route_ends_at_end_index<T>(
    distances: Seq<Vec<Distance<T>>>,
    n: usize,
    start: usize,
    end: usize,
    round_trip: bool,
    order: Seq<usize>,
)
    requires
        start < n,
        end < n,
        end != start,
        route_order(distances, n as nat, start, Some(end), round_trip) == Some(order),
    ensures
        order[n - 1] == end,
{
    let visited = initially_visited(n as nat, start as int);
    let rest = greedy_walk(distances, Some(end), start as int, visited, (n - 1) as nat)->0;
    lemma_walk_takes_fresh_stops(distances, Some(end), start as int, visited, (n - 1) as nat, rest);
    lemma_route_visits_every_stop_once(distances, n, start, Some(end), round_trip, order);
    let tour = order.take(n as int);
    assert(tour.contains(end));
    let j = choose|j: int| 0 <= j < tour.len() && tour[j] == end;
    assert(tour =~= seq![start] + rest);
    assert(j != 0);
    assert(rest[j - 1] == end);
    assert(j == n - 1);
}


/// With `visited` covering fewer stops than the requested end, the greedy walk
/// goes as if no end had been requested.
pub proof fn lemma_walk_ignores_unreachable_end<T>(
    distances: Seq<Vec<Distance<T>>>,
    end: usize,
    current: int,
    visited: Seq<bool>,
    remaining: nat,
)
    requires
        visited.len() <= end,
    ensures
        greedy_walk(distances, Some(end), current, visited, remaining) == greedy_walk(
            distances,
            None,
            current,
            visited,
            remaining,
        ),
    decreases remaining,
{
    if remaining > 0 {
        let last_step = remaining == 1;
        assert forall|c: int|
            is_candidate(distances, visited, Some(end), last_step, current, c) == is_candidate(
                distances,
                visited,
                None,
                last_step,
                current,
                c,
            ) by {}
        let with_end = nearest(distances, visited, Some(end), last_step, current);
        let without_end = nearest(distances, visited, None, last_step, current);
        if with_end is Some {
            let next = with_end->0;
            assert(is_nearest(distances, visited, Some(end), last_step, current, next));
            assert(is_nearest(distances, visited, None, last_step, current, next));
            lemma_nearest_is(distances, visited, None, last_step, current, next);
            lemma_walk_ignores_unreachable_end(
                distances,
                end,
                next,
                visited.update(next, true),
                (remaining - 1) as nat,
            );
        } else {
            assert forall|c: int| !is_nearest(distances, visited, None, last_step, current, c) by {
                if is_nearest(distances, visited, None, last_step, current, c) {
                    assert(is_candidate(distances, visited, None, last_step, current, c));
                    assert forall|o: int| #[trigger]
                        is_candidate(distances, visited, Some(end), last_step, current, o) implies goes_before(
                        rank_of(distances, current, c)->0,
                        c,
                        rank_of(distances, current, o)->0,
                        o,
                    ) by {
                        assert(is_candidate(distances, visited, None, last_step, current, o));
                    }
                    assert(is_nearest(distances, visited, Some(end), last_step, current, c));
                }
            }
            assert(without_end is None);
        }
    }
}

/// A requested end at or beyond the number of stops is ignored: the route,
/// and the failure if any, are those of a route with no requested end.
pub proof fn lemma_route_ignores_out_of_range_end<T>(
    matrix: OrsMatrixResponse<T>,
    n: nat,
    start: usize,
    end: usize,
    round_trip: bool,
)
    requires
        end >= n,
    ensures
        route_order(matrix.distances@, n, start, Some(end), round_trip) == route_order(
            matrix.distances@,
            n,
            start,
            None,
            round_trip,
        ),
        route_failure(matrix, n, start, Some(end), round_trip) == route_failure(
            matrix,
            n,
            start,
            None,
            round_trip,
        ),
{
    lemma_walk_ignores_unreachable_end(
        matrix.distances@,
        end,
        start as int,
        initially_visited(n, start as int),
        (n - 1) as nat,
    );
}


/// The stop from which step `k` of a walk from `current` departs.
pub open spec fn departure(current: int, rest: Seq<usize>, k: int) -> int {
    if k == 0 {
        current
    } else {
        rest[k - 1] as int
    }
}

/// At each step, a greedy walk goes to a stop whose distance can be chosen,
/// and no stop that it could have gone to instead (not yet visited, not the
/// stop it leaves, and not the requested end before the last step) is nearer,
/// or as near with a smaller index.
pub proof fn lemma_walk_steps_are_nearest<T>(
    distances: Seq<Vec<Distance<T>>>,
    end_index: Option<usize>,
    current: int,
    visited: Seq<bool>,
    remaining: nat,
    rest: Seq<usize>,
)
    requires
        visited.len() <= usize::MAX,
        greedy_walk(distances, end_index, current, visited, remaining) == Some(rest),
    ensures
        forall|k: int, o: int|
            0 <= k < rest.len() && 0 <= o < visited.len() && !visited[o] && !rest.subrange(0, k).contains(
                o as usize,
            ) && o != departure(current, rest, k) && (end_index == Some(o as usize) ==> k == rest.len() - 1)
                && (#[trigger] rank_of(distances, departure(current, rest, k), o)) is Some ==> {
                let taken = rank_of(distances, departure(current, rest, k), rest[k] as int);
                let other = rank_of(distances, departure(current, rest, k), o);
                &&& taken is Some
                &&& taken->0 < other->0 || (taken->0 == other->0 && rest[k] <= o)
            },
    decreases remaining,
{
    lemma_walk_takes_fresh_stops(distances, end_index, current, visited, remaining, rest);
    if remaining > 0 {
        let last_step = remaining == 1;
        let next = nearest(distances, visited, end_index, last_step, current)->0;
        assert(is_nearest(distances, visited, end_index, last_step, current, next));
        let marked = visited.update(next, true);
        let tail = greedy_walk(distances, end_index, next, marked, (remaining - 1) as nat)->0;
        lemma_walk_steps_are_nearest(distances, end_index, next, marked, (remaining - 1) as nat, tail);
        assert(rest == seq![next as usize] + tail);
        assert forall|k: int, o: int|
            0 <= k < rest.len() && 0 <= o < visited.len() && !visited[o] && !rest.subrange(0, k).contains(
                o as usize,
            ) && o != departure(current, rest, k) && (end_index == Some(o as usize) ==> k == rest.len() - 1)
                && (#[trigger] rank_of(distances, departure(current, rest, k), o)) is Some implies {
                let taken = rank_of(distances, departure(current, rest, k), rest[k] as int);
                let other = rank_of(distances, departure(current, rest, k), o);
                &&& taken is Some
                &&& taken->0 < other->0 || (taken->0 == other->0 && rest[k] <= o)
            } by {
            if k == 0 {
                assert(is_candidate(distances, visited, end_index, last_step, current, o));
            } else {
                assert(rest.subrange(0, k)[0] == next as usize);
                assert(o != next);
                assert(!marked[o]);
                assert(departure(next, tail, k - 1) == departure(current, rest, k));
                assert forall|m: int| 0 <= m < k - 1 implies #[trigger] tail.subrange(0, k - 1)[m] == rest.subrange(0, k)[m + 1] by {}
                if tail.subrange(0, k - 1).contains(o as usize) {
                    let m = choose|m: int| 0 <= m < k - 1 && #[trigger] tail.subrange(0, k - 1)[m] == o as usize;
                    assert(rest.subrange(0, k)[m + 1] == o as usize);
                }
                assert(rest[k] == tail[k - 1]);
                assert(rank_of(distances, departure(next, tail, k - 1), o) is Some);
            }
        }
    }
}

/// Each step of a route goes to a stop whose distance can be chosen, and no
/// stop the route could have gone to instead (one not visited yet, and not the
/// requested end before the last step) is nearer, or as near with a smaller
/// index.
pub proof fn lemma_route_steps_are_nearest<T>(
    distances: Seq<Vec<Distance<T>>>,
    n: usize,
    start: usize,
    end_index: Option<usize>,
    round_trip: bool,
    order: Seq<usize>,
    k: int,
    other: usize,
)
    requires
        start < n,
        route_order(distances, n as nat, start, end_index, round_trip) == Some(order),
        0 <= k && k + 1 < n,
        other < n,
        !order.subrange(0, k + 1).contains(other),
        end_index == Some(other) ==> k + 1 == n - 1,
        distances[order[k] as int]@[other as int].rank is Some,
    ensures
        distances[order[k] as int]@[order[k + 1] as int].rank is Some,
        distances[order[k] as int]@[order[k + 1] as int].rank->0 < distances[order[k] as int]@[other as int].rank->0
            || (distances[order[k] as int]@[order[k + 1] as int].rank == distances[order[k] as int]@[other as int].rank
            && order[k + 1] <= other),
{
    let visited = initially_visited(n as nat, start as int);
    let rest = greedy_walk(distances, end_index, start as int, visited, (n - 1) as nat)->0;
    lemma_walk_takes_fresh_stops(distances, end_index, start as int, visited, (n - 1) as nat, rest);
    lemma_walk_steps_are_nearest(distances, end_index, start as int, visited, (n - 1) as nat, rest);
    assert(order[0] == start);
    assert forall|j: int| 0 <= j < rest.len() implies order[j + 1] == #[trigger] rest[j] by {}
    assert(departure(start as int, rest, k) == order[k] as int);
    assert(other != start) by {
        assert(order.subrange(0, k + 1)[0] == start);
    }
    if rest.subrange(0, k).contains(other) {
        let m = choose|m: int| 0 <= m < k && #[trigger] rest.subrange(0, k)[m] == other;
        assert(order.subrange(0, k + 1)[m + 1] == other);
    }
    assert(other != order[k]) by {
        assert(order.subrange(0, k + 1)[k] == order[k]);
    }
    assert(rank_of(distances, departure(start as int, rest, k), other as int) is Some);
}


/// Why building a route fails: a distance matrix that is not one row of one
/// entry per location for each location; else a duration matrix, where there
/// is one, of the wrong size; else a step with no stop left to go to. A route
/// is built exactly when none of these holds.
pub proof fn lemma_route_failure_reasons<T>(
    matrix: OrsMatrixResponse<T>,
    n: nat,
    start: usize,
    end_index: Option<usize>,
    round_trip: bool,
)
    ensures
        !(matrix.distances@.len() == n && forall|i: int|
            0 <= i < n ==> #[trigger] matrix.distances@[i]@.len() == n) ==> route_failure(
            matrix,
            n,
            start,
            end_index,
            round_trip,
        ) == Some("ORS matrix response size does not match coordinate count"@),
        (matrix.distances@.len() == n && forall|i: int| 0 <= i < n ==> #[trigger] matrix.distances@[i]@.len() == n)
            && (matrix.durations matches Some(durations) && !(durations@.len() == n && forall|i: int|
            0 <= i < n ==> #[trigger] durations@[i]@.len() == n)) ==> route_failure(
            matrix,
            n,
            start,
            end_index,
            round_trip,
        ) == Some("ORS durations matrix size does not match coordinate count"@),
        (matrix.distances@.len() == n && forall|i: int| 0 <= i < n ==> #[trigger] matrix.distances@[i]@.len() == n)
            && (matrix.durations matches Some(durations) ==> (durations@.len() == n && forall|i: int|
            0 <= i < n ==> #[trigger] durations@[i]@.len() == n)) ==> {
            &&& route_failure(matrix, n, start, end_index, round_trip) is None <==> route_order(
                matrix.distances@,
                n,
                start,
                end_index,
                round_trip,
            ) is Some
            &&& route_failure(matrix, n, start, end_index, round_trip) is Some ==> route_failure(
                matrix,
                n,
                start,
                end_index,
                round_trip,
            ) == Some("Unable to select a next route index"@)
        },
{
}

} // verus!

use greedy_nearest_neighbor_algorithm::api_err::ApiError;
use greedy_nearest_neighbor_algorithm::gnn::build_route;
use greedy_nearest_neighbor_algorithm::structs::{Distance, OrsMatrixResponse, RouteResult};

fn dist(value: f64) -> Distance<f64> {
    Distance { value, rank: Some((value * 1000.0) as u64) }
}

fn unreachable_dist(value: f64) -> Distance<f64> {
    Distance { value, rank: None }
}

fn matrix(rows: &[&[f64]]) -> Vec<Vec<Distance<f64>>> {
    rows.iter().map(|row| row.iter().map(|&v| dist(v)).collect()).collect()
}

fn coords(n: usize) -> Vec<[f64; 2]> {
    (0..n).map(|i| [i as f64, 10.0 * i as f64]).collect()
}

fn internal_message(err: ApiError) -> String {
    match err {
        ApiError::Internal(m) => m,
        ApiError::BadRequest(m) => panic!("expected an internal error, got a bad request: {}", m),
    }
}

fn ok(res: Result<RouteResult<[f64; 2], f64>, ApiError>) -> RouteResult<[f64; 2], f64> {
    match res {
        Ok(r) => r,
        Err(_) => panic!("expected a route"),
    }
}

fn line_matrix() -> OrsMatrixResponse<f64> {
    // Locations on a line at 0, 1, 3 and 6.
    OrsMatrixResponse {
        distances: matrix(&[
            &[0.0, 1.0, 3.0, 6.0],
            &[1.0, 0.0, 2.0, 5.0],
            &[3.0, 2.0, 0.0, 3.0],
            &[6.0, 5.0, 3.0, 0.0],
        ]),
        durations: Some(vec![
            vec![0.0, 10.0, 30.0, 60.0],
            vec![10.0, 0.0, 20.0, 50.0],
            vec![30.0, 20.0, 0.0, 30.0],
            vec![60.0, 50.0, 30.0, 0.0],
        ]),
    }
}

#[test]
fn round_trip_visits_nearest_first_and_returns() {
    let c = coords(4);
    let r = ok(build_route(&c, &line_matrix(), 0, None, true));
    assert_eq!(r.route_indices, vec![0, 1, 2, 3, 0]);
    assert_eq!(r.route, vec![c[0], c[1], c[2], c[3], c[0]]);
    assert_eq!(r.legs.len(), 4);
    let pairs: Vec<(usize, usize)> = r.legs.iter().map(|l| (l.from_index, l.to_index)).collect();
    assert_eq!(pairs, vec![(0, 1), (1, 2), (2, 3), (3, 0)]);
    let distances: Vec<f64> = r.legs.iter().map(|l| l.distance_meters).collect();
    assert_eq!(distances, vec![1.0, 2.0, 3.0, 6.0]);
    let durations: Vec<Option<f64>> = r.legs.iter().map(|l| l.duration_seconds).collect();
    assert_eq!(durations, vec![Some(10.0), Some(20.0), Some(30.0), Some(60.0)]);
}

#[test]
fn open_route_from_the_middle() {
    let c = coords(4);
    let r = ok(build_route(&c, &line_matrix(), 2, None, false));
    // From 3: nearest is 1 (distance 2), then 0 (1), then 6 (6).
    assert_eq!(r.route_indices, vec![2, 1, 0, 3]);
    assert_eq!(r.legs.len(), 3);
    assert_eq!(r.legs[2].distance_meters, 6.0);
}

#[test]
fn end_index_is_kept_for_the_last_step() {
    let c = coords(4);
    let r = ok(build_route(&c, &line_matrix(), 0, Some(1), false));
    assert_eq!(r.route_indices, vec![0, 2, 3, 1]);
    let r = ok(build_route(&c, &line_matrix(), 0, Some(1), true));
    assert_eq!(r.route_indices, vec![0, 2, 3, 1, 0]);
}

#[test]
fn end_index_equal_to_start_on_a_round_trip() {
    let c = coords(4);
    let r = ok(build_route(&c, &line_matrix(), 0, Some(0), true));
    assert_eq!(r.route_indices, vec![0, 1, 2, 3, 0]);
}

#[test]
fn ties_go_to_the_smallest_index() {
    let m = OrsMatrixResponse {
        distances: matrix(&[&[0.0, 5.0, 5.0], &[5.0, 0.0, 1.0], &[5.0, 1.0, 0.0]]),
        durations: None,
    };
    let r = ok(build_route(&coords(3), &m, 0, None, false));
    assert_eq!(r.route_indices, vec![0, 1, 2]);
}

#[test]
fn missing_durations_give_legs_without_duration() {
    let m = OrsMatrixResponse { distances: matrix(&[&[0.0, 4.0], &[4.0, 0.0]]), durations: None };
    let r = ok(build_route(&coords(2), &m, 1, None, true));
    assert_eq!(r.route_indices, vec![1, 0, 1]);
    assert!(r.legs.iter().all(|l| l.duration_seconds.is_none()));
    assert_eq!(r.legs[0].distance_meters, 4.0);
}

#[test]
fn single_location() {
    let m = OrsMatrixResponse { distances: matrix(&[&[0.0]]), durations: None };
    let r = ok(build_route(&coords(1), &m, 0, None, false));
    assert_eq!(r.route_indices, vec![0]);
    assert!(r.legs.is_empty());
    let r = ok(build_route(&coords(1), &m, 0, None, true));
    assert_eq!(r.route_indices, vec![0, 0]);
    assert_eq!(r.legs.len(), 1);
}

#[test]
fn unrankable_distances_are_skipped() {
    let m = OrsMatrixResponse {
        distances: vec![
            vec![dist(0.0), unreachable_dist(f64::NAN), dist(9.0)],
            vec![dist(1.0), dist(0.0), dist(1.0)],
            vec![dist(9.0), dist(2.0), dist(0.0)],
        ],
        durations: None,
    };
    let r = ok(build_route(&coords(3), &m, 0, None, false));
    assert_eq!(r.route_indices, vec![0, 2, 1]);
}

#[test]
fn no_candidate_left_is_an_internal_error() {
    let m = OrsMatrixResponse {
        distances: vec![
            vec![dist(0.0), unreachable_dist(f64::INFINITY)],
            vec![dist(1.0), dist(0.0)],
        ],
        durations: None,
    };
    let err = match build_route(&coords(2), &m, 0, None, false) {
        Err(e) => e,
        Ok(_) => panic!("expected an error"),
    };
    assert_eq!(internal_message(err), "Unable to select a next route index");
}

#[test]
fn end_index_unreachable_at_the_last_step_fails() {
    let m = OrsMatrixResponse {
        distances: vec![
            vec![dist(0.0), dist(1.0), dist(2.0)],
            vec![dist(1.0), dist(0.0), unreachable_dist(f64::NAN)],
            vec![dist(2.0), dist(1.0), dist(0.0)],
        ],
        durations: None,
    };
    assert!(build_route(&coords(3), &m, 0, Some(2), false).is_err());
}

#[test]
fn distance_matrix_of_the_wrong_size() {
    let m = OrsMatrixResponse { distances: matrix(&[&[0.0, 1.0], &[1.0, 0.0]]), durations: None };
    let err = match build_route(&coords(3), &m, 0, None, false) {
        Err(e) => e,
        Ok(_) => panic!("expected an error"),
    };
    assert_eq!(internal_message(err), "ORS matrix response size does not match coordinate count");
    let m = OrsMatrixResponse { distances: matrix(&[&[0.0, 1.0], &[1.0]]), durations: None };
    let err = match build_route(&coords(2), &m, 0, None, false) {
        Err(e) => e,
        Ok(_) => panic!("expected an error"),
    };
    assert_eq!(internal_message(err), "ORS matrix response size does not match coordinate count");
}

#[test]
fn duration_matrix_of_the_wrong_size() {
    let m = OrsMatrixResponse {
        distances: matrix(&[&[0.0, 1.0], &[1.0, 0.0]]),
        durations: Some(vec![vec![0.0, 1.0], vec![1.0, 0.0, 2.0]]),
    };
    let err = match build_route(&coords(2), &m, 0, None, false) {
        Err(e) => e,
        Ok(_) => panic!("expected an error"),
    };
    assert_eq!(internal_message(err), "ORS durations matrix size does not match coordinate count");
}

#[test]
fn every_location_is_visited_once() {
    // A scattered matrix: the route must still be a permutation.
    let n = 6;
    let pts: Vec<f64> = vec![0.0, 7.0, 2.0, 9.5, 4.25, 1.0];
    let rows: Vec<Vec<Distance<f64>>> = (0..n)
        .map(|i| (0..n).map(|j| dist((pts[i] - pts[j]).abs())).collect())
        .collect();
    let m = OrsMatrixResponse { distances: rows, durations: None };
    let r = ok(build_route(&coords(n), &m, 3, Some(0), false));
    let mut seen = r.route_indices.clone();
    seen.sort();
    assert_eq!(seen, (0..n).collect::<Vec<_>>());
    assert_eq!(r.route_indices[0], 3);
    assert_eq!(*r.route_indices.last().unwrap(), 0);
}

#[test]
fn out_of_range_end_index_is_ignored() {
    let c = coords(4);
    for round_trip in [false, true] {
        let with_end = ok(build_route(&c, &line_matrix(), 2, Some(9), round_trip));
        let without = ok(build_route(&c, &line_matrix(), 2, None, round_trip));
        assert_eq!(with_end.route_indices, without.route_indices);
        assert_eq!(with_end.route, without.route);
    }
    let m = OrsMatrixResponse {
        distances: vec![vec![dist(0.0), unreachable_dist(f64::NAN)], vec![dist(1.0), dist(0.0)]],
        durations: None,
    };
    let with_end = build_route(&coords(2), &m, 0, Some(2), false).err().map(internal_message);
    let without = build_route(&coords(2), &m, 0, None, false).err().map(internal_message);
    assert_eq!(with_end, without);
    assert_eq!(with_end.as_deref(), Some("Unable to select a next route index"));
}

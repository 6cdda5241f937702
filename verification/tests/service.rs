use greedy_nearest_neighbor_algorithm::api_err::ApiError;
use greedy_nearest_neighbor_algorithm::ors::{
    check_matrix_status, endpoint_url, get_ors_env, handle_ors_req_res, is_success, matrix_url,
    ors_health_verdict,
};
use greedy_nearest_neighbor_algorithm::server::{check_optimize_payload, plan_matrix_request};
use greedy_nearest_neighbor_algorithm::structs::{
    Distance, EnvSetting, HealthVerdict, OrsHealthResponse, OrsMatrixResponse, RouteRequest,
    VrmHealthResponse,
};
use greedy_nearest_neighbor_algorithm::text::{contains_text, eq_ignore_ascii_case, trim, trim_trailing_slashes};
use greedy_nearest_neighbor_algorithm::vrm::{
    bare_vrm_health, check_vrm_health_status, get_vrm_env, start_vrm_server, vrm_health_verdict,
};

fn request(n: usize) -> RouteRequest<[f64; 2]> {
    RouteRequest {
        coordinates: (0..n).map(|i| [i as f64, 0.0]).collect(),
        start_index: None,
        end_index: None,
        round_trip: None,
        profile: None,
        optimization_profile: None,
    }
}

fn line(n: usize) -> OrsMatrixResponse<f64> {
    let rows = (0..n)
        .map(|i| {
            (0..n)
                .map(|j| {
                    let d = (i as f64 - j as f64).abs();
                    Distance { value: d, rank: Some(d as u64) }
                })
                .collect()
        })
        .collect();
    OrsMatrixResponse { distances: rows, durations: None }
}

fn refusal(res: Result<impl Sized, (u16, greedy_nearest_neighbor_algorithm::structs::ErrorResponse)>) -> (u16, String) {
    match res {
        Err((code, body)) => (code, body.error),
        Ok(_) => panic!("expected a refusal"),
    }
}

#[test]
fn api_error_constructors_and_replies() {
    match ApiError::bad_request("x".to_string()) {
        ApiError::BadRequest(m) => assert_eq!(m, "x"),
        _ => panic!(),
    }
    match ApiError::internal("y".to_string()) {
        ApiError::Internal(m) => assert_eq!(m, "y"),
        _ => panic!(),
    }
    let (code, body) = ApiError::bad_request("bad".to_string()).into_response();
    assert_eq!((code, body.error.as_str()), (400, "bad"));
    let (code, body) = ApiError::internal("oops".to_string()).into_response();
    assert_eq!((code, body.error.as_str()), (500, "oops"));
}

#[test]
fn route_request_is_answered() {
    let mut p = request(3);
    p.start_index = Some(2);
    let answer = match handle_ors_req_res(Ok(line(3)), p, "cycling-regular") {
        Ok(a) => a,
        Err(_) => panic!("expected a route"),
    };
    assert_eq!(answer.route_indices, vec![2, 1, 0, 2]);
    assert_eq!(answer.route, vec![[2.0, 0.0], [1.0, 0.0], [0.0, 0.0], [2.0, 0.0]]);
    assert_eq!(answer.profile, "cycling-regular");
    assert!(answer.round_trip);
    assert_eq!(answer.end_index, None);
    assert_eq!(answer.legs.len(), 3);
    assert_eq!(answer.legs[2].distance_meters, 2.0);
}

#[test]
fn route_request_refusals() {
    let mut p = request(3);
    p.start_index = Some(3);
    assert_eq!(refusal(handle_ors_req_res(Ok(line(3)), p, "x")), (400, "start_index is out of range".to_string()));

    let mut p = request(3);
    p.end_index = Some(5);
    assert_eq!(refusal(handle_ors_req_res(Ok(line(3)), p, "x")), (400, "end_index is out of range".to_string()));

    let mut p = request(3);
    p.end_index = Some(0);
    p.round_trip = Some(false);
    assert_eq!(
        refusal(handle_ors_req_res(Ok(line(3)), p, "x")),
        (400, "end_index cannot be the same as start_index unless round_trip is enabled".to_string())
    );

    // The start is checked before the matrix service's own error.
    let mut p = request(2);
    p.start_index = Some(7);
    assert_eq!(
        refusal(handle_ors_req_res::<[f64; 2], f64>(Err(ApiError::internal("down".to_string())), p, "x")),
        (400, "start_index is out of range".to_string())
    );
}

#[test]
fn same_start_and_end_is_accepted_for_two_locations() {
    let mut p = request(2);
    p.end_index = Some(0);
    p.round_trip = Some(false);
    let answer = match handle_ors_req_res(Ok(line(2)), p, "x") {
        Ok(a) => a,
        Err(_) => panic!("expected a route"),
    };
    assert_eq!(answer.route_indices, vec![0, 1]);
    assert!(!answer.round_trip);
    assert_eq!(answer.end_index, Some(0));
}

#[test]
fn matrix_service_errors_are_passed_on() {
    let p = request(3);
    assert_eq!(
        refusal(handle_ors_req_res::<[f64; 2], f64>(Err(ApiError::bad_request("ORS matrix returned 404".to_string())), p, "x")),
        (400, "ORS matrix returned 404".to_string())
    );
    let p = request(3);
    assert_eq!(
        refusal(handle_ors_req_res(Ok(line(2)), p, "x")),
        (500, "ORS matrix response size does not match coordinate count".to_string())
    );
}

#[test]
fn matrix_request_planning() {
    let p = request(1);
    assert_eq!(refusal(plan_matrix_request(&p)), (400, "At least two coordinates are required".to_string()));
    let mut p = request(2);
    p.optimization_profile = Some(true);
    assert_eq!(refusal(plan_matrix_request(&p)), (400, "optimization_profile is not yet implemented".to_string()));

    let mut p = request(2);
    p.optimization_profile = Some(false);
    let req = match plan_matrix_request(&p) {
        Ok(r) => r,
        Err(_) => panic!("expected a request"),
    };
    assert_eq!(req.profile, "driving-car");
    assert_eq!(req.metrics, vec!["distance", "duration"]);
    assert_eq!(req.locations, &p.coordinates[..]);

    let mut p = request(2);
    p.profile = Some("foot-walking".to_string());
    let req = match plan_matrix_request(&p) {
        Ok(r) => r,
        Err(_) => panic!("expected a request"),
    };
    assert_eq!(req.profile, "foot-walking");
}

#[test]
fn optimize_payload_must_be_an_object() {
    assert!(check_optimize_payload(true).is_ok());
    assert_eq!(
        refusal(check_optimize_payload(false)),
        (400, "VROOM optimize request must be a JSON object".to_string())
    );
}

#[test]
fn urls_drop_trailing_slashes() {
    assert_eq!(matrix_url("http://localhost:8080/ors/v2//", "driving-car"), "http://localhost:8080/ors/v2/matrix/driving-car");
    assert_eq!(matrix_url("http://h", "x"), "http://h/matrix/x");
    assert_eq!(endpoint_url("http://h/", "/health"), "http://h/health");
    assert_eq!(endpoint_url("///", "/health"), "/health");
    assert_eq!(trim_trailing_slashes("a/b/"), "a/b");
}

#[test]
fn matrix_status_check() {
    assert!(is_success(200) && is_success(299));
    assert!(!is_success(199) && !is_success(300));
    assert!(check_matrix_status(204, "").is_ok());
    match check_matrix_status(404, "no such profile") {
        Err(ApiError::BadRequest(m)) => assert_eq!(m, "ORS matrix returned 404 Not Found: no such profile"),
        _ => panic!("expected a bad request"),
    }
    match check_matrix_status(599, "?") {
        Err(ApiError::BadRequest(m)) => assert_eq!(m, "ORS matrix returned 599 <unknown status code>: ?"),
        _ => panic!("expected a bad request"),
    }
}

fn health(status: Option<&str>, message: Option<&str>, error: Option<&str>) -> OrsHealthResponse {
    OrsHealthResponse {
        status: status.map(|s| s.to_string()),
        message: message.map(|s| s.to_string()),
        error: error.map(|s| s.to_string()),
    }
}

fn verdict_text(v: HealthVerdict) -> (&'static str, String) {
    match v {
        HealthVerdict::Ready => ("ready", String::new()),
        HealthVerdict::Unavailable(m) => ("unavailable", m),
        HealthVerdict::Restart(m) => ("restart", m),
    }
}

#[test]
fn ors_health_verdicts() {
    assert!(matches!(ors_health_verdict(Ok(health(Some("READY"), None, None))), HealthVerdict::Ready));
    assert!(matches!(ors_health_verdict(Ok(health(Some("Available"), None, None))), HealthVerdict::Ready));
    assert_eq!(
        verdict_text(ors_health_verdict(Ok(health(Some("Not_Ready"), Some("failed"), None)))),
        ("unavailable", "ORS is not ready yet, please wait a moment and try again".to_string())
    );
    assert_eq!(
        verdict_text(ors_health_verdict(Ok(health(Some("starting"), Some("Graph build FAILED"), None)))),
        ("restart", "ORS is starting, please wait a moment and try again".to_string())
    );
    assert_eq!(
        verdict_text(ors_health_verdict(Ok(health(None, None, Some("it failed"))))),
        ("restart", "ORS is starting, please wait a moment and try again".to_string())
    );
    assert_eq!(
        verdict_text(ors_health_verdict(Ok(health(Some("unknown"), Some("fine"), None)))),
        ("unavailable", "Unable to confirm ORS status. Please check the ORS instance and try again.".to_string())
    );
    assert_eq!(
        verdict_text(ors_health_verdict(Err("connection refused".to_string()))),
        (
            "restart",
            "ORS is not running or unreachable: connection refused. Starting ORS now; please wait and try again."
                .to_string()
        )
    );
}

#[test]
fn vroom_health() {
    assert!(check_vrm_health_status(200).is_ok());
    assert_eq!(
        check_vrm_health_status(503),
        Err("VROOM health endpoint returned 503 Service Unavailable".to_string())
    );
    for body in ["", "200", "  200\n", "\t200 "] {
        match bare_vrm_health(body) {
            Some(h) => assert_eq!(h.status.as_deref(), Some("ok")),
            None => panic!("{:?} should be a bare answer", body),
        }
    }
    for body in ["{\"status\":\"ok\"}", "2000", " 20 0"] {
        assert!(bare_vrm_health(body).is_none());
    }
    assert!(matches!(vrm_health_verdict(Ok(VrmHealthResponse { status: None })), HealthVerdict::Ready));
    assert_eq!(
        verdict_text(vrm_health_verdict(Err("timeout".to_string()))),
        ("restart", "VROOM is not running or unreachable: timeout. Starting VROOM now; please wait and try again.".to_string())
    );
}

fn setting_text(s: EnvSetting) -> (Option<String>, String) {
    match s {
        EnvSetting::Found { url, notice } => (Some(url), notice),
        EnvSetting::Missing { warning } => (None, warning),
    }
}

#[test]
fn environment_settings() {
    assert_eq!(
        setting_text(get_ors_env(Some("http://ors".to_string()))),
        (Some("http://ors".to_string()), "Starting with ORS integration enabled on http://ors.".to_string())
    );
    assert_eq!(
        setting_text(get_ors_env(None)),
        (None, "Warning: ORS_BASE_URL environment variable is not set. Use the .env file to set it to the base URL of your OpenRouteService instance.".to_string())
    );
    assert_eq!(
        setting_text(get_vrm_env(Some("http://vroom".to_string()))),
        (Some("http://vroom".to_string()), "Starting with VROOM integration enabled on http://vroom.".to_string())
    );
    assert_eq!(
        setting_text(start_vrm_server(None)),
        (None, "Warning: VROOM_BASE_URL environment variable is not set. Use the .env file to set it to the base URL of your VROOM instance if you want to use optimization_profile.".to_string())
    );
}

#[test]
fn text_helpers() {
    assert!(eq_ignore_ascii_case("Not Ready", "not READY"));
    assert!(!eq_ignore_ascii_case("ready", "readyy"));
    assert!(!eq_ignore_ascii_case("É", "é"));
    assert!(contains_text("it has failed", "failed"));
    assert!(contains_text("abc", ""));
    assert!(!contains_text("fail", "failed"));
    assert!(!contains_text("FAILED", "failed"));
    assert_eq!(trim(" \u{3000}x y\u{85}\n"), "x y");
    assert_eq!(trim("   "), "");
}

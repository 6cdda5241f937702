use vstd::prelude::*;

use crate::ors::is_success;
use crate::ors::is_success_code;
use crate::http_status::{status_display, status_text};
use crate::structs::{EnvSetting, HealthVerdict, VrmHealthResponse};
use crate::text::{is_white_space, lemma_trim_removes_surrounding_white_space, trim, trim_white_space};

verus! {

/// What the server does with the value of `VROOM_BASE_URL` (`None` where it
/// is not set): announce the service's address, or report the missing
/// variable and stop.
pub fn get_vrm_env(value: Option<String>) -> (setting: EnvSetting)
    ensures
        match value {
            Some(url) => setting matches EnvSetting::Found { url: found, notice } && found == url
                && notice@ == "Starting with VROOM integration enabled on "@ + url@ + "."@,
            None => setting matches EnvSetting::Missing { warning } && warning@
                == "Warning: VROOM_BASE_URL environment variable is not set. Use the .env file to set it to the base URL of your VROOM instance if you want to use optimization_profile."@,
        },
{
    match value {
        Some(url) => {
            let mut notice = String::from_str("Starting with VROOM integration enabled on ");
            notice.append(url.as_str());
            notice.append(".");
            EnvSetting::Found { url, notice }
        },
        None => EnvSetting::Missing {
            warning: String::from_str(
                "Warning: VROOM_BASE_URL environment variable is not set. Use the .env file to set it to the base URL of your VROOM instance if you want to use optimization_profile.",
            ),
        },
    }
}

/// Reads `VROOM_BASE_URL` only for what reading it does: the server announces
/// the address, or reports the missing variable and stops, as `get_vrm_env`
/// says; the address itself is not kept.
pub fn start_vrm_server(value: Option<String>) -> (setting: EnvSetting)
    ensures
        match value {
            Some(url) => setting matches EnvSetting::Found { url: found, notice } && found == url
                && notice@ == "Starting with VROOM integration enabled on "@ + url@ + "."@,
            None => setting matches EnvSetting::Missing { warning } && warning@
                == "Warning: VROOM_BASE_URL environment variable is not set. Use the .env file to set it to the base URL of your VROOM instance if you want to use optimization_profile."@,
        },
{
    get_vrm_env(value)
}

/// Checks the status with which the optimisation service's health endpoint
/// answered: anything but success is an error that names the status (as the
/// `http` crate shows it).
pub fn check_vrm_health_status(code: u16) -> (res: Result<(), String>)
    requires
        100 <= code <= 999,
    ensures
        res is Ok <==> is_success_code(code),
        res matches Err(message) ==> message@ == "VROOM health endpoint returned "@ + status_display(code),
{
    if is_success(code) {
        Ok(())
    } else {
        let mut message = String::from_str("VROOM health endpoint returned ");
        message.append(status_text(code).as_str());
        Err(message)
    }
}

/// The health that a bare answer of the optimisation service's health
/// endpoint stands for: an empty body, or a body that is "200" once trimmed
/// of white space, means the status "ok"; any other body is `None`, to be read
/// as the endpoint's own answer.
pub fn bare_vrm_health(body: &str) -> (health: Option<VrmHealthResponse>)
    ensures
        (body@.len() == 0 || trim_white_space(body@) == "200"@) ==> (health matches Some(h) && h.status
            matches Some(status) && status@ == "ok"@),
        !(body@.len() == 0 || trim_white_space(body@) == "200"@) ==> health is None,
{
    if body.is_empty() || String::from_str(trim(body)) == String::from_str("200") {
        Some(VrmHealthResponse { status: Some(String::from_str("ok")) })
    } else {
        None
    }
}

/// What the answer of the optimisation service's health endpoint (or the
/// error met while asking for it) says about the service: any answer means it
/// is up; an error means it must be started.
pub fn vrm_health_verdict(outcome: Result<VrmHealthResponse, String>) -> (verdict: HealthVerdict)
    ensures
        match outcome {
            Ok(_) => verdict is Ready,
            Err(err) => verdict matches HealthVerdict::Restart(message) && message@
                == "VROOM is not running or unreachable: "@ + err@ + ". Starting VROOM now; please wait and try again."@,
        },
{
    match outcome {
        Ok(_) => HealthVerdict::Ready,
        Err(err) => {
            let mut message = String::from_str("VROOM is not running or unreachable: ");
            message.append(err.as_str());
            message.append(". Starting VROOM now; please wait and try again.");
            HealthVerdict::Restart(message)
        },
    }
}


/// A body that is "200" with any white space around it (a line ending
/// "\r\n" among it) is a bare answer of the health endpoint.
pub proof fn lemma_padded_200_is_bare(lead: Seq<char>, trail: Seq<char>)
    requires
        forall|i: int| 0 <= i < lead.len() ==> is_white_space(#[trigger] lead[i]),
        forall|i: int| 0 <= i < trail.len() ==> is_white_space(#[trigger] trail[i]),
    ensures
        trim_white_space(lead + "200"@ + trail) == "200"@,
        trim_white_space("200\r\n"@) == "200"@,
{
    reveal_strlit("200");
    reveal_strlit("200\r\n");
    lemma_trim_removes_surrounding_white_space(lead, "200"@, trail);
    let crlf = seq!['\r', '\n'];
    assert(is_white_space('\r') && is_white_space('\n'));
    lemma_trim_removes_surrounding_white_space(Seq::<char>::empty(), "200"@, crlf);
    assert("200\r\n"@ =~= Seq::<char>::empty() + "200"@ + crlf);
}

} // verus!

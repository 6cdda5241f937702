use vstd::prelude::*;

verus! {

/// The text by which the `http` crate shows a status code: the code, a space,
/// then the code's canonical reason phrase (or "<unknown status code>").
pub uninterp spec fn status_display(code: u16) -> Seq<char>;

/// Makes a `StatusCode` of the `http` crate (as axum re-exports it) with
/// `StatusCode::from_u16`, and shows it with its `Display` impl.
///
/// `from_u16` accepts exactly the codes from 100 to 999, hence the `requires`.
/// The contract claims only that the text depends on the code alone; the
/// reason phrase that `Display` takes from its table is left to the name
/// `status_display`.
#[verifier::external_body]
pub(crate) fn status_text(code: u16) -> (text: String)
    requires
        100 <= code <= 999,
    ensures
        text@ == status_display(code),
{
    match axum::http::StatusCode::from_u16(code) {
        Ok(status) => status.to_string(),
        Err(err) => err.to_string(),
    }
}

} // verus!

use qable::catalog::{guid_to_id, title_resolution_step};
use qable::queue::{Error, MagnetInfoResult, Response};

#[test]
fn guid_yields_normalized_identifier() {
    let guid = "com.plexapp.agents.imdb://tt7541106?lang=en";
    assert_eq!(guid_to_id(guid), Some(String::from("tt7541106")));
}

#[test]
fn guid_identifier_is_lowercased() {
    let guid = "com.plexapp.agents.imdb://TT7541106?lang=en";
    assert_eq!(guid_to_id(guid), Some(String::from("tt7541106")));
}

#[test]
fn short_guid_yields_nothing() {
    assert_eq!(guid_to_id("com.plexapp.agents.imdb://"), None);
    assert_eq!(guid_to_id(""), None);
}

#[test]
fn resolution_accepts_exactly_one_match() {
    let (done, title) = title_resolution_step(vec![String::from("Fight Club")]);
    assert!(done);
    assert_eq!(title, Some(String::from("Fight Club")));

    let (done, title) = title_resolution_step(Vec::new());
    assert!(!done);
    assert!(title.is_none());

    let (done, title) =
        title_resolution_step(vec![String::from("Fight Club"), String::from("Fight Club 2")]);
    assert!(!done);
    assert!(title.is_none());
}

#[test]
fn queue_response_unpacks_result() {
    let resp: Response<bool> = Response { id: String::from("42"), result: Some(true), error: None };
    assert_eq!(resp.into_result().unwrap(), true);
}

#[test]
fn queue_response_unpacks_reported_error() {
    let resp: Response<bool> = Response {
        id: String::from("42"),
        result: None,
        error: Some(Error { message: String::from("bad magnet"), code: 7 }),
    };
    let err = resp.into_result().unwrap_err();
    assert_eq!(err.message, "bad magnet");
    assert_eq!(err.code, 7);
}

#[test]
fn queue_response_without_result_or_error_is_empty_error() {
    let resp: Response<MagnetInfoResult> =
        Response { id: String::from("42"), result: None, error: None };
    let err = resp.into_result().unwrap_err();
    assert_eq!(err.message, "");
    assert_eq!(err.code, 0);
}

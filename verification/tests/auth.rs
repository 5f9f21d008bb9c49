use api_core::auth::{
    authorize, session_id, AuthFailure, SESSION_COOKIE_DAYS, SESSION_ID_LENGTH, UNAUTHORIZED,
};

#[test]
fn cookie_of_the_right_length_is_a_session_identifier() {
    let id = "f".repeat(64);
    assert_eq!(session_id(Some(&id)), Ok(id.clone()));
    assert_eq!(SESSION_ID_LENGTH, 64);
}

#[test]
fn missing_or_misshapen_cookie_is_refused() {
    assert_eq!(session_id(None), Err(AuthFailure::InvalidCookie));
    assert_eq!(session_id(Some("")), Err(AuthFailure::InvalidCookie));
    assert_eq!(session_id(Some(&"f".repeat(63))), Err(AuthFailure::InvalidCookie));
    assert_eq!(session_id(Some(&"f".repeat(65))), Err(AuthFailure::InvalidCookie));
}

#[test]
fn unknown_session_is_unauthorized() {
    assert_eq!(authorize(Some(5)), Ok(5));
    assert_eq!(authorize::<u8>(None), Err(AuthFailure::Unauthorized));
}

#[test]
fn refusals_carry_their_message() {
    let body = AuthFailure::InvalidCookie.body();
    assert!(!body.success);
    assert_eq!(body.errors, vec!["invalid authorization cookie".to_string()]);
    assert_eq!(AuthFailure::Unauthorized.body().errors, vec!["unauthorized".to_string()]);
    assert_eq!(UNAUTHORIZED, 401);
    assert_eq!(SESSION_COOKIE_DAYS, 7);
}

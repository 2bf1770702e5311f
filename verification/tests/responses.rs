use copilot_money_cli::responses::{response_action, token_from_text, GraphqlError, ResponseAction};

/// The first error of an answer, read from its JSON text.
fn first_error(body: &str) -> Option<GraphqlError> {
    let value: serde_json::Value = serde_json::from_str(body).unwrap();
    let first = value.get("errors")?.as_array()?.first()?;
    Some(GraphqlError {
        message: first.get("message").and_then(|m| m.as_str()).map(str::to_string),
        code: first
            .get("extensions")
            .and_then(|e| e.get("code"))
            .and_then(|c| c.as_str())
            .map(str::to_string),
    })
}

fn action(attempt: u32, status: u16, body: &str, session: bool) -> ResponseAction {
    response_action(attempt, first_error(body).as_ref(), session, (200..300).contains(&status))
}

#[test]
fn http_mode_sends_bearer_and_accepts_success() {
    assert_eq!(action(1, 200, "{\"data\":{\"user\":{\"id\":\"u1\"}}}", false), ResponseAction::Accept);
}

#[test]
fn http_mode_errors_on_graphql_errors_key() {
    assert_eq!(
        action(1, 200, "{\"errors\":[{\"message\":\"nope\"}]}", false),
        ResponseAction::FailWithError("graphql error: nope".to_string())
    );
}

#[test]
fn http_mode_formats_graphql_error_with_code() {
    let body = "{\"errors\":[{\"extensions\":{\"code\":\"BAD_USER_INPUT\"},\"message\":\"Value does not exist\"}]}";
    match action(1, 400, body, false) {
        ResponseAction::FailWithError(err) => {
            assert!(err.contains("graphql error (BAD_USER_INPUT): Value does not exist"));
        }
        other => panic!("the error of the service was passed over: {other:?}"),
    }
}

#[test]
fn http_mode_errors_on_http_status() {
    assert_eq!(action(1, 401, "{\"data\":null}", false), ResponseAction::FailHttpStatus);
}

#[test]
fn http_mode_refreshes_token_on_unauthenticated_and_retries_once() {
    let expired =
        "{\"errors\":[{\"extensions\":{\"code\":\"UNAUTHENTICATED\"},\"message\":\"User is not authenticated\"}]}";
    assert_eq!(action(1, 401, expired, true), ResponseAction::RefreshAndRetry);
    assert_eq!(token_from_text("refreshed_token"), Some("refreshed_token".to_string()));
    assert_eq!(action(2, 200, "{\"data\":{\"user\":{\"id\":\"u1\"}}}", true), ResponseAction::Accept);
    assert_eq!(action(2, 401, expired, true), ResponseAction::FailUnauthenticated);
    assert_eq!(action(1, 401, expired, false), ResponseAction::FailUnauthenticated);
}

#[test]
fn load_token_rejects_empty_file() {
    assert_eq!(token_from_text("\n"), None);
}

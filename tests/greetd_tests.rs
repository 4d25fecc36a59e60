use mflm::greetd::{auth_reply, start_reply, AuthFailure, LoginStep, Reply};

#[test]
fn secret_prompt_starts_strictly() {
    assert_eq!(auth_reply(Reply::AuthMessage { secret: true }), LoginStep::StartSession { strict: true });
}

#[test]
fn other_prompt_is_wrong_username() {
    assert_eq!(auth_reply(Reply::AuthMessage { secret: false }), LoginStep::Failed(AuthFailure::WrongUsername));
}

#[test]
fn immediate_success_starts_leniently() {
    assert_eq!(auth_reply(Reply::Success), LoginStep::StartSession { strict: false });
}

#[test]
fn error_reply_fails() {
    assert_eq!(auth_reply(Reply::Error), LoginStep::Failed(AuthFailure::UnknownResponse));
}

#[test]
fn strict_start_needs_success() {
    assert_eq!(start_reply(true, Reply::Success), LoginStep::Succeeded);
    assert_eq!(start_reply(true, Reply::Error), LoginStep::Failed(AuthFailure::WrongPassword));
    assert_eq!(
        start_reply(true, Reply::AuthMessage { secret: true }),
        LoginStep::Failed(AuthFailure::WrongPassword)
    );
}

#[test]
fn lenient_start_always_succeeds() {
    assert_eq!(start_reply(false, Reply::Error), LoginStep::Succeeded);
    assert_eq!(start_reply(false, Reply::Success), LoginStep::Succeeded);
}

#[test]
fn failure_messages() {
    assert_eq!(AuthFailure::WrongUsername.message(), "wrong username");
    assert_eq!(AuthFailure::WrongPassword.message(), "wrong username or password");
    assert_eq!(AuthFailure::UnknownResponse.message(), "unknown greetd response");
}

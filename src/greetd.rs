use vstd::prelude::*;

verus! {

/// A reply of the authentication service, as far as a login reads it.
#[derive(Clone, Copy, Debug, PartialEq, Eq, Structural)]
pub enum Reply {
    Success,
    Error,
    /// A prompt; `secret` tells a prompt for a secret from any other kind.
    AuthMessage { secret: bool },
}

/// Why a login was refused.
#[derive(Clone, Copy, Debug, PartialEq, Eq, Structural)]
pub enum AuthFailure {
    /// The first prompt asked for something other than a secret.
    WrongUsername,
    /// Starting the session was refused after the secret was given.
    WrongPassword,
    /// The reply to the secret was neither a success nor a prompt.
    UnknownResponse,
}

/// What a login does next.
#[derive(Clone, Copy, Debug, PartialEq, Eq, Structural)]
pub enum LoginStep {
    /// Ask to start the session, and pass the reply to `start_reply` with
    /// this `strict`.
    StartSession { strict: bool },
    Succeeded,
    Failed(AuthFailure),
}

/// The step after the reply to creating the session and posting the
/// secret: a secret prompt or a success goes on to start the session; any
/// other prompt, or an error, fails.
pub fn auth_reply(reply: Reply) -> (s: LoginStep)
    ensures
        s == match reply {
            Reply::AuthMessage { secret: true } => LoginStep::StartSession { strict: true },
            Reply::AuthMessage { secret: false } => LoginStep::Failed(AuthFailure::WrongUsername),
            Reply::Success => LoginStep::StartSession { strict: false },
            Reply::Error => LoginStep::Failed(AuthFailure::UnknownResponse),
        },
{
    match reply {
        Reply::AuthMessage { secret } => if secret {
            LoginStep::StartSession { strict: true }
        } else {
            LoginStep::Failed(AuthFailure::WrongUsername)
        },
        Reply::Success => LoginStep::StartSession { strict: false },
        Reply::Error => LoginStep::Failed(AuthFailure::UnknownResponse),
    }
}

/// The step after the reply to starting the session: after a secret prompt
/// (`strict`) only a success succeeds, an error or a second prompt fails;
/// otherwise the session was already granted and any reply succeeds.
pub fn start_reply(strict: bool, reply: Reply) -> (s: LoginStep)
    ensures
        s == if !strict || reply == Reply::Success {
            LoginStep::Succeeded
        } else {
            LoginStep::Failed(AuthFailure::WrongPassword)
        },
{
    if !strict {
        return LoginStep::Succeeded;
    }
    match reply {
        Reply::Success => LoginStep::Succeeded,
        Reply::Error | Reply::AuthMessage { .. } => LoginStep::Failed(AuthFailure::WrongPassword),
    }
}

impl AuthFailure {
    /// The words shown for the failure.
    pub fn message(&self) -> (m: &'static str)
        ensures
            *self == AuthFailure::WrongUsername ==> m@ == "wrong username"@,
            *self == AuthFailure::WrongPassword ==> m@ == "wrong username or password"@,
            *self == AuthFailure::UnknownResponse ==> m@ == "unknown greetd response"@,
    {
        match self {
            AuthFailure::WrongUsername => "wrong username",
            AuthFailure::WrongPassword => "wrong username or password",
            AuthFailure::UnknownResponse => "unknown greetd response",
        }
    }
}

} // verus!

//! The decisions of the trading-platform producer: when to load
//! credentials, log in and subscribe to the profit stream, and when to give
//! up. The caller performs each action and reports what came of it.
use vstd::prelude::*;

verus! {

#[derive(Debug, Clone, Copy, PartialEq, Eq, Structural)]
pub enum XtbLink {
    Disconnected,
    Connected,
}

/// What the caller observed.
#[derive(Debug, Clone, Copy, PartialEq, Eq, Structural)]
pub enum XtbEvent {
    /// The polling interval elapsed.
    Tick,
    NoCredentials,
    CredentialsFound,
    LoggedIn,
    LoginFailed,
    Subscribed,
    SubscribeFailed,
}

/// What the caller does next.
#[derive(Debug, Clone, Copy, PartialEq, Eq, Structural)]
pub enum XtbAction {
    LoadCredentials,
    Login,
    /// Subscribe to the profit and keep-alive streams.
    Subscribe,
    /// Wait for the next tick.
    Wait,
    /// Stop the producer.
    Stop,
}

pub open spec fn xtb_step_spec(link: XtbLink, e: XtbEvent) -> (XtbLink, XtbAction) {
    match e {
        XtbEvent::Tick => match link {
            XtbLink::Disconnected => (link, XtbAction::LoadCredentials),
            XtbLink::Connected => (link, XtbAction::Subscribe),
        },
        XtbEvent::NoCredentials => (XtbLink::Disconnected, XtbAction::Wait),
        XtbEvent::CredentialsFound => (XtbLink::Disconnected, XtbAction::Login),
        XtbEvent::LoggedIn => (XtbLink::Connected, XtbAction::Subscribe),
        XtbEvent::LoginFailed => (XtbLink::Disconnected, XtbAction::Stop),
        XtbEvent::Subscribed => (XtbLink::Connected, XtbAction::Wait),
        XtbEvent::SubscribeFailed => (XtbLink::Disconnected, XtbAction::Wait),
    }
}

/// The next link state and action after event `e`. A failed login stops
/// the producer; a failed subscription drops the session, and the next tick
/// logs in again.
pub fn xtb_step(link: XtbLink, e: XtbEvent) -> (r: (XtbLink, XtbAction))
    ensures
        r == xtb_step_spec(link, e),
{
    match e {
        XtbEvent::Tick => match link {
            XtbLink::Disconnected => (link, XtbAction::LoadCredentials),
            XtbLink::Connected => (link, XtbAction::Subscribe),
        },
        XtbEvent::NoCredentials => (XtbLink::Disconnected, XtbAction::Wait),
        XtbEvent::CredentialsFound => (XtbLink::Disconnected, XtbAction::Login),
        XtbEvent::LoggedIn => (XtbLink::Connected, XtbAction::Subscribe),
        XtbEvent::LoginFailed => (XtbLink::Disconnected, XtbAction::Stop),
        XtbEvent::Subscribed => (XtbLink::Connected, XtbAction::Wait),
        XtbEvent::SubscribeFailed => (XtbLink::Disconnected, XtbAction::Wait),
    }
}

} // verus!

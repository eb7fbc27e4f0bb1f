//! The verification of one candidate relay: connect a tunnel through it, probe
//! the egress address, and judge the address. Each stage is run outside the
//! library under a deadline; the library decides, from what each stage
//! reported, what comes next.

use vstd::prelude::*;

verus! {

/// Whether a regular expression matches somewhere in a text; `None` where the
/// pattern does not compile.
pub uninterp spec fn regex_matches(pattern: Seq<char>, text: Seq<char>) -> Option<bool>;

#[verifier::external_type_specification]
#[verifier::external_body]
pub struct ExRegexError(regex::Error);

/// Relies on `regex::Regex::new` to compile the pattern and on
/// `Regex::is_match` to search the text.
#[verifier::external_body]
fn regex_is_match(pattern: &str, text: &str) -> (r: Result<bool, regex::Error>)
    ensures
        match r {
            Ok(b) => regex_matches(pattern@, text@) == Some(b),
            Err(_) => regex_matches(pattern@, text@) is None,
        },
{
    match regex::Regex::new(pattern) {
        Ok(re) => Ok(re.is_match(text)),
        Err(e) => Err(e),
    }
}

/// The form of an IPv4 address in dotted-quad notation: four groups of one to
/// three digits, and nothing else.
pub const IP_PATTERN: &'static str = "^\\d{1,3}\\.\\d{1,3}\\.\\d{1,3}\\.\\d{1,3}$";

/// Why a candidate was not verified.
#[derive(Clone, Debug)]
pub enum VerifyError {
    /// The tunnel was not ready before the deadline.
    ConnectTimeout,
    /// The tunnel could not be set up; the text says why.
    ConnectFailed(String),
    /// The egress probe did not answer before the deadline.
    ProbeTimeout,
    /// The egress probe failed; the text says why.
    ProbeFailed(String),
    /// The egress address is the one seen before the tunnel: it had no effect.
    NoIPChange,
    /// The probe returned something that is not a dotted-quad address.
    MalformedIP,
}

/// The verdict on an address that the probe returned through the tunnel.
pub open spec fn ip_verdict(initial: Seq<char>, probed: Seq<char>, well_formed: bool) -> Result<
    (),
    VerifyError,
> {
    if probed == initial {
        Err(VerifyError::NoIPChange)
    } else if !well_formed {
        Err(VerifyError::MalformedIP)
    } else {
        Ok(())
    }
}

/// Judges a probed address, given whether it has the form of an address.
pub fn judge_new_ip(initial_ip: &String, new_ip: &String, well_formed: bool) -> (r: Result<
    (),
    VerifyError,
>)
    ensures
        r == ip_verdict(initial_ip@, new_ip@, well_formed),
{
    if *new_ip == *initial_ip {
        Err(VerifyError::NoIPChange)
    } else if !well_formed {
        Err(VerifyError::MalformedIP)
    } else {
        Ok(())
    }
}

/// Whether a text has the form of a dotted-quad address.
pub open spec fn ip_well_formed(text: Seq<char>) -> bool {
    regex_matches(IP_PATTERN@, text) == Some(true)
}

/// Judges a probed address: it must differ from the initial one and have the
/// form of a dotted-quad address.
pub fn check_new_ip(initial_ip: &String, new_ip: &String) -> (r: Result<(), VerifyError>)
    ensures
        r == ip_verdict(initial_ip@, new_ip@, ip_well_formed(new_ip@)),
{
    let well_formed = match regex_is_match(IP_PATTERN, new_ip.as_str()) {
        Ok(b) => b,
        Err(_) => false,
    };
    judge_new_ip(initial_ip, new_ip, well_formed)
}

/// Where one verification stands.
#[derive(Clone, Copy, Debug, PartialEq, Eq, Structural)]
pub enum Stage {
    /// The tunnel is being set up.
    Connecting,
    /// The tunnel is up; the egress address is being probed.
    Probing,
    /// The verification has ended.
    Done,
}

/// What a stage run outside the library reported.
#[derive(Clone, Debug)]
pub enum VerifyEvent {
    /// The tunnel client reported that it is ready.
    Connected,
    /// The tunnel could not be set up; the text says why.
    ConnectFailed(String),
    /// The deadline of the connect stage passed.
    ConnectTimedOut,
    /// The probe returned this address.
    Probed(String),
    /// The probe failed; the text says why.
    ProbeFailed(String),
    /// The deadline of the probe stage passed.
    ProbeTimedOut,
}

/// What the caller does next.
#[derive(Clone, Debug)]
pub enum VerifyAction {
    /// Probe the egress address, under the stage's deadline.
    StartProbe,
    /// Terminate the tunnel clients, then report this verified address; a
    /// failure of the termination does not undo the result.
    Succeed(String),
    /// Report this failure; the tunnel is left to the termination that ends
    /// the pass.
    Fail(VerifyError),
    /// The event does not belong to this stage; nothing to do.
    Ignore,
}

/// The next stage and the action, from a stage and an event.
pub open spec fn next_step(stage: Stage, initial: Seq<char>, event: VerifyEvent) -> (
    Stage,
    VerifyAction,
) {
    match (stage, event) {
        (Stage::Connecting, VerifyEvent::Connected) => (Stage::Probing, VerifyAction::StartProbe),
        (Stage::Connecting, VerifyEvent::ConnectFailed(why)) => (
            Stage::Done,
            VerifyAction::Fail(VerifyError::ConnectFailed(why)),
        ),
        (Stage::Connecting, VerifyEvent::ConnectTimedOut) => (
            Stage::Done,
            VerifyAction::Fail(VerifyError::ConnectTimeout),
        ),
        (Stage::Probing, VerifyEvent::Probed(ip)) => (
            Stage::Done,
            match ip_verdict(initial, ip@, ip_well_formed(ip@)) {
                Ok(()) => VerifyAction::Succeed(ip),
                Err(e) => VerifyAction::Fail(e),
            },
        ),
        (Stage::Probing, VerifyEvent::ProbeFailed(why)) => (
            Stage::Done,
            VerifyAction::Fail(VerifyError::ProbeFailed(why)),
        ),
        (Stage::Probing, VerifyEvent::ProbeTimedOut) => (
            Stage::Done,
            VerifyAction::Fail(VerifyError::ProbeTimeout),
        ),
        _ => (stage, VerifyAction::Ignore),
    }
}

/// One verification of a candidate: its position in the feed, the egress
/// address seen before any tunnel, and its stage.
#[derive(Clone, Debug)]
pub struct Verification {
    pub index: u16,
    pub initial_ip: String,
    pub stage: Stage,
}

impl Verification {
    /// A verification that starts by connecting the tunnel.
    pub fn new(index: u16, initial_ip: String) -> (r: Verification)
        ensures
            r.index == index,
            r.initial_ip == initial_ip,
            r.stage == Stage::Connecting,
    {
        Verification { index, initial_ip, stage: Stage::Connecting }
    }

    /// Takes what a stage reported, moves to the next stage and says what to do.
    pub fn step(&mut self, event: VerifyEvent) -> (a: VerifyAction)
        ensures
            final(self).index == old(self).index,
            final(self).initial_ip == old(self).initial_ip,
            (final(self).stage, a) == next_step(old(self).stage, old(self).initial_ip@, event),
    {
        match (self.stage, event) {
            (Stage::Connecting, VerifyEvent::Connected) => {
                self.stage = Stage::Probing;
                VerifyAction::StartProbe
            },
            (Stage::Connecting, VerifyEvent::ConnectFailed(why)) => {
                self.stage = Stage::Done;
                VerifyAction::Fail(VerifyError::ConnectFailed(why))
            },
            (Stage::Connecting, VerifyEvent::ConnectTimedOut) => {
                self.stage = Stage::Done;
                VerifyAction::Fail(VerifyError::ConnectTimeout)
            },
            (Stage::Probing, VerifyEvent::Probed(ip)) => {
                self.stage = Stage::Done;
                match check_new_ip(&self.initial_ip, &ip) {
                    Ok(()) => VerifyAction::Succeed(ip),
                    Err(e) => VerifyAction::Fail(e),
                }
            },
            (Stage::Probing, VerifyEvent::ProbeFailed(why)) => {
                self.stage = Stage::Done;
                VerifyAction::Fail(VerifyError::ProbeFailed(why))
            },
            (Stage::Probing, VerifyEvent::ProbeTimedOut) => {
                self.stage = Stage::Done;
                VerifyAction::Fail(VerifyError::ProbeTimeout)
            },
            _ => VerifyAction::Ignore,
        }
    }
}

/// A probed address equal to the initial one is rejected as no change, for
/// every address and whatever its form.
pub proof fn lemma_same_ip_rejected(initial: Seq<char>, probed: String)
    requires
        probed@ == initial,
    ensures
        next_step(Stage::Probing, initial, VerifyEvent::Probed(probed)) == (
            Stage::Done,
            VerifyAction::Fail(VerifyError::NoIPChange),
        ),
{
}

} // verus!

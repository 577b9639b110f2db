//! The ACME order as a state machine, and the record built from an issued
//! chain.
//!
//! The caller performs each action (network calls, token files, sleeps)
//! and reports what happened as an event; `AcmeOrder::step` decides what
//! comes next.
use vstd::prelude::*;
use crate::certificate::{without_name, Certificate, CertError};
use crate::host_config::copy_names;
use crate::pem::{first_block, first_block_text};
use crate::text::utf8;
use crate::x509::{pem_object_of, validity_of};

verus! {

/// First wait between two polls, in milliseconds.
pub const INITIAL_BACKOFF_MS: u64 = 1000;

/// Longest wait between two polls, in milliseconds.
pub const MAX_BACKOFF_MS: u64 = 10000;

/// Longest time spent polling in one phase, in milliseconds.
pub const PHASE_DEADLINE_MS: u64 = 120000;

/// The ACME directory an order is placed with.
#[derive(Debug, Clone, Copy, PartialEq, Eq, Structural)]
pub enum AcmeDirectory {
    LetsEncrypt,
    LetsEncryptStaging,
}

/// Why an order failed.
#[derive(Debug, Clone, Copy, PartialEq, Eq, Structural)]
pub enum AcmeErrorKind {
    /// A call to the directory failed.
    Network,
    /// An authorization became invalid.
    AuthorizationFailed,
    /// A phase polled past its deadline.
    Timeout,
    /// The directory refused to finalize the order.
    FinalizeRejected,
    /// Writing a token file or the record failed.
    Io,
    /// The issued chain did not give an installable record.
    ChainRefused,
}

/// The phase an order is in.
#[derive(Debug, Clone, Copy, PartialEq, Eq, Structural)]
pub enum AcmePhase {
    NewOrder,
    Authorizing,
    Finalizing,
    Download,
    Install,
    Done,
    Failed(AcmeErrorKind),
}

/// What the caller reports after performing an action.
#[derive(Debug, Clone, Copy, PartialEq, Eq, Structural)]
pub enum AcmeEvent {
    /// The order was created at the directory.
    OrderPlaced,
    /// Every authorization is valid.
    ValidationsConfirmed,
    /// Some authorization is still pending.
    ValidationsPending,
    /// The token files were written and each challenge was submitted.
    ChallengesSubmitted,
    /// Some authorization became invalid.
    AuthorizationInvalid,
    /// The certificate is not ready yet.
    CertificatePending,
    /// The certificate can be downloaded.
    CertificateReady,
    /// The directory refused the finalization.
    FinalizeRejected,
    /// The full chain was downloaded.
    Downloaded,
    /// The record was written.
    Installed,
    /// The downloaded chain does not give an installable record.
    ChainRefused,
    /// A call to the directory failed.
    NetworkError,
    /// A file could not be written.
    IoError,
}

/// What the caller does next.
#[derive(Debug, Clone, Copy, PartialEq, Eq, Structural)]
pub enum AcmeAction {
    /// Create the order for the identifiers.
    PlaceOrder,
    /// Wait this many milliseconds, then ask whether every authorization is valid.
    ConfirmAfter(u64),
    /// Write each authorization's token file, then submit its challenge.
    SubmitChallenges,
    /// Generate a key and finalize the order.
    Finalize,
    /// Wait this many milliseconds, then ask again for the certificate.
    PollCertificateAfter(u64),
    /// Download the full chain.
    Download,
    /// Build the record from the downloaded chain and write its file; the
    /// store picks it up when it next loads the routing table.
    Install,
    /// Nothing more to do.
    Stop,
}

/// An order in progress: its phase, the time spent polling in that phase,
/// and the next wait.
#[derive(Debug, Clone, Copy, PartialEq, Eq, Structural)]
pub struct AcmeOrder {
    pub phase: AcmePhase,
    pub phase_elapsed_ms: u64,
    pub backoff_ms: u64,
}

/// The next wait after one of `b` milliseconds: doubled, at most the cap.
pub open spec fn next_backoff(b: u64) -> u64 {
    if 2 * b > MAX_BACKOFF_MS {
        MAX_BACKOFF_MS
    } else {
        (2 * b) as u64
    }
}

/// A fresh phase: nothing spent polling yet.
pub open spec fn entered(p: AcmePhase) -> AcmeOrder {
    AcmeOrder { phase: p, phase_elapsed_ms: 0, backoff_ms: INITIAL_BACKOFF_MS }
}

/// A poll in the current phase: the order waits its backoff (then `poll`
/// happens), or fails with `Timeout` when that wait would pass the deadline.
pub open spec fn poll_again(o: AcmeOrder, poll: AcmeAction) -> (AcmeOrder, AcmeAction) {
    if o.phase_elapsed_ms + o.backoff_ms > PHASE_DEADLINE_MS {
        (entered(AcmePhase::Failed(AcmeErrorKind::Timeout)), AcmeAction::Stop)
    } else {
        (
            AcmeOrder {
                phase: o.phase,
                phase_elapsed_ms: (o.phase_elapsed_ms + o.backoff_ms) as u64,
                backoff_ms: next_backoff(o.backoff_ms),
            },
            poll,
        )
    }
}

/// The transition table of an order.
pub open spec fn step_spec(o: AcmeOrder, e: AcmeEvent) -> (AcmeOrder, AcmeAction) {
    match (o.phase, e) {
        (AcmePhase::Done, _) | (AcmePhase::Failed(_), _) => (o, AcmeAction::Stop),
        (_, AcmeEvent::NetworkError) => (entered(AcmePhase::Failed(AcmeErrorKind::Network)), AcmeAction::Stop),
        (_, AcmeEvent::IoError) => (entered(AcmePhase::Failed(AcmeErrorKind::Io)), AcmeAction::Stop),
        (AcmePhase::NewOrder, AcmeEvent::OrderPlaced) => (entered(AcmePhase::Authorizing), AcmeAction::ConfirmAfter(0)),
        (AcmePhase::Authorizing, AcmeEvent::ValidationsConfirmed) => (entered(AcmePhase::Finalizing), AcmeAction::Finalize),
        (AcmePhase::Authorizing, AcmeEvent::ValidationsPending) => (o, AcmeAction::SubmitChallenges),
        (AcmePhase::Authorizing, AcmeEvent::ChallengesSubmitted) => poll_again(o, AcmeAction::ConfirmAfter(o.backoff_ms)),
        (AcmePhase::Authorizing, AcmeEvent::AuthorizationInvalid) => (
            entered(AcmePhase::Failed(AcmeErrorKind::AuthorizationFailed)),
            AcmeAction::Stop,
        ),
        (AcmePhase::Finalizing, AcmeEvent::CertificatePending) => poll_again(o, AcmeAction::PollCertificateAfter(o.backoff_ms)),
        (AcmePhase::Finalizing, AcmeEvent::CertificateReady) => (entered(AcmePhase::Download), AcmeAction::Download),
        (AcmePhase::Finalizing, AcmeEvent::FinalizeRejected) => (
            entered(AcmePhase::Failed(AcmeErrorKind::FinalizeRejected)),
            AcmeAction::Stop,
        ),
        (AcmePhase::Download, AcmeEvent::Downloaded) => (entered(AcmePhase::Install), AcmeAction::Install),
        (AcmePhase::Install, AcmeEvent::Installed) => (entered(AcmePhase::Done), AcmeAction::Stop),
        (AcmePhase::Install, AcmeEvent::ChainRefused) => (
            entered(AcmePhase::Failed(AcmeErrorKind::ChainRefused)),
            AcmeAction::Stop,
        ),
        _ => (o, AcmeAction::Stop),
    }
}

impl AcmeOrder {
    /// Polling bounds hold: the backoff lies between its initial value and
    /// its cap, and the time spent stays within the deadline.
    pub open spec fn wf(&self) -> bool {
        &&& INITIAL_BACKOFF_MS <= self.backoff_ms <= MAX_BACKOFF_MS
        &&& self.phase_elapsed_ms <= PHASE_DEADLINE_MS
    }

    /// A new order, with its first action.
    pub fn start() -> (r: (AcmeOrder, AcmeAction))
        ensures
            r.0 == entered(AcmePhase::NewOrder),
            r.1 == AcmeAction::PlaceOrder,
            r.0.wf(),
    {
        (AcmeOrder { phase: AcmePhase::NewOrder, phase_elapsed_ms: 0, backoff_ms: INITIAL_BACKOFF_MS }, AcmeAction::PlaceOrder)
    }

    fn enter(p: AcmePhase) -> (r: AcmeOrder)
        ensures
            r == entered(p),
    {
        AcmeOrder { phase: p, phase_elapsed_ms: 0, backoff_ms: INITIAL_BACKOFF_MS }
    }

    fn poll(&self, poll: AcmeAction) -> (r: (AcmeOrder, AcmeAction))
        requires
            self.wf(),
        ensures
            r == poll_again(*self, poll),
    {
        if self.phase_elapsed_ms + self.backoff_ms > PHASE_DEADLINE_MS {
            (AcmeOrder::enter(AcmePhase::Failed(AcmeErrorKind::Timeout)), AcmeAction::Stop)
        } else {
            let b = if 2 * self.backoff_ms > MAX_BACKOFF_MS {
                MAX_BACKOFF_MS
            } else {
                2 * self.backoff_ms
            };
            (
                AcmeOrder {
                    phase: self.phase,
                    phase_elapsed_ms: self.phase_elapsed_ms + self.backoff_ms,
                    backoff_ms: b,
                },
                poll,
            )
        }
    }

    /// The next state and action after an event.
    pub fn step(&self, e: AcmeEvent) -> (r: (AcmeOrder, AcmeAction))
        requires
            self.wf(),
        ensures
            r == step_spec(*self, e),
            r.0.wf(),
    {
        match (self.phase, e) {
            (AcmePhase::Done, _) | (AcmePhase::Failed(_), _) => (*self, AcmeAction::Stop),
            (_, AcmeEvent::NetworkError) => (AcmeOrder::enter(AcmePhase::Failed(AcmeErrorKind::Network)), AcmeAction::Stop),
            (_, AcmeEvent::IoError) => (AcmeOrder::enter(AcmePhase::Failed(AcmeErrorKind::Io)), AcmeAction::Stop),
            (AcmePhase::NewOrder, AcmeEvent::OrderPlaced) => (AcmeOrder::enter(AcmePhase::Authorizing), AcmeAction::ConfirmAfter(0)),
            (AcmePhase::Authorizing, AcmeEvent::ValidationsConfirmed) => (AcmeOrder::enter(AcmePhase::Finalizing), AcmeAction::Finalize),
            (AcmePhase::Authorizing, AcmeEvent::ValidationsPending) => (*self, AcmeAction::SubmitChallenges),
            (AcmePhase::Authorizing, AcmeEvent::ChallengesSubmitted) => self.poll(AcmeAction::ConfirmAfter(self.backoff_ms)),
            (AcmePhase::Authorizing, AcmeEvent::AuthorizationInvalid) => (
                AcmeOrder::enter(AcmePhase::Failed(AcmeErrorKind::AuthorizationFailed)),
                AcmeAction::Stop,
            ),
            (AcmePhase::Finalizing, AcmeEvent::CertificatePending) => self.poll(AcmeAction::PollCertificateAfter(self.backoff_ms)),
            (AcmePhase::Finalizing, AcmeEvent::CertificateReady) => (AcmeOrder::enter(AcmePhase::Download), AcmeAction::Download),
            (AcmePhase::Finalizing, AcmeEvent::FinalizeRejected) => (
                AcmeOrder::enter(AcmePhase::Failed(AcmeErrorKind::FinalizeRejected)),
                AcmeAction::Stop,
            ),
            (AcmePhase::Download, AcmeEvent::Downloaded) => (AcmeOrder::enter(AcmePhase::Install), AcmeAction::Install),
            (AcmePhase::Install, AcmeEvent::Installed) => (AcmeOrder::enter(AcmePhase::Done), AcmeAction::Stop),
            (AcmePhase::Install, AcmeEvent::ChainRefused) => (
                AcmeOrder::enter(AcmePhase::Failed(AcmeErrorKind::ChainRefused)),
                AcmeAction::Stop,
            ),
            _ => (*self, AcmeAction::Stop),
        }
    }
}

/// Staging orders go to the staging directory, the others to production.
pub fn directory_for(staging: bool) -> (r: AcmeDirectory)
    ensures
        r == if staging {
            AcmeDirectory::LetsEncryptStaging
        } else {
            AcmeDirectory::LetsEncrypt
        },
{
    if staging {
        AcmeDirectory::LetsEncryptStaging
    } else {
        AcmeDirectory::LetsEncrypt
    }
}

/// The identifiers of an order: the domain, then each alias in order.
pub fn order_identifiers(domain: &String, aliases: &Vec<String>) -> (r: Vec<String>)
    ensures
        r@ == seq![*domain] + aliases@,
{
    let mut r: Vec<String> = Vec::new();
    r.push(domain.clone());
    let mut rest = copy_names(aliases);
    r.append(&mut rest);
    assert(r@ =~= seq![*domain] + aliases@);
    r
}

/// The aliases to renew a record with: its own, or none when it has none;
/// `None` when there is no record to renew.
pub fn renewal_aliases(found: Option<&Certificate>) -> (r: Option<Vec<String>>)
    ensures
        match found {
            None => r.is_none(),
            Some(c) => r matches Some(v) && v@ == c.aliases(),
        },
{
    match found {
        None => None,
        Some(c) => match &c.host_names {
            Some(v) => Some(copy_names(v)),
            None => Some(Vec::new()),
        },
    }
}

/// Why an issued chain cannot be installed.
#[derive(Debug, Clone, Copy, PartialEq, Eq, Structural)]
pub enum IssueError {
    /// The domain is empty.
    EmptyDomain,
    /// The chain holds no complete certificate block.
    NoCertificate,
    /// The leaf cannot be read.
    Unreadable(CertError),
    /// The leaf is not valid at the time of installation.
    NotCurrentlyValid,
}

/// The validity window of the certificate in a PEM block.
pub open spec fn block_validity(block: Seq<u8>) -> Result<(i64, i64), CertError> {
    match pem_object_of(block) {
        None => Err(CertError::MalformedPem),
        Some(o) => match validity_of(o.1) {
            None => Err(CertError::InvalidCertificate),
            Some(v) => Ok(v),
        },
    }
}

/// The record built from an issued chain and its key, checked to be valid
/// at time `now`: the leaf is the chain's first block, and the aliases are
/// the order's aliases without the domain.
pub fn issued_record(domain: &String, aliases: &Vec<String>, chain: String, private_key: String, now: i64) -> (r: Result<Certificate, IssueError>)
    ensures
        domain@.len() == 0 ==> r == Err::<Certificate, IssueError>(IssueError::EmptyDomain),
        domain@.len() > 0 && first_block(utf8(chain@)).is_none() ==> r == Err::<Certificate, IssueError>(IssueError::NoCertificate),
        domain@.len() > 0 && first_block(utf8(chain@)).is_some() ==> match block_validity(
            first_block(utf8(chain@)).unwrap(),
        ) {
            Err(e) => r == Err::<Certificate, IssueError>(IssueError::Unreadable(e)),
            Ok(v) => if v.0 <= now <= v.1 {
                r is Ok
            } else {
                r == Err::<Certificate, IssueError>(IssueError::NotCurrentlyValid)
            },
        },
        match r {
            Ok(c) => {
                &&& c.wf()
                &&& c.host_name == *domain
                &&& c.host_names matches Some(v) && v@ == without_name(aliases@, *domain)
                &&& c.private_key_pem == Some(private_key)
                &&& c.full_chain == Some(chain)
                &&& c.certificate_pem matches Some(p) && first_block(utf8(chain@)) == Some(utf8(p@))
                &&& c.host_config.is_none()
                &&& c.validity() matches Ok(v) && v.0 <= now <= v.1
            },
            Err(_) => true,
        },
{
    if domain.as_str().is_empty() {
        return Err(IssueError::EmptyDomain);
    }
    let leaf = match first_block_text(chain.as_str()) {
        None => return Err(IssueError::NoCertificate),
        Some(t) => t.to_owned(),
    };
    let mut c = Certificate::new(domain.clone());
    c.set_private_key(private_key);
    c.set_certificate(leaf);
    c.set_host_names(copy_names(aliases));
    c.set_full_chain(chain);
    match c.get_valid_from_unix_timestamp() {
        Err(e) => Err(IssueError::Unreadable(e)),
        Ok(from) => match c.get_valid_until_unix_timestamp() {
            Err(e) => Err(IssueError::Unreadable(e)),
            Ok(until) => if from <= now && now <= until {
                Ok(c)
            } else {
                Err(IssueError::NotCurrentlyValid)
            },
        },
    }
}

} // verus!

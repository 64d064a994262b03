//! Notification routing: events, severities, channels, and their
//! resolution.  Delivery itself is a transport concern and lives
//! outside the library.

use vstd::prelude::*;
use vstd::string::StringExecFns;

verus! {

/// Severity of a notification event.
pub enum Severity {
    Critical,
    Warning,
    Recovery,
}

/// What happened.
pub enum NotifyEvent {
    RehearsalFatalError,
    ProviderVerificationFailed,
    PolicyViolation,
    BaselineDrift,
    RehearsalRecovered,
}

/// The fixed severity of each event.
pub open spec fn spec_severity(e: &NotifyEvent) -> Severity {
    match e {
        NotifyEvent::RehearsalFatalError => Severity::Critical,
        NotifyEvent::ProviderVerificationFailed => Severity::Critical,
        NotifyEvent::PolicyViolation => Severity::Warning,
        NotifyEvent::BaselineDrift => Severity::Warning,
        NotifyEvent::RehearsalRecovered => Severity::Recovery,
    }
}

/// The wire form of a severity.
pub open spec fn severity_name(s: Severity) -> Seq<char> {
    match s {
        Severity::Critical => ("CRITICAL")@,
        Severity::Warning => ("WARNING")@,
        Severity::Recovery => ("RECOVERY")@,
    }
}

/// The human-readable label of an event.
pub open spec fn event_label(e: &NotifyEvent) -> Seq<char> {
    match e {
        NotifyEvent::RehearsalFatalError => ("Rehearsal Fatal Error")@,
        NotifyEvent::ProviderVerificationFailed => ("Provider Verification Failed")@,
        NotifyEvent::PolicyViolation => ("Policy Violation")@,
        NotifyEvent::BaselineDrift => ("Baseline Drift Detected")@,
        NotifyEvent::RehearsalRecovered => ("Rehearsal Recovered")@,
    }
}

impl NotifyEvent {
    /// The fixed severity of each event.
    pub fn severity(&self) -> (s: Severity)
        ensures
            s == spec_severity(self),
    {
        match self {
            NotifyEvent::RehearsalFatalError => Severity::Critical,
            NotifyEvent::ProviderVerificationFailed => Severity::Critical,
            NotifyEvent::PolicyViolation => Severity::Warning,
            NotifyEvent::BaselineDrift => Severity::Warning,
            NotifyEvent::RehearsalRecovered => Severity::Recovery,
        }
    }

    /// The human-readable label of each event.
    pub fn label(&self) -> (r: &'static str)
        ensures
            r@ == event_label(self),
    {
        match self {
            NotifyEvent::RehearsalFatalError => "Rehearsal Fatal Error",
            NotifyEvent::ProviderVerificationFailed => "Provider Verification Failed",
            NotifyEvent::PolicyViolation => "Policy Violation",
            NotifyEvent::BaselineDrift => "Baseline Drift Detected",
            NotifyEvent::RehearsalRecovered => "Rehearsal Recovered",
        }
    }
}

impl Severity {
    /// The wire form of the severity.
    pub fn name(&self) -> (r: &'static str)
        ensures
            r@ == severity_name(*self),
    {
        match self {
            Severity::Critical => "CRITICAL",
            Severity::Warning => "WARNING",
            Severity::Recovery => "RECOVERY",
        }
    }
}

/// The event a finished rehearsal reports: a policy violation first,
/// then drift, else recovery.
pub fn summary_event(policy_violated: bool, baseline_drift: bool) -> (e: NotifyEvent)
    ensures
        policy_violated ==> e == NotifyEvent::PolicyViolation,
        !policy_violated && baseline_drift ==> e == NotifyEvent::BaselineDrift,
        !policy_violated && !baseline_drift ==> e == NotifyEvent::RehearsalRecovered,
{
    if policy_violated {
        NotifyEvent::PolicyViolation
    } else if baseline_drift {
        NotifyEvent::BaselineDrift
    } else {
        NotifyEvent::RehearsalRecovered
    }
}

// ------------------------------------------------------------------
// Email configuration
// ------------------------------------------------------------------

/// Which email backend a channel uses.
pub enum EmailProvider {
    Smtp,
    Sendgrid,
}

impl EmailProvider {
    /// The configuration name of the backend.
    pub fn name(&self) -> (r: &'static str)
        ensures
            r@ == match self {
                EmailProvider::Smtp => ("smtp")@,
                EmailProvider::Sendgrid => ("sendgrid")@,
            },
    {
        match self {
            EmailProvider::Smtp => "smtp",
            EmailProvider::Sendgrid => "sendgrid",
        }
    }
}

/// How the SMTP password is supplied: a literal value or the name of
/// an environment variable.
pub struct SmtpPasswordSource {
    pub value: Option<String>,
    pub env: Option<String>,
}

/// Email delivery configuration attached to a channel.
pub struct EmailConfig {
    pub provider: EmailProvider,
    pub smtp_host: Option<String>,
    pub smtp_port: Option<u16>,
    pub smtp_username: Option<String>,
    pub smtp_password: SmtpPasswordSource,
    pub smtp_starttls: bool,
    pub sendgrid_api_key: Option<String>,
    pub sendgrid_api_key_env: Option<String>,
    pub from: String,
    pub to: Vec<String>,
}

/// A named notify channel: a webhook, an email transport, or both.
pub struct NotifyChannel {
    pub name: String,
    pub url: Option<String>,
    pub secret: Option<String>,
    pub email: Option<EmailConfig>,
}

impl NotifyChannel {
    /// A short description of the transports this channel uses.
    pub fn transport_label(&self) -> (r: String)
        ensures
            r@ == match (&self.url, &self.email) {
                (Some(_), Some(e)) => match e.provider {
                    EmailProvider::Smtp => ("webhook + email (smtp)")@,
                    EmailProvider::Sendgrid => ("webhook + email (sendgrid)")@,
                },
                (Some(_), None) => ("webhook")@,
                (None, Some(e)) => match e.provider {
                    EmailProvider::Smtp => ("email (smtp)")@,
                    EmailProvider::Sendgrid => ("email (sendgrid)")@,
                },
                (None, None) => ("none")@,
            },
    {
        match (&self.url, &self.email) {
            (Some(_), Some(e)) => match e.provider {
                EmailProvider::Smtp => String::from_str("webhook + email (smtp)"),
                EmailProvider::Sendgrid => String::from_str("webhook + email (sendgrid)"),
            },
            (Some(_), None) => String::from_str("webhook"),
            (None, Some(e)) => match e.provider {
                EmailProvider::Smtp => String::from_str("email (smtp)"),
                EmailProvider::Sendgrid => String::from_str("email (sendgrid)"),
            },
            (None, None) => String::from_str("none"),
        }
    }
}

/// The payload posted to a webhook.
pub struct WebhookPayload {
    pub source: String,
    pub severity: String,
    pub event: String,
    pub stack: String,
    pub message: String,
    pub timestamp: String,
}

/// Build the payload for one event.
pub fn webhook_payload(event: &NotifyEvent, stack: &String, message: &String, timestamp: &String) -> (p:
    WebhookPayload)
    ensures
        p.source@ == ("rehearsa")@,
        p.severity@ == severity_name(spec_severity(event)),
        p.event@ == event_label(event),
        p.stack@ == stack@,
        p.message@ == message@,
        p.timestamp@ == timestamp@,
{
    WebhookPayload {
        source: String::from_str("rehearsa"),
        severity: String::from_str(event.severity().name()),
        event: String::from_str(event.label()),
        stack: stack.clone(),
        message: message.clone(),
        timestamp: timestamp.clone(),
    }
}

// ------------------------------------------------------------------
// Channel registry
// ------------------------------------------------------------------

/// The stored channel registry: named channels and an optional
/// default.
pub struct NotifyRegistry {
    pub channels: Vec<(String, NotifyChannel)>,
    pub default_channel: Option<String>,
}

/// Find a channel by name.
pub fn find_channel<'a>(reg: &'a NotifyRegistry, name: &String) -> (r: Option<&'a NotifyChannel>)
    ensures
        r matches Some(c) ==> exists|i: int|
            0 <= i < reg.channels@.len() && (#[trigger] reg.channels@[i]).0@ == name@
                && reg.channels@[i].1 == *c,
        r is None ==> forall|i: int|
            0 <= i < reg.channels@.len() ==> (#[trigger] reg.channels@[i]).0@ != name@,
{
    let n = reg.channels.len();
    let mut i: usize = 0;
    while i < n
        invariant
            0 <= i <= n,
            n == reg.channels@.len(),
            forall|j: int| 0 <= j < i ==> (#[trigger] reg.channels@[j]).0@ != name@,
        decreases n - i,
    {
        if reg.channels[i].0.eq(name) {
            return Some(&reg.channels[i].1);
        }
        i = i + 1;
    }
    None
}

/// Resolve the channel for a stack: the per-stack override first,
/// then the global default, else none.  The result is exactly the
/// lookup of the chosen name: a channel when the registry holds that
/// name, nothing when it does not.
pub fn resolve_channel<'a>(reg: &'a NotifyRegistry, per_stack: Option<&String>) -> (r: Option<
    &'a NotifyChannel,
>)
    ensures
        per_stack matches Some(n) ==> ((r matches Some(c) ==> exists|i: int|
            0 <= i < reg.channels@.len() && (#[trigger] reg.channels@[i]).0@ == n@
                && reg.channels@[i].1 == *c) && (r is None ==> forall|i: int|
            0 <= i < reg.channels@.len() ==> (#[trigger] reg.channels@[i]).0@ != n@)),
        per_stack is None ==> (reg.default_channel matches Some(d) ==> ((r matches Some(c)
            ==> exists|i: int|
            0 <= i < reg.channels@.len() && (#[trigger] reg.channels@[i]).0@ == d@
                && reg.channels@[i].1 == *c) && (r is None ==> forall|i: int|
            0 <= i < reg.channels@.len() ==> (#[trigger] reg.channels@[i]).0@ != d@))),
        per_stack is None && reg.default_channel is None ==> r is None,
{
    let name: &String = match per_stack {
        Some(n) => n,
        None => match &reg.default_channel {
            Some(d) => d,
            None => {
                return None;
            },
        },
    };
    find_channel(reg, name)
}

/// Check an email channel's settings as they are entered: the rules
/// under which a configuration is accepted, stated exactly.
pub fn build_email_config(
    provider: EmailProvider,
    from: String,
    to: Vec<String>,
    smtp_host: Option<String>,
    smtp_port: Option<u16>,
    smtp_username: Option<String>,
    smtp_password: Option<String>,
    smtp_password_env: Option<String>,
    smtp_starttls: bool,
    sendgrid_api_key: Option<String>,
    sendgrid_api_key_env: Option<String>,
) -> (r: Result<EmailConfig, &'static str>)
    ensures
        r is Ok <==> to@.len() > 0 && !(smtp_password is Some && smtp_password_env is Some) && !(
        sendgrid_api_key is Some && sendgrid_api_key_env is Some) && (provider is Smtp
            ==> smtp_host is Some) && (provider is Sendgrid ==> sendgrid_api_key is Some
            || sendgrid_api_key_env is Some),
        r matches Ok(c) ==> c.provider == provider && c.from@ == from@ && c.to@ == to@
            && c.smtp_starttls == smtp_starttls,
{
    if to.len() == 0 {
        return Err("at least one recipient address is required");
    }
    if smtp_password.is_some() && smtp_password_env.is_some() {
        return Err("give the SMTP password directly or by environment variable, not both");
    }
    if sendgrid_api_key.is_some() && sendgrid_api_key_env.is_some() {
        return Err("give the API key directly or by environment variable, not both");
    }
    let smtp_needed = match provider {
        EmailProvider::Smtp => true,
        EmailProvider::Sendgrid => false,
    };
    if smtp_needed && smtp_host.is_none() {
        return Err("the SMTP backend needs a host");
    }
    if !smtp_needed && sendgrid_api_key.is_none() && sendgrid_api_key_env.is_none() {
        return Err("the HTTP API backend needs an API key");
    }
    Ok(
        EmailConfig {
            provider,
            smtp_host,
            smtp_port,
            smtp_username,
            smtp_password: SmtpPasswordSource { value: smtp_password, env: smtp_password_env },
            smtp_starttls,
            sendgrid_api_key,
            sendgrid_api_key_env,
            from,
            to,
        },
    )
}

} // verus!

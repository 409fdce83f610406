//! Command dispatch.
//!
//! Each invocation handles exactly one command. Dispatch is a pure
//! step: from the bootstrapped settings and the parsed command to the
//! settings to keep, whether they must be persisted first, and the one
//! outward effect (print a line, or send a single POST) that the
//! surrounding program performs.

use vstd::prelude::*;
use crate::codec::decode_path_spec;
use crate::codec::decode_target;
use crate::codec::resolve_spec;
use crate::codec::resolve_target;
use crate::settings::Settings;

verus! {

/// A parsed user command.
pub enum Command {
    /// Send the body as one log line to the current target.
    Log { body: String },
    /// Store the bearer token.
    Key { api_key: String },
    /// Resolve and store a new target.
    Target { target_file: String },
    /// Print the current target, decoded.
    GetTarget,
}

/// One HTTP POST, fully determined before anything is sent: url,
/// headers, body and timeout.
pub struct LogRequest {
    pub url: String,
    pub authorization: String,
    pub accept: String,
    pub content_type: String,
    pub body: String,
    pub target: String,
    pub timeout_secs: u64,
}

/// The fixed loopback endpoint every request goes to.
pub open spec fn base_url() -> Seq<char> {
    "http://127.0.0.1:27123"@
}

/// The request built for one log line: the stored target appended to
/// the fixed endpoint, a bearer credential from the stored key, fixed
/// accept and content-type headers, the literal body, and a three
/// second timeout.
pub open spec fn request_spec(
    req: LogRequest,
    api_key: Seq<char>,
    body: Seq<char>,
    target: Seq<char>,
) -> bool {
    &&& req.url@ == base_url() + target
    &&& req.authorization@ == "Bearer "@ + api_key
    &&& req.accept@ == "*/*"@
    &&& req.content_type@ == "text/markdown"@
    &&& req.body@ == body
    &&& req.target@ == target
    &&& req.timeout_secs == 3
}

/// What the remaining program must do after dispatch.
pub enum Effect {
    /// Print the target, send the request, print the raw response;
    /// a transport failure or timeout is fatal, with no retry.
    Send(LogRequest),
    /// Print the line and exit normally.
    Print(String),
    /// A stored path failed to decode: fatal.
    FailDecode,
}

/// The outcome of one dispatch: the settings to keep (saved to the
/// store first when `persist` is set; a failure to save is fatal) and
/// the effect to perform.
pub struct Step {
    pub settings: Settings,
    pub persist: bool,
    pub action: Effect,
}

/// The remediation hint printed when logging without a stored key.
pub open spec fn missing_key_hint() -> Seq<char> {
    "You need to set your api key with $ obs key <API_KEY>"@
}

/// Settings with the same contents.
pub open spec fn same_settings(a: Settings, b: Settings) -> bool {
    a.api_key.deep_view() == b.api_key.deep_view() && a.target_file@ == b.target_file@
}

/// What dispatch promises, command by command.
pub open spec fn dispatch_spec(s: Settings, cmd: Command, step: Step) -> bool {
    match cmd {
        Command::Log { body } => {
            &&& same_settings(step.settings, s)
            &&& !step.persist
            &&& match s.api_key {
                Some(k) => step.action matches Effect::Send(req) && request_spec(
                    req,
                    k@,
                    body@,
                    s.target_file@,
                ),
                None => step.action matches Effect::Print(m) && m@ == missing_key_hint(),
            }
        },
        Command::Key { api_key } => {
            &&& step.settings.api_key.deep_view() == Some(api_key@)
            &&& step.settings.target_file@ == s.target_file@
            &&& step.persist
            &&& step.action matches Effect::Print(m) && m@ == "Key saved"@
        },
        Command::Target { target_file } => {
            &&& step.settings.api_key.deep_view() == s.api_key.deep_view()
            &&& step.settings.target_file@ == resolve_spec(target_file@)
            &&& step.persist
            &&& decode_path_spec(resolve_spec(target_file@)) is Some
            &&& step.action matches Effect::Print(m) && m@ == decode_path_spec(
                resolve_spec(target_file@),
            ).unwrap() + " set to target file"@
        },
        Command::GetTarget => {
            &&& same_settings(step.settings, s)
            &&& !step.persist
            &&& match decode_path_spec(s.target_file@) {
                Some(d) => step.action matches Effect::Print(m) && m@ == d,
                None => step.action is FailDecode,
            }
        },
    }
}

/// Builds the one POST for a log line.
pub fn build_request(api_key: &str, body: String, target: &str) -> (req: LogRequest)
    ensures
        request_spec(req, api_key@, body@, target@),
{
    let mut url = String::from_str("http://127.0.0.1:27123");
    url.append(target);
    let mut authorization = String::from_str("Bearer ");
    authorization.append(api_key);
    LogRequest {
        url,
        authorization,
        accept: String::from_str("*/*"),
        content_type: String::from_str("text/markdown"),
        body,
        target: target.to_owned(),
        timeout_secs: 3,
    }
}

/// Maps one command, under the bootstrapped settings, to the settings
/// to keep and the effect to perform.
pub fn dispatch(settings: Settings, cmd: Command) -> (step: Step)
    ensures
        dispatch_spec(settings, cmd, step),
{
    match cmd {
        Command::Log { body } => {
            let Settings { api_key, target_file } = settings;
            match api_key {
                Some(k) => {
                    let req = build_request(k.as_str(), body, target_file.as_str());
                    Step {
                        settings: Settings { api_key: Some(k), target_file },
                        persist: false,
                        action: Effect::Send(req),
                    }
                },
                None => Step {
                    settings: Settings { api_key: None, target_file },
                    persist: false,
                    action: Effect::Print(
                        String::from_str("You need to set your api key with $ obs key <API_KEY>"),
                    ),
                },
            }
        },
        Command::Key { api_key } => Step {
            settings: Settings { api_key: Some(api_key), target_file: settings.target_file },
            persist: true,
            action: Effect::Print(String::from_str("Key saved")),
        },
        Command::Target { target_file } => {
            let resolved = resolve_target(target_file.as_str());
            let decoded = match decode_target(resolved.as_str()) {
                Some(d) => d,
                None => {
                    // Unreachable: whatever resolve_target returns decodes.
                    proof {
                        assert(false);
                    }
                    String::new()
                },
            };
            let msg = decoded.concat(" set to target file");
            Step {
                settings: Settings { api_key: settings.api_key, target_file: resolved },
                persist: true,
                action: Effect::Print(msg),
            }
        },
        Command::GetTarget => {
            match decode_target(settings.target_file.as_str()) {
                Some(d) => Step { settings, persist: false, action: Effect::Print(d) },
                None => Step { settings, persist: false, action: Effect::FailDecode },
            }
        },
    }
}

} // verus!

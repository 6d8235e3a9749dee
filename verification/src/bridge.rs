//! The managed bridge of the host, which may replace the output of direct tools.
//!
//! It is off until a session activates it with a nonce. It then trusts only a private
//! descriptor file that repeats the nonce, calls only loopback endpoints, and fails open.
use vstd::prelude::*;
use vstd::utf8::*;

use crate::endpoint;
use crate::items;
use crate::json;
use crate::post_tool_use;
use crate::post_tool_use::PostToolUseRequest;
use crate::reducer;
use crate::reducer::PostToolUseAcceptanceContext;
use crate::text;
use crate::transfer;

verus! {

/// Where the host says where its descriptor is.
pub const DESCRIPTOR_ENVIRONMENT_VARIABLE: &'static str = "PWRAGENT_TOKEN_MISER_BRIDGE_DESCRIPTOR_PATH";

/// Who writes the descriptor.
pub const IDENTITY: &'static str = "pwrdrvr.pwragent.token-miser";

/// Version of the descriptor and of the acceptance.
pub const PROTOCOL_VERSION: u32 = 1;

/// The largest descriptor that is read.
pub const MAX_DESCRIPTOR_BYTES: usize = 16384;

/// The largest request that is sent.
pub const MAX_REQUEST_BYTES: usize = 33554432;

/// The largest response that is read.
pub const MAX_RESPONSE_BYTES: usize = 2097152;

/// The largest replacement that is taken.
pub const MAX_REPLACEMENT_BYTES: usize = 4000;

/// The longest response identity that is taken, in characters.
pub const MAX_RESPONSE_ID_CHARACTERS: usize = 256;

/// The least number of bytes of a secret.
pub const MIN_SECRET_BYTES: usize = 32;

/// The value of a digit of URL-safe Base64.
pub open spec fn sextet(c: char) -> Option<nat> {
    if 'A' <= c <= 'Z' {
        Some((c as u32 - 65) as nat)
    } else if 'a' <= c <= 'z' {
        Some((c as u32 - 71) as nat)
    } else if '0' <= c <= '9' {
        Some((c as u32 + 4) as nat)
    } else if c == '-' {
        Some(62)
    } else if c == '_' {
        Some(63)
    } else {
        None
    }
}

/// Whether a text is URL-safe Base64 without padding: digits only, no group of a single digit,
/// and no stray bits in the last digit.
pub open spec fn is_base64url(t: Seq<char>) -> bool {
    &&& forall|i: int| 0 <= i < t.len() ==> sextet(#[trigger] t[i]) is Some
    &&& t.len() % 4 != 1
    &&& t.len() % 4 == 2 ==> sextet(t.last())->0 % 16 == 0
    &&& t.len() % 4 == 3 ==> sextet(t.last())->0 % 4 == 0
}

/// The byte at a place of decoded Base64.
pub open spec fn decoded_byte(t: Seq<char>, i: int) -> int {
    let group = 4 * (i / 3);
    let digit = |k: int| sextet(t[group + k])->0;
    if i % 3 == 0 {
        digit(0) * 4 + digit(1) as int / 16
    } else if i % 3 == 1 {
        (digit(1) as int % 16) * 16 + digit(2) as int / 4
    } else {
        (digit(2) as int % 4) * 64 + digit(3)
    }
}

/// Decodes URL-safe Base64 without padding.
///
/// Calls `base64`'s `Engine::decode` on its `URL_SAFE_NO_PAD` engine. The contract claims which
/// texts are decoded, and to which bytes.
#[verifier::external_body]
fn decode_base64url(secret: &str) -> (decoded: Option<Vec<u8>>)
    ensures
        decoded is Some <==> is_base64url(secret@),
        decoded matches Some(bytes) ==> bytes@.len() == secret@.len() * 3 / 4 && forall|i: int|
            0 <= i < bytes@.len() ==> #[trigger] bytes@[i] as int == decoded_byte(secret@, i),
{
    base64::Engine::decode(&base64::engine::general_purpose::URL_SAFE_NO_PAD, secret).ok()
}

/// The complaint about a secret, if there is one: it must be URL-safe Base64 without padding and
/// stand for at least 256 bits.
pub open spec fn secret_error(secret: Seq<char>, label: Seq<char>) -> Option<Seq<char>> {
    if !is_base64url(secret) {
        Some("Token Miser "@ + label + " must be unpadded base64url"@)
    } else if secret.len() * 3 / 4 < MIN_SECRET_BYTES {
        Some("Token Miser "@ + label + " must contain at least 256 bits"@)
    } else {
        None
    }
}

/// The complaint that a result carries, if there is one.
pub open spec fn complaint(r: Result<(), String>) -> Option<Seq<char>> {
    match r {
        Ok(_) => None,
        Err(error) => Some(error@),
    }
}

fn token_miser_error(subject: &str, problem: &str) -> (error: String)
    ensures
        error@ == "Token Miser "@ + subject@ + problem@,
{
    let mut error = "Token Miser ".to_string();
    error.append(subject);
    error.append(problem);
    error
}

/// Checks a secret.
pub fn validate_base64_secret(secret: &str, label: &str) -> (r: Result<(), String>)
    ensures
        complaint(r) == secret_error(secret@, label@),
{
    match decode_base64url(secret) {
        Some(bytes) => {
            if bytes.len() < MIN_SECRET_BYTES {
                Err(token_miser_error(label, " must contain at least 256 bits"))
            } else {
                Ok(())
            }
        },
        None => Err(token_miser_error(label, " must be unpadded base64url")),
    }
}

/// Checks an activation nonce.
pub fn validate_nonce(nonce: &str) -> (r: Result<(), String>)
    ensures
        complaint(r) == secret_error(nonce@, "activation nonce"@),
{
    validate_base64_secret(nonce, "activation nonce")
}

/// Checks a bearer token.
pub fn validate_token(token: &str) -> (r: Result<(), String>)
    ensures
        complaint(r) == secret_error(token@, "bearer token"@),
{
    validate_base64_secret(token, "bearer token")
}

/// Whether a text says something in no more than so many characters.
pub fn bounded_non_empty(value: &str, max_characters: usize) -> (yes: bool)
    ensures
        yes == (!text::blank(value@) && value@.len() <= max_characters),
{
    !text::is_blank(value) && value.unicode_len() <= max_characters
}

/// Whether a text says something in no more than so many bytes.
pub fn bounded_replacement(value: &str, max_bytes: usize) -> (yes: bool)
    ensures
        yes == (!text::blank(value@) && text::byte_len(value@) <= max_bytes),
{
    !text::is_blank(value) && text::byte_count(value) <= max_bytes
}

/// What comes of an endpoint of the descriptor: it must be loopback HTTP without credentials,
/// query or fragment.
pub open spec fn bridge_endpoint(
    parsed: Result<endpoint::UrlView, Seq<char>>,
    field: Seq<char>,
) -> Result<Seq<char>, Seq<char>> {
    match parsed {
        Ok(url) => if endpoint::is_loopback_http(url) && url.query is None && url.fragment is None {
            Ok(url.href)
        } else {
            Err("Token Miser "@ + field + " must be credential-free loopback HTTP"@)
        },
        Err(error) => Err("Token Miser "@ + field + " is malformed: "@ + error),
    }
}

/// The value of a text or of the complaint in its place.
pub open spec fn text_result(r: Result<String, String>) -> Result<Seq<char>, Seq<char>> {
    match r {
        Ok(t) => Ok(t@),
        Err(error) => Err(error@),
    }
}

/// What comes of a parsed endpoint of the descriptor.
pub fn bridge_address(parsed: Result<endpoint::UrlParts, String>, field: &str) -> (r: Result<String, String>)
    ensures
        text_result(r) == bridge_endpoint(endpoint::url_result(parsed), field@),
{
    match parsed {
        Ok(parts) => {
            if endpoint::check_loopback_http(&parts) && parts.query.is_none() && parts.fragment.is_none() {
                Ok(parts.href)
            } else {
                Err(token_miser_error(field, " must be credential-free loopback HTTP"))
            }
        },
        Err(problem) => {
            let mut error = token_miser_error(field, " is malformed: ");
            error.append(problem.as_str());
            Err(error)
        },
    }
}

/// What comes of an endpoint of the descriptor.
pub fn parse_loopback_endpoint(address: &str, field: &str) -> (r: Result<String, String>)
    ensures
        text_result(r) == bridge_endpoint(endpoint::parsed_url(address@), field@),
{
    bridge_address(endpoint::parse_url(address), field)
}

/// The descriptor as it is read.
#[derive(Debug)]
pub struct BridgeDescriptorWire {
    pub version: u32,
    pub identity: String,
    pub activation_nonce: String,
    pub url: String,
    pub acceptance_url: String,
    pub token: String,
}

/// A descriptor that belongs to this session and whose endpoints may be called.
#[derive(Debug)]
pub struct BridgeDescriptor {
    pub url: String,
    pub acceptance_url: String,
    pub token: String,
}

/// The value of a [`BridgeDescriptor`].
pub struct BridgeView {
    pub url: Seq<char>,
    pub acceptance_url: Seq<char>,
    pub token: Seq<char>,
}

impl View for BridgeDescriptor {
    type V = BridgeView;

    open spec fn view(&self) -> BridgeView {
        BridgeView { url: self.url@, acceptance_url: self.acceptance_url@, token: self.token@ }
    }
}

/// The value of a descriptor or of the complaint in its place.
pub open spec fn bridge_result(r: Result<BridgeDescriptor, String>) -> Result<BridgeView, Seq<char>> {
    match r {
        Ok(descriptor) => Ok(descriptor@),
        Err(error) => Err(error@),
    }
}

/// What comes of a descriptor. It must have the protocol's version, the host's identity and the
/// session's nonce; then its secrets and its endpoints are checked, in this order.
pub open spec fn checked_bridge(wire: BridgeDescriptorWire, expected_nonce: Seq<char>) -> Result<
    BridgeView,
    Seq<char>,
> {
    if wire.version != PROTOCOL_VERSION || wire.identity@ != IDENTITY@ || wire.activation_nonce@ != expected_nonce {
        Err("Token Miser descriptor identity did not match initialize"@)
    } else if let Some(error) = secret_error(wire.activation_nonce@, "activation nonce"@) {
        Err(error)
    } else if let Some(error) = secret_error(wire.token@, "bearer token"@) {
        Err(error)
    } else {
        match bridge_endpoint(endpoint::parsed_url(wire.url@), "url"@) {
            Err(error) => Err(error),
            Ok(url) => match bridge_endpoint(endpoint::parsed_url(wire.acceptance_url@), "acceptance_url"@) {
                Err(error) => Err(error),
                Ok(acceptance_url) => Ok(BridgeView { url, acceptance_url, token: wire.token@ }),
            },
        }
    }
}

/// Checks a descriptor that was read.
pub fn check_descriptor(wire: BridgeDescriptorWire, expected_nonce: &str) -> (r: Result<BridgeDescriptor, String>)
    ensures
        bridge_result(r) == checked_bridge(wire, expected_nonce@),
{
    if wire.version != PROTOCOL_VERSION || !text::same_text(wire.identity.as_str(), IDENTITY) || !text::same_text(
        wire.activation_nonce.as_str(),
        expected_nonce,
    ) {
        return Err("Token Miser descriptor identity did not match initialize".to_string());
    }
    if let Err(error) = validate_nonce(wire.activation_nonce.as_str()) {
        return Err(error);
    }
    if let Err(error) = validate_token(wire.token.as_str()) {
        return Err(error);
    }
    let url = match parse_loopback_endpoint(wire.url.as_str(), "url") {
        Ok(url) => url,
        Err(error) => {
            return Err(error);
        },
    };
    let acceptance_url = match parse_loopback_endpoint(wire.acceptance_url.as_str(), "acceptance_url") {
        Ok(url) => url,
        Err(error) => {
            return Err(error);
        },
    };
    Ok(BridgeDescriptor { url, acceptance_url, token: wire.token })
}

/// The complaint about where the descriptor is said to be: it must be said, as an absolute path.
pub fn check_descriptor_path(is_set: bool, is_absolute: bool) -> (r: Result<(), String>)
    ensures
        complaint(r) == (if !is_set {
            Some(DESCRIPTOR_ENVIRONMENT_VARIABLE@ + " is not set"@)
        } else if !is_absolute {
            Some("Token Miser descriptor path must be absolute"@)
        } else {
            None
        }),
{
    if !is_set {
        let mut error = DESCRIPTOR_ENVIRONMENT_VARIABLE.to_string();
        error.append(" is not set");
        return Err(error);
    }
    if !is_absolute {
        return Err("Token Miser descriptor path must be absolute".to_string());
    }
    Ok(())
}

/// Whether the permissions of a file leave out everybody but its owner.
pub open spec fn is_private(mode: u32) -> bool {
    mode & 0x3f == 0
}

/// The complaint about a descriptor file, if there is one. Where a platform has no permission
/// bits there is no `mode`.
pub open spec fn file_error(is_file: bool, len: int, mode: Option<u32>) -> Option<Seq<char>> {
    if !is_file {
        Some("Token Miser descriptor must be a regular file"@)
    } else if len > MAX_DESCRIPTOR_BYTES {
        Some("Token Miser descriptor exceeded its byte limit"@)
    } else if mode matches Some(mode) && !is_private(mode) {
        Some("Token Miser descriptor permissions must be private"@)
    } else {
        None
    }
}

/// Checks a descriptor file before it is read.
pub fn validate_descriptor_file(is_file: bool, len: u64, mode: Option<u32>) -> (r: Result<(), String>)
    ensures
        complaint(r) == file_error(is_file, len as int, mode),
{
    if !is_file {
        return Err("Token Miser descriptor must be a regular file".to_string());
    }
    if len > MAX_DESCRIPTOR_BYTES as u64 {
        return Err("Token Miser descriptor exceeded its byte limit".to_string());
    }
    if let Some(mode) = mode {
        if mode & 0x3f != 0 {
            return Err("Token Miser descriptor permissions must be private".to_string());
        }
    }
    Ok(())
}

/// Checks the directory of a descriptor file, where a platform has permission bits: `parent` says
/// of the directory whether it is one, and its permissions; nothing where there is no directory.
pub fn validate_descriptor_directory(parent: Option<(bool, u32)>) -> (r: Result<(), String>)
    ensures
        complaint(r) == (match parent {
            None => Some("Token Miser descriptor has no parent directory"@),
            Some((is_dir, mode)) => if !is_dir || !is_private(mode) {
                Some("Token Miser descriptor directory permissions must be private"@)
            } else {
                None
            },
        }),
{
    match parent {
        None => Err("Token Miser descriptor has no parent directory".to_string()),
        Some((is_dir, mode)) => {
            if !is_dir || mode & 0x3f != 0 {
                Err("Token Miser descriptor directory permissions must be private".to_string())
            } else {
                Ok(())
            }
        },
    }
}

/// Checks how much of a descriptor file was read.
pub fn check_descriptor_length(len: usize) -> (r: Result<(), String>)
    ensures
        complaint(r) == (if len > MAX_DESCRIPTOR_BYTES {
            Some("Token Miser descriptor exceeded its byte limit"@)
        } else {
            None
        }),
{
    if len > MAX_DESCRIPTOR_BYTES {
        return Err("Token Miser descriptor exceeded its byte limit".to_string());
    }
    Ok(())
}

/// What an activation comes to, by its nonce and by what came of reading the descriptor.
pub open spec fn activation_error(
    nonce: Seq<char>,
    descriptor: Result<BridgeDescriptorWire, String>,
) -> Option<Seq<char>> {
    match secret_error(nonce, "activation nonce"@) {
        Some(error) => Some(error),
        None => match descriptor {
            Ok(wire) => match checked_bridge(wire, nonce) {
                Ok(_) => None,
                Err(error) => Some(error),
            },
            Err(error) => Some(error@),
        },
    }
}

/// Checks an activation: the nonce, and then the descriptor against it.
pub fn validate_activation(
    activation_nonce: &str,
    descriptor: Result<BridgeDescriptorWire, String>,
) -> (r: Result<(), String>)
    ensures
        complaint(r) == activation_error(activation_nonce@, descriptor),
{
    if let Err(error) = validate_nonce(activation_nonce) {
        return Err(error);
    }
    match descriptor {
        Ok(wire) => match check_descriptor(wire, activation_nonce) {
            Ok(_) => Ok(()),
            Err(error) => Err(error),
        },
        Err(error) => Err(error),
    }
}

/// What a hook says specifically.
#[derive(Debug)]
pub struct ManagedHookSpecificOutput {
    pub hook_event_name: String,
    pub response_id: String,
}

/// What the bridge's hook says.
#[derive(Debug)]
pub struct ManagedHookOutput {
    pub continue_processing: bool,
    pub stop_reason: String,
    pub hook_specific_output: ManagedHookSpecificOutput,
}

/// What takes the place of a tool's output.
#[derive(Debug, PartialEq, Eq)]
pub struct ManagedPostToolUseReplacement {
    pub text: String,
    pub response_id: String,
}

/// What a response selects: its stop reason, if it stops processing for this event, and if both
/// the reason and the response's identity say something within their bounds.
pub open spec fn managed_selection(output: Option<ManagedHookOutput>) -> Option<(Seq<char>, Seq<char>)> {
    match output {
        Some(o) => if !o.continue_processing && o.hook_specific_output.hook_event_name@ == "PostToolUse"@
            && !text::blank(o.stop_reason@) && text::byte_len(o.stop_reason@) <= MAX_REPLACEMENT_BYTES && !text::blank(
            o.hook_specific_output.response_id@,
        ) && o.hook_specific_output.response_id@.len() <= MAX_RESPONSE_ID_CHARACTERS {
            Some((o.stop_reason@, o.hook_specific_output.response_id@))
        } else {
            None
        },
        None => None,
    }
}

/// The value of an optional replacement.
pub open spec fn managed_option(r: Option<ManagedPostToolUseReplacement>) -> Option<(Seq<char>, Seq<char>)> {
    match r {
        Some(r) => Some((r.text@, r.response_id@)),
        None => None,
    }
}

/// Decides whether a response replaces a tool's output.
pub fn select_managed_replacement(
    output: Option<ManagedHookOutput>,
) -> (selected: Option<ManagedPostToolUseReplacement>)
    ensures
        managed_option(selected) == managed_selection(output),
{
    let output = match output {
        Some(output) => output,
        None => {
            return None;
        },
    };
    if output.continue_processing || !text::same_text(
        output.hook_specific_output.hook_event_name.as_str(),
        "PostToolUse",
    ) || !bounded_replacement(output.stop_reason.as_str(), MAX_REPLACEMENT_BYTES) || !bounded_non_empty(
        output.hook_specific_output.response_id.as_str(),
        MAX_RESPONSE_ID_CHARACTERS,
    ) {
        return None;
    }
    Some(
        ManagedPostToolUseReplacement {
            text: output.stop_reason,
            response_id: output.hook_specific_output.response_id,
        },
    )
}

/// A session's way to the managed bridge: off until it is activated with a nonce.
#[derive(Debug)]
pub struct PwrdrvrTokenMiserGate {
    activation_nonce: Option<String>,
}

impl View for PwrdrvrTokenMiserGate {
    type V = Option<Seq<char>>;

    closed spec fn view(&self) -> Option<Seq<char>> {
        items::text_option(self.activation_nonce)
    }
}

/// How far the bridge has come with one tool call.
#[derive(Debug)]
pub enum ManagedPhase {
    AwaitingDescriptor,
    AwaitingResponse,
    ReadingBody { body: Vec<u8> },
    AwaitingParse,
    Finished { replacement: Option<ManagedPostToolUseReplacement> },
}

/// What the host found.
#[derive(Debug)]
pub enum ManagedEvent {
    /// The descriptor, or nothing where it could not be read.
    DescriptorRead(Option<BridgeDescriptorWire>),
    /// The request or the reading of the response failed or timed out.
    Failed,
    ResponseStarted { success: bool, content_length: Option<u64> },
    ChunkRead(Vec<u8>),
    BodyEnded,
    /// The hook's output in the response, or nothing where there is none or it is malformed.
    BodyParsed(Option<ManagedHookOutput>),
}

/// What the host does next.
#[allow(inconsistent_fields)]
#[derive(Debug)]
pub enum ManagedAction {
    ReadDescriptor,
    /// Posts the body, with the token as bearer.
    SendRequest { url: String, token: String, body: String },
    ReadChunk,
    ParseBody { body: Vec<u8> },
    Finish,
}

/// The value of a [`ManagedPhase`].
pub enum ManagedPhaseView {
    AwaitingDescriptor,
    AwaitingResponse,
    ReadingBody { body: Seq<u8> },
    AwaitingParse,
    Finished { replacement: Option<(Seq<char>, Seq<char>)> },
}

/// The value of a [`ManagedAction`].
#[allow(inconsistent_fields)]
pub enum ManagedActionView {
    ReadDescriptor,
    SendRequest { url: Seq<char>, token: Seq<char>, body: Seq<char> },
    ReadChunk,
    ParseBody { body: Seq<u8> },
    Finish,
}

impl View for ManagedPhase {
    type V = ManagedPhaseView;

    open spec fn view(&self) -> ManagedPhaseView {
        match self {
            ManagedPhase::AwaitingDescriptor => ManagedPhaseView::AwaitingDescriptor,
            ManagedPhase::AwaitingResponse => ManagedPhaseView::AwaitingResponse,
            ManagedPhase::ReadingBody { body } => ManagedPhaseView::ReadingBody { body: body@ },
            ManagedPhase::AwaitingParse => ManagedPhaseView::AwaitingParse,
            ManagedPhase::Finished { replacement } => ManagedPhaseView::Finished {
                replacement: managed_option(*replacement),
            },
        }
    }
}

impl View for ManagedAction {
    type V = ManagedActionView;

    open spec fn view(&self) -> ManagedActionView {
        match self {
            ManagedAction::ReadDescriptor => ManagedActionView::ReadDescriptor,
            ManagedAction::SendRequest { url, token, body } => ManagedActionView::SendRequest {
                url: url@,
                token: token@,
                body: body@,
            },
            ManagedAction::ReadChunk => ManagedActionView::ReadChunk,
            ManagedAction::ParseBody { body } => ManagedActionView::ParseBody { body: body@ },
            ManagedAction::Finish => ManagedActionView::Finish,
        }
    }
}

/// The end of a run that replaces nothing.
pub open spec fn managed_kept() -> (ManagedPhaseView, ManagedActionView) {
    (ManagedPhaseView::Finished { replacement: None }, ManagedActionView::Finish)
}

/// How a tool call is taken up: an active session shows the bridge direct tools only.
pub open spec fn managed_first_step(nonce: Option<Seq<char>>, request: PostToolUseRequest) -> (
    ManagedPhaseView,
    ManagedActionView,
) {
    if nonce is Some && !request.is_code_mode_nested {
        (ManagedPhaseView::AwaitingDescriptor, ManagedActionView::ReadDescriptor)
    } else {
        managed_kept()
    }
}

/// What follows from an event. An event that does not belong to a phase ends the run.
pub open spec fn managed_next_step(
    phase: ManagedPhaseView,
    event: ManagedEvent,
    nonce: Option<Seq<char>>,
    request: PostToolUseRequest,
) -> (ManagedPhaseView, ManagedActionView) {
    match (phase, event) {
        (ManagedPhaseView::AwaitingDescriptor, ManagedEvent::DescriptorRead(Some(wire))) => {
            let body = json::json_text(post_tool_use::command_input(request));
            match nonce {
                Some(nonce) => match checked_bridge(wire, nonce) {
                    Ok(descriptor) => if text::byte_len(body) <= MAX_REQUEST_BYTES {
                        (
                            ManagedPhaseView::AwaitingResponse,
                            ManagedActionView::SendRequest { url: descriptor.url, token: descriptor.token, body },
                        )
                    } else {
                        managed_kept()
                    },
                    Err(_) => managed_kept(),
                },
                None => managed_kept(),
            }
        },
        (
            ManagedPhaseView::AwaitingResponse,
            ManagedEvent::ResponseStarted { success, content_length },
        ) => if success && (content_length matches Some(n) ==> n <= MAX_RESPONSE_BYTES) {
            (ManagedPhaseView::ReadingBody { body: Seq::empty() }, ManagedActionView::ReadChunk)
        } else {
            managed_kept()
        },
        (ManagedPhaseView::ReadingBody { body }, ManagedEvent::ChunkRead(chunk)) => if transfer::fits(
            body.len(),
            chunk@.len(),
            MAX_RESPONSE_BYTES as nat,
        ) {
            (ManagedPhaseView::ReadingBody { body: body + chunk@ }, ManagedActionView::ReadChunk)
        } else {
            managed_kept()
        },
        (ManagedPhaseView::ReadingBody { body }, ManagedEvent::BodyEnded) => (
            ManagedPhaseView::AwaitingParse,
            ManagedActionView::ParseBody { body },
        ),
        (ManagedPhaseView::AwaitingParse, ManagedEvent::BodyParsed(output)) => (
            ManagedPhaseView::Finished { replacement: managed_selection(output) },
            ManagedActionView::Finish,
        ),
        (ManagedPhaseView::Finished { replacement }, _) => (
            ManagedPhaseView::Finished { replacement },
            ManagedActionView::Finish,
        ),
        _ => managed_kept(),
    }
}

fn keep_managed() -> (step: (ManagedPhase, ManagedAction))
    ensures
        (step.0@, step.1@) == managed_kept(),
{
    (ManagedPhase::Finished { replacement: None }, ManagedAction::Finish)
}

/// A call that delivers an acceptance.
#[derive(Debug)]
pub struct AcceptanceCall {
    pub url: String,
    pub token: String,
    pub body: String,
}

/// The value of an [`AcceptanceCall`].
pub struct AcceptanceCallView {
    pub url: Seq<char>,
    pub token: Seq<char>,
    pub body: Seq<char>,
}

/// The value of an optional call.
pub open spec fn call_option(call: Option<AcceptanceCall>) -> Option<AcceptanceCallView> {
    match call {
        Some(call) => Some(AcceptanceCallView { url: call.url@, token: call.token@, body: call.body@ }),
        None => None,
    }
}

/// The call that tells the bridge that its replacement was taken: none for an inactive session or a
/// descriptor that does not check.
pub open spec fn managed_acceptance(
    nonce: Option<Seq<char>>,
    wire: BridgeDescriptorWire,
    context: PostToolUseAcceptanceContext<'_>,
) -> Option<AcceptanceCallView> {
    match nonce {
        Some(nonce) => match checked_bridge(wire, nonce) {
            Ok(descriptor) => Some(
                AcceptanceCallView {
                    url: descriptor.acceptance_url,
                    token: descriptor.token,
                    body: json::json_text(
                        reducer::post_tool_use_acceptance_json(
                            PROTOCOL_VERSION as int,
                            context.response_id@,
                            context.session_id@,
                            context.turn_id@,
                            context.tool_use_id@,
                        ),
                    ),
                },
            ),
            Err(_) => None,
        },
        None => None,
    }
}

impl PwrdrvrTokenMiserGate {
    /// An inactive way.
    pub fn new() -> (gate: Self)
        ensures
            gate@ is None,
    {
        PwrdrvrTokenMiserGate { activation_nonce: None }
    }

    /// Activates the bridge with a nonce, or turns it off.
    pub fn set_activation_nonce(&mut self, activation_nonce: Option<String>)
        ensures
            final(self)@ == items::text_option(activation_nonce),
    {
        self.activation_nonce = activation_nonce;
    }

    /// Whether the bridge is active.
    pub fn is_enabled(&self) -> (yes: bool)
        ensures
            yes == (self@ is Some),
    {
        self.activation_nonce.is_some()
    }

    /// Starts a run for a finished tool call.
    pub fn begin(&self, request: &PostToolUseRequest) -> (step: (ManagedPhase, ManagedAction))
        ensures
            (step.0@, step.1@) == managed_first_step(self@, *request),
    {
        if self.is_enabled() && !request.is_code_mode_nested {
            (ManagedPhase::AwaitingDescriptor, ManagedAction::ReadDescriptor)
        } else {
            keep_managed()
        }
    }

    fn send(&self, wire: BridgeDescriptorWire, request: &PostToolUseRequest) -> (step: (ManagedPhase, ManagedAction))
        ensures
            (step.0@, step.1@) == managed_next_step(
                ManagedPhaseView::AwaitingDescriptor,
                ManagedEvent::DescriptorRead(Some(wire)),
                self@,
                *request,
            ),
    {
        let descriptor = match &self.activation_nonce {
            Some(nonce) => check_descriptor(wire, nonce.as_str()),
            None => {
                return keep_managed();
            },
        };
        let descriptor = match descriptor {
            Ok(descriptor) => descriptor,
            Err(_) => {
                return keep_managed();
            },
        };
        let body = request.command_input_json();
        if text::byte_count(body.as_str()) > MAX_REQUEST_BYTES {
            return keep_managed();
        }
        (
            ManagedPhase::AwaitingResponse,
            ManagedAction::SendRequest { url: descriptor.url, token: descriptor.token, body },
        )
    }

    /// Goes on with a run after an event.
    pub fn advance(
        &self,
        phase: ManagedPhase,
        event: ManagedEvent,
        request: &PostToolUseRequest,
    ) -> (step: (ManagedPhase, ManagedAction))
        ensures
            (step.0@, step.1@) == managed_next_step(phase@, event, self@, *request),
    {
        match (phase, event) {
            (ManagedPhase::AwaitingDescriptor, ManagedEvent::DescriptorRead(Some(wire))) => self.send(wire, request),
            (ManagedPhase::AwaitingResponse, ManagedEvent::ResponseStarted { success, content_length }) => {
                if transfer::admit_response(success, content_length, MAX_RESPONSE_BYTES) {
                    let body: Vec<u8> = Vec::new();
                    assert(body@ =~= Seq::<u8>::empty());
                    (ManagedPhase::ReadingBody { body }, ManagedAction::ReadChunk)
                } else {
                    keep_managed()
                }
            },
            (ManagedPhase::ReadingBody { body }, ManagedEvent::ChunkRead(chunk)) => {
                let mut body = body;
                if transfer::accept_chunk(&mut body, chunk.as_slice(), MAX_RESPONSE_BYTES) {
                    (ManagedPhase::ReadingBody { body }, ManagedAction::ReadChunk)
                } else {
                    keep_managed()
                }
            },
            (ManagedPhase::ReadingBody { body }, ManagedEvent::BodyEnded) => {
                (ManagedPhase::AwaitingParse, ManagedAction::ParseBody { body })
            },
            (ManagedPhase::AwaitingParse, ManagedEvent::BodyParsed(output)) => {
                (ManagedPhase::Finished { replacement: select_managed_replacement(output) }, ManagedAction::Finish)
            },
            (ManagedPhase::Finished { replacement }, _) => {
                (ManagedPhase::Finished { replacement }, ManagedAction::Finish)
            },
            _ => keep_managed(),
        }
    }

    /// The call that tells the bridge that its replacement was taken.
    pub fn accept(
        &self,
        wire: BridgeDescriptorWire,
        context: &PostToolUseAcceptanceContext<'_>,
    ) -> (call: Option<AcceptanceCall>)
        ensures
            call_option(call) == managed_acceptance(self@, wire, *context),
    {
        let checked = match &self.activation_nonce {
            Some(nonce) => check_descriptor(wire, nonce.as_str()),
            None => {
                return None;
            },
        };
        match checked {
            Ok(descriptor) => Some(
                AcceptanceCall {
                    url: descriptor.acceptance_url,
                    token: descriptor.token,
                    body: reducer::post_tool_use_acceptance(PROTOCOL_VERSION, context).to_text(),
                },
            ),
            Err(_) => None,
        }
    }
}

/// The phase after several events, whatever the host does in between.
pub open spec fn managed_run(
    phase: ManagedPhaseView,
    events: Seq<ManagedEvent>,
    nonce: Option<Seq<char>>,
    request: PostToolUseRequest,
) -> ManagedPhaseView
    decreases events.len(),
{
    if events.len() == 0 {
        phase
    } else {
        managed_next_step(
            managed_run(phase, events.drop_last(), nonce, request),
            events.last(),
            nonce,
            request,
        ).0
    }
}

/// The replacement that a phase has come to.
pub open spec fn managed_replacement(phase: ManagedPhaseView) -> Option<(Seq<char>, Seq<char>)> {
    match phase {
        ManagedPhaseView::Finished { replacement } => replacement,
        _ => None,
    }
}

/// The bridge fails open: a tool's output is replaced only by what a response selected, in an
/// active session, and never where the tool was called from a script.
pub proof fn law_managed_gate_fails_open(
    events: Seq<ManagedEvent>,
    nonce: Option<Seq<char>>,
    request: PostToolUseRequest,
)
    ensures
        managed_replacement(managed_run(managed_first_step(nonce, request).0, events, nonce, request)) matches Some(
            replacement,
        ) ==> {
            &&& nonce is Some
            &&& !request.is_code_mode_nested
            &&& exists|i: int|
                0 <= i < events.len() && (#[trigger] events[i] matches ManagedEvent::BodyParsed(output)
                    && managed_selection(output) == Some(replacement))
        },
    decreases events.len(),
{
    if events.len() > 0 {
        law_managed_gate_fails_open(events.drop_last(), nonce, request);
        let first = managed_first_step(nonce, request).0;
        let before = managed_run(first, events.drop_last(), nonce, request);
        if let Some(replacement) = managed_replacement(managed_run(first, events, nonce, request)) {
            if managed_replacement(before) is Some {
                let i = choose|i: int|
                    0 <= i < events.drop_last().len() && (#[trigger] events.drop_last()[i] matches ManagedEvent::BodyParsed(
                        output,
                    ) && managed_selection(output) == Some(replacement));
                assert(events[i] == events.drop_last()[i]);
            } else {
                assert(events[events.len() - 1] == events.last());
                assert(before is AwaitingParse);
                if nonce is None || request.is_code_mode_nested {
                    lemma_managed_stays_finished(events.drop_last(), nonce, request);
                }
            }
        }
    }
}

proof fn lemma_managed_stays_finished(
    events: Seq<ManagedEvent>,
    nonce: Option<Seq<char>>,
    request: PostToolUseRequest,
)
    requires
        nonce is None || request.is_code_mode_nested,
    ensures
        managed_run(managed_first_step(nonce, request).0, events, nonce, request) == (ManagedPhaseView::Finished {
            replacement: None,
        }),
    decreases events.len(),
{
    if events.len() > 0 {
        lemma_managed_stays_finished(events.drop_last(), nonce, request);
    }
}

/// The events in which a response's body arrives in these chunks.
pub open spec fn managed_chunks(chunks: Seq<Vec<u8>>) -> Seq<ManagedEvent> {
    chunks.map_values(|chunk: Vec<u8>| ManagedEvent::ChunkRead(chunk))
}

/// The bytes of several chunks.
pub open spec fn chunk_bytes(chunks: Seq<Vec<u8>>) -> Seq<Seq<u8>> {
    chunks.map_values(|chunk: Vec<u8>| chunk@)
}

proof fn lemma_managed_reading(chunks: Seq<Vec<u8>>, nonce: Option<Seq<char>>, request: PostToolUseRequest)
    ensures
        managed_run(
            ManagedPhaseView::ReadingBody { body: Seq::empty() },
            managed_chunks(chunks),
            nonce,
            request,
        ) == (if chunk_bytes(chunks).flatten().len() <= MAX_RESPONSE_BYTES {
            ManagedPhaseView::ReadingBody { body: chunk_bytes(chunks).flatten() }
        } else {
            ManagedPhaseView::Finished { replacement: None }
        }),
    decreases chunks.len(),
{
    chunk_bytes(chunks).lemma_flatten_and_flatten_alt_are_equivalent();
    if chunks.len() > 0 {
        let before = chunks.drop_last();
        lemma_managed_reading(before, nonce, request);
        chunk_bytes(before).lemma_flatten_and_flatten_alt_are_equivalent();
        assert(managed_chunks(chunks).drop_last() =~= managed_chunks(before));
        assert(chunk_bytes(chunks).drop_last() =~= chunk_bytes(before));
        assert(chunk_bytes(chunks).flatten() == chunk_bytes(before).flatten() + chunks.last()@);
    } else {
        assert(chunk_bytes(chunks).flatten() =~= Seq::<u8>::empty());
    }
}

/// What is parsed is the whole response: however it arrives, the body to parse is all of its chunks,
/// one after the other, and a response is parsed exactly where its status is a success and neither
/// its announced length nor its chunks together exceed 2 MiB.
pub proof fn law_the_managed_body_is_the_whole_response(
    success: bool,
    content_length: Option<u64>,
    chunks: Seq<Vec<u8>>,
    nonce: Option<Seq<char>>,
    request: PostToolUseRequest,
)
    ensures
        ({
            let started = managed_next_step(
                ManagedPhaseView::AwaitingResponse,
                ManagedEvent::ResponseStarted { success, content_length },
                nonce,
                request,
            ).0;
            let read = managed_run(started, managed_chunks(chunks), nonce, request);
            let ended = managed_next_step(read, ManagedEvent::BodyEnded, nonce, request);
            let response = chunk_bytes(chunks).flatten();
            if success && (content_length matches Some(n) ==> n <= 2 * 1024 * 1024) && response.len() <= 2 * 1024
                * 1024 {
                &&& ended.0 == ManagedPhaseView::AwaitingParse
                &&& ended.1 == (ManagedActionView::ParseBody { body: response })
            } else {
                &&& ended.0 == (ManagedPhaseView::Finished { replacement: None })
                &&& ended.1 == ManagedActionView::Finish
            }
        }),
{
    lemma_managed_reading(chunks, nonce, request);
    let started = managed_next_step(
        ManagedPhaseView::AwaitingResponse,
        ManagedEvent::ResponseStarted { success, content_length },
        nonce,
        request,
    ).0;
    if started is Finished {
        lemma_managed_finished(None, managed_chunks(chunks), nonce, request);
    }
}

proof fn lemma_managed_finished(
    replacement: Option<(Seq<char>, Seq<char>)>,
    events: Seq<ManagedEvent>,
    nonce: Option<Seq<char>>,
    request: PostToolUseRequest,
)
    ensures
        managed_run(ManagedPhaseView::Finished { replacement }, events, nonce, request)
            == (ManagedPhaseView::Finished { replacement }),
    decreases events.len(),
{
    if events.len() > 0 {
        lemma_managed_finished(replacement, events.drop_last(), nonce, request);
    }
}

/// What a response selects: its stop reason and its identity, as they are, where the hook stops the
/// turn after a tool, the stop reason says something in at most 4000 bytes, and the identity says
/// something in at most 256 characters. Nothing else is ever selected.
pub proof fn law_a_managed_replacement_is_the_stop_reason(output: ManagedHookOutput)
    ensures
        ({
            let stops = !output.continue_processing && output.hook_specific_output.hook_event_name@ == "PostToolUse"@;
            let reason = output.stop_reason@;
            let id = output.hook_specific_output.response_id@;
            let good = stops && text::trimmed(reason).len() > 0 && encode_utf8(reason).len() <= 4000 && text::trimmed(
                id,
            ).len() > 0 && id.len() <= 256;
            &&& good ==> managed_selection(Some(output)) == Some((reason, id))
            &&& !good ==> managed_selection(Some(output)) is None
        }),
        managed_selection(None) is None,
{
    text::law_blank_trims_to_nothing(output.stop_reason@);
    text::law_blank_trims_to_nothing(output.hook_specific_output.response_id@);
}

/// A descriptor is taken only as a whole: where it is, it has the protocol's version and the host's
/// identity and repeats the session's nonce, the nonce and the token are secrets of at least 32 bytes,
/// both addresses are loopback without credentials, query or fragment, and the call goes to the
/// addresses and with the token that it names. Where all of this holds, it is taken.
pub proof fn law_a_bridge_is_taken_as_a_whole(wire: BridgeDescriptorWire, nonce: Seq<char>)
    ensures
        ({
            let addressed = |address: Seq<char>|
                endpoint::parsed_url(address) matches Ok(url) && endpoint::is_loopback_http(url) && url.query is None
                    && url.fragment is None;
            let good = wire.version == 1 && wire.identity@ == "pwrdrvr.pwragent.token-miser"@
                && wire.activation_nonce@ == nonce && is_base64url(nonce) && nonce.len() * 3 / 4 >= 32 && is_base64url(
                wire.token@,
            ) && wire.token@.len() * 3 / 4 >= 32 && addressed(wire.url@) && addressed(wire.acceptance_url@);
            &&& checked_bridge(wire, nonce) is Ok <==> good
            &&& checked_bridge(wire, nonce) matches Ok(bridge) ==> bridge.token == wire.token@ && bridge.url
                == endpoint::parsed_url(wire.url@)->Ok_0.href && bridge.acceptance_url == endpoint::parsed_url(
                wire.acceptance_url@,
            )->Ok_0.href
        }),
{
}

/// A request goes out only in an active session, with the token and to the address of a descriptor
/// that was taken, and holds what a hook is told of the tool call, within 32 MiB. Where the descriptor
/// is taken and the request fits, it goes out.
pub proof fn law_the_bridge_is_told_of_the_tool_call(
    wire: BridgeDescriptorWire,
    nonce: Option<Seq<char>>,
    request: PostToolUseRequest,
)
    ensures
        ({
            let step = managed_next_step(
                ManagedPhaseView::AwaitingDescriptor,
                ManagedEvent::DescriptorRead(Some(wire)),
                nonce,
                request,
            );
            let told = json::json_text(post_tool_use::command_input(request));
            let taken = nonce is Some && checked_bridge(wire, nonce->0) is Ok;
            if taken && encode_utf8(told).len() <= 32 * 1024 * 1024 {
                let bridge = checked_bridge(wire, nonce->0)->Ok_0;
                &&& step.0 == ManagedPhaseView::AwaitingResponse
                &&& step.1 == (ManagedActionView::SendRequest { url: bridge.url, token: bridge.token, body: told })
            } else {
                &&& step.0 == (ManagedPhaseView::Finished { replacement: None })
                &&& step.1 == ManagedActionView::Finish
            }
        }),
{
}

/// An acceptance goes out only in an active session, with the token and to the acceptance address of a
/// descriptor that was taken, and names the response, the session, the turn and the tool call.
pub proof fn law_the_bridge_is_told_of_the_acceptance(
    nonce: Option<Seq<char>>,
    wire: BridgeDescriptorWire,
    context: PostToolUseAcceptanceContext<'_>,
)
    ensures
        ({
            let taken = nonce is Some && checked_bridge(wire, nonce->0) is Ok;
            &&& managed_acceptance(nonce, wire, context) is Some <==> taken
            &&& managed_acceptance(nonce, wire, context) matches Some(call) ==> {
                &&& call.url == checked_bridge(wire, nonce->0)->Ok_0.acceptance_url
                &&& call.token == wire.token@
                &&& exists|body: json::JsonView|
                    {
                        &&& call.body == #[trigger] json::json_text(body)
                        &&& json::json_get(body, "version"@) == Some(json::JsonView::Int(1))
                        &&& json::json_get(body, "response_id"@) == Some(json::JsonView::Text(context.response_id@))
                        &&& json::json_get(body, "session_id"@) == Some(json::JsonView::Text(context.session_id@))
                        &&& json::json_get(body, "turn_id"@) == Some(json::JsonView::Text(context.turn_id@))
                        &&& json::json_get(body, "tool_use_id"@) == Some(json::JsonView::Text(context.tool_use_id@))
                    }
            }
        }),
{
    reducer::law_a_direct_acceptance_names_the_tool_call(
        PROTOCOL_VERSION as int,
        context.response_id@,
        context.session_id@,
        context.turn_id@,
        context.tool_use_id@,
    );
}

/// A secret is taken exactly where it is URL-safe Base64 without padding and stands for at least 32
/// bytes, and the complaint names what it was for.
pub proof fn law_a_secret_has_256_bits(secret: Seq<char>, label: Seq<char>)
    ensures
        secret_error(secret, label) is None <==> is_base64url(secret) && secret.len() >= 43,
        !is_base64url(secret) ==> secret_error(secret, label) == Some(
            "Token Miser "@ + label + " must be unpadded base64url"@,
        ),
        is_base64url(secret) && secret.len() < 43 ==> secret_error(secret, label) == Some(
            "Token Miser "@ + label + " must contain at least 256 bits"@,
        ),
{
}

/// A descriptor file is read only where it is a regular file of at most 16 KiB that nobody but its owner
/// may use: neither its group nor anybody else may read, write or run it.
pub proof fn law_a_descriptor_file_is_private(is_file: bool, len: int, mode: Option<u32>)
    ensures
        ({
            let open = mode is Some && (mode->0 & 0x20 != 0 || mode->0 & 0x10 != 0 || mode->0 & 0x8 != 0 || mode->0
                & 0x4 != 0 || mode->0 & 0x2 != 0 || mode->0 & 0x1 != 0);
            &&& file_error(is_file, len, mode) is None <==> is_file && len <= 16 * 1024 && !open
            &&& !is_file ==> file_error(is_file, len, mode) == Some("Token Miser descriptor must be a regular file"@)
            &&& is_file && len > 16 * 1024 ==> file_error(is_file, len, mode) == Some(
                "Token Miser descriptor exceeded its byte limit"@,
            )
            &&& is_file && len <= 16 * 1024 && open ==> file_error(is_file, len, mode) == Some(
                "Token Miser descriptor permissions must be private"@,
            )
        }),
{
    if let Some(m) = mode {
        assert(m & 0x3f == 0 <==> !(m & 0x20 != 0 || m & 0x10 != 0 || m & 0x8 != 0 || m & 0x4 != 0 || m & 0x2 != 0
            || m & 0x1 != 0)) by (bit_vector);
    }
}

/// An activation is good exactly where its nonce is a secret and the descriptor was read and is taken
/// with that nonce; otherwise the first of these that fails is complained of.
pub proof fn law_an_activation_needs_nonce_and_descriptor(
    nonce: Seq<char>,
    descriptor: Result<BridgeDescriptorWire, String>,
)
    ensures
        ({
            let secret = is_base64url(nonce) && nonce.len() >= 43;
            &&& activation_error(nonce, descriptor) is None <==> secret && descriptor is Ok && checked_bridge(
                descriptor->Ok_0,
                nonce,
            ) is Ok
            &&& !secret ==> activation_error(nonce, descriptor) == secret_error(nonce, "activation nonce"@)
            &&& secret && descriptor is Err ==> activation_error(nonce, descriptor) == Some(descriptor->Err_0@)
            &&& secret && descriptor is Ok && checked_bridge(descriptor->Ok_0, nonce) is Err ==> activation_error(
                nonce,
                descriptor,
            ) == Some(checked_bridge(descriptor->Ok_0, nonce)->Err_0)
        }),
{
}

/// The bridge is asked only in an active session and only of direct tools.
pub proof fn law_the_bridge_is_asked_of_direct_tools(nonce: Option<Seq<char>>, request: PostToolUseRequest)
    ensures
        ({
            let first = managed_first_step(nonce, request);
            if nonce is Some && !request.is_code_mode_nested {
                first.0 == ManagedPhaseView::AwaitingDescriptor && first.1 == ManagedActionView::ReadDescriptor
            } else {
                first.0 == (ManagedPhaseView::Finished { replacement: None }) && first.1 == ManagedActionView::Finish
            }
        }),
{
}

/// Anything that goes wrong ends the exchange without a replacement, and a response that was parsed ends
/// it with what it selects.
pub proof fn law_the_bridge_ends_with_what_was_selected(
    phase: ManagedPhaseView,
    output: Option<ManagedHookOutput>,
    nonce: Option<Seq<char>>,
    request: PostToolUseRequest,
)
    ensures
        !(phase is Finished) ==> managed_next_step(phase, ManagedEvent::Failed, nonce, request) == (
            ManagedPhaseView::Finished { replacement: None },
            ManagedActionView::Finish,
        ),
        managed_next_step(ManagedPhaseView::AwaitingParse, ManagedEvent::BodyParsed(output), nonce, request) == (
            ManagedPhaseView::Finished { replacement: managed_selection(output) },
            ManagedActionView::Finish,
        ),
{
}

/// A descriptor that is not taken is complained of by the first thing that is wrong with it: whose it is,
/// then the nonce, then the token, then the address to call, then the address to notify.
pub proof fn law_a_bridge_is_refused_for_the_first_fault(wire: BridgeDescriptorWire, nonce: Seq<char>)
    ensures
        ({
            let own = wire.version == 1 && wire.identity@ == "pwrdrvr.pwragent.token-miser"@ && wire.activation_nonce@
                == nonce;
            let nonce_fault = secret_error(nonce, "activation nonce"@);
            let token_fault = secret_error(wire.token@, "bearer token"@);
            let url_fault = bridge_endpoint(endpoint::parsed_url(wire.url@), "url"@);
            let acceptance_fault = bridge_endpoint(endpoint::parsed_url(wire.acceptance_url@), "acceptance_url"@);
            let r = checked_bridge(wire, nonce);
            &&& !own ==> r == Err::<BridgeView, Seq<char>>("Token Miser descriptor identity did not match initialize"@)
            &&& own && nonce_fault is Some ==> r == Err::<BridgeView, Seq<char>>(nonce_fault->0)
            &&& own && nonce_fault is None && token_fault is Some ==> r == Err::<BridgeView, Seq<char>>(token_fault->0)
            &&& own && nonce_fault is None && token_fault is None && url_fault is Err ==> r == Err::<
                BridgeView,
                Seq<char>,
            >(url_fault->Err_0)
            &&& own && nonce_fault is None && token_fault is None && url_fault is Ok && acceptance_fault is Err ==> r
                == Err::<BridgeView, Seq<char>>(acceptance_fault->Err_0)
        }),
{
}

/// An address is taken as `url` writes it, exactly where it is loopback HTTP without credentials, query
/// or fragment; otherwise the complaint names the field.
pub proof fn law_a_bridge_address_is_bare(parsed: Result<endpoint::UrlView, Seq<char>>, field: Seq<char>)
    ensures
        match parsed {
            Ok(url) => {
                let bare = endpoint::is_loopback_http(url) && url.query is None && url.fragment is None;
                &&& bare ==> bridge_endpoint(parsed, field) == Ok::<Seq<char>, Seq<char>>(url.href)
                &&& !bare ==> bridge_endpoint(parsed, field) == Err::<Seq<char>, Seq<char>>(
                    "Token Miser "@ + field + " must be credential-free loopback HTTP"@,
                )
            },
            Err(error) => bridge_endpoint(parsed, field) == Err::<Seq<char>, Seq<char>>(
                "Token Miser "@ + field + " is malformed: "@ + error,
            ),
        },
{
}

} // verus!

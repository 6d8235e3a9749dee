//! The managed bridge, with a scripted host in place of a network and a file system.
use code_mode_reduction::bridge::{
    BridgeDescriptorWire, DESCRIPTOR_ENVIRONMENT_VARIABLE, IDENTITY, MAX_DESCRIPTOR_BYTES, ManagedAction,
    ManagedEvent, ManagedHookOutput, ManagedHookSpecificOutput, ManagedPhase, ManagedPostToolUseReplacement,
    PwrdrvrTokenMiserGate, bounded_non_empty, bounded_replacement, bridge_address, check_descriptor,
    check_descriptor_length, check_descriptor_path, parse_loopback_endpoint, select_managed_replacement,
    validate_activation, validate_base64_secret, validate_descriptor_directory, validate_descriptor_file,
    validate_nonce, validate_token,
};
use code_mode_reduction::endpoint::{UrlHost, UrlParts};
use code_mode_reduction::json::Json;
use code_mode_reduction::post_tool_use::PostToolUseRequest;
use code_mode_reduction::reducer::PostToolUseAcceptanceContext;
use serde_json::Value;

const NONCE: &str = "AAAAAAAAAAAAAAAAAAAAAAAAAAAAAAAAAAAAAAAAAAA";
const BEARER: &str = "_________________________________________-8";
const ORIGINAL_OUTPUT: &str = "managed-original-output";
const REPLACEMENT: &str = "managed Token Miser replacement";

fn wire() -> BridgeDescriptorWire {
    BridgeDescriptorWire {
        version: 1,
        identity: IDENTITY.to_string(),
        activation_nonce: NONCE.to_string(),
        url: "http://127.0.0.1:4100/v1/post-tool-use".to_string(),
        acceptance_url: "http://127.0.0.1:4100/v1/accept".to_string(),
        token: BEARER.to_string(),
    }
}

fn request(nested: bool) -> PostToolUseRequest {
    PostToolUseRequest {
        session_id: "session-1".to_string(),
        turn_id: "turn-1".to_string(),
        subagent: None,
        cwd: "/tmp".to_string(),
        transcript_path: None,
        model: "gpt-test".to_string(),
        permission_mode: "default".to_string(),
        tool_name: "Bash".to_string(),
        matcher_aliases: Vec::new(),
        tool_use_id: "tool-1".to_string(),
        tool_input: Json::Null,
        tool_response: Json::Text(ORIGINAL_OUTPUT.to_string()),
        exact_tool_response: Some(Json::Text(ORIGINAL_OUTPUT.to_string())),
        is_code_mode_nested: nested,
        code_mode_cell_id: None,
        code_mode_tool_call_id: None,
        parent_intent: None,
    }
}

fn hook_output(stop_reason: &str, response_id: &str) -> ManagedHookOutput {
    ManagedHookOutput {
        continue_processing: false,
        stop_reason: stop_reason.to_string(),
        hook_specific_output: ManagedHookSpecificOutput {
            hook_event_name: "PostToolUse".to_string(),
            response_id: response_id.to_string(),
        },
    }
}

fn active() -> PwrdrvrTokenMiserGate {
    let mut managed = PwrdrvrTokenMiserGate::new();
    managed.set_activation_nonce(Some(NONCE.to_string()));
    managed
}

/// Shows a tool call to the bridge. The second part of the result lists the requests.
fn run(
    managed: &PwrdrvrTokenMiserGate,
    request: &PostToolUseRequest,
    success: bool,
    chunk: usize,
    output: Option<ManagedHookOutput>,
) -> (Option<ManagedPostToolUseReplacement>, Vec<(String, String, String)>) {
    let mut requests = Vec::new();
    let mut output = output;
    let mut chunks = vec![vec![b'x'; chunk]];
    let mut step = managed.begin(request);
    loop {
        let event = match step.1 {
            ManagedAction::ReadDescriptor => ManagedEvent::DescriptorRead(Some(wire())),
            ManagedAction::SendRequest { url, token, body } => {
                requests.push((url, token, body));
                ManagedEvent::ResponseStarted { success, content_length: None }
            }
            ManagedAction::ReadChunk => match chunks.pop() {
                Some(chunk) => ManagedEvent::ChunkRead(chunk),
                None => ManagedEvent::BodyEnded,
            },
            ManagedAction::ParseBody { body } => {
                assert_eq!(body.len(), chunk);
                ManagedEvent::BodyParsed(output.take())
            }
            ManagedAction::Finish => break,
        };
        step = managed.advance(step.0, event, request);
    }
    match step.0 {
        ManagedPhase::Finished { replacement } => (replacement, requests),
        other => panic!("unfinished: {other:?}"),
    }
}

#[test]
fn managed_activation_replaces_exact_direct_output_without_installing_a_hook() {
    let (replacement, requests) =
        run(&active(), &request(false), true, 9, Some(hook_output(REPLACEMENT, "managed-response-1")));
    assert_eq!(
        replacement,
        Some(ManagedPostToolUseReplacement {
            text: REPLACEMENT.to_string(),
            response_id: "managed-response-1".to_string(),
        })
    );
    assert_eq!(requests.len(), 1);
    assert_eq!(requests[0].0, "http://127.0.0.1:4100/v1/post-tool-use");
    assert_eq!(requests[0].1, BEARER);
    let post_tool_use: Value = serde_json::from_str(&requests[0].2).expect("hook input");
    assert_eq!(post_tool_use["hook_event_name"], "PostToolUse");
    assert_eq!(post_tool_use["tool_name"], "Bash");
    assert_eq!(post_tool_use["token_miser_exact_tool_response_version"], 1);
    assert_eq!(post_tool_use["token_miser_exact_tool_response"], ORIGINAL_OUTPUT);
    let call = active()
        .accept(
            wire(),
            &PostToolUseAcceptanceContext {
                response_id: "managed-response-1",
                session_id: "session-1",
                turn_id: "turn-1",
                tool_use_id: "tool-1",
            },
        )
        .expect("an active session");
    assert_eq!(call.url, "http://127.0.0.1:4100/v1/accept");
    assert_eq!(call.token, BEARER);
    assert_eq!(
        call.body,
        r#"{"version":1,"response_id":"managed-response-1","session_id":"session-1","turn_id":"turn-1","tool_use_id":"tool-1"}"#
    );
}

#[test]
fn managed_bridge_failure_fails_open_to_original_tool_output() {
    let (replacement, requests) =
        run(&active(), &request(false), false, 0, Some(hook_output(REPLACEMENT, "managed-response-1")));
    assert_eq!(replacement, None);
    assert_eq!(requests.len(), 1);
    let (replacement, _) = run(&active(), &request(false), true, 0, None);
    assert_eq!(replacement, None);
    let (replacement, _) = run(
        &active(),
        &request(false),
        true,
        2 * 1024 * 1024 + 1,
        Some(hook_output(REPLACEMENT, "managed-response-1")),
    );
    assert_eq!(replacement, None);
}

#[test]
fn managed_multibyte_replacement_over_byte_cap_fails_open() {
    let (replacement, requests) = run(
        &active(),
        &request(false),
        true,
        0,
        Some(hook_output(&"é".repeat(4_000), "managed-response-oversized")),
    );
    assert_eq!(replacement, None);
    assert_eq!(requests.len(), 1);
    assert!(select_managed_replacement(Some(hook_output(&"é".repeat(2_000), "fits"))).is_some());
}

#[test]
fn managed_gate_does_not_delay_or_intercept_nested_code_mode_tools() {
    let (replacement, requests) =
        run(&active(), &request(true), true, 0, Some(hook_output(REPLACEMENT, "managed-response-1")));
    assert_eq!(replacement, None);
    assert!(requests.is_empty());
}

#[test]
fn an_inactive_session_is_never_shown_to_the_bridge() {
    let mut managed = PwrdrvrTokenMiserGate::new();
    assert!(!managed.is_enabled());
    let (replacement, requests) = run(&managed, &request(false), true, 0, Some(hook_output(REPLACEMENT, "r")));
    assert_eq!(replacement, None);
    assert!(requests.is_empty());
    managed.set_activation_nonce(Some(NONCE.to_string()));
    assert!(managed.is_enabled());
    managed.set_activation_nonce(None);
    assert!(!managed.is_enabled());
    let identity =
        PostToolUseAcceptanceContext { response_id: "r", session_id: "s", turn_id: "t", tool_use_id: "u" };
    assert_eq!(managed.accept(wire(), &identity).map(|call| call.url), None);
}

#[test]
fn responses_must_keep_the_contract() {
    assert!(select_managed_replacement(Some(hook_output(REPLACEMENT, "r"))).is_some());
    assert!(select_managed_replacement(Some(hook_output(" \n", "r"))).is_none());
    assert!(select_managed_replacement(Some(hook_output(REPLACEMENT, ""))).is_none());
    assert!(select_managed_replacement(Some(hook_output(REPLACEMENT, &"é".repeat(256)))).is_some());
    assert!(select_managed_replacement(Some(hook_output(REPLACEMENT, &"é".repeat(257)))).is_none());
    let mut output = hook_output(REPLACEMENT, "r");
    output.continue_processing = true;
    assert!(select_managed_replacement(Some(output)).is_none());
    let mut output = hook_output(REPLACEMENT, "r");
    output.hook_specific_output.hook_event_name = "PreToolUse".to_string();
    assert!(select_managed_replacement(Some(output)).is_none());
    assert!(bounded_non_empty("é", 1) && !bounded_non_empty("éé", 1) && !bounded_non_empty(" ", 1));
    assert!(bounded_replacement("é", 2) && !bounded_replacement("é", 1) && !bounded_replacement(" ", 2));
}

#[test]
fn descriptors_must_repeat_the_session() {
    let mismatch = "Token Miser descriptor identity did not match initialize";
    let checked = check_descriptor(wire(), NONCE).expect("a good descriptor");
    assert_eq!(checked.url, "http://127.0.0.1:4100/v1/post-tool-use");
    assert_eq!(checked.acceptance_url, "http://127.0.0.1:4100/v1/accept");
    assert_eq!(checked.token, BEARER);
    assert_eq!(check_descriptor(wire(), BEARER).expect_err("another nonce"), mismatch);
    let mut descriptor = wire();
    descriptor.version = 2;
    assert_eq!(check_descriptor(descriptor, NONCE).expect_err("another version"), mismatch);
    let mut descriptor = wire();
    descriptor.identity = "somebody.else".to_string();
    assert_eq!(check_descriptor(descriptor, NONCE).expect_err("another identity"), mismatch);
    let mut descriptor = wire();
    descriptor.token = "short".to_string();
    assert_eq!(
        check_descriptor(descriptor, NONCE).expect_err("a bad token"),
        "Token Miser bearer token must be unpadded base64url"
    );
    let mut descriptor = wire();
    descriptor.url = "http://127.0.0.1/?query".to_string();
    assert_eq!(
        check_descriptor(descriptor, NONCE).expect_err("a query"),
        "Token Miser url must be credential-free loopback HTTP"
    );
    let mut descriptor = wire();
    descriptor.acceptance_url = "http://127.0.0.1/#fragment".to_string();
    assert_eq!(
        check_descriptor(descriptor, NONCE).expect_err("a fragment"),
        "Token Miser acceptance_url must be credential-free loopback HTTP"
    );
}

#[test]
fn secrets_are_unpadded_base64url_of_256_bits() {
    assert_eq!(validate_nonce(NONCE), Ok(()));
    assert_eq!(validate_token(BEARER), Ok(()));
    assert_eq!(
        validate_nonce("AAAA"),
        Err("Token Miser activation nonce must contain at least 256 bits".to_string())
    );
    for bad in ["A", "AB", "ABC", "AA==", "AA+A", "AA/A", "AA A", "AAé"] {
        assert_eq!(
            validate_base64_secret(bad, "secret").err().map(|error| error.contains("unpadded base64url")),
            Some(!base64url_accepts(bad)),
            "{bad}"
        );
    }
    assert_eq!(validate_base64_secret("AA", "secret").is_err(), true);
}

fn base64url_accepts(secret: &str) -> bool {
    base64::Engine::decode(&base64::engine::general_purpose::URL_SAFE_NO_PAD, secret).is_ok()
}

#[test]
fn endpoints_are_parsed_before_they_are_called() {
    assert_eq!(parse_loopback_endpoint("http://127.1/a b", "url"), Ok("http://127.0.0.1/a%20b".to_string()));
    assert_eq!(
        parse_loopback_endpoint("http://", "url"),
        Err("Token Miser url is malformed: empty host".to_string())
    );
    let parts = |query: Option<&str>, fragment: Option<&str>| UrlParts {
        scheme: "http".to_string(),
        host: UrlHost::Ipv6(1),
        username: String::new(),
        password: None,
        query: query.map(str::to_string),
        fragment: fragment.map(str::to_string),
        href: "http://[::1]/".to_string(),
    };
    assert_eq!(bridge_address(Ok(parts(None, None)), "url"), Ok("http://[::1]/".to_string()));
    assert!(bridge_address(Ok(parts(Some("q"), None)), "url").is_err());
    assert!(bridge_address(Ok(parts(None, Some("f"))), "url").is_err());
    assert_eq!(
        bridge_address(Err("broken".to_string()), "acceptance_url"),
        Err("Token Miser acceptance_url is malformed: broken".to_string())
    );
}

#[test]
fn descriptor_files_must_be_private() {
    assert_eq!(validate_descriptor_file(true, MAX_DESCRIPTOR_BYTES as u64, Some(0o100600)), Ok(()));
    assert_eq!(validate_descriptor_file(true, 0, None), Ok(()));
    assert_eq!(
        validate_descriptor_file(false, 0, Some(0o600)),
        Err("Token Miser descriptor must be a regular file".to_string())
    );
    let too_long = Err("Token Miser descriptor exceeded its byte limit".to_string());
    assert_eq!(validate_descriptor_file(true, MAX_DESCRIPTOR_BYTES as u64 + 1, Some(0o600)), too_long);
    assert_eq!(check_descriptor_length(MAX_DESCRIPTOR_BYTES + 1), too_long);
    assert_eq!(check_descriptor_length(MAX_DESCRIPTOR_BYTES), Ok(()));
    for mode in [0o640, 0o604, 0o601, 0o610] {
        assert_eq!(
            validate_descriptor_file(true, 0, Some(mode)),
            Err("Token Miser descriptor permissions must be private".to_string())
        );
    }
    assert_eq!(validate_descriptor_directory(Some((true, 0o40700))), Ok(()));
    let open = Err("Token Miser descriptor directory permissions must be private".to_string());
    assert_eq!(validate_descriptor_directory(Some((true, 0o755))), open);
    assert_eq!(validate_descriptor_directory(Some((false, 0o700))), open);
    assert_eq!(
        validate_descriptor_directory(None),
        Err("Token Miser descriptor has no parent directory".to_string())
    );
    assert_eq!(check_descriptor_path(true, true), Ok(()));
    assert_eq!(check_descriptor_path(false, false), Err(format!("{DESCRIPTOR_ENVIRONMENT_VARIABLE} is not set")));
    assert_eq!(
        check_descriptor_path(true, false),
        Err("Token Miser descriptor path must be absolute".to_string())
    );
}

#[test]
fn an_activation_needs_its_nonce_and_its_descriptor() {
    assert_eq!(validate_activation(NONCE, Ok(wire())), Ok(()));
    assert_eq!(validate_activation(NONCE, Err("missing".to_string())), Err("missing".to_string()));
    assert_eq!(
        validate_activation("no", Err("missing".to_string())),
        Err("Token Miser activation nonce must be unpadded base64url".to_string())
    );
    assert_eq!(
        validate_activation("AAAA", Ok(wire())),
        Err("Token Miser activation nonce must contain at least 256 bits".to_string())
    );
}

use relay::json::{to_compact, Json};
use relay::sandbox::{
    attribute_count, check_launch, environment_block, launch_decision, poll_step, quote_argument,
    to_ascii_lower, validate_policy, wide, worker_command_line, JobLimitEvidence, MailboxRead,
    PollStep, StableSandboxPolicy, STILL_ACTIVE,
};

fn policy(mailbox: &str) -> StableSandboxPolicy {
    StableSandboxPolicy {
        identity: "DSIRelay.Adapter.abc".to_string(),
        read_write_paths: vec![mailbox.to_string()],
        read_only_paths: vec![],
        capabilities: vec![],
        disallow_win32k: true,
        max_process_memory_bytes: 1 << 28,
        timeout_ms: 5000,
        environment: vec![],
    }
}

fn encoded(text: &str) -> Vec<u16> {
    text.encode_utf16().collect()
}

#[test]
fn policies_refuse_capabilities_and_blank_identities() {
    assert!(validate_policy(&policy("/m")).is_ok());
    let mut with_capability = policy("/m");
    with_capability.capabilities.push("internetClient".to_string());
    let error = validate_policy(&with_capability).err().unwrap();
    assert_eq!(error.code, "STABLE_SANDBOX_DIRECT_CAPABILITY_UNSUPPORTED");
    assert_eq!(
        error.message,
        "stable LPAC workers receive no direct capabilities; privileged egress must be brokered by RELAY"
    );
    let mut blank = policy("/m");
    blank.identity = " \t".to_string();
    let error = validate_policy(&blank).err().unwrap();
    assert_eq!(error.code, "STABLE_SANDBOX_CONFIGURATION_INVALID");
    assert_eq!(error.message, "AppContainer identity must be non-empty");
}

#[test]
fn launches_need_the_apis_absolute_paths_and_the_mailbox_grant() {
    let p = policy("/m");
    assert!(launch_decision(&p, true, true, true).is_ok());
    assert_eq!(launch_decision(&p, false, true, true).err().unwrap().code, "STABLE_SANDBOX_UNAVAILABLE");
    let error = launch_decision(&p, true, false, true).err().unwrap();
    assert_eq!(error.message, "worker and mailbox paths must be absolute");
    let error = launch_decision(&p, true, true, false).err().unwrap();
    assert_eq!(
        error.message,
        "stable untrusted workers receive exactly one read/write grant: the broker-owned mailbox"
    );
    let mut two = policy("/m");
    two.read_write_paths.push("/other".to_string());
    assert_eq!(launch_decision(&two, true, true, true).err().unwrap().code, "STABLE_SANDBOX_CONFIGURATION_INVALID");

    let worker = "/srv/relay/worker.exe".to_string();
    let mailbox = "/srv/relay/mailbox".to_string();
    assert!(check_launch(&worker, &mailbox, &policy(&mailbox), true).is_ok());
    let relative = check_launch("worker.exe", &mailbox, &policy(&mailbox), true).err().unwrap();
    assert_eq!(relative.code, "STABLE_SANDBOX_CONFIGURATION_INVALID");
    assert_eq!(relative.message, "worker and mailbox paths must be absolute");
    let relative_mailbox = check_launch(&worker, "mailbox", &policy("mailbox"), true).err().unwrap();
    assert_eq!(relative_mailbox.code, "STABLE_SANDBOX_CONFIGURATION_INVALID");
    assert!(check_launch(&worker, &mailbox, &policy("/elsewhere"), true).is_err());
    assert_eq!(check_launch(&worker, &mailbox, &policy(&mailbox), false).err().unwrap().code, "STABLE_SANDBOX_UNAVAILABLE");
}

#[test]
fn command_lines_quote_both_paths() {
    assert_eq!(quote_argument(r"C:\a b\w.exe"), "\"C:\\a b\\w.exe\"");
    assert_eq!(quote_argument("x\"y"), "\"x\\\"y\"");
    assert_eq!(worker_command_line("w", "m"), "\"w\" \"m\"");
    let mut p = policy("/m");
    assert_eq!(attribute_count(&p), 3);
    p.disallow_win32k = false;
    assert_eq!(attribute_count(&p), 2);
}

#[test]
fn wide_strings_are_nul_terminated_utf16() {
    let mut expected = encoded("añ😀");
    expected.push(0);
    assert_eq!(wide("añ😀"), expected);
    assert_eq!(wide(""), vec![0]);
    assert_eq!(to_ascii_lower("PATH=Ä"), "path=Ä");
}

#[test]
fn environment_blocks_sort_names_without_case() {
    let values = vec![
        ("TEMP".to_string(), "C:\\t".to_string()),
        ("path".to_string(), "x".to_string()),
        ("Path".to_string(), "y".to_string()),
        ("APPDATA".to_string(), "😀".to_string()),
    ];
    let mut expected = Vec::new();
    for entry in ["APPDATA=😀", "path=x", "Path=y", "TEMP=C:\\t"] {
        expected.extend(encoded(entry));
        expected.push(0);
    }
    expected.push(0);
    assert_eq!(environment_block(&values), expected);
    assert_eq!(environment_block(&vec![]), vec![0]);
}

#[test]
fn polls_finish_on_response_exit_error_or_timeout() {
    match poll_step(MailboxRead::Parsed(Json::Bool(true)), Ok(STILL_ACTIVE), false) {
        PollStep::Finished(Ok(j)) => assert_eq!(to_compact(&j), "true"),
        _ => panic!("a response finishes the run"),
    }
    match poll_step(MailboxRead::ReadFailed("denied".to_string()), Ok(STILL_ACTIVE), false) {
        PollStep::Finished(Err(e)) => {
            assert_eq!(e.code, "STABLE_SANDBOX_RESPONSE_ERROR");
            assert_eq!(e.message, "read stable sandbox response: denied");
        }
        _ => panic!("an unreadable response finishes the run"),
    }
    match poll_step(MailboxRead::Malformed("eof".to_string()), Ok(STILL_ACTIVE), false) {
        PollStep::Finished(Err(e)) => assert_eq!(e.message, "worker response was not valid JSON: eof"),
        _ => panic!("a malformed response finishes the run"),
    }
    match poll_step(MailboxRead::Nothing, Err(5), false) {
        PollStep::Finished(Err(e)) => {
            assert_eq!(e.code, "STABLE_SANDBOX_PROCESS_ERROR");
            assert_eq!(e.message, "GetExitCodeProcess failed: 5");
        }
        _ => panic!("a failed exit query finishes the run"),
    }
    match poll_step(MailboxRead::Nothing, Ok(3), false) {
        PollStep::Finished(Err(e)) => {
            assert_eq!(e.code, "STABLE_SANDBOX_WORKER_EXITED");
            assert_eq!(e.message, "stable AppContainer worker exited with code 3 before response");
        }
        _ => panic!("an early exit finishes the run"),
    }
    match poll_step(MailboxRead::Nothing, Ok(STILL_ACTIVE), true) {
        PollStep::Terminate(e) => assert_eq!(e.code, "STABLE_SANDBOX_TIMEOUT"),
        _ => panic!("the deadline ends the run"),
    }
    assert!(matches!(poll_step(MailboxRead::Nothing, Ok(STILL_ACTIVE), false), PollStep::Wait));
}

#[test]
fn job_limit_evidence_compares_by_fields() {
    let a = JobLimitEvidence { active_process_limit: 1, process_memory_limit_bytes: 64, kill_on_close: true };
    let b = JobLimitEvidence { active_process_limit: 1, process_memory_limit_bytes: 64, kill_on_close: true };
    assert!(a == b);
}

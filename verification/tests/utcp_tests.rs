//! The declarative backend: manifest loading, planning, and execution
//! bookkeeping.

use mcpeek::executor::{CliAction, CliStep};
use mcpeek::json::JsonValue;
use mcpeek::protocol::ContentItem;
use mcpeek::utcp::{http_result, load_manual, ToolInvocation, UtcpClient, UtcpError};

fn manifest_text() -> String {
    "{\"manual_version\":\"1.0\",\"utcp_version\":\"0.1\",\"info\":{\"title\":\"demo\",\"version\":\"2.0\",\"description\":\"a demo\"},\"variables\":{\"BASE\":\"https://api.example.com\",\"KEY\":\"secret\"},\"tools\":[{\"name\":\"fetch\",\"description\":\"fetch a thing\",\"inputs\":{\"type\":\"object\"},\"outputs\":{},\"tool_call_template\":{\"call_template_type\":\"http\",\"url\":\"${BASE}/items/{id}\",\"http_method\":\"GET\",\"auth\":{\"auth_type\":\"api_key\",\"api_key\":\"${KEY}\"},\"headers\":{\"x-trace\":\"${KEY}-trace\"}}},{\"name\":\"run\",\"inputs\":{},\"outputs\":{},\"tool_call_template\":{\"call_template_type\":\"cli\",\"commands\":[\"echo {word}\",\"echo second\"]}},{\"name\":\"gather\",\"inputs\":{},\"outputs\":{},\"tool_call_template\":{\"call_template_type\":\"cli\",\"commands\":[\"echo one\",\"echo two\"],\"append_to_final_output\":true}}]}"
    .to_string()
}

fn client() -> UtcpClient {
    UtcpClient::from_manual_text(&manifest_text(), Vec::new()).unwrap()
}

#[test]
fn test_load_manual_accepts_well_formed_document() {
    let manual = load_manual(&manifest_text()).unwrap();
    assert_eq!(manual.manual_version, "1.0");
    assert_eq!(manual.info.title, "demo");
    assert_eq!(manual.tools.len(), 3);
    assert_eq!(manual.tools[0].name, "fetch");
}

#[test]
fn test_load_manual_rejects_malformed_documents() {
    assert!(load_manual("not json at all").is_err());
    assert!(load_manual("{}").is_err());
    // A tool without a call template is rejected at load time.
    let missing_template = "{\"manual_version\":\"1\",\"utcp_version\":\"1\",\"info\":{\"title\":\"t\",\"version\":\"v\"},\"tools\":[{\"name\":\"x\",\"inputs\":{},\"outputs\":{}}]}";
    assert!(load_manual(missing_template).is_err());
    // A wrongly typed field is rejected too.
    let bad_variables = "{\"manual_version\":\"1\",\"utcp_version\":\"1\",\"info\":{\"title\":\"t\",\"version\":\"v\"},\"variables\":{\"A\":3},\"tools\":[]}";
    assert!(load_manual(bad_variables).is_err());
}

#[test]
fn test_list_tools_twice_identical() {
    let c = client();
    let first = c.list_tools();
    let second = c.list_tools();
    assert_eq!(first.len(), second.len());
    for i in 0..first.len() {
        assert_eq!(first[i].name, second[i].name);
        assert_eq!(first[i].description, second[i].description);
    }
}

#[test]
fn test_list_tools_descriptors() {
    let c = client();
    let tools = c.list_tools();
    assert_eq!(tools.len(), 3);
    assert_eq!(tools[0].name, "fetch");
    assert_eq!(tools[0].description.as_deref(), Some("fetch a thing"));
    assert_eq!(tools[1].name, "run");
    assert!(tools[1].description.is_none());
}

#[test]
fn test_server_info_from_manual() {
    let c = client();
    let info = c.server_info();
    assert_eq!(info.name, "demo");
    assert_eq!(info.version, "2.0");
    assert_eq!(info.protocol_type, "UTCP");
    assert_eq!(info.capabilities.len(), 3);
    assert_eq!(info.capabilities[0], "3 tools");
}

#[test]
fn test_plan_http_call_with_api_key_default_header() {
    let c = client();
    let args = vec![("id".to_string(), JsonValue::Number("7".to_string()))];
    match c.plan_call(&"fetch".to_string(), &args).unwrap() {
        ToolInvocation::Http(plan) => {
            assert_eq!(plan.url, "https://api.example.com/items/7");
            // An API key with neither header nor query parameter named
            // lands in the default Authorization header.
            assert_eq!(plan.headers[0].0, "Authorization");
            assert_eq!(plan.headers[0].1, "ApiKey secret");
            assert_eq!(plan.headers[1].0, "x-trace");
            assert_eq!(plan.headers[1].1, "secret-trace");
            assert!(plan.query.is_empty());
            assert!(plan.basic_auth.is_none());
            assert!(plan.body_json.is_none());
        }
        _ => panic!("expected an HTTP plan"),
    }
}

#[test]
fn test_plan_unknown_tool() {
    let c = client();
    match c.plan_call(&"nope".to_string(), &Vec::new()) {
        Err(UtcpError::UnknownTool { name }) => assert_eq!(name, "nope"),
        _ => panic!("expected an unknown-tool error"),
    }
}

#[test]
fn test_plan_missing_variable_is_named() {
    let text = "{\"manual_version\":\"1\",\"utcp_version\":\"1\",\"info\":{\"title\":\"t\",\"version\":\"v\"},\"tools\":[{\"name\":\"x\",\"inputs\":{},\"outputs\":{},\"tool_call_template\":{\"call_template_type\":\"http\",\"url\":\"${NO_SUCH}\",\"http_method\":\"GET\"}}]}";
    let c = UtcpClient::from_manual_text(text, Vec::new()).unwrap();
    match c.plan_call(&"x".to_string(), &Vec::new()) {
        Err(UtcpError::MissingVariable { missing }) => assert_eq!(missing, "NO_SUCH"),
        _ => panic!("expected a missing-variable error"),
    }
}

#[test]
fn test_cli_single_mode_runs_first_command_only() {
    let c = client();
    let args = vec![("word".to_string(), JsonValue::Text("hello".to_string()))];
    let mut run = match c.plan_call(&"run".to_string(), &args).unwrap() {
        ToolInvocation::Cli(run) => run,
        _ => panic!("expected a CLI run"),
    };
    // Two commands stand in the plan, but only the first is offered.
    assert_eq!(run.plan.steps.len(), 2);
    let first = match run.next_action() {
        CliAction::Execute(index) => index,
        _ => panic!("one command should be offered"),
    };
    assert_eq!(first, 0);
    match &run.plan.steps[0] {
        CliStep::Command(words) => {
            assert_eq!(words, &vec!["echo".to_string(), "hello".to_string()])
        }
        _ => panic!("expected a resolved command"),
    }

    run.record("hello\n".to_string(), "", true);
    // The run is over: the second command is never offered.
    assert!(matches!(run.next_action(), CliAction::Finished));
    let result = run.outcome().unwrap();
    assert!(!result.is_error);
    match &result.content[0] {
        ContentItem::Text(t) => assert_eq!(t, "hello\n"),
        _ => panic!("expected text content"),
    }
}

#[test]
fn test_cli_single_mode_reflects_exit_status_and_stderr() {
    let c = client();
    let args = vec![("word".to_string(), JsonValue::Text("x".to_string()))];
    let mut run = match c.plan_call(&"run".to_string(), &args).unwrap() {
        ToolInvocation::Cli(run) => run,
        _ => panic!("expected a CLI run"),
    };
    assert!(matches!(run.next_action(), CliAction::Execute(0)));
    run.record("out".to_string(), "bad things", false);
    let result = run.outcome().unwrap();
    assert!(result.is_error);
    match &result.content[0] {
        ContentItem::Text(t) => assert_eq!(t, "out\nSTDERR:\nbad things"),
        _ => panic!("expected text content"),
    }
}

#[test]
fn test_cli_accumulate_mode_joins_outputs_and_swallows_failures() {
    let c = client();
    let mut run = match c.plan_call(&"gather".to_string(), &Vec::new()).unwrap() {
        ToolInvocation::Cli(run) => run,
        _ => panic!("expected a CLI run"),
    };
    assert!(matches!(run.next_action(), CliAction::Execute(0)));
    run.record("one".to_string(), "", true);
    assert!(matches!(run.next_action(), CliAction::Execute(1)));
    // The second command fails, and the accumulated result hides it.
    run.record("two".to_string(), "ignored", false);
    assert!(matches!(run.next_action(), CliAction::Finished));
    let result = run.outcome().unwrap();
    assert!(!result.is_error);
    match &result.content[0] {
        ContentItem::Text(t) => assert_eq!(t, "one\ntwo"),
        _ => panic!("expected text content"),
    }
}

#[test]
fn test_get_prompt_always_unsupported() {
    let c = client();
    match c.get_prompt("anything") {
        Err(UtcpError::Unsupported) => {}
        _ => panic!("prompts must be unsupported"),
    }
    assert!(c.list_prompts().is_empty());
}

#[test]
fn test_read_resource_always_unsupported() {
    let c = client();
    match c.read_resource("file:///x") {
        Err(UtcpError::Unsupported) => {}
        _ => panic!("resources must be unsupported"),
    }
    assert!(c.list_resources().is_empty());
}

#[test]
fn test_logs_drain_once() {
    let mut c = client();
    c.initialize();
    c.log("calling tool".to_string());
    let first = c.get_logs();
    assert_eq!(first.len(), 2);
    assert_eq!(first[0], "UTCP client initialized");
    assert_eq!(first[1], "calling tool");
    // A second drain returns only what came after the first.
    assert!(c.get_logs().is_empty());
    c.log("later".to_string());
    let second = c.get_logs();
    assert_eq!(second.len(), 1);
    assert_eq!(second[0], "later");
}

#[test]
fn test_http_result_status_classes() {
    let ok = http_result(200, "fine".to_string());
    assert!(!ok.is_error);
    match &ok.content[0] {
        ContentItem::Text(t) => assert_eq!(t, "fine"),
        _ => panic!("expected text"),
    }
    assert!(!http_result(299, String::new()).is_error);
    assert!(http_result(199, String::new()).is_error);
    assert!(http_result(300, String::new()).is_error);
    assert!(http_result(404, "missing".to_string()).is_error);
    assert!(http_result(500, String::new()).is_error);
}

#[test]
fn test_environment_reaches_templates() {
    let text = "{\"manual_version\":\"1\",\"utcp_version\":\"1\",\"info\":{\"title\":\"t\",\"version\":\"v\"},\"tools\":[{\"name\":\"x\",\"inputs\":{},\"outputs\":{},\"tool_call_template\":{\"call_template_type\":\"http\",\"url\":\"${HOST}/x\",\"http_method\":\"GET\"}}]}";
    let env = vec![("HOST".to_string(), "http://envhost".to_string())];
    let c = UtcpClient::from_manual_text(text, env).unwrap();
    match c.plan_call(&"x".to_string(), &Vec::new()).unwrap() {
        ToolInvocation::Http(plan) => assert_eq!(plan.url, "http://envhost/x"),
        _ => panic!("expected an HTTP plan"),
    }
}

#[test]
fn test_cli_unresolved_later_command_cannot_fail_single_mode() {
    // With accumulation off, a command after the first is never reached, so
    // an unresolvable name there never fails the call.
    let text = "{\"manual_version\":\"1\",\"utcp_version\":\"1\",\"info\":{\"title\":\"t\",\"version\":\"v\"},\"tools\":[{\"name\":\"x\",\"inputs\":{},\"outputs\":{},\"tool_call_template\":{\"call_template_type\":\"cli\",\"commands\":[\"echo hi\",\"use ${UNSET}\"]}}]}";
    let c = UtcpClient::from_manual_text(text, Vec::new()).unwrap();
    let mut run = match c.plan_call(&"x".to_string(), &Vec::new()).unwrap() {
        ToolInvocation::Cli(run) => run,
        _ => panic!("expected a CLI run"),
    };
    assert!(matches!(run.next_action(), CliAction::Execute(0)));
    run.record("hi\n".to_string(), "", true);
    assert!(matches!(run.next_action(), CliAction::Finished));
    let result = run.outcome().unwrap();
    assert!(!result.is_error);
    match &result.content[0] {
        ContentItem::Text(t) => assert_eq!(t, "hi\n"),
        _ => panic!("expected text content"),
    }
}

#[test]
fn test_cli_unresolved_command_fails_when_reached() {
    // With accumulation on, earlier commands run first; the unresolved name
    // fails the call only at its own turn.
    let text = "{\"manual_version\":\"1\",\"utcp_version\":\"1\",\"info\":{\"title\":\"t\",\"version\":\"v\"},\"tools\":[{\"name\":\"x\",\"inputs\":{},\"outputs\":{},\"tool_call_template\":{\"call_template_type\":\"cli\",\"commands\":[\"echo one\",\"${UNSET} two\"],\"append_to_final_output\":true}}]}";
    let c = UtcpClient::from_manual_text(text, Vec::new()).unwrap();
    let mut run = match c.plan_call(&"x".to_string(), &Vec::new()).unwrap() {
        ToolInvocation::Cli(run) => run,
        _ => panic!("expected a CLI run"),
    };
    assert!(matches!(run.next_action(), CliAction::Execute(0)));
    run.record("one".to_string(), "", true);
    assert!(matches!(run.next_action(), CliAction::Abort(1)));
    let err = run.outcome().unwrap_err();
    assert_eq!(err.missing, "UNSET");
}

#[test]
fn test_cli_unresolved_before_first_command_aborts_at_once() {
    // A whitespace-only command is passed over; the unresolved one behind it
    // stops the run before anything executes, as its turn comes first.
    let text = "{\"manual_version\":\"1\",\"utcp_version\":\"1\",\"info\":{\"title\":\"t\",\"version\":\"v\"},\"tools\":[{\"name\":\"x\",\"inputs\":{},\"outputs\":{},\"tool_call_template\":{\"call_template_type\":\"cli\",\"commands\":[\"   \",\"use ${UNSET}\",\"echo hi\"]}}]}";
    let c = UtcpClient::from_manual_text(text, Vec::new()).unwrap();
    let run = match c.plan_call(&"x".to_string(), &Vec::new()).unwrap() {
        ToolInvocation::Cli(run) => run,
        _ => panic!("expected a CLI run"),
    };
    assert!(matches!(run.next_action(), CliAction::Abort(1)));
    let err = run.outcome().unwrap_err();
    assert_eq!(err.missing, "UNSET");
}

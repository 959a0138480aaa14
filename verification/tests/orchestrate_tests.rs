use rusty_cli::messages::{ChatMessage, Role, ToolCall};
use rusty_cli::orchestrate::{LoopState, Orchestrator, Step};
use rusty_cli::settings::Mode;
use rusty_cli::tools::{RegisteredTool, ToolKind, ToolRegistry, ToolSpec};

fn spec(name: &str, read_only: bool) -> ToolSpec {
    ToolSpec {
        name: name.to_string(),
        description: format!("the {} tool", name),
        parameters: "{\"type\":\"object\"}".to_string(),
        read_only,
    }
}

fn call(id: Option<&str>, name: &str, arguments: &str) -> ToolCall {
    ToolCall {
        id: id.map(|s| s.to_string()),
        name: name.to_string(),
        arguments: arguments.to_string(),
    }
}

#[test]
fn planning_never_executes_a_non_read_only_tool() {
    let mut reg = ToolRegistry::new();
    reg.register(RegisteredTool {
        spec_: spec("writer", false),
        kind: ToolKind::Remote { server: "files".to_string() },
    });
    let mut orch = Orchestrator::new(Vec::new(), Mode::Planning, 8);
    let step = orch.on_model_response(None, vec![call(Some("c1"), "writer", "{}")], &reg);
    // the call is refused, recorded, and the loop proceeds to the next turn
    assert!(matches!(step, Step::CallModel));
    assert_eq!(orch.history.len(), 1);
    assert!(matches!(orch.history[0].role, Role::Tool));
    assert_eq!(
        orch.history[0].content,
        "{\"error\":\"tool 'writer' is disabled in planning mode\"}"
    );
    assert_eq!(orch.history[0].name.as_deref(), Some("writer"));
    assert_eq!(orch.history[0].tool_call_id.as_deref(), Some("c1"));
}

#[test]
fn building_mode_executes_the_same_tool() {
    let mut reg = ToolRegistry::new();
    reg.register(RegisteredTool {
        spec_: spec("writer", false),
        kind: ToolKind::Remote { server: "files".to_string() },
    });
    let mut orch = Orchestrator::new(Vec::new(), Mode::Building, 8);
    let step = orch.on_model_response(None, vec![call(Some("c1"), "writer", "{}")], &reg);
    match step {
        Step::RunTool { name, .. } => assert_eq!(name, "writer"),
        _ => panic!("Building mode must hand the call out"),
    }
}

#[test]
fn unregistered_tool_calls_are_passed_over() {
    let reg = ToolRegistry::new();
    let mut orch = Orchestrator::new(Vec::new(), Mode::Building, 8);
    let step = orch.on_model_response(None, vec![call(None, "ghost", "{}")], &reg);
    assert!(matches!(step, Step::CallModel));
    assert_eq!(orch.history.len(), 0);
}

#[test]
fn content_ends_the_run_immediately() {
    let reg = ToolRegistry::with_default();
    let mut orch = Orchestrator::new(Vec::new(), Mode::Building, 8);
    let step = orch.on_model_response(Some("done".to_string()), Vec::new(), &reg);
    match step {
        Step::Finished { content } => assert_eq!(content.as_deref(), Some("done")),
        _ => panic!("content must finish the run"),
    }
    assert_eq!(orch.state, LoopState::Done);
    assert_eq!(orch.last_content.as_deref(), Some("done"));
}

#[test]
fn guard_stops_the_loop_after_guard_plus_one_round_trips() {
    let reg = ToolRegistry::with_default();
    let guard = 2u32;
    let mut orch = Orchestrator::new(Vec::new(), Mode::Building, guard);
    let mut model_calls = 0u32;
    loop {
        model_calls += 1;
        assert!(model_calls <= guard + 1, "the loop must have stopped by now");
        // the model asks for a tool on every round-trip and never answers
        let mut step = orch.on_model_response(
            None,
            vec![call(Some("t"), "echo", "{\"text\":\"x\"}")],
            &reg,
        );
        loop {
            match step {
                Step::RunTool { .. } => {
                    step = orch.on_tool_result("\"x\"".to_string(), &reg);
                }
                _ => break,
            }
        }
        match step {
            Step::CallModel => continue,
            Step::Finished { content } => {
                assert!(content.is_none());
                break;
            }
            Step::RunTool { .. } => unreachable!(),
        }
    }
    assert_eq!(model_calls, guard + 1);
    assert_eq!(orch.state, LoopState::Done);
}

#[test]
fn discovered_sum_tool_round_trip() {
    // a remote tool discovered over the transport, declared read-only
    let mut reg = ToolRegistry::with_default();
    reg.register(RegisteredTool {
        spec_: spec("sum", true),
        kind: ToolKind::Remote { server: "calc".to_string() },
    });
    let history = vec![ChatMessage {
        role: Role::User,
        content: "add 2 and 3".to_string(),
        name: None,
        tool_call_id: None,
    }];
    let mut orch = Orchestrator::new(history, Mode::Planning, 8);

    // first round-trip: the model requests the tool
    let step = orch.on_model_response(
        None,
        vec![call(Some("call_1"), "sum", "{\"a\":2,\"b\":3}")],
        &reg,
    );
    let (name, arguments, call_id) = match step {
        Step::RunTool { name, arguments, call_id } => (name, arguments, call_id),
        _ => panic!("the read-only tool must be handed out"),
    };
    assert_eq!(name, "sum");
    assert_eq!(arguments, "{\"a\":2,\"b\":3}");
    assert_eq!(call_id.as_deref(), Some("call_1"));

    // the driver executes it and reports the result
    let step = orch.on_tool_result("5".to_string(), &reg);
    assert!(matches!(step, Step::CallModel));
    let last = orch.history.last().expect("a tool message was appended");
    assert!(matches!(last.role, Role::Tool));
    assert_eq!(last.content, "5");
    assert_eq!(last.tool_call_id.as_deref(), Some("call_1"));

    // second round-trip: the model answers with text
    let step = orch.on_model_response(Some("2 + 3 = 5".to_string()), Vec::new(), &reg);
    match step {
        Step::Finished { content } => assert_eq!(content.as_deref(), Some("2 + 3 = 5")),
        _ => panic!("the final text must end the run"),
    }
}

#[test]
fn mixed_turn_refuses_then_runs_in_model_order() {
    let mut reg = ToolRegistry::with_default();
    reg.register(RegisteredTool {
        spec_: spec("writer", false),
        kind: ToolKind::Remote { server: "files".to_string() },
    });
    let mut orch = Orchestrator::new(Vec::new(), Mode::Planning, 8);
    let step = orch.on_model_response(
        None,
        vec![
            call(Some("c1"), "writer", "{}"),
            call(Some("c2"), "echo", "{\"text\":\"hi\"}"),
        ],
        &reg,
    );
    // the refused call left its message first, then the echo call is handed out
    match step {
        Step::RunTool { name, call_id, .. } => {
            assert_eq!(name, "echo");
            assert_eq!(call_id.as_deref(), Some("c2"));
        }
        _ => panic!("echo is read-only and must run"),
    }
    assert_eq!(orch.history.len(), 1);
    assert_eq!(orch.history[0].name.as_deref(), Some("writer"));
}

#[test]
fn stream_partial_text_is_folded_as_an_assistant_message() {
    let mut orch = Orchestrator::new(Vec::new(), Mode::Building, 8);
    orch.fold_stream_partial(String::new());
    assert_eq!(orch.history.len(), 0);
    orch.fold_stream_partial("partial words".to_string());
    assert_eq!(orch.history.len(), 1);
    assert!(matches!(orch.history[0].role, Role::Assistant));
    assert_eq!(orch.history[0].content, "partial words");
}

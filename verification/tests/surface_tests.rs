use rusty_cli::messages::{ChatMessage, ChatRequest, Role};
use rusty_cli::passthrough::{build_prompt, prompt_mode_of, strip_ansi_if, CliPassthroughProvider, PromptMode};
use rusty_cli::render::{export_kind, render_html, render_markdown, ExportKind};
use rusty_cli::settings::{AnthropicConfig, Mode, OllamaConfig};
use rusty_cli::tools::{Echo, ReadFile, RegisteredTool, ToolKind, ToolRegistry, ToolSpec};

fn msg(role: Role, content: &str) -> ChatMessage {
    ChatMessage { role, content: content.to_string(), name: None, tool_call_id: None }
}

fn request(system: Option<&str>, messages: Vec<ChatMessage>) -> ChatRequest {
    ChatRequest {
        model: "m".to_string(),
        system: system.map(|s| s.to_string()),
        messages,
        stream: false,
        temperature_bits: None,
        max_tokens: None,
        tools: None,
        session_id: None,
    }
}

#[test]
fn mode_parse_is_case_insensitive_and_exact_on_errors() {
    assert!(matches!(Mode::parse("planning"), Ok(Mode::Planning)));
    assert!(matches!(Mode::parse("Planning"), Ok(Mode::Planning)));
    assert!(matches!(Mode::parse("BUILDING"), Ok(Mode::Building)));
    match Mode::parse("flying") {
        Err(e) => assert_eq!(e, "invalid mode: flying (use planning|building)"),
        Ok(_) => panic!("must be rejected"),
    }
    assert_eq!(Mode::Planning.as_str(), "planning");
    assert_eq!(Mode::Building.as_str(), "building");
}

#[test]
fn raw_prompt_takes_the_last_user_message() {
    let req = request(
        None,
        vec![
            msg(Role::User, "first"),
            msg(Role::Assistant, "answer"),
            msg(Role::User, "second"),
            msg(Role::Assistant, "later"),
        ],
    );
    assert_eq!(build_prompt(&req, PromptMode::Raw), "second");
}

#[test]
fn raw_prompt_joins_contents_when_no_user_message_exists() {
    let req = request(None, vec![msg(Role::System, "a"), msg(Role::Assistant, "b")]);
    assert_eq!(build_prompt(&req, PromptMode::Raw), "a\n\nb");
}

#[test]
fn prefixed_prompt_names_the_speakers() {
    let req = request(
        Some("be kind"),
        vec![msg(Role::User, "hi"), msg(Role::Assistant, "hello"), msg(Role::Tool, "ignored")],
    );
    assert_eq!(
        build_prompt(&req, PromptMode::Prefixed),
        "System: be kind\n\nUser: hi\nAssistant: hello\n"
    );
}

#[test]
fn prompt_mode_raw_must_be_spelled_exactly() {
    assert!(matches!(prompt_mode_of(&Some("raw".to_string())), PromptMode::Raw));
    assert!(matches!(prompt_mode_of(&Some("RAW".to_string())), PromptMode::Prefixed));
    assert!(matches!(prompt_mode_of(&None), PromptMode::Prefixed));
}

#[test]
fn ansi_escapes_are_stripped_only_when_asked() {
    let colored = "\u{1b}[31mred\u{1b}[0m".to_string();
    assert_eq!(strip_ansi_if(colored.clone(), true), "red");
    assert_eq!(strip_ansi_if(colored.clone(), false), colored);
}

#[test]
fn stock_passthrough_providers_carry_their_commands() {
    let c = CliPassthroughProvider::anthropic_cli();
    assert_eq!(c.name_, "anthropic-cli");
    assert_eq!(c.command, "anthropic-cli");
    assert!(matches!(c.prompt_mode, PromptMode::Prefixed));
    let g = CliPassthroughProvider::gemini_with_model(Some("gem".to_string()));
    assert_eq!(g.args, vec!["--model".to_string(), "gem".to_string()]);
    let x = CliPassthroughProvider::custom(
        "x".to_string(),
        "xcmd".to_string(),
        Vec::new(),
        false,
        PromptMode::Raw,
        false,
        Some(5),
        None,
        None,
        None,
    );
    assert_eq!(x.command, "xcmd");
    assert!(!x.stream_capable);
}

#[test]
fn export_kind_follows_the_extension() {
    assert_eq!(export_kind("out/conv.json"), ExportKind::Json);
    assert_eq!(export_kind("page.html"), ExportKind::Html);
    assert_eq!(export_kind("notes.md"), ExportKind::Markdown);
    assert_eq!(export_kind("noext"), ExportKind::Markdown);
    assert_eq!(export_kind(".hidden"), ExportKind::Markdown);
    assert_eq!(export_kind("a.json/file"), ExportKind::Markdown);
}

#[test]
fn markdown_export_lays_out_headings() {
    let ms = vec![msg(Role::User, "hi")];
    assert_eq!(
        render_markdown(&ms, "yo"),
        "### user\n\nhi\n\n### assistant\n\nyo\n"
    );
}

#[test]
fn html_export_escapes_contents() {
    let ms = vec![msg(Role::User, "<b>&1</b>")];
    let html = render_html(&ms, "a > b");
    assert!(html.starts_with(
        "<html><head><meta charset=\"utf-8\"><title>rusty-cli export</title></head><body>\n"
    ));
    assert!(html.contains("<pre>&lt;b&gt;&amp;1&lt;/b&gt;</pre>"));
    assert!(html.contains("<h3>assistant</h3>\n<pre>a &gt; b</pre>"));
    assert!(html.ends_with("</body></html>\n"));
}

#[test]
fn echo_tool_wraps_its_arguments() {
    let echo = Echo;
    assert_eq!(echo.call("{\"text\":\"hi\"}"), "{\"echo\":{\"text\":\"hi\"}}");
}

#[test]
fn read_file_reply_reports_clipping() {
    let rf = ReadFile;
    let data: Vec<u8> = b"hello world".to_vec();
    assert_eq!(
        rf.reply("f.txt", &data, 5),
        "{\"bytes\":5,\"content\":\"hello\",\"path\":\"f.txt\",\"truncated\":true}"
    );
    assert_eq!(
        rf.reply("f.txt", &data, 100),
        "{\"bytes\":11,\"content\":\"hello world\",\"path\":\"f.txt\",\"truncated\":false}"
    );
}

#[test]
fn read_file_reply_escapes_and_decodes_lossily() {
    let rf = ReadFile;
    let data: Vec<u8> = vec![0xff, b'"', b'a'];
    assert_eq!(
        rf.reply("x", &data, 10),
        "{\"bytes\":3,\"content\":\"\u{fffd}\\\"a\",\"path\":\"x\",\"truncated\":false}"
    );
}

#[test]
fn registry_lists_in_registration_order_and_finds_first_match() {
    let mut reg = ToolRegistry::with_default();
    let specs = reg.list();
    assert_eq!(specs.len(), 2);
    assert_eq!(specs[0].name, "read_file");
    assert_eq!(specs[1].name, "echo");
    reg.register(RegisteredTool {
        spec_: ToolSpec {
            name: "echo".to_string(),
            description: "a shadowing echo".to_string(),
            parameters: "{}".to_string(),
            read_only: false,
        },
        kind: ToolKind::Remote { server: "other".to_string() },
    });
    let t = reg.get("echo").expect("registered");
    assert_eq!(t.spec_.description, "Return the provided input for debugging");
    assert!(reg.get("missing").is_none());
}

#[test]
fn filtered_listing_respects_allow_list_and_read_only() {
    let mut reg = ToolRegistry::with_default();
    reg.register(RegisteredTool {
        spec_: ToolSpec {
            name: "writer".to_string(),
            description: "writes".to_string(),
            parameters: "{}".to_string(),
            read_only: false,
        },
        kind: ToolKind::Remote { server: "files".to_string() },
    });
    let all = reg.list_filtered(None, false);
    assert_eq!(all.len(), 3);
    let read_only = reg.list_filtered(None, true);
    assert_eq!(read_only.len(), 2);
    assert!(read_only.iter().all(|s| s.read_only));
    let allow = vec!["echo".to_string(), "writer".to_string()];
    let allowed = reg.list_filtered(Some(&allow), false);
    assert_eq!(allowed.len(), 2);
    assert_eq!(allowed[0].name, "echo");
    assert_eq!(allowed[1].name, "writer");
    let allowed_ro = reg.list_filtered(Some(&allow), true);
    assert_eq!(allowed_ro.len(), 1);
    assert_eq!(allowed_ro[0].name, "echo");
}

#[test]
fn config_defaults_fill_missing_fields() {
    let ollama = OllamaConfig { base_url: None, default_model: None };
    assert_eq!(ollama.effective_base_url(), "http://localhost:11434");
    let ollama2 = OllamaConfig { base_url: Some("http://host:1".to_string()), default_model: None };
    assert_eq!(ollama2.effective_base_url(), "http://host:1");
    let a = AnthropicConfig { api_key: None, base_url: None, default_model: None, version: None };
    assert_eq!(a.effective_version(), "2023-06-01");
}

#[test]
fn message_constructors_set_their_roles() {
    let u = ChatMessage::user("hi".to_string());
    assert!(matches!(u.role, Role::User));
    assert_eq!(u.content, "hi");
    assert!(u.name.is_none() && u.tool_call_id.is_none());
    let s = ChatMessage::system("sys".to_string());
    assert!(matches!(s.role, Role::System));
    assert_eq!(s.content, "sys");
}

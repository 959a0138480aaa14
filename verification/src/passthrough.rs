//! Passthrough command-line providers: a chat backend that pipes a prompt
//! into a local command and reads its output. The settings records, the
//! prompt assembly and the output cleanup live here; spawning the command is
//! the driver's work.
use vstd::prelude::*;

use std::collections::HashMap;

use crate::messages::{ChatMessage, ChatRequest, Role};
use crate::strutil::str_eq;

verus! {

/// How the prompt is laid out on the command's standard input: the bare user
/// text, or every turn prefixed with its speaker.
#[derive(Clone, Copy, Debug, PartialEq, Eq, Structural)]
pub enum PromptMode {
    Raw,
    Prefixed,
}

/// The settings of one passthrough provider.
#[derive(Debug)]
pub struct CliPassthroughProvider {
    pub name_: String,
    pub command: String,
    pub args: Vec<String>,
    pub stream_capable: bool,
    pub prompt_mode: PromptMode,
    pub strip_ansi: bool,
    pub timeout_ms: Option<u64>,
    pub cwd: Option<String>,
    pub env: Option<HashMap<String, String>>,
    pub session_arg: Option<String>,
}

impl CliPassthroughProvider {
    /// The stock settings of the Anthropic coding command.
    pub fn anthropic_cli() -> (r: CliPassthroughProvider)
        ensures
            r.name_@ == "anthropic-cli"@,
            r.command@ == "anthropic-cli"@,
            r.args@.len() == 0,
            r.stream_capable,
            r.prompt_mode == PromptMode::Prefixed,
            r.strip_ansi,
            r.timeout_ms is None,
            r.cwd is None,
            r.env is None,
            r.session_arg is None,
    {
        CliPassthroughProvider {
            name_: String::from_str("anthropic-cli"),
            command: String::from_str("anthropic-cli"),
            args: Vec::new(),
            stream_capable: true,
            prompt_mode: PromptMode::Prefixed,
            strip_ansi: true,
            timeout_ms: None,
            cwd: None,
            env: None,
            session_arg: None,
        }
    }

    /// The stock settings of the `codex` command.
    pub fn codex() -> (r: CliPassthroughProvider)
        ensures
            r.name_@ == "codex-cli"@,
            r.command@ == "codex"@,
            r.args@.len() == 0,
            r.stream_capable,
            r.prompt_mode == PromptMode::Prefixed,
            r.strip_ansi,
            r.timeout_ms is None,
            r.cwd is None,
            r.env is None,
            r.session_arg is None,
    {
        CliPassthroughProvider {
            name_: String::from_str("codex-cli"),
            command: String::from_str("codex"),
            args: Vec::new(),
            stream_capable: true,
            prompt_mode: PromptMode::Prefixed,
            strip_ansi: true,
            timeout_ms: None,
            cwd: None,
            env: None,
            session_arg: None,
        }
    }

    /// The stock settings of the `gemini` command, with an optional model
    /// flag.
    pub fn gemini_with_model(model: Option<String>) -> (r: CliPassthroughProvider)
        ensures
            r.name_@ == "gemini-cli"@,
            r.command@ == "gemini"@,
            match model {
                Some(m) => r.args@.len() == 2 && r.args@[0]@ == "--model"@ && r.args@[1] == m,
                None => r.args@.len() == 0,
            },
            r.stream_capable,
            r.prompt_mode == PromptMode::Prefixed,
            r.strip_ansi,
            r.timeout_ms is None,
            r.cwd is None,
            r.env is None,
            r.session_arg is None,
    {
        let mut args: Vec<String> = Vec::new();
        match model {
            Some(m) => {
                args.push(String::from_str("--model"));
                args.push(m);
            },
            None => (),
        }
        CliPassthroughProvider {
            name_: String::from_str("gemini-cli"),
            command: String::from_str("gemini"),
            args,
            stream_capable: true,
            prompt_mode: PromptMode::Prefixed,
            strip_ansi: true,
            timeout_ms: None,
            cwd: None,
            env: None,
            session_arg: None,
        }
    }

    /// Settings assembled field by field, for a provider configured by hand.
    pub fn custom(
        name: String,
        command: String,
        args: Vec<String>,
        stream_capable: bool,
        prompt_mode: PromptMode,
        strip_ansi: bool,
        timeout_ms: Option<u64>,
        cwd: Option<String>,
        env: Option<HashMap<String, String>>,
        session_arg: Option<String>,
    ) -> (r: CliPassthroughProvider)
        ensures
            r.name_ == name,
            r.command == command,
            r.args == args,
            r.stream_capable == stream_capable,
            r.prompt_mode == prompt_mode,
            r.strip_ansi == strip_ansi,
            r.timeout_ms == timeout_ms,
            r.cwd == cwd,
            r.env == env,
            r.session_arg == session_arg,
    {
        CliPassthroughProvider {
            name_: name,
            command,
            args,
            stream_capable,
            prompt_mode,
            strip_ansi,
            timeout_ms,
            cwd,
            env,
            session_arg,
        }
    }
}

/// The prompt mode a configuration names: `raw` exactly spells the raw mode,
/// everything else defaults to the prefixed one.
pub open spec fn spec_prompt_mode(s: Option<Seq<char>>) -> PromptMode {
    match s {
        Some(t) => if t == "raw"@ {
            PromptMode::Raw
        } else {
            PromptMode::Prefixed
        },
        None => PromptMode::Prefixed,
    }
}

/// Reads the prompt mode out of a configuration entry.
pub fn prompt_mode_of(s: &Option<String>) -> (r: PromptMode)
    ensures
        r == spec_prompt_mode(
            match s {
                Some(t) => Some(t@),
                None => None,
            },
        ),
{
    match s {
        Some(t) => {
            if str_eq(t.as_str(), "raw") {
                PromptMode::Raw
            } else {
                PromptMode::Prefixed
            }
        },
        None => PromptMode::Prefixed,
    }
}

/// The last user message's content, if the conversation has one.
pub open spec fn last_user_content(ms: Seq<ChatMessage>) -> Option<Seq<char>>
    decreases ms.len(),
{
    if ms.len() == 0 {
        None
    } else if ms.last().role == Role::User {
        Some(ms.last().content@)
    } else {
        last_user_content(ms.drop_last())
    }
}

/// All the messages' contents, joined by blank lines.
pub open spec fn joined_contents(ms: Seq<ChatMessage>) -> Seq<char>
    decreases ms.len(),
{
    if ms.len() == 0 {
        Seq::empty()
    } else if ms.len() == 1 {
        ms[0].content@
    } else {
        joined_contents(ms.drop_last()) + "\n\n"@ + ms.last().content@
    }
}

/// The speaker-prefixed transcript of the user and assistant turns.
pub open spec fn prefixed_turns(ms: Seq<ChatMessage>) -> Seq<char>
    decreases ms.len(),
{
    if ms.len() == 0 {
        Seq::empty()
    } else {
        prefixed_turns(ms.drop_last()) + (if ms.last().role == Role::User {
            "User: "@ + ms.last().content@ + "\n"@
        } else if ms.last().role == Role::Assistant {
            "Assistant: "@ + ms.last().content@ + "\n"@
        } else {
            Seq::empty()
        })
    }
}

/// The whole prompt a request lays on the command's input. Raw mode sends
/// the last user message alone — or, without one, every content joined by
/// blank lines; prefixed mode opens with the system text and prefixes each
/// user and assistant turn with its speaker.
pub open spec fn spec_prompt(req: ChatRequest, mode: PromptMode) -> Seq<char> {
    match mode {
        PromptMode::Raw => match last_user_content(req.messages@) {
            Some(c) => c,
            None => joined_contents(req.messages@),
        },
        PromptMode::Prefixed => (match req.system {
            Some(s) => "System: "@ + s@ + "\n\n"@,
            None => Seq::empty(),
        }) + prefixed_turns(req.messages@),
    }
}

/// Assembles the prompt a passthrough command receives for a request.
pub fn build_prompt(req: &ChatRequest, mode: PromptMode) -> (r: String)
    ensures
        r@ == spec_prompt(*req, mode),
{
    match mode {
        PromptMode::Raw => {
            let n = req.messages.len();
            let mut i: usize = n;
            proof {
                assert(req.messages@.take(n as int) =~= req.messages@);
            }
            while i > 0
                invariant
                    i <= n,
                    n == req.messages@.len(),
                    mode == PromptMode::Raw,
                    last_user_content(req.messages@) == last_user_content(
                        req.messages@.take(i as int),
                    ),
                decreases i,
            {
                i = i - 1;
                proof {
                    assert(req.messages@.take(i + 1).last() == req.messages@[i as int]);
                    assert(req.messages@.take(i + 1).drop_last() =~= req.messages@.take(i as int));
                }
                if matches!(req.messages[i].role, Role::User) {
                    proof {
                        assert(req.messages@.take(i + 1).len() > 0);
                        assert(req.messages@.take(i + 1).last().role == Role::User);
                        assert(last_user_content(req.messages@.take(i + 1)) == Some(
                            req.messages@[i as int].content@,
                        ));
                        assert(last_user_content(req.messages@) == Some(
                            req.messages@[i as int].content@,
                        ));
                    }
                    return req.messages[i].content.clone();
                }
            }
            proof {
                assert(req.messages@.take(0) =~= Seq::<ChatMessage>::empty());
            }
            let mut out = String::new();
            let mut j: usize = 0;
            proof {
                assert(out@ =~= joined_contents(req.messages@.take(0)));
            }
            while j < n
                invariant
                    j <= n,
                    n == req.messages@.len(),
                    last_user_content(req.messages@) is None,
                    out@ == joined_contents(req.messages@.take(j as int)),
                decreases n - j,
            {
                if j > 0 {
                    out.append("\n\n");
                }
                out.append(req.messages[j].content.as_str());
                proof {
                    assert(req.messages@.take(j + 1).last() == req.messages@[j as int]);
                    assert(req.messages@.take(j + 1).drop_last() =~= req.messages@.take(j as int));
                    if j == 0 {
                        assert(out@ =~= joined_contents(req.messages@.take(1)));
                    } else {
                        assert(out@ =~= joined_contents(req.messages@.take(j + 1)));
                    }
                }
                j = j + 1;
            }
            proof {
                assert(req.messages@.take(n as int) =~= req.messages@);
            }
            out
        },
        PromptMode::Prefixed => {
            let mut out = String::new();
            match &req.system {
                Some(s) => {
                    out.append("System: ");
                    out.append(s.as_str());
                    out.append("\n\n");
                },
                None => (),
            }
            let ghost head = out@;
            let n = req.messages.len();
            let mut j: usize = 0;
            proof {
                assert(prefixed_turns(req.messages@.take(0)) =~= Seq::<char>::empty());
                assert(out@ =~= head + prefixed_turns(req.messages@.take(0)));
            }
            while j < n
                invariant
                    j <= n,
                    n == req.messages@.len(),
                    out@ == head + prefixed_turns(req.messages@.take(j as int)),
                decreases n - j,
            {
                let m = &req.messages[j];
                match m.role {
                    Role::User => {
                        out.append("User: ");
                        out.append(m.content.as_str());
                        out.append("\n");
                    },
                    Role::Assistant => {
                        out.append("Assistant: ");
                        out.append(m.content.as_str());
                        out.append("\n");
                    },
                    _ => (),
                }
                proof {
                    assert(req.messages@.take(j + 1).last() == req.messages@[j as int]);
                    assert(req.messages@.take(j + 1).drop_last() =~= req.messages@.take(j as int));
                    assert(out@ =~= head + prefixed_turns(req.messages@.take(j + 1)));
                }
                j = j + 1;
            }
            proof {
                assert(req.messages@.take(n as int) =~= req.messages@);
            }
            proof {
                assert(out@ =~= spec_prompt(*req, mode));
            }
            out
        },
    }
}

/// The text that remains of a command's output once its ANSI escape
/// sequences are stripped.
pub uninterp spec fn ansi_stripped(s: Seq<char>) -> Seq<char>;

/// Relies on `strip_ansi_escapes::strip`: what remains of a text depends on
/// the text alone; std's `String::from_utf8_lossy` converts the stripped
/// bytes back.
#[verifier::external_body]
fn strip_ansi_text(text: String) -> (r: String)
    ensures
        r@ == ansi_stripped(text@),
{
    let bytes = strip_ansi_escapes::strip(text);
    String::from_utf8_lossy(&bytes).into_owned()
}

/// Strips ANSI escapes from a command's output when the provider asks for
/// it, and passes the text through untouched otherwise.
pub fn strip_ansi_if(text: String, enabled: bool) -> (r: String)
    ensures
        enabled ==> r@ == ansi_stripped(text@),
        !enabled ==> r == text,
{
    if !enabled {
        return text;
    }
    strip_ansi_text(text)
}

} // verus!

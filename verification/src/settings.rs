//! Configuration and command-line data: the permission mode, the per-backend
//! configuration records, and the argument records of the non-chat commands.
use vstd::prelude::*;

use std::collections::HashMap;

verus! {

/// The permission mode gating tool execution: Planning restricts execution
/// to read-only tools, Building permits all registered tools.
#[derive(Clone, Copy, Debug, PartialEq, Eq, Structural)]
pub enum Mode {
    Planning,
    Building,
}

/// A character's code point with an ASCII capital folded to its small form.
pub open spec fn fold_char(c: char) -> int {
    if 65 <= c as int <= 90 {
        c as int + 32
    } else {
        c as int
    }
}

/// ASCII-case-insensitive equality of two texts.
pub open spec fn ci_eq(a: Seq<char>, b: Seq<char>) -> bool {
    a.len() == b.len() && forall|i: int| 0 <= i < a.len() ==> fold_char(a[i]) == fold_char(b[i])
}

/// ASCII-case-insensitive string comparison.
pub fn ci_str_eq(a: &str, b: &str) -> (r: bool)
    ensures
        r == ci_eq(a@, b@),
{
    let alen = a.unicode_len();
    let blen = b.unicode_len();
    if alen != blen {
        return false;
    }
    let mut i: usize = 0;
    while i < alen
        invariant
            i <= alen,
            alen == a@.len(),
            alen == b@.len(),
            forall|j: int| 0 <= j < i ==> fold_char(a@[j]) == fold_char(b@[j]),
        decreases alen - i,
    {
        let ca = a.get_char(i) as u32;
        let cb = b.get_char(i) as u32;
        let fa: u32 = if 65 <= ca && ca <= 90 {
            ca + 32
        } else {
            ca
        };
        let fb: u32 = if 65 <= cb && cb <= 90 {
            cb + 32
        } else {
            cb
        };
        if fa != fb {
            assert(fold_char(a@[i as int]) != fold_char(b@[i as int]));
            return false;
        }
        i = i + 1;
    }
    true
}

impl Mode {
    /// Parses a mode name, ASCII-case-insensitively; anything else is
    /// rejected with a message naming the two modes.
    pub fn parse(s: &str) -> (r: Result<Mode, String>)
        ensures
            match r {
                Ok(m) => (m == Mode::Planning && ci_eq(s@, "planning"@)) || (m == Mode::Building
                    && ci_eq(s@, "building"@)),
                Err(e) => !ci_eq(s@, "planning"@) && !ci_eq(s@, "building"@) && e@
                    == "invalid mode: "@ + s@ + " (use planning|building)"@,
            },
    {
        if ci_str_eq(s, "planning") {
            Ok(Mode::Planning)
        } else if ci_str_eq(s, "building") {
            Ok(Mode::Building)
        } else {
            let mut e = String::new();
            e.append("invalid mode: ");
            e.append(s);
            e.append(" (use planning|building)");
            proof {
                assert(e@ =~= "invalid mode: "@ + s@ + " (use planning|building)"@);
            }
            Err(e)
        }
    }

    /// The mode's name.
    pub fn as_str(&self) -> (r: &'static str)
        ensures
            *self == Mode::Planning ==> r@ == "planning"@,
            *self == Mode::Building ==> r@ == "building"@,
    {
        match self {
            Mode::Planning => "planning",
            Mode::Building => "building",
        }
    }
}

/// Ordered fallback chain of provider keys.
#[derive(Debug)]
pub struct FallbackConfig {
    pub providers: Option<Vec<String>>,
}

#[derive(Debug)]
pub struct OpenAiConfig {
    pub api_key: Option<String>,
    pub base_url: Option<String>,
    pub default_model: Option<String>,
}

#[derive(Debug)]
pub struct OllamaConfig {
    pub base_url: Option<String>,
    pub default_model: Option<String>,
}

#[derive(Debug)]
pub struct AnthropicConfig {
    pub api_key: Option<String>,
    pub base_url: Option<String>,
    pub default_model: Option<String>,
    pub version: Option<String>,
}

#[derive(Debug)]
pub struct GrokConfig {
    pub api_key: Option<String>,
    pub base_url: Option<String>,
    pub default_model: Option<String>,
}

#[derive(Debug)]
pub struct DeepSeekConfig {
    pub api_key: Option<String>,
    pub base_url: Option<String>,
    pub default_model: Option<String>,
}

/// Whether the response cache is consulted at all.
#[derive(Debug)]
pub struct CachingConfig {
    pub enabled: Option<bool>,
}

/// The tool-providing subprocesses to spawn, by name.
#[derive(Debug)]
pub struct McpConfig {
    pub servers: Option<HashMap<String, McpServerConfig>>,
}

/// How to start one tool-providing subprocess.
#[derive(Debug)]
pub struct McpServerConfig {
    pub command: String,
    pub args: Option<Vec<String>>,
    pub env: Option<HashMap<String, String>>,
    pub cwd: Option<String>,
}

/// Settings of one passthrough command-line provider.
#[derive(Debug)]
pub struct CliProviderConfig {
    pub enabled: Option<bool>,
    pub command: Option<String>,
    pub args: Option<Vec<String>>,
    pub stream_capable: Option<bool>,
    pub cwd: Option<String>,
    pub env: Option<HashMap<String, String>>,
    pub prompt_mode: Option<String>,
    pub strip_ansi: Option<bool>,
    pub timeout_ms: Option<u64>,
    pub session_arg: Option<String>,
}

impl OllamaConfig {
    /// The configured base URL, or the local default.
    pub fn effective_base_url(&self) -> (r: String)
        ensures
            match self.base_url {
                Some(u) => r == u,
                None => r@ == "http://localhost:11434"@,
            },
    {
        match &self.base_url {
            Some(u) => u.clone(),
            None => String::from_str("http://localhost:11434"),
        }
    }
}

impl AnthropicConfig {
    /// The configured API version date, or the default one.
    pub fn effective_version(&self) -> (r: String)
        ensures
            match self.version {
                Some(v) => r == v,
                None => r@ == "2023-06-01"@,
            },
    {
        match &self.version {
            Some(v) => v.clone(),
            None => String::from_str("2023-06-01"),
        }
    }
}

/// What the history command does.
#[derive(Clone, Copy, Debug, PartialEq, Eq, Structural)]
pub enum HistoryAction {
    List,
    Show,
    Clear,
    ClearAll,
    Export,
}

/// Arguments of the history command.
#[derive(Debug)]
pub struct HistoryArgs {
    pub action: HistoryAction,
    pub session: Option<String>,
    pub out: Option<String>,
}

/// What the templates command does.
#[derive(Clone, Copy, Debug, PartialEq, Eq, Structural)]
pub enum TemplateAction {
    List,
    Show,
}

/// Arguments of the templates command.
#[derive(Debug)]
pub struct TemplatesArgs {
    pub action: TemplateAction,
    pub name: Option<String>,
}

/// Arguments of the model-listing command.
#[derive(Debug)]
pub struct ListModelsArgs {
    pub provider: String,
}

} // verus!

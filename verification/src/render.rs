//! Rendering a finished conversation for export: the format picked from the
//! target path's extension, and the markdown and HTML texts. Writing the
//! file is the caller's work.
use vstd::prelude::*;

use crate::cache::{role_label, role_name};
use crate::messages::ChatMessage;

verus! {

/// The export format a path's extension picks.
#[derive(Clone, Copy, Debug, PartialEq, Eq, Structural)]
pub enum ExportKind {
    Json,
    Html,
    Markdown,
}

/// The extension of a path's last component: what follows its last dot, when
/// that dot is neither its first character nor missing.
pub open spec fn spec_extension(path: Seq<char>) -> Option<Seq<char>> {
    let name = path.skip(last_sep(path) + 1);
    let d = last_dot(name);
    if 0 < d < name.len() {
        Some(name.skip(d + 1))
    } else {
        None
    }
}

/// The index of the last path separator, or -1 when there is none.
pub open spec fn last_sep(s: Seq<char>) -> int
    decreases s.len(),
{
    if s.len() == 0 {
        -1
    } else if s.last() == '/' {
        s.len() - 1
    } else {
        last_sep(s.drop_last())
    }
}

/// The index of the last dot, or -1 when there is none.
pub open spec fn last_dot(s: Seq<char>) -> int
    decreases s.len(),
{
    if s.len() == 0 {
        -1
    } else if s.last() == '.' {
        s.len() - 1
    } else {
        last_dot(s.drop_last())
    }
}

/// The format an export path asks for: `json` and `html` by extension,
/// markdown for everything else.
pub open spec fn spec_export_kind(path: Seq<char>) -> ExportKind {
    match spec_extension(path) {
        Some(e) => if e == "json"@ {
            ExportKind::Json
        } else if e == "html"@ {
            ExportKind::Html
        } else {
            ExportKind::Markdown
        },
        None => ExportKind::Markdown,
    }
}

/// Finds the last occurrence of a character, scanning backwards from `from`.
fn scan_last(path: &str, from: usize, needle: char) -> (r: Option<usize>)
    requires
        from <= path@.len(),
    ensures
        match r {
            Some(i) => i < from,
            None => true,
        },
        ({
            let idx = if needle == '/' {
                last_sep(path@.take(from as int))
            } else {
                last_dot(path@.take(from as int))
            };
            needle == '/' || needle == '.' ==> match r {
                Some(i) => idx == i,
                None => idx == -1,
            }
        }),
{
    let mut i: usize = from;
    while i > 0
        invariant
            i <= from,
            from <= path@.len(),
            needle == '/' ==> last_sep(path@.take(from as int)) == last_sep(
                path@.take(i as int),
            ),
            needle == '.' ==> last_dot(path@.take(from as int)) == last_dot(
                path@.take(i as int),
            ),
        decreases i,
    {
        i = i - 1;
        proof {
            assert(path@.take(i + 1).last() == path@[i as int]);
            assert(path@.take(i + 1).drop_last() =~= path@.take(i as int));
        }
        if path.get_char(i) == needle {
            return Some(i);
        }
    }
    proof {
        assert(path@.take(0) =~= Seq::<char>::empty());
    }
    None
}

/// Picks the export format for a path.
pub fn export_kind(path: &str) -> (r: ExportKind)
    ensures
        r == spec_export_kind(path@),
{
    let len = path.unicode_len();
    proof {
        assert(path@.take(len as int) =~= path@);
    }
    let name_start: usize = match scan_last(path, len, '/') {
        Some(i) => i + 1,
        None => 0,
    };
    let ghost name = path@.skip(last_sep(path@) + 1);
    proof {
        assert(name =~= path@.skip(name_start as int));
    }
    let d = scan_last(path, len, '.');
    let ext_start: usize = match d {
        Some(i) => {
            if i > name_start {
                i + 1
            } else {
                0
            }
        },
        None => 0,
    };
    proof {
        let nd = last_dot(name);
        lemma_last_dot_decompose(path@, name_start as int);
        if ext_start > 0 {
            assert(0 < nd < name.len());
            assert(name.skip(nd + 1) =~= path@.skip(ext_start as int));
        }
    }
    if ext_start == 0 {
        return ExportKind::Markdown;
    }
    let ext = path.substring_char(ext_start, len);
    if crate::strutil::str_eq(ext, "json") {
        proof {
            assert(path@.subrange(ext_start as int, len as int) =~= path@.skip(ext_start as int));
        }
        ExportKind::Json
    } else if crate::strutil::str_eq(ext, "html") {
        proof {
            assert(path@.subrange(ext_start as int, len as int) =~= path@.skip(ext_start as int));
        }
        ExportKind::Html
    } else {
        proof {
            assert(path@.subrange(ext_start as int, len as int) =~= path@.skip(ext_start as int));
        }
        ExportKind::Markdown
    }
}

/// Dots past a cut relate to dots in the whole path: beyond the cut, the
/// last dot of the tail sits where the last dot of the path does.
proof fn lemma_last_dot_decompose(path: Seq<char>, start: int)
    requires
        0 <= start <= path.len(),
    ensures
        last_dot(path) >= start ==> last_dot(path.skip(start)) == last_dot(path) - start,
        last_dot(path) < start ==> last_dot(path.skip(start)) == -1,
    decreases path.len(),
{
    lemma_last_dot_bounds(path);
    if path.len() == start {
        assert(path.skip(start) =~= Seq::<char>::empty());
    } else {
        assert(path.skip(start).last() == path.last());
        if path.last() == '.' {
        } else {
            assert(path.skip(start).drop_last() =~= path.drop_last().skip(start));
            lemma_last_dot_decompose(path.drop_last(), start);
        }
    }
}

proof fn lemma_last_dot_bounds(s: Seq<char>)
    ensures
        -1 <= last_dot(s) < s.len(),
        last_dot(s) >= 0 ==> s[last_dot(s)] == '.',
    decreases s.len(),
{
    if s.len() > 0 && s.last() != '.' {
        lemma_last_dot_bounds(s.drop_last());
    }
}

/// A text escaped for HTML body text: `&`, `<` and `>` become their
/// entities, everything else stands as itself.
pub open spec fn html_escaped_char(c: char) -> Seq<char> {
    if c == '&' {
        "&amp;"@
    } else if c == '<' {
        "&lt;"@
    } else if c == '>' {
        "&gt;"@
    } else {
        seq![c]
    }
}

/// A whole text escaped for HTML body text.
pub open spec fn html_escaped(s: Seq<char>) -> Seq<char>
    decreases s.len(),
{
    if s.len() == 0 {
        Seq::empty()
    } else {
        html_escaped(s.drop_last()) + html_escaped_char(s.last())
    }
}

/// Relies on `html_escape::encode_text`: it replaces every `&` with `&amp;`,
/// every `<` with `&lt;` and every `>` with `&gt;`, and touches nothing
/// else.
#[verifier::external_body]
fn escape_html(s: &str) -> (r: String)
    ensures
        r@ == html_escaped(s@),
{
    html_escape::encode_text(s).into_owned()
}

/// The markdown text of a conversation: each message under a heading naming
/// its role, then the assistant's final text under its own heading.
pub open spec fn markdown_body(ms: Seq<ChatMessage>) -> Seq<char>
    decreases ms.len(),
{
    if ms.len() == 0 {
        Seq::empty()
    } else {
        markdown_body(ms.drop_last()) + "### "@ + role_label(ms.last().role) + "\n\n"@
            + ms.last().content@ + "\n\n"@
    }
}

pub open spec fn markdown_text(ms: Seq<ChatMessage>, assistant: Seq<char>) -> Seq<char> {
    markdown_body(ms) + "### assistant\n\n"@ + assistant + "\n"@
}

/// Renders a conversation and the final assistant text as markdown.
pub fn render_markdown(messages: &Vec<ChatMessage>, assistant: &str) -> (r: String)
    ensures
        r@ == markdown_text(messages@, assistant@),
{
    let mut out = String::new();
    let n = messages.len();
    let mut i: usize = 0;
    proof {
        assert(out@ =~= markdown_body(messages@.take(0)));
    }
    while i < n
        invariant
            i <= n,
            n == messages@.len(),
            out@ == markdown_body(messages@.take(i as int)),
        decreases n - i,
    {
        out.append("### ");
        out.append(role_name(messages[i].role));
        out.append("\n\n");
        out.append(messages[i].content.as_str());
        out.append("\n\n");
        proof {
            assert(messages@.take(i + 1).last() == messages@[i as int]);
            assert(messages@.take(i + 1).drop_last() =~= messages@.take(i as int));
            assert(out@ =~= markdown_body(messages@.take(i + 1)));
        }
        i = i + 1;
    }
    proof {
        assert(messages@.take(n as int) =~= messages@);
    }
    out.append("### assistant\n\n");
    out.append(assistant);
    out.append("\n");
    proof {
        assert(out@ =~= markdown_text(messages@, assistant@));
    }
    out
}

/// The HTML text of a conversation: each message as a heading and a
/// preformatted block, roles and contents escaped.
pub open spec fn html_body(ms: Seq<ChatMessage>) -> Seq<char>
    decreases ms.len(),
{
    if ms.len() == 0 {
        Seq::empty()
    } else {
        html_body(ms.drop_last()) + "<h3>"@ + html_escaped(role_label(ms.last().role)) + "</h3>\n<pre>"@
            + html_escaped(ms.last().content@) + "</pre>\n"@
    }
}

pub open spec fn html_text(ms: Seq<ChatMessage>, assistant: Seq<char>) -> Seq<char> {
    "<html><head><meta charset=\"utf-8\"><title>rusty-cli export</title></head><body>\n"@
        + html_body(ms) + "<h3>assistant</h3>\n<pre>"@ + html_escaped(assistant)
        + "</pre>\n</body></html>\n"@
}

/// Renders a conversation and the final assistant text as HTML.
pub fn render_html(messages: &Vec<ChatMessage>, assistant: &str) -> (r: String)
    ensures
        r@ == html_text(messages@, assistant@),
{
    let mut out = String::new();
    out.append("<html><head><meta charset=\"utf-8\"><title>rusty-cli export</title></head><body>\n");
    let ghost head = out@;
    let n = messages.len();
    let mut i: usize = 0;
    proof {
        assert(out@ =~= head + html_body(messages@.take(0)));
    }
    while i < n
        invariant
            i <= n,
            n == messages@.len(),
            head
                == "<html><head><meta charset=\"utf-8\"><title>rusty-cli export</title></head><body>\n"@,
            out@ == head + html_body(messages@.take(i as int)),
        decreases n - i,
    {
        let role = escape_html(role_name(messages[i].role));
        let content = escape_html(messages[i].content.as_str());
        out.append("<h3>");
        out.append(role.as_str());
        out.append("</h3>\n<pre>");
        out.append(content.as_str());
        out.append("</pre>\n");
        proof {
            assert(messages@.take(i + 1).last() == messages@[i as int]);
            assert(messages@.take(i + 1).drop_last() =~= messages@.take(i as int));
            assert(out@ =~= head + html_body(messages@.take(i + 1)));
        }
        i = i + 1;
    }
    proof {
        assert(messages@.take(n as int) =~= messages@);
    }
    let esc = escape_html(assistant);
    out.append("<h3>assistant</h3>\n<pre>");
    out.append(esc.as_str());
    out.append("</pre>\n</body></html>\n");
    proof {
        assert(out@ =~= html_text(messages@, assistant@));
    }
    out
}

} // verus!

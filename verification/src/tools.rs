//! The tool registry: tool descriptions, the two kinds of tool
//! implementations (local built-ins and remote RPC-backed tools), and the
//! filtered capability queries the orchestration loop relies on.
use vstd::prelude::*;

use crate::framing::{dec_chars, json_escape, push_dec_u64, push_json_escaped};
use crate::strutil::str_eq;

verus! {

/// Description of one callable tool. `parameters` holds the tool's parameter
/// schema as JSON text. `read_only` is a trust boundary: only tools declaring
/// it may run under the Planning permission mode.
#[derive(Debug)]
pub struct ToolSpec {
    pub name: String,
    pub description: String,
    pub parameters: String,
    pub read_only: bool,
}

impl Clone for ToolSpec {
    fn clone(&self) -> (r: Self)
        ensures
            r == *self,
    {
        ToolSpec {
            name: self.name.clone(),
            description: self.description.clone(),
            parameters: self.parameters.clone(),
            read_only: self.read_only,
        }
    }
}

/// How a registered tool is carried out: by one of the built-ins in process,
/// or by a remote server spoken to over the RPC transport.
#[derive(Debug)]
pub enum ToolKind {
    Echo,
    ReadFile,
    Remote { server: String },
}

/// One entry of the registry: a tool's description and its implementation
/// kind.
#[derive(Debug)]
pub struct RegisteredTool {
    pub spec_: ToolSpec,
    pub kind: ToolKind,
}

/// The first registered tool of a given name, scanning in registration
/// order.
pub open spec fn lookup_tool(reg: Seq<RegisteredTool>, name: Seq<char>) -> Option<RegisteredTool>
    decreases reg.len(),
{
    if reg.len() == 0 {
        None
    } else if reg[0].spec_.name@ == name {
        Some(reg[0])
    } else {
        lookup_tool(reg.skip(1), name)
    }
}

/// Whether a tool description passes an optional allow-list and an optional
/// read-only restriction.
pub open spec fn spec_allowed(s: ToolSpec, allow: Option<Seq<Seq<char>>>, read_only_only: bool) -> bool {
    &&& match allow {
        Some(names) => exists|j: int| 0 <= j < names.len() && names[j] == s.name@,
        None => true,
    }
    &&& (read_only_only ==> s.read_only)
}

/// The descriptions that pass the filter, in registration order.
pub open spec fn filtered_specs(
    reg: Seq<RegisteredTool>,
    allow: Option<Seq<Seq<char>>>,
    read_only_only: bool,
) -> Seq<ToolSpec>
    decreases reg.len(),
{
    if reg.len() == 0 {
        Seq::empty()
    } else {
        filtered_specs(reg.drop_last(), allow, read_only_only) + (if spec_allowed(
            reg.last().spec_,
            allow,
            read_only_only,
        ) {
            seq![reg.last().spec_]
        } else {
            Seq::empty()
        })
    }
}

/// The views of an allow-list's names.
pub open spec fn names_view(v: Seq<String>) -> Seq<Seq<char>> {
    v.map_values(|s: String| s@)
}

/// Whether a name stands in a list of names.
fn name_in_list(list: &Vec<String>, name: &str) -> (r: bool)
    ensures
        r == exists|l: int| 0 <= l < list@.len() && names_view(list@)[l] == name@,
{
    let mut j: usize = 0;
    while j < list.len()
        invariant
            j <= list@.len(),
            forall|l: int| 0 <= l < j ==> names_view(list@)[l] != name@,
        decreases list@.len() - j,
    {
        proof {
            assert(names_view(list@)[j as int] == list@[j as int]@);
        }
        if str_eq(list[j].as_str(), name) {
            assert(names_view(list@)[j as int] == name@);
            return true;
        }
        j = j + 1;
    }
    false
}

/// The tool registry: a uniform, ordered collection of registered tools. It
/// answers capability queries; executing a tool is its caller's affair.
#[derive(Debug)]
pub struct ToolRegistry {
    tools: Vec<RegisteredTool>,
}

impl View for ToolRegistry {
    type V = Seq<RegisteredTool>;

    closed spec fn view(&self) -> Seq<RegisteredTool> {
        self.tools@
    }
}

impl ToolRegistry {
    /// An empty registry.
    pub fn new() -> (r: ToolRegistry)
        ensures
            r@ == Seq::<RegisteredTool>::empty(),
    {
        let r = ToolRegistry { tools: Vec::new() };
        proof {
            assert(r@ =~= Seq::<RegisteredTool>::empty());
        }
        r
    }

    /// The registry with the built-in tools: the file reader, then the echo
    /// tool, in that order.
    pub fn with_default() -> (r: ToolRegistry)
        ensures
            r@.len() == 2,
            r@[0].spec_.name@ == "read_file"@,
            r@[0].spec_.read_only,
            r@[0].kind == ToolKind::ReadFile,
            r@[1].spec_.name@ == "echo"@,
            r@[1].spec_.read_only,
            r@[1].kind == ToolKind::Echo,
    {
        let mut r = ToolRegistry::new();
        r.register(RegisteredTool { spec_: ReadFile::describe(), kind: ToolKind::ReadFile });
        r.register(RegisteredTool { spec_: Echo::describe(), kind: ToolKind::Echo });
        r
    }

    /// Adds a tool at the end of the registration order. A name already
    /// registered is not rejected; lookups keep finding the earlier entry.
    pub fn register(&mut self, tool: RegisteredTool)
        ensures
            final(self)@ == old(self)@.push(tool),
    {
        self.tools.push(tool);
    }

    /// All registered descriptions, in registration order.
    pub fn list(&self) -> (r: Vec<ToolSpec>)
        ensures
            r@.len() == self@.len(),
            forall|i: int| 0 <= i < self@.len() ==> r@[i] == self@[i].spec_,
    {
        let mut out: Vec<ToolSpec> = Vec::new();
        let mut i: usize = 0;
        while i < self.tools.len()
            invariant
                i <= self@.len(),
                out@.len() == i,
                forall|l: int| 0 <= l < i ==> out@[l] == self@[l].spec_,
            decreases self@.len() - i,
        {
            out.push(self.tools[i].spec_.clone());
            i = i + 1;
        }
        out
    }

    /// The first tool registered under a name, if any.
    pub fn get(&self, name: &str) -> (r: Option<&RegisteredTool>)
        ensures
            match r {
                Some(t) => lookup_tool(self@, name@) == Some(*t),
                None => lookup_tool(self@, name@) is None,
            },
    {
        let n = self.tools.len();
        let mut i: usize = 0;
        proof {
            assert(self@.skip(0) =~= self@);
        }
        while i < n
            invariant
                i <= n,
                n == self@.len(),
                lookup_tool(self@, name@) == lookup_tool(self@.skip(i as int), name@),
            decreases n - i,
        {
            proof {
                assert(self@.skip(i as int)[0] == self@[i as int]);
                assert(self@.skip(i as int).skip(1) =~= self@.skip(i + 1));
            }
            if str_eq(self.tools[i].spec_.name.as_str(), name) {
                return Some(&self.tools[i]);
            }
            i = i + 1;
        }
        proof {
            assert(self@.skip(n as int) =~= Seq::<RegisteredTool>::empty());
        }
        None
    }

    /// The descriptions that pass an optional allow-list and, when asked, a
    /// read-only restriction, in registration order.
    pub fn list_filtered(&self, allow: Option<&Vec<String>>, read_only_only: bool) -> (r: Vec<
        ToolSpec,
    >)
        ensures
            r@ == filtered_specs(
                self@,
                match allow {
                    Some(v) => Some(names_view(v@)),
                    None => None,
                },
                read_only_only,
            ),
    {
        let ghost aview: Option<Seq<Seq<char>>> = match allow {
            Some(v) => Some(names_view(v@)),
            None => None,
        };
        let mut out: Vec<ToolSpec> = Vec::new();
        let mut i: usize = 0;
        proof {
            assert(filtered_specs(self@.take(0), aview, read_only_only) =~= Seq::<
                ToolSpec,
            >::empty());
        }
        while i < self.tools.len()
            invariant
                i <= self@.len(),
                aview == match allow {
                    Some(v) => Some(names_view(v@)),
                    None => None,
                },
                out@ == filtered_specs(self@.take(i as int), aview, read_only_only),
            decreases self@.len() - i,
        {
            let s = &self.tools[i];
            let allow_pass = match allow {
                Some(list) => name_in_list(list, s.spec_.name.as_str()),
                None => true,
            };
            let passes = allow_pass && (!read_only_only || s.spec_.read_only);
            assert(passes == spec_allowed(s.spec_, aview, read_only_only));
            if passes {
                out.push(s.spec_.clone());
            }
            proof {
                assert(self@.take(i + 1).drop_last() =~= self@.take(i as int));
                assert(self@.take(i + 1).last() == self@[i as int]);
                if passes {
                    assert(out@ =~= filtered_specs(self@.take(i as int), aview, read_only_only)
                        + seq![self@[i as int].spec_]);
                }
            }
            i = i + 1;
        }
        proof {
            assert(self@.take(self@.len() as int) =~= self@);
        }
        out
    }
}

/// The built-in echo tool: returns its input, for debugging.
#[derive(Debug)]
pub struct Echo;

impl Echo {
    /// Describes the echo tool. It is read-only.
    pub fn describe() -> (s: ToolSpec)
        ensures
            s.name@ == "echo"@,
            s.description@ == "Return the provided input for debugging"@,
            s.parameters@
                == "{\"type\":\"object\",\"properties\":{\"text\":{\"type\":\"string\"}},\"required\":[\"text\"],\"additionalProperties\":false}"@,
            s.read_only,
    {
        ToolSpec {
            name: String::from_str("echo"),
            description: String::from_str("Return the provided input for debugging"),
            parameters: String::from_str(
                "{\"type\":\"object\",\"properties\":{\"text\":{\"type\":\"string\"}},\"required\":[\"text\"],\"additionalProperties\":false}",
            ),
            read_only: true,
        }
    }

    /// What the echo tool answers: its argument object wrapped in an `echo`
    /// member.
    pub open spec fn reply_text(args: Seq<char>) -> Seq<char> {
        "{\"echo\":"@ + args + "}"@
    }

    /// Runs the echo tool on an argument object given as JSON text.
    pub fn call(&self, args: &str) -> (r: String)
        ensures
            r@ == Echo::reply_text(args@),
    {
        let mut out = String::new();
        out.append("{\"echo\":");
        out.append(args);
        out.append("}");
        proof {
            assert(out@ =~= Echo::reply_text(args@));
        }
        out
    }
}

/// The text `String::from_utf8_lossy` decodes a byte string to.
pub uninterp spec fn lossy_text_of(bytes: Seq<u8>) -> Seq<char>;

/// Relies on std's `String::from_utf8_lossy`: the decoded text is a function
/// of the bytes alone.
#[verifier::external_body]
pub(crate) fn utf8_lossy(bytes: &[u8]) -> (r: String)
    ensures
        r@ == lossy_text_of(bytes@),
{
    String::from_utf8_lossy(bytes).into_owned()
}

/// The built-in file reader: returns a small text file's contents, clipped to
/// a byte limit.
#[derive(Debug)]
pub struct ReadFile;

impl ReadFile {
    /// Describes the file reader. It is read-only.
    pub fn describe() -> (s: ToolSpec)
        ensures
            s.name@ == "read_file"@,
            s.description@ == "Read a small text file from disk and return its contents"@,
            s.parameters@
                == "{\"type\":\"object\",\"properties\":{\"path\":{\"type\":\"string\",\"description\":\"Path to the text file\"},\"max_bytes\":{\"type\":\"integer\",\"minimum\":1,\"maximum\":1048576,\"default\":65536}},\"required\":[\"path\"],\"additionalProperties\":false}"@,
            s.read_only,
    {
        ToolSpec {
            name: String::from_str("read_file"),
            description: String::from_str("Read a small text file from disk and return its contents"),
            parameters: String::from_str(
                "{\"type\":\"object\",\"properties\":{\"path\":{\"type\":\"string\",\"description\":\"Path to the text file\"},\"max_bytes\":{\"type\":\"integer\",\"minimum\":1,\"maximum\":1048576,\"default\":65536}},\"required\":[\"path\"],\"additionalProperties\":false}",
            ),
            read_only: true,
        }
    }

    /// What the file reader answers for a file's bytes: the clipped byte
    /// count, the decoded content, the path, and whether clipping happened,
    /// as a JSON object with its members in that order.
    pub open spec fn reply_text(path: Seq<char>, data: Seq<u8>, max_bytes: int) -> Seq<char> {
        let kept = if data.len() > max_bytes {
            max_bytes
        } else {
            data.len() as int
        };
        "{\"bytes\":"@ + dec_chars(kept as nat) + ",\"content\":\""@ + json_escape(
            lossy_text_of(data.take(kept)),
        ) + "\",\"path\":\""@ + json_escape(path) + "\",\"truncated\":"@ + (if data.len()
            > max_bytes {
            "true"@
        } else {
            "false"@
        }) + "}"@
    }

    /// Builds the reader's reply for a file read as `data`, clipped to
    /// `max_bytes` bytes.
    pub fn reply(&self, path: &str, data: &Vec<u8>, max_bytes: usize) -> (r: String)
        ensures
            r@ == ReadFile::reply_text(path@, data@, max_bytes as int),
    {
        let kept: usize = if data.len() > max_bytes {
            max_bytes
        } else {
            data.len()
        };
        let mut clipped: Vec<u8> = Vec::new();
        let mut i: usize = 0;
        proof {
            assert(clipped@ =~= data@.take(0));
        }
        while i < kept
            invariant
                i <= kept,
                kept <= data@.len(),
                clipped@ == data@.take(i as int),
            decreases kept - i,
        {
            clipped.push(data[i]);
            proof {
                assert(data@.take(i + 1) =~= data@.take(i as int).push(data@[i as int]));
            }
            i = i + 1;
        }
        let content = utf8_lossy(clipped.as_slice());
        let mut out = String::new();
        out.append("{\"bytes\":");
        push_dec_u64(&mut out, kept as u64);
        out.append(",\"content\":\"");
        push_json_escaped(&mut out, content.as_str());
        out.append("\",\"path\":\"");
        push_json_escaped(&mut out, path);
        out.append("\",\"truncated\":");
        if data.len() > max_bytes {
            out.append("true");
        } else {
            out.append("false");
        }
        out.append("}");
        proof {
            assert(out@ =~= ReadFile::reply_text(path@, data@, max_bytes as int));
        }
        out
    }
}

} // verus!


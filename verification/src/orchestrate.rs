//! The orchestration loop as an explicit state machine. The driver performs
//! the outside work — the model exchange and the tool executions — and hands
//! each outcome back; the machine decides everything: when the run is done,
//! which tool call may run under the permission mode, what the conversation
//! records, and when the round-trip guard stops the run.
use vstd::prelude::*;

use crate::framing::{json_escape, push_json_escaped};
use crate::messages::{clone_opt_string, opt_text, views, ChatMessage, MessageView, Role, ToolCall};
use crate::settings::Mode;
use crate::tools::{lookup_tool, RegisteredTool, ToolRegistry};

verus! {

/// What the driver must do next: exchange once more with the model, execute
/// one tool call and report its result, or stop with the final content (none
/// when the guard fired without one).
#[derive(Debug)]
pub enum Step {
    CallModel,
    RunTool { name: String, arguments: String, call_id: Option<String> },
    Finished { content: Option<String> },
}

/// Where the machine stands: awaiting the model's response, awaiting one tool
/// result, or finished.
#[derive(Clone, Copy, Debug, PartialEq, Eq, Structural)]
pub enum LoopState {
    AwaitModel,
    RunningTools,
    Done,
}

/// The payload of the synthetic tool message a Planning-mode refusal appends.
pub open spec fn policy_error_text(name: Seq<char>) -> Seq<char> {
    "{\"error\":\"tool '"@ + json_escape(name) + "' is disabled in planning mode\"}"@
}

/// Builds the Planning-mode refusal payload for one tool name.
pub fn policy_error_content(name: &str) -> (r: String)
    ensures
        r@ == policy_error_text(name@),
{
    let mut out = String::new();
    out.append("{\"error\":\"tool '");
    push_json_escaped(&mut out, name);
    out.append("' is disabled in planning mode\"}");
    proof {
        assert(out@ =~= policy_error_text(name@));
    }
    out
}

/// The view of the synthetic tool message recording a Planning-mode refusal.
pub open spec fn policy_view(c: ToolCall) -> MessageView {
    MessageView {
        role: Role::Tool,
        content: policy_error_text(c.name@),
        name: Some(c.name@),
        tool_call_id: opt_text(c.id),
    }
}

/// The view of the tool message recording one executed call's result.
pub open spec fn tool_result_view(c: ToolCall, content: Seq<char>) -> MessageView {
    MessageView {
        role: Role::Tool,
        content,
        name: Some(c.name@),
        tool_call_id: opt_text(c.id),
    }
}

/// Whether a call may run: its tool is registered and the mode permits
/// it.
pub open spec fn call_runnable(reg: Seq<RegisteredTool>, mode: Mode, c: ToolCall) -> bool {
    match lookup_tool(reg, c.name@) {
        Some(t) => mode == Mode::Building || t.spec_.read_only,
        None => false,
    }
}

/// Whether a call is refused: its tool is registered but not read-only,
/// under Planning.
pub open spec fn call_denied(reg: Seq<RegisteredTool>, mode: Mode, c: ToolCall) -> bool {
    match lookup_tool(reg, c.name@) {
        Some(t) => mode == Mode::Planning && !t.spec_.read_only,
        None => false,
    }
}

/// Walks a turn's tool calls from `idx` in the order the model produced
/// them: a refused call appends its synthetic message, an unregistered name
/// is passed over, and the walk stops at the first call that may run.
/// Yields where it stopped and what it appended.
pub open spec fn process_calls(
    reg: Seq<RegisteredTool>,
    mode: Mode,
    queue: Seq<ToolCall>,
    idx: int,
) -> (int, Seq<MessageView>)
    decreases queue.len() - idx,
{
    if idx < 0 || idx >= queue.len() {
        (idx, Seq::empty())
    } else {
        let c = queue[idx];
        if call_runnable(reg, mode, c) {
            (idx, Seq::empty())
        } else if call_denied(reg, mode, c) {
            let r = process_calls(reg, mode, queue, idx + 1);
            (r.0, seq![policy_view(c)] + r.1)
        } else {
            process_calls(reg, mode, queue, idx + 1)
        }
    }
}

/// The orchestration loop's entire state. The conversation only ever grows
/// by appending; the turn counter rises once per model round-trip and the
/// guard bounds it.
#[derive(Debug)]
pub struct Orchestrator {
    pub mode: Mode,
    pub guard: u32,
    pub turns: u32,
    pub history: Vec<ChatMessage>,
    pub queue: Vec<ToolCall>,
    pub next_call: usize,
    pub state: LoopState,
    pub last_content: Option<String>,
}

impl Orchestrator {
    pub open spec fn wf(&self) -> bool {
        &&& self.guard < u32::MAX
        &&& self.turns <= self.guard + 1
        &&& (self.state == LoopState::AwaitModel ==> self.turns <= self.guard)
        &&& (self.state == LoopState::RunningTools ==> self.next_call < self.queue@.len())
    }

    /// A fresh run over a conversation: no round-trip made yet, the next step
    /// is a model call.
    pub fn new(history: Vec<ChatMessage>, mode: Mode, guard: u32) -> (r: Orchestrator)
        requires
            guard < u32::MAX,
        ensures
            r.wf(),
            r.mode == mode,
            r.guard == guard,
            r.turns == 0,
            r.history@ == history@,
            r.state == LoopState::AwaitModel,
            r.last_content is None,
    {
        Orchestrator {
            mode,
            guard,
            turns: 0,
            history,
            queue: Vec::new(),
            next_call: 0,
            state: LoopState::AwaitModel,
            last_content: None,
        }
    }

    /// Walks the queued tool calls from `next_call`, appending refusal
    /// messages, until a runnable call is found or the queue ends; then
    /// either hands that call out, or closes the turn — with one more model
    /// call while the guard allows it, and with the guard stop otherwise.
    fn advance(&mut self, registry: &ToolRegistry) -> (r: Step)
        requires
            old(self).guard < u32::MAX,
            old(self).turns <= old(self).guard + 1,
            old(self).state == LoopState::RunningTools,
            old(self).next_call <= old(self).queue@.len(),
        ensures
            final(self).wf(),
            final(self).mode == old(self).mode,
            final(self).guard == old(self).guard,
            final(self).turns == old(self).turns,
            final(self).queue@ == old(self).queue@,
            final(self).last_content == old(self).last_content,
            ({
                let p = process_calls(
                    registry@,
                    old(self).mode,
                    old(self).queue@,
                    old(self).next_call as int,
                );
                &&& views(final(self).history@) == views(old(self).history@) + p.1
                &&& if p.0 < old(self).queue@.len() {
                    &&& final(self).state == LoopState::RunningTools
                    &&& final(self).next_call == p.0
                    &&& r == (Step::RunTool {
                        name: old(self).queue@[p.0].name,
                        arguments: old(self).queue@[p.0].arguments,
                        call_id: old(self).queue@[p.0].id,
                    })
                } else if old(self).turns <= old(self).guard {
                    final(self).state == LoopState::AwaitModel && r == Step::CallModel
                } else {
                    final(self).state == LoopState::Done && r == (Step::Finished {
                        content: None,
                    })
                }
            }),
    {
        let ghost reg = registry@;
        let ghost q0 = self.queue@;
        let ghost idx0 = self.next_call as int;
        let ghost h0 = self.history@;
        let ghost mut acc: Seq<MessageView> = Seq::empty();
        proof {
            assert(views(self.history@) =~= views(h0) + acc);
        }
        loop
            invariant
                self.mode == old(self).mode,
                self.guard == old(self).guard,
                self.turns == old(self).turns,
                self.queue@ == q0,
                self.last_content == old(self).last_content,
                self.state == LoopState::RunningTools,
                old(self).guard < u32::MAX,
                old(self).turns <= old(self).guard + 1,
                q0 == old(self).queue@,
                h0 == old(self).history@,
                idx0 == old(self).next_call as int,
                self.next_call <= q0.len(),
                views(self.history@) == views(h0) + acc,
                process_calls(reg, self.mode, q0, idx0) == {
                    let rr = process_calls(reg, self.mode, q0, self.next_call as int);
                    (rr.0, acc + rr.1)
                },
                reg == registry@,
            decreases q0.len() - self.next_call,
        {
            if self.next_call >= self.queue.len() {
                proof {
                    assert(acc + Seq::<MessageView>::empty() =~= acc);
                }
                if self.turns <= self.guard {
                    self.state = LoopState::AwaitModel;
                    return Step::CallModel;
                } else {
                    self.state = LoopState::Done;
                    return Step::Finished { content: None };
                }
            }
            let i = self.next_call;
            let call_name = self.queue[i].name.clone();
            match registry.get(call_name.as_str()) {
                Some(t) => {
                    if self.mode == Mode::Building || t.spec_.read_only {
                        proof {
                            assert(call_runnable(reg, self.mode, q0[i as int]));
                            assert(process_calls(reg, self.mode, q0, i as int) == (
                                i as int,
                                Seq::<MessageView>::empty(),
                            ));
                            assert(acc + Seq::<MessageView>::empty() =~= acc);
                        }
                        let c = self.queue[i].clone();
                        return Step::RunTool {
                            name: c.name,
                            arguments: c.arguments,
                            call_id: c.id,
                        };
                    } else {
                        proof {
                            assert(call_denied(reg, self.mode, q0[i as int]));
                        }
                        let content = policy_error_content(call_name.as_str());
                        let id = clone_opt_string(&self.queue[i].id);
                        let msg = ChatMessage {
                            role: Role::Tool,
                            content,
                            name: Some(call_name),
                            tool_call_id: id,
                        };
                        let ghost hprev = self.history@;
                        proof {
                            assert(msg@ == policy_view(q0[i as int]));
                        }
                        self.history.push(msg);
                        proof {
                            assert(views(self.history@) =~= views(hprev).push(
                                policy_view(q0[i as int]),
                            ));
                            acc = acc + seq![policy_view(q0[i as int])];
                            assert(views(self.history@) =~= views(h0) + acc);
                            let rr2 = process_calls(reg, self.mode, q0, i + 1);
                            assert(process_calls(reg, self.mode, q0, i as int) == (
                                rr2.0,
                                seq![policy_view(q0[i as int])] + rr2.1,
                            ));
                            assert(acc + rr2.1 =~= acc.drop_last() + (seq![
                                policy_view(q0[i as int]),
                            ] + rr2.1));
                        }
                        self.next_call = i + 1;
                    }
                },
                None => {
                    proof {
                        assert(!call_runnable(reg, self.mode, q0[i as int]));
                        assert(!call_denied(reg, self.mode, q0[i as int]));
                    }
                    self.next_call = i + 1;
                },
            }
        }
    }

    /// Takes the model's response for this round-trip. Text content ends the
    /// run with that content, untouched tool calls and all; otherwise the
    /// turn's tool calls are walked under the permission mode; a turn with
    /// nothing to do leads to one more model call while the guard allows it,
    /// and to the guard stop otherwise.
    pub fn on_model_response(
        &mut self,
        content: Option<String>,
        tool_calls: Vec<ToolCall>,
        registry: &ToolRegistry,
    ) -> (r: Step)
        requires
            old(self).wf(),
            old(self).state == LoopState::AwaitModel,
        ensures
            final(self).wf(),
            final(self).mode == old(self).mode,
            final(self).guard == old(self).guard,
            final(self).turns == old(self).turns + 1,
            match content {
                Some(c) => {
                    &&& r == (Step::Finished { content: Some(c) })
                    &&& final(self).state == LoopState::Done
                    &&& final(self).history@ == old(self).history@
                    &&& final(self).last_content == Some(c)
                },
                None => ({
                    let p = process_calls(registry@, old(self).mode, tool_calls@, 0);
                    &&& final(self).queue@ == tool_calls@
                    &&& views(final(self).history@) == views(old(self).history@) + p.1
                    &&& if p.0 < tool_calls@.len() {
                        &&& final(self).state == LoopState::RunningTools
                        &&& final(self).next_call == p.0
                        &&& r == (Step::RunTool {
                            name: tool_calls@[p.0].name,
                            arguments: tool_calls@[p.0].arguments,
                            call_id: tool_calls@[p.0].id,
                        })
                    } else if old(self).turns + 1 <= old(self).guard {
                        final(self).state == LoopState::AwaitModel && r == Step::CallModel
                    } else {
                        final(self).state == LoopState::Done && r == (Step::Finished {
                            content: None,
                        })
                    }
                }),
            },
    {
        self.turns = self.turns + 1;
        match content {
            Some(c) => {
                self.last_content = Some(c.clone());
                self.state = LoopState::Done;
                Step::Finished { content: Some(c) }
            },
            None => {
                self.queue = tool_calls;
                self.next_call = 0;
                self.state = LoopState::RunningTools;
                self.advance(registry)
            },
        }
    }

    /// Takes one executed tool call's result — a success value or a captured
    /// error, either way conversation data, never fatal. The result is
    /// recorded as a tool message carrying the call's id, and the walk over
    /// the turn's remaining calls goes on.
    pub fn on_tool_result(&mut self, result: String, registry: &ToolRegistry) -> (r: Step)
        requires
            old(self).wf(),
            old(self).state == LoopState::RunningTools,
        ensures
            final(self).wf(),
            final(self).mode == old(self).mode,
            final(self).guard == old(self).guard,
            final(self).turns == old(self).turns,
            final(self).queue@ == old(self).queue@,
            ({
                let call = old(self).queue@[old(self).next_call as int];
                let p = process_calls(
                    registry@,
                    old(self).mode,
                    old(self).queue@,
                    old(self).next_call + 1,
                );
                &&& views(final(self).history@) == views(old(self).history@) + seq![
                    tool_result_view(call, result@),
                ] + p.1
                &&& if p.0 < old(self).queue@.len() {
                    &&& final(self).state == LoopState::RunningTools
                    &&& final(self).next_call == p.0
                    &&& r == (Step::RunTool {
                        name: old(self).queue@[p.0].name,
                        arguments: old(self).queue@[p.0].arguments,
                        call_id: old(self).queue@[p.0].id,
                    })
                } else if old(self).turns <= old(self).guard {
                    final(self).state == LoopState::AwaitModel && r == Step::CallModel
                } else {
                    final(self).state == LoopState::Done && r == (Step::Finished {
                        content: None,
                    })
                }
            }),
    {
        let i = self.next_call;
        let n = self.queue.len();
        assert(i < n);
        let name = self.queue[i].name.clone();
        let id = clone_opt_string(&self.queue[i].id);
        let msg = ChatMessage { role: Role::Tool, content: result, name: Some(name), tool_call_id: id };
        let ghost hprev = self.history@;
        let ghost call = self.queue@[i as int];
        proof {
            assert(msg@ == tool_result_view(call, result@));
        }
        self.history.push(msg);
        proof {
            assert(views(self.history@) =~= views(hprev).push(tool_result_view(call, result@)));
            assert(views(hprev).push(tool_result_view(call, result@)) =~= views(hprev) + seq![
                tool_result_view(call, result@),
            ]);
        }
        self.next_call = i + 1;
        self.advance(registry)
    }

    /// Folds the text a cut-off stream produced so far into the conversation
    /// as an assistant message, before the run falls back to the
    /// non-streaming cycle; nothing is recorded for an empty accumulation.
    pub fn fold_stream_partial(&mut self, partial: String)
        requires
            old(self).wf(),
            old(self).state == LoopState::AwaitModel,
        ensures
            final(self).wf(),
            final(self).mode == old(self).mode,
            final(self).guard == old(self).guard,
            final(self).turns == old(self).turns,
            final(self).state == old(self).state,
            partial@.len() == 0 ==> final(self).history@ == old(self).history@,
            partial@.len() > 0 ==> final(self).history@ == old(self).history@.push(
                ChatMessage { role: Role::Assistant, content: partial, name: None, tool_call_id: None },
            ),
    {
        if !partial.as_str().is_empty() {
            self.history.push(
                ChatMessage { role: Role::Assistant, content: partial, name: None, tool_call_id: None },
            );
        }
    }
}

/// In Planning mode a tool call naming a non-read-only tool is never handed
/// out for execution: wherever the walk over a turn's calls stops, the call
/// there names a registered, read-only tool — and everything the walk
/// appended instead is a tool-role message.
pub proof fn lemma_planning_read_only(reg: Seq<RegisteredTool>, queue: Seq<ToolCall>, idx: int)
    requires
        0 <= idx <= queue.len(),
    ensures
        ({
            let p = process_calls(reg, Mode::Planning, queue, idx);
            &&& p.0 < queue.len() ==> (lookup_tool(reg, queue[p.0].name@) matches Some(t)
                && t.spec_.read_only)
            &&& forall|k: int| 0 <= k < p.1.len() ==> p.1[k].role == Role::Tool
        }),
    decreases queue.len() - idx,
{
    if idx < queue.len() {
        let c = queue[idx];
        if call_runnable(reg, Mode::Planning, c) {
        } else {
            lemma_planning_read_only(reg, queue, idx + 1);
        }
    }
}

/// The loop stops within guard+1 model round-trips, whatever the model does:
/// the turn counter rises by one per model response, never passes guard+1,
/// and a machine whose counter has passed its guard never asks for another
/// model call.
pub proof fn lemma_guard_bound(o: Orchestrator)
    requires
        o.wf(),
    ensures
        o.turns <= o.guard + 1,
        o.state == LoopState::AwaitModel ==> o.turns <= o.guard,
{
}

} // verus!

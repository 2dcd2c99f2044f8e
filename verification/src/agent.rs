//! The agent turn: a bounded tool-calling protocol, written as an explicit
//! state machine.
//!
//! One `Turn` handles one user message. The driver owns all I/O: it calls
//! the model backend and runs tool executors, and feeds each outcome back.
//! Every decision — what to send, which tool to run, when to force a final
//! tools-disabled completion, what to persist — is made here and verified.
//!
//! Protocol, from the driver's side: obtain a `Turn` and a first step from
//! `Turn::start`, then repeat: on `CallModel` call the backend and report
//! with `on_model_reply` or `on_model_failure`; on `RunTool` run the
//! executor and report with `on_tool_result`; on `Continue` call `proceed`;
//! on `Finish` persist the session and return the answer.

use vstd::prelude::*;
use crate::codec::role_str;
use crate::errors::AgentError;
use crate::jsonval::{json_error_text, json_parse_ok, parse_json_value};
use crate::llm::LLMClient;
use crate::memory::MemoryStore;
use crate::msg::{calls_view, Message, MessageView, Role, Session, ToolCallRequest, ToolCallView};
use crate::msg::window_start;
use crate::registry::{lookup, ToolRegistry};

verus! {

/// How many trailing history messages are offered to the model.
pub const HISTORY_LIMIT: usize = 10;

/// Default cap on tool-calling round-trips in one turn.
pub const DEFAULT_MAX_ITERATIONS: usize = 10;

/// Where a turn stands between two driver calls.
#[derive(Clone, Copy, Debug, PartialEq, Eq, Structural)]
pub enum TurnPhase {
    /// The model must be called, with or without the tool schema list.
    NeedModel { with_tools: bool },
    /// A reply's tool calls are being worked through; `proceed` decides next.
    ToolPending,
    /// One tool call has been handed out; its result is awaited.
    ToolRunning,
    /// The turn is over (answered, exhausted, or aborted).
    Done,
}

impl TurnPhase {
    /// The turn waits on a model call.
    pub open spec fn awaiting(self) -> bool {
        self matches TurnPhase::NeedModel { .. }
    }

    /// The turn waits on a model call that offers tools.
    pub open spec fn with_tools(self) -> bool {
        self matches TurnPhase::NeedModel { with_tools: true }
    }
}

/// What the driver must do next.
pub enum TurnStep {
    /// Send the transcript to the model, with the tool schemas or without.
    CallModel { with_tools: bool },
    /// Run the named tool's executor on the parsed arguments.
    RunTool { call: ToolCallRequest, args: serde_json::Value },
    /// Call `proceed` again; the turn has more internal work.
    Continue,
    /// Persist the session, append `note` to today's memory if given, and
    /// deliver `answer`.
    Finish { answer: String, note: Option<String> },
}

/// The text of a message, empty when it has none.
pub open spec fn content_text(m: MessageView) -> Seq<char> {
    match m.content {
        Some(s) => s,
        None => Seq::<char>::empty(),
    }
}

/// Whether a reply actually requests tools. An absent list and an empty
/// one are alike "no tool-call requests": such a reply's content is the
/// final answer.
pub open spec fn has_tool_calls(m: MessageView) -> bool {
    m.tool_calls matches Some(cs) && cs.len() > 0
}

/// The assistant message recorded for a forced tools-disabled completion.
pub open spec fn assistant_text_view(s: Seq<char>) -> MessageView {
    MessageView {
        role: Role::Assistant,
        content: Some(s),
        name: None,
        tool_call_id: None,
        tool_calls: None,
    }
}

/// The tool message recorded for one executed (or failed) tool call.
pub open spec fn tool_result_view(call: ToolCallView, text: Seq<char>) -> MessageView {
    MessageView {
        role: Role::Tool,
        content: Some(text),
        name: Some(call.name),
        tool_call_id: Some(call.id),
        tool_calls: None,
    }
}

/// The result text fed back to the model: the tool's own text, or its
/// failure rendered as an error line it can react to.
pub open spec fn outcome_text(o: Result<String, String>) -> Seq<char> {
    match o {
        Ok(s) => s@,
        Err(e) => "Error: "@ + e@,
    }
}

/// The result text for an invocation that named no registered tool.
pub open spec fn not_found_text(name: Seq<char>) -> Seq<char> {
    "Error: Tool "@ + name + " not found"@
}

/// The line appended to today's memory notes after an answered turn.
pub open spec fn record_view(user: Seq<char>, answer: Seq<char>) -> Seq<char> {
    "User: "@ + user + "\nAssistant: "@ + answer + "\n"@
}

/// Builds the memory record for one answered turn.
pub fn memory_record(user: &str, answer: &str) -> (r: String)
    ensures
        r@ == record_view(user@, answer@),
{
    let mut s = String::from_str("User: ");
    s.append(user);
    s.append("\nAssistant: ");
    s.append(answer);
    s.append("\n");
    proof {
        assert(s@ =~= record_view(user@, answer@));
    }
    s
}

/// One user turn of the agent loop: the session being extended, the
/// transcript offered to the model, and the bounded-iteration bookkeeping.
pub struct Turn {
    /// The persisted history, already extended with this turn's messages.
    pub session: Session,
    /// What is sent to the model: a fresh system message, then the windowed
    /// history, then everything this turn appended.
    pub transcript: Vec<Message>,
    /// This turn's inbound user text.
    pub user_text: String,
    /// Cap on tool-calling round-trips.
    pub max_iterations: usize,
    /// Model replies recorded so far (the forced final one included).
    pub round_trips: usize,
    /// Tool result messages recorded so far.
    pub tool_results: usize,
    /// Length of the session when the turn began, before the user message.
    pub start_len: usize,
    /// First history index included in the transcript.
    pub window_base: usize,
    /// Tool calls of the current reply, worked through in request order.
    pub pending: Vec<ToolCallRequest>,
    /// How many of `pending` are already answered or skipped.
    pub next_call: usize,
    pub phase: TurnPhase,
}

impl Turn {
    /// Message accounting and transcript/session agreement; preserved by
    /// every transition.
    pub open spec fn wf(self) -> bool {
        &&& self.max_iterations < usize::MAX
        &&& self.session@.len() == self.start_len + 1 + self.round_trips + self.tool_results
        &&& self.window_base <= self.start_len
        &&& self.transcript@.len() == 1 + self.session@.len() - self.window_base
        &&& self.transcript@[0]@.role == Role::System
        &&& forall|i: int|
            1 <= i < self.transcript@.len() ==> self.transcript@[i]@ == self.session@[
                self.window_base + i - 1]
        &&& self.next_call <= self.pending@.len()
        &&& (self.phase matches TurnPhase::NeedModel { with_tools } ==> (if with_tools {
            self.round_trips < self.max_iterations
        } else {
            self.round_trips == self.max_iterations
        }))
        &&& (self.phase is ToolPending || self.phase is ToolRunning ==> 1 <= self.round_trips
            <= self.max_iterations)
        &&& (self.phase is ToolRunning ==> self.next_call < self.pending@.len())
        &&& (self.phase is ToolPending || self.phase is ToolRunning ==> forall|i: int|
            0 <= i < calls_view(self.pending).len() ==> (#[trigger] calls_view(
                self.pending,
            )[i]).wf())
        &&& self.round_trips <= self.max_iterations + 1
    }

    /// Begins a turn: reconstructs the outgoing transcript (system message,
    /// then the adjusted trailing window of the history), and appends the
    /// user message to both transcript and session. The first step calls the
    /// model with tools, unless no iterations are allowed at all, in which
    /// case only the forced tools-disabled completion remains.
    pub fn start(
        session: Session,
        system_prompt: String,
        user_text: String,
        max_iterations: usize,
        history_limit: usize,
    ) -> (r: (Turn, TurnStep))
        requires
            max_iterations < usize::MAX,
        ensures
            r.0.wf(),
            r.0.max_iterations == max_iterations,
            r.0.start_len == session@.len(),
            r.0.round_trips == 0,
            r.0.tool_results == 0,
            r.0.user_text@ == user_text@,
            r.0.session@.len() == session@.len() + 1,
            r.0.session@.subrange(0, session@.len() as int) =~= session@,
            r.0.session@.last().role == Role::User,
            r.0.session@.last().content == Some(user_text@),
            // The transcript window begins at the adjusted trailing window:
            // at most the last `history_limit` messages, moved forward past
            // any leading `tool` message.
            crate::msg::spec_window_base(session@.len(), history_limit as nat) <= r.0.window_base
                <= session@.len(),
            forall|i: int|
                crate::msg::spec_window_base(session@.len(), history_limit as nat) <= i
                    < r.0.window_base ==> session@[i].role == Role::Tool,
            r.0.window_base < session@.len() ==> session@[r.0.window_base as int].role
                != Role::Tool,
            r.0.phase.awaiting(),
            r.0.phase.with_tools() <==> max_iterations > 0,
            r.1 matches TurnStep::CallModel { with_tools } && (with_tools <==> max_iterations
                > 0),
    {
        let mut session = session;
        let w = window_start(&session, history_limit);
        let ghost pre = session@;
        let start_len = session.messages.len();
        let mut transcript: Vec<Message> = Vec::new();
        transcript.push(Message::text(Role::System, system_prompt));
        let mut i: usize = w;
        while i < session.messages.len()
            invariant
                w <= i <= session.messages.len(),
                session@ == pre,
                transcript@.len() == 1 + i - w,
                transcript@[0]@.role == Role::System,
                forall|j: int|
                    1 <= j < transcript@.len() ==> transcript@[j]@ == session@[w + j - 1],
            decreases session.messages.len() - i,
        {
            proof {
                assert(session@[i as int] == session.messages@[i as int]@);
            }
            transcript.push(session.messages[i].clone());
            i = i + 1;
        }
        let user_msg = Message::text(Role::User, user_text.clone());
        transcript.push(user_msg.clone());
        session.push(user_msg);
        let with_tools = max_iterations > 0;
        let turn = Turn {
            session,
            transcript,
            user_text,
            max_iterations,
            round_trips: 0,
            tool_results: 0,
            start_len,
            window_base: w,
            pending: Vec::new(),
            next_call: 0,
            phase: TurnPhase::NeedModel { with_tools },
        };
        proof {
            assert(turn.session@.subrange(0, pre.len() as int) =~= pre);
        }
        (turn, TurnStep::CallModel { with_tools })
    }

    /// Records a model reply and decides what follows.
    ///
    /// In a tool-offering round-trip: a reply with tool-call requests (a
    /// non-empty list) starts the tool batch; a reply without any — the
    /// list absent or empty — ends the turn in exactly this round-trip with
    /// its content as the answer, except that an empty answer at the
    /// iteration cap forces one final tools-disabled call.
    ///
    /// In the forced tools-disabled round-trip: the reply's content is the
    /// answer, recorded as one more assistant message.
    ///
    /// Each requested call must name its id and tool (both non-empty), as
    /// the data model demands of the tool message that will answer it; the
    /// driver rejects a reply violating that as a protocol error.
    pub fn on_model_reply(&mut self, reply: Message) -> (r: TurnStep)
        requires
            old(self).wf(),
            old(self).phase.awaiting(),
            old(self).phase.with_tools() ==> (reply@.tool_calls matches Some(cs) ==> forall|
                i: int,
            | 0 <= i < cs.len() ==> (#[trigger] cs[i]).wf()),
        ensures
            final(self).wf(),
            final(self).max_iterations == old(self).max_iterations,
            final(self).start_len == old(self).start_len,
            final(self).user_text == old(self).user_text,
            final(self).round_trips == old(self).round_trips + 1,
            final(self).tool_results == old(self).tool_results,
            // A tool-offering round-trip records the reply verbatim.
            old(self).phase.with_tools() ==> final(self).session@ =~= old(
                self,
            ).session@.push(reply@),
            // Tool calls requested: work through them in request order.
            old(self).phase.with_tools() && has_tool_calls(reply@) ==> ({
                &&& final(self).phase is ToolPending
                &&& Some(calls_view(final(self).pending)) == reply@.tool_calls
                &&& final(self).next_call == 0
                &&& r is Continue
            }),
            // No tool calls, content given: done in this round-trip, and the
            // reply's content is the answer.
            old(self).phase.with_tools() && !has_tool_calls(reply@) && content_text(
                reply@,
            ).len() > 0 ==> ({
                &&& final(self).phase is Done
                &&& r matches TurnStep::Finish { answer, note } && answer@ == content_text(
                    reply@,
                ) && (note matches Some(n) && n@ == record_view(
                    old(self).user_text@,
                    content_text(reply@),
                ))
            }),
            // No tool calls, empty content, cap reached: force one final
            // tools-disabled completion.
            old(self).phase.with_tools() && !has_tool_calls(reply@) && content_text(
                reply@,
            ).len() == 0 && old(self).round_trips + 1 == old(self).max_iterations ==> ({
                &&& final(self).phase == (TurnPhase::NeedModel { with_tools: false })
                &&& r matches TurnStep::CallModel { with_tools } && !with_tools
            }),
            // No tool calls, empty content, under the cap: the turn ends
            // with an empty answer and nothing to remember.
            old(self).phase.with_tools() && !has_tool_calls(reply@) && content_text(
                reply@,
            ).len() == 0 && old(self).round_trips + 1 < old(self).max_iterations ==> ({
                &&& final(self).phase is Done
                &&& r matches TurnStep::Finish { answer, note } && answer@.len() == 0
                    && note is None
            }),
            // The forced tools-disabled completion: its content is the
            // answer and is recorded as one more assistant message.
            !old(self).phase.with_tools() ==> ({
                &&& final(self).session@ =~= old(self).session@.push(
                    assistant_text_view(content_text(reply@)),
                )
                &&& final(self).phase is Done
                &&& r matches TurnStep::Finish { answer, note } && answer@ == content_text(
                    reply@,
                ) && (if content_text(reply@).len() > 0 {
                    note matches Some(n) && n@ == record_view(
                        old(self).user_text@,
                        content_text(reply@),
                    )
                } else {
                    note is None
                })
            }),
    {
        let ghost reply_view = reply@;
        let with_tools = match self.phase {
            TurnPhase::NeedModel { with_tools } => with_tools,
            _ => false,
        };
        proof {
            let n = self.session@.len();
            assert(self.round_trips < n);
        }
        if with_tools {
            self.transcript.push(reply.clone());
            self.session.push(reply.clone());
            self.round_trips = self.round_trips + 1;
            let requested = match &reply.tool_calls {
                Some(v) => v.len() > 0,
                None => false,
            };
            if requested {
                let calls: Vec<ToolCallRequest> = match reply.tool_calls {
                    Some(v) => v,
                    None => {
                        proof {
                            assert(false);
                        }
                        Vec::new()
                    },
                };
                self.pending = calls;
                self.next_call = 0;
                self.phase = TurnPhase::ToolPending;
                proof {
                    match reply_view.tool_calls {
                        Some(cs) => {
                            assert(cs == calls_view(self.pending));
                            assert forall|i: int|
                                0 <= i < calls_view(self.pending).len() implies (
                            #[trigger] calls_view(self.pending)[i]).wf() by {
                                assert(cs[i].wf());
                            }
                        },
                        None => {
                            assert(false);
                        },
                    }
                }
                TurnStep::Continue
            } else {
                let answer: String = match reply.content {
                    Some(s) => s,
                    None => String::new(),
                };
                if !answer.as_str().is_empty() {
                    self.phase = TurnPhase::Done;
                    let note = memory_record(self.user_text.as_str(), answer.as_str());
                    TurnStep::Finish { answer, note: Some(note) }
                } else if self.round_trips == self.max_iterations {
                    self.phase = TurnPhase::NeedModel { with_tools: false };
                    TurnStep::CallModel { with_tools: false }
                } else {
                    self.phase = TurnPhase::Done;
                    TurnStep::Finish { answer, note: None }
                }
            }
        } else {
            let answer: String = match reply.content {
                Some(s) => s,
                None => String::new(),
            };
            let m = Message::text(Role::Assistant, answer.clone());
            self.transcript.push(m.clone());
            self.session.push(m);
            self.round_trips = self.round_trips + 1;
            self.phase = TurnPhase::Done;
            let note = if !answer.as_str().is_empty() {
                Some(memory_record(self.user_text.as_str(), answer.as_str()))
            } else {
                None
            };
            TurnStep::Finish { answer, note }
        }
    }

    /// Records that a model call failed. Inside the tool loop this aborts
    /// the whole turn (nothing further is persisted); for the forced
    /// tools-disabled completion the failure is swallowed and the turn ends
    /// with an empty answer, as one exhausted of recovery options.
    pub fn on_model_failure(&mut self) -> (r: Option<TurnStep>)
        requires
            old(self).wf(),
            old(self).phase.awaiting(),
        ensures
            final(self).wf(),
            final(self).phase is Done,
            final(self).session@ == old(self).session@,
            final(self).round_trips == old(self).round_trips,
            final(self).tool_results == old(self).tool_results,
            final(self).start_len == old(self).start_len,
            final(self).max_iterations == old(self).max_iterations,
            old(self).phase.with_tools() ==> r is None,
            !old(self).phase.with_tools() ==> (r matches Some(s) && s matches TurnStep::Finish {
                answer,
                note,
            } && answer@.len() == 0 && note is None),
    {
        let with_tools = match self.phase {
            TurnPhase::NeedModel { with_tools } => with_tools,
            _ => false,
        };
        self.phase = TurnPhase::Done;
        if with_tools {
            None
        } else {
            Some(TurnStep::Finish { answer: String::new(), note: None })
        }
    }

    /// Works on the current tool batch: hands out the next resolvable call,
    /// answers an unresolvable one itself with an error-text tool message,
    /// aborts the turn on an unparsable argument payload, and when the batch
    /// is exhausted goes back to the model — with tools while under the
    /// iteration cap, else forcing the final tools-disabled completion.
    pub fn proceed(&mut self, registry: &ToolRegistry) -> (r: Result<TurnStep, AgentError>)
        requires
            old(self).wf(),
            old(self).phase is ToolPending,
            registry.wf(),
        ensures
            final(self).max_iterations == old(self).max_iterations,
            final(self).start_len == old(self).start_len,
            final(self).user_text == old(self).user_text,
            // The tool batch itself never changes while it is worked
            // through: what `on_tool_result` records is the call handed out.
            final(self).pending == old(self).pending,
            match r {
                Ok(step) => {
                    &&& final(self).wf()
                    // Success implies the current call's payload was JSON.
                    &&& (old(self).next_call < old(self).pending@.len() ==> json_parse_ok(
                        calls_view(old(self).pending)[old(self).next_call as int].arguments,
                    ))
                    // Batch exhausted: back to the model.
                    &&& (old(self).next_call == old(self).pending@.len() ==> ({
                        &&& final(self).session@ == old(self).session@
                        &&& final(self).round_trips == old(self).round_trips
                        &&& final(self).tool_results == old(self).tool_results
                        &&& final(self).phase.awaiting()
                        &&& step matches TurnStep::CallModel { with_tools } && (with_tools
                            <==> old(self).round_trips < old(self).max_iterations)
                    }))
                    // Unregistered tool: answered here, on to the next call.
                    &&& (old(self).next_call < old(self).pending@.len() && json_parse_ok(
                        calls_view(old(self).pending)[old(self).next_call as int].arguments,
                    ) && lookup(
                        registry@,
                        calls_view(old(self).pending)[old(self).next_call as int].name,
                    ) is None ==> ({
                        &&& final(self).session@ =~= old(self).session@.push(
                            tool_result_view(
                                calls_view(old(self).pending)[old(self).next_call as int],
                                not_found_text(
                                    calls_view(old(self).pending)[old(self).next_call
                                        as int].name,
                                ),
                            ),
                        )
                        &&& final(self).session@.last().wf()
                        &&& final(self).tool_results == old(self).tool_results + 1
                        &&& final(self).round_trips == old(self).round_trips
                        &&& final(self).next_call == old(self).next_call + 1
                        &&& final(self).phase is ToolPending
                        &&& step is Continue
                    }))
                    // Registered tool: handed to the driver to execute.
                    &&& (old(self).next_call < old(self).pending@.len() && json_parse_ok(
                        calls_view(old(self).pending)[old(self).next_call as int].arguments,
                    ) && lookup(
                        registry@,
                        calls_view(old(self).pending)[old(self).next_call as int].name,
                    ) is Some ==> ({
                        &&& final(self).session@ == old(self).session@
                        &&& final(self).round_trips == old(self).round_trips
                        &&& final(self).tool_results == old(self).tool_results
                        &&& final(self).next_call == old(self).next_call
                        &&& final(self).phase is ToolRunning
                        &&& step matches TurnStep::RunTool { call, .. } && call@ == calls_view(
                            old(self).pending,
                        )[old(self).next_call as int]
                    }))
                },
                // An argument payload that is not JSON aborts the turn.
                Err(e) => {
                    &&& old(self).next_call < old(self).pending@.len()
                    &&& !json_parse_ok(
                        calls_view(old(self).pending)[old(self).next_call as int].arguments,
                    )
                    &&& e is ProtocolError
                    &&& final(self).phase is Done
                    &&& final(self).session@ == old(self).session@
                },
            },
    {
        if self.next_call == self.pending.len() {
            if self.round_trips < self.max_iterations {
                self.phase = TurnPhase::NeedModel { with_tools: true };
                Ok(TurnStep::CallModel { with_tools: true })
            } else {
                self.phase = TurnPhase::NeedModel { with_tools: false };
                Ok(TurnStep::CallModel { with_tools: false })
            }
        } else {
            proof {
                assert(calls_view(self.pending)[self.next_call as int] == self.pending@[
                    self.next_call as int]@);
            }
            let call = self.pending[self.next_call].clone();
            match parse_json_value(call.arguments.as_str()) {
                Err(e) => {
                    self.phase = TurnPhase::Done;
                    let mut detail = String::from_str("tool call arguments are not JSON: ");
                    let text = json_error_text(&e);
                    detail.append(text.as_str());
                    Err(AgentError::ProtocolError { detail })
                },
                Ok(args) => {
                    match registry.execute(call.name.as_str()) {
                        Ok(_def) => {
                            self.phase = TurnPhase::ToolRunning;
                            Ok(TurnStep::RunTool { call, args })
                        },
                        Err(_) => {
                            let mut text = String::from_str("Error: Tool ");
                            text.append(call.name.as_str());
                            text.append(" not found");
                            proof {
                                assert(text@ =~= not_found_text(call.name@));
                            }
                            let n = self.session.len();
                            proof {
                                assert(self.tool_results < n);
                                assert(calls_view(self.pending)[self.next_call as int].wf());
                            }
                            let msg = Message::tool_result(call.id, call.name, text);
                            self.transcript.push(msg.clone());
                            self.session.push(msg);
                            self.tool_results = self.tool_results + 1;
                            self.next_call = self.next_call + 1;
                            Ok(TurnStep::Continue)
                        },
                    }
                },
            }
        }
    }

    /// Records one tool outcome as a tool message — the result text itself,
    /// or the failure rendered as an error line — and moves to the next
    /// call. A failing tool never aborts the turn.
    pub fn on_tool_result(&mut self, outcome: Result<String, String>) -> (r: TurnStep)
        requires
            old(self).wf(),
            old(self).phase is ToolRunning,
        ensures
            final(self).wf(),
            final(self).phase is ToolPending,
            final(self).session@ =~= old(self).session@.push(
                tool_result_view(
                    calls_view(old(self).pending)[old(self).next_call as int],
                    outcome_text(outcome),
                ),
            ),
            final(self).session@.last().wf(),
            final(self).tool_results == old(self).tool_results + 1,
            final(self).round_trips == old(self).round_trips,
            final(self).next_call == old(self).next_call + 1,
            final(self).max_iterations == old(self).max_iterations,
            final(self).start_len == old(self).start_len,
            final(self).user_text == old(self).user_text,
            final(self).pending == old(self).pending,
            r is Continue,
    {
        proof {
            assert(calls_view(self.pending)[self.next_call as int] == self.pending@[
                self.next_call as int]@);
        }
        let n = self.session.len();
        let pn = self.pending.len();
        proof {
            assert(self.tool_results < n);
            assert(self.next_call < pn);
            assert(calls_view(self.pending)[self.next_call as int].wf());
        }
        let content: String = match outcome {
            Ok(s) => s,
            Err(e) => {
                let mut t = String::from_str("Error: ");
                t.append(e.as_str());
                proof {
                    assert(t@ =~= "Error: "@ + e@);
                }
                t
            },
        };
        let call = &self.pending[self.next_call];
        let msg = Message::tool_result(call.id.clone(), call.name.clone(), content);
        self.transcript.push(msg.clone());
        self.session.push(msg);
        self.tool_results = self.tool_results + 1;
        self.next_call = self.next_call + 1;
        self.phase = TurnPhase::ToolPending;
        TurnStep::Continue
    }
}

/// The fixed persona preamble of every system instruction block.
pub open spec fn persona_text() -> Seq<char> {
    "You are RedClaw, an ultra-efficient embedded AI agent. Keep responses brief. If you have enough information from tool results, provide a final answer immediately. Avoid repeating the same tool calls with identical parameters."@
}

/// One bootstrap identity document as a section of the system block.
pub open spec fn section_text(name: Seq<char>, content: Seq<char>) -> Seq<char> {
    "## "@ + name + "\n\n"@ + content + "\n\n"@
}

/// The bootstrap identity documents, concatenated in order.
pub open spec fn bootstrap_block(sections: Seq<(Seq<char>, Seq<char>)>) -> Seq<char>
    decreases sections.len(),
{
    if sections.len() == 0 {
        Seq::<char>::empty()
    } else {
        section_text(sections[0].0, sections[0].1) + bootstrap_block(sections.drop_first())
    }
}

proof fn lemma_bootstrap_snoc(sections: Seq<(Seq<char>, Seq<char>)>, x: (Seq<char>, Seq<char>))
    ensures
        bootstrap_block(sections.push(x)) == bootstrap_block(sections) + section_text(x.0, x.1),
    decreases sections.len(),
{
    if sections.len() == 0 {
        assert(sections.push(x)[0] == x);
        assert(sections.push(x).drop_first() =~= Seq::<(Seq<char>, Seq<char>)>::empty());
        assert(bootstrap_block(sections.push(x)) == section_text(x.0, x.1) + bootstrap_block(
            Seq::<(Seq<char>, Seq<char>)>::empty(),
        ));
        assert(bootstrap_block(Seq::<(Seq<char>, Seq<char>)>::empty()) == Seq::<char>::empty());
        assert(bootstrap_block(sections) == Seq::<char>::empty());
        assert(bootstrap_block(sections.push(x)) =~= bootstrap_block(sections) + section_text(
            x.0,
            x.1,
        ));
    } else {
        assert(sections.push(x)[0] == sections[0]);
        assert(sections.push(x).drop_first() =~= sections.drop_first().push(x));
        lemma_bootstrap_snoc(sections.drop_first(), x);
        assert(bootstrap_block(sections.push(x)) =~= bootstrap_block(sections) + section_text(
            x.0,
            x.1,
        ));
    }
}

/// The sections as texts.
pub open spec fn sections_view(v: Vec<(String, String)>) -> Seq<(Seq<char>, Seq<char>)> {
    v@.map_values(|p: (String, String)| (p.0@, p.1@))
}

/// Builds the system instruction block: the fixed persona preamble, the
/// bootstrap identity documents that were found (as named sections, in
/// order), and the memory context block. It is rebuilt fresh for every
/// turn and never persisted with the session.
pub fn build_system_prompt(sections: &Vec<(String, String)>, memory_context: &str) -> (r: String)
    ensures
        r@ == persona_text() + "\n\n"@ + bootstrap_block(sections_view(*sections)) + "\n\n"@
            + memory_context@,
{
    let ghost sv = sections_view(*sections);
    let mut block = String::new();
    let mut i: usize = 0;
    while i < sections.len()
        invariant
            i <= sections@.len(),
            sv == sections_view(*sections),
            sv.len() == sections@.len(),
            block@ == bootstrap_block(sv.subrange(0, i as int)),
        decreases sections@.len() - i,
    {
        let ghost done = sv.subrange(0, i as int);
        proof {
            assert(sv[i as int] == (sections@[i as int].0@, sections@[i as int].1@));
        }
        block.append("## ");
        block.append(sections[i].0.as_str());
        block.append("\n\n");
        block.append(sections[i].1.as_str());
        block.append("\n\n");
        proof {
            lemma_bootstrap_snoc(done, sv[i as int]);
            assert(done.push(sv[i as int]) =~= sv.subrange(0, i + 1));
            assert(block@ =~= bootstrap_block(sv.subrange(0, i + 1)));
        }
        i = i + 1;
    }
    proof {
        assert(sv.subrange(0, sv.len() as int) =~= sv);
    }
    let mut s = String::from_str(
        "You are RedClaw, an ultra-efficient embedded AI agent. Keep responses brief. If you have enough information from tool results, provide a final answer immediately. Avoid repeating the same tool calls with identical parameters.",
    );
    s.append("\n\n");
    s.append(block.as_str());
    s.append("\n\n");
    s.append(memory_context);
    proof {
        assert(s@ =~= persona_text() + "\n\n"@ + bootstrap_block(sv) + "\n\n"@ + memory_context@);
    }
    s
}

/// Whether a message appears in a summarization transcript.
pub open spec fn keep_line(m: MessageView) -> bool {
    m.role == Role::User || m.role == Role::Assistant
}

/// One message as a `role: content` line.
pub open spec fn line_text(m: MessageView) -> Seq<char> {
    role_str(m.role) + ": "@ + content_text(m)
}

/// The lines of the kept messages, in order.
pub open spec fn formatted_lines(ms: Seq<MessageView>) -> Seq<Seq<char>>
    decreases ms.len(),
{
    if ms.len() == 0 {
        Seq::<Seq<char>>::empty()
    } else {
        (if keep_line(ms[0]) {
            seq![line_text(ms[0])]
        } else {
            Seq::<Seq<char>>::empty()
        }) + formatted_lines(ms.drop_first())
    }
}

/// Lines joined by single newlines.
pub open spec fn join_lines(xs: Seq<Seq<char>>) -> Seq<char>
    decreases xs.len(),
{
    if xs.len() == 0 {
        Seq::<char>::empty()
    } else if xs.len() == 1 {
        xs[0]
    } else {
        xs[0] + "\n"@ + join_lines(xs.drop_first())
    }
}

/// A conversation segment as the summarizer sees it: the user and
/// assistant messages, one `role: content` line each.
pub open spec fn formatted_messages(ms: Seq<MessageView>) -> Seq<char> {
    join_lines(formatted_lines(ms))
}

proof fn lemma_formatted_lines_snoc(ms: Seq<MessageView>, m: MessageView)
    ensures
        formatted_lines(ms.push(m)) == formatted_lines(ms) + (if keep_line(m) {
            seq![line_text(m)]
        } else {
            Seq::<Seq<char>>::empty()
        }),
    decreases ms.len(),
{
    if ms.len() == 0 {
        assert(ms.push(m)[0] == m);
        assert(ms.push(m).drop_first() =~= Seq::<MessageView>::empty());
        assert(formatted_lines(ms.push(m)) == (if keep_line(m) {
            seq![line_text(m)]
        } else {
            Seq::<Seq<char>>::empty()
        }) + formatted_lines(Seq::<MessageView>::empty()));
        assert(formatted_lines(Seq::<MessageView>::empty()) == Seq::<Seq<char>>::empty());
        assert(formatted_lines(ms) == Seq::<Seq<char>>::empty());
        assert(formatted_lines(ms.push(m)) =~= formatted_lines(ms) + (if keep_line(m) {
            seq![line_text(m)]
        } else {
            Seq::<Seq<char>>::empty()
        }));
    } else {
        assert(ms.push(m)[0] == ms[0]);
        assert(ms.push(m).drop_first() =~= ms.drop_first().push(m));
        lemma_formatted_lines_snoc(ms.drop_first(), m);
        assert(formatted_lines(ms.push(m)) =~= formatted_lines(ms) + (if keep_line(m) {
            seq![line_text(m)]
        } else {
            Seq::<Seq<char>>::empty()
        }));
    }
}

proof fn lemma_join_lines_snoc(xs: Seq<Seq<char>>, x: Seq<char>)
    requires
        xs.len() >= 1,
    ensures
        join_lines(xs.push(x)) == join_lines(xs) + "\n"@ + x,
    decreases xs.len(),
{
    if xs.len() == 1 {
        assert(xs.push(x)[0] == xs[0]);
        assert(xs.push(x).drop_first() =~= seq![x]);
        assert(join_lines(seq![x]) == x);
    } else {
        assert(xs.push(x)[0] == xs[0]);
        assert(xs.push(x).drop_first() =~= xs.drop_first().push(x));
        lemma_join_lines_snoc(xs.drop_first(), x);
        assert(xs[0] + "\n"@ + (join_lines(xs.drop_first()) + "\n"@ + x) =~= (xs[0] + "\n"@
            + join_lines(xs.drop_first())) + "\n"@ + x);
    }
}

/// Renders the user and assistant messages as `role: content` lines joined
/// by newlines, as `formatted_messages` describes.
pub fn format_messages(messages: &Vec<Message>) -> (r: String)
    ensures
        r@ == formatted_messages(messages@.map_values(|m: Message| m@)),
{
    let ghost mv = messages@.map_values(|m: Message| m@);
    let mut out = String::new();
    let mut any = false;
    let mut i: usize = 0;
    while i < messages.len()
        invariant
            i <= messages@.len(),
            mv == messages@.map_values(|m: Message| m@),
            mv.len() == messages@.len(),
            any <==> formatted_lines(mv.subrange(0, i as int)).len() > 0,
            out@ == join_lines(formatted_lines(mv.subrange(0, i as int))),
        decreases messages@.len() - i,
    {
        let ghost done = mv.subrange(0, i as int);
        proof {
            assert(mv[i as int] == messages@[i as int]@);
        }
        let m = &messages[i];
        let kept = match m.role {
            Role::User => true,
            Role::Assistant => true,
            _ => false,
        };
        if kept {
            if any {
                out.append("\n");
            }
            match m.role {
                Role::User => out.append("user"),
                Role::Assistant => out.append("assistant"),
                _ => (),
            }
            out.append(": ");
            match &m.content {
                Some(c) => out.append(c.as_str()),
                None => (),
            }
            any = true;
        }
        proof {
            lemma_formatted_lines_snoc(done, mv[i as int]);
            assert(done.push(mv[i as int]) =~= mv.subrange(0, i + 1));
            let lines = formatted_lines(mv.subrange(0, i + 1));
            if keep_line(mv[i as int]) {
                assert(lines == formatted_lines(done).push(line_text(mv[i as int]))) by {
                    assert(formatted_lines(done) + seq![line_text(mv[i as int])]
                        =~= formatted_lines(done).push(line_text(mv[i as int])));
                }
                if formatted_lines(done).len() == 0 {
                    assert(lines =~= seq![line_text(mv[i as int])]);
                    assert(out@ =~= join_lines(lines));
                } else {
                    lemma_join_lines_snoc(formatted_lines(done), line_text(mv[i as int]));
                    assert(out@ =~= join_lines(lines));
                }
            } else {
                assert(lines =~= formatted_lines(done));
            }
        }
        i = i + 1;
    }
    proof {
        assert(mv.subrange(0, mv.len() as int) =~= mv);
    }
    out
}

/// The instruction prefix of a summarization request.
pub open spec fn summarize_prefix() -> Seq<char> {
    "Provide a very concise summary of this conversation segment, preserving core context and key points.\n\nCONVERSATION:\n"@
}

/// The single user message sent to request a summary of a conversation
/// segment.
pub fn summarize_prompt(messages: &Vec<Message>) -> (r: String)
    ensures
        r@ == summarize_prefix() + formatted_messages(messages@.map_values(|m: Message| m@)),
{
    let body = format_messages(messages);
    let mut s = String::from_str(
        "Provide a very concise summary of this conversation segment, preserving core context and key points.\n\nCONVERSATION:\n",
    );
    s.append(body.as_str());
    s
}

/// The orchestrator: the model client, the notes store, the tool registry,
/// the iteration cap, and the key of the conversation being served.
#[derive(Debug)]
pub struct Agent {
    pub client: LLMClient,
    pub memory: MemoryStore,
    pub tools: ToolRegistry,
    pub max_iterations: usize,
    pub session_key: String,
}

impl Agent {
    pub fn new(client: LLMClient, memory: MemoryStore, tools: ToolRegistry, max_iterations: usize) -> (a:
        Agent)
        ensures
            a.client == client,
            a.memory == memory,
            a.tools == tools,
            a.max_iterations == max_iterations,
            a.session_key@ == "default"@,
    {
        Agent {
            client,
            memory,
            tools,
            max_iterations,
            session_key: String::from_str("default"),
        }
    }

    /// Points the agent at another conversation.
    pub fn set_session(&mut self, key: &str)
        ensures
            final(self).session_key@ == key@,
            final(self).client == old(self).client,
            final(self).memory == old(self).memory,
            final(self).tools == old(self).tools,
            final(self).max_iterations == old(self).max_iterations,
    {
        self.session_key = String::from_str(key);
    }

    /// The file this agent's current session is persisted in.
    pub fn get_session_path(&self) -> (r: String)
        ensures
            r@ == self.memory.workspace@ + "/sessions/"@ + self.session_key@ + ".json"@,
    {
        let mut s = self.memory.workspace.clone();
        s.append("/sessions/");
        s.append(self.session_key.as_str());
        s.append(".json");
        proof {
            assert(s@ =~= self.memory.workspace@ + "/sessions/"@ + self.session_key@ + ".json"@);
        }
        s
    }

    /// Begins one turn on the loaded session, under this agent's iteration
    /// cap and history window; see `Turn::start`.
    pub fn begin_turn(&self, session: Session, system_prompt: String, user_text: String) -> (r: (
        Turn,
        TurnStep,
    ))
        requires
            self.max_iterations < usize::MAX,
        ensures
            r.0.wf(),
            r.0.max_iterations == self.max_iterations,
            r.0.start_len == session@.len(),
            r.0.round_trips == 0,
            r.0.tool_results == 0,
            r.0.user_text@ == user_text@,
            r.0.session@.len() == session@.len() + 1,
            r.0.session@.subrange(0, session@.len() as int) =~= session@,
            r.0.session@.last().role == Role::User,
            r.0.session@.last().content == Some(user_text@),
            r.0.phase.awaiting(),
            r.0.phase.with_tools() <==> self.max_iterations > 0,
            r.1 matches TurnStep::CallModel { with_tools } && (with_tools
                <==> self.max_iterations > 0),
    {
        Turn::start(session, system_prompt, user_text, self.max_iterations, HISTORY_LIMIT)
    }
}

/// After any number of transitions, the session holds the pre-turn history,
/// the user message, one assistant message per model round-trip, and one
/// tool message per answered tool call.
pub proof fn lemma_turn_accounting(t: Turn)
    requires
        t.wf(),
    ensures
        t.session@.len() == t.start_len + 1 + t.round_trips + t.tool_results,
{
}

/// A turn never exceeds its round-trip budget: at most `max_iterations`
/// tool-offering round-trips, plus at most one forced tools-disabled one.
pub proof fn lemma_round_trip_bound(t: Turn)
    requires
        t.wf(),
    ensures
        t.round_trips <= t.max_iterations + 1,
        t.phase.with_tools() ==> t.round_trips < t.max_iterations,
        t.phase.awaiting() && !t.phase.with_tools() ==> t.round_trips == t.max_iterations,
{
}

} // verus!

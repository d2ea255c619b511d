//! The reply state machine of one conversational turn: it calls the model,
//! passes each proposed tool call through the permission check, has the
//! approved ones run, and hands every committed message to the session.
//! The outside work (the model call, the tool call, the human decision) is
//! done by the caller, who feeds its outcome back as an event.
use vstd::prelude::*;
use crate::extension::{is_read_only, read_only_tool, Tool};
use crate::message::{item_id, lemma_requests_of_len, requests_of, Content, Message, Role, ToolCall, ToolError};
use crate::permission::{decide, verdict_spec, Verdict, Mode, PermissionStore};

verus! {

/// Where a turn stands.
#[derive(PartialEq, Eq, Structural, Clone, Copy, Debug)]
pub enum Phase {
    /// Not started.
    Idle,
    /// Waiting for the model's reply.
    Calling,
    /// The model's reply was handed out and held no tool request.
    Replied,
    /// Working through the tool requests of the model's reply.
    Dispatching,
    /// Waiting for a human decision on the current tool request.
    AwaitingConfirmation,
    /// Waiting for the result of the current tool call.
    Executing,
    /// The tool responses were handed out; the model is called next.
    Answered,
    /// The turn ended normally.
    Done,
    /// The turn ended on a provider error.
    Failed,
}

/// What the caller is to do next.
#[derive(Debug)]
pub enum Action {
    /// Call the model with the history, the system prompt and the tools.
    CallModel,
    /// Commit this message to the transcript.
    Yield(Message),
    /// Ask a human whether this tool call may run.
    Confirm { id: String, call: ToolCall },
    /// Run this tool call.
    CallTool { id: String, call: ToolCall },
    /// The turn is over.
    Finish,
    /// The turn failed with this error.
    Fail(String),
    /// Nothing: the event was ignored.
    Wait,
}

/// The tool request needs outside work (a run, perhaps a confirmation first):
/// its call parsed and tools are allowed at all.
pub open spec fn needs_outside(mode: Mode, req: Content) -> bool {
    mode != Mode::Chat && req matches Content::ToolRequest { call: Ok(_), .. }
}

pub open spec fn chat_mode_note() -> Seq<char> {
    "Tool calls are disabled in chat mode; the call was skipped."@
}

pub open spec fn declined_note() -> Seq<char> {
    "The user declined to run this tool."@
}

/// `resp` is the response given without outside work to a request that needs none:
/// the parse error of the call, or the note that chat mode skips tool calls.
pub open spec fn settled_response(mode: Mode, req: Content, resp: Content) -> bool {
    match req {
        Content::ToolRequest { id, call: Err(e) } => resp matches Content::ToolResponse { id: rid, result: Err(re) } && rid@ == id@ && re == e,
        Content::ToolRequest { id, call: Ok(_) } => {
            &&& mode == Mode::Chat
            &&& resp matches Content::ToolResponse { id: rid, result: Err(ToolError::ExecutionError(note)) }
            &&& rid@ == id@
            &&& note@ == chat_mode_note()
        },
        _ => false,
    }
}

/// The first request from `from` on that needs outside work, or the number of requests.
pub open spec fn first_outside(mode: Mode, reqs: Seq<Content>, from: int) -> int
    decreases reqs.len() - from,
{
    if from < 0 || from >= reqs.len() {
        reqs.len() as int
    } else if needs_outside(mode, reqs[from]) {
        from
    } else {
        first_outside(mode, reqs, from + 1)
    }
}

pub proof fn lemma_first_outside_bounds(mode: Mode, reqs: Seq<Content>, from: int)
    requires
        0 <= from <= reqs.len(),
    ensures
        from <= first_outside(mode, reqs, from) <= reqs.len(),
    decreases reqs.len() - from,
{
    if from < reqs.len() && !needs_outside(mode, reqs[from]) {
        lemma_first_outside_bounds(mode, reqs, from + 1);
    }
}

/// The id and call of a tool request whose call parsed.
pub open spec fn request_call(req: Content) -> (Seq<char>, ToolCall) {
    match req {
        Content::ToolRequest { id, call: Ok(c) } => (id@, c),
        _ => (Seq::empty(), arbitrary()),
    }
}

/// The action hands out the call of the request, to run it or to ask about it.
pub open spec fn action_for(a: Action, req: Content, confirm: bool) -> bool {
    let (id, call) = request_call(req);
    if confirm {
        a matches Action::Confirm { id: aid, call: acall } && aid@ == id && acall == call
    } else {
        a matches Action::CallTool { id: aid, call: acall } && aid@ == id && acall == call
    }
}

/// The permission decision on a tool request.
pub open spec fn verdict_of(mode: Mode, tools: Seq<Tool>, permissions: PermissionStore, req: Content) -> Verdict {
    let name = request_call(req).1.name@;
    verdict_spec(mode, is_read_only(tools, name), permissions.recorded(name) == Some(true))
}

/// The action breaks no rule of the mode: in chat mode no tool runs and in
/// auto mode nobody is asked.
pub open spec fn mode_respected(mode: Mode, a: Action) -> bool {
    &&& mode == Mode::Chat ==> !(a is CallTool) && !(a is Confirm)
    &&& mode == Mode::Auto ==> !(a is Confirm)
}

/// The state of one turn.
#[derive(Debug)]
pub struct Reply {
    mode: Mode,
    tools: Vec<Tool>,
    permissions: PermissionStore,
    phase: Phase,
    /// The tool requests of the model's last reply.
    requests: Vec<Content>,
    /// The responses to the first of them, in order.
    responses: Vec<Content>,
}

impl Reply {
    pub closed spec fn mode(&self) -> Mode {
        self.mode
    }

    pub closed spec fn tools(&self) -> Seq<Tool> {
        self.tools@
    }

    pub closed spec fn permissions(&self) -> PermissionStore {
        self.permissions
    }

    pub closed spec fn phase(&self) -> Phase {
        self.phase
    }

    pub closed spec fn requests(&self) -> Seq<Content> {
        self.requests@
    }

    pub closed spec fn responses(&self) -> Seq<Content> {
        self.responses@
    }

    /// The state is consistent: every request is a tool request, each
    /// response answers the request at its index, and a request awaited on
    /// is the first one unanswered and needs outside work.
    pub open spec fn wf(&self) -> bool {
        let reqs = self.requests();
        let resps = self.responses();
        &&& forall|k: int| 0 <= k < reqs.len() ==> (#[trigger] reqs[k]) is ToolRequest
        &&& resps.len() <= reqs.len()
        &&& forall|k: int|
            0 <= k < resps.len() ==> (#[trigger] resps[k]) is ToolResponse && item_id(resps[k]) == item_id(reqs[k])
        &&& (self.phase() == Phase::AwaitingConfirmation || self.phase() == Phase::Executing) ==> {
            &&& resps.len() < reqs.len()
            &&& needs_outside(self.mode(), reqs[resps.len() as int])
        }
        &&& self.phase() == Phase::AwaitingConfirmation ==> self.mode() == Mode::Approve
        &&& self.phase() == Phase::Answered ==> resps.len() == reqs.len()
    }

    /// How the turn went on from a dispatching state with the given parts
    /// and the responses `before` to `self` and the action `a`: the requests
    /// that need no outside work got their settled responses, up to the first
    /// that does; that one is handed out to run or to confirm, as the permission check
    /// decides, or, where none is left, the responses are handed out as one
    /// user message.
    pub open spec fn dispatched(
        &self,
        mode: Mode,
        tools: Seq<Tool>,
        permissions: PermissionStore,
        reqs: Seq<Content>,
        before: Seq<Content>,
        a: Action,
    ) -> bool {
        let from = before.len() as int;
        let j = first_outside(mode, reqs, from);
        &&& self.mode() == mode
        &&& self.tools() == tools
        &&& self.permissions() == permissions
        &&& self.requests() == reqs
        &&& self.responses().len() == j
        &&& self.responses().subrange(0, from) == before
        &&& forall|k: int| from <= k < j ==> settled_response(mode, reqs[k], #[trigger] self.responses()[k])
        &&& j == reqs.len() ==> {
            &&& self.phase() == Phase::Answered
            &&& a matches Action::Yield(m) && m.role == Role::User && m.content@ == self.responses()
        }
        &&& j < reqs.len() ==> {
            let g = verdict_of(mode, tools, permissions, reqs[j]);
            &&& g != Verdict::Forbidden
            &&& g == Verdict::Proceed ==> self.phase() == Phase::Executing && action_for(a, reqs[j], false)
            &&& g == Verdict::Confirm ==> self.phase() == Phase::AwaitingConfirmation && action_for(a, reqs[j], true)
        }
    }

    /// A turn that has not started.
    pub fn new(mode: Mode, tools: Vec<Tool>, permissions: PermissionStore) -> (r: Reply)
        ensures
            r.wf(),
            r.mode() == mode,
            r.tools() == tools@,
            r.permissions() == permissions,
            r.phase() == Phase::Idle,
            r.requests().len() == 0,
            r.responses().len() == 0,
    {
        Reply { mode, tools, permissions, phase: Phase::Idle, requests: Vec::new(), responses: Vec::new() }
    }

    /// Where the turn stands.
    pub fn current_phase(&self) -> (p: Phase)
        ensures
            p == self.phase(),
    {
        self.phase
    }

    /// The decisions recorded so far, for the caller to keep.
    pub fn into_permissions(self) -> (p: PermissionStore)
        ensures
            p == self.permissions(),
    {
        self.permissions
    }

    /// Starts the turn: the model is called.
    pub fn start(&mut self) -> (a: Action)
        requires
            old(self).wf(),
            old(self).phase() == Phase::Idle,
        ensures
            final(self).wf(),
            final(self).phase() == Phase::Calling,
            a is CallModel,
            mode_respected(old(self).mode(), a),
            final(self).mode() == old(self).mode(),
            final(self).tools() == old(self).tools(),
            final(self).permissions() == old(self).permissions(),
            final(self).requests() == old(self).requests(),
            final(self).responses() == old(self).responses(),
    {
        self.phase = Phase::Calling;
        Action::CallModel
    }

    /// The model failed: the turn ends and the error is handed out.
    pub fn on_provider_error(&mut self, error: String) -> (a: Action)
        requires
            old(self).wf(),
            old(self).phase() == Phase::Calling,
        ensures
            final(self).wf(),
            final(self).phase() == Phase::Failed,
            a matches Action::Fail(e) && e@ == error@,
            mode_respected(old(self).mode(), a),
            final(self).mode() == old(self).mode(),
            final(self).permissions() == old(self).permissions(),
    {
        self.phase = Phase::Failed;
        Action::Fail(error)
    }

    /// The model replied: the reply is handed out to be committed, and its
    /// tool requests are worked through next; without any, the turn ends next.
    pub fn on_model_reply(&mut self, msg: Message) -> (a: Action)
        requires
            old(self).wf(),
            old(self).phase() == Phase::Calling,
        ensures
            final(self).wf(),
            final(self).requests() == requests_of(msg.content@),
            final(self).responses().len() == 0,
            final(self).phase() == if requests_of(msg.content@).len() == 0 {
                Phase::Replied
            } else {
                Phase::Dispatching
            },
            a == Action::Yield(msg),
            mode_respected(old(self).mode(), a),
            final(self).mode() == old(self).mode(),
            final(self).tools() == old(self).tools(),
            final(self).permissions() == old(self).permissions(),
    {
        let mut reqs: Vec<Content> = Vec::new();
        let mut i: usize = 0;
        while i < msg.content.len()
            invariant
                i <= msg.content@.len(),
                reqs@ == requests_of(msg.content@.subrange(0, i as int)),
            decreases msg.content@.len() - i,
        {
            proof {
                assert(msg.content@.subrange(0, i + 1).drop_last() =~= msg.content@.subrange(0, i as int));
            }
            match &msg.content[i] {
                Content::ToolRequest { .. } => reqs.push(msg.content[i].clone()),
                _ => {},
            }
            i = i + 1;
        }
        proof {
            assert(msg.content@.subrange(0, msg.content@.len() as int) =~= msg.content@);
            lemma_requests_of_len(msg.content@);
        }
        self.phase = if reqs.len() == 0 {
            Phase::Replied
        } else {
            Phase::Dispatching
        };
        self.requests = reqs;
        self.responses = Vec::new();
        Action::Yield(msg)
    }

    /// Works through the unanswered tool requests until one needs outside work.
    fn dispatch(&mut self) -> (a: Action)
        requires
            old(self).wf(),
            old(self).phase() == Phase::Dispatching,
        ensures
            final(self).wf(),
            final(self).dispatched(
                old(self).mode(),
                old(self).tools(),
                old(self).permissions(),
                old(self).requests(),
                old(self).responses(),
                a,
            ),
            mode_respected(old(self).mode(), a),
    {
        let ghost from = self.responses@.len() as int;
        let ghost before = self.responses@;
        let ghost j = first_outside(self.mode, self.requests@, from);
        while self.responses.len() < self.requests.len()
            invariant
                self.wf(),
                self.phase == Phase::Dispatching,
                self.mode == old(self).mode,
                self.tools == old(self).tools,
                self.permissions == old(self).permissions,
                self.requests@ == old(self).requests@,
                before == old(self).responses@,
                from == before.len(),
                j == first_outside(old(self).mode, old(self).requests@, from),
                0 <= from <= self.responses@.len(),
                first_outside(self.mode, self.requests@, self.responses@.len() as int) == j,
                self.responses@.subrange(0, from) == before,
                forall|k: int|
                    from <= k < self.responses@.len() ==> settled_response(
                        self.mode,
                        self.requests@[k],
                        #[trigger] self.responses@[k],
                    ),
            decreases self.requests@.len() - self.responses@.len(),
        {
            let k = self.responses.len();
            let ghost old_resps = self.responses@;
            let req = self.requests[k].clone();
            proof {
                assert(req is ToolRequest);
            }
            let response = match req {
                Content::ToolRequest { id, call } => match call {
                    Err(e) => Content::ToolResponse { id, result: Err(e) },
                    Ok(c) => {
                        if self.mode == Mode::Chat {
                            let note = String::from_str("Tool calls are disabled in chat mode; the call was skipped.");
                            Content::ToolResponse { id, result: Err(ToolError::ExecutionError(note)) }
                        } else {
                            let read_only = read_only_tool(&self.tools, c.name.as_str());
                            let approved = self.permissions.approved(c.name.as_str());
                            let verdict = decide(self.mode, read_only, approved);
                            if verdict == Verdict::Confirm {
                                self.phase = Phase::AwaitingConfirmation;
                                return Action::Confirm { id, call: c };
                            } else {
                                self.phase = Phase::Executing;
                                return Action::CallTool { id, call: c };
                            }
                        }
                    },
                },
                _ => Content::Text(String::new()),
            };
            self.responses.push(response);
            proof {
                assert(self.responses@.subrange(0, from) =~= old_resps.subrange(0, from));
                assert(settled_response(self.mode, self.requests@[k as int], self.responses@[k as int]));
            }
        }
        let content = self.responses.clone();
        proof {
            assert(content@ =~= self.responses@);
        }
        self.phase = Phase::Answered;
        Action::Yield(Message { role: Role::User, content })
    }

    /// Goes on after a handed-out message was committed: a reply without
    /// tool requests ends the turn, answered tool requests lead to the next
    /// model call, and otherwise the tool requests are worked through.
    pub fn resume(&mut self) -> (a: Action)
        requires
            old(self).wf(),
            old(self).phase() == Phase::Replied || old(self).phase() == Phase::Dispatching
                || old(self).phase() == Phase::Answered,
        ensures
            final(self).wf(),
            mode_respected(old(self).mode(), a),
            final(self).mode() == old(self).mode(),
            old(self).phase() == Phase::Replied ==> final(self).phase() == Phase::Done && a is Finish,
            old(self).phase() == Phase::Answered ==> final(self).phase() == Phase::Calling && a is CallModel,
            old(self).phase() != Phase::Dispatching ==> {
                &&& final(self).tools() == old(self).tools()
                &&& final(self).permissions() == old(self).permissions()
                &&& final(self).requests() == old(self).requests()
                &&& final(self).responses() == old(self).responses()
            },
            old(self).phase() == Phase::Dispatching ==> final(self).dispatched(
                old(self).mode(),
                old(self).tools(),
                old(self).permissions(),
                old(self).requests(),
                old(self).responses(),
                a,
            ),
    {
        if self.phase == Phase::Replied {
            self.phase = Phase::Done;
            Action::Finish
        } else if self.phase == Phase::Answered {
            self.phase = Phase::Calling;
            Action::CallModel
        } else {
            self.dispatch()
        }
    }

    /// The current tool call returned: its result is recorded as the
    /// response to its request and the remaining requests are worked through.
    pub fn on_tool_result(&mut self, result: Result<String, ToolError>) -> (a: Action)
        requires
            old(self).wf(),
            old(self).phase() == Phase::Executing,
        ensures
            final(self).wf(),
            mode_respected(old(self).mode(), a),
            ({
                let k = old(self).responses().len() as int;
                &&& final(self).responses().len() > k
                &&& final(self).responses()[k] matches Content::ToolResponse { id, result: r }
                &&& id@ == item_id(old(self).requests()[k])
                &&& r == result
                &&& final(self).dispatched(
                    old(self).mode(),
                    old(self).tools(),
                    old(self).permissions(),
                    old(self).requests(),
                    old(self).responses().push(final(self).responses()[k]),
                    a,
                )
            }),
    {
        let k = self.responses.len();
        let id = match &self.requests[k] {
            Content::ToolRequest { id, .. } => id.clone(),
            _ => String::new(),
        };
        self.responses.push(Content::ToolResponse { id, result });
        self.phase = Phase::Dispatching;
        let ghost mid = self.responses@;
        proof {
            lemma_first_outside_bounds(self.mode, self.requests@, k as int + 1);
        }
        let a = self.dispatch();
        proof {
            assert(self.responses@.subrange(0, k as int + 1) == mid);
            assert(self.responses@.subrange(0, k as int + 1)[k as int] == self.responses@[k as int]);
            assert(old(self).responses@.push(mid[k as int]) =~= mid);
        }
        a
    }

    /// A human decided on the tool call with this id. A decision on any
    /// other id, or when no decision is awaited, is ignored. The decision is
    /// recorded for the tool; an approved call is handed out to run, a
    /// declined one is answered with an error and the remaining requests
    /// are worked through.
    pub fn on_decision(&mut self, id: &str, approved: bool) -> (a: Action)
        requires
            old(self).wf(),
        ensures
            final(self).wf(),
            mode_respected(old(self).mode(), a),
            final(self).mode() == old(self).mode(),
            ({
                let k = old(self).responses().len() as int;
                let awaited = old(self).phase() == Phase::AwaitingConfirmation && id@ == item_id(old(self).requests()[k]);
                let req = old(self).requests()[k];
                let name = request_call(req).1.name@;
                &&& !awaited ==> *final(self) == *old(self) && a is Wait
                &&& awaited ==> {
                    &&& final(self).permissions().recorded(name) == Some(approved)
                    &&& forall|t: Seq<char>|
                        t != name ==> final(self).permissions().recorded(t) == old(self).permissions().recorded(t)
                    &&& approved ==> {
                        &&& final(self).phase() == Phase::Executing
                        &&& action_for(a, req, false)
                        &&& final(self).requests() == old(self).requests()
                        &&& final(self).responses() == old(self).responses()
                        &&& final(self).tools() == old(self).tools()
                    }
                    &&& !approved ==> {
                        &&& final(self).responses().len() > k
                        &&& final(self).responses()[k] matches Content::ToolResponse {
                            id: rid,
                            result: Err(ToolError::ExecutionError(note)),
                        }
                        &&& rid@ == id@
                        &&& note@ == declined_note()
                        &&& final(self).dispatched(
                            old(self).mode(),
                            old(self).tools(),
                            final(self).permissions(),
                            old(self).requests(),
                            old(self).responses().push(final(self).responses()[k]),
                            a,
                        )
                    }
                }
            }),
    {
        if self.phase != Phase::AwaitingConfirmation {
            return Action::Wait;
        }
        let k = self.responses.len();
        let req = self.requests[k].clone();
        match req {
            Content::ToolRequest { id: rid, call: Ok(call) } => {
                if rid.as_str().to_owned() != id.to_owned() {
                    return Action::Wait;
                }
                self.permissions.record(call.name.clone(), approved);
                if approved {
                    self.phase = Phase::Executing;
                    Action::CallTool { id: rid, call }
                } else {
                    let note = String::from_str("The user declined to run this tool.");
                    self.responses.push(
                        Content::ToolResponse { id: rid, result: Err(ToolError::ExecutionError(note)) },
                    );
                    self.phase = Phase::Dispatching;
                    let ghost mid = self.responses@;
                    proof {
                        lemma_first_outside_bounds(self.mode, self.requests@, k as int + 1);
                    }
                    let a = self.dispatch();
                    proof {
                        assert(self.responses@.subrange(0, k as int + 1)[k as int] == self.responses@[k as int]);
                        assert(self.responses@.subrange(0, k as int + 1) == mid);
                        assert(old(self).responses@.push(mid[k as int]) =~= mid);
                    }
                    a
                }
            },
            _ => Action::Wait,
        }
    }
}

} // verus!

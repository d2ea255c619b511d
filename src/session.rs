//! The session transcript, how each step of a turn changes it, and the
//! recovery that repairs it when a turn is cut short.
use vstd::prelude::*;
use rand::distributions::Alphanumeric;
use rand::Rng;
use crate::command::{builtin_names, no_command, parse_extension_command, parsed_as, pieces, trimmed, views};
use crate::completion::{describes, prompt_info, prompt_names, CompletionCache, PromptInfo};
use crate::extension::{
    all_tools, bad_uri, name_taken, offers_tool, same_prompt, same_prompts, ExtensionConfig, DEFAULT_EXTENSION_TIMEOUT, ExtensionError, ExtensionRegistry, Prompt, Registered, Tool,
};
use crate::message::{item_id, requests_of, same_message, is_text_message, last_request_name, request_ids, Content, Message, Role, ToolError};

verus! {

/// The shape of the end of a transcript, as interrupt recovery sees it.
#[derive(PartialEq, Eq, Structural, Clone, Copy, Debug)]
pub enum TailShape {
    /// The last message is the assistant's and holds tool requests that got no response.
    PendingToolRequests,
    /// The last message is the user's and its sole item is a tool response: the model has not replied.
    ToolResponseAwaitingReply,
    /// The last message is any other message of the user, which got no answer.
    UnansweredUserMessage,
    /// Anything else: an empty transcript, or a last assistant message without tool requests.
    Settled,
}

pub open spec fn tail_shape(msgs: Seq<Message>) -> TailShape {
    if msgs.len() == 0 {
        TailShape::Settled
    } else {
        let last = msgs.last();
        if last.role == Role::Assistant && request_ids(last.content@).len() > 0 {
            TailShape::PendingToolRequests
        } else if last.role == Role::User && last.content@.len() > 0 {
            if last.content@.len() == 1 && last.content@[0] is ToolResponse {
                TailShape::ToolResponseAwaitingReply
            } else {
                TailShape::UnansweredUserMessage
            }
        } else {
            TailShape::Settled
        }
    }
}

/// Recovery is only defined on a transcript whose last message has content.
pub open spec fn recoverable(msgs: Seq<Message>) -> bool {
    msgs.len() > 0 ==> msgs.last().content@.len() > 0
}

/// The error text given to each interrupted tool request.
pub open spec fn interruption_note(interrupt: bool) -> Seq<char> {
    if interrupt {
        "Interrupted by the user to make a correction"@
    } else {
        "An uncaught error happened during tool use"@
    }
}

/// The note that asks how to go on after tool requests were interrupted.
pub open spec fn interrupted_call_prompt(name: Seq<char>) -> Seq<char> {
    "The existing call to "@ + name + " was interrupted. How would you like to proceed?"@
}

pub open spec fn tool_loop_prompt() -> Seq<char> {
    "The tool calling loop was interrupted. How would you like to proceed?"@
}

pub open spec fn removed_message_notice() -> Seq<char> {
    "Interrupted before the model replied and removed the last message."@
}

/// `m` answers each tool request among `c`, in order, with an execution error holding `note`.
pub open spec fn interrupted_responses(c: Seq<Content>, m: Seq<Content>, note: Seq<char>) -> bool {
    let ids = request_ids(c);
    &&& m.len() == ids.len()
    &&& forall|i: int|
        #![trigger m[i]]
        0 <= i < m.len() ==> {
            &&& m[i] matches Content::ToolResponse { id, result: Err(ToolError::ExecutionError(e)) }
            &&& id@ == ids[i]
            &&& e@ == note
        }
}

/// `new` is what recovery makes of `old`, and `notice` what it shows the operator.
pub open spec fn recovered(old: Seq<Message>, new: Seq<Message>, interrupt: bool, notice: Seq<char>) -> bool {
    match tail_shape(old) {
        TailShape::PendingToolRequests => {
            let n = old.len();
            &&& new.len() == n + 2
            &&& new.subrange(0, n as int) == old
            &&& new[n as int].role == Role::User
            &&& interrupted_responses(old.last().content@, new[n as int].content@, interruption_note(interrupt))
            &&& is_text_message(new[n as int + 1], Role::Assistant, notice)
            &&& notice == interrupted_call_prompt(last_request_name(old.last().content@))
        },
        TailShape::ToolResponseAwaitingReply => {
            &&& new.len() == old.len() + 1
            &&& new.drop_last() == old
            &&& is_text_message(new.last(), Role::Assistant, notice)
            &&& notice == tool_loop_prompt()
        },
        TailShape::UnansweredUserMessage => {
            &&& new == old.drop_last()
            &&& notice == removed_message_notice()
        },
        TailShape::Settled => {
            &&& new == old
            &&& notice.len() == 0
        },
    }
}

/// The ids of the tool responses among the items, in order.
pub open spec fn response_ids(c: Seq<Content>) -> Seq<Seq<char>> {
    c.map_values(|x: Content| item_id(x))
}

/// Interrupt recovery finds exactly one of its three shapes or a settled
/// transcript, and leaves the documented outcome: after interrupted tool
/// requests, each of them has a response with its id and the transcript
/// ends settled on the assistant's note; after an unanswered tool response,
/// it ends settled on the note; an unanswered user message is dropped; a
/// settled transcript is left as it is.
pub proof fn lemma_recovery_outcome(old: Seq<Message>, new: Seq<Message>, interrupt: bool, notice: Seq<char>)
    requires
        recoverable(old),
        recovered(old, new, interrupt, notice),
    ensures
        old.len() > 0 && old.last().role == Role::Assistant ==> tail_shape(old) == TailShape::PendingToolRequests
            || tail_shape(old) == TailShape::Settled,
        old.len() > 0 && old.last().role == Role::User ==> tail_shape(old) == TailShape::ToolResponseAwaitingReply
            || tail_shape(old) == TailShape::UnansweredUserMessage,
        tail_shape(old) == TailShape::PendingToolRequests ==> {
            &&& tail_shape(new) == TailShape::Settled
            &&& response_ids(new[old.len() as int].content@) == request_ids(old.last().content@)
            &&& forall|i: int|
                0 <= i < new[old.len() as int].content@.len() ==> (#[trigger] new[old.len() as int].content@[i]) is ToolResponse
        },
        tail_shape(old) == TailShape::ToolResponseAwaitingReply ==> tail_shape(new) == TailShape::Settled
            && new.drop_last() == old,
        tail_shape(old) == TailShape::UnansweredUserMessage ==> new == old.drop_last(),
        tail_shape(old) == TailShape::Settled ==> new == old,
{
    if tail_shape(old) == TailShape::PendingToolRequests || tail_shape(old) == TailShape::ToolResponseAwaitingReply {
        let last = new.last();
        assert(last.content@.drop_last() =~= Seq::<Content>::empty());
        assert(last.content@.last() is Text);
        assert(requests_of(Seq::<Content>::empty()) =~= Seq::<Content>::empty());
        assert(requests_of(last.content@) == requests_of(last.content@.drop_last()));
        assert(requests_of(last.content@) =~= Seq::<Content>::empty());
    }
    if tail_shape(old) == TailShape::PendingToolRequests {
        let m = new[old.len() as int].content@;
        assert(response_ids(m) =~= request_ids(old.last().content@));
    }
}

/// What interrupt recovery did: the shape it found and the notice to show.
#[derive(Debug)]
pub struct Recovery {
    pub shape: TailShape,
    pub notice: String,
}

/// Execution-error responses for each tool request among `c`, and the name
/// that the note gives to the last of them.
fn interrupted_tool_responses(c: &Vec<Content>, note: &str) -> (r: (Vec<Content>, String))
    ensures
        interrupted_responses(c@, r.0@, note@),
        r.1@ == last_request_name(c@),
{
    let mut out: Vec<Content> = Vec::new();
    let mut name = String::from_str("tool");
    let mut i: usize = 0;
    while i < c.len()
        invariant
            i <= c@.len(),
            interrupted_responses(c@.subrange(0, i as int), out@, note@),
            name@ == last_request_name(c@.subrange(0, i as int)),
        decreases c@.len() - i,
    {
        proof {
            assert(c@.subrange(0, i + 1).drop_last() =~= c@.subrange(0, i as int));
            assert(c@.subrange(0, i as int) =~= c@.subrange(0, i as int));
        }
        match &c[i] {
            Content::ToolRequest { id, call } => {
                out.push(
                    Content::ToolResponse {
                        id: id.clone(),
                        result: Err(ToolError::ExecutionError(note.to_owned())),
                    },
                );
                name = match call {
                    Ok(call) => call.name.clone(),
                    Err(_) => String::from_str("tool"),
                };
            },
            _ => {},
        }
        i = i + 1;
    }
    proof {
        assert(c@.subrange(0, c@.len() as int) =~= c@);
    }
    (out, name)
}

/// Why a session command failed.
#[derive(Debug)]
pub enum SessionError {
    /// The extension command held no command word.
    NoCommand,
    /// The extension could not be added.
    Extension(ExtensionError),
    /// No extension of that name is active.
    ExtensionNotFound(String),
}

/// The extension offers a prompt of this name.
pub open spec fn offers_prompt(e: Registered, name: Seq<char>) -> bool {
    exists|j: int| 0 <= j < e.prompts@.len() && (#[trigger] e.prompts@[j]).name@ == name
}

/// The color theme of the terminal output.
#[derive(PartialEq, Eq, Structural, Clone, Copy, Debug)]
pub enum Theme {
    Light,
    Dark,
    Ansi,
}

impl Theme {
    /// The theme the toggle command switches to: light, dark, ansi, and round again.
    pub fn next(self) -> (t: Theme)
        ensures
            self == Theme::Light ==> t == Theme::Dark,
            self == Theme::Dark ==> t == Theme::Ansi,
            self == Theme::Ansi ==> t == Theme::Light,
    {
        match self {
            Theme::Light => Theme::Dark,
            Theme::Dark => Theme::Ansi,
            Theme::Ansi => Theme::Light,
        }
    }
}

/// How the transcript is to be persisted after a change.
#[derive(PartialEq, Eq, Structural, Clone, Copy, Debug)]
pub enum Persist {
    /// Persist and recompute the session's description.
    WithDescription,
    /// Persist only.
    Plain,
}

/// The message asks for a confirmation: its first item is a confirmation request.
pub open spec fn is_confirmation(m: Message) -> bool {
    m.content@.len() > 0 && m.content@[0] is ToolConfirmationRequest
}

/// The role a prompt template's message must have at this position.
pub open spec fn expected_role(i: int) -> Role {
    if i % 2 == 0 {
        Role::User
    } else {
        Role::Assistant
    }
}

/// A prompt template's message out of turn.
#[derive(PartialEq, Eq, Structural, Clone, Copy, Debug)]
pub struct RoleMismatch {
    pub position: usize,
    pub expected: Role,
    pub found: Role,
}

/// A builtin extension of this name with the default timeout.
pub open spec fn builtin_named(c: ExtensionConfig, name: Seq<char>) -> bool {
    c matches ExtensionConfig::Builtin { name: n, timeout } && n@ == name && timeout == Some(DEFAULT_EXTENSION_TIMEOUT)
}

/// ASCII letters or digits only.
pub open spec fn alphanumeric(s: Seq<char>) -> bool {
    forall|i: int| 0 <= i < s.len() ==> ('a' <= #[trigger] s[i] <= 'z' || 'A' <= s[i] <= 'Z' || '0' <= s[i] <= '9')
}

/// The name given to an extension added by command: eight ASCII letters or digits.
pub open spec fn random_name(s: Seq<char>) -> bool {
    s.len() == 8 && alphanumeric(s)
}

/// Relies on rand's `Alphanumeric` distribution sampled from `thread_rng`:
/// each sample is an ASCII letter or digit, and `len` of them are taken.
#[verifier::external_body]
fn random_alphanumeric(len: usize) -> (r: String)
    ensures
        r@.len() == len,
        alphanumeric(r@),
{
    rand::thread_rng().sample_iter(&Alphanumeric).take(len).map(char::from).collect()
}

/// A conversation with the agent: its transcript and the file it is kept in.
#[derive(Debug)]
pub struct Session {
    messages: Vec<Message>,
    session_file: String,
    registry: ExtensionRegistry,
    completion_cache: CompletionCache,
    debug: bool,
}

impl Session {
    /// The messages of the conversation, oldest first.
    pub closed spec fn transcript(&self) -> Seq<Message> {
        self.messages@
    }

    /// The path of the file the transcript is kept in.
    pub closed spec fn file(&self) -> Seq<char> {
        self.session_file@
    }

    pub closed spec fn debug_mode(&self) -> bool {
        self.debug
    }

    /// The extensions active in the session.
    pub closed spec fn extensions(&self) -> Seq<Registered> {
        self.registry.extensions()
    }

    pub closed spec fn cache(&self) -> CompletionCache {
        self.completion_cache
    }

    pub closed spec fn wf(&self) -> bool {
        self.registry.wf()
    }

    /// A session over the history read from `session_file` (empty where none could be read).
    pub fn new(session_file: String, messages: Vec<Message>, debug: bool) -> (s: Session)
        ensures
            s.transcript() == messages@,
            s.file() == session_file@,
            s.debug_mode() == debug,
            s.wf(),
            s.extensions().len() == 0,
            s.cache().is_empty(),
    {
        Session {
            messages,
            session_file,
            registry: ExtensionRegistry::new(),
            completion_cache: CompletionCache::new(),
            debug,
        }
    }

    pub fn session_file(&self) -> (r: String)
        ensures
            r@ == self.file(),
    {
        self.session_file.clone()
    }

    pub fn debug(&self) -> (r: bool)
        ensures
            r == self.debug_mode(),
    {
        self.debug
    }

    /// A copy of the transcript.
    pub fn message_history(&self) -> (r: Vec<Message>)
        ensures
            r@.len() == self.transcript().len(),
            forall|i: int| 0 <= i < r@.len() ==> same_message(#[trigger] r@[i], self.transcript()[i]),
    {
        self.messages.clone()
    }

    /// Repairs the transcript after a turn was cancelled (`interrupt`) or
    /// failed, by the shape of its end: tool requests without responses get
    /// an execution error each and a note asking how to go on; a tool
    /// response without a reply gets a note; an unanswered user message is
    /// removed. The notice is what the operator is shown.
    pub fn handle_interrupted_messages(&mut self, interrupt: bool) -> (r: Recovery)
        requires
            recoverable(old(self).transcript()),
        ensures
            r.shape == tail_shape(old(self).transcript()),
            recovered(old(self).transcript(), final(self).transcript(), interrupt, r.notice@),
            final(self).file() == old(self).file(),
            final(self).debug_mode() == old(self).debug_mode(),
            final(self).extensions() == old(self).extensions(),
            final(self).cache() == old(self).cache(),
            final(self).wf() == old(self).wf(),
    {
        let ghost old_msgs = self.messages@;
        let n = self.messages.len();
        if n == 0 {
            return Recovery { shape: TailShape::Settled, notice: String::new() };
        }
        let last_is_assistant = self.messages[n - 1].role == Role::Assistant;
        if last_is_assistant {
            let note: &str = if interrupt {
                "Interrupted by the user to make a correction"
            } else {
                "An uncaught error happened during tool use"
            };
            let (responses, name) = interrupted_tool_responses(&self.messages[n - 1].content, note);
            if responses.len() > 0 {
                let response_message = Message { role: Role::User, content: responses };
                self.messages.push(response_message);
                let mut prompt = String::from_str("The existing call to ");
                prompt.append(name.as_str());
                prompt.append(" was interrupted. How would you like to proceed?");
                let text = Message::assistant().with_text(prompt.as_str());
                self.messages.push(text);
                proof {
                    assert(self.messages@.subrange(0, n as int) =~= old_msgs);
                    assert(prompt@ =~= interrupted_call_prompt(last_request_name(old_msgs.last().content@)));
                }
                return Recovery { shape: TailShape::PendingToolRequests, notice: prompt };
            }
            return Recovery { shape: TailShape::Settled, notice: String::new() };
        }
        let sole_response = self.messages[n - 1].content.len() == 1 && match &self.messages[n - 1].content[0] {
            Content::ToolResponse { .. } => true,
            _ => false,
        };
        if sole_response {
            let prompt = "The tool calling loop was interrupted. How would you like to proceed?";
            self.messages.push(Message::assistant().with_text(prompt));
            proof {
                assert(self.messages@.drop_last() =~= old_msgs);
            }
            Recovery { shape: TailShape::ToolResponseAwaitingReply, notice: prompt.to_owned() }
        } else {
            self.messages.pop();
            proof {
                assert(self.messages@ =~= old_msgs.drop_last());
            }
            Recovery {
                shape: TailShape::UnansweredUserMessage,
                notice: String::from_str("Interrupted before the model replied and removed the last message."),
            }
        }
    }

    /// Reads an extension command (`KEY=value ... command args...`) into the
    /// configuration of a local-process extension with a fresh random name,
    /// and checks that it may be started. The caller starts it and reports
    /// back with `extension_started`.
    pub fn add_extension(&self, extension_command: String) -> (r: Result<ExtensionConfig, SessionError>)
        requires
            self.wf(),
        ensures
            no_command(extension_command@) <==> r matches Err(SessionError::NoCommand),
            r matches Ok(config) ==> {
                &&& parsed_as(extension_command@, config.name_spec(), config)
                &&& random_name(config.name_spec())
                &&& !name_taken(self.extensions(), config.name_spec())
            },
            !no_command(extension_command@) ==> (r is Ok || r matches Err(
                SessionError::Extension(ExtensionError::NameCollision(_)),
            )),
            r matches Err(SessionError::Extension(e)) ==> (e matches ExtensionError::NameCollision(n) && random_name(n@)
                && name_taken(self.extensions(), n@)),
            !(r matches Err(SessionError::ExtensionNotFound(_))),
            !no_command(extension_command@) && (forall|i: int|
                0 <= i < self.extensions().len() ==> !random_name(
                    (#[trigger] self.extensions()[i]).config.name_spec(),
                )) ==> r is Ok,
    {
        let name = random_alphanumeric(8);
        match parse_extension_command(extension_command.as_str(), name) {
            Err(_) => Err(SessionError::NoCommand),
            Ok(config) => match self.registry.check_add(&config) {
                Ok(()) => Ok(config),
                Err(e) => Err(SessionError::Extension(e)),
            },
        }
    }

    /// Registers an extension that the caller started (or failed to start),
    /// and clears the completion index when it was added.
    pub fn extension_started(
        &mut self,
        config: ExtensionConfig,
        handshake: Result<(Vec<Tool>, Vec<Prompt>), String>,
        now: u64,
    ) -> (r: Result<(), ExtensionError>)
        requires
            old(self).wf(),
        ensures
            final(self).wf(),
            name_taken(old(self).extensions(), config.name_spec()) ==> r is Err,
            r is Ok <==> !name_taken(old(self).extensions(), config.name_spec()) && !bad_uri(config) && handshake is Ok,
            r is Ok ==> (handshake matches Ok(h) && final(self).extensions() == old(self).extensions().push(
                (Registered { config, tools: h.0, prompts: h.1 }),
            )) && final(self).cache().is_empty(),
            r is Err ==> final(self).extensions() == old(self).extensions() && final(self).cache() == old(self).cache(),
            final(self).transcript() == old(self).transcript(),
    {
        let r = self.registry.add(config, handshake);
        if r.is_ok() {
            self.completion_cache.invalidate(now);
        }
        r
    }

    /// The configurations of the builtin extensions named in a
    /// comma-separated list, each name without its surrounding white space,
    /// with the default timeout. The caller starts each in turn and reports
    /// back with `extension_started`.
    pub fn add_builtin(&self, builtin_name: String) -> (r: Vec<ExtensionConfig>)
        ensures
            r@.len() == pieces(builtin_name@).len(),
            forall|i: int|
                0 <= i < r@.len() ==> builtin_named(#[trigger] r@[i], trimmed(pieces(builtin_name@)[i])),
    {
        let names = builtin_names(builtin_name.as_str());
        let mut out: Vec<ExtensionConfig> = Vec::new();
        let mut i: usize = 0;
        let ghost ps = pieces(builtin_name@);
        proof {
            assert(views(names@).len() == names@.len());
            assert(ps.map_values(|p: Seq<char>| trimmed(p)).len() == ps.len());
        }
        while i < names.len()
            invariant
                i <= names@.len(),
                ps == pieces(builtin_name@),
                names@.len() == ps.len(),
                views(names@) == pieces(builtin_name@).map_values(|p: Seq<char>| trimmed(p)),
                out@.len() == i,
                forall|k: int|
                    0 <= k < i ==> builtin_named(#[trigger] out@[k], trimmed(pieces(builtin_name@)[k])),
            decreases names@.len() - i,
        {
            proof {
                assert(views(names@)[i as int] == names@[i as int]@);
                assert(ps.map_values(|p: Seq<char>| trimmed(p))[i as int] == trimmed(ps[i as int]));
            }
            out.push(ExtensionConfig::Builtin { name: names[i].clone(), timeout: Some(DEFAULT_EXTENSION_TIMEOUT) });
            i = i + 1;
        }
        out
    }

    /// Stops using the extension of this name; the caller stops its process
    /// or connection. The completion index is cleared when one was removed.
    pub fn remove_extension(&mut self, name: &String, now: u64) -> (r: Option<Registered>)
        requires
            old(self).wf(),
        ensures
            final(self).wf(),
            r is Some <==> name_taken(old(self).extensions(), name@),
            !name_taken(final(self).extensions(), name@),
            r is None ==> final(self).extensions() == old(self).extensions() && final(self).cache() == old(
                self,
            ).cache(),
            r matches Some(e) ==> exists|i: int|
                0 <= i < old(self).extensions().len() && (#[trigger] old(self).extensions()[i]) == e
                    && e.config.name_spec() == name@ && final(self).extensions() == old(self).extensions().remove(i),
            r is Some ==> final(self).cache().is_empty(),
            final(self).transcript() == old(self).transcript(),
    {
        let r = self.registry.remove(name);
        if r.is_some() {
            self.completion_cache.invalidate(now);
        }
        r
    }

    /// The name of the first active extension that offers a tool of this
    /// name: the one a call of the tool is routed to.
    pub fn tool_owner(&self, tool: &String) -> (r: Option<String>)
        ensures
            r is None <==> forall|i: int| 0 <= i < self.extensions().len() ==> !offers_tool(#[trigger] self.extensions()[i], tool@),
            r matches Some(e) ==> exists|i: int|
                0 <= i < self.extensions().len() && offers_tool(#[trigger] self.extensions()[i], tool@)
                    && self.extensions()[i].config.name_spec() == e@
                    && forall|k: int| 0 <= k < i ==> !offers_tool(#[trigger] self.extensions()[k], tool@),
    {
        proof {
            assert(self.extensions() == self.registry.extensions());
        }
        self.registry.tool_owner(tool)
    }

    /// The tools of every active extension.
    pub fn tools(&self) -> (r: Vec<Tool>)
        ensures
            r@ == all_tools(self.extensions()),
    {
        self.registry.list_tools()
    }

    /// The names of the prompts of every active extension, or, with a
    /// filter, of the one extension of that name.
    pub fn list_prompts(&self, extension: Option<String>) -> (r: Result<Vec<(String, Vec<String>)>, SessionError>)
        ensures
            extension is None ==> (r matches Ok(v) && v@.len() == self.extensions().len() && forall|i: int|
                0 <= i < v@.len() ==> (#[trigger] v@[i]).0@ == self.extensions()[i].config.name_spec() && views(v@[i].1@)
                    == prompt_names(self.extensions()[i].prompts@)),
            extension matches Some(f) ==> {
                &&& r is Ok <==> name_taken(self.extensions(), f@)
                &&& r is Err ==> (r matches Err(SessionError::ExtensionNotFound(m)) && m@ == f@)
                &&& r matches Ok(v) ==> v@.len() == 1 && exists|i: int|
                    0 <= i < self.extensions().len() && (#[trigger] self.extensions()[i]).config.name_spec() == f@
                        && v@[0].0@ == f@ && views(v@[0].1@) == prompt_names(self.extensions()[i].prompts@)
            },
    {
        let listing = self.registry.list_prompts();
        let mut out: Vec<(String, Vec<String>)> = Vec::new();
        let mut found = false;
        let mut i: usize = 0;
        while i < listing.len()
            invariant
                i <= listing@.len(),
                listing@.len() == self.extensions().len(),
                forall|k: int|
                    0 <= k < listing@.len() ==> (#[trigger] listing@[k]).0@ == self.extensions()[k].config.name_spec()
                        && same_prompts(listing@[k].1@, self.extensions()[k].prompts@),
                extension is None ==> out@.len() == i && forall|k: int|
                    0 <= k < i ==> (#[trigger] out@[k]).0@ == self.extensions()[k].config.name_spec() && views(out@[k].1@)
                        == prompt_names(self.extensions()[k].prompts@),
                extension matches Some(f) ==> {
                    &&& found <==> exists|k: int| 0 <= k < i && (#[trigger] self.extensions()[k]).config.name_spec() == f@
                    &&& out@.len() == (if found { 1int } else { 0int })
                    &&& found ==> exists|k: int|
                        0 <= k < i && (#[trigger] self.extensions()[k]).config.name_spec() == f@ && out@[0].0@ == f@
                            && views(out@[0].1@) == prompt_names(self.extensions()[k].prompts@)
                },
            decreases listing@.len() - i,
        {
            let wanted = match &extension {
                None => true,
                Some(f) => !found && listing[i].0 == *f,
            };
            if wanted {
                let names = prompt_name_list(&listing[i].1);
                out.push((listing[i].0.clone(), names));
                proof {
                    assert(views(names@) == prompt_names(self.extensions()[i as int].prompts@)) by {
                        assert(views(names@) =~= prompt_names(self.extensions()[i as int].prompts@));
                    }
                }
                found = true;
            }
            i = i + 1;
        }
        match extension {
            None => Ok(out),
            Some(f) => if found {
                Ok(out)
            } else {
                Err(SessionError::ExtensionNotFound(f))
            },
        }
    }

    /// The info of the first prompt of this name, looking through the
    /// extensions in order.
    pub fn get_prompt_info(&self, name: &String) -> (r: Option<PromptInfo>)
        ensures
            r is None <==> forall|i: int| 0 <= i < self.extensions().len() ==> !offers_prompt(#[trigger] self.extensions()[i], name@),
            r matches Some(info) ==> exists|i: int, j: int| {
                &&& 0 <= i < self.extensions().len()
                &&& 0 <= j < self.extensions()[i].prompts@.len()
                &&& (#[trigger] self.extensions()[i].prompts@[j]).name@ == name@
                &&& describes(info, self.extensions()[i].config.name_spec(), self.extensions()[i].prompts@[j])
                &&& forall|k: int| 0 <= k < i ==> !offers_prompt(#[trigger] self.extensions()[k], name@)
            },
    {
        let exts = self.registry.registered();
        let mut i: usize = 0;
        while i < exts.len()
            invariant
                i <= exts@.len(),
                exts@ == self.extensions(),
                forall|k: int| 0 <= k < i ==> !offers_prompt(#[trigger] self.extensions()[k], name@),
            decreases exts@.len() - i,
        {
            let ps = &exts[i].prompts;
            let mut j: usize = 0;
            while j < ps.len()
                invariant
                    j <= ps@.len(),
                    i < exts@.len(),
                    exts@ == self.extensions(),
                    ps@ == exts@[i as int].prompts@,
                    forall|k: int| 0 <= k < j ==> (#[trigger] ps@[k]).name@ != name@,
                    forall|k: int| 0 <= k < i ==> !offers_prompt(#[trigger] self.extensions()[k], name@),
                decreases ps@.len() - j,
            {
                if ps[j].name == *name {
                    let info = prompt_info(exts[i].config.name(), &ps[j]);
                    proof {
                        assert(offers_prompt(self.extensions()[i as int], name@));
                        assert(self.extensions()[i as int].prompts@[j as int].name@ == name@);
                    }
                    return Some(info);
                }
                j = j + 1;
            }
            i = i + 1;
        }
        None
    }

    /// Rebuilds the completion index from the active extensions.
    pub fn update_completion_cache(&mut self, now: u64)
        ensures
            final(self).cache().built_from(old(self).extensions()),
            final(self).cache().updated_at() == now,
            final(self).extensions() == old(self).extensions(),
            final(self).transcript() == old(self).transcript(),
            final(self).wf() == old(self).wf(),
    {
        self.completion_cache.refresh(self.registry.registered(), now);
    }

    /// Clears the completion index.
    pub fn invalidate_completion_cache(&mut self, now: u64)
        ensures
            final(self).cache().is_empty(),
            final(self).cache().updated_at() == now,
            final(self).extensions() == old(self).extensions(),
            final(self).transcript() == old(self).transcript(),
            final(self).wf() == old(self).wf(),
    {
        self.completion_cache.invalidate(now);
    }

    /// The completion index, for suggestions while typing.
    pub fn completion_cache(&self) -> (r: &CompletionCache)
        ensures
            *r == self.cache(),
    {
        &self.completion_cache
    }

    /// Appends the user's message; the transcript is to be persisted next,
    /// with the session description recomputed.
    pub fn push_user_text(&mut self, text: &str) -> (p: Persist)
        ensures
            p == Persist::WithDescription,
            final(self).transcript().len() == old(self).transcript().len() + 1,
            final(self).transcript().drop_last() == old(self).transcript(),
            is_text_message(final(self).transcript().last(), Role::User, text@),
            final(self).extensions() == old(self).extensions(),
            final(self).cache() == old(self).cache(),
            final(self).wf() == old(self).wf(),
    {
        self.messages.push(Message::user().with_text(text));
        proof {
            assert(self.messages@.drop_last() =~= old(self).messages@);
        }
        Persist::WithDescription
    }

    /// Commits a message that a turn handed out. A confirmation request is
    /// not part of the transcript and is not committed; any other message is
    /// appended and the transcript is to be persisted next.
    pub fn commit(&mut self, message: Message) -> (p: Option<Persist>)
        ensures
            is_confirmation(message) ==> p is None && final(self).transcript() == old(self).transcript(),
            !is_confirmation(message) ==> p == Some(Persist::Plain) && final(self).transcript() == old(
                self,
            ).transcript().push(message),
            final(self).extensions() == old(self).extensions(),
            final(self).cache() == old(self).cache(),
            final(self).wf() == old(self).wf(),
    {
        let confirmation = message.content.len() > 0 && match &message.content[0] {
            Content::ToolConfirmationRequest { .. } => true,
            _ => false,
        };
        if confirmation {
            None
        } else {
            self.messages.push(message);
            Some(Persist::Plain)
        }
    }

    /// Appends the messages of a prompt template, which must alternate
    /// between the user and the assistant, starting with the user. On the
    /// first message out of turn nothing is appended and its position and
    /// role are reported.
    pub fn append_prompt_messages(&mut self, messages: Vec<Message>) -> (r: Result<(), RoleMismatch>)
        ensures
            r is Ok <==> forall|i: int| 0 <= i < messages@.len() ==> (#[trigger] messages@[i]).role == expected_role(i),
            r is Ok ==> final(self).transcript() == old(self).transcript() + messages@,
            r matches Err(m) ==> {
                &&& final(self).transcript() == old(self).transcript()
                &&& 0 <= m.position < messages@.len()
                &&& m.expected == expected_role(m.position as int)
                &&& m.found == messages@[m.position as int].role
                &&& m.found != m.expected
                &&& forall|i: int| 0 <= i < m.position ==> (#[trigger] messages@[i]).role == expected_role(i)
            },
            final(self).extensions() == old(self).extensions(),
            final(self).cache() == old(self).cache(),
            final(self).wf() == old(self).wf(),
    {
        let mut i: usize = 0;
        while i < messages.len()
            invariant
                i <= messages@.len(),
                forall|k: int| 0 <= k < i ==> (#[trigger] messages@[k]).role == expected_role(k),
            decreases messages@.len() - i,
        {
            let expected = if i % 2 == 0 {
                Role::User
            } else {
                Role::Assistant
            };
            if messages[i].role != expected {
                return Err(RoleMismatch { position: i, expected, found: messages[i].role });
            }
            i = i + 1;
        }
        let ghost before = self.messages@;
        let mut rest = messages;
        self.messages.append(&mut rest);
        proof {
            assert(self.messages@ =~= before + messages@);
        }
        Ok(())
    }
}

/// The names of the prompts.
fn prompt_name_list(ps: &Vec<Prompt>) -> (r: Vec<String>)
    ensures
        views(r@) == prompt_names(ps@),
{
    let mut out: Vec<String> = Vec::new();
    let mut j: usize = 0;
    while j < ps.len()
        invariant
            j <= ps@.len(),
            out@.len() == j,
            forall|k: int| 0 <= k < j ==> (#[trigger] out@[k])@ == ps@[k].name@,
        decreases ps@.len() - j,
    {
        out.push(ps[j].name.clone());
        j = j + 1;
    }
    proof {
        assert(views(out@) =~= prompt_names(ps@));
    }
    out
}

} // verus!

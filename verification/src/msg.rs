//! Messages, sessions, and the context-window rule.
//!
//! A conversation is an ordered sequence of messages. Each message has a
//! role; `tool` messages carry the id and name of the tool call they answer,
//! and `assistant` messages may carry the tool calls the model requested.

use vstd::prelude::*;

verus! {

/// Speaker of a message in a conversation transcript.
#[derive(Clone, Copy, Debug, PartialEq, Eq, Structural)]
pub enum Role {
    System,
    User,
    Assistant,
    Tool,
}

/// One tool invocation requested by the model: its correlation id, the
/// tool's name, and the raw JSON-encoded argument payload. The payload is
/// validated by the tool itself, not here.
#[derive(Debug)]
pub struct ToolCallRequest {
    pub id: String,
    pub name: String,
    pub arguments: String,
}

/// Mathematical model of a `ToolCallRequest`.
#[verifier::ext_equal]
pub ghost struct ToolCallView {
    pub id: Seq<char>,
    pub name: Seq<char>,
    pub arguments: Seq<char>,
}

impl View for ToolCallRequest {
    type V = ToolCallView;

    open spec fn view(&self) -> ToolCallView {
        ToolCallView { id: self.id@, name: self.name@, arguments: self.arguments@ }
    }
}

impl Clone for ToolCallRequest {
    fn clone(&self) -> (r: Self)
        ensures
            r@ == self@,
    {
        ToolCallRequest {
            id: self.id.clone(),
            name: self.name.clone(),
            arguments: self.arguments.clone(),
        }
    }
}

impl PartialEq for ToolCallRequest {
    fn eq(&self, other: &Self) -> (r: bool)
        ensures
            r == (self@ == other@),
    {
        let r = self.id == other.id && self.name == other.name
            && self.arguments == other.arguments;
        proof {
            if r {
                assert(self@ =~= other@);
            }
        }
        r
    }
}

impl vstd::std_specs::cmp::PartialEqSpecImpl for ToolCallRequest {
    open spec fn obeys_eq_spec() -> bool {
        true
    }

    open spec fn eq_spec(&self, other: &Self) -> bool {
        self@ == other@
    }
}

/// One message of a conversation. A message with role `Tool` answers the
/// assistant tool call whose id it carries; an `Assistant` message may carry
/// the list of tool calls the model requested.
#[derive(Debug)]
pub struct Message {
    pub role: Role,
    pub content: Option<String>,
    pub name: Option<String>,
    pub tool_call_id: Option<String>,
    pub tool_calls: Option<Vec<ToolCallRequest>>,
}

/// Mathematical model of a `Message`.
#[verifier::ext_equal]
pub ghost struct MessageView {
    pub role: Role,
    pub content: Option<Seq<char>>,
    pub name: Option<Seq<char>>,
    pub tool_call_id: Option<Seq<char>>,
    pub tool_calls: Option<Seq<ToolCallView>>,
}

pub open spec fn opt_str_view(o: Option<String>) -> Option<Seq<char>> {
    match o {
        Some(s) => Some(s@),
        None => None,
    }
}

pub open spec fn calls_view(v: Vec<ToolCallRequest>) -> Seq<ToolCallView> {
    v@.map_values(|t: ToolCallRequest| t@)
}

pub open spec fn opt_calls_view(o: Option<Vec<ToolCallRequest>>) -> Option<Seq<ToolCallView>> {
    match o {
        Some(v) => Some(calls_view(v)),
        None => None,
    }
}

impl View for Message {
    type V = MessageView;

    open spec fn view(&self) -> MessageView {
        MessageView {
            role: self.role,
            content: opt_str_view(self.content),
            name: opt_str_view(self.name),
            tool_call_id: opt_str_view(self.tool_call_id),
            tool_calls: opt_calls_view(self.tool_calls),
        }
    }
}

impl ToolCallView {
    /// A usable tool invocation names its call id and its tool, both
    /// non-empty.
    pub open spec fn wf(self) -> bool {
        self.id.len() > 0 && self.name.len() > 0
    }
}

impl MessageView {
    /// A `tool` message always carries a non-empty id of the call it
    /// answers and a non-empty tool name.
    pub open spec fn wf(self) -> bool {
        self.role == Role::Tool ==> (self.tool_call_id matches Some(id) && id.len() > 0) && (
        self.name matches Some(n) && n.len() > 0)
    }
}

impl Message {
    /// A plain text message of the given role, with no tool linkage.
    pub fn text(role: Role, content: String) -> (m: Message)
        ensures
            m@.role == role,
            m@.content == Some(content@),
            m@.name is None,
            m@.tool_call_id is None,
            m@.tool_calls is None,
            role != Role::Tool ==> m@.wf(),
    {
        Message {
            role,
            content: Some(content),
            name: None,
            tool_call_id: None,
            tool_calls: None,
        }
    }

    /// The result of one tool call, linked to the requesting call by its
    /// non-empty id.
    pub fn tool_result(id: String, name: String, content: String) -> (m: Message)
        requires
            id@.len() > 0,
            name@.len() > 0,
        ensures
            m@.role == Role::Tool,
            m@.content == Some(content@),
            m@.name == Some(name@),
            m@.tool_call_id == Some(id@),
            m@.tool_calls is None,
            m@.wf(),
    {
        Message {
            role: Role::Tool,
            content: Some(content),
            name: Some(name),
            tool_call_id: Some(id),
            tool_calls: None,
        }
    }
}

pub(crate) fn clone_opt_string(o: &Option<String>) -> (r: Option<String>)
    ensures
        opt_str_view(r) == opt_str_view(*o),
{
    match o {
        Some(s) => Some(s.clone()),
        None => None,
    }
}

pub(crate) fn clone_calls(v: &Vec<ToolCallRequest>) -> (r: Vec<ToolCallRequest>)
    ensures
        calls_view(r) == calls_view(*v),
{
    let mut r: Vec<ToolCallRequest> = Vec::new();
    let mut i: usize = 0;
    while i < v.len()
        invariant
            i <= v.len(),
            r@.len() == i,
            forall|j: int| 0 <= j < i ==> r@[j]@ == v@[j]@,
        decreases v.len() - i,
    {
        r.push(v[i].clone());
        i = i + 1;
    }
    proof {
        assert(calls_view(r) =~= calls_view(*v));
    }
    r
}

impl Clone for Message {
    fn clone(&self) -> (r: Self)
        ensures
            r@ == self@,
    {
        let tool_calls = match &self.tool_calls {
            Some(v) => Some(clone_calls(v)),
            None => None,
        };
        Message {
            role: self.role,
            content: clone_opt_string(&self.content),
            name: clone_opt_string(&self.name),
            tool_call_id: clone_opt_string(&self.tool_call_id),
            tool_calls,
        }
    }
}

fn opt_string_eq(a: &Option<String>, b: &Option<String>) -> (r: bool)
    ensures
        r == (opt_str_view(*a) == opt_str_view(*b)),
{
    match (a, b) {
        (Some(x), Some(y)) => *x == *y,
        (None, None) => true,
        _ => false,
    }
}

fn calls_eq(a: &Vec<ToolCallRequest>, b: &Vec<ToolCallRequest>) -> (r: bool)
    ensures
        r == (calls_view(*a) == calls_view(*b)),
{
    if a.len() != b.len() {
        proof {
            assert(calls_view(*a).len() != calls_view(*b).len());
        }
        return false;
    }
    let mut i: usize = 0;
    while i < a.len()
        invariant
            a@.len() == b@.len(),
            i <= a.len(),
            forall|j: int| 0 <= j < i ==> a@[j]@ == b@[j]@,
        decreases a.len() - i,
    {
        if !(a[i] == b[i]) {
            proof {
                assert(calls_view(*a)[i as int] == a@[i as int]@);
                assert(calls_view(*b)[i as int] == b@[i as int]@);
            }
            return false;
        }
        i = i + 1;
    }
    proof {
        assert(calls_view(*a) =~= calls_view(*b));
    }
    true
}

impl PartialEq for Message {
    fn eq(&self, other: &Self) -> (r: bool)
        ensures
            r == (self@ == other@),
    {
        let calls_same = match (&self.tool_calls, &other.tool_calls) {
            (Some(x), Some(y)) => calls_eq(x, y),
            (None, None) => true,
            _ => false,
        };
        let r = self.role == other.role && opt_string_eq(&self.content, &other.content)
            && opt_string_eq(&self.name, &other.name)
            && opt_string_eq(&self.tool_call_id, &other.tool_call_id) && calls_same;
        proof {
            if r {
                assert(self@ =~= other@);
            }
        }
        r
    }
}

impl vstd::std_specs::cmp::PartialEqSpecImpl for Message {
    open spec fn obeys_eq_spec() -> bool {
        true
    }

    open spec fn eq_spec(&self, other: &Self) -> bool {
        self@ == other@
    }
}

/// The persisted message history of one conversation.
#[derive(Debug)]
pub struct Session {
    pub messages: Vec<Message>,
}

impl View for Session {
    type V = Seq<MessageView>;

    open spec fn view(&self) -> Seq<MessageView> {
        self.messages@.map_values(|m: Message| m@)
    }
}

impl Clone for Session {
    fn clone(&self) -> (r: Self)
        ensures
            r@ == self@,
    {
        let mut messages: Vec<Message> = Vec::new();
        let mut i: usize = 0;
        while i < self.messages.len()
            invariant
                i <= self.messages.len(),
                messages@.len() == i,
                forall|j: int| 0 <= j < i ==> messages@[j]@ == self.messages@[j]@,
            decreases self.messages.len() - i,
        {
            messages.push(self.messages[i].clone());
            i = i + 1;
        }
        let r = Session { messages };
        proof {
            assert(r@ =~= self@);
        }
        r
    }
}

impl PartialEq for Session {
    fn eq(&self, other: &Self) -> (r: bool)
        ensures
            r == (self@ == other@),
    {
        if self.messages.len() != other.messages.len() {
            proof {
                assert(self@.len() != other@.len());
            }
            return false;
        }
        let mut i: usize = 0;
        while i < self.messages.len()
            invariant
                self.messages@.len() == other.messages@.len(),
                i <= self.messages.len(),
                forall|j: int| 0 <= j < i ==> self.messages@[j]@ == other.messages@[j]@,
            decreases self.messages.len() - i,
        {
            if !(self.messages[i] == other.messages[i]) {
                proof {
                    assert(self@[i as int] == self.messages@[i as int]@);
                    assert(other@[i as int] == other.messages@[i as int]@);
                }
                return false;
            }
            i = i + 1;
        }
        proof {
            assert(self@ =~= other@);
        }
        true
    }
}

impl vstd::std_specs::cmp::PartialEqSpecImpl for Session {
    open spec fn obeys_eq_spec() -> bool {
        true
    }

    open spec fn eq_spec(&self, other: &Self) -> bool {
        self@ == other@
    }
}

impl Session {
    /// A session with no history: the state of any key never saved before.
    pub fn empty() -> (s: Session)
        ensures
            s@ =~= Seq::<MessageView>::empty(),
    {
        Session { messages: Vec::new() }
    }

    pub fn len(&self) -> (n: usize)
        ensures
            n == self@.len(),
    {
        self.messages.len()
    }

    pub fn push(&mut self, m: Message)
        ensures
            final(self)@ =~= old(self)@.push(m@),
    {
        self.messages.push(m);
    }
}

/// Where the history window would begin before the `tool`-role adjustment:
/// at most the last `limit` messages.
pub open spec fn spec_window_base(len: nat, limit: nat) -> nat {
    if len > limit {
        (len - limit) as nat
    } else {
        0
    }
}

/// Start of the trailing history window actually sent to the model: the last
/// `limit` messages, moved forward past any leading `tool` messages, since a
/// tool result without its requesting assistant message would make the
/// transcript invalid for the backend.
pub fn window_start(session: &Session, limit: usize) -> (w: usize)
    ensures
        spec_window_base(session@.len(), limit as nat) <= w <= session@.len(),
        forall|i: int|
            spec_window_base(session@.len(), limit as nat) <= i < w ==> session@[i].role
                == Role::Tool,
        w < session@.len() ==> session@[w as int].role != Role::Tool,
{
    let len = session.messages.len();
    let mut w: usize = if len > limit {
        len - limit
    } else {
        0
    };
    while w < len && session.messages[w].role == Role::Tool
        invariant
            len == session@.len(),
            spec_window_base(session@.len(), limit as nat) <= w <= len,
            forall|i: int|
                spec_window_base(session@.len(), limit as nat) <= i < w ==> session@[i].role
                    == Role::Tool,
        decreases len - w,
    {
        w = w + 1;
    }
    w
}

/// The outbound form of a message: a message with neither content nor tool
/// calls gets empty content, since some backends reject a message with
/// neither field.
pub open spec fn sanitize_view(m: MessageView) -> MessageView {
    if m.content is None && m.tool_calls is None {
        MessageView { content: Some(Seq::<char>::empty()), ..m }
    } else {
        m
    }
}

impl Message {
    /// This message as transmitted: see `sanitize_view`.
    pub fn sanitized(&self) -> (r: Message)
        ensures
            r@ == sanitize_view(self@),
    {
        let m = self.clone();
        if m.content.is_none() && m.tool_calls.is_none() {
            Message { content: Some(String::new()), ..m }
        } else {
            m
        }
    }
}

/// Every message of a transcript, in order, in its outbound form.
pub fn sanitize_messages(msgs: &Vec<Message>) -> (r: Vec<Message>)
    ensures
        r@.len() == msgs@.len(),
        forall|i: int| 0 <= i < msgs@.len() ==> r@[i]@ == sanitize_view(msgs@[i]@),
{
    let mut r: Vec<Message> = Vec::new();
    let mut i: usize = 0;
    while i < msgs.len()
        invariant
            i <= msgs.len(),
            r@.len() == i,
            forall|j: int| 0 <= j < i ==> r@[j]@ == sanitize_view(msgs@[j]@),
        decreases msgs.len() - i,
    {
        r.push(msgs[i].sanitized());
        i = i + 1;
    }
    r
}

} // verus!

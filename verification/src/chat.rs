//! Conversation format: control tokens, roles, messages and rendering.
//!
//! - A turn is `<|turn>{role}\n…<turn|>`.
//! - Roles render as plain words.
//! - Optional reasoning renders in a thought channel (`<|channel>thought\n…\n<channel|>`) before the
//!   content.

use crate::text::{occurs_at, occurs_in, str_eq};
use vstd::prelude::*;

verus! {

broadcast use vstd::string::group_string_axioms;

/// The reserved special-token vocabulary, in id order: a token's vocabulary id is its position in
/// this declaration.
#[derive(Clone, Copy, Debug, PartialEq, Eq, Structural)]
pub enum SpecialToken {
    Pad,
    Bos,
    Eos,
    TurnOpen,
    TurnClose,
    Think,
    ChannelOpen,
    ChannelClose,
    ToolOpen,
    ToolClose,
    ToolCallOpen,
    ToolCallClose,
    ToolResponseOpen,
    ToolResponseClose,
    StringDelim,
    ImageOpen,
    ImageClose,
    AudioOpen,
    AudioClose,
    VideoOpen,
    VideoClose,
    Image,
    Audio,
    Video,
}

/// The number of reserved special tokens.
pub const SPECIAL_TOKEN_COUNT: usize = 24;

impl SpecialToken {
    /// The literal string of a token.
    pub open spec fn text(self) -> Seq<char> {
        match self {
            SpecialToken::Pad => "<pad>"@,
            SpecialToken::Bos => "<bos>"@,
            SpecialToken::Eos => "<eos>"@,
            SpecialToken::TurnOpen => "<|turn>"@,
            SpecialToken::TurnClose => "<turn|>"@,
            SpecialToken::Think => "<|think|>"@,
            SpecialToken::ChannelOpen => "<|channel>"@,
            SpecialToken::ChannelClose => "<channel|>"@,
            SpecialToken::ToolOpen => "<|tool>"@,
            SpecialToken::ToolClose => "<tool|>"@,
            SpecialToken::ToolCallOpen => "<|tool_call>"@,
            SpecialToken::ToolCallClose => "<tool_call|>"@,
            SpecialToken::ToolResponseOpen => "<|tool_response>"@,
            SpecialToken::ToolResponseClose => "<tool_response|>"@,
            SpecialToken::StringDelim => "<|\"|>"@,
            SpecialToken::ImageOpen => "<|image>"@,
            SpecialToken::ImageClose => "<image|>"@,
            SpecialToken::AudioOpen => "<|audio>"@,
            SpecialToken::AudioClose => "<audio|>"@,
            SpecialToken::VideoOpen => "<|video>"@,
            SpecialToken::VideoClose => "<video|>"@,
            SpecialToken::Image => "<|image|>"@,
            SpecialToken::Audio => "<|audio|>"@,
            SpecialToken::Video => "<|video|>"@,
        }
    }

    /// The vocabulary id of a token: its place in the declaration.
    pub open spec fn spec_id(self) -> nat {
        match self {
            SpecialToken::Pad => 0,
            SpecialToken::Bos => 1,
            SpecialToken::Eos => 2,
            SpecialToken::TurnOpen => 3,
            SpecialToken::TurnClose => 4,
            SpecialToken::Think => 5,
            SpecialToken::ChannelOpen => 6,
            SpecialToken::ChannelClose => 7,
            SpecialToken::ToolOpen => 8,
            SpecialToken::ToolClose => 9,
            SpecialToken::ToolCallOpen => 10,
            SpecialToken::ToolCallClose => 11,
            SpecialToken::ToolResponseOpen => 12,
            SpecialToken::ToolResponseClose => 13,
            SpecialToken::StringDelim => 14,
            SpecialToken::ImageOpen => 15,
            SpecialToken::ImageClose => 16,
            SpecialToken::AudioOpen => 17,
            SpecialToken::AudioClose => 18,
            SpecialToken::VideoOpen => 19,
            SpecialToken::VideoClose => 20,
            SpecialToken::Image => 21,
            SpecialToken::Audio => 22,
            SpecialToken::Video => 23,
        }
    }

    /// The literal token string that the tokenizer reserves and the rendered text holds.
    pub fn as_str(self) -> (r: &'static str)
        ensures
            r@ == self.text(),
    {
        match self {
            SpecialToken::Pad => "<pad>",
            SpecialToken::Bos => "<bos>",
            SpecialToken::Eos => "<eos>",
            SpecialToken::TurnOpen => "<|turn>",
            SpecialToken::TurnClose => "<turn|>",
            SpecialToken::Think => "<|think|>",
            SpecialToken::ChannelOpen => "<|channel>",
            SpecialToken::ChannelClose => "<channel|>",
            SpecialToken::ToolOpen => "<|tool>",
            SpecialToken::ToolClose => "<tool|>",
            SpecialToken::ToolCallOpen => "<|tool_call>",
            SpecialToken::ToolCallClose => "<tool_call|>",
            SpecialToken::ToolResponseOpen => "<|tool_response>",
            SpecialToken::ToolResponseClose => "<tool_response|>",
            SpecialToken::StringDelim => "<|\"|>",
            SpecialToken::ImageOpen => "<|image>",
            SpecialToken::ImageClose => "<image|>",
            SpecialToken::AudioOpen => "<|audio>",
            SpecialToken::AudioClose => "<audio|>",
            SpecialToken::VideoOpen => "<|video>",
            SpecialToken::VideoClose => "<video|>",
            SpecialToken::Image => "<|image|>",
            SpecialToken::Audio => "<|audio|>",
            SpecialToken::Video => "<|video|>",
        }
    }

    /// The vocabulary id that the tokenizer reserves for this token.
    pub fn id(self) -> (r: usize)
        ensures
            r == self.spec_id(),
    {
        match self {
            SpecialToken::Pad => 0,
            SpecialToken::Bos => 1,
            SpecialToken::Eos => 2,
            SpecialToken::TurnOpen => 3,
            SpecialToken::TurnClose => 4,
            SpecialToken::Think => 5,
            SpecialToken::ChannelOpen => 6,
            SpecialToken::ChannelClose => 7,
            SpecialToken::ToolOpen => 8,
            SpecialToken::ToolClose => 9,
            SpecialToken::ToolCallOpen => 10,
            SpecialToken::ToolCallClose => 11,
            SpecialToken::ToolResponseOpen => 12,
            SpecialToken::ToolResponseClose => 13,
            SpecialToken::StringDelim => 14,
            SpecialToken::ImageOpen => 15,
            SpecialToken::ImageClose => 16,
            SpecialToken::AudioOpen => 17,
            SpecialToken::AudioClose => 18,
            SpecialToken::VideoOpen => 19,
            SpecialToken::VideoClose => 20,
            SpecialToken::Image => 21,
            SpecialToken::Audio => 22,
            SpecialToken::Video => 23,
        }
    }

    /// Every special token, in id order: the order in which the tokenizer trainer reserves them.
    pub fn all() -> (r: Vec<SpecialToken>)
        ensures
            r.len() == SPECIAL_TOKEN_COUNT,
            forall|i: int| 0 <= i < r.len() ==> (#[trigger] r[i]).spec_id() == i,
    {
        vec![
            SpecialToken::Pad,
            SpecialToken::Bos,
            SpecialToken::Eos,
            SpecialToken::TurnOpen,
            SpecialToken::TurnClose,
            SpecialToken::Think,
            SpecialToken::ChannelOpen,
            SpecialToken::ChannelClose,
            SpecialToken::ToolOpen,
            SpecialToken::ToolClose,
            SpecialToken::ToolCallOpen,
            SpecialToken::ToolCallClose,
            SpecialToken::ToolResponseOpen,
            SpecialToken::ToolResponseClose,
            SpecialToken::StringDelim,
            SpecialToken::ImageOpen,
            SpecialToken::ImageClose,
            SpecialToken::AudioOpen,
            SpecialToken::AudioClose,
            SpecialToken::VideoOpen,
            SpecialToken::VideoClose,
            SpecialToken::Image,
            SpecialToken::Audio,
            SpecialToken::Video,
        ]
    }
}

/// Loss-ignore and padding target id: the id of `<pad>`, which never appears as a real target.
pub const IGNORE_ID: usize = 0;

/// The id of the turn terminator `<turn|>`, used as the generation stop token: completions end at
/// the turn boundary, not at the length cap.
pub const TURN_END_ID: i64 = 4;

/// Two special tokens with one id are the same token, every id is below the token count, and the
/// two id constants are those of `<pad>` and `<turn|>`.
pub proof fn law_special_token_ids(a: SpecialToken, b: SpecialToken)
    ensures
        a.spec_id() == b.spec_id() ==> a == b,
        a.spec_id() < SPECIAL_TOKEN_COUNT,
        IGNORE_ID == SpecialToken::Pad.spec_id(),
        TURN_END_ID == SpecialToken::TurnClose.spec_id(),
{
}

/// The length of a token's string and its characters after the opening bracket: enough to tell the
/// tokens apart.
spec fn text_key(t: SpecialToken) -> (nat, char, char, char) {
    match t {
        SpecialToken::Pad => (5, 'p', 'a', 'd'),
        SpecialToken::Bos => (5, 'b', 'o', 's'),
        SpecialToken::Eos => (5, 'e', 'o', 's'),
        SpecialToken::TurnOpen => (7, '|', 't', 'u'),
        SpecialToken::TurnClose => (7, 't', 'u', 'r'),
        SpecialToken::Think => (9, '|', 't', 'h'),
        SpecialToken::ChannelOpen => (10, '|', 'c', 'h'),
        SpecialToken::ChannelClose => (10, 'c', 'h', 'a'),
        SpecialToken::ToolOpen => (7, '|', 't', 'o'),
        SpecialToken::ToolClose => (7, 't', 'o', 'o'),
        SpecialToken::ToolCallOpen => (12, '|', 't', 'o'),
        SpecialToken::ToolCallClose => (12, 't', 'o', 'o'),
        SpecialToken::ToolResponseOpen => (16, '|', 't', 'o'),
        SpecialToken::ToolResponseClose => (16, 't', 'o', 'o'),
        SpecialToken::StringDelim => (5, '|', '"', '|'),
        SpecialToken::ImageOpen => (8, '|', 'i', 'm'),
        SpecialToken::ImageClose => (8, 'i', 'm', 'a'),
        SpecialToken::AudioOpen => (8, '|', 'a', 'u'),
        SpecialToken::AudioClose => (8, 'a', 'u', 'd'),
        SpecialToken::VideoOpen => (8, '|', 'v', 'i'),
        SpecialToken::VideoClose => (8, 'v', 'i', 'd'),
        SpecialToken::Image => (9, '|', 'i', 'm'),
        SpecialToken::Audio => (9, '|', 'a', 'u'),
        SpecialToken::Video => (9, '|', 'v', 'i'),
    }
}

/// Whether a text opens with an angle bracket, ends with one, and has none in between.
spec fn bracketed(s: Seq<char>) -> bool {
    &&& s.len() >= 2
    &&& s[0] == '<'
    &&& s.last() == '>'
    &&& forall|k: int| 0 < k < s.len() - 1 ==> #[trigger] s[k] != '<' && s[k] != '>'
}

proof fn lemma_text_key(t: SpecialToken)
    ensures
        text_key(t) == (t.text().len(), t.text()[1], t.text()[2], t.text()[3]),
        bracketed(t.text()),
{
    match t {
        SpecialToken::Pad => {
            reveal_strlit("<pad>");
        },
        SpecialToken::Bos => {
            reveal_strlit("<bos>");
        },
        SpecialToken::Eos => {
            reveal_strlit("<eos>");
        },
        SpecialToken::TurnOpen => {
            reveal_strlit("<|turn>");
        },
        SpecialToken::TurnClose => {
            reveal_strlit("<turn|>");
        },
        SpecialToken::Think => {
            reveal_strlit("<|think|>");
        },
        SpecialToken::ChannelOpen => {
            reveal_strlit("<|channel>");
        },
        SpecialToken::ChannelClose => {
            reveal_strlit("<channel|>");
        },
        SpecialToken::ToolOpen => {
            reveal_strlit("<|tool>");
        },
        SpecialToken::ToolClose => {
            reveal_strlit("<tool|>");
        },
        SpecialToken::ToolCallOpen => {
            reveal_strlit("<|tool_call>");
        },
        SpecialToken::ToolCallClose => {
            reveal_strlit("<tool_call|>");
        },
        SpecialToken::ToolResponseOpen => {
            reveal_strlit("<|tool_response>");
        },
        SpecialToken::ToolResponseClose => {
            reveal_strlit("<tool_response|>");
        },
        SpecialToken::StringDelim => {
            reveal_strlit("<|\"|>");
        },
        SpecialToken::ImageOpen => {
            reveal_strlit("<|image>");
        },
        SpecialToken::ImageClose => {
            reveal_strlit("<image|>");
        },
        SpecialToken::AudioOpen => {
            reveal_strlit("<|audio>");
        },
        SpecialToken::AudioClose => {
            reveal_strlit("<audio|>");
        },
        SpecialToken::VideoOpen => {
            reveal_strlit("<|video>");
        },
        SpecialToken::VideoClose => {
            reveal_strlit("<video|>");
        },
        SpecialToken::Image => {
            reveal_strlit("<|image|>");
        },
        SpecialToken::Audio => {
            reveal_strlit("<|audio|>");
        },
        SpecialToken::Video => {
            reveal_strlit("<|video|>");
        },
    }
}

/// Two special tokens with one literal string are the same token.
pub proof fn law_special_token_texts_distinct(a: SpecialToken, b: SpecialToken)
    requires
        a.text() == b.text(),
    ensures
        a == b,
{
    lemma_text_key(a);
    lemma_text_key(b);
}

/// No special token's literal string stands inside another's.
pub proof fn law_special_tokens_do_not_nest(a: SpecialToken, b: SpecialToken)
    requires
        occurs_in(b.text(), a.text()),
    ensures
        a == b,
{
    lemma_text_key(a);
    lemma_text_key(b);
    let (inner, outer) = (a.text(), b.text());
    let i = choose|i: int| occurs_at(outer, inner, i);
    let part = outer.subrange(i, i + inner.len());
    assert(part[0] == outer[i] && part.last() == outer[i + inner.len() - 1]);
    assert(part =~= outer);
}

/// Conversation role.
#[derive(Clone, Copy, Debug, PartialEq, Eq, Structural)]
pub enum Role {
    System,
    Developer,
    User,
    Model,
    Tool,
}

impl Role {
    /// The plain word that a role renders as.
    pub open spec fn word(self) -> Seq<char> {
        match self {
            Role::System => "system"@,
            Role::Developer => "developer"@,
            Role::User => "user"@,
            Role::Model => "model"@,
            Role::Tool => "tool"@,
        }
    }

    /// The role that a chat-API role name stands for.
    pub open spec fn of_chatml(name: Seq<char>) -> Option<Role> {
        if name == "system"@ {
            Some(Role::System)
        } else if name == "developer"@ {
            Some(Role::Developer)
        } else if name == "user"@ {
            Some(Role::User)
        } else if name == "assistant"@ {
            Some(Role::Model)
        } else if name == "tool"@ {
            Some(Role::Tool)
        } else {
            None
        }
    }

    /// The plain word that this role renders as.
    pub fn tag(self) -> (r: &'static str)
        ensures
            r@ == self.word(),
    {
        match self {
            Role::System => "system",
            Role::Developer => "developer",
            Role::User => "user",
            Role::Model => "model",
            Role::Tool => "tool",
        }
    }

    /// Maps a standard chat-API role name (ChatML, OpenAI) to a role. `assistant` maps to `Model`;
    /// an unknown name gives `None`.
    pub fn from_chatml(role: &str) -> (r: Option<Role>)
        ensures
            r == Role::of_chatml(role@),
    {
        if str_eq(role, "system") {
            Some(Role::System)
        } else if str_eq(role, "developer") {
            Some(Role::Developer)
        } else if str_eq(role, "user") {
            Some(Role::User)
        } else if str_eq(role, "assistant") {
            Some(Role::Model)
        } else if str_eq(role, "tool") {
            Some(Role::Tool)
        } else {
            None
        }
    }
}

/// Every role but the model's reads back from the word it renders as; the model's reads back from
/// `assistant` and from no word that a role renders as.
pub proof fn law_role_words(r: Role)
    ensures
        r != Role::Model ==> Role::of_chatml(r.word()) == Some(r),
        Role::of_chatml("assistant"@) == Some(Role::Model),
        Role::of_chatml(r.word()) != Some(Role::Model),
{
    reveal_strlit("system");
    reveal_strlit("developer");
    reveal_strlit("user");
    reveal_strlit("model");
    reveal_strlit("tool");
    reveal_strlit("assistant");
    assert("tool"@[0] == 't' && "user"@[0] == 'u' && "model"@.len() == 5 && "system"@.len() == 6
        && "developer"@[0] == 'd' && "assistant"@[0] == 'a');
}

/// One conversation turn.
#[derive(Clone, Debug)]
pub struct Message {
    pub role: Role,
    pub content: String,
    pub thinking: Option<String>,
}

/// What a message says: its role, its content and its reasoning, as character sequences.
pub struct MessageView {
    pub role: Role,
    pub content: Seq<char>,
    pub thinking: Option<Seq<char>>,
}

/// The characters of an optional string.
pub open spec fn option_text(s: Option<String>) -> Option<Seq<char>> {
    match s {
        Some(t) => Some(t@),
        None => None,
    }
}

impl View for Message {
    type V = MessageView;

    open spec fn view(&self) -> MessageView {
        MessageView {
            role: self.role,
            content: self.content@,
            thinking: option_text(self.thinking),
        }
    }
}

impl DeepView for Message {
    type V = MessageView;

    open spec fn deep_view(&self) -> MessageView {
        self.view()
    }
}

/// A turn without reasoning.
pub open spec fn plain_message(role: Role, content: Seq<char>) -> MessageView {
    MessageView { role, content, thinking: None }
}

impl Message {
    /// A turn without reasoning.
    pub fn new(role: Role, content: &str) -> (r: Self)
        ensures
            r@ == plain_message(role, content@),
    {
        Message { role, content: content.to_owned(), thinking: None }
    }

    /// A system turn.
    pub fn system(c: &str) -> (r: Self)
        ensures
            r@ == plain_message(Role::System, c@),
    {
        Self::new(Role::System, c)
    }

    /// A developer turn.
    pub fn developer(c: &str) -> (r: Self)
        ensures
            r@ == plain_message(Role::Developer, c@),
    {
        Self::new(Role::Developer, c)
    }

    /// A user turn.
    pub fn user(c: &str) -> (r: Self)
        ensures
            r@ == plain_message(Role::User, c@),
    {
        Self::new(Role::User, c)
    }

    /// A model turn.
    pub fn assistant(c: &str) -> (r: Self)
        ensures
            r@ == plain_message(Role::Model, c@),
    {
        Self::new(Role::Model, c)
    }

    /// A tool turn.
    pub fn tool(c: &str) -> (r: Self)
        ensures
            r@ == plain_message(Role::Tool, c@),
    {
        Self::new(Role::Tool, c)
    }

    /// The same turn with reasoning attached.
    pub fn with_thinking(self, t: &str) -> (r: Self)
        ensures
            r@ == (MessageView { thinking: Some(t@), ..self@ }),
    {
        Message { role: self.role, content: self.content, thinking: Some(t.to_owned()) }
    }
}

/// The name of the thought channel, emitted as `<|channel>thought\n…<channel|>`.
pub const THOUGHT_CHANNEL: &'static str = "thought";

/// The message field that holds the role.
pub const MSG_ROLE: &'static str = "role";

/// The message field that holds the content.
pub const MSG_CONTENT: &'static str = "content";

/// The message field that holds the reasoning.
pub const MSG_REASONING: &'static str = "reasoning";

/// A message as the chat template reads it: its fields by name, the reasoning only where there is
/// one.
pub open spec fn message_fields(m: MessageView) -> Seq<(Seq<char>, Seq<char>)> {
    let base = seq![(MSG_ROLE@, m.role.word()), (MSG_CONTENT@, m.content)];
    match m.thinking {
        Some(t) => base.push((MSG_REASONING@, t)),
        None => base,
    }
}

/// A conversation as the chat template reads it.
pub open spec fn conversation_fields(ms: Seq<MessageView>) -> Seq<Seq<(Seq<char>, Seq<char>)>> {
    ms.map_values(|m: MessageView| message_fields(m))
}

/// The fields that the chat template reads off one message.
pub fn message_value(m: &Message) -> (r: Vec<(String, String)>)
    ensures
        r.deep_view() == message_fields(m@),
{
    let mut fields: Vec<(String, String)> = Vec::new();
    fields.push((MSG_ROLE.to_owned(), m.role.tag().to_owned()));
    fields.push((MSG_CONTENT.to_owned(), m.content.clone()));
    if let Some(t) = &m.thinking {
        fields.push((MSG_REASONING.to_owned(), t.clone()));
    }
    assert(fields.deep_view() =~= message_fields(m@));
    fields
}

/// The chat template: the single source of the conversation format, shared by the server and the
/// training data path and written beside the trained tokenizer.
pub const CHAT_TEMPLATE: &'static str = r#"{#- Conversation format: turns, roles, thought channel and tools. -#}
{%- macro quote(value) -%}
{{- '<|"|>' ~ value ~ '<|"|>' -}}
{%- endmacro -%}

{%- macro format_argument(argument) -%}
{%- if argument is string -%}
{{- quote(argument) -}}
{%- elif argument is boolean -%}
{{- 'true' if argument else 'false' -}}
{%- elif argument is mapping -%}
{{- '{' -}}
{%- for key, value in argument | dictsort -%}
{{- key ~ ':' ~ format_argument(value) -}}
{%- if not loop.last -%}{{- ',' -}}{%- endif -%}
{%- endfor -%}
{{- '}' -}}
{%- elif argument is sequence -%}
{{- '[' -}}
{%- for item in argument -%}
{{- format_argument(item) -}}
{%- if not loop.last -%}{{- ',' -}}{%- endif -%}
{%- endfor -%}
{{- ']' -}}
{%- else -%}
{{- argument -}}
{%- endif -%}
{%- endmacro -%}

{%- macro format_declaration(tool) -%}
{%- set f = tool['function'] -%}
{{- 'declaration:' ~ f['name'] ~ '{description:' ~ quote(f['description']) -}}
{%- if f['parameters'] -%}
{{- ',parameters:' ~ format_argument(f['parameters']) -}}
{%- endif -%}
{{- '}' -}}
{%- endmacro -%}

{%- macro format_content(content) -%}
{%- if content is string -%}
{{- content -}}
{%- elif content is sequence -%}
{%- for part in content -%}
{%- if part['type'] == 'text' -%}
{{- part['text'] -}}
{%- elif part['type'] == 'image' -%}
{{- '<|image|>' -}}
{%- elif part['type'] == 'audio' -%}
{{- '<|audio|>' -}}
{%- elif part['type'] == 'video' -%}
{{- '<|video|>' -}}
{%- endif -%}
{%- endfor -%}
{%- endif -%}
{%- endmacro -%}

{{- bos_token -}}
{%- set ns = namespace(rest=messages) -%}
{%- set leading = messages | length > 0 and messages[0]['role'] in ['system', 'developer'] -%}
{%- if enable_thinking or tools or leading -%}
{{- '<|turn>system\n' -}}
{%- if enable_thinking -%}
{{- '<|think|>\n' -}}
{%- endif -%}
{%- if leading -%}
{{- format_content(messages[0]['content']) -}}
{%- set ns.rest = messages[1:] -%}
{%- endif -%}
{%- for tool in tools or [] -%}
{{- '<|tool>' ~ format_declaration(tool) ~ '<tool|>' -}}
{%- endfor -%}
{{- '<turn|>\n' -}}
{%- endif -%}

{%- for message in ns.rest -%}
{%- set role = 'model' if message['role'] == 'assistant' else message['role'] -%}
{{- '<|turn>' ~ role ~ '\n' -}}
{%- if message['tool_calls'] -%}
{%- if message['reasoning'] -%}
{{- '<|channel>thought\n' ~ message['reasoning'] ~ '\n<channel|>' -}}
{%- endif -%}
{%- for call in message['tool_calls'] -%}
{{- '<|tool_call>call:' ~ call['function']['name'] ~ format_argument(call['function']['arguments']) ~ '<tool_call|>' -}}
{%- endfor -%}
{%- endif -%}
{%- for response in message['tool_responses'] or [] -%}
{{- '<|tool_response>response:' ~ response['name'] ~ '{value:' ~ format_argument(response['response']) ~ '}<tool_response|>' -}}
{%- endfor -%}
{{- format_content(message['content']) -}}
{{- '<turn|>\n' -}}
{%- endfor -%}

{%- if add_generation_prompt -%}
{{- '<|turn>model\n' -}}
{%- endif -%}
"#;

/// The `bos_token` that the template is rendered with: none, so that a prompt holds nothing but its
/// turns.
pub const NO_BOS: &'static str = "";

/// The name that the template is rendered under. Without a file extension it selects no escaping.
pub const TEMPLATE_NAME: &'static str = "chat";

/// The text of the chat template, written beside the trained tokenizer so that external tooling
/// renders conversations identically to `render`.
pub fn chat_template() -> (r: &'static str)
    ensures
        r@ == CHAT_TEMPLATE@,
{
    CHAT_TEMPLATE
}

/// The value of a template variable.
#[derive(Debug)]
pub enum Variable {
    Text(String),
    Flag(bool),
    /// Messages, each by its fields.
    Turns(Vec<Vec<(String, String)>>),
}

/// What a template variable holds.
pub enum VariableView {
    Text(Seq<char>),
    Flag(bool),
    Turns(Seq<Seq<(Seq<char>, Seq<char>)>>),
}

impl DeepView for Variable {
    type V = VariableView;

    open spec fn deep_view(&self) -> VariableView {
        match self {
            Variable::Text(s) => VariableView::Text(s@),
            Variable::Flag(b) => VariableView::Flag(*b),
            Variable::Turns(ms) => VariableView::Turns(ms.deep_view()),
        }
    }
}

/// What the Jinja engine renders a template to under a name, given its variables; `None` where the
/// template does not compile or its rendering fails.
pub uninterp spec fn template_text(
    name: Seq<char>,
    source: Seq<char>,
    variables: Seq<(Seq<char>, VariableView)>,
) -> Option<Seq<char>>;

/// `minijinja::Environment::render_named_str` on a fresh environment: compiles `source` under `name`
/// and renders it with these variables. Trusted: the text, or the failure, is a function of the
/// arguments. Which text it is stays unsaid, and with it that a prompt rendered without thinking
/// holds no thinking cue of its own.
#[verifier::external_body]
fn render_template(name: &str, source: &str, variables: Vec<(String, Variable)>) -> (r: Option<
    String,
>)
    ensures
        option_text(r) == template_text(name@, source@, variables.deep_view()),
{
    let context: minijinja::Value = variables.into_iter().map(|(key, variable)| match variable {
        Variable::Text(s) => (key, minijinja::Value::from(s)),
        Variable::Flag(b) => (key, minijinja::Value::from(b)),
        Variable::Turns(ms) => {
            let turns: Vec<minijinja::Value> =
                ms.into_iter().map(|m| m.into_iter().collect()).collect();
            (key, minijinja::Value::from(turns))
        },
    }).collect();
    minijinja::Environment::new().render_named_str(name, source, context).ok()
}

/// The variables that the chat template reads.
pub open spec fn template_variables(
    messages: Seq<MessageView>,
    add_generation_prompt: bool,
    enable_thinking: bool,
) -> Seq<(Seq<char>, VariableView)> {
    seq![
        ("bos_token"@, VariableView::Text(NO_BOS@)),
        ("messages"@, VariableView::Turns(conversation_fields(messages))),
        ("add_generation_prompt"@, VariableView::Flag(add_generation_prompt)),
        ("enable_thinking"@, VariableView::Flag(enable_thinking)),
    ]
}

/// What a conversation renders to through the chat template.
pub open spec fn rendered(
    messages: Seq<MessageView>,
    add_generation_prompt: bool,
    enable_thinking: bool,
) -> Option<Seq<char>> {
    template_text(
        TEMPLATE_NAME@,
        CHAT_TEMPLATE@,
        template_variables(messages, add_generation_prompt, enable_thinking),
    )
}

/// Renders a conversation through the chat template, or gives `None` where the template engine
/// fails.
pub(crate) fn render_checked(
    messages: &[Message],
    add_generation_prompt: bool,
    enable_thinking: bool,
) -> (r: Option<String>)
    ensures
        option_text(r) == rendered(messages.deep_view(), add_generation_prompt, enable_thinking),
{
    let mut fields: Vec<Vec<(String, String)>> = Vec::new();
    let ghost ms: Seq<MessageView> = messages.deep_view();
    let mut i: usize = 0;
    while i < messages.len()
        invariant
            i <= messages.len(),
            ms == messages.deep_view(),
            ms.len() == messages.len(),
            fields.len() == i,
            forall|j: int|
                0 <= j < i ==> (#[trigger] fields[j]).deep_view() == message_fields(ms[j]),
        decreases messages.len() - i,
    {
        let value = message_value(&messages[i]);
        fields.push(value);
        i += 1;
    }
    assert(fields.deep_view() =~= conversation_fields(ms));
    let mut variables: Vec<(String, Variable)> = Vec::new();
    variables.push(("bos_token".to_owned(), Variable::Text(NO_BOS.to_owned())));
    variables.push(("messages".to_owned(), Variable::Turns(fields)));
    variables.push(("add_generation_prompt".to_owned(), Variable::Flag(add_generation_prompt)));
    variables.push(("enable_thinking".to_owned(), Variable::Flag(enable_thinking)));
    assert(variables.deep_view() =~= template_variables(
        ms,
        add_generation_prompt,
        enable_thinking,
    ));
    render_template(TEMPLATE_NAME, CHAT_TEMPLATE, variables)
}

/// Renders a conversation to the model's prompt format through the chat template. `enable_thinking`
/// emits the `<|think|>` cue in the system turn; `add_generation_prompt` appends the open model
/// turn.
pub fn render(messages: &[Message], add_generation_prompt: bool, enable_thinking: bool) -> (r:
    String)
    requires
        rendered(messages.deep_view(), add_generation_prompt, enable_thinking) is Some,
    ensures
        Some(r@) == rendered(messages.deep_view(), add_generation_prompt, enable_thinking),
{
    render_checked(messages, add_generation_prompt, enable_thinking).unwrap()
}

/// Like [`render`], with `None` where the template engine fails.
pub fn try_render(messages: &[Message], add_generation_prompt: bool, enable_thinking: bool) -> (r:
    Option<String>)
    ensures
        option_text(r) == rendered(messages.deep_view(), add_generation_prompt, enable_thinking),
{
    if render_checked(messages, add_generation_prompt, enable_thinking).is_some() {
        Some(render(messages, add_generation_prompt, enable_thinking))
    } else {
        None
    }
}

/// What a model turn's completion reads: an optional thought channel, the answer, then the turn
/// terminator.
pub open spec fn completion_text(content: Seq<char>, thinking: Option<Seq<char>>) -> Seq<char> {
    let thought = match thinking {
        Some(t) => SpecialToken::ChannelOpen.text() + THOUGHT_CHANNEL@ + seq!['\n'] + t + seq![
            '\n',
        ] + SpecialToken::ChannelClose.text(),
        None => Seq::empty(),
    };
    thought + content + SpecialToken::TurnClose.text() + seq!['\n']
}

/// The characters of an optional string slice.
pub open spec fn option_str(s: Option<&str>) -> Option<Seq<char>> {
    match s {
        Some(t) => Some(t@),
        None => None,
    }
}

/// The model turn's completion, appended after a prompt's open model turn. Training builds the
/// supervised target from it.
pub fn assistant_completion(content: &str, thinking: Option<&str>) -> (r: String)
    ensures
        r@ == completion_text(content@, option_str(thinking)),
{
    let mut s = String::new();
    if let Some(t) = thinking {
        s.append(SpecialToken::ChannelOpen.as_str());
        s.append(THOUGHT_CHANNEL);
        s.push('\n');
        s.append(t);
        s.push('\n');
        s.append(SpecialToken::ChannelClose.as_str());
    }
    s.append(content);
    s.append(SpecialToken::TurnClose.as_str());
    s.push('\n');
    assert(s@ =~= completion_text(content@, option_str(thinking)));
    s
}

/// What a single user turn renders to, with the model turn open, with or without the thinking cue.
pub open spec fn single_turn(user: Seq<char>, enable_thinking: bool) -> Option<Seq<char>> {
    rendered(seq![plain_message(Role::User, user)], true, enable_thinking)
}

/// What the prompt for a single user turn renders to, with the model turn open and no thinking cue.
pub open spec fn rendered_prompt(user: Seq<char>) -> Option<Seq<char>> {
    single_turn(user, false)
}

/// The prompt for a user turn is the rendering of that one turn, and of nothing else.
pub proof fn law_prompt_is_one_user_turn(user: Seq<char>)
    ensures
        rendered_prompt(user) == rendered(seq![plain_message(Role::User, user)], true, false),
{
}

/// A single user turn as a conversation.
fn single_user(user: &str) -> (r: Vec<Message>)
    ensures
        r.deep_view() == seq![plain_message(Role::User, user@)],
{
    let mut conversation: Vec<Message> = Vec::new();
    conversation.push(Message::user(user));
    assert(conversation.deep_view() =~= seq![plain_message(Role::User, user@)]);
    conversation
}

/// Renders a single user turn with the model turn open, or gives `None` where the template engine
/// fails.
pub(crate) fn single_turn_checked(user: &str, enable_thinking: bool) -> (r: Option<String>)
    ensures
        option_text(r) == single_turn(user@, enable_thinking),
{
    let conversation = single_user(user);
    let turns = conversation.as_slice();
    assert(turns.deep_view() =~= conversation.deep_view());
    render_checked(turns, true, enable_thinking)
}

/// The prompt that the model must continue for a single user turn, with no thinking cue.
pub fn render_prompt(user: &str) -> (r: String)
    requires
        rendered_prompt(user@) is Some,
    ensures
        Some(r@) == rendered_prompt(user@),
{
    let conversation = single_user(user);
    let turns = conversation.as_slice();
    assert(turns.deep_view() =~= conversation.deep_view());
    render(turns, true, false)
}

/// Like [`render_prompt`], with `None` where the template engine fails.
pub fn try_render_prompt(user: &str) -> (r: Option<String>)
    ensures
        option_text(r) == rendered_prompt(user@),
{
    if single_turn_checked(user, false).is_some() {
        Some(render_prompt(user))
    } else {
        None
    }
}

/// What a single exchange reads: the rendered prompt followed by the model turn's completion.
pub open spec fn exchange_text(user: Seq<char>, response: Seq<char>) -> Option<Seq<char>> {
    match rendered_prompt(user) {
        Some(p) => Some(p + completion_text(response, None)),
        None => None,
    }
}

/// A whole single-turn exchange: the prompt, then the completion that answers it. `None` where the
/// template engine fails on the prompt.
pub fn render_full(user: &str, response: &str) -> (r: Option<String>)
    ensures
        option_text(r) == exchange_text(user@, response@),
{
    match single_turn_checked(user, false) {
        Some(prompt) => {
            let completion = assistant_completion(response, None);
            Some(prompt.concat(completion.as_str()))
        },
        None => None,
    }
}

/// The prompt is a literal prefix of the whole exchange, and what follows it is the completion: the
/// supervised target of a training row starts where its prompt ends.
pub proof fn law_prompt_prefixes_exchange(user: Seq<char>, response: Seq<char>)
    requires
        rendered_prompt(user) is Some,
    ensures
        exchange_text(user, response) is Some,
        rendered_prompt(user)->0.is_prefix_of(exchange_text(user, response)->0),
        exchange_text(user, response)->0.skip(rendered_prompt(user)->0.len() as int)
            == completion_text(response, None),
{
    let p = rendered_prompt(user)->0;
    let full = p + completion_text(response, None);
    assert(full.take(p.len() as int) =~= p);
    assert(full.skip(p.len() as int) =~= completion_text(response, None));
}

/// Every completion ends with the turn terminator and a line break, with the answer right before
/// them; and a completion with a thought opens with the thought channel.
pub proof fn law_completion_shape(content: Seq<char>, thinking: Option<Seq<char>>)
    ensures
        (content + SpecialToken::TurnClose.text() + seq!['\n']).is_suffix_of(
            completion_text(content, thinking),
        ),
        thinking is Some ==> (SpecialToken::ChannelOpen.text() + THOUGHT_CHANNEL@ + seq!['\n']
            + thinking->0 + seq!['\n'] + SpecialToken::ChannelClose.text()).is_prefix_of(
            completion_text(content, thinking),
        ),
        thinking is None ==> completion_text(content, thinking) == content
            + SpecialToken::TurnClose.text() + seq!['\n'],
{
    let whole = completion_text(content, thinking);
    let tail = content + SpecialToken::TurnClose.text() + seq!['\n'];
    assert(whole.skip(whole.len() - tail.len()) =~= tail);
    assert(whole.subrange(whole.len() - tail.len(), whole.len() as int) =~= tail);
    if thinking is Some {
        let head = SpecialToken::ChannelOpen.text() + THOUGHT_CHANNEL@ + seq!['\n'] + thinking->0
            + seq!['\n'] + SpecialToken::ChannelClose.text();
        assert(whole.take(head.len() as int) =~= head);
    } else {
        assert(whole =~= tail);
    }
}

/// The vocabulary reserves these strings under these ids, and no others.
pub proof fn law_special_tokens_are_reserved(t: SpecialToken)
    ensures
        match t {
            SpecialToken::Pad => t.text() == "<pad>"@ && t.spec_id() == 0,
            SpecialToken::Bos => t.text() == "<bos>"@ && t.spec_id() == 1,
            SpecialToken::Eos => t.text() == "<eos>"@ && t.spec_id() == 2,
            SpecialToken::TurnOpen => t.text() == "<|turn>"@ && t.spec_id() == 3,
            SpecialToken::TurnClose => t.text() == "<turn|>"@ && t.spec_id() == 4,
            SpecialToken::Think => t.text() == "<|think|>"@ && t.spec_id() == 5,
            SpecialToken::ChannelOpen => t.text() == "<|channel>"@ && t.spec_id() == 6,
            SpecialToken::ChannelClose => t.text() == "<channel|>"@ && t.spec_id() == 7,
            SpecialToken::ToolOpen => t.text() == "<|tool>"@ && t.spec_id() == 8,
            SpecialToken::ToolClose => t.text() == "<tool|>"@ && t.spec_id() == 9,
            SpecialToken::ToolCallOpen => t.text() == "<|tool_call>"@ && t.spec_id() == 10,
            SpecialToken::ToolCallClose => t.text() == "<tool_call|>"@ && t.spec_id() == 11,
            SpecialToken::ToolResponseOpen => t.text() == "<|tool_response>"@ && t.spec_id() == 12,
            SpecialToken::ToolResponseClose => t.text() == "<tool_response|>"@ && t.spec_id() == 13,
            SpecialToken::StringDelim => t.text() == "<|\"|>"@ && t.spec_id() == 14,
            SpecialToken::ImageOpen => t.text() == "<|image>"@ && t.spec_id() == 15,
            SpecialToken::ImageClose => t.text() == "<image|>"@ && t.spec_id() == 16,
            SpecialToken::AudioOpen => t.text() == "<|audio>"@ && t.spec_id() == 17,
            SpecialToken::AudioClose => t.text() == "<audio|>"@ && t.spec_id() == 18,
            SpecialToken::VideoOpen => t.text() == "<|video>"@ && t.spec_id() == 19,
            SpecialToken::VideoClose => t.text() == "<video|>"@ && t.spec_id() == 20,
            SpecialToken::Image => t.text() == "<|image|>"@ && t.spec_id() == 21,
            SpecialToken::Audio => t.text() == "<|audio|>"@ && t.spec_id() == 22,
            SpecialToken::Video => t.text() == "<|video|>"@ && t.spec_id() == 23,
        },
        SPECIAL_TOKEN_COUNT == 24,
{
}

/// A role name stands for a role exactly where it is one of the five that clients send;
/// `assistant` is the model's.
pub proof fn law_only_five_names_are_roles(name: Seq<char>)
    ensures
        Role::of_chatml(name) == Some(Role::System) <==> name == "system"@,
        Role::of_chatml(name) == Some(Role::Developer) <==> name == "developer"@,
        Role::of_chatml(name) == Some(Role::User) <==> name == "user"@,
        Role::of_chatml(name) == Some(Role::Model) <==> name == "assistant"@,
        Role::of_chatml(name) == Some(Role::Tool) <==> name == "tool"@,
        Role::Model.word() == "model"@,
{
    reveal_strlit("system");
    reveal_strlit("developer");
    reveal_strlit("user");
    reveal_strlit("tool");
    reveal_strlit("assistant");
    assert("tool"@[0] == 't' && "user"@[0] == 'u' && "system"@[0] == 's' && "developer"@[0] == 'd'
        && "assistant"@[0] == 'a');
}

/// The template sees of a message its role's word, its whole content, and its reasoning where it
/// has one, and nothing else.
pub proof fn law_template_sees_the_message(m: MessageView)
    ensures
        message_fields(m)[0] == ("role"@, m.role.word()),
        message_fields(m)[1] == ("content"@, m.content),
        m.thinking is None ==> message_fields(m).len() == 2,
        m.thinking matches Some(t) ==> message_fields(m).len() == 3 && message_fields(m)[2] == (
            "reasoning"@,
            t,
        ),
{
}

/// A conversation is rendered by the chat template and by nothing else: the template is given
/// every message, in order, and the two flags as they are.
pub proof fn law_rendering_is_the_template(
    messages: Seq<MessageView>,
    add_generation_prompt: bool,
    enable_thinking: bool,
)
    ensures
        rendered(messages, add_generation_prompt, enable_thinking) == template_text(
            "chat"@,
            CHAT_TEMPLATE@,
            seq![
                ("bos_token"@, VariableView::Text(""@)),
                (
                    "messages"@,
                    VariableView::Turns(
                        Seq::new(messages.len(), |i: int| message_fields(messages[i])),
                    ),
                ),
                ("add_generation_prompt"@, VariableView::Flag(add_generation_prompt)),
                ("enable_thinking"@, VariableView::Flag(enable_thinking)),
            ],
        ),
{
    assert(conversation_fields(messages) =~= Seq::new(
        messages.len(),
        |i: int| message_fields(messages[i]),
    ));
}

/// A completion is its answer, whole, and the turn terminator; a thought stands before that,
/// whole, between the lines that open and close its channel, and changes nothing else.
pub proof fn law_completions_are_thought_and_answer(content: Seq<char>, thought: Seq<char>)
    ensures
        completion_text(content, None) == content + "<turn|>"@ + seq!['\n'],
        completion_text(content, Some(thought)) == "<|channel>"@ + "thought"@ + seq!['\n']
            + thought + seq!['\n'] + "<channel|>"@ + completion_text(content, None),
{
    assert(completion_text(content, None) =~= content + "<turn|>"@ + seq!['\n']);
    assert(completion_text(content, Some(thought)) =~= "<|channel>"@ + "thought"@ + seq!['\n']
        + thought + seq!['\n'] + "<channel|>"@ + completion_text(content, None));
}

/// The exchange of a turn is its prompt, and then the completion of the answer without a thought;
/// the prompt asks for the user's words with no thinking cue.
pub proof fn law_exchange_is_prompt_and_answer(user: Seq<char>, answer: Seq<char>)
    ensures
        rendered_prompt(user) is None <==> exchange_text(user, answer) is None,
        rendered_prompt(user) matches Some(p) ==> exchange_text(user, answer) == Some(
            p + answer + "<turn|>"@ + seq!['\n'],
        ),
        rendered_prompt(user) == rendered(
            seq![(MessageView { role: Role::User, content: user, thinking: None })],
            true,
            false,
        ),
        single_turn(user, true) == rendered(
            seq![(MessageView { role: Role::User, content: user, thinking: None })],
            true,
            true,
        ),
{
    if let Some(p) = rendered_prompt(user) {
        assert(exchange_text(user, answer)->0 =~= p + answer + "<turn|>"@ + seq!['\n']);
    }
}

} // verus!

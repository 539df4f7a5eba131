//! Conversations with the language model: the messages sent, and the history kept per
//! channel.
use vstd::prelude::*;

use std::collections::HashMap;

use crate::config::OllamaConfig;
use crate::text::{chars_of, replace_chars, replaced, string_from_chars};

verus! {

broadcast use vstd::std_specs::hash::group_hash_axioms;

/// One message of a conversation: who speaks (`system`, `user` or `assistant`) and what.
#[derive(Debug, Clone)]
pub struct ChatMessage {
    pub role: String,
    pub content: String,
}

/// A message with the given role and text.
pub open spec fn message_is(m: ChatMessage, role: Seq<char>, content: Seq<char>) -> bool {
    m.role@ == role && m.content@ == content
}

/// The system prompt of the configuration, empty when it has none.
pub open spec fn system_text(config: OllamaConfig) -> Seq<char> {
    match config.system_prompt {
        Some(p) => p@,
        None => Seq::empty(),
    }
}

/// The messages sent for `prompt`: the channel's history, or else a fresh conversation that
/// opens with the system prompt, followed by the prompt from the user.
pub fn conversation_for(config: &OllamaConfig, prompt: &str, history: Option<Vec<ChatMessage>>) -> (msgs: Vec<ChatMessage>)
    ensures
        match history {
            Some(h) => msgs@.len() == h@.len() + 1 && msgs@.take(h@.len() as int) == h@,
            None => msgs@.len() == 2 && message_is(msgs@[0], "system"@, system_text(*config)),
        },
        message_is(msgs@.last(), "user"@, prompt@),
{
    let mut msgs = match history {
        Some(h) => h,
        None => {
            let content = match &config.system_prompt {
                Some(p) => p.clone(),
                None => String::new(),
            };
            let mut v = Vec::new();
            v.push(ChatMessage { role: String::from_str("system"), content });
            v
        },
    };
    let ghost before = msgs@;
    msgs.push(ChatMessage { role: String::from_str("user"), content: String::from_str(prompt) });
    assert(msgs@.take(before.len() as int) =~= before);
    msgs
}

/// The address of the chat endpoint: the base address and `/api/chat`.
pub fn chat_url(config: &OllamaConfig) -> (url: String)
    ensures
        url@ == config.base_url@ + "/api/chat"@,
{
    let mut url = config.base_url.clone();
    url.append("/api/chat");
    url
}

/// The `Authorization` header: a bearer token when an API key is set and not empty.
pub fn auth_header(config: &OllamaConfig) -> (h: Option<String>)
    ensures
        match config.api_key {
            Some(k) => if k@.len() > 0 {
                h matches Some(v) && v@ == "Bearer "@ + k@
            } else {
                h is None
            },
            None => h is None,
        },
{
    match &config.api_key {
        Some(k) => {
            if k.as_str().is_empty() {
                None
            } else {
                let mut v = String::from_str("Bearer ");
                v.append(k.as_str());
                Some(v)
            }
        },
        None => None,
    }
}

/// Adds the model's answer to the conversation; gives the answer's text and the whole
/// conversation.
pub fn record_answer(msgs: Vec<ChatMessage>, answer: ChatMessage) -> (r: (String, Vec<ChatMessage>))
    ensures
        r.0@ == answer.content@,
        r.1@ == msgs@.push(answer),
{
    let text = answer.content.clone();
    let mut all = msgs;
    all.push(answer);
    (text, all)
}

/// The system prompt with `[BOT_NAME]` replaced by the bot's name.
pub open spec fn named_system_text(p: Seq<char>, bot_name: Seq<char>) -> Seq<char> {
    replaced(p, "[BOT_NAME]"@, bot_name)
}

/// The system prompt of `config` with `[BOT_NAME]` replaced by `bot_name`; `None` stays
/// `None`.
pub fn system_prompt_for(config: &OllamaConfig, bot_name: &str) -> (p: Option<String>)
    ensures
        match config.system_prompt {
            Some(s) => p matches Some(t) && t@ == named_system_text(s@, bot_name@),
            None => p is None,
        },
{
    match &config.system_prompt {
        Some(s) => {
            let v = chars_of(s.as_str());
            let from = chars_of("[BOT_NAME]");
            let to = chars_of(bot_name);
            proof {
                reveal_strlit("[BOT_NAME]");
            }
            let r = replace_chars(&v, &from, &to);
            Some(string_from_chars(&r))
        },
        None => None,
    }
}

/// The conversation of each channel with the bot.
pub struct ChatHistories {
    by_channel: HashMap<u64, Vec<ChatMessage>>,
}

impl View for ChatHistories {
    type V = Map<u64, Vec<ChatMessage>>;

    closed spec fn view(&self) -> Map<u64, Vec<ChatMessage>> {
        self.by_channel@
    }
}

impl ChatHistories {
    /// No channel has a conversation.
    pub fn new() -> (h: Self)
        ensures
            h@ == Map::<u64, Vec<ChatMessage>>::empty(),
    {
        ChatHistories { by_channel: HashMap::new() }
    }

    /// The conversation of `channel`, if it has one.
    pub fn get(&self, channel: u64) -> (r: Option<&Vec<ChatMessage>>)
        ensures
            match r {
                Some(v) => self@.contains_key(channel) && *v == self@[channel],
                None => !self@.contains_key(channel),
            },
    {
        self.by_channel.get(&channel)
    }

    /// Keeps `conversation` as the conversation of `channel`.
    pub fn store(&mut self, channel: u64, conversation: Vec<ChatMessage>)
        ensures
            final(self)@ == old(self)@.insert(channel, conversation),
    {
        self.by_channel.insert(channel, conversation);
    }

    /// Forgets the conversation of `channel` (`llm reset`).
    pub fn reset(&mut self, channel: u64)
        ensures
            final(self)@ == old(self)@.remove(channel),
    {
        self.by_channel.remove(&channel);
    }
}

/// A reset forgets the conversation of its channel and of no other: afterwards the channel
/// has none, and every other channel keeps what it had.
pub proof fn lemma_reset_is_per_channel(m: Map<u64, Vec<ChatMessage>>, channel: u64, other: u64)
    requires
        other != channel,
    ensures
        !m.remove(channel).contains_key(channel),
        m.remove(channel).contains_key(other) == m.contains_key(other),
        m.contains_key(other) ==> m.remove(channel)[other] == m[other],
{
}

/// What is stored for a channel is what the next lookup of that channel gives.
pub proof fn lemma_store_then_get(m: Map<u64, Vec<ChatMessage>>, channel: u64, conversation: Vec<ChatMessage>)
    ensures
        m.insert(channel, conversation).contains_key(channel),
        m.insert(channel, conversation)[channel] == conversation,
{
}

} // verus!

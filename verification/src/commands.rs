//! Reading commands: the options of slash commands and the words of prefix commands.
use vstd::prelude::*;

use crate::news::join;
use crate::text::{
    chars_eq_str, chars_of, decimal, first_where, lemma_first_where, lines, push_all, push_decimal,
    push_str_chars, replace_chars, replaced, split_lines, string_from_chars, string_from_range,
    trim, trim_bounds,
};

verus! {

/// One option of a slash command: its name, and its value when that is a string.
pub struct CommandOption {
    pub name: String,
    pub value: Option<String>,
}

/// The string value of an option, or the empty text when it has none.
pub open spec fn value_text(o: CommandOption) -> Seq<char> {
    match o.value {
        Some(v) => v@,
        None => Seq::empty(),
    }
}

/// The string value of the first option, or the empty text.
pub open spec fn first_value(opts: Seq<CommandOption>) -> Seq<char> {
    if opts.len() == 0 {
        Seq::empty()
    } else {
        value_text(opts[0])
    }
}

/// The string value of the first option called `key`, or the empty text.
pub open spec fn named_value(opts: Seq<CommandOption>, key: Seq<char>) -> Seq<char>
    decreases opts.len(),
{
    if opts.len() == 0 {
        Seq::empty()
    } else if opts[0].name@ == key {
        value_text(opts[0])
    } else {
        named_value(opts.drop_first(), key)
    }
}

/// The value text of `o` (see [`value_text`]).
pub fn option_text(o: &CommandOption) -> (s: String)
    ensures
        s@ == value_text(*o),
{
    match &o.value {
        Some(v) => v.clone(),
        None => String::new(),
    }
}

/// The string value of the first option (see [`first_value`]).
pub fn first_option_value(opts: &Vec<CommandOption>) -> (s: String)
    ensures
        s@ == first_value(opts@),
{
    if opts.len() == 0 {
        String::new()
    } else {
        option_text(&opts[0])
    }
}

/// The string value of the first option called `key` (see [`named_value`]).
pub fn named_option_value(opts: &Vec<CommandOption>, key: &str) -> (s: String)
    ensures
        s@ == named_value(opts@, key@),
{
    let k = crate::text::chars_of(key);
    let mut i: usize = 0;
    assert(opts@.skip(0) =~= opts@);
    while i < opts.len()
        invariant
            i <= opts.len(),
            k@ == key@,
            named_value(opts@, key@) == named_value(opts@.skip(i as int), key@),
        decreases opts.len() - i,
    {
        let n = crate::text::chars_of(opts[i].name.as_str());
        assert(opts@.skip(i as int)[0] == opts@[i as int]);
        if crate::text::chars_eq(&n, &k) {
            return option_text(&opts[i]);
        }
        assert(opts@.skip(i as int).drop_first() =~= opts@.skip(i + 1));
        i = i + 1;
    }
    String::new()
}

/// A command given with the `!` prefix.
#[derive(Debug, PartialEq, Eq, Structural, Clone, Copy)]
pub enum PrefixCommand {
    Play,
    Say,
    Sayin,
    Slop,
    Playlist,
    Stop,
    Skip,
    Leave,
    Llm,
    Help,
}

/// How a message is handled: ignored (it comes from a bot, or names no known command), a
/// prefix command with the rest of the text, or possibly a conversation with the bot.
pub enum MessageKind {
    Ignore,
    Command(PrefixCommand, String),
    Conversation,
}

/// The space predicate as a spec closure.
pub open spec fn space_pred() -> spec_fn(char) -> bool {
    |c: char| c == ' '
}

/// The command word after `!`: the text up to the first space.
pub open spec fn command_word(body: Seq<char>) -> Seq<char> {
    body.take(first_where(body, space_pred()) as int)
}

/// The text after the command word and its space (empty when there is none).
pub open spec fn command_rest(body: Seq<char>) -> Seq<char> {
    let k = first_where(body, space_pred());
    if k < body.len() {
        body.skip(k + 1 as int)
    } else {
        Seq::empty()
    }
}

/// The prefix command a word names, with its aliases.
pub open spec fn prefix_command_of(w: Seq<char>) -> Option<PrefixCommand> {
    if w == "play"@ || w == "p"@ {
        Some(PrefixCommand::Play)
    } else if w == "say"@ || w == "s"@ {
        Some(PrefixCommand::Say)
    } else if w == "sayin"@ || w == "si"@ {
        Some(PrefixCommand::Sayin)
    } else if w == "slop"@ || w == "i"@ {
        Some(PrefixCommand::Slop)
    } else if w == "playlist"@ || w == "pl"@ {
        Some(PrefixCommand::Playlist)
    } else if w == "stop"@ || w == "st"@ {
        Some(PrefixCommand::Stop)
    } else if w == "skip"@ || w == "sk"@ {
        Some(PrefixCommand::Skip)
    } else if w == "leave"@ || w == "l"@ || w == "kys"@ {
        Some(PrefixCommand::Leave)
    } else if w == "llm"@ {
        Some(PrefixCommand::Llm)
    } else if w == "help"@ || w == "h"@ {
        Some(PrefixCommand::Help)
    } else {
        None
    }
}

/// How a message with text `content` is handled (see [`MessageKind`]).
pub open spec fn message_kind_ok(from_bot: bool, content: Seq<char>, k: MessageKind) -> bool {
    if from_bot {
        k is Ignore
    } else if content.len() > 0 && content[0] == '!' {
        let body = content.drop_first();
        match prefix_command_of(command_word(body)) {
            Some(c) => k matches MessageKind::Command(c2, rest) && c2 == c && rest@ == command_rest(body),
            None => k is Ignore,
        }
    } else {
        k is Conversation
    }
}

/// The command a word names (see [`prefix_command_of`]).
fn prefix_command(w: &Vec<char>) -> (r: Option<PrefixCommand>)
    ensures
        r == prefix_command_of(w@),
{
    if chars_eq_str(w, "play") || chars_eq_str(w, "p") {
        Some(PrefixCommand::Play)
    } else if chars_eq_str(w, "say") || chars_eq_str(w, "s") {
        Some(PrefixCommand::Say)
    } else if chars_eq_str(w, "sayin") || chars_eq_str(w, "si") {
        Some(PrefixCommand::Sayin)
    } else if chars_eq_str(w, "slop") || chars_eq_str(w, "i") {
        Some(PrefixCommand::Slop)
    } else if chars_eq_str(w, "playlist") || chars_eq_str(w, "pl") {
        Some(PrefixCommand::Playlist)
    } else if chars_eq_str(w, "stop") || chars_eq_str(w, "st") {
        Some(PrefixCommand::Stop)
    } else if chars_eq_str(w, "skip") || chars_eq_str(w, "sk") {
        Some(PrefixCommand::Skip)
    } else if chars_eq_str(w, "leave") || chars_eq_str(w, "l") || chars_eq_str(w, "kys") {
        Some(PrefixCommand::Leave)
    } else if chars_eq_str(w, "llm") {
        Some(PrefixCommand::Llm)
    } else if chars_eq_str(w, "help") || chars_eq_str(w, "h") {
        Some(PrefixCommand::Help)
    } else {
        None
    }
}

/// Index of the first space in `v[from..]`, counted from `from`, or its length.
fn first_space(v: &Vec<char>, from: usize) -> (k: usize)
    requires
        from <= v.len(),
    ensures
        k == first_where(v@.skip(from as int), space_pred()),
        from + k <= v.len(),
{
    let mut j = from;
    while j < v.len() && v[j] != ' '
        invariant
            from <= j <= v.len(),
            forall|t: int| from <= t < j ==> #[trigger] v@[t] != ' ',
        decreases v.len() - j,
    {
        j = j + 1;
    }
    proof {
        let x = v@.skip(from as int);
        assert forall|t: int| 0 <= t < j - from implies !(space_pred())(#[trigger] x[t]) by {
            assert(x[t] == v@[from + t]);
        }
        if j < v.len() {
            assert(x[j - from] == v@[j as int]);
        }
        lemma_first_where(x, space_pred(), j - from);
    }
    j - from
}

/// How to handle a message (see [`message_kind_ok`]).
pub fn classify_message(from_bot: bool, content: &str) -> (k: MessageKind)
    ensures
        message_kind_ok(from_bot, content@, k),
{
    if from_bot {
        return MessageKind::Ignore;
    }
    let v = chars_of(content);
    if v.len() == 0 || v[0] != '!' {
        return MessageKind::Conversation;
    }
    let ghost body = content@.drop_first();
    assert(v@.skip(1) =~= body);
    let k = first_space(&v, 1);
    let word = crate::text::string_range_vec(&v, 1, 1 + k);
    assert(word@ =~= command_word(body));
    match prefix_command(&word) {
        Some(c) => {
            let rest = if 1 + k < v.len() {
                assert(v@.subrange(2 + k, v@.len() as int) =~= body.skip(k + 1 as int));
                string_from_range(&v, 2 + k, v.len())
            } else {
                String::new()
            };
            MessageKind::Command(c, rest)
        },
        None => MessageKind::Ignore,
    }
}

/// What `!llm` with `rest` does: `reset` (or `r`) clears the channel's conversation.
pub open spec fn is_reset_request(rest: Seq<char>) -> bool {
    rest == "reset"@ || rest == "r"@
}

/// Whether `!llm` with `rest` asks for a reset (see [`is_reset_request`]).
pub fn llm_reset_requested(rest: &str) -> (r: bool)
    ensures
        r == is_reset_request(rest@),
{
    let v = chars_of(rest);
    chars_eq_str(&v, "reset") || chars_eq_str(&v, "r")
}

/// The answer after a conversation was reset.
pub const HISTORY_PURGED_REPLY: &'static str = "Conversation history has been purged. The Machine Spirit is refreshed.";

/// The answer to `!llm` with anything but a reset.
pub const LLM_PREFIX_UNKNOWN_REPLY: &'static str = "Unknown LLM command. Use `!llm reset`.";

/// The answer to `/llm` without the reset subcommand.
pub const LLM_SLASH_UNKNOWN_REPLY: &'static str = "Unknown LLM command. Use `/llm reset`.";

/// The answer to a mention without a question.
pub const GREETING_REPLY: &'static str = "Praise the Omnissiah! How may I assist you?";

/// The answer when the language model cannot be reached.
pub const LLM_SILENT_REPLY: &'static str = "The Machine Spirit is silent... (Failed to connect to LLM node)";

/// Whether some option is called `key`.
pub open spec fn has_named(opts: Seq<CommandOption>, key: Seq<char>) -> bool {
    exists|k: int| 0 <= k < opts.len() && (#[trigger] opts[k]).name@ == key
}

/// Whether some option is called `key` (see [`has_named`]).
pub fn has_option(opts: &Vec<CommandOption>, key: &str) -> (r: bool)
    ensures
        r == has_named(opts@, key@),
{
    let k = chars_of(key);
    let mut i: usize = 0;
    while i < opts.len()
        invariant
            i <= opts.len(),
            k@ == key@,
            forall|j: int| 0 <= j < i ==> (#[trigger] opts@[j]).name@ != key@,
        decreases opts.len() - i,
    {
        let n = chars_of(opts[i].name.as_str());
        if crate::text::chars_eq(&n, &k) {
            return true;
        }
        i = i + 1;
    }
    false
}

/// A slash command of the bot.
#[derive(Debug, PartialEq, Eq, Structural, Clone, Copy)]
pub enum SlashCommand {
    Play,
    Say,
    Sayin,
    Slop,
    Stop,
    Skip,
    Leave,
    Playlist,
    Llm,
    Help,
}

/// The slash command called `name`.
pub open spec fn slash_command_of(name: Seq<char>) -> Option<SlashCommand> {
    if name == "play"@ {
        Some(SlashCommand::Play)
    } else if name == "say"@ {
        Some(SlashCommand::Say)
    } else if name == "sayin"@ {
        Some(SlashCommand::Sayin)
    } else if name == "slop"@ {
        Some(SlashCommand::Slop)
    } else if name == "stop"@ {
        Some(SlashCommand::Stop)
    } else if name == "skip"@ {
        Some(SlashCommand::Skip)
    } else if name == "leave"@ {
        Some(SlashCommand::Leave)
    } else if name == "playlist"@ {
        Some(SlashCommand::Playlist)
    } else if name == "llm"@ {
        Some(SlashCommand::Llm)
    } else if name == "help"@ {
        Some(SlashCommand::Help)
    } else {
        None
    }
}

/// The slash command called `name` (see [`slash_command_of`]); unknown names are ignored.
pub fn slash_command(name: &str) -> (r: Option<SlashCommand>)
    ensures
        r == slash_command_of(name@),
{
    let v = chars_of(name);
    if chars_eq_str(&v, "play") {
        Some(SlashCommand::Play)
    } else if chars_eq_str(&v, "say") {
        Some(SlashCommand::Say)
    } else if chars_eq_str(&v, "sayin") {
        Some(SlashCommand::Sayin)
    } else if chars_eq_str(&v, "slop") {
        Some(SlashCommand::Slop)
    } else if chars_eq_str(&v, "stop") {
        Some(SlashCommand::Stop)
    } else if chars_eq_str(&v, "skip") {
        Some(SlashCommand::Skip)
    } else if chars_eq_str(&v, "leave") {
        Some(SlashCommand::Leave)
    } else if chars_eq_str(&v, "playlist") {
        Some(SlashCommand::Playlist)
    } else if chars_eq_str(&v, "llm") {
        Some(SlashCommand::Llm)
    } else if chars_eq_str(&v, "help") {
        Some(SlashCommand::Help)
    } else {
        None
    }
}

/// The mention of user `id` as Discord writes it: `<@id>`.
pub open spec fn mention_text(id: u64) -> Seq<char> {
    "<@"@ + decimal(id as nat) + seq!['>']
}

/// The nickname mention of user `id`: `<@!id>`.
pub open spec fn nick_mention_text(id: u64) -> Seq<char> {
    "<@!"@ + decimal(id as nat) + seq!['>']
}

/// The question in a message that mentions the bot: the text without the bot's mentions,
/// trimmed.
pub open spec fn conversation_prompt_text(content: Seq<char>, bot_id: u64) -> Seq<char> {
    trim(replaced(replaced(content, mention_text(bot_id), Seq::empty()), nick_mention_text(bot_id), Seq::empty()))
}

/// The question in a message that mentions the bot (see [`conversation_prompt_text`]); the
/// empty text means there is none.
pub fn conversation_prompt(content: &str, bot_id: u64) -> (prompt: String)
    ensures
        prompt@ == conversation_prompt_text(content@, bot_id),
{
    let v = chars_of(content);
    let mut m: Vec<char> = Vec::new();
    push_str_chars(&mut m, "<@");
    push_decimal(&mut m, bot_id);
    m.push('>');
    let mut n: Vec<char> = Vec::new();
    push_str_chars(&mut n, "<@!");
    push_decimal(&mut n, bot_id);
    n.push('>');
    assert(m@ =~= mention_text(bot_id));
    assert(n@ =~= nick_mention_text(bot_id));
    let empty: Vec<char> = Vec::new();
    let once = replace_chars(&v, &m, &empty);
    let twice = replace_chars(&once, &n, &empty);
    let (lo, hi) = trim_bounds(&twice);
    string_from_range(&twice, lo, hi)
}

/// The help text.
pub const HELP_TEXT: &'static str = "
`╔═════════════════════════════════════════════════╗`
`║ ▗▄▖ ▄▄▄▄  ▄▄▄▄  ▄  ▄▄▄  ▄▄▄ ▄  ▗▄▖▗▄▄▄▖▗▄▖  ▗▄▄▖║`
`║▐▌ ▐▌█ █ █ █   █ ▄ ▀▄▄  ▀▄▄  ▄ ▐▌ ▐▌ █ ▐▌ ▐▌▐▌   ║`
`║▐▌ ▐▌█   █ █   █ █ ▄▄▄▀ ▄▄▄▀ █ ▐▛▀▜▌ █ ▐▛▀▜▌▐▌   ║`
`║▝▚▄▞▘            █           █ ▐▌ ▐▌ █ ▐▌ ▐▌▝▚▄▄▖║`
`╚═════════════════════════════════════════════════╝`

- `play <query>` (p): Play a song from YouTube or a URL.
- `say <text>` (s): Convert text to speech (guesses language).
- `sayin <lang> <text>` (si): Convert text to speech in a specific language.
- `slop <prompt>` (i): Generate AI art from the Machine Spirit's forge.
- `skip` (sk): Skip the current song.
- `stop` (st): Stop the music and clear the queue.
- `leave` (l, kys): Leave the voice channel immediately.
- `playlist create <name>` (pl c): Create a new playlist.
- `playlist add <name> <query>` (pl a): Add a song or playlist to a bot playlist.
- `playlist play <name>` (pl p): Play a bot playlist.
- `playlist list` (pl ls): List all bot playlists.
- `llm reset` (llm r): Reset conversation history for this channel.
- `help` (h): Show this help message.

**Conversational Mode:**
- Mention me (@OmnissiATAC) to chat! I'm powered by a local Machine Spirit (LLM).";

/// The note that prefix help adds below the help text.
pub open spec fn help_note() -> Seq<char> {
    "\n\n*Note: You can also use Slash Commands (/) for all of these!*"@
}

/// The answer to `!help`: the help text and a note on slash commands.
pub fn prefix_help_text() -> (s: String)
    ensures
        s@ == HELP_TEXT@ + help_note(),
{
    let mut s = String::from_str(HELP_TEXT);
    s.append("\n\n*Note: You can also use Slash Commands (/) for all of these!*");
    s
}

/// `s` without any backticks at either end (`trim_matches('`')`).
pub open spec fn strip_backticks(s: Seq<char>) -> Seq<char>
    decreases s.len(),
{
    if s.len() > 0 && s[0] == '`' {
        strip_backticks(s.drop_first())
    } else if s.len() > 0 && s.last() == '`' {
        strip_backticks(s.drop_last())
    } else {
        s
    }
}

/// The lines of `ls` that start with a backtick, backticks stripped from their ends.
pub open spec fn banner_lines(ls: Seq<Seq<char>>) -> Seq<Seq<char>>
    decreases ls.len(),
{
    if ls.len() == 0 {
        Seq::empty()
    } else {
        banner_lines(ls.drop_last()) + if ls.last().len() > 0 && ls.last()[0] == '`' {
            seq![strip_backticks(ls.last())]
        } else {
            Seq::empty()
        }
    }
}

/// The banner printed at start-up: the backtick-quoted lines of `text`, unquoted, one per line.
pub open spec fn banner_text(text: Seq<char>) -> Seq<char> {
    join(banner_lines(lines(text)), seq!['\n'])
}

/// Bounds of `v[lo..hi]` without backticks at either end.
fn backtick_bounds(v: &Vec<char>) -> (r: (usize, usize))
    ensures
        r.0 <= r.1 <= v.len(),
        v@.subrange(r.0 as int, r.1 as int) == strip_backticks(v@),
{
    let n = v.len();
    let mut lo: usize = 0;
    let mut hi: usize = n;
    assert(v@.subrange(0, n as int) =~= v@);
    while lo < hi && (v[lo] == '`' || v[hi - 1] == '`')
        invariant
            lo <= hi <= n == v.len(),
            strip_backticks(v@) == strip_backticks(v@.subrange(lo as int, hi as int)),
        decreases hi - lo,
    {
        if v[lo] == '`' {
            assert(v@.subrange(lo as int, hi as int).drop_first() =~= v@.subrange(lo + 1, hi as int));
            lo = lo + 1;
        } else {
            assert(v@.subrange(lo as int, hi as int).drop_last() =~= v@.subrange(lo as int, hi - 1));
            hi = hi - 1;
        }
    }
    (lo, hi)
}

/// The start-up banner of `text` (see [`banner_text`]).
pub fn banner(text: &str) -> (s: String)
    ensures
        s@ == banner_text(text@),
{
    let v = chars_of(text);
    let ls = split_lines(&v);
    let ghost all = lines(text@);
    let mut picked: Vec<Vec<char>> = Vec::new();
    let mut i: usize = 0;
    assert(all.take(0) =~= Seq::<Seq<char>>::empty());
    while i < ls.len()
        invariant
            i <= ls.len() == all.len(),
            all == lines(text@),
            forall|k: int| 0 <= k < ls@.len() ==> #[trigger] ls@[k]@ == all[k],
            crate::news::views(picked@) == banner_lines(all.take(i as int)),
        decreases ls.len() - i,
    {
        let ghost before = crate::news::views(picked@);
        assert(all.take(i + 1).drop_last() =~= all.take(i as int));
        assert(all.take(i + 1).last() == all[i as int]);
        let line = &ls[i];
        if line.len() > 0 && line[0] == '`' {
            let (lo, hi) = backtick_bounds(line);
            picked.push(crate::text::string_range_vec(line, lo, hi));
            assert(crate::news::views(picked@) =~= before.push(strip_backticks(all[i as int])));
        } else {
            assert(banner_lines(all.take(i + 1)) =~= before);
        }
        i = i + 1;
    }
    assert(all.take(ls.len() as int) =~= all);
    let sep = vec!['\n'];
    assert(sep@ =~= seq!['\n']);
    assert(crate::news::views(picked@).skip(0) =~= crate::news::views(picked@));
    let joined = crate::news::join_parts_from(&picked, 0, &sep);
    string_from_chars(&joined)
}

/// The words that name prefix command `c` after `!`: its name and its aliases.
pub open spec fn prefix_names(c: PrefixCommand, w: Seq<char>) -> bool {
    match c {
        PrefixCommand::Play => w == "play"@ || w == "p"@,
        PrefixCommand::Say => w == "say"@ || w == "s"@,
        PrefixCommand::Sayin => w == "sayin"@ || w == "si"@,
        PrefixCommand::Slop => w == "slop"@ || w == "i"@,
        PrefixCommand::Playlist => w == "playlist"@ || w == "pl"@,
        PrefixCommand::Stop => w == "stop"@ || w == "st"@,
        PrefixCommand::Skip => w == "skip"@ || w == "sk"@,
        PrefixCommand::Leave => w == "leave"@ || w == "l"@ || w == "kys"@,
        PrefixCommand::Llm => w == "llm"@,
        PrefixCommand::Help => w == "help"@ || w == "h"@,
    }
}

/// Each prefix command is named by its own words and by no others: `!skip` and `!sk` skip,
/// `!stop` and `!st` stop, and so on; words of different commands never give the same one.
pub proof fn lemma_prefix_names(w: Seq<char>, c: PrefixCommand)
    ensures
        prefix_command_of(w) == Some(c) <==> prefix_names(c, w),
{
    reveal_strlit("h");
    reveal_strlit("help");
    reveal_strlit("i");
    reveal_strlit("kys");
    reveal_strlit("l");
    reveal_strlit("leave");
    reveal_strlit("llm");
    reveal_strlit("p");
    reveal_strlit("pl");
    reveal_strlit("play");
    reveal_strlit("playlist");
    reveal_strlit("s");
    reveal_strlit("say");
    reveal_strlit("sayin");
    reveal_strlit("si");
    reveal_strlit("sk");
    reveal_strlit("skip");
    reveal_strlit("slop");
    reveal_strlit("st");
    reveal_strlit("stop");
    assert("h"@.len() != "help"@.len());
    assert("h"@[0] != "i"@[0]);
    assert("h"@.len() != "kys"@.len());
    assert("h"@[0] != "l"@[0]);
    assert("h"@.len() != "leave"@.len());
    assert("h"@.len() != "llm"@.len());
    assert("h"@[0] != "p"@[0]);
    assert("h"@.len() != "pl"@.len());
    assert("h"@.len() != "play"@.len());
    assert("h"@.len() != "playlist"@.len());
    assert("h"@[0] != "s"@[0]);
    assert("h"@.len() != "say"@.len());
    assert("h"@.len() != "sayin"@.len());
    assert("h"@.len() != "si"@.len());
    assert("h"@.len() != "sk"@.len());
    assert("h"@.len() != "skip"@.len());
    assert("h"@.len() != "slop"@.len());
    assert("h"@.len() != "st"@.len());
    assert("h"@.len() != "stop"@.len());
    assert("help"@.len() != "i"@.len());
    assert("help"@.len() != "kys"@.len());
    assert("help"@.len() != "l"@.len());
    assert("help"@.len() != "leave"@.len());
    assert("help"@.len() != "llm"@.len());
    assert("help"@.len() != "p"@.len());
    assert("help"@.len() != "pl"@.len());
    assert("help"@[0] != "play"@[0]);
    assert("help"@.len() != "playlist"@.len());
    assert("help"@.len() != "s"@.len());
    assert("help"@.len() != "say"@.len());
    assert("help"@.len() != "sayin"@.len());
    assert("help"@.len() != "si"@.len());
    assert("help"@.len() != "sk"@.len());
    assert("help"@[0] != "skip"@[0]);
    assert("help"@[0] != "slop"@[0]);
    assert("help"@.len() != "st"@.len());
    assert("help"@[0] != "stop"@[0]);
    assert("i"@.len() != "kys"@.len());
    assert("i"@[0] != "l"@[0]);
    assert("i"@.len() != "leave"@.len());
    assert("i"@.len() != "llm"@.len());
    assert("i"@[0] != "p"@[0]);
    assert("i"@.len() != "pl"@.len());
    assert("i"@.len() != "play"@.len());
    assert("i"@.len() != "playlist"@.len());
    assert("i"@[0] != "s"@[0]);
    assert("i"@.len() != "say"@.len());
    assert("i"@.len() != "sayin"@.len());
    assert("i"@.len() != "si"@.len());
    assert("i"@.len() != "sk"@.len());
    assert("i"@.len() != "skip"@.len());
    assert("i"@.len() != "slop"@.len());
    assert("i"@.len() != "st"@.len());
    assert("i"@.len() != "stop"@.len());
    assert("kys"@.len() != "l"@.len());
    assert("kys"@.len() != "leave"@.len());
    assert("kys"@[0] != "llm"@[0]);
    assert("kys"@.len() != "p"@.len());
    assert("kys"@.len() != "pl"@.len());
    assert("kys"@.len() != "play"@.len());
    assert("kys"@.len() != "playlist"@.len());
    assert("kys"@.len() != "s"@.len());
    assert("kys"@[0] != "say"@[0]);
    assert("kys"@.len() != "sayin"@.len());
    assert("kys"@.len() != "si"@.len());
    assert("kys"@.len() != "sk"@.len());
    assert("kys"@.len() != "skip"@.len());
    assert("kys"@.len() != "slop"@.len());
    assert("kys"@.len() != "st"@.len());
    assert("kys"@.len() != "stop"@.len());
    assert("l"@.len() != "leave"@.len());
    assert("l"@.len() != "llm"@.len());
    assert("l"@[0] != "p"@[0]);
    assert("l"@.len() != "pl"@.len());
    assert("l"@.len() != "play"@.len());
    assert("l"@.len() != "playlist"@.len());
    assert("l"@[0] != "s"@[0]);
    assert("l"@.len() != "say"@.len());
    assert("l"@.len() != "sayin"@.len());
    assert("l"@.len() != "si"@.len());
    assert("l"@.len() != "sk"@.len());
    assert("l"@.len() != "skip"@.len());
    assert("l"@.len() != "slop"@.len());
    assert("l"@.len() != "st"@.len());
    assert("l"@.len() != "stop"@.len());
    assert("leave"@.len() != "llm"@.len());
    assert("leave"@.len() != "p"@.len());
    assert("leave"@.len() != "pl"@.len());
    assert("leave"@.len() != "play"@.len());
    assert("leave"@.len() != "playlist"@.len());
    assert("leave"@.len() != "s"@.len());
    assert("leave"@.len() != "say"@.len());
    assert("leave"@[0] != "sayin"@[0]);
    assert("leave"@.len() != "si"@.len());
    assert("leave"@.len() != "sk"@.len());
    assert("leave"@.len() != "skip"@.len());
    assert("leave"@.len() != "slop"@.len());
    assert("leave"@.len() != "st"@.len());
    assert("leave"@.len() != "stop"@.len());
    assert("llm"@.len() != "p"@.len());
    assert("llm"@.len() != "pl"@.len());
    assert("llm"@.len() != "play"@.len());
    assert("llm"@.len() != "playlist"@.len());
    assert("llm"@.len() != "s"@.len());
    assert("llm"@[0] != "say"@[0]);
    assert("llm"@.len() != "sayin"@.len());
    assert("llm"@.len() != "si"@.len());
    assert("llm"@.len() != "sk"@.len());
    assert("llm"@.len() != "skip"@.len());
    assert("llm"@.len() != "slop"@.len());
    assert("llm"@.len() != "st"@.len());
    assert("llm"@.len() != "stop"@.len());
    assert("p"@.len() != "pl"@.len());
    assert("p"@.len() != "play"@.len());
    assert("p"@.len() != "playlist"@.len());
    assert("p"@[0] != "s"@[0]);
    assert("p"@.len() != "say"@.len());
    assert("p"@.len() != "sayin"@.len());
    assert("p"@.len() != "si"@.len());
    assert("p"@.len() != "sk"@.len());
    assert("p"@.len() != "skip"@.len());
    assert("p"@.len() != "slop"@.len());
    assert("p"@.len() != "st"@.len());
    assert("p"@.len() != "stop"@.len());
    assert("pl"@.len() != "play"@.len());
    assert("pl"@.len() != "playlist"@.len());
    assert("pl"@.len() != "s"@.len());
    assert("pl"@.len() != "say"@.len());
    assert("pl"@.len() != "sayin"@.len());
    assert("pl"@[0] != "si"@[0]);
    assert("pl"@[0] != "sk"@[0]);
    assert("pl"@.len() != "skip"@.len());
    assert("pl"@.len() != "slop"@.len());
    assert("pl"@[0] != "st"@[0]);
    assert("pl"@.len() != "stop"@.len());
    assert("play"@.len() != "playlist"@.len());
    assert("play"@.len() != "s"@.len());
    assert("play"@.len() != "say"@.len());
    assert("play"@.len() != "sayin"@.len());
    assert("play"@.len() != "si"@.len());
    assert("play"@.len() != "sk"@.len());
    assert("play"@[0] != "skip"@[0]);
    assert("play"@[0] != "slop"@[0]);
    assert("play"@.len() != "st"@.len());
    assert("play"@[0] != "stop"@[0]);
    assert("playlist"@.len() != "s"@.len());
    assert("playlist"@.len() != "say"@.len());
    assert("playlist"@.len() != "sayin"@.len());
    assert("playlist"@.len() != "si"@.len());
    assert("playlist"@.len() != "sk"@.len());
    assert("playlist"@.len() != "skip"@.len());
    assert("playlist"@.len() != "slop"@.len());
    assert("playlist"@.len() != "st"@.len());
    assert("playlist"@.len() != "stop"@.len());
    assert("s"@.len() != "say"@.len());
    assert("s"@.len() != "sayin"@.len());
    assert("s"@.len() != "si"@.len());
    assert("s"@.len() != "sk"@.len());
    assert("s"@.len() != "skip"@.len());
    assert("s"@.len() != "slop"@.len());
    assert("s"@.len() != "st"@.len());
    assert("s"@.len() != "stop"@.len());
    assert("say"@.len() != "sayin"@.len());
    assert("say"@.len() != "si"@.len());
    assert("say"@.len() != "sk"@.len());
    assert("say"@.len() != "skip"@.len());
    assert("say"@.len() != "slop"@.len());
    assert("say"@.len() != "st"@.len());
    assert("say"@.len() != "stop"@.len());
    assert("sayin"@.len() != "si"@.len());
    assert("sayin"@.len() != "sk"@.len());
    assert("sayin"@.len() != "skip"@.len());
    assert("sayin"@.len() != "slop"@.len());
    assert("sayin"@.len() != "st"@.len());
    assert("sayin"@.len() != "stop"@.len());
    assert("si"@[1] != "sk"@[1]);
    assert("si"@.len() != "skip"@.len());
    assert("si"@.len() != "slop"@.len());
    assert("si"@[1] != "st"@[1]);
    assert("si"@.len() != "stop"@.len());
    assert("sk"@.len() != "skip"@.len());
    assert("sk"@.len() != "slop"@.len());
    assert("sk"@[1] != "st"@[1]);
    assert("sk"@.len() != "stop"@.len());
    assert("skip"@[1] != "slop"@[1]);
    assert("skip"@.len() != "st"@.len());
    assert("skip"@[1] != "stop"@[1]);
    assert("slop"@.len() != "st"@.len());
    assert("slop"@[1] != "stop"@[1]);
    assert("st"@.len() != "stop"@.len());
}

/// The name of slash command `c`.
pub open spec fn slash_names(c: SlashCommand, name: Seq<char>) -> bool {
    match c {
        SlashCommand::Play => name == "play"@,
        SlashCommand::Say => name == "say"@,
        SlashCommand::Sayin => name == "sayin"@,
        SlashCommand::Slop => name == "slop"@,
        SlashCommand::Stop => name == "stop"@,
        SlashCommand::Skip => name == "skip"@,
        SlashCommand::Leave => name == "leave"@,
        SlashCommand::Playlist => name == "playlist"@,
        SlashCommand::Llm => name == "llm"@,
        SlashCommand::Help => name == "help"@,
    }
}

/// Each slash command is named by its own name and by no other.
pub proof fn lemma_slash_names(name: Seq<char>, c: SlashCommand)
    ensures
        slash_command_of(name) == Some(c) <==> slash_names(c, name),
{
    reveal_strlit("help");
    reveal_strlit("leave");
    reveal_strlit("llm");
    reveal_strlit("play");
    reveal_strlit("playlist");
    reveal_strlit("say");
    reveal_strlit("sayin");
    reveal_strlit("skip");
    reveal_strlit("slop");
    reveal_strlit("stop");
    assert("help"@.len() != "leave"@.len());
    assert("help"@.len() != "llm"@.len());
    assert("help"@[0] != "play"@[0]);
    assert("help"@.len() != "playlist"@.len());
    assert("help"@.len() != "say"@.len());
    assert("help"@.len() != "sayin"@.len());
    assert("help"@[0] != "skip"@[0]);
    assert("help"@[0] != "slop"@[0]);
    assert("help"@[0] != "stop"@[0]);
    assert("leave"@.len() != "llm"@.len());
    assert("leave"@.len() != "play"@.len());
    assert("leave"@.len() != "playlist"@.len());
    assert("leave"@.len() != "say"@.len());
    assert("leave"@[0] != "sayin"@[0]);
    assert("leave"@.len() != "skip"@.len());
    assert("leave"@.len() != "slop"@.len());
    assert("leave"@.len() != "stop"@.len());
    assert("llm"@.len() != "play"@.len());
    assert("llm"@.len() != "playlist"@.len());
    assert("llm"@[0] != "say"@[0]);
    assert("llm"@.len() != "sayin"@.len());
    assert("llm"@.len() != "skip"@.len());
    assert("llm"@.len() != "slop"@.len());
    assert("llm"@.len() != "stop"@.len());
    assert("play"@.len() != "playlist"@.len());
    assert("play"@.len() != "say"@.len());
    assert("play"@.len() != "sayin"@.len());
    assert("play"@[0] != "skip"@[0]);
    assert("play"@[0] != "slop"@[0]);
    assert("play"@[0] != "stop"@[0]);
    assert("playlist"@.len() != "say"@.len());
    assert("playlist"@.len() != "sayin"@.len());
    assert("playlist"@.len() != "skip"@.len());
    assert("playlist"@.len() != "slop"@.len());
    assert("playlist"@.len() != "stop"@.len());
    assert("say"@.len() != "sayin"@.len());
    assert("say"@.len() != "skip"@.len());
    assert("say"@.len() != "slop"@.len());
    assert("say"@.len() != "stop"@.len());
    assert("sayin"@.len() != "skip"@.len());
    assert("sayin"@.len() != "slop"@.len());
    assert("sayin"@.len() != "stop"@.len());
    assert("skip"@[1] != "slop"@[1]);
    assert("skip"@[1] != "stop"@[1]);
    assert("slop"@[1] != "stop"@[1]);
}

/// A message `!<word> <rest>` from a person, where the word names a command, is that command
/// with exactly the rest of the text; `!<word>` alone is the command with no text.
pub proof fn lemma_prefix_message(w: Seq<char>, rest: Seq<char>, c: PrefixCommand, k: MessageKind, bare: MessageKind)
    requires
        forall|t: int| 0 <= t < w.len() ==> #[trigger] w[t] != ' ',
        prefix_names(c, w),
        message_kind_ok(false, seq!['!'] + w + seq![' '] + rest, k),
        message_kind_ok(false, seq!['!'] + w, bare),
    ensures
        k matches MessageKind::Command(c2, r) && c2 == c && r@ == rest,
        bare matches MessageKind::Command(c3, r3) && c3 == c && r3@.len() == 0,
{
    lemma_prefix_names(w, c);
    let body = (seq!['!'] + w + seq![' '] + rest).drop_first();
    assert(body =~= w + seq![' '] + rest);
    assert forall|t: int| 0 <= t < w.len() implies !(space_pred())(#[trigger] body[t]) by {
        assert(body[t] == w[t]);
    }
    assert(body[w.len() as int] == ' ');
    lemma_first_where(body, space_pred(), w.len() as int);
    assert(body.take(w.len() as int) =~= w);
    assert(body.skip(w.len() + 1 as int) =~= rest);
    let b2 = (seq!['!'] + w).drop_first();
    assert(b2 =~= w);
    assert forall|t: int| 0 <= t < w.len() implies !(space_pred())(#[trigger] b2[t]) by {}
    lemma_first_where(b2, space_pred(), w.len() as int);
    assert(b2.take(w.len() as int) =~= w);
}

} // verus!

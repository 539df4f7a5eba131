//! The bot's error type and the texts users see for it.
use vstd::prelude::*;

verus! {

/// Everything that can go wrong while serving a command. The first four wrap failures of the
/// Discord client, the music node, the file system and JSON handling, holding their message.
#[derive(Debug)]
pub enum BotError {
    Serenity(String),
    Lavalink(String),
    Io(String),
    SerdeJson(String),
    NotInVoiceChannel,
    NoActivePlayer,
    JoinFailure,
    NoTracksFound,
    PlaylistAlreadyExists,
    PlaylistNotFound,
    MissingGuildId,
    InvalidQuery,
}

/// The full description of an error (its `Display` text).
pub open spec fn error_text(e: BotError) -> Seq<char> {
    match e {
        BotError::Serenity(m) => "Discord error: "@ + m@,
        BotError::Lavalink(m) => "Lavalink error: "@ + m@,
        BotError::Io(m) => "IO error: "@ + m@,
        BotError::SerdeJson(m) => "JSON error: "@ + m@,
        BotError::NotInVoiceChannel => "Not in a voice channel"@,
        BotError::NoActivePlayer => "No active player found for this guild"@,
        BotError::JoinFailure => "Failed to join voice channel"@,
        BotError::NoTracksFound => "No tracks found"@,
        BotError::PlaylistAlreadyExists => "Playlist already exists"@,
        BotError::PlaylistNotFound => "Playlist does not exist"@,
        BotError::MissingGuildId => "Missing guild ID (this command must be used in a server)"@,
        BotError::InvalidQuery => "Invalid query"@,
    }
}

/// What users are told of an error: a fixed sentence for Discord, music-node and file-system
/// failures (their details stay in the logs), the full description otherwise.
pub open spec fn user_message(e: BotError) -> Seq<char> {
    match e {
        BotError::Serenity(_) => "A Discord error occurred."@,
        BotError::Lavalink(_) => "A music player error occurred."@,
        BotError::Io(_) => "A file system error occurred."@,
        _ => error_text(e),
    }
}

/// The reply that reports an error: `Error: ` and the user message.
pub open spec fn error_reply_text(e: BotError) -> Seq<char> {
    "Error: "@ + user_message(e)
}

/// `prefix` followed by `rest`.
fn prefixed(prefix: &str, rest: &str) -> (s: String)
    ensures
        s@ == prefix@ + rest@,
{
    let mut s = String::from_str(prefix);
    s.append(rest);
    s
}

impl BotError {
    /// The full description of the error (see [`error_text`]).
    pub fn display_text(&self) -> (s: String)
        ensures
            s@ == error_text(*self),
    {
        match self {
            BotError::Serenity(m) => prefixed("Discord error: ", m.as_str()),
            BotError::Lavalink(m) => prefixed("Lavalink error: ", m.as_str()),
            BotError::Io(m) => prefixed("IO error: ", m.as_str()),
            BotError::SerdeJson(m) => prefixed("JSON error: ", m.as_str()),
            BotError::NotInVoiceChannel => String::from_str("Not in a voice channel"),
            BotError::NoActivePlayer => String::from_str("No active player found for this guild"),
            BotError::JoinFailure => String::from_str("Failed to join voice channel"),
            BotError::NoTracksFound => String::from_str("No tracks found"),
            BotError::PlaylistAlreadyExists => String::from_str("Playlist already exists"),
            BotError::PlaylistNotFound => String::from_str("Playlist does not exist"),
            BotError::MissingGuildId => String::from_str(
                "Missing guild ID (this command must be used in a server)",
            ),
            BotError::InvalidQuery => String::from_str("Invalid query"),
        }
    }

    /// The message shown to users (see [`user_message`]).
    pub fn to_message(&self) -> (s: String)
        ensures
            s@ == user_message(*self),
    {
        match self {
            BotError::Serenity(_) => String::from_str("A Discord error occurred."),
            BotError::Lavalink(_) => String::from_str("A music player error occurred."),
            BotError::Io(_) => String::from_str("A file system error occurred."),
            _ => self.display_text(),
        }
    }
}

/// The reply that reports `err` (`Error: <message>`).
pub fn error_reply(err: &BotError) -> (s: String)
    ensures
        s@ == error_reply_text(*err),
{
    let m = err.to_message();
    prefixed("Error: ", m.as_str())
}

/// The reply to a command: its success text, or the error reply.
pub fn outcome_reply(outcome: &Result<String, BotError>) -> (s: String)
    ensures
        s@ == match outcome {
            Ok(t) => t@,
            Err(e) => error_reply_text(*e),
        },
{
    match outcome {
        Ok(t) => t.clone(),
        Err(e) => error_reply(e),
    }
}

} // verus!

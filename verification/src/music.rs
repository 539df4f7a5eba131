//! What the music commands decide: which loaded tracks to queue, what to search for, when to
//! join a voice channel, and the texts they answer with.
use vstd::prelude::*;

use crate::error::BotError;
use crate::text::{decimal, push_decimal, push_str_chars, string_from_chars};

verus! {

/// What the music node answered to a load request, with the tracks it found.
pub enum TrackLoad<T> {
    Track(T),
    Playlist(Vec<T>),
    Search(Vec<T>),
    Error,
    Empty,
}

/// The tracks a play request queues: the track, the first search hit, or the whole playlist;
/// `None` when nothing was found.
pub open spec fn play_selection<T>(load: TrackLoad<T>) -> Option<Seq<T>> {
    match load {
        TrackLoad::Track(t) => Some(seq![t]),
        TrackLoad::Search(v) => if v@.len() == 0 {
            None
        } else {
            Some(seq![v@[0]])
        },
        TrackLoad::Playlist(v) => if v@.len() == 0 {
            None
        } else {
            Some(v@)
        },
        _ => None,
    }
}

/// A play request queues the one loaded track, the first search hit, or the whole playlist,
/// and finds nothing in an empty search, an empty playlist, a failed or an empty load.
pub proof fn lemma_play_selection<T>(load: TrackLoad<T>)
    ensures
        load matches TrackLoad::Track(t) ==> play_selection(load) == Some(seq![t]),
        load matches TrackLoad::Search(v) ==> play_selection(load) == if v@.len() > 0 {
            Some(seq![v@[0]])
        } else {
            None
        },
        load matches TrackLoad::Playlist(v) ==> play_selection(load) == if v@.len() > 0 {
            Some(v@)
        } else {
            None
        },
        (load is Error || load is Empty) ==> play_selection(load) is None,
        play_selection(load) matches Some(s) ==> s.len() > 0,
{
}

/// The tracks to queue for a play request (see [`play_selection`]); `NoTracksFound` when
/// there are none.
pub fn tracks_to_play<T>(load: TrackLoad<T>) -> (r: Result<Vec<T>, BotError>)
    ensures
        match play_selection(load) {
            Some(s) => r matches Ok(v) && v@ == s,
            None => r matches Err(BotError::NoTracksFound),
        },
{
    match load {
        TrackLoad::Track(t) => {
            let mut v = Vec::new();
            v.push(t);
            Ok(v)
        },
        TrackLoad::Search(mut v) => {
            if v.len() == 0 {
                Err(BotError::NoTracksFound)
            } else {
                let first = v.swap_remove(0);
                let mut r = Vec::new();
                r.push(first);
                Ok(r)
            }
        },
        TrackLoad::Playlist(v) => {
            if v.len() == 0 {
                Err(BotError::NoTracksFound)
            } else {
                Ok(v)
            }
        },
        _ => Err(BotError::NoTracksFound),
    }
}

/// The tracks one playlist entry adds: as for a play request, except that an empty playlist
/// adds nothing instead of failing; `None` when the entry is skipped.
pub open spec fn entry_selection<T>(load: TrackLoad<T>) -> Option<Seq<T>> {
    match load {
        TrackLoad::Track(t) => Some(seq![t]),
        TrackLoad::Search(v) => if v@.len() == 0 {
            None
        } else {
            Some(seq![v@[0]])
        },
        TrackLoad::Playlist(v) => Some(v@),
        _ => None,
    }
}

/// A stored playlist entry queues what a play request for it would queue: the loaded track,
/// the first search hit, or every track of a non-empty playlist; beyond that, an empty
/// playlist adds nothing instead of failing, and an entry is skipped only when nothing was
/// found.
pub proof fn lemma_entry_agrees_with_play<T>(load: TrackLoad<T>)
    ensures
        play_selection(load) matches Some(s) ==> entry_selection(load) == Some(s),
        load matches TrackLoad::Track(t) ==> entry_selection(load) == Some(seq![t]),
        load matches TrackLoad::Playlist(v) ==> entry_selection(load) == Some(v@),
        entry_selection(load) is None <==> play_selection(load) is None && !(load is Playlist),
{
}

/// The tracks a stored playlist entry adds (see [`entry_selection`]).
pub fn tracks_for_entry<T>(load: TrackLoad<T>) -> (r: Option<Vec<T>>)
    ensures
        match entry_selection(load) {
            Some(s) => r matches Some(v) && v@ == s,
            None => r is None,
        },
{
    match load {
        TrackLoad::Track(t) => {
            let mut v = Vec::new();
            v.push(t);
            Some(v)
        },
        TrackLoad::Search(mut v) => {
            if v.len() == 0 {
                None
            } else {
                let first = v.swap_remove(0);
                let mut r = Vec::new();
                r.push(first);
                Some(r)
            }
        },
        TrackLoad::Playlist(v) => Some(v),
        _ => None,
    }
}

/// The track a text-to-speech request plays: only a single loaded track will do.
pub fn tts_track<T>(load: TrackLoad<T>) -> (r: Result<Vec<T>, BotError>)
    ensures
        match load {
            TrackLoad::Track(t) => r matches Ok(v) && v@ == seq![t],
            _ => r matches Err(BotError::NoTracksFound),
        },
{
    match load {
        TrackLoad::Track(t) => {
            let mut v = Vec::new();
            v.push(t);
            Ok(v)
        },
        _ => Err(BotError::NoTracksFound),
    }
}

/// Whether `s` starts with `p`.
pub open spec fn has_prefix(s: Seq<char>, p: Seq<char>) -> bool {
    p.len() <= s.len() && s.take(p.len() as int) == p
}

/// What a play request searches for: a link as it is, anything else as a YouTube search.
pub open spec fn search_query_text(q: Seq<char>) -> Seq<char> {
    if has_prefix(q, "http"@) {
        q
    } else {
        "ytsearch:"@ + q
    }
}

/// Lavalink's YouTube search query for `term` (`SearchEngines::YouTube.to_query`): the
/// source builds `ytsearch:` followed by the term and never fails for this engine.
#[verifier::external_body]
fn youtube_query(term: &str) -> (q: Option<String>)
    ensures
        q.is_some(),
        q.unwrap()@ == "ytsearch:"@ + term@,
{
    lavalink_rs::prelude::SearchEngines::YouTube.to_query(term).ok()
}

/// The query sent to the music node for `query` (see [`search_query_text`]).
pub fn search_query(query: &str) -> (r: Result<String, BotError>)
    ensures
        r matches Ok(s) && s@ == search_query_text(query@),
{
    let v = crate::text::chars_of(query);
    let http = crate::text::chars_of("http");
    let is_link = v.len() >= http.len() && crate::text::matches_at(&v, 0, &http);
    proof {
        if is_link {
            assert(v@.subrange(0, http@.len() as int) == v@.take(http@.len() as int));
        } else if http@.len() <= v@.len() {
            assert(v@.subrange(0, http@.len() as int) == v@.take(http@.len() as int));
        }
    }
    if is_link {
        Ok(String::from_str(query))
    } else {
        match youtube_query(query) {
            Some(q) => Ok(q),
            None => Err(BotError::InvalidQuery),
        }
    }
}

/// Whether the bot must (re)join: it is in no voice channel, in another one than the
/// requester, or has no player for the server.
pub open spec fn must_join(bot_channel: Option<u64>, target: u64, has_player: bool) -> bool {
    match bot_channel {
        Some(c) => c != target || !has_player,
        None => true,
    }
}

/// Whether to join the requester's voice channel (see [`must_join`]).
pub fn should_join(bot_channel: Option<u64>, target: u64, has_player: bool) -> (r: bool)
    ensures
        r == must_join(bot_channel, target, has_player),
{
    match bot_channel {
        Some(c) => c != target || !has_player,
        None => true,
    }
}

/// After queuing, playback is started when nothing plays and the queue has a track.
pub fn should_start_playback(track_playing: bool, queue_has_track: bool) -> (r: bool)
    ensures
        r == (!track_playing && queue_has_track),
{
    !track_playing && queue_has_track
}

/// The answer to a successful play request.
pub open spec fn play_reply_text(has_joined: bool) -> Seq<char> {
    if has_joined {
        "Joined and added to queue"@
    } else {
        "Added to queue"@
    }
}

/// The answer to a successful play request (see [`play_reply_text`]).
pub fn play_reply(has_joined: bool) -> (s: String)
    ensures
        s@ == play_reply_text(has_joined),
{
    if has_joined {
        String::from_str("Joined and added to queue")
    } else {
        String::from_str("Added to queue")
    }
}

/// The answer to a successful stop.
pub const STOPPED_REPLY: &'static str = "Stopped and cleared queue";

/// The answer to a successful skip.
pub const SKIPPED_REPLY: &'static str = "Skipped";

/// The answer to a successful leave.
pub const LEFT_REPLY: &'static str = "Disconnected from voice channel";

/// The answer to a play command without a search term.
pub const MISSING_TERM_REPLY: &'static str = "Please provide a search term or URL";

/// Seconds with two digits.
pub open spec fn two_digits(n: nat) -> Seq<char> {
    if n < 10 {
        seq!['0'] + decimal(n)
    } else {
        decimal(n)
    }
}

/// A track length of `ms` milliseconds as `minutes:seconds`, seconds with two digits.
pub open spec fn length_text(ms: nat) -> Seq<char> {
    decimal(ms / 60000) + seq![':'] + two_digits((ms / 1000) % 60)
}

/// The length of a track (see [`length_text`]).
pub fn format_length(ms: u64) -> (s: String)
    ensures
        s@ == length_text(ms as nat),
{
    let mut v: Vec<char> = Vec::new();
    push_decimal(&mut v, ms / 60000);
    v.push(':');
    let secs = (ms / 1000) % 60;
    if secs < 10 {
        v.push('0');
    }
    push_decimal(&mut v, secs);
    assert(v@ =~= length_text(ms as nat));
    string_from_chars(&v)
}

/// The "now playing" description: the title linked to the track's address (empty when it
/// has none).
pub open spec fn now_playing_text(title: Seq<char>, uri: Option<Seq<char>>) -> Seq<char> {
    seq!['['] + title + "]("@ + match uri {
        Some(u) => u,
        None => Seq::empty(),
    } + seq![')']
}

/// The "now playing" description (see [`now_playing_text`]).
pub fn now_playing_description(title: &str, uri: Option<&str>) -> (s: String)
    ensures
        s@ == now_playing_text(title@, match uri {
            Some(u) => Some(u@),
            None => None,
        }),
{
    let mut v: Vec<char> = Vec::new();
    v.push('[');
    push_str_chars(&mut v, title);
    push_str_chars(&mut v, "](");
    match uri {
        Some(u) => push_str_chars(&mut v, u),
        None => {},
    }
    v.push(')');
    proof {
        match uri {
            Some(u) => {},
            None => {
                assert(v@ =~= now_playing_text(title@, None));
            },
        }
    }
    string_from_chars(&v)
}

/// Who asked for a track: their display name in the server, else their user id.
pub open spec fn requester_text(display_name: Option<Seq<char>>, user_id: u64) -> Seq<char> {
    "Requested by: "@ + match display_name {
        Some(n) => n,
        None => decimal(user_id as nat),
    }
}

/// The footer naming who asked for a track (see [`requester_text`]).
pub fn requester_footer(display_name: Option<&str>, user_id: u64) -> (s: String)
    ensures
        s@ == requester_text(match display_name {
            Some(n) => Some(n@),
            None => None,
        }, user_id),
{
    let mut v: Vec<char> = Vec::new();
    push_str_chars(&mut v, "Requested by: ");
    match display_name {
        Some(n) => push_str_chars(&mut v, n),
        None => push_decimal(&mut v, user_id),
    }
    string_from_chars(&v)
}

/// The message posted when a track fails to play.
pub open spec fn playback_error_text(title: Seq<char>, cause: Seq<char>) -> Seq<char> {
    "❌ **Playback Error**\nSomething went wrong while playing: `"@ + title + "`\nError: `"@ + cause
        + seq!['`']
}

/// The message posted when a track fails to play (see [`playback_error_text`]).
pub fn playback_error_message(title: &str, cause: &str) -> (s: String)
    ensures
        s@ == playback_error_text(title@, cause@),
{
    let mut v: Vec<char> = Vec::new();
    push_str_chars(&mut v, "❌ **Playback Error**\nSomething went wrong while playing: `");
    push_str_chars(&mut v, title);
    push_str_chars(&mut v, "`\nError: `");
    push_str_chars(&mut v, cause);
    v.push('`');
    string_from_chars(&v)
}

} // verus!

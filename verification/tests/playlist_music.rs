use omnissiatac::error::BotError;
use omnissiatac::music::{
    format_length, now_playing_description, play_reply, playback_error_message, requester_footer,
    search_query, should_join, should_start_playback, tracks_for_entry, tracks_to_play, tts_track,
    TrackLoad,
};
use omnissiatac::playlist::{
    added_reply, addresses_for_add, created_reply, entries_from_lines, get_playlist_path, list_reply, parse_playlist,
    parse_playlist_prefix, parse_playlist_slash, playlist_lines, playlist_name, queued_reply,
    PlaylistCommand, PLAYLISTS_DIR,
};
use omnissiatac::commands::CommandOption;

fn opt(name: &str, value: Option<&str>) -> CommandOption {
    CommandOption { name: name.to_string(), value: value.map(|v| v.to_string()) }
}

#[test]
fn playlist_path_format() {
    assert_eq!(get_playlist_path("rock"), "playlists/rock.txt");
    assert_eq!(PLAYLISTS_DIR, "playlists");
}

#[test]
fn playlist_file_round_trip() {
    let uris = vec!["https://a/1".to_string(), "https://b/2".to_string()];
    let written = playlist_lines(&uris);
    assert_eq!(written, "https://a/1\nhttps://b/2\n");
    assert_eq!(parse_playlist(&written), uris);
    let existing = "https://x\n";
    let mut combined = existing.to_string();
    combined.push_str(&written);
    assert_eq!(parse_playlist(&combined), vec!["https://x", "https://a/1", "https://b/2"]);
    assert!(parse_playlist("").is_empty());
}

#[test]
fn playlist_parse_trims_and_skips_blank() {
    assert_eq!(parse_playlist("  a  \n\n\t\r\nb\r\n"), vec!["a", "b"]);
}

#[test]
fn prefix_playlist_commands() {
    assert!(matches!(parse_playlist_prefix(""), PlaylistCommand::Reply(m) if m == "Usage: `!playlist <create|add|play|list> [args]`"));
    assert!(matches!(parse_playlist_prefix("create"), PlaylistCommand::Reply(m) if m == "Usage: `!playlist create <name>`"));
    assert!(matches!(parse_playlist_prefix("c  mix"), PlaylistCommand::Create(n) if n == "mix"));
    assert!(matches!(parse_playlist_prefix("add mix"), PlaylistCommand::Reply(m) if m == "Usage: `!playlist add <name> <query>`"));
    assert!(matches!(parse_playlist_prefix("a mix never  gonna\tgive"), PlaylistCommand::Add(n, q) if n == "mix" && q == "never gonna give"));
    assert!(matches!(parse_playlist_prefix("play"), PlaylistCommand::Reply(m) if m == "Usage: `!playlist play <name>`"));
    assert!(matches!(parse_playlist_prefix("p mix"), PlaylistCommand::Play(n) if n == "mix"));
    assert!(matches!(parse_playlist_prefix("ls"), PlaylistCommand::List));
    assert!(matches!(parse_playlist_prefix("list extra"), PlaylistCommand::List));
    assert!(matches!(parse_playlist_prefix("remove x"), PlaylistCommand::Reply(m) if m == "Unknown playlist command. Use `!playlist <create|add|play|list>`"));
}

#[test]
fn slash_playlist_commands() {
    let opts = vec![opt("query", Some("song")), opt("name", Some("mix"))];
    assert!(matches!(parse_playlist_slash("add", &opts), Some(PlaylistCommand::Add(n, q)) if n == "mix" && q == "song"));
    assert!(matches!(parse_playlist_slash("create", &opts), Some(PlaylistCommand::Create(n)) if n == "song"));
    assert!(matches!(parse_playlist_slash("play", &vec![]), Some(PlaylistCommand::Play(n)) if n.is_empty()));
    assert!(matches!(parse_playlist_slash("add", &vec![opt("name", None)]), Some(PlaylistCommand::Add(n, q)) if n.is_empty() && q.is_empty()));
    assert!(matches!(parse_playlist_slash("list", &opts), Some(PlaylistCommand::List)));
    assert!(parse_playlist_slash("delete", &opts).is_none());
}

#[test]
fn playlist_names_from_files() {
    assert_eq!(playlist_name("mix.txt"), Some("mix".to_string()));
    assert_eq!(playlist_name("a.b.txt"), Some("a.b".to_string()));
    assert_eq!(playlist_name(".txt"), None);
    assert_eq!(playlist_name("mix.json"), None);
    assert_eq!(playlist_name("txt"), None);
}

#[test]
fn playlist_replies() {
    assert_eq!(created_reply("mix"), "Playlist 'mix' created");
    assert_eq!(added_reply(3, "mix"), "Added 3 track(s) to playlist 'mix'");
    assert_eq!(list_reply(&vec![]), "No playlists found");
    assert_eq!(list_reply(&vec!["a".to_string(), "b".to_string()]), "Available playlists:\na\nb");
    assert_eq!(queued_reply(12), "Added 12 tracks from playlist to queue");
}

#[test]
fn addresses_of_loaded_tracks() {
    let r = addresses_for_add(&TrackLoad::Playlist(vec![Some("u1".to_string()), None, Some("u2".to_string())]));
    assert_eq!(r.unwrap(), vec!["u1", "u2"]);
    let r = addresses_for_add(&TrackLoad::Search(vec![Some("s1".to_string()), Some("s2".to_string())]));
    assert_eq!(r.unwrap(), vec!["s1"]);
    assert!(matches!(addresses_for_add(&TrackLoad::Track(None)), Err(BotError::NoTracksFound)));
    assert!(matches!(addresses_for_add(&TrackLoad::Search(vec![])), Err(BotError::NoTracksFound)));
    assert!(matches!(addresses_for_add(&TrackLoad::Empty), Err(BotError::NoTracksFound)));
    assert!(matches!(addresses_for_add(&TrackLoad::Error), Err(BotError::NoTracksFound)));
}

#[test]
fn tracks_chosen_for_play() {
    assert_eq!(tracks_to_play(TrackLoad::Track(1)).unwrap(), vec![1]);
    assert_eq!(tracks_to_play(TrackLoad::Search(vec![5, 6])).unwrap(), vec![5]);
    assert_eq!(tracks_to_play(TrackLoad::Playlist(vec![1, 2, 3])).unwrap(), vec![1, 2, 3]);
    assert!(matches!(tracks_to_play(TrackLoad::<u8>::Playlist(vec![])), Err(BotError::NoTracksFound)));
    assert!(matches!(tracks_to_play(TrackLoad::<u8>::Search(vec![])), Err(BotError::NoTracksFound)));
    assert!(matches!(tracks_to_play(TrackLoad::<u8>::Error), Err(BotError::NoTracksFound)));
    assert_eq!(tracks_for_entry(TrackLoad::<u8>::Playlist(vec![])), Some(vec![]));
    assert_eq!(tracks_for_entry(TrackLoad::<u8>::Search(vec![])), None);
    assert_eq!(tracks_for_entry(TrackLoad::<u8>::Empty), None);
    assert_eq!(tts_track(TrackLoad::Track(9)).unwrap(), vec![9]);
    assert!(matches!(tts_track(TrackLoad::Search(vec![9])), Err(BotError::NoTracksFound)));
}

#[test]
fn search_queries() {
    assert_eq!(search_query("https://youtu.be/x").unwrap(), "https://youtu.be/x");
    assert_eq!(search_query("never gonna give you up").unwrap(), "ytsearch:never gonna give you up");
    assert_eq!(search_query("htt").unwrap(), "ytsearch:htt");
}

#[test]
fn join_and_start_decisions() {
    assert!(should_join(None, 5, true));
    assert!(should_join(Some(4), 5, true));
    assert!(should_join(Some(5), 5, false));
    assert!(!should_join(Some(5), 5, true));
    assert!(should_start_playback(false, true));
    assert!(!should_start_playback(true, true));
    assert!(!should_start_playback(false, false));
    assert_eq!(play_reply(true), "Joined and added to queue");
    assert_eq!(play_reply(false), "Added to queue");
}

#[test]
fn now_playing_texts() {
    assert_eq!(format_length(185_000), "3:05");
    assert_eq!(format_length(59_999), "0:59");
    assert_eq!(format_length(3_600_000), "60:00");
    assert_eq!(now_playing_description("Song", Some("https://x")), "[Song](https://x)");
    assert_eq!(now_playing_description("Song", None), "[Song]()");
    assert_eq!(requester_footer(Some("Ann"), 42), "Requested by: Ann");
    assert_eq!(requester_footer(None, 42), "Requested by: 42");
    assert_eq!(
        playback_error_message("Song", "boom"),
        "❌ **Playback Error**\nSomething went wrong while playing: `Song`\nError: `boom`"
    );
}

#[test]
fn entries_from_read_lines() {
    let lines: Vec<String> = vec!["  https://a ", "", "\t", "https://b\r"]
        .into_iter()
        .map(String::from)
        .collect();
    assert_eq!(entries_from_lines(&lines), vec!["https://a", "https://b"]);
    assert!(entries_from_lines(&Vec::new()).is_empty());
}

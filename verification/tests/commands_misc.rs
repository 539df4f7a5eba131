use omnissiatac::commands::{
    banner, classify_message, conversation_prompt, has_option, llm_reset_requested,
    prefix_help_text, slash_command, CommandOption, MessageKind, PrefixCommand, SlashCommand,
    HELP_TEXT,
};
use omnissiatac::config::{node_address, parse_port, Config};
use omnissiatac::error::{error_reply, outcome_reply, BotError};
use omnissiatac::inactivity::InactivityTracker;
use omnissiatac::llm::{auth_header, chat_url, conversation_for, record_answer, system_prompt_for, ChatHistories, ChatMessage};
use omnissiatac::config::OllamaConfig;
use omnissiatac::tts::{lang_to_iso639_1, parse_sayin, parse_slash_sayin, tts_language, tts_reply, tts_url};
use omnissiatac::web::{change_password_request, login_outcome, login_status};

fn ollama(prompt: Option<&str>, key: Option<&str>) -> OllamaConfig {
    OllamaConfig {
        base_url: "http://llm:11434".to_string(),
        model: "m".to_string(),
        api_key: key.map(|k| k.to_string()),
        system_prompt: prompt.map(|p| p.to_string()),
    }
}

#[test]
fn message_classification() {
    assert!(matches!(classify_message(true, "!play x"), MessageKind::Ignore));
    assert!(matches!(classify_message(false, "!play never gonna"), MessageKind::Command(PrefixCommand::Play, r) if r == "never gonna"));
    assert!(matches!(classify_message(false, "!kys"), MessageKind::Command(PrefixCommand::Leave, r) if r.is_empty()));
    assert!(matches!(classify_message(false, "!si it ciao"), MessageKind::Command(PrefixCommand::Sayin, r) if r == "it ciao"));
    assert!(matches!(classify_message(false, "!pl  a x"), MessageKind::Command(PrefixCommand::Playlist, r) if r == " a x"));
    assert!(matches!(classify_message(false, "!dance"), MessageKind::Ignore));
    assert!(matches!(classify_message(false, "!"), MessageKind::Ignore));
    assert!(matches!(classify_message(false, "hello"), MessageKind::Conversation));
}

#[test]
fn llm_and_slash_names() {
    assert!(llm_reset_requested("reset"));
    assert!(llm_reset_requested("r"));
    assert!(!llm_reset_requested("reset now"));
    assert_eq!(slash_command("playlist"), Some(SlashCommand::Playlist));
    assert_eq!(slash_command("news"), None);
    let opts = vec![CommandOption { name: "reset".to_string(), value: None }];
    assert!(has_option(&opts, "reset"));
    assert!(!has_option(&vec![], "reset"));
}

#[test]
fn mention_prompt_extraction() {
    assert_eq!(conversation_prompt("<@123> what is   up? <@!123>", 123), "what is   up?");
    assert_eq!(conversation_prompt("  <@123>  ", 123), "");
    assert_eq!(conversation_prompt("<@124> hi", 123), "<@124> hi");
}

#[test]
fn help_and_banner() {
    assert!(prefix_help_text().ends_with("\n\n*Note: You can also use Slash Commands (/) for all of these!*"));
    assert!(prefix_help_text().starts_with(HELP_TEXT));
    let b = banner(HELP_TEXT);
    let expected: Vec<&str> = HELP_TEXT.lines().filter(|l| l.starts_with('`')).map(|l| l.trim_matches('`')).collect();
    assert_eq!(b, expected.join("\n"));
    assert_eq!(b.lines().count(), 6);
}

#[test]
fn error_messages() {
    assert_eq!(BotError::Serenity("x".into()).to_message(), "A Discord error occurred.");
    assert_eq!(BotError::Lavalink("x".into()).to_message(), "A music player error occurred.");
    assert_eq!(BotError::Io("x".into()).to_message(), "A file system error occurred.");
    assert_eq!(BotError::SerdeJson("bad".into()).to_message(), "JSON error: bad");
    assert_eq!(BotError::NotInVoiceChannel.to_message(), "Not in a voice channel");
    assert_eq!(BotError::NoActivePlayer.to_message(), "No active player found for this guild");
    assert_eq!(BotError::JoinFailure.to_message(), "Failed to join voice channel");
    assert_eq!(BotError::NoTracksFound.to_message(), "No tracks found");
    assert_eq!(BotError::PlaylistAlreadyExists.to_message(), "Playlist already exists");
    assert_eq!(BotError::PlaylistNotFound.to_message(), "Playlist does not exist");
    assert_eq!(BotError::MissingGuildId.to_message(), "Missing guild ID (this command must be used in a server)");
    assert_eq!(BotError::InvalidQuery.to_message(), "Invalid query");
    assert_eq!(BotError::Io("disk".into()).display_text(), "IO error: disk");
    assert_eq!(error_reply(&BotError::NoTracksFound), "Error: No tracks found");
    assert_eq!(outcome_reply(&Ok("Skipped".to_string())), "Skipped");
    assert_eq!(outcome_reply(&Err(BotError::Serenity("x".into()))), "Error: A Discord error occurred.");
}

#[test]
fn ports_and_addresses() {
    assert_eq!(parse_port("2333"), Some(2333));
    assert_eq!(parse_port("+80"), Some(80));
    assert_eq!(parse_port("0065535"), Some(65535));
    assert_eq!(parse_port("65536"), None);
    assert_eq!(parse_port("99999999999"), None);
    assert_eq!(parse_port(""), None);
    assert_eq!(parse_port("+"), None);
    assert_eq!(parse_port("-1"), None);
    assert_eq!(parse_port(" 80"), None);
    for s in ["0", "123", "+7", "70000", "1a", "++1"] {
        assert_eq!(parse_port(s), s.parse::<u16>().ok(), "{}", s);
    }
    assert_eq!(node_address("localhost", 2333), "localhost:2333");
}

#[test]
fn password_set_then_verify() {
    let h = Config::set_password("hunter2").expect("hashing works");
    assert!(Config::verify_password(Some(&h), "hunter2"));
    assert!(!Config::verify_password(Some(&h), "hunter3"));
    assert!(!Config::verify_password(None, "hunter2"));
    assert!(!Config::verify_password(Some("not a hash"), "hunter2"));
}

#[test]
fn web_password_decisions() {
    assert_eq!(change_password_request(""), Err(400));
    let h = change_password_request("s3cret").expect("hash");
    assert_eq!(login_status(Some(&h), "s3cret"), 200);
    assert_eq!(login_status(Some(&h), "wrong"), 401);
    assert_eq!(login_status(None, "s3cret"), 401);
}

#[test]
fn idle_tracking() {
    let mut t = InactivityTracker::new();
    assert!(!t.observe(1, true, 1_000, 30));
    assert_eq!(t.idle_since(1), Some(1_000));
    assert!(!t.observe(1, true, 30_999, 30));
    assert!(t.observe(1, true, 31_000, 30));
    assert!(!t.observe(1, false, 40_000, 30));
    assert_eq!(t.idle_since(1), None);
    t.mark_idle(2, 5);
    assert_eq!(t.idle_since(2), Some(5));
    t.clear(2);
    assert_eq!(t.idle_since(2), None);
    assert!(t.observe(3, true, 7, 0));
}

#[test]
fn chat_conversations() {
    let cfg = ollama(Some("You are [BOT_NAME]."), Some(""));
    let msgs = conversation_for(&cfg, "hi", None);
    assert_eq!(msgs.len(), 2);
    assert_eq!((msgs[0].role.as_str(), msgs[0].content.as_str()), ("system", "You are [BOT_NAME]."));
    assert_eq!((msgs[1].role.as_str(), msgs[1].content.as_str()), ("user", "hi"));
    let msgs2 = conversation_for(&ollama(None, None), "again", Some(msgs));
    assert_eq!(msgs2.len(), 3);
    assert_eq!(msgs2[2].content, "again");
    assert_eq!(conversation_for(&ollama(None, None), "x", None)[0].content, "");
    assert_eq!(chat_url(&cfg), "http://llm:11434/api/chat");
    assert_eq!(auth_header(&cfg), None);
    assert_eq!(auth_header(&ollama(None, Some("k"))), Some("Bearer k".to_string()));
    assert_eq!(auth_header(&ollama(None, None)), None);
    let (text, all) = record_answer(msgs2, ChatMessage { role: "assistant".into(), content: "ok".into() });
    assert_eq!(text, "ok");
    assert_eq!(all.len(), 4);
    assert_eq!(system_prompt_for(&cfg, "Omni"), Some("You are Omni.".to_string()));
    assert_eq!(system_prompt_for(&ollama(None, None), "Omni"), None);
    let mut h = ChatHistories::new();
    h.store(9, all);
    assert_eq!(h.get(9).map(|v| v.len()), Some(4));
    h.reset(9);
    assert!(h.get(9).is_none());
}

#[test]
fn speech_languages_and_urls() {
    assert_eq!(lang_to_iso639_1("eng"), "en");
    assert_eq!(lang_to_iso639_1("cmn"), "zh");
    assert_eq!(lang_to_iso639_1("jav"), "jw");
    assert_eq!(lang_to_iso639_1("lat"), "la");
    assert_eq!(lang_to_iso639_1("spa"), "es");
    assert_eq!(lang_to_iso639_1("xyz"), "en");
    assert_eq!(tts_language(Some("ita")), "it");
    assert_eq!(tts_language(None), "en");
    assert_eq!(
        tts_url("en", "hello world! é~"),
        "https://translate.google.com/translate_tts?ie=UTF-8&client=tw-ob&tl=en&q=hello%20world%21%20%C3%A9~"
    );
    assert_eq!(tts_reply("fr"), "Playing TTS (lang: fr)");
}

#[test]
fn sayin_arguments() {
    assert_eq!(parse_sayin("it ciao bella"), Some(("it".to_string(), "ciao bella".to_string())));
    assert_eq!(parse_sayin(" x"), Some(("".to_string(), "x".to_string())));
    assert_eq!(parse_sayin("it"), None);
    let opts = vec![
        CommandOption { name: "text".into(), value: Some("ciao".into()) },
        CommandOption { name: "lang".into(), value: Some("it".into()) },
    ];
    assert_eq!(parse_slash_sayin(&opts), Some(("it".to_string(), "ciao".to_string())));
    let missing = vec![CommandOption { name: "lang".into(), value: Some("it".into()) }];
    assert_eq!(parse_slash_sayin(&missing), None);
}

#[test]
fn reset_forgets_only_its_channel() {
    let msg = |c: &str| ChatMessage { role: "user".to_string(), content: c.to_string() };
    let mut h = ChatHistories::new();
    h.store(1, vec![msg("one")]);
    h.store(2, vec![msg("two"), msg("more")]);
    h.reset(1);
    assert!(h.get(1).is_none());
    assert_eq!(h.get(2).map(|v| v[1].content.clone()), Some("more".to_string()));
    h.store(2, vec![msg("new")]);
    assert_eq!(h.get(2).map(|v| v.len()), Some(1));
}

#[test]
fn login_gives_a_day_long_token() {
    let h = change_password_request("s3cret").expect("hash");
    assert_eq!(login_outcome(Some(&h), "wrong", "key", 1_000), Err(401));
    assert_eq!(login_outcome(None, "s3cret", "key", 1_000), Err(401));
    let token = login_outcome(Some(&h), "s3cret", "key", 1_000).expect("token");
    let mut validation = jsonwebtoken::Validation::default();
    validation.validate_exp = false;
    let data = jsonwebtoken::decode::<std::collections::BTreeMap<String, u64>>(
        &token,
        &jsonwebtoken::DecodingKey::from_secret(b"key"),
        &validation,
    )
    .expect("valid token");
    assert_eq!(data.claims.get("exp"), Some(&87_400));
    assert!(jsonwebtoken::decode::<std::collections::BTreeMap<String, u64>>(
        &token,
        &jsonwebtoken::DecodingKey::from_secret(b"other"),
        &validation,
    )
    .is_err());
}

#[test]
fn every_detected_language_has_its_own_code() {
    let mut seen = std::collections::BTreeMap::new();
    for lang in whatlang::Lang::all() {
        let iso = lang_to_iso639_1(lang.code());
        assert_eq!(iso.len(), 2, "{:?}", lang);
        if let Some(other) = seen.insert(iso, lang.code()) {
            panic!("{} and {} both give {}", other, lang.code(), iso);
        }
    }
    assert_eq!(seen.get("en"), Some(&"eng"));
    assert_eq!(seen.get("es"), Some(&"spa"));
}

#[test]
fn password_change_outcomes() {
    assert_eq!(change_password_request(""), Err(400));
    let h = change_password_request("x").expect("a non-empty password is hashed");
    assert!(Config::verify_password(Some(&h), "x"));
}

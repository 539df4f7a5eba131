use omnissiatac::news::{
    commentary_prompt, gather_items, news_digest, news_failure_reply, news_reply_messages, order_by_recency,
    split_message, strip_html, NewsItem, NewsReport, COMMENTARY_FALLBACK,
};
use omnissiatac::text::{chars_of, decimal_string, replace_chars, split_lines, split_whitespace, trim_str};

fn item(title: Option<&str>, published: Option<(i64, u32)>, updated: Option<(i64, u32)>) -> NewsItem {
    NewsItem {
        title: title.map(|t| t.to_string()),
        summary: None,
        content: None,
        published,
        updated,
    }
}

#[test]
fn decimal_of_numbers() {
    assert_eq!(decimal_string(0), "0");
    assert_eq!(decimal_string(7), "7");
    assert_eq!(decimal_string(10), "10");
    assert_eq!(decimal_string(12345), "12345");
    assert_eq!(decimal_string(u64::MAX), "18446744073709551615");
}

#[test]
fn trim_removes_unicode_space() {
    assert_eq!(trim_str("  \t hello world \n\u{3000}"), "hello world");
    assert_eq!(trim_str("   "), "");
    assert_eq!(trim_str(""), "");
}

#[test]
fn whitespace_words() {
    let w = split_whitespace(&chars_of("  a  bc\td \n"));
    let words: Vec<String> = w.iter().map(|v| v.iter().collect()).collect();
    assert_eq!(words, vec!["a", "bc", "d"]);
    assert!(split_whitespace(&chars_of("   ")).is_empty());
}

#[test]
fn lines_like_str_lines() {
    for s in ["", "a", "a\n", "a\r\nb", "\n", "a\n\nb\n", "x\r", "a\rb\n"] {
        let got: Vec<String> = split_lines(&chars_of(s)).iter().map(|v| v.iter().collect()).collect();
        let want: Vec<String> = s.lines().map(|l| l.to_string()).collect();
        assert_eq!(got, want, "lines of {:?}", s);
    }
}

#[test]
fn replace_like_str_replace() {
    for (s, from, to) in [("a<@1>b<@1>", "<@1>", ""), ("aaaa", "aa", "b"), ("xyz", "q", "r"), ("[BOT_NAME] is [BOT_NAME]", "[BOT_NAME]", "Bot")] {
        let got: String = replace_chars(&chars_of(s), &chars_of(from), &chars_of(to)).iter().collect();
        assert_eq!(got, s.replace(from, to));
    }
}

#[test]
fn strip_html_removes_tags_and_collapses_space() {
    assert_eq!(strip_html("<p>Hello <b>world</b></p>\n   and  more"), "Hello world and more");
    assert_eq!(strip_html("a > b < c"), "a b");
    assert_eq!(strip_html(""), "");
    assert_eq!(strip_html("<br/>"), "");
}

#[test]
fn split_message_keeps_every_line() {
    let text = "alpha\nbeta\ngamma\ndelta";
    let chunks = split_message(text, 12);
    assert_eq!(chunks, vec!["alpha\nbeta\n", "gamma\ndelta\n"]);
    let joined: String = chunks.concat();
    let expected: String = text.lines().map(|l| format!("{}\n", l)).collect();
    assert_eq!(joined, expected);
}

#[test]
fn split_message_overlong_line_stands_alone() {
    let chunks = split_message("0123456789abc\nxy", 5);
    assert_eq!(chunks, vec!["", "0123456789abc\n", "xy\n"]);
}

#[test]
fn split_message_counts_bytes() {
    // "é" is two bytes: "éé\n" is five bytes and fits a limit of five.
    assert_eq!(split_message("éé\né", 5), vec!["éé\n", "é\n"]);
    assert!(split_message("", 10).is_empty());
}

#[test]
fn recency_order_is_stable_newest_first() {
    let items = vec![
        item(Some("old"), Some((100, 0)), None),
        item(Some("none"), None, None),
        item(Some("new"), Some((200, 0)), None),
        item(Some("updated"), None, Some((150, 5))),
        item(Some("new too"), Some((200, 0)), None),
    ];
    assert_eq!(order_by_recency(&items), vec![2, 4, 3, 0, 1]);
}

#[test]
fn digest_keeps_ten_most_recent() {
    let mut items = Vec::new();
    for k in 0..12i64 {
        items.push(NewsItem {
            title: Some(format!("<i>T{}</i>", k)),
            summary: if k == 11 { Some("<p>short</p>".to_string()) } else { None },
            content: if k == 10 { Some("body".to_string()) } else { None },
            published: Some((k, 0)),
            updated: None,
        });
    }
    let dg = news_digest(&items);
    assert_eq!(dg.titles.len(), 10);
    assert_eq!(dg.titles[0], "T11");
    assert_eq!(dg.titles[9], "T2");
    assert!(dg.articles.starts_with("--- Article 1 ---\nTitle: T11\nSummary: short\n\n--- Article 2 ---\nTitle: T10\nContent: body\n\n--- Article 3 ---\nTitle: T9\n\n"));
    assert!(dg.articles.ends_with("--- Article 10 ---\nTitle: T2\n\n"));
}

#[test]
fn digest_of_untitled_entry() {
    let items = vec![item(None, None, None)];
    let dg = news_digest(&items);
    assert_eq!(dg.titles, vec!["Untitled"]);
    assert_eq!(dg.articles, "--- Article 1 ---\nTitle: Untitled\n\n");
}

#[test]
fn commentary_prompt_cuts_long_text() {
    let short = commentary_prompt("abc");
    assert!(short.ends_with(":\n\nabc"));
    let long = "x".repeat(10005);
    let p = commentary_prompt(&long);
    assert!(p.ends_with(&format!("{}...", "x".repeat(10000))));
    assert!(!p.ends_with(&format!("{}...", "x".repeat(10001))));
    assert!(COMMENTARY_FALLBACK.contains("refused"));
}

#[test]
fn news_reply_without_titles() {
    let r = NewsReport { titles: vec![], commentary: "x".to_string() };
    assert_eq!(news_reply_messages(&r), vec!["The datastreams are empty. Is the world ending, or is it just a slow news day?"]);
}

#[test]
fn news_reply_short_and_long() {
    let r = NewsReport { titles: vec!["A".to_string(), "B".to_string()], commentary: "Futile.".to_string() };
    assert_eq!(
        news_reply_messages(&r),
        vec!["### 📡 Latest Intelligence from the Datastreams:\n\n- **A**\n- **B**\n\n---\n\nFutile."]
    );
    let long = NewsReport { titles: vec!["A".to_string()], commentary: "word ".repeat(100) + "\n" + &"line\n".repeat(400) };
    let msgs = news_reply_messages(&long);
    assert!(msgs.len() > 1);
    assert!(msgs.iter().all(|m| m.len() <= 1900));
}

#[test]
fn plain_text_has_single_spaces_only() {
    let out = strip_html("\u{3000} <div>\n\tOne</div>\u{a0}\u{a0}<span>two</span>\r\n three\t ");
    assert_eq!(out, "One two three");
    assert!(!out.starts_with(char::is_whitespace));
    assert!(!out.ends_with(char::is_whitespace));
    assert!(!out.contains("  "));
    assert!(out.chars().filter(|c| c.is_whitespace()).all(|c| c == ' '));
}

#[test]
fn news_failure_text() {
    assert_eq!(news_failure_reply("timeout"), "Failed to retrieve the datastreams: timeout");
}

#[test]
fn strip_html_is_idempotent() {
    for h in ["<p>a  b</p>\n c", "  x <i>y</i>  ", "", "<<>>", "a\u{3000}b"] {
        let once = strip_html(h);
        assert_eq!(strip_html(&once), once);
    }
}

#[test]
fn feeds_are_gathered_in_order() {
    let rss = br#"<?xml version="1.0"?><rss version="2.0"><channel><title>T</title><link>http://x</link><description>d</description><item><title>First</title><link>http://x/1</link><pubDate>Mon, 01 Jan 2024 00:00:00 GMT</pubDate></item><item><title>Second</title><link>http://x/2</link></item></channel></rss>"#;
    let items = gather_items(&vec![Some(rss.to_vec()), None, Some(b"not a feed".to_vec()), Some(rss.to_vec())]);
    assert_eq!(items.len(), 4);
    assert_eq!(items[0].title.as_deref(), Some("First"));
    assert_eq!(items[0].published, Some((1704067200, 0)));
    assert_eq!(items[1].title.as_deref(), Some("Second"));
    assert_eq!(items[1].published, None);
    assert_eq!(items[2].title.as_deref(), Some("First"));
    assert!(gather_items(&vec![None]).is_empty());
}

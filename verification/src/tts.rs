//! Text-to-speech requests: the language to speak in and the address of the spoken text.
use vstd::prelude::*;

use crate::commands::{value_text, CommandOption};
use crate::text::{chars_eq_str, chars_of, first_where, push_str_chars, string_from_chars, string_from_range};
use vstd::utf8::encode_utf8;

verus! {

/// The language codes (ISO 639-3, as the language detector names them) that speech knows,
/// with their two-letter ISO 639-1 codes.
pub open spec fn iso_pairs() -> Seq<(&'static str, &'static str)> {
    seq![
        ("afr", "af"), ("aka", "ak"), ("amh", "am"), ("ara", "ar"), ("aze", "az"), ("bel", "be"),
        ("bul", "bg"), ("ben", "bn"), ("cat", "ca"), ("ces", "cs"), ("cym", "cy"), ("dan", "da"),
        ("deu", "de"), ("ell", "el"), ("eng", "en"), ("epo", "eo"), ("spa", "es"), ("est", "et"),
        ("pes", "fa"), ("fin", "fi"), ("fra", "fr"), ("guj", "gu"), ("heb", "he"), ("hin", "hi"),
        ("hrv", "hr"), ("hun", "hu"), ("hye", "hy"), ("ind", "id"), ("ita", "it"), ("jpn", "ja"),
        ("jav", "jw"), ("kat", "ka"), ("khm", "km"), ("kan", "kn"), ("kor", "ko"), ("lat", "la"),
        ("lit", "lt"), ("lav", "lv"), ("mkd", "mk"), ("mal", "ml"), ("mar", "mr"), ("mya", "my"),
        ("nep", "ne"), ("nld", "nl"), ("nob", "no"), ("ori", "or"), ("pan", "pa"), ("pol", "pl"),
        ("por", "pt"), ("ron", "ro"), ("rus", "ru"), ("sin", "si"), ("slk", "sk"), ("slv", "sl"),
        ("sna", "sn"), ("srp", "sr"), ("swe", "sv"), ("tam", "ta"), ("tel", "te"), ("tha", "th"),
        ("tuk", "tk"), ("tgl", "tl"), ("tur", "tr"), ("ukr", "uk"), ("urd", "ur"), ("uzb", "uz"),
        ("vie", "vi"), ("yid", "yi"), ("cmn", "zh"), ("zul", "zu"),
    ]
}

/// The code paired with `code` in `pairs`, or `en` when it has none.
pub open spec fn lookup_code(pairs: Seq<(&'static str, &'static str)>, code: Seq<char>) -> Seq<char>
    decreases pairs.len(),
{
    if pairs.len() == 0 {
        "en"@
    } else if pairs[0].0@ == code {
        pairs[0].1@
    } else {
        lookup_code(pairs.drop_first(), code)
    }
}

/// The two-letter code that speech uses for a detected language; English for a language it
/// does not list.
pub open spec fn iso639_1_of(code: Seq<char>) -> Seq<char> {
    lookup_code(iso_pairs(), code)
}

/// A two-letter code as a number that orders codes alphabetically.
pub open spec fn code_rank(c: Seq<char>) -> int {
    (c[0] as int) * 0x110000 + (c[1] as int)
}

/// The table is sorted by its two-letter codes, each strictly after the one before.
proof fn lemma_targets_increase()
    ensures
        forall|i: int| 0 <= i < iso_pairs().len() - 1 ==> code_rank(#[trigger] iso_pairs()[i].1@) < code_rank(iso_pairs()[i + 1].1@),
{
    let t = iso_pairs();
    reveal_strlit("af");
    reveal_strlit("ak");
    reveal_strlit("am");
    reveal_strlit("ar");
    reveal_strlit("az");
    reveal_strlit("be");
    reveal_strlit("bg");
    reveal_strlit("bn");
    reveal_strlit("ca");
    reveal_strlit("cs");
    reveal_strlit("cy");
    reveal_strlit("da");
    reveal_strlit("de");
    reveal_strlit("el");
    reveal_strlit("en");
    reveal_strlit("eo");
    reveal_strlit("es");
    reveal_strlit("et");
    reveal_strlit("fa");
    reveal_strlit("fi");
    reveal_strlit("fr");
    reveal_strlit("gu");
    reveal_strlit("he");
    reveal_strlit("hi");
    reveal_strlit("hr");
    reveal_strlit("hu");
    reveal_strlit("hy");
    reveal_strlit("id");
    reveal_strlit("it");
    reveal_strlit("ja");
    reveal_strlit("jw");
    reveal_strlit("ka");
    reveal_strlit("km");
    reveal_strlit("kn");
    reveal_strlit("ko");
    reveal_strlit("la");
    reveal_strlit("lt");
    reveal_strlit("lv");
    reveal_strlit("mk");
    reveal_strlit("ml");
    reveal_strlit("mr");
    reveal_strlit("my");
    reveal_strlit("ne");
    reveal_strlit("nl");
    reveal_strlit("no");
    reveal_strlit("or");
    reveal_strlit("pa");
    reveal_strlit("pl");
    reveal_strlit("pt");
    reveal_strlit("ro");
    reveal_strlit("ru");
    reveal_strlit("si");
    reveal_strlit("sk");
    reveal_strlit("sl");
    reveal_strlit("sn");
    reveal_strlit("sr");
    reveal_strlit("sv");
    reveal_strlit("ta");
    reveal_strlit("te");
    reveal_strlit("th");
    reveal_strlit("tk");
    reveal_strlit("tl");
    reveal_strlit("tr");
    reveal_strlit("uk");
    reveal_strlit("ur");
    reveal_strlit("uz");
    reveal_strlit("vi");
    reveal_strlit("yi");
    reveal_strlit("zh");
    reveal_strlit("zu");
    assert(t.len() == 70);
}

/// Later places of the table hold larger codes.
proof fn lemma_targets_ordered(i: int, j: int)
    requires
        0 <= i < j < iso_pairs().len(),
    ensures
        code_rank(iso_pairs()[i].1@) < code_rank(iso_pairs()[j].1@),
    decreases j - i,
{
    lemma_targets_increase();
    if i + 1 < j {
        lemma_targets_ordered(i + 1, j);
    }
}

/// A listed code is looked up at some place where it stands.
proof fn lemma_lookup_at(pairs: Seq<(&'static str, &'static str)>, c: Seq<char>, k: int) -> (i: int)
    requires
        0 <= k < pairs.len(),
        pairs[k].0@ == c,
    ensures
        0 <= i <= k,
        pairs[i].0@ == c,
        lookup_code(pairs, c) == pairs[i].1@,
    decreases k,
{
    if pairs[0].0@ == c {
        0
    } else {
        let x = pairs.drop_first();
        assert(x[k - 1] == pairs[k]);
        let i = lemma_lookup_at(x, c, k - 1);
        assert(x[i] == pairs[i + 1]);
        i + 1
    }
}

/// Whether the table lists `code`.
pub open spec fn listed(code: Seq<char>) -> bool {
    exists|k: int| 0 <= k < iso_pairs().len() && #[trigger] iso_pairs()[k].0@ == code
}

/// Distinct listed languages are spoken as distinct languages: on the table, the mapping is
/// one-to-one.
pub proof fn lemma_iso639_1_injective(a: Seq<char>, b: Seq<char>)
    requires
        listed(a),
        listed(b),
        a != b,
    ensures
        iso639_1_of(a) != iso639_1_of(b),
{
    let t = iso_pairs();
    let ka = choose|k: int| 0 <= k < t.len() && #[trigger] t[k].0@ == a;
    let kb = choose|k: int| 0 <= k < t.len() && #[trigger] t[k].0@ == b;
    let ia = lemma_lookup_at(t, a, ka);
    let ib = lemma_lookup_at(t, b, kb);
    if ia < ib {
        lemma_targets_ordered(ia, ib);
    } else if ib < ia {
        lemma_targets_ordered(ib, ia);
    }
}

/// Among listed languages only English is spoken as `en`.
pub proof fn lemma_en_only_for_english(c: Seq<char>)
    requires
        listed(c),
        iso639_1_of(c) == "en"@,
    ensures
        c == "eng"@,
{
    let t = iso_pairs();
    let k = choose|k: int| 0 <= k < t.len() && #[trigger] t[k].0@ == c;
    let i = lemma_lookup_at(t, c, k);
    reveal_strlit("en");
    reveal_strlit("eng");
    assert(t[14].1@ == "en"@);
    assert(t[14].0@ == "eng"@);
    if i < 14 {
        lemma_targets_ordered(i, 14);
    } else if i > 14 {
        lemma_targets_ordered(14, i);
    }
}

/// `long` is the three letters `a`, `b`, `c`.
pub open spec fn is_code(long: Seq<char>, a: char, b: char, c: char) -> bool {
    long.len() == 3 && long[0] == a && long[1] == b && long[2] == c
}

/// The three-letter codes whose two-letter code drops the middle letter (`ben` is `bn`).
pub open spec fn drops_middle(long: Seq<char>) -> bool {
    is_code(long, 'b', 'e', 'n')
    || is_code(long, 'c', 'e', 's')
    || is_code(long, 'e', 'p', 'o')
    || is_code(long, 'e', 's', 't')
    || is_code(long, 'i', 'n', 'd')
    || is_code(long, 'k', 'h', 'm')
    || is_code(long, 'k', 'a', 'n')
    || is_code(long, 'l', 'i', 't')
    || is_code(long, 'l', 'a', 'v')
    || is_code(long, 'm', 'a', 'l')
    || is_code(long, 'm', 'a', 'r')
    || is_code(long, 'p', 'o', 'l')
    || is_code(long, 's', 'l', 'k')
    || is_code(long, 't', 'u', 'k')
    || is_code(long, 't', 'g', 'l')
    || is_code(long, 't', 'u', 'r')
}

/// The two-letter codes that come from another name of the language (`spa` is `es`).
pub open spec fn other_name(long: Seq<char>) -> Option<(char, char)> {
    if is_code(long, 'b', 'u', 'l') {
        Some(('b', 'g'))
    } else if is_code(long, 's', 'p', 'a') {
        Some(('e', 's'))
    } else if is_code(long, 'p', 'e', 's') {
        Some(('f', 'a'))
    } else if is_code(long, 'j', 'p', 'n') {
        Some(('j', 'a'))
    } else if is_code(long, 'j', 'a', 'v') {
        Some(('j', 'w'))
    } else if is_code(long, 'p', 'o', 'r') {
        Some(('p', 't'))
    } else if is_code(long, 's', 'w', 'e') {
        Some(('s', 'v'))
    } else if is_code(long, 'c', 'm', 'n') {
        Some(('z', 'h'))
    } else {
        None
    }
}

/// How ISO 639-1 relates to ISO 639-3 for the listed languages: the two-letter code is the
/// first two letters of the three-letter one, or its first and last letters, or, for a few,
/// comes from another name of the language.
pub open spec fn iso_rule(long: Seq<char>, short: Seq<char>) -> bool {
    &&& long.len() == 3
    &&& short.len() == 2
    &&& match other_name(long) {
        Some((x, y)) => short[0] == x && short[1] == y,
        None => short[0] == long[0] && short[1] == if drops_middle(long) {
            long[2]
        } else {
            long[1]
        },
    }
}

/// Every pair of the table follows [`iso_rule`].
proof fn lemma_table_follows_rule()
    ensures
        forall|i: int| 0 <= i < iso_pairs().len() ==> iso_rule(#[trigger] iso_pairs()[i].0@, iso_pairs()[i].1@),
{
    reveal_strlit("af");
    reveal_strlit("afr");
    reveal_strlit("ak");
    reveal_strlit("aka");
    reveal_strlit("am");
    reveal_strlit("amh");
    reveal_strlit("ar");
    reveal_strlit("ara");
    reveal_strlit("az");
    reveal_strlit("aze");
    reveal_strlit("be");
    reveal_strlit("bel");
    reveal_strlit("ben");
    reveal_strlit("bg");
    reveal_strlit("bn");
    reveal_strlit("bul");
    reveal_strlit("ca");
    reveal_strlit("cat");
    reveal_strlit("ces");
    reveal_strlit("cmn");
    reveal_strlit("cs");
    reveal_strlit("cy");
    reveal_strlit("cym");
    reveal_strlit("da");
    reveal_strlit("dan");
    reveal_strlit("de");
    reveal_strlit("deu");
    reveal_strlit("el");
    reveal_strlit("ell");
    reveal_strlit("en");
    reveal_strlit("eng");
    reveal_strlit("eo");
    reveal_strlit("epo");
    reveal_strlit("es");
    reveal_strlit("est");
    reveal_strlit("et");
    reveal_strlit("fa");
    reveal_strlit("fi");
    reveal_strlit("fin");
    reveal_strlit("fr");
    reveal_strlit("fra");
    reveal_strlit("gu");
    reveal_strlit("guj");
    reveal_strlit("he");
    reveal_strlit("heb");
    reveal_strlit("hi");
    reveal_strlit("hin");
    reveal_strlit("hr");
    reveal_strlit("hrv");
    reveal_strlit("hu");
    reveal_strlit("hun");
    reveal_strlit("hy");
    reveal_strlit("hye");
    reveal_strlit("id");
    reveal_strlit("ind");
    reveal_strlit("it");
    reveal_strlit("ita");
    reveal_strlit("ja");
    reveal_strlit("jav");
    reveal_strlit("jpn");
    reveal_strlit("jw");
    reveal_strlit("ka");
    reveal_strlit("kan");
    reveal_strlit("kat");
    reveal_strlit("khm");
    reveal_strlit("km");
    reveal_strlit("kn");
    reveal_strlit("ko");
    reveal_strlit("kor");
    reveal_strlit("la");
    reveal_strlit("lat");
    reveal_strlit("lav");
    reveal_strlit("lit");
    reveal_strlit("lt");
    reveal_strlit("lv");
    reveal_strlit("mal");
    reveal_strlit("mar");
    reveal_strlit("mk");
    reveal_strlit("mkd");
    reveal_strlit("ml");
    reveal_strlit("mr");
    reveal_strlit("my");
    reveal_strlit("mya");
    reveal_strlit("ne");
    reveal_strlit("nep");
    reveal_strlit("nl");
    reveal_strlit("nld");
    reveal_strlit("no");
    reveal_strlit("nob");
    reveal_strlit("or");
    reveal_strlit("ori");
    reveal_strlit("pa");
    reveal_strlit("pan");
    reveal_strlit("pes");
    reveal_strlit("pl");
    reveal_strlit("pol");
    reveal_strlit("por");
    reveal_strlit("pt");
    reveal_strlit("ro");
    reveal_strlit("ron");
    reveal_strlit("ru");
    reveal_strlit("rus");
    reveal_strlit("si");
    reveal_strlit("sin");
    reveal_strlit("sk");
    reveal_strlit("sl");
    reveal_strlit("slk");
    reveal_strlit("slv");
    reveal_strlit("sn");
    reveal_strlit("sna");
    reveal_strlit("spa");
    reveal_strlit("sr");
    reveal_strlit("srp");
    reveal_strlit("sv");
    reveal_strlit("swe");
    reveal_strlit("ta");
    reveal_strlit("tam");
    reveal_strlit("te");
    reveal_strlit("tel");
    reveal_strlit("tgl");
    reveal_strlit("th");
    reveal_strlit("tha");
    reveal_strlit("tk");
    reveal_strlit("tl");
    reveal_strlit("tr");
    reveal_strlit("tuk");
    reveal_strlit("tur");
    reveal_strlit("uk");
    reveal_strlit("ukr");
    reveal_strlit("ur");
    reveal_strlit("urd");
    reveal_strlit("uz");
    reveal_strlit("uzb");
    reveal_strlit("vi");
    reveal_strlit("vie");
    reveal_strlit("yi");
    reveal_strlit("yid");
    reveal_strlit("zh");
    reveal_strlit("zu");
    reveal_strlit("zul");
    assert(iso_pairs().len() == 70);
}

/// Each listed language is spoken with the two-letter code of the same language: the code
/// [`iso_rule`] derives from its three-letter code (`deu` is `de`, `nld` is `nl`).
pub proof fn lemma_iso639_1_follows_rule(code: Seq<char>)
    requires
        listed(code),
    ensures
        iso_rule(code, iso639_1_of(code)),
{
    let t = iso_pairs();
    let k = choose|k: int| 0 <= k < t.len() && #[trigger] t[k].0@ == code;
    let i = lemma_lookup_at(t, code, k);
    lemma_table_follows_rule();
    assert(iso_rule(t[i].0@, t[i].1@));
}

/// The table of [`iso_pairs`].
fn iso_table() -> (t: Vec<(&'static str, &'static str)>)
    ensures
        t@ == iso_pairs(),
{
    let t = vec![
        ("afr", "af"), ("aka", "ak"), ("amh", "am"), ("ara", "ar"), ("aze", "az"), ("bel", "be"),
        ("bul", "bg"), ("ben", "bn"), ("cat", "ca"), ("ces", "cs"), ("cym", "cy"), ("dan", "da"),
        ("deu", "de"), ("ell", "el"), ("eng", "en"), ("epo", "eo"), ("spa", "es"), ("est", "et"),
        ("pes", "fa"), ("fin", "fi"), ("fra", "fr"), ("guj", "gu"), ("heb", "he"), ("hin", "hi"),
        ("hrv", "hr"), ("hun", "hu"), ("hye", "hy"), ("ind", "id"), ("ita", "it"), ("jpn", "ja"),
        ("jav", "jw"), ("kat", "ka"), ("khm", "km"), ("kan", "kn"), ("kor", "ko"), ("lat", "la"),
        ("lit", "lt"), ("lav", "lv"), ("mkd", "mk"), ("mal", "ml"), ("mar", "mr"), ("mya", "my"),
        ("nep", "ne"), ("nld", "nl"), ("nob", "no"), ("ori", "or"), ("pan", "pa"), ("pol", "pl"),
        ("por", "pt"), ("ron", "ro"), ("rus", "ru"), ("sin", "si"), ("slk", "sk"), ("slv", "sl"),
        ("sna", "sn"), ("srp", "sr"), ("swe", "sv"), ("tam", "ta"), ("tel", "te"), ("tha", "th"),
        ("tuk", "tk"), ("tgl", "tl"), ("tur", "tr"), ("ukr", "uk"), ("urd", "ur"), ("uzb", "uz"),
        ("vie", "vi"), ("yid", "yi"), ("cmn", "zh"), ("zul", "zu"),
    ];
    assert(t@ =~= iso_pairs());
    t
}

/// The two-letter code of the detected language `code` (see [`iso639_1_of`]).
pub fn lang_to_iso639_1(code: &str) -> (iso: &'static str)
    ensures
        iso@ == iso639_1_of(code@),
{
    let t = iso_table();
    let c = chars_of(code);
    let mut i: usize = 0;
    assert(t@.skip(0) =~= t@);
    while i < t.len()
        invariant
            i <= t.len(),
            t@ == iso_pairs(),
            c@ == code@,
            iso639_1_of(code@) == lookup_code(t@.skip(i as int), code@),
        decreases t.len() - i,
    {
        let (long, short) = t[i];
        assert(t@.skip(i as int)[0] == t@[i as int]);
        if chars_eq_str(&c, long) {
            return short;
        }
        assert(t@.skip(i as int).drop_first() =~= t@.skip(i + 1));
        i = i + 1;
    }
    proof {
        reveal_strlit("en");
    }
    "en"
}

/// The language to speak in: the detected one when detection was confident, else English.
pub open spec fn speech_language(detected: Option<Seq<char>>) -> Seq<char> {
    match detected {
        Some(code) => iso639_1_of(code),
        None => "en"@,
    }
}

/// The language to speak `text` in, given the detector's confident guess, if any (see
/// [`speech_language`]).
pub fn tts_language(detected: Option<&str>) -> (lang: &'static str)
    ensures
        lang@ == speech_language(match detected {
            Some(c) => Some(c@),
            None => None,
        }),
{
    match detected {
        Some(code) => lang_to_iso639_1(code),
        None => "en",
    }
}

/// Bytes that stay as they are in an address: ASCII letters, digits, `-`, `.`, `_` and `~`.
pub open spec fn unreserved(b: u8) -> bool {
    (48 <= b <= 57) || (65 <= b <= 90) || (97 <= b <= 122) || b == 45 || b == 46 || b == 95 || b
        == 126
}

/// Upper-case hexadecimal digit of `d < 16`.
pub open spec fn hex_digit(d: u8) -> char {
    if d < 10 {
        (48 + d) as char
    } else {
        (55 + d) as char
    }
}

/// Percent-encoding of `bytes`: unreserved bytes as themselves, every other byte as `%` and
/// two upper-case hexadecimal digits.
pub open spec fn percent_encode(bytes: Seq<u8>) -> Seq<char>
    decreases bytes.len(),
{
    if bytes.len() == 0 {
        Seq::empty()
    } else {
        let b = bytes[0];
        (if unreserved(b) {
            seq![b as char]
        } else {
            seq!['%', hex_digit(b / 16), hex_digit(b % 16)]
        }) + percent_encode(bytes.drop_first())
    }
}

/// `urlencoding::encode`: percent-encodes the UTF-8 bytes of `text`, every byte but ASCII
/// alphanumerics and `-`, `_`, `.`, `~`, with upper-case hex digits (as its documentation and
/// source state).
#[verifier::external_body]
fn url_encode(text: &str) -> (enc: String)
    ensures
        enc@ == percent_encode(encode_utf8(text@)),
{
    urlencoding::encode(text).into_owned()
}

/// The address that speaks `text` in language `lang`.
pub open spec fn tts_url_text(lang: Seq<char>, text: Seq<char>) -> Seq<char> {
    "https://translate.google.com/translate_tts?ie=UTF-8&client=tw-ob&tl="@ + lang + "&q="@
        + percent_encode(encode_utf8(text))
}

/// The address of the spoken `text` (see [`tts_url_text`]).
pub fn tts_url(lang: &str, text: &str) -> (url: String)
    ensures
        url@ == tts_url_text(lang@, text@),
{
    let enc = url_encode(text);
    let mut v: Vec<char> = Vec::new();
    push_str_chars(&mut v, "https://translate.google.com/translate_tts?ie=UTF-8&client=tw-ob&tl=");
    push_str_chars(&mut v, lang);
    push_str_chars(&mut v, "&q=");
    push_str_chars(&mut v, enc.as_str());
    string_from_chars(&v)
}

/// The answer after speech was queued.
pub open spec fn tts_reply_text(lang: Seq<char>) -> Seq<char> {
    "Playing TTS (lang: "@ + lang + seq![')']
}

/// The answer after speech was queued (see [`tts_reply_text`]).
pub fn tts_reply(lang: &str) -> (s: String)
    ensures
        s@ == tts_reply_text(lang@),
{
    let mut v: Vec<char> = Vec::new();
    push_str_chars(&mut v, "Playing TTS (lang: ");
    push_str_chars(&mut v, lang);
    v.push(')');
    string_from_chars(&v)
}

/// The language and text of `!sayin`: the text before the first space, and the rest; `None`
/// when there is no space.
pub open spec fn sayin_parts(content: Seq<char>) -> Option<(Seq<char>, Seq<char>)> {
    let k = first_where(content, crate::commands::space_pred());
    if k < content.len() {
        Some((content.take(k as int), content.skip(k + 1 as int)))
    } else {
        None
    }
}

/// Splits the arguments of `!sayin` (see [`sayin_parts`]).
pub fn parse_sayin(content: &str) -> (r: Option<(String, String)>)
    ensures
        match sayin_parts(content@) {
            Some((l, t)) => r matches Some((a, b)) && a@ == l && b@ == t,
            None => r is None,
        },
{
    let v = chars_of(content);
    let mut j: usize = 0;
    while j < v.len() && v[j] != ' '
        invariant
            j <= v.len(),
            forall|t: int| 0 <= t < j ==> #[trigger] v@[t] != ' ',
        decreases v.len() - j,
    {
        j = j + 1;
    }
    proof {
        assert forall|t: int| 0 <= t < j implies !(crate::commands::space_pred())(#[trigger] v@[t]) by {}
        crate::text::lemma_first_where(v@, crate::commands::space_pred(), j as int);
    }
    if j < v.len() {
        let lang = string_from_range(&v, 0, j);
        let text = string_from_range(&v, j + 1, v.len());
        assert(v@.subrange(0, j as int) =~= v@.take(j as int));
        assert(v@.subrange(j + 1, v@.len() as int) =~= v@.skip(j + 1));
        Some((lang, text))
    } else {
        None
    }
}

/// The string value of the last option called `key`, or the empty text.
pub open spec fn last_named_value(opts: Seq<CommandOption>, key: Seq<char>) -> Seq<char>
    decreases opts.len(),
{
    if opts.len() == 0 {
        Seq::empty()
    } else if opts.last().name@ == key {
        value_text(opts.last())
    } else {
        last_named_value(opts.drop_last(), key)
    }
}

/// Language and text of `/sayin`; `None` when either is missing or empty.
pub open spec fn slash_sayin_parts(opts: Seq<CommandOption>) -> Option<(Seq<char>, Seq<char>)> {
    let l = last_named_value(opts, "lang"@);
    let t = last_named_value(opts, "text"@);
    if l.len() == 0 || t.len() == 0 {
        None
    } else {
        Some((l, t))
    }
}

/// Reads the options of `/sayin` (see [`slash_sayin_parts`]).
pub fn parse_slash_sayin(opts: &Vec<CommandOption>) -> (r: Option<(String, String)>)
    ensures
        match slash_sayin_parts(opts@) {
            Some((l, t)) => r matches Some((a, b)) && a@ == l && b@ == t,
            None => r is None,
        },
{
    let mut lang = String::new();
    let mut text = String::new();
    let mut i: usize = 0;
    assert(opts@.take(0) =~= Seq::<CommandOption>::empty());
    while i < opts.len()
        invariant
            i <= opts.len(),
            lang@ == last_named_value(opts@.take(i as int), "lang"@),
            text@ == last_named_value(opts@.take(i as int), "text"@),
        decreases opts.len() - i,
    {
        assert(opts@.take(i + 1).drop_last() =~= opts@.take(i as int));
        assert(opts@.take(i + 1).last() == opts@[i as int]);
        let n = chars_of(opts[i].name.as_str());
        proof {
            reveal_strlit("lang");
            reveal_strlit("text");
            assert("lang"@[0] != "text"@[0]);
        }
        if chars_eq_str(&n, "lang") {
            lang = crate::commands::option_text(&opts[i]);
        } else if chars_eq_str(&n, "text") {
            text = crate::commands::option_text(&opts[i]);
        }
        i = i + 1;
    }
    assert(opts@.take(opts@.len() as int) =~= opts@);
    if lang.as_str().is_empty() || text.as_str().is_empty() {
        None
    } else {
        Some((lang, text))
    }
}

/// The answer to `!say` without text.
pub const SAY_USAGE: &'static str = "Usage: `!say <text>`";

/// The answer to `!sayin` without a space between language and text.
pub const SAYIN_USAGE: &'static str = "Usage: `!sayin <lang> <text>`";

/// The answer to `/say` without text.
pub const SLASH_SAY_MISSING: &'static str = "Please provide text to speak";

/// The answer to `/sayin` without language or text.
pub const SLASH_SAYIN_MISSING: &'static str = "Please provide both language and text";

} // verus!

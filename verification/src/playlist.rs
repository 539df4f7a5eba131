use vstd::prelude::*;

use crate::error::BotError;
use crate::music::TrackLoad;
use crate::commands::{first_option_value, first_value, named_option_value, named_value, CommandOption};
use crate::news::{join, join_parts_from, terminated, views};
use crate::text::{
    chars_eq_str, chars_of, lines, push_all, push_decimal, push_str_chars, split_lines,
    split_whitespace, string_from_chars, trim, trim_bounds, words,
};

verus! {

/// Directory, relative to the working directory, that holds one text file per playlist.
pub const PLAYLISTS_DIR: &'static str = "playlists";

/// The path of the file that stores the playlist `name`: `playlists/<name>.txt`.
pub fn get_playlist_path(name: &str) -> (path: String)
    ensures
        path@ == "playlists/"@ + name@ + ".txt"@,
{
    let mut path = String::from_str("playlists");
    path.append("/");
    path.append(name);
    path.append(".txt");
    proof {
        reveal_strlit("playlists");
        reveal_strlit("/");
        reveal_strlit(".txt");
        reveal_strlit("playlists/");
    }
    path
}

/// The entries of a playlist file's lines: each line trimmed, blank lines left out.
pub open spec fn entries_of_lines(ls: Seq<Seq<char>>) -> Seq<Seq<char>>
    decreases ls.len(),
{
    if ls.len() == 0 {
        Seq::empty()
    } else {
        entries_of_lines(ls.drop_last()) + if trim(ls.last()).len() > 0 {
            seq![trim(ls.last())]
        } else {
            Seq::empty()
        }
    }
}

/// The track addresses stored in a playlist file's text.
pub open spec fn playlist_entries(content: Seq<char>) -> Seq<Seq<char>> {
    entries_of_lines(lines(content))
}

/// The addresses stored in the playlist file text `content`, in order (see
/// [`playlist_entries`]).
pub fn parse_playlist(content: &str) -> (uris: Vec<String>)
    ensures
        uris@.len() == playlist_entries(content@).len(),
        forall|k: int|
            0 <= k < uris@.len() ==> #[trigger] uris@[k]@ == playlist_entries(content@)[k],
{
    let v = chars_of(content);
    let ls = split_lines(&v);
    let ghost all = lines(content@);
    let mut uris: Vec<String> = Vec::new();
    let mut i: usize = 0;
    assert(all.take(0) =~= Seq::<Seq<char>>::empty());
    while i < ls.len()
        invariant
            i <= ls.len() == all.len(),
            all == lines(content@),
            forall|k: int| 0 <= k < ls@.len() ==> #[trigger] ls@[k]@ == all[k],
            uris@.len() == entries_of_lines(all.take(i as int)).len(),
            forall|k: int|
                0 <= k < uris@.len() ==> #[trigger] uris@[k]@ == entries_of_lines(
                    all.take(i as int),
                )[k],
        decreases ls.len() - i,
    {
        let (lo, hi) = trim_bounds(&ls[i]);
        let ghost prev = entries_of_lines(all.take(i as int));
        assert(all.take(i + 1).drop_last() =~= all.take(i as int));
        assert(all.take(i + 1).last() == all[i as int]);
        if lo < hi {
            let entry = crate::text::string_from_range(&ls[i], lo, hi);
            uris.push(entry);
            assert(entries_of_lines(all.take(i + 1)) =~= prev.push(trim(all[i as int])));
        } else {
            assert(entries_of_lines(all.take(i + 1)) =~= prev);
        }
        i = i + 1;
    }
    assert(all.take(ls.len() as int) =~= all);
    uris
}

/// The addresses stored in the already split lines `ls` of a playlist file, in order (see
/// [`entries_of_lines`]).
pub fn entries_from_lines(ls: &Vec<String>) -> (uris: Vec<String>)
    ensures
        uris@.len() == entries_of_lines(ls@.map_values(|l: String| l@)).len(),
        forall|k: int|
            0 <= k < uris@.len() ==> #[trigger] uris@[k]@ == entries_of_lines(
                ls@.map_values(|l: String| l@),
            )[k],
{
    let ghost all = ls@.map_values(|l: String| l@);
    let mut uris: Vec<String> = Vec::new();
    let mut i: usize = 0;
    assert(all.take(0) =~= Seq::<Seq<char>>::empty());
    while i < ls.len()
        invariant
            i <= ls.len() == all.len(),
            all == ls@.map_values(|l: String| l@),
            uris@.len() == entries_of_lines(all.take(i as int)).len(),
            forall|k: int|
                0 <= k < uris@.len() ==> #[trigger] uris@[k]@ == entries_of_lines(
                    all.take(i as int),
                )[k],
        decreases ls.len() - i,
    {
        let line = chars_of(ls[i].as_str());
        let (lo, hi) = trim_bounds(&line);
        let ghost prev = entries_of_lines(all.take(i as int));
        assert(all.take(i + 1).drop_last() =~= all.take(i as int));
        assert(all.take(i + 1).last() == all[i as int]);
        assert(all[i as int] == line@);
        if lo < hi {
            let entry = crate::text::string_from_range(&line, lo, hi);
            uris.push(entry);
            assert(entries_of_lines(all.take(i + 1)) =~= prev.push(trim(all[i as int])));
        } else {
            assert(entries_of_lines(all.take(i + 1)) =~= prev);
        }
        i = i + 1;
    }
    assert(all.take(ls.len() as int) =~= all);
    uris
}

/// The text appended to a playlist file for `uris`: each address on a line of its own.
pub fn playlist_lines(uris: &Vec<String>) -> (text: String)
    ensures
        text@ == terminated(uris@.map_values(|u: String| u@)),
{
    let ghost us = uris@.map_values(|u: String| u@);
    let mut v: Vec<char> = Vec::new();
    let mut i: usize = 0;
    while i < uris.len()
        invariant
            i <= uris.len(),
            us == uris@.map_values(|u: String| u@),
            v@ == terminated(us.take(i as int)),
        decreases uris.len() - i,
    {
        push_str_chars(&mut v, uris[i].as_str());
        v.push('\n');
        assert(us.take(i + 1).drop_last() =~= us.take(i as int));
        assert(v@ =~= terminated(us.take(i + 1)));
        i = i + 1;
    }
    assert(us.take(uris@.len() as int) =~= us);
    string_from_chars(&v)
}

/// The entries of two runs of lines are those of the first, then those of the second.
pub proof fn lemma_entries_concat(l1: Seq<Seq<char>>, l2: Seq<Seq<char>>)
    ensures
        entries_of_lines(l1 + l2) == entries_of_lines(l1) + entries_of_lines(l2),
    decreases l2.len(),
{
    if l2.len() == 0 {
        assert(l1 + l2 =~= l1);
        assert(entries_of_lines(l1) + entries_of_lines(l2) =~= entries_of_lines(l1));
    } else {
        assert((l1 + l2).drop_last() =~= l1 + l2.drop_last());
        assert((l1 + l2).last() == l2.last());
        lemma_entries_concat(l1, l2.drop_last());
        assert(entries_of_lines(l1 + l2) =~= entries_of_lines(l1) + entries_of_lines(l2));
    }
}

/// An address a playlist can hold and give back as it is: not empty, no white space at
/// either end, and no line break.
pub open spec fn storable(u: Seq<char>) -> bool {
    &&& u.len() > 0
    &&& !crate::text::is_ws(u[0])
    &&& !crate::text::is_ws(u.last())
    &&& forall|t: int| 0 <= t < u.len() ==> #[trigger] u[t] != '\n'
}

/// Lines that are storable addresses are their own entries.
proof fn lemma_entries_of_storable(us: Seq<Seq<char>>)
    requires
        forall|j: int| 0 <= j < us.len() ==> storable(#[trigger] us[j]),
    ensures
        entries_of_lines(us) == us,
    decreases us.len(),
{
    if us.len() > 0 {
        let u = us.last();
        assert(storable(us[us.len() - 1]));
        assert(crate::text::trim_start(u) == u);
        assert(crate::text::trim_end(u) == u);
        lemma_entries_of_storable(us.drop_last());
        assert(entries_of_lines(us) =~= us);
    }
}

/// Reading a playlist back gives what was written: appending storable addresses to a playlist
/// file that is empty or ends a line adds exactly those addresses, in order, after the
/// entries it already had.
pub proof fn lemma_append_then_load(existing: Seq<char>, uris: Seq<Seq<char>>)
    requires
        existing.len() == 0 || existing.last() == '\n',
        forall|j: int| 0 <= j < uris.len() ==> storable(#[trigger] uris[j]),
    ensures
        playlist_entries(existing + terminated(uris)) == playlist_entries(existing) + uris,
{
    crate::text::lemma_lines_concat(existing, terminated(uris));
    assert forall|j: int, t: int| 0 <= j < uris.len() && 0 <= t < uris[j].len() implies #[trigger] uris[j][t] != '\n' by {
        assert(storable(uris[j]));
    }
    crate::text::lemma_lines_terminated(uris);
    let stripped = uris.map_values(|u: Seq<char>| crate::text::strip_cr(u));
    assert forall|j: int| 0 <= j < uris.len() implies stripped[j] == uris[j] by {
        assert(storable(uris[j]));
    }
    assert(stripped =~= uris);
    lemma_entries_concat(lines(existing), uris);
    lemma_entries_of_storable(uris);
}

/// A playlist request: create one, add a search or link to one, play one, list them all, or
/// answer with a usage hint.
pub enum PlaylistCommand {
    Create(String),
    Add(String, String),
    Play(String),
    List,
    Reply(String),
}

/// The general usage hint of the prefix playlist command.
pub open spec fn usage_general() -> Seq<char> {
    "Usage: `!playlist <create|add|play|list> [args]`"@
}

/// Whether `w` is `long` or its alias `short`.
pub open spec fn is_word(w: Seq<char>, long: Seq<char>, short: Seq<char>) -> bool {
    w == long || w == short
}

/// What the prefix playlist command with words `ws` asks for.
pub open spec fn prefix_playlist_request(ws: Seq<Seq<char>>, cmd: PlaylistCommand) -> bool {
    if ws.len() == 0 {
        cmd matches PlaylistCommand::Reply(m) && m@ == usage_general()
    } else if is_word(ws[0], "create"@, "c"@) {
        if ws.len() < 2 {
            cmd matches PlaylistCommand::Reply(m) && m@ == "Usage: `!playlist create <name>`"@
        } else {
            cmd matches PlaylistCommand::Create(n) && n@ == ws[1]
        }
    } else if is_word(ws[0], "add"@, "a"@) {
        if ws.len() < 3 {
            cmd matches PlaylistCommand::Reply(m) && m@ == "Usage: `!playlist add <name> <query>`"@
        } else {
            cmd matches PlaylistCommand::Add(n, q) && n@ == ws[1] && q@ == join(ws.skip(2), seq![' '])
        }
    } else if is_word(ws[0], "play"@, "p"@) {
        if ws.len() < 2 {
            cmd matches PlaylistCommand::Reply(m) && m@ == "Usage: `!playlist play <name>`"@
        } else {
            cmd matches PlaylistCommand::Play(n) && n@ == ws[1]
        }
    } else if is_word(ws[0], "list"@, "ls"@) {
        cmd is List
    } else {
        cmd matches PlaylistCommand::Reply(m) && m@ == "Unknown playlist command. Use `!playlist <create|add|play|list>`"@
    }
}

/// Whether the word `w` is `long` or `short` (see [`is_word`]).
fn word_is(w: &Vec<char>, long: &str, short: &str) -> (r: bool)
    ensures
        r == is_word(w@, long@, short@),
{
    chars_eq_str(w, long) || chars_eq_str(w, short)
}

/// Reads the arguments of the prefix playlist command (`!playlist ...`), split at white
/// space (see [`prefix_playlist_request`]).
pub fn parse_playlist_prefix(content: &str) -> (cmd: PlaylistCommand)
    ensures
        prefix_playlist_request(words(content@), cmd),
{
    let v = chars_of(content);
    let parts = split_whitespace(&v);
    let ghost ws = words(content@);
    assert(views(parts@) =~= ws);
    if parts.len() == 0 {
        return PlaylistCommand::Reply(String::from_str("Usage: `!playlist <create|add|play|list> [args]`"));
    }
    let first = &parts[0];
    if word_is(first, "create", "c") {
        if parts.len() < 2 {
            PlaylistCommand::Reply(String::from_str("Usage: `!playlist create <name>`"))
        } else {
            PlaylistCommand::Create(string_from_chars(&parts[1]))
        }
    } else if word_is(first, "add", "a") {
        if parts.len() < 3 {
            PlaylistCommand::Reply(String::from_str("Usage: `!playlist add <name> <query>`"))
        } else {
            let sep = vec![' '];
            assert(sep@ =~= seq![' ']);
            let q = join_parts_from(&parts, 2, &sep);
            PlaylistCommand::Add(string_from_chars(&parts[1]), string_from_chars(&q))
        }
    } else if word_is(first, "play", "p") {
        if parts.len() < 2 {
            PlaylistCommand::Reply(String::from_str("Usage: `!playlist play <name>`"))
        } else {
            PlaylistCommand::Play(string_from_chars(&parts[1]))
        }
    } else if word_is(first, "list", "ls") {
        PlaylistCommand::List
    } else {
        PlaylistCommand::Reply(String::from_str("Unknown playlist command. Use `!playlist <create|add|play|list>`"))
    }
}

/// What the `/playlist` subcommand `sub` with options `opts` asks for; `None` for an unknown
/// subcommand. Missing values read as the empty text.
pub open spec fn slash_playlist_request(sub: Seq<char>, opts: Seq<CommandOption>, cmd: Option<PlaylistCommand>) -> bool {
    if sub == "create"@ {
        cmd matches Some(PlaylistCommand::Create(n)) && n@ == first_value(opts)
    } else if sub == "add"@ {
        cmd matches Some(PlaylistCommand::Add(n, q)) && n@ == named_value(opts, "name"@) && q@
            == named_value(opts, "query"@)
    } else if sub == "play"@ {
        cmd matches Some(PlaylistCommand::Play(n)) && n@ == first_value(opts)
    } else if sub == "list"@ {
        cmd matches Some(PlaylistCommand::List)
    } else {
        cmd is None
    }
}

/// Reads a `/playlist` subcommand (see [`slash_playlist_request`]).
pub fn parse_playlist_slash(sub: &str, opts: &Vec<CommandOption>) -> (cmd: Option<PlaylistCommand>)
    ensures
        slash_playlist_request(sub@, opts@, cmd),
{
    let s = chars_of(sub);
    if chars_eq_str(&s, "create") {
        Some(PlaylistCommand::Create(first_option_value(opts)))
    } else if chars_eq_str(&s, "add") {
        Some(PlaylistCommand::Add(named_option_value(opts, "name"), named_option_value(opts, "query")))
    } else if chars_eq_str(&s, "play") {
        Some(PlaylistCommand::Play(first_option_value(opts)))
    } else if chars_eq_str(&s, "list") {
        Some(PlaylistCommand::List)
    } else {
        None
    }
}

/// The playlist name of a file in the playlists directory: the file name without its `.txt`
/// extension; `None` for other files (a name that is only `.txt` has no extension).
pub open spec fn playlist_name_of(file: Seq<char>) -> Option<Seq<char>> {
    if file.len() > 4 && file.skip(file.len() - 4) == ".txt"@ {
        Some(file.take(file.len() - 4))
    } else {
        None
    }
}

/// The playlist that a file stores (see [`playlist_name_of`]).
pub fn playlist_name(file_name: &str) -> (name: Option<String>)
    ensures
        match playlist_name_of(file_name@) {
            Some(n) => name matches Some(s) && s@ == n,
            None => name is None,
        },
{
    let v = chars_of(file_name);
    let ext = chars_of(".txt");
    proof {
        reveal_strlit(".txt");
    }
    if v.len() > 4 && crate::text::matches_at(&v, v.len() - 4, &ext) {
        assert(v@.subrange(v@.len() - 4, v@.len() as int) =~= v@.skip(v@.len() - 4));
        Some(crate::text::string_from_range(&v, 0, v.len() - 4))
    } else {
        proof {
            if v@.len() > 4 {
                assert(v@.subrange(v@.len() - 4, v@.len() as int) =~= v@.skip(v@.len() - 4));
            }
        }
        None
    }
}

/// The answer to a successful create.
pub open spec fn created_text(name: Seq<char>) -> Seq<char> {
    "Playlist '"@ + name + "' created"@
}

/// The answer to a successful create (see [`created_text`]).
pub fn created_reply(name: &str) -> (s: String)
    ensures
        s@ == created_text(name@),
{
    let mut v: Vec<char> = Vec::new();
    push_str_chars(&mut v, "Playlist '");
    push_str_chars(&mut v, name);
    push_str_chars(&mut v, "' created");
    string_from_chars(&v)
}

/// The answer to a successful add.
pub open spec fn added_text(count: nat, name: Seq<char>) -> Seq<char> {
    "Added "@ + crate::text::decimal(count) + " track(s) to playlist '"@ + name + seq!['\'']
}

/// The answer to a successful add (see [`added_text`]).
pub fn added_reply(count: u64, name: &str) -> (s: String)
    ensures
        s@ == added_text(count as nat, name@),
{
    let mut v: Vec<char> = Vec::new();
    push_str_chars(&mut v, "Added ");
    push_decimal(&mut v, count);
    push_str_chars(&mut v, " track(s) to playlist '");
    push_str_chars(&mut v, name);
    v.push('\'');
    string_from_chars(&v)
}

/// The answer to a list request: the names one per line, or a note that there are none.
pub open spec fn list_text(names: Seq<Seq<char>>) -> Seq<char> {
    if names.len() == 0 {
        "No playlists found"@
    } else {
        "Available playlists:\n"@ + join(names, seq!['\n'])
    }
}

/// The answer to a list request (see [`list_text`]).
pub fn list_reply(names: &Vec<String>) -> (s: String)
    ensures
        s@ == list_text(names@.map_values(|n: String| n@)),
{
    if names.len() == 0 {
        return String::from_str("No playlists found");
    }
    let mut parts: Vec<Vec<char>> = Vec::new();
    let mut i: usize = 0;
    while i < names.len()
        invariant
            i <= names.len(),
            parts@.len() == i,
            forall|k: int| 0 <= k < i ==> #[trigger] parts@[k]@ == names@[k]@,
        decreases names.len() - i,
    {
        parts.push(chars_of(names[i].as_str()));
        i = i + 1;
    }
    assert(views(parts@).skip(0) =~= names@.map_values(|n: String| n@));
    let sep = vec!['\n'];
    assert(sep@ =~= seq!['\n']);
    let joined = join_parts_from(&parts, 0, &sep);
    let mut v: Vec<char> = Vec::new();
    push_str_chars(&mut v, "Available playlists:\n");
    push_all(&mut v, &joined);
    string_from_chars(&v)
}

/// The answer after a playlist was queued.
pub open spec fn queued_text(count: nat) -> Seq<char> {
    "Added "@ + crate::text::decimal(count) + " tracks from playlist to queue"@
}

/// The answer after a playlist was queued (see [`queued_text`]).
pub fn queued_reply(count: u64) -> (s: String)
    ensures
        s@ == queued_text(count as nat),
{
    let mut v: Vec<char> = Vec::new();
    push_str_chars(&mut v, "Added ");
    push_decimal(&mut v, count);
    push_str_chars(&mut v, " tracks from playlist to queue");
    string_from_chars(&v)
}

/// The addresses of the tracks that were found, in order.
pub open spec fn present(us: Seq<Option<String>>) -> Seq<Seq<char>>
    decreases us.len(),
{
    if us.len() == 0 {
        Seq::empty()
    } else {
        present(us.drop_last()) + match us.last() {
            Some(u) => seq![u@],
            None => Seq::empty(),
        }
    }
}

/// The addresses an add request stores, from the address of each loaded track: the track's,
/// the first search hit's, or those of the playlist's tracks that have one.
pub open spec fn addresses_to_store(load: TrackLoad<Option<String>>) -> Option<Seq<Seq<char>>> {
    match load {
        TrackLoad::Track(u) => Some(present(seq![u])),
        TrackLoad::Search(v) => Some(if v@.len() == 0 {
            Seq::empty()
        } else {
            present(seq![v@[0]])
        }),
        TrackLoad::Playlist(v) => Some(present(v@)),
        _ => None,
    }
}

/// The address of a loaded track, if it has one.
pub open spec fn address_of(u: Option<String>) -> Option<Seq<char>> {
    match u {
        Some(s) => Some(s@),
        None => None,
    }
}

/// `present` keeps the addresses of the tracks that have one, in order.
proof fn lemma_present_is_filter(us: Seq<Option<String>>)
    ensures
        present(us) == us.filter_map(|u: Option<String>| address_of(u)),
    decreases us.len(),
{
    if us.len() > 0 {
        lemma_present_is_filter(us.drop_last());
    }
}

/// An add stores the addresses of the loaded tracks it considers, each once and in order,
/// leaving out tracks without one: the single track, the first search hit, or every track of
/// a playlist; a failed load stores nothing. In particular one loaded track with an address
/// stores exactly that address.
pub proof fn lemma_stored_addresses(load: TrackLoad<Option<String>>)
    ensures
        match load {
            TrackLoad::Track(u) => addresses_to_store(load) == Some(
                seq![u].filter_map(|x: Option<String>| address_of(x)),
            ),
            TrackLoad::Search(v) => addresses_to_store(load) == Some(
                v@.take(if v@.len() > 0 { 1int } else { 0int }).filter_map(|x: Option<String>| address_of(x)),
            ),
            TrackLoad::Playlist(v) => addresses_to_store(load) == Some(
                v@.filter_map(|x: Option<String>| address_of(x)),
            ),
            _ => addresses_to_store(load) is None,
        },
        load matches TrackLoad::Track(Some(u)) ==> addresses_to_store(load) == Some(seq![u@]),
        addresses_to_store(load) matches Some(s) ==> s.len() <= match load {
            TrackLoad::Playlist(v) => v@.len(),
            _ => 1,
        },
{
    match load {
        TrackLoad::Track(u) => {
            lemma_present_is_filter(seq![u]);
            lemma_present_len(seq![u]);
            reveal_with_fuel(Seq::filter_map, 2);
            assert(seq![u].drop_last() =~= Seq::<Option<String>>::empty());
        },
        TrackLoad::Search(v) => {
            if v@.len() > 0 {
                assert(v@.take(1) =~= seq![v@[0]]);
                lemma_present_is_filter(seq![v@[0]]);
                lemma_present_len(seq![v@[0]]);
                assert(seq![v@[0]].drop_last() =~= Seq::<Option<String>>::empty());
            } else {
                assert(v@.take(0) =~= Seq::<Option<String>>::empty());
            }
        },
        TrackLoad::Playlist(v) => {
            lemma_present_is_filter(v@);
            lemma_present_len(v@);
        },
        _ => {},
    }
}

/// `present` never holds more addresses than there are tracks.
proof fn lemma_present_len(us: Seq<Option<String>>)
    ensures
        present(us).len() <= us.len(),
    decreases us.len(),
{
    if us.len() > 0 {
        lemma_present_len(us.drop_last());
    }
}

/// The addresses of the tracks that have one.
fn present_addresses(v: &Vec<Option<String>>) -> (r: Vec<String>)
    ensures
        r@.map_values(|u: String| u@) == present(v@),
{
    let mut r: Vec<String> = Vec::new();
    let mut i: usize = 0;
    assert(v@.take(0) =~= Seq::<Option<String>>::empty());
    while i < v.len()
        invariant
            i <= v.len(),
            r@.map_values(|u: String| u@) == present(v@.take(i as int)),
        decreases v.len() - i,
    {
        assert(v@.take(i + 1).drop_last() =~= v@.take(i as int));
        assert(v@.take(i + 1).last() == v@[i as int]);
        match &v[i] {
            Some(u) => {
                let ghost before = r@;
                r.push(u.clone());
                assert(r@.map_values(|u: String| u@) =~= before.map_values(|u: String| u@).push(u@));
            },
            None => {},
        }
        i = i + 1;
    }
    assert(v@.take(v@.len() as int) =~= v@);
    r
}

/// The addresses to append for an add request (see [`addresses_to_store`]);
/// `NoTracksFound` when nothing was loaded or no track has an address.
pub fn addresses_for_add(load: &TrackLoad<Option<String>>) -> (r: Result<Vec<String>, BotError>)
    ensures
        match addresses_to_store(*load) {
            Some(s) => if s.len() == 0 {
                r matches Err(BotError::NoTracksFound)
            } else {
                r matches Ok(v) && v@.map_values(|u: String| u@) == s
            },
            None => r matches Err(BotError::NoTracksFound),
        },
{
    let found = match load {
        TrackLoad::Track(u) => {
            let mut one: Vec<Option<String>> = Vec::new();
            one.push(u.clone());
            assert(one@ =~= seq![*u]);
            present_addresses(&one)
        },
        TrackLoad::Search(v) => {
            if v.len() == 0 {
                Vec::new()
            } else {
                let mut one: Vec<Option<String>> = Vec::new();
                one.push(v[0].clone());
                assert(one@ =~= seq![v@[0]]);
                present_addresses(&one)
            }
        },
        TrackLoad::Playlist(v) => present_addresses(v),
        _ => {
            return Err(BotError::NoTracksFound);
        },
    };
    if found.len() == 0 {
        Err(BotError::NoTracksFound)
    } else {
        Ok(found)
    }
}

} // verus!

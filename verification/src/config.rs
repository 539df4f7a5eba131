//! The bot's settings and the password that guards the web panel.
use vstd::prelude::*;

use argon2::password_hash::{PasswordHasher, PasswordVerifier};

verus! {

/// All settings, as `config.toml` holds them.
#[derive(Debug, Clone)]
pub struct Config {
    pub discord: DiscordConfig,
    pub lavalink: LavalinkConfig,
    pub bot: BotConfig,
    pub ollama: OllamaConfig,
    pub comfy: ComfyUIConfig,
}

/// Access to Discord.
#[derive(Debug, Clone)]
pub struct DiscordConfig {
    pub token: String,
}

/// The Lavalink music node.
#[derive(Debug, Clone)]
pub struct LavalinkConfig {
    pub host: String,
    pub port: u16,
    pub password: String,
    pub is_ssl: bool,
}

/// Behaviour of the bot itself.
#[derive(Debug, Clone)]
pub struct BotConfig {
    pub inactivity_timeout_seconds: u64,
}

/// The language model server.
#[derive(Debug, Clone)]
pub struct OllamaConfig {
    pub base_url: String,
    pub model: String,
    pub api_key: Option<String>,
    pub system_prompt: Option<String>,
}

/// The image generation server and the nodes of its workflow that the bot fills in.
#[derive(Debug, Clone)]
pub struct ComfyUIConfig {
    pub base_url: String,
    pub ckpt_name: String,
    pub checkpoint_node_id: String,
    pub prompt_node_id: String,
    pub sampler_node_id: String,
    pub save_node_id: String,
    pub workflow: Option<String>,
}

/// The password set when no password hash is stored yet.
pub const DEFAULT_PASSWORD: &'static str = "password";

/// Whether Argon2 (default parameters) accepts `password` for the PHC string `phc`: the
/// string parses as a password hash and hashing `password` with its salt and parameters
/// gives its hash output.
pub uninterp spec fn argon2_accepts(phc: Seq<char>, password: Seq<char>) -> bool;

/// `PasswordHash::new` then `Argon2::default().verify_password` on the bytes of `password`:
/// true exactly when the stored hash parses and matches (claimed as [`argon2_accepts`], a
/// function of the two texts alone).
#[verifier::external_body]
fn argon2_verify(phc: &str, password: &str) -> (ok: bool)
    ensures
        ok == argon2_accepts(phc@, password@),
{
    match argon2::password_hash::PasswordHash::new(phc) {
        Ok(parsed) => argon2::Argon2::default().verify_password(password.as_bytes(), &parsed).is_ok(),
        Err(_) => false,
    }
}

/// Whether Argon2 takes `password` at all: its UTF-8 encoding is at most `MAX_PWD_LEN`
/// (`0xFFFFFFFF`) bytes long.
pub open spec fn hashable(password: Seq<char>) -> bool {
    vstd::utf8::encode_utf8(password).len() <= 0xFFFF_FFFF
}

/// `SaltString::generate(&mut OsRng)` and `Argon2::default().hash_password`: hashes
/// `password` with a fresh random 16-byte salt into a PHC string. Claimed: a string it
/// returns is accepted for the same password by [`argon2_verify`] (verification recomputes
/// the hash from the salt and parameters stored in the string); and it returns one exactly
/// when the password is [`hashable`] (with the default parameters and a 16-byte salt, the
/// source's only error left is `PwdTooLong`). Not claimed: which string.
#[verifier::external_body]
fn argon2_hash(password: &str) -> (phc: Option<String>)
    ensures
        phc matches Some(h) ==> argon2_accepts(h@, password@),
        phc is Some <==> hashable(password@),
{
    let salt = argon2::password_hash::SaltString::generate(&mut argon2::password_hash::rand_core::OsRng);
    match argon2::Argon2::default().hash_password(password.as_bytes(), &salt) {
        Ok(h) => Some(h.to_string()),
        Err(_) => None,
    }
}

/// Whether a login with `password` succeeds against the stored hash: never without one.
pub open spec fn password_matches(stored: Option<Seq<char>>, password: Seq<char>) -> bool {
    match stored {
        Some(h) => argon2_accepts(h, password),
        None => false,
    }
}

/// Hashing a new password failed.
#[derive(Debug)]
pub struct PasswordHashError;

impl Config {
    /// Checks `password` against the stored hash text, `None` when none could be read (see
    /// [`password_matches`]).
    pub fn verify_password(stored: Option<&str>, password: &str) -> (ok: bool)
        ensures
            ok == password_matches(match stored {
                Some(h) => Some(h@),
                None => None,
            }, password@),
    {
        match stored {
            Some(h) => argon2_verify(h, password),
            None => false,
        }
    }

    /// The hash to store for a new `password`. Whatever it is, logging in with `password`
    /// against it succeeds. It fails only for a password too long for Argon2 (see
    /// [`hashable`]).
    pub fn set_password(password: &str) -> (r: Result<String, PasswordHashError>)
        ensures
            r matches Ok(h) ==> password_matches(Some(h@), password@),
            r is Ok <==> hashable(password@),
    {
        match argon2_hash(password) {
            Some(h) => Ok(h),
            None => Err(PasswordHashError),
        }
    }
}

/// Whether `c` is an ASCII decimal digit.
pub open spec fn is_digit(c: char) -> bool {
    '0' <= c <= '9'
}

/// The number written by the decimal digits `d`.
pub open spec fn digits_value(d: Seq<char>) -> nat
    decreases d.len(),
{
    if d.len() == 0 {
        0
    } else {
        digits_value(d.drop_last()) * 10 + (d.last() as nat - '0' as nat) as nat
    }
}

/// `s` without one leading `+`.
pub open spec fn unsigned_part(s: Seq<char>) -> Seq<char> {
    if s.len() > 0 && s[0] == '+' {
        s.drop_first()
    } else {
        s
    }
}

/// Whether every character of `d` is a decimal digit.
pub open spec fn all_digits(d: Seq<char>) -> bool {
    forall|k: int| 0 <= k < d.len() ==> is_digit(#[trigger] d[k])
}

/// The port number that `s` writes, as `u16::from_str` reads it: an optional `+`, then one
/// or more decimal digits whose value fits in 16 bits.
pub open spec fn port_of(s: Seq<char>) -> Option<u16> {
    let d = unsigned_part(s);
    if d.len() > 0 && all_digits(d) && digits_value(d) <= 65535 {
        Some(digits_value(d) as u16)
    } else {
        None
    }
}

/// Reads a port number (see [`port_of`]).
pub fn parse_port(s: &str) -> (p: Option<u16>)
    ensures
        p == port_of(s@),
{
    let v = crate::text::chars_of(s);
    let start: usize = if v.len() > 0 && v[0] == '+' {
        1
    } else {
        0
    };
    let ghost d = v@.skip(start as int);
    assert(d == unsigned_part(s@)) by {
        if start == 1 {
            assert(v@.skip(1) =~= s@.drop_first());
        } else {
            assert(v@.skip(0) =~= s@);
        }
    }
    if start == v.len() {
        assert(d.len() == 0);
        assert(port_of(s@) is None);
        return None;
    }
    let mut val: u32 = 0;
    let mut overflow = false;
    let mut i = start;
    assert(d.take(0) =~= Seq::<char>::empty());
    while i < v.len()
        invariant
            start <= i <= v.len(),
            d == v@.skip(start as int),
            d == unsigned_part(s@),
            forall|k: int| 0 <= k < i - start ==> is_digit(#[trigger] d[k]),
            !overflow ==> val == digits_value(d.take(i - start)) && val <= 65535,
            overflow ==> digits_value(d.take(i - start)) > 65535,
        decreases v.len() - i,
    {
        let c = v[i];
        assert(d[i - start] == c);
        if !('0' <= c && c <= '9') {
            assert(!is_digit(d[i - start]));
            assert(!all_digits(d));
            return None;
        }
        let dig = (c as u32) - ('0' as u32);
        assert(d.take(i - start + 1).drop_last() =~= d.take(i - start));
        assert(d.take(i - start + 1).last() == c);
        if !overflow {
            let next = val * 10 + dig;
            if next > 65535 {
                overflow = true;
            } else {
                val = next;
            }
        }
        i = i + 1;
    }
    assert(d.take(d.len() as int) =~= d);
    if overflow {
        None
    } else {
        Some(val as u16)
    }
}

/// The address of the music node: `host:port`.
pub open spec fn node_address_text(host: Seq<char>, port: u16) -> Seq<char> {
    host + seq![':'] + crate::text::decimal(port as nat)
}

/// The address of the music node (see [`node_address_text`]).
pub fn node_address(host: &str, port: u16) -> (a: String)
    ensures
        a@ == node_address_text(host@, port),
{
    let mut v: Vec<char> = Vec::new();
    crate::text::push_str_chars(&mut v, host);
    v.push(':');
    crate::text::push_decimal(&mut v, port as u64);
    crate::text::string_from_chars(&v)
}

} // verus!

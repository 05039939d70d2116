//! Which model the scribe uses, and who the user is to git.
//!
//! The configuration of the room wins over the user's own. The API key is never
//! stored: the configuration holds the name of an environment variable, whose value
//! is read when it is needed.

use crate::git::{GitCommand, GitOutput, GitRun};
use crate::text;
use vstd::prelude::*;

verus! {

/// The name of the configuration file in the room's repository.
pub const PER_REPO_CONFIG: &'static str = ".vice.toml";

/// The name of the configuration file in the user's configuration directory.
pub const GLOBAL_CONFIG: &'static str = "config.toml";

/// The provider, the model, and where the API key is found.
#[derive(Debug, Clone)]
pub struct Config {
    pub provider: String,
    pub model: String,
    pub base_url: Option<String>,
    /// The name of the environment variable that holds the API key.
    pub api_key_env: String,
}

/// Why there is no configuration, no key or no identity.
#[derive(Debug)]
pub enum ConfigError {
    /// There is no configuration file.
    NotFound,
    /// A configuration file could not be understood.
    Parse(String),
    /// A configuration file could not be read.
    Io(String),
    /// The environment variable that should hold the API key is not set.
    MissingKeyEnv(String),
    /// git does not know who the user is.
    Identity(String),
}

/// What an error says.
pub open spec fn config_error_text(e: ConfigError) -> Seq<char> {
    match e {
        ConfigError::NotFound =>
            "no config found: create .vice.toml in the repo (see .vice.toml.example) or a global config"@,
        ConfigError::Parse(t) => "config parse error: "@ + t@,
        ConfigError::Io(t) => "config io error: "@ + t@,
        ConfigError::MissingKeyEnv(v) => "api key env var `"@ + v@ + "` is not set"@,
        ConfigError::Identity(t) => "git identity error: "@ + t@,
    }
}

impl ConfigError {
    /// What happened, in words.
    pub fn text(&self) -> (r: String)
        ensures
            r@ == config_error_text(*self),
    {
        match self {
            ConfigError::NotFound =>
                "no config found: create .vice.toml in the repo (see .vice.toml.example) or a global config".to_owned(),
            ConfigError::Parse(t) => text::concat("config parse error: ", t.as_str()),
            ConfigError::Io(t) => text::concat("config io error: ", t.as_str()),
            ConfigError::MissingKeyEnv(v) => text::wrap(
                "api key env var `",
                v.as_str(),
                "` is not set",
            ),
            ConfigError::Identity(t) => text::concat("git identity error: ", t.as_str()),
        }
    }
}

/// What was found at the place of a configuration file.
pub enum ConfigFile {
    /// No file.
    Absent,
    /// A file that could not be read.
    Unreadable(String),
    /// A file that is no configuration.
    Malformed(String),
    Parsed(Config),
}

/// What a configuration file comes to; nothing where there is none.
pub open spec fn file_outcome(f: ConfigFile) -> Option<Result<Config, ConfigError>> {
    match f {
        ConfigFile::Absent => None,
        ConfigFile::Unreadable(e) => Some(Err(ConfigError::Io(e))),
        ConfigFile::Malformed(e) => Some(Err(ConfigError::Parse(e))),
        ConfigFile::Parsed(c) => Some(Ok(c)),
    }
}

/// What a configuration file comes to; nothing where there is none.
fn outcome(f: ConfigFile) -> (r: Option<Result<Config, ConfigError>>)
    ensures
        r == file_outcome(f),
{
    match f {
        ConfigFile::Absent => None,
        ConfigFile::Unreadable(e) => Some(Err(ConfigError::Io(e))),
        ConfigFile::Malformed(e) => Some(Err(ConfigError::Parse(e))),
        ConfigFile::Parsed(c) => Some(Ok(c)),
    }
}

impl Config {
    /// The configuration of the room where there is a file for it, good or bad; else
    /// the user's own.
    pub fn load_from(per_repo: ConfigFile, global: Option<ConfigFile>) -> (r: Result<
        Config,
        ConfigError,
    >)
        ensures
            r == (match (file_outcome(per_repo), global) {
                (Some(found), _) => found,
                (None, Some(g)) => match file_outcome(g) {
                    Some(found) => found,
                    None => Err(ConfigError::NotFound),
                },
                (None, None) => Err(ConfigError::NotFound),
            }),
    {
        if let Some(found) = outcome(per_repo) {
            return found;
        }
        if let Some(g) = global {
            if let Some(found) = outcome(g) {
                return found;
            }
        }
        Err(ConfigError::NotFound)
    }

    /// The API key, where `value` is what the environment variable named by the
    /// configuration holds.
    pub fn resolve_api_key(&self, value: Option<String>) -> (r: Result<String, ConfigError>)
        ensures
            match value {
                Some(key) => r == Ok::<String, ConfigError>(key),
                None => r matches Err(ConfigError::MissingKeyEnv(v)) && v@ == self.api_key_env@,
            },
    {
        match value {
            Some(key) => Ok(key),
            None => Err(ConfigError::MissingKeyEnv(self.api_key_env.clone())),
        }
    }
}

/// Who the user is, as git knows it.
#[derive(Debug, Clone)]
pub struct Identity {
    pub name: String,
    pub email: String,
    /// The name of the user's log, safe in every file system.
    pub author_hash: String,
}

/// The value of a setting whose output is `stdout`.
pub open spec fn setting(stdout: Seq<u8>) -> Seq<char> {
    text::trimmed(text::lossy_text(stdout))
}

/// The value of the setting `key`, or why there is none.
pub fn git_config(key: &str, run: GitRun) -> (r: Result<String, ConfigError>)
    ensures
        match run {
            Err(e) => r matches Err(ConfigError::Identity(t)) && t@ == "git not runnable: "@ + e@,
            Ok(out) => if !out.success {
                r matches Err(ConfigError::Identity(t)) && t@ == "`git config --get "@ + key@
                    + "` failed — is git identity set?"@
            } else if setting(out.stdout@).len() == 0 {
                r matches Err(ConfigError::Identity(t)) && t@ == "git "@ + key@ + " is empty"@
            } else {
                r matches Ok(v) && v@ == setting(out.stdout@)
            },
        },
{
    match run {
        Err(e) => Err(ConfigError::Identity(text::concat("git not runnable: ", e.as_str()))),
        Ok(out) => {
            if !out.success {
                return Err(
                    ConfigError::Identity(
                        text::wrap("`git config --get ", key, "` failed — is git identity set?"),
                    ),
                );
            }
            let value = text::trim(text::lossy(&out.stdout).as_str());
            if value.as_str().is_empty() {
                return Err(ConfigError::Identity(text::wrap("git ", key, " is empty")));
            }
            Ok(value)
        },
    }
}

/// The commands that read the user's name and email address.
pub fn identity_commands() -> (r: (GitCommand, GitCommand))
    ensures
        r.0 matches GitCommand::Config { key } && key@ == "user.name"@,
        r.1 matches GitCommand::Config { key } && key@ == "user.email"@,
{
    (
        GitCommand::Config { key: "user.name".to_owned() },
        GitCommand::Config { key: "user.email".to_owned() },
    )
}

/// The setting that a command run came to, where it came to one.
pub open spec fn setting_of(run: GitRun) -> Option<Seq<char>> {
    match run {
        Ok(out) => if out.success && setting(out.stdout@).len() > 0 {
            Some(setting(out.stdout@))
        } else {
            None
        },
        Err(_) => None,
    }
}

/// Who the user is, from what git said of `user.name` and `user.email`. A name that
/// cannot be had is reported first.
pub fn git_identity_in(name: GitRun, email: GitRun) -> (r: Result<Identity, ConfigError>)
    ensures
        match (setting_of(name), setting_of(email)) {
            (Some(n), Some(e)) => r matches Ok(id) && id.name@ == n && id.email@ == e
                && id.author_hash@ == hash_text(e),
            (_, _) => r matches Err(ConfigError::Identity(_)),
        },
        setting_of(name) is None ==> (r matches Err(ConfigError::Identity(t)) && says_missing(
            t@,
            "user.name"@,
            name,
        )),
        setting_of(name) is Some && setting_of(email) is None ==> (r matches Err(
            ConfigError::Identity(t),
        ) && says_missing(t@, "user.email"@, email)),
{
    let name = match git_config("user.name", name) {
        Ok(v) => v,
        Err(e) => return Err(e),
    };
    let email = match git_config("user.email", email) {
        Ok(v) => v,
        Err(e) => return Err(e),
    };
    let author_hash = author_hash(email.as_str());
    Ok(Identity { name, email, author_hash })
}

/// Whether `t` says why the setting `key` cannot be had.
pub open spec fn says_missing(t: Seq<char>, key: Seq<char>, run: GitRun) -> bool {
    match run {
        Err(e) => t == "git not runnable: "@ + e@,
        Ok(out) => if !out.success {
            t == "`git config --get "@ + key + "` failed — is git identity set?"@
        } else {
            t == "git "@ + key + " is empty"@
        },
    }
}

/// The offset basis of the 64-bit FNV-1a hash.
pub const FNV_OFFSET: u64 = 0xcbf29ce484222325;

/// The prime of the 64-bit FNV-1a hash.
pub const FNV_PRIME: u64 = 0x00000100000001b3;

/// The 64-bit FNV-1a hash of `bytes`.
pub open spec fn fnv1a(bytes: Seq<u8>) -> u64
    decreases bytes.len(),
{
    if bytes.len() == 0 {
        FNV_OFFSET
    } else {
        (fnv1a(bytes.drop_last()) ^ (bytes.last() as u64)).wrapping_mul(FNV_PRIME)
    }
}

/// The last `n` hexadecimal digits of `h`.
pub open spec fn hex(h: u64, n: nat) -> Seq<char>
    decreases n,
{
    if n == 0 {
        Seq::empty()
    } else {
        hex(h / 16, (n - 1) as nat).push(text::digit((h % 16) as int))
    }
}

/// The last `n` hexadecimal digits of `h`.
fn hex_text(h: u64, n: u8) -> (r: String)
    ensures
        r@ == hex(h, n as nat),
    decreases n,
{
    if n == 0 {
        String::new()
    } else {
        let mut r = hex_text(h / 16, n - 1);
        r.push(text::digit_char((h % 16) as u8));
        r
    }
}

/// An ASCII capital as the small letter; every other character as it is.
pub open spec fn lower(c: char) -> char {
    if 'A' <= c <= 'Z' {
        (c as u32 + 32) as char
    } else {
        c
    }
}

/// `s` with its ASCII capitals as small letters.
pub open spec fn lowered(s: Seq<char>) -> Seq<char> {
    s.map_values(|c: char| lower(c))
}

/// `s` with its ASCII capitals as small letters.
fn to_lower(s: &str) -> (r: String)
    ensures
        r@ == lowered(s@),
{
    let v = text::chars_of(s);
    let mut r = String::new();
    let mut i: usize = 0;
    while i < v.len()
        invariant
            i <= v.len(),
            r@.len() == i,
            forall|j: int| 0 <= j < i ==> #[trigger] r@[j] == lower(v@[j]),
        decreases v.len() - i,
    {
        let c = v[i];
        if 'A' <= c && c <= 'Z' {
            r.push((c as u8 + 32) as char);
        } else {
            r.push(c);
        }
        i += 1;
    }
    assert(r@ == lowered(s@));
    r
}

/// The form of an email address that is hashed.
pub open spec fn hashed_form(email: Seq<char>) -> Seq<char> {
    lowered(text::trimmed(email))
}

/// The name of the log of the author with this email address.
pub open spec fn hash_text(email: Seq<char>) -> Seq<char> {
    hex(fnv1a(vstd::utf8::encode_utf8(hashed_form(email))), 16)
}

/// The name of the log of the author with this email address: the FNV-1a hash of
/// the address, without regard to case, in sixteen hexadecimal digits.
pub fn author_hash(email: &str) -> (r: String)
    ensures
        r@ == hash_text(email@),
{
    let form = to_lower(text::trim(email).as_str());
    let bytes = form.as_str().as_bytes();
    let mut h: u64 = FNV_OFFSET;
    let mut i: usize = 0;
    assert(bytes@.take(0) == Seq::<u8>::empty());
    while i < bytes.len()
        invariant
            i <= bytes.len(),
            h == fnv1a(bytes@.take(i as int)),
        decreases bytes.len() - i,
    {
        assert(bytes@.take(i + 1).drop_last() == bytes@.take(i as int));
        h = (h ^ (bytes[i] as u64)).wrapping_mul(FNV_PRIME);
        i += 1;
    }
    assert(bytes@.take(bytes.len() as int) == bytes@);
    hex_text(h, 16)
}

/// The name of a log is sixteen hexadecimal digits, so it is safe in every file
/// system.
pub proof fn author_hash_is_file_safe(email: Seq<char>)
    ensures
        hash_text(email).len() == 16,
        forall|i: int|
            0 <= i < 16 ==> ('0' <= #[trigger] hash_text(email)[i] <= '9' || 'a' <= hash_text(
                email,
            )[i] <= 'f'),
{
    lemma_hex(fnv1a(vstd::utf8::encode_utf8(hashed_form(email))), 16);
}

proof fn lemma_hex(h: u64, n: nat)
    ensures
        hex(h, n).len() == n,
        forall|i: int|
            0 <= i < n ==> ('0' <= #[trigger] hex(h, n)[i] <= '9' || 'a' <= hex(h, n)[i] <= 'f'),
    decreases n,
{
    if n > 0 {
        lemma_hex(h / 16, (n - 1) as nat);
    }
}

/// An author is the same whatever the case of the email address and whatever white
/// space surrounds it.
pub proof fn author_hash_ignores_case_and_padding(
    email: Seq<char>,
    before: Seq<char>,
    after: Seq<char>,
)
    requires
        forall|i: int| 0 <= i < before.len() ==> text::is_white(#[trigger] before[i]),
        forall|i: int| 0 <= i < after.len() ==> text::is_white(#[trigger] after[i]),
    ensures
        hash_text(before + email + after) == hash_text(email),
        hash_text(lowered(email)) == hash_text(email),
{
    text::lemma_trimmed_padding(email, before, after);
    lemma_trimmed_lowered(email);
    let t = text::trimmed(email);
    assert(lowered(lowered(t)) == lowered(t));
}

proof fn lemma_trimmed_lowered(s: Seq<char>)
    ensures
        text::trimmed(lowered(s)) == lowered(text::trimmed(s)),
{
    let l = lowered(s);
    let n = text::span(s, text::white());
    text::lemma_span(s, text::white());
    assert forall|i: int| 0 <= i < n implies text::white()(#[trigger] l[i]) by {
        assert(text::white()(s[i]));
    }
    text::lemma_span_is(l, text::white(), n);
    let t = s.skip(n as int);
    let lt = l.skip(n as int);
    assert(lt == lowered(t));
    let m = text::span_back(t, text::white());
    let back = t.reverse();
    let lback = lt.reverse();
    text::lemma_span(back, text::white());
    assert forall|i: int| 0 <= i < m implies text::white()(#[trigger] lback[i]) by {
        assert(text::white()(back[i]));
        assert(lback[i] == lower(back[i]));
    }
    if m < lback.len() {
        assert(lback[m as int] == lower(back[m as int]));
    }
    text::lemma_span_is(lback, text::white(), m);
    assert(lt.take(lt.len() - m) == lowered(t.take(t.len() - m)));
}

/// The configuration of the room wins: where there is a file for it, the user's own does
/// not count, whatever either says. Where there is none, the user's own is taken as it is;
/// and without either there is no configuration.
pub proof fn room_configuration_wins(
    per_repo: ConfigFile,
    global: Option<ConfigFile>,
    r: Result<Config, ConfigError>,
)
    requires
        call_ensures(Config::load_from, (per_repo, global), r),
    ensures
        per_repo matches ConfigFile::Parsed(c) ==> r == Ok::<Config, ConfigError>(c),
        per_repo matches ConfigFile::Malformed(e) ==> r == Err::<Config, ConfigError>(
            ConfigError::Parse(e),
        ),
        per_repo matches ConfigFile::Unreadable(e) ==> r == Err::<Config, ConfigError>(
            ConfigError::Io(e),
        ),
        per_repo is Absent && global is Some ==> match global->0 {
            ConfigFile::Parsed(c) => r == Ok::<Config, ConfigError>(c),
            ConfigFile::Malformed(e) => r == Err::<Config, ConfigError>(ConfigError::Parse(e)),
            ConfigFile::Unreadable(e) => r == Err::<Config, ConfigError>(ConfigError::Io(e)),
            ConfigFile::Absent => r == Err::<Config, ConfigError>(ConfigError::NotFound),
        },
        per_repo is Absent && global is None ==> r == Err::<Config, ConfigError>(
            ConfigError::NotFound,
        ),
{
}

/// The key is what the environment holds, and where it holds none, the variable is named.
pub proof fn key_comes_from_the_environment(cfg: &Config, value: Option<String>, r: Result<
    String,
    ConfigError,
>)
    requires
        call_ensures(Config::resolve_api_key, (cfg, value), r),
    ensures
        r is Ok <==> value is Some,
        r is Ok ==> r->Ok_0@ == value->0@,
        r is Err ==> r->Err_0 is MissingKeyEnv && r->Err_0->MissingKeyEnv_0@ == cfg.api_key_env@,
{
}

/// The user is who git says: the name and the address are all that git printed for them,
/// but for the white space around it, and the user's log is named after the address.
pub proof fn user_is_who_git_says(
    name: GitRun,
    email: GitRun,
    r: Result<Identity, ConfigError>,
    address: &str,
    hash: String,
) -> (cut: ((Seq<char>, Seq<char>), (Seq<char>, Seq<char>)))
    requires
        call_ensures(git_identity_in, (name, email), r),
        r is Ok,
        address@ == r->Ok_0.email@,
        call_ensures(author_hash, (address,), hash),
    ensures
        name is Ok && name->Ok_0.success,
        email is Ok && email->Ok_0.success,
        text::lossy_text(name->Ok_0.stdout@) == cut.0.0 + r->Ok_0.name@ + cut.0.1,
        text::lossy_text(email->Ok_0.stdout@) == cut.1.0 + r->Ok_0.email@ + cut.1.1,
        forall|i: int| 0 <= i < cut.0.0.len() ==> text::is_white(#[trigger] cut.0.0[i]),
        forall|i: int| 0 <= i < cut.0.1.len() ==> text::is_white(#[trigger] cut.0.1[i]),
        forall|i: int| 0 <= i < cut.1.0.len() ==> text::is_white(#[trigger] cut.1.0[i]),
        forall|i: int| 0 <= i < cut.1.1.len() ==> text::is_white(#[trigger] cut.1.1[i]),
        r->Ok_0.name@.len() > 0,
        r->Ok_0.email@.len() > 0,
        r->Ok_0.author_hash@ == hash@,
{
    (
        text::lemma_trimmed(text::lossy_text(name->Ok_0.stdout@)),
        text::lemma_trimmed(text::lossy_text(email->Ok_0.stdout@)),
    )
}

/// How many numbers `n` hexadecimal digits tell apart.
spec fn hex_range(n: nat) -> int
    decreases n,
{
    if n == 0 {
        1
    } else {
        16 * hex_range((n - 1) as nat)
    }
}

proof fn lemma_hex_tells(a: u64, b: u64, n: nat)
    requires
        hex(a, n) == hex(b, n),
        a < hex_range(n),
        b < hex_range(n),
    ensures
        a == b,
    decreases n,
{
    if n > 0 {
        let m = (n - 1) as nat;
        let (x, y) = (hex(a, n), hex(b, n));
        assert(x.drop_last() =~= hex(a / 16, m));
        assert(y.drop_last() =~= hex(b / 16, m));
        assert(x.last() == text::digit((a % 16) as int));
        assert(y.last() == text::digit((b % 16) as int));
        lemma_hex_tells(a / 16, b / 16, m);
        assert(a % 16 == b % 16);
    }
}

/// Multiplying by the prime loses nothing.
proof fn lemma_mul_tells(a: u64, b: u64)
    requires
        a.wrapping_mul(FNV_PRIME) == b.wrapping_mul(FNV_PRIME),
    ensures
        a == b,
{
    let range: int = 0x1_0000_0000_0000_0000int;
    let prime: int = 0x100_0000_01b3int;
    let (x, y) = (a as int * prime, b as int * prime);
    assert(x % range == y % range);
    let q: int = x / range - y / range;
    assert(x - y == q * range);
    let inverse: int = 14886173955864302971int;
    let turns: int = 887285111055int;
    assert(prime * inverse == 1 + turns * range);
    let d: int = q * inverse - (a - b) * turns;
    assert((a - b) * (prime * inverse) == q * inverse * range) by (nonlinear_arith)
        requires
            (a - b) * prime == q * range,
    ;
    assert(a - b == range * d) by (nonlinear_arith)
        requires
            (a - b) * (prime * inverse) == q * inverse * range,
            prime * inverse == 1 + turns * range,
            d == q * inverse - (a - b) * turns,
    ;
}

proof fn lemma_hash_tells(x: Seq<u8>, y: Seq<u8>, k: int)
    requires
        x.len() == y.len(),
        0 <= k < x.len(),
        x[k] != y[k],
        forall|i: int| 0 <= i < x.len() && i != k ==> #[trigger] x[i] == y[i],
    ensures
        fnv1a(x) != fnv1a(y),
    decreases x.len(),
{
    let (u, v) = (x.drop_last(), y.drop_last());
    let (a, b) = (fnv1a(u), fnv1a(v));
    let (c, d) = (x.last() as u64, y.last() as u64);
    if k == x.len() - 1 {
        assert(u =~= v);
        assert(a ^ c != a ^ d) by (bit_vector)
            requires
                c != d,
        ;
    } else {
        assert forall|i: int| 0 <= i < u.len() && i != k implies #[trigger] u[i] == v[i] by {
            assert(x[i] == y[i]);
        }
        lemma_hash_tells(u, v, k);
        assert(x[x.len() - 1] == y[x.len() - 1]);
        assert(a ^ c != b ^ c) by (bit_vector)
            requires
                a != b,
        ;
    }
    if fnv1a(x) == fnv1a(y) {
        lemma_mul_tells(a ^ c, b ^ d);
    }
}

proof fn lemma_ascii_bytes(s: Seq<char>)
    requires
        forall|i: int| 0 <= i < s.len() ==> '!' <= #[trigger] s[i] <= '~',
    ensures
        vstd::utf8::encode_utf8(s) == s.map_values(|c: char| c as u8),
    decreases s.len(),
{
    if s.len() > 0 {
        let rest = s.drop_first();
        assert forall|i: int| 0 <= i < rest.len() implies '!' <= #[trigger] rest[i] <= '~' by {
            assert(rest[i] == s[i + 1]);
        }
        lemma_ascii_bytes(rest);
        assert('!' <= s[0] <= '~');
        let c = s[0] as u32;
        assert((c & 0x7f) == c) by (bit_vector)
            requires
                c <= 0x7e,
        ;
        assert(vstd::utf8::encode_scalar(c) =~= seq![s[0] as u8]);
        assert(vstd::utf8::encode_utf8(s) =~= s.map_values(|c: char| c as u8));
    }
}

proof fn lemma_visible_form(s: Seq<char>)
    requires
        forall|i: int| 0 <= i < s.len() ==> '!' <= #[trigger] s[i] <= '~',
    ensures
        hashed_form(s) == lowered(s),
        forall|i: int| 0 <= i < lowered(s).len() ==> '!' <= #[trigger] lowered(s)[i] <= '~',
{
    assert forall|i: int| 0 <= i < lowered(s).len() implies '!' <= #[trigger] lowered(s)[i]
        <= '~' by {
        assert('!' <= s[i] <= '~');
    }
    let none = Seq::<char>::empty();
    assert(s =~= none + s + none);
    text::lemma_trimmed_is(s, none, s, none);
}

/// Two authors never share a log on account of a part of their addresses that does not
/// count: every character of an address counts. Addresses in ASCII that differ in just one
/// character, and not only in its case, give different names.
pub proof fn every_character_of_an_address_counts(
    a: &str,
    b: &str,
    before: Seq<char>,
    c: char,
    d: char,
    after: Seq<char>,
    of_a: String,
    of_b: String,
)
    requires
        call_ensures(author_hash, (a,), of_a),
        call_ensures(author_hash, (b,), of_b),
        a@ == before.push(c) + after,
        b@ == before.push(d) + after,
        forall|i: int| 0 <= i < before.len() ==> '!' <= #[trigger] before[i] <= '~',
        forall|i: int| 0 <= i < after.len() ==> '!' <= #[trigger] after[i] <= '~',
        '!' <= c <= '~' && !('A' <= c <= 'Z'),
        '!' <= d <= '~' && !('A' <= d <= 'Z'),
        c != d,
    ensures
        of_a@ != of_b@,
{
    let k = before.len() as int;
    assert forall|i: int| 0 <= i < a@.len() implies '!' <= #[trigger] a@[i] <= '~' && '!' <= b@[i]
        <= '~' by {
        if i < k {
            assert(a@[i] == before[i] && b@[i] == before[i]);
        } else if i > k {
            assert(a@[i] == after[i - k - 1] && b@[i] == after[i - k - 1]);
        }
    }
    lemma_visible_form(a@);
    lemma_visible_form(b@);
    let (x, y) = (lowered(a@), lowered(b@));
    lemma_ascii_bytes(x);
    lemma_ascii_bytes(y);
    let (u, v) = (x.map_values(|c: char| c as u8), y.map_values(|c: char| c as u8));
    assert(a@[k] == c && b@[k] == d);
    assert(x[k] == c && y[k] == d);
    assert(u[k] != v[k]);
    assert forall|i: int| 0 <= i < u.len() && i != k implies #[trigger] u[i] == v[i] by {
        if i < k {
            assert(a@[i] == before[i] && b@[i] == before[i]);
        } else {
            assert(a@[i] == after[i - k - 1] && b@[i] == after[i - k - 1]);
        }
    }
    lemma_hash_tells(u, v, k);
    assert(hex_range(16) == 0x1_0000_0000_0000_0000int) by {
        reveal_with_fuel(hex_range, 17);
    }
    if of_a@ == of_b@ {
        lemma_hex_tells(fnv1a(u), fnv1a(v), 16);
    }
}

/// What an error says holds what was reported, in full.
pub proof fn config_failure_says_why(e: ConfigError, r: String, why: String)
    requires
        call_ensures(ConfigError::text, (&e,), r),
        e == ConfigError::Parse(why) || e == ConfigError::Io(why) || e
            == ConfigError::MissingKeyEnv(why) || e == ConfigError::Identity(why),
    ensures
        text::has(r@, why@),
{
    let at = if e is Parse {
        "config parse error: "@.len()
    } else if e is Io {
        "config io error: "@.len()
    } else if e is MissingKeyEnv {
        "api key env var `"@.len()
    } else {
        "git identity error: "@.len()
    } as int;
    assert(r@.subrange(at, at + why@.len()) =~= why@);
    assert(text::stands_at(r@, why@, at));
}

/// A setting is what git printed, without the white space around it; there is none where
/// git failed or printed nothing.
pub proof fn setting_is_what_git_printed(key: &str, out: GitOutput, r: Result<
    String,
    ConfigError,
>) -> (cut: (Seq<char>, Seq<char>))
    requires
        call_ensures(git_config, (key, Ok::<GitOutput, String>(out)), r),
    ensures
        r is Ok ==> out.success && text::lossy_text(out.stdout@) == cut.0 + r->Ok_0@ + cut.1,
        r is Err ==> r->Err_0 is Identity && text::has(r->Err_0->Identity_0@, key@),
        r is Err && out.success ==> text::lossy_text(out.stdout@) == cut.0 + cut.1,
        forall|i: int| 0 <= i < cut.0.len() ==> text::is_white(#[trigger] cut.0[i]),
        forall|i: int| 0 <= i < cut.1.len() ==> text::is_white(#[trigger] cut.1[i]),
{
    let printed = text::lossy_text(out.stdout@);
    let cut = text::lemma_trimmed(printed);
    if r is Err {
        let said = r->Err_0->Identity_0@;
        let at = if !out.success {
            "`git config --get "@.len()
        } else {
            "git "@.len()
        } as int;
        assert(said.subrange(at, at + key@.len()) =~= key@);
        assert(text::stands_at(said, key@, at));
        if out.success {
            assert(text::trimmed(printed) =~= Seq::<char>::empty());
            assert(printed =~= cut.0 + cut.1);
        }
    }
    cut
}

} // verus!

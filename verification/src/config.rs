//! Configuration lookup: environment variables, `~/.h33/config.toml`,
//! `.env` and `.env.local`, in that order of priority.
//!
//! Reading the environment and the files is left to the caller, which
//! hands their contents over in a [`ConfigSources`].

use vstd::prelude::*;
use crate::text::{chars_eq, chars_of, find_char, index_of_char, lines, slice_chars, split_lines, string_of, trim, trim_chars};

verus! {

// ---------------------------------------------------------------- quoting

/// The value is wrapped in a pair of matching quote characters: at least
/// two characters, the first and the last the same quote.
pub open spec fn is_quoted(v: Seq<char>) -> bool {
    v.len() >= 2 && ((v[0] == '"' && v.last() == '"') || (v[0] == '\'' && v.last() == '\''))
}

/// The value with one pair of surrounding quotes removed. A value that is
/// a single quote character has no pair and is kept as it is.
pub open spec fn unquote(v: Seq<char>) -> Seq<char> {
    if is_quoted(v) {
        v.subrange(1, v.len() - 1)
    } else {
        v
    }
}

fn unquote_chars(v: Vec<char>) -> (r: Vec<char>)
    ensures
        r@ == unquote(v@),
{
    let n = v.len();
    if n >= 2 && ((v[0] == '"' && v[n - 1] == '"') || (v[0] == '\'' && v[n - 1] == '\'')) {
        slice_chars(&v, 1, n - 1)
    } else {
        v
    }
}

/// The key and the value of a line `key = value`: the trimmed text before
/// the first `=`, and the trimmed, unquoted text after it.
pub open spec fn key_value(t: Seq<char>) -> Option<(Seq<char>, Seq<char>)> {
    match find_char(t, '=') {
        Some(eq) => Some((trim(t.take(eq)), unquote(trim(t.skip(eq + 1))))),
        None => None,
    }
}

fn split_key_value(t: &Vec<char>) -> (r: Option<(Vec<char>, Vec<char>)>)
    ensures
        r matches Some(p) ==> key_value(t@) == Some((p.0@, p.1@)),
        r is None ==> key_value(t@) is None,
{
    match index_of_char(t, '=') {
        Some(eq) => {
            let n = t.len();
            assert(eq < n);
            let k = trim_chars(&slice_chars(t, 0, eq));
            let v = trim_chars(&slice_chars(t, eq + 1, n));
            assert(t@.subrange(0, eq as int) == t@.take(eq as int));
            assert(t@.subrange(eq + 1, t@.len() as int) == t@.skip(eq + 1));
            Some((k, unquote_chars(v)))
        },
        None => None,
    }
}

// ---------------------------------------------------------------- .env files

/// The `(key, value)` entry a line of a `.env` file holds: none for blank
/// lines, comments (`#`), section headers (`[`) and lines without `=`.
/// Key and value are trimmed, and one pair of quotes around the value
/// is removed.
pub open spec fn env_line_entry(line: Seq<char>) -> Option<(Seq<char>, Seq<char>)> {
    let t = trim(line);
    if t.len() == 0 || t[0] == '#' || t[0] == '[' {
        None
    } else {
        key_value(t)
    }
}

/// The entries of a sequence of lines, in order.
pub open spec fn env_entries(ls: Seq<Seq<char>>) -> Seq<(Seq<char>, Seq<char>)>
    decreases ls.len(),
{
    if ls.len() == 0 {
        seq![]
    } else {
        let rest = env_entries(ls.drop_last());
        match env_line_entry(ls.last()) {
            Some(e) => rest.push(e),
            None => rest,
        }
    }
}

/// The value a key has in a list of entries where a later entry
/// replaces an earlier one.
pub open spec fn last_value(entries: Seq<(Seq<char>, Seq<char>)>, key: Seq<char>) -> Option<
    Seq<char>,
>
    decreases entries.len(),
{
    if entries.len() == 0 {
        None
    } else if entries.last().0 == key {
        Some(entries.last().1)
    } else {
        last_value(entries.drop_last(), key)
    }
}

/// The view of a list of string pairs.
pub open spec fn pairs_view(v: Seq<(String, String)>) -> Seq<(Seq<char>, Seq<char>)> {
    v.map_values(|p: (String, String)| (p.0@, p.1@))
}

/// Parses one line of a `.env` file.
fn parse_env_line(line: &Vec<char>) -> (r: Option<(String, String)>)
    ensures
        r matches Some(p) ==> env_line_entry(line@) == Some((p.0@, p.1@)),
        r is None ==> env_line_entry(line@) is None,
{
    let t = trim_chars(line);
    if t.len() == 0 || t[0] == '#' || t[0] == '[' {
        return None;
    }
    match split_key_value(&t) {
        Some((k, v)) => Some((string_of(&k), string_of(&v))),
        None => None,
    }
}

/// Parse the contents of a `.env` file into its `(key, value)` entries,
/// in file order. Quoted values are stripped.
pub fn parse_env_file(content: &str) -> (r: Vec<(String, String)>)
    ensures
        pairs_view(r@) == env_entries(lines(content@)),
{
    let cs = chars_of(content);
    let ls = split_lines(&cs);
    let ghost lsv = lines(content@);
    let mut out: Vec<(String, String)> = Vec::new();
    let mut k: usize = 0;
    while k < ls.len()
        invariant
            lsv == lines(content@),
            ls@.len() == lsv.len(),
            forall|j: int| 0 <= j < ls@.len() ==> #[trigger] ls@[j]@ == lsv[j],
            k <= ls@.len(),
            pairs_view(out@) == env_entries(lsv.take(k as int)),
        decreases ls@.len() - k,
    {
        assert(lsv.take(k + 1).drop_last() == lsv.take(k as int));
        assert(lsv.take(k + 1).last() == lsv[k as int]);
        match parse_env_line(&ls[k]) {
            Some(p) => {
                out.push(p);
            },
            None => {},
        }
        assert(pairs_view(out@) == env_entries(lsv.take(k + 1)));
        k = k + 1;
    }
    assert(lsv.take(lsv.len() as int) == lsv);
    out
}

} // verus!

verus! {

// ---------------------------------------------------------------- keys

/// The configuration values the CLI looks up.
#[derive(Clone, Copy, PartialEq, Eq, Debug)]
pub enum ConfigKey {
    /// `H33_API_KEY` (`api_key` in `~/.h33/config.toml`).
    ApiKey,
    /// `H33_AGENT_TOKEN` (`agent_token`).
    AgentToken,
    /// `H33_API_BASE` (`api_base`).
    ApiBase,
}

/// The environment variable (and `.env` key) of a configuration value.
pub open spec fn env_name(k: ConfigKey) -> Seq<char> {
    match k {
        ConfigKey::ApiKey => "H33_API_KEY"@,
        ConfigKey::AgentToken => "H33_AGENT_TOKEN"@,
        ConfigKey::ApiBase => "H33_API_BASE"@,
    }
}

/// The key of a configuration value in `~/.h33/config.toml`.
pub open spec fn toml_name(k: ConfigKey) -> Seq<char> {
    match k {
        ConfigKey::ApiKey => "api_key"@,
        ConfigKey::AgentToken => "agent_token"@,
        ConfigKey::ApiBase => "api_base"@,
    }
}

impl ConfigKey {
    /// The environment variable of this value.
    pub fn env_var_name(self) -> (s: &'static str)
        ensures
            s@ == env_name(self),
    {
        match self {
            ConfigKey::ApiKey => "H33_API_KEY",
            ConfigKey::AgentToken => "H33_AGENT_TOKEN",
            ConfigKey::ApiBase => "H33_API_BASE",
        }
    }

    /// The key of this value in `~/.h33/config.toml`.
    pub fn toml_key(self) -> (s: &'static str)
        ensures
            s@ == toml_name(self),
    {
        match self {
            ConfigKey::ApiKey => "api_key",
            ConfigKey::AgentToken => "agent_token",
            ConfigKey::ApiBase => "api_base",
        }
    }
}

} // verus!

verus! {

// ---------------------------------------------------------------- ~/.h33/config.toml

/// The value a line of `config.toml` gives the key `tk`: the line reads
/// `key = value` with the key exactly `tk`; the value is trimmed and
/// unquoted, and it must not be empty.
pub open spec fn config_line_value(line: Seq<char>, tk: Seq<char>) -> Option<Seq<char>> {
    match key_value(trim(line)) {
        Some(kv) => if kv.0 == tk && kv.1.len() > 0 {
            Some(kv.1)
        } else {
            None
        },
        None => None,
    }
}

/// The value of the first line that gives one.
pub open spec fn config_value(ls: Seq<Seq<char>>, tk: Seq<char>) -> Option<Seq<char>>
    decreases ls.len(),
{
    if ls.len() == 0 {
        None
    } else {
        match config_line_value(ls[0], tk) {
            Some(v) => Some(v),
            None => config_value(ls.drop_first(), tk),
        }
    }
}

fn config_line(line: &Vec<char>, tk: &Vec<char>) -> (r: Option<String>)
    ensures
        r matches Some(v) ==> config_line_value(line@, tk@) == Some(v@),
        r is None ==> config_line_value(line@, tk@) is None,
{
    let t = trim_chars(line);
    match split_key_value(&t) {
        Some((k, v)) => {
            if chars_eq(&k, tk) && v.len() > 0 {
                Some(string_of(&v))
            } else {
                None
            }
        },
        None => None,
    }
}

/// The value of `key` in the contents of `~/.h33/config.toml`: the first
/// line `key = value` whose key is exactly the key's TOML name and whose
/// (unquoted) value is not empty.
pub fn from_h33_config(content: &str, key: ConfigKey) -> (r: Option<String>)
    ensures
        r matches Some(v) ==> config_value(lines(content@), toml_name(key)) == Some(v@),
        r is None ==> config_value(lines(content@), toml_name(key)) is None,
{
    let tk = chars_of(key.toml_key());
    let ls = split_lines(&chars_of(content));
    let ghost lsv = lines(content@);
    let mut k: usize = 0;
    assert(lsv.skip(0) == lsv);
    while k < ls.len()
        invariant
            lsv == lines(content@),
            tk@ == toml_name(key),
            ls@.len() == lsv.len(),
            forall|j: int| 0 <= j < ls@.len() ==> #[trigger] ls@[j]@ == lsv[j],
            k <= ls@.len(),
            config_value(lsv, tk@) == config_value(lsv.skip(k as int), tk@),
        decreases ls@.len() - k,
    {
        assert(lsv.skip(k as int)[0] == lsv[k as int]);
        assert(lsv.skip(k as int).drop_first() == lsv.skip(k + 1));
        match config_line(&ls[k], &tk) {
            Some(v) => {
                return Some(v);
            },
            None => {},
        }
        k = k + 1;
    }
    None
}

// ---------------------------------------------------------------- lookup

/// What the caller read for a lookup: the environment variables that are
/// set (name, value), and the contents of `~/.h33/config.toml`, `.env`
/// and `.env.local` where those files exist and could be read.
pub struct ConfigSources {
    /// Environment variables, by name.
    pub env: Vec<(String, String)>,
    /// Contents of `~/.h33/config.toml`.
    pub h33_config: Option<String>,
    /// Contents of `.env` in the current directory.
    pub dotenv: Option<String>,
    /// Contents of `.env.local` in the current directory.
    pub dotenv_local: Option<String>,
}

/// The value of the first entry named `key`.
pub open spec fn first_value(entries: Seq<(Seq<char>, Seq<char>)>, key: Seq<char>) -> Option<
    Seq<char>,
>
    decreases entries.len(),
{
    if entries.len() == 0 {
        None
    } else if entries[0].0 == key {
        Some(entries[0].1)
    } else {
        first_value(entries.drop_first(), key)
    }
}

/// A present, non-empty value.
pub open spec fn non_empty(o: Option<Seq<char>>) -> Option<Seq<char>> {
    match o {
        Some(v) => if v.len() > 0 {
            Some(v)
        } else {
            None
        },
        None => None,
    }
}

/// The value of `key` in a `.env` file's content, if it is not empty.
pub open spec fn dotenv_value(content: Option<String>, key: ConfigKey) -> Option<Seq<char>> {
    match content {
        Some(c) => non_empty(last_value(env_entries(lines(c@)), env_name(key))),
        None => None,
    }
}

/// The value of `key` in `~/.h33/config.toml`.
pub open spec fn h33_config_value(s: ConfigSources, key: ConfigKey) -> Option<Seq<char>> {
    match s.h33_config {
        Some(c) => config_value(lines(c@), toml_name(key)),
        None => None,
    }
}

/// The value of the environment variable of `key`, if set and not empty.
pub open spec fn env_value(s: ConfigSources, key: ConfigKey) -> Option<Seq<char>> {
    non_empty(first_value(pairs_view(s.env@), env_name(key)))
}

/// The value a lookup gives: the environment variable, else
/// `~/.h33/config.toml`, else `.env`, else `.env.local`; empty values
/// are passed over.
pub open spec fn lookup(s: ConfigSources, key: ConfigKey) -> Option<Seq<char>> {
    if env_value(s, key) is Some {
        env_value(s, key)
    } else if h33_config_value(s, key) is Some {
        h33_config_value(s, key)
    } else if dotenv_value(s.dotenv, key) is Some {
        dotenv_value(s.dotenv, key)
    } else {
        dotenv_value(s.dotenv_local, key)
    }
}

fn env_var_value(env: &Vec<(String, String)>, name: &Vec<char>) -> (r: Option<String>)
    ensures
        r matches Some(v) ==> first_value(pairs_view(env@), name@) == Some(v@),
        r is None ==> first_value(pairs_view(env@), name@) is None,
{
    let ghost pv = pairs_view(env@);
    let mut i: usize = 0;
    assert(pv.skip(0) == pv);
    while i < env.len()
        invariant
            pv == pairs_view(env@),
            i <= env@.len(),
            first_value(pv, name@) == first_value(pv.skip(i as int), name@),
        decreases env@.len() - i,
    {
        assert(pv.skip(i as int)[0] == pv[i as int]);
        assert(pv.skip(i as int).drop_first() == pv.skip(i + 1));
        let n = chars_of(env[i].0.as_str());
        if chars_eq(&n, name) {
            let v = chars_of(env[i].1.as_str());
            return Some(string_of(&v));
        }
        i = i + 1;
    }
    None
}

fn last_entry_value(entries: &Vec<(String, String)>, key: &Vec<char>) -> (r: Option<String>)
    ensures
        r matches Some(v) ==> last_value(pairs_view(entries@), key@) == Some(v@),
        r is None ==> last_value(pairs_view(entries@), key@) is None,
{
    let ghost pv = pairs_view(entries@);
    let mut i: usize = entries.len();
    assert(pv.take(pv.len() as int) == pv);
    while i > 0
        invariant
            pv == pairs_view(entries@),
            i <= entries@.len(),
            last_value(pv, key@) == last_value(pv.take(i as int), key@),
        decreases i,
    {
        assert(pv.take(i as int).last() == pv[i - 1]);
        assert(pv.take(i as int).drop_last() == pv.take(i - 1));
        let n = chars_of(entries[i - 1].0.as_str());
        if chars_eq(&n, key) {
            let v = chars_of(entries[i - 1].1.as_str());
            return Some(string_of(&v));
        }
        i = i - 1;
    }
    None
}

fn non_empty_string(o: Option<String>) -> (r: Option<String>)
    ensures
        r matches Some(v) ==> o matches Some(w) && v@ == w@ && v@.len() > 0,
        r is None ==> (o matches Some(w) ==> w@.len() == 0),
{
    match o {
        Some(v) => {
            let cs = chars_of(v.as_str());
            if cs.len() > 0 {
                Some(v)
            } else {
                None
            }
        },
        None => None,
    }
}

fn dotenv_lookup(content: &Option<String>, key: ConfigKey) -> (r: Option<String>)
    ensures
        r matches Some(v) ==> dotenv_value(*content, key) == Some(v@),
        r is None ==> dotenv_value(*content, key) is None,
{
    match content {
        Some(c) => {
            let entries = parse_env_file(c.as_str());
            let name = chars_of(key.env_var_name());
            non_empty_string(last_entry_value(&entries, &name))
        },
        None => None,
    }
}

/// Look a value up: environment variable, then `~/.h33/config.toml`,
/// then `.env`, then `.env.local`; empty values are passed over.
pub fn env_or_file(s: &ConfigSources, key: ConfigKey) -> (r: Option<String>)
    ensures
        r matches Some(v) ==> lookup(*s, key) == Some(v@),
        r is None ==> lookup(*s, key) is None,
        r matches Some(v) ==> v@.len() > 0,
{
    proof {
        lemma_lookup_non_empty(*s, key);
    }
    let name = chars_of(key.env_var_name());
    let e = non_empty_string(env_var_value(&s.env, &name));
    if e.is_some() {
        return e;
    }
    match &s.h33_config {
        Some(c) => {
            let v = from_h33_config(c.as_str(), key);
            if v.is_some() {
                return v;
            }
        },
        None => {},
    }
    let d = dotenv_lookup(&s.dotenv, key);
    if d.is_some() {
        return d;
    }
    dotenv_lookup(&s.dotenv_local, key)
}

/// The API key (`H33_API_KEY`).
pub fn api_key(s: &ConfigSources) -> (r: Option<String>)
    ensures
        r matches Some(v) ==> lookup(*s, ConfigKey::ApiKey) == Some(v@),
        r is None ==> lookup(*s, ConfigKey::ApiKey) is None,
{
    env_or_file(s, ConfigKey::ApiKey)
}

/// The agent capability token (`H33_AGENT_TOKEN`).
pub fn agent_token(s: &ConfigSources) -> (r: Option<String>)
    ensures
        r matches Some(v) ==> lookup(*s, ConfigKey::AgentToken) == Some(v@),
        r is None ==> lookup(*s, ConfigKey::AgentToken) is None,
{
    env_or_file(s, ConfigKey::AgentToken)
}

/// The API base URL override (`H33_API_BASE`).
pub fn api_base(s: &ConfigSources) -> (r: Option<String>)
    ensures
        r matches Some(v) ==> lookup(*s, ConfigKey::ApiBase) == Some(v@),
        r is None ==> lookup(*s, ConfigKey::ApiBase) is None,
{
    env_or_file(s, ConfigKey::ApiBase)
}

/// A required configuration value that no source gives.
#[derive(Clone, Copy, PartialEq, Eq, Debug)]
pub enum ConfigError {
    /// No `H33_API_KEY`.
    MissingApiKey,
    /// No `H33_AGENT_TOKEN`.
    MissingAgentToken,
    /// Neither an API key nor an agent token.
    MissingCredential,
}

/// The message shown for a missing value.
pub open spec fn spec_error_message(e: ConfigError) -> Seq<char> {
    match e {
        ConfigError::MissingApiKey => "H33_API_KEY not found. Run 'h33 init' to set up your account."@,
        ConfigError::MissingAgentToken => "H33_AGENT_TOKEN not found. Run 'h33 mint' to mint one."@,
        ConfigError::MissingCredential => "No API key found. Run 'h33 init' to set up your account."@,
    }
}

impl ConfigError {
    /// The message shown to the user.
    pub fn message(&self) -> (m: &'static str)
        ensures
            m@ == spec_error_message(*self),
    {
        match self {
            ConfigError::MissingApiKey =>
                "H33_API_KEY not found. Run 'h33 init' to set up your account.",
            ConfigError::MissingAgentToken =>
                "H33_AGENT_TOKEN not found. Run 'h33 mint' to mint one.",
            ConfigError::MissingCredential =>
                "No API key found. Run 'h33 init' to set up your account.",
        }
    }
}

/// The API key, or `MissingApiKey` where no source gives one.
pub fn require_api_key(s: &ConfigSources) -> (r: Result<String, ConfigError>)
    ensures
        r matches Ok(v) ==> lookup(*s, ConfigKey::ApiKey) == Some(v@),
        r matches Err(e) ==> e == ConfigError::MissingApiKey && lookup(*s, ConfigKey::ApiKey) is None,
{
    match api_key(s) {
        Some(v) => Ok(v),
        None => Err(ConfigError::MissingApiKey),
    }
}

/// The agent token, or `MissingAgentToken` where no source gives one.
pub fn require_agent_token(s: &ConfigSources) -> (r: Result<String, ConfigError>)
    ensures
        r matches Ok(v) ==> lookup(*s, ConfigKey::AgentToken) == Some(v@),
        r matches Err(e) ==> e == ConfigError::MissingAgentToken && lookup(
            *s,
            ConfigKey::AgentToken,
        ) is None,
{
    match agent_token(s) {
        Some(v) => Ok(v),
        None => Err(ConfigError::MissingAgentToken),
    }
}

/// The credential an attestation is made with: the API key, else the
/// agent token (which is only looked up when there is no API key).
pub open spec fn spec_attestation_credential(s: ConfigSources) -> Option<Seq<char>> {
    if lookup(s, ConfigKey::ApiKey) is Some {
        lookup(s, ConfigKey::ApiKey)
    } else {
        lookup(s, ConfigKey::AgentToken)
    }
}

/// The API key, else the agent token; `MissingCredential` when neither is set.
pub fn attestation_credential(s: &ConfigSources) -> (r: Result<String, ConfigError>)
    ensures
        r matches Ok(v) ==> spec_attestation_credential(*s) == Some(v@),
        r matches Err(e) ==> e == ConfigError::MissingCredential && spec_attestation_credential(
            *s,
        ) is None,
        lookup(*s, ConfigKey::ApiKey) matches Some(k) ==> (r matches Ok(v) && v@ == k),
        lookup(*s, ConfigKey::ApiKey) is None ==> (r matches Ok(v) ==> lookup(
            *s,
            ConfigKey::AgentToken,
        ) == Some(v@)),
        lookup(*s, ConfigKey::ApiKey) is None ==> (r is Err <==> lookup(
            *s,
            ConfigKey::AgentToken,
        ) is None),
{
    match api_key(s) {
        Some(k) => Ok(k),
        None => match agent_token(s) {
            Some(t) => Ok(t),
            None => Err(ConfigError::MissingCredential),
        },
    }
}

// ---------------------------------------------------------------- laws

/// A set, non-empty environment variable wins over every file.
pub proof fn lemma_env_var_wins(s: ConfigSources, key: ConfigKey)
    requires
        env_value(s, key) is Some,
    ensures
        lookup(s, key) == env_value(s, key),
{
}

/// `~/.h33/config.toml` wins over `.env` and `.env.local`.
pub proof fn lemma_h33_config_before_dotenv(s: ConfigSources, key: ConfigKey)
    requires
        env_value(s, key) is None,
        h33_config_value(s, key) is Some,
    ensures
        lookup(s, key) == h33_config_value(s, key),
{
}

/// Whatever a lookup gives is not empty: an empty value in one source
/// never hides a value in a later one.
pub proof fn lemma_lookup_non_empty(s: ConfigSources, key: ConfigKey)
    ensures
        lookup(s, key) matches Some(v) ==> v.len() > 0,
{
    match s.h33_config {
        Some(c) => lemma_config_value_non_empty(lines(c@), toml_name(key)),
        None => {},
    }
}

proof fn lemma_config_value_non_empty(ls: Seq<Seq<char>>, tk: Seq<char>)
    ensures
        config_value(ls, tk) matches Some(v) ==> v.len() > 0,
    decreases ls.len(),
{
    if ls.len() > 0 {
        lemma_config_value_non_empty(ls.drop_first(), tk);
    }
}

/// In a `.env` file, a later entry for a key replaces an earlier one.
pub proof fn lemma_dotenv_last_entry_wins(
    entries: Seq<(Seq<char>, Seq<char>)>,
    key: Seq<char>,
    value: Seq<char>,
)
    ensures
        last_value(entries.push((key, value)), key) == Some(value),
{
    assert(entries.push((key, value)).last() == (key, value));
}

/// Blank lines, comments and section headers hold no entry.
pub proof fn lemma_env_comment_lines(line: Seq<char>)
    requires
        trim(line).len() == 0 || trim(line)[0] == '#' || trim(line)[0] == '[',
    ensures
        env_line_entry(line) is None,
{
}

/// A `config.toml` line only counts for the key it names exactly: a line
/// whose key differs gives nothing.
pub proof fn lemma_config_key_exact(line: Seq<char>, tk: Seq<char>)
    requires
        key_value(trim(line)) matches Some(kv) && kv.0 != tk,
    ensures
        config_line_value(line, tk) is None,
{
}

/// A `.env` value that is a single quote character is read as it is.
pub proof fn lemma_lone_quote_kept(v: Seq<char>)
    requires
        v.len() == 1,
    ensures
        unquote(v) == v,
{
}

/// An attestation is made with the API key whenever a lookup finds one;
/// the agent token is used only when there is no API key, and no
/// credential is found only when neither is.
pub proof fn lemma_api_key_before_agent_token(s: ConfigSources)
    ensures
        lookup(s, ConfigKey::ApiKey) is Some ==> spec_attestation_credential(s) == lookup(
            s,
            ConfigKey::ApiKey,
        ),
        lookup(s, ConfigKey::ApiKey) is None ==> spec_attestation_credential(s) == lookup(
            s,
            ConfigKey::AgentToken,
        ),
        spec_attestation_credential(s) is None <==> (lookup(s, ConfigKey::ApiKey) is None && lookup(
            s,
            ConfigKey::AgentToken,
        ) is None),
{
}

} // verus!

//! Layered key-value configuration: the store, its typed readers, the
//! builder that merges file layers with environment overrides, and the
//! binding of the framework's own settings.
use vstd::prelude::*;

use crate::errors::{config_result, ConfigError, ConfigFault};
use crate::net::{
    ip_to_string, parse_ip_chars, parse_socket, spec_ip_text, spec_parse_ip, spec_parse_socket,
    IpAddress, SocketAddress,
};
use crate::text::{
    ascii_lower, ascii_lower_chars, chars_of, extend_chars, extend_str, has_prefix,
    parse_unsigned, parse_unsigned_chars, split, split_chars, split_once, split_once_chars,
    str_eq_chars, string_of, sub_chars, trim, trim_chars,
};

verus! {

// ---------------------------------------------------------------------------
// The store
// ---------------------------------------------------------------------------
/// The value stored under `k`; a later entry for the same key wins.
pub open spec fn lookup(s: Seq<(Seq<char>, Seq<char>)>, k: Seq<char>) -> Option<Seq<char>>
    decreases s.len(),
{
    if s.len() == 0 {
        None
    } else if s.last().0 == k {
        Some(s.last().1)
    } else {
        lookup(s.drop_last(), k)
    }
}

/// The key-value map that a list of entries denotes.
pub open spec fn entries_map(s: Seq<(Seq<char>, Seq<char>)>) -> Map<Seq<char>, Seq<char>> {
    Map::new(|k: Seq<char>| lookup(s, k) is Some, |k: Seq<char>| lookup(s, k)->0)
}

/// The abstract value of a list of string pairs.
pub open spec fn entry_pairs(v: Seq<(String, String)>) -> Seq<(Seq<char>, Seq<char>)> {
    v.map_values(|p: (String, String)| (p.0@, p.1@))
}

/// Layered key-value configuration: the resolved profile and environment
/// names, and the merged settings.
#[derive(Clone, Debug)]
pub struct Configuration {
    profile: String,
    environment: String,
    values: Vec<(String, String)>,
}

/// The abstract value of a configuration.
pub struct ConfigModel {
    pub profile: Seq<char>,
    pub environment: Seq<char>,
    pub values: Map<Seq<char>, Seq<char>>,
}

impl View for Configuration {
    type V = ConfigModel;

    closed spec fn view(&self) -> ConfigModel {
        ConfigModel {
            profile: self.profile@,
            environment: self.environment@,
            values: entries_map(entry_pairs(self.values@)),
        }
    }
}

/// The value of a key, if it is set.
pub open spec fn config_get(c: ConfigModel, key: Seq<char>) -> Option<Seq<char>> {
    if c.values.dom().contains(key) {
        Some(c.values[key])
    } else {
        None
    }
}

/// The value of the last of `keys` that is set: later aliases win.
pub open spec fn config_get_any(c: ConfigModel, keys: Seq<Seq<char>>) -> Option<Seq<char>>
    decreases keys.len(),
{
    if keys.len() == 0 {
        None
    } else {
        match config_get(c, keys.last()) {
            Some(v) => Some(v),
            None => config_get_any(c, keys.drop_last()),
        }
    }
}

/// The abstract value of a list of keys.
pub open spec fn key_texts(keys: Seq<&str>) -> Seq<Seq<char>> {
    keys.map_values(|k: &str| k@)
}

/// The boolean a setting's word denotes.
pub open spec fn bool_word(v: Seq<char>) -> Option<bool> {
    if v == "true"@ || v == "1"@ || v == "yes"@ || v == "on"@ {
        Some(true)
    } else if v == "false"@ || v == "0"@ || v == "no"@ || v == "off"@ {
        Some(false)
    } else {
        None
    }
}

/// Boolean words mean what they say: `true`, `1`, `yes` and `on` are
/// true, `false`, `0`, `no` and `off` are false, and no other word is a
/// boolean; a setting holding such a word reads as that boolean whatever
/// the default.
pub proof fn law_boolean_words(v: Seq<char>, key: Seq<char>, default: bool)
    ensures
        bool_word(v) == Some(true) <==> (v == "true"@ || v == "1"@ || v == "yes"@ || v == "on"@),
        bool_word(v) == Some(false) <==> (v == "false"@ || v == "0"@ || v == "no"@ || v == "off"@),
        (v == "true"@ || v == "1"@ || v == "yes"@ || v == "on"@) ==> bool_setting(Some(v), key, default)
            == Ok::<bool, ConfigFault>(true),
        (v == "false"@ || v == "0"@ || v == "no"@ || v == "off"@) ==> bool_setting(Some(v), key, default)
            == Ok::<bool, ConfigFault>(false),
{
    reveal_strlit("true");
    reveal_strlit("1");
    reveal_strlit("yes");
    reveal_strlit("on");
    reveal_strlit("false");
    reveal_strlit("0");
    reveal_strlit("no");
    reveal_strlit("off");
    assert("true"@ != "false"@) by {
        assert("true"@.len() != "false"@.len());
    }
    assert("true"@ != "0"@) by {
        assert("true"@.len() != "0"@.len());
    }
    assert("true"@ != "no"@) by {
        assert("true"@.len() != "no"@.len());
    }
    assert("true"@ != "off"@) by {
        assert("true"@.len() != "off"@.len());
    }
    assert("1"@ != "false"@) by {
        assert("1"@.len() != "false"@.len());
    }
    assert("1"@ != "0"@) by {
        assert("1"@[0] != "0"@[0]);
    }
    assert("1"@ != "no"@) by {
        assert("1"@.len() != "no"@.len());
    }
    assert("1"@ != "off"@) by {
        assert("1"@.len() != "off"@.len());
    }
    assert("yes"@ != "false"@) by {
        assert("yes"@.len() != "false"@.len());
    }
    assert("yes"@ != "0"@) by {
        assert("yes"@.len() != "0"@.len());
    }
    assert("yes"@ != "no"@) by {
        assert("yes"@.len() != "no"@.len());
    }
    assert("yes"@ != "off"@) by {
        assert("yes"@[0] != "off"@[0]);
    }
    assert("on"@ != "false"@) by {
        assert("on"@.len() != "false"@.len());
    }
    assert("on"@ != "0"@) by {
        assert("on"@.len() != "0"@.len());
    }
    assert("on"@ != "no"@) by {
        assert("on"@[0] != "no"@[0]);
    }
    assert("on"@ != "off"@) by {
        assert("on"@.len() != "off"@.len());
    }
}

/// A boolean setting: the default when unset, the word's value, or an
/// error naming `key`.
pub open spec fn bool_setting(found: Option<Seq<char>>, key: Seq<char>, default: bool) -> Result<
    bool,
    ConfigFault,
> {
    match found {
        None => Ok(default),
        Some(v) => match bool_word(v) {
            Some(b) => Ok(b),
            None => Err(ConfigFault::InvalidValue { key, value: v, expected: "boolean"@ }),
        },
    }
}

/// An unsigned setting of at most `max`: the default when unset, the
/// number, or an error naming `key` and the `expected` type.
pub open spec fn number_setting(
    found: Option<Seq<char>>,
    key: Seq<char>,
    default: nat,
    max: nat,
    expected: Seq<char>,
) -> Result<nat, ConfigFault> {
    match found {
        None => Ok(default),
        Some(v) => match parse_unsigned(v, max) {
            Some(n) => Ok(n),
            None => Err(ConfigFault::InvalidValue { key, value: v, expected }),
        },
    }
}

/// The boolean a word denotes (executable).
pub fn bool_word_exec(v: &[char]) -> (r: Option<bool>)
    ensures
        r == bool_word(v@),
{
    if str_eq_chars("true", v) || str_eq_chars("1", v) || str_eq_chars("yes", v) || str_eq_chars(
        "on",
        v,
    ) {
        Some(true)
    } else if str_eq_chars("false", v) || str_eq_chars("0", v) || str_eq_chars("no", v)
        || str_eq_chars("off", v) {
        Some(false)
    } else {
        None
    }
}

impl Configuration {
    /// A configuration with the given names and entries.
    pub fn from_parts(profile: String, environment: String, values: Vec<(String, String)>) -> (r:
        Self)
        ensures
            r@ == (ConfigModel {
                profile: profile@,
                environment: environment@,
                values: entries_map(entry_pairs(values@)),
            }),
    {
        Configuration { profile, environment, values }
    }

    /// The resolved profile name.
    pub fn profile(&self) -> (r: &str)
        ensures
            r@ == self@.profile,
    {
        self.profile.as_str()
    }

    /// The resolved environment name.
    pub fn environment(&self) -> (r: &str)
        ensures
            r@ == self@.environment,
    {
        self.environment.as_str()
    }

    /// The stored entries, in the order they were set.
    pub fn entries(&self) -> (r: &Vec<(String, String)>)
        ensures
            entries_map(entry_pairs(r@)) == self@.values,
    {
        &self.values
    }

    /// The raw value of a key.
    pub fn get(&self, key: &str) -> (r: Option<&str>)
        ensures
            match config_get(self@, key@) {
                Some(v) => r matches Some(x) && x@ == v,
                None => r is None,
            },
    {
        let ghost s = entry_pairs(self.values@);
        let k = chars_of(key);
        let n = self.values.len();
        let mut i: usize = n;
        assert(s.take(n as int) =~= s);
        while i > 0
            invariant
                i <= n,
                n == self.values.len(),
                s == entry_pairs(self.values@),
                k@ == key@,
                lookup(s, key@) == lookup(s.take(i as int), key@),
            decreases i,
        {
            assert(s.take(i as int).drop_last() =~= s.take(i - 1));
            if str_eq_chars(self.values[i - 1].0.as_str(), k.as_slice()) {
                return Some(self.values[i - 1].1.as_str());
            }
            i -= 1;
        }
        None
    }

    /// The value of the last of `keys` that is set: later aliases win, so
    /// environment-derived dotted keys can override hyphenated file keys.
    pub fn get_any(&self, keys: &[&str]) -> (r: Option<&str>)
        ensures
            match config_get_any(self@, key_texts(keys@)) {
                Some(v) => r matches Some(x) && x@ == v,
                None => r is None,
            },
    {
        let ghost ks = key_texts(keys@);
        let mut i: usize = keys.len();
        assert(ks.take(i as int) =~= ks);
        while i > 0
            invariant
                i <= keys.len(),
                ks == key_texts(keys@),
                config_get_any(self@, ks) == config_get_any(self@, ks.take(i as int)),
            decreases i,
        {
            assert(ks.take(i as int).drop_last() =~= ks.take(i - 1));
            assert(ks.take(i as int).last() == keys@[i - 1]@);
            match self.get(keys[i - 1]) {
                Some(v) => {
                    return Some(v);
                },
                None => {},
            }
            i -= 1;
        }
        None
    }

    /// The value of a key, or `default` when it is unset.
    pub fn get_string(&self, key: &str, default: &str) -> (r: String)
        ensures
            r@ == match config_get(self@, key@) {
                Some(v) => v,
                None => default@,
            },
    {
        match self.get(key) {
            Some(v) => v.to_string(),
            None => default.to_string(),
        }
    }

    /// A boolean key: `true`, `1`, `yes`, `on` or `false`, `0`, `no`, `off`.
    pub fn get_bool(&self, key: &'static str, default: bool) -> (r: Result<bool, ConfigError>)
        ensures
            config_result(r) == bool_setting(config_get(self@, key@), key@, default),
    {
        match self.get(key) {
            None => Ok(default),
            Some(value) => {
                let v = chars_of(value);
                match bool_word_exec(v.as_slice()) {
                    Some(b) => Ok(b),
                    None => Err(
                        ConfigError::InvalidValue {
                            key,
                            value: value.to_string(),
                            expected: "boolean",
                        },
                    ),
                }
            },
        }
    }

    /// An unsigned 64-bit key.
    pub fn get_u64(&self, key: &'static str, default: u64) -> (r: Result<u64, ConfigError>)
        ensures
            match number_setting(
                config_get(self@, key@),
                key@,
                default as nat,
                u64::MAX as nat,
                "u64"@,
            ) {
                Ok(n) => r == Ok::<u64, ConfigError>(n as u64),
                Err(f) => r matches Err(e) && e@ == f,
            },
    {
        match self.get(key) {
            None => Ok(default),
            Some(value) => {
                let v = chars_of(value);
                match parse_unsigned_chars(v.as_slice(), u64::MAX) {
                    Some(n) => Ok(n),
                    None => Err(
                        ConfigError::InvalidValue { key, value: value.to_string(), expected: "u64" },
                    ),
                }
            },
        }
    }

    /// An unsigned machine-word key.
    pub fn get_usize(&self, key: &'static str, default: usize) -> (r: Result<usize, ConfigError>)
        ensures
            match number_setting(
                config_get(self@, key@),
                key@,
                default as nat,
                usize::MAX as nat,
                "usize"@,
            ) {
                Ok(n) => r == Ok::<usize, ConfigError>(n as usize),
                Err(f) => r matches Err(e) && e@ == f,
            },
    {
        match self.get(key) {
            None => Ok(default),
            Some(value) => {
                let v = chars_of(value);
                match parse_unsigned_chars(v.as_slice(), usize::MAX as u64) {
                    Some(n) => Ok(n as usize),
                    None => Err(
                        ConfigError::InvalidValue {
                            key,
                            value: value.to_string(),
                            expected: "usize",
                        },
                    ),
                }
            },
        }
    }
}


// ---------------------------------------------------------------------------
// Editing entry lists
// ---------------------------------------------------------------------------
/// Replacing the last entry for `k` sets `k` and leaves every other key.
proof fn lemma_lookup_set(s: Seq<(Seq<char>, Seq<char>)>, i: int, k: Seq<char>, v: Seq<char>, j: Seq<char>)
    requires
        0 <= i < s.len(),
        s[i].0 == k,
        forall|m: int| i < m < s.len() ==> #[trigger] s[m].0 != k,
    ensures
        lookup(s.update(i, (k, v)), j) == if j == k {
            Some(v)
        } else {
            lookup(s, j)
        },
    decreases s.len(),
{
    let t = s.update(i, (k, v));
    if i == s.len() - 1 {
        assert(t.drop_last() =~= s.drop_last());
    } else {
        assert(t.drop_last() =~= s.drop_last().update(i, (k, v)));
        assert(s[s.len() - 1].0 != k);
        lemma_lookup_set(s.drop_last(), i, k, v, j);
    }
}

/// Appending an entry for `k` sets `k` and leaves every other key.
proof fn lemma_lookup_push(s: Seq<(Seq<char>, Seq<char>)>, k: Seq<char>, v: Seq<char>, j: Seq<char>)
    ensures
        lookup(s.push((k, v)), j) == if j == k {
            Some(v)
        } else {
            lookup(s, j)
        },
{
    assert(s.push((k, v)).drop_last() =~= s);
}

/// Sets `k` to `v` in a list of entries, replacing its entry when it has one.
pub fn set_entry(values: &mut Vec<(String, String)>, k: String, v: String)
    ensures
        entries_map(entry_pairs(final(values)@)) == entries_map(entry_pairs(old(values)@)).insert(
            k@,
            v@,
        ),
{
    let ghost s = entry_pairs(values@);
    let ghost kv = k@;
    let ghost vv = v@;
    let kc = chars_of(k.as_str());
    let n = values.len();
    let mut i: usize = n;
    let mut found = false;
    while i > 0
        invariant_except_break
            i <= n,
            n == values.len(),
            s == entry_pairs(values@),
            kc@ == kv,
            forall|m: int| i <= m < n ==> #[trigger] s[m].0 != kv,
            !found,
        ensures
            i <= n,
            n == values.len(),
            s == entry_pairs(values@),
            found ==> 0 < i && s[i - 1].0 == kv,
            forall|m: int| i <= m < n ==> #[trigger] s[m].0 != kv,
        decreases i,
    {
        if str_eq_chars(values[i - 1].0.as_str(), kc.as_slice()) {
            found = true;
            break;
        }
        i -= 1;
    }
    if found {
        values.set(i - 1, (k, v));
        proof {
            assert(entry_pairs(values@) =~= s.update(i - 1, (kv, vv)));
            assert forall|j: Seq<char>|
                #![auto]
                lookup(entry_pairs(values@), j) == if j == kv {
                    Some(vv)
                } else {
                    lookup(s, j)
                } by {
                lemma_lookup_set(s, i - 1, kv, vv, j);
            }
            assert(entries_map(entry_pairs(values@)) =~= entries_map(s).insert(kv, vv));
        }
    } else {
        values.push((k, v));
        proof {
            assert(entry_pairs(values@) =~= s.push((kv, vv)));
            assert forall|j: Seq<char>|
                #![auto]
                lookup(entry_pairs(values@), j) == if j == kv {
                    Some(vv)
                } else {
                    lookup(s, j)
                } by {
                lemma_lookup_push(s, kv, vv, j);
            }
            assert(entries_map(entry_pairs(values@)) =~= entries_map(s).insert(kv, vv));
        }
    }
}

/// A map with the entries of `s` set in order.
pub open spec fn with_entries(m: Map<Seq<char>, Seq<char>>, s: Seq<(Seq<char>, Seq<char>)>) -> Map<
    Seq<char>,
    Seq<char>,
>
    decreases s.len(),
{
    if s.len() == 0 {
        m
    } else {
        with_entries(m, s.drop_last()).insert(s.last().0, s.last().1)
    }
}

/// Sets every entry of `layer`, in order.
pub fn set_entries(values: &mut Vec<(String, String)>, layer: &[(String, String)])
    ensures
        entries_map(entry_pairs(final(values)@)) == with_entries(
            entries_map(entry_pairs(old(values)@)),
            entry_pairs(layer@),
        ),
{
    let ghost start = entries_map(entry_pairs(values@));
    let ghost ls = entry_pairs(layer@);
    let mut i: usize = 0;
    assert(ls.take(0) =~= Seq::<(Seq<char>, Seq<char>)>::empty());
    while i < layer.len()
        invariant
            i <= layer.len(),
            ls == entry_pairs(layer@),
            entries_map(entry_pairs(values@)) == with_entries(start, ls.take(i as int)),
        decreases layer.len() - i,
    {
        assert(ls.take(i + 1).drop_last() =~= ls.take(i as int));
        let k = layer[i].0.clone();
        let v = layer[i].1.clone();
        set_entry(values, k, v);
        i += 1;
    }
    assert(ls.take(layer.len() as int) =~= ls);
}

// ---------------------------------------------------------------------------
// Environment overrides
// ---------------------------------------------------------------------------
/// `s` with every `_` turned into `.`.
pub open spec fn dotted(s: Seq<char>) -> Seq<char> {
    s.map_values(|c: char| if c == '_' {
        '.'
    } else {
        c
    })
}

/// The setting an environment variable overrides: `PREFIX_SERVER_PORT`
/// sets `server.port`; `PREFIX_PROFILE` and `PREFIX_ENVIRONMENT` name the
/// profile and environment and set nothing.
pub open spec fn env_setting_key(key: Seq<char>, prefix: Seq<char>) -> Option<Seq<char>> {
    let p = prefix + "_"@;
    if has_prefix(key, p) {
        let rest = key.skip(p.len() as int);
        if rest == "PROFILE"@ || rest == "ENVIRONMENT"@ {
            None
        } else {
            Some(dotted(ascii_lower(rest)))
        }
    } else {
        None
    }
}

/// A map with the environment's overrides applied in order.
pub open spec fn env_overrides(
    m: Map<Seq<char>, Seq<char>>,
    env: Seq<(Seq<char>, Seq<char>)>,
    prefix: Seq<char>,
) -> Map<Seq<char>, Seq<char>>
    decreases env.len(),
{
    if env.len() == 0 {
        m
    } else {
        let before = env_overrides(m, env.drop_last(), prefix);
        match env_setting_key(env.last().0, prefix) {
            Some(k) => before.insert(k, env.last().1),
            None => before,
        }
    }
}

fn dotted_chars(s: &[char]) -> (r: Vec<char>)
    ensures
        r@ == dotted(s@),
{
    let mut r: Vec<char> = Vec::new();
    let mut i: usize = 0;
    while i < s.len()
        invariant
            i <= s.len(),
            r@ == dotted(s@.take(i as int)),
        decreases s.len() - i,
    {
        let c = if s[i] == '_' {
            '.'
        } else {
            s[i]
        };
        r.push(c);
        assert(dotted(s@.take(i + 1)) =~= dotted(s@.take(i as int)).push(c));
        i += 1;
    }
    assert(s@.take(s.len() as int) =~= s@);
    r
}

/// The setting an environment variable overrides (executable).
pub fn env_setting_key_exec(key: &str, prefix: &str) -> (r: Option<String>)
    ensures
        match env_setting_key(key@, prefix@) {
            Some(k) => r matches Some(x) && x@ == k,
            None => r is None,
        },
{
    let kc = chars_of(key);
    let mut p = chars_of(prefix);
    extend_str(&mut p, "_");
    proof {
        reveal_strlit("_");
    }
    if p.len() > kc.len() || !crate::text::chars_eq(sub_chars(kc.as_slice(), 0, p.len()).as_slice(), p.as_slice()) {
        return None;
    }
    let rest = sub_chars(kc.as_slice(), p.len(), kc.len());
    assert(rest@ =~= kc@.skip(p@.len() as int));
    if str_eq_chars("PROFILE", rest.as_slice()) || str_eq_chars("ENVIRONMENT", rest.as_slice()) {
        return None;
    }
    let low = ascii_lower_chars(rest.as_slice());
    let d = dotted_chars(low.as_slice());
    Some(string_of(d.as_slice()))
}

/// Applies environment overrides: each `PREFIX_SOME_KEY=value` sets
/// `some.key`.
pub fn apply_env_overrides(values: &mut Vec<(String, String)>, env: &[(String, String)], prefix: &str)
    ensures
        entries_map(entry_pairs(final(values)@)) == env_overrides(
            entries_map(entry_pairs(old(values)@)),
            entry_pairs(env@),
            prefix@,
        ),
{
    let ghost start = entries_map(entry_pairs(values@));
    let ghost es = entry_pairs(env@);
    let mut i: usize = 0;
    assert(es.take(0) =~= Seq::<(Seq<char>, Seq<char>)>::empty());
    while i < env.len()
        invariant
            i <= env.len(),
            es == entry_pairs(env@),
            entries_map(entry_pairs(values@)) == env_overrides(start, es.take(i as int), prefix@),
        decreases env.len() - i,
    {
        assert(es.take(i + 1).drop_last() =~= es.take(i as int));
        match env_setting_key_exec(env[i].0.as_str(), prefix) {
            Some(k) => {
                let v = env[i].1.clone();
                set_entry(values, k, v);
            },
            None => {},
        }
        i += 1;
    }
    assert(es.take(env.len() as int) =~= es);
}


// ---------------------------------------------------------------------------
// Properties files
// ---------------------------------------------------------------------------
/// The entries of the lines of a properties file: each line is trimmed;
/// blank lines and `#` comments are skipped; `key=value` sets the trimmed
/// key to the trimmed value; other lines are ignored.
pub open spec fn property_lines(lines: Seq<Seq<char>>) -> Seq<(Seq<char>, Seq<char>)>
    decreases lines.len(),
{
    if lines.len() == 0 {
        Seq::empty()
    } else {
        let rest = property_lines(lines.drop_last());
        let t = trim(lines.last());
        if t.len() == 0 || t[0] == '#' {
            rest
        } else {
            match split_once(t, '=') {
                Some((k, v)) => rest.push((trim(k), trim(v))),
                None => rest,
            }
        }
    }
}

/// The entries of a properties file's text, in file order.
pub open spec fn properties_entries(content: Seq<char>) -> Seq<(Seq<char>, Seq<char>)> {
    property_lines(split(content, '\n'))
}

/// Parses the text of a `.properties` file into its entries, in file order
/// (a later entry for a key overrides an earlier one).
pub fn parse_properties(content: &str) -> (r: Vec<(String, String)>)
    ensures
        entry_pairs(r@) == properties_entries(content@),
{
    let c = chars_of(content);
    let lines = split_chars(c.as_slice(), '\n');
    let ghost ls = split(content@, '\n');
    let mut out: Vec<(String, String)> = Vec::new();
    let mut i: usize = 0;
    assert(ls.take(0) =~= Seq::<Seq<char>>::empty());
    assert(entry_pairs(out@) =~= Seq::<(Seq<char>, Seq<char>)>::empty());
    while i < lines.len()
        invariant
            i <= lines.len(),
            ls == split(content@, '\n'),
            lines@.len() == ls.len(),
            forall|k: int| 0 <= k < lines@.len() ==> #[trigger] lines@[k]@ == ls[k],
            entry_pairs(out@) == property_lines(ls.take(i as int)),
        decreases lines.len() - i,
    {
        assert(ls.take(i + 1).drop_last() =~= ls.take(i as int));
        assert(ls.take(i + 1).last() == lines@[i as int]@);
        let t = trim_chars(lines[i].as_slice());
        if t.len() > 0 && t[0] != '#' {
            match split_once_chars(t.as_slice(), '=') {
                Some((k, v)) => {
                    let kt = trim_chars(k.as_slice());
                    let vt = trim_chars(v.as_slice());
                    let ghost before = out@;
                    out.push((string_of(kt.as_slice()), string_of(vt.as_slice())));
                    assert(entry_pairs(out@) =~= entry_pairs(before).push((kt@, vt@)));
                },
                None => {},
            }
        }
        i += 1;
    }
    assert(ls.take(lines.len() as int) =~= ls);
    out
}

// ---------------------------------------------------------------------------
// File paths
// ---------------------------------------------------------------------------
/// `Path::file_name` of a path given as text: its last normal component.
pub uninterp spec fn path_file_name(path: Seq<char>) -> Option<Seq<char>>;

/// `Path::with_file_name` of a path given as text.
pub uninterp spec fn path_with_file_name(path: Seq<char>, name: Seq<char>) -> Seq<char>;

/// The position of the last `.` in a file name.
pub open spec fn last_dot(name: Seq<char>) -> Option<int>
    decreases name.len(),
{
    if name.len() == 0 {
        None
    } else if name.last() == '.' {
        Some(name.len() - 1)
    } else {
        last_dot(name.drop_last())
    }
}

/// Whether a file name has an extension: a `.` that is not its first
/// character.
pub open spec fn has_extension(name: Seq<char>) -> bool {
    match last_dot(name) {
        Some(i) => i > 0,
        None => false,
    }
}

/// The stem of a file name: all of it when it has no extension, else the
/// part before the last `.`.
pub open spec fn name_stem(name: Seq<char>) -> Seq<char> {
    if has_extension(name) {
        name.take(last_dot(name)->0)
    } else {
        name
    }
}

/// The extension of a file name: the part after the last `.`.
pub open spec fn name_extension(name: Seq<char>) -> Option<Seq<char>> {
    if has_extension(name) {
        Some(name.skip(last_dot(name)->0 + 1))
    } else {
        None
    }
}

/// `Path::file_stem`: the stem of the path's file name, per the standard
/// library's documentation (none without a file name; the whole name when
/// it has no `.` past its first character; else the part before the last
/// `.`).
#[verifier::external_body]
fn path_file_stem(path: &str) -> (r: Option<String>)
    ensures
        match path_file_name(path@) {
            Some(n) => r matches Some(x) && x@ == name_stem(n),
            None => r is None,
        },
{
    std::path::Path::new(path).file_stem().and_then(|s| s.to_str()).map(|s| s.to_string())
}

/// `Path::extension`: the extension of the path's file name, per the
/// standard library's documentation.
#[verifier::external_body]
fn path_extension(path: &str) -> (r: Option<String>)
    ensures
        match path_file_name(path@) {
            Some(n) => match name_extension(n) {
                Some(e) => r matches Some(x) && x@ == e,
                None => r is None,
            },
            None => r is None,
        },
{
    std::path::Path::new(path).extension().and_then(|s| s.to_str()).map(|s| s.to_string())
}

/// `Path::with_file_name`: the path with its file name replaced; what that
/// is, the name `path_with_file_name` stands for.
#[verifier::external_body]
fn path_replace_file_name(path: &str, name: &str) -> (r: String)
    ensures
        r@ == path_with_file_name(path@, name@),
{
    std::path::Path::new(path).with_file_name(name).to_string_lossy().into_owned()
}

/// The stem of a path's file name, or `application`.
pub open spec fn config_stem(path: Seq<char>) -> Seq<char> {
    match path_file_name(path) {
        Some(n) => name_stem(n),
        None => "application"@,
    }
}

/// The extension of a path's file name, or `properties`.
pub open spec fn config_extension(path: Seq<char>) -> Seq<char> {
    match path_file_name(path) {
        Some(n) => match name_extension(n) {
            Some(e) => e,
            None => "properties"@,
        },
        None => "properties"@,
    }
}

/// The profile file beside a base file: `application.toml` with profile
/// `staging` gives `application.staging.toml` in the same folder.
pub open spec fn spec_profile_config_path(base: Seq<char>, profile: Seq<char>) -> Seq<char> {
    path_with_file_name(
        base,
        config_stem(base) + "."@ + profile + "."@ + config_extension(base),
    )
}

/// The path of the profile-specific file beside `base_path`.
pub fn profile_config_path(base_path: &str, profile: &str) -> (r: String)
    ensures
        r@ == spec_profile_config_path(base_path@, profile@),
{
    let stem = match path_file_stem(base_path) {
        Some(s) => s,
        None => "application".to_string(),
    };
    let ext = match path_extension(base_path) {
        Some(e) => e,
        None => "properties".to_string(),
    };
    let mut name: Vec<char> = Vec::new();
    extend_str(&mut name, stem.as_str());
    extend_str(&mut name, ".");
    extend_str(&mut name, profile);
    extend_str(&mut name, ".");
    extend_str(&mut name, ext.as_str());
    let name = string_of(name.as_slice());
    path_replace_file_name(base_path, name.as_str())
}

/// The format a configuration file is read in.
#[derive(Clone, Copy, Debug, PartialEq, Eq, Structural)]
pub enum ConfigFormat {
    Toml,
    Yaml,
    Json,
    Properties,
}

/// The format that a file extension selects.
pub open spec fn format_of_extension(ext: Seq<char>) -> ConfigFormat {
    if ext == "toml"@ {
        ConfigFormat::Toml
    } else if ext == "yaml"@ || ext == "yml"@ {
        ConfigFormat::Yaml
    } else if ext == "json"@ {
        ConfigFormat::Json
    } else {
        ConfigFormat::Properties
    }
}

/// The format a configuration file is read in, chosen by its extension
/// (`properties` when it has none).
pub fn config_format(path: &str) -> (r: ConfigFormat)
    ensures
        r == format_of_extension(config_extension(path@)),
{
    let ext = match path_extension(path) {
        Some(e) => e,
        None => "properties".to_string(),
    };
    let e = chars_of(ext.as_str());
    if str_eq_chars("toml", e.as_slice()) {
        ConfigFormat::Toml
    } else if str_eq_chars("yaml", e.as_slice()) || str_eq_chars("yml", e.as_slice()) {
        ConfigFormat::Yaml
    } else if str_eq_chars("json", e.as_slice()) {
        ConfigFormat::Json
    } else {
        ConfigFormat::Properties
    }
}

/// The file extensions probed for, in order.
pub open spec fn spec_config_extensions() -> Seq<Seq<char>> {
    seq!["toml"@, "json"@, "yaml"@, "yml"@, "properties"@]
}

/// The configuration file extensions that are probed for, in order.
pub fn supported_config_extensions() -> (r: Vec<&'static str>)
    ensures
        key_texts(r@) == spec_config_extensions(),
{
    let r = vec!["toml", "json", "yaml", "yml", "properties"];
    assert(key_texts(r@) =~= spec_config_extensions());
    r
}

/// The files probed for when no configuration file is set: each extension
/// in the working folder, then each in `examples/`.
pub open spec fn spec_config_candidates() -> Seq<Seq<char>> {
    seq![
        "application.toml"@,
        "application.json"@,
        "application.yaml"@,
        "application.yml"@,
        "application.properties"@,
        "examples/application.toml"@,
        "examples/application.json"@,
        "examples/application.yaml"@,
        "examples/application.yml"@,
        "examples/application.properties"@,
    ]
}

/// The files probed for when no configuration file is set, in order.
pub fn config_candidates() -> (r: Vec<String>)
    ensures
        r@.map_values(|s: String| s@) == spec_config_candidates(),
{
    let exts = supported_config_extensions();
    assert(exts@.len() == key_texts(exts@).len());
    let mut out: Vec<String> = Vec::new();
    let mut f: usize = 0;
    while f < 2
        invariant
            f <= 2,
            key_texts(exts@) == spec_config_extensions(),
            exts@.len() == 5,
            out@.len() == 5 * f,
            forall|k: int|
                0 <= k < out@.len() ==> #[trigger] out@[k]@ == spec_config_candidates()[k],
        decreases 2 - f,
    {
        let mut e: usize = 0;
        while e < exts.len()
            invariant
                f < 2,
                e <= exts.len(),
                key_texts(exts@) == spec_config_extensions(),
                exts@.len() == 5,
                out@.len() == 5 * f + e,
                forall|k: int|
                    0 <= k < out@.len() ==> #[trigger] out@[k]@ == spec_config_candidates()[k],
            decreases exts.len() - e,
        {
            let mut v: Vec<char> = Vec::new();
            if f == 1 {
                extend_str(&mut v, "examples/");
            }
            extend_str(&mut v, "application.");
            extend_str(&mut v, exts[e]);
            proof {
                reveal_strlit("examples/");
                reveal_strlit("application.");
                reveal_strlit("toml");
                reveal_strlit("json");
                reveal_strlit("yaml");
                reveal_strlit("yml");
                reveal_strlit("properties");
                reveal_strlit("application.toml");
                reveal_strlit("application.json");
                reveal_strlit("application.yaml");
                reveal_strlit("application.yml");
                reveal_strlit("application.properties");
                reveal_strlit("examples/application.toml");
                reveal_strlit("examples/application.json");
                reveal_strlit("examples/application.yaml");
                reveal_strlit("examples/application.yml");
                reveal_strlit("examples/application.properties");
                assert(exts@[e as int]@ == spec_config_extensions()[e as int]);
                assert(v@ =~= spec_config_candidates()[5 * f + e]);
            }
            out.push(string_of(v.as_slice()));
            e += 1;
        }
        f += 1;
    }
    out
}

/// The first of `c`, from position `i` on, that is present.
pub open spec fn first_present(c: Seq<Seq<char>>, present: Seq<bool>, i: int) -> Option<Seq<char>>
    decreases c.len() - i,
{
    if i < 0 || i >= c.len() {
        None
    } else if i < present.len() && present[i] {
        Some(c[i])
    } else {
        first_present(c, present, i + 1)
    }
}

/// The base file used when none is set: the first candidate that exists,
/// else `application.properties`.
pub open spec fn spec_discovered_file(present: Seq<bool>) -> Seq<char> {
    match first_present(spec_config_candidates(), present, 0) {
        Some(p) => p,
        None => "application.properties"@,
    }
}

/// The base file used when none is set, given which of the candidates
/// (`config_candidates`, in order) exist.
pub fn discover_config_file(present: &[bool]) -> (r: String)
    ensures
        r@ == spec_discovered_file(present@),
{
    let c = config_candidates();
    let ghost cs = spec_config_candidates();
    let mut i: usize = 0;
    while i < c.len()
        invariant
            i <= c.len(),
            c@.map_values(|s: String| s@) == cs,
            cs == spec_config_candidates(),
            first_present(cs, present@, 0) == first_present(cs, present@, i as int),
        decreases c.len() - i,
    {
        assert(c@[i as int]@ == cs[i as int]);
        if i < present.len() && present[i] {
            return c[i].clone();
        }
        i += 1;
    }
    "application.properties".to_string()
}

// ---------------------------------------------------------------------------
// The builder
// ---------------------------------------------------------------------------
/// Builder for layered configuration. Sources are merged in this order:
/// the base file, the profile-specific file, environment variables.
#[derive(Clone, Debug)]
pub struct ConfigurationBuilder {
    pub config_file: Option<String>,
    profile: Option<String>,
    environment: Option<String>,
    env_prefix: String,
}

/// The abstract value of a builder.
pub struct BuilderModel {
    pub config_file: Option<Seq<char>>,
    pub profile: Option<Seq<char>>,
    pub environment: Option<Seq<char>>,
    pub env_prefix: Seq<char>,
}

/// The abstract value of an optional text.
pub open spec fn opt_text(o: Option<String>) -> Option<Seq<char>> {
    match o {
        Some(s) => Some(s@),
        None => None,
    }
}

impl View for ConfigurationBuilder {
    type V = BuilderModel;

    closed spec fn view(&self) -> BuilderModel {
        BuilderModel {
            config_file: opt_text(self.config_file),
            profile: opt_text(self.profile),
            environment: opt_text(self.environment),
            env_prefix: self.env_prefix@,
        }
    }
}

/// The environment name: the one set on the builder, else
/// `PREFIX_ENVIRONMENT` from the environment, else `development`.
pub open spec fn resolved_environment(b: BuilderModel, env: Seq<(Seq<char>, Seq<char>)>) -> Seq<char> {
    match b.environment {
        Some(e) => e,
        None => match lookup(env, b.env_prefix + "_ENVIRONMENT"@) {
            Some(v) => v,
            None => "development"@,
        },
    }
}

/// The profile name: the one set on the builder, else `PREFIX_PROFILE`
/// from the environment, else the environment name.
pub open spec fn resolved_profile(b: BuilderModel, env: Seq<(Seq<char>, Seq<char>)>) -> Seq<char> {
    match b.profile {
        Some(p) => p,
        None => match lookup(env, b.env_prefix + "_PROFILE"@) {
            Some(v) => v,
            None => resolved_environment(b, env),
        },
    }
}

/// The configuration that layers denote: the base file's entries, then the
/// profile file's, then the environment's overrides.
pub open spec fn spec_build(
    b: BuilderModel,
    env: Seq<(Seq<char>, Seq<char>)>,
    base: Seq<(Seq<char>, Seq<char>)>,
    profile_layer: Seq<(Seq<char>, Seq<char>)>,
) -> ConfigModel {
    ConfigModel {
        profile: resolved_profile(b, env),
        environment: resolved_environment(b, env),
        values: env_overrides(
            with_entries(with_entries(Map::empty(), base), profile_layer),
            env,
            b.env_prefix,
        ),
    }
}

/// The value of a variable in an environment listing; a later entry wins.
fn env_value(env: &[(String, String)], key: &[char]) -> (r: Option<String>)
    ensures
        match lookup(entry_pairs(env@), key@) {
            Some(v) => r matches Some(x) && x@ == v,
            None => r is None,
        },
{
    let ghost s = entry_pairs(env@);
    let mut i: usize = env.len();
    assert(s.take(i as int) =~= s);
    while i > 0
        invariant
            i <= env.len(),
            s == entry_pairs(env@),
            lookup(s, key@) == lookup(s.take(i as int), key@),
        decreases i,
    {
        assert(s.take(i as int).drop_last() =~= s.take(i - 1));
        if str_eq_chars(env[i - 1].0.as_str(), key) {
            return Some(env[i - 1].1.clone());
        }
        i -= 1;
    }
    None
}

/// A call of one of the builder's setters, with the text it is given.
pub enum BuilderCall {
    ConfigFile(Seq<char>),
    Profile(Seq<char>),
    Environment(Seq<char>),
    EnvPrefix(Seq<char>),
}

/// The builder after one setter call.
pub open spec fn builder_step(b: BuilderModel, c: BuilderCall) -> BuilderModel {
    match c {
        BuilderCall::ConfigFile(p) => BuilderModel { config_file: Some(p), ..b },
        BuilderCall::Profile(p) => BuilderModel { profile: Some(p), ..b },
        BuilderCall::Environment(e) => BuilderModel { environment: Some(e), ..b },
        BuilderCall::EnvPrefix(p) => BuilderModel { env_prefix: p, ..b },
    }
}

/// The builder after a sequence of setter calls, in order.
pub open spec fn builder_after(b: BuilderModel, calls: Seq<BuilderCall>) -> BuilderModel
    decreases calls.len(),
{
    if calls.len() == 0 {
        b
    } else {
        builder_step(builder_after(b, calls.drop_last()), calls.last())
    }
}

/// A fresh builder.
pub open spec fn fresh_builder() -> BuilderModel {
    BuilderModel { config_file: None, profile: None, environment: None, env_prefix: "APP"@ }
}

/// A builder has its file set exactly when some call set the file: the
/// profile, environment and prefix setters never change it. The file set is
/// the one the last such call gave.
pub proof fn law_file_set_iff_file_given(calls: Seq<BuilderCall>)
    ensures
        (builder_after(fresh_builder(), calls).config_file is Some) <==> (exists|i: int|
            0 <= i < calls.len() && #[trigger] calls[i] is ConfigFile),
        builder_after(fresh_builder(), calls).config_file matches Some(p) ==> (exists|i: int|
            0 <= i < calls.len() && #[trigger] calls[i] == BuilderCall::ConfigFile(p)),
    decreases calls.len(),
{
    if calls.len() > 0 {
        let d = calls.drop_last();
        law_file_set_iff_file_given(d);
        let last = (calls.len() - 1) as int;
        assert(calls[last] == calls.last());
        assert forall|i: int| 0 <= i < d.len() implies d[i] == #[trigger] calls[i] by {}
        if exists|i: int| 0 <= i < calls.len() && #[trigger] calls[i] is ConfigFile {
            let i = choose|i: int| 0 <= i < calls.len() && #[trigger] calls[i] is ConfigFile;
            if i < last {
                assert(d[i] is ConfigFile);
            }
        }
        if exists|i: int| 0 <= i < d.len() && #[trigger] d[i] is ConfigFile {
            let i = choose|i: int| 0 <= i < d.len() && #[trigger] d[i] is ConfigFile;
            assert(calls[i] is ConfigFile);
        }
        match builder_after(fresh_builder(), calls).config_file {
            Some(p) => {
                if calls.last() is ConfigFile {
                    assert(calls[last] == BuilderCall::ConfigFile(p));
                } else {
                    let i = choose|i: int| 0 <= i < d.len() && #[trigger] d[i] == BuilderCall::ConfigFile(p);
                    assert(calls[i] == BuilderCall::ConfigFile(p));
                }
            },
            None => {},
        }
    }
}

impl ConfigurationBuilder {
    /// A builder with no file, profile or environment set and the `APP`
    /// environment prefix.
    pub fn new() -> (r: Self)
        ensures
            r@ == (BuilderModel {
                config_file: None,
                profile: None,
                environment: None,
                env_prefix: "APP"@,
            }),
            r@ == fresh_builder(),
    {
        ConfigurationBuilder {
            config_file: None,
            profile: None,
            environment: None,
            env_prefix: "APP".to_string(),
        }
    }

    /// Whether a configuration file was set.
    pub fn is_file_set(&self) -> (r: bool)
        ensures
            r == self@.config_file is Some,
    {
        self.config_file.is_some()
    }

    /// The configuration file that was set, if any.
    pub fn file(&self) -> (r: Option<String>)
        ensures
            opt_text(r) == self@.config_file,
    {
        match &self.config_file {
            Some(f) => Some(f.clone()),
            None => None,
        }
    }

    /// Sets the base configuration file.
    pub fn config_file(&mut self, path: &str) -> (r: &mut Self)
        ensures
            r@ == (BuilderModel { config_file: Some(path@), ..old(self)@ }),
            r@ == builder_step(old(self)@, BuilderCall::ConfigFile(path@)),
            *final(self) == *final(r),
    {
        self.config_file = Some(path.to_string());
        self
    }

    /// Sets the profile used to find the profile-specific file.
    pub fn profile(&mut self, profile: &str) -> (r: &mut Self)
        ensures
            r@ == (BuilderModel { profile: Some(profile@), ..old(self)@ }),
            r@ == builder_step(old(self)@, BuilderCall::Profile(profile@)),
            *final(self) == *final(r),
    {
        self.profile = Some(profile.to_string());
        self
    }

    /// Sets the environment name.
    pub fn environment(&mut self, environment: &str) -> (r: &mut Self)
        ensures
            r@ == (BuilderModel { environment: Some(environment@), ..old(self)@ }),
            r@ == builder_step(old(self)@, BuilderCall::Environment(environment@)),
            *final(self) == *final(r),
    {
        self.environment = Some(environment.to_string());
        self
    }

    /// Sets the prefix of the environment variables that override settings.
    pub fn env_prefix(&mut self, prefix: &str) -> (r: &mut Self)
        ensures
            r@ == (BuilderModel { env_prefix: prefix@, ..old(self)@ }),
            r@ == builder_step(old(self)@, BuilderCall::EnvPrefix(prefix@)),
            *final(self) == *final(r),
    {
        self.env_prefix = prefix.to_string();
        self
    }

    /// The environment name that building with `env` resolves.
    pub fn resolve_environment(&self, env: &[(String, String)]) -> (r: String)
        ensures
            r@ == resolved_environment(self@, entry_pairs(env@)),
    {
        match &self.environment {
            Some(e) => e.clone(),
            None => {
                let mut key = chars_of(self.env_prefix.as_str());
                extend_str(&mut key, "_ENVIRONMENT");
                match env_value(env, key.as_slice()) {
                    Some(v) => v,
                    None => "development".to_string(),
                }
            },
        }
    }

    /// The profile name that building with `env` resolves.
    pub fn resolve_profile(&self, env: &[(String, String)]) -> (r: String)
        ensures
            r@ == resolved_profile(self@, entry_pairs(env@)),
    {
        match &self.profile {
            Some(p) => p.clone(),
            None => {
                let mut key = chars_of(self.env_prefix.as_str());
                extend_str(&mut key, "_PROFILE");
                match env_value(env, key.as_slice()) {
                    Some(v) => v,
                    None => self.resolve_environment(env),
                }
            },
        }
    }

    /// Merges the layers into a configuration: the base file's entries,
    /// then the profile file's (each empty where its file does not exist),
    /// then the overrides from `env`.
    pub fn build_with_env(
        &self,
        env: &[(String, String)],
        base: &[(String, String)],
        profile_layer: &[(String, String)],
    ) -> (r: Configuration)
        ensures
            r@ == spec_build(self@, entry_pairs(env@), entry_pairs(base@), entry_pairs(profile_layer@)),
    {
        let environment = self.resolve_environment(env);
        let profile = self.resolve_profile(env);
        let mut values: Vec<(String, String)> = Vec::new();
        assert(entries_map(entry_pairs(values@)) =~= Map::<Seq<char>, Seq<char>>::empty());
        set_entries(&mut values, base);
        set_entries(&mut values, profile_layer);
        apply_env_overrides(&mut values, env, self.env_prefix.as_str());
        Configuration { profile, environment, values }
    }
}

impl Default for ConfigurationBuilder {
    fn default() -> (r: Self)
        ensures
            r@ == (BuilderModel {
                config_file: None,
                profile: None,
                environment: None,
                env_prefix: "APP"@,
            }),
    {
        Self::new()
    }
}

// ---------------------------------------------------------------------------
// Structured files
// ---------------------------------------------------------------------------
/// A parsed TOML, JSON or YAML document. A number keeps the text that
/// `serde_json` renders it as; object fields keep their document order.
#[derive(Debug)]
pub enum JsonValue {
    Null,
    Bool(bool),
    Number(String),
    Str(String),
    Array(Vec<JsonValue>),
    Object(Vec<(String, JsonValue)>),
}

/// A lowercase hexadecimal digit.
pub open spec fn hex_digit_char(d: int) -> char {
    if 0 <= d < 10 {
        ('0' as int + d) as char
    } else {
        ('a' as int + d - 10) as char
    }
}

/// How a JSON string literal writes one character: `"` and `\` behind a
/// backslash, the short escapes of backspace, tab, line feed, form feed and
/// carriage return, `\u00XX` with lowercase hex for the other control
/// characters below `0x20`, and every other character as itself.
pub open spec fn json_escape_char(c: char) -> Seq<char> {
    if c == '"' {
        seq!['\\', '"']
    } else if c == '\\' {
        seq!['\\', '\\']
    } else if c == '\u{8}' {
        seq!['\\', 'b']
    } else if c == '\t' {
        seq!['\\', 't']
    } else if c == '\n' {
        seq!['\\', 'n']
    } else if c == '\u{c}' {
        seq!['\\', 'f']
    } else if c == '\r' {
        seq!['\\', 'r']
    } else if (c as int) < 0x20 {
        seq!['\\', 'u', '0', '0', hex_digit_char((c as int) / 16), hex_digit_char((c as int) % 16)]
    } else {
        seq![c]
    }
}

/// The characters of a string, each written as a JSON literal writes it.
pub open spec fn json_escape(s: Seq<char>) -> Seq<char>
    decreases s.len(),
{
    if s.len() == 0 {
        Seq::empty()
    } else {
        json_escape(s.drop_last()) + json_escape_char(s.last())
    }
}

/// `serde_json::to_string` of a string: its JSON literal, the escaped
/// characters between double quotes.
pub open spec fn json_string_literal(s: Seq<char>) -> Seq<char> {
    seq!['"'] + json_escape(s) + seq!['"']
}

/// The JSON literal of a string, as `serde_json::to_string` writes it
/// (`serialize_str`, then `format_escaped_str` with the compact formatter:
/// the `ESCAPE` table and `write_char_escape`). Serializing a `str` does
/// not fail.
#[verifier::external_body]
fn json_quote(s: &str) -> (r: String)
    ensures
        r@ == json_string_literal(s@),
{
    serde_json::to_string(s).unwrap_or_default()
}

/// `s` without the leading and trailing runs of `c` (`str::trim_matches`
/// with a character).
pub open spec fn trim_char(s: Seq<char>, c: char) -> Seq<char>
    decreases s.len(),
{
    if s.len() > 0 && s[0] == c {
        trim_char(s.drop_first(), c)
    } else if s.len() > 0 && s.last() == c {
        trim_char(s.drop_last(), c)
    } else {
        s
    }
}

/// The text a scalar is stored as: its JSON rendering without surrounding
/// double quotes.
pub open spec fn scalar_text(v: JsonValue) -> Seq<char> {
    match v {
        JsonValue::Null => "null"@,
        JsonValue::Bool(b) => if b {
            "true"@
        } else {
            "false"@
        },
        JsonValue::Number(n) => trim_char(n@, '"'),
        JsonValue::Str(t) => trim_char(json_string_literal(t@), '"'),
        _ => Seq::empty(),
    }
}

/// The key of a field under `prefix`: `prefix.field`, or `field` at the
/// top.
pub open spec fn field_key(prefix: Seq<char>, field: Seq<char>) -> Seq<char> {
    if prefix.len() == 0 {
        field
    } else {
        prefix + "."@ + field
    }
}

/// The key of the item at `i` under `prefix`: `prefix[i]`.
pub open spec fn item_key(prefix: Seq<char>, i: nat) -> Seq<char> {
    prefix + "["@ + crate::text::decimal(i) + "]"@
}

/// The dotted entries of a document under `prefix`, in document order.
pub open spec fn spec_flatten(v: JsonValue, prefix: Seq<char>) -> Seq<(Seq<char>, Seq<char>)>
    decreases v,
{
    match v {
        JsonValue::Object(fs) => flatten_fields(fs@, prefix),
        JsonValue::Array(xs) => flatten_items(xs@, prefix),
        _ => seq![(prefix, scalar_text(v))],
    }
}

/// The entries of an object's fields under `prefix`.
pub open spec fn flatten_fields(fs: Seq<(String, JsonValue)>, prefix: Seq<char>) -> Seq<(Seq<char>, Seq<char>)>
    decreases fs,
{
    if fs.len() == 0 {
        Seq::empty()
    } else {
        let n = fs.len() - 1;
        flatten_fields(fs.subrange(0, n), prefix) + spec_flatten(fs[n].1, field_key(prefix, fs[n].0@))
    }
}

/// The entries of an array's items under `prefix`.
pub open spec fn flatten_items(xs: Seq<JsonValue>, prefix: Seq<char>) -> Seq<(Seq<char>, Seq<char>)>
    decreases xs,
{
    if xs.len() == 0 {
        Seq::empty()
    } else {
        let n = xs.len() - 1;
        flatten_items(xs.subrange(0, n), prefix) + spec_flatten(xs[n], item_key(prefix, n as nat))
    }
}

/// `s` without its leading and trailing runs of `c`.
pub fn trim_char_exec(s: &[char], c: char) -> (r: Vec<char>)
    ensures
        r@ == trim_char(s@, c),
{
    let mut a: usize = 0;
    let mut b: usize = s.len();
    assert(s@.subrange(0, s@.len() as int) =~= s@);
    while a < b && s[a] == c
        invariant
            a <= b <= s.len(),
            b == s.len(),
            trim_char(s@, c) == trim_char(s@.subrange(a as int, b as int), c),
        decreases b - a,
    {
        assert(s@.subrange(a as int, b as int).drop_first() =~= s@.subrange(a + 1, b as int));
        a += 1;
    }
    while a < b && s[b - 1] == c
        invariant
            a <= b <= s.len(),
            trim_char(s@, c) == trim_char(s@.subrange(a as int, b as int), c),
            a < b ==> s@.subrange(a as int, b as int)[0] != c,
        decreases b - a,
    {
        assert(s@.subrange(a as int, b as int).drop_last() =~= s@.subrange(a as int, b - 1));
        b -= 1;
    }
    sub_chars(s, a, b)
}

/// Appends the dotted entries of `v` under `prefix`.
pub fn flatten_into(v: &JsonValue, prefix: &[char], out: &mut Vec<(String, String)>)
    ensures
        entry_pairs(final(out)@) == entry_pairs(old(out)@) + spec_flatten(*v, prefix@),
    decreases v,
{
    match v {
        JsonValue::Object(fs) => {
            let ghost start = entry_pairs(out@);
            let mut i: usize = 0;
            assert(fs@.subrange(0, 0) =~= Seq::<(String, JsonValue)>::empty());
            assert(start + Seq::<(Seq<char>, Seq<char>)>::empty() =~= start);
            while i < fs.len()
                invariant
                    i <= fs.len(),
                    *v == JsonValue::Object(*fs),
                    entry_pairs(out@) == start + flatten_fields(fs@.subrange(0, i as int), prefix@),
                decreases fs.len() - i,
            {
                assert(fs@.subrange(0, i + 1).subrange(0, i as int) =~= fs@.subrange(0, i as int));
                let mut key: Vec<char> = Vec::new();
                if prefix.len() > 0 {
                    extend_chars(&mut key, prefix);
                    extend_str(&mut key, ".");
                }
                extend_str(&mut key, fs[i].0.as_str());
                proof {
                    reveal_strlit(".");
                    assert(key@ =~= field_key(prefix@, fs@[i as int].0@));
                }
                proof {
                    assert(decreases_to!(*v => (*v)->Object_0));
                    assert(decreases_to!(fs => fs@));
                    assert(decreases_to!(fs@ => fs@[i as int]));
                    assert(decreases_to!(fs@[i as int] => fs@[i as int].1));
                }
                flatten_into(&fs[i].1, key.as_slice(), out);
                assert(entry_pairs(out@) =~= start + flatten_fields(fs@.subrange(0, i + 1), prefix@));
                i += 1;
            }
            assert(fs@.subrange(0, fs.len() as int) =~= fs@);
        },
        JsonValue::Array(xs) => {
            let ghost start = entry_pairs(out@);
            let mut i: usize = 0;
            assert(xs@.subrange(0, 0) =~= Seq::<JsonValue>::empty());
            assert(start + Seq::<(Seq<char>, Seq<char>)>::empty() =~= start);
            while i < xs.len()
                invariant
                    i <= xs.len(),
                    *v == JsonValue::Array(*xs),
                    entry_pairs(out@) == start + flatten_items(xs@.subrange(0, i as int), prefix@),
                decreases xs.len() - i,
            {
                assert(xs@.subrange(0, i + 1).subrange(0, i as int) =~= xs@.subrange(0, i as int));
                let mut key: Vec<char> = Vec::new();
                extend_chars(&mut key, prefix);
                extend_str(&mut key, "[");
                let d = crate::text::decimal_chars(i as u64);
                extend_chars(&mut key, d.as_slice());
                extend_str(&mut key, "]");
                proof {
                    reveal_strlit("[");
                    reveal_strlit("]");
                    assert(key@ =~= item_key(prefix@, i as nat));
                }
                proof {
                    assert(decreases_to!(*v => (*v)->Array_0));
                    assert(decreases_to!(xs => xs@));
                    assert(decreases_to!(xs@ => xs@[i as int]));
                }
                flatten_into(&xs[i], key.as_slice(), out);
                assert(entry_pairs(out@) =~= start + flatten_items(xs@.subrange(0, i + 1), prefix@));
                i += 1;
            }
            assert(xs@.subrange(0, xs.len() as int) =~= xs@);
        },
        _ => {
            let text = match v {
                JsonValue::Null => "null".to_string(),
                JsonValue::Bool(b) => if *b {
                    "true".to_string()
                } else {
                    "false".to_string()
                },
                JsonValue::Number(n) => {
                    let c = chars_of(n.as_str());
                    string_of(trim_char_exec(c.as_slice(), '"').as_slice())
                },
                JsonValue::Str(t) => {
                    let q = json_quote(t.as_str());
                    let c = chars_of(q.as_str());
                    string_of(trim_char_exec(c.as_slice(), '"').as_slice())
                },
                _ => String::new(),
            };
            let ghost before = entry_pairs(out@);
            out.push((string_of(prefix), text));
            assert(entry_pairs(out@) =~= before + seq![(prefix@, scalar_text(*v))]);
        },
    }
}

/// The dotted entries of a parsed TOML, JSON or YAML document: nested
/// tables become `a.b` keys and array items `a[0]`.
pub fn flatten_document(v: &JsonValue) -> (r: Vec<(String, String)>)
    ensures
        entry_pairs(r@) == spec_flatten(*v, Seq::empty()),
{
    let mut out: Vec<(String, String)> = Vec::new();
    let empty: Vec<char> = Vec::new();
    assert(entry_pairs(out@) =~= Seq::<(Seq<char>, Seq<char>)>::empty());
    flatten_into(v, empty.as_slice(), &mut out);
    assert(entry_pairs(out@) =~= spec_flatten(*v, Seq::empty()));
    out
}

// ---------------------------------------------------------------------------
// Configuration documents
// ---------------------------------------------------------------------------
#[verifier::external_type_specification]
#[verifier::external_body]
pub struct ExJsonDocument(serde_json::Value);

/// The document that `toml::from_str` parses a text into, if it parses.
pub uninterp spec fn toml_document(content: Seq<char>) -> Option<JsonValue>;

/// The document that `serde_json::from_str` parses a text into, if it
/// parses.
pub uninterp spec fn json_document(content: Seq<char>) -> Option<JsonValue>;

/// The document that `serde_yaml::from_str` parses a text into, if it
/// parses.
pub uninterp spec fn yaml_document(content: Seq<char>) -> Option<JsonValue>;

/// A parsed `serde_json::Value` in the library's document type, node for
/// node (a number keeps the text `serde_json` renders it as).
#[verifier::external_body]
fn document_of(value: &serde_json::Value) -> JsonValue {
    match value {
        serde_json::Value::Null => JsonValue::Null,
        serde_json::Value::Bool(flag) => JsonValue::Bool(*flag),
        serde_json::Value::Number(number) => JsonValue::Number(number.to_string()),
        serde_json::Value::String(text) => JsonValue::Str(text.clone()),
        serde_json::Value::Array(items) => JsonValue::Array(items.iter().map(document_of).collect()),
        serde_json::Value::Object(fields) => JsonValue::Object(
            fields.iter().map(|(key, field)| (key.clone(), document_of(field))).collect(),
        ),
    }
}

/// `toml::from_str` into a `serde_json::Value`: the document of the text,
/// or `None` where it does not parse. Verus believes that the result is
/// `toml_document` of the text.
#[verifier::external_body]
fn parse_toml_document(content: &str) -> (r: Option<JsonValue>)
    ensures
        r == toml_document(content@),
{
    toml::from_str::<serde_json::Value>(content).ok().map(|value| document_of(&value))
}

/// `serde_json::from_str` into a `serde_json::Value`: the document of the
/// text, or `None` where it does not parse. Verus believes that the result
/// is `json_document` of the text.
#[verifier::external_body]
fn parse_json_document(content: &str) -> (r: Option<JsonValue>)
    ensures
        r == json_document(content@),
{
    serde_json::from_str::<serde_json::Value>(content).ok().map(|value| document_of(&value))
}

/// `serde_yaml::from_str` into a `serde_json::Value`: the document of the
/// text, or `None` where it does not parse. Verus believes that the result
/// is `yaml_document` of the text.
#[verifier::external_body]
fn parse_yaml_document(content: &str) -> (r: Option<JsonValue>)
    ensures
        r == yaml_document(content@),
{
    serde_yaml::from_str::<serde_json::Value>(content).ok().map(|value| document_of(&value))
}

/// The document a configuration text of a structured format parses into.
pub open spec fn format_document(format: ConfigFormat, content: Seq<char>) -> Option<JsonValue> {
    match format {
        ConfigFormat::Toml => toml_document(content),
        ConfigFormat::Json => json_document(content),
        ConfigFormat::Yaml => yaml_document(content),
        ConfigFormat::Properties => None,
    }
}

/// The entries of one configuration file's text in its format: the
/// `key=value` lines of a properties file, or the flattened document of a
/// TOML, JSON or YAML file; a text that does not parse is
/// `InvalidFormat`.
pub fn layer_from_text(format: ConfigFormat, content: &str) -> (r: Result<Vec<(String, String)>, ConfigError>)
    ensures
        match format {
            ConfigFormat::Properties => r matches Ok(v) && entry_pairs(v@) == properties_entries(content@),
            _ => match format_document(format, content@) {
                Some(d) => r matches Ok(v) && entry_pairs(v@) == spec_flatten(d, Seq::empty()),
                None => r matches Err(e) && e == ConfigError::InvalidFormat,
            },
        },
{
    let document = match format {
        ConfigFormat::Properties => {
            return Ok(parse_properties(content));
        },
        ConfigFormat::Toml => parse_toml_document(content),
        ConfigFormat::Json => parse_json_document(content),
        ConfigFormat::Yaml => parse_yaml_document(content),
    };
    match document {
        Some(d) => Ok(flatten_document(&d)),
        None => Err(ConfigError::InvalidFormat),
    }
}

// ---------------------------------------------------------------------------
// Framework settings
// ---------------------------------------------------------------------------
/// Server protocol mode selected from configuration.
#[derive(Clone, Copy, Debug, PartialEq, Eq, Structural)]
pub enum ServerProtocol {
    Http1,
    Http2,
    Auto,
}

/// The protocol a lowercase word names.
pub open spec fn protocol_word(w: Seq<char>) -> Option<ServerProtocol> {
    if w == "http1"@ || w == "http/1"@ || w == "http/1.1"@ {
        Some(ServerProtocol::Http1)
    } else if w == "http2"@ || w == "h2"@ || w == "http/2"@ {
        Some(ServerProtocol::Http2)
    } else if w == "auto"@ {
        Some(ServerProtocol::Auto)
    } else {
        None
    }
}

/// The protocol a setting names, read trimmed and case-insensitively.
pub open spec fn spec_parse_protocol(value: Seq<char>) -> Result<ServerProtocol, ConfigFault> {
    let w = ascii_lower(trim(value));
    match protocol_word(w) {
        Some(p) => Ok(p),
        None => Err(
            ConfigFault::InvalidValue {
                key: "server.protocol"@,
                value: w,
                expected: "http1 | http2 | auto"@,
            },
        ),
    }
}

impl ServerProtocol {
    /// Parses `http1`, `http/1`, `http/1.1`, `http2`, `h2`, `http/2` or
    /// `auto`, trimmed and in any case.
    pub fn parse(value: &str) -> (r: Result<Self, ConfigError>)
        ensures
            config_result(r) == spec_parse_protocol(value@),
    {
        let c = chars_of(value);
        let t = trim_chars(c.as_slice());
        let w = ascii_lower_chars(t.as_slice());
        let w = w.as_slice();
        if str_eq_chars("http1", w) || str_eq_chars("http/1", w) || str_eq_chars("http/1.1", w) {
            Ok(ServerProtocol::Http1)
        } else if str_eq_chars("http2", w) || str_eq_chars("h2", w) || str_eq_chars("http/2", w) {
            Ok(ServerProtocol::Http2)
        } else if str_eq_chars("auto", w) {
            Ok(ServerProtocol::Auto)
        } else {
            Err(
                ConfigError::InvalidValue {
                    key: "server.protocol",
                    value: string_of(w),
                    expected: "http1 | http2 | auto",
                },
            )
        }
    }
}

/// Parsed server settings; durations are whole seconds.
#[derive(Clone, Debug)]
pub struct ServerConfig {
    pub address: String,
    pub bind_host: String,
    pub bind_port: u16,
    pub protocol: ServerProtocol,
    pub request_timeout_secs: u64,
    pub read_timeout_secs: u64,
    pub handler_timeout_secs: u64,
    pub graceful_shutdown_secs: u64,
    pub max_request_bytes: usize,
    pub max_header_bytes: usize,
    pub max_header_count: usize,
    pub concurrency_limit: usize,
    pub keep_alive: bool,
    pub tcp_nodelay: bool,
    pub trusted_proxies: Vec<IpAddress>,
}

/// The abstract value of server settings.
pub struct ServerModel {
    pub address: Seq<char>,
    pub bind_host: Seq<char>,
    pub bind_port: u16,
    pub protocol: ServerProtocol,
    pub request_timeout_secs: u64,
    pub read_timeout_secs: u64,
    pub handler_timeout_secs: u64,
    pub graceful_shutdown_secs: u64,
    pub max_request_bytes: usize,
    pub max_header_bytes: usize,
    pub max_header_count: usize,
    pub concurrency_limit: usize,
    pub keep_alive: bool,
    pub tcp_nodelay: bool,
    pub trusted_proxies: Seq<IpAddress>,
}

impl View for ServerConfig {
    type V = ServerModel;

    open spec fn view(&self) -> ServerModel {
        ServerModel {
            address: self.address@,
            bind_host: self.bind_host@,
            bind_port: self.bind_port,
            protocol: self.protocol,
            request_timeout_secs: self.request_timeout_secs,
            read_timeout_secs: self.read_timeout_secs,
            handler_timeout_secs: self.handler_timeout_secs,
            graceful_shutdown_secs: self.graceful_shutdown_secs,
            max_request_bytes: self.max_request_bytes,
            max_header_bytes: self.max_header_bytes,
            max_header_count: self.max_header_count,
            concurrency_limit: self.concurrency_limit,
            keep_alive: self.keep_alive,
            tcp_nodelay: self.tcp_nodelay,
            trusted_proxies: self.trusted_proxies@,
        }
    }
}

/// The default server settings.
pub open spec fn default_server() -> ServerModel {
    ServerModel {
        address: "127.0.0.1:8080"@,
        bind_host: "127.0.0.1"@,
        bind_port: 8080,
        protocol: ServerProtocol::Auto,
        request_timeout_secs: 5,
        read_timeout_secs: 5,
        handler_timeout_secs: 5,
        graceful_shutdown_secs: 5,
        max_request_bytes: 65536,
        max_header_bytes: 8192,
        max_header_count: 64,
        concurrency_limit: 1024,
        keep_alive: true,
        tcp_nodelay: true,
        trusted_proxies: Seq::empty(),
    }
}

impl Default for ServerConfig {
    fn default() -> (r: Self)
        ensures
            r@ == default_server(),
    {
        let r = ServerConfig {
            address: "127.0.0.1:8080".to_string(),
            bind_host: "127.0.0.1".to_string(),
            bind_port: 8080,
            protocol: ServerProtocol::Auto,
            request_timeout_secs: 5,
            read_timeout_secs: 5,
            handler_timeout_secs: 5,
            graceful_shutdown_secs: 5,
            max_request_bytes: 64 * 1024,
            max_header_bytes: 8 * 1024,
            max_header_count: 64,
            concurrency_limit: 1024,
            keep_alive: true,
            tcp_nodelay: true,
            trusted_proxies: Vec::new(),
        };
        assert(r@.trusted_proxies =~= Seq::<IpAddress>::empty());
        r
    }
}

/// Validated server settings, ready for the runtime.
#[derive(Clone, Debug)]
pub struct ServerOptions {
    pub bind_address: SocketAddress,
    pub protocol: ServerProtocol,
    pub request_timeout_secs: u64,
    pub read_timeout_secs: u64,
    pub handler_timeout_secs: u64,
    pub graceful_shutdown_secs: u64,
    pub max_request_bytes: usize,
    pub max_header_bytes: usize,
    pub max_header_count: usize,
    pub concurrency_limit: usize,
    pub keep_alive: bool,
    pub tcp_nodelay: bool,
    pub trusted_proxies: Vec<IpAddress>,
}

/// The abstract value of validated server settings.
pub struct OptionsModel {
    pub bind_address: SocketAddress,
    pub protocol: ServerProtocol,
    pub request_timeout_secs: u64,
    pub read_timeout_secs: u64,
    pub handler_timeout_secs: u64,
    pub graceful_shutdown_secs: u64,
    pub max_request_bytes: usize,
    pub max_header_bytes: usize,
    pub max_header_count: usize,
    pub concurrency_limit: usize,
    pub keep_alive: bool,
    pub tcp_nodelay: bool,
    pub trusted_proxies: Seq<IpAddress>,
}

impl View for ServerOptions {
    type V = OptionsModel;

    open spec fn view(&self) -> OptionsModel {
        OptionsModel {
            bind_address: self.bind_address,
            protocol: self.protocol,
            request_timeout_secs: self.request_timeout_secs,
            read_timeout_secs: self.read_timeout_secs,
            handler_timeout_secs: self.handler_timeout_secs,
            graceful_shutdown_secs: self.graceful_shutdown_secs,
            max_request_bytes: self.max_request_bytes,
            max_header_bytes: self.max_header_bytes,
            max_header_count: self.max_header_count,
            concurrency_limit: self.concurrency_limit,
            keep_alive: self.keep_alive,
            tcp_nodelay: self.tcp_nodelay,
            trusted_proxies: self.trusted_proxies@,
        }
    }
}

/// The refusal of a limit that must be positive.
pub open spec fn zero_limit(key: Seq<char>) -> ConfigFault {
    ConfigFault::InvalidValue { key, value: "0"@, expected: "positive usize"@ }
}

/// Validation of server settings: every limit positive, the bind host an
/// IP address.
pub open spec fn spec_server_options(v: ServerModel) -> Result<OptionsModel, ConfigFault> {
    if v.max_request_bytes == 0 {
        Err(zero_limit("server.max-request-bytes"@))
    } else if v.max_header_bytes == 0 {
        Err(zero_limit("server.max-header-bytes"@))
    } else if v.max_header_count == 0 {
        Err(zero_limit("server.max-header-count"@))
    } else if v.concurrency_limit == 0 {
        Err(zero_limit("server.concurrency-limit"@))
    } else {
        match spec_parse_ip(v.bind_host) {
            None => Err(
                ConfigFault::InvalidValue {
                    key: "server.bind-host"@,
                    value: v.bind_host,
                    expected: "IP address"@,
                },
            ),
            Some(ip) => Ok(
                OptionsModel {
                    bind_address: SocketAddress { ip, port: v.bind_port },
                    protocol: v.protocol,
                    request_timeout_secs: v.request_timeout_secs,
                    read_timeout_secs: v.read_timeout_secs,
                    handler_timeout_secs: v.handler_timeout_secs,
                    graceful_shutdown_secs: v.graceful_shutdown_secs,
                    max_request_bytes: v.max_request_bytes,
                    max_header_bytes: v.max_header_bytes,
                    max_header_count: v.max_header_count,
                    concurrency_limit: v.concurrency_limit,
                    keep_alive: v.keep_alive,
                    tcp_nodelay: v.tcp_nodelay,
                    trusted_proxies: v.trusted_proxies,
                },
            ),
        }
    }
}

/// A validated result with its error taken by its abstract value.
pub open spec fn options_result(r: Result<ServerOptions, ConfigError>) -> Result<OptionsModel, ConfigFault> {
    match r {
        Ok(o) => Ok(o@),
        Err(e) => Err(e@),
    }
}

fn zero_limit_error(key: &'static str) -> (r: ConfigError)
    ensures
        r@ == zero_limit(key@),
{
    ConfigError::InvalidValue { key, value: "0".to_string(), expected: "positive usize" }
}

impl ServerOptions {
    /// Validates server settings.
    pub fn try_from(value: &ServerConfig) -> (r: Result<Self, ConfigError>)
        ensures
            options_result(r) == spec_server_options(value@),
    {
        if value.max_request_bytes == 0 {
            return Err(zero_limit_error("server.max-request-bytes"));
        }
        if value.max_header_bytes == 0 {
            return Err(zero_limit_error("server.max-header-bytes"));
        }
        if value.max_header_count == 0 {
            return Err(zero_limit_error("server.max-header-count"));
        }
        if value.concurrency_limit == 0 {
            return Err(zero_limit_error("server.concurrency-limit"));
        }
        let host = chars_of(value.bind_host.as_str());
        let ip = match parse_ip_chars(host.as_slice()) {
            Some(ip) => ip,
            None => {
                return Err(
                    ConfigError::InvalidValue {
                        key: "server.bind-host",
                        value: value.bind_host.clone(),
                        expected: "IP address",
                    },
                );
            },
        };
        let mut proxies: Vec<IpAddress> = Vec::new();
        let mut i: usize = 0;
        while i < value.trusted_proxies.len()
            invariant
                i <= value.trusted_proxies.len(),
                proxies@ == value.trusted_proxies@.take(i as int),
            decreases value.trusted_proxies.len() - i,
        {
            proxies.push(value.trusted_proxies[i]);
            assert(proxies@ =~= value.trusted_proxies@.take(i + 1));
            i += 1;
        }
        assert(proxies@ =~= value.trusted_proxies@);
        Ok(
            ServerOptions {
                bind_address: SocketAddress { ip, port: value.bind_port },
                protocol: value.protocol,
                request_timeout_secs: value.request_timeout_secs,
                read_timeout_secs: value.read_timeout_secs,
                handler_timeout_secs: value.handler_timeout_secs,
                graceful_shutdown_secs: value.graceful_shutdown_secs,
                max_request_bytes: value.max_request_bytes,
                max_header_bytes: value.max_header_bytes,
                max_header_count: value.max_header_count,
                concurrency_limit: value.concurrency_limit,
                keep_alive: value.keep_alive,
                tcp_nodelay: value.tcp_nodelay,
                trusted_proxies: proxies,
            },
        )
    }
}

/// A boolean setting read under any of `keys` (later keys win); an error
/// names the first key.
pub open spec fn alias_bool(c: ConfigModel, keys: Seq<Seq<char>>, default: bool) -> Result<bool, ConfigFault> {
    bool_setting(config_get_any(c, keys), keys[0], default)
}

/// An unsigned setting of at most `max` read under any of `keys`.
pub open spec fn alias_number(
    c: ConfigModel,
    keys: Seq<Seq<char>>,
    default: nat,
    max: nat,
    expected: Seq<char>,
) -> Result<nat, ConfigFault> {
    number_setting(config_get_any(c, keys), keys[0], default, max, expected)
}

/// The addresses of a comma-separated list, blanks skipped; the first item
/// that is not an address is refused, naming `key`.
pub open spec fn ip_items(items: Seq<Seq<char>>, key: Seq<char>) -> Result<Seq<IpAddress>, ConfigFault>
    decreases items.len(),
{
    if items.len() == 0 {
        Ok(Seq::empty())
    } else {
        match ip_items(items.drop_last(), key) {
            Err(e) => Err(e),
            Ok(ips) => {
                let t = trim(items.last());
                if t.len() == 0 {
                    Ok(ips)
                } else {
                    match spec_parse_ip(t) {
                        Some(ip) => Ok(ips.push(ip)),
                        None => Err(
                            ConfigFault::InvalidValue {
                                key,
                                value: t,
                                expected: "comma-separated IP addresses"@,
                            },
                        ),
                    }
                }
            },
        }
    }
}

/// A list of addresses read under any of `keys`; empty when unset.
pub open spec fn alias_ip_list(c: ConfigModel, keys: Seq<Seq<char>>) -> Result<Seq<IpAddress>, ConfigFault> {
    match config_get_any(c, keys) {
        None => Ok(Seq::empty()),
        Some(v) => ip_items(split(v, ','), keys[0]),
    }
}

/// Reads a boolean setting under any of `keys`.
pub fn parse_bool_alias(configuration: &Configuration, keys: &[&'static str], default: bool) -> (r:
    Result<bool, ConfigError>)
    ensures
        keys@.len() > 0 ==> config_result(r) == alias_bool(configuration@, key_texts(keys@), default),
        keys@.len() == 0 ==> r == Ok::<bool, ConfigError>(default),
{
    match configuration.get_any(keys) {
        None => Ok(default),
        Some(value) => {
            let v = chars_of(value);
            match bool_word_exec(v.as_slice()) {
                Some(b) => Ok(b),
                None => Err(
                    ConfigError::InvalidValue {
                        key: keys[0],
                        value: value.to_string(),
                        expected: "boolean",
                    },
                ),
            }
        },
    }
}

/// Reads an unsigned 64-bit setting under any of `keys`.
pub fn parse_u64_alias(configuration: &Configuration, keys: &[&'static str], default: u64) -> (r:
    Result<u64, ConfigError>)
    ensures
        keys@.len() > 0 ==> match alias_number(
            configuration@,
            key_texts(keys@),
            default as nat,
            u64::MAX as nat,
            "u64"@,
        ) {
            Ok(n) => r == Ok::<u64, ConfigError>(n as u64),
            Err(f) => r matches Err(e) && e@ == f,
        },
        keys@.len() == 0 ==> r == Ok::<u64, ConfigError>(default),
{
    match configuration.get_any(keys) {
        None => Ok(default),
        Some(value) => {
            let v = chars_of(value);
            match parse_unsigned_chars(v.as_slice(), u64::MAX) {
                Some(n) => Ok(n),
                None => Err(
                    ConfigError::InvalidValue {
                        key: keys[0],
                        value: value.to_string(),
                        expected: "u64",
                    },
                ),
            }
        },
    }
}

/// Reads an unsigned 16-bit setting under any of `keys`.
pub fn parse_u16_alias(configuration: &Configuration, keys: &[&'static str], default: u16) -> (r:
    Result<u16, ConfigError>)
    ensures
        keys@.len() > 0 ==> match alias_number(
            configuration@,
            key_texts(keys@),
            default as nat,
            u16::MAX as nat,
            "u16"@,
        ) {
            Ok(n) => r == Ok::<u16, ConfigError>(n as u16),
            Err(f) => r matches Err(e) && e@ == f,
        },
        keys@.len() == 0 ==> r == Ok::<u16, ConfigError>(default),
{
    match configuration.get_any(keys) {
        None => Ok(default),
        Some(value) => {
            let v = chars_of(value);
            match parse_unsigned_chars(v.as_slice(), u16::MAX as u64) {
                Some(n) => Ok(n as u16),
                None => Err(
                    ConfigError::InvalidValue {
                        key: keys[0],
                        value: value.to_string(),
                        expected: "u16",
                    },
                ),
            }
        },
    }
}

/// Reads an unsigned machine-word setting under any of `keys`.
pub fn parse_usize_alias(configuration: &Configuration, keys: &[&'static str], default: usize) -> (r:
    Result<usize, ConfigError>)
    ensures
        keys@.len() > 0 ==> match alias_number(
            configuration@,
            key_texts(keys@),
            default as nat,
            usize::MAX as nat,
            "usize"@,
        ) {
            Ok(n) => r == Ok::<usize, ConfigError>(n as usize),
            Err(f) => r matches Err(e) && e@ == f,
        },
        keys@.len() == 0 ==> r == Ok::<usize, ConfigError>(default),
{
    match configuration.get_any(keys) {
        None => Ok(default),
        Some(value) => {
            let v = chars_of(value);
            match parse_unsigned_chars(v.as_slice(), usize::MAX as u64) {
                Some(n) => Ok(n as usize),
                None => Err(
                    ConfigError::InvalidValue {
                        key: keys[0],
                        value: value.to_string(),
                        expected: "usize",
                    },
                ),
            }
        },
    }
}

/// Reads a comma-separated list of IP addresses under any of `keys`.
pub fn parse_ip_list_alias(configuration: &Configuration, keys: &[&'static str]) -> (r: Result<
    Vec<IpAddress>,
    ConfigError,
>)
    ensures
        keys@.len() > 0 ==> match alias_ip_list(configuration@, key_texts(keys@)) {
            Ok(ips) => r matches Ok(v) && v@ == ips,
            Err(f) => r matches Err(e) && e@ == f,
        },
        keys@.len() == 0 ==> (r matches Ok(v) && v@.len() == 0),
{
    let value = match configuration.get_any(keys) {
        None => {
            return Ok(Vec::new());
        },
        Some(v) => v,
    };
    let ghost key0 = keys@[0]@;
    assert(key_texts(keys@)[0] == key0);
    let c = chars_of(value);
    let items = split_chars(c.as_slice(), ',');
    let ghost its = split(value@, ',');
    let mut ips: Vec<IpAddress> = Vec::new();
    let mut i: usize = 0;
    assert(its.take(0) =~= Seq::<Seq<char>>::empty());
    while i < items.len()
        invariant
            i <= items.len(),
            its == split(value@, ','),
            items@.len() == its.len(),
            forall|k: int| 0 <= k < items@.len() ==> #[trigger] items@[k]@ == its[k],
            keys@.len() > 0,
            key0 == keys@[0]@,
            key_texts(keys@)[0] == key0,
            config_get_any(configuration@, key_texts(keys@)) == Some(value@),
            ip_items(its.take(i as int), key0) == Ok::<Seq<IpAddress>, ConfigFault>(ips@),
        decreases items.len() - i,
    {
        assert(its.take(i + 1).drop_last() =~= its.take(i as int));
        assert(its.take(i + 1).last() == items@[i as int]@);
        let t = trim_chars(items[i].as_slice());
        if t.len() > 0 {
            match parse_ip_chars(t.as_slice()) {
                Some(ip) => {
                    ips.push(ip);
                },
                None => {
                    proof {
                        lemma_ip_items_error_stays(its, i as int + 1, key0);
                    }
                    return Err(
                        ConfigError::InvalidValue {
                            key: keys[0],
                            value: string_of(t.as_slice()),
                            expected: "comma-separated IP addresses",
                        },
                    );
                },
            }
        }
        i += 1;
    }
    assert(its.take(items.len() as int) =~= its);
    Ok(ips)
}

/// Once a prefix of the items is refused, the whole list is refused with
/// the same error.
proof fn lemma_ip_items_error_stays(items: Seq<Seq<char>>, n: int, key: Seq<char>)
    requires
        0 <= n <= items.len(),
        ip_items(items.take(n), key) is Err,
    ensures
        ip_items(items, key) == ip_items(items.take(n), key),
    decreases items.len() - n,
{
    if n < items.len() {
        assert(items.take(n + 1).drop_last() =~= items.take(n));
        lemma_ip_items_error_stays(items, n + 1, key);
    } else {
        assert(items.take(n) =~= items);
    }
}

/// The host and port of a socket address written as text.
pub open spec fn spec_socket_parts(value: Seq<char>) -> Option<(Seq<char>, u16)> {
    match spec_parse_socket(value) {
        Some(a) => Some((spec_ip_text(a.ip), a.port)),
        None => None,
    }
}

/// Splits a socket address written as text into its host text and port.
pub fn parse_socket_parts(value: &str) -> (r: Option<(String, u16)>)
    ensures
        match spec_socket_parts(value@) {
            Some((h, p)) => r matches Some((x, q)) && x@ == h && q == p,
            None => r is None,
        },
{
    match parse_socket(value) {
        Some(a) => Some((ip_to_string(a.ip), a.port)),
        None => None,
    }
}

/// Built-in framework settings.
#[derive(Clone, Debug)]
pub struct AppConfig {
    pub service_name: String,
    pub environment: String,
    pub profile: String,
    pub enable_info: bool,
    pub readiness: bool,
    pub server: ServerConfig,
}

/// The abstract value of framework settings.
pub struct AppModel {
    pub service_name: Seq<char>,
    pub environment: Seq<char>,
    pub profile: Seq<char>,
    pub enable_info: bool,
    pub readiness: bool,
    pub server: ServerModel,
}

impl View for AppConfig {
    type V = AppModel;

    open spec fn view(&self) -> AppModel {
        AppModel {
            service_name: self.service_name@,
            environment: self.environment@,
            profile: self.profile@,
            enable_info: self.enable_info,
            readiness: self.readiness,
            server: self.server@,
        }
    }
}

/// The default framework settings.
pub open spec fn default_app() -> AppModel {
    AppModel {
        service_name: "mini-backend"@,
        environment: "development"@,
        profile: "development"@,
        enable_info: true,
        readiness: true,
        server: default_server(),
    }
}

impl Default for AppConfig {
    fn default() -> (r: Self)
        ensures
            r@ == default_app(),
    {
        AppConfig {
            service_name: "mini-backend".to_string(),
            environment: "development".to_string(),
            profile: "development".to_string(),
            enable_info: true,
            readiness: true,
            server: ServerConfig::default(),
        }
    }
}

/// Binding of a type from a configuration, for types that need their own
/// parsing or validation.
pub trait FromConfiguration: Sized {
    fn from_configuration(configuration: &Configuration) -> Result<Self, ConfigError>;
}

/// Projection of a settings type out of an already bound root type.
pub trait FromConfig<Root>: Sized {
    fn from_config(root: &Root) -> Result<Self, ConfigError>;
}

/// The keys `service.name` is read under.
pub open spec fn service_name_keys() -> Seq<Seq<char>> {
    seq!["service.name"@]
}

/// The keys `service.enable-info` is read under.
pub open spec fn enable_info_keys() -> Seq<Seq<char>> {
    seq!["service.enable-info"@, "service.enable.info"@]
}

/// The keys `service.readiness` is read under.
pub open spec fn readiness_keys() -> Seq<Seq<char>> {
    seq!["service.readiness"@, "service.ready"@]
}

/// The keys `server.address` is read under.
pub open spec fn address_keys() -> Seq<Seq<char>> {
    seq!["server.address"@]
}

/// The keys `server.bind-host` is read under.
pub open spec fn bind_host_keys() -> Seq<Seq<char>> {
    seq!["server.bind-host"@, "server.bind.host"@]
}

/// The keys `server.bind-port` is read under.
pub open spec fn bind_port_keys() -> Seq<Seq<char>> {
    seq!["server.bind-port"@, "server.bind.port"@]
}

/// The keys `server.request-timeout-seconds` is read under.
pub open spec fn request_timeout_seconds_keys() -> Seq<Seq<char>> {
    seq!["server.request-timeout-seconds"@, "server.request.timeout.seconds"@]
}

/// The keys `server.read-timeout-seconds` is read under.
pub open spec fn read_timeout_seconds_keys() -> Seq<Seq<char>> {
    seq!["server.read-timeout-seconds"@, "server.read.timeout.seconds"@]
}

/// The keys `server.handler-timeout-seconds` is read under.
pub open spec fn handler_timeout_seconds_keys() -> Seq<Seq<char>> {
    seq!["server.handler-timeout-seconds"@, "server.handler.timeout.seconds"@]
}

/// The keys `server.graceful-shutdown-seconds` is read under.
pub open spec fn graceful_shutdown_seconds_keys() -> Seq<Seq<char>> {
    seq!["server.graceful-shutdown-seconds"@, "server.graceful.shutdown.seconds"@]
}

/// The keys `server.max-request-bytes` is read under.
pub open spec fn max_request_bytes_keys() -> Seq<Seq<char>> {
    seq!["server.max-request-bytes"@, "server.max.request.bytes"@]
}

/// The keys `server.max-header-bytes` is read under.
pub open spec fn max_header_bytes_keys() -> Seq<Seq<char>> {
    seq!["server.max-header-bytes"@, "server.max.header.bytes"@]
}

/// The keys `server.max-header-count` is read under.
pub open spec fn max_header_count_keys() -> Seq<Seq<char>> {
    seq!["server.max-header-count"@, "server.max.header.count"@]
}

/// The keys `server.concurrency-limit` is read under.
pub open spec fn concurrency_limit_keys() -> Seq<Seq<char>> {
    seq!["server.concurrency-limit"@, "server.concurrency.limit"@]
}

/// The keys `server.keep-alive` is read under.
pub open spec fn keep_alive_keys() -> Seq<Seq<char>> {
    seq!["server.keep-alive"@, "server.keep.alive"@]
}

/// The keys `server.tcp-nodelay` is read under.
pub open spec fn tcp_nodelay_keys() -> Seq<Seq<char>> {
    seq!["server.tcp-nodelay"@, "server.tcp.nodelay"@]
}

/// The keys `server.protocol` is read under.
pub open spec fn protocol_keys() -> Seq<Seq<char>> {
    seq!["server.protocol"@]
}

/// The keys `server.trusted-proxies` is read under.
pub open spec fn trusted_proxies_keys() -> Seq<Seq<char>> {
    seq!["server.trusted-proxies"@, "server.trusted.proxies"@]
}

/// The service name: `service.name`, else `mini-backend`; a blank name is
/// refused.
pub open spec fn spec_service_name(c: ConfigModel) -> Result<Seq<char>, ConfigFault> {
    let n = match config_get_any(c, service_name_keys()) {
        Some(v) => v,
        None => "mini-backend"@,
    };
    if trim(n).len() == 0 {
        Err(ConfigFault::MissingKey("service.name"@))
    } else {
        Ok(n)
    }
}

/// The default bind host and port: those of `server.address` when it is a
/// socket address, else `127.0.0.1:8080`'s.
pub open spec fn derived_bind(c: ConfigModel) -> (Seq<char>, u16) {
    let address = match config_get_any(c, address_keys()) {
        Some(v) => v,
        None => "127.0.0.1:8080"@,
    };
    match spec_socket_parts(address) {
        Some(parts) => parts,
        None => ("127.0.0.1"@, 8080u16),
    }
}

/// The protocol setting; `auto` when unset.
pub open spec fn spec_protocol_setting(c: ConfigModel) -> Result<ServerProtocol, ConfigFault> {
    match config_get_any(c, protocol_keys()) {
        None => Ok(ServerProtocol::Auto),
        Some(v) => spec_parse_protocol(v),
    }
}

/// A `u64` setting read under `keys`.
pub open spec fn u64_setting(c: ConfigModel, keys: Seq<Seq<char>>, default: nat) -> Result<nat, ConfigFault> {
    alias_number(c, keys, default, u64::MAX as nat, "u64"@)
}

/// A `usize` setting read under `keys`.
pub open spec fn usize_setting(c: ConfigModel, keys: Seq<Seq<char>>, default: nat) -> Result<nat, ConfigFault> {
    alias_number(c, keys, default, usize::MAX as nat, "usize"@)
}

/// The timeouts (request, read, handler, graceful shutdown), in seconds;
/// read and handler default to the request timeout.
pub open spec fn spec_timeouts(c: ConfigModel) -> Result<(u64, u64, u64, u64), ConfigFault> {
    match u64_setting(c, request_timeout_seconds_keys(), 5) {
        Err(e) => Err(e),
        Ok(rt) => match u64_setting(c, read_timeout_seconds_keys(), rt) {
            Err(e) => Err(e),
            Ok(rd) => match u64_setting(c, handler_timeout_seconds_keys(), rt) {
                Err(e) => Err(e),
                Ok(hd) => match u64_setting(c, graceful_shutdown_seconds_keys(), 5) {
                    Err(e) => Err(e),
                    Ok(gs) => Ok((rt as u64, rd as u64, hd as u64, gs as u64)),
                },
            },
        },
    }
}

/// The size limits (request bytes, header bytes, header count,
/// concurrency).
pub open spec fn spec_limits(c: ConfigModel) -> Result<(usize, usize, usize, usize), ConfigFault> {
    match usize_setting(c, max_request_bytes_keys(), 65536) {
        Err(e) => Err(e),
        Ok(a) => match usize_setting(c, max_header_bytes_keys(), 8192) {
            Err(e) => Err(e),
            Ok(b) => match usize_setting(c, max_header_count_keys(), 64) {
                Err(e) => Err(e),
                Ok(n) => match usize_setting(c, concurrency_limit_keys(), 1024) {
                    Err(e) => Err(e),
                    Ok(k) => Ok((a as usize, b as usize, n as usize, k as usize)),
                },
            },
        },
    }
}

/// The server settings a configuration denotes, before validation. The
/// address is always `host:port` of the bound host and port.
pub open spec fn spec_server_settings(c: ConfigModel) -> Result<ServerModel, ConfigFault> {
    let (dh, dp) = derived_bind(c);
    let host = match config_get_any(c, bind_host_keys()) {
        Some(v) => v,
        None => dh,
    };
    match alias_number(c, bind_port_keys(), dp as nat, u16::MAX as nat, "u16"@) {
        Err(e) => Err(e),
        Ok(port) => match spec_timeouts(c) {
            Err(e) => Err(e),
            Ok((rt, rd, hd, gs)) => match spec_limits(c) {
                Err(e) => Err(e),
                Ok((mrb, mhb, mhc, cl)) => match alias_bool(
                    c,
                    keep_alive_keys(),
                    true,
                ) {
                    Err(e) => Err(e),
                    Ok(ka) => match alias_bool(c, tcp_nodelay_keys(), true) {
                        Err(e) => Err(e),
                        Ok(nd) => match spec_protocol_setting(c) {
                            Err(e) => Err(e),
                            Ok(protocol) => match alias_ip_list(
                                c,
                                trusted_proxies_keys(),
                            ) {
                                Err(e) => Err(e),
                                Ok(proxies) => Ok(
                                    ServerModel {
                                        address: host + ":"@ + crate::text::decimal(port),
                                        bind_host: host,
                                        bind_port: port as u16,
                                        protocol,
                                        request_timeout_secs: rt,
                                        read_timeout_secs: rd,
                                        handler_timeout_secs: hd,
                                        graceful_shutdown_secs: gs,
                                        max_request_bytes: mrb,
                                        max_header_bytes: mhb,
                                        max_header_count: mhc,
                                        concurrency_limit: cl,
                                        keep_alive: ka,
                                        tcp_nodelay: nd,
                                        trusted_proxies: proxies,
                                    },
                                ),
                            },
                        },
                    },
                },
            },
        },
    }
}

/// The framework settings a configuration denotes, or the first error in
/// reading order: service name, info and readiness flags, server settings,
/// then the server settings' validation. The info endpoint defaults to on
/// in the `development` environment only.
pub open spec fn spec_app_config(c: ConfigModel) -> Result<AppModel, ConfigFault> {
    match spec_service_name(c) {
        Err(e) => Err(e),
        Ok(name) => match alias_bool(
            c,
            enable_info_keys(),
            c.environment == "development"@,
        ) {
            Err(e) => Err(e),
            Ok(info) => match alias_bool(c, readiness_keys(), true) {
                Err(e) => Err(e),
                Ok(ready) => match spec_server_settings(c) {
                    Err(e) => Err(e),
                    Ok(server) => match spec_server_options(server) {
                        Err(e) => Err(e),
                        Ok(_) => Ok(
                            AppModel {
                                service_name: name,
                                environment: c.environment,
                                profile: c.profile,
                                enable_info: info,
                                readiness: ready,
                                server,
                            },
                        ),
                    },
                },
            },
        },
    }
}

fn service_name(c: &Configuration) -> (r: Result<String, ConfigError>)
    ensures
        match spec_service_name(c@) {
            Ok(n) => r matches Ok(x) && x@ == n,
            Err(f) => r matches Err(e) && e@ == f,
        },
{
    let keys: [&'static str; 1] = ["service.name"];
    assert(key_texts(keys@) =~= service_name_keys());
    let name = match c.get_any(&keys) {
        Some(v) => v.to_string(),
        None => "mini-backend".to_string(),
    };
    let n = chars_of(name.as_str());
    if trim_chars(n.as_slice()).len() == 0 {
        return Err(ConfigError::MissingKey("service.name"));
    }
    Ok(name)
}

fn timeouts(c: &Configuration) -> (r: Result<(u64, u64, u64, u64), ConfigError>)
    ensures
        match spec_timeouts(c@) {
            Ok(t) => r == Ok::<(u64, u64, u64, u64), ConfigError>(t),
            Err(f) => r matches Err(e) && e@ == f,
        },
{
    let k1: [&'static str; 2] = ["server.request-timeout-seconds", "server.request.timeout.seconds"];
    assert(key_texts(k1@) =~= request_timeout_seconds_keys());
    let rt = match parse_u64_alias(c, &k1, 5) {
        Ok(v) => v,
        Err(e) => {
            return Err(e);
        },
    };
    let k2: [&'static str; 2] = ["server.read-timeout-seconds", "server.read.timeout.seconds"];
    assert(key_texts(k2@) =~= read_timeout_seconds_keys());
    let rd = match parse_u64_alias(c, &k2, rt) {
        Ok(v) => v,
        Err(e) => {
            return Err(e);
        },
    };
    let k3: [&'static str; 2] = ["server.handler-timeout-seconds", "server.handler.timeout.seconds"];
    assert(key_texts(k3@) =~= handler_timeout_seconds_keys());
    let hd = match parse_u64_alias(c, &k3, rt) {
        Ok(v) => v,
        Err(e) => {
            return Err(e);
        },
    };
    let k4: [&'static str; 2] = ["server.graceful-shutdown-seconds", "server.graceful.shutdown.seconds"];
    assert(key_texts(k4@) =~= graceful_shutdown_seconds_keys());
    let gs = match parse_u64_alias(c, &k4, 5) {
        Ok(v) => v,
        Err(e) => {
            return Err(e);
        },
    };
    Ok((rt, rd, hd, gs))
}

fn limits(c: &Configuration) -> (r: Result<(usize, usize, usize, usize), ConfigError>)
    ensures
        match spec_limits(c@) {
            Ok(t) => r == Ok::<(usize, usize, usize, usize), ConfigError>(t),
            Err(f) => r matches Err(e) && e@ == f,
        },
{
    let k1: [&'static str; 2] = ["server.max-request-bytes", "server.max.request.bytes"];
    assert(key_texts(k1@) =~= max_request_bytes_keys());
    let a = match parse_usize_alias(c, &k1, 64 * 1024) {
        Ok(v) => v,
        Err(e) => {
            return Err(e);
        },
    };
    let k2: [&'static str; 2] = ["server.max-header-bytes", "server.max.header.bytes"];
    assert(key_texts(k2@) =~= max_header_bytes_keys());
    let b = match parse_usize_alias(c, &k2, 8 * 1024) {
        Ok(v) => v,
        Err(e) => {
            return Err(e);
        },
    };
    let k3: [&'static str; 2] = ["server.max-header-count", "server.max.header.count"];
    assert(key_texts(k3@) =~= max_header_count_keys());
    let n = match parse_usize_alias(c, &k3, 64) {
        Ok(v) => v,
        Err(e) => {
            return Err(e);
        },
    };
    let k4: [&'static str; 2] = ["server.concurrency-limit", "server.concurrency.limit"];
    assert(key_texts(k4@) =~= concurrency_limit_keys());
    let k = match parse_usize_alias(c, &k4, 1024) {
        Ok(v) => v,
        Err(e) => {
            return Err(e);
        },
    };
    Ok((a, b, n, k))
}

fn derived_bind_exec(c: &Configuration) -> (r: (String, u16))
    ensures
        r.0@ == derived_bind(c@).0,
        r.1 == derived_bind(c@).1,
{
    let keys: [&'static str; 1] = ["server.address"];
    assert(key_texts(keys@) =~= address_keys());
    let address = match c.get_any(&keys) {
        Some(v) => v.to_string(),
        None => "127.0.0.1:8080".to_string(),
    };
    match parse_socket_parts(address.as_str()) {
        Some(parts) => parts,
        None => ("127.0.0.1".to_string(), 8080),
    }
}

fn protocol_setting(c: &Configuration) -> (r: Result<ServerProtocol, ConfigError>)
    ensures
        config_result(r) == spec_protocol_setting(c@),
{
    let keys: [&'static str; 1] = ["server.protocol"];
    assert(key_texts(keys@) =~= protocol_keys());
    match c.get_any(&keys) {
        None => Ok(ServerProtocol::Auto),
        Some(v) => ServerProtocol::parse(v),
    }
}

/// The server settings of a configuration, before validation.
pub fn server_settings(c: &Configuration) -> (r: Result<ServerConfig, ConfigError>)
    ensures
        match spec_server_settings(c@) {
            Ok(m) => r matches Ok(x) && x@ == m,
            Err(f) => r matches Err(e) && e@ == f,
        },
{
    let (dh, dp) = derived_bind_exec(c);
    let hk: [&'static str; 2] = ["server.bind-host", "server.bind.host"];
    assert(key_texts(hk@) =~= bind_host_keys());
    let host = match c.get_any(&hk) {
        Some(v) => v.to_string(),
        None => dh,
    };
    let pk: [&'static str; 2] = ["server.bind-port", "server.bind.port"];
    assert(key_texts(pk@) =~= bind_port_keys());
    let port = match parse_u16_alias(c, &pk, dp) {
        Ok(v) => v,
        Err(e) => {
            return Err(e);
        },
    };
    let (rt, rd, hd, gs) = match timeouts(c) {
        Ok(t) => t,
        Err(e) => {
            return Err(e);
        },
    };
    let (mrb, mhb, mhc, cl) = match limits(c) {
        Ok(t) => t,
        Err(e) => {
            return Err(e);
        },
    };
    let kk: [&'static str; 2] = ["server.keep-alive", "server.keep.alive"];
    assert(key_texts(kk@) =~= keep_alive_keys());
    let ka = match parse_bool_alias(c, &kk, true) {
        Ok(v) => v,
        Err(e) => {
            return Err(e);
        },
    };
    let nk: [&'static str; 2] = ["server.tcp-nodelay", "server.tcp.nodelay"];
    assert(key_texts(nk@) =~= tcp_nodelay_keys());
    let nd = match parse_bool_alias(c, &nk, true) {
        Ok(v) => v,
        Err(e) => {
            return Err(e);
        },
    };
    let protocol = match protocol_setting(c) {
        Ok(p) => p,
        Err(e) => {
            return Err(e);
        },
    };
    let tk: [&'static str; 2] = ["server.trusted-proxies", "server.trusted.proxies"];
    assert(key_texts(tk@) =~= trusted_proxies_keys());
    let proxies = match parse_ip_list_alias(c, &tk) {
        Ok(v) => v,
        Err(e) => {
            return Err(e);
        },
    };
    let mut address = chars_of(host.as_str());
    extend_str(&mut address, ":");
    let d = crate::text::decimal_chars(port as u64);
    extend_chars(&mut address, d.as_slice());
    Ok(
        ServerConfig {
            address: string_of(address.as_slice()),
            bind_host: host,
            bind_port: port,
            protocol,
            request_timeout_secs: rt,
            read_timeout_secs: rd,
            handler_timeout_secs: hd,
            graceful_shutdown_secs: gs,
            max_request_bytes: mrb,
            max_header_bytes: mhb,
            max_header_count: mhc,
            concurrency_limit: cl,
            keep_alive: ka,
            tcp_nodelay: nd,
            trusted_proxies: proxies,
        },
    )
}

impl FromConfiguration for AppConfig {
    /// Binds the framework settings: the service name and flags, then the
    /// server settings, which must validate.
    fn from_configuration(configuration: &Configuration) -> (r: Result<Self, ConfigError>)
        ensures
            match spec_app_config(configuration@) {
                Ok(m) => r matches Ok(x) && x@ == m,
                Err(f) => r matches Err(e) && e@ == f,
            },
    {
        let name = match service_name(configuration) {
            Ok(n) => n,
            Err(e) => {
                return Err(e);
            },
        };
        let is_development = str_eq_chars(
            "development",
            chars_of(configuration.environment()).as_slice(),
        );
        let ik: [&'static str; 2] = ["service.enable-info", "service.enable.info"];
        assert(key_texts(ik@) =~= enable_info_keys());
        let enable_info = match parse_bool_alias(configuration, &ik, is_development) {
            Ok(v) => v,
            Err(e) => {
                return Err(e);
            },
        };
        let rk: [&'static str; 2] = ["service.readiness", "service.ready"];
        assert(key_texts(rk@) =~= readiness_keys());
        let readiness = match parse_bool_alias(configuration, &rk, true) {
            Ok(v) => v,
            Err(e) => {
                return Err(e);
            },
        };
        let server = match server_settings(configuration) {
            Ok(s) => s,
            Err(e) => {
                return Err(e);
            },
        };
        match ServerOptions::try_from(&server) {
            Ok(_) => {},
            Err(e) => {
                return Err(e);
            },
        }
        Ok(
            AppConfig {
                service_name: name,
                environment: configuration.environment().to_string(),
                profile: configuration.profile().to_string(),
                enable_info,
                readiness,
                server,
            },
        )
    }
}

// ---------------------------------------------------------------------------
// Laws of layering
// ---------------------------------------------------------------------------
/// The settings an environment overrides, in order.
pub open spec fn env_layer(env: Seq<(Seq<char>, Seq<char>)>, prefix: Seq<char>) -> Seq<(Seq<char>, Seq<char>)>
    decreases env.len(),
{
    if env.len() == 0 {
        Seq::empty()
    } else {
        let before = env_layer(env.drop_last(), prefix);
        match env_setting_key(env.last().0, prefix) {
            Some(k) => before.push((k, env.last().1)),
            None => before,
        }
    }
}

/// Setting a layer's entries in order is the union in which the layer wins.
pub proof fn lemma_with_entries_union(m: Map<Seq<char>, Seq<char>>, s: Seq<(Seq<char>, Seq<char>)>)
    ensures
        with_entries(m, s) == m.union_prefer_right(entries_map(s)),
    decreases s.len(),
{
    if s.len() > 0 {
        lemma_with_entries_union(m, s.drop_last());
        let k = s.last().0;
        assert forall|j: Seq<char>| #![auto] lookup(s, j) == if j == k {
            Some(s.last().1)
        } else {
            lookup(s.drop_last(), j)
        } by {}
        assert(with_entries(m, s) =~= m.union_prefer_right(entries_map(s)));
    } else {
        assert(m.union_prefer_right(entries_map(s)) =~= m);
    }
}

/// Applying environment overrides sets the environment's layer.
pub proof fn lemma_env_overrides_layer(
    m: Map<Seq<char>, Seq<char>>,
    env: Seq<(Seq<char>, Seq<char>)>,
    prefix: Seq<char>,
)
    ensures
        env_overrides(m, env, prefix) == with_entries(m, env_layer(env, prefix)),
    decreases env.len(),
{
    if env.len() > 0 {
        lemma_env_overrides_layer(m, env.drop_last(), prefix);
        let before = env_layer(env.drop_last(), prefix);
        match env_setting_key(env.last().0, prefix) {
            Some(k) => {
                assert(before.push((k, env.last().1)).drop_last() =~= before);
            },
            None => {},
        }
    }
}

/// Layering: a built configuration holds the base file's settings,
/// overridden by the profile file's, overridden by the environment's.
pub proof fn law_layer_precedence(
    b: BuilderModel,
    env: Seq<(Seq<char>, Seq<char>)>,
    base: Seq<(Seq<char>, Seq<char>)>,
    profile_layer: Seq<(Seq<char>, Seq<char>)>,
)
    ensures
        spec_build(b, env, base, profile_layer).values == entries_map(base).union_prefer_right(
            entries_map(profile_layer),
        ).union_prefer_right(entries_map(env_layer(env, b.env_prefix))),
{
    let empty = Map::<Seq<char>, Seq<char>>::empty();
    lemma_with_entries_union(empty, base);
    assert(empty.union_prefer_right(entries_map(base)) =~= entries_map(base));
    let m1 = with_entries(empty, base);
    lemma_with_entries_union(m1, profile_layer);
    let m2 = with_entries(m1, profile_layer);
    lemma_env_overrides_layer(m2, env, b.env_prefix);
    lemma_with_entries_union(m2, env_layer(env, b.env_prefix));
}

/// Aliases: the later of two keys wins when both are set.
pub proof fn law_later_alias_wins(c: ConfigModel, keys: Seq<Seq<char>>, i: int)
    requires
        0 <= i < keys.len(),
        c.values.dom().contains(keys[i]),
        forall|j: int| i < j < keys.len() ==> !c.values.dom().contains(#[trigger] keys[j]),
    ensures
        config_get_any(c, keys) == Some(c.values[keys[i]]),
    decreases keys.len(),
{
    if i < keys.len() - 1 {
        assert(!c.values.dom().contains(keys[keys.len() - 1]));
        assert(keys.drop_last()[i] == keys[i]);
        assert forall|j: int| i < j < keys.drop_last().len() implies !c.values.dom().contains(
            #[trigger] keys.drop_last()[j],
        ) by {
            assert(keys.drop_last()[j] == keys[j]);
        }
        law_later_alias_wins(c, keys.drop_last(), i);
    }
}

} // verus!

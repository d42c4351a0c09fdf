//! Registry settings from the environment: `npm_config_*` variables and proxy variables.

use crate::text;
use crate::text_map::TextMap;
use vstd::prelude::*;

verus! {

/// The `.npmrc` key for the lower-cased suffix of an `npm_config_*` variable.
pub open spec fn npmrc_key_for(suffix: Seq<char>) -> Option<Seq<char>> {
    if suffix == "registry"@ {
        Some("registry"@)
    } else if suffix == "https_proxy"@ {
        Some("https-proxy"@)
    } else if suffix == "http_proxy"@ {
        Some("http-proxy"@)
    } else if suffix == "proxy"@ {
        Some("proxy"@)
    } else if suffix == "noproxy"@ {
        Some("noproxy"@)
    } else if suffix == "strict_ssl"@ {
        Some("strict-ssl"@)
    } else if suffix == "local_address"@ {
        Some("local-address"@)
    } else if suffix == "maxsockets"@ {
        Some("maxsockets"@)
    } else {
        None
    }
}

/// What follows `npm_config_` or `NPM_CONFIG_` in the name of a variable.
pub open spec fn config_suffix(name: Seq<char>) -> Option<Seq<char>> {
    match text::after_prefix(name, "npm_config_"@) {
        Some(s) => Some(s),
        None => text::after_prefix(name, "NPM_CONFIG_"@),
    }
}

/// The scope that a suffix of the form `@scope:registry` names, lower-cased; the word
/// `registry` in any case.
pub open spec fn scoped_registry_key(suffix: Seq<char>) -> Option<Seq<char>> {
    match text::after_prefix(suffix, "@"@) {
        Some(rest) => match text::split_at_first(rest, ':') {
            Some((scope, tail)) => if text::ascii_lowered(tail) == "registry"@ {
                Some("@"@ + text::ascii_lowered(scope) + ":registry"@)
            } else {
                None
            },
            None => None,
        },
        None => None,
    }
}

/// The `.npmrc` key that an environment variable stands for, if it configures the registry
/// client.
pub open spec fn translated_key(name: Seq<char>) -> Option<Seq<char>> {
    match config_suffix(name) {
        None => None,
        Some(suffix) => if text::begins_with(suffix, "//"@) {
            Some(suffix)
        } else if scoped_registry_key(suffix) is Some {
            scoped_registry_key(suffix)
        } else {
            npmrc_key_for(text::ascii_lowered(suffix))
        },
    }
}

/// The `.npmrc` key for the lower-cased suffix of an `npm_config_*` variable.
fn canonical_key(suffix: &str) -> (r: Option<String>)
    ensures
        text::view_opt(r) == npmrc_key_for(suffix@),
{
    if text::same_text(suffix, "registry") {
        Some("registry".to_owned())
    } else if text::same_text(suffix, "https_proxy") {
        Some("https-proxy".to_owned())
    } else if text::same_text(suffix, "http_proxy") {
        Some("http-proxy".to_owned())
    } else if text::same_text(suffix, "proxy") {
        Some("proxy".to_owned())
    } else if text::same_text(suffix, "noproxy") {
        Some("noproxy".to_owned())
    } else if text::same_text(suffix, "strict_ssl") {
        Some("strict-ssl".to_owned())
    } else if text::same_text(suffix, "local_address") {
        Some("local-address".to_owned())
    } else if text::same_text(suffix, "maxsockets") {
        Some("maxsockets".to_owned())
    } else {
        None
    }
}

fn scoped_key(suffix: &str) -> (r: Option<String>)
    ensures
        text::view_opt(r) == scoped_registry_key(suffix@),
{
    match text::strip_prefix(suffix, "@") {
        Some(rest) => match text::split_once(rest.as_str(), ':') {
            Some((scope, tail)) => {
                let tail = text::to_ascii_lowercase(tail.as_str());
                if text::same_text(tail.as_str(), "registry") {
                    let scope = text::to_ascii_lowercase(scope.as_str());
                    let head = text::cat("@", scope.as_str());
                    Some(text::cat(head.as_str(), ":registry"))
                } else {
                    None
                }
            },
            None => None,
        },
        None => None,
    }
}

/// Maps one environment variable to the `.npmrc` entry that it stands for, or to nothing if
/// it does not configure the registry client. Keys that begin with `//` keep their spelling.
pub fn translate_npm_config_env(name: &str, value: &str) -> (r: Option<(String, String)>)
    ensures
        match r {
            Some((k, v)) => translated_key(name@) == Some(k@) && v@ == value@,
            None => translated_key(name@) is None,
        },
{
    let suffix = match text::strip_prefix(name, "npm_config_") {
        Some(s) => s,
        None => match text::strip_prefix(name, "NPM_CONFIG_") {
            Some(s) => s,
            None => {
                return None;
            },
        },
    };
    if text::starts_with(suffix.as_str(), "//") {
        return Some((suffix, value.to_owned()));
    }
    if let Some(key) = scoped_key(suffix.as_str()) {
        return Some((key, value.to_owned()));
    }
    let lower = text::to_ascii_lowercase(suffix.as_str());
    match canonical_key(lower.as_str()) {
        Some(key) => Some((key, value.to_owned())),
        None => None,
    }
}

/// The `.npmrc` entries that a list of environment variables stands for, in order.
pub open spec fn translated(env: Seq<(Seq<char>, Seq<char>)>) -> Seq<(Seq<char>, Seq<char>)>
    decreases env.len(),
{
    if env.len() == 0 {
        Seq::empty()
    } else {
        let before = translated(env.drop_last());
        match translated_key(env.last().0) {
            Some(key) => before.push((key, env.last().1)),
            None => before,
        }
    }
}

/// The `.npmrc` entries that the `npm_config_*` variables among `env` stand for.
pub fn npm_config_env_entries_from(env: &[(String, String)]) -> (entries: Vec<(String, String)>)
    ensures
        text::view_pairs(entries@) == translated(text::view_pairs(env@)),
{
    let ghost all = text::view_pairs(env@);
    let mut entries: Vec<(String, String)> = Vec::new();
    let mut i: usize = 0;
    while i < env.len()
        invariant
            i <= env@.len(),
            all == text::view_pairs(env@),
            text::view_pairs(entries@) == translated(all.take(i as int)),
        decreases env.len() - i,
    {
        let ghost before = entries@;
        proof {
            assert(all.take(i + 1).drop_last() == all.take(i as int));
            assert(all.take(i + 1).last() == (env@[i as int].0@, env@[i as int].1@));
        }
        if let Some(entry) = translate_npm_config_env(env[i].0.as_str(), env[i].1.as_str()) {
            entries.push(entry);
            assert(text::view_pairs(entries@) == text::view_pairs(before).push(
                (entry.0@, entry.1@),
            ));
        }
        i = i + 1;
    }
    assert(all.take(i as int) == all);
    entries
}

/// The trimmed value of the first of `names` from `i` on that is set to more than white
/// space.
pub open spec fn first_set(
    names: Seq<Seq<char>>,
    i: int,
    env: Map<Seq<char>, String>,
) -> Option<Seq<char>>
    decreases names.len() - i,
{
    if i < 0 || i >= names.len() {
        None
    } else if env.contains_key(names[i]) && text::trimmed(env[names[i]]@).len() > 0 {
        Some(text::trimmed(env[names[i]]@))
    } else {
        first_set(names, i + 1, env)
    }
}

/// The names of a list of variables.
pub open spec fn names_of(names: Seq<&str>) -> Seq<Seq<char>> {
    Seq::new(names.len(), |i: int| names[i]@)
}

/// The value of the first variable of `names` that is set and not blank, without the white
/// space around it.
pub fn env_any(names: &[&str], env: &TextMap<String>) -> (r: Option<String>)
    ensures
        text::view_opt(r) == first_set(names_of(names@), 0, env@),
{
    let mut i: usize = 0;
    while i < names.len()
        invariant
            i <= names@.len(),
            first_set(names_of(names@), i as int, env@) == first_set(names_of(names@), 0, env@),
        decreases names.len() - i,
    {
        if let Some(v) = env.get(names[i]) {
            let t = text::trim(v.as_str());
            if text::to_chars(t.as_str()).len() > 0 {
                return Some(t);
            }
        }
        i = i + 1;
    }
    None
}

/// The part of a variable's name after `npm_config_` or `NPM_CONFIG_`, in any case, tells which
/// key it stands for. Keys for one registry stay as they are, those for one scope have the
/// scope in lower case, and a variable that is none of these stands for nothing, whatever its
/// name begins with.
pub proof fn variables_stand_for_their_keys(
    prefix: Seq<char>,
    suffix: Seq<char>,
    scope: Seq<char>,
    word: Seq<char>,
    other: Seq<char>,
)
    requires
        prefix == "npm_config_"@ || prefix == "NPM_CONFIG_"@,
        !scope.contains(':'),
        text::ascii_lowered(word) == "registry"@,
        !text::begins_with(other, "npm_config_"@),
        !text::begins_with(other, "NPM_CONFIG_"@),
    ensures
        text::ascii_lowered(suffix) == "registry"@ ==> translated_key(prefix + suffix) == Some("registry"@),
        text::ascii_lowered(suffix) == "https_proxy"@ ==> translated_key(prefix + suffix) == Some("https-proxy"@),
        text::ascii_lowered(suffix) == "http_proxy"@ ==> translated_key(prefix + suffix) == Some("http-proxy"@),
        text::ascii_lowered(suffix) == "proxy"@ ==> translated_key(prefix + suffix) == Some("proxy"@),
        text::ascii_lowered(suffix) == "noproxy"@ ==> translated_key(prefix + suffix) == Some("noproxy"@),
        text::ascii_lowered(suffix) == "strict_ssl"@ ==> translated_key(prefix + suffix) == Some("strict-ssl"@),
        text::ascii_lowered(suffix) == "local_address"@ ==> translated_key(prefix + suffix) == Some("local-address"@),
        text::ascii_lowered(suffix) == "maxsockets"@ ==> translated_key(prefix + suffix) == Some("maxsockets"@),
        text::begins_with(suffix, "//"@) ==> translated_key(prefix + suffix) == Some(suffix),
        translated_key(prefix + (seq!['@'] + scope + seq![':'] + word)) == Some(
            seq!['@'] + text::ascii_lowered(scope) + ":registry"@,
        ),
        suffix.len() == 0 || suffix[0] != '/' && suffix[0] != '@' && text::ascii_lowered(suffix)
            != "registry"@ && text::ascii_lowered(suffix) != "https_proxy"@
            && text::ascii_lowered(suffix) != "http_proxy"@ && text::ascii_lowered(suffix)
            != "proxy"@ && text::ascii_lowered(suffix) != "noproxy"@ && text::ascii_lowered(suffix)
            != "strict_ssl"@ && text::ascii_lowered(suffix) != "local_address"@
            && text::ascii_lowered(suffix) != "maxsockets"@ ==> translated_key(prefix + suffix)
            is None,
        translated_key(other) is None,
{
    reveal_strlit("npm_config_");
    reveal_strlit("NPM_CONFIG_");
    reveal_strlit("//");
    reveal_strlit("@");
    reveal_strlit("registry");
    reveal_strlit("https_proxy");
    reveal_strlit("http_proxy");
    reveal_strlit("proxy");
    reveal_strlit("noproxy");
    reveal_strlit("strict_ssl");
    reveal_strlit("local_address");
    reveal_strlit("maxsockets");
    lemma_config_suffix(prefix, suffix);
    let scoped = seq!['@'] + scope + seq![':'] + word;
    lemma_config_suffix(prefix, scoped);
    let lowered = text::ascii_lowered(suffix);
    assert("registry"@[0] == 'r' && "https_proxy"@[0] == 'h' && "http_proxy"@[0] == 'h'
        && "proxy"@[0] == 'p' && "noproxy"@[0] == 'n' && "strict_ssl"@[0] == 's'
        && "local_address"@[0] == 'l' && "maxsockets"@[0] == 'm');
    assert("registry"@.len() == 8 && "https_proxy"@.len() == 11 && "http_proxy"@.len() == 10
        && "proxy"@.len() == 5 && "noproxy"@.len() == 7 && "strict_ssl"@.len() == 10
        && "local_address"@.len() == 13 && "maxsockets"@.len() == 10);
    assert("@"@.len() == 1 && "//"@.len() == 2);
    if suffix.len() > 0 {
        assert(lowered[0] == text::ascii_lower(suffix[0]));
        assert(suffix.take(1)[0] == suffix[0]);
        if suffix.len() > 1 {
            assert(suffix.take(2)[0] == suffix[0]);
        }
    }
    assert("@"@[0] == '@' && "//"@[0] == '/');
    assert(scoped[0] == '@');
    assert(scoped.take(1) == "@"@);
    assert(!text::begins_with(scoped, "//"@)) by {
        if text::begins_with(scoped, "//"@) {
            assert(scoped.take(2)[0] == '@');
        }
    }
    let rest = scoped.skip(1);
    assert forall|j: int| 0 <= j < scope.len() implies #[trigger] rest[j] != ':' by {
        assert(scope.contains(scope[j]));
    }
    text::lemma_find_at(rest, ':', 0, scope.len() as int);
    assert(rest.take(scope.len() as int) == scope);
    assert(rest.skip(scope.len() as int + 1) == word);
    assert("@"@ == seq!['@']);
}

proof fn lemma_config_suffix(prefix: Seq<char>, suffix: Seq<char>)
    requires
        prefix == "npm_config_"@ || prefix == "NPM_CONFIG_"@,
    ensures
        config_suffix(prefix + suffix) == Some(suffix),
{
    reveal_strlit("npm_config_");
    reveal_strlit("NPM_CONFIG_");
    let s = prefix + suffix;
    assert(s.take(11) == prefix && s.skip(11) == suffix);
    assert("npm_config_"@[0] == 'n' && "NPM_CONFIG_"@[0] == 'N');
}

/// Every variable that stands for a key gives one entry with the variable's value, in the
/// order of the variables; the others give none.
pub proof fn variables_are_taken_in_order(
    env: Seq<(Seq<char>, Seq<char>)>,
    more: Seq<(Seq<char>, Seq<char>)>,
    name: Seq<char>,
    value: Seq<char>,
)
    ensures
        translated(env + more) == translated(env) + translated(more),
        translated(seq![(name, value)]) == (match translated_key(name) {
            Some(key) => seq![(key, value)],
            None => Seq::<(Seq<char>, Seq<char>)>::empty(),
        }),
    decreases more.len(),
{
    let one = seq![(name, value)];
    let none = Seq::<(Seq<char>, Seq<char>)>::empty();
    assert(one.drop_last() == none);
    assert(translated(one.drop_last()) == none);
    if more.len() == 0 {
        assert(env + more == env);
        assert(translated(env) + translated(more) == translated(env));
    } else {
        variables_are_taken_in_order(env, more.drop_last(), name, value);
        assert((env + more).drop_last() == env + more.drop_last());
        assert(translated(env + more) == translated(env) + translated(more));
    }
}

/// Of several variables the first one counts that holds more than white space, without the
/// white space around it.
pub proof fn the_first_variable_set_counts(
    names: Seq<Seq<char>>,
    k: int,
    env: Map<Seq<char>, String>,
)
    requires
        0 <= k <= names.len(),
        forall|i: int|
            0 <= i < k && env.contains_key(#[trigger] names[i]) ==> text::trimmed(
                env[names[i]]@,
            ).len() == 0,
    ensures
        k < names.len() && env.contains_key(names[k]) && text::trimmed(env[names[k]]@).len() > 0
            ==> first_set(names, 0, env) == Some(text::trimmed(env[names[k]]@)),
        k == names.len() ==> first_set(names, 0, env) is None,
{
    lemma_first_set(names, 0, k, env);
}

proof fn lemma_first_set(names: Seq<Seq<char>>, i: int, k: int, env: Map<Seq<char>, String>)
    requires
        0 <= i <= k <= names.len(),
        forall|j: int|
            i <= j < k && env.contains_key(#[trigger] names[j]) ==> text::trimmed(
                env[names[j]]@,
            ).len() == 0,
    ensures
        k < names.len() && env.contains_key(names[k]) && text::trimmed(env[names[k]]@).len() > 0
            ==> first_set(names, i, env) == Some(text::trimmed(env[names[k]]@)),
        k == names.len() ==> first_set(names, i, env) is None,
    decreases k - i,
{
    if i < k {
        assert(env.contains_key(names[i]) ==> text::trimmed(env[names[i]]@).len() == 0);
        lemma_first_set(names, i + 1, k, env);
    }
}

/// A variable whose name has an `@` or a slash where the key starts stands for nothing unless
/// the key is that of a scope's registry or of one registry.
pub proof fn other_scoped_variables_stand_for_nothing(
    prefix: Seq<char>,
    suffix: Seq<char>,
    scope: Seq<char>,
    word: Seq<char>,
)
    requires
        prefix == "npm_config_"@ || prefix == "NPM_CONFIG_"@,
        !scope.contains(':'),
        text::ascii_lowered(word) != "registry"@,
        suffix.len() > 0,
        suffix[0] == '@' && !suffix.contains(':') || suffix[0] == '/' && (suffix.len() == 1
            || suffix[1] != '/'),
    ensures
        translated_key(prefix + (seq!['@'] + scope + seq![':'] + word)) is None,
        translated_key(prefix + suffix) is None,
{
    reveal_strlit("//");
    reveal_strlit("@");
    lemma_config_suffix(prefix, suffix);
    let scoped = seq!['@'] + scope + seq![':'] + word;
    lemma_config_suffix(prefix, scoped);
    assert(scoped[0] == '@');
    assert(scoped.take(1) == "@"@);
    assert(!text::begins_with(scoped, "//"@)) by {
        if text::begins_with(scoped, "//"@) {
            assert(scoped.take(2)[0] == '@');
        }
    }
    let rest = scoped.skip(1);
    assert forall|j: int| 0 <= j < scope.len() implies #[trigger] rest[j] != ':' by {
        assert(scope.contains(scope[j]));
    }
    text::lemma_find_at(rest, ':', 0, scope.len() as int);
    assert(rest.skip(scope.len() as int + 1) == word);
    lemma_no_plain_key(scoped);
    lemma_no_plain_key(suffix);
    assert(!text::begins_with(suffix, "//"@)) by {
        if text::begins_with(suffix, "//"@) {
            assert(suffix.take(2)[0] == suffix[0] && suffix.take(2)[1] == suffix[1]);
        }
    }
    if text::begins_with(suffix, "@"@) {
        assert(suffix.take(1)[0] == suffix[0]);
        let r = suffix.skip(1);
        text::lemma_find_stops(r, ':', 0);
        let f = text::find_from(r, ':', 0);
        if f < r.len() {
            assert(suffix.contains(suffix[f + 1]));
        }
    }
}

proof fn lemma_no_plain_key(suffix: Seq<char>)
    requires
        suffix.len() > 0,
        suffix[0] == '@' || suffix[0] == '/',
    ensures
        npmrc_key_for(text::ascii_lowered(suffix)) is None,
{
    reveal_strlit("registry");
    reveal_strlit("https_proxy");
    reveal_strlit("http_proxy");
    reveal_strlit("proxy");
    reveal_strlit("noproxy");
    reveal_strlit("strict_ssl");
    reveal_strlit("local_address");
    reveal_strlit("maxsockets");
    assert("registry"@[0] == 'r' && "https_proxy"@[0] == 'h' && "http_proxy"@[0] == 'h'
        && "proxy"@[0] == 'p' && "noproxy"@[0] == 'n' && "strict_ssl"@[0] == 's'
        && "local_address"@[0] == 'l' && "maxsockets"@[0] == 'm');
    assert(text::ascii_lowered(suffix)[0] == suffix[0]);
}

} // verus!

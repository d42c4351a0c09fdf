//! Registry URLs, and the `//host/path/` keys under which `.npmrc` files keep settings for
//! them.

use crate::text;
use crate::text_map::TextMap;
use vstd::prelude::*;

verus! {

/// Where the authority of a `//host/path` text ends.
pub open spec fn authority_end(uri: Seq<char>) -> int {
    text::find_from(uri, '/', 2)
}

/// A `//host:port/path` text without `port` (written with its colon), if that is its port.
pub open spec fn without_port(uri: Seq<char>, port: Seq<char>) -> Seq<char> {
    if !text::begins_with(uri, "//"@) {
        uri
    } else {
        match text::before_suffix(uri.subrange(2, authority_end(uri)), port) {
            Some(host) => "//"@ + host + uri.skip(authority_end(uri)),
            None => uri,
        }
    }
}

/// The key of a registry URL: without its scheme and the scheme's default port.
pub open spec fn uri_key(url: Seq<char>) -> Seq<char> {
    match text::after_prefix(url, "https:"@) {
        Some(rest) => without_port(rest, ":443"@),
        None => match text::after_prefix(url, "http:"@) {
            Some(rest) => without_port(rest, ":80"@),
            None => url,
        },
    }
}

/// The key under which settings for the `.npmrc` key `uri` are kept: without the default
/// port of either scheme.
pub open spec fn npmrc_key(uri: Seq<char>) -> Seq<char> {
    if without_port(uri, ":443"@) != uri {
        without_port(uri, ":443"@)
    } else {
        without_port(uri, ":80"@)
    }
}

/// The host of a registry URL, lower-cased, with its port where that is not the default.
pub open spec fn host_of(url: Seq<char>) -> Seq<char> {
    let key = uri_key(url);
    if text::begins_with(key, "//"@) {
        text::ascii_lowered(key.subrange(2, authority_end(key)))
    } else {
        Seq::empty()
    }
}

/// Whether a registry URL is one of the public npm registry.
pub open spec fn is_public(url: Seq<char>) -> bool {
    host_of(url) == "registry.npmjs.org"@
}

/// A registry URL that ends in a slash.
pub open spec fn with_slash(url: Seq<char>) -> Seq<char> {
    if text::finishes_with(url, "/"@) {
        url
    } else {
        url + "/"@
    }
}

/// The scope of a package name, with its `@`.
pub open spec fn scope_of(name: Seq<char>) -> Option<Seq<char>> {
    if text::begins_with(name, "@"@) {
        match text::split_at_first(name, '/') {
            Some((scope, _)) => Some(scope),
            None => None,
        }
    } else {
        None
    }
}

/// Whether settings under `key` apply to `uri`: slashes at the end aside, it is `uri` itself
/// or a directory above it.
pub open spec fn covers(key: Seq<char>, uri: Seq<char>) -> bool {
    let k = text::trimmed_end(key, '/');
    let u = text::trimmed_end(uri, '/');
    k == u || text::begins_with(u, k + "/"@)
}

/// Whether `a` names no more than `b` does: the longer path is the closer one, and of two
/// spellings of one path the longer spelling counts.
pub open spec fn no_closer(a: Seq<char>, b: Seq<char>) -> bool {
    let x = text::trimmed_end(a, '/').len();
    let y = text::trimmed_end(b, '/').len();
    x < y || x == y && a.len() <= b.len()
}

/// Whether `key` is the closest of `keys` that apply to `uri`.
pub open spec fn is_closest(keys: Set<Seq<char>>, uri: Seq<char>, key: Seq<char>) -> bool {
    &&& keys.contains(key)
    &&& covers(key, uri)
    &&& forall|k: Seq<char>| #[trigger] keys.contains(k) && covers(k, uri) ==> no_closer(k, key)
}

/// What a map holds for `uri`: the value under `uri` itself, else under the closest key that
/// applies.
pub open spec fn looked_up<V>(m: Map<Seq<char>, V>, uri: Seq<char>) -> Option<V> {
    if m.contains_key(uri) {
        Some(m[uri])
    } else if exists|k: Seq<char>| is_closest(m.dom(), uri, k) {
        Some(m[choose|k: Seq<char>| is_closest(m.dom(), uri, k)])
    } else {
        None
    }
}

proof fn lemma_trimmed_end(s: Seq<char>, c: char)
    ensures
        text::begins_with(s, text::trimmed_end(s, c)),
        forall|i: int| text::trimmed_end(s, c).len() <= i < s.len() ==> #[trigger] s[i] == c,
    decreases s.len(),
{
    if s.len() > 0 && s.last() == c {
        let front = s.drop_last();
        lemma_trimmed_end(front, c);
        let t = text::trimmed_end(s, c);
        assert(s.take(t.len() as int) == front.take(t.len() as int));
        assert forall|i: int| t.len() <= i < s.len() implies #[trigger] s[i] == c by {
            if i < front.len() {
                assert(front[i] == c);
            }
        }
    } else {
        assert(s.take(s.len() as int) == s);
    }
}

/// At most one key is the closest.
pub proof fn closest_key_is_unique(
    keys: Set<Seq<char>>,
    uri: Seq<char>,
    a: Seq<char>,
    b: Seq<char>,
)
    requires
        is_closest(keys, uri, a),
        is_closest(keys, uri, b),
    ensures
        a == b,
{
    let x = text::trimmed_end(a, '/');
    let y = text::trimmed_end(b, '/');
    let u = text::trimmed_end(uri, '/');
    assert(no_closer(a, b) && no_closer(b, a));
    assert(x.len() == y.len() && a.len() == b.len());
    lemma_trimmed_end(a, '/');
    lemma_trimmed_end(b, '/');
    assert(u.take(x.len() as int) == x) by {
        if x == u {
            assert(u.take(u.len() as int) == u);
        } else {
            assert(u.take(x.len() as int) == u.take((x + "/"@).len() as int).take(x.len() as int));
            assert((x + "/"@).take(x.len() as int) == x);
        }
    }
    assert(u.take(y.len() as int) == y) by {
        if y == u {
            assert(u.take(u.len() as int) == u);
        } else {
            assert(u.take(y.len() as int) == u.take((y + "/"@).len() as int).take(y.len() as int));
            assert((y + "/"@).take(y.len() as int) == y);
        }
    }
    assert(x == y);
    assert forall|i: int| 0 <= i < a.len() implies a[i] == b[i] by {
        if i < x.len() {
            assert(a[i] == a.take(x.len() as int)[i]);
            assert(b[i] == b.take(x.len() as int)[i]);
        }
    }
    assert(a == b);
}

fn drop_port(uri: &str, port: &str) -> (r: String)
    ensures
        r@ == without_port(uri@, port@),
{
    if !text::starts_with(uri, "//") {
        return uri.to_owned();
    }
    proof {
        reveal_strlit("//");
        text::lemma_find_bounds(uri@, '/', 2);
    }
    let x = text::to_chars(uri);
    let mut i: usize = 2;
    while i < x.len() && x[i] != '/'
        invariant
            x@ == uri@,
            2 <= i <= x@.len(),
            text::find_from(uri@, '/', i as int) == text::find_from(uri@, '/', 2),
        decreases x.len() - i,
    {
        i = i + 1;
    }
    let authority = text::from_chars(&x, 2, i);
    match text::strip_suffix(authority.as_str(), port) {
        Some(host) => {
            let path = text::from_chars(&x, i, x.len());
            text::cat(text::cat("//", host.as_str()).as_str(), path.as_str())
        },
        None => uri.to_owned(),
    }
}

/// The key of a registry URL: `https://host:443/x/` and `https://host/x/` have the key
/// `//host/x/`.
pub fn registry_uri_key(registry_url: &str) -> (r: String)
    ensures
        r@ == uri_key(registry_url@),
{
    match text::strip_prefix(registry_url, "https:") {
        Some(rest) => drop_port(rest.as_str(), ":443"),
        None => match text::strip_prefix(registry_url, "http:") {
            Some(rest) => drop_port(rest.as_str(), ":80"),
            None => registry_url.to_owned(),
        },
    }
}

/// The key under which settings for a `//host/path/` entry of a `.npmrc` file are kept.
pub fn normalize_npmrc_uri_key(uri: &str) -> (r: String)
    ensures
        r@ == npmrc_key(uri@),
{
    let r = drop_port(uri, ":443");
    if !text::same_text(r.as_str(), uri) {
        r
    } else {
        drop_port(uri, ":80")
    }
}

/// A registry URL that ends in a slash.
pub fn normalize_registry_url(url: &str) -> (r: String)
    ensures
        r@ == with_slash(url@),
{
    if text::ends_with(url, "/") {
        url.to_owned()
    } else {
        text::cat(url, "/")
    }
}

/// The scope of a package name, with its `@`.
pub fn package_scope(name: &str) -> (r: Option<String>)
    ensures
        text::view_opt(r) == scope_of(name@),
{
    if text::starts_with(name, "@") {
        match text::split_once(name, '/') {
            Some((scope, _)) => Some(scope),
            None => None,
        }
    } else {
        None
    }
}

/// Whether a registry URL is one of the public npm registry.
pub fn is_public_npmjs_url(url: &str) -> (r: bool)
    ensures
        r == is_public(url@),
{
    let key = registry_uri_key(url);
    proof {
        reveal_strlit("//");
        reveal_strlit("registry.npmjs.org");
        assert("registry.npmjs.org"@.len() != 0);
    }
    if !text::starts_with(key.as_str(), "//") {
        return false;
    }
    let x = text::to_chars(key.as_str());
    let mut i: usize = 2;
    while i < x.len() && x[i] != '/'
        invariant
            x@ == key@,
            2 <= i <= x@.len(),
            text::find_from(key@, '/', i as int) == text::find_from(key@, '/', 2),
        decreases x.len() - i,
    {
        i = i + 1;
    }
    let host = text::to_ascii_lowercase(text::from_chars(&x, 2, i).as_str());
    text::same_text(host.as_str(), "registry.npmjs.org")
}

fn key_covers(key: &str, uri: &str) -> (r: bool)
    ensures
        r == covers(key@, uri@),
{
    let k = text::trim_end_matches(key, '/');
    let u = text::trim_end_matches(uri, '/');
    text::same_text(k.as_str(), u.as_str()) || text::starts_with(
        u.as_str(),
        text::cat(k.as_str(), "/").as_str(),
    )
}

fn key_no_closer(a: &str, b: &str) -> (r: bool)
    ensures
        r == no_closer(a@, b@),
{
    let x = text::to_chars(text::trim_end_matches(a, '/').as_str()).len();
    let y = text::to_chars(text::trim_end_matches(b, '/').as_str()).len();
    x < y || x == y && text::to_chars(a).len() <= text::to_chars(b).len()
}

/// The value under `uri`, else under the closest key of `map` that applies to it.
pub fn lookup_by_uri_prefix<'a, V>(map: &'a TextMap<V>, uri: &str) -> (r: Option<&'a V>)
    ensures
        match r {
            Some(v) => looked_up(map@, uri@) == Some(*v),
            None => looked_up(map@, uri@) is None,
        },
        r is None <==> forall|k: Seq<char>| #[trigger]
            map@.contains_key(k) ==> !covers(k, uri@),
{
    if let Some(v) = map.get(uri) {
        assert(map@.contains_key(uri@) && covers(uri@, uri@));
        return Some(v);
    }
    let n = map.len();
    let mut best: Option<usize> = None;
    let mut i: usize = 0;
    while i < n
        invariant
            n == map.pairs().len(),
            i <= n,
            match best {
                Some(b) => {
                    &&& b < i
                    &&& covers(map.pairs()[b as int].0, uri@)
                    &&& forall|j: int|
                        0 <= j < i && covers(#[trigger] map.pairs()[j].0, uri@) ==> no_closer(
                            map.pairs()[j].0,
                            map.pairs()[b as int].0,
                        )
                },
                None => forall|j: int| 0 <= j < i ==> !covers(#[trigger] map.pairs()[j].0, uri@),
            },
        decreases n - i,
    {
        let key = map.key_at(i);
        if key_covers(key.as_str(), uri) {
            match best {
                Some(b) => {
                    if !key_no_closer(key.as_str(), map.key_at(b).as_str()) {
                        best = Some(i);
                    }
                },
                None => {
                    best = Some(i);
                },
            }
        }
        i = i + 1;
    }
    match best {
        Some(b) => {
            let v = map.value_at(b);
            proof {
                let key = map.pairs()[b as int].0;
                crate::text_map::lemma_map_of_value(map.pairs(), b as int);
                assert forall|k: Seq<char>| #[trigger]
                    map@.dom().contains(k) && covers(k, uri@) implies no_closer(k, key) by {
                    crate::text_map::lemma_map_of_dom(map.pairs(), k);
                    let j = choose|j: int|
                        0 <= j < map.pairs().len() && #[trigger] map.pairs()[j].0 == k;
                    assert(covers(map.pairs()[j].0, uri@));
                }
                assert(map@.contains_key(key));
                assert(is_closest(map@.dom(), uri@, key));
                let chosen = choose|k: Seq<char>| is_closest(map@.dom(), uri@, k);
                closest_key_is_unique(map@.dom(), uri@, chosen, key);
            }
            Some(v)
        },
        None => {
            proof {
                assert forall|k: Seq<char>| #[trigger] map@.contains_key(k) implies !covers(
                    k,
                    uri@,
                ) by {
                    crate::text_map::lemma_map_of_dom(map.pairs(), k);
                    let j = choose|j: int|
                        0 <= j < map.pairs().len() && #[trigger] map.pairs()[j].0 == k;
                    assert(!covers(map.pairs()[j].0, uri@));
                }
                if exists|k: Seq<char>| is_closest(map@.dom(), uri@, k) {
                    let k = choose|k: Seq<char>| is_closest(map@.dom(), uri@, k);
                    assert(map@.contains_key(k));
                }
            }
            None
        },
    }
}

proof fn lemma_authority(host: Seq<char>, path: Seq<char>)
    requires
        !host.contains('/'),
        path.len() == 0 || path[0] == '/',
    ensures
        ({
            let uri = "//"@ + host + path;
            &&& text::begins_with(uri, "//"@)
            &&& authority_end(uri) == 2 + host.len()
            &&& uri.subrange(2, authority_end(uri)) == host
            &&& uri.skip(authority_end(uri)) == path
        }),
{
    reveal_strlit("//");
    let uri = "//"@ + host + path;
    assert(uri.take(2) == "//"@);
    assert forall|j: int| 2 <= j < 2 + host.len() implies #[trigger] uri[j] != '/' by {
        assert(host.contains(host[j - 2]));
    }
    text::lemma_find_at(uri, '/', 2, 2 + host.len() as int);
    assert(uri.subrange(2, 2 + host.len() as int) == host);
    assert(uri.skip(2 + host.len() as int) == path);
}

/// Taking a port off an authority that has it, and off one that does not.
proof fn lemma_without_port(host: Seq<char>, port: Seq<char>, path: Seq<char>)
    requires
        !host.contains('/'),
        !port.contains('/'),
        path.len() == 0 || path[0] == '/',
    ensures
        without_port("//"@ + (host + port) + path, port) == "//"@ + host + path,
        !text::finishes_with(host, port) ==> without_port("//"@ + host + path, port) == "//"@ + host
            + path,
{
    let full = host + port;
    assert(!full.contains('/')) by {
        if full.contains('/') {
            let i = full.index_of('/');
            if i < host.len() {
                assert(host.contains(host[i]));
            } else {
                assert(port.contains(port[i - host.len()]));
            }
        }
    }
    lemma_authority(full, path);
    lemma_authority(host, path);
    assert(full.skip(full.len() - port.len()) == port);
    assert(full.take(full.len() - port.len()) == host);
}

/// Settings for `//host:443/path` and the registries `https://host:443/path` and
/// `https://host/path` have one key.
pub proof fn https_port_does_not_change_the_key(host: Seq<char>, path: Seq<char>)
    requires
        !host.contains('/'),
        !text::finishes_with(host, ":443"@),
        path.len() == 0 || path[0] == '/',
    ensures
        npmrc_key("//"@ + (host + ":443"@) + path) == "//"@ + host + path,
        uri_key("https:"@ + ("//"@ + (host + ":443"@) + path)) == "//"@ + host + path,
        uri_key("https:"@ + ("//"@ + host + path)) == "//"@ + host + path,
{
    reveal_strlit(":443");
    reveal_strlit("https:");
    lemma_without_port(host, ":443"@, path);
    let a = "//"@ + (host + ":443"@) + path;
    let b = "//"@ + host + path;
    assert(a.len() == b.len() + 4);
    assert(("https:"@ + a).take(6) == "https:"@ && ("https:"@ + a).skip(6) == a);
    assert(("https:"@ + b).take(6) == "https:"@ && ("https:"@ + b).skip(6) == b);
}

/// Settings for `//host:80/path` and the registries `http://host:80/path` and
/// `http://host/path` have one key.
pub proof fn http_port_does_not_change_the_key(host: Seq<char>, path: Seq<char>)
    requires
        !host.contains('/'),
        !text::finishes_with(host, ":80"@),
        path.len() == 0 || path[0] == '/',
    ensures
        npmrc_key("//"@ + (host + ":80"@) + path) == "//"@ + host + path,
        uri_key("http:"@ + ("//"@ + (host + ":80"@) + path)) == "//"@ + host + path,
        uri_key("http:"@ + ("//"@ + host + path)) == "//"@ + host + path,
{
    reveal_strlit(":80");
    reveal_strlit(":443");
    reveal_strlit("http:");
    reveal_strlit("https:");
    lemma_without_port(host, ":80"@, path);
    let full = host + ":80"@;
    assert(!text::finishes_with(full, ":443"@)) by {
        if text::finishes_with(full, ":443"@) {
            assert(full.skip(full.len() - 4)[3] == '3');
            assert(full[full.len() - 1] == '0');
        }
    }
    assert(!full.contains('/')) by {
        if full.contains('/') {
            let i = full.index_of('/');
            if i < host.len() {
                assert(host.contains(host[i]));
            }
        }
    }
    lemma_without_port(full, ":443"@, path);
    let a = "//"@ + full + path;
    let b = "//"@ + host + path;
    assert(("http:"@ + a).take(5) == "http:"@ && ("http:"@ + a).skip(5) == a);
    assert(("http:"@ + b).take(5) == "http:"@ && ("http:"@ + b).skip(5) == b);
    assert(("http:"@ + a)[4] == ':' && ("http:"@ + b)[4] == ':');
    assert("https:"@[4] == 's');
    assert(!text::begins_with("http:"@ + a, "https:"@)) by {
        if text::begins_with("http:"@ + a, "https:"@) {
            assert(("http:"@ + a).take(6)[4] == ':');
        }
    }
    assert(!text::begins_with("http:"@ + b, "https:"@)) by {
        if text::begins_with("http:"@ + b, "https:"@) {
            assert(("http:"@ + b).take(6)[4] == ':');
        }
    }
}

/// A key without a default port stays as it is, and so does what is no `//host` key; an URL
/// of another scheme is its own key.
pub proof fn other_keys_stay(host: Seq<char>, path: Seq<char>, other: Seq<char>)
    requires
        !host.contains('/'),
        !text::finishes_with(host, ":443"@),
        !text::finishes_with(host, ":80"@),
        path.len() == 0 || path[0] == '/',
        other.len() < 2 || other[0] != '/' || other[1] != '/',
    ensures
        npmrc_key("//"@ + host + path) == "//"@ + host + path,
        npmrc_key(other) == other,
        !text::begins_with(other, "https:"@) && !text::begins_with(other, "http:"@) ==> uri_key(
            other,
        ) == other,
{
    reveal_strlit("//");
    reveal_strlit(":443");
    reveal_strlit(":80");
    lemma_without_port(host, ":443"@, path);
    lemma_without_port(host, ":80"@, path);
    assert(!text::begins_with(other, "//"@)) by {
        if text::begins_with(other, "//"@) {
            assert(other.take(2)[0] == other[0] && other.take(2)[1] == other[1]);
        }
    }
}

/// A registry URL ends in one slash more only where it did not end in one.
pub proof fn registries_end_in_a_slash(url: Seq<char>)
    ensures
        url.len() > 0 && url.last() == '/' ==> with_slash(url) == url,
        url.len() == 0 || url.last() != '/' ==> with_slash(url) == url.push('/'),
{
    reveal_strlit("/");
    if url.len() > 0 {
        assert(url.skip(url.len() - 1)[0] == url.last());
        if url.last() == '/' {
            assert(url.skip(url.len() - 1) == "/"@);
        }
    }
    assert(url + "/"@ == url.push('/'));
}

/// The scope of `@scope/name` is `@scope`; a name without an `@` at its start has none, nor
/// has one without a slash.
pub proof fn scopes_stand_before_the_slash(scope: Seq<char>, rest: Seq<char>, name: Seq<char>)
    requires
        !scope.contains('/'),
    ensures
        scope_of(seq!['@'] + scope + seq!['/'] + rest) == Some(seq!['@'] + scope),
        name.len() == 0 || name[0] != '@' ==> scope_of(name) is None,
        !name.contains('/') ==> scope_of(name) is None,
{
    reveal_strlit("@");
    let s = seq!['@'] + scope + seq!['/'] + rest;
    assert(s.take(1) == "@"@);
    let head = seq!['@'] + scope;
    assert(!head.contains('/')) by {
        if head.contains('/') {
            let i = head.index_of('/');
            if i > 0 {
                assert(scope.contains(scope[i - 1]));
            }
        }
    }
    assert forall|j: int| 0 <= j < head.len() implies #[trigger] s[j] != '/' by {
        assert(s[j] == head[j]);
        assert(head.contains(head[j]));
    }
    text::lemma_find_at(s, '/', 0, head.len() as int);
    assert(s.take(head.len() as int) == head);
    if name.len() > 0 && text::begins_with(name, "@"@) {
        assert(name.take(1)[0] == name[0]);
    }
    text::lemma_find_stops(name, '/', 0);
    let f = text::find_from(name, '/', 0);
    if f < name.len() {
        assert(name.contains(name[f]));
    }
}

proof fn lemma_host_of_key(url: Seq<char>, host: Seq<char>, path: Seq<char>)
    requires
        !host.contains('/'),
        path.len() == 0 || path[0] == '/',
        uri_key(url) == "//"@ + host + path,
    ensures
        host_of(url) == text::ascii_lowered(host),
{
    lemma_authority(host, path);
}

/// The public npm registry is told by its host, in whatever case it is written, at whatever
/// path, over HTTP and HTTPS and with or without the port that these imply; no other host is
/// the public registry.
pub proof fn the_public_registry_is_told_by_its_host(host: Seq<char>, path: Seq<char>)
    requires
        !host.contains('/'),
        !text::finishes_with(host, ":443"@),
        !text::finishes_with(host, ":80"@),
        path.len() == 0 || path[0] == '/',
    ensures
        is_public("https:"@ + ("//"@ + host + path)) <==> text::ascii_lowered(host)
            == "registry.npmjs.org"@,
        is_public("https:"@ + ("//"@ + (host + ":443"@) + path)) <==> text::ascii_lowered(host)
            == "registry.npmjs.org"@,
        is_public("http:"@ + ("//"@ + host + path)) <==> text::ascii_lowered(host)
            == "registry.npmjs.org"@,
        is_public("http:"@ + ("//"@ + (host + ":80"@) + path)) <==> text::ascii_lowered(host)
            == "registry.npmjs.org"@,
{
    https_port_does_not_change_the_key(host, path);
    http_port_does_not_change_the_key(host, path);
    lemma_host_of_key("https:"@ + ("//"@ + host + path), host, path);
    lemma_host_of_key("https:"@ + ("//"@ + (host + ":443"@) + path), host, path);
    lemma_host_of_key("http:"@ + ("//"@ + host + path), host, path);
    lemma_host_of_key("http:"@ + ("//"@ + (host + ":80"@) + path), host, path);
}

/// However many slashes end them, settings under `key` apply to `uri` if the two are one path
/// or the path of `uri` goes on with a slash after that of `key`; a name that only begins
/// alike is another place.
pub proof fn settings_apply_below_their_path(key: Seq<char>, uri: Seq<char>, m: nat, n: nat)
    requires
        key.len() > 0 ==> key.last() != '/',
        uri.len() > 0 ==> uri.last() != '/',
    ensures
        covers(key + Seq::new(m, |i: int| '/'), uri + Seq::new(n, |i: int| '/')) <==> (key == uri
            || key.len() < uri.len() && uri.take(key.len() as int) == key && uri[key.len() as int]
            == '/'),
{
    reveal_strlit("/");
    text::trailing_characters_are_taken_off(key, '/', m);
    text::trailing_characters_are_taken_off(uri, '/', n);
    let p = key + "/"@;
    if text::begins_with(uri, p) {
        assert(uri.take(p.len() as int).take(key.len() as int) == p.take(key.len() as int));
        assert(p.take(key.len() as int) == key);
        assert(uri.take(p.len() as int).take(key.len() as int) == uri.take(key.len() as int));
        assert(uri.take(p.len() as int)[key.len() as int] == p[key.len() as int]);
    }
    if key.len() < uri.len() && uri.take(key.len() as int) == key && uri[key.len() as int] == '/' {
        assert(uri.take(p.len() as int) == p) by {
            assert forall|i: int| 0 <= i < p.len() implies uri.take(p.len() as int)[i] == p[i] by {
                if i < key.len() {
                    assert(uri.take(key.len() as int)[i] == key[i]);
                }
            }
        }
    }
}

/// Whether the path of `a` is shorter than that of `b`, or the same with fewer slashes at its
/// end.
pub open spec fn is_shorter(a: Seq<char>, b: Seq<char>) -> bool {
    let x = text::trimmed_end(a, '/').len();
    let y = text::trimmed_end(b, '/').len();
    x < y || x == y && a.len() < b.len()
}

/// Settings under the very URI come first. Else those of the longest path count, slashes at
/// the end aside, of all the keys that apply; where no key applies there are none.
pub proof fn the_closest_settings_count<V>(m: Map<Seq<char>, V>, uri: Seq<char>, key: Seq<char>)
    ensures
        m.contains_key(uri) ==> looked_up(m, uri) == Some(m[uri]),
        !m.contains_key(uri) && m.contains_key(key) && covers(key, uri) && (forall|k: Seq<char>|
            m.contains_key(k) && k != key && #[trigger] covers(k, uri) ==> is_shorter(k, key))
            ==> looked_up(m, uri) == Some(m[key]),
        (forall|k: Seq<char>| #[trigger] m.contains_key(k) ==> !covers(k, uri)) ==> looked_up(m, uri)
            is None,
        looked_up(m, uri) is Some ==> exists|k: Seq<char>|
            #![trigger m.contains_key(k)]
            m.contains_key(k) && covers(k, uri) && looked_up(m, uri) == Some(m[k]),
{
    assert(covers(uri, uri));
    if !m.contains_key(uri) {
        if m.contains_key(key) && covers(key, uri) && (forall|k: Seq<char>|
            m.contains_key(k) && k != key && #[trigger] covers(k, uri) ==> is_shorter(k, key)) {
            assert forall|k: Seq<char>| #[trigger] m.dom().contains(k) && covers(
                k,
                uri,
            ) implies no_closer(k, key) by {
                assert(m.contains_key(k));
            }
            assert(m.dom().contains(key));
            assert(is_closest(m.dom(), uri, key));
            let chosen = choose|k: Seq<char>| is_closest(m.dom(), uri, k);
            closest_key_is_unique(m.dom(), uri, chosen, key);
        }
        if exists|k: Seq<char>| is_closest(m.dom(), uri, k) {
            let k = choose|k: Seq<char>| is_closest(m.dom(), uri, k);
            assert(m.contains_key(k));
        }
    }
}

/// A URL without a host has what follows its scheme as its key, and is not the public registry.
pub proof fn urls_without_a_host_are_not_public(other: Seq<char>)
    requires
        other.len() < 2 || other[0] != '/' || other[1] != '/',
    ensures
        uri_key("https:"@ + other) == other,
        uri_key("http:"@ + other) == other,
        !is_public("https:"@ + other),
        !is_public("http:"@ + other),
        !text::begins_with(other, "https:"@) && !text::begins_with(other, "http:"@) ==> !is_public(
            other,
        ),
{
    reveal_strlit("//");
    reveal_strlit("https:");
    reveal_strlit("http:");
    reveal_strlit("registry.npmjs.org");
    let a = "https:"@ + other;
    let b = "http:"@ + other;
    text::beginnings_and_ends_are_cut_off("https:"@, other, other, other);
    text::beginnings_and_ends_are_cut_off("http:"@, other, other, other);
    assert(!text::begins_with(other, "//"@)) by {
        if text::begins_with(other, "//"@) {
            assert(other.take(2)[0] == other[0] && other.take(2)[1] == other[1]);
        }
    }
    assert(!text::begins_with(b, "https:"@)) by {
        if text::begins_with(b, "https:"@) {
            assert(b.take(6)[4] == b[4]);
            assert(b[4] == ':');
            assert("https:"@[4] == 's');
        }
    }
    assert("registry.npmjs.org"@.len() == 18);
}

} // verus!

use aube::client::{
    same_origin, Authorization, FetchPolicy, HttpClient, NetworkMode, Origin, RegistryClient,
};
use aube::config::{
    ignored_reason, AuthConfig, Ignored, NpmConfig, NpmrcEntry, NpmrcSource, Reading,
};
use aube::dist_tags::{
    check_dist_tag_status, dist_tag_root_url, dist_tag_url, encoded_name, Error,
};
use aube::registry_url::{
    is_public_npmjs_url, lookup_by_uri_prefix, normalize_npmrc_uri_key, normalize_registry_url,
    package_scope, registry_uri_key,
};
use aube::text_map::TextMap;

fn config() -> NpmConfig {
    NpmConfig {
        registry: "https://registry.npmjs.org/".to_string(),
        scoped_registries: TextMap::new(),
        auth_by_uri: TextMap::new(),
        global_auth_token: None,
        https_proxy: None,
        http_proxy: None,
        npmrc_proxy: None,
        no_proxy: None,
        strict_ssl: true,
        local_address: None,
        max_sockets: None,
        cafile: None,
        ca: Vec::new(),
    }
}

fn entry(key: &str, value: &str) -> NpmrcEntry {
    NpmrcEntry {
        key: key.to_string(),
        value: value.to_string(),
        reading: Reading {
            flag: match value {
                "true" => Some(true),
                "false" => Some(false),
                _ => None,
            },
            address: if value == "10.0.0.1" {
                Some(value.to_string())
            } else {
                None
            },
            token_helper: if value.starts_with('/') {
                Some(value.to_string())
            } else {
                None
            },
            pem: format!("pem:{value}"),
        },
    }
}

fn applied(source: NpmrcSource, entries: &[(&str, &str)]) -> NpmConfig {
    let mut c = config();
    c.apply_tagged(
        entries
            .iter()
            .map(|(k, v)| (source, entry(k, v)))
            .collect(),
    );
    c
}

fn client(config: NpmConfig) -> RegistryClient {
    RegistryClient::new(
        config,
        NetworkMode::Online,
        FetchPolicy {
            retries: 2,
            warn_timeout_ms: 100,
        },
        TextMap::new(),
    )
}

#[test]
fn user_entries_are_taken_over() {
    let c = applied(
        NpmrcSource::User,
        &[
            ("registry", "https://one.example"),
            ("registry", "https://two.example/npm"),
            ("_authToken", "tok"),
            ("https-proxy", "http://sp"),
            ("httpProxy", "http://hp"),
            ("proxy", "http://p"),
            ("no-proxy", "localhost"),
            ("strict-ssl", "false"),
            ("local-address", "10.0.0.1"),
            ("maxsockets", " +12 "),
            ("cafile", "/etc/ca.pem"),
            ("ca", "one"),
            ("ca[]", "two"),
        ],
    );
    assert_eq!(c.registry, "https://two.example/npm/");
    assert_eq!(c.global_auth_token.as_deref(), Some("tok"));
    assert_eq!(c.https_proxy.as_deref(), Some("http://sp"));
    assert_eq!(c.http_proxy.as_deref(), Some("http://hp"));
    assert_eq!(c.npmrc_proxy.as_deref(), Some("http://p"));
    assert_eq!(c.no_proxy.as_deref(), Some("localhost"));
    assert!(!c.strict_ssl);
    assert_eq!(c.local_address.as_deref(), Some("10.0.0.1"));
    assert_eq!(c.max_sockets, Some(12));
    assert_eq!(c.cafile.as_deref(), Some("/etc/ca.pem"));
    assert_eq!(c.ca, ["pem:one", "pem:two"]);
}

#[test]
fn project_entries_cannot_set_guarded_settings() {
    let c = applied(
        NpmrcSource::Project,
        &[
            ("https-proxy", "http://evil"),
            ("http-proxy", "http://evil"),
            ("proxy", "http://evil"),
            ("noproxy", "*"),
            ("strict-ssl", "false"),
            ("//r.example/:tokenHelper", "/bin/evil"),
            ("//r.example/:_authToken", "ok"),
        ],
    );
    assert!(c.https_proxy.is_none());
    assert!(c.http_proxy.is_none());
    assert!(c.npmrc_proxy.is_none());
    assert!(c.no_proxy.is_none());
    assert!(c.strict_ssl);
    assert_eq!(c.token_helper_for("https://r.example/"), None);
    assert_eq!(c.auth_token_for("https://r.example/"), Some("ok"));
    let mut c = applied(NpmrcSource::User, &[("strict-ssl", "false")]);
    c.apply_tagged(vec![(NpmrcSource::Project, entry("strict-ssl", "true"))]);
    assert!(c.strict_ssl);
}

#[test]
fn values_that_do_not_read_are_ignored() {
    let c = applied(
        NpmrcSource::Global,
        &[
            ("strict-ssl", "perhaps"),
            ("local-address", "nowhere"),
            ("maxsockets", "0"),
            ("maxsockets", "many"),
            ("maxsockets", "99999999999999999999999"),
            ("//r.example/:tokenHelper", "relative"),
            ("unknown", "x"),
            ("scope:registry", "https://x/"),
            ("//no-suffix", "x"),
            ("https-proxy", ""),
        ],
    );
    assert!(c.strict_ssl);
    assert!(c.local_address.is_none());
    assert!(c.max_sockets.is_none());
    assert_eq!(c.token_helper_for("https://r.example/"), None);
    assert!(c.scoped_registries.is_empty());
    assert!(c.https_proxy.is_none());
    assert_eq!(c.registry, "https://registry.npmjs.org/");
}

#[test]
fn entries_for_a_registry_are_kept_together() {
    let c = applied(
        NpmrcSource::User,
        &[
            ("//r.example:443/npm/:_auth", "dXNlcjpwYXNz"),
            ("//r.example/npm/:username", "me"),
            ("//r.example/npm/:_password", "cGFzcw=="),
            ("//r.example/npm/:token-helper", "/usr/bin/helper"),
            ("//r.example/npm/:ca", "c1"),
            ("//r.example/npm/:cafile", "/ca"),
            ("//r.example/npm/:cert", "c"),
            ("//r.example/npm/:key", "k"),
        ],
    );
    assert_eq!(c.auth_by_uri.len(), 1);
    let a: &AuthConfig = c.registry_config_for("https://r.example/npm/").unwrap();
    assert_eq!(a.auth.as_deref(), Some("dXNlcjpwYXNz"));
    assert_eq!(a.username.as_deref(), Some("me"));
    assert_eq!(a.password.as_deref(), Some("cGFzcw=="));
    assert_eq!(a.token_helper.as_deref(), Some("/usr/bin/helper"));
    assert_eq!(a.tls.ca, ["pem:c1"]);
    assert_eq!(a.tls.cafile.as_deref(), Some("/ca"));
    assert_eq!(a.tls.cert.as_deref(), Some("pem:c"));
    assert_eq!(a.tls.key.as_deref(), Some("pem:k"));
}

#[test]
fn untagged_entries_count_as_the_users() {
    let mut c = config();
    c.apply(vec![entry("proxy", "http://p"), entry("registry", "https://r")]);
    assert_eq!(c.npmrc_proxy.as_deref(), Some("http://p"));
    assert_eq!(c.registry, "https://r/");
}

#[test]
fn proxies_fall_back_downwards_only() {
    let vars = |vs: &[(&str, &str)]| {
        let mut m = TextMap::new();
        for (k, v) in vs {
            m.insert(k.to_string(), v.to_string());
        }
        m
    };
    let mut c = config();
    c.apply_proxy_env(&vars(&[("HTTP_PROXY", "http://h"), ("NO_PROXY", "x")]));
    assert_eq!(c.https_proxy, None);
    assert_eq!(c.http_proxy.as_deref(), Some("http://h"));
    assert_eq!(c.no_proxy.as_deref(), Some("x"));

    let mut c = config();
    c.apply_proxy_env(&vars(&[("https_proxy", " http://s "), ("HTTP_PROXY", "http://h")]));
    assert_eq!(c.https_proxy.as_deref(), Some("http://s"));
    assert_eq!(c.http_proxy.as_deref(), Some("http://s"));

    let mut c = config();
    c.npmrc_proxy = Some("http://np".to_string());
    c.apply_proxy_env(&vars(&[("HTTPS_PROXY", "http://s")]));
    assert_eq!(c.https_proxy.as_deref(), Some("http://np"));

    let mut c = config();
    c.apply_proxy_env(&vars(&[("proxy", "http://p")]));
    assert_eq!(c.https_proxy, None);
    assert_eq!(c.http_proxy.as_deref(), Some("http://p"));
}

#[test]
fn jsr_packages_have_a_registry_unless_configured() {
    let mut c = config();
    c.apply_builtin_scoped_defaults();
    assert_eq!(c.registry_for("@jsr/std__path"), "https://npm.jsr.io/");
    let mut c = applied(NpmrcSource::User, &[("@jsr:registry", "https://mine")]);
    c.apply_builtin_scoped_defaults();
    assert_eq!(c.registry_for("@jsr/std__path"), "https://mine/");
}

#[test]
fn scopes_match_in_any_case() {
    let c = applied(NpmrcSource::Project, &[("@MyÖrg:registry", "https://internal.example")]);
    assert_eq!(c.registry_for("@myörg/pkg"), "https://internal.example/");
    assert_eq!(c.registry_for("@MYÖRG/pkg"), "https://internal.example/");
    assert_eq!(c.registry_for("@other/pkg"), "https://registry.npmjs.org/");
    assert_eq!(c.registry_for("plain"), "https://registry.npmjs.org/");
    assert_eq!(c.registry_for_scope("@myörg"), "https://internal.example/");
    assert_eq!(c.registry_for_scope("@MyÖrg"), "https://registry.npmjs.org/");
    let mut c = config();
    c.set_scoped_registry("@x".to_string(), "https://x.example");
    assert_eq!(c.registry_for("@x/y"), "https://x.example/");
}

#[test]
fn public_packages_are_told_from_private_ones() {
    let c = applied(NpmrcSource::User, &[("@corp:registry", "https://corp.example/")]);
    assert!(c.is_public_npmjs("lodash"));
    assert!(!c.is_public_npmjs("@corp/lib"));
    let c = applied(NpmrcSource::User, &[("registry", "https://corp.example/")]);
    assert!(!c.is_public_npmjs("lodash"));
    assert!(is_public_npmjs_url("https://registry.npmjs.org"));
    assert!(is_public_npmjs_url("https://REGISTRY.npmjs.org:443/"));
    assert!(!is_public_npmjs_url("https://registry.npmjs.org.evil.example/"));
}

#[test]
fn basic_credentials_are_built_from_name_and_password() {
    let c = applied(
        NpmrcSource::User,
        &[
            ("//r.example/:username", "user"),
            ("//r.example/:_password", "cGFzcw=="),
            ("//bad.example/:username", "user"),
            ("//bad.example/:_password", "not base64!"),
            ("//ready.example/:_auth", "cmVhZHk="),
        ],
    );
    assert_eq!(
        c.basic_auth_for("https://r.example/").as_deref(),
        Some("dXNlcjpwYXNz")
    );
    assert_eq!(c.basic_auth_for("https://bad.example/"), None);
    assert_eq!(
        c.basic_auth_for("https://ready.example/").as_deref(),
        Some("cmVhZHk=")
    );
    assert_eq!(c.basic_auth_for("https://none.example/"), None);
}

fn symbol(v: usize) -> char {
    "ABCDEFGHIJKLMNOPQRSTUVWXYZabcdefghijklmnopqrstuvwxyz0123456789+/"
        .chars()
        .nth(v)
        .unwrap()
}

fn encoded(b: &[u8]) -> String {
    let at = |i: usize| b.get(i).copied().unwrap_or(0) as usize;
    let mut out = String::new();
    for g in 0..(b.len() + 2) / 3 {
        let x = at(3 * g) * 65536 + at(3 * g + 1) * 256 + at(3 * g + 2);
        let bits = [x / 262144, x / 4096 % 64, x / 64 % 64, x % 64];
        for j in 0..4 {
            out.push(if 3 * g + j > b.len() { '=' } else { symbol(bits[j]) });
        }
    }
    out
}

fn header(username: &str, password: &str) -> Option<String> {
    let c = applied(
        NpmrcSource::User,
        &[("//r.example/:username", username), ("//r.example/:_password", password)],
    );
    c.basic_auth_for("https://r.example/")
}

#[test]
fn encoded_passwords_of_every_length_reach_the_header() {
    for username in ["u", "us", "use", "ü"] {
        for len in 0..70usize {
            let password: Vec<u8> = (0..len).map(|i| (i * 37 + len * 11) as u8).collect();
            let mut pair = username.as_bytes().to_vec();
            pair.push(b':');
            pair.extend_from_slice(&password);
            assert_eq!(header(username, &encoded(&password)), Some(encoded(&pair)));
        }
    }
    for byte in 0..=255u8 {
        assert_eq!(header("u", &encoded(&[byte])), Some(encoded(&[b'u', b':', byte])));
    }
}

#[test]
fn passwords_in_another_form_are_no_credentials() {
    assert_eq!(header("u", "cGFzcw==").as_deref(), Some("dTpwYXNz"));
    for password in [
        "cGFzcw", "cGFzcw=", "cGFzcw===", "cGFzcx==", "cGFzc3=", "c", "=", "====", "cGFz\ncw==",
        "cGFz cw==", "c=Fz", "_-8=", "cGFzcw==cGFz",
    ] {
        assert_eq!(header("u", password), None, "{password}");
    }
}

#[test]
fn keys_drop_the_default_port() {
    assert_eq!(registry_uri_key("https://r.example:443/x/"), "//r.example/x/");
    assert_eq!(registry_uri_key("https://r.example:80/"), "//r.example:80/");
    assert_eq!(registry_uri_key("http://r.example:80/"), "//r.example/");
    assert_eq!(registry_uri_key("http://r.example:4873/"), "//r.example:4873/");
    assert_eq!(normalize_npmrc_uri_key("//r.example:443/x/"), "//r.example/x/");
    assert_eq!(normalize_npmrc_uri_key("//r.example/x/"), "//r.example/x/");
    assert_eq!(normalize_registry_url("https://r"), "https://r/");
    assert_eq!(normalize_registry_url("https://r/"), "https://r/");
    assert_eq!(package_scope("@a/b"), Some("@a".to_string()));
    assert_eq!(package_scope("@a"), None);
    assert_eq!(package_scope("a/b"), None);
}

#[test]
fn the_closest_key_applies() {
    let mut m = TextMap::new();
    m.insert("//r.example/".to_string(), 1);
    m.insert("//r.example/a/".to_string(), 2);
    assert_eq!(lookup_by_uri_prefix(&m, "//r.example/a/b/c.tgz"), Some(&2));
    assert_eq!(lookup_by_uri_prefix(&m, "//r.example/ab/"), Some(&1));
    assert_eq!(lookup_by_uri_prefix(&m, "//r.example"), Some(&1));
    assert_eq!(lookup_by_uri_prefix(&m, "//other.example/"), None);
}

#[test]
fn a_registrys_own_token_comes_first() {
    let mut c = client(applied(
        NpmrcSource::User,
        &[
            ("_authToken", "default"),
            ("//r.example/:_authToken", "own"),
            ("//r.example/:_auth", "basic"),
            ("//b.example/:_auth", "basic"),
        ],
    ));
    assert!(matches!(c.authed("https://r.example/", None), Authorization::Bearer(t) if t == "own"));
    assert!(matches!(c.authed("https://b.example/", None), Authorization::Basic(t) if t == "basic"));
    assert!(
        matches!(c.authed("https://registry.npmjs.org/lodash", None), Authorization::Bearer(t) if t == "default")
    );
}

#[test]
fn the_default_token_is_not_sent_elsewhere() {
    let mut c = client(applied(NpmrcSource::User, &[("_authToken", "default")]));
    assert!(matches!(
        c.authed("https://attacker.example/x.tgz", None),
        Authorization::Absent
    ));
    assert!(matches!(
        c.authed("http://registry.npmjs.org/x", None),
        Authorization::Absent
    ));
    assert!(matches!(c.authed("not a url", None), Authorization::Absent));
    assert!(c.same_host_as_default("https://registry.npmjs.org:443/other"));
    assert!(c.same_host_as_default("https://REGISTRY.npmjs.org/"));
    assert!(!c.same_host_as_default("https://registry.npmjs.org:8443/"));
    // Credentials count as resolved all the same.
    assert!(c.has_resolved_auth_for("https://attacker.example/", None));
    assert!(!client(config()).has_resolved_auth_for("https://registry.npmjs.org/", None));
}

#[test]
fn origins_are_compared_in_all_parts() {
    let o = |s: &str, h: Option<&str>, p: Option<u16>| {
        Some(Origin {
            scheme: s.to_string(),
            host: h.map(|h| h.to_string()),
            port: p,
        })
    };
    let a = o("https", Some("h"), Some(443));
    assert!(same_origin(&a, &o("https", Some("h"), Some(443))));
    assert!(!same_origin(&a, &o("http", Some("h"), Some(443))));
    assert!(!same_origin(&a, &o("https", Some("g"), Some(443))));
    assert!(!same_origin(&a, &o("https", Some("h"), Some(80))));
    assert!(!same_origin(&a, &None));
    assert!(!same_origin(&None, &None));
    assert!(same_origin(&o("data", None, None), &o("data", None, None)));
}

#[test]
fn a_token_helper_runs_once() {
    let mut c = client(applied(
        NpmrcSource::User,
        &[
            ("//r.example/:tokenHelper", "/bin/helper"),
            ("//s.example/:tokenHelper", "/bin/helper"),
        ],
    ));
    assert_eq!(c.pending_token_helper("https://r.example/a"), Some("/bin/helper"));
    assert_eq!(
        c.registry_auth_token_for("https://r.example/a", Some("tok".to_string()))
            .as_deref(),
        Some("tok")
    );
    assert_eq!(c.pending_token_helper("https://r.example/a"), None);
    assert_eq!(c.pending_token_helper("https://r.example/b"), None);
    assert_eq!(c.pending_token_helper("https://s.example/"), None);
    // What was found stays, whatever a helper would print later.
    assert_eq!(
        c.registry_auth_token_for("https://s.example/", Some("new".to_string()))
            .as_deref(),
        Some("tok")
    );
    assert_eq!(
        c.cached_token_helper_result("/bin/other", None),
        None
    );
    assert_eq!(
        c.cached_token_helper_result("/bin/other", Some("late".to_string())),
        None
    );
}

#[test]
fn requests_go_through_the_registrys_client() {
    let mut by_uri = TextMap::new();
    by_uri.insert("//tls.example/".to_string(), 3usize);
    let mut c = RegistryClient::new(
        applied(NpmrcSource::User, &[("//tls.example/:_authToken", "t")]),
        NetworkMode::Offline,
        FetchPolicy {
            retries: 0,
            warn_timeout_ms: 0,
        },
        by_uri,
    );
    assert_eq!(c.http_for("https://tls.example/x"), HttpClient::Own(3));
    assert_eq!(c.http_tarball_for("https://tls.example/x"), HttpClient::Own(3));
    assert_eq!(c.http_for("https://registry.npmjs.org/"), HttpClient::Shared);
    assert_eq!(
        c.http_tarball_for("https://registry.npmjs.org/"),
        HttpClient::Tarball
    );
    let r = c.authed_request("PUT", "https://tls.example/p", "https://tls.example/", None);
    assert_eq!((r.client, r.method.as_str(), r.url.as_str()), (HttpClient::Own(3), "PUT", "https://tls.example/p"));
    assert!(matches!(r.authorization, Authorization::Bearer(t) if t == "t"));
    let r = c.request("PUT", "https://tls.example/p", "https://tls.example/");
    assert!(matches!(r.authorization, Authorization::Absent));
    let r = c.authed_get("https://tls.example/p", "https://tls.example/", None);
    assert_eq!(r.method, "GET");
    let r = c.authed_tarball_get("https://registry.npmjs.org/t.tgz", "https://registry.npmjs.org/", None);
    assert_eq!(r.client, HttpClient::Tarball);
    assert!(c.force_cache());
    assert!(c.trust_cached_packument(false));
    assert!(!client(config()).trust_cached_packument(false));
    assert!(client(config()).trust_cached_packument(true));
}

#[test]
fn packument_urls_have_one_segment_for_the_name() {
    let c = client(applied(NpmrcSource::User, &[("@corp:registry", "https://corp.example/npm//")]));
    assert_eq!(
        c.packument_url("@corp/lib"),
        (
            "https://corp.example/npm/@corp%2Flib".to_string(),
            "https://corp.example/npm//"
        )
    );
    assert_eq!(c.packument_url("lodash").0, "https://registry.npmjs.org/lodash");
    assert_eq!(c.registry_url_for("lodash"), "https://registry.npmjs.org/");
}

#[test]
fn slow_metadata_is_recorded_above_the_threshold() {
    let c = client(config());
    assert!(c.maybe_record_slow_metadata("x", 100).is_none());
    let s = c.maybe_record_slow_metadata("x", 101).unwrap();
    assert_eq!((s.label.as_str(), s.elapsed_ms, s.threshold_ms), ("x", 101, 100));
    let mut c = client(config());
    c.fetch_policy.warn_timeout_ms = 0;
    assert!(c.maybe_record_slow_metadata("x", 5000).is_none());
}

#[test]
fn dist_tag_urls_and_answers() {
    assert_eq!(encoded_name("@a/b"), "@a%2Fb");
    assert_eq!(
        dist_tag_root_url("https://r.example/", "@a/b"),
        "https://r.example/-/package/@a%2Fb/dist-tags"
    );
    assert_eq!(
        dist_tag_url("https://r.example", "x", "beta"),
        "https://r.example/-/package/x/dist-tags/beta"
    );
    assert!(check_dist_tag_status(200, "x").is_ok());
    assert!(check_dist_tag_status(500, "x").is_ok());
    assert!(matches!(check_dist_tag_status(404, "x"), Err(Error::NotFound(n)) if n == "x"));
    assert!(matches!(check_dist_tag_status(401, "x"), Err(Error::Unauthorized)));
    assert!(matches!(check_dist_tag_status(403, "x"), Err(Error::Unauthorized)));
}

#[test]
fn ignored_entries_have_a_reason() {
    let why = |source: NpmrcSource, key: &str, value: &str| ignored_reason(source, &entry(key, value));
    let (project, user) = (NpmrcSource::Project, NpmrcSource::User);
    for key in [
        "https-proxy", "httpsProxy", "http-proxy", "httpProxy", "proxy", "noproxy", "noProxy", "no-proxy",
    ] {
        assert_eq!(why(project, key, "http://p/"), Some(Ignored::UntrustedProxy), "{key}");
        assert_eq!(why(user, key, "http://p/"), None, "{key}");
        assert_eq!(why(NpmrcSource::Global, key, ""), None, "{key}");
    }
    for key in ["strict-ssl", "strictSsl"] {
        assert_eq!(why(project, key, "false"), Some(Ignored::UntrustedStrictSslDisable));
        assert_eq!(why(project, key, "true"), None);
        assert_eq!(why(project, key, "maybe"), None);
        assert_eq!(why(user, key, "false"), None);
    }
    for key in ["//r.example/:tokenHelper", "//r.example/:token-helper"] {
        assert_eq!(why(project, key, "/bin/helper"), Some(Ignored::UntrustedTokenHelper));
        assert_eq!(why(project, key, "helper"), Some(Ignored::UntrustedTokenHelper));
        assert_eq!(why(user, key, "helper"), Some(Ignored::InvalidTokenHelper));
        assert_eq!(why(user, key, "/bin/helper"), None);
    }
    assert_eq!(why(user, "local-address", "here"), Some(Ignored::InvalidLocalAddress));
    assert_eq!(why(project, "localAddress", "10.0.0.1"), None);
    assert_eq!(why(user, "maxsockets", " 0 "), Some(Ignored::NoMaxSockets));
    assert_eq!(why(user, "maxsockets", "many"), Some(Ignored::InvalidMaxSockets));
    assert_eq!(
        why(user, "maxsockets", "99999999999999999999999"),
        Some(Ignored::InvalidMaxSockets)
    );
    assert_eq!(why(project, "maxsockets", "7"), None);
    for key in ["registry", "_authToken", "ca", "x:registry", "//r.example/:other", "unknown"] {
        assert_eq!(why(project, key, "v"), None, "{key}");
    }
}

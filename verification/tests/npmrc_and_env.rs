use aube::env::{env_any, npm_config_env_entries_from, translate_npm_config_env};
use aube::npmrc::{parse_npmrc, strip_matched_quotes, substitute_env};
use aube::text_map::TextMap;

fn env(vars: &[(&str, &str)]) -> TextMap<String> {
    let mut map = TextMap::new();
    for (k, v) in vars {
        map.insert(k.to_string(), v.to_string());
    }
    map
}

fn pairs(entries: &[(String, String)]) -> Vec<(&str, &str)> {
    entries
        .iter()
        .map(|(k, v)| (k.as_str(), v.as_str()))
        .collect()
}

#[test]
fn entries_comments_and_blank_lines() {
    let content = "# comment\n; another\n\n  registry = https://r.example/ \nno-equals\nempty=\n";
    let entries = parse_npmrc(content, &TextMap::new());
    assert_eq!(
        pairs(&entries),
        [("registry", "https://r.example/"), ("empty", "")]
    );
}

#[test]
fn byte_order_mark_and_carriage_returns_are_dropped() {
    let entries = parse_npmrc("\u{feff}a=1\r\nb=2\r\n", &TextMap::new());
    assert_eq!(pairs(&entries), [("a", "1"), ("b", "2")]);
}

#[test]
fn a_trailing_backslash_continues_the_line() {
    let entries = parse_npmrc("token=abc\\\ndef\nnext=1\nlast=x\\", &TextMap::new());
    assert_eq!(
        pairs(&entries),
        [("token", "abcdef"), ("next", "1"), ("last", "x")]
    );
}

#[test]
fn quoted_values_keep_their_padding() {
    let entries = parse_npmrc("_auth=\"abc==\"\nother='x'\nmixed=\"y'\n", &TextMap::new());
    assert_eq!(
        pairs(&entries),
        [("_auth", "abc=="), ("other", "x"), ("mixed", "\"y'")]
    );
}

#[test]
fn variables_are_substituted_in_keys_and_values() {
    let e = env(&[("NEXUS_URL", "//nexus.example/npm/"), ("TOKEN", "s3cret")]);
    let entries = parse_npmrc("${NEXUS_URL}:_auth=${TOKEN}\n", &e);
    assert_eq!(pairs(&entries), [("//nexus.example/npm/:_auth", "s3cret")]);
}

#[test]
fn substitution_of_set_unset_and_unclosed_references() {
    let e = env(&[("A", "1"), ("", "empty")]);
    assert_eq!(substitute_env("x${A}y${B}z", &e), "x1yz");
    assert_eq!(substitute_env("${A", &e), "1");
    assert_eq!(substitute_env("$A $ {A} ${}", &e), "$A $ {A} empty");
    assert_eq!(substitute_env("plain", &e), "plain");
}

#[test]
fn only_one_matching_pair_of_quotes_is_taken_off() {
    assert_eq!(strip_matched_quotes("\"\"x\"\""), "\"x\"");
    assert_eq!(strip_matched_quotes("\"x"), "\"x");
    assert_eq!(strip_matched_quotes("\""), "\"");
    assert_eq!(strip_matched_quotes("''"), "");
    assert_eq!(strip_matched_quotes("'ü'"), "ü");
}

#[test]
fn environment_variables_stand_for_entries() {
    let t = |name: &str| translate_npm_config_env(name, "v").map(|(k, _)| k);
    assert_eq!(t("npm_config_registry"), Some("registry".to_string()));
    assert_eq!(t("NPM_CONFIG_HTTPS_PROXY"), Some("https-proxy".to_string()));
    assert_eq!(t("npm_config_http_proxy"), Some("http-proxy".to_string()));
    assert_eq!(t("npm_config_proxy"), Some("proxy".to_string()));
    assert_eq!(t("npm_config_noproxy"), Some("noproxy".to_string()));
    assert_eq!(t("npm_config_strict_ssl"), Some("strict-ssl".to_string()));
    assert_eq!(t("npm_config_local_address"), Some("local-address".to_string()));
    assert_eq!(t("npm_config_maxsockets"), Some("maxsockets".to_string()));
    assert_eq!(
        t("npm_config_//r.example/:_authToken"),
        Some("//r.example/:_authToken".to_string())
    );
    assert_eq!(
        t("npm_config_@MyOrg:REGISTRY"),
        Some("@myorg:registry".to_string())
    );
    assert_eq!(t("npm_config_auto_install_peers"), None);
    assert_eq!(t("Npm_Config_registry"), None);
    assert_eq!(t("PATH"), None);
}

#[test]
fn environment_entries_keep_their_order() {
    let vars = vec![
        ("npm_config_registry".to_string(), "https://a/".to_string()),
        ("HOME".to_string(), "/root".to_string()),
        ("NPM_CONFIG_proxy".to_string(), "http://p".to_string()),
    ];
    let entries = npm_config_env_entries_from(&vars);
    assert_eq!(
        pairs(&entries),
        [("registry", "https://a/"), ("proxy", "http://p")]
    );
}

#[test]
fn the_first_variable_that_is_not_blank_counts() {
    let e = env(&[("UPPER", "  "), ("lower", " http://proxy ")]);
    assert_eq!(
        env_any(&["UPPER", "lower"], &e),
        Some("http://proxy".to_string())
    );
    assert_eq!(env_any(&["UPPER", "other"], &e), None);
    assert_eq!(env_any(&[], &e), None);
}

//! The registry client: which URL, HTTP client and credentials a request uses, and what is
//! remembered between requests.

use crate::config;
use crate::config::NpmConfig;
use crate::dist_tags;
use crate::registry_url;
use crate::text;
use crate::text_map::TextMap;
use vstd::prelude::*;

verus! {

/// How far the network may be used.
#[derive(Debug, Clone, Copy, PartialEq, Eq, Structural)]
pub enum NetworkMode {
    Online,
    PreferOffline,
    Offline,
}

/// How requests are made.
#[derive(Debug, Clone, Copy)]
pub struct FetchPolicy {
    /// How many times a failed request is tried again.
    pub retries: u32,
    /// From how many milliseconds on a metadata request counts as slow; 0 for never.
    pub warn_timeout_ms: u64,
}

/// Scheme, host and port of a URL.
#[derive(Debug)]
pub struct Origin {
    pub scheme: String,
    pub host: Option<String>,
    pub port: Option<u16>,
}

/// What the URL parser finds in a text: scheme, host, and the port or the scheme's default
/// one.
pub uninterp spec fn origin_of(url: Seq<char>) -> Option<(Seq<char>, Option<Seq<char>>, Option<u16>)>;

/// `reqwest::Url::parse`, and the scheme, host and port of what it gives: nothing if the text
/// is no absolute URL. The text alone determines the outcome.
#[verifier::external_body]
fn parse_origin(url: &str) -> (r: Option<Origin>)
    ensures
        match r {
            Some(o) => origin_of(url@) == Some((o.scheme@, text::view_opt(o.host), o.port)),
            None => origin_of(url@) is None,
        },
{
    match reqwest::Url::parse(url) {
        Ok(u) => Some(
            Origin {
                scheme: u.scheme().to_string(),
                host: u.host_str().map(|h| h.to_string()),
                port: u.port_or_known_default(),
            },
        ),
        Err(_) => None,
    }
}

/// Whether two origins, if both are there, agree in scheme, host and port.
pub fn same_origin(a: &Option<Origin>, b: &Option<Origin>) -> (r: bool)
    ensures
        r == (a matches Some(x) && b matches Some(y) && x.scheme@ == y.scheme@ && text::view_opt(
            x.host,
        ) == text::view_opt(y.host) && x.port == y.port),
{
    match (a, b) {
        (Some(x), Some(y)) => {
            let same_host = match (&x.host, &y.host) {
                (Some(h), Some(g)) => text::same_text(h.as_str(), g.as_str()),
                (None, None) => true,
                _ => false,
            };
            let same_port = match (x.port, y.port) {
                (Some(p), Some(q)) => p == q,
                (None, None) => true,
                _ => false,
            };
            text::same_text(x.scheme.as_str(), y.scheme.as_str()) && same_host && same_port
        },
        _ => false,
    }
}

/// The HTTP client that a request goes through.
#[derive(Debug, Clone, Copy, PartialEq, Eq, Structural)]
pub enum HttpClient {
    /// The one for everything without settings of its own.
    Shared,
    /// The one for tarballs from registries without settings of their own.
    Tarball,
    /// The one with this number, made for a registry with its own TLS settings.
    Own(usize),
}

/// The credentials that a request carries.
#[derive(Debug)]
pub enum Authorization {
    /// `Authorization: Bearer <token>`.
    Bearer(String),
    /// `Authorization: Basic <value>`.
    Basic(String),
    /// None.
    Absent,
}

/// The contents of `Authorization`.
pub enum AuthorizationModel {
    Bearer(Seq<char>),
    Basic(Seq<char>),
    Absent,
}

impl View for Authorization {
    type V = AuthorizationModel;

    open spec fn view(&self) -> AuthorizationModel {
        match *self {
            Authorization::Bearer(t) => AuthorizationModel::Bearer(t@),
            Authorization::Basic(t) => AuthorizationModel::Basic(t@),
            Authorization::Absent => AuthorizationModel::Absent,
        }
    }
}

/// A request that is ready to be sent.
#[derive(Debug)]
pub struct Request {
    pub client: HttpClient,
    pub method: String,
    pub url: String,
    pub authorization: Authorization,
}

/// A metadata request that took longer than the warning threshold.
#[derive(Debug)]
pub struct SlowMetadata {
    pub label: String,
    pub elapsed_ms: u64,
    pub threshold_ms: u64,
}

/// The registry client.
#[derive(Debug)]
pub struct RegistryClient {
    pub config: NpmConfig,
    pub network_mode: NetworkMode,
    pub fetch_policy: FetchPolicy,
    /// The number of the HTTP client for each `//host/path/` key with TLS settings.
    pub http_by_uri: TextMap<usize>,
    /// The token found for each registry URL asked for.
    pub auth_token_by_url: TextMap<Option<String>>,
    /// What each token helper printed when it was run.
    pub token_helper_cache: TextMap<Option<String>>,
}

/// The texts that a map of optional strings holds.
pub open spec fn token_values(m: Map<Seq<char>, Option<String>>) -> Map<
    Seq<char>,
    Option<Seq<char>>,
> {
    m.map_values(|s: Option<String>| text::view_opt(s))
}

/// The token that a registry URL has of its own: a configured one, else what its token
/// helper printed. `output` is what the helper prints if it has to be run.
pub open spec fn own_token(
    c: config::ConfigModel,
    helpers: Map<Seq<char>, Option<Seq<char>>>,
    url: Seq<char>,
    output: Option<Seq<char>>,
) -> Option<Seq<char>> {
    match config::auth_for(c, url) {
        Some(a) => if a.auth_token is Some {
            a.auth_token
        } else if a.token_helper is Some {
            if helpers.contains_key(a.token_helper->0) {
                helpers[a.token_helper->0]
            } else {
                output
            }
        } else {
            None
        },
        None => None,
    }
}

/// The token helper that has to be run to find the token of a registry URL.
pub open spec fn helper_to_run(
    c: config::ConfigModel,
    tokens: Map<Seq<char>, Option<Seq<char>>>,
    helpers: Map<Seq<char>, Option<Seq<char>>>,
    url: Seq<char>,
) -> Option<Seq<char>> {
    if tokens.contains_key(url) {
        None
    } else {
        match config::auth_for(c, url) {
            Some(a) => if a.auth_token is None && a.token_helper is Some && !helpers.contains_key(
                a.token_helper->0,
            ) {
                a.token_helper
            } else {
                None
            },
            None => None,
        }
    }
}

/// Whether a registry URL has the scheme, host and port of the default registry.
pub open spec fn at_default_registry(c: config::ConfigModel, url: Seq<char>) -> bool {
    origin_of(c.registry) is Some && origin_of(url) == origin_of(c.registry)
}

impl RegistryClient {
    /// The tokens found so far, by registry URL.
    pub open spec fn tokens(self) -> Map<Seq<char>, Option<Seq<char>>> {
        token_values(self.auth_token_by_url@)
    }

    /// What token helpers have printed so far, by command.
    pub open spec fn helpers(self) -> Map<Seq<char>, Option<Seq<char>>> {
        token_values(self.token_helper_cache@)
    }

    /// The token of a registry URL: the one found before, else its own.
    pub open spec fn token_of(self, url: Seq<char>, output: Option<Seq<char>>) -> Option<
        Seq<char>,
    > {
        if self.tokens().contains_key(url) {
            self.tokens()[url]
        } else {
            own_token(self.config@, self.helpers(), url, output)
        }
    }

    /// The credentials for a registry URL: its own token, else its basic credentials, else
    /// the default registry's token where the URL is at the default registry.
    pub open spec fn authorization_of(self, url: Seq<char>, output: Option<Seq<char>>) ->
        AuthorizationModel {
        if self.token_of(url, output) is Some {
            AuthorizationModel::Bearer(self.token_of(url, output)->0)
        } else if config::basic_auth_for_url(self.config@, url) is Some {
            AuthorizationModel::Basic(config::basic_auth_for_url(self.config@, url)->0)
        } else if self.config@.global_auth_token is Some && at_default_registry(
            self.config@,
            url,
        ) {
            AuthorizationModel::Bearer(self.config@.global_auth_token->0)
        } else {
            AuthorizationModel::Absent
        }
    }

    /// What is remembered after the token of a registry URL was looked up: the token found,
    /// and what the helper printed if it was run. Nothing else changes.
    pub open spec fn after_lookup(
        self,
        before: RegistryClient,
        url: Seq<char>,
        output: Option<Seq<char>>,
    ) -> bool {
        &&& self.config@ == before.config@
        &&& self.network_mode == before.network_mode
        &&& self.fetch_policy == before.fetch_policy
        &&& self.http_by_uri@ == before.http_by_uri@
        &&& self.tokens() == before.tokens().insert(url, before.token_of(url, output))
        &&& self.helpers() == (match helper_to_run(
            before.config@,
            before.tokens(),
            before.helpers(),
            url,
        ) {
            Some(h) => before.helpers().insert(h, output),
            None => before.helpers(),
        })
    }

    /// The number of the HTTP client made for a registry URL.
    pub open spec fn own_client(self, url: Seq<char>) -> Option<usize> {
        registry_url::looked_up(self.http_by_uri@, registry_url::uri_key(url))
    }

    /// A client that has not made any request.
    pub fn new(
        config: NpmConfig,
        network_mode: NetworkMode,
        fetch_policy: FetchPolicy,
        http_by_uri: TextMap<usize>,
    ) -> (r: RegistryClient)
        ensures
            r.config@ == config@,
            r.network_mode == network_mode,
            r.fetch_policy == fetch_policy,
            r.http_by_uri@ == http_by_uri@,
            r.tokens() == Map::<Seq<char>, Option<Seq<char>>>::empty(),
            r.helpers() == Map::<Seq<char>, Option<Seq<char>>>::empty(),
    {
        let r = RegistryClient {
            config,
            network_mode,
            fetch_policy,
            http_by_uri,
            auth_token_by_url: TextMap::new(),
            token_helper_cache: TextMap::new(),
        };
        assert(r.tokens() =~= Map::<Seq<char>, Option<Seq<char>>>::empty());
        assert(r.helpers() =~= Map::<Seq<char>, Option<Seq<char>>>::empty());
        r
    }

    /// The URL of the registry that a package comes from.
    pub fn registry_url_for(&self, name: &str) -> (r: &str)
        ensures
            r@ == config::registry_of(self.config@, name@),
    {
        self.config.registry_for(name)
    }

    /// Whether the cache counts however old it is.
    pub fn force_cache(&self) -> (r: bool)
        ensures
            r == (self.network_mode != NetworkMode::Online),
    {
        match self.network_mode {
            NetworkMode::PreferOffline => true,
            NetworkMode::Offline => true,
            NetworkMode::Online => false,
        }
    }

    /// Whether a cached packument is used without asking the registry; `is_fresh` says
    /// whether it is young enough.
    pub fn trust_cached_packument(&self, is_fresh: bool) -> (r: bool)
        ensures
            r == (self.network_mode != NetworkMode::Online || is_fresh),
    {
        self.force_cache() || is_fresh
    }

    /// `{registry}/{name}` with the name as one path segment, and the registry.
    pub fn packument_url(&self, name: &str) -> (r: (String, &str))
        ensures
            r.1@ == config::registry_of(self.config@, name@),
            r.0@ == text::trimmed_end(r.1@, '/') + "/"@ + dist_tags::name_in_path(name@),
    {
        let registry_url = self.registry_url_for(name);
        let mut url = text::trim_end_matches(registry_url, '/');
        url.append("/");
        url.append(dist_tags::encoded_name(name).as_str());
        (url, registry_url)
    }

    /// The token helper that has to be run before the token of a registry URL can be
    /// looked up.
    pub fn pending_token_helper(&self, registry_url: &str) -> (r: Option<&str>)
        ensures
            match r {
                Some(h) => helper_to_run(
                    self.config@,
                    self.tokens(),
                    self.helpers(),
                    registry_url@,
                ) == Some(h@),
                None => helper_to_run(
                    self.config@,
                    self.tokens(),
                    self.helpers(),
                    registry_url@,
                ) is None,
            },
    {
        if self.auth_token_by_url.contains_key(registry_url) {
            return None;
        }
        match self.config.registry_config_for(registry_url) {
            Some(auth) => match (&auth.auth_token, &auth.token_helper) {
                (None, Some(helper)) => if self.token_helper_cache.contains_key(helper.as_str()) {
                    None
                } else {
                    Some(helper.as_str())
                },
                _ => None,
            },
            None => None,
        }
    }

    /// What a token helper printed when it was run; `output` is remembered as that if it has
    /// not been run before.
    pub fn cached_token_helper_result(&mut self, helper: &str, output: Option<String>) -> (r:
        Option<String>)
        ensures
            text::view_opt(r) == (if old(self).helpers().contains_key(helper@) {
                old(self).helpers()[helper@]
            } else {
                text::view_opt(output)
            }),
            final(self).helpers() == old(self).helpers().insert(helper@, text::view_opt(r)),
            final(self).config@ == old(self).config@,
            final(self).network_mode == old(self).network_mode,
            final(self).fetch_policy == old(self).fetch_policy,
            final(self).http_by_uri@ == old(self).http_by_uri@,
            final(self).tokens() == old(self).tokens(),
    {
        if let Some(token) = self.token_helper_cache.get(helper) {
            let r = copy_token(token);
            assert(self.helpers() =~= self.helpers().insert(helper@, text::view_opt(r)));
            return r;
        }
        let kept = copy_token(&output);
        let ghost before = self.token_helper_cache@;
        let ghost k = text::view_opt(kept);
        self.token_helper_cache.insert(helper.to_owned(), kept);
        assert(token_values(self.token_helper_cache@) =~= token_values(before).insert(helper@, k));
        output
    }

    /// The token of a registry URL; `output` is what `pending_token_helper` printed, if there
    /// was one to run. The outcome is remembered.
    pub fn registry_auth_token_for(&mut self, registry_url: &str, output: Option<String>) -> (r:
        Option<String>)
        ensures
            text::view_opt(r) == old(self).token_of(registry_url@, text::view_opt(output)),
            final(self).after_lookup(*old(self), registry_url@, text::view_opt(output)),
    {
        if let Some(token) = self.auth_token_by_url.get(registry_url) {
            let r = copy_token(token);
            assert(self.tokens() =~= self.tokens().insert(registry_url@, text::view_opt(r)));
            return r;
        }
        let (token, helper): (Option<String>, Option<String>) = match self.config.registry_config_for(
            registry_url,
        ) {
            Some(auth) => match (&auth.auth_token, &auth.token_helper) {
                (Some(token), _) => (Some(token.clone()), None),
                (None, Some(helper)) => (None, Some(helper.clone())),
                (None, None) => (None, None),
            },
            None => (None, None),
        };
        let ghost before = *self;
        let resolved = match helper {
            Some(helper) => {
                let r = self.cached_token_helper_result(helper.as_str(), output);
                proof {
                    if before.helpers().contains_key(helper@) {
                        assert(self.helpers() =~= before.helpers());
                    }
                }
                r
            },
            None => token,
        };
        let kept = copy_token(&resolved);
        let ghost tokens = self.auth_token_by_url@;
        let ghost k = text::view_opt(kept);
        self.auth_token_by_url.insert(registry_url.to_owned(), kept);
        assert(token_values(self.auth_token_by_url@) =~= token_values(tokens).insert(
            registry_url@,
            k,
        ));
        resolved
    }

    /// Whether there are credentials for a registry URL.
    pub fn has_resolved_auth_for(&mut self, registry_url: &str, output: Option<String>) -> (r:
        bool)
        ensures
            r == (old(self).token_of(registry_url@, text::view_opt(output)) is Some
                || config::basic_auth_for_url(old(self).config@, registry_url@) is Some
                || old(self).config@.global_auth_token is Some),
            final(self).after_lookup(*old(self), registry_url@, text::view_opt(output)),
    {
        self.registry_auth_token_for(registry_url, output).is_some()
            || self.config.basic_auth_for(registry_url).is_some()
            || self.config.global_auth_token.is_some()
    }

    /// Whether a registry URL has the scheme, host and port of the default registry.
    pub fn same_host_as_default(&self, registry_url: &str) -> (r: bool)
        ensures
            r == at_default_registry(self.config@, registry_url@),
    {
        let a = parse_origin(self.config.registry.as_str());
        let b = parse_origin(registry_url);
        same_origin(&a, &b)
    }

    /// The credentials that a request to a registry carries. The token of the default
    /// registry is never sent anywhere else.
    pub fn authed(&mut self, registry_url: &str, output: Option<String>) -> (r: Authorization)
        ensures
            r@ == old(self).authorization_of(registry_url@, text::view_opt(output)),
            final(self).after_lookup(*old(self), registry_url@, text::view_opt(output)),
    {
        if let Some(token) = self.registry_auth_token_for(registry_url, output) {
            return Authorization::Bearer(token);
        }
        if let Some(auth) = self.config.basic_auth_for(registry_url) {
            return Authorization::Basic(auth);
        }
        if let Some(token) = &self.config.global_auth_token {
            if self.same_host_as_default(registry_url) {
                return Authorization::Bearer(token.clone());
            }
        }
        Authorization::Absent
    }

    /// The HTTP client for a registry URL.
    pub fn http_for(&self, registry_url: &str) -> (r: HttpClient)
        ensures
            r == (match self.own_client(registry_url@) {
                Some(n) => HttpClient::Own(n),
                None => HttpClient::Shared,
            }),
    {
        let key = registry_url::registry_uri_key(registry_url);
        match registry_url::lookup_by_uri_prefix(&self.http_by_uri, key.as_str()) {
            Some(n) => HttpClient::Own(*n),
            None => HttpClient::Shared,
        }
    }

    /// The HTTP client for tarballs from a registry URL.
    pub fn http_tarball_for(&self, registry_url: &str) -> (r: HttpClient)
        ensures
            r == (match self.own_client(registry_url@) {
                Some(n) => HttpClient::Own(n),
                None => HttpClient::Tarball,
            }),
    {
        let key = registry_url::registry_uri_key(registry_url);
        match registry_url::lookup_by_uri_prefix(&self.http_by_uri, key.as_str()) {
            Some(n) => HttpClient::Own(*n),
            None => HttpClient::Tarball,
        }
    }

    /// A request with the registry's HTTP client and credentials.
    pub fn authed_request(
        &mut self,
        method: &str,
        url: &str,
        registry_url: &str,
        output: Option<String>,
    ) -> (r: Request)
        ensures
            r.client == (match old(self).own_client(registry_url@) {
                Some(n) => HttpClient::Own(n),
                None => HttpClient::Shared,
            }),
            r.method@ == method@,
            r.url@ == url@,
            r.authorization@ == old(self).authorization_of(registry_url@, text::view_opt(output)),
            final(self).after_lookup(*old(self), registry_url@, text::view_opt(output)),
    {
        let client = self.http_for(registry_url);
        let authorization = self.authed(registry_url, output);
        Request { client, method: method.to_owned(), url: url.to_owned(), authorization }
    }

    /// A request with the registry's HTTP client and no credentials: the caller brings its
    /// own.
    pub fn request(&self, method: &str, url: &str, registry_url: &str) -> (r: Request)
        ensures
            r.client == (match self.own_client(registry_url@) {
                Some(n) => HttpClient::Own(n),
                None => HttpClient::Shared,
            }),
            r.method@ == method@,
            r.url@ == url@,
            r.authorization@ == AuthorizationModel::Absent,
    {
        Request {
            client: self.http_for(registry_url),
            method: method.to_owned(),
            url: url.to_owned(),
            authorization: Authorization::Absent,
        }
    }

    /// A `GET` request with the registry's credentials.
    pub fn authed_get(&mut self, url: &str, registry_url: &str, output: Option<String>) -> (r:
        Request)
        ensures
            r.client == (match old(self).own_client(registry_url@) {
                Some(n) => HttpClient::Own(n),
                None => HttpClient::Shared,
            }),
            r.method@ == "GET"@,
            r.url@ == url@,
            r.authorization@ == old(self).authorization_of(registry_url@, text::view_opt(output)),
            final(self).after_lookup(*old(self), registry_url@, text::view_opt(output)),
    {
        self.authed_request("GET", url, registry_url, output)
    }

    /// A `GET` request for a tarball, with the registry's credentials.
    pub fn authed_tarball_get(
        &mut self,
        url: &str,
        registry_url: &str,
        output: Option<String>,
    ) -> (r: Request)
        ensures
            r.client == (match old(self).own_client(registry_url@) {
                Some(n) => HttpClient::Own(n),
                None => HttpClient::Tarball,
            }),
            r.method@ == "GET"@,
            r.url@ == url@,
            r.authorization@ == old(self).authorization_of(registry_url@, text::view_opt(output)),
            final(self).after_lookup(*old(self), registry_url@, text::view_opt(output)),
    {
        let client = self.http_tarball_for(registry_url);
        let authorization = self.authed(registry_url, output);
        Request { client, method: "GET".to_owned(), url: url.to_owned(), authorization }
    }

    /// What to record about a metadata request: something only if there is a threshold and
    /// the request took longer.
    pub fn maybe_record_slow_metadata(&self, label: &str, elapsed_ms: u64) -> (r: Option<
        SlowMetadata,
    >)
        ensures
            match r {
                Some(s) => {
                    &&& self.fetch_policy.warn_timeout_ms > 0
                    &&& elapsed_ms > self.fetch_policy.warn_timeout_ms
                    &&& s.label@ == label@
                    &&& s.elapsed_ms == elapsed_ms
                    &&& s.threshold_ms == self.fetch_policy.warn_timeout_ms
                },
                None => self.fetch_policy.warn_timeout_ms == 0 || elapsed_ms
                    <= self.fetch_policy.warn_timeout_ms,
            },
    {
        let threshold = self.fetch_policy.warn_timeout_ms;
        if threshold > 0 && elapsed_ms > threshold {
            Some(SlowMetadata { label: label.to_owned(), elapsed_ms, threshold_ms: threshold })
        } else {
            None
        }
    }
}

fn copy_token(s: &Option<String>) -> (r: Option<String>)
    ensures
        text::view_opt(r) == text::view_opt(*s),
{
    match s {
        Some(t) => Some(t.clone()),
        None => None,
    }
}

/// The token of the default registry goes with a request only if the request is to the
/// default registry: a registry without credentials of its own, anywhere else, gets none.
pub proof fn default_token_stays_at_the_default_registry(
    client: RegistryClient,
    url: Seq<char>,
    output: Option<Seq<char>>,
)
    requires
        config::auth_for(client.config@, url) is None,
        !client.tokens().contains_key(url),
        !at_default_registry(client.config@, url),
    ensures
        client.authorization_of(url, output) == AuthorizationModel::Absent,
{
}

/// Away from the default registry, the token of the default registry plays no part in which
/// credentials are sent: not for a scoped registry, and not for a tarball on another host.
pub proof fn default_token_plays_no_part_elsewhere(
    client: RegistryClient,
    other: RegistryClient,
    url: Seq<char>,
    output: Option<Seq<char>>,
)
    requires
        other.tokens() == client.tokens(),
        other.helpers() == client.helpers(),
        other.config@ == (config::ConfigModel {
            global_auth_token: other.config@.global_auth_token,
            ..client.config@
        }),
        !at_default_registry(client.config@, url),
    ensures
        other.authorization_of(url, output) == client.authorization_of(url, output),
{
}

/// A token helper is run at most once: after it has been, no registry URL asks for it again.
pub proof fn token_helper_runs_once(
    before: RegistryClient,
    after: RegistryClient,
    url: Seq<char>,
    output: Option<Seq<char>>,
    other: Seq<char>,
)
    requires
        after.after_lookup(before, url, output),
        helper_to_run(before.config@, before.tokens(), before.helpers(), url) is Some,
    ensures
        helper_to_run(after.config@, after.tokens(), after.helpers(), other) != helper_to_run(
            before.config@,
            before.tokens(),
            before.helpers(),
            url,
        ),
{
}

/// A token that has been found stays what it was, whatever a helper would print later.
pub proof fn found_tokens_are_kept(
    before: RegistryClient,
    after: RegistryClient,
    url: Seq<char>,
    output: Option<Seq<char>>,
    later: Option<Seq<char>>,
)
    requires
        after.after_lookup(before, url, output),
    ensures
        helper_to_run(after.config@, after.tokens(), after.helpers(), url) is None,
        after.token_of(url, later) == before.token_of(url, output),
{
}

/// A request carries the token found before for its registry; else the token configured for
/// the registry; else what the registry's token helper printed, which is asked for if it did
/// not run before; else the registry's `Basic` credentials; else, where scheme, host and port
/// are those of the default registry, the token of the default registry; else nothing.
pub proof fn credentials_come_from_the_first_place_that_has_them(
    client: RegistryClient,
    url: Seq<char>,
    output: Option<Seq<char>>,
)
    ensures
        ({
            let c = client.config@;
            let own = registry_url::looked_up(c.auth_by_uri, registry_url::uri_key(url));
            let known = client.tokens().contains_key(url);
            let set = own is Some && own->0.auth_token is Some;
            let helped = own is Some && own->0.token_helper is Some;
            let run = client.helpers().contains_key(own->0.token_helper->0);
            let basic = if own is Some {
                config::basic_auth(own->0)
            } else {
                None
            };
            let sent = client.authorization_of(url, output);
            let asked = helper_to_run(c, client.tokens(), client.helpers(), url);
            let token = client.token_of(url, output);
            &&& known ==> token == client.tokens()[url] && asked is None
            &&& !known && set ==> token == own->0.auth_token && asked is None
            &&& !known && !set && helped && run ==> token
                == client.helpers()[own->0.token_helper->0] && asked is None
            &&& !known && !set && helped && !run ==> token == output && asked
                == own->0.token_helper
            &&& !known && !set && !helped ==> token is None && asked is None
            &&& token is Some ==> sent == AuthorizationModel::Bearer(token->0)
            &&& token is None && basic is Some ==> sent == AuthorizationModel::Basic(basic->0)
            &&& token is None && basic is None && c.global_auth_token is Some && origin_of(
                c.registry,
            ) is Some && origin_of(url) == origin_of(c.registry) ==> sent
                == AuthorizationModel::Bearer(c.global_auth_token->0)
            &&& token is None && basic is None && (c.global_auth_token is None || origin_of(
                c.registry,
            ) is None || origin_of(url) != origin_of(c.registry)) ==> sent
                == AuthorizationModel::Absent
        }),
{
}

/// Looking up a token remembers it for its registry and leaves those of other registries
/// alone; what a helper printed is remembered where it was asked for, and nothing else.
pub proof fn lookups_remember_what_they_found(
    before: RegistryClient,
    after: RegistryClient,
    url: Seq<char>,
    other: Seq<char>,
    helper: Seq<char>,
    output: Option<Seq<char>>,
)
    requires
        after.after_lookup(before, url, output),
    ensures
        after.tokens().contains_key(url) && after.tokens()[url] == before.token_of(url, output),
        other != url ==> (after.tokens().contains_key(other) <==> before.tokens().contains_key(
            other,
        )),
        other != url && before.tokens().contains_key(other) ==> after.tokens()[other]
            == before.tokens()[other],
        helper_to_run(before.config@, before.tokens(), before.helpers(), url) == Some(helper)
            ==> after.helpers().contains_key(helper) && after.helpers()[helper] == output,
        helper_to_run(before.config@, before.tokens(), before.helpers(), url) != Some(helper) ==> (
        after.helpers().contains_key(helper) <==> before.helpers().contains_key(helper)),
        helper_to_run(before.config@, before.tokens(), before.helpers(), url) != Some(helper)
            && before.helpers().contains_key(helper) ==> after.helpers()[helper]
            == before.helpers()[helper],
        after.config@ == before.config@,
        after.http_by_uri@ == before.http_by_uri@,
        after.network_mode == before.network_mode,
        after.fetch_policy == before.fetch_policy,
{
}

/// A registry goes through an HTTP client of its own if one was made for its key, or for the
/// closest place above it.
pub proof fn own_clients_serve_their_registries(
    client: RegistryClient,
    url: Seq<char>,
    key: Seq<char>,
)
    ensures
        client.http_by_uri@.contains_key(registry_url::uri_key(url)) ==> client.own_client(url)
            == Some(client.http_by_uri@[registry_url::uri_key(url)]),
        !client.http_by_uri@.contains_key(registry_url::uri_key(url))
            && client.http_by_uri@.contains_key(key) && registry_url::covers(
            key,
            registry_url::uri_key(url),
        ) && (forall|k: Seq<char>|
            client.http_by_uri@.contains_key(k) && k != key && #[trigger] registry_url::covers(
                k,
                registry_url::uri_key(url),
            ) ==> registry_url::is_shorter(k, key)) ==> client.own_client(url) == Some(
            client.http_by_uri@[key],
        ),
        (forall|k: Seq<char>| #[trigger]
            client.http_by_uri@.contains_key(k) ==> !registry_url::covers(
                k,
                registry_url::uri_key(url),
            )) ==> client.own_client(url) is None,
{
    registry_url::the_closest_settings_count(
        client.http_by_uri@,
        registry_url::uri_key(url),
        key,
    );
}

} // verus!

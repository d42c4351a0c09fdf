//! The registry client's configuration: what `.npmrc` entries and the environment set, and
//! which registry and credentials apply to a package or a URL.

use crate::base64_text;
use crate::env;
use crate::registry_url;
use crate::text;
use crate::text_map::TextMap;
use vstd::prelude::*;

verus! {

/// The scope whose packages come from the JSR registry unless configured otherwise.
pub const JSR_NPM_SCOPE: &'static str = "@jsr";

/// The registry of the JSR scope.
pub const JSR_DEFAULT_REGISTRY: &'static str = "https://npm.jsr.io/";

/// Where an entry was read from.
#[derive(Debug, Clone, Copy, PartialEq, Eq, Structural)]
pub enum NpmrcSource {
    /// A `.npmrc` in the project, which is committed with it.
    Project,
    /// The user's own `.npmrc`.
    User,
    /// The machine's `.npmrc`.
    Global,
}

impl NpmrcSource {
    /// Whether entries from here may start programs, set proxies or turn TLS checks off.
    pub open spec fn is_trusted(self) -> bool {
        self != NpmrcSource::Project
    }

    /// Whether entries from here may start programs, set proxies or turn TLS checks off.
    pub fn is_trusted_for_subprocess_settings(self) -> (r: bool)
        ensures
            r == self.is_trusted(),
    {
        self != NpmrcSource::Project
    }
}

/// What the value of an entry means in each of the ways in which its key may want it read.
#[derive(Debug)]
pub struct Reading {
    /// As a boolean setting.
    pub flag: Option<bool>,
    /// As an IP address, once trimmed.
    pub address: Option<String>,
    /// As the bare absolute path of a token helper.
    pub token_helper: Option<String>,
    /// As PEM text.
    pub pem: String,
}

/// An entry of a `.npmrc` file.
#[derive(Debug)]
pub struct NpmrcEntry {
    pub key: String,
    pub value: String,
    pub reading: Reading,
}

/// The contents of an entry.
pub struct EntryModel {
    pub key: Seq<char>,
    pub value: Seq<char>,
    pub flag: Option<bool>,
    pub address: Option<Seq<char>>,
    pub token_helper: Option<Seq<char>>,
    pub pem: Seq<char>,
}

impl View for NpmrcEntry {
    type V = EntryModel;

    open spec fn view(&self) -> EntryModel {
        EntryModel {
            key: self.key@,
            value: self.value@,
            flag: self.reading.flag,
            address: text::view_opt(self.reading.address),
            token_helper: text::view_opt(self.reading.token_helper),
            pem: self.reading.pem@,
        }
    }
}

/// TLS settings for one registry.
#[derive(Debug)]
pub struct TlsConfig {
    pub ca: Vec<String>,
    pub cafile: Option<String>,
    pub cert: Option<String>,
    pub key: Option<String>,
}

/// The contents of `TlsConfig`.
#[verifier::ext_equal]
pub struct TlsModel {
    pub ca: Seq<Seq<char>>,
    pub cafile: Option<Seq<char>>,
    pub cert: Option<Seq<char>>,
    pub key: Option<Seq<char>>,
}

impl View for TlsConfig {
    type V = TlsModel;

    open spec fn view(&self) -> TlsModel {
        TlsModel {
            ca: text::views(self.ca@),
            cafile: text::view_opt(self.cafile),
            cert: text::view_opt(self.cert),
            key: text::view_opt(self.key),
        }
    }
}

/// Credentials and TLS settings for one registry.
#[derive(Debug)]
pub struct AuthConfig {
    pub auth_token: Option<String>,
    pub auth: Option<String>,
    pub username: Option<String>,
    pub password: Option<String>,
    pub token_helper: Option<String>,
    pub tls: TlsConfig,
}

/// The contents of `AuthConfig`.
#[verifier::ext_equal]
pub struct AuthModel {
    pub auth_token: Option<Seq<char>>,
    pub auth: Option<Seq<char>>,
    pub username: Option<Seq<char>>,
    pub password: Option<Seq<char>>,
    pub token_helper: Option<Seq<char>>,
    pub tls: TlsModel,
}

impl View for AuthConfig {
    type V = AuthModel;

    open spec fn view(&self) -> AuthModel {
        AuthModel {
            auth_token: text::view_opt(self.auth_token),
            auth: text::view_opt(self.auth),
            username: text::view_opt(self.username),
            password: text::view_opt(self.password),
            token_helper: text::view_opt(self.token_helper),
            tls: self.tls@,
        }
    }
}

impl AuthModel {
    /// No credentials and no settings.
    pub open spec fn empty() -> AuthModel {
        AuthModel {
            auth_token: None,
            auth: None,
            username: None,
            password: None,
            token_helper: None,
            tls: TlsModel { ca: Seq::empty(), cafile: None, cert: None, key: None },
        }
    }
}

impl Default for AuthConfig {
    fn default() -> (r: AuthConfig)
        ensures
            r@ == AuthModel::empty(),
    {
        let r = AuthConfig {
            auth_token: None,
            auth: None,
            username: None,
            password: None,
            token_helper: None,
            tls: TlsConfig { ca: Vec::new(), cafile: None, cert: None, key: None },
        };
        assert(r@ =~= AuthModel::empty());
        r
    }
}

/// The configuration of the registry client.
#[derive(Debug)]
pub struct NpmConfig {
    /// The default registry.
    pub registry: String,
    /// The registry of each scope; scopes with their `@`, lower-cased.
    pub scoped_registries: TextMap<String>,
    /// Credentials and TLS settings by `//host/path/` key.
    pub auth_by_uri: TextMap<AuthConfig>,
    /// The token of the default registry.
    pub global_auth_token: Option<String>,
    pub https_proxy: Option<String>,
    pub http_proxy: Option<String>,
    /// `proxy=`, from which the other two fall back.
    pub npmrc_proxy: Option<String>,
    pub no_proxy: Option<String>,
    pub strict_ssl: bool,
    pub local_address: Option<String>,
    pub max_sockets: Option<usize>,
    pub cafile: Option<String>,
    pub ca: Vec<String>,
}

/// The contents of `NpmConfig`.
#[verifier::ext_equal]
pub struct ConfigModel {
    pub registry: Seq<char>,
    pub scoped_registries: Map<Seq<char>, Seq<char>>,
    pub auth_by_uri: Map<Seq<char>, AuthModel>,
    pub global_auth_token: Option<Seq<char>>,
    pub https_proxy: Option<Seq<char>>,
    pub http_proxy: Option<Seq<char>>,
    pub npmrc_proxy: Option<Seq<char>>,
    pub no_proxy: Option<Seq<char>>,
    pub strict_ssl: bool,
    pub local_address: Option<Seq<char>>,
    pub max_sockets: Option<usize>,
    pub cafile: Option<Seq<char>>,
    pub ca: Seq<Seq<char>>,
}

/// The texts that a map of strings holds.
pub open spec fn text_values(m: Map<Seq<char>, String>) -> Map<Seq<char>, Seq<char>> {
    m.map_values(|s: String| s@)
}

/// The contents of a map of credentials.
pub open spec fn auth_values(m: Map<Seq<char>, AuthConfig>) -> Map<Seq<char>, AuthModel> {
    m.map_values(|a: AuthConfig| a@)
}

impl View for NpmConfig {
    type V = ConfigModel;

    open spec fn view(&self) -> ConfigModel {
        ConfigModel {
            registry: self.registry@,
            scoped_registries: text_values(self.scoped_registries@),
            auth_by_uri: auth_values(self.auth_by_uri@),
            global_auth_token: text::view_opt(self.global_auth_token),
            https_proxy: text::view_opt(self.https_proxy),
            http_proxy: text::view_opt(self.http_proxy),
            npmrc_proxy: text::view_opt(self.npmrc_proxy),
            no_proxy: text::view_opt(self.no_proxy),
            strict_ssl: self.strict_ssl,
            local_address: text::view_opt(self.local_address),
            max_sockets: self.max_sockets,
            cafile: text::view_opt(self.cafile),
            ca: text::views(self.ca@),
        }
    }
}

/// What a key configures.
#[derive(Debug, Clone, Copy, PartialEq, Eq, Structural)]
pub enum Setting {
    Registry,
    AuthToken,
    HttpsProxy,
    HttpProxy,
    Proxy,
    NoProxy,
    StrictSsl,
    LocalAddress,
    MaxSockets,
    CaFile,
    Ca,
    /// The registry of a scope: the key ends in `:registry`.
    ScopedRegistry,
    /// Something for one registry: the key begins with `//`.
    ForUri,
    /// Nothing that the registry client knows.
    Unknown,
}

/// What a key configures.
pub open spec fn setting_of(key: Seq<char>) -> Setting {
    if key == "registry"@ {
        Setting::Registry
    } else if key == "_authToken"@ {
        Setting::AuthToken
    } else if key == "https-proxy"@ || key == "httpsProxy"@ {
        Setting::HttpsProxy
    } else if key == "http-proxy"@ || key == "httpProxy"@ {
        Setting::HttpProxy
    } else if key == "proxy"@ {
        Setting::Proxy
    } else if key == "noproxy"@ || key == "noProxy"@ || key == "no-proxy"@ {
        Setting::NoProxy
    } else if key == "strict-ssl"@ || key == "strictSsl"@ {
        Setting::StrictSsl
    } else if key == "local-address"@ || key == "localAddress"@ {
        Setting::LocalAddress
    } else if key == "maxsockets"@ {
        Setting::MaxSockets
    } else if key == "cafile"@ || key == "caFile"@ {
        Setting::CaFile
    } else if key == "ca"@ || key == "ca[]"@ {
        Setting::Ca
    } else if text::finishes_with(key, ":registry"@) {
        Setting::ScopedRegistry
    } else if text::begins_with(key, "//"@) {
        Setting::ForUri
    } else {
        Setting::Unknown
    }
}

/// An empty text is no value.
pub open spec fn non_empty_text(v: Seq<char>) -> Option<Seq<char>> {
    if v.len() == 0 {
        None
    } else {
        Some(v)
    }
}

/// The credentials of a registry after an entry `//host/path/:suffix=value`.
pub open spec fn auth_applied(
    a: AuthModel,
    trusted: bool,
    suffix: Seq<char>,
    e: EntryModel,
) -> AuthModel {
    if suffix == "_authToken"@ {
        AuthModel { auth_token: Some(e.value), ..a }
    } else if suffix == "_auth"@ {
        AuthModel { auth: Some(e.value), ..a }
    } else if suffix == "username"@ {
        AuthModel { username: Some(e.value), ..a }
    } else if suffix == "_password"@ {
        AuthModel { password: Some(e.value), ..a }
    } else if suffix == "tokenHelper"@ || suffix == "token-helper"@ {
        if trusted && e.token_helper is Some {
            AuthModel { token_helper: e.token_helper, ..a }
        } else {
            a
        }
    } else if suffix == "ca"@ || suffix == "ca[]"@ {
        AuthModel { tls: TlsModel { ca: a.tls.ca.push(e.pem), ..a.tls }, ..a }
    } else if suffix == "cafile"@ || suffix == "caFile"@ {
        AuthModel { tls: TlsModel { cafile: Some(e.value), ..a.tls }, ..a }
    } else if suffix == "cert"@ {
        AuthModel { tls: TlsModel { cert: Some(e.pem), ..a.tls }, ..a }
    } else if suffix == "key"@ {
        AuthModel { tls: TlsModel { key: Some(e.pem), ..a.tls }, ..a }
    } else {
        a
    }
}

/// The credentials that a map holds under a key.
pub open spec fn auth_at(m: Map<Seq<char>, AuthModel>, key: Seq<char>) -> AuthModel {
    if m.contains_key(key) {
        m[key]
    } else {
        AuthModel::empty()
    }
}

/// The configuration after one more entry.
pub open spec fn applied(c: ConfigModel, source: NpmrcSource, e: EntryModel) -> ConfigModel {
    let trusted = source.is_trusted();
    match setting_of(e.key) {
        Setting::Registry => ConfigModel { registry: registry_url::with_slash(e.value), ..c },
        Setting::AuthToken => ConfigModel { global_auth_token: Some(e.value), ..c },
        Setting::HttpsProxy => if trusted {
            ConfigModel { https_proxy: non_empty_text(e.value), ..c }
        } else {
            c
        },
        Setting::HttpProxy => if trusted {
            ConfigModel { http_proxy: non_empty_text(e.value), ..c }
        } else {
            c
        },
        Setting::Proxy => if trusted {
            ConfigModel { npmrc_proxy: non_empty_text(e.value), ..c }
        } else {
            c
        },
        Setting::NoProxy => if trusted {
            ConfigModel { no_proxy: non_empty_text(e.value), ..c }
        } else {
            c
        },
        Setting::StrictSsl => match e.flag {
            Some(b) => if b || trusted {
                ConfigModel { strict_ssl: b, ..c }
            } else {
                c
            },
            None => c,
        },
        Setting::LocalAddress => if e.address is Some {
            ConfigModel { local_address: e.address, ..c }
        } else {
            c
        },
        Setting::MaxSockets => match text::decimal(text::trimmed(e.value)) {
            Some(n) => if 0 < n <= usize::MAX {
                ConfigModel { max_sockets: Some(n as usize), ..c }
            } else {
                c
            },
            None => c,
        },
        Setting::CaFile => ConfigModel { cafile: Some(e.value), ..c },
        Setting::Ca => ConfigModel { ca: c.ca.push(e.pem), ..c },
        Setting::ScopedRegistry => {
            let scope = text::before_suffix(e.key, ":registry"@)->0;
            if text::begins_with(scope, "@"@) {
                ConfigModel {
                    scoped_registries: c.scoped_registries.insert(
                        text::lowercased(scope),
                        registry_url::with_slash(e.value),
                    ),
                    ..c
                }
            } else {
                c
            }
        },
        Setting::ForUri => match text::split_at_last(e.key, ':') {
            Some((uri, suffix)) => {
                let key = registry_url::npmrc_key(uri);
                ConfigModel {
                    auth_by_uri: c.auth_by_uri.insert(
                        key,
                        auth_applied(auth_at(c.auth_by_uri, key), trusted, suffix, e),
                    ),
                    ..c
                }
            },
            None => c,
        },
        Setting::Unknown => c,
    }
}

/// Why an entry is not taken over, where the user is to hear of it.
#[derive(Debug, Clone, Copy, PartialEq, Eq, Structural)]
pub enum Ignored {
    /// A project's own `.npmrc` sets a proxy.
    UntrustedProxy,
    /// A project's own `.npmrc` turns TLS validation off.
    UntrustedStrictSslDisable,
    /// A project's own `.npmrc` sets a token helper.
    UntrustedTokenHelper,
    /// A token helper is not a bare absolute path.
    InvalidTokenHelper,
    /// A local address is none.
    InvalidLocalAddress,
    /// A limit of no sockets.
    NoMaxSockets,
    /// A limit of sockets is no number.
    InvalidMaxSockets,
}

/// Whether a key is that of a token helper for one registry.
pub open spec fn sets_token_helper(key: Seq<char>) -> bool {
    setting_of(key) == Setting::ForUri && match text::split_at_last(key, ':') {
        Some((_, suffix)) => suffix == "tokenHelper"@ || suffix == "token-helper"@,
        None => false,
    }
}

/// Why an entry is not taken over. What the registry client does not know is passed over
/// without a word, and so is a `strict-ssl` that is neither true nor false.
pub open spec fn ignored_for(source: NpmrcSource, e: EntryModel) -> Option<Ignored> {
    let trusted = source.is_trusted();
    match setting_of(e.key) {
        Setting::HttpsProxy | Setting::HttpProxy | Setting::Proxy | Setting::NoProxy => {
            if trusted {
                None
            } else {
                Some(Ignored::UntrustedProxy)
            }
        },
        Setting::StrictSsl => if e.flag == Some(false) && !trusted {
            Some(Ignored::UntrustedStrictSslDisable)
        } else {
            None
        },
        Setting::LocalAddress => if e.address is Some {
            None
        } else {
            Some(Ignored::InvalidLocalAddress)
        },
        Setting::MaxSockets => match text::decimal(text::trimmed(e.value)) {
            Some(n) => if n > usize::MAX {
                Some(Ignored::InvalidMaxSockets)
            } else if n > 0 {
                None
            } else {
                Some(Ignored::NoMaxSockets)
            },
            None => Some(Ignored::InvalidMaxSockets),
        },
        Setting::ForUri => if !sets_token_helper(e.key) {
            None
        } else if !trusted {
            Some(Ignored::UntrustedTokenHelper)
        } else if e.token_helper is None {
            Some(Ignored::InvalidTokenHelper)
        } else {
            None
        },
        _ => None,
    }
}

/// The configuration after a list of entries, in order.
pub open spec fn applied_all(
    c: ConfigModel,
    entries: Seq<(NpmrcSource, EntryModel)>,
) -> ConfigModel
    decreases entries.len(),
{
    if entries.len() == 0 {
        c
    } else {
        applied(
            applied_all(c, entries.drop_last()),
            entries.last().0,
            entries.last().1,
        )
    }
}

/// The contents of a list of entries with their sources.
pub open spec fn tagged_views(entries: Seq<(NpmrcSource, NpmrcEntry)>) -> Seq<
    (NpmrcSource, EntryModel),
> {
    Seq::new(entries.len(), |i: int| (entries[i].0, entries[i].1@))
}

fn setting_for(key: &str) -> (r: Setting)
    ensures
        r == setting_of(key@),
{
    if text::same_text(key, "registry") {
        Setting::Registry
    } else if text::same_text(key, "_authToken") {
        Setting::AuthToken
    } else if text::same_text(key, "https-proxy") || text::same_text(key, "httpsProxy") {
        Setting::HttpsProxy
    } else if text::same_text(key, "http-proxy") || text::same_text(key, "httpProxy") {
        Setting::HttpProxy
    } else if text::same_text(key, "proxy") {
        Setting::Proxy
    } else if text::same_text(key, "noproxy") || text::same_text(key, "noProxy")
        || text::same_text(key, "no-proxy") {
        Setting::NoProxy
    } else if text::same_text(key, "strict-ssl") || text::same_text(key, "strictSsl") {
        Setting::StrictSsl
    } else if text::same_text(key, "local-address") || text::same_text(key, "localAddress") {
        Setting::LocalAddress
    } else if text::same_text(key, "maxsockets") {
        Setting::MaxSockets
    } else if text::same_text(key, "cafile") || text::same_text(key, "caFile") {
        Setting::CaFile
    } else if text::same_text(key, "ca") || text::same_text(key, "ca[]") {
        Setting::Ca
    } else if text::ends_with(key, ":registry") {
        Setting::ScopedRegistry
    } else if text::starts_with(key, "//") {
        Setting::ForUri
    } else {
        Setting::Unknown
    }
}

/// `value`, unless it is empty.
fn non_empty(value: String) -> (r: Option<String>)
    ensures
        text::view_opt(r) == non_empty_text(value@),
{
    if text::to_chars(value.as_str()).len() == 0 {
        None
    } else {
        Some(value)
    }
}

/// Why an entry is not taken over, if the user is to hear of it.
pub fn ignored_reason(source: NpmrcSource, entry: &NpmrcEntry) -> (r: Option<Ignored>)
    ensures
        r == ignored_for(source, entry@),
{
    let trusted = source.is_trusted_for_subprocess_settings();
    match setting_for(entry.key.as_str()) {
        Setting::HttpsProxy | Setting::HttpProxy | Setting::Proxy | Setting::NoProxy => {
            if trusted {
                None
            } else {
                Some(Ignored::UntrustedProxy)
            }
        },
        Setting::StrictSsl => match entry.reading.flag {
            Some(b) => {
                if !b && !trusted {
                    Some(Ignored::UntrustedStrictSslDisable)
                } else {
                    None
                }
            },
            None => None,
        },
        Setting::LocalAddress => {
            if entry.reading.address.is_some() {
                None
            } else {
                Some(Ignored::InvalidLocalAddress)
            }
        },
        Setting::MaxSockets => {
            let t = text::trim(entry.value.as_str());
            match text::parse_usize(t.as_str()) {
                Some(n) => {
                    if n > 0 {
                        None
                    } else {
                        Some(Ignored::NoMaxSockets)
                    }
                },
                None => Some(Ignored::InvalidMaxSockets),
            }
        },
        Setting::ForUri => match text::rsplit_once(entry.key.as_str(), ':') {
            Some((_, suffix)) => {
                if !text::same_text(suffix.as_str(), "tokenHelper") && !text::same_text(
                    suffix.as_str(),
                    "token-helper",
                ) {
                    None
                } else if !trusted {
                    Some(Ignored::UntrustedTokenHelper)
                } else if entry.reading.token_helper.is_none() {
                    Some(Ignored::InvalidTokenHelper)
                } else {
                    None
                }
            },
            None => None,
        },
        _ => None,
    }
}

impl AuthConfig {
    /// Takes over an entry `//host/path/:suffix=value`.
    fn apply_suffix(&mut self, trusted: bool, suffix: &str, entry: NpmrcEntry)
        ensures
            final(self)@ == auth_applied(old(self)@, trusted, suffix@, entry@),
    {
        if text::same_text(suffix, "_authToken") {
            self.auth_token = Some(entry.value);
        } else if text::same_text(suffix, "_auth") {
            self.auth = Some(entry.value);
        } else if text::same_text(suffix, "username") {
            self.username = Some(entry.value);
        } else if text::same_text(suffix, "_password") {
            self.password = Some(entry.value);
        } else if text::same_text(suffix, "tokenHelper") || text::same_text(
            suffix,
            "token-helper",
        ) {
            if trusted {
                if let Some(helper) = entry.reading.token_helper {
                    self.token_helper = Some(helper);
                }
            }
        } else if text::same_text(suffix, "ca") || text::same_text(suffix, "ca[]") {
            let ghost before = self.tls.ca@;
            self.tls.ca.push(entry.reading.pem);
            assert(text::views(self.tls.ca@) == text::views(before).push(entry.reading.pem@));
        } else if text::same_text(suffix, "cafile") || text::same_text(suffix, "caFile") {
            self.tls.cafile = Some(entry.value);
        } else if text::same_text(suffix, "cert") {
            self.tls.cert = Some(entry.reading.pem);
        } else if text::same_text(suffix, "key") {
            self.tls.key = Some(entry.reading.pem);
        }
    }
}

impl NpmConfig {
    /// Takes over one entry.
    fn apply_entry(&mut self, source: NpmrcSource, entry: NpmrcEntry)
        ensures
            final(self)@ == applied(old(self)@, source, entry@),
    {
        let trusted = source.is_trusted_for_subprocess_settings();
        match setting_for(entry.key.as_str()) {
            Setting::Registry => {
                self.registry = registry_url::normalize_registry_url(entry.value.as_str());
            },
            Setting::AuthToken => {
                self.global_auth_token = Some(entry.value);
            },
            Setting::HttpsProxy => {
                if trusted {
                    self.https_proxy = non_empty(entry.value);
                }
            },
            Setting::HttpProxy => {
                if trusted {
                    self.http_proxy = non_empty(entry.value);
                }
            },
            Setting::Proxy => {
                if trusted {
                    self.npmrc_proxy = non_empty(entry.value);
                }
            },
            Setting::NoProxy => {
                if trusted {
                    self.no_proxy = non_empty(entry.value);
                }
            },
            Setting::StrictSsl => {
                if let Some(b) = entry.reading.flag {
                    if b || trusted {
                        self.strict_ssl = b;
                    }
                }
            },
            Setting::LocalAddress => {
                if let Some(address) = entry.reading.address {
                    self.local_address = Some(address);
                }
            },
            Setting::MaxSockets => {
                let t = text::trim(entry.value.as_str());
                if let Some(n) = text::parse_usize(t.as_str()) {
                    if n > 0 {
                        self.max_sockets = Some(n);
                    }
                }
            },
            Setting::CaFile => {
                self.cafile = Some(entry.value);
            },
            Setting::Ca => {
                let ghost before = self.ca@;
                self.ca.push(entry.reading.pem);
                assert(text::views(self.ca@) == text::views(before).push(entry.reading.pem@));
            },
            Setting::ScopedRegistry => {
                if let Some(scope) = text::strip_suffix(entry.key.as_str(), ":registry") {
                    if text::starts_with(scope.as_str(), "@") {
                        let scope = text::to_lowercase(scope.as_str());
                        self.set_scoped_registry(scope, entry.value.as_str());
                    }
                }
            },
            Setting::ForUri => {
                if let Some((uri, suffix)) = text::rsplit_once(entry.key.as_str(), ':') {
                    let key = registry_url::normalize_npmrc_uri_key(uri.as_str());
                    let ghost before = self.auth_by_uri@;
                    let mut auth = match self.auth_by_uri.remove(key.as_str()) {
                        Some(auth) => auth,
                        None => AuthConfig::default(),
                    };
                    assert(auth@ == auth_at(auth_values(before), key@));
                    auth.apply_suffix(trusted, suffix.as_str(), entry);
                    let ghost k = key@;
                    let ghost a = auth;
                    self.auth_by_uri.insert(key, auth);
                    assert(auth_values(self.auth_by_uri@) =~= auth_values(before).insert(k, a@));
                }
            },
            Setting::Unknown => {},
        }
    }

    /// Takes over entries in order; later ones win.
    ///
    /// An entry of the project's own `.npmrc` cannot set a proxy or a token helper, and
    /// cannot turn TLS validation off.
    pub fn apply_tagged(&mut self, entries: Vec<(NpmrcSource, NpmrcEntry)>)
        ensures
            final(self)@ == applied_all(old(self)@, tagged_views(entries@)),
    {
        let ghost all = tagged_views(entries@);
        for entry in it: entries
            invariant
                it.seq() == entries@,
                all == tagged_views(entries@),
                self@ == applied_all(old(self)@, all.take(it.index())),
        {
            proof {
                assert(all.take(it.index() + 1).drop_last() == all.take(it.index()));
                assert(all.take(it.index() + 1).last() == (entry.0, entry.1@));
            }
            self.apply_entry(entry.0, entry.1);
        }
        assert(all.take(all.len() as int) == all);
    }

    /// Takes over entries of the user's own `.npmrc`.
    pub fn apply(&mut self, entries: Vec<NpmrcEntry>)
        ensures
            final(self)@ == applied_all(
                old(self)@,
                Seq::new(entries@.len(), |i: int| (NpmrcSource::User, entries@[i]@)),
            ),
    {
        let ghost all = entries@;
        let mut tagged: Vec<(NpmrcSource, NpmrcEntry)> = Vec::new();
        for entry in it: entries
            invariant
                it.seq() == all,
                tagged@.len() == it.index(),
                forall|i: int|
                    0 <= i < tagged@.len() ==> #[trigger] tagged@[i] == (NpmrcSource::User, all[i]),
        {
            tagged.push((NpmrcSource::User, entry));
        }
        assert(tagged_views(tagged@) == Seq::new(
            all.len(),
            |i: int| (NpmrcSource::User, all[i]@),
        ));
        self.apply_tagged(tagged);
    }
}

/// The first of two optional texts that is there.
pub open spec fn first_of(a: Option<Seq<char>>, b: Option<Seq<char>>) -> Option<Seq<char>> {
    if a is Some {
        a
    } else {
        b
    }
}

/// The value of the first of two variables that is set and not blank.
pub open spec fn either_set(
    a: Seq<char>,
    b: Seq<char>,
    env: Map<Seq<char>, String>,
) -> Option<Seq<char>> {
    env::first_set(seq![a, b], 0, env)
}

/// The proxies after the environment has filled the gaps.
pub open spec fn with_proxy_env(c: ConfigModel, env: Map<Seq<char>, String>) -> ConfigModel {
    let https = first_of(
        first_of(c.https_proxy, c.npmrc_proxy),
        either_set("HTTPS_PROXY"@, "https_proxy"@, env),
    );
    let http = first_of(
        first_of(
            first_of(c.http_proxy, https),
            either_set("HTTP_PROXY"@, "http_proxy"@, env),
        ),
        either_set("PROXY"@, "proxy"@, env),
    );
    let no = first_of(c.no_proxy, either_set("NO_PROXY"@, "no_proxy"@, env));
    ConfigModel { https_proxy: https, http_proxy: http, no_proxy: no, ..c }
}

/// The registry that a package comes from: that of its scope, or the default one.
pub open spec fn registry_of(c: ConfigModel, name: Seq<char>) -> Seq<char> {
    match registry_url::scope_of(name) {
        Some(scope) => registry_of_scope(c, text::lowercased(scope)),
        None => c.registry,
    }
}

/// The registry that serves a scope, which is written in lower case.
pub open spec fn registry_of_scope(c: ConfigModel, scope: Seq<char>) -> Seq<char> {
    if c.scoped_registries.contains_key(scope) {
        c.scoped_registries[scope]
    } else {
        c.registry
    }
}

/// The credentials and settings that apply to a registry URL.
pub open spec fn auth_for(c: ConfigModel, url: Seq<char>) -> Option<AuthModel> {
    registry_url::looked_up(c.auth_by_uri, registry_url::uri_key(url))
}

/// The bytes `username:password`.
pub open spec fn user_pass(username: Seq<char>, password: Seq<u8>) -> Seq<u8> {
    vstd::utf8::encode_utf8(username) + seq![0x3au8] + password
}

/// The value of the `Basic` authorization header: `_auth` as it stands, else the encoded
/// pair of the user name and the password, which the configuration holds encoded.
pub open spec fn basic_auth(a: AuthModel) -> Option<Seq<char>> {
    if a.auth is Some {
        a.auth
    } else if a.username is Some && a.password is Some {
        match base64_text::base64_bytes(a.password->0) {
            Some(password) => Some(base64_text::base64_text(user_pass(a.username->0, password))),
            None => None,
        }
    } else {
        None
    }
}

/// The bytes `username:password`.
pub fn credentials(username: &str, password: &Vec<u8>) -> (raw: Vec<u8>)
    ensures
        raw@ == user_pass(username@, password@),
{
    let mut raw: Vec<u8> = Vec::new();
    raw.extend_from_slice(username.as_bytes());
    raw.push(0x3au8);
    raw.extend_from_slice(password.as_slice());
    assert(raw@ == user_pass(username@, password@));
    raw
}

/// The value of the first of two variables that is set and not blank.
fn either_env(a: &str, b: &str, env: &TextMap<String>) -> (r: Option<String>)
    ensures
        text::view_opt(r) == either_set(a@, b@, env@),
{
    let names = [a, b];
    assert(env::names_of(names@) == seq![a@, b@]);
    env::env_any(names.as_slice(), env)
}

/// An owned copy of an optional text.
fn copy_opt(s: &Option<String>) -> (r: Option<String>)
    ensures
        text::view_opt(r) == text::view_opt(*s),
{
    match s {
        Some(t) => Some(t.clone()),
        None => None,
    }
}

impl NpmConfig {
    /// Fills in the registries of scopes that have one out of the box, as far as nothing
    /// else was configured for them.
    pub fn apply_builtin_scoped_defaults(&mut self)
        ensures
            final(self)@ == (if old(self)@.scoped_registries.contains_key(JSR_NPM_SCOPE@) {
                old(self)@
            } else {
                ConfigModel {
                    scoped_registries: old(self)@.scoped_registries.insert(
                        JSR_NPM_SCOPE@,
                        JSR_DEFAULT_REGISTRY@,
                    ),
                    ..old(self)@
                }
            }),
    {
        if !self.scoped_registries.contains_key(JSR_NPM_SCOPE) {
            let ghost before = self.scoped_registries@;
            let url = JSR_DEFAULT_REGISTRY.to_owned();
            let ghost u = url@;
            self.scoped_registries.insert(JSR_NPM_SCOPE.to_owned(), url);
            assert(text_values(self.scoped_registries@) =~= text_values(before).insert(
                JSR_NPM_SCOPE@,
                u,
            ));
        }
    }

    /// Fills in the proxies that no entry has set, in the order of precedence of the
    /// sources: the HTTPS proxy falls back to `proxy=` and then to `HTTPS_PROXY`, the HTTP
    /// proxy to the resolved HTTPS proxy, then to `HTTP_PROXY` and `PROXY`. Each variable
    /// counts in upper and in lower case.
    pub fn apply_proxy_env(&mut self, env: &TextMap<String>)
        ensures
            final(self)@ == with_proxy_env(old(self)@, env@),
    {
        if self.https_proxy.is_none() {
            self.https_proxy = match copy_opt(&self.npmrc_proxy) {
                Some(p) => Some(p),
                None => either_env("HTTPS_PROXY", "https_proxy", env),
            };
        }
        if self.http_proxy.is_none() {
            self.http_proxy = match copy_opt(&self.https_proxy) {
                Some(p) => Some(p),
                None => match either_env("HTTP_PROXY", "http_proxy", env) {
                    Some(p) => Some(p),
                    None => either_env("PROXY", "proxy", env),
                },
            };
        }
        if self.no_proxy.is_none() {
            self.no_proxy = either_env("NO_PROXY", "no_proxy", env);
        }
    }

    /// The URL of the registry that a package comes from.
    pub fn registry_for(&self, package_name: &str) -> (r: &str)
        ensures
            r@ == registry_of(self@, package_name@),
    {
        if let Some(scope) = registry_url::package_scope(package_name) {
            let scope = text::to_lowercase(scope.as_str());
            return self.registry_for_scope(scope.as_str());
        }
        self.registry.as_str()
    }

    /// The URL of the registry that serves a scope, which is written in lower case: its own,
    /// or the default one.
    pub fn registry_for_scope(&self, scope: &str) -> (r: &str)
        ensures
            r@ == registry_of_scope(self@, scope@),
    {
        match self.scoped_registries.get(scope) {
            Some(url) => url.as_str(),
            None => self.registry.as_str(),
        }
    }

    /// Sets the URL of the registry that serves a scope, which is written in lower case.
    pub fn set_scoped_registry(&mut self, scope: String, url: &str)
        ensures
            final(self)@ == (ConfigModel {
                scoped_registries: old(self)@.scoped_registries.insert(
                    scope@,
                    registry_url::with_slash(url@),
                ),
                ..old(self)@
            }),
    {
        let url = registry_url::normalize_registry_url(url);
        let ghost before = self.scoped_registries@;
        let ghost u = url;
        let ghost k = scope@;
        self.scoped_registries.insert(scope, url);
        assert(text_values(self.scoped_registries@) =~= text_values(before).insert(k, u@));
    }

    /// Whether a package comes from the public npm registry.
    pub fn is_public_npmjs(&self, package_name: &str) -> (r: bool)
        ensures
            r == registry_url::is_public(registry_of(self@, package_name@)),
    {
        registry_url::is_public_npmjs_url(self.registry_for(package_name))
    }

    /// The credentials and settings that apply to a registry URL.
    pub fn registry_config_for(&self, registry_url: &str) -> (r: Option<&AuthConfig>)
        ensures
            match r {
                Some(a) => auth_for(self@, registry_url@) == Some(a@),
                None => auth_for(self@, registry_url@) is None,
            },
    {
        let key = registry_url::registry_uri_key(registry_url);
        let r = registry_url::lookup_by_uri_prefix(&self.auth_by_uri, key.as_str());
        proof {
            lemma_looked_up_values(self.auth_by_uri@, key@);
        }
        r
    }

    /// The token for a registry URL: its own, or that of the default registry.
    pub fn auth_token_for(&self, registry_url: &str) -> (r: Option<&str>)
        ensures
            match r {
                Some(t) => token_for(self@, registry_url@) == Some(t@),
                None => token_for(self@, registry_url@) is None,
            },
    {
        if let Some(auth) = self.registry_config_for(registry_url) {
            if let Some(token) = &auth.auth_token {
                return Some(token.as_str());
            }
        }
        match &self.global_auth_token {
            Some(token) => Some(token.as_str()),
            None => None,
        }
    }

    /// The token helper for a registry URL.
    pub fn token_helper_for(&self, registry_url: &str) -> (r: Option<&str>)
        ensures
            match r {
                Some(h) => helper_for(self@, registry_url@) == Some(h@),
                None => helper_for(self@, registry_url@) is None,
            },
    {
        match self.registry_config_for(registry_url) {
            Some(auth) => match &auth.token_helper {
                Some(helper) => Some(helper.as_str()),
                None => None,
            },
            None => None,
        }
    }

    /// The value of the `Basic` authorization header for a registry URL.
    pub fn basic_auth_for(&self, registry_url: &str) -> (r: Option<String>)
        ensures
            text::view_opt(r) == basic_auth_for_url(self@, registry_url@),
    {
        let auth = match self.registry_config_for(registry_url) {
            Some(auth) => auth,
            None => {
                return None;
            },
        };
        if let Some(a) = &auth.auth {
            return Some(a.clone());
        }
        match (&auth.username, &auth.password) {
            (Some(username), Some(password)) => match base64_text::base64_decode(
                password.as_str(),
            ) {
                Some(decoded) => {
                    proof {
                        base64_text::encoded_bytes_are_read_back(decoded@);
                    }
                    Some(base64_text::base64_encode(&credentials(username.as_str(), &decoded)))
                },
                None => None,
            },
            _ => None,
        }
    }
}

/// The token for a registry URL: its own, or that of the default registry.
pub open spec fn token_for(c: ConfigModel, url: Seq<char>) -> Option<Seq<char>> {
    match auth_for(c, url) {
        Some(a) => first_of(a.auth_token, c.global_auth_token),
        None => c.global_auth_token,
    }
}

/// The token helper for a registry URL.
pub open spec fn helper_for(c: ConfigModel, url: Seq<char>) -> Option<Seq<char>> {
    match auth_for(c, url) {
        Some(a) => a.token_helper,
        None => None,
    }
}

/// The value of the `Basic` authorization header for a registry URL.
pub open spec fn basic_auth_for_url(c: ConfigModel, url: Seq<char>) -> Option<Seq<char>> {
    match auth_for(c, url) {
        Some(a) => basic_auth(a),
        None => None,
    }
}

proof fn lemma_looked_up_values(m: Map<Seq<char>, AuthConfig>, uri: Seq<char>)
    ensures
        match registry_url::looked_up(m, uri) {
            Some(a) => registry_url::looked_up(auth_values(m), uri) == Some(a@),
            None => registry_url::looked_up(auth_values(m), uri) is None,
        },
{
    assert(auth_values(m).dom() =~= m.dom());
}

/// The header made from a user name and an encoded password encodes the name and the password
/// itself.
pub proof fn encoded_password_reaches_the_header(a: AuthModel, password: Seq<u8>)
    requires
        a.auth is None,
        a.username is Some,
        a.password == Some(base64_text::base64_text(password)),
    ensures
        basic_auth(a) == Some(base64_text::base64_text(user_pass(a.username->0, password))),
{
    base64_text::encoded_bytes_are_read_back(password);
}

/// Applying one list of entries after another is applying both as one list: entries from a
/// later source override those of earlier ones.
pub proof fn later_entries_are_applied_on_top(
    c: ConfigModel,
    a: Seq<(NpmrcSource, EntryModel)>,
    b: Seq<(NpmrcSource, EntryModel)>,
)
    ensures
        applied_all(c, a + b) == applied_all(applied_all(c, a), b),
    decreases b.len(),
{
    if b.len() == 0 {
        assert(a + b == a);
    } else {
        assert((a + b).drop_last() == a + b.drop_last());
        assert((a + b).last() == b.last());
        later_entries_are_applied_on_top(c, a, b.drop_last());
    }
}

/// The last `registry` entry decides on the default registry.
pub proof fn last_registry_wins(
    c: ConfigModel,
    entries: Seq<(NpmrcSource, EntryModel)>,
    i: int,
)
    requires
        0 <= i < entries.len(),
        setting_of(entries[i].1.key) == Setting::Registry,
        forall|j: int|
            i < j < entries.len() ==> setting_of(#[trigger] entries[j].1.key) != Setting::Registry,
    ensures
        applied_all(c, entries).registry == registry_url::with_slash(entries[i].1.value),
    decreases entries.len(),
{
    if i < entries.len() - 1 {
        let front = entries.drop_last();
        assert(setting_of(entries[entries.len() - 1].1.key) != Setting::Registry);
        assert forall|j: int| i < j < front.len() implies setting_of(#[trigger] front[j].1.key)
            != Setting::Registry by {
            assert(setting_of(entries[j].1.key) != Setting::Registry);
        }
        last_registry_wins(c, front, i);
    }
}

/// Whatever a project's own `.npmrc` says, it sets no proxy and no token helper, and it does
/// not turn TLS validation off.
pub proof fn project_entries_cannot_change_guarded_settings(
    c: ConfigModel,
    entries: Seq<(NpmrcSource, EntryModel)>,
)
    requires
        forall|i: int| 0 <= i < entries.len() ==> #[trigger] entries[i].0 == NpmrcSource::Project,
    ensures
        applied_all(c, entries).https_proxy == c.https_proxy,
        applied_all(c, entries).http_proxy == c.http_proxy,
        applied_all(c, entries).npmrc_proxy == c.npmrc_proxy,
        applied_all(c, entries).no_proxy == c.no_proxy,
        c.strict_ssl ==> applied_all(c, entries).strict_ssl,
        forall|k: Seq<char>| #[trigger]
            auth_at(applied_all(c, entries).auth_by_uri, k).token_helper == auth_at(
                c.auth_by_uri,
                k,
            ).token_helper,
    decreases entries.len(),
{
    if entries.len() > 0 {
        let front = entries.drop_last();
        assert forall|i: int| 0 <= i < front.len() implies #[trigger] front[i].0
            == NpmrcSource::Project by {
            assert(entries[i].0 == NpmrcSource::Project);
        }
        project_entries_cannot_change_guarded_settings(c, front);
        let mid = applied_all(c, front);
        assert(entries[entries.len() - 1].0 == NpmrcSource::Project);
        assert forall|k: Seq<char>| #[trigger]
            auth_at(applied_all(c, entries).auth_by_uri, k).token_helper == auth_at(
                c.auth_by_uri,
                k,
            ).token_helper by {
            assert(auth_at(mid.auth_by_uri, k).token_helper == auth_at(
                c.auth_by_uri,
                k,
            ).token_helper);
        }
    }
}

proof fn lemma_helper_suffixes()
    ensures
        "tokenHelper"@ != "_authToken"@ && "token-helper"@ != "_authToken"@,
        "tokenHelper"@ != "_auth"@ && "token-helper"@ != "_auth"@,
        "tokenHelper"@ != "username"@ && "token-helper"@ != "username"@,
        "tokenHelper"@ != "_password"@ && "token-helper"@ != "_password"@,
{
    reveal_strlit("tokenHelper");
    reveal_strlit("token-helper");
    reveal_strlit("_authToken");
    reveal_strlit("_auth");
    reveal_strlit("username");
    reveal_strlit("_password");
    assert("tokenHelper"@[0] == 't' && "token-helper"@[0] == 't');
    assert("_authToken"@[0] == '_' && "_auth"@[0] == '_' && "username"@[0] == 'u'
        && "_password"@[0] == '_');
}

/// An entry that is refused with a reason sets nothing: no setting changes, and no registry
/// has other credentials than before.
pub proof fn ignored_entries_set_nothing(c: ConfigModel, source: NpmrcSource, e: EntryModel)
    requires
        ignored_for(source, e) is Some,
    ensures
        applied(c, source, e) == (ConfigModel {
            auth_by_uri: applied(c, source, e).auth_by_uri,
            ..c
        }),
        !sets_token_helper(e.key) ==> applied(c, source, e) == c,
        forall|k: Seq<char>| #[trigger]
            auth_at(applied(c, source, e).auth_by_uri, k) == auth_at(c.auth_by_uri, k),
{
    lemma_helper_suffixes();
}

/// An entry for a setting that can be refused is taken over where no reason is given.
pub proof fn other_entries_are_taken_over(c: ConfigModel, source: NpmrcSource, e: EntryModel)
    requires
        ignored_for(source, e) is None,
    ensures
        setting_of(e.key) == Setting::HttpsProxy ==> applied(c, source, e).https_proxy
            == non_empty_text(e.value),
        setting_of(e.key) == Setting::HttpProxy ==> applied(c, source, e).http_proxy
            == non_empty_text(e.value),
        setting_of(e.key) == Setting::Proxy ==> applied(c, source, e).npmrc_proxy
            == non_empty_text(e.value),
        setting_of(e.key) == Setting::NoProxy ==> applied(c, source, e).no_proxy
            == non_empty_text(e.value),
        setting_of(e.key) == Setting::StrictSsl && e.flag is Some ==> applied(
            c,
            source,
            e,
        ).strict_ssl == e.flag->0,
        setting_of(e.key) == Setting::LocalAddress ==> e.address is Some && applied(
            c,
            source,
            e,
        ).local_address == e.address,
        setting_of(e.key) == Setting::MaxSockets ==> applied(c, source, e).max_sockets is Some
            && text::decimal(text::trimmed(e.value)) == Some(
            applied(c, source, e).max_sockets->0 as nat,
        ),
        sets_token_helper(e.key) ==> (match text::split_at_last(e.key, ':') {
            Some((uri, _)) => e.token_helper is Some && auth_at(
                applied(c, source, e).auth_by_uri,
                registry_url::npmrc_key(uri),
            ).token_helper == e.token_helper,
            None => false,
        }),
{
    lemma_helper_suffixes();
}

/// A `@scope:registry` entry serves the packages of that scope, in whatever case the scope
/// is written.
pub proof fn scoped_registry_serves_its_scope(
    c: ConfigModel,
    source: NpmrcSource,
    e: EntryModel,
    name: Seq<char>,
)
    requires
        setting_of(e.key) == Setting::ScopedRegistry,
        text::begins_with(text::before_suffix(e.key, ":registry"@)->0, "@"@),
        registry_url::scope_of(name) is Some,
        text::lowercased(registry_url::scope_of(name)->0) == text::lowercased(
            text::before_suffix(e.key, ":registry"@)->0,
        ),
    ensures
        registry_of(applied(c, source, e), name) == registry_url::with_slash(e.value),
{
}

/// An `//host/path/:_authToken` entry sets the token of the registry at that place, and of
/// no registry for which there are settings of its own.
pub proof fn uri_token_is_used_at_its_place(
    c: ConfigModel,
    source: NpmrcSource,
    e: EntryModel,
    uri: Seq<char>,
    url: Seq<char>,
)
    requires
        setting_of(e.key) == Setting::ForUri,
        text::split_at_last(e.key, ':') == Some((uri, "_authToken"@)),
    ensures
        registry_url::uri_key(url) == registry_url::npmrc_key(uri) ==> token_for(
            applied(c, source, e),
            url,
        ) == Some(e.value),
        registry_url::uri_key(url) != registry_url::npmrc_key(uri) && c.auth_by_uri.contains_key(
            registry_url::uri_key(url),
        ) ==> token_for(applied(c, source, e), url) == token_for(c, url),
{
}

/// One `https-proxy` line is enough for both kinds of requests; an HTTP proxy is never used
/// for HTTPS; and what is configured is not overridden by the environment.
pub proof fn proxy_precedence(c: ConfigModel, env: Map<Seq<char>, String>)
    ensures
        c.https_proxy is Some && c.http_proxy is None ==> with_proxy_env(c, env).http_proxy
            == c.https_proxy,
        c.https_proxy is None && c.npmrc_proxy is None && either_set(
            "HTTPS_PROXY"@,
            "https_proxy"@,
            env,
        ) is None ==> with_proxy_env(c, env).https_proxy is None,
        c.https_proxy is Some ==> with_proxy_env(c, env).https_proxy == c.https_proxy,
        c.http_proxy is Some ==> with_proxy_env(c, env).http_proxy == c.http_proxy,
        c.no_proxy is Some ==> with_proxy_env(c, env).no_proxy == c.no_proxy,
{
}

/// What each key is the key of.
proof fn lemma_keys_of_settings()
    ensures
        setting_of("registry"@) == Setting::Registry,
        setting_of("_authToken"@) == Setting::AuthToken,
        setting_of("https-proxy"@) == Setting::HttpsProxy,
        setting_of("httpsProxy"@) == Setting::HttpsProxy,
        setting_of("http-proxy"@) == Setting::HttpProxy,
        setting_of("httpProxy"@) == Setting::HttpProxy,
        setting_of("proxy"@) == Setting::Proxy,
        setting_of("noproxy"@) == Setting::NoProxy,
        setting_of("noProxy"@) == Setting::NoProxy,
        setting_of("no-proxy"@) == Setting::NoProxy,
        setting_of("strict-ssl"@) == Setting::StrictSsl,
        setting_of("strictSsl"@) == Setting::StrictSsl,
        setting_of("local-address"@) == Setting::LocalAddress,
        setting_of("localAddress"@) == Setting::LocalAddress,
        setting_of("maxsockets"@) == Setting::MaxSockets,
        setting_of("cafile"@) == Setting::CaFile,
        setting_of("caFile"@) == Setting::CaFile,
        setting_of("ca"@) == Setting::Ca,
        setting_of("ca[]"@) == Setting::Ca,
{
    reveal_strlit("registry");
    reveal_strlit("_authToken");
    reveal_strlit("https-proxy");
    reveal_strlit("httpsProxy");
    reveal_strlit("http-proxy");
    reveal_strlit("httpProxy");
    reveal_strlit("proxy");
    reveal_strlit("noproxy");
    reveal_strlit("noProxy");
    reveal_strlit("no-proxy");
    reveal_strlit("strict-ssl");
    reveal_strlit("strictSsl");
    reveal_strlit("local-address");
    reveal_strlit("localAddress");
    reveal_strlit("maxsockets");
    reveal_strlit("cafile");
    reveal_strlit("caFile");
    reveal_strlit("ca");
    reveal_strlit("ca[]");
    assert("registry"@.len() == 8);
    assert("_authToken"@.len() == 10);
    assert("https-proxy"@.len() == 11);
    assert("httpsProxy"@.len() == 10);
    assert("http-proxy"@.len() == 10);
    assert("httpProxy"@.len() == 9);
    assert("proxy"@.len() == 5);
    assert("noproxy"@.len() == 7);
    assert("noProxy"@.len() == 7);
    assert("no-proxy"@.len() == 8);
    assert("strict-ssl"@.len() == 10);
    assert("strictSsl"@.len() == 9);
    assert("local-address"@.len() == 13);
    assert("localAddress"@.len() == 12);
    assert("maxsockets"@.len() == 10);
    assert("cafile"@.len() == 6);
    assert("caFile"@.len() == 6);
    assert("ca"@.len() == 2);
    assert("ca[]"@.len() == 4);
    assert("registry"@[0] != "no-proxy"@[0]);
    assert("_authToken"@[0] != "httpsProxy"@[0]);
    assert("_authToken"@[0] != "http-proxy"@[0]);
    assert("_authToken"@[0] != "strict-ssl"@[0]);
    assert("_authToken"@[0] != "maxsockets"@[0]);
    assert("httpsProxy"@[4] != "http-proxy"@[4]);
    assert("httpsProxy"@[0] != "strict-ssl"@[0]);
    assert("httpsProxy"@[0] != "maxsockets"@[0]);
    assert("http-proxy"@[0] != "strict-ssl"@[0]);
    assert("http-proxy"@[0] != "maxsockets"@[0]);
    assert("httpProxy"@[0] != "strictSsl"@[0]);
    assert("noproxy"@[2] != "noProxy"@[2]);
    assert("strict-ssl"@[0] != "maxsockets"@[0]);
    assert("cafile"@[2] != "caFile"@[2]);
}

proof fn lemma_other_keys(key: Seq<char>)
    requires
        key.len() > 0 && key[0] == '/' || key.len() >= 9 && key[key.len() - 9] == ':',
    ensures
        key != "registry"@,
        key != "_authToken"@,
        key != "https-proxy"@,
        key != "httpsProxy"@,
        key != "http-proxy"@,
        key != "httpProxy"@,
        key != "proxy"@,
        key != "noproxy"@,
        key != "noProxy"@,
        key != "no-proxy"@,
        key != "strict-ssl"@,
        key != "strictSsl"@,
        key != "local-address"@,
        key != "localAddress"@,
        key != "maxsockets"@,
        key != "cafile"@,
        key != "caFile"@,
        key != "ca"@,
        key != "ca[]"@,
{
    reveal_strlit("registry");
    reveal_strlit("_authToken");
    reveal_strlit("https-proxy");
    reveal_strlit("httpsProxy");
    reveal_strlit("http-proxy");
    reveal_strlit("httpProxy");
    reveal_strlit("proxy");
    reveal_strlit("noproxy");
    reveal_strlit("noProxy");
    reveal_strlit("no-proxy");
    reveal_strlit("strict-ssl");
    reveal_strlit("strictSsl");
    reveal_strlit("local-address");
    reveal_strlit("localAddress");
    reveal_strlit("maxsockets");
    reveal_strlit("cafile");
    reveal_strlit("caFile");
    reveal_strlit("ca");
    reveal_strlit("ca[]");
    assert("registry"@.len() == 8);
    assert("_authToken"@.len() == 10);
    assert("https-proxy"@.len() == 11);
    assert("httpsProxy"@.len() == 10);
    assert("http-proxy"@.len() == 10);
    assert("httpProxy"@.len() == 9);
    assert("proxy"@.len() == 5);
    assert("noproxy"@.len() == 7);
    assert("noProxy"@.len() == 7);
    assert("no-proxy"@.len() == 8);
    assert("strict-ssl"@.len() == 10);
    assert("strictSsl"@.len() == 9);
    assert("local-address"@.len() == 13);
    assert("localAddress"@.len() == 12);
    assert("maxsockets"@.len() == 10);
    assert("cafile"@.len() == 6);
    assert("caFile"@.len() == 6);
    assert("ca"@.len() == 2);
    assert("ca[]"@.len() == 4);
    assert("registry"@[0] != '/');
    assert("_authToken"@[1] != ':');
    assert("_authToken"@[0] != '/');
    assert("https-proxy"@[2] != ':');
    assert("https-proxy"@[0] != '/');
    assert("httpsProxy"@[1] != ':');
    assert("httpsProxy"@[0] != '/');
    assert("http-proxy"@[1] != ':');
    assert("http-proxy"@[0] != '/');
    assert("httpProxy"@[0] != ':');
    assert("httpProxy"@[0] != '/');
    assert("proxy"@[0] != '/');
    assert("noproxy"@[0] != '/');
    assert("noProxy"@[0] != '/');
    assert("no-proxy"@[0] != '/');
    assert("strict-ssl"@[1] != ':');
    assert("strict-ssl"@[0] != '/');
    assert("strictSsl"@[0] != ':');
    assert("strictSsl"@[0] != '/');
    assert("local-address"@[4] != ':');
    assert("local-address"@[0] != '/');
    assert("localAddress"@[3] != ':');
    assert("localAddress"@[0] != '/');
    assert("maxsockets"@[1] != ':');
    assert("maxsockets"@[0] != '/');
    assert("cafile"@[0] != '/');
    assert("caFile"@[0] != '/');
    assert("ca"@[0] != '/');
    assert("ca[]"@[0] != '/');
}

/// Each key sets its own setting and no other one. Proxies are set and TLS validation is turned
/// off by a file of the user or of the machine alone; an empty proxy is none; a limit of
/// sockets is a number above zero; and what cannot be read changes nothing.
pub proof fn keys_set_their_own_settings(c: ConfigModel, source: NpmrcSource, e: EntryModel)
    ensures
        e.key == "registry"@ ==> applied(c, source, e) == (ConfigModel {
            registry: if e.value.len() > 0 && e.value.last() == '/' {
                e.value
            } else {
                e.value.push('/')
            },
            ..c
        }),
        e.key == "_authToken"@ ==> applied(c, source, e) == (ConfigModel {
            global_auth_token: Some(e.value),
            ..c
        }),
        e.key == "https-proxy"@ || e.key == "httpsProxy"@ ==> applied(c, source, e) == (
        ConfigModel {
            https_proxy: if source == NpmrcSource::Project {
                c.https_proxy
            } else if e.value.len() == 0 {
                None
            } else {
                Some(e.value)
            },
            ..c
        }),
        e.key == "http-proxy"@ || e.key == "httpProxy"@ ==> applied(c, source, e) == (ConfigModel {
            http_proxy: if source == NpmrcSource::Project {
                c.http_proxy
            } else if e.value.len() == 0 {
                None
            } else {
                Some(e.value)
            },
            ..c
        }),
        e.key == "proxy"@ ==> applied(c, source, e) == (ConfigModel {
            npmrc_proxy: if source == NpmrcSource::Project {
                c.npmrc_proxy
            } else if e.value.len() == 0 {
                None
            } else {
                Some(e.value)
            },
            ..c
        }),
        e.key == "noproxy"@ || e.key == "noProxy"@ || e.key == "no-proxy"@ ==> applied(
            c,
            source,
            e,
        ) == (ConfigModel {
            no_proxy: if source == NpmrcSource::Project {
                c.no_proxy
            } else if e.value.len() == 0 {
                None
            } else {
                Some(e.value)
            },
            ..c
        }),
        e.key == "strict-ssl"@ || e.key == "strictSsl"@ ==> applied(c, source, e) == (ConfigModel {
            strict_ssl: if e.flag == Some(true) {
                true
            } else if e.flag == Some(false) && source != NpmrcSource::Project {
                false
            } else {
                c.strict_ssl
            },
            ..c
        }),
        e.key == "local-address"@ || e.key == "localAddress"@ ==> applied(c, source, e) == (
        ConfigModel {
            local_address: if e.address is Some {
                e.address
            } else {
                c.local_address
            },
            ..c
        }),
        e.key == "maxsockets"@ && text::decimal(text::trimmed(e.value)) is Some && 0
            < text::decimal(text::trimmed(e.value))->0 <= usize::MAX ==> applied(c, source, e) == (
        ConfigModel {
            max_sockets: Some(text::decimal(text::trimmed(e.value))->0 as usize),
            ..c
        }),
        e.key == "maxsockets"@ && (text::decimal(text::trimmed(e.value)) is None || text::decimal(
            text::trimmed(e.value),
        )->0 == 0 || text::decimal(text::trimmed(e.value))->0 > usize::MAX) ==> applied(c, source, e)
            == c,
        e.key == "cafile"@ || e.key == "caFile"@ ==> applied(c, source, e) == (ConfigModel {
            cafile: Some(e.value),
            ..c
        }),
        e.key == "ca"@ || e.key == "ca[]"@ ==> applied(c, source, e) == (ConfigModel {
            ca: c.ca.push(e.pem),
            ..c
        }),
{
    lemma_keys_of_settings();
    registry_url::registries_end_in_a_slash(e.value);
}

/// `@scope:registry` sets the registry of the scope, written in lower case, and of no other
/// one; a key of that form without the `@` sets nothing.
pub proof fn scopes_have_their_own_registries(
    c: ConfigModel,
    source: NpmrcSource,
    e: EntryModel,
    scope: Seq<char>,
)
    requires
        e.key == scope + ":registry"@,
    ensures
        scope.len() > 0 && scope[0] == '@' ==> applied(c, source, e) == (ConfigModel {
            scoped_registries: c.scoped_registries.insert(
                text::lowercased(scope),
                if e.value.len() > 0 && e.value.last() == '/' {
                    e.value
                } else {
                    e.value.push('/')
                },
            ),
            ..c
        }),
        scope.len() == 0 || scope[0] != '@' ==> applied(c, source, e) == c,
{
    reveal_strlit(":registry");
    reveal_strlit("@");
    assert(":registry"@.len() == 9 && ":registry"@[0] == ':');
    assert(e.key[e.key.len() - 9] == ':');
    lemma_other_keys(e.key);
    text::beginnings_and_ends_are_cut_off(scope, ":registry"@, scope, "@"@);
    if scope.len() > 0 {
        assert(scope.take(1)[0] == scope[0]);
        if scope[0] == '@' {
            assert(scope.take(1) == "@"@);
        }
    }
    registry_url::registries_end_in_a_slash(e.value);
}

/// An entry `//host/path/:suffix` sets one thing for the registry of that key and leaves the
/// rest as it was, for it and for every other registry. A token helper is set by a file of
/// the user or of the machine alone, and only where it is the path of one.
pub proof fn registries_have_their_own_credentials(
    c: ConfigModel,
    source: NpmrcSource,
    e: EntryModel,
    uri: Seq<char>,
    suffix: Seq<char>,
)
    requires
        e.key == uri + seq![':'] + suffix,
        uri.len() >= 2 && uri[0] == '/' && uri[1] == '/',
        !suffix.contains(':'),
        suffix != "registry"@,
    ensures
        ({
            let k = registry_url::npmrc_key(uri);
            let before = if c.auth_by_uri.contains_key(k) {
                c.auth_by_uri[k]
            } else {
                AuthModel::empty()
            };
            let result = applied(c, source, e);
            let after = result.auth_by_uri[k];
            &&& result == (ConfigModel { auth_by_uri: c.auth_by_uri.insert(k, after), ..c })
            &&& suffix == "_authToken"@ ==> after == (AuthModel {
                auth_token: Some(e.value),
                ..before
            })
            &&& suffix == "_auth"@ ==> after == (AuthModel { auth: Some(e.value), ..before })
            &&& suffix == "username"@ ==> after == (AuthModel { username: Some(e.value), ..before })
            &&& suffix == "_password"@ ==> after == (AuthModel {
                password: Some(e.value),
                ..before
            })
            &&& suffix == "tokenHelper"@ || suffix == "token-helper"@ ==> after == (AuthModel {
                token_helper: if source != NpmrcSource::Project && e.token_helper is Some {
                    e.token_helper
                } else {
                    before.token_helper
                },
                ..before
            })
            &&& suffix == "ca"@ || suffix == "ca[]"@ ==> after == (AuthModel {
                tls: TlsModel { ca: before.tls.ca.push(e.pem), ..before.tls },
                ..before
            })
            &&& suffix == "cafile"@ || suffix == "caFile"@ ==> after == (AuthModel {
                tls: TlsModel { cafile: Some(e.value), ..before.tls },
                ..before
            })
            &&& suffix == "cert"@ ==> after == (AuthModel {
                tls: TlsModel { cert: Some(e.pem), ..before.tls },
                ..before
            })
            &&& suffix == "key"@ ==> after == (AuthModel {
                tls: TlsModel { key: Some(e.pem), ..before.tls },
                ..before
            })
            &&& suffix != "_authToken"@ && suffix != "_auth"@ && suffix != "username"@ && suffix
                != "_password"@ && suffix != "tokenHelper"@ && suffix != "token-helper"@ && suffix
                != "ca"@ && suffix != "ca[]"@ && suffix != "cafile"@ && suffix != "caFile"@ && suffix
                != "cert"@ && suffix != "key"@ ==> after == before
        }),
{
    reveal_strlit(":registry");
    reveal_strlit("registry");
    reveal_strlit("//");
    let key = e.key;
    assert(key[0] == '/' && key[1] == '/');
    lemma_other_keys(key);
    assert(key.take(2) == "//"@);
    assert(!text::finishes_with(key, ":registry"@)) by {
        if text::finishes_with(key, ":registry"@) {
            let tail = key.skip(key.len() - 9);
            assert(tail[0] == ':');
            assert(key[key.len() - 9] == ':');
            if suffix.len() > 8 {
                let i = suffix.len() - 9;
                assert(suffix[i] == key[key.len() - 9]);
                assert(suffix.contains(suffix[i]));
            } else if suffix.len() < 8 {
                let i = 8 - suffix.len();
                assert(key[uri.len() as int] == ':');
                assert(tail[i] == ':');
                assert(":registry"@[1] != ':' && ":registry"@[2] != ':' && ":registry"@[3] != ':'
                    && ":registry"@[4] != ':' && ":registry"@[5] != ':' && ":registry"@[6] != ':'
                    && ":registry"@[7] != ':' && ":registry"@[8] != ':');
            } else {
                assert(suffix == "registry"@) by {
                    assert forall|i: int| 0 <= i < 8 implies suffix[i] == "registry"@[i] by {
                        assert(tail[i + 1] == suffix[i]);
                        assert(":registry"@[i + 1] == "registry"@[i]);
                    }
                }
            }
        }
    }
    text::the_last_separator_splits(uri, ':', suffix);
    lemma_suffixes();
}

proof fn lemma_suffixes()
    ensures
        "_authToken"@ != "_auth"@,
        "_authToken"@ != "username"@,
        "_authToken"@ != "_password"@,
        "_authToken"@ != "tokenHelper"@,
        "_authToken"@ != "token-helper"@,
        "_authToken"@ != "ca"@,
        "_authToken"@ != "ca[]"@,
        "_authToken"@ != "cafile"@,
        "_authToken"@ != "caFile"@,
        "_authToken"@ != "cert"@,
        "_authToken"@ != "key"@,
        "_auth"@ != "username"@,
        "_auth"@ != "_password"@,
        "_auth"@ != "tokenHelper"@,
        "_auth"@ != "token-helper"@,
        "_auth"@ != "ca"@,
        "_auth"@ != "ca[]"@,
        "_auth"@ != "cafile"@,
        "_auth"@ != "caFile"@,
        "_auth"@ != "cert"@,
        "_auth"@ != "key"@,
        "username"@ != "_password"@,
        "username"@ != "tokenHelper"@,
        "username"@ != "token-helper"@,
        "username"@ != "ca"@,
        "username"@ != "ca[]"@,
        "username"@ != "cafile"@,
        "username"@ != "caFile"@,
        "username"@ != "cert"@,
        "username"@ != "key"@,
        "_password"@ != "tokenHelper"@,
        "_password"@ != "token-helper"@,
        "_password"@ != "ca"@,
        "_password"@ != "ca[]"@,
        "_password"@ != "cafile"@,
        "_password"@ != "caFile"@,
        "_password"@ != "cert"@,
        "_password"@ != "key"@,
        "tokenHelper"@ != "token-helper"@,
        "tokenHelper"@ != "ca"@,
        "tokenHelper"@ != "ca[]"@,
        "tokenHelper"@ != "cafile"@,
        "tokenHelper"@ != "caFile"@,
        "tokenHelper"@ != "cert"@,
        "tokenHelper"@ != "key"@,
        "token-helper"@ != "ca"@,
        "token-helper"@ != "ca[]"@,
        "token-helper"@ != "cafile"@,
        "token-helper"@ != "caFile"@,
        "token-helper"@ != "cert"@,
        "token-helper"@ != "key"@,
        "ca"@ != "ca[]"@,
        "ca"@ != "cafile"@,
        "ca"@ != "caFile"@,
        "ca"@ != "cert"@,
        "ca"@ != "key"@,
        "ca[]"@ != "cafile"@,
        "ca[]"@ != "caFile"@,
        "ca[]"@ != "cert"@,
        "ca[]"@ != "key"@,
        "cafile"@ != "caFile"@,
        "cafile"@ != "cert"@,
        "cafile"@ != "key"@,
        "caFile"@ != "cert"@,
        "caFile"@ != "key"@,
        "cert"@ != "key"@,
{
    reveal_strlit("_authToken");
    reveal_strlit("_auth");
    reveal_strlit("username");
    reveal_strlit("_password");
    reveal_strlit("tokenHelper");
    reveal_strlit("token-helper");
    reveal_strlit("ca");
    reveal_strlit("ca[]");
    reveal_strlit("cafile");
    reveal_strlit("caFile");
    reveal_strlit("cert");
    reveal_strlit("key");
    assert("_authToken"@.len() == 10);
    assert("_auth"@.len() == 5);
    assert("username"@.len() == 8);
    assert("_password"@.len() == 9);
    assert("tokenHelper"@.len() == 11);
    assert("token-helper"@.len() == 12);
    assert("ca"@.len() == 2);
    assert("ca[]"@.len() == 4);
    assert("cafile"@.len() == 6);
    assert("caFile"@.len() == 6);
    assert("cert"@.len() == 4);
    assert("key"@.len() == 3);
    assert("ca[]"@[1] != "cert"@[1]);
    assert("cafile"@[2] != "caFile"@[2]);
}

/// No reason is needed for what is taken over; a proxy, a token helper and a TLS check turned
/// off are refused to a project's own file; and an address, a limit of sockets or a helper
/// that cannot be read is refused to every file.
pub proof fn refusals_have_their_reasons(source: NpmrcSource, e: EntryModel)
    ensures
        e.key == "https-proxy"@ || e.key == "httpsProxy"@ || e.key == "http-proxy"@ || e.key
            == "httpProxy"@ || e.key == "proxy"@ || e.key == "noproxy"@ || e.key == "noProxy"@
            || e.key == "no-proxy"@ ==> ignored_for(source, e) == (if source
            == NpmrcSource::Project {
            Some(Ignored::UntrustedProxy)
        } else {
            None
        }),
        e.key == "strict-ssl"@ || e.key == "strictSsl"@ ==> ignored_for(source, e) == (if source
            == NpmrcSource::Project && e.flag == Some(false) {
            Some(Ignored::UntrustedStrictSslDisable)
        } else {
            None
        }),
        e.key == "local-address"@ || e.key == "localAddress"@ ==> ignored_for(source, e) == (
        if e.address is None {
            Some(Ignored::InvalidLocalAddress)
        } else {
            None
        }),
        e.key == "maxsockets"@ ==> (ignored_for(source, e) == Some(Ignored::NoMaxSockets)
            <==> text::decimal(text::trimmed(e.value)) == Some(0nat)),
        e.key == "maxsockets"@ ==> (ignored_for(source, e) == Some(Ignored::InvalidMaxSockets)
            <==> text::decimal(text::trimmed(e.value)) is None || text::decimal(
            text::trimmed(e.value),
        )->0 > usize::MAX),
        e.key == "maxsockets"@ ==> (ignored_for(source, e) is None <==> text::decimal(
            text::trimmed(e.value),
        ) is Some && 0 < text::decimal(text::trimmed(e.value))->0 <= usize::MAX),
        e.key == "registry"@ || e.key == "_authToken"@ || e.key == "cafile"@ || e.key == "caFile"@
            || e.key == "ca"@ || e.key == "ca[]"@ ==> ignored_for(source, e) is None,
{
    lemma_keys_of_settings();
}

/// A token helper for one registry is refused to a project's own file, and to every file where
/// it is no path of one; the other settings of a registry are refused to none.
pub proof fn helpers_are_refused_with_their_reason(
    source: NpmrcSource,
    e: EntryModel,
    uri: Seq<char>,
    suffix: Seq<char>,
)
    requires
        e.key == uri + seq![':'] + suffix,
        uri.len() >= 2 && uri[0] == '/' && uri[1] == '/',
        !suffix.contains(':'),
    ensures
        suffix == "tokenHelper"@ || suffix == "token-helper"@ ==> ignored_for(source, e) == (
        if source == NpmrcSource::Project {
            Some(Ignored::UntrustedTokenHelper)
        } else if e.token_helper is None {
            Some(Ignored::InvalidTokenHelper)
        } else {
            None
        }),
        suffix != "tokenHelper"@ && suffix != "token-helper"@ ==> ignored_for(source, e) is None,
{
    reveal_strlit(":registry");
    reveal_strlit("tokenHelper");
    reveal_strlit("token-helper");
    reveal_strlit("//");
    let key = e.key;
    assert(key[0] == '/' && key[1] == '/');
    lemma_other_keys(key);
    assert(key.take(2) == "//"@);
    text::the_last_separator_splits(uri, ':', suffix);
    if suffix == "tokenHelper"@ || suffix == "token-helper"@ {
        assert(suffix.last() == 'r');
        assert(key.last() == 'r');
        assert(!text::finishes_with(key, ":registry"@)) by {
            if text::finishes_with(key, ":registry"@) {
                assert(key.skip(key.len() - 9)[8] == key.last());
            }
        }
    }
}

/// Entries are applied one after the other, the first one first.
pub proof fn entries_are_applied_in_order(
    c: ConfigModel,
    first: (NpmrcSource, EntryModel),
    rest: Seq<(NpmrcSource, EntryModel)>,
)
    ensures
        applied_all(c, Seq::empty()) == c,
        applied_all(c, seq![first] + rest) == applied_all(applied(c, first.0, first.1), rest),
{
    later_entries_are_applied_on_top(c, seq![first], rest);
    assert(seq![first].drop_last() == Seq::<(NpmrcSource, EntryModel)>::empty());
    assert(applied_all(c, seq![first].drop_last()) == c);
}

/// A package of a scope comes from the registry of the scope, in lower case, if it has one;
/// every other package comes from the default registry.
pub proof fn packages_come_from_the_registry_of_their_scope(
    c: ConfigModel,
    scope: Seq<char>,
    rest: Seq<char>,
    name: Seq<char>,
)
    requires
        !scope.contains('/'),
        name.len() == 0 || name[0] != '@' || !name.contains('/'),
    ensures
        ({
            let scoped = seq!['@'] + scope + seq!['/'] + rest;
            let key = text::lowercased(seq!['@'] + scope);
            &&& c.scoped_registries.contains_key(key) ==> registry_of(c, scoped)
                == c.scoped_registries[key]
            &&& !c.scoped_registries.contains_key(key) ==> registry_of(c, scoped) == c.registry
        }),
        registry_of(c, name) == c.registry,
{
    registry_url::scopes_stand_before_the_slash(scope, rest, name);
}

/// The token for a registry is its own; where it has none, that of the default registry. The
/// token helper is its own alone.
pub proof fn own_tokens_come_first(c: ConfigModel, url: Seq<char>)
    ensures
        ({
            let k = registry_url::uri_key(url);
            let own = registry_url::looked_up(c.auth_by_uri, k);
            &&& own is Some && own->0.auth_token is Some ==> token_for(c, url) == own->0.auth_token
            &&& own is None || own->0.auth_token is None ==> token_for(c, url)
                == c.global_auth_token
            &&& own is Some ==> helper_for(c, url) == own->0.token_helper
            &&& own is None ==> helper_for(c, url) is None && basic_auth_for_url(c, url) is None
            &&& own is Some ==> basic_auth_for_url(c, url) == basic_auth(own->0)
        }),
{
}

/// The `Basic` header is `_auth` where it is set. Else it encodes the user name, a colon and
/// the password, which is kept encoded; without one of the two, or with a password that is no
/// Base64 text, there is none.
pub proof fn basic_headers_name_user_and_password(a: AuthModel)
    ensures
        a.auth is Some ==> basic_auth(a) == a.auth,
        a.auth is None && (a.username is None || a.password is None) ==> basic_auth(a) is None,
        a.auth is None && a.password is Some && base64_text::base64_bytes(a.password->0) is None
            ==> basic_auth(a) is None,
        a.auth is None && a.username is Some && a.password is Some && base64_text::base64_bytes(
            a.password->0,
        ) is Some ==> basic_auth(a) is Some && base64_text::base64_bytes(basic_auth(a)->0) == Some(
            vstd::utf8::encode_utf8(a.username->0) + seq![58u8] + base64_text::base64_bytes(
                a.password->0,
            )->0,
        ),
{
    if a.auth is None && a.username is Some && a.password is Some {
        match base64_text::base64_bytes(a.password->0) {
            Some(p) => {
                base64_text::encoded_bytes_are_read_back(user_pass(a.username->0, p));
            },
            None => {},
        }
    }
}

/// Each proxy that is not configured comes from the next place that names one: the HTTPS proxy
/// from `proxy=`, then from its variable; the HTTP proxy from the HTTPS proxy so found, then
/// from its variable, then from the general one; the exceptions from their variable. In each
/// case the spelling in capitals comes first. Nothing else changes.
pub proof fn proxies_come_from_the_first_place_that_names_one(
    c: ConfigModel,
    env: Map<Seq<char>, String>,
)
    ensures
        ({
            let r = with_proxy_env(c, env);
            let https = env::first_set(seq!["HTTPS_PROXY"@, "https_proxy"@], 0, env);
            let http = env::first_set(seq!["HTTP_PROXY"@, "http_proxy"@], 0, env);
            let any = env::first_set(seq!["PROXY"@, "proxy"@], 0, env);
            let no = env::first_set(seq!["NO_PROXY"@, "no_proxy"@], 0, env);
            &&& r == (ConfigModel {
                https_proxy: r.https_proxy,
                http_proxy: r.http_proxy,
                no_proxy: r.no_proxy,
                ..c
            })
            &&& c.https_proxy is None && c.npmrc_proxy is Some ==> r.https_proxy == c.npmrc_proxy
            &&& c.https_proxy is None && c.npmrc_proxy is None ==> r.https_proxy == https
            &&& c.http_proxy is None && r.https_proxy is Some ==> r.http_proxy == r.https_proxy
            &&& c.http_proxy is None && r.https_proxy is None && http is Some ==> r.http_proxy
                == http
            &&& c.http_proxy is None && r.https_proxy is None && http is None ==> r.http_proxy
                == any
            &&& c.no_proxy is None ==> r.no_proxy == no
        }),
{
}

/// Where nothing was set for a registry there are no credentials and no TLS settings.
pub proof fn registries_start_without_settings(m: Map<Seq<char>, AuthModel>, key: Seq<char>)
    requires
        !m.contains_key(key),
    ensures
        ({
            let a = auth_at(m, key);
            &&& a.auth_token is None && a.auth is None && a.username is None && a.password is None
            &&& a.token_helper is None && a.tls.cafile is None
            &&& a.tls.cert is None && a.tls.key is None && a.tls.ca.len() == 0
        }),
{
}

/// The scope that has a registry out of the box is `@jsr`, in lower case, and its registry ends
/// in a slash like every other.
pub proof fn the_builtin_scope_is_jsr()
    ensures
        JSR_NPM_SCOPE@ == "@jsr"@,
        registry_url::with_slash(JSR_DEFAULT_REGISTRY@) == "https://npm.jsr.io/"@,
        JSR_DEFAULT_REGISTRY@ == "https://npm.jsr.io/"@,
{
    reveal_strlit("https://npm.jsr.io/");
    assert("https://npm.jsr.io/"@.last() == '/');
    registry_url::registries_end_in_a_slash("https://npm.jsr.io/"@);
}

/// A key that is none of those of the registry client sets nothing, and is passed over without
/// a word; neither does one that begins like the key of a registry and names no setting.
pub proof fn other_keys_set_nothing(c: ConfigModel, source: NpmrcSource, e: EntryModel)
    requires
        !text::finishes_with(e.key, ":registry"@),
        text::begins_with(e.key, "//"@) ==> !e.key.contains(':'),
        e.key != "registry"@,
        e.key != "_authToken"@,
        e.key != "https-proxy"@,
        e.key != "httpsProxy"@,
        e.key != "http-proxy"@,
        e.key != "httpProxy"@,
        e.key != "proxy"@,
        e.key != "noproxy"@,
        e.key != "noProxy"@,
        e.key != "no-proxy"@,
        e.key != "strict-ssl"@,
        e.key != "strictSsl"@,
        e.key != "local-address"@,
        e.key != "localAddress"@,
        e.key != "maxsockets"@,
        e.key != "cafile"@,
        e.key != "caFile"@,
        e.key != "ca"@,
        e.key != "ca[]"@,
    ensures
        applied(c, source, e) == c,
        ignored_for(source, e) is None,
{
    if text::begins_with(e.key, "//"@) {
        text::the_last_separator_splits(e.key, ':', e.key);
    }
}

} // verus!

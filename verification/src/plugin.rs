//! The Tribler source: its configuration and the requests it makes of the
//! Tribler core.

use vstd::prelude::*;

use crate::item;
use crate::number;
use crate::number::write_u64;
use crate::text;
use crate::text::{
    blank, chars_of, owned, push_str, string_of, trimmed_string, without_suffix, CharClass,
};
use crate::url;
use crate::url::urlencode;

verus! {

/// Base URL of the Tribler core where none is configured.
pub const DEFAULT_SIDECAR_URL: &'static str = "http://tribler-instance:8085";

/// Timeout of the search requests, in seconds.
pub const HTTP_TIMEOUT_SECS: u64 = 30;

/// Timeout of a file list request while resolving, in seconds.
pub const METAINFO_TIMEOUT_SECS: u64 = 60;

/// Timeout of a file list request while searching, in seconds.
pub const SEARCH_METAINFO_PROBE_SECS: u64 = 8;

/// Events that a search may have under way.
pub const STREAM_BUFFER: usize = 256;

/// The editable configuration. A blank value counts as absent.
#[derive(Debug)]
pub struct TriblerConfigFile {
    /// Root of the meta-core that records are published to.
    pub meta_core_url: Option<String>,
    /// Base URL of the Tribler core.
    pub sidecar_url: Option<String>,
    /// Key for the Tribler core.
    pub api_key: Option<String>,
    /// Key for TMDB.
    pub tmdb_api_key: Option<String>,
    /// Language of TMDB metadata.
    pub tmdb_language: Option<String>,
}

/// What a [`TriblerConfigFile`] holds.
#[verifier::ext_equal]
pub struct ConfigView {
    pub meta_core_url: Option<Seq<char>>,
    pub sidecar_url: Option<Seq<char>>,
    pub api_key: Option<Seq<char>>,
    pub tmdb_api_key: Option<Seq<char>>,
    pub tmdb_language: Option<Seq<char>>,
}

impl View for TriblerConfigFile {
    type V = ConfigView;

    open spec fn view(&self) -> ConfigView {
        ConfigView {
            meta_core_url: item::text_of(self.meta_core_url),
            sidecar_url: item::text_of(self.sidecar_url),
            api_key: item::text_of(self.api_key),
            tmdb_api_key: item::text_of(self.tmdb_api_key),
            tmdb_language: item::text_of(self.tmdb_language),
        }
    }
}

/// The empty configuration.
pub open spec fn no_config() -> ConfigView {
    ConfigView {
        meta_core_url: None,
        sidecar_url: None,
        api_key: None,
        tmdb_api_key: None,
        tmdb_language: None,
    }
}

impl Default for TriblerConfigFile {
    fn default() -> (r: Self)
        ensures
            r@ == no_config(),
    {
        TriblerConfigFile {
            meta_core_url: None,
            sidecar_url: None,
            api_key: None,
            tmdb_api_key: None,
            tmdb_language: None,
        }
    }
}

/// The Tribler source.
#[derive(Debug)]
pub struct TriblerPlugin {
    pub sidecar_url: String,
    pub api_key: Option<String>,
    /// The configuration in force, as it is shown.
    pub cfg: TriblerConfigFile,
    /// The source was configured: its cache is open.
    pub ready: bool,
}

/// What a [`TriblerPlugin`] holds.
#[verifier::ext_equal]
pub struct PluginView {
    pub sidecar_url: Seq<char>,
    pub api_key: Option<Seq<char>>,
    pub cfg: ConfigView,
    pub ready: bool,
}

impl View for TriblerPlugin {
    type V = PluginView;

    open spec fn view(&self) -> PluginView {
        PluginView {
            sidecar_url: self.sidecar_url@,
            api_key: item::text_of(self.api_key),
            cfg: self.cfg@,
            ready: self.ready,
        }
    }
}

/// The value unless it is blank.
pub open spec fn unless_blank(v: Option<Seq<char>>) -> Option<Seq<char>> {
    match v {
        Some(s) => if text::is_blank(s) {
            None
        } else {
            v
        },
        None => None,
    }
}

/// The source after `cfg` was applied: values that are not blank take the place
/// of those in force.
pub open spec fn configured(p: PluginView, cfg: ConfigView) -> PluginView {
    let sidecar_url = match unless_blank(cfg.sidecar_url) {
        Some(u) => u,
        None => p.sidecar_url,
    };
    let api_key = match unless_blank(cfg.api_key) {
        Some(k) => Some(k),
        None => p.api_key,
    };
    PluginView {
        sidecar_url,
        api_key,
        cfg: ConfigView {
            meta_core_url: unless_blank(cfg.meta_core_url),
            sidecar_url: Some(sidecar_url),
            api_key,
            tmdb_api_key: unless_blank(cfg.tmdb_api_key),
            tmdb_language: unless_blank(cfg.tmdb_language),
        },
        ready: p.ready,
    }
}

/// The source as it is made: at the given URL, without a key, not yet
/// configured.
pub open spec fn unconfigured(sidecar_url: Seq<char>) -> PluginView {
    PluginView { sidecar_url, api_key: None, cfg: no_config(), ready: false }
}

fn copied(v: &Option<String>) -> (r: Option<String>)
    ensures
        item::text_of(r) == item::text_of(*v),
{
    match v {
        Some(s) => Some(owned(s.as_str())),
        None => None,
    }
}

fn not_blank(v: &Option<String>) -> (r: Option<String>)
    ensures
        item::text_of(r) == unless_blank(item::text_of(*v)),
{
    match v {
        Some(s) => if blank(s.as_str()) {
            None
        } else {
            Some(owned(s.as_str()))
        },
        None => None,
    }
}

impl Clone for TriblerConfigFile {
    fn clone(&self) -> (r: Self)
        ensures
            r@ == self@,
    {
        TriblerConfigFile {
            meta_core_url: copied(&self.meta_core_url),
            sidecar_url: copied(&self.sidecar_url),
            api_key: copied(&self.api_key),
            tmdb_api_key: copied(&self.tmdb_api_key),
            tmdb_language: copied(&self.tmdb_language),
        }
    }
}

impl Clone for TriblerPlugin {
    fn clone(&self) -> (r: Self)
        ensures
            r@ == self@,
    {
        TriblerPlugin {
            sidecar_url: owned(self.sidecar_url.as_str()),
            api_key: copied(&self.api_key),
            cfg: self.cfg.clone(),
            ready: self.ready,
        }
    }
}

impl Default for TriblerPlugin {
    fn default() -> (r: Self)
        ensures
            r@ == unconfigured(DEFAULT_SIDECAR_URL@),
    {
        TriblerPlugin::new()
    }
}

/// The base URL without trailing slashes.
pub open spec fn base_of(sidecar_url: Seq<char>) -> Seq<char> {
    text::trim_end(sidecar_url, CharClass::Slash)
}

impl TriblerPlugin {
    /// The source at the default URL, without a key.
    pub fn new() -> (r: Self)
        ensures
            r@ == unconfigured(DEFAULT_SIDECAR_URL@),
    {
        TriblerPlugin::with_sidecar_url(owned(DEFAULT_SIDECAR_URL))
    }

    /// The source at the given URL, without a key.
    pub fn with_sidecar_url(sidecar_url: String) -> (r: Self)
        ensures
            r@ == unconfigured(sidecar_url@),
    {
        TriblerPlugin { sidecar_url, api_key: None, cfg: TriblerConfigFile::default(), ready: false }
    }

    /// Sets the base URL.
    pub fn set_sidecar_url(&mut self, url: String)
        ensures
            final(self)@ == changed(old(self)@, Change::SidecarUrl(url@)),
    {
        self.sidecar_url = url;
    }

    /// Sets the key.
    pub fn set_api_key(&mut self, key: String)
        ensures
            final(self)@ == changed(old(self)@, Change::ApiKey(key@)),
    {
        self.api_key = Some(key);
    }

    /// Applies a configuration.
    pub fn apply_config(&mut self, cfg: &TriblerConfigFile)
        ensures
            final(self)@ == configured(old(self)@, cfg@),
    {
        if let Some(u) = not_blank(&cfg.sidecar_url) {
            self.sidecar_url = u;
        }
        if let Some(k) = not_blank(&cfg.api_key) {
            self.api_key = Some(k);
        }
        self.cfg = TriblerConfigFile {
            meta_core_url: not_blank(&cfg.meta_core_url),
            sidecar_url: Some(owned(self.sidecar_url.as_str())),
            api_key: copied(&self.api_key),
            tmdb_api_key: not_blank(&cfg.tmdb_api_key),
            tmdb_language: not_blank(&cfg.tmdb_language),
        };
    }

    /// Configures the source; `opened` tells whether its cache could be opened. The
    /// configuration applies either way, and the source is ready from the first
    /// time on that the cache was opened.
    pub fn configure(&mut self, cfg: &TriblerConfigFile, opened: bool)
        ensures
            final(self)@ == changed(old(self)@, Change::Configure { cfg: cfg@, opened }),
    {
        self.apply_config(cfg);
        if opened {
            self.ready = true;
        }
    }

    /// The state of the source: degraded until it was configured.
    pub fn health(&self) -> (r: PluginHealth)
        ensures
            r@ == health_of(self@),
    {
        if self.ready {
            PluginHealth::Good
        } else {
            PluginHealth::Degraded { reason: owned("configure() not yet called") }
        }
    }

    /// The base URL without trailing slashes.
    pub fn base(&self) -> (r: String)
        ensures
            r@ == base_of(self.sidecar_url@),
    {
        let cs = chars_of(self.sidecar_url.as_str());
        string_of(without_suffix(&cs, CharClass::Slash))
    }

    /// The value of the `X-Api-Key` header; no header where there is no key.
    pub fn api_key_header(&self) -> (r: Option<&str>)
        ensures
            (match r {
                Some(k) => Some(k@),
                None => None,
            }) == self@.api_key,
    {
        match &self.api_key {
            Some(k) => Some(k.as_str()),
            None => None,
        }
    }

    /// The URL of a search in the core's own database.
    pub fn local_search_url(&self, query: &str, max_results: usize) -> (r: String)
        ensures
            r@ == base_of(self.sidecar_url@) + "/api/metadata/search/local?fts_text="@
                + url::encoded(query@) + "&first=1&last="@ + number::decimal(max_results as nat),
    {
        let mut out = self.base();
        push_str(&mut out, "/api/metadata/search/local?fts_text=");
        push_str(&mut out, urlencode(query).as_str());
        push_str(&mut out, "&first=1&last=");
        push_str(&mut out, write_u64(max_results as u64).as_str());
        out
    }

    /// The URL that starts a search over the network.
    pub fn remote_search_url(&self, query: &str) -> (r: String)
        ensures
            r@ == base_of(self.sidecar_url@) + "/api/search/remote?fts_text="@ + url::encoded(
                query@,
            ),
    {
        let mut out = self.base();
        push_str(&mut out, "/api/search/remote?fts_text=");
        push_str(&mut out, urlencode(query).as_str());
        out
    }

    /// The URL of the event feed.
    pub fn events_url(&self) -> (r: String)
        ensures
            r@ == base_of(self.sidecar_url@) + "/api/events"@,
    {
        let mut out = self.base();
        push_str(&mut out, "/api/events");
        out
    }

    /// The URL that gives the file list of a magnet link.
    pub fn torrentinfo_url(&self) -> (r: String)
        ensures
            r@ == base_of(self.sidecar_url@) + "/api/torrentinfo/uri"@,
    {
        let mut out = self.base();
        push_str(&mut out, "/api/torrentinfo/uri");
        out
    }
}

/// A blank value never displaces one in force, and what is shown is what is in
/// force.
pub proof fn shown_config_is_in_force(p: PluginView, cfg: ConfigView)
    ensures
        configured(p, cfg).cfg.sidecar_url == Some(configured(p, cfg).sidecar_url),
        configured(p, cfg).cfg.api_key == configured(p, cfg).api_key,
        unless_blank(cfg.sidecar_url) is None ==> configured(p, cfg).sidecar_url == p.sidecar_url,
        unless_blank(cfg.api_key) is None ==> configured(p, cfg).api_key == p.api_key,
{
}

/// Applying a configuration twice is applying it once, and applying the
/// configuration that is shown changes nothing.
pub proof fn applying_config_is_idempotent(p: PluginView, cfg: ConfigView)
    ensures
        configured(configured(p, cfg), cfg) == configured(p, cfg),
        configured(configured(p, cfg), configured(p, cfg).cfg) == configured(p, cfg),
{
}

/// What the driver that publishes and enriches records is told of the
/// configuration.
#[derive(Debug)]
pub struct EnrichmentSettings {
    /// Root of the meta-core that records are published to.
    pub meta_core_url: Option<String>,
    pub tmdb_token: Option<String>,
    pub tmdb_language: Option<String>,
}

/// The settings of the driver under a configuration.
pub fn enrichment_settings(cfg: &TriblerConfigFile) -> (r: EnrichmentSettings)
    ensures
        item::text_of(r.meta_core_url) == (match unless_blank(cfg@.meta_core_url) {
            Some(u) => Some(text::trim(u)),
            None => None,
        }),
        item::text_of(r.tmdb_token) == unless_blank(cfg@.tmdb_api_key),
        item::text_of(r.tmdb_language) == unless_blank(cfg@.tmdb_language),
{
    EnrichmentSettings {
        meta_core_url: match &cfg.meta_core_url {
            Some(u) => if blank(u.as_str()) {
                None
            } else {
                Some(trimmed_string(u.as_str()))
            },
            None => None,
        },
        tmdb_token: not_blank(&cfg.tmdb_api_key),
        tmdb_language: not_blank(&cfg.tmdb_language),
    }
}

/// The settings under which the source publishes its records itself. Without a
/// meta-core to publish to there are none: publishing is skipped, and the
/// gateway stores the records that it is handed.
pub fn publisher_settings(cfg: &TriblerConfigFile) -> (r: Option<EnrichmentSettings>)
    ensures
        r is None <==> unless_blank(cfg@.meta_core_url) is None,
        r matches Some(s) ==> {
            &&& item::text_of(s.meta_core_url) == Some(
                text::trim(unless_blank(cfg@.meta_core_url)->0),
            )
            &&& item::text_of(s.tmdb_token) == unless_blank(cfg@.tmdb_api_key)
            &&& item::text_of(s.tmdb_language) == unless_blank(cfg@.tmdb_language)
        },
{
    let settings = enrichment_settings(cfg);
    if settings.meta_core_url.is_some() {
        Some(settings)
    } else {
        None
    }
}

/// The state of the source.
#[derive(Debug)]
pub enum PluginHealth {
    Good,
    Degraded { reason: String },
}

/// What a [`PluginHealth`] holds.
#[verifier::ext_equal]
pub enum HealthView {
    Good,
    Degraded { reason: Seq<char> },
}

impl View for PluginHealth {
    type V = HealthView;

    open spec fn view(&self) -> HealthView {
        match self {
            PluginHealth::Good => HealthView::Good,
            PluginHealth::Degraded { reason } => HealthView::Degraded { reason: reason@ },
        }
    }
}

/// The state of a source.
pub open spec fn health_of(p: PluginView) -> HealthView {
    if p.ready {
        HealthView::Good
    } else {
        HealthView::Degraded { reason: "configure() not yet called"@ }
    }
}

/// One change that is made to a source.
pub enum Change {
    /// [`TriblerPlugin::set_sidecar_url`].
    SidecarUrl(Seq<char>),
    /// [`TriblerPlugin::set_api_key`].
    ApiKey(Seq<char>),
    /// [`TriblerPlugin::apply_config`].
    Apply(ConfigView),
    /// [`TriblerPlugin::configure`].
    Configure { cfg: ConfigView, opened: bool },
}

/// The source after a change.
pub open spec fn changed(p: PluginView, change: Change) -> PluginView {
    match change {
        Change::SidecarUrl(url) => PluginView { sidecar_url: url, ..p },
        Change::ApiKey(key) => PluginView { api_key: Some(key), ..p },
        Change::Apply(cfg) => configured(p, cfg),
        Change::Configure { cfg, opened } => PluginView {
            ready: p.ready || opened,
            ..configured(p, cfg)
        },
    }
}

/// The source after a list of changes.
pub open spec fn changed_all(p: PluginView, changes: Seq<Change>) -> PluginView
    decreases changes.len(),
{
    if changes.len() == 0 {
        p
    } else {
        changed(changed_all(p, changes.drop_last()), changes.last())
    }
}

/// The change configures the source with success.
pub open spec fn succeeds(change: Change) -> bool {
    change matches Change::Configure { opened, .. } && opened
}

/// Whatever is done to a source after it was made, it is in good health exactly
/// if it was configured with success before; until then it says what it waits
/// for. Setting its URL or its key does not change that.
pub proof fn healthy_once_configured(url: Seq<char>, changes: Seq<Change>)
    ensures
        health_of(changed_all(unconfigured(url), changes)) == (if exists|i: int|
            0 <= i < changes.len() && succeeds(#[trigger] changes[i]) {
            HealthView::Good
        } else {
            HealthView::Degraded { reason: "configure() not yet called"@ }
        }),
    decreases changes.len(),
{
    if changes.len() > 0 {
        let init = changes.drop_last();
        healthy_once_configured(url, init);
        if exists|i: int| 0 <= i < init.len() && succeeds(#[trigger] init[i]) {
            let i = choose|i: int| 0 <= i < init.len() && succeeds(#[trigger] init[i]);
            assert(succeeds(changes[i]));
        } else {
            assert forall|i: int| 0 <= i < init.len() implies !succeeds(#[trigger] changes[i]) by {
                assert(!succeeds(init[i]));
            }
            assert(succeeds(changes.last()) ==> succeeds(changes[changes.len() - 1]));
        }
    }
}

/// What to do after a request for a file list.
#[derive(Clone, Copy, Debug, PartialEq, Eq, Structural)]
pub enum FetchStep {
    /// Read the reply.
    Read,
    /// Ask again after this many milliseconds.
    RetryAfter(u64),
    /// Do without a file list.
    GiveUp,
}

/// The step after request number `attempt`, counted from zero: a request that
/// could not be sent is made once more.
pub fn after_request(attempt: u8, sent: bool) -> (r: FetchStep)
    ensures
        r == (if sent {
            FetchStep::Read
        } else if attempt == 0 {
            FetchStep::RetryAfter(300)
        } else {
            FetchStep::GiveUp
        }),
{
    if sent {
        FetchStep::Read
    } else if attempt == 0 {
        FetchStep::RetryAfter(300)
    } else {
        FetchStep::GiveUp
    }
}

/// Help text of the field `meta_core_url`.
pub const META_CORE_URL_HELP: &'static str = "Storage backend this feeder publishes resolved records + TMDB posters to (e.g. http://metacore-app:9000). Required — blank means the feeder can't publish and soft-skips. Takes effect on the next feeder restart.";

/// Help text of the field `sidecar_url`.
pub const SIDECAR_URL_HELP: &'static str = "REST base URL of the headless Tribler core (e.g. http://tribler-instance:8085). Blank uses the built-in default. To open the Tribler web UI, use the \"\u{2197} Tribler UI\" link on this plugin's card in the gateway dashboard — it opens the gated /ui/ behind your single sign-on. Note: the `?key=` must come AFTER the `#` (the UI is a HashRouter; a key before the `#` is ignored and you get \"Failed to connect\"), and it must match the Core API key below.";

/// Help text of the field `api_key`.
pub const API_KEY_HELP: &'static str = "Tribler REST X-Api-Key. Matches the core's configured key (the dev sidecar uses `changeme`). Blank → no auth header.";

/// Help text of the field `tmdb_api_key`.
pub const TMDB_API_KEY_HELP: &'static str = "TMDB v3 API key or v4 bearer token, used to enrich resolved torrents with poster / overview / tmdbid. Pushed to the tmdb plugin at enrich time. Blank → falls back to the TMDB_TOKEN env seed, then TMDB enrichment soft-skips. Takes effect on the next feeder restart (no hot reload).";

/// Help text of the field `tmdb_language`.
pub const TMDB_LANGUAGE_HELP: &'static str = "TMDB metadata language tag — e.g. en-US, fr-FR, es-ES, ja-JP. Blank → TMDB_LANGUAGE env seed, then the default en-US. Takes effect on the next feeder restart.";

/// One field of the configuration form.
#[derive(Debug)]
pub struct ConfigField {
    pub key: &'static str,
    pub label: &'static str,
    /// The value is not to be shown.
    pub secret: bool,
    pub help: &'static str,
}

impl ConfigField {
    /// The field has these properties.
    pub open spec fn is(
        self,
        key: Seq<char>,
        label: Seq<char>,
        secret: bool,
        help: Seq<char>,
    ) -> bool {
        self.key@ == key && self.label@ == label && self.secret == secret && self.help@ == help
    }
}

/// The configuration form: one field for each value of [`TriblerConfigFile`],
/// with the two keys kept secret.
pub fn config_schema() -> (r: Vec<ConfigField>)
    ensures
        r@.len() == 5,
        r@[0].is("meta_core_url"@, "meta-core URL"@, false, META_CORE_URL_HELP@),
        r@[1].is("sidecar_url"@, "Tribler core URL"@, false, SIDECAR_URL_HELP@),
        r@[2].is("api_key"@, "Core API key"@, true, API_KEY_HELP@),
        r@[3].is("tmdb_api_key"@, "TMDB API key / v4 token"@, true, TMDB_API_KEY_HELP@),
        r@[4].is("tmdb_language"@, "TMDB language"@, false, TMDB_LANGUAGE_HELP@),
{
    let mut out: Vec<ConfigField> = Vec::new();
    out.push(
        ConfigField {
            key: "meta_core_url",
            label: "meta-core URL",
            secret: false,
            help: META_CORE_URL_HELP,
        },
    );
    out.push(
        ConfigField {
            key: "sidecar_url",
            label: "Tribler core URL",
            secret: false,
            help: SIDECAR_URL_HELP,
        },
    );
    out.push(
        ConfigField { key: "api_key", label: "Core API key", secret: true, help: API_KEY_HELP },
    );
    out.push(
        ConfigField {
            key: "tmdb_api_key",
            label: "TMDB API key / v4 token",
            secret: true,
            help: TMDB_API_KEY_HELP,
        },
    );
    out.push(
        ConfigField {
            key: "tmdb_language",
            label: "TMDB language",
            secret: false,
            help: TMDB_LANGUAGE_HELP,
        },
    );
    out
}

/// A value that is configured and not blank takes effect: the address and the key
/// at once, and all values in what is shown. A blank one is not shown, but for the
/// address and the key, which stay as they were.
pub proof fn configured_values_take_effect(p: PluginView, cfg: ConfigView)
    ensures
        ({
            let q = configured(p, cfg);
            let set = |v: Option<Seq<char>>| v is Some && !text::is_blank(v->0);
            &&& set(cfg.sidecar_url) ==> Some(q.sidecar_url) == cfg.sidecar_url
            &&& !set(cfg.sidecar_url) ==> q.sidecar_url == p.sidecar_url
            &&& set(cfg.api_key) ==> q.api_key == cfg.api_key
            &&& !set(cfg.api_key) ==> q.api_key == p.api_key
            &&& set(cfg.meta_core_url) ==> q.cfg.meta_core_url == cfg.meta_core_url
            &&& !set(cfg.meta_core_url) ==> q.cfg.meta_core_url is None
            &&& set(cfg.tmdb_api_key) ==> q.cfg.tmdb_api_key == cfg.tmdb_api_key
            &&& !set(cfg.tmdb_api_key) ==> q.cfg.tmdb_api_key is None
            &&& set(cfg.tmdb_language) ==> q.cfg.tmdb_language == cfg.tmdb_language
            &&& !set(cfg.tmdb_language) ==> q.cfg.tmdb_language is None
            &&& q.ready == p.ready
        }),
{
}

/// Each setting changes what it names and nothing else.
pub proof fn settings_change_what_they_name(p: PluginView, s: Seq<char>, cfg: ConfigView)
    ensures
        changed(p, Change::SidecarUrl(s)) == (PluginView { sidecar_url: s, ..p }),
        changed(p, Change::ApiKey(s)) == (PluginView { api_key: Some(s), ..p }),
        changed(p, Change::Configure { cfg, opened: true }).ready,
        changed(p, Change::Configure { cfg, opened: false }).ready == p.ready,
        changed(p, Change::Apply(cfg)).ready == p.ready,
        changed(p, Change::Configure { cfg, opened: true }).cfg == changed(
            p,
            Change::Apply(cfg),
        ).cfg,
        unconfigured(s).sidecar_url == s,
        unconfigured(s).api_key is None,
        !unconfigured(s).ready,
        no_config().meta_core_url is None && no_config().sidecar_url is None && no_config().api_key
            is None && no_config().tmdb_api_key is None && no_config().tmdb_language is None,
{
}

/// What is asked of the Tribler core, and where: below its address without trailing
/// slashes, with the search text percent-encoded.
pub proof fn addresses_of_the_core(
    p: TriblerPlugin,
    query: &str,
    max_results: usize,
    local: String,
    remote: String,
    events: String,
    info: String,
    fresh: TriblerPlugin,
)
    requires
        call_ensures(TriblerPlugin::local_search_url, (&p, query, max_results), local),
        call_ensures(TriblerPlugin::remote_search_url, (&p, query), remote),
        call_ensures(TriblerPlugin::events_url, (&p,), events),
        call_ensures(TriblerPlugin::torrentinfo_url, (&p,), info),
        call_ensures(TriblerPlugin::new, (), fresh),
    ensures
        ({
            let base = text::trim_end(p.sidecar_url@, CharClass::Slash);
            &&& local@ == base + "/api/metadata/search/local?fts_text="@ + url::encoded(query@)
                + "&first=1&last="@ + number::decimal(max_results as nat)
            &&& remote@ == base + "/api/search/remote?fts_text="@ + url::encoded(query@)
            &&& events@ == base + "/api/events"@
            &&& info@ == base + "/api/torrentinfo/uri"@
        }),
        fresh.sidecar_url@ == "http://tribler-instance:8085"@,
        fresh@.api_key is None,
        !fresh.ready,
{
}

/// Records are published only where a meta-core is configured, at its address
/// without white space round it and with what else is configured.
pub proof fn publishing_needs_a_meta_core(
    cfg: TriblerConfigFile,
    r: Option<EnrichmentSettings>,
    settings: EnrichmentSettings,
)
    requires
        call_ensures(publisher_settings, (&cfg,), r),
        call_ensures(enrichment_settings, (&cfg,), settings),
    ensures
        ({
            let set = |v: Option<Seq<char>>| v is Some && !text::is_blank(v->0);
            let c = cfg@;
            &&& r is Some <==> set(c.meta_core_url)
            &&& r matches Some(s) ==> {
                &&& item::text_of(s.meta_core_url) == Some(text::trim(c.meta_core_url->0))
                &&& item::text_of(s.tmdb_token) == item::text_of(settings.tmdb_token)
                &&& item::text_of(s.tmdb_language) == item::text_of(settings.tmdb_language)
            }
            &&& set(c.tmdb_api_key) ==> item::text_of(settings.tmdb_token) == c.tmdb_api_key
            &&& !set(c.tmdb_api_key) ==> settings.tmdb_token is None
            &&& set(c.tmdb_language) ==> item::text_of(settings.tmdb_language) == c.tmdb_language
            &&& !set(c.tmdb_language) ==> settings.tmdb_language is None
            &&& !set(c.meta_core_url) ==> settings.meta_core_url is None
        }),
{
}

/// A request that could not be sent is made again once, after 300 milliseconds.
pub proof fn requests_are_made_twice_at_most(attempt: u8, sent: bool, r: FetchStep)
    requires
        call_ensures(after_request, (attempt, sent), r),
    ensures
        r == FetchStep::Read <==> sent,
        r == FetchStep::RetryAfter(300) <==> !sent && attempt == 0,
        r == FetchStep::GiveUp <==> !sent && attempt > 0,
{
}

/// The form has a labelled field with its own help for each value; the keys are
/// secret and nothing else is.
pub proof fn keys_are_kept_secret(form: Vec<ConfigField>, i: int)
    requires
        call_ensures(config_schema, (), form),
        0 <= i < form@.len(),
    ensures
        form@.len() == 5,
        form@[i].secret <==> form@[i].key@ == "api_key"@ || form@[i].key@ == "tmdb_api_key"@,
        form@[0].key@ == "meta_core_url"@,
        form@[1].key@ == "sidecar_url"@,
        form@[2].key@ == "api_key"@,
        form@[3].key@ == "tmdb_api_key"@,
        form@[4].key@ == "tmdb_language"@,
        form@[0].label@ == "meta-core URL"@ && form@[0].help@ == META_CORE_URL_HELP@,
        form@[1].label@ == "Tribler core URL"@ && form@[1].help@ == SIDECAR_URL_HELP@,
        form@[2].label@ == "Core API key"@ && form@[2].help@ == API_KEY_HELP@,
        form@[3].label@ == "TMDB API key / v4 token"@ && form@[3].help@ == TMDB_API_KEY_HELP@,
        form@[4].label@ == "TMDB language"@ && form@[4].help@ == TMDB_LANGUAGE_HELP@,
{
    reveal_strlit("api_key");
    reveal_strlit("tmdb_api_key");
    reveal_strlit("meta_core_url");
    reveal_strlit("sidecar_url");
    reveal_strlit("tmdb_language");
    assert("api_key"@.len() == 7 && "tmdb_api_key"@.len() == 12 && "meta_core_url"@.len() == 13
        && "sidecar_url"@.len() == 11 && "tmdb_language"@.len() == 13);
}

/// What is set on a source is what was given: an address, a key, a configuration.
pub proof fn sources_are_set_as_told(
    a: &mut TriblerPlugin,
    url: String,
    b: &mut TriblerPlugin,
    key: String,
    c: &mut TriblerPlugin,
    d: &mut TriblerPlugin,
    cfg: TriblerConfigFile,
    opened: bool,
)
    requires
        call_ensures(TriblerPlugin::set_sidecar_url, (a, url), ()),
        call_ensures(TriblerPlugin::set_api_key, (b, key), ()),
        call_ensures(TriblerPlugin::apply_config, (c, &cfg), ()),
        call_ensures(TriblerPlugin::configure, (d, &cfg, opened), ()),
    ensures
        final(a)@ == (PluginView { sidecar_url: url@, ..old(a)@ }),
        final(b)@ == (PluginView { api_key: Some(key@), ..old(b)@ }),
        final(c)@ == configured(old(c)@, cfg@),
        final(d)@ == (PluginView {
            ready: old(d)@.ready || opened,
            ..configured(old(d)@, cfg@)
        }),
        cfg@.sidecar_url == item::text_of(cfg.sidecar_url),
        cfg@.api_key == item::text_of(cfg.api_key),
        cfg@.meta_core_url == item::text_of(cfg.meta_core_url),
        cfg@.tmdb_api_key == item::text_of(cfg.tmdb_api_key),
        cfg@.tmdb_language == item::text_of(cfg.tmdb_language),
{
}

} // verus!

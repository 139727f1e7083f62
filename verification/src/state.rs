//! The state of a running gateway.

use crate::config::{
    alias_target, default_model_map, resolve_upstream_model, upstream_model, Settings,
};
use crate::json::Json;
use crate::json_text::{json_parse, parse_json_bytes};
use crate::text::{opt_string, opt_text, trim_text, trimmed};
use crate::text_map::{lookup, TextMap};
use crate::text_set::TextSet;
use vstd::prelude::*;
use vstd::utf8::*;

verus! {

/// What is set while the gateway runs and outlives it.
#[derive(Debug)]
pub struct RuntimeConfig {
    pub upstream_proxy: Option<String>,
}

/// The models that the upstream has, and when it was asked, in milliseconds.
#[derive(Debug)]
pub struct UpstreamModelsCache {
    pub data: Vec<Json>,
    pub fetched_at: i64,
}

/// The state of a running gateway.
#[derive(Debug)]
pub struct AppStateInner {
    pub settings: Settings,
    /// The aliases of models.
    pub model_map: TextMap,
    /// The accounts that are known to be unable to make videos.
    pub no_t2v: TextSet,
    pub upstream_models: UpstreamModelsCache,
    pub runtime_cfg: RuntimeConfig,
}

impl Default for RuntimeConfig {
    fn default() -> (r: RuntimeConfig)
        ensures
            r.upstream_proxy is None,
    {
        RuntimeConfig { upstream_proxy: None }
    }
}

impl Default for UpstreamModelsCache {
    fn default() -> (r: UpstreamModelsCache)
        ensures
            r.data@.len() == 0,
            r.fetched_at == 0,
    {
        UpstreamModelsCache { data: Vec::new(), fetched_at: 0 }
    }
}

/// A proxy without the white space around it, none where nothing is left.
pub open spec fn normal_proxy(proxy: Option<Seq<char>>) -> Option<Seq<char>> {
    match proxy {
        Some(p) => if trimmed(p).len() > 0 {
            Some(trimmed(p))
        } else {
            None
        },
        None => None,
    }
}

/// A proxy without the white space around it, none where nothing is left.
pub fn normalize_proxy(proxy: Option<&str>) -> (r: Option<String>)
    ensures
        opt_string(r) == normal_proxy(opt_text(proxy)),
{
    match proxy {
        Some(p) => {
            let t = trim_text(p);
            if t.as_str().is_empty() {
                None
            } else {
                Some(t)
            }
        },
        None => None,
    }
}

/// What becomes of the accounts that the environment gives.
#[derive(Debug)]
pub enum AccountSeed {
    /// They are the new list of accounts.
    Write(Json),
    /// They are no list.
    NotAList,
    /// They are no JSON, and why.
    Unreadable(String),
}

/// What becomes of the accounts that the environment gives.
pub fn seed_accounts(raw: &str) -> (r: AccountSeed)
    ensures
        match json_parse(encode_utf8(raw@)) {
            Ok(v) => if v is Array {
                r matches AccountSeed::Write(j) && j@ == v
            } else {
                r is NotAList
            },
            Err(why) => r matches AccountSeed::Unreadable(e) && e@ == why,
        },
{
    match parse_json_bytes(raw.as_bytes()) {
        Ok(v) => if v.is_array() {
            AccountSeed::Write(v)
        } else {
            AccountSeed::NotAList
        },
        Err(e) => AccountSeed::Unreadable(e),
    }
}

impl AppStateInner {
    /// The state at the start, with what was set and kept before. `family` is the name of the
    /// family of models that the messages protocol comes with.
    pub fn new(
        settings: Settings,
        family: &str,
        runtime_cfg: RuntimeConfig,
        no_t2v: TextSet,
    ) -> (r: AppStateInner)
        ensures
            r.settings == settings,
            forall|name: Seq<char>|
                #[trigger] lookup(r.model_map@, name) == alias_target(family@, name),
            r.no_t2v == no_t2v,
            r.upstream_models.data@.len() == 0,
            r.upstream_models.fetched_at == 0,
            r.runtime_cfg == runtime_cfg,
    {
        AppStateInner {
            model_map: default_model_map(family),
            no_t2v,
            upstream_models: UpstreamModelsCache::default(),
            runtime_cfg,
            settings,
        }
    }

    /// The proxy at the start: the one that was set and kept, else the one of the environment.
    pub open spec fn spec_initial_proxy(self) -> Option<Seq<char>> {
        match self.runtime_cfg.upstream_proxy {
            Some(p) => Some(p@),
            None => opt_string(self.settings.upstream_proxy),
        }
    }

    /// The proxy at the start: the one that was set and kept, else the one of the environment.
    pub fn initial_proxy(&self) -> (r: Option<&str>)
        ensures
            opt_text(r) == self.spec_initial_proxy(),
    {
        match &self.runtime_cfg.upstream_proxy {
            Some(p) => Some(p.as_str()),
            None => match &self.settings.upstream_proxy {
                Some(p) => Some(p.as_str()),
                None => None,
            },
        }
    }

    /// Sets the proxy. Returns what is to be used and kept.
    pub fn set_upstream_proxy(&mut self, proxy: Option<&str>) -> (r: Option<String>)
        ensures
            opt_string(r) == normal_proxy(opt_text(proxy)),
            opt_string(final(self).runtime_cfg.upstream_proxy) == normal_proxy(opt_text(proxy)),
            final(self).settings == old(self).settings,
            final(self).model_map == old(self).model_map,
            final(self).no_t2v == old(self).no_t2v,
            final(self).upstream_models == old(self).upstream_models,
    {
        self.runtime_cfg = RuntimeConfig { upstream_proxy: normalize_proxy(proxy) };
        normalize_proxy(proxy)
    }

    /// The model that is sent upstream for a name.
    pub fn resolve_model(&self, name: &str) -> (r: String)
        ensures
            r@ == upstream_model(self.model_map@, self.settings.default_model@, name@),
    {
        resolve_upstream_model(&self.model_map, self.settings.default_model.as_str(), name)
    }
}

/// A proxy that is set is the one that the next start finds, whatever the environment says; a
/// blank one leaves it to the environment.
pub proof fn set_proxy_outlives_restart(before: AppStateInner, proxy: Option<Seq<char>>)
    requires
        opt_string(before.runtime_cfg.upstream_proxy) == normal_proxy(proxy),
    ensures
        before.spec_initial_proxy() == (match normal_proxy(proxy) {
            Some(p) => Some(p),
            None => opt_string(before.settings.upstream_proxy),
        }),
{
}

} // verus!

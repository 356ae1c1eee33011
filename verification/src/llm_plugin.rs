//! The registry of model-provider plugins.
//!
//! A plugin is either a middleware (an HTTP endpoint speaking a known chat
//! protocol) or a process (a local program spoken to over its standard
//! streams).  The registry holds at most one plugin per id and decides which
//! provider a plugin id stands for; building the provider's HTTP client or
//! process is left to the caller.
use vstd::prelude::*;
use crate::accumulator::{FunctionCallDelta, StreamToolCallDelta};
use crate::dispatcher::ToolCall;
use crate::accumulator::{is_valid_json, json_valid};
use crate::json_args::{
    json_string_value, string_value, bool_member, json_bool_member, array_member_items, json_array_member_items, json_member_text, json_string_member, json_u64_member,
    member_text, opt_view, string_member, u64_member,
};
use crate::text::{concat_all, push_str, str_eq, string_from};

verus! {

/// How a plugin provides a model.
#[derive(Debug, Clone, Copy, PartialEq, Eq, Structural)]
pub enum LlmPluginType {
    Middleware,
    Process,
}

/// The chat protocol a middleware speaks.
#[derive(Debug, Clone, Copy, PartialEq, Eq, Structural)]
pub enum LlmProtocol {
    Openai,
    Anthropic,
}

/// A model that a plugin offers.
#[derive(Debug, Clone)]
pub struct LlmPluginModelEntry {
    pub id: String,
    pub name: String,
    pub description: String,
    /// Context window in tokens; 0 when unknown.
    pub context_window: u32,
}

/// Settings of a middleware plugin.
#[derive(Debug, Clone)]
pub struct MiddlewareConfig {
    pub base_url: String,
    pub protocol: LlmProtocol,
    /// Names of models as callers know them, each with the name the endpoint
    /// knows it by.
    pub model_mapping: Vec<(String, String)>,
    pub max_retries: Option<u32>,
    pub timeout_secs: Option<u64>,
}

/// Settings of a process plugin.
#[derive(Debug, Clone)]
pub struct ProcessPluginConfig {
    pub command: String,
    pub args: Vec<String>,
}

/// A plugin as configured.
#[derive(Debug, Clone)]
pub struct LlmPluginConfig {
    pub id: String,
    pub name: String,
    pub version: String,
    pub description: String,
    pub plugin_type: LlmPluginType,
    pub enabled: bool,
    pub middleware: Option<MiddlewareConfig>,
    pub process: Option<ProcessPluginConfig>,
    pub models: Vec<LlmPluginModelEntry>,
}

/// The name the endpoint knows `model` by: its mapped name when the mapping
/// has one (the first entry for it), else `model` itself.
pub open spec fn mapped_model(mapping: Seq<(String, String)>, model: Seq<char>) -> Seq<char>
    decreases mapping.len(),
{
    if mapping.len() == 0 {
        model
    } else if mapping[0].0@ == model {
        mapping[0].1@
    } else {
        mapped_model(mapping.drop_first(), model)
    }
}

/// The name the middleware's endpoint knows `model` by.
pub fn map_model(config: &MiddlewareConfig, model: &str) -> (r: String)
    ensures
        r@ == mapped_model(config.model_mapping@, model@),
{
    let ghost m = config.model_mapping@;
    let mut i: usize = 0;
    proof {
        assert(m.skip(0) =~= m);
    }
    while i < config.model_mapping.len()
        invariant
            i <= config.model_mapping.len(),
            m == config.model_mapping@,
            mapped_model(m, model@) == mapped_model(m.skip(i as int), model@),
        decreases config.model_mapping.len() - i,
    {
        proof {
            assert(m.skip(i as int).drop_first() =~= m.skip(i + 1));
            assert(m.skip(i as int)[0] == m[i as int]);
        }
        if str_eq(config.model_mapping[i].0.as_str(), model) {
            return config.model_mapping[i].1.clone();
        }
        i = i + 1;
    }
    proof {
        assert(m.skip(i as int).len() == 0);
    }
    string_from(model)
}

/// The position of the first plugin with id `id` among `plugins`, if any.
pub open spec fn position_of(plugins: Seq<LlmPluginConfig>, id: Seq<char>) -> Option<int>
    decreases plugins.len(),
{
    if plugins.len() == 0 {
        None
    } else if plugins[0].id@ == id {
        Some(0)
    } else {
        match position_of(plugins.drop_first(), id) {
            Some(k) => Some(k + 1),
            None => None,
        }
    }
}

/// The ids of `plugins`.
pub open spec fn ids_of(plugins: Seq<LlmPluginConfig>) -> Seq<Seq<char>> {
    plugins.map_values(|p: LlmPluginConfig| p.id@)
}

/// Registry of loaded model-provider plugins.
#[derive(Debug)]
pub struct LlmPluginRegistry {
    plugins: Vec<LlmPluginConfig>,
}

impl LlmPluginRegistry {
    /// The registered plugins, in the order their ids were first registered.
    pub closed spec fn entries(&self) -> Seq<LlmPluginConfig> {
        self.plugins@
    }

    /// No id is registered twice.
    pub closed spec fn wf(&self) -> bool {
        ids_of(self.plugins@).no_duplicates()
    }

    /// The plugin registered under `id`, if any.
    pub open spec fn lookup(&self, id: Seq<char>) -> Option<LlmPluginConfig> {
        match position_of(self.entries(), id) {
            Some(i) => Some(self.entries()[i]),
            None => None,
        }
    }

    /// The registered ids.
    pub open spec fn ids(&self) -> Set<Seq<char>> {
        ids_of(self.entries()).to_set()
    }
}

proof fn lemma_position_of(plugins: Seq<LlmPluginConfig>, id: Seq<char>)
    ensures
        match position_of(plugins, id) {
            Some(i) => 0 <= i < plugins.len() && plugins[i].id@ == id && forall|j: int|
                0 <= j < i ==> #[trigger] plugins[j].id@ != id,
            None => forall|j: int| 0 <= j < plugins.len() ==> #[trigger] plugins[j].id@ != id,
        },
    decreases plugins.len(),
{
    if plugins.len() > 0 && plugins[0].id@ != id {
        let rest = plugins.drop_first();
        lemma_position_of(rest, id);
        assert forall|j: int| 0 < j < plugins.len() implies #[trigger] plugins[j] == rest[j - 1] by {}
        match position_of(rest, id) {
            Some(k) => {
                assert forall|j: int| 0 <= j < k + 1 implies #[trigger] plugins[j].id@ != id by {
                    if j > 0 {
                        assert(plugins[j] == rest[j - 1]);
                    }
                }
            },
            None => {
                assert forall|j: int| 0 <= j < plugins.len() implies #[trigger] plugins[j].id@ != id by {
                    if j > 0 {
                        assert(plugins[j] == rest[j - 1]);
                    }
                }
            },
        }
    }
}

proof fn lemma_position_found(plugins: Seq<LlmPluginConfig>, id: Seq<char>, i: int)
    requires
        0 <= i < plugins.len(),
        plugins[i].id@ == id,
        forall|j: int| 0 <= j < i ==> #[trigger] plugins[j].id@ != id,
    ensures
        position_of(plugins, id) == Some(i),
{
    lemma_position_of(plugins, id);
    match position_of(plugins, id) {
        Some(k) => {
            if k < i {
                assert(plugins[k].id@ != id);
            }
            if k > i {
                assert(plugins[i].id@ != id);
            }
        },
        None => {
            assert(plugins[i].id@ != id);
        },
    }
}

proof fn lemma_position_unique(plugins: Seq<LlmPluginConfig>, i: int)
    requires
        ids_of(plugins).no_duplicates(),
        0 <= i < plugins.len(),
    ensures
        position_of(plugins, plugins[i].id@) == Some(i),
{
    let id = plugins[i].id@;
    assert forall|j: int| 0 <= j < i implies #[trigger] plugins[j].id@ != id by {
        assert(ids_of(plugins)[j] == plugins[j].id@);
        assert(ids_of(plugins)[i] == id);
    }
    lemma_position_found(plugins, id, i);
}

impl LlmPluginRegistry {
    /// An empty registry.
    pub fn new() -> (r: Self)
        ensures
            r.wf(),
            r.entries().len() == 0,
    {
        let r = LlmPluginRegistry { plugins: Vec::new() };
        proof {
            assert(ids_of(r.plugins@) =~= Seq::<Seq<char>>::empty());
        }
        r
    }

    /// Position of the plugin registered under `id`.
    fn find(&self, id: &str) -> (r: Option<usize>)
        requires
            self.wf(),
        ensures
            match r {
                Some(i) => i < self.entries().len() && position_of(self.entries(), id@) == Some(i as int),
                None => position_of(self.entries(), id@) is None,
            },
    {
        let mut i: usize = 0;
        while i < self.plugins.len()
            invariant
                i <= self.plugins.len(),
                self.wf(),
                forall|j: int| 0 <= j < i ==> #[trigger] self.plugins@[j].id@ != id@,
            decreases self.plugins.len() - i,
        {
            if str_eq(self.plugins[i].id.as_str(), id) {
                proof {
                    lemma_position_found(self.plugins@, id@, i as int);
                }
                return Some(i);
            }
            i = i + 1;
        }
        proof {
            lemma_position_of(self.plugins@, id@);
            if position_of(self.plugins@, id@) is Some {
                let k = position_of(self.plugins@, id@)->0;
                assert(self.plugins@[k].id@ != id@);
            }
        }
        None
    }

    /// Registers `config`, replacing a plugin registered under the same id.
    pub fn register(&mut self, config: LlmPluginConfig)
        requires
            old(self).wf(),
        ensures
            final(self).wf(),
            final(self).lookup(config.id@) == Some(config),
            forall|id: Seq<char>| id != config.id@ ==> final(self).lookup(id) == old(self).lookup(id),
            final(self).ids() == old(self).ids().insert(config.id@),
    {
        let ghost before = self.plugins@;
        let ghost cid = config.id@;
        match self.find(config.id.as_str()) {
            Some(i) => {
                proof {
                    lemma_position_of(before, cid);
                }
                self.plugins.set(i, config);
                proof {
                    assert(ids_of(self.plugins@) =~= ids_of(before));
                    lemma_position_unique(self.plugins@, i as int);
                    assert forall|id: Seq<char>| id != cid implies self.lookup(id) == old(self).lookup(id) by {
                        lemma_position_of(before, id);
                        lemma_position_of(self.plugins@, id);
                        if position_of(before, id) is Some {
                            let j = position_of(before, id)->0;
                            assert(before[j].id@ == id);
                            assert(j != i);
                            assert(self.plugins@[j] == before[j]);
                            lemma_position_unique(self.plugins@, j);
                            lemma_position_unique(before, j);
                        } else {
                            if position_of(self.plugins@, id) is Some {
                                let j = position_of(self.plugins@, id)->0;
                                assert(self.plugins@[j].id@ == id);
                                assert(j != i);
                                assert(before[j].id@ == id);
                            }
                        }
                    }
                    assert(ids_of(before)[i as int] == cid);
                    assert(ids_of(before).to_set().insert(cid) =~= ids_of(before).to_set());
                }
            },
            None => {
                proof {
                    lemma_position_of(before, cid);
                }
                self.plugins.push(config);
                proof {
                    assert(ids_of(self.plugins@) =~= ids_of(before).push(cid));
                    assert forall|j: int| 0 <= j < before.len() implies #[trigger] ids_of(before)[j] != cid by {
                        if ids_of(before)[j] == cid {
                            assert(before[j].id@ == cid);
                        }
                    }
                    assert(ids_of(self.plugins@).no_duplicates());
                    lemma_position_unique(self.plugins@, before.len() as int);
                    assert forall|id: Seq<char>| id != cid implies self.lookup(id) == old(self).lookup(id) by {
                        lemma_position_of(before, id);
                        lemma_position_of(self.plugins@, id);
                        if position_of(before, id) is Some {
                            let j = position_of(before, id)->0;
                            assert(self.plugins@[j] == before[j]);
                            lemma_position_unique(self.plugins@, j);
                            lemma_position_unique(before, j);
                        } else {
                            if position_of(self.plugins@, id) is Some {
                                let j = position_of(self.plugins@, id)->0;
                                assert(self.plugins@[j].id@ == id);
                                assert(j < before.len());
                                assert(before[j].id@ == id);
                            }
                        }
                    }
                    ids_of(before).lemma_push_to_set_commute(cid);
                }
            },
        }
    }

    /// Removes and returns the plugin registered under `plugin_id`.
    pub fn unregister(&mut self, plugin_id: &str) -> (r: Option<LlmPluginConfig>)
        requires
            old(self).wf(),
        ensures
            final(self).wf(),
            r == old(self).lookup(plugin_id@),
            final(self).lookup(plugin_id@) is None,
            forall|id: Seq<char>| id != plugin_id@ ==> final(self).lookup(id) == old(self).lookup(id),
            final(self).ids() == old(self).ids().remove(plugin_id@),
    {
        let ghost before = self.plugins@;
        proof {
            lemma_position_of(before, plugin_id@);
        }
        match self.find(plugin_id) {
            None => {
                proof {
                    assert forall|k: Seq<char>| !(ids_of(before).to_set().contains(k) && k == plugin_id@) by {
                        if ids_of(before).to_set().contains(k) && k == plugin_id@ {
                            let j = choose|j: int| 0 <= j < ids_of(before).len() && ids_of(before)[j] == k;
                            assert(before[j].id@ == plugin_id@);
                        }
                    }
                    assert(ids_of(before).to_set().remove(plugin_id@) =~= ids_of(before).to_set());
                }
                None
            },
            Some(i) => {
                let removed = self.plugins.remove(i);
                proof {
                    let after = self.plugins@;
                    assert(ids_of(after) =~= ids_of(before).remove(i as int));
                    assert forall|a: int, b: int| 0 <= a < b < ids_of(after).len() implies ids_of(after)[a]
                        != ids_of(after)[b] by {
                        let a2 = if a < i { a } else { a + 1 };
                        let b2 = if b < i { b } else { b + 1 };
                        assert(ids_of(after)[a] == ids_of(before)[a2]);
                        assert(ids_of(after)[b] == ids_of(before)[b2]);
                    }
                    assert forall|j: int| 0 <= j < after.len() implies #[trigger] after[j].id@ != plugin_id@ by {
                        let j2 = if j < i { j } else { j + 1 };
                        assert(after[j] == before[j2]);
                        assert(before[i as int].id@ == plugin_id@);
                        assert(ids_of(before)[j2] != ids_of(before)[i as int]);
                    }
                    lemma_position_of(after, plugin_id@);
                    if position_of(after, plugin_id@) is Some {
                        let k = position_of(after, plugin_id@)->0;
                        assert(after[k].id@ != plugin_id@);
                    }
                    assert forall|id: Seq<char>| id != plugin_id@ implies self.lookup(id) == old(self).lookup(id) by {
                        lemma_position_of(before, id);
                        lemma_position_of(after, id);
                        if position_of(before, id) is Some {
                            let j = position_of(before, id)->0;
                            assert(before[j].id@ == id);
                            assert(j != i);
                            let j1 = if j < i { j } else { j - 1 };
                            assert(after[j1] == before[j]);
                            lemma_position_unique(after, j1);
                            lemma_position_unique(before, j);
                        } else {
                            if position_of(after, id) is Some {
                                let j = position_of(after, id)->0;
                                let j2 = if j < i { j } else { j + 1 };
                                assert(after[j] == before[j2]);
                                assert(before[j2].id@ == id);
                            }
                        }
                    }
                    assert forall|k: Seq<char>| ids_of(after).to_set().contains(k) == ids_of(before).to_set().remove(
                        plugin_id@,
                    ).contains(k) by {
                        if ids_of(after).to_set().contains(k) {
                            let j = choose|j: int| 0 <= j < ids_of(after).len() && ids_of(after)[j] == k;
                            let j2 = if j < i { j } else { j + 1 };
                            assert(ids_of(before)[j2] == k);
                            assert(after[j].id@ != plugin_id@);
                        }
                        if ids_of(before).to_set().remove(plugin_id@).contains(k) {
                            let j = choose|j: int| 0 <= j < ids_of(before).len() && ids_of(before)[j] == k;
                            assert(j != i);
                            let j1 = if j < i { j } else { j - 1 };
                            assert(ids_of(after)[j1] == k);
                        }
                    }
                    assert(ids_of(after).to_set() =~= ids_of(before).to_set().remove(plugin_id@));
                }
                Some(removed)
            },
        }
    }

    /// The plugin registered under `plugin_id`.
    pub fn get(&self, plugin_id: &str) -> (r: Option<&LlmPluginConfig>)
        requires
            self.wf(),
        ensures
            match r {
                Some(c) => self.lookup(plugin_id@) == Some(*c),
                None => self.lookup(plugin_id@) is None,
            },
    {
        match self.find(plugin_id) {
            Some(i) => Some(&self.plugins[i]),
            None => None,
        }
    }

    /// All registered plugins, one per id.
    pub fn list(&self) -> (r: Vec<&LlmPluginConfig>)
        requires
            self.wf(),
        ensures
            r.len() == self.ids().len(),
            forall|i: int| 0 <= i < r.len() ==> self.lookup(r@[i].id@) == Some(*r@[i]),
            forall|i: int, j: int| 0 <= i < j < r.len() ==> r@[i].id@ != r@[j].id@,
    {
        let mut out: Vec<&LlmPluginConfig> = Vec::new();
        let mut i: usize = 0;
        while i < self.plugins.len()
            invariant
                i <= self.plugins.len(),
                self.wf(),
                out.len() == i,
                forall|k: int| 0 <= k < i ==> *out@[k] == self.plugins@[k],
            decreases self.plugins.len() - i,
        {
            out.push(&self.plugins[i]);
            i = i + 1;
        }
        proof {
            ids_of(self.plugins@).unique_seq_to_set();
            assert forall|k: int| 0 <= k < out.len() implies self.lookup(out@[k].id@) == Some(*out@[k]) by {
                lemma_position_unique(self.plugins@, k);
            }
            assert forall|i: int, j: int| 0 <= i < j < out.len() implies out@[i].id@ != out@[j].id@ by {
                assert(ids_of(self.plugins@)[i] == self.plugins@[i].id@);
                assert(ids_of(self.plugins@)[j] == self.plugins@[j].id@);
            }
        }
        out
    }

    /// Whether no plugin is registered.
    pub fn is_empty(&self) -> (r: bool)
        requires
            self.wf(),
        ensures
            r == (self.ids().len() == 0),
    {
        proof {
            ids_of(self.plugins@).unique_seq_to_set();
        }
        self.plugins.len() == 0
    }

    /// The context window of `model` as offered by plugin `plugin_id`: the
    /// first entry for the model, when its window is not 0.
    pub fn find_model_context_window(&self, plugin_id: &str, model: &str) -> (r: Option<u32>)
        requires
            self.wf(),
        ensures
            r == match self.lookup(plugin_id@) {
                Some(c) => context_window_of(c.models@, model@),
                None => None,
            },
    {
        match self.get(plugin_id) {
            None => None,
            Some(c) => {
                let mut i: usize = 0;
                proof {
                    assert(c.models@.skip(0) =~= c.models@);
                }
                while i < c.models.len()
                    invariant
                        i <= c.models.len(),
                        self.lookup(plugin_id@) == Some(*c),
                        context_window_of(c.models@, model@) == context_window_of(c.models@.skip(i as int), model@),
                    decreases c.models.len() - i,
                {
                    proof {
                        assert(c.models@.skip(i as int).drop_first() =~= c.models@.skip(i + 1));
                        assert(c.models@.skip(i as int)[0] == c.models@[i as int]);
                    }
                    if str_eq(c.models[i].id.as_str(), model) {
                        let w = c.models[i].context_window;
                        return if w > 0 {
                            Some(w)
                        } else {
                            None
                        };
                    }
                    i = i + 1;
                }
                None
            },
        }
    }
}

/// The context window of the first of `models` with id `model`, when it is
/// not 0.
pub open spec fn context_window_of(models: Seq<LlmPluginModelEntry>, model: Seq<char>) -> Option<u32>
    decreases models.len(),
{
    if models.len() == 0 {
        None
    } else if models[0].id@ == model {
        if models[0].context_window > 0 {
            Some(models[0].context_window)
        } else {
            None
        }
    } else {
        context_window_of(models.drop_first(), model)
    }
}

/// The last enabled config with id `id` among `configs`.
pub open spec fn last_enabled(configs: Seq<LlmPluginConfig>, id: Seq<char>) -> Option<LlmPluginConfig>
    decreases configs.len(),
{
    if configs.len() == 0 {
        None
    } else if configs.last().enabled && configs.last().id@ == id {
        Some(configs.last())
    } else {
        last_enabled(configs.drop_last(), id)
    }
}

impl LlmPluginRegistry {
    /// A registry of the enabled plugins among `configs`; of several with
    /// the same id, the last one counts.
    pub fn from_configs(configs: Vec<LlmPluginConfig>) -> (r: Self)
        ensures
            r.wf(),
            forall|id: Seq<char>| #[trigger] r.lookup(id) == last_enabled(configs@, id),
    {
        let ghost all = configs@;
        proof {
            assert(all.len() == configs.len());
        }
        let mut rest = configs;
        let mut reg = LlmPluginRegistry::new();
        proof {
            assert(all.take(0) =~= Seq::<LlmPluginConfig>::empty());
            assert forall|id: Seq<char>| #[trigger] reg.lookup(id) == last_enabled(all.take(0), id) by {
                lemma_position_of(reg.entries(), id);
            }
        }
        let mut k: usize = 0;
        while rest.len() > 0
            invariant
                reg.wf(),
                all.len() <= usize::MAX,
                k <= all.len(),
                rest@ == all.skip(k as int),
                forall|id: Seq<char>| #[trigger] reg.lookup(id) == last_enabled(all.take(k as int), id),
            decreases rest.len(),
        {
            let cfg = rest.remove(0);
            proof {
                assert(cfg == all[k as int]);
                assert(all.take(k + 1).drop_last() =~= all.take(k as int));
                assert(all.take(k + 1).last() == cfg);
                assert(rest@ =~= all.skip(k + 1));
            }
            if cfg.enabled {
                let ghost cid = cfg.id@;
                let ghost old_reg = reg.lookup(cid);
                reg.register(cfg);
                proof {
                    assert forall|id: Seq<char>| #[trigger] reg.lookup(id) == last_enabled(all.take(k + 1), id) by {
                        if id != cid {
                            assert(last_enabled(all.take(k + 1), id) == last_enabled(all.take(k as int), id));
                        }
                    }
                }
            } else {
                proof {
                    assert forall|id: Seq<char>| #[trigger] reg.lookup(id) == last_enabled(all.take(k + 1), id) by {
                        assert(last_enabled(all.take(k + 1), id) == last_enabled(all.take(k as int), id));
                    }
                }
            }
            k = k + 1;
        }
        proof {
            assert(all.skip(k as int).len() == 0);
            assert(all.take(k as int) =~= all);
        }
        reg
    }
}

/// Why no provider can be made for a plugin id.
#[derive(Debug, Clone)]
pub enum PluginError {
    NotFound { plugin_id: String },
    Disabled { plugin_id: String },
    MissingMiddleware { plugin_id: String },
    MissingProcess { plugin_id: String },
}

/// Opens each error message.
pub const PLUGIN_ERROR_OPEN: &'static str = "LLM plugin '";

/// The text after the plugin id in an error message.
pub open spec fn error_tail(e: PluginError) -> Seq<char> {
    match e {
        PluginError::NotFound { .. } => "' not found"@,
        PluginError::Disabled { .. } => "' is disabled"@,
        PluginError::MissingMiddleware { .. } => "' is type=middleware but missing middleware config"@,
        PluginError::MissingProcess { .. } => "' is type=process but missing process config"@,
    }
}

/// The plugin id an error is about.
pub open spec fn error_plugin(e: PluginError) -> Seq<char> {
    match e {
        PluginError::NotFound { plugin_id } => plugin_id@,
        PluginError::Disabled { plugin_id } => plugin_id@,
        PluginError::MissingMiddleware { plugin_id } => plugin_id@,
        PluginError::MissingProcess { plugin_id } => plugin_id@,
    }
}

impl PluginError {
    /// The error's message.
    pub fn message(&self) -> (r: String)
        ensures
            r@ == PLUGIN_ERROR_OPEN@ + error_plugin(*self) + error_tail(*self),
    {
        let mut m = string_from(PLUGIN_ERROR_OPEN);
        match self {
            PluginError::NotFound { plugin_id } => {
                push_str(&mut m, plugin_id.as_str());
                push_str(&mut m, "' not found");
            },
            PluginError::Disabled { plugin_id } => {
                push_str(&mut m, plugin_id.as_str());
                push_str(&mut m, "' is disabled");
            },
            PluginError::MissingMiddleware { plugin_id } => {
                push_str(&mut m, plugin_id.as_str());
                push_str(&mut m, "' is type=middleware but missing middleware config");
            },
            PluginError::MissingProcess { plugin_id } => {
                push_str(&mut m, plugin_id.as_str());
                push_str(&mut m, "' is type=process but missing process config");
            },
        }
        m
    }
}

/// The provider a plugin id stands for, with the settings to build it from.
#[derive(Debug)]
pub enum ProviderChoice<'a> {
    Middleware(&'a MiddlewareConfig),
    Process(&'a ProcessPluginConfig),
}

/// Which provider, or which error, plugin `id` comes to.
pub enum ProviderOutcome {
    Middleware(MiddlewareConfig),
    Process(ProcessPluginConfig),
    NotFound,
    Disabled,
    MissingMiddleware,
    MissingProcess,
}

/// The outcome for the plugin registered as `entry`.
pub open spec fn provider_outcome(entry: Option<LlmPluginConfig>) -> ProviderOutcome {
    match entry {
        None => ProviderOutcome::NotFound,
        Some(c) => if !c.enabled {
            ProviderOutcome::Disabled
        } else {
            match c.plugin_type {
                LlmPluginType::Middleware => match c.middleware {
                    Some(m) => ProviderOutcome::Middleware(m),
                    None => ProviderOutcome::MissingMiddleware,
                },
                LlmPluginType::Process => match c.process {
                    Some(p) => ProviderOutcome::Process(p),
                    None => ProviderOutcome::MissingProcess,
                },
            }
        },
    }
}

impl LlmPluginRegistry {
    /// Decides which provider to build for `plugin_id`: the plugin must be
    /// registered and enabled, and have the settings its type needs.
    pub fn resolve_provider(&self, plugin_id: &str) -> (r: Result<ProviderChoice<'_>, PluginError>)
        requires
            self.wf(),
        ensures
            match (provider_outcome(self.lookup(plugin_id@)), r) {
                (ProviderOutcome::Middleware(m), Ok(ProviderChoice::Middleware(c))) => *c == m,
                (ProviderOutcome::Process(p), Ok(ProviderChoice::Process(c))) => *c == p,
                (ProviderOutcome::NotFound, Err(PluginError::NotFound { plugin_id: e })) => e@ == plugin_id@,
                (ProviderOutcome::Disabled, Err(PluginError::Disabled { plugin_id: e })) => e@ == plugin_id@,
                (ProviderOutcome::MissingMiddleware, Err(PluginError::MissingMiddleware { plugin_id: e })) => e@
                    == plugin_id@,
                (ProviderOutcome::MissingProcess, Err(PluginError::MissingProcess { plugin_id: e })) => e@
                    == plugin_id@,
                _ => false,
            },
    {
        let config = match self.get(plugin_id) {
            Some(c) => c,
            None => {
                return Err(PluginError::NotFound { plugin_id: string_from(plugin_id) });
            },
        };
        if !config.enabled {
            return Err(PluginError::Disabled { plugin_id: string_from(plugin_id) });
        }
        match config.plugin_type {
            LlmPluginType::Middleware => match &config.middleware {
                Some(m) => Ok(ProviderChoice::Middleware(m)),
                None => Err(PluginError::MissingMiddleware { plugin_id: string_from(plugin_id) }),
            },
            LlmPluginType::Process => match &config.process {
                Some(p) => Ok(ProviderChoice::Process(p)),
                None => Err(PluginError::MissingProcess { plugin_id: string_from(plugin_id) }),
            },
        }
    }
}

impl Default for LlmPluginRegistry {
    fn default() -> (r: Self)
        ensures
            r.wf(),
            r.entries().len() == 0,
    {
        LlmPluginRegistry::new()
    }
}

// ───────────────────────── authentication ─────────────────────────

/// Seconds an OAuth2 access token is cached: its lifetime (3600 when the
/// token endpoint states none) less a safety margin of a tenth of it, kept
/// between 30 and 300 seconds.
pub open spec fn token_ttl(expires_in: Option<u64>) -> int {
    let e: int = match expires_in {
        Some(x) => x as int,
        None => 3600,
    };
    let tenth = e / 10;
    let margin: int = if tenth < 30 { 30 } else if tenth > 300 { 300 } else { tenth };
    if e > margin { e - margin } else { 0 }
}

/// How long to cache an OAuth2 access token, in seconds.
pub fn oauth_token_ttl_secs(expires_in: Option<u64>) -> (r: u64)
    ensures
        r == token_ttl(expires_in),
{
    let e: u64 = match expires_in {
        Some(x) => x,
        None => 3600,
    };
    let tenth = e / 10;
    let margin: u64 = if tenth < 30 { 30 } else if tenth > 300 { 300 } else { tenth };
    if e > margin { e - margin } else { 0 }
}

/// The header value for a bearer token.
pub fn bearer_header_value(token: &str) -> (r: String)
    ensures
        r@ == "Bearer "@ + token@,
{
    let mut v = string_from("Bearer ");
    push_str(&mut v, token);
    v
}

/// The header value carrying an OAuth2 token: the prefix, a space, the token.
pub fn prefixed_token(prefix: &str, token: &str) -> (r: String)
    ensures
        r@ == prefix@ + " "@ + token@,
{
    let mut v = string_from(prefix);
    push_str(&mut v, " ");
    push_str(&mut v, token);
    v
}

/// The header value carrying a token fetched by a pre-request hook: the
/// bare token when the prefix is empty, else the prefix, a space, the token.
pub fn hook_token_value(prefix: &str, token: &str) -> (r: String)
    ensures
        r@ == if prefix@.len() == 0 { token@ } else { prefix@ + " "@ + token@ },
{
    if crate::text::chars_of(prefix).len() == 0 {
        string_from(token)
    } else {
        prefixed_token(prefix, token)
    }
}

/// Why no token could be read from a pre-request hook's response.
#[derive(Debug, Clone)]
pub enum HookExtractError {
    /// The response is not JSON.
    InvalidJson,
    /// A key of the extraction path is missing.
    KeyNotFound(String),
    /// The value at the end of the path is not a string.
    NotAString,
}

/// The view of a token extraction's outcome.
pub enum ExtractModel {
    Token(Seq<char>),
    InvalidJson,
    KeyNotFound(Seq<char>),
    NotAString,
}

/// The view of a token extraction's result.
pub open spec fn extract_view(r: Result<String, HookExtractError>) -> ExtractModel {
    match r {
        Ok(t) => ExtractModel::Token(t@),
        Err(HookExtractError::InvalidJson) => ExtractModel::InvalidJson,
        Err(HookExtractError::KeyNotFound(k)) => ExtractModel::KeyNotFound(k@),
        Err(HookExtractError::NotAString) => ExtractModel::NotAString,
    }
}

/// Walking the JSON text `cur` along `keys`: the JSON text at the end, or
/// the first key that is missing.
pub open spec fn walk_path(cur: Seq<char>, keys: Seq<Seq<char>>) -> Result<Seq<char>, Seq<char>>
    decreases keys.len(),
{
    if keys.len() == 0 {
        Ok(cur)
    } else {
        match json_member_text(cur, keys[0]) {
            Some(t) => walk_path(t, keys.drop_first()),
            None => Err(keys[0]),
        }
    }
}

/// The token that a hook's response `body` yields along the path `keys`.
pub open spec fn extract_spec(body: Seq<char>, keys: Seq<Seq<char>>) -> ExtractModel {
    if !json_valid(body) {
        ExtractModel::InvalidJson
    } else {
        match walk_path(body, keys) {
            Err(k) => ExtractModel::KeyNotFound(k),
            Ok(t) => match json_string_value(t) {
                Some(s) => ExtractModel::Token(s),
                None => ExtractModel::NotAString,
            },
        }
    }
}

/// Reads the token out of a pre-request hook's JSON response: each key of
/// the path in turn, then the string there.
pub fn extract_hook_token(body: &str, path: &Vec<String>) -> (r: Result<String, HookExtractError>)
    ensures
        extract_view(r) == extract_spec(body@, crate::json_args::string_views(path@)),
{
    let ghost keys = crate::json_args::string_views(path@);
    if !is_valid_json(body) {
        return Err(HookExtractError::InvalidJson);
    }
    let mut cur = string_from(body);
    let mut i: usize = 0;
    proof {
        assert(keys.skip(0) =~= keys);
    }
    while i < path.len()
        invariant
            i <= path.len(),
            keys == crate::json_args::string_views(path@),
            json_valid(body@),
            walk_path(body@, keys) == walk_path(cur@, keys.skip(i as int)),
        decreases path.len() - i,
    {
        proof {
            assert(keys.skip(i as int)[0] == path@[i as int]@);
            assert(keys.skip(i as int).drop_first() =~= keys.skip(i + 1));
        }
        match member_text(cur.as_str(), path[i].as_str()) {
            Some(t) => {
                cur = t;
            },
            None => {
                proof {
                    assert(keys.skip(i as int).len() > 0);
                    assert(walk_path(cur@, keys.skip(i as int)) == Err::<Seq<char>, Seq<char>>(path@[i as int]@));
                }
                return Err(HookExtractError::KeyNotFound(string_from(path[i].as_str())));
            },
        }
        i = i + 1;
    }
    proof {
        assert(keys.skip(path.len() as int) =~= Seq::<Seq<char>>::empty());
    }
    match string_value(cur.as_str()) {
        Some(s) => Ok(s),
        None => Err(HookExtractError::NotAString),
    }
}

impl HookExtractError {
    /// The error's message.
    pub fn message(&self) -> (r: String)
        ensures
            r@ == match self {
                HookExtractError::InvalidJson => "pre-request hook: response is not JSON"@,
                HookExtractError::KeyNotFound(k) => "pre-request hook: key '"@ + k@ + "' not found in response"@,
                HookExtractError::NotAString => "pre-request hook: extracted value is not a string"@,
            },
    {
        match self {
            HookExtractError::InvalidJson => string_from("pre-request hook: response is not JSON"),
            HookExtractError::KeyNotFound(k) => {
                let mut s = string_from("pre-request hook: key '");
                push_str(&mut s, k.as_str());
                push_str(&mut s, "' not found in response");
                s
            },
            HookExtractError::NotAString => string_from("pre-request hook: extracted value is not a string"),
        }
    }
}

/// The HTTP method of a pre-request hook.
#[derive(Debug, Clone, Copy, PartialEq, Eq, Structural)]
pub enum HookMethod {
    Get,
    Put,
    Post,
}

/// The method a configured method name stands for: `GET` and `PUT` in any
/// case; anything else is `POST`.
pub open spec fn hook_method_of(method: Seq<char>) -> HookMethod {
    let up = crate::model_critic::uppercase_of(method);
    if up == "GET"@ {
        HookMethod::Get
    } else if up == "PUT"@ {
        HookMethod::Put
    } else {
        HookMethod::Post
    }
}

/// The method of a pre-request hook, from its configured name.
pub fn hook_method(method: &str) -> (r: HookMethod)
    ensures
        r == hook_method_of(method@),
{
    let up = crate::model_critic::to_uppercase(method);
    if str_eq(up.as_str(), "GET") {
        HookMethod::Get
    } else if str_eq(up.as_str(), "PUT") {
        HookMethod::Put
    } else {
        HookMethod::Post
    }
}

/// The keys of a dotted extraction path, as `str::split('.')` yields them.
pub fn split_extract_path(path: &str) -> (r: Vec<String>)
    ensures
        r@.map_values(|k: String| k@) == crate::text::split_by(path@, |c: char| c == '.'),
{
    let cs = crate::text::chars_of(path);
    let ghost sep = |c: char| c == '.';
    let ghost mut done: Seq<Seq<char>> = Seq::empty();
    let mut cur: Vec<char> = Vec::new();
    let mut out: Vec<String> = Vec::new();
    proof {
        assert(cs@.take(0) =~= Seq::<char>::empty());
        assert(crate::text::split_by(cs@.take(0), sep) =~= done.push(cur@));
        assert(out@.map_values(|k: String| k@) =~= done);
    }
    let mut i: usize = 0;
    while i < cs.len()
        invariant
            i <= cs.len(),
            cs@ == path@,
            sep == (|c: char| c == '.'),
            crate::text::split_by(cs@.take(i as int), sep) == done.push(cur@),
            out@.map_values(|k: String| k@) == done,
        decreases cs.len() - i,
    {
        proof {
            crate::text::lemma_split_by_step(cs@, sep, i as int, done, cur@);
        }
        let c = cs[i];
        if c == '.' {
            let ghost before = out@;
            out.push(crate::text::string_of(cur.as_slice()));
            proof {
                assert(out@.map_values(|k: String| k@) =~= before.map_values(|k: String| k@).push(cur@));
                done = done.push(cur@);
            }
            cur = Vec::new();
            proof {
                assert(done.push(cur@) =~= done.push(Seq::<char>::empty()));
            }
        } else {
            cur.push(c);
        }
        i = i + 1;
    }
    proof {
        assert(cs@.take(cs@.len() as int) =~= cs@);
    }
    let ghost before = out@;
    out.push(crate::text::string_of(cur.as_slice()));
    proof {
        assert(out@.map_values(|k: String| k@) =~= before.map_values(|k: String| k@).push(cur@));
    }
    out
}

// ───────────────────────── replaying a response as a stream ─────────────────────────

/// Token counts of a model call.
#[derive(Debug, Clone, Copy, PartialEq, Eq, Structural)]
pub struct Usage {
    pub prompt_tokens: u32,
    pub completion_tokens: u32,
    pub total_tokens: u32,
}

/// One choice of a complete model response.
#[derive(Debug, Clone)]
pub struct ChatChoice {
    pub index: u32,
    /// The assistant's text, if any.
    pub content: Option<String>,
    pub tool_calls: Option<Vec<ToolCall>>,
    pub finish_reason: Option<String>,
}

/// A complete model response.
#[derive(Debug, Clone)]
pub struct ChatResponse {
    pub id: String,
    pub object: String,
    pub created: u64,
    pub model: String,
    pub choices: Vec<ChatChoice>,
    pub usage: Option<Usage>,
}

/// What one streamed chunk adds to a choice.
#[derive(Debug)]
pub struct DeltaContent {
    /// Set (to the assistant) on a chunk that carries text.
    pub assistant_role: bool,
    pub content: Option<String>,
    pub reasoning_content: Option<String>,
    pub tool_calls: Option<Vec<StreamToolCallDelta>>,
}

/// One choice of a streamed chunk.
#[derive(Debug)]
pub struct StreamChoice {
    pub index: u32,
    pub delta: DeltaContent,
    pub finish_reason: Option<String>,
}

/// One streamed chunk.
#[derive(Debug)]
pub struct StreamDelta {
    pub id: String,
    pub object: String,
    pub created: u64,
    pub model: String,
    pub choices: Vec<StreamChoice>,
    pub usage: Option<Usage>,
}

/// The object name of a streamed chunk.
pub const CHUNK_OBJECT: &'static str = "chat.completion.chunk";

/// What a chunk of the replay carries.
pub enum ChunkModel {
    /// The choice's text.
    Text(Seq<char>),
    /// One tool call of the choice: its position, id, name and arguments.
    Call(u32, Seq<char>, Seq<char>, Seq<char>),
    /// The choice's end, with its finish reason and the response's usage.
    End(Option<Seq<char>>, Option<Usage>),
}

/// The chunk with a choice's text, if it has any.
pub open spec fn text_chunks(c: ChatChoice) -> Seq<(u32, ChunkModel)> {
    match c.content {
        Some(t) => seq![(c.index, ChunkModel::Text(t@))],
        None => Seq::empty(),
    }
}

/// One chunk per tool call of a choice.
pub open spec fn call_chunks(c: ChatChoice) -> Seq<(u32, ChunkModel)> {
    match c.tool_calls {
        Some(tcs) => Seq::new(
            tcs@.len(),
            |i: int| (c.index, ChunkModel::Call(i as u32, tcs@[i].id@, tcs@[i].name@, tcs@[i].arguments@)),
        ),
        None => Seq::empty(),
    }
}

/// The chunks that replay one choice: its text, if any; then one chunk per
/// tool call; then the closing chunk.
pub open spec fn choice_chunks(c: ChatChoice, usage: Option<Usage>) -> Seq<(u32, ChunkModel)> {
    text_chunks(c) + call_chunks(c) + seq![(c.index, ChunkModel::End(crate::json_args::opt_view(c.finish_reason), usage))]
}

/// The chunks that replay all choices, in order.
pub open spec fn response_chunks(choices: Seq<ChatChoice>, usage: Option<Usage>) -> Seq<(u32, ChunkModel)>
    decreases choices.len(),
{
    if choices.len() == 0 {
        Seq::empty()
    } else {
        response_chunks(choices.drop_last(), usage) + choice_chunks(choices.last(), usage)
    }
}

/// What a streamed chunk carries, when it is one the replay makes.
pub open spec fn chunk_model(d: StreamDelta) -> Option<(u32, ChunkModel)> {
    if d.choices.len() != 1 {
        None
    } else {
        let ch = d.choices@[0];
        let dc = ch.delta;
        if dc.reasoning_content is Some {
            None
        } else if dc.assistant_role && dc.content is Some && dc.tool_calls is None && ch.finish_reason is None
            && d.usage is None {
            Some((ch.index, ChunkModel::Text(dc.content->0@)))
        } else if !dc.assistant_role && dc.content is None && dc.tool_calls is Some && dc.tool_calls->0.len() == 1
            && ch.finish_reason is None && d.usage is None {
            let tc = dc.tool_calls->0@[0];
            if tc.id is Some && tc.call_type is Some && tc.call_type->0@ == "function"@ && tc.function is Some
                && tc.function->0.name is Some && tc.function->0.arguments is Some {
                Some((ch.index, ChunkModel::Call(tc.index, tc.id->0@, tc.function->0.name->0@, tc.function->0.arguments->0@)))
            } else {
                None
            }
        } else if !dc.assistant_role && dc.content is None && dc.tool_calls is None {
            Some((ch.index, ChunkModel::End(crate::json_args::opt_view(ch.finish_reason), d.usage)))
        } else {
            None
        }
    }
}

/// Whether `d` carries the response's id, object name, time and model.
pub open spec fn chunk_header(d: StreamDelta, r: ChatResponse) -> bool {
    d.id@ == r.id@ && d.object@ == CHUNK_OBJECT@ && d.created == r.created && d.model@ == r.model@
}

fn opt_clone(o: &Option<String>) -> (r: Option<String>)
    ensures
        crate::json_args::opt_view(r) == crate::json_args::opt_view(*o),
{
    match o {
        Some(s) => Some(s.clone()),
        None => None,
    }
}

fn chunk(r: &ChatResponse, index: u32, delta: DeltaContent, finish_reason: Option<String>, usage: Option<Usage>) -> (d: StreamDelta)
    ensures
        chunk_header(d, *r),
        d.choices.len() == 1,
        d.choices@[0].index == index,
        d.choices@[0].delta == delta,
        d.choices@[0].finish_reason == finish_reason,
        d.usage == usage,
{
    let mut choices: Vec<StreamChoice> = Vec::new();
    choices.push(StreamChoice { index, delta, finish_reason });
    StreamDelta {
        id: r.id.clone(),
        object: string_from(CHUNK_OBJECT),
        created: r.created,
        model: r.model.clone(),
        choices,
        usage,
    }
}

/// Replays a complete response as streamed chunks, for providers that do
/// not stream: per choice, its text, then each tool call, then a closing
/// chunk with the finish reason and the response's usage.
pub fn chat_response_to_stream_deltas(resp: &ChatResponse) -> (r: Vec<StreamDelta>)
    ensures
        r@.len() == response_chunks(resp.choices@, resp.usage).len(),
        forall|k: int| 0 <= k < r@.len() ==> chunk_header(#[trigger] r@[k], *resp)
            && chunk_model(r@[k]) == Some(response_chunks(resp.choices@, resp.usage)[k]),
{
    let mut out: Vec<StreamDelta> = Vec::new();
    let mut c: usize = 0;
    while c < resp.choices.len()
        invariant
            c <= resp.choices.len(),
            out@.len() == response_chunks(resp.choices@.take(c as int), resp.usage).len(),
            forall|k: int| 0 <= k < out@.len() ==> chunk_header(#[trigger] out@[k], *resp)
                && chunk_model(out@[k]) == Some(response_chunks(resp.choices@.take(c as int), resp.usage)[k]),
        decreases resp.choices.len() - c,
    {
        let choice = &resp.choices[c];
        let ghost prefix = response_chunks(resp.choices@.take(c as int), resp.usage);
        let ghost mine = choice_chunks(*choice, resp.usage);
        let ghost base = out@.len() as int;
        proof {
            assert(resp.choices@.take(c + 1).drop_last() =~= resp.choices@.take(c as int));
            assert(resp.choices@.take(c + 1).last() == *choice);
        }
        let ghost text = text_chunks(*choice);
        let ghost calls_m = call_chunks(*choice);
        let ghost end_m = (choice.index, ChunkModel::End(crate::json_args::opt_view(choice.finish_reason), resp.usage));
        proof {
            assert(mine == text + calls_m + seq![end_m]);
        }
        match &choice.content {
            Some(t) => {
                let d = chunk(resp, choice.index, DeltaContent {
                    assistant_role: true,
                    content: Some(t.clone()),
                    reasoning_content: None,
                    tool_calls: None,
                }, None, None);
                out.push(d);
            },
            None => {},
        }
        proof {
            assert(out@.len() == base + text.len());
            assert forall|k: int| base <= k < out@.len() implies chunk_model(#[trigger] out@[k]) == Some(mine[k - base]) by {
                assert(mine[k - base] == text[k - base]);
            }
        }
        match &choice.tool_calls {
            Some(tcs) => {
                let mut i: usize = 0;
                while i < tcs.len()
                    invariant
                        i <= tcs.len(),
                        choice.tool_calls == Some(*tcs),
                        mine == text + calls_m + seq![end_m],
                        calls_m == call_chunks(*choice),
                        0 <= base,
                        prefix.len() == base,
                        out@.len() == base + text.len() + i,
                        forall|k: int| 0 <= k < out@.len() ==> chunk_header(#[trigger] out@[k], *resp),
                        forall|k: int| 0 <= k < base ==> chunk_model(#[trigger] out@[k]) == Some(prefix[k]),
                        forall|k: int| base <= k < out@.len() ==> chunk_model(#[trigger] out@[k]) == Some(mine[k - base]),
                    decreases tcs.len() - i,
                {
                    let tc = &tcs[i];
                    let mut calls: Vec<StreamToolCallDelta> = Vec::new();
                    calls.push(StreamToolCallDelta {
                        index: i as u32,
                        id: Some(tc.id.clone()),
                        call_type: Some(string_from("function")),
                        function: Some(FunctionCallDelta { name: Some(tc.name.clone()), arguments: Some(tc.arguments.clone()) }),
                    });
                    let d = chunk(resp, choice.index, DeltaContent {
                        assistant_role: false,
                        content: None,
                        reasoning_content: None,
                        tool_calls: Some(calls),
                    }, None, None);
                    proof {
                        let k = base + text.len() + i;
                        assert(mine[k - base] == calls_m[i as int]);
                        assert(chunk_model(d) == Some(calls_m[i as int]));
                    }
                    let ghost before = out@;
                    let ghost dd = d;
                    out.push(d);
                    proof {
                        assert forall|k: int| base <= k < out@.len() implies chunk_model(#[trigger] out@[k]) == Some(mine[k - base]) by {
                            if k < before.len() {
                                assert(before.push(dd)[k] == before[k]);
                            } else {
                                assert(before.push(dd)[k] == dd);
                            }
                        }
                        assert forall|k: int| 0 <= k < base implies chunk_model(#[trigger] out@[k]) == Some(prefix[k]) by {
                            assert(before.push(dd)[k] == before[k]);
                        }
                        assert forall|k: int| 0 <= k < out@.len() implies chunk_header(#[trigger] out@[k], *resp) by {
                            if k < before.len() {
                                assert(before.push(dd)[k] == before[k]);
                            } else {
                                assert(before.push(dd)[k] == dd);
                            }
                        }
                    }
                    i = i + 1;
                }
            },
            None => {},
        }
        let d = chunk(resp, choice.index, DeltaContent {
            assistant_role: false,
            content: None,
            reasoning_content: None,
            tool_calls: None,
        }, opt_clone(&choice.finish_reason), resp.usage);
        proof {
            assert(out@.len() == base + text.len() + calls_m.len());
            assert(mine[(text.len() + calls_m.len()) as int] == end_m);
            assert(chunk_model(d) == Some(end_m));
        }
        out.push(d);
        proof {
            let next = response_chunks(resp.choices@.take(c + 1), resp.usage);
            assert(next == prefix + mine);
            assert forall|k: int| 0 <= k < out@.len() implies chunk_header(#[trigger] out@[k], *resp)
                && chunk_model(out@[k]) == Some(next[k]) by {
                if k < base {
                    assert(next[k] == prefix[k]);
                } else {
                    assert(next[k] == mine[k - base]);
                }
            }
        }
        c = c + 1;
    }
    proof {
        assert(resp.choices@.take(resp.choices.len() as int) =~= resp.choices@);
    }
    out
}

// ───────────────────── replies of the messages protocol ─────────────────────

/// One content block of a reply of the messages protocol, as read from its
/// JSON text: its `type`, `text`, `id` and `name` members, and its `input`
/// member written back as JSON text.
#[derive(Debug, Clone)]
pub struct ReplyBlock {
    pub kind: Option<String>,
    pub text: Option<String>,
    pub id: Option<String>,
    pub name: Option<String>,
    pub input: Option<String>,
}

/// A reply of the messages protocol, as read from its JSON text.
#[derive(Debug, Clone)]
pub struct ReplyFields {
    pub id: Option<String>,
    pub model: Option<String>,
    pub stop_reason: Option<String>,
    /// The elements of the `content` array (none when there is no such array).
    pub blocks: Vec<ReplyBlock>,
    /// `usage.input_tokens`.
    pub input_tokens: Option<u64>,
    /// `usage.output_tokens`.
    pub output_tokens: Option<u64>,
}

/// The view of a [`ReplyBlock`].
pub struct BlockModel {
    pub kind: Option<Seq<char>>,
    pub text: Option<Seq<char>>,
    pub id: Option<Seq<char>>,
    pub name: Option<Seq<char>>,
    pub input: Option<Seq<char>>,
}

/// The view of a [`ReplyFields`].
pub struct ReplyModel {
    pub id: Option<Seq<char>>,
    pub model: Option<Seq<char>>,
    pub stop_reason: Option<Seq<char>>,
    pub blocks: Seq<BlockModel>,
    pub input_tokens: Option<u64>,
    pub output_tokens: Option<u64>,
}

impl View for ReplyBlock {
    type V = BlockModel;

    open spec fn view(&self) -> BlockModel {
        BlockModel {
            kind: opt_view(self.kind),
            text: opt_view(self.text),
            id: opt_view(self.id),
            name: opt_view(self.name),
            input: opt_view(self.input),
        }
    }
}

impl View for ReplyFields {
    type V = ReplyModel;

    open spec fn view(&self) -> ReplyModel {
        ReplyModel {
            id: opt_view(self.id),
            model: opt_view(self.model),
            stop_reason: opt_view(self.stop_reason),
            blocks: self.blocks@.map_values(|b: ReplyBlock| b@),
            input_tokens: self.input_tokens,
            output_tokens: self.output_tokens,
        }
    }
}

/// The text of `o`, or `default` when there is none.
pub open spec fn text_or(o: Option<Seq<char>>, default: Seq<char>) -> Seq<char> {
    match o {
        Some(t) => t,
        None => default,
    }
}

/// The type of a block (empty when it has none).
pub open spec fn block_type(b: BlockModel) -> Seq<char> {
    text_or(b.kind, ""@)
}

/// The texts of the `text` blocks that carry one, in order.
pub open spec fn reply_text_parts(bs: Seq<BlockModel>) -> Seq<Seq<char>>
    decreases bs.len(),
{
    if bs.len() == 0 {
        Seq::empty()
    } else {
        let b = bs.last();
        if block_type(b) == "text"@ && b.text is Some {
            reply_text_parts(bs.drop_last()).push(b.text->0)
        } else {
            reply_text_parts(bs.drop_last())
        }
    }
}

/// The id, name and arguments of the calls of the `tool_use` blocks, in
/// order; a missing id or name is empty, missing input is `{}`.
pub open spec fn reply_calls(bs: Seq<BlockModel>) -> Seq<(Seq<char>, Seq<char>, Seq<char>)>
    decreases bs.len(),
{
    if bs.len() == 0 {
        Seq::empty()
    } else {
        let b = bs.last();
        if block_type(b) == "tool_use"@ {
            reply_calls(bs.drop_last()).push((text_or(b.id, ""@), text_or(b.name, ""@), text_or(b.input, "{}"@)))
        } else {
            reply_calls(bs.drop_last())
        }
    }
}

/// The finish reason that a stop reason stands for.
pub open spec fn finish_reason_of(stop: Seq<char>) -> Seq<char> {
    if stop == "tool_use"@ {
        "tool_calls"@
    } else {
        stop
    }
}

/// A token count cut to 32 bits; none counts as 0.
pub open spec fn token_count(o: Option<u64>) -> u32 {
    match o {
        Some(n) => n as u32,
        None => 0,
    }
}

/// Whether the two token counts of a reply sum to a `u32`.
pub open spec fn usage_fits(m: ReplyModel) -> bool {
    token_count(m.input_tokens) + token_count(m.output_tokens) <= u32::MAX
}

/// The id, name and arguments of each call of a list.
pub open spec fn triples(v: Seq<ToolCall>) -> Seq<(Seq<char>, Seq<char>, Seq<char>)> {
    v.map_values(|c: ToolCall| (c.id@, c.name@, c.arguments@))
}

/// The id, name and arguments of each call of an optional list.
pub open spec fn call_triples(o: Option<Vec<ToolCall>>) -> Option<Seq<(Seq<char>, Seq<char>, Seq<char>)>> {
    match o {
        Some(v) => Some(triples(v@)),
        None => None,
    }
}

/// Whether `r` is the chat response for reply `m` received at `created`:
/// one assistant choice with the joined texts (none when no block carries
/// text), the tool calls (none when there are none), the finish reason of
/// the stop reason (`stop` when it is missing), and the usage.
pub open spec fn reply_response(r: ChatResponse, m: ReplyModel, created: u64) -> bool {
    let parts = reply_text_parts(m.blocks);
    let calls = reply_calls(m.blocks);
    let input = token_count(m.input_tokens);
    let output = token_count(m.output_tokens);
    &&& r.id@ == text_or(m.id, ""@)
    &&& r.object@ == COMPLETION_OBJECT@
    &&& r.created == created
    &&& r.model@ == text_or(m.model, ""@)
    &&& r.choices.len() == 1
    &&& r.choices@[0].index == 0
    &&& opt_view(r.choices@[0].content) == (if parts.len() == 0 { None } else { Some(concat_all(parts)) })
    &&& call_triples(r.choices@[0].tool_calls) == (if calls.len() == 0 { None } else { Some(calls) })
    &&& opt_view(r.choices@[0].finish_reason) == Some(finish_reason_of(text_or(m.stop_reason, "stop"@)))
    &&& r.usage == Some(Usage { prompt_tokens: input, completion_tokens: output, total_tokens: (input + output) as u32 })
}

/// The object name of a complete response.
pub const COMPLETION_OBJECT: &'static str = "chat.completion";

pub(crate) fn string_or(o: &Option<String>, default: &str) -> (r: String)
    ensures
        r@ == text_or(opt_view(*o), default@),
{
    match o {
        Some(t) => t.clone(),
        None => string_from(default),
    }
}

pub(crate) fn count_of(o: Option<u64>) -> (r: u32)
    ensures
        r == token_count(o),
{
    match o {
        Some(n) => n as u32,
        None => 0,
    }
}

/// The chat response for a reply of the messages protocol received at
/// `created`.
pub fn chat_response_from_reply(f: &ReplyFields, created: u64) -> (r: ChatResponse)
    requires
        usage_fits(f@),
    ensures
        reply_response(r, f@, created),
{
    let ghost bs = f@.blocks;
    let mut text = String::new();
    let mut parts: usize = 0;
    let mut calls: Vec<ToolCall> = Vec::new();
    let mut i: usize = 0;
    while i < f.blocks.len()
        invariant
            i <= f.blocks.len(),
            bs == f@.blocks,
            bs.len() == f.blocks@.len(),
            parts as int == reply_text_parts(bs.take(i as int)).len(),
            text@ == concat_all(reply_text_parts(bs.take(i as int))),
            call_triples(Some(calls)) == Some(reply_calls(bs.take(i as int))),
        decreases f.blocks.len() - i,
    {
        let b = &f.blocks[i];
        proof {
            assert(bs.take(i + 1).drop_last() =~= bs.take(i as int));
            assert(bs.take(i + 1).last() == b@);
            assert(parts <= i) by {
                lemma_parts_at_most(bs.take(i as int));
            }
        }
        let kind = string_or(&b.kind, "");
        proof {
            reveal_strlit("text");
            reveal_strlit("tool_use");
        }
        if str_eq(kind.as_str(), "text") {
            match &b.text {
                Some(t) => {
                    proof {
                        let prev = reply_text_parts(bs.take(i as int));
                        assert(reply_text_parts(bs.take(i + 1)) == prev.push(t@));
                        assert(prev.push(t@).drop_last() =~= prev);
                    }
                    push_str(&mut text, t.as_str());
                    parts = parts + 1;
                },
                None => {},
            }
            proof {
                assert("text"@.len() != "tool_use"@.len());
                assert(block_type(bs.take(i + 1).last()) == "text"@);
            }
        } else if str_eq(kind.as_str(), "tool_use") {
            let call = ToolCall {
                id: string_or(&b.id, ""),
                name: string_or(&b.name, ""),
                arguments: string_or(&b.input, "{}"),
            };
            let ghost before = calls@;
            proof {
                assert(reply_calls(bs.take(i + 1)) == reply_calls(bs.take(i as int)).push((call.id@, call.name@, call.arguments@)));
            }
            calls.push(call);
            proof {
                assert(triples(calls@) =~= triples(before).push((call.id@, call.name@, call.arguments@)));
            }
        }
        i = i + 1;
    }
    proof {
        assert(bs.take(f.blocks.len() as int) =~= bs);
    }
    let input = count_of(f.input_tokens);
    let output = count_of(f.output_tokens);
    let stop = string_or(&f.stop_reason, "stop");
    let finish = if str_eq(stop.as_str(), "tool_use") { string_from("tool_calls") } else { stop };
    let mut choices: Vec<ChatChoice> = Vec::new();
    choices.push(ChatChoice {
        index: 0,
        content: if parts == 0 { None } else { Some(text) },
        tool_calls: if calls.len() == 0 { None } else { Some(calls) },
        finish_reason: Some(finish),
    });
    ChatResponse {
        id: string_or(&f.id, ""),
        object: string_from(COMPLETION_OBJECT),
        created,
        model: string_or(&f.model, ""),
        choices,
        usage: Some(Usage { prompt_tokens: input, completion_tokens: output, total_tokens: input + output }),
    }
}

proof fn lemma_parts_at_most(bs: Seq<BlockModel>)
    ensures
        reply_text_parts(bs).len() <= bs.len(),
    decreases bs.len(),
{
    if bs.len() > 0 {
        lemma_parts_at_most(bs.drop_last());
    }
}

/// What a content block's JSON text `item` holds.
pub open spec fn block_model(item: Seq<char>) -> BlockModel {
    BlockModel {
        kind: json_string_member(item, "type"@),
        text: json_string_member(item, "text"@),
        id: json_string_member(item, "id"@),
        name: json_string_member(item, "name"@),
        input: json_member_text(item, "input"@),
    }
}

/// A member of the `usage` object of the JSON text `body`.
pub open spec fn usage_member(body: Seq<char>, key: Seq<char>) -> Option<u64> {
    match json_member_text(body, "usage"@) {
        Some(u) => json_u64_member(u, key),
        None => None,
    }
}

/// What a reply's JSON text `body` holds.
pub open spec fn reply_model(body: Seq<char>) -> ReplyModel {
    ReplyModel {
        id: json_string_member(body, "id"@),
        model: json_string_member(body, "model"@),
        stop_reason: json_string_member(body, "stop_reason"@),
        blocks: match json_array_member_items(body, "content"@) {
            Some(items) => items.map_values(|t: Seq<char>| block_model(t)),
            None => Seq::empty(),
        },
        input_tokens: usage_member(body, "input_tokens"@),
        output_tokens: usage_member(body, "output_tokens"@),
    }
}

fn read_block(item: &str) -> (b: ReplyBlock)
    ensures
        b@ == block_model(item@),
{
    ReplyBlock {
        kind: string_member(item, "type"),
        text: string_member(item, "text"),
        id: string_member(item, "id"),
        name: string_member(item, "name"),
        input: member_text(item, "input"),
    }
}

fn read_usage(body: &str, key: &str) -> (r: Option<u64>)
    ensures
        r == usage_member(body@, key@),
{
    proof {
        reveal_strlit("usage");
    }
    match member_text(body, "usage") {
        Some(u) => u64_member(u.as_str(), key),
        None => None,
    }
}

/// Reads the members of a reply of the messages protocol from its JSON text.
pub fn read_reply(body: &str) -> (f: ReplyFields)
    ensures
        f@ == reply_model(body@),
{
    let mut blocks: Vec<ReplyBlock> = Vec::new();
    match array_member_items(body, "content") {
        Some(items) => {
            let ghost seen = crate::json_args::string_views(items@);
            let mut i: usize = 0;
            while i < items.len()
                invariant
                    i <= items.len(),
                    seen == crate::json_args::string_views(items@),
                    blocks@.len() == i,
                    forall|k: int| 0 <= k < i ==> #[trigger] blocks@[k]@ == block_model(items@[k]@),
                decreases items.len() - i,
            {
                let b = read_block(items[i].as_str());
                blocks.push(b);
                i = i + 1;
            }
            proof {
                assert(blocks@.map_values(|b: ReplyBlock| b@) =~= seen.map_values(|t: Seq<char>| block_model(t)));
            }
        },
        None => {},
    }
    let f = ReplyFields {
        id: string_member(body, "id"),
        model: string_member(body, "model"),
        stop_reason: string_member(body, "stop_reason"),
        blocks,
        input_tokens: read_usage(body, "input_tokens"),
        output_tokens: read_usage(body, "output_tokens"),
    };
    proof {
        assert(f@.blocks =~= reply_model(body@).blocks);
    }
    f
}

/// Converts the JSON text of a reply of the messages protocol, received at
/// `created`, into a chat response.  `None` when the two token counts, each
/// cut to 32 bits, sum past `u32::MAX`.
pub fn anthropic_value_to_chat_response(body: &str, created: u64) -> (r: Option<ChatResponse>)
    ensures
        match r {
            Some(resp) => usage_fits(reply_model(body@)) && reply_response(resp, reply_model(body@), created),
            None => !usage_fits(reply_model(body@)),
        },
{
    let f = read_reply(body);
    let input = count_of(f.input_tokens);
    let output = count_of(f.output_tokens);
    if input > u32::MAX - output {
        None
    } else {
        Some(chat_response_from_reply(&f, created))
    }
}

// ───────────────────── lines of a process plugin's stream ─────────────────────

/// What the first line a process plugin answers a stream request with
/// decides.
#[derive(Debug)]
pub enum FirstLine {
    /// The plugin does not stream: ask for a complete response and replay it.
    FallBack,
    /// The plugin reported an error: the request fails with this message.
    Fail(String),
    /// The line starts the stream.
    Stream,
}

/// The view of a [`FirstLine`].
pub enum FirstLineModel {
    FallBack,
    Fail(Seq<char>),
    Stream,
}

impl View for FirstLine {
    type V = FirstLineModel;

    open spec fn view(&self) -> FirstLineModel {
        match self {
            FirstLine::FallBack => FirstLineModel::FallBack,
            FirstLine::Fail(m) => FirstLineModel::Fail(m@),
            FirstLine::Stream => FirstLineModel::Stream,
        }
    }
}

/// The message of a plugin's error object `err` (JSON text).
pub open spec fn plugin_error_message(err: Seq<char>) -> Seq<char> {
    "plugin process error: "@ + text_or(json_string_member(err, "message"@), "unknown error"@)
}

/// What the first line decides: an error object whose code is
/// `unknown_method` or `unsupported_method` falls back to a complete
/// response, another error fails, anything else starts the stream.
pub open spec fn first_line_spec(line: Seq<char>) -> FirstLineModel {
    match json_member_text(crate::text::trim(line), "error"@) {
        Some(err) => {
            let code = text_or(json_string_member(err, "code"@), ""@);
            if code == "unknown_method"@ || code == "unsupported_method"@ {
                FirstLineModel::FallBack
            } else {
                FirstLineModel::Fail(plugin_error_message(err))
            }
        },
        None => FirstLineModel::Stream,
    }
}

fn error_message(err: &str) -> (r: String)
    ensures
        r@ == plugin_error_message(err@),
{
    let mut s = string_from("plugin process error: ");
    let m = string_or(&string_member(err, "message"), "unknown error");
    push_str(&mut s, m.as_str());
    s
}

/// Decides what the first line of a plugin's stream means (see
/// `first_line_spec`).
pub fn first_stream_line(line: &str) -> (r: FirstLine)
    ensures
        r@ == first_line_spec(line@),
{
    let cs = crate::text::chars_of(line);
    let t = crate::text::string_of(crate::text::trim_chars(cs.as_slice()).as_slice());
    match member_text(t.as_str(), "error") {
        Some(err) => {
            let code = string_or(&string_member(err.as_str(), "code"), "");
            if str_eq(code.as_str(), "unknown_method") || str_eq(code.as_str(), "unsupported_method") {
                FirstLine::FallBack
            } else {
                FirstLine::Fail(error_message(err.as_str()))
            }
        },
        None => FirstLine::Stream,
    }
}

/// What one line of a plugin's stream asks for.
#[derive(Debug)]
pub enum StreamLine {
    /// Not JSON: skip it and read on.
    Skip,
    /// The stream is done: send a closing chunk with this model and the
    /// usage (JSON text) when it parses as usage, then stop.
    Done { model: String, usage: Option<String> },
    /// The plugin reported an error: send this message and stop.
    Fail(String),
    /// A chunk to parse and send.
    Chunk,
}

/// The view of a [`StreamLine`].
pub enum StreamLineModel {
    Skip,
    Done { model: Seq<char>, usage: Option<Seq<char>> },
    Fail(Seq<char>),
    Chunk,
}

impl View for StreamLine {
    type V = StreamLineModel;

    open spec fn view(&self) -> StreamLineModel {
        match self {
            StreamLine::Skip => StreamLineModel::Skip,
            StreamLine::Done { model, usage } => StreamLineModel::Done { model: model@, usage: opt_view(*usage) },
            StreamLine::Fail(m) => StreamLineModel::Fail(m@),
            StreamLine::Chunk => StreamLineModel::Chunk,
        }
    }
}

/// What a (trimmed) stream line asks for: a line that is not JSON is
/// skipped; `"done": true` ends the stream; an `error` member fails it;
/// anything else is a chunk.
pub open spec fn stream_line_spec(line: Seq<char>) -> StreamLineModel {
    if !json_valid(line) {
        StreamLineModel::Skip
    } else if json_bool_member(line, "done"@) == Some(true) {
        StreamLineModel::Done {
            model: text_or(json_string_member(line, "model"@), ""@),
            usage: json_member_text(line, "usage"@),
        }
    } else {
        match json_member_text(line, "error"@) {
            Some(err) => StreamLineModel::Fail(plugin_error_message(err)),
            None => StreamLineModel::Chunk,
        }
    }
}

/// Decides what a trimmed line of a plugin's stream asks for (see
/// `stream_line_spec`).
pub fn stream_line_action(line: &str) -> (r: StreamLine)
    ensures
        r@ == stream_line_spec(line@),
{
    if !is_valid_json(line) {
        return StreamLine::Skip;
    }
    match bool_member(line, "done") {
        Some(true) => {
            return StreamLine::Done { model: string_or(&string_member(line, "model"), ""), usage: member_text(line, "usage") };
        },
        _ => {},
    }
    match member_text(line, "error") {
        Some(err) => StreamLine::Fail(error_message(err.as_str())),
        None => StreamLine::Chunk,
    }
}

/// The chunk that closes a plugin's stream: no content, finish reason
/// `stop`, and the usage.
pub open spec fn closing_chunk(d: StreamDelta, model: Seq<char>, usage: Usage, created: u64) -> bool {
    &&& d.id@ == Seq::<char>::empty()
    &&& d.object@ == CHUNK_OBJECT@
    &&& d.created == created
    &&& d.model@ == model
    &&& d.choices.len() == 1
    &&& d.choices@[0].index == 0
    &&& !d.choices@[0].delta.assistant_role
    &&& d.choices@[0].delta.content is None
    &&& d.choices@[0].delta.reasoning_content is None
    &&& d.choices@[0].delta.tool_calls is None
    &&& opt_view(d.choices@[0].finish_reason) == Some("stop"@)
    &&& d.usage == Some(usage)
}

/// Builds the chunk that closes a plugin's stream (see `closing_chunk`).
pub fn done_chunk(model: &str, usage: Usage, created: u64) -> (d: StreamDelta)
    ensures
        closing_chunk(d, model@, usage, created),
{
    let mut choices: Vec<StreamChoice> = Vec::new();
    choices.push(StreamChoice {
        index: 0,
        delta: DeltaContent { assistant_role: false, content: None, reasoning_content: None, tool_calls: None },
        finish_reason: Some(string_from("stop")),
    });
    StreamDelta {
        id: String::new(),
        object: string_from(CHUNK_OBJECT),
        created,
        model: string_from(model),
        choices,
        usage: Some(usage),
    }
}

/// Whether a leniently read chunk is sent: when it has a choice or usage.
pub fn keeps_lenient_chunk(d: &StreamDelta) -> (r: bool)
    ensures
        r == (d.choices@.len() > 0 || d.usage is Some),
{
    d.choices.len() > 0 || d.usage.is_some()
}

} // verus!

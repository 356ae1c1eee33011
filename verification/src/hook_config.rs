//! Hook configuration: which shell commands run before or after tool calls
//! and when the agent stops.
use vstd::prelude::*;
use crate::api_errors::{duration_of, make_duration};
use crate::glob;
use crate::text;
use std::time::Duration;

verus! {

/// Which tools a configured hook applies to.
#[derive(Debug, Clone)]
pub enum HookMatcher {
    /// Every tool.
    AllTools,
    /// The tool with exactly this name.
    ToolName { name: String },
    /// Tools whose names match this glob pattern.
    ToolPattern { pattern: String },
}

/// Mathematical form of `HookMatcher`.
pub enum HookMatcherModel {
    AllTools,
    ToolName(Seq<char>),
    ToolPattern(Seq<char>),
}

impl View for HookMatcher {
    type V = HookMatcherModel;

    open spec fn view(&self) -> HookMatcherModel {
        match self {
            HookMatcher::AllTools => HookMatcherModel::AllTools,
            HookMatcher::ToolName { name } => HookMatcherModel::ToolName(name@),
            HookMatcher::ToolPattern { pattern } => HookMatcherModel::ToolPattern(pattern@),
        }
    }
}

/// Whether a hook matcher applies to the tool named `tool`.
pub open spec fn hook_matches(m: HookMatcherModel, tool: Seq<char>) -> bool {
    match m {
        HookMatcherModel::AllTools => true,
        HookMatcherModel::ToolName(n) => n == tool,
        HookMatcherModel::ToolPattern(p) => glob::glob_matches(p, tool),
    }
}

impl HookMatcher {
    /// Whether the matcher applies to `tool_name`.
    pub fn matches(&self, tool_name: &str) -> (r: bool)
        ensures
            r == hook_matches(self@, tool_name@),
    {
        match self {
            HookMatcher::AllTools => true,
            HookMatcher::ToolName { name } => text::str_eq(name.as_str(), tool_name),
            HookMatcher::ToolPattern { pattern } => glob::glob_match(pattern.as_str(), tool_name),
        }
    }
}

/// One configured hook.
#[derive(Debug, Clone)]
pub struct HookSpec {
    pub matcher: HookMatcher,
    pub command: String,
    pub timeout_secs: u64,
    pub blocking: bool,
    pub working_dir: Option<String>,
}

/// Mathematical form of a hook: all of its settings.
pub struct HookSpecModel {
    pub matcher: HookMatcherModel,
    pub command: Seq<char>,
    pub timeout_secs: u64,
    pub blocking: bool,
    pub working_dir: Option<Seq<char>>,
}

impl View for HookSpec {
    type V = HookSpecModel;

    open spec fn view(&self) -> HookSpecModel {
        HookSpecModel {
            matcher: self.matcher@,
            command: self.command@,
            timeout_secs: self.timeout_secs,
            blocking: self.blocking,
            working_dir: match self.working_dir {
                Some(d) => Some(d@),
                None => None,
            },
        }
    }
}

/// The views of a sequence of hooks.
pub open spec fn spec_views(v: Seq<HookSpec>) -> Seq<HookSpecModel> {
    v.map_values(|h: HookSpec| h@)
}

/// The hooks of `v` that apply to `tool`, in order.
pub open spec fn matching(v: Seq<HookSpecModel>, tool: Seq<char>) -> Seq<HookSpecModel> {
    v.filter(|h: HookSpecModel| hook_matches(h.matcher, tool))
}

impl HookSpec {
    /// The hook's timeout.
    pub fn timeout(&self) -> (r: Duration)
        ensures
            r == duration_of(self.timeout_secs, 0),
    {
        make_duration(self.timeout_secs, 0)
    }
}

/// The timeout of a hook whose configuration gives none, in seconds.
pub fn default_timeout_secs() -> (r: u64)
    ensures
        r == 10,
{
    10
}

/// The hooks configured for each event.
#[derive(Debug, Clone)]
pub struct HookConfig {
    pub pre_tool_use: Vec<HookSpec>,
    pub post_tool_use: Vec<HookSpec>,
    pub stop: Vec<HookSpec>,
}

impl HookConfig {
    /// A configuration without hooks.
    pub fn empty() -> (r: Self)
        ensures
            r.pre_tool_use@.len() == 0,
            r.post_tool_use@.len() == 0,
            r.stop@.len() == 0,
    {
        HookConfig { pre_tool_use: Vec::new(), post_tool_use: Vec::new(), stop: Vec::new() }
    }

    /// Appends the hooks of `other`, event by event.
    pub fn merge(&mut self, other: HookConfig)
        ensures
            final(self).pre_tool_use@ == old(self).pre_tool_use@ + other.pre_tool_use@,
            final(self).post_tool_use@ == old(self).post_tool_use@ + other.post_tool_use@,
            final(self).stop@ == old(self).stop@ + other.stop@,
    {
        let mut other = other;
        self.pre_tool_use.append(&mut other.pre_tool_use);
        self.post_tool_use.append(&mut other.post_tool_use);
        self.stop.append(&mut other.stop);
    }

    /// Whether no hook is configured.
    pub fn is_empty(&self) -> (r: bool)
        ensures
            r == (self.pre_tool_use@.len() == 0 && self.post_tool_use@.len() == 0 && self.stop@.len() == 0),
    {
        self.pre_tool_use.len() == 0 && self.post_tool_use.len() == 0 && self.stop.len() == 0
    }

    /// Number of configured hooks.
    pub fn total_hooks(&self) -> (r: usize)
        requires
            self.pre_tool_use@.len() + self.post_tool_use@.len() + self.stop@.len() <= usize::MAX,
        ensures
            r == self.pre_tool_use@.len() + self.post_tool_use@.len() + self.stop@.len(),
    {
        self.pre_tool_use.len() + self.post_tool_use.len() + self.stop.len()
    }

    /// The pre-tool-use hooks that apply to `tool_name`, in order.
    pub fn matching_pre_hooks(&self, tool_name: &str) -> (r: Vec<&HookSpec>)
        ensures
            r@.map_values(|h: &HookSpec| h@) == matching(spec_views(self.pre_tool_use@), tool_name@),
    {
        matching_hooks(&self.pre_tool_use, tool_name)
    }

    /// The post-tool-use hooks that apply to `tool_name`, in order.
    pub fn matching_post_hooks(&self, tool_name: &str) -> (r: Vec<&HookSpec>)
        ensures
            r@.map_values(|h: &HookSpec| h@) == matching(spec_views(self.post_tool_use@), tool_name@),
    {
        matching_hooks(&self.post_tool_use, tool_name)
    }
}

fn matching_hooks<'a>(hooks: &'a Vec<HookSpec>, tool_name: &str) -> (r: Vec<&'a HookSpec>)
    ensures
        r@.map_values(|h: &HookSpec| h@) == matching(spec_views(hooks@), tool_name@),
{
    let ghost hs = spec_views(hooks@);
    let mut out: Vec<&HookSpec> = Vec::new();
    let mut i: usize = 0;
    while i < hooks.len()
        invariant
            i <= hooks.len(),
            hs == spec_views(hooks@),
            out@.map_values(|h: &HookSpec| h@) == matching(hs.subrange(0, i as int), tool_name@),
        decreases hooks.len() - i,
    {
        proof {
            reveal_with_fuel(Seq::<_>::filter, 1);
            assert(hs.subrange(0, i + 1).drop_last() =~= hs.subrange(0, i as int));
            assert(hs.subrange(0, i + 1).last() == hooks@[i as int]@);
        }
        let ghost ov = out@.map_values(|h: &HookSpec| h@);
        let h = &hooks[i];
        if h.matcher.matches(tool_name) {
            out.push(h);
            assert(out@.map_values(|h: &HookSpec| h@) =~= ov.push(h@));
        }
        i = i + 1;
    }
    assert(hs.subrange(0, hooks@.len() as int) =~= hs);
    out
}

} // verus!

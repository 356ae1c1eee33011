//! Registered hooks and the choice of which of them run for an event.
//!
//! Running a hook is a shell command with a timeout, which the caller does;
//! this module decides, event by event, which registered hooks apply.
use vstd::prelude::*;
use crate::glob;
use crate::text;
use std::time::Duration;

verus! {

/// Which events a registered hook applies to.
#[derive(Debug, Clone)]
pub enum HookEventFilter {
    /// Every event of the given type (`pre_tool_use`, `post_tool_use`, `stop`, ...).
    EventType(String),
    /// Tool events for the tool with exactly this name.
    ToolName(String),
    /// Tool events for tools whose names match this glob pattern.
    ToolPattern(String),
    /// Every event.
    All,
}

/// Mathematical form of `HookEventFilter`.
pub enum FilterModel {
    EventType(Seq<char>),
    ToolName(Seq<char>),
    ToolPattern(Seq<char>),
    All,
}

impl View for HookEventFilter {
    type V = FilterModel;

    open spec fn view(&self) -> FilterModel {
        match self {
            HookEventFilter::EventType(t) => FilterModel::EventType(t@),
            HookEventFilter::ToolName(n) => FilterModel::ToolName(n@),
            HookEventFilter::ToolPattern(p) => FilterModel::ToolPattern(p@),
            HookEventFilter::All => FilterModel::All,
        }
    }
}

/// Whether a filter applies to an event of type `event_type` concerning the
/// tool `tool` (if the event concerns a tool).
pub open spec fn filter_matches(f: FilterModel, event_type: Seq<char>, tool: Option<Seq<char>>) -> bool {
    match f {
        FilterModel::All => true,
        FilterModel::EventType(t) => t == event_type,
        FilterModel::ToolName(n) => tool == Some(n),
        FilterModel::ToolPattern(p) => match tool {
            Some(t) => glob::glob_matches(p, t),
            None => false,
        },
    }
}

/// The view of an optional text.
pub open spec fn opt_view(t: Option<&str>) -> Option<Seq<char>> {
    match t {
        Some(s) => Some(s@),
        None => None,
    }
}

impl HookEventFilter {
    /// Whether the filter applies to an event of type `event_type` that
    /// concerns the tool `tool_name`, if any.
    pub fn matches(&self, event_type: &str, tool_name: Option<&str>) -> (r: bool)
        ensures
            r == filter_matches(self@, event_type@, opt_view(tool_name)),
    {
        match self {
            HookEventFilter::All => true,
            HookEventFilter::EventType(t) => text::str_eq(t.as_str(), event_type),
            HookEventFilter::ToolName(name) => match tool_name {
                Some(t) => text::str_eq(t, name.as_str()),
                None => false,
            },
            HookEventFilter::ToolPattern(pattern) => match tool_name {
                Some(t) => glob::glob_match(pattern.as_str(), t),
                None => false,
            },
        }
    }
}

#[verifier::external_type_specification]
#[verifier::external_body]
pub struct ExPathBuf(std::path::PathBuf);

/// How a hook is run.
#[derive(Debug)]
pub enum HookHandler {
    /// A shell command, with the event as JSON in its environment.
    Shell { command: String, working_dir: Option<std::path::PathBuf> },
}

/// A registered hook: its filter, its handler, its timeout and whether it
/// may block the tool call.
#[derive(Debug)]
pub struct RegisteredHook {
    pub filter: HookEventFilter,
    pub handler: HookHandler,
    pub timeout: Duration,
    pub blocking: bool,
}

/// Mathematical form of a hook's handler: the command and the directory it
/// runs in.
pub enum HandlerModel {
    Shell { command: Seq<char>, working_dir: Option<std::path::PathBuf> },
}

impl View for HookHandler {
    type V = HandlerModel;

    open spec fn view(&self) -> HandlerModel {
        match self {
            HookHandler::Shell { command, working_dir } => HandlerModel::Shell {
                command: command@,
                working_dir: *working_dir,
            },
        }
    }
}

/// Mathematical form of a registered hook: what decides whether it runs,
/// and what runs.
pub struct RegisteredModel {
    pub filter: FilterModel,
    pub handler: HandlerModel,
    pub timeout: Duration,
    pub blocking: bool,
}

impl View for RegisteredHook {
    type V = RegisteredModel;

    open spec fn view(&self) -> RegisteredModel {
        RegisteredModel { filter: self.filter@, handler: self.handler@, timeout: self.timeout, blocking: self.blocking }
    }
}

/// Whether hook `h` runs for an event, given whether only blocking hooks run.
pub open spec fn runs_for(h: RegisteredModel, event_type: Seq<char>, tool: Option<Seq<char>>, blocking_only: bool) -> bool {
    filter_matches(h.filter, event_type, tool) && (!blocking_only || h.blocking)
}

/// The hooks that manage and dispatch hook events.
#[derive(Debug)]
pub struct HookExecutor {
    hooks: Vec<RegisteredHook>,
}

impl View for HookExecutor {
    type V = Seq<RegisteredModel>;

    closed spec fn view(&self) -> Seq<RegisteredModel> {
        self.hooks@.map_values(|h: RegisteredHook| h@)
    }
}

impl HookExecutor {
    /// An executor without hooks.
    pub fn new() -> (r: Self)
        ensures
            r@ == Seq::<RegisteredModel>::empty(),
    {
        let r = HookExecutor { hooks: Vec::new() };
        assert(r@ =~= Seq::empty());
        r
    }

    /// Registers a hook after the others.
    pub fn register(&mut self, hook: RegisteredHook)
        ensures
            final(self)@ == old(self)@.push(hook@),
    {
        let ghost before = self.hooks@;
        let ghost hv = hook@;
        self.hooks.push(hook);
        assert(self.hooks@.map_values(|h: RegisteredHook| h@) =~= before.map_values(|h: RegisteredHook| h@).push(hv));
    }

    /// Number of registered hooks.
    pub fn hook_count(&self) -> (r: usize)
        ensures
            r == self@.len(),
    {
        self.hooks.len()
    }

    /// The registered hook at position `i`.
    pub fn hook(&self, i: usize) -> (r: &RegisteredHook)
        requires
            i < self@.len(),
        ensures
            r@ == self@[i as int],
    {
        &self.hooks[i]
    }

    /// The first hook at or after position `from` that runs for an event of
    /// type `event_type` about `tool_name`; with `blocking_only`, only
    /// blocking hooks run (pre-tool-use events).
    pub fn next_hook(&self, from: usize, event_type: &str, tool_name: Option<&str>, blocking_only: bool) -> (r: Option<usize>)
        ensures
            match r {
                Some(i) => from <= i < self@.len() && runs_for(self@[i as int], event_type@, opt_view(tool_name), blocking_only)
                    && forall|j: int| from <= j < i ==> !runs_for(#[trigger] self@[j], event_type@, opt_view(tool_name), blocking_only),
                None => forall|j: int| from <= j < self@.len() ==> !runs_for(#[trigger] self@[j], event_type@, opt_view(tool_name), blocking_only),
            },
    {
        let ghost v = self@;
        let mut i = from;
        while i < self.hooks.len()
            invariant
                from <= i,
                v == self@,
                v.len() == self.hooks@.len(),
                forall|j: int| from <= j < i ==> !runs_for(#[trigger] v[j], event_type@, opt_view(tool_name), blocking_only),
            decreases self.hooks.len() - i,
        {
            let h = &self.hooks[i];
            assert(v[i as int] == h@);
            if h.filter.matches(event_type, tool_name) && (!blocking_only || h.blocking) {
                return Some(i);
            }
            i = i + 1;
        }
        None
    }

    /// The positions of the hooks that run for an event, in order.
    pub fn hooks_for(&self, event_type: &str, tool_name: Option<&str>, blocking_only: bool) -> (r: Vec<usize>)
        ensures
            forall|k: int| 0 <= k < r@.len() ==> (r@[k] as int) < self@.len() && runs_for(self@[r@[k] as int], event_type@, opt_view(tool_name), blocking_only),
            forall|j: int| 0 <= j < self@.len() && runs_for(#[trigger] self@[j], event_type@, opt_view(tool_name), blocking_only) ==> r@.contains(j as usize),
            forall|a: int, b: int| 0 <= a < b < r@.len() ==> r@[a] < r@[b],
    {
        let ghost v = self@;
        let mut out: Vec<usize> = Vec::new();
        let mut i: usize = 0;
        while i < self.hooks.len()
            invariant
                i <= self.hooks.len(),
                v == self@,
                v.len() == self.hooks@.len(),
                forall|k: int| 0 <= k < out@.len() ==> (out@[k] as int) < i && runs_for(v[out@[k] as int], event_type@, opt_view(tool_name), blocking_only),
                forall|j: int| 0 <= j < i && runs_for(#[trigger] v[j], event_type@, opt_view(tool_name), blocking_only) ==> out@.contains(j as usize),
                forall|a: int, b: int| 0 <= a < b < out@.len() ==> out@[a] < out@[b],
            decreases self.hooks.len() - i,
        {
            let h = &self.hooks[i];
            assert(v[i as int] == h@);
            let ghost o = out@;
            if h.filter.matches(event_type, tool_name) && (!blocking_only || h.blocking) {
                out.push(i);
                assert(out@[out@.len() - 1] == i);
                assert forall|x: usize| o.contains(x) implies out@.contains(x) by {
                    let k = choose|k: int| 0 <= k < o.len() && o[k] == x;
                    assert(out@[k] == x);
                }
            }
            i = i + 1;
        }
        out
    }
}

} // verus!

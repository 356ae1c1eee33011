//! Permission rules for tool calls.
//!
//! Rules are kept in two buckets.  Session rules are consulted first, then
//! global rules; within a bucket the first matching deny rule decides, and
//! otherwise any matching allow rule allows.  When no rule matches, the
//! caller's default applies.
use vstd::prelude::*;
use crate::text;
use crate::text::{chars_of, push_str, push_u64, string_from};
use crate::glob;

verus! {

/// Whether a matching rule allows or denies.
#[derive(Debug, Clone, Copy, PartialEq, Eq, Structural)]
pub enum RuleEffect {
    Allow,
    Deny,
}

/// Lifetime and priority of a rule.
#[derive(Debug, Clone, Copy, PartialEq, Eq, Structural)]
pub enum RuleScope {
    /// Expires with the session; consulted first.
    Session,
    /// Persists across sessions; consulted after session rules.
    Global,
}

/// Which tools a rule applies to.
#[derive(Debug, Clone)]
pub enum RuleMatcher {
    /// Exactly this tool name.
    Exact { tool: String },
    /// Tool names beginning with this prefix (e.g. `git:`).
    Prefix { prefix: String },
    /// Tool names matching this glob pattern (`*` and `?`).
    Wildcard { pattern: String },
}

/// Mathematical form of `RuleMatcher`.
pub enum MatcherModel {
    Exact(Seq<char>),
    Prefix(Seq<char>),
    Wildcard(Seq<char>),
}

impl View for RuleMatcher {
    type V = MatcherModel;

    open spec fn view(&self) -> MatcherModel {
        match self {
            RuleMatcher::Exact { tool } => MatcherModel::Exact(tool@),
            RuleMatcher::Prefix { prefix } => MatcherModel::Prefix(prefix@),
            RuleMatcher::Wildcard { pattern } => MatcherModel::Wildcard(pattern@),
        }
    }
}

/// Whether matcher `m` applies to the tool named `tool`.
pub open spec fn matcher_matches(m: MatcherModel, tool: Seq<char>) -> bool {
    match m {
        MatcherModel::Exact(t) => t == tool,
        MatcherModel::Prefix(p) => text::has_prefix(tool, p),
        MatcherModel::Wildcard(p) => glob::glob_matches(p, tool),
    }
}

impl RuleMatcher {
    /// Whether the matcher applies to `tool_name`.
    pub fn matches(&self, tool_name: &str) -> (r: bool)
        ensures
            r == matcher_matches(self@, tool_name@),
    {
        match self {
            RuleMatcher::Exact { tool } => text::str_eq(tool.as_str(), tool_name),
            RuleMatcher::Prefix { prefix } => text::str_starts_with(tool_name, prefix.as_str()),
            RuleMatcher::Wildcard { pattern } => wildcard_match(pattern.as_str(), tool_name),
        }
    }
}

/// Wildcard matching with `*` and `?`.
pub fn wildcard_match(pattern: &str, text: &str) -> (r: bool)
    ensures
        r == glob::glob_matches(pattern@, text@),
{
    glob::glob_match(pattern, text)
}

/// A permission rule.
#[derive(Debug, Clone)]
pub struct PermissionRule {
    pub matcher: RuleMatcher,
    pub effect: RuleEffect,
    pub scope: RuleScope,
    pub reason: Option<String>,
}

/// Mathematical form of a rule.
pub struct RuleModel {
    pub matcher: MatcherModel,
    pub effect: RuleEffect,
    pub scope: RuleScope,
    pub reason: Option<Seq<char>>,
}

/// The view of an optional string.
pub open spec fn opt_str(o: Option<String>) -> Option<Seq<char>> {
    match o {
        Some(s) => Some(s@),
        None => None,
    }
}

impl View for PermissionRule {
    type V = RuleModel;

    open spec fn view(&self) -> RuleModel {
        RuleModel {
            matcher: self.matcher@,
            effect: self.effect,
            scope: self.scope,
            reason: opt_str(self.reason),
        }
    }
}

/// The views of a sequence of rules.
pub open spec fn rule_views(v: Seq<PermissionRule>) -> Seq<RuleModel> {
    v.map_values(|r: PermissionRule| r@)
}

/// Outcome of evaluating the rules for a tool call.
#[derive(Debug, Clone, PartialEq, Eq)]
pub enum PermissionDecision {
    Allowed,
    /// Denied, with the rule's reason if it has one.
    Denied(Option<String>),
    /// No rule matched: the default behaviour applies.
    NoMatch,
}

/// Mathematical form of a decision.
pub enum DecisionModel {
    Allowed,
    Denied(Option<Seq<char>>),
    NoMatch,
}

impl View for PermissionDecision {
    type V = DecisionModel;

    open spec fn view(&self) -> DecisionModel {
        match self {
            PermissionDecision::Allowed => DecisionModel::Allowed,
            PermissionDecision::Denied(r) => DecisionModel::Denied(opt_str(*r)),
            PermissionDecision::NoMatch => DecisionModel::NoMatch,
        }
    }
}

/// Rule `i` of `rules` matches `tool` and has effect `e`.
pub open spec fn matches_with(rules: Seq<RuleModel>, tool: Seq<char>, i: int, e: RuleEffect) -> bool {
    0 <= i < rules.len() && rules[i].effect == e && matcher_matches(rules[i].matcher, tool)
}

/// The first rule of `rules` that denies `tool`, if any.
pub open spec fn first_deny(rules: Seq<RuleModel>, tool: Seq<char>) -> Option<int> {
    if exists|i: int| matches_with(rules, tool, i, RuleEffect::Deny) {
        Some(
            choose|i: int|
                matches_with(rules, tool, i, RuleEffect::Deny) && forall|j: int|
                    0 <= j < i ==> !matches_with(rules, tool, j, RuleEffect::Deny),
        )
    } else {
        None
    }
}

/// The decision of one bucket of rules: the first matching deny rule
/// denies with its reason; otherwise a matching allow rule allows;
/// otherwise the bucket has no say.
pub open spec fn scope_decision(rules: Seq<RuleModel>, tool: Seq<char>) -> Option<DecisionModel> {
    match first_deny(rules, tool) {
        Some(i) => Some(DecisionModel::Denied(rules[i].reason)),
        None => if exists|i: int| matches_with(rules, tool, i, RuleEffect::Allow) {
            Some(DecisionModel::Allowed)
        } else {
            None
        },
    }
}

/// Mathematical form of the engine: its session and global rules, in the
/// order they were added.
pub struct EngineModel {
    pub session: Seq<RuleModel>,
    pub global: Seq<RuleModel>,
}

/// The decision for `tool`: session rules first, then global rules.
pub open spec fn evaluate_spec(e: EngineModel, tool: Seq<char>) -> DecisionModel {
    match scope_decision(e.session, tool) {
        Some(d) => d,
        None => match scope_decision(e.global, tool) {
            Some(d) => d,
            None => DecisionModel::NoMatch,
        },
    }
}

/// Evaluates a chain of permission rules.
#[derive(Debug, Clone)]
pub struct PermissionRuleEngine {
    session_rules: Vec<PermissionRule>,
    global_rules: Vec<PermissionRule>,
}

impl View for PermissionRuleEngine {
    type V = EngineModel;

    closed spec fn view(&self) -> EngineModel {
        EngineModel { session: rule_views(self.session_rules@), global: rule_views(self.global_rules@) }
    }
}

fn copy_opt_string(o: &Option<String>) -> (r: Option<String>)
    ensures
        opt_str(r) == opt_str(*o),
{
    match o {
        Some(s) => Some(s.clone()),
        None => None,
    }
}

/// The decision of one bucket of rules (see `scope_decision`).
fn evaluate_scope(rules: &Vec<PermissionRule>, tool_name: &str) -> (r: Option<PermissionDecision>)
    ensures
        match r {
            Some(d) => scope_decision(rule_views(rules@), tool_name@) == Some(d@),
            None => scope_decision(rule_views(rules@), tool_name@) is None,
        },
{
    let ghost rs = rule_views(rules@);
    let mut has_allow = false;
    let mut i: usize = 0;
    while i < rules.len()
        invariant
            i <= rules.len(),
            rs == rule_views(rules@),
            forall|j: int| 0 <= j < i ==> !matches_with(rs, tool_name@, j, RuleEffect::Deny),
            has_allow == exists|j: int| 0 <= j < i && matches_with(rs, tool_name@, j, RuleEffect::Allow),
        decreases rules.len() - i,
    {
        let rule = &rules[i];
        assert(rs[i as int] == rule@);
        if rule.matcher.matches(tool_name) {
            match rule.effect {
                RuleEffect::Deny => {
                    proof {
                        assert(matches_with(rs, tool_name@, i as int, RuleEffect::Deny));
                        let c = choose|k: int|
                            matches_with(rs, tool_name@, k, RuleEffect::Deny) && forall|j: int|
                                0 <= j < k ==> !matches_with(rs, tool_name@, j, RuleEffect::Deny);
                        if c < i {
                        } else if c > i {
                            assert(!matches_with(rs, tool_name@, i as int, RuleEffect::Deny));
                        }
                    }
                    return Some(PermissionDecision::Denied(copy_opt_string(&rule.reason)));
                },
                RuleEffect::Allow => {
                    has_allow = true;
                    assert(matches_with(rs, tool_name@, i as int, RuleEffect::Allow));
                },
            }
        }
        i = i + 1;
    }
    if has_allow {
        Some(PermissionDecision::Allowed)
    } else {
        None
    }
}

/// Index, rule and bucket name of the first rule that matches a tool.
pub open spec fn first_match(rules: Seq<RuleModel>, tool: Seq<char>) -> Option<int> {
    if exists|i: int| 0 <= i < rules.len() && matcher_matches(rules[i].matcher, tool) {
        Some(
            choose|i: int|
                0 <= i < rules.len() && matcher_matches(rules[i].matcher, tool) && forall|j: int|
                    0 <= j < i ==> !matcher_matches(rules[j].matcher, tool),
        )
    } else {
        None
    }
}

/// How an explanation describes a matcher.
pub open spec fn matcher_desc(m: MatcherModel) -> Seq<char> {
    match m {
        MatcherModel::Exact(t) => "exact("@ + t + ")"@,
        MatcherModel::Prefix(p) => "prefix("@ + p + "*)"@,
        MatcherModel::Wildcard(p) => "wildcard("@ + p + ")"@,
    }
}

/// The explanation of which rule decides for `tool`: rule number `idx` of
/// bucket `scope`.
pub open spec fn explain_rule(tool: Seq<char>, r: RuleModel, scope: Seq<char>, idx: int) -> Seq<char> {
    "'"@ + tool + "' is "@ + (if r.effect == RuleEffect::Allow {
        "allowed"@
    } else {
        "denied"@
    }) + " by "@ + scope + " rule #"@ + text::decimal(idx as nat) + " ["@ + matcher_desc(r.matcher)
        + "]"@ + match r.reason {
        Some(x) => ", reason: "@ + x,
        None => Seq::empty(),
    }
}

/// The rule of a bucket that decides for `tool`: its first matching deny
/// rule, else its first matching rule (then an allow rule).
pub open spec fn deciding_rule(rules: Seq<RuleModel>, tool: Seq<char>) -> Option<int> {
    match first_deny(rules, tool) {
        Some(i) => Some(i),
        None => first_match(rules, tool),
    }
}

proof fn lemma_least_deny(rules: Seq<RuleModel>, tool: Seq<char>, k: int)
    requires
        matches_with(rules, tool, k, RuleEffect::Deny),
    ensures
        exists|i: int|
            matches_with(rules, tool, i, RuleEffect::Deny) && forall|j: int|
                0 <= j < i ==> !matches_with(rules, tool, j, RuleEffect::Deny),
    decreases k,
{
    if exists|j: int| 0 <= j < k && matches_with(rules, tool, j, RuleEffect::Deny) {
        let j = choose|j: int| 0 <= j < k && matches_with(rules, tool, j, RuleEffect::Deny);
        lemma_least_deny(rules, tool, j);
    } else {
        assert(matches_with(rules, tool, k, RuleEffect::Deny) && forall|j: int|
            0 <= j < k ==> !matches_with(rules, tool, j, RuleEffect::Deny));
    }
}

proof fn lemma_least_match(rules: Seq<RuleModel>, tool: Seq<char>, k: int)
    requires
        0 <= k < rules.len() && matcher_matches(rules[k].matcher, tool),
    ensures
        exists|i: int|
            0 <= i < rules.len() && matcher_matches(rules[i].matcher, tool) && forall|j: int|
                0 <= j < i ==> !matcher_matches(rules[j].matcher, tool),
    decreases k,
{
    if exists|j: int| 0 <= j < k && matcher_matches(rules[j].matcher, tool) {
        let j = choose|j: int| 0 <= j < k && matcher_matches(rules[j].matcher, tool);
        lemma_least_match(rules, tool, j);
    } else {
        assert(0 <= k < rules.len() && matcher_matches(rules[k].matcher, tool) && forall|j: int|
            0 <= j < k ==> !matcher_matches(rules[j].matcher, tool));
    }
}

/// The deciding rule of a bucket is the one behind the bucket's decision: a
/// deny rule when the bucket denies (with that rule's reason), an allow rule
/// when it allows, and none when the bucket has no say.
#[verifier::spinoff_prover]
pub proof fn lemma_deciding_rule_agrees(rules: Seq<RuleModel>, tool: Seq<char>)
    ensures
        match deciding_rule(rules, tool) {
            Some(i) => 0 <= i < rules.len() && matcher_matches(rules[i].matcher, tool) && (if rules[i].effect
                == RuleEffect::Deny {
                scope_decision(rules, tool) == Some(DecisionModel::Denied(rules[i].reason))
            } else {
                scope_decision(rules, tool) == Some(DecisionModel::Allowed)
            }),
            None => scope_decision(rules, tool) is None,
        },
{
    if exists|i: int| matches_with(rules, tool, i, RuleEffect::Deny) {
        let k = choose|i: int| matches_with(rules, tool, i, RuleEffect::Deny);
        lemma_least_deny(rules, tool, k);
        let d = choose|i: int|
            matches_with(rules, tool, i, RuleEffect::Deny) && forall|j: int|
                0 <= j < i ==> !matches_with(rules, tool, j, RuleEffect::Deny);
        assert(first_deny(rules, tool) == Some(d));
        assert(matches_with(rules, tool, d, RuleEffect::Deny));
    } else if exists|i: int| 0 <= i < rules.len() && matcher_matches(rules[i].matcher, tool) {
        let k = choose|i: int| 0 <= i < rules.len() && matcher_matches(rules[i].matcher, tool);
        lemma_least_match(rules, tool, k);
        let c = choose|i: int|
            0 <= i < rules.len() && matcher_matches(rules[i].matcher, tool) && forall|j: int|
                0 <= j < i ==> !matcher_matches(rules[j].matcher, tool);
        assert(!matches_with(rules, tool, c, RuleEffect::Deny));
        assert(matches_with(rules, tool, c, RuleEffect::Allow));
    } else {
        assert forall|i: int| !matches_with(rules, tool, i, RuleEffect::Allow) by {
            if matches_with(rules, tool, i, RuleEffect::Allow) {
                assert(0 <= i < rules.len() && matcher_matches(rules[i].matcher, tool));
            }
        }
    }
}

/// The explanation of the decision for `tool`: the deciding rule of the
/// session rules, else that of the global rules.
pub open spec fn explain_spec(e: EngineModel, tool: Seq<char>) -> Seq<char> {
    match deciding_rule(e.session, tool) {
        Some(i) => explain_rule(tool, e.session[i], "session"@, i),
        None => match deciding_rule(e.global, tool) {
            Some(i) => explain_rule(tool, e.global[i], "global"@, i),
            None => no_match_text(tool),
        },
    }
}

/// The text that says no rule matches `tool`.
pub open spec fn no_match_text(tool: Seq<char>) -> Seq<char> {
    "'"@ + tool + "' has no matching rule (default behavior applies)"@
}

proof fn lemma_rule_text(t: Seq<char>, r: RuleModel, scope: Seq<char>, idx: int)
    ensures
        text::has_prefix(explain_rule(t, r, scope, idx), "'"@ + t + "' is denied"@) <==> r.effect == RuleEffect::Deny,
        text::has_prefix(explain_rule(t, r, scope, idx), "'"@ + t + "' is allowed"@) <==> r.effect == RuleEffect::Allow,
        explain_rule(t, r, scope, idx) != no_match_text(t),
{
    reveal_strlit("'");
    reveal_strlit("' is ");
    reveal_strlit("allowed");
    reveal_strlit("denied");
    reveal_strlit("' is denied");
    reveal_strlit("' is allowed");
    reveal_strlit("' has no matching rule (default behavior applies)");
    let p = "'"@ + t;
    let x = explain_rule(t, r, scope, idx);
    let w = if r.effect == RuleEffect::Allow { "allowed"@ } else { "denied"@ };
    let a = p + "' is "@ + w;
    assert(x.subrange(0, a.len() as int) =~= a);
    let den = p + "' is denied"@;
    let alw = p + "' is allowed"@;
    let nm = no_match_text(t);
    assert(x[p.len() as int + 2] == 'i');
    assert(nm[p.len() as int + 2] == 'h');
    if r.effect == RuleEffect::Allow {
        assert(a =~= alw);
        assert(x.subrange(0, alw.len() as int) =~= alw);
        assert(x[p.len() as int + 5] == 'a');
        assert(den[p.len() as int + 5] == 'd');
        if den.len() <= x.len() {
            assert(x.subrange(0, den.len() as int)[p.len() as int + 5] != den[p.len() as int + 5]);
        }
    } else {
        assert(a =~= den);
        assert(x.subrange(0, den.len() as int) =~= den);
        assert(x[p.len() as int + 5] == 'd');
        assert(alw[p.len() as int + 5] == 'a');
        if alw.len() <= x.len() {
            assert(x.subrange(0, alw.len() as int)[p.len() as int + 5] != alw[p.len() as int + 5]);
        }
    }
}

/// The explanation agrees with the decision: it begins `'<tool>' is
/// denied` exactly when the tool is denied, `'<tool>' is allowed` exactly
/// when it is allowed, and says that no rule matches exactly when none does.
pub proof fn lemma_explain_agrees(e: EngineModel, tool: Seq<char>)
    ensures
        text::has_prefix(explain_spec(e, tool), "'"@ + tool + "' is denied"@) <==> evaluate_spec(e, tool) is Denied,
        text::has_prefix(explain_spec(e, tool), "'"@ + tool + "' is allowed"@) <==> evaluate_spec(e, tool) == DecisionModel::Allowed,
        explain_spec(e, tool) == no_match_text(tool) <==> evaluate_spec(e, tool) == DecisionModel::NoMatch,
{
    lemma_deciding_rule_agrees(e.session, tool);
    lemma_deciding_rule_agrees(e.global, tool);
    match deciding_rule(e.session, tool) {
        Some(i) => {
            lemma_rule_text(tool, e.session[i], "session"@, i);
        },
        None => match deciding_rule(e.global, tool) {
            Some(i) => {
                lemma_rule_text(tool, e.global[i], "global"@, i);
            },
            None => {
                reveal_strlit("'");
                reveal_strlit("' is denied");
                reveal_strlit("' is allowed");
                reveal_strlit("' has no matching rule (default behavior applies)");
                let p = "'"@ + tool;
                let nm = no_match_text(tool);
                let den = p + "' is denied"@;
                let alw = p + "' is allowed"@;
                assert(nm[p.len() as int + 2] == 'h');
                assert(den[p.len() as int + 2] == 'i');
                assert(alw[p.len() as int + 2] == 'i');
                if den.len() <= nm.len() {
                    assert(nm.subrange(0, den.len() as int)[p.len() as int + 2] != den[p.len() as int + 2]);
                }
                if alw.len() <= nm.len() {
                    assert(nm.subrange(0, alw.len() as int)[p.len() as int + 2] != alw[p.len() as int + 2]);
                }
            },
        },
    }
}

/// The first rule of `rules` that matches `tool_name`.
fn find_matching_rule(rules: &Vec<PermissionRule>, tool_name: &str) -> (r: Option<usize>)
    ensures
        match r {
            Some(i) => first_match(rule_views(rules@), tool_name@) == Some(i as int) && i < rules@.len(),
            None => first_match(rule_views(rules@), tool_name@) is None,
        },
{
    let ghost rs = rule_views(rules@);
    let mut i: usize = 0;
    while i < rules.len()
        invariant
            i <= rules.len(),
            rs == rule_views(rules@),
            forall|j: int| 0 <= j < i ==> !matcher_matches(rs[j].matcher, tool_name@),
        decreases rules.len() - i,
    {
        assert(rs[i as int] == rules@[i as int]@);
        if rules[i].matcher.matches(tool_name) {
            proof {
                let c = choose|k: int|
                    0 <= k < rs.len() && matcher_matches(rs[k].matcher, tool_name@) && forall|j: int|
                        0 <= j < k ==> !matcher_matches(rs[j].matcher, tool_name@);
                assert(0 <= i < rs.len() && matcher_matches(rs[i as int].matcher, tool_name@));
                if c > i {
                    assert(!matcher_matches(rs[i as int].matcher, tool_name@));
                }
            }
            return Some(i);
        }
        i = i + 1;
    }
    None
}

/// The first rule of `rules` that denies `tool_name`.
fn find_first_deny(rules: &Vec<PermissionRule>, tool_name: &str) -> (r: Option<usize>)
    ensures
        match r {
            Some(i) => first_deny(rule_views(rules@), tool_name@) == Some(i as int) && i < rules@.len(),
            None => first_deny(rule_views(rules@), tool_name@) is None,
        },
{
    let ghost rs = rule_views(rules@);
    let mut i: usize = 0;
    while i < rules.len()
        invariant
            i <= rules.len(),
            rs == rule_views(rules@),
            forall|j: int| 0 <= j < i ==> !matches_with(rs, tool_name@, j, RuleEffect::Deny),
        decreases rules.len() - i,
    {
        let rule = &rules[i];
        assert(rs[i as int] == rule@);
        if rule.matcher.matches(tool_name) {
            match rule.effect {
                RuleEffect::Deny => {
                    proof {
                        assert(matches_with(rs, tool_name@, i as int, RuleEffect::Deny));
                        let c = choose|k: int|
                            matches_with(rs, tool_name@, k, RuleEffect::Deny) && forall|j: int|
                                0 <= j < k ==> !matches_with(rs, tool_name@, j, RuleEffect::Deny);
                        if c < i {
                        } else if c > i {
                            assert(!matches_with(rs, tool_name@, i as int, RuleEffect::Deny));
                        }
                    }
                    return Some(i);
                },
                RuleEffect::Allow => {
                    assert(!matches_with(rs, tool_name@, i as int, RuleEffect::Deny));
                },
            }
        }
        i = i + 1;
    }
    None
}

/// The rule of `rules` that decides for `tool_name` (see `deciding_rule`).
fn find_deciding_rule(rules: &Vec<PermissionRule>, tool_name: &str) -> (r: Option<usize>)
    ensures
        match r {
            Some(i) => deciding_rule(rule_views(rules@), tool_name@) == Some(i as int) && i < rules@.len(),
            None => deciding_rule(rule_views(rules@), tool_name@) is None,
        },
{
    match find_first_deny(rules, tool_name) {
        Some(i) => Some(i),
        None => find_matching_rule(rules, tool_name),
    }
}

/// Appends the description of a matcher.
fn push_matcher_desc(s: &mut String, m: &RuleMatcher)
    ensures
        final(s)@ == old(s)@ + matcher_desc(m@),
{
    match m {
        RuleMatcher::Exact { tool } => {
            push_str(s, "exact(");
            push_str(s, tool.as_str());
            push_str(s, ")");
        },
        RuleMatcher::Prefix { prefix } => {
            push_str(s, "prefix(");
            push_str(s, prefix.as_str());
            push_str(s, "*)");
        },
        RuleMatcher::Wildcard { pattern } => {
            push_str(s, "wildcard(");
            push_str(s, pattern.as_str());
            push_str(s, ")");
        },
    }
}

fn explain_with(tool_name: &str, rule: &PermissionRule, scope: &str, idx: usize) -> (r: String)
    ensures
        r@ == explain_rule(tool_name@, rule@, scope@, idx as int),
{
    let mut s = String::new();
    push_str(&mut s, "'");
    push_str(&mut s, tool_name);
    push_str(&mut s, "' is ");
    match rule.effect {
        RuleEffect::Allow => push_str(&mut s, "allowed"),
        RuleEffect::Deny => push_str(&mut s, "denied"),
    }
    push_str(&mut s, " by ");
    push_str(&mut s, scope);
    push_str(&mut s, " rule #");
    push_u64(&mut s, idx as u64);
    push_str(&mut s, " [");
    push_matcher_desc(&mut s, &rule.matcher);
    push_str(&mut s, "]");
    match &rule.reason {
        Some(r) => {
            push_str(&mut s, ", reason: ");
            push_str(&mut s, r.as_str());
        },
        None => {},
    }
    s
}

impl PermissionRuleEngine {
    /// An engine without rules.
    pub fn new() -> (r: Self)
        ensures
            r@ == (EngineModel { session: Seq::empty(), global: Seq::empty() }),
    {
        let r = PermissionRuleEngine { session_rules: Vec::new(), global_rules: Vec::new() };
        assert(rule_views(r.session_rules@) =~= Seq::empty());
        assert(rule_views(r.global_rules@) =~= Seq::empty());
        r
    }

    /// Adds a rule to the bucket of its scope.
    pub fn add_rule(&mut self, rule: PermissionRule)
        ensures
            rule.scope == RuleScope::Session ==> final(self)@ == (EngineModel {
                session: old(self)@.session.push(rule@),
                global: old(self)@.global,
            }),
            rule.scope == RuleScope::Global ==> final(self)@ == (EngineModel {
                session: old(self)@.session,
                global: old(self)@.global.push(rule@),
            }),
    {
        let ghost rv = rule@;
        match rule.scope {
            RuleScope::Session => {
                let ghost before = self.session_rules@;
                self.session_rules.push(rule);
                assert(rule_views(self.session_rules@) =~= rule_views(before).push(rv));
            },
            RuleScope::Global => {
                let ghost before = self.global_rules@;
                self.global_rules.push(rule);
                assert(rule_views(self.global_rules@) =~= rule_views(before).push(rv));
            },
        }
    }

    /// Adds rules in order.
    pub fn add_rules(&mut self, rules: Vec<PermissionRule>)
        ensures
            final(self)@ == add_all(old(self)@, rule_views(rules@)),
    {
        let ghost rs = rule_views(rules@);
        let ghost orig = rules@;
        let mut rules = rules;
        let n = rules.len();
        let mut i: usize = 0;
        while i < n
            invariant
                i <= n,
                n == orig.len(),
                rs == rule_views(orig),
                rules@ == orig.subrange(i as int, n as int),
                self@ == add_all(old(self)@, rs.subrange(0, i as int)),
            decreases n - i,
        {
            let rule = rules.remove(0);
            assert(rule@ == rs[i as int]);
            assert(rs.subrange(0, i + 1).drop_last() =~= rs.subrange(0, i as int));
            self.add_rule(rule);
            i = i + 1;
            assert(rules@ =~= orig.subrange(i as int, n as int));
        }
        assert(rs.subrange(0, n as int) =~= rs);
    }

    /// Decides whether `tool_name` may be called: session rules first, then
    /// global ones; within a bucket a matching deny rule beats allow rules.
    pub fn evaluate(&self, tool_name: &str) -> (r: PermissionDecision)
        ensures
            r@ == evaluate_spec(self@, tool_name@),
    {
        if let Some(decision) = evaluate_scope(&self.session_rules, tool_name) {
            return decision;
        }
        if let Some(decision) = evaluate_scope(&self.global_rules, tool_name) {
            return decision;
        }
        PermissionDecision::NoMatch
    }

    /// Removes every session rule.
    pub fn clear_session_rules(&mut self)
        ensures
            final(self)@ == (EngineModel { session: Seq::empty(), global: old(self)@.global }),
    {
        self.session_rules.clear();
        assert(rule_views(self.session_rules@) =~= Seq::empty());
    }

    /// Number of rules.
    pub fn rule_count(&self) -> (r: usize)
        requires
            self@.session.len() + self@.global.len() <= usize::MAX,
        ensures
            r == self@.session.len() + self@.global.len(),
    {
        self.session_rules.len() + self.global_rules.len()
    }

    /// Explains which rule decides for `tool_name`: the deciding rule of the
    /// session rules, else that of the global rules (a bucket's first
    /// matching deny rule, else its first matching allow rule).
    pub fn permission_explain(&self, tool_name: &str) -> (r: String)
        ensures
            r@ == explain_spec(self@, tool_name@),
    {
        match find_deciding_rule(&self.session_rules, tool_name) {
            Some(i) => {
                assert(self@.session[i as int] == self.session_rules@[i as int]@);
                return explain_with(tool_name, &self.session_rules[i], "session", i);
            },
            None => {},
        }
        match find_deciding_rule(&self.global_rules, tool_name) {
            Some(i) => {
                assert(self@.global[i as int] == self.global_rules@[i as int]@);
                explain_with(tool_name, &self.global_rules[i], "global", i)
            },
            None => {
                let mut s = String::new();
                push_str(&mut s, "'");
                push_str(&mut s, tool_name);
                push_str(&mut s, "' has no matching rule (default behavior applies)");
                s
            },
        }
    }
}

/// The engine after adding `rules` in order.
pub open spec fn add_all(e: EngineModel, rules: Seq<RuleModel>) -> EngineModel
    decreases rules.len(),
{
    if rules.len() == 0 {
        e
    } else {
        let p = add_all(e, rules.drop_last());
        let r = rules.last();
        if r.scope == RuleScope::Session {
            EngineModel { session: p.session.push(r), global: p.global }
        } else {
            EngineModel { session: p.session, global: p.global.push(r) }
        }
    }
}


// ───────────────────────── convenience constructors ─────────────────────────

impl PermissionRule {
    /// A global rule allowing exactly `tool`.
    pub fn allow_exact(tool: &str) -> (r: Self)
        ensures
            r@ == (RuleModel { matcher: MatcherModel::Exact(tool@), effect: RuleEffect::Allow, scope: RuleScope::Global, reason: None }),
    {
        PermissionRule {
            matcher: RuleMatcher::Exact { tool: string_from(tool) },
            effect: RuleEffect::Allow,
            scope: RuleScope::Global,
            reason: None,
        }
    }

    /// A global rule denying exactly `tool`.
    pub fn deny_exact(tool: &str) -> (r: Self)
        ensures
            r@ == (RuleModel { matcher: MatcherModel::Exact(tool@), effect: RuleEffect::Deny, scope: RuleScope::Global, reason: None }),
    {
        PermissionRule {
            matcher: RuleMatcher::Exact { tool: string_from(tool) },
            effect: RuleEffect::Deny,
            scope: RuleScope::Global,
            reason: None,
        }
    }

    /// A global rule allowing tools that begin with `prefix`.
    pub fn allow_prefix(prefix: &str) -> (r: Self)
        ensures
            r@ == (RuleModel { matcher: MatcherModel::Prefix(prefix@), effect: RuleEffect::Allow, scope: RuleScope::Global, reason: None }),
    {
        PermissionRule {
            matcher: RuleMatcher::Prefix { prefix: string_from(prefix) },
            effect: RuleEffect::Allow,
            scope: RuleScope::Global,
            reason: None,
        }
    }

    /// A global rule denying tools that begin with `prefix`.
    pub fn deny_prefix(prefix: &str) -> (r: Self)
        ensures
            r@ == (RuleModel { matcher: MatcherModel::Prefix(prefix@), effect: RuleEffect::Deny, scope: RuleScope::Global, reason: None }),
    {
        PermissionRule {
            matcher: RuleMatcher::Prefix { prefix: string_from(prefix) },
            effect: RuleEffect::Deny,
            scope: RuleScope::Global,
            reason: None,
        }
    }

    /// The same rule with another scope.
    pub fn with_scope(self, scope: RuleScope) -> (r: Self)
        ensures
            r@ == (RuleModel { scope, ..self@ }),
    {
        let mut r = self;
        r.scope = scope;
        r
    }

    /// The same rule with a reason.
    pub fn with_reason(self, reason: &str) -> (r: Self)
        ensures
            r@ == (RuleModel { reason: Some(reason@), ..self@ }),
    {
        let mut r = self;
        r.reason = Some(string_from(reason));
        r
    }
}

// ───────────────────────── shadowed rules ─────────────────────────

/// A rule that can never fire because an earlier rule of the same bucket
/// with the same effect covers it.
#[derive(Debug, Clone)]
pub struct ShadowWarning {
    pub shadowed_index: usize,
    pub shadowing_index: usize,
    pub message: String,
}

/// Whether matcher `a` applies to every tool that matcher `b` applies to,
/// as far as the syntactic check sees: `*`, a prefix of the other prefix or
/// of the exact name, or the same exact name.
pub open spec fn covers_spec(a: MatcherModel, b: MatcherModel) -> bool {
    match a {
        MatcherModel::Wildcard(p) => p == seq!['*'],
        MatcherModel::Prefix(pa) => match b {
            MatcherModel::Prefix(pb) => text::has_prefix(pb, pa),
            MatcherModel::Exact(t) => text::has_prefix(t, pa),
            _ => false,
        },
        MatcherModel::Exact(ta) => match b {
            MatcherModel::Exact(tb) => ta == tb,
            _ => false,
        },
    }
}

/// For prefix and exact matchers, covering is inclusion: `a` covers `b`
/// exactly when every tool name that `b` matches is matched by `a`.  In
/// particular a prefix covers every prefix that starts with it.
pub proof fn lemma_covers_is_inclusion(a: MatcherModel, b: MatcherModel)
    requires
        !(a is Wildcard),
        !(b is Wildcard),
    ensures
        covers_spec(a, b) <==> forall|tool: Seq<char>| #[trigger] matcher_matches(b, tool) ==> matcher_matches(a, tool),
{
    match a {
        MatcherModel::Prefix(pa) => match b {
            MatcherModel::Prefix(pb) => {
                if text::has_prefix(pb, pa) {
                    assert forall|tool: Seq<char>| #[trigger] matcher_matches(b, tool) implies matcher_matches(a, tool) by {
                        assert(tool.subrange(0, pa.len() as int) =~= pb.subrange(0, pa.len() as int));
                    }
                } else {
                    assert(pb.subrange(0, pb.len() as int) =~= pb);
                    assert(matcher_matches(b, pb));
                }
            },
            MatcherModel::Exact(t) => {
                if !text::has_prefix(t, pa) {
                    assert(matcher_matches(b, t));
                }
            },
            _ => {},
        },
        MatcherModel::Exact(ta) => match b {
            MatcherModel::Exact(tb) => {
                assert(matcher_matches(b, tb));
            },
            MatcherModel::Prefix(pb) => {
                let t1 = pb;
                let t2 = pb.push('a');
                assert(t1.subrange(0, pb.len() as int) =~= pb);
                assert(t2.subrange(0, pb.len() as int) =~= pb);
                assert(matcher_matches(b, t1));
                assert(matcher_matches(b, t2));
                assert(t1 != t2) by {
                    assert(t1.len() != t2.len());
                }
            },
            _ => {},
        },
        _ => {},
    }
}

/// A prefix matcher covers every prefix matcher whose prefix starts with it.
pub proof fn lemma_prefix_covers_longer_prefix(a: Seq<char>, rest: Seq<char>)
    ensures
        covers_spec(MatcherModel::Prefix(a), MatcherModel::Prefix(a + rest)),
{
    lemma_covers_is_inclusion(MatcherModel::Prefix(a), MatcherModel::Prefix(a + rest));
    assert((a + rest).subrange(0, a.len() as int) =~= a);
}

/// Whether rule `i` shadows the later rule `j`.
pub open spec fn shadows(rules: Seq<RuleModel>, i: int, j: int) -> bool {
    rules[i].effect == rules[j].effect && covers_spec(rules[i].matcher, rules[j].matcher)
}

/// The shadowing pairs `(i, j)` with `j` in `i+1 .. end` (in order of `j`).
pub open spec fn shadow_row(rules: Seq<RuleModel>, i: int, end: int) -> Seq<(int, int)>
    decreases end - i,
{
    if end <= i + 1 {
        Seq::empty()
    } else {
        shadow_row(rules, i, end - 1) + if shadows(rules, i, end - 1) {
            seq![(i, end - 1)]
        } else {
            Seq::empty()
        }
    }
}

/// The shadowing pairs `(i, j)`, `i < j`, with `i` below `end`, ordered by
/// `i` and then by `j`.
pub open spec fn shadow_pairs(rules: Seq<RuleModel>, end: int) -> Seq<(int, int)>
    decreases end,
{
    if end <= 0 {
        Seq::empty()
    } else {
        shadow_pairs(rules, end - 1) + shadow_row(rules, end - 1, rules.len() as int)
    }
}

/// The warning text for rule `a` shadowing rule `b`.
pub open spec fn shadow_message(a: nat, b: nat) -> Seq<char> {
    "Rule #"@ + text::decimal(a) + " shadows rule #"@ + text::decimal(b)
        + ": broader matcher with same effect"@
}

/// Mathematical form of a warning.
pub struct WarningModel {
    pub shadowed_index: nat,
    pub shadowing_index: nat,
    pub message: Seq<char>,
}

impl View for ShadowWarning {
    type V = WarningModel;

    open spec fn view(&self) -> WarningModel {
        WarningModel {
            shadowed_index: self.shadowed_index as nat,
            shadowing_index: self.shadowing_index as nat,
            message: self.message@,
        }
    }
}

/// The warnings for the shadowing pairs `ps`, rule numbers shifted by `offset`.
pub open spec fn warnings_for(ps: Seq<(int, int)>, offset: nat) -> Seq<WarningModel> {
    ps.map_values(
        |p: (int, int)|
            WarningModel {
                shadowed_index: (offset + p.1) as nat,
                shadowing_index: (offset + p.0) as nat,
                message: shadow_message((offset + p.0) as nat, (offset + p.1) as nat),
            },
    )
}

/// The views of a sequence of warnings.
pub open spec fn warning_views(v: Seq<ShadowWarning>) -> Seq<WarningModel> {
    v.map_values(|w: ShadowWarning| w@)
}

/// Whether matcher `a` covers matcher `b` (see `covers_spec`).
pub fn matcher_covers(a: &RuleMatcher, b: &RuleMatcher) -> (r: bool)
    ensures
        r == covers_spec(a@, b@),
{
    match a {
        RuleMatcher::Wildcard { pattern } => {
            let star = chars_of("*");
            proof {
                reveal_strlit("*");
                assert("*"@ =~= seq!['*']);
            }
            let pc = chars_of(pattern.as_str());
            text::chars_eq(pc.as_slice(), star.as_slice())
        },
        RuleMatcher::Prefix { prefix: a_pre } => match b {
            RuleMatcher::Prefix { prefix: b_pre } => text::str_starts_with(b_pre.as_str(), a_pre.as_str()),
            RuleMatcher::Exact { tool } => text::str_starts_with(tool.as_str(), a_pre.as_str()),
            _ => false,
        },
        RuleMatcher::Exact { tool: a_tool } => match b {
            RuleMatcher::Exact { tool: b_tool } => text::str_eq(a_tool.as_str(), b_tool.as_str()),
            _ => false,
        },
    }
}

fn shadow_text(a: usize, b: usize) -> (r: String)
    ensures
        r@ == shadow_message(a as nat, b as nat),
{
    let mut s = String::new();
    push_str(&mut s, "Rule #");
    push_u64(&mut s, a as u64);
    push_str(&mut s, " shadows rule #");
    push_u64(&mut s, b as u64);
    push_str(&mut s, ": broader matcher with same effect");
    s
}

/// Appends the warnings for the shadowing pairs of `rules`, numbered from
/// `index_offset`.
fn detect_in_scope(rules: &Vec<PermissionRule>, index_offset: usize, warnings: &mut Vec<ShadowWarning>)
    requires
        index_offset + rules@.len() <= usize::MAX,
    ensures
        warning_views(final(warnings)@) == warning_views(old(warnings)@) + warnings_for(
            shadow_pairs(rule_views(rules@), rules@.len() as int),
            index_offset as nat,
        ),
{
    let ghost rs = rule_views(rules@);
    let ghost w0 = warning_views(warnings@);
    let n = rules.len();
    let mut i: usize = 0;
    while i < n
        invariant
            i <= n,
            n == rules@.len(),
            rs == rule_views(rules@),
            index_offset + n <= usize::MAX,
            warning_views(warnings@) == w0 + warnings_for(shadow_pairs(rs, i as int), index_offset as nat),
        decreases n - i,
    {
        let ghost before_row = warning_views(warnings@);
        let mut j: usize = i + 1;
        assert(shadow_row(rs, i as int, j as int) =~= Seq::empty());
        assert(warnings_for(Seq::empty(), index_offset as nat) =~= Seq::empty());
        while j < n
            invariant
                i < n,
                i + 1 <= j <= n,
                n == rules@.len(),
                rs == rule_views(rules@),
                index_offset + n <= usize::MAX,
                warning_views(warnings@) == before_row + warnings_for(shadow_row(rs, i as int, j as int), index_offset as nat),
            decreases n - j,
        {
            let ghost wv = warning_views(warnings@);
            let ghost row = shadow_row(rs, i as int, j as int);
            assert(rs[i as int] == rules@[i as int]@);
            assert(rs[j as int] == rules@[j as int]@);
            if rules[i].effect == rules[j].effect && matcher_covers(&rules[i].matcher, &rules[j].matcher) {
                let w = ShadowWarning {
                    shadowing_index: index_offset + i,
                    shadowed_index: index_offset + j,
                    message: shadow_text(index_offset + i, index_offset + j),
                };
                warnings.push(w);
                assert(shadow_row(rs, i as int, j + 1) == row + seq![(i as int, j as int)]);
                assert(warnings_for(row + seq![(i as int, j as int)], index_offset as nat) =~= warnings_for(row, index_offset as nat).push(w@));
                assert(warning_views(warnings@) =~= wv.push(w@));
            } else {
                assert(shadow_row(rs, i as int, j + 1) =~= row);
            }
            j = j + 1;
        }
        proof {
            assert(shadow_pairs(rs, i + 1) == shadow_pairs(rs, i as int) + shadow_row(rs, i as int, n as int));
            assert(warnings_for(shadow_pairs(rs, i as int) + shadow_row(rs, i as int, n as int), index_offset as nat)
                =~= warnings_for(shadow_pairs(rs, i as int), index_offset as nat) + warnings_for(shadow_row(rs, i as int, n as int), index_offset as nat));
        }
        i = i + 1;
    }
}

impl PermissionRuleEngine {
    /// Warnings for rules that an earlier rule of the same bucket with the
    /// same effect covers: global rules numbered from 0, then session rules
    /// numbered after them.
    pub fn detect_shadowed_rules(&self) -> (r: Vec<ShadowWarning>)
        requires
            self@.session.len() + self@.global.len() <= usize::MAX,
        ensures
            warning_views(r@) == warnings_for(shadow_pairs(self@.global, self@.global.len() as int), 0)
                + warnings_for(shadow_pairs(self@.session, self@.session.len() as int), self@.global.len()),
    {
        let mut warnings: Vec<ShadowWarning> = Vec::new();
        assert(warning_views(warnings@) =~= Seq::empty());
        detect_in_scope(&self.global_rules, 0, &mut warnings);
        let offset = self.global_rules.len();
        detect_in_scope(&self.session_rules, offset, &mut warnings);
        assert(warning_views(warnings@) =~= warnings_for(shadow_pairs(self@.global, self@.global.len() as int), 0)
            + warnings_for(shadow_pairs(self@.session, self@.session.len() as int), self@.global.len()));
        warnings
    }
}


// ───────────────────────── laws ─────────────────────────

/// A covering matcher applies wherever the covered one does: if `a` covers
/// `b` and `b` matches a tool, so does `a`.
pub proof fn lemma_covers_sound(a: MatcherModel, b: MatcherModel, tool: Seq<char>)
    requires
        covers_spec(a, b),
        matcher_matches(b, tool),
    ensures
        matcher_matches(a, tool),
{
    match a {
        MatcherModel::Wildcard(p) => {
            assert(p == seq!['*']);
            assert(glob::glob_from(p, 0, tool, 0));
        },
        MatcherModel::Prefix(pa) => match b {
            MatcherModel::Prefix(pb) => {
                assert(tool.subrange(0, pa.len() as int) =~= pb.subrange(0, pa.len() as int));
            },
            _ => {},
        },
        _ => {},
    }
}

/// A shadowed rule never decides alone: whenever the later rule `j`
/// matches a tool, the earlier rule `i` with the same effect matches it too.
pub proof fn lemma_shadowed_rule_preempted(rules: Seq<RuleModel>, i: int, j: int, tool: Seq<char>)
    requires
        0 <= i < j < rules.len(),
        shadows(rules, i, j),
        matcher_matches(rules[j].matcher, tool),
    ensures
        matcher_matches(rules[i].matcher, tool),
        rules[i].effect == rules[j].effect,
{
    lemma_covers_sound(rules[i].matcher, rules[j].matcher, tool);
}

/// Within the session bucket a matching deny rule beats every allow rule,
/// and the session bucket overrides the global one: if some session rule
/// denies the tool, the decision is a denial with the first such rule's
/// reason, whatever the other rules say.
pub proof fn lemma_session_deny_wins(e: EngineModel, tool: Seq<char>, k: int)
    requires
        matches_with(e.session, tool, k, RuleEffect::Deny),
    ensures
        evaluate_spec(e, tool) == DecisionModel::Denied(e.session[first_deny(e.session, tool)->0].reason),
{
    lemma_first_deny_exists(e.session, tool, k);
}

/// When no session rule matches, the global bucket decides: a matching
/// global deny rule denies, else a matching global allow rule allows.
pub proof fn lemma_global_decides(e: EngineModel, tool: Seq<char>)
    requires
        forall|i: int| 0 <= i < e.session.len() ==> !matcher_matches(#[trigger] e.session[i].matcher, tool),
    ensures
        evaluate_spec(e, tool) == match scope_decision(e.global, tool) {
            Some(d) => d,
            None => DecisionModel::NoMatch,
        },
{
    assert(!exists|i: int| matches_with(e.session, tool, i, RuleEffect::Deny));
    assert(!exists|i: int| matches_with(e.session, tool, i, RuleEffect::Allow));
}

proof fn lemma_first_deny_exists(rules: Seq<RuleModel>, tool: Seq<char>, k: int)
    requires
        matches_with(rules, tool, k, RuleEffect::Deny),
    ensures
        first_deny(rules, tool) is Some,
        0 <= first_deny(rules, tool)->0 < rules.len(),
    decreases k,
{
    if exists|j: int| 0 <= j < k && matches_with(rules, tool, j, RuleEffect::Deny) {
        let j = choose|j: int| 0 <= j < k && matches_with(rules, tool, j, RuleEffect::Deny);
        lemma_first_deny_exists(rules, tool, j);
    } else {
        assert(matches_with(rules, tool, k, RuleEffect::Deny) && forall|j: int|
            0 <= j < k ==> !matches_with(rules, tool, j, RuleEffect::Deny));
    }
}

// ───────────────────────── denial tracking ─────────────────────────

#[verifier::external_type_specification]
#[verifier::external_body]
pub struct ExInstant(std::time::Instant);

/// `Instant` is `Copy`, so its `clone` returns the same instant.
pub assume_specification[ <std::time::Instant as Clone>::clone ](i: &std::time::Instant) -> (r: std::time::Instant)
    ensures
        r == *i,
;

/// The current instant (`Instant::now`); nothing is claimed of it.
#[verifier::external_body]
fn instant_now() -> std::time::Instant {
    std::time::Instant::now()
}

/// A denial by the user of a tool call with some input.
#[derive(Debug, Clone)]
pub struct DenialRecord {
    pub tool_name: String,
    pub input_pattern: String,
    pub timestamp: std::time::Instant,
}

/// The denials recorded in a session: (tool name, input pattern) pairs.
#[derive(Debug, Clone)]
pub struct DenialTracker {
    denials: Vec<DenialRecord>,
}

/// The (tool, input) pairs of a sequence of records.
pub open spec fn denial_views(v: Seq<DenialRecord>) -> Seq<(Seq<char>, Seq<char>)> {
    v.map_values(|d: DenialRecord| (d.tool_name@, d.input_pattern@))
}

impl View for DenialTracker {
    type V = Seq<(Seq<char>, Seq<char>)>;

    closed spec fn view(&self) -> Seq<(Seq<char>, Seq<char>)> {
        denial_views(self.denials@)
    }
}

impl DenialTracker {
    /// A tracker without denials.
    pub fn new() -> (r: Self)
        ensures
            r@ == Seq::<(Seq<char>, Seq<char>)>::empty(),
    {
        let r = DenialTracker { denials: Vec::new() };
        assert(denial_views(r.denials@) =~= Seq::empty());
        r
    }

    /// Records that the user denied `tool_name` with `input_pattern`.
    pub fn record_denial(&mut self, tool_name: &str, input_pattern: &str)
        ensures
            final(self)@ == old(self)@.push((tool_name@, input_pattern@)),
    {
        let ghost before = self.denials@;
        let rec = DenialRecord {
            tool_name: string_from(tool_name),
            input_pattern: string_from(input_pattern),
            timestamp: instant_now(),
        };
        self.denials.push(rec);
        assert(denial_views(self.denials@) =~= denial_views(before).push((tool_name@, input_pattern@)));
    }

    /// Whether this exact tool and input were denied before.
    pub fn is_denied(&self, tool_name: &str, input_pattern: &str) -> (r: bool)
        ensures
            r == self@.contains((tool_name@, input_pattern@)),
    {
        let ghost v = self@;
        let mut i: usize = 0;
        while i < self.denials.len()
            invariant
                i <= self.denials.len(),
                v == denial_views(self.denials@),
                forall|j: int| 0 <= j < i ==> v[j] != (tool_name@, input_pattern@),
            decreases self.denials.len() - i,
        {
            let d = &self.denials[i];
            if text::str_eq(d.tool_name.as_str(), tool_name) && text::str_eq(d.input_pattern.as_str(), input_pattern) {
                assert(v[i as int] == (tool_name@, input_pattern@));
                return true;
            }
            i = i + 1;
        }
        false
    }

    /// Whether any call of this tool was denied before.
    pub fn is_tool_denied(&self, tool_name: &str) -> (r: bool)
        ensures
            r == exists|i: int| 0 <= i < self@.len() && #[trigger] self@[i].0 == tool_name@,
    {
        let ghost v = self@;
        let mut i: usize = 0;
        while i < self.denials.len()
            invariant
                i <= self.denials.len(),
                v == denial_views(self.denials@),
                forall|j: int| 0 <= j < i ==> #[trigger] v[j].0 != tool_name@,
            decreases self.denials.len() - i,
        {
            if text::str_eq(self.denials[i].tool_name.as_str(), tool_name) {
                assert(v[i as int].0 == tool_name@);
                assert(self@[i as int].0 == tool_name@);
                return true;
            }
            i = i + 1;
        }
        false
    }

    /// Forgets every denial.
    pub fn clear(&mut self)
        ensures
            final(self)@ == Seq::<(Seq<char>, Seq<char>)>::empty(),
    {
        self.denials.clear();
        assert(denial_views(self.denials@) =~= Seq::empty());
    }

    /// Number of recorded denials.
    pub fn count(&self) -> (r: usize)
        ensures
            r == self@.len(),
    {
        self.denials.len()
    }
}

} // verus!

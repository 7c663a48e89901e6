//! Cache invalidation rules, the set of keys waiting for a batched
//! invalidation, invalidation counters, and key selection by substring or
//! regular expression.
use vstd::prelude::*;
use crate::text::{contains_str, spec_contains};
use crate::cache_key::{key_text, CacheKey, KeyView};
use crate::dependency_graph::{dependents_of, key_views, DependencyGraph};

verus! {

/// A rule deciding which keys are invalidated with which others. The
/// strategy is carried as given; durations are in milliseconds.
pub struct InvalidationRule<S> {
    pub key_pattern: String,
    pub ttl_ms: u64,
    pub dependencies: Vec<String>,
    pub priority: u8,
    pub strategy: S,
    pub max_age_ms: Option<u64>,
    pub tags: Vec<String>,
}

/// Abstract state of a rule: pattern, dependency patterns and priority.
pub struct RuleView {
    pub key_pattern: Seq<char>,
    pub dependencies: Seq<Seq<char>>,
    pub priority: u8,
}

impl<S> InvalidationRule<S> {
    pub closed spec fn view(&self) -> RuleView {
        RuleView {
            key_pattern: self.key_pattern@,
            dependencies: self.dependencies@.map_values(|d: String| d@),
            priority: self.priority,
        }
    }
}

/// Whether the rules run from higher to lower priority.
pub open spec fn rules_by_priority(s: Seq<RuleView>) -> bool {
    forall|i: int, j: int| 0 <= i <= j < s.len() ==> (#[trigger] s[j]).priority <= (#[trigger] s[i]).priority
}

/// Where a rule of priority `p` goes: after every rule of equal or higher
/// priority.
pub open spec fn rule_insert_pos(s: Seq<RuleView>, p: u8) -> int {
    if exists|i: int| 0 <= i < s.len() && (#[trigger] s[i]).priority < p {
        choose|i: int| 0 <= i < s.len() && s[i].priority < p
            && forall|j: int| 0 <= j < i ==> p <= (#[trigger] s[j]).priority
    } else {
        s.len() as int
    }
}

/// Whether a rule asks for `key` to be invalidated: the key contains the
/// rule's pattern and one of its dependency patterns.
pub open spec fn rule_fires(r: RuleView, key: Seq<char>) -> bool {
    spec_contains(key, r.key_pattern)
        && exists|d: int| 0 <= d < r.dependencies.len() && spec_contains(key, #[trigger] r.dependencies[d])
}

/// The invalidation rules, highest priority first; rules of equal priority
/// keep the order they were added in.
pub struct RuleSet<S> {
    rules: Vec<InvalidationRule<S>>,
}

impl<S> RuleSet<S> {
    pub closed spec fn view(&self) -> Seq<RuleView> {
        self.rules@.map_values(|r: InvalidationRule<S>| r.view())
    }

    /// The stored rules, whole.
    pub closed spec fn spec_rules(&self) -> Seq<InvalidationRule<S>> {
        self.rules@
    }

    /// No rules.
    pub fn new() -> (r: Self)
        ensures
            r.view().len() == 0,
            r.spec_rules().len() == 0,
    {
        let r = RuleSet { rules: Vec::new() };
        proof {
            assert(r.view() =~= Seq::<RuleView>::empty());
        }
        r
    }

    /// The number of rules.
    pub fn len(&self) -> (r: usize)
        ensures
            r == self.view().len(),
    {
        self.rules.len()
    }

    /// Adds a rule after every rule of equal or higher priority, as a stable
    /// sort by descending priority does.
    pub fn add_rule(&mut self, rule: InvalidationRule<S>)
        ensures
            final(self).view() == old(self).view().insert(rule_insert_pos(old(self).view(), rule.priority), rule.view()),
            final(self).spec_rules() == old(self).spec_rules().insert(rule_insert_pos(old(self).view(), rule.priority), rule),
    {
        let ghost s = self.view();
        let ghost rv = rule.view();
        let p = rule.priority;
        let n = self.rules.len();
        let mut i: usize = 0;
        while i < n && !(self.rules[i].priority < p)
            invariant
                i <= n,
                n == self.rules@.len(),
                s == self.rules@.map_values(|r: InvalidationRule<S>| r.view()),
                forall|j: int| 0 <= j < i ==> p <= (#[trigger] s[j]).priority,
            decreases n - i,
        {
            proof {
                assert(s[i as int] == self.rules@[i as int].view());
            }
            i = i + 1;
        }
        proof {
            if i < n {
                assert(s[i as int] == self.rules@[i as int].view());
                assert(s[i as int].priority < p);
                let c = choose|k: int| 0 <= k < s.len() && s[k].priority < p
                    && forall|j: int| 0 <= j < k ==> p <= (#[trigger] s[j]).priority;
                assert(0 <= c < s.len() && s[c].priority < p
                    && forall|j: int| 0 <= j < c ==> p <= (#[trigger] s[j]).priority);
                if c < i {
                    assert(p <= s[c].priority);
                }
                if i < c {
                    assert(p <= s[i as int].priority);
                }
                assert(rule_insert_pos(s, p) == i);
            } else {
                assert(!exists|k: int| 0 <= k < s.len() && (#[trigger] s[k]).priority < p);
                assert(rule_insert_pos(s, p) == n);
            }
        }
        self.rules.insert(i, rule);
        proof {
            assert(self.view() =~= s.insert(i as int, rv));
        }
    }

    /// Whether some rule asks for the key with text `key` to be invalidated.
    pub fn should_invalidate(&self, key: &str) -> (r: bool)
        ensures
            r == exists|i: int| 0 <= i < self.view().len() && rule_fires(#[trigger] self.view()[i], key@),
    {
        let n = self.rules.len();
        let mut i: usize = 0;
        while i < n
            invariant
                i <= n,
                n == self.view().len(),
                n == self.rules@.len(),
                forall|k: int| 0 <= k < i ==> !rule_fires(#[trigger] self.view()[k], key@),
            decreases n - i,
        {
            let rule = &self.rules[i];
            proof {
                assert(self.view()[i as int] == rule.view());
            }
            if contains_str(key, rule.key_pattern.as_str()) {
                let m = rule.dependencies.len();
                let mut d: usize = 0;
                while d < m
                    invariant
                        i < n,
                        n == self.view().len(),
                        self.view()[i as int] == rule.view(),
                        spec_contains(key@, rule.view().key_pattern),
                        d <= m,
                        m == rule.dependencies@.len(),
                        rule.view().dependencies == rule.dependencies@.map_values(|x: String| x@),
                        forall|e: int| 0 <= e < d ==> !spec_contains(key@, #[trigger] rule.view().dependencies[e]),
                    decreases m - d,
                {
                    proof {
                        assert(rule.view().dependencies[d as int] == rule.dependencies@[d as int]@);
                    }
                    if contains_str(key, rule.dependencies[d].as_str()) {
                        proof {
                            assert(rule_fires(self.view()[i as int], key@));
                        }
                        return true;
                    }
                    d = d + 1;
                }
            }
            i = i + 1;
        }
        false
    }
}

/// Adding a rule keeps the rules ordered by descending priority, behind
/// every rule of equal priority already there.
pub proof fn lemma_add_rule_keeps_order(s: Seq<RuleView>, r: RuleView)
    requires
        rules_by_priority(s),
    ensures
        rules_by_priority(s.insert(rule_insert_pos(s, r.priority), r)),
        forall|j: int| 0 <= j < rule_insert_pos(s, r.priority) ==> r.priority <= (#[trigger] s[j]).priority,
{
    let p = r.priority;
    let k = rule_insert_pos(s, p);
    if exists|i: int| 0 <= i < s.len() && (#[trigger] s[i]).priority < p {
        let w = choose|i: int| 0 <= i < s.len() && (#[trigger] s[i]).priority < p;
        lemma_first_lower_rule(s, p, w);
        assert(0 <= k < s.len() && s[k].priority < p && forall|j: int| 0 <= j < k ==> p <= (#[trigger] s[j]).priority);
    }
    let t = s.insert(k, r);
    assert forall|i: int, j: int| 0 <= i <= j < t.len() implies (#[trigger] t[j]).priority <= (#[trigger] t[i]).priority by {
        if j > k {
            assert(t[j] == s[j - 1]);
            assert(s[j - 1].priority <= s[k].priority);
        }
        if i > k {
            assert(t[i] == s[i - 1]);
        }
    }
}

proof fn lemma_first_lower_rule(s: Seq<RuleView>, p: u8, k: int)
    requires
        0 <= k < s.len(),
        s[k].priority < p,
    ensures
        exists|i: int| 0 <= i < s.len() && s[i].priority < p && forall|j: int| 0 <= j < i ==> p <= (#[trigger] s[j]).priority,
    decreases k,
{
    if forall|j: int| 0 <= j < k ==> p <= (#[trigger] s[j]).priority {
    } else {
        let j = choose|j: int| 0 <= j < k && !(p <= (#[trigger] s[j]).priority);
        lemma_first_lower_rule(s, p, j);
    }
}

/// A rule with no maximum age and no tags.
fn plain_rule<S>(pattern: &str, ttl_ms: u64, dependencies: Vec<String>, priority: u8, strategy: S) -> (r: InvalidationRule<S>)
    ensures
        r.key_pattern@ == pattern@,
        r.ttl_ms == ttl_ms,
        r.dependencies@ == dependencies@,
        r.priority == priority,
        r.strategy == strategy,
        r.max_age_ms.is_none(),
        r.tags@.len() == 0,
{
    InvalidationRule {
        key_pattern: pattern.to_string(),
        ttl_ms,
        dependencies,
        priority,
        strategy,
        max_age_ms: None,
        tags: Vec::new(),
    }
}

fn names1(a: &str) -> (r: Vec<String>)
    ensures
        r@.map_values(|d: String| d@) == seq![a@],
{
    let mut v: Vec<String> = Vec::new();
    v.push(a.to_string());
    proof {
        assert(v@.map_values(|d: String| d@) =~= seq![a@]);
    }
    v
}

fn names2(a: &str, b: &str) -> (r: Vec<String>)
    ensures
        r@.map_values(|d: String| d@) == seq![a@, b@],
{
    let mut v: Vec<String> = Vec::new();
    v.push(a.to_string());
    v.push(b.to_string());
    proof {
        assert(v@.map_values(|d: String| d@) =~= seq![a@, b@]);
    }
    v
}

/// Whether `r` is a rule with the given pattern, time to live, dependency
/// patterns and priority, the given strategy, no maximum age and no tags.
pub open spec fn rule_is<S>(r: InvalidationRule<S>, pattern: Seq<char>, ttl_ms: u64, deps: Seq<Seq<char>>, priority: u8, strategy: S) -> bool {
    &&& r.key_pattern@ == pattern
    &&& r.ttl_ms == ttl_ms
    &&& r.dependencies@.map_values(|d: String| d@) == deps
    &&& r.priority == priority
    &&& r.strategy == strategy
    &&& r.max_age_ms.is_none()
    &&& r.tags@.len() == 0
}

/// The rules for agent caches: "agent" lives 5 minutes and goes with
/// "agent_metrics" (priority 1); "agent_metrics" lives 1 minute and goes
/// with "agent" (priority 2). Both use `strategy`.
pub fn agent_rules<S: Copy>(strategy: S) -> (r: Vec<InvalidationRule<S>>)
    ensures
        r@.len() == 2,
        rule_is(r@[0], "agent"@, 300_000, seq!["agent_metrics"@], 1, strategy),
        rule_is(r@[1], "agent_metrics"@, 60_000, seq!["agent"@], 2, strategy),
{
    let mut v: Vec<InvalidationRule<S>> = Vec::new();
    v.push(plain_rule("agent", 300_000, names1("agent_metrics"), 1, strategy));
    v.push(plain_rule("agent_metrics", 60_000, names1("agent"), 2, strategy));
    v
}

/// The rules for task caches: "task" lives 3 minutes and goes with
/// "task_metrics" and "agent" (priority 1); "task_metrics" lives 30 seconds
/// and goes with "task" (priority 3). Both use `strategy`.
pub fn task_rules<S: Copy>(strategy: S) -> (r: Vec<InvalidationRule<S>>)
    ensures
        r@.len() == 2,
        rule_is(r@[0], "task"@, 180_000, seq!["task_metrics"@, "agent"@], 1, strategy),
        rule_is(r@[1], "task_metrics"@, 30_000, seq!["task"@], 3, strategy),
{
    let mut v: Vec<InvalidationRule<S>> = Vec::new();
    v.push(plain_rule("task", 180_000, names2("task_metrics", "agent"), 1, strategy));
    v.push(plain_rule("task_metrics", 30_000, names1("task"), 3, strategy));
    v
}

/// The keys cached for an agent: its data, then its metrics.
pub fn agent_keys(agent_id: u128) -> (r: Vec<CacheKey>)
    ensures
        r@.map_values(|k: CacheKey| k@) == seq![KeyView::Agent(agent_id), KeyView::AgentMetrics(agent_id)],
{
    let v = vec![CacheKey::Agent(agent_id), CacheKey::AgentMetrics(agent_id)];
    proof {
        assert(v@.map_values(|k: CacheKey| k@) =~= seq![KeyView::Agent(agent_id), KeyView::AgentMetrics(agent_id)]);
    }
    v
}

/// The keys cached for a task: its data, then its metrics.
pub fn task_keys(task_id: u128) -> (r: Vec<CacheKey>)
    ensures
        r@.map_values(|k: CacheKey| k@) == seq![KeyView::Task(task_id), KeyView::TaskMetrics(task_id)],
{
    let v = vec![CacheKey::Task(task_id), CacheKey::TaskMetrics(task_id)];
    proof {
        assert(v@.map_values(|k: CacheKey| k@) =~= seq![KeyView::Task(task_id), KeyView::TaskMetrics(task_id)]);
    }
    v
}

/// The keys touched when a task is assigned to an agent: the agent, the
/// task, the agent's metrics and the task's metrics.
pub fn assignment_keys(agent_id: u128, task_id: u128) -> (r: Vec<CacheKey>)
    ensures
        r@.map_values(|k: CacheKey| k@) == seq![
            KeyView::Agent(agent_id),
            KeyView::Task(task_id),
            KeyView::AgentMetrics(agent_id),
            KeyView::TaskMetrics(task_id),
        ],
{
    let v = vec![
        CacheKey::Agent(agent_id),
        CacheKey::Task(task_id),
        CacheKey::AgentMetrics(agent_id),
        CacheKey::TaskMetrics(task_id),
    ];
    proof {
        assert(v@.map_values(|k: CacheKey| k@) =~= seq![
            KeyView::Agent(agent_id),
            KeyView::Task(task_id),
            KeyView::AgentMetrics(agent_id),
            KeyView::TaskMetrics(task_id),
        ]);
    }
    v
}

/// Invalidates `key` with everything that depends on it: returns its
/// dependents in `graph`, each once, for the caller to drop from the cache,
/// and counts one invalidation and one cascade invalidation per dependent.
pub fn cascade_invalidation(graph: &DependencyGraph, stats: &mut InvalidationStats, key: &CacheKey) -> (r: Vec<CacheKey>)
    requires
        graph.wf(),
        old(stats).total_invalidations < u64::MAX,
        old(stats).cascade_invalidations + dependents_of(graph@, key@).len() <= u64::MAX,
    ensures
        key_views(r@).no_duplicates(),
        key_views(r@).to_set() == dependents_of(graph@, key@),
        r@.len() == dependents_of(graph@, key@).len(),
        *final(stats) == (InvalidationStats {
            total_invalidations: (old(stats).total_invalidations + 1) as u64,
            cascade_invalidations: (old(stats).cascade_invalidations + r@.len()) as u64,
            ..*old(stats)
        }),
{
    let dependents = graph.get_dependents(key);
    proof {
        key_views(dependents@).unique_seq_to_set();
    }
    let n = dependents.len() as u64;
    stats.record_invalidation(n);
    dependents
}

/// Priority of an invalidation recommendation.
#[derive(Debug, Clone, Copy, PartialEq, Eq, Structural)]
pub enum InvalidationPriority {
    Low,
    Medium,
    High,
    Critical,
}

/// A suggested invalidation and the bytes it would free.
pub struct InvalidationRecommendation {
    pub key_pattern: String,
    pub reason: String,
    pub priority: InvalidationPriority,
    pub estimated_savings: usize,
}

/// The standing recommendations: temporary data of low access frequency
/// (low priority, 1 MiB), and stale data past its time to live (medium
/// priority, 5 MiB).
pub fn invalidation_recommendations() -> (r: Vec<InvalidationRecommendation>)
    ensures
        r@.len() == 2,
        r@[0].key_pattern@ == "temp_*"@,
        r@[0].reason@ == "Temporary data with low access frequency"@,
        r@[0].priority == InvalidationPriority::Low,
        r@[0].estimated_savings == 1048576,
        r@[1].key_pattern@ == "stale_*"@,
        r@[1].reason@ == "Stale data exceeding TTL"@,
        r@[1].priority == InvalidationPriority::Medium,
        r@[1].estimated_savings == 5242880,
{
    let mut out: Vec<InvalidationRecommendation> = Vec::new();
    out.push(InvalidationRecommendation {
        key_pattern: "temp_*".to_string(),
        reason: "Temporary data with low access frequency".to_string(),
        priority: InvalidationPriority::Low,
        estimated_savings: 1048576,
    });
    out.push(InvalidationRecommendation {
        key_pattern: "stale_*".to_string(),
        reason: "Stale data exceeding TTL".to_string(),
        priority: InvalidationPriority::Medium,
        estimated_savings: 5242880,
    });
    out
}

/// Counters of the invalidations made (the mean time is kept by the
/// caller).
#[derive(Debug, Clone, Copy, PartialEq, Eq, Structural)]
pub struct InvalidationStats {
    pub total_invalidations: u64,
    pub cascade_invalidations: u64,
    pub batched_invalidations: u64,
    pub lazy_invalidations: u64,
    pub grace_period_hits: u64,
}

impl InvalidationStats {
    /// All counters at zero.
    pub fn new() -> (r: Self)
        ensures
            r == (InvalidationStats {
                total_invalidations: 0,
                cascade_invalidations: 0,
                batched_invalidations: 0,
                lazy_invalidations: 0,
                grace_period_hits: 0,
            }),
    {
        InvalidationStats {
            total_invalidations: 0,
            cascade_invalidations: 0,
            batched_invalidations: 0,
            lazy_invalidations: 0,
            grace_period_hits: 0,
        }
    }

    /// One key was invalidated, and with it `dependents` keys that depend
    /// on it.
    pub fn record_invalidation(&mut self, dependents: u64)
        requires
            old(self).total_invalidations < u64::MAX,
            old(self).cascade_invalidations + dependents <= u64::MAX,
        ensures
            *final(self) == (InvalidationStats {
                total_invalidations: (old(self).total_invalidations + 1) as u64,
                cascade_invalidations: (old(self).cascade_invalidations + dependents) as u64,
                ..*old(self)
            }),
    {
        self.total_invalidations = self.total_invalidations + 1;
        self.cascade_invalidations = self.cascade_invalidations + dependents;
    }

    /// A batch of `count` pending keys was processed.
    pub fn record_batch(&mut self, count: u64)
        requires
            old(self).batched_invalidations + count <= u64::MAX,
        ensures
            *final(self) == (InvalidationStats {
                batched_invalidations: (old(self).batched_invalidations + count) as u64,
                ..*old(self)
            }),
    {
        self.batched_invalidations = self.batched_invalidations + count;
    }
}

/// Keys whose text contains `pattern`: the positions of the matching keys
/// among `keys`, in order.
pub fn keys_containing(keys: &Vec<String>, pattern: &str) -> (r: Vec<usize>)
    ensures
        r@.len() <= keys@.len(),
        forall|i: int| 0 <= i < r@.len() ==> (#[trigger] r@[i]) < keys@.len() && spec_contains(keys@[r@[i] as int]@, pattern@),
        forall|i: int, j: int| 0 <= i < j < r@.len() ==> (#[trigger] r@[i]) < (#[trigger] r@[j]),
        forall|k: int| 0 <= k < keys@.len() && spec_contains(#[trigger] keys@[k]@, pattern@) ==> r@.contains(k as usize),
{
    let mut out: Vec<usize> = Vec::new();
    let mut i: usize = 0;
    while i < keys.len()
        invariant
            i <= keys@.len(),
            out@.len() <= i,
            forall|a: int| 0 <= a < out@.len() ==> (#[trigger] out@[a]) < i && spec_contains(keys@[out@[a] as int]@, pattern@),
            forall|a: int, b: int| 0 <= a < b < out@.len() ==> (#[trigger] out@[a]) < (#[trigger] out@[b]),
            forall|k: int| 0 <= k < i && spec_contains(#[trigger] keys@[k]@, pattern@) ==> out@.contains(k as usize),
        decreases keys@.len() - i,
    {
        if contains_str(keys[i].as_str(), pattern) {
            let ghost before = out@;
            out.push(i);
            proof {
                assert forall|k: int| 0 <= k < i + 1 && spec_contains(#[trigger] keys@[k]@, pattern@) implies out@.contains(k as usize) by {
                    if k < i {
                        let w = choose|w: int| 0 <= w < before.len() && before[w] == k as usize;
                        assert(out@[w] == k as usize);
                    } else {
                        assert(out@[before.len() as int] == i);
                    }
                }
            }
        }
        i = i + 1;
    }
    out
}

#[verifier::external_type_specification]
#[verifier::external_body]
pub struct ExRegex(regex::Regex);

/// Whether `pattern` is accepted by `regex::Regex::new`.
pub uninterp spec fn regex_compiles(pattern: Seq<char>) -> bool;

/// Whether the regular expression `pattern` matches somewhere in
/// `haystack`, as `regex::Regex::is_match` decides.
pub uninterp spec fn regex_matches(pattern: Seq<char>, haystack: Seq<char>) -> bool;

/// A compiled regular expression together with the pattern it came from.
pub struct CompiledPattern {
    regex: regex::Regex,
    pattern: String,
}

impl CompiledPattern {
    pub closed spec fn spec_pattern(&self) -> Seq<char> {
        self.pattern@
    }
}

/// Compiles `pattern` with `regex::Regex::new`. The contract claims that
/// compiling succeeds exactly when the pattern is one the crate accepts
/// (named, not stated), and that a success remembers the pattern. The text
/// of a failure is the crate's error message and is not described.
#[verifier::external_body]
fn compile_pattern(pattern: &str) -> (r: Result<CompiledPattern, String>)
    ensures
        r is Ok <==> regex_compiles(pattern@),
        r matches Ok(c) ==> c.spec_pattern() == pattern@,
{
    match regex::Regex::new(pattern) {
        Ok(regex) => Ok(CompiledPattern { regex, pattern: pattern.to_string() }),
        Err(e) => Err(e.to_string()),
    }
}

/// Runs `regex::Regex::is_match` on `haystack`; the contract claims its
/// answer is the named match relation of the compiled pattern.
#[verifier::external_body]
fn pattern_is_match(p: &CompiledPattern, haystack: &str) -> (r: bool)
    ensures
        r == regex_matches(p.spec_pattern(), haystack@),
{
    p.regex.is_match(haystack)
}

/// Why an invalidation request was refused.
#[derive(Debug, Clone, PartialEq, Eq)]
pub enum InvalidationError {
    /// The parameter `field` failed validation for `reason`: the pattern is
    /// not a valid regular expression.
    InvalidPattern { field: String, reason: String },
}

/// The number of `true` flags.
pub open spec fn count_flags(flags: Seq<bool>) -> nat
    decreases flags.len(),
{
    if flags.len() == 0 {
        0
    } else {
        count_flags(flags.drop_last()) + if flags.last() { 1nat } else { 0nat }
    }
}

/// How many keys were selected, from one match flag per key.
pub fn count_selected(flags: &Vec<bool>) -> (r: usize)
    ensures
        r == count_flags(flags@),
{
    let mut n: usize = 0;
    let mut i: usize = 0;
    while i < flags.len()
        invariant
            i <= flags@.len(),
            n == count_flags(flags@.subrange(0, i as int)),
            n <= i,
        decreases flags@.len() - i,
    {
        proof {
            assert(flags@.subrange(0, i + 1).drop_last() =~= flags@.subrange(0, i as int));
        }
        if flags[i] {
            n = n + 1;
        }
        i = i + 1;
    }
    proof {
        assert(flags@.subrange(0, i as int) =~= flags@);
    }
    n
}

/// Which of `keys` the regular expression `pattern` matches, one flag per
/// key; an invalid pattern is refused.
pub fn regex_selection(pattern: &str, keys: &Vec<String>) -> (r: Result<Vec<bool>, InvalidationError>)
    ensures
        r is Err <==> !regex_compiles(pattern@),
        r matches Err(InvalidationError::InvalidPattern { field, reason }) ==> field@ == "pattern"@
            && exists|detail: Seq<char>| reason@ == "Invalid regex pattern: "@ + detail,
        r matches Ok(flags) ==> flags@.len() == keys@.len()
            && forall|i: int| 0 <= i < keys@.len() ==> #[trigger] flags@[i] == regex_matches(pattern@, keys@[i]@),
{
    let compiled = match compile_pattern(pattern) {
        Ok(c) => c,
        Err(detail) => {
            let mut reason = "Invalid regex pattern: ".to_owned();
            reason.append(detail.as_str());
            let field = "pattern".to_owned();
            return Err(InvalidationError::InvalidPattern { field, reason });
        },
    };
    let mut flags: Vec<bool> = Vec::new();
    let mut i: usize = 0;
    while i < keys.len()
        invariant
            i <= keys@.len(),
            compiled.spec_pattern() == pattern@,
            flags@.len() == i,
            forall|j: int| 0 <= j < i ==> #[trigger] flags@[j] == regex_matches(pattern@, keys@[j]@),
        decreases keys@.len() - i,
    {
        flags.push(pattern_is_match(&compiled, keys[i].as_str()));
        i = i + 1;
    }
    Ok(flags)
}

/// The number of `keys` the regular expression `pattern` matches; an
/// invalid pattern is refused.
pub fn count_regex_matches(pattern: &str, keys: &Vec<String>) -> (r: Result<usize, InvalidationError>)
    ensures
        r is Err <==> !regex_compiles(pattern@),
        r matches Ok(n) ==> n == count_flags(Seq::new(keys@.len(), |i: int| regex_matches(pattern@, keys@[i]@))),
{
    match regex_selection(pattern, keys) {
        Ok(flags) => {
            proof {
                assert(flags@ =~= Seq::new(keys@.len(), |i: int| regex_matches(pattern@, keys@[i]@)));
            }
            Ok(count_selected(&flags))
        },
        Err(e) => Err(e),
    }
}


/// How many keys depend on the flagged keys, summed over the flagged keys
/// (`keys` and `flags` run side by side).
pub open spec fn dependents_sum(g: Set<(KeyView, KeyView)>, keys: Seq<KeyView>, flags: Seq<bool>) -> nat
    decreases keys.len(),
{
    if keys.len() == 0 || flags.len() == 0 {
        0
    } else {
        dependents_sum(g, keys.drop_last(), flags.drop_last())
            + if flags.last() { dependents_of(g, keys.last()).len() } else { 0nat }
    }
}

/// How many keys depend on each of `keys`, summed.
pub open spec fn all_dependents_sum(g: Set<(KeyView, KeyView)>, keys: Seq<KeyView>) -> nat
    decreases keys.len(),
{
    if keys.len() == 0 {
        0
    } else {
        all_dependents_sum(g, keys.drop_last()) + dependents_of(g, keys.last()).len()
    }
}

/// The keys to drop from the cache when the flagged keys are invalidated:
/// each flagged key with every key that depends on it.
pub open spec fn drop_set(g: Set<(KeyView, KeyView)>, keys: Seq<KeyView>, flags: Seq<bool>) -> Set<KeyView>
    decreases keys.len(),
{
    if keys.len() == 0 || flags.len() == 0 {
        Set::empty()
    } else {
        drop_set(g, keys.drop_last(), flags.drop_last()).union(
            if flags.last() { dependents_of(g, keys.last()).insert(keys.last()) } else { Set::empty() },
        )
    }
}

/// One flag per key: whether the regular expression `pattern` matches the
/// key's text.
pub open spec fn regex_key_flags(pattern: Seq<char>, keys: Seq<KeyView>) -> Seq<bool> {
    Seq::new(keys.len(), |i: int| regex_matches(pattern, key_text(keys[i])))
}

proof fn lemma_flag_prefix(flags: Seq<bool>, i: int)
    requires
        0 <= i <= flags.len(),
    ensures
        count_flags(flags.take(i)) <= count_flags(flags),
        count_flags(flags) <= flags.len(),
    decreases flags.len(),
{
    if flags.len() > 0 {
        lemma_flag_prefix(flags.drop_last(), if i == flags.len() { flags.len() - 1 } else { i });
        if i < flags.len() {
            assert(flags.take(i) =~= flags.drop_last().take(i));
        } else {
            assert(flags.take(i) =~= flags);
        }
    }
}

proof fn lemma_dependents_prefix(g: Set<(KeyView, KeyView)>, keys: Seq<KeyView>, flags: Seq<bool>, i: int)
    requires
        0 <= i <= keys.len(),
        keys.len() == flags.len(),
    ensures
        dependents_sum(g, keys.take(i), flags.take(i)) <= dependents_sum(g, keys, flags),
        dependents_sum(g, keys, flags) <= all_dependents_sum(g, keys),
    decreases keys.len(),
{
    if keys.len() > 0 {
        lemma_dependents_prefix(g, keys.drop_last(), flags.drop_last(),
            if i == keys.len() { keys.len() - 1 } else { i });
        if i < keys.len() {
            assert(keys.take(i) =~= keys.drop_last().take(i));
            assert(flags.take(i) =~= flags.drop_last().take(i));
        } else {
            assert(keys.take(i) =~= keys);
            assert(flags.take(i) =~= flags);
        }
    }
}

proof fn lemma_concat_to_set<A>(a: Seq<A>, b: Seq<A>)
    ensures
        (a + b).to_set() == a.to_set().union(b.to_set()),
{
    assert forall|x: A| (a + b).to_set().contains(x) == a.to_set().union(b.to_set()).contains(x) by {
        if a.contains(x) {
            let i = choose|i: int| 0 <= i < a.len() && a[i] == x;
            assert((a + b)[i] == x);
        }
        if b.contains(x) {
            let i = choose|i: int| 0 <= i < b.len() && b[i] == x;
            assert((a + b)[a.len() + i] == x);
        }
        if (a + b).contains(x) {
            let i = choose|i: int| 0 <= i < (a + b).len() && (a + b)[i] == x;
            if i < a.len() {
                assert(a[i] == x);
            } else {
                assert(b[i - a.len()] == x);
            }
        }
    }
    assert((a + b).to_set() =~= a.to_set().union(b.to_set()));
}

/// Invalidates each flagged key with everything that depends on it, in the
/// order of `keys`: counts one invalidation per flagged key and one cascade
/// invalidation per dependent, and returns the keys to drop from the cache
/// (each flagged key followed by its dependents).
pub fn invalidate_selected(
    graph: &DependencyGraph,
    stats: &mut InvalidationStats,
    keys: &Vec<CacheKey>,
    flags: &Vec<bool>,
) -> (r: Vec<CacheKey>)
    requires
        graph.wf(),
        flags@.len() == keys@.len(),
        old(stats).total_invalidations + count_flags(flags@) <= u64::MAX,
        old(stats).cascade_invalidations + dependents_sum(graph@, key_views(keys@), flags@) <= u64::MAX,
    ensures
        *final(stats) == (InvalidationStats {
            total_invalidations: (old(stats).total_invalidations + count_flags(flags@)) as u64,
            cascade_invalidations: (old(stats).cascade_invalidations + dependents_sum(
                graph@,
                key_views(keys@),
                flags@,
            )) as u64,
            ..*old(stats)
        }),
        key_views(r@).to_set() == drop_set(graph@, key_views(keys@), flags@),
        r@.len() == count_flags(flags@) + dependents_sum(graph@, key_views(keys@), flags@),
{
    let ghost g = graph@;
    let ghost kv = key_views(keys@);
    let ghost st = *stats;
    let mut out: Vec<CacheKey> = Vec::new();
    let mut i: usize = 0;
    proof {
        assert(kv.take(0) =~= Seq::<KeyView>::empty());
        assert(flags@.take(0) =~= Seq::<bool>::empty());
        assert(key_views(out@).to_set() =~= Set::<KeyView>::empty());
    }
    while i < keys.len()
        invariant
            i <= keys@.len(),
            graph.wf(),
            g == graph@,
            kv == key_views(keys@),
            flags@.len() == keys@.len(),
            st.total_invalidations + count_flags(flags@) <= u64::MAX,
            st.cascade_invalidations + dependents_sum(g, kv, flags@) <= u64::MAX,
            *stats == (InvalidationStats {
                total_invalidations: (st.total_invalidations + count_flags(flags@.take(i as int))) as u64,
                cascade_invalidations: (st.cascade_invalidations + dependents_sum(
                    g,
                    kv.take(i as int),
                    flags@.take(i as int),
                )) as u64,
                ..st
            }),
            key_views(out@).to_set() == drop_set(g, kv.take(i as int), flags@.take(i as int)),
            out@.len() == count_flags(flags@.take(i as int)) + dependents_sum(g, kv.take(i as int), flags@.take(i as int)),
        decreases keys@.len() - i,
    {
        let ghost ki = kv.take(i as int);
        let ghost fi = flags@.take(i as int);
        let ghost ki1 = kv.take(i + 1);
        let ghost fi1 = flags@.take(i + 1);
        proof {
            assert(ki1.drop_last() =~= ki);
            assert(fi1.drop_last() =~= fi);
            assert(ki1.last() == keys@[i as int]@);
            assert(fi1.last() == flags@[i as int]);
            lemma_flag_prefix(flags@, i + 1);
            lemma_dependents_prefix(g, kv, flags@, i + 1);
        }
        if flags[i] {
            let deps = cascade_invalidation(graph, stats, &keys[i]);
            let ghost before = out@;
            out.push(keys[i].copy());
            proof {
                assert(key_views(out@) =~= key_views(before).push(keys@[i as int]@));
                key_views(before).lemma_push_to_set_commute(keys@[i as int]@);
            }
            let ghost mid = out@;
            let ghost dseq = deps@;
            let mut deps = deps;
            out.append(&mut deps);
            proof {
                let dv = key_views(dseq);
                assert(out@ == mid + dseq);
                assert(key_views(out@) =~= key_views(mid) + dv);
                assert(dv.to_set() == dependents_of(g, keys@[i as int]@));
                lemma_concat_to_set(key_views(mid), dv);
                assert(key_views(mid).to_set().union(dv.to_set()) =~= drop_set(g, ki1, fi1));
            }
        } else {
            proof {
                assert(drop_set(g, ki, fi).union(Set::empty()) =~= drop_set(g, ki, fi));
            }
        }
        i = i + 1;
    }
    proof {
        assert(kv.take(keys@.len() as int) =~= kv);
        assert(flags@.take(keys@.len() as int) =~= flags@);
    }
    out
}

/// Invalidates every one of `keys` whose text the regular expression
/// `pattern` matches, each with its dependents; an invalid pattern is
/// refused and nothing is counted. Gives the number of matching keys and the
/// keys to drop from the cache.
pub fn invalidate_by_regex_pattern(
    pattern: &str,
    keys: &Vec<CacheKey>,
    graph: &DependencyGraph,
    stats: &mut InvalidationStats,
) -> (r: Result<(usize, Vec<CacheKey>), InvalidationError>)
    requires
        graph.wf(),
        old(stats).total_invalidations + keys@.len() <= u64::MAX,
        old(stats).cascade_invalidations + all_dependents_sum(graph@, key_views(keys@)) <= u64::MAX,
    ensures
        r is Err <==> !regex_compiles(pattern@),
        r is Err ==> *final(stats) == *old(stats),
        r matches Err(InvalidationError::InvalidPattern { field, reason }) ==> field@ == "pattern"@
            && exists|detail: Seq<char>| reason@ == "Invalid regex pattern: "@ + detail,
        r matches Ok((n, dropped)) ==> {
            let flags = regex_key_flags(pattern@, key_views(keys@));
            &&& n == count_flags(flags)
            &&& *final(stats) == (InvalidationStats {
                total_invalidations: (old(stats).total_invalidations + count_flags(flags)) as u64,
                cascade_invalidations: (old(stats).cascade_invalidations + dependents_sum(
                    graph@,
                    key_views(keys@),
                    flags,
                )) as u64,
                ..*old(stats)
            })
            &&& key_views(dropped@).to_set() == drop_set(graph@, key_views(keys@), flags)
            &&& dropped@.len() == n + dependents_sum(graph@, key_views(keys@), flags)
        },
{
    let mut texts: Vec<String> = Vec::new();
    let mut i: usize = 0;
    while i < keys.len()
        invariant
            i <= keys@.len(),
            texts@.len() == i,
            forall|j: int| 0 <= j < i ==> #[trigger] texts@[j]@ == key_text(keys@[j]@),
        decreases keys@.len() - i,
    {
        texts.push(keys[i].to_key_string());
        i = i + 1;
    }
    let flags = match regex_selection(pattern, &texts) {
        Ok(f) => f,
        Err(e) => {
            return Err(e);
        },
    };
    let ghost fl = regex_key_flags(pattern@, key_views(keys@));
    proof {
        assert(flags@ =~= fl);
        lemma_flag_prefix(flags@, 0);
        lemma_dependents_prefix(graph@, key_views(keys@), flags@, 0);
    }
    let n = count_selected(&flags);
    let dropped = invalidate_selected(graph, stats, keys, &flags);
    Ok((n, dropped))
}

} // verus!

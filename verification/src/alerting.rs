//! Decisions of the intelligent alerting system: suppression of repeated
//! alerts, channel filtering, metric names, suggested actions and statistics.
use vstd::prelude::*;
use crate::metrics_types::{AnomalySeverity, AnomalyType};
use crate::text::{contains_str, spec_contains, str_eq};

verus! {

/// Severity of an alert.
#[derive(Debug, Clone, Copy, PartialEq, Eq, Structural)]
pub enum AlertLevel {
    Info,
    Warning,
    Critical,
}

/// Condition under which an alert rule fires.
#[derive(Debug, Clone, Copy, PartialEq, Eq, Structural)]
pub enum AlertCondition {
    GreaterThan,
    LessThan,
    Equals,
    NotEquals,
    RateOfChange,
    Anomaly,
    Predictive,
}

/// Kind of notification channel.
#[derive(Debug, Clone, Copy, PartialEq, Eq, Structural)]
pub enum ChannelType {
    Email,
    Webhook,
    Slack,
    Discord,
    Console,
}

/// Settings of a notification channel.
pub struct ChannelConfig {
    pub endpoint: Option<String>,
    /// Header (name, value) pairs.
    pub headers: Vec<(String, String)>,
    pub template: Option<String>,
    pub rate_limit_per_hour: Option<u32>,
}

/// Settings of the alerting system.
#[derive(Debug, Clone, Copy, PartialEq, Eq)]
pub struct IntelligentAlertConfig {
    pub max_alert_history: usize,
    pub adaptive_learning_enabled: bool,
    pub predictive_alerting_enabled: bool,
    pub alert_correlation_window_minutes: u32,
    pub suppression_window_minutes: u32,
    pub escalation_enabled: bool,
}

impl Default for IntelligentAlertConfig {
    fn default() -> (r: Self)
        ensures
            r.max_alert_history == 10000,
            r.adaptive_learning_enabled,
            r.predictive_alerting_enabled,
            r.alert_correlation_window_minutes == 5,
            r.suppression_window_minutes == 30,
            !r.escalation_enabled,
    {
        IntelligentAlertConfig {
            max_alert_history: 10000,
            adaptive_learning_enabled: true,
            predictive_alerting_enabled: true,
            alert_correlation_window_minutes: 5,
            suppression_window_minutes: 30,
            escalation_enabled: false,
        }
    }
}

/// An alert as recorded in the history.
pub struct AlertRecord {
    pub title: String,
    pub level: AlertLevel,
    /// Milliseconds since the Unix epoch.
    pub timestamp_ms: i64,
}

/// Summary of the alert history.
pub struct AlertStatistics {
    pub total_alerts: usize,
    pub alerts_last_24h: usize,
    pub alerts_last_hour: usize,
    pub critical_alerts_24h: usize,
    pub most_frequent_alert: Option<String>,
}

/// Milliseconds in a minute.
pub const MINUTE_MS: i64 = 60_000;

/// Milliseconds in an hour.
pub const HOUR_MS: i64 = 3_600_000;

/// The digit that stands for a level in suppression keys.
pub open spec fn level_digit(l: AlertLevel) -> char {
    match l {
        AlertLevel::Info => '0',
        AlertLevel::Warning => '1',
        AlertLevel::Critical => '2',
    }
}

/// The key under which an alert is suppressed: its title, `_`, and its level's digit.
pub open spec fn spec_suppression_key(title: Seq<char>, l: AlertLevel) -> Seq<char> {
    title + seq!['_', level_digit(l)]
}

/// The suppression key of an alert.
pub fn suppression_key(title: &String, level: AlertLevel) -> (r: String)
    ensures
        r@ == spec_suppression_key(title@, level),
{
    let mut s = title.clone();
    let suffix = match level {
        AlertLevel::Info => "_0",
        AlertLevel::Warning => "_1",
        AlertLevel::Critical => "_2",
    };
    proof {
        reveal_strlit("_0");
        reveal_strlit("_1");
        reveal_strlit("_2");
    }
    s.append(suffix);
    proof {
        assert(s@ =~= spec_suppression_key(title@, level));
    }
    s
}

/// When each alert kind was last let through.
pub struct AlertSuppression {
    /// Distinct keys, each with the time (ms) its alert was last sent.
    last_sent: Vec<(String, i64)>,
}

/// Abstract value of the suppression table.
pub open spec fn sent_views(s: Seq<(String, i64)>) -> Seq<(Seq<char>, i64)> {
    s.map_values(|p: (String, i64)| (p.0@, p.1))
}

/// When the alert with `key` was last sent, if ever.
pub open spec fn last_sent_at(t: Seq<(Seq<char>, i64)>, key: Seq<char>) -> Option<i64>
    decreases t.len(),
{
    if t.len() == 0 {
        None
    } else if t.last().0 == key {
        Some(t.last().1)
    } else {
        last_sent_at(t.drop_last(), key)
    }
}

/// Whether an alert sent last at `last` is still suppressed at `now_ms`.
pub open spec fn still_suppressed(last: i64, now_ms: i64, window_minutes: u32) -> bool {
    now_ms - last < window_minutes * MINUTE_MS
}

/// The decision for one alert and the table after it.
pub open spec fn spec_suppress_one(t: Seq<(Seq<char>, i64)>, key: Seq<char>, now_ms: i64, window_minutes: u32) -> (
    bool,
    Seq<(Seq<char>, i64)>,
) {
    match last_sent_at(t, key) {
        Some(last) => if still_suppressed(last, now_ms, window_minutes) {
            (false, t)
        } else {
            (true, t.push((key, now_ms)))
        },
        None => (true, t.push((key, now_ms))),
    }
}

/// The decisions for a batch of alert keys, in order, and the table after them.
pub open spec fn spec_suppress_all(t: Seq<(Seq<char>, i64)>, keys: Seq<Seq<char>>, now_ms: i64, window_minutes: u32) -> (
    Seq<bool>,
    Seq<(Seq<char>, i64)>,
)
    decreases keys.len(),
{
    if keys.len() == 0 {
        (Seq::empty(), t)
    } else {
        let prev = spec_suppress_all(t, keys.drop_last(), now_ms, window_minutes);
        let step = spec_suppress_one(prev.1, keys.last(), now_ms, window_minutes);
        (prev.0.push(step.0), step.1)
    }
}

/// The suppression keys of a batch of (title, level) alerts.
pub open spec fn batch_keys(alerts: Seq<(String, AlertLevel)>) -> Seq<Seq<char>> {
    alerts.map_values(|a: (String, AlertLevel)| spec_suppression_key(a.0@, a.1))
}

impl AlertSuppression {
    /// Abstract value: the time each key was last sent, as a lookup table in
    /// which later entries take precedence.
    pub closed spec fn view(&self) -> Seq<(Seq<char>, i64)> {
        sent_views(self.last_sent@)
    }

    /// An empty table.
    pub fn new() -> (r: Self)
        ensures
            r.view().len() == 0,
            forall|k: Seq<char>| last_sent_at(r.view(), k) is None,
    {
        let r = AlertSuppression { last_sent: Vec::new() };
        proof {
            assert(r.view() =~= Seq::<(Seq<char>, i64)>::empty());
        }
        r
    }

    fn find(&self, key: &String) -> (r: Option<i64>)
        ensures
            r == last_sent_at(self.view(), key@),
    {
        let mut i = self.last_sent.len();
        proof {
            assert(self.view().take(i as int) =~= self.view());
        }
        while i > 0
            invariant
                i <= self.last_sent@.len(),
                last_sent_at(self.view(), key@) == last_sent_at(self.view().take(i as int), key@),
            decreases i,
        {
            let ghost t = self.view().take(i as int);
            proof {
                assert(t.drop_last() =~= self.view().take(i - 1));
            }
            if self.last_sent[i - 1].0 == *key {
                return Some(self.last_sent[i - 1].1);
            }
            i = i - 1;
        }
        None
    }

    /// Lets through each (title, level) alert of a batch unless an alert with
    /// the same title and level was let through less than `window_minutes`
    /// before `now_ms`; records the time of each one let through. Gives one
    /// flag per alert: `true` for sent, `false` for suppressed.
    pub fn apply_suppression(&mut self, alerts: &Vec<(String, AlertLevel)>, now_ms: i64, window_minutes: u32) -> (r: Vec<
        bool,
    >)
        ensures
            r@ == spec_suppress_all(old(self).view(), batch_keys(alerts@), now_ms, window_minutes).0,
            final(self).view() == spec_suppress_all(old(self).view(), batch_keys(alerts@), now_ms, window_minutes).1,
    {
        let ghost t0 = self.view();
        let mut out: Vec<bool> = Vec::new();
        let window: i128 = (window_minutes as i128) * (MINUTE_MS as i128);
        let mut i: usize = 0;
        while i < alerts.len()
            invariant
                i <= alerts@.len(),
                window == window_minutes * MINUTE_MS,
                (out@, self.view()) == spec_suppress_all(t0, batch_keys(alerts@).take(i as int), now_ms, window_minutes),
            decreases alerts@.len() - i,
        {
            let key = suppression_key(&alerts[i].0, alerts[i].1);
            proof {
                let ks = batch_keys(alerts@);
                assert(ks.take(i + 1).drop_last() =~= ks.take(i as int));
                assert(ks.take(i + 1).last() == key@);
            }
            let send = match self.find(&key) {
                Some(last) => (now_ms as i128) - (last as i128) >= window,
                None => true,
            };
            let ghost before = self.view();
            if send {
                self.last_sent.push((key, now_ms));
                proof {
                    assert(self.view() =~= before.push((key@, now_ms)));
                }
            }
            out.push(send);
            i = i + 1;
        }
        proof {
            assert(batch_keys(alerts@).take(alerts@.len() as int) =~= batch_keys(alerts@));
        }
        out
    }
}

fn same_level(a: AlertLevel, b: AlertLevel) -> (r: bool)
    ensures
        r == (a == b),
{
    match (a, b) {
        (AlertLevel::Info, AlertLevel::Info) => true,
        (AlertLevel::Warning, AlertLevel::Warning) => true,
        (AlertLevel::Critical, AlertLevel::Critical) => true,
        _ => false,
    }
}

/// Whether a channel takes an alert of `level`: it is enabled and its filter
/// is empty or lists the level.
pub fn channel_accepts(enabled: bool, severity_filter: &Vec<AlertLevel>, level: AlertLevel) -> (r: bool)
    ensures
        r == (enabled && (severity_filter@.len() == 0 || severity_filter@.contains(level))),
{
    if !enabled {
        return false;
    }
    if severity_filter.len() == 0 {
        return true;
    }
    let mut i: usize = 0;
    while i < severity_filter.len()
        invariant
            enabled,
            severity_filter@.len() > 0,
            i <= severity_filter@.len(),
            forall|j: int| 0 <= j < i ==> severity_filter@[j] != level,
        decreases severity_filter@.len() - i,
    {
        if same_level(severity_filter[i], level) {
            proof {
                assert(severity_filter@[i as int] == level);
                assert(severity_filter@.contains(level));
            }
            return true;
        }
        i = i + 1;
    }
    false
}

/// Whether an alert raised at `timestamp_ms` is within the correlation window
/// of `window_minutes` before `now_ms`.
pub fn within_correlation_window(now_ms: i64, timestamp_ms: i64, window_minutes: u32) -> (r: bool)
    ensures
        r == (now_ms - timestamp_ms <= window_minutes * MINUTE_MS),
{
    (now_ms as i128) - (timestamp_ms as i128) <= (window_minutes as i128) * (MINUTE_MS as i128)
}

/// The level of an alert raised for an anomaly of a given severity.
pub fn severity_to_level(severity: AnomalySeverity) -> (r: AlertLevel)
    ensures
        r == match severity {
            AnomalySeverity::Low => AlertLevel::Info,
            AnomalySeverity::Medium => AlertLevel::Warning,
            AnomalySeverity::High | AnomalySeverity::Critical => AlertLevel::Critical,
        },
{
    match severity {
        AnomalySeverity::Low => AlertLevel::Info,
        AnomalySeverity::Medium => AlertLevel::Warning,
        AnomalySeverity::High | AnomalySeverity::Critical => AlertLevel::Critical,
    }
}

/// The metric an alert title is about.
pub open spec fn spec_extract_metric_name(title: Seq<char>) -> Option<Seq<char>> {
    if spec_contains(title, "CPU"@) {
        Some("cpu_usage"@)
    } else if spec_contains(title, "Memory"@) {
        Some("memory_usage"@)
    } else if spec_contains(title, "Health"@) {
        Some("system_health_score"@)
    } else {
        None
    }
}

/// The metric an alert title is about: CPU, memory or health, by the first
/// of these words the title contains.
pub fn extract_metric_name(title: &str) -> (r: Option<String>)
    ensures
        match spec_extract_metric_name(title@) {
            Some(m) => r matches Some(s) && s@ == m,
            None => r is None,
        },
{
    if contains_str(title, "CPU") {
        Some("cpu_usage".to_owned())
    } else if contains_str(title, "Memory") {
        Some("memory_usage".to_owned())
    } else if contains_str(title, "Health") {
        Some("system_health_score".to_owned())
    } else {
        None
    }
}

/// Whether an alert on `metric_name` can be resolved automatically.
pub fn can_auto_resolve(metric_name: &str) -> (r: bool)
    ensures
        r == (metric_name@ == "memory_usage"@ || metric_name@ == "agent_count"@),
{
    str_eq(metric_name, "memory_usage") || str_eq(metric_name, "agent_count")
}

/// The views of a list of strings.
pub open spec fn views_of(v: Seq<String>) -> Seq<Seq<char>> {
    v.map_values(|s: String| s@)
}

/// The actions suggested for an alert on a metric.
pub open spec fn spec_suggested_actions(metric_name: Seq<char>) -> Seq<Seq<char>> {
    if metric_name == "cpu_usage"@ {
        seq![
            "Consider scaling up CPU resources"@,
            "Optimize agent workloads"@,
            "Check for runaway processes"@,
        ]
    } else if metric_name == "memory_usage"@ {
        seq!["Increase available memory"@, "Trigger garbage collection"@, "Optimize memory usage patterns"@]
    } else if metric_name == "system_health_score"@ {
        seq!["Investigate system components"@, "Check resource utilization"@, "Review recent changes"@]
    } else {
        seq!["Monitor the situation"@]
    }
}

fn strings3(a: &str, b: &str, c: &str) -> (r: Vec<String>)
    ensures
        views_of(r@) == seq![a@, b@, c@],
{
    let mut v: Vec<String> = Vec::new();
    v.push(a.to_owned());
    v.push(b.to_owned());
    v.push(c.to_owned());
    proof {
        assert(views_of(v@) =~= seq![a@, b@, c@]);
    }
    v
}

fn strings2(a: &str, b: &str) -> (r: Vec<String>)
    ensures
        views_of(r@) == seq![a@, b@],
{
    let mut v: Vec<String> = Vec::new();
    v.push(a.to_owned());
    v.push(b.to_owned());
    proof {
        assert(views_of(v@) =~= seq![a@, b@]);
    }
    v
}

fn strings1(a: &str) -> (r: Vec<String>)
    ensures
        views_of(r@) == seq![a@],
{
    let mut v: Vec<String> = Vec::new();
    v.push(a.to_owned());
    proof {
        assert(views_of(v@) =~= seq![a@]);
    }
    v
}

/// The actions suggested for an alert on `metric_name`.
pub fn generate_suggested_actions(metric_name: &str) -> (r: Vec<String>)
    ensures
        views_of(r@) == spec_suggested_actions(metric_name@),
{
    if str_eq(metric_name, "cpu_usage") {
        strings3("Consider scaling up CPU resources", "Optimize agent workloads", "Check for runaway processes")
    } else if str_eq(metric_name, "memory_usage") {
        strings3("Increase available memory", "Trigger garbage collection", "Optimize memory usage patterns")
    } else if str_eq(metric_name, "system_health_score") {
        strings3("Investigate system components", "Check resource utilization", "Review recent changes")
    } else {
        strings1("Monitor the situation")
    }
}

/// The actions suggested for an anomaly.
pub fn generate_anomaly_actions(anomaly_type: AnomalyType) -> (r: Vec<String>)
    ensures
        views_of(r@) == match anomaly_type {
            AnomalyType::PerformanceSpike => seq![
                "Investigate sudden performance increase"@,
                "Check for unusual workload patterns"@,
            ],
            AnomalyType::PerformanceDrop => seq![
                "Investigate performance degradation"@,
                "Check system resources"@,
                "Review recent configuration changes"@,
            ],
            _ => seq!["Investigate anomalous behavior"@],
        },
{
    match anomaly_type {
        AnomalyType::PerformanceSpike => strings2(
            "Investigate sudden performance increase",
            "Check for unusual workload patterns",
        ),
        AnomalyType::PerformanceDrop => strings3(
            "Investigate performance degradation",
            "Check system resources",
            "Review recent configuration changes",
        ),
        _ => strings1("Investigate anomalous behavior"),
    }
}

/// How many records of the history have `title`.
pub open spec fn title_count(h: Seq<AlertRecord>, title: Seq<char>) -> nat
    decreases h.len(),
{
    if h.len() == 0 {
        0
    } else {
        title_count(h.drop_last(), title) + if h.last().title@ == title { 1nat } else { 0nat }
    }
}

/// How many records satisfy a predicate on their time and level.
pub open spec fn count_where(h: Seq<AlertRecord>, p: spec_fn(AlertRecord) -> bool) -> nat
    decreases h.len(),
{
    if h.len() == 0 {
        0
    } else {
        count_where(h.drop_last(), p) + if p(h.last()) { 1nat } else { 0nat }
    }
}

/// Records raised at or after `since_ms`.
pub open spec fn raised_since(since_ms: int) -> spec_fn(AlertRecord) -> bool {
    |r: AlertRecord| r.timestamp_ms >= since_ms
}

/// Critical records raised at or after `since_ms`.
pub open spec fn critical_since(since_ms: int) -> spec_fn(AlertRecord) -> bool {
    |r: AlertRecord| r.timestamp_ms >= since_ms && r.level == AlertLevel::Critical
}

fn count_title(history: &Vec<AlertRecord>, title: &String) -> (r: usize)
    ensures
        r == title_count(history@, title@),
{
    let mut c: usize = 0;
    let mut i: usize = 0;
    while i < history.len()
        invariant
            i <= history@.len(),
            c == title_count(history@.take(i as int), title@),
            c <= i,
        decreases history@.len() - i,
    {
        proof {
            assert(history@.take(i + 1).drop_last() =~= history@.take(i as int));
        }
        if history[i].title == *title {
            c = c + 1;
        }
        i = i + 1;
    }
    proof {
        assert(history@.take(history@.len() as int) =~= history@);
    }
    c
}

proof fn lemma_title_count_positive(h: Seq<AlertRecord>, i: int)
    requires
        0 <= i < h.len(),
    ensures
        title_count(h, h[i].title@) >= 1,
    decreases h.len(),
{
    if i < h.len() - 1 {
        assert(h.drop_last()[i] == h[i]);
        lemma_title_count_positive(h.drop_last(), i);
    }
}

proof fn lemma_title_count_absent(h: Seq<AlertRecord>, t: Seq<char>)
    requires
        forall|i: int| 0 <= i < h.len() ==> h[i].title@ != t,
    ensures
        title_count(h, t) == 0,
    decreases h.len(),
{
    if h.len() > 0 {
        assert forall|i: int| 0 <= i < h.drop_last().len() implies h.drop_last()[i].title@ != t by {
            assert(h.drop_last()[i] == h[i]);
        }
        lemma_title_count_absent(h.drop_last(), t);
    }
}

/// A title that occurs most often in the history, or `None` when it is empty.
/// Which of several equally frequent titles is given is left open.
pub fn most_frequent_alert(history: &Vec<AlertRecord>) -> (r: Option<String>)
    ensures
        r is None <==> history@.len() == 0,
        r matches Some(t) ==> title_count(history@, t@) >= 1 && forall|x: Seq<char>| #[trigger] title_count(history@, x)
            <= title_count(history@, t@),
{
    if history.len() == 0 {
        return None;
    }
    let mut best: usize = 0;
    let mut best_count = count_title(history, &history[0].title);
    let mut i: usize = 1;
    while i < history.len()
        invariant
            1 <= i <= history@.len(),
            best < i,
            best_count == title_count(history@, history@[best as int].title@),
            forall|j: int| 0 <= j < i ==> title_count(history@, (#[trigger] history@[j]).title@) <= best_count,
        decreases history@.len() - i,
    {
        let c = count_title(history, &history[i].title);
        if c > best_count {
            best = i;
            best_count = c;
        }
        i = i + 1;
    }
    let t = history[best].title.clone();
    proof {
        lemma_title_count_positive(history@, best as int);
        assert forall|x: Seq<char>| #[trigger] title_count(history@, x) <= title_count(history@, t@) by {
            if exists|j: int| 0 <= j < history@.len() && history@[j].title@ == x {
                let j = choose|j: int| 0 <= j < history@.len() && history@[j].title@ == x;
                assert(title_count(history@, history@[j].title@) <= best_count);
            } else {
                lemma_title_count_absent(history@, x);
            }
        }
    }
    Some(t)
}

fn count_since(history: &Vec<AlertRecord>, since: i128, critical_only: bool) -> (r: usize)
    ensures
        r == count_where(history@, if critical_only { critical_since(since as int) } else { raised_since(since as int) }),
{
    let ghost p = if critical_only { critical_since(since as int) } else { raised_since(since as int) };
    let mut c: usize = 0;
    let mut i: usize = 0;
    while i < history.len()
        invariant
            i <= history@.len(),
            c == count_where(history@.take(i as int), p),
            c <= i,
            p == if critical_only { critical_since(since as int) } else { raised_since(since as int) },
        decreases history@.len() - i,
    {
        proof {
            assert(history@.take(i + 1).drop_last() =~= history@.take(i as int));
        }
        let recent = (history[i].timestamp_ms as i128) >= since;
        if recent && (!critical_only || same_level(history[i].level, AlertLevel::Critical)) {
            c = c + 1;
        }
        i = i + 1;
    }
    proof {
        assert(history@.take(history@.len() as int) =~= history@);
    }
    c
}

/// Statistics of the alert history at `now_ms`: the number of alerts, of
/// those raised in the last 24 hours and in the last hour, of critical ones
/// in the last 24 hours, and a most frequent title.
pub fn get_alert_statistics(history: &Vec<AlertRecord>, now_ms: i64) -> (r: AlertStatistics)
    ensures
        r.total_alerts == history@.len(),
        r.alerts_last_24h == count_where(history@, raised_since(now_ms - 24 * HOUR_MS)),
        r.alerts_last_hour == count_where(history@, raised_since(now_ms - HOUR_MS)),
        r.critical_alerts_24h == count_where(history@, critical_since(now_ms - 24 * HOUR_MS)),
        r.most_frequent_alert is None <==> history@.len() == 0,
        r.most_frequent_alert matches Some(t) ==> forall|x: Seq<char>| #[trigger] title_count(history@, x) <= title_count(
            history@,
            t@,
        ),
{
    let day_ago = (now_ms as i128) - 24 * (HOUR_MS as i128);
    let hour_ago = (now_ms as i128) - (HOUR_MS as i128);
    AlertStatistics {
        total_alerts: history.len(),
        alerts_last_24h: count_since(history, day_ago, false),
        alerts_last_hour: count_since(history, hour_ago, false),
        critical_alerts_24h: count_since(history, day_ago, true),
        most_frequent_alert: most_frequent_alert(history),
    }
}

/// When an alert kind is sent, a second alert of that kind at the same time
/// is suppressed, for any positive window.
pub proof fn lemma_repeat_suppressed(t: Seq<(Seq<char>, i64)>, key: Seq<char>, now_ms: i64, window_minutes: u32)
    requires
        window_minutes > 0,
    ensures
        spec_suppress_one(t, key, now_ms, window_minutes).0 ==> !spec_suppress_one(
            spec_suppress_one(t, key, now_ms, window_minutes).1,
            key,
            now_ms,
            window_minutes,
        ).0,
{
    let t1 = spec_suppress_one(t, key, now_ms, window_minutes).1;
    if spec_suppress_one(t, key, now_ms, window_minutes).0 {
        assert(t1.drop_last() =~= t);
        assert(last_sent_at(t1, key) == Some(now_ms));
    }
}

/// Once the window has passed since an alert kind was last sent, it is sent again.
pub proof fn lemma_sent_after_window(t: Seq<(Seq<char>, i64)>, key: Seq<char>, now_ms: i64, window_minutes: u32)
    requires
        last_sent_at(t, key) matches Some(last) && now_ms - last >= window_minutes * MINUTE_MS,
    ensures
        spec_suppress_one(t, key, now_ms, window_minutes).0,
        last_sent_at(spec_suppress_one(t, key, now_ms, window_minutes).1, key) == Some(now_ms),
{
    assert(spec_suppress_one(t, key, now_ms, window_minutes).1.drop_last() =~= t);
}

} // verus!

//! Keys of cached entities and their text form.
use vstd::prelude::*;
use vstd::arithmetic::power::pow;
use vstd::string::StringExecFns;

verus! {

/// Key of a cached entity. Identifiers are UUIDs held as 128-bit integers.
pub enum CacheKey {
    /// Agent data by ID
    Agent(u128),
    /// Task data by ID
    Task(u128),
    /// Agent metrics by ID
    AgentMetrics(u128),
    /// Task metrics by ID
    TaskMetrics(u128),
    /// System status data
    SystemStatus(String),
    /// Performance metrics
    PerformanceMetrics(String),
    /// Custom key for flexible caching
    Custom(String),
}

/// Abstract value of a key.
pub enum KeyView {
    Agent(u128),
    Task(u128),
    AgentMetrics(u128),
    TaskMetrics(u128),
    SystemStatus(Seq<char>),
    PerformanceMetrics(Seq<char>),
    Custom(Seq<char>),
}

impl View for CacheKey {
    type V = KeyView;

    open spec fn view(&self) -> KeyView {
        match self {
            CacheKey::Agent(id) => KeyView::Agent(*id),
            CacheKey::Task(id) => KeyView::Task(*id),
            CacheKey::AgentMetrics(id) => KeyView::AgentMetrics(*id),
            CacheKey::TaskMetrics(id) => KeyView::TaskMetrics(*id),
            CacheKey::SystemStatus(s) => KeyView::SystemStatus(s@),
            CacheKey::PerformanceMetrics(s) => KeyView::PerformanceMetrics(s@),
            CacheKey::Custom(s) => KeyView::Custom(s@),
        }
    }
}

/// The lowercase hexadecimal digit for `n` in 0..16.
pub open spec fn hex_digit(n: int) -> char {
    if n < 10 {
        ('0' as int + n) as char
    } else {
        ('a' as int + n - 10) as char
    }
}

/// The `i`-th of the 32 hexadecimal digits of `v`, most significant first.
pub open spec fn nibble(v: u128, i: int) -> int {
    (v as int / pow(16, (31 - i) as nat)) % 16
}

/// Number of hyphens before position `j` of the hyphenated form.
pub open spec fn hyphens_before(j: int) -> int {
    (if j > 8 { 1int } else { 0int }) + (if j > 13 { 1int } else { 0int }) + (if j > 18 { 1int } else { 0int }) + (if j
        > 23 { 1int } else { 0int })
}

/// The hyphenated lowercase text of a UUID: 32 hexadecimal digits, most
/// significant first, with hyphens at positions 8, 13, 18 and 23.
pub open spec fn uuid_text(v: u128) -> Seq<char> {
    Seq::new(
        36,
        |j: int|
            if j == 8 || j == 13 || j == 18 || j == 23 {
                '-'
            } else {
                hex_digit(nibble(v, j - hyphens_before(j)))
            },
    )
}

/// The text form of a key: a prefix naming its kind, a colon, and the
/// identifier or name.
pub open spec fn key_text(k: KeyView) -> Seq<char> {
    match k {
        KeyView::Agent(id) => "agent:"@ + uuid_text(id),
        KeyView::Task(id) => "task:"@ + uuid_text(id),
        KeyView::AgentMetrics(id) => "agent_metrics:"@ + uuid_text(id),
        KeyView::TaskMetrics(id) => "task_metrics:"@ + uuid_text(id),
        KeyView::SystemStatus(s) => "system_status:"@ + s,
        KeyView::PerformanceMetrics(s) => "performance_metrics:"@ + s,
        KeyView::Custom(s) => "custom:"@ + s,
    }
}

/// Formats a UUID through `uuid::Uuid`'s `Display`, which the `uuid` crate
/// writes as hyphenated lowercase hexadecimal of the big-endian bytes.
#[verifier::external_body]
fn format_uuid(v: u128) -> (r: String)
    ensures
        r@ == uuid_text(v),
{
    uuid::Uuid::from_u128(v).to_string()
}

impl CacheKey {
    /// A copy of the key.
    pub fn copy(&self) -> (r: CacheKey)
        ensures
            r@ == self@,
    {
        match self {
            CacheKey::Agent(id) => CacheKey::Agent(*id),
            CacheKey::Task(id) => CacheKey::Task(*id),
            CacheKey::AgentMetrics(id) => CacheKey::AgentMetrics(*id),
            CacheKey::TaskMetrics(id) => CacheKey::TaskMetrics(*id),
            CacheKey::SystemStatus(s) => CacheKey::SystemStatus(s.clone()),
            CacheKey::PerformanceMetrics(s) => CacheKey::PerformanceMetrics(s.clone()),
            CacheKey::Custom(s) => CacheKey::Custom(s.clone()),
        }
    }

    /// Whether two keys are equal.
    pub fn same_as(&self, other: &CacheKey) -> (r: bool)
        ensures
            r == (self@ == other@),
    {
        match (self, other) {
            (CacheKey::Agent(a), CacheKey::Agent(b)) => *a == *b,
            (CacheKey::Task(a), CacheKey::Task(b)) => *a == *b,
            (CacheKey::AgentMetrics(a), CacheKey::AgentMetrics(b)) => *a == *b,
            (CacheKey::TaskMetrics(a), CacheKey::TaskMetrics(b)) => *a == *b,
            (CacheKey::SystemStatus(a), CacheKey::SystemStatus(b)) => *a == *b,
            (CacheKey::PerformanceMetrics(a), CacheKey::PerformanceMetrics(b)) => *a == *b,
            (CacheKey::Custom(a), CacheKey::Custom(b)) => *a == *b,
            _ => false,
        }
    }

    /// The text form of the key, as its `Display` writes it.
    pub fn to_key_string(&self) -> (r: String)
        ensures
            r@ == key_text(self@),
    {
        match self {
            CacheKey::Agent(id) => {
                let mut s = "agent:".to_owned();
                s.append(format_uuid(*id).as_str());
                s
            },
            CacheKey::Task(id) => {
                let mut s = "task:".to_owned();
                s.append(format_uuid(*id).as_str());
                s
            },
            CacheKey::AgentMetrics(id) => {
                let mut s = "agent_metrics:".to_owned();
                s.append(format_uuid(*id).as_str());
                s
            },
            CacheKey::TaskMetrics(id) => {
                let mut s = "task_metrics:".to_owned();
                s.append(format_uuid(*id).as_str());
                s
            },
            CacheKey::SystemStatus(name) => {
                let mut s = "system_status:".to_owned();
                s.append(name.as_str());
                s
            },
            CacheKey::PerformanceMetrics(name) => {
                let mut s = "performance_metrics:".to_owned();
                s.append(name.as_str());
                s
            },
            CacheKey::Custom(name) => {
                let mut s = "custom:".to_owned();
                s.append(name.as_str());
                s
            },
        }
    }
}

} // verus!

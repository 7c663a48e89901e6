//! Server configuration: defaults, validation and environment overrides.
use vstd::prelude::*;
use vstd::string::StrSliceExecFns;

verus! {

/// Server configuration.
pub struct ServerConfig {
    /// Server host
    pub host: String,
    /// Server port
    pub port: u16,
    /// Maximum concurrent connections
    pub max_connections: usize,
    /// Request timeout in seconds
    pub request_timeout_secs: u64,
    /// Shutdown timeout in seconds
    pub shutdown_timeout_secs: u64,
}

/// Metrics settings that the configuration logic reads.
pub struct MetricsSettings {
    /// Enable Prometheus metrics
    pub enabled: bool,
    /// Metrics endpoint path
    pub path: String,
    /// Metrics collection interval in seconds
    pub collection_interval_secs: u64,
    /// Cache operation labels
    pub cache_labels: Vec<String>,
}

/// Cache configuration.
pub struct CacheConfig {
    /// Cache size in MB
    pub size_mb: usize,
    /// Default TTL in seconds
    pub default_ttl_secs: u64,
    /// Maximum TTL in seconds
    pub max_ttl_secs: u64,
    /// Cache warming enabled
    pub warming_enabled: bool,
    /// Cache invalidation enabled
    pub invalidation_enabled: bool,
}

/// Logging configuration.
pub struct LoggingConfig {
    /// Log level
    pub level: String,
    /// Log format (json, text)
    pub format: String,
    /// Enable request tracing
    pub request_tracing: bool,
    /// Enable correlation IDs
    pub correlation_ids: bool,
    /// Log file path (optional)
    pub file_path: Option<String>,
    /// Maximum log file size in MB
    pub max_file_size_mb: usize,
    /// Maximum number of log files to keep
    pub max_files: usize,
}

/// Security configuration.
pub struct SecurityConfig {
    /// Enable authentication
    pub auth_enabled: bool,
    /// JWT secret (should be loaded from environment)
    pub jwt_secret: Option<String>,
    /// Token expiration in hours
    pub token_expiration_hours: u64,
    /// Rate limiting enabled
    pub rate_limiting_enabled: bool,
    /// Requests per minute limit
    pub requests_per_minute: u32,
    /// CORS allowed origins
    pub cors_origins: Vec<String>,
}

/// Performance configuration.
pub struct PerformanceConfig {
    /// Maximum concurrent tasks
    pub max_concurrent_tasks: usize,
    /// Task queue size
    pub task_queue_size: usize,
    /// CPU optimization enabled
    pub cpu_optimization_enabled: bool,
    /// Memory pool size in MB
    pub memory_pool_size_mb: usize,
    /// Connection pool size
    pub connection_pool_size: usize,
    /// Streaming enabled
    pub streaming_enabled: bool,
}

/// The parts of the server configuration that validation and environment
/// overrides work on.
pub struct ConfigCore {
    pub server: ServerConfig,
    pub metrics: MetricsSettings,
    pub cache: CacheConfig,
    pub logging: LoggingConfig,
    pub security: SecurityConfig,
    pub performance: PerformanceConfig,
}

/// Format of a configuration file.
#[derive(Debug, Clone, Copy, PartialEq, Eq, Structural)]
pub enum ConfigFormat {
    Toml,
    Yaml,
}

impl Default for ServerConfig {
    fn default() -> (r: Self)
        ensures
            r.host@ == "0.0.0.0"@,
            r.port == 3002,
            r.max_connections == 1000,
            r.request_timeout_secs == 30,
            r.shutdown_timeout_secs == 10,
    {
        ServerConfig {
            host: "0.0.0.0".to_owned(),
            port: 3002,
            max_connections: 1000,
            request_timeout_secs: 30,
            shutdown_timeout_secs: 10,
        }
    }
}

impl Default for MetricsSettings {
    fn default() -> (r: Self)
        ensures
            r.enabled,
            r.path@ == "/metrics"@,
            r.collection_interval_secs == 15,
            r.cache_labels@.len() == 2,
            r.cache_labels@[0]@ == "memory"@,
            r.cache_labels@[1]@ == "disk"@,
    {
        let mut labels: Vec<String> = Vec::new();
        labels.push("memory".to_owned());
        labels.push("disk".to_owned());
        MetricsSettings { enabled: true, path: "/metrics".to_owned(), collection_interval_secs: 15, cache_labels: labels }
    }
}

impl Default for CacheConfig {
    fn default() -> (r: Self)
        ensures
            r.size_mb == 512,
            r.default_ttl_secs == 3600,
            r.max_ttl_secs == 86400,
            r.warming_enabled,
            r.invalidation_enabled,
    {
        CacheConfig {
            size_mb: 512,
            default_ttl_secs: 3600,
            max_ttl_secs: 86400,
            warming_enabled: true,
            invalidation_enabled: true,
        }
    }
}

impl Default for LoggingConfig {
    fn default() -> (r: Self)
        ensures
            r.level@ == "info"@,
            r.format@ == "json"@,
            r.request_tracing,
            r.correlation_ids,
            r.file_path is None,
            r.max_file_size_mb == 100,
            r.max_files == 5,
    {
        LoggingConfig {
            level: "info".to_owned(),
            format: "json".to_owned(),
            request_tracing: true,
            correlation_ids: true,
            file_path: None,
            max_file_size_mb: 100,
            max_files: 5,
        }
    }
}

impl Default for SecurityConfig {
    fn default() -> (r: Self)
        ensures
            !r.auth_enabled,
            r.jwt_secret is None,
            r.token_expiration_hours == 24,
            r.rate_limiting_enabled,
            r.requests_per_minute == 1000,
            r.cors_origins@.len() == 1,
            r.cors_origins@[0]@ == "*"@,
    {
        let mut origins: Vec<String> = Vec::new();
        origins.push("*".to_owned());
        SecurityConfig {
            auth_enabled: false,
            jwt_secret: None,
            token_expiration_hours: 24,
            rate_limiting_enabled: true,
            requests_per_minute: 1000,
            cors_origins: origins,
        }
    }
}

impl Default for PerformanceConfig {
    fn default() -> (r: Self)
        ensures
            r.max_concurrent_tasks == 100,
            r.task_queue_size == 1000,
            r.cpu_optimization_enabled,
            r.memory_pool_size_mb == 256,
            r.connection_pool_size == 50,
            r.streaming_enabled,
    {
        PerformanceConfig {
            max_concurrent_tasks: 100,
            task_queue_size: 1000,
            cpu_optimization_enabled: true,
            memory_pool_size_mb: 256,
            connection_pool_size: 50,
            streaming_enabled: true,
        }
    }
}

impl Default for ConfigCore {
    fn default() -> (r: Self)
        ensures
            r.server.port == 3002,
            r.server.max_connections == 1000,
            r.metrics.collection_interval_secs == 15,
            r.cache.size_mb == 512,
            r.performance.max_concurrent_tasks == 100,
            r.logging.level@ == "info"@,
            r.security.jwt_secret is None,
    {
        ConfigCore {
            server: ServerConfig::default(),
            metrics: MetricsSettings::default(),
            cache: CacheConfig::default(),
            logging: LoggingConfig::default(),
            security: SecurityConfig::default(),
            performance: PerformanceConfig::default(),
        }
    }
}

/// The messages that validation reports for a configuration, in order.
pub open spec fn spec_config_errors(c: &ConfigCore) -> Seq<Seq<char>> {
    let e0 = Seq::<Seq<char>>::empty();
    let e1 = if c.server.port == 0 { e0.push("Server port cannot be 0"@) } else { e0 };
    let e2 = if c.server.max_connections == 0 { e1.push("Max connections cannot be 0"@) } else { e1 };
    let e3 = if c.metrics.collection_interval_secs == 0 {
        e2.push("Metrics collection interval cannot be 0"@)
    } else {
        e2
    };
    let e4 = if c.cache.size_mb == 0 { e3.push("Cache size cannot be 0"@) } else { e3 };
    if c.performance.max_concurrent_tasks == 0 { e4.push("Max concurrent tasks cannot be 0"@) } else { e4 }
}

/// The views of a list of strings.
pub open spec fn string_views(v: Seq<String>) -> Seq<Seq<char>> {
    v.map_values(|s: String| s@)
}

/// Checks a configuration: `Ok` when nothing is wrong, else every problem found.
pub fn validate_config(config: &ConfigCore) -> (r: Result<(), Vec<String>>)
    ensures
        r is Ok <==> spec_config_errors(config).len() == 0,
        r matches Err(errors) ==> string_views(errors@) == spec_config_errors(config),
{
    let mut errors: Vec<String> = Vec::new();
    let ghost e0 = Seq::<Seq<char>>::empty();
    proof {
        assert(string_views(errors@) =~= e0);
    }
    if config.server.port == 0 {
        errors.push("Server port cannot be 0".to_owned());
    }
    let ghost e1 = if config.server.port == 0 { e0.push("Server port cannot be 0"@) } else { e0 };
    proof {
        assert(string_views(errors@) =~= e1);
    }
    if config.server.max_connections == 0 {
        errors.push("Max connections cannot be 0".to_owned());
    }
    let ghost e2 = if config.server.max_connections == 0 { e1.push("Max connections cannot be 0"@) } else { e1 };
    proof {
        assert(string_views(errors@) =~= e2);
    }
    if config.metrics.collection_interval_secs == 0 {
        errors.push("Metrics collection interval cannot be 0".to_owned());
    }
    let ghost e3 = if config.metrics.collection_interval_secs == 0 {
        e2.push("Metrics collection interval cannot be 0"@)
    } else {
        e2
    };
    proof {
        assert(string_views(errors@) =~= e3);
    }
    if config.cache.size_mb == 0 {
        errors.push("Cache size cannot be 0".to_owned());
    }
    let ghost e4 = if config.cache.size_mb == 0 { e3.push("Cache size cannot be 0"@) } else { e3 };
    proof {
        assert(string_views(errors@) =~= e4);
    }
    if config.performance.max_concurrent_tasks == 0 {
        errors.push("Max concurrent tasks cannot be 0".to_owned());
    }
    proof {
        assert(string_views(errors@) =~= spec_config_errors(config));
    }
    if errors.len() == 0 {
        Ok(())
    } else {
        Err(errors)
    }
}

/// Whether `c` is an ASCII decimal digit.
pub open spec fn is_digit(c: char) -> bool {
    '0' <= c <= '9'
}

/// The value of a sequence of decimal digits.
pub open spec fn digits_value(s: Seq<char>) -> nat
    decreases s.len(),
{
    if s.len() == 0 {
        0
    } else {
        digits_value(s.drop_last()) * 10 + (s.last() as int - '0' as int) as nat
    }
}

/// The digits of an unsigned number: everything after an optional leading `+`.
pub open spec fn unsigned_digits(s: Seq<char>) -> Seq<char> {
    if s.len() > 0 && s[0] == '+' {
        s.skip(1)
    } else {
        s
    }
}

/// What parsing text as a `u16` gives: an optional `+`, then at least one
/// decimal digit and nothing else, with a value of at most 65535.
pub open spec fn spec_parse_u16(s: Seq<char>) -> Option<u16> {
    let d = unsigned_digits(s);
    if d.len() > 0 && (forall|i: int| 0 <= i < d.len() ==> is_digit(#[trigger] d[i])) && digits_value(d) <= 65535 {
        Some(digits_value(d) as u16)
    } else {
        None
    }
}

/// What parsing text as a `bool` gives: exactly `true` or `false`.
pub open spec fn spec_parse_bool(s: Seq<char>) -> Option<bool> {
    if s == "true"@ {
        Some(true)
    } else if s == "false"@ {
        Some(false)
    } else {
        None
    }
}

/// Parses decimal text as a `u16`, as `str::parse::<u16>` does.
pub fn parse_u16(text: &str) -> (r: Option<u16>)
    ensures
        r == spec_parse_u16(text@),
{
    let n = text.unicode_len();
    let mut start: usize = 0;
    if n > 0 && text.get_char(0) == '+' {
        start = 1;
    }
    let ghost d = unsigned_digits(text@);
    proof {
        assert(d =~= text@.skip(start as int));
    }
    if start >= n {
        return None;
    }
    // Value of the digits read so far, capped at 65536.
    let mut acc: u32 = 0;
    let mut i: usize = start;
    while i < n
        invariant
            start <= i <= n,
            n == text@.len(),
            d == text@.skip(start as int),
            d == unsigned_digits(text@),
            forall|j: int| 0 <= j < i - start ==> is_digit(#[trigger] d[j]),
            acc as nat == if digits_value(d.take(i - start)) > 65536 { 65536 } else { digits_value(d.take(i - start)) },
        decreases n - i,
    {
        let c = text.get_char(i);
        if !('0' <= c && c <= '9') {
            proof {
                assert(d[i - start] == c);
                assert(!is_digit(d[i - start]));
            }
            return None;
        }
        let digit = (c as u32) - ('0' as u32);
        proof {
            let k = (i - start) as int;
            assert(d[k] == c);
            assert(d.take(k + 1).drop_last() =~= d.take(k));
            assert(d.take(k + 1).last() == c);
        }
        if acc >= 65536 {
            acc = 65536;
        } else {
            let next = acc * 10 + digit;
            acc = if next > 65536 { 65536 } else { next };
        }
        i = i + 1;
    }
    proof {
        assert(d.take(d.len() as int) =~= d);
    }
    if acc > 65535 {
        None
    } else {
        Some(acc as u16)
    }
}

/// Parses `true` or `false`, as `str::parse::<bool>` does.
pub fn parse_bool(text: &str) -> (r: Option<bool>)
    ensures
        r == spec_parse_bool(text@),
{
    let s = text.to_owned();
    if s == "true".to_owned() {
        Some(true)
    } else if s == "false".to_owned() {
        Some(false)
    } else {
        None
    }
}

/// The environment variables read for overrides, each with the setting it overrides.
pub open spec fn spec_env_override_key(var: Seq<char>) -> Option<Seq<char>> {
    if var == "MCP_SERVER_HOST"@ {
        Some("server.host"@)
    } else if var == "MCP_SERVER_PORT"@ {
        Some("server.port"@)
    } else if var == "MCP_METRICS_ENABLED"@ {
        Some("metrics.enabled"@)
    } else if var == "MCP_LOG_LEVEL"@ {
        Some("logging.level"@)
    } else if var == "MCP_JWT_SECRET"@ {
        Some("security.jwt_secret"@)
    } else {
        None
    }
}

/// The names of the environment variables that can override settings.
pub fn env_override_vars() -> (r: Vec<String>)
    ensures
        r@.len() == 5,
        forall|i: int| 0 <= i < 5 ==> spec_env_override_key((#[trigger] r@[i])@) is Some,
{
    let mut v: Vec<String> = Vec::new();
    v.push("MCP_SERVER_HOST".to_owned());
    v.push("MCP_SERVER_PORT".to_owned());
    v.push("MCP_METRICS_ENABLED".to_owned());
    v.push("MCP_LOG_LEVEL".to_owned());
    v.push("MCP_JWT_SECRET".to_owned());
    proof {
        reveal_strlit("MCP_SERVER_HOST");
        reveal_strlit("MCP_SERVER_PORT");
        reveal_strlit("MCP_METRICS_ENABLED");
        reveal_strlit("MCP_LOG_LEVEL");
        reveal_strlit("MCP_JWT_SECRET");
    }
    v
}

/// The setting that an environment variable overrides, if it is one of them.
pub fn env_override_key(var: &str) -> (r: Option<String>)
    ensures
        match spec_env_override_key(var@) {
            Some(k) => r matches Some(s) && s@ == k,
            None => r is None,
        },
{
    let v = var.to_owned();
    if v == "MCP_SERVER_HOST".to_owned() {
        Some("server.host".to_owned())
    } else if v == "MCP_SERVER_PORT".to_owned() {
        Some("server.port".to_owned())
    } else if v == "MCP_METRICS_ENABLED".to_owned() {
        Some("metrics.enabled".to_owned())
    } else if v == "MCP_LOG_LEVEL".to_owned() {
        Some("logging.level".to_owned())
    } else if v == "MCP_JWT_SECRET".to_owned() {
        Some("security.jwt_secret".to_owned())
    } else {
        None
    }
}

/// The settings that overrides can change.
pub struct OverridableView {
    pub host: Seq<char>,
    pub port: u16,
    pub metrics_enabled: bool,
    pub log_level: Seq<char>,
    pub jwt_secret: Option<Seq<char>>,
}

/// The overridable settings of a configuration.
pub open spec fn overridable(c: &ConfigCore) -> OverridableView {
    OverridableView {
        host: c.server.host@,
        port: c.server.port,
        metrics_enabled: c.metrics.enabled,
        log_level: c.logging.level@,
        jwt_secret: match c.security.jwt_secret {
            Some(s) => Some(s@),
            None => None,
        },
    }
}

/// What one override does. An unknown setting, or a value that does not
/// parse, changes nothing.
pub open spec fn spec_apply_override(o: OverridableView, key: Seq<char>, value: Seq<char>) -> OverridableView {
    if key == "server.host"@ {
        OverridableView { host: value, ..o }
    } else if key == "server.port"@ {
        match spec_parse_u16(value) {
            Some(p) => OverridableView { port: p, ..o },
            None => o,
        }
    } else if key == "metrics.enabled"@ {
        match spec_parse_bool(value) {
            Some(b) => OverridableView { metrics_enabled: b, ..o },
            None => o,
        }
    } else if key == "logging.level"@ {
        OverridableView { log_level: value, ..o }
    } else if key == "security.jwt_secret"@ {
        OverridableView { jwt_secret: Some(value), ..o }
    } else {
        o
    }
}

/// What a list of overrides does, applied in order.
pub open spec fn spec_apply_overrides(o: OverridableView, overrides: Seq<(Seq<char>, Seq<char>)>) -> OverridableView
    decreases overrides.len(),
{
    if overrides.len() == 0 {
        o
    } else {
        spec_apply_override(
            spec_apply_overrides(o, overrides.drop_last()),
            overrides.last().0,
            overrides.last().1,
        )
    }
}

/// The views of a list of (setting, value) pairs.
pub open spec fn pair_views(v: Seq<(String, String)>) -> Seq<(Seq<char>, Seq<char>)> {
    v.map_values(|p: (String, String)| (p.0@, p.1@))
}

/// Everything but the overridable settings is the same in two configurations.
pub open spec fn same_except_overridable(a: &ConfigCore, b: &ConfigCore) -> bool {
    &&& a.server.max_connections == b.server.max_connections
    &&& a.server.request_timeout_secs == b.server.request_timeout_secs
    &&& a.server.shutdown_timeout_secs == b.server.shutdown_timeout_secs
    &&& a.metrics.collection_interval_secs == b.metrics.collection_interval_secs
    &&& a.metrics.path@ == b.metrics.path@
    &&& a.cache.size_mb == b.cache.size_mb
    &&& a.cache.default_ttl_secs == b.cache.default_ttl_secs
    &&& a.cache.max_ttl_secs == b.cache.max_ttl_secs
    &&& a.logging.max_files == b.logging.max_files
    &&& a.logging.max_file_size_mb == b.logging.max_file_size_mb
    &&& a.performance.max_concurrent_tasks == b.performance.max_concurrent_tasks
    &&& a.security.requests_per_minute == b.security.requests_per_minute
}

/// Applies (setting, value) overrides in order: `server.host`,
/// `server.port` (when the value parses as a port), `metrics.enabled` (when it
/// parses as a boolean), `logging.level` and `security.jwt_secret`. Unknown
/// settings are ignored.
pub fn apply_env_overrides(config: &mut ConfigCore, overrides: &Vec<(String, String)>)
    ensures
        overridable(final(config)) == spec_apply_overrides(overridable(old(config)), pair_views(overrides@)),
        same_except_overridable(final(config), old(config)),
{
    let mut i: usize = 0;
    while i < overrides.len()
        invariant
            i <= overrides@.len(),
            overridable(config) == spec_apply_overrides(
                overridable(old(config)),
                pair_views(overrides@).take(i as int),
            ),
            same_except_overridable(config, old(config)),
        decreases overrides@.len() - i,
    {
        let key = &overrides[i].0;
        let value = &overrides[i].1;
        proof {
            let pv = pair_views(overrides@);
            assert(pv.take(i + 1).drop_last() =~= pv.take(i as int));
            assert(pv.take(i + 1).last() == (key@, value@));
        }
        if *key == "server.host".to_owned() {
            config.server.host = value.clone();
        } else if *key == "server.port".to_owned() {
            match parse_u16(value.as_str()) {
                Some(port) => {
                    config.server.port = port;
                },
                None => {},
            }
        } else if *key == "metrics.enabled".to_owned() {
            match parse_bool(value.as_str()) {
                Some(enabled) => {
                    config.metrics.enabled = enabled;
                },
                None => {},
            }
        } else if *key == "logging.level".to_owned() {
            config.logging.level = value.clone();
        } else if *key == "security.jwt_secret".to_owned() {
            config.security.jwt_secret = Some(value.clone());
        }
        i = i + 1;
    }
    proof {
        assert(pair_views(overrides@).take(overrides@.len() as int) =~= pair_views(overrides@));
    }
}

} // verus!

//! Verified core logic of the hive backend: caches, circuit breaking,
//! configuration checks, invalidation bookkeeping, task bookkeeping,
//! monitoring advice and scheduling decisions.
pub mod circuit_breaker;
pub mod size_tracker;
pub mod cache;
pub mod cache_key;
pub mod dependency_graph;
pub mod config;
pub mod text;
pub mod history;
pub mod metrics_types;
pub mod alerting;
pub mod memory_analysis;
pub mod platform;
pub mod cpu_optimizer;
pub mod async_optimizer;
pub mod connection_pool;
pub mod tasks;
pub mod task_analytics;
pub mod task_legacy;
pub mod invalidation;
pub mod key_set;
pub mod intelligent_cache;
pub mod warming;
pub mod cached_query;
pub mod cache_monitoring;
pub mod cache_optimization;
pub mod query_dedup;
pub mod benchmarks;
pub mod load_testing;
pub mod swarm;
pub mod cpu_load_balancer;

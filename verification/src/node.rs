//! The gateway node configuration: the listener, metrics, health,
//! tracing, control-plane and storage settings, with their documented
//! defaults.

use vstd::prelude::*;

verus! {

/// Which plane this node serves.
#[derive(Debug, Clone, Copy, PartialEq, Eq, Structural)]
pub enum BullGType {
    Dataplane,
    Tenantplane,
    Controlplane,
}

impl Default for BullGType {
    /// Nodes default to the tenant plane.
    fn default() -> (r: BullGType)
        ensures
            r == BullGType::Tenantplane,
    {
        BullGType::Tenantplane
    }
}

/// The default listener host.
pub fn def_host() -> (r: String)
    ensures
        r@ == "0.0.0.0"@,
{
    String::from_str("0.0.0.0")
}

/// The default listener port.
pub fn def_port() -> (r: u16)
    ensures
        r == 8000,
{
    8000
}

/// The default TLS listener port.
pub fn def_ssl_port() -> (r: u16)
    ensures
        r == 8443,
{
    8443
}

/// The default logging mode.
pub fn def_logging() -> (r: String)
    ensures
        r@ == "debug"@,
{
    String::from_str("debug")
}

/// The default for every disabled-by-default flag.
pub fn def_bool() -> (r: bool)
    ensures
        r == false,
{
    false
}

/// The default health endpoint path.
pub fn def_health_path() -> (r: String)
    ensures
        r@ == "/healthz"@,
{
    String::from_str("/healthz")
}

/// The default metrics endpoint path.
pub fn def_metrics_path() -> (r: String)
    ensures
        r@ == "/metrics"@,
{
    String::from_str("/metrics")
}

/// The default metrics port.
pub fn def_metrics_port() -> (r: u16)
    ensures
        r == 9090,
{
    9090
}

/// The default metrics wire format.
pub fn def_metrics_format() -> (r: String)
    ensures
        r@ == "prometheus"@,
{
    String::from_str("prometheus")
}

/// The default health port.
pub fn def_health_port() -> (r: u16)
    ensures
        r == 8080,
{
    8080
}

/// The default control-plane host.
pub fn def_controlplane_host() -> (r: String)
    ensures
        r@ == "localhost"@,
{
    String::from_str("localhost")
}

/// The default control-plane protocols.
pub fn def_controlplane_protocols() -> (r: Vec<String>)
    ensures
        r@.len() == 2,
        r@[0]@ == "http"@,
        r@[1]@ == "ws"@,
{
    let mut v: Vec<String> = Vec::new();
    v.push(String::from_str("http"));
    v.push(String::from_str("ws"));
    v
}

/// The default control-plane polling cadence, in seconds.
pub fn def_controlplane_poll() -> (r: u64)
    ensures
        r == 5,
{
    5
}

/// The default storage engine.
pub fn def_engine() -> (r: String)
    ensures
        r@ == "lmdb"@,
{
    String::from_str("lmdb")
}

/// The default storage path.
pub fn def_memory_path() -> (r: String)
    ensures
        r@ == "Memory"@,
{
    String::from_str("Memory")
}

/// The reverse-proxy block.
#[derive(Debug)]
pub struct Proxy {
    pub enabled: bool,
    pub domains: Vec<String>,
}

/// The access-log block.
#[derive(Debug)]
pub struct AccessLog {
    pub enabled: bool,
    pub sname: bool,
    pub path: String,
    pub format: String,
    pub max_size: u64,
    pub max_backups: u32,
    pub max_age: u32,
    pub compress: bool,
}

/// The metrics block.
#[derive(Debug)]
pub struct MetricsCfg {
    pub enabled: bool,
    pub path: String,
    pub port: u16,
    pub format: String,
}

impl Default for MetricsCfg {
    /// Metrics default to disabled Prometheus output on port 9090.
    fn default() -> (r: MetricsCfg)
        ensures
            r.enabled == false,
            r.path@ == "/metrics"@,
            r.port == 9090,
            r.format@ == "prometheus"@,
    {
        MetricsCfg {
            enabled: def_bool(),
            path: def_metrics_path(),
            port: def_metrics_port(),
            format: def_metrics_format(),
        }
    }
}

/// The health-check block.
#[derive(Debug)]
pub struct HealthCfg {
    pub enabled: bool,
    pub path: String,
    pub port: u16,
}

impl Default for HealthCfg {
    /// Health checks default to disabled on `/healthz`, port 8080.
    fn default() -> (r: HealthCfg)
        ensures
            r.enabled == false,
            r.path@ == "/healthz"@,
            r.port == 8080,
    {
        HealthCfg { enabled: def_bool(), path: def_health_path(), port: def_health_port() }
    }
}

/// The tracing block.
#[derive(Debug)]
pub struct TraceCfg {
    pub enabled: bool,
    pub otlp_endpoint: String,
    pub service_name: String,
}

/// The control-plane block.
#[derive(Debug)]
pub struct ControlPlaneCfg {
    pub enabled: bool,
    pub protocols: Vec<String>,
    pub host: String,
    pub id: String,
    pub mtls_cert: String,
    pub mtls_key: String,
    pub poll_interval_sec: u64,
}

/// The built-ins block.
#[derive(Debug)]
pub struct BuiltinCfg {
    pub enabled: bool,
}

/// The database block.
#[derive(Debug)]
pub struct DbCfg {
    pub enabled: bool,
    pub kind: String,
}

/// The storage block.
#[derive(Debug)]
pub struct MemoryCfg {
    pub engine: String,
    pub path: String,
}

impl Default for MemoryCfg {
    /// Storage defaults to the persistent engine under `Memory`.
    fn default() -> (r: MemoryCfg)
        ensures
            r.engine@ == "lmdb"@,
            r.path@ == "Memory"@,
    {
        MemoryCfg { engine: def_engine(), path: def_memory_path() }
    }
}

/// One gateway node's configuration.
#[derive(Debug)]
pub struct GatewayNode {
    pub name: String,
    pub id: String,
    pub kind: BullGType,
    pub version: String,
    pub tags: Vec<String>,
    pub description: String,
    pub proxy: Proxy,
    pub host: String,
    pub port: u16,
    pub ssl: bool,
    pub http3: bool,
    pub ssl_port: u16,
    pub cert: String,
    pub key: String,
    pub ca: String,
    pub logging_mode: String,
    pub access_log: AccessLog,
    pub metrics: MetricsCfg,
    pub health_check: HealthCfg,
    pub tracing: TraceCfg,
    pub control_plane: ControlPlaneCfg,
    pub builtin: BuiltinCfg,
    pub database: DbCfg,
    pub memory: MemoryCfg,
}

/// The wrapper the configuration file starts with.
#[derive(Debug)]
pub struct GatewayConfig {
    pub gateway: GatewayNode,
}

} // verus!

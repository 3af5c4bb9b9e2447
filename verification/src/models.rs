//! The configuration data model: services with versions, upstreams, context
//! paths, routes, and applied plugins and policies, as assembled from a
//! configuration snapshot.  Records that several projections share are held
//! behind `Arc`, as the router hands shared-immutable references out.

use std::sync::Arc;
use vstd::prelude::*;

use crate::value::KvValue;

verus! {

/// A new handle to the very same shared value.
pub fn share<T>(a: &Arc<T>) -> (r: Arc<T>)
    ensures
        r == *a,
{
    arc_clone(a)
}

/// Relies on `std::sync::Arc::clone`: the clone is a new handle to the very
/// same shared value.
#[verifier::external_body]
fn arc_clone<T>(a: &Arc<T>) -> (r: Arc<T>)
    ensures
        r == *a,
{
    Arc::clone(a)
}

/// A wire protocol a service or upstream speaks.
#[derive(Debug, Clone, Copy, PartialEq, Eq, Structural)]
pub enum Protocols {
    HTTP,
    HTTPS,
    TCP,
    UDP,
    GRPC,
    GRPCS,
    WS,
    WSS,
}

/// One declared version of a service.
#[derive(Debug)]
pub struct ServiceVersion {
    pub id: String,
    pub name: String,
    pub enabled: bool,
    pub description: String,
    pub deprecated: bool,
}

impl ServiceVersion {
    /// Whether this version is enabled.
    pub fn is_enabled(&self) -> (r: bool)
        ensures
            r == self.enabled,
    {
        self.enabled
    }

    /// Whether this version is deprecated.
    pub fn is_deprecated(&self) -> (r: bool)
        ensures
            r == self.deprecated,
    {
        self.deprecated
    }
}

/// One upstream endpoint of a service.
#[derive(Debug)]
pub struct Upstream {
    pub id: String,
    pub name: String,
    pub description: String,
    pub tags: Vec<String>,
    pub protocols: Vec<Protocols>,
    pub host: String,
    pub port: u16,
    pub enabled: bool,
    pub versions: Vec<String>,
}

/// `v` occurs in the version list `versions`.
pub open spec fn version_in(versions: Seq<String>, v: Seq<char>) -> bool {
    exists|i: int| 0 <= i < versions.len() && (#[trigger] versions[i])@ == v
}

/// An empty version list matches every version; otherwise the version must be
/// listed.
pub open spec fn versions_match(versions: Seq<String>, v: Seq<char>) -> bool {
    versions.len() == 0 || version_in(versions, v)
}

/// An absent or empty version list matches every version.
pub open spec fn opt_versions_match(versions: Option<Vec<String>>, v: Seq<char>) -> bool {
    match versions {
        None => true,
        Some(vs) => versions_match(vs@, v),
    }
}

/// Whether `v` occurs in `versions`.
pub fn contains_version(versions: &Vec<String>, v: &str) -> (r: bool)
    ensures
        r == version_in(versions@, v@),
{
    let mut i: usize = 0;
    while i < versions.len()
        invariant
            0 <= i <= versions@.len(),
            forall|j: int| 0 <= j < i ==> (#[trigger] versions@[j])@ != v@,
        decreases versions@.len() - i,
    {
        if crate::kv::str_eq(versions[i].as_str(), v) {
            return true;
        }
        i = i + 1;
    }
    false
}

/// Whether the list is empty or holds `v`.
pub fn matches_version(versions: &Vec<String>, v: &str) -> (r: bool)
    ensures
        r == versions_match(versions@, v@),
{
    versions.len() == 0 || contains_version(versions, v)
}

impl Upstream {
    /// An empty version list supports every version.
    pub fn is_version_supported(&self, version: &str) -> (r: bool)
        ensures
            r == versions_match(self.versions@, version@),
    {
        matches_version(&self.versions, version)
    }

    /// Whether this upstream is enabled.
    pub fn is_enabled(&self) -> (r: bool)
        ensures
            r == self.enabled,
    {
        self.enabled
    }
}

/// One base path under which a service is addressed, with the versions it
/// covers (empty meaning all).
#[derive(Debug)]
pub struct ContextPath {
    pub path: String,
    pub versions: Vec<String>,
}

/// The context-paths block of a service.
#[derive(Debug)]
pub struct ServiceContextPaths {
    pub enable: bool,
    pub paths: Vec<Arc<ContextPath>>,
}

impl ServiceContextPaths {
    /// The block addresses the service only when enabled and non-empty.
    pub fn is_enabled(&self) -> (r: bool)
        ensures
            r == (self.enable && self.paths@.len() > 0),
    {
        self.enable && self.paths.len() > 0
    }
}

/// A reference to a plugin by name with inline configuration.
#[derive(Debug)]
pub struct AppliedPlugin {
    pub id: String,
    pub name: String,
    pub description: Option<String>,
    pub kind: String,
    pub tags: Vec<String>,
    pub phase: Option<String>,
    pub enabled: bool,
    pub version: Option<String>,
    pub versions: Option<Vec<String>>,
    pub config: Option<KvValue>,
    pub order: Option<u32>,
    pub priority: Option<u32>,
}

/// A reference to a policy by name with inline configuration.
#[derive(Debug)]
pub struct AppliedPolicy {
    pub id: String,
    pub name: String,
    pub description: Option<String>,
    pub kind: String,
    pub tags: Vec<String>,
    pub enabled: bool,
    pub version: Option<Vec<String>>,
    pub config: Option<KvValue>,
}

/// A consumer granted access to a service.
#[derive(Debug)]
pub struct ServiceConsumer {
    pub id: String,
    pub enabled: bool,
    pub versions: Vec<String>,
}

/// The configuration of one route.
#[derive(Debug)]
pub struct RouteConfig {
    pub protocols: Vec<Protocols>,
    pub path: String,
    pub backend: String,
    pub methods: Vec<String>,
}

/// One route of a service.
#[derive(Debug)]
pub struct Route {
    pub id: String,
    pub name: String,
    pub description: String,
    pub tags: Vec<String>,
    pub enabled: bool,
    pub versions: Vec<String>,
    pub config: RouteConfig,
    pub plugins: Vec<Arc<AppliedPlugin>>,
}

/// The optional spec block of a service.
#[derive(Debug)]
pub struct ServiceSpec {
    pub enabled: bool,
    pub route: String,
    pub versions: Vec<String>,
}

impl ServiceSpec {
    /// An empty version list supports every version.
    pub fn is_version_supported(&self, version: &str) -> (r: bool)
        ensures
            r == versions_match(self.versions@, version@),
    {
        matches_version(&self.versions, version)
    }

    /// Whether the spec block is enabled.
    pub fn is_enabled(&self) -> (r: bool)
        ensures
            r == self.enabled,
    {
        self.enabled
    }
}

/// A named, tagged upstream unit with its upstream base URL, versions,
/// upstream endpoints, context paths, applied plugins and policies,
/// consumers, and routes, together with its compiled route table.
#[derive(Debug)]
pub struct Service {
    pub id: String,
    pub name: String,
    pub url: String,
    pub description: String,
    pub tags: Vec<String>,
    pub protocols: Vec<Protocols>,
    pub spec: Option<Arc<ServiceSpec>>,
    pub versions: Vec<Arc<ServiceVersion>>,
    pub upstreams: Vec<Arc<Upstream>>,
    pub context_paths: ServiceContextPaths,
    pub plugins: Vec<Arc<AppliedPlugin>>,
    pub policies: Vec<Arc<AppliedPolicy>>,
    pub consumers: Vec<Arc<ServiceConsumer>>,
    pub routes: Vec<Arc<Route>>,
    pub router: crate::router::RouteTable,
}

impl Service {
    /// The ids of the declared versions, in order.
    pub fn get_version_ids(&self) -> (r: Vec<String>)
        ensures
            r@.len() == self.versions@.len(),
            forall|i: int|
                0 <= i < r@.len() ==> (#[trigger] r@[i])@ == (self.versions@[i]).id@,
    {
        let mut out: Vec<String> = Vec::new();
        let mut i: usize = 0;
        while i < self.versions.len()
            invariant
                0 <= i <= self.versions@.len(),
                out@.len() == i,
                forall|j: int| 0 <= j < i ==> (#[trigger] out@[j])@ == (self.versions@[j]).id@,
            decreases self.versions@.len() - i,
        {
            out.push(crate::value::clone_string(&self.versions[i].id));
            i = i + 1;
        }
        out
    }
}

/// One key-to-service binding that the router consumes.
#[derive(Debug)]
pub struct ServiceMapper {
    pub key: String,
    pub value: Service,
}

/// The plugins and policies applied globally.
#[derive(Debug)]
pub struct GlobalApplied {
    pub plugins: Vec<Arc<AppliedPlugin>>,
    pub policies: Vec<Arc<AppliedPolicy>>,
}

/// The services template of a snapshot.
#[derive(Debug)]
pub struct ServicesTemplate {
    pub gateway: String,
    pub version: String,
    pub release_channel: String,
    pub bullg_versions: Vec<String>,
    pub developer: String,
    pub global: GlobalApplied,
    pub services: Vec<Service>,
}

/// The handler declaration of a catalog plugin: which guest language runs
/// which source.
#[derive(Debug)]
pub struct HandlerDecl {
    pub id: String,
    pub name: String,
    pub language: String,
    pub code: String,
}

} // verus!

//! The settings that a configuration carries beside the command-line schema:
//! build, bundle, embedded server and security. They are plain values that
//! the rest of the library passes through unread.

use vstd::prelude::*;

verus! {

/// `std::path::PathBuf`, an owned path of the file system. Nothing is claimed
/// of it: a value of it is carried through unread.
#[verifier::external_type_specification]
#[verifier::external_body]
pub struct ExPathBuf(std::path::PathBuf);

/// The targets to bundle for: a list of them, or a single one.
#[derive(Debug, PartialEq, Clone)]
pub enum BundleTarget {
    /// A list of targets.
    All(Vec<String>),
    /// A single target.
    One(String),
}

/// Settings of the Debian package.
#[derive(Debug, PartialEq, Clone)]
pub struct DebConfig {
    /// The packages that the bundle depends on.
    pub depends: Option<Vec<String>>,
    /// Whether a bootstrapper script starts the application.
    pub use_bootstrapper: bool,
}

impl Default for DebConfig {
    fn default() -> (config: DebConfig)
        ensures
            config.depends is None,
            !config.use_bootstrapper,
    {
        DebConfig { depends: None, use_bootstrapper: false }
    }
}

/// Settings of the macOS bundle.
#[derive(Debug, PartialEq, Clone)]
pub struct OsxConfig {
    /// The frameworks to bundle.
    pub frameworks: Option<Vec<String>>,
    /// The lowest system version that the application runs on.
    pub minimum_system_version: Option<String>,
    /// A domain exempt from transport security.
    pub exception_domain: Option<String>,
    /// The path of the license file.
    pub license: Option<String>,
    /// Whether a bootstrapper script starts the application.
    pub use_bootstrapper: bool,
}

impl Default for OsxConfig {
    fn default() -> (config: OsxConfig)
        ensures
            config.frameworks is None,
            config.minimum_system_version is None,
            config.exception_domain is None,
            config.license is None,
            !config.use_bootstrapper,
    {
        OsxConfig {
            frameworks: None,
            minimum_system_version: None,
            exception_domain: None,
            license: None,
            use_bootstrapper: false,
        }
    }
}

/// Settings of the bundler.
#[derive(Debug, PartialEq, Clone)]
pub struct BundleConfig {
    /// Whether the application is built with the bundler.
    pub active: bool,
    /// The bundle targets.
    pub targets: Option<BundleTarget>,
    /// The name of the application.
    pub name: Option<String>,
    /// The identifier of the application.
    pub identifier: Option<String>,
    /// The icons of the application.
    pub icon: Option<Vec<String>>,
    /// The version of the application.
    pub version: Option<String>,
    /// The resources to bundle: paths of files or directories, or glob
    /// patterns.
    pub resources: Option<Vec<String>>,
    /// The copyright notice.
    pub copyright: Option<String>,
    /// The category of the application.
    pub category: Option<String>,
    /// A one-line description.
    pub short_description: Option<String>,
    /// A longer description.
    pub long_description: Option<String>,
    /// A script to run while bundling.
    pub script: Option<std::path::PathBuf>,
    /// Settings of the Debian package.
    pub deb: DebConfig,
    /// Settings of the macOS bundle.
    pub osx: OsxConfig,
    /// Binaries to bundle beside the application.
    pub external_bin: Option<Vec<String>>,
}

impl Default for BundleConfig {
    fn default() -> (config: BundleConfig)
        ensures
            !config.active,
            config.targets is None,
            config.name is None,
            config.identifier is None,
            config.icon is None,
            config.version is None,
            config.resources is None,
            config.copyright is None,
            config.category is None,
            config.short_description is None,
            config.long_description is None,
            config.script is None,
            config.deb.depends is None,
            !config.deb.use_bootstrapper,
            config.osx.frameworks is None,
            config.osx.minimum_system_version is None,
            config.osx.exception_domain is None,
            config.osx.license is None,
            !config.osx.use_bootstrapper,
            config.external_bin is None,
    {
        BundleConfig {
            active: false,
            targets: None,
            name: None,
            identifier: None,
            icon: None,
            version: None,
            resources: None,
            copyright: None,
            category: None,
            short_description: None,
            long_description: None,
            script: None,
            deb: DebConfig::default(),
            osx: OsxConfig::default(),
            external_bin: None,
        }
    }
}

/// The port of the embedded server.
#[derive(Debug, PartialEq, Clone)]
pub enum Port {
    /// A port with a numeric value.
    Value(u16),
    /// A random port, chosen at run time.
    Random,
}

/// Settings of the embedded server.
#[derive(Debug, PartialEq, Clone)]
pub struct EmbeddedServerConfig {
    /// The host of the embedded server.
    pub host: Option<String>,
    /// The port of the embedded server.
    pub port: Option<Port>,
    /// The base path of the embedded server.
    pub public_path: Option<String>,
}

impl Default for EmbeddedServerConfig {
    fn default() -> (config: EmbeddedServerConfig)
        ensures
            config.host is None,
            config.port is None,
            config.public_path is None,
    {
        EmbeddedServerConfig { host: None, port: None, public_path: None }
    }
}

/// Settings of the security policy.
#[derive(Debug, PartialEq, Clone)]
pub struct SecurityConfig {
    csp: Option<String>,
}

impl SecurityConfig {
    /// The content security policy, as a mathematical value.
    pub closed spec fn policy(self) -> Option<Seq<char>> {
        self.csp.deep_view()
    }

    /// Security settings with the given content security policy.
    pub fn new(csp: Option<String>) -> (config: SecurityConfig)
        ensures
            config.policy() == csp.deep_view(),
    {
        SecurityConfig { csp }
    }

    /// The content security policy.
    pub fn csp(&self) -> (csp: &Option<String>)
        ensures
            csp.deep_view() == self.policy(),
    {
        &self.csp
    }
}

impl Default for SecurityConfig {
    fn default() -> (config: SecurityConfig)
        ensures
            config.policy() is None,
    {
        SecurityConfig { csp: None }
    }
}

/// Settings of the build.
#[derive(Debug, PartialEq, Clone)]
pub struct BuildConfig {
    /// The URL of the development server, or the path of the directory that
    /// holds the index file.
    pub dev_path: String,
    /// The path of the distribution directory.
    pub dist_dir: String,
    /// A shell command to run before a development session.
    pub before_dev_command: Option<String>,
    /// A shell command to run before a build.
    pub before_build_command: Option<String>,
    /// Whether the API is injected as a global of the window.
    pub with_global_tauri: bool,
}

/// The development path used when a configuration names none: the empty
/// string.
pub fn default_dev_path() -> (path: String)
    ensures
        path@ == Seq::<char>::empty(),
{
    proof {
        reveal_strlit("");
    }
    let path = "".to_string();
    assert(path@ =~= Seq::<char>::empty());
    path
}

/// The distribution directory used when a configuration names none:
/// `../dist`.
pub fn default_dist_dir() -> (dir: String)
    ensures
        dir@ == seq!['.', '.', '/', 'd', 'i', 's', 't'],
{
    proof {
        reveal_strlit("../dist");
    }
    let dir = "../dist".to_string();
    assert(dir@ =~= seq!['.', '.', '/', 'd', 'i', 's', 't']);
    dir
}

/// The build settings used when a configuration has none: the default paths,
/// no command, and no global injection.
pub fn default_build() -> (build: BuildConfig)
    ensures
        build.dev_path@ == Seq::<char>::empty(),
        build.dist_dir@ == seq!['.', '.', '/', 'd', 'i', 's', 't'],
        build.before_dev_command is None,
        build.before_build_command is None,
        !build.with_global_tauri,
{
    BuildConfig {
        dev_path: default_dev_path(),
        dist_dir: default_dist_dir(),
        before_dev_command: None,
        before_build_command: None,
        with_global_tauri: false,
    }
}

} // verus!

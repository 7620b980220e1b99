//! Configuration model of a desktop application packaging tool: the settings
//! that a configuration carries, the command-line schema that it declares,
//! the validation of that schema and its resolution against an invocation.
//!
//! The schema is a tree of commands, each with its argument rules. A tree is
//! validated once, when it is loaded; a validated tree is then resolved
//! against what each invocation supplied.

pub mod laws;
pub mod resolution;
pub mod scan;
pub mod schema;
pub mod settings;
pub mod validation;

pub use resolution::{resolve, ConstraintViolation, Invocation, ObservedArg};
pub use schema::{CliArg, CliConfig};
pub use settings::{
    default_build, default_dev_path, default_dist_dir, BuildConfig, BundleConfig, BundleTarget,
    DebConfig, EmbeddedServerConfig, OsxConfig, Port, SecurityConfig,
};
pub use validation::{validate, SchemaError};

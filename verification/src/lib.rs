//! Verified core of a cargo global-package upgrade helper.
//!
//! The library parses the package manager's inventory listing, scrapes
//! registry search responses for latest versions, builds the ordered set of
//! outdated packages, plans the per-package upgrade sequence (including
//! relocating the running executable before a self-upgrade), and classifies
//! upgrade subprocess exits. All process and terminal I/O lives outside the
//! library; it hands in captured text as bytes and carries out the plans the
//! library returns.

pub mod bytes;
pub mod cli;
pub mod inventory;
pub mod orchestrate;
pub mod package;
pub mod relocate;
pub mod resolver;

pub use bytes::bytes_eq;
pub use bytes::trim_ascii;
pub use inventory::parse_installed_packages;
pub use resolver::build_outdated;
pub use resolver::parse_search_response;
pub use resolver::resolve_package;
pub use resolver::ResolveError;
pub use relocate::choose_destination;
pub use relocate::relocation_candidate;
pub use orchestrate::classify_exit;
pub use orchestrate::plan_upgrades;
pub use orchestrate::PlanStep;
pub use orchestrate::UpgradeOutcome;
pub use cli::run_command;
pub use cli::strip_dashes;
pub use cli::CliCommand;
pub use package::Package;
pub use package::PackageV;

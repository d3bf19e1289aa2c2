//! Configuration checks for JavaScript and TypeScript projects: the parsing,
//! matching and decision logic behind each check, verified with Verus.

pub mod gitignore;
pub mod ignore_drift;
pub mod glob;
pub mod import_paths;
pub mod input_patterns;
pub mod json;
pub mod jsx_runtime;
pub mod lockfiles;
pub mod module_system;
pub mod alias_tables;
pub mod config_duplicates;
pub mod editorconfig_prettier;
pub mod entrypoint_paths;
pub mod entrypoint_walk;
pub mod env_contract;
pub mod env_directory;
pub mod env_findings;
pub mod eslint_prettier;
pub mod monorepo_tsconfig;
pub mod node_matrix;
pub mod npmignore_files;
pub mod package_entrypoints;
pub mod output_paths;
pub mod paths;
pub mod paths_findings;
pub mod pattern_config;
pub mod project_references;
pub mod registry;
pub mod structure;
pub mod test_runner;
pub mod text;
pub mod tsconfig_findings;
pub mod tsconfig_rules;
pub mod vite_config;
pub mod workspace_config;

//! Lint rules, configuration and suppression directives for GraphQL documents
//! and schemas.
pub mod text;
pub mod unicode;
pub mod pattern;
pub mod schema;
pub mod schema_assembly;
pub mod document;
pub mod diagnostics;

pub use diagnostics::{CodeFix, LintDiagnostic, LintSeverity as DiagnosticSeverity, OffsetRange, SourceSpan, TextEdit};
pub mod eslint_disable;
pub mod ignore;
pub mod rules;
pub mod registry;
pub mod config;

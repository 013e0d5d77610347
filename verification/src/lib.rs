//! A whole-program analysis core for a dynamically typed language:
//! a two-pass analysis scheduler over a registry of source files, a
//! position-addressable query mechanism over parsed units, a re-analysis
//! coordination state machine, a rate-limited progress reporter, and a
//! standalone parser for declared type annotations.

mod codetree;
mod coordinator;
mod diagnostics;
mod instance;
mod progress;
mod seq_views;
mod source_unit;
mod symbols;
mod type_defs;
mod type_lexer;
mod type_origins;
mod type_parser;
mod uri;
mod workspace;

pub use codetree::plan_worker_queues;
pub use codetree::CodeTree;
pub use codetree::ConfigError;
pub use coordinator::CoordV;
pub use coordinator::CoordinatorState;
pub use coordinator::ReanalysisCoordinator;
pub use coordinator::WhenAction;
pub use diagnostics::clone_diagnostics;
pub use diagnostics::issue_summary;
pub use diagnostics::Diagnostic;
pub use diagnostics::DiagnosticV;
pub use diagnostics::Severity;
pub use instance::PHPLanguageServerInstance;
pub use instance::PositionHit;
pub use instance::QueryError;
pub use progress::append_events;
pub use progress::CallbackProgress;
pub use progress::GenericProgress;
pub use progress::ProgressEvent;
pub use progress::ProgressV;
pub use seq_views::views;
pub use source_unit::CachedSourceUnit;
pub use source_unit::NodeKind;
pub use source_unit::ParsedUnit;
pub use source_unit::SymbolOccurrence;
pub use source_unit::SyntaxNode;
pub use source_unit::SyntaxTree;
pub use symbols::clone_locations;
pub use symbols::FileLocation;
pub use symbols::FileLocationV;
pub use symbols::Point;
pub use symbols::Position;
pub use symbols::SymbolEntry;
pub use symbols::SymbolTable;
pub use type_defs::clone_type_definition;
pub use type_defs::concrete_type_eq;
pub use type_defs::ptype_eq;
pub use type_defs::type_definition_eq;
pub use type_defs::ConcreteType;
pub use type_defs::ConcreteTypeV;
pub use type_defs::PType;
pub use type_defs::PTypeV;
pub use type_defs::ScalarType;
pub use type_defs::TypeDefV;
pub use type_defs::TypeDefinition;
pub use type_lexer::LexItemV;
pub use type_lexer::TypeLexItem;
pub use type_origins::TypeOrigin;
pub use type_origins::TypeOriginV;
pub use type_parser::TypeParser;
pub use uri::Uri;
pub use uri::UriV;
pub use workspace::PHPLintConfig;
pub use workspace::Workspace;

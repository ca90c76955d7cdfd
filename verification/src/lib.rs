pub mod error;
pub mod hash;
pub mod model;
pub mod text;
pub mod sort;
pub mod deps;
pub mod diff;
pub mod merge;
pub mod one_sided;
pub mod merge_laws;
pub mod parser;
pub mod registry;
pub mod report;
pub mod ts_source;
pub mod ts_render;
pub mod ts_entity;
pub mod ts_index;
pub mod ts_layout;

pub use crate::diff::diff_indices;
pub use crate::error::{ParseError, RegistryError, SemantitError};
pub use crate::merge::merge_indices;
pub use crate::model::{
    ConflictCause, ContextDiff, DiffSummary, EntityKind, EntitySnapshot, ExportBinding,
    FileSemanticIndex, LanguageId, MergeResult, MergeStatus, SemanticChange, SemanticChangeKind,
    SemanticConflict, SemanticEntity, SpanLocation, SpanRange,
};
pub use crate::parser::{LanguageParser, ParseInput};
pub use crate::registry::ParserRegistry;
pub use crate::ts_index::{SourceLowering, TypeScriptLanguage, TypeScriptParser};

//! Typed launcher metadata and the conversion of deobfuscation mappings
//! into descriptor-based mapping text.

pub mod descriptor;
pub mod manifest;
pub mod mappings;
pub mod rules;
pub mod text;

pub use descriptor::{encode_type, remap_file_path, remove_brackets, NameTable};
pub use manifest::{
    LatestReleases, Library, LibraryDownload, LibraryDownloads, LibraryExtractInstructions,
    ReleaseKind,
};
pub use mappings::{build_name_table, classify, convert_line, convert_mappings, MappingLine};
pub use rules::{OsName, OsRule, Rule, RuleAction};

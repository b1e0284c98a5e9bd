//! The error taxonomy of the library.
//!
//! Every failure a verified function can report is one of these variants,
//! each carrying enough context (a path, a name, a spec string) to be
//! actionable without a stack trace.

use vstd::prelude::*;

verus! {

/// One error of the library. Variants mirror the failure modes of the
/// workspace accessor, the config model, the provisioner and the dispatcher.
#[derive(Debug, Clone)]
pub enum CompeteError {
    /// No manifest file was found in the starting directory or any ancestor.
    ManifestNotFound { cwd: String },
    /// The metadata toolchain invocation failed (non-zero exit or bad output).
    ToolchainError { message: String },
    /// A package spec matched no workspace member.
    MemberNotFound { spec: String },
    /// A package spec matched more than one workspace member.
    AmbiguousSpec { spec: String },
    /// The workspace has no members at all.
    NoMembers,
    /// No spec was given, no current package is resolved, and the workspace
    /// has more than one member.
    AmbiguousRoot { count: usize },
    /// The platform requires a contest id and none was supplied.
    MissingContest { platform: String },
    /// The per-package configuration block is absent from the manifest.
    MissingMetadata { manifest_path: String },
    /// The per-package configuration block is present but malformed.
    MalformedMetadata { manifest_path: String },
    /// Existing manifest text could not be parsed as a document.
    ManifestParseError { path: String },
    /// A filesystem operation failed.
    IoError { path: String },
    /// No entry with the given key exists in the `bin` table.
    BinIndexNotFound { index: String },
    /// No entry with the given binary name exists in the `bin` table.
    BinNameNotFound { name: String },
    /// No binary target with the given name exists in the package.
    BinTargetNotFound { name: String, package: String },
    /// No binary target with the given source path exists in the package.
    BinTargetBySrcPathNotFound { src_path: String, package: String },
    /// A problem index had to be a problem number but is not numeric.
    InvalidProblemNo { index: String },
    /// The saved-path count differs from the problem count; signals a bug.
    InternalInvariantViolation { expected: usize, actual: usize },
}

impl CompeteError {
    /// A one-line human-readable description, for the command boundary.
    pub fn message(&self) -> String {
        match self {
            CompeteError::ManifestNotFound { cwd } => {
                let mut m = "could not find `Cargo.toml` in `".to_owned();
                m.append(cwd.as_str());
                m.append("` or any parent directory");
                m
            }
            CompeteError::ToolchainError { message } => {
                let mut m = "the metadata toolchain failed: ".to_owned();
                m.append(message.as_str());
                m
            }
            CompeteError::MemberNotFound { spec } => {
                let mut m = "package `".to_owned();
                m.append(spec.as_str());
                m.append("` is not a member of the workspace");
                m
            }
            CompeteError::AmbiguousSpec { spec } => {
                let mut m = "`".to_owned();
                m.append(spec.as_str());
                m.append("` matched multiple members");
                m
            }
            CompeteError::NoMembers => "this workspace has no members".to_owned(),
            CompeteError::AmbiguousRoot { count: _ } => {
                "this manifest is virtual, and the workspace has multiple members. specify one with `--manifest-path` or `--package`".to_owned()
            }
            CompeteError::MissingContest { platform } => {
                let mut m = "`contest` is required for ".to_owned();
                m.append(platform.as_str());
                m
            }
            CompeteError::MissingMetadata { manifest_path } => {
                let mut m = "missing `package.metadata.cargo-compete` in `".to_owned();
                m.append(manifest_path.as_str());
                m.append("`");
                m
            }
            CompeteError::MalformedMetadata { manifest_path } => {
                let mut m = "could not read `package.metadata.cargo-compete` in `".to_owned();
                m.append(manifest_path.as_str());
                m.append("`");
                m
            }
            CompeteError::ManifestParseError { path } => {
                let mut m = "could not parse the TOML file at `".to_owned();
                m.append(path.as_str());
                m.append("`");
                m
            }
            CompeteError::IoError { path } => {
                let mut m = "an I/O operation failed at `".to_owned();
                m.append(path.as_str());
                m.append("`");
                m
            }
            CompeteError::BinIndexNotFound { index } => {
                let mut m = "could not find `".to_owned();
                m.append(index.as_str());
                m.append("` in `package.metadata.cargo-compete.bin`");
                m
            }
            CompeteError::BinNameNotFound { name } => {
                let mut m = "could not find metadata in `package.metadata.cargo-compete.bin` which points `".to_owned();
                m.append(name.as_str());
                m.append("`");
                m
            }
            CompeteError::BinTargetNotFound { name, package } => {
                let mut m = "no bin target named `".to_owned();
                m.append(name.as_str());
                m.append("` in `");
                m.append(package.as_str());
                m.append("`");
                m
            }
            CompeteError::BinTargetBySrcPathNotFound { src_path, package } => {
                let mut m = "no bin target which `src_path` is `".to_owned();
                m.append(src_path.as_str());
                m.append("` in `");
                m.append(package.as_str());
                m.append("`");
                m
            }
            CompeteError::InvalidProblemNo { index } => {
                let mut m = "problem index `".to_owned();
                m.append(index.as_str());
                m.append("` is not a problem number");
                m
            }
            CompeteError::InternalInvariantViolation { expected: _, actual: _ } => {
                "the number of saved files differs from the number of problems".to_owned()
            }
        }
    }
}

} // verus!

use vstd::prelude::*;

verus! {

/// Every way a synthesis request can fail. All are terminal for the request:
/// nothing is retried and no partial result is produced. Variants that report
/// an external process's failure carry its captured diagnostic text; the
/// variants produced by the engine's own logic carry what it could not find.
#[derive(Debug, Clone)]
pub enum SynthesisError {
    /// The project manifest could not be found or resolved.
    ManifestResolutionFailure(String),
    /// The unit graph could not be obtained from the build orchestrator.
    GraphAcquisitionFailure(String),
    /// No compilation unit's source tree contains the requested path.
    UnitNotFound,
    /// Several units' source trees contain the path and none of them is a
    /// library target.
    AmbiguousUnit,
    /// Building one of the target unit's dependencies failed; the payload is
    /// the captured diagnostic output.
    DependencyBuildFailure(String),
    /// No compiled metadata artifact was found for the dependency with this
    /// normalized package name.
    MissingArtifact(String),
    /// Querying the compiler (for its installation root) failed.
    CompilerQueryFailure(String),
}

} // verus!

use crate::artifact::ArtifactIndex;
use crate::assemble::assemble;
use crate::assemble::dep_name;
use crate::assemble::env_pairs;
use crate::assemble::first_missing_dep;
use crate::assemble::spec_flags;
use crate::assemble::BuildScriptOutput;
use crate::assemble::SynthesizedInvocation;
use crate::errors::SynthesisError;
use crate::graph::UnitGraph;
use crate::locate::locate;
use crate::locate::spec_locate;
use vstd::prelude::*;

verus! {

/// Synthesizes the compiler invocation for the source file at `source_path`:
/// locates the compilation unit owning the path, then assembles the ordered
/// flag sequence and environment pairs for it.
///
/// Locating fails as `locate` says (`UnitNotFound`, `AmbiguousUnit`), and
/// that failure is the result; otherwise the result is what `assemble` says
/// for the located unit, succeeding exactly when every dependency's compiled
/// artifact is present in the index.
pub fn generate_rustc_flags(
    g: &UnitGraph,
    source_path: &Vec<String>,
    sysroot: String,
    deps_dir: String,
    artifacts: &ArtifactIndex,
    build_script: &Option<BuildScriptOutput>,
    manifest_dir: &Option<String>,
) -> (r: Result<SynthesizedInvocation, SynthesisError>)
    requires
        g.wf(),
    ensures
        spec_locate(*g, source_path.deep_view()) matches Err(e) ==> r == Err::<
            SynthesizedInvocation,
            SynthesisError,
        >(e),
        spec_locate(*g, source_path.deep_view()) matches Ok(i) ==> {
            &&& (first_missing_dep(*g, g.units@[i], artifacts@, 0) is None ==> (r matches Ok(inv)
                && inv.flags.deep_view() == spec_flags(
                *g,
                g.units@[i],
                sysroot@,
                deps_dir@,
                artifacts@,
            ) && inv.env.deep_view() == env_pairs(
                g.units@[i],
                manifest_dir.deep_view(),
                *build_script,
            )))
            &&& (first_missing_dep(*g, g.units@[i], artifacts@, 0) matches Some(j) ==> (r matches
            Err(e) && e matches SynthesisError::MissingArtifact(nm) && nm@ == dep_name(
                *g,
                g.units@[i],
                j,
            )))
        },
{
    let target = match locate(g, source_path) {
        Ok(i) => i,
        Err(e) => {
            return Err(e);
        },
    };
    assemble(g, target, sysroot, deps_dir, artifacts, build_script, manifest_dir)
}

/// Idempotence of synthesis: under an unchanged project state — the same
/// graph, path, installation root, search path, artifact index, build-script
/// result and manifest directory — any two results meeting the synthesis
/// contract agree: they succeed together with the same flag sequence and the
/// same environment pairs, or fail together with the same error.
pub proof fn lemma_synthesis_idempotent(
    g: UnitGraph,
    path: Seq<Seq<char>>,
    sysroot: Seq<char>,
    deps_dir: Seq<char>,
    m: Map<Seq<char>, Seq<char>>,
    bs: Option<BuildScriptOutput>,
    manifest_dir: Option<Seq<char>>,
    flags1: Seq<Seq<char>>,
    env1: Seq<(Seq<char>, Seq<char>)>,
    flags2: Seq<Seq<char>>,
    env2: Seq<(Seq<char>, Seq<char>)>,
)
    requires
        spec_locate(g, path) matches Ok(i) && first_missing_dep(g, g.units@[i], m, 0) is None,
        ({
            let i = spec_locate(g, path)->Ok_0;
            flags1 == spec_flags(g, g.units@[i], sysroot, deps_dir, m) && env1 == env_pairs(
                g.units@[i],
                manifest_dir,
                bs,
            )
        }),
        ({
            let i = spec_locate(g, path)->Ok_0;
            flags2 == spec_flags(g, g.units@[i], sysroot, deps_dir, m) && env2 == env_pairs(
                g.units@[i],
                manifest_dir,
                bs,
            )
        }),
    ensures
        flags1 == flags2,
        env1 == env2,
{
}

} // verus!

use crate::artifact::pairs_map;
use crate::artifact::ArtifactIndex;
use crate::errors::SynthesisError;
use crate::graph::edition_token;
use crate::graph::edition_str;
use crate::graph::kind_token;
use crate::graph::kind_str;
use crate::graph::version_rep;
use crate::graph::CompilationUnit;
use crate::graph::UnitGraph;
use crate::names::dec_rep;
use crate::names::normalized;
use crate::names::normalize_name;
use crate::names::u64_to_dec;
use crate::paths::joined;
use crate::paths::join_components;
use vstd::prelude::*;

verus! {

/// What a unit's build-time code-generation step produced: the output
/// directory assigned to it, and the environment pairs it emitted, in order.
#[derive(Debug, Clone)]
pub struct BuildScriptOutput {
    pub out_dir: String,
    pub env: Vec<(String, String)>,
}

/// The engine's sole output: the ordered compiler invocation arguments, and
/// the environment pairs to run the compiler under. The pairs denote a
/// mapping in which a later pair wins, so the build-script pairs appended at
/// the end take precedence over the base set.
#[derive(Debug, Clone)]
pub struct SynthesizedInvocation {
    pub flags: Vec<String>,
    pub env: Vec<(String, String)>,
}

impl SynthesizedInvocation {
    /// The environment mapping the pairs denote.
    pub open spec fn env_map(self) -> Map<Seq<char>, Seq<char>> {
        pairs_map(self.env.deep_view())
    }
}

/// The conditional-compilation flag pair for one enabled feature.
pub open spec fn feature_pair(f: Seq<char>) -> Seq<Seq<char>> {
    seq!["--cfg"@, "feature=\""@ + f + "\""@]
}

/// The flag pairs for a unit's enabled features, one pair per feature, in
/// the declared order.
pub open spec fn feature_flags(features: Seq<Seq<char>>) -> Seq<Seq<char>>
    decreases features.len(),
{
    if features.len() == 0 {
        Seq::empty()
    } else {
        feature_flags(features.drop_last()) + feature_pair(features.last())
    }
}

/// The external-reference flag pair for one dependency: its normalized
/// package name bound to its compiled artifact's path.
pub open spec fn extern_pair(name: Seq<char>, path: Seq<char>) -> Seq<Seq<char>> {
    seq!["--extern"@, name + "="@ + path]
}

/// The normalized package name of the target unit's dependency at position
/// `j` of its dependency list.
pub open spec fn dep_name(g: UnitGraph, u: CompilationUnit, j: int) -> Seq<char> {
    normalized(g.units@[u.deps@[j] as int].pkg_name@)
}

/// The external-reference flag pairs for the first `upto` dependencies of the
/// unit, each resolved through the artifact mapping `m`.
pub open spec fn extern_flags(
    g: UnitGraph,
    u: CompilationUnit,
    m: Map<Seq<char>, Seq<char>>,
    upto: int,
) -> Seq<Seq<char>>
    decreases upto,
{
    if upto <= 0 {
        Seq::empty()
    } else {
        extern_flags(g, u, m, upto - 1) + extern_pair(
            dep_name(g, u, upto - 1),
            m[dep_name(g, u, upto - 1)],
        )
    }
}

/// The position of the first dependency at `from` or above whose normalized
/// package name has no artifact in `m`, if any.
pub open spec fn first_missing_dep(
    g: UnitGraph,
    u: CompilationUnit,
    m: Map<Seq<char>, Seq<char>>,
    from: int,
) -> Option<int>
    decreases u.deps@.len() - from,
{
    if from < 0 || from >= u.deps@.len() {
        None
    } else if !m.contains_key(dep_name(g, u, from)) {
        Some(from)
    } else {
        first_missing_dep(g, u, m, from + 1)
    }
}

/// The fixed head of the invocation: program name, unit-name flag,
/// output-kind flag (always the first declared kind), compiler installation
/// root flag, the unit's source-root path (never the requested file), the
/// edition flag, the dependency search-path flag, and the flag that asks for
/// metadata and dependency info only, avoiding full code generation.
pub open spec fn base_flags(u: CompilationUnit, sysroot: Seq<char>, deps_dir: Seq<char>) -> Seq<
    Seq<char>,
> {
    seq![
        "rustc"@,
        "--crate-name"@,
        u.crate_name@,
        "--crate-type"@,
        kind_token(u.kinds@[0]),
        "--sysroot"@,
        sysroot,
        joined(u.src_root.deep_view()),
        "--edition="@ + edition_token(u.edition),
        "-L"@,
        deps_dir,
        "--emit=dep-info,metadata"@,
    ]
}

/// The whole flag sequence for a unit: the fixed head, then one
/// conditional-compilation pair per enabled feature, then one
/// external-reference pair per dependency.
pub open spec fn spec_flags(
    g: UnitGraph,
    u: CompilationUnit,
    sysroot: Seq<char>,
    deps_dir: Seq<char>,
    m: Map<Seq<char>, Seq<char>>,
) -> Seq<Seq<char>> {
    base_flags(u, sysroot, deps_dir) + feature_flags(u.features.deep_view()) + extern_flags(
        g,
        u,
        m,
        u.deps@.len() as int,
    )
}

/// The base environment pairs: the package's version and its components, the
/// package name, and, when it was resolvable, the manifest's directory.
pub open spec fn base_env(u: CompilationUnit, manifest_dir: Option<Seq<char>>) -> Seq<
    (Seq<char>, Seq<char>),
> {
    seq![
        ("CARGO_PKG_VERSION"@, version_rep(u.version)),
        ("CARGO_PKG_NAME"@, u.pkg_name@),
        ("CARGO_PKG_VERSION_MAJOR"@, dec_rep(u.version.major as nat)),
        ("CARGO_PKG_VERSION_MINOR"@, dec_rep(u.version.minor as nat)),
        ("CARGO_PKG_VERSION_PATCH"@, dec_rep(u.version.patch as nat)),
    ] + match manifest_dir {
        Some(d) => seq![("CARGO_MANIFEST_DIR"@, d)],
        None => Seq::empty(),
    }
}

/// The pairs a build-script result contributes: its output directory, then
/// every pair it emitted, in order.
pub open spec fn script_env(b: BuildScriptOutput) -> Seq<(Seq<char>, Seq<char>)> {
    seq![("OUT_DIR"@, b.out_dir@)] + b.env.deep_view()
}

/// The whole environment pair list: the base set first, then the
/// build-script pairs when a build-script result is present, so that the
/// build-script pairs take precedence in the mapping the list denotes.
pub open spec fn env_pairs(
    u: CompilationUnit,
    manifest_dir: Option<Seq<char>>,
    bs: Option<BuildScriptOutput>,
) -> Seq<(Seq<char>, Seq<char>)> {
    base_env(u, manifest_dir) + match bs {
        Some(b) => script_env(b),
        None => Seq::empty(),
    }
}

/// Assembles the invocation for the unit at `target`: the ordered flag
/// sequence and the environment pairs. Fails with `MissingArtifact` exactly
/// when some dependency's normalized package name has no artifact in the
/// index, naming the first such dependency.
pub fn assemble(
    g: &UnitGraph,
    target: usize,
    sysroot: String,
    deps_dir: String,
    artifacts: &ArtifactIndex,
    build_script: &Option<BuildScriptOutput>,
    manifest_dir: &Option<String>,
) -> (r: Result<SynthesizedInvocation, SynthesisError>)
    requires
        g.wf(),
        target < g.units@.len(),
    ensures
        first_missing_dep(*g, g.units@[target as int], artifacts@, 0) is None ==> (r matches Ok(
            inv,
        ) && inv.flags.deep_view() == spec_flags(
            *g,
            g.units@[target as int],
            sysroot@,
            deps_dir@,
            artifacts@,
        ) && inv.env.deep_view() == env_pairs(
            g.units@[target as int],
            manifest_dir.deep_view(),
            *build_script,
        )),
        first_missing_dep(*g, g.units@[target as int], artifacts@, 0) matches Some(j) ==> (
        r matches Err(e) && e matches SynthesisError::MissingArtifact(nm) && nm@ == dep_name(
            *g,
            g.units@[target as int],
            j,
        )),
{
    let ghost gu = g.units@[target as int];
    let ghost m = artifacts@;
    proof {
        assert(gu.wf());
    }
    let u = &g.units[target];

    let mut flags: Vec<String> = Vec::new();
    flags.push("rustc".to_owned());
    flags.push("--crate-name".to_owned());
    flags.push(u.crate_name.clone());
    flags.push("--crate-type".to_owned());
    flags.push(kind_str(u.kinds[0]).to_owned());
    flags.push("--sysroot".to_owned());
    let ghost sysroot_view = sysroot@;
    flags.push(sysroot);
    let src_path = join_components(&u.src_root);
    flags.push(src_path);
    let mut edition_flag = "--edition=".to_owned();
    edition_flag.append(edition_str(u.edition));
    flags.push(edition_flag);
    flags.push("-L".to_owned());
    let ghost deps_dir_view = deps_dir@;
    flags.push(deps_dir);
    flags.push("--emit=dep-info,metadata".to_owned());
    proof {
        assert(flags.deep_view() =~= base_flags(gu, sysroot_view, deps_dir_view));
    }

    let ghost base = base_flags(gu, sysroot_view, deps_dir_view);
    let mut j: usize = 0;
    while j < u.features.len()
        invariant
            g.wf(),
            target < g.units@.len(),
            u == &g.units@[target as int],
            gu == g.units@[target as int],
            0 <= j <= u.features@.len(),
            flags.deep_view() =~= base + feature_flags(
                u.features.deep_view().subrange(0, j as int),
            ),
        decreases u.features@.len() - j,
    {
        let ghost before = flags.deep_view();
        flags.push("--cfg".to_owned());
        let mut value = "feature=\"".to_owned();
        value.append(u.features[j].as_str());
        value.append("\"");
        let ghost value_view = value@;
        flags.push(value);
        proof {
            let fv = u.features.deep_view();
            assert(fv.subrange(0, (j + 1) as int).drop_last() =~= fv.subrange(0, j as int));
            assert(fv.subrange(0, (j + 1) as int).last() == fv[j as int]);
            assert(value_view == "feature=\""@ + fv[j as int] + "\""@);
            assert(flags.deep_view() =~= before + feature_pair(fv[j as int]));
            assert(flags.deep_view() =~= base + feature_flags(fv.subrange(0, (j + 1) as int)));
        }
        j += 1;
    }
    proof {
        assert(u.features.deep_view().subrange(0, u.features@.len() as int)
            =~= u.features.deep_view());
    }

    let ghost with_features = base + feature_flags(gu.features.deep_view());
    let mut d: usize = 0;
    while d < u.deps.len()
        invariant
            g.wf(),
            target < g.units@.len(),
            u == &g.units@[target as int],
            gu == g.units@[target as int],
            m == artifacts@,
            0 <= d <= u.deps@.len(),
            forall|q: int| 0 <= q < d ==> m.contains_key(#[trigger] dep_name(*g, gu, q)),
            flags.deep_view() =~= with_features + extern_flags(*g, gu, m, d as int),
        decreases u.deps@.len() - d,
    {
        let dep_idx = u.deps[d];
        proof {
            assert(u.deps@[d as int] < g.units@.len());
        }
        let name = normalize_name(g.units[dep_idx].pkg_name.as_str());
        proof {
            assert(name@ == dep_name(*g, gu, d as int));
        }
        match artifacts.get(&name) {
            Some(path) => {
                let ghost before = flags.deep_view();
                let path_owned = path.clone();
                flags.push("--extern".to_owned());
                let mut value = name;
                value.append("=");
                value.append(path_owned.as_str());
                let ghost value_view = value@;
                flags.push(value);
                proof {
                    assert(value_view == dep_name(*g, gu, d as int) + "="@ + m[dep_name(
                        *g,
                        gu,
                        d as int,
                    )]);
                    assert(flags.deep_view() =~= before + extern_pair(
                        dep_name(*g, gu, d as int),
                        m[dep_name(*g, gu, d as int)],
                    ));
                }
            },
            None => {
                proof {
                    lemma_first_missing(*g, gu, m, 0, d as int);
                }
                return Err(SynthesisError::MissingArtifact(name));
            },
        }
        d += 1;
    }
    proof {
        lemma_missing_iff_from(*g, gu, m, 0);
        assert(flags.deep_view() =~= spec_flags(*g, gu, sysroot_view, deps_dir_view, m));
    }

    let mut env: Vec<(String, String)> = Vec::new();
    env.push(("CARGO_PKG_VERSION".to_owned(), u.version.render()));
    env.push(("CARGO_PKG_NAME".to_owned(), u.pkg_name.clone()));
    env.push(("CARGO_PKG_VERSION_MAJOR".to_owned(), u64_to_dec(u.version.major)));
    env.push(("CARGO_PKG_VERSION_MINOR".to_owned(), u64_to_dec(u.version.minor)));
    env.push(("CARGO_PKG_VERSION_PATCH".to_owned(), u64_to_dec(u.version.patch)));
    match manifest_dir {
        Some(dir) => {
            env.push(("CARGO_MANIFEST_DIR".to_owned(), dir.clone()));
        },
        None => {},
    }
    proof {
        assert(env.deep_view() =~= base_env(gu, manifest_dir.deep_view()));
    }
    let ghost base_pairs = base_env(gu, manifest_dir.deep_view());
    match build_script {
        Some(b) => {
            env.push(("OUT_DIR".to_owned(), b.out_dir.clone()));
            let mut k: usize = 0;
            while k < b.env.len()
                invariant
                    0 <= k <= b.env@.len(),
                    env.deep_view() =~= base_pairs + seq![("OUT_DIR"@, b.out_dir@)]
                        + b.env.deep_view().subrange(0, k as int),
                decreases b.env@.len() - k,
            {
                let ghost before = env.deep_view();
                let pair = (b.env[k].0.clone(), b.env[k].1.clone());
                env.push(pair);
                proof {
                    let bv = b.env.deep_view();
                    assert(env.deep_view() =~= before.push(bv[k as int]));
                    assert(bv.subrange(0, (k + 1) as int) =~= bv.subrange(0, k as int).push(
                        bv[k as int],
                    ));
                    assert(env.deep_view() =~= base_pairs + seq![("OUT_DIR"@, b.out_dir@)]
                        + bv.subrange(0, (k + 1) as int));
                }
                k += 1;
            }
            proof {
                assert(b.env.deep_view().subrange(0, b.env@.len() as int) =~= b.env.deep_view());
                assert(env.deep_view() =~= env_pairs(gu, manifest_dir.deep_view(), *build_script));
            }
        },
        None => {
            proof {
                assert(env.deep_view() =~= env_pairs(gu, manifest_dir.deep_view(), *build_script));
            }
        },
    }

    Ok(SynthesizedInvocation { flags, env })
}

/// The feature section, spelled entry by entry: at the even slots the
/// conditional-compilation flag, at the odd slots the feature values, in the
/// declared order.
pub open spec fn feature_table(features: Seq<Seq<char>>) -> Seq<Seq<char>> {
    Seq::new(
        2 * features.len(),
        |i: int|
            if i % 2 == 0 {
                "--cfg"@
            } else {
                "feature=\""@ + features[i / 2] + "\""@
            },
    )
}

/// The feature section's shape: two entries per enabled feature — the
/// conditional-compilation flag, then the feature's value.
pub proof fn lemma_feature_flags_shape(features: Seq<Seq<char>>)
    ensures
        feature_flags(features) == feature_table(features),
    decreases features.len(),
{
    if features.len() == 0 {
        assert(feature_flags(features) =~= feature_table(features));
    } else {
        let shorter = features.drop_last();
        lemma_feature_flags_shape(shorter);
        assert forall|i: int|
            0 <= i < feature_flags(features).len() implies feature_flags(features)[i]
            == feature_table(features)[i] by {
            if i < 2 * (features.len() - 1) {
                assert(feature_flags(features)[i] == feature_table(shorter)[i]);
                assert(shorter[i / 2] == features[i / 2]);
            } else {
                let pair = feature_pair(features.last());
                if i % 2 == 0 {
                    assert(feature_flags(features)[i] == pair[0]);
                } else {
                    assert(feature_flags(features)[i] == pair[1]);
                    assert(features.last() == features[i / 2]);
                }
            }
        }
        assert(feature_flags(features) =~= feature_table(features));
    }
}

/// The dependency section, spelled entry by entry: at the even slots the
/// external-reference flag, at the odd slots each dependency's normalized
/// name bound to the artifact path the mapping holds for it, in dependency
/// order.
pub open spec fn extern_table(
    g: UnitGraph,
    u: CompilationUnit,
    m: Map<Seq<char>, Seq<char>>,
    upto: int,
) -> Seq<Seq<char>> {
    Seq::new(
        if upto >= 0 {
            (2 * upto) as nat
        } else {
            0
        },
        |i: int|
            if i % 2 == 0 {
                "--extern"@
            } else {
                dep_name(g, u, i / 2) + "="@ + m[dep_name(g, u, i / 2)]
            },
    )
}

/// The external-reference section's shape: two entries per dependency — the
/// external-reference flag, then the dependency's normalized name bound to
/// its artifact path.
pub proof fn lemma_extern_flags_shape(
    g: UnitGraph,
    u: CompilationUnit,
    m: Map<Seq<char>, Seq<char>>,
    upto: int,
)
    requires
        0 <= upto <= u.deps@.len(),
    ensures
        extern_flags(g, u, m, upto) == extern_table(g, u, m, upto),
    decreases upto,
{
    if upto == 0 {
        assert(extern_flags(g, u, m, upto) =~= extern_table(g, u, m, upto));
    } else {
        lemma_extern_flags_shape(g, u, m, upto - 1);
        assert forall|i: int|
            0 <= i < extern_flags(g, u, m, upto).len() implies extern_flags(g, u, m, upto)[i]
            == extern_table(g, u, m, upto)[i] by {
            if i < 2 * (upto - 1) {
                assert(extern_flags(g, u, m, upto)[i] == extern_table(g, u, m, upto - 1)[i]);
            } else {
                let pair = extern_pair(dep_name(g, u, upto - 1), m[dep_name(g, u, upto - 1)]);
                if i % 2 == 0 {
                    assert(extern_flags(g, u, m, upto)[i] == pair[0]);
                } else {
                    assert(extern_flags(g, u, m, upto)[i] == pair[1]);
                    assert(i / 2 == upto - 1);
                }
            }
        }
        assert(extern_flags(g, u, m, upto) =~= extern_table(g, u, m, upto));
    }
}

/// When every dependency below `j` has an artifact and the one at `j` has
/// none, `j` is the first missing one.
proof fn lemma_first_missing(
    g: UnitGraph,
    u: CompilationUnit,
    m: Map<Seq<char>, Seq<char>>,
    from: int,
    j: int,
)
    requires
        0 <= from <= j < u.deps@.len(),
        forall|q: int| from <= q < j ==> m.contains_key(#[trigger] dep_name(g, u, q)),
        !m.contains_key(dep_name(g, u, j)),
    ensures
        first_missing_dep(g, u, m, from) == Some(j),
    decreases j - from,
{
    if from < j {
        lemma_first_missing(g, u, m, from + 1, j);
    }
}

/// At `from` and above, no dependency is missing exactly when each one's
/// normalized package name has an artifact in the mapping.
proof fn lemma_missing_iff_from(
    g: UnitGraph,
    u: CompilationUnit,
    m: Map<Seq<char>, Seq<char>>,
    from: int,
)
    requires
        from >= 0,
    ensures
        first_missing_dep(g, u, m, from) is None <==> forall|q: int|
            from <= q < u.deps@.len() ==> m.contains_key(#[trigger] dep_name(g, u, q)),
    decreases u.deps@.len() - from,
{
    if from < u.deps@.len() {
        lemma_missing_iff_from(g, u, m, from + 1);
    }
}

/// A present build-script result takes precedence in the environment mapping:
/// every key it emits is answered from it, and every other key is answered
/// from the base set, exactly as without a build script.
pub proof fn lemma_build_script_precedence(
    u: CompilationUnit,
    manifest_dir: Option<Seq<char>>,
    b: BuildScriptOutput,
    k: Seq<char>,
)
    ensures
        pairs_map(script_env(b)).contains_key(k) ==> pairs_map(env_pairs(u, manifest_dir, Some(b)))[k]
            == pairs_map(script_env(b))[k],
        !pairs_map(script_env(b)).contains_key(k) && pairs_map(
            base_env(u, manifest_dir),
        ).contains_key(k) ==> pairs_map(env_pairs(u, manifest_dir, Some(b)))[k] == pairs_map(
            env_pairs(u, manifest_dir, None),
        )[k],
{
    crate::artifact::lemma_pairs_map_append(base_env(u, manifest_dir), script_env(b), k);
    assert(env_pairs(u, manifest_dir, None) =~= base_env(u, manifest_dir));
}

/// Assembly succeeds exactly when every dependency's normalized package name
/// has a compiled artifact in the mapping.
pub proof fn lemma_missing_dep_iff(g: UnitGraph, u: CompilationUnit, m: Map<Seq<char>, Seq<char>>)
    ensures
        first_missing_dep(g, u, m, 0) is None <==> forall|q: int|
            0 <= q < u.deps@.len() ==> m.contains_key(#[trigger] dep_name(g, u, q)),
{
    lemma_missing_iff_from(g, u, m, 0);
}

} // verus!

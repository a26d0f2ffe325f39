use flag_synth::artifact::{build_index, parse_artifact_name, ArtifactIndex};
use flag_synth::assemble::{assemble, BuildScriptOutput};
use flag_synth::errors::SynthesisError;
use flag_synth::graph::{edition_str, kind_str, CompilationUnit, CrateKind, Edition, UnitGraph, Version};
use flag_synth::locate::locate;
use flag_synth::names::{normalize_name, u64_to_dec};
use flag_synth::paths::{is_ancestor_of, join_components};
use flag_synth::reach::collect_units;
use flag_synth::synth::generate_rustc_flags;

fn s(x: &str) -> String {
    x.to_string()
}

fn comps(xs: &[&str]) -> Vec<String> {
    xs.iter().map(|x| x.to_string()).collect()
}

fn unit(
    pkg: &str,
    crate_name: &str,
    kinds: Vec<CrateKind>,
    src_root: &[&str],
    features: &[&str],
    deps: Vec<usize>,
) -> CompilationUnit {
    CompilationUnit {
        pkg_name: s(pkg),
        version: Version { major: 0, minor: 1, patch: 0 },
        crate_name: s(crate_name),
        kinds,
        src_root: comps(src_root),
        edition: Edition::E2021,
        features: features.iter().map(|x| x.to_string()).collect(),
        deps,
    }
}

/// The example project: package `demo` with a library and a binary sharing
/// `src/`, feature `extra` enabled on the library, one dependency.
fn demo_graph() -> UnitGraph {
    let dep = unit(
        "percent-encoding",
        "percent_encoding",
        vec![CrateKind::Lib],
        &["", "deps", "percent-encoding", "src", "lib.rs"],
        &[],
        vec![],
    );
    // the binary stands before the library on purpose
    let bin = unit(
        "demo",
        "demo",
        vec![CrateKind::Bin],
        &["", "proj", "src", "main.rs"],
        &[],
        vec![0],
    );
    let mut lib = unit(
        "demo",
        "demo",
        vec![CrateKind::Lib],
        &["", "proj", "src", "lib.rs"],
        &["extra"],
        vec![0],
    );
    lib.version = Version { major: 1, minor: 2, patch: 3 };
    UnitGraph { units: vec![dep, bin, lib], roots: vec![1, 2] }
}

#[test]
fn normalizes_hyphens_to_underscores() {
    assert_eq!(normalize_name("percent-encoding"), "percent_encoding");
    assert_eq!(normalize_name("serde"), "serde");
    assert_eq!(normalize_name(""), "");
    assert_eq!(normalize_name("a-b-c"), "a_b_c");
}

#[test]
fn renders_decimals() {
    assert_eq!(u64_to_dec(0), "0");
    assert_eq!(u64_to_dec(7), "7");
    assert_eq!(u64_to_dec(10), "10");
    assert_eq!(u64_to_dec(12034), "12034");
}

#[test]
fn renders_versions() {
    let v = Version { major: 1, minor: 22, patch: 303 };
    assert_eq!(v.render(), "1.22.303");
}

#[test]
fn joins_components() {
    assert_eq!(join_components(&comps(&["", "proj", "src", "lib.rs"])), "/proj/src/lib.rs");
    assert_eq!(join_components(&comps(&["src", "lib.rs"])), "src/lib.rs");
    assert_eq!(join_components(&comps(&[])), "");
}

#[test]
fn ancestor_is_component_prefix() {
    let dir = comps(&["", "proj", "src"]);
    assert!(is_ancestor_of(&dir, &comps(&["", "proj", "src", "lib.rs"])));
    assert!(is_ancestor_of(&dir, &comps(&["", "proj", "src"])));
    assert!(!is_ancestor_of(&dir, &comps(&["", "proj", "other", "lib.rs"])));
    assert!(!is_ancestor_of(&dir, &comps(&["", "proj"])));
}

#[test]
fn parses_artifact_names() {
    assert_eq!(
        parse_artifact_name("libpercent_encoding-abcd1234.rmeta"),
        Some(s("percent_encoding"))
    );
    // a hyphen inside the package name is kept and normalized
    assert_eq!(parse_artifact_name("libfoo-bar-9f.rmeta"), Some(s("foo_bar")));
    assert_eq!(parse_artifact_name("foo-abcd.rmeta"), None);
    assert_eq!(parse_artifact_name("libfoo-abcd.rlib"), None);
    assert_eq!(parse_artifact_name("libfooabcd.rmeta"), None);
    assert_eq!(parse_artifact_name("lib-abcd.rmeta"), None);
    assert_eq!(parse_artifact_name("libfoo-.rmeta"), None);
    assert_eq!(parse_artifact_name(""), None);
}

#[test]
fn later_listing_entry_wins() {
    let files = vec![
        (s("libfoo-aaaa.rmeta"), s("/t/libfoo-aaaa.rmeta")),
        (s("README.md"), s("/t/README.md")),
        (s("libfoo-bbbb.rmeta"), s("/t/libfoo-bbbb.rmeta")),
    ];
    let idx = build_index(&files);
    assert_eq!(idx.get(&s("foo")), Some(&s("/t/libfoo-bbbb.rmeta")));
    assert_eq!(idx.get(&s("bar")), None);
}

#[test]
fn records_displace_earlier_ones() {
    let mut idx = ArtifactIndex::new();
    idx.record(s("alpha"), s("/a1"));
    idx.record(s("beta"), s("/b"));
    idx.record(s("alpha"), s("/a2"));
    assert_eq!(idx.get(&s("alpha")), Some(&s("/a2")));
    assert_eq!(idx.get(&s("beta")), Some(&s("/b")));
}

#[test]
fn locates_library_inside_its_tree() {
    let g = demo_graph();
    let path = comps(&["", "proj", "src", "lib.rs"]);
    assert_eq!(locate(&g, &path).unwrap(), 2);
}

#[test]
fn path_outside_every_tree_is_not_found() {
    let g = demo_graph();
    let path = comps(&["", "elsewhere", "main.rs"]);
    assert!(matches!(locate(&g, &path), Err(SynthesisError::UnitNotFound)));
}

#[test]
fn library_wins_over_earlier_binary() {
    // the binary stands first in the unit list, yet the library is chosen
    let g = demo_graph();
    let path = comps(&["", "proj", "src", "main.rs"]);
    assert_eq!(locate(&g, &path).unwrap(), 2);
}

#[test]
fn sole_candidate_wins_whatever_its_kind() {
    let g = UnitGraph {
        units: vec![unit("only", "only", vec![CrateKind::Bin], &["", "p", "src", "main.rs"], &[], vec![])],
        roots: vec![0],
    };
    assert_eq!(locate(&g, &comps(&["", "p", "src", "main.rs"])).unwrap(), 0);
}

#[test]
fn several_candidates_without_library_are_ambiguous() {
    let a = unit("x", "x", vec![CrateKind::Bin], &["", "p", "src", "a.rs"], &[], vec![]);
    let b = unit("x", "y", vec![CrateKind::Bin], &["", "p", "src", "b.rs"], &[], vec![]);
    let g = UnitGraph { units: vec![a, b], roots: vec![0, 1] };
    let r = locate(&g, &comps(&["", "p", "src", "a.rs"]));
    assert!(matches!(r, Err(SynthesisError::AmbiguousUnit)));
}

fn demo_artifacts() -> ArtifactIndex {
    build_index(&vec![(
        s("libpercent_encoding-abcd1234.rmeta"),
        s("/t/debug/deps/libpercent_encoding-abcd1234.rmeta"),
    )])
}

#[test]
fn assembles_the_example_invocation() {
    let g = demo_graph();
    let r = generate_rustc_flags(
        &g,
        &comps(&["", "proj", "src", "lib.rs"]),
        s("/sysroot"),
        s("/t/debug/deps"),
        &demo_artifacts(),
        &None,
        &Some(s("/proj")),
    )
    .unwrap();
    assert_eq!(
        r.flags,
        vec![
            s("rustc"),
            s("--crate-name"),
            s("demo"),
            s("--crate-type"),
            s("lib"),
            s("--sysroot"),
            s("/sysroot"),
            s("/proj/src/lib.rs"),
            s("--edition=2021"),
            s("-L"),
            s("/t/debug/deps"),
            s("--emit=dep-info,metadata"),
            s("--cfg"),
            s("feature=\"extra\""),
            s("--extern"),
            s("percent_encoding=/t/debug/deps/libpercent_encoding-abcd1234.rmeta"),
        ]
    );
    let env = r.env;
    assert!(env.contains(&(s("CARGO_PKG_VERSION"), s("1.2.3"))));
    assert!(env.contains(&(s("CARGO_PKG_NAME"), s("demo"))));
    assert!(env.contains(&(s("CARGO_PKG_VERSION_MAJOR"), s("1"))));
    assert!(env.contains(&(s("CARGO_PKG_VERSION_MINOR"), s("2"))));
    assert!(env.contains(&(s("CARGO_PKG_VERSION_PATCH"), s("3"))));
    assert!(env.contains(&(s("CARGO_MANIFEST_DIR"), s("/proj"))));
}

#[test]
fn each_enabled_feature_gets_one_flag_pair() {
    let g = demo_graph();
    let r = generate_rustc_flags(
        &g,
        &comps(&["", "proj", "src", "lib.rs"]),
        s("/sysroot"),
        s("/deps"),
        &demo_artifacts(),
        &None,
        &None,
    )
    .unwrap();
    let cfg_count = r.flags.iter().filter(|f| f.as_str() == "--cfg").count();
    assert_eq!(cfg_count, 1);
    let extern_count = r.flags.iter().filter(|f| f.as_str() == "--extern").count();
    assert_eq!(extern_count, 1);
    assert_eq!(r.flags.iter().filter(|f| f.as_str() == "--crate-name").count(), 1);
    assert_eq!(r.flags.iter().filter(|f| f.as_str() == "--crate-type").count(), 1);
    assert_eq!(r.flags.iter().filter(|f| f.as_str() == "--sysroot").count(), 1);
    assert_eq!(r.flags.iter().filter(|f| f.as_str() == "-L").count(), 1);
    assert_eq!(r.flags.iter().filter(|f| f.starts_with("--edition=")).count(), 1);
}

#[test]
fn missing_artifact_names_the_dependency() {
    let g = demo_graph();
    let r = generate_rustc_flags(
        &g,
        &comps(&["", "proj", "src", "lib.rs"]),
        s("/sysroot"),
        s("/deps"),
        &ArtifactIndex::new(),
        &None,
        &None,
    );
    match r {
        Err(SynthesisError::MissingArtifact(name)) => assert_eq!(name, "percent_encoding"),
        other => panic!("expected a missing artifact, got {:?}", other),
    }
}

#[test]
fn build_script_output_extends_the_environment() {
    let g = demo_graph();
    let bs = BuildScriptOutput {
        out_dir: s("/t/build/demo/out"),
        env: vec![(s("GENERATED"), s("yes")), (s("CARGO_PKG_NAME"), s("shadowed"))],
    };
    let r = generate_rustc_flags(
        &g,
        &comps(&["", "proj", "src", "lib.rs"]),
        s("/sysroot"),
        s("/deps"),
        &demo_artifacts(),
        &Some(bs),
        &None,
    )
    .unwrap();
    let env = r.env;
    assert!(env.contains(&(s("OUT_DIR"), s("/t/build/demo/out"))));
    assert!(env.contains(&(s("GENERATED"), s("yes"))));
    // the build-script pair stands after the base pair, so it wins in the map
    let base_pos = env.iter().position(|p| p == &(s("CARGO_PKG_NAME"), s("demo"))).unwrap();
    let shadow_pos = env.iter().position(|p| p == &(s("CARGO_PKG_NAME"), s("shadowed"))).unwrap();
    assert!(base_pos < shadow_pos);
}

#[test]
fn two_runs_agree_on_unchanged_state() {
    let g = demo_graph();
    let run = || {
        generate_rustc_flags(
            &g,
            &comps(&["", "proj", "src", "lib.rs"]),
            s("/sysroot"),
            s("/deps"),
            &demo_artifacts(),
            &None,
            &Some(s("/proj")),
        )
        .unwrap()
    };
    let a = run();
    let b = run();
    assert_eq!(a.flags, b.flags);
    assert_eq!(a.env, b.env);
}

#[test]
fn collects_each_reachable_unit_once() {
    // a diamond: both roots share the same dependency
    let dep = unit("base", "base", vec![CrateKind::Lib], &["", "d", "src", "lib.rs"], &[], vec![]);
    let left = unit("l", "l", vec![CrateKind::Lib], &["", "l", "src", "lib.rs"], &[], vec![0]);
    let right = unit("r", "r", vec![CrateKind::Lib], &["", "r", "src", "lib.rs"], &[], vec![0]);
    let stray = unit("s", "s", vec![CrateKind::Lib], &["", "s", "src", "lib.rs"], &[], vec![]);
    let g = UnitGraph { units: vec![dep, left, right, stray], roots: vec![1, 2] };
    let mut got = collect_units(&g);
    got.sort();
    assert_eq!(got, vec![0, 1, 2]);
}

#[test]
fn an_empty_graph_yields_nothing() {
    let g = UnitGraph { units: vec![], roots: vec![] };
    assert!(collect_units(&g).is_empty());
    assert!(matches!(
        locate(&g, &comps(&["", "x.rs"])),
        Err(SynthesisError::UnitNotFound)
    ));
}

#[test]
fn path_equal_to_source_dir_counts_as_inside() {
    let g = demo_graph();
    // the shared source directory itself: both targets are candidates, the
    // library wins
    assert_eq!(locate(&g, &comps(&["", "proj", "src"])).unwrap(), 2);
}

#[test]
fn least_library_candidate_wins_among_several() {
    let lib_a = unit("a", "a", vec![CrateKind::Lib], &["", "p", "src", "a.rs"], &[], vec![]);
    let lib_b = unit("b", "b", vec![CrateKind::Lib], &["", "p", "src", "b.rs"], &[], vec![]);
    let g = UnitGraph { units: vec![lib_a, lib_b], roots: vec![0, 1] };
    assert_eq!(locate(&g, &comps(&["", "p", "src", "x.rs"])).unwrap(), 0);
}

#[test]
fn every_output_kind_has_its_token() {
    assert_eq!(kind_str(CrateKind::Lib), "lib");
    assert_eq!(kind_str(CrateKind::Rlib), "rlib");
    assert_eq!(kind_str(CrateKind::Dylib), "dylib");
    assert_eq!(kind_str(CrateKind::Cdylib), "cdylib");
    assert_eq!(kind_str(CrateKind::Staticlib), "staticlib");
    assert_eq!(kind_str(CrateKind::ProcMacro), "proc-macro");
    assert_eq!(kind_str(CrateKind::Bin), "bin");
}

#[test]
fn every_edition_has_its_year() {
    assert_eq!(edition_str(Edition::E2015), "2015");
    assert_eq!(edition_str(Edition::E2018), "2018");
    assert_eq!(edition_str(Edition::E2021), "2021");
    assert_eq!(edition_str(Edition::E2024), "2024");
}

#[test]
fn renders_the_largest_number() {
    assert_eq!(u64_to_dec(u64::MAX), "18446744073709551615");
    assert_eq!(u64_to_dec(9876543210), "9876543210");
}

#[test]
fn shortest_artifact_name_parses() {
    assert_eq!(parse_artifact_name("liba-b.rmeta"), Some(s("a")));
}

#[test]
fn only_the_first_output_kind_names_the_crate_type() {
    let mut g = demo_graph();
    g.units[2].kinds = vec![CrateKind::Rlib, CrateKind::Lib];
    let r = assemble(&g, 2, s("/sr"), s("/d"), &demo_artifacts(), &None, &None).unwrap();
    assert_eq!(r.flags[3], "--crate-type");
    assert_eq!(r.flags[4], "rlib");
}

#[test]
fn no_features_and_no_dependencies_give_the_bare_invocation() {
    let g = UnitGraph {
        units: vec![unit("solo", "solo", vec![CrateKind::Lib], &["", "p", "src", "lib.rs"], &[], vec![])],
        roots: vec![0],
    };
    let r = generate_rustc_flags(
        &g,
        &comps(&["", "p", "src", "lib.rs"]),
        s("/sr"),
        s("/d"),
        &ArtifactIndex::new(),
        &None,
        &None,
    )
    .unwrap();
    assert_eq!(
        r.flags,
        vec![
            s("rustc"),
            s("--crate-name"),
            s("solo"),
            s("--crate-type"),
            s("lib"),
            s("--sysroot"),
            s("/sr"),
            s("/p/src/lib.rs"),
            s("--edition=2021"),
            s("-L"),
            s("/d"),
            s("--emit=dep-info,metadata"),
        ]
    );
}

#[test]
fn nested_source_trees_prefer_the_library() {
    let outer = unit("o", "o", vec![CrateKind::Bin], &["", "p", "main.rs"], &[], vec![]);
    let inner = unit("i", "i", vec![CrateKind::Lib], &["", "p", "sub", "lib.rs"], &[], vec![]);
    let g = UnitGraph { units: vec![outer, inner], roots: vec![0, 1] };
    // the path lies inside both trees; the library owns it
    assert_eq!(locate(&g, &comps(&["", "p", "sub", "x.rs"])).unwrap(), 1);
}

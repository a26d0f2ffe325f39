use crate::assemble::dep_name;
use crate::assemble::extern_flags;
use crate::assemble::feature_flags;
use crate::assemble::lemma_extern_flags_shape;
use crate::assemble::lemma_feature_flags_shape;
use crate::assemble::spec_flags;
use crate::graph::edition_token;
use crate::graph::kind_token;
use crate::graph::CompilationUnit;
use crate::graph::CrateKind;
use crate::graph::UnitGraph;
use crate::names::normalize_char;
use crate::names::normalized;
use crate::paths::joined;
use vstd::prelude::*;

verus! {

/// A plain value argument: empty, or not led by the flag marker.
pub open spec fn non_flag(s: Seq<char>) -> bool {
    s.len() == 0 || s[0] != '-'
}

/// Whether a token is the edition flag: the edition prefix followed by the
/// declared year.
pub open spec fn is_edition_flag(s: Seq<char>) -> bool {
    let pre = "--edition="@;
    s.len() >= pre.len() && s.subrange(0, pre.len() as int) == pre
}

/// The positions of the conditional-compilation flag tokens: the even slots
/// of the feature section, one per enabled feature.
pub open spec fn cfg_slot(u: CompilationUnit, i: int) -> bool {
    12 <= i < 12 + 2 * u.features@.len() && (i - 12) % 2 == 0
}

/// The positions of the external-reference flag tokens: the even slots of
/// the dependency section, one per dependency.
pub open spec fn extern_slot(u: CompilationUnit, i: int) -> bool {
    let s = 12 + 2 * u.features@.len();
    s <= i < s + 2 * u.deps@.len() && (i - s) % 2 == 0
}

/// An output-kind token is a word, never flag-led.
proof fn lemma_kind_token_head(k: CrateKind)
    ensures
        kind_token(k).len() > 0,
        kind_token(k)[0] != '-',
{
    reveal_strlit("lib");
    reveal_strlit("rlib");
    reveal_strlit("dylib");
    reveal_strlit("cdylib");
    reveal_strlit("staticlib");
    reveal_strlit("proc-macro");
    reveal_strlit("bin");
}

/// A feature's value token begins with the feature keyword, never the flag
/// marker.
proof fn lemma_feature_value_head(f: Seq<char>)
    ensures
        ("feature=\""@ + f + "\""@).len() > 0,
        ("feature=\""@ + f + "\""@)[0] == 'f',
{
    reveal_strlit("feature=\"");
    assert(("feature=\""@ + f + "\""@)[0] == "feature=\""@[0]);
}

/// An external-reference value token begins with a normalized name character
/// or the binding sign, never the flag marker.
proof fn lemma_extern_value_head(name_src: Seq<char>, path: Seq<char>)
    ensures
        (normalized(name_src) + "="@ + path).len() > 0,
        (normalized(name_src) + "="@ + path)[0] != '-',
{
    reveal_strlit("=");
    let nm = normalized(name_src);
    if nm.len() > 0 {
        assert((nm + "="@ + path)[0] == nm[0]);
        assert(nm[0] == normalize_char(name_src[0]));
    } else {
        assert((nm + "="@ + path)[0] == "="@[0]);
    }
}

/// The edition flag token wears the edition prefix.
proof fn lemma_edition_flag_is_edition(e: crate::graph::Edition)
    ensures
        is_edition_flag("--edition="@ + edition_token(e)),
        ("--edition="@ + edition_token(e)).len() == 14,
{
    reveal_strlit("--edition=");
    reveal_strlit("2015");
    reveal_strlit("2018");
    reveal_strlit("2021");
    reveal_strlit("2024");
    let t = "--edition="@ + edition_token(e);
    assert(t.subrange(0, 10) =~= "--edition="@);
}

/// The inventory of the assembled flag sequence, under plain (not flag-led)
/// name and path arguments:
///
/// - exactly one unit-name flag, one output-kind flag, one installation-root
///   flag, one search-path flag, one metadata-only emission flag and one
///   edition flag, each at its fixed place in the head;
/// - one conditional-compilation flag per enabled feature, at the feature
///   section's even slots and nowhere else, each followed by its feature's
///   value, and distinct features give distinct values;
/// - one external-reference flag per dependency, at the dependency section's
///   even slots and nowhere else, each followed by the dependency's
///   normalized name bound to the artifact path the mapping holds for it.
#[verifier::rlimit(60)]
pub proof fn lemma_flag_inventory(
    g: UnitGraph,
    u: CompilationUnit,
    sysroot: Seq<char>,
    deps_dir: Seq<char>,
    m: Map<Seq<char>, Seq<char>>,
)
    requires
        u.wf(),
        non_flag(u.crate_name@),
        non_flag(sysroot),
        non_flag(deps_dir),
        non_flag(joined(u.src_root.deep_view())),
    ensures
        spec_flags(g, u, sysroot, deps_dir, m).len() == 12 + 2 * u.features@.len() + 2
            * u.deps@.len(),
        forall|i: int|
            0 <= i < spec_flags(g, u, sysroot, deps_dir, m).len() ==> ((#[trigger] spec_flags(
                g,
                u,
                sysroot,
                deps_dir,
                m,
            )[i]) == "--crate-name"@ <==> i == 1),
        forall|i: int|
            0 <= i < spec_flags(g, u, sysroot, deps_dir, m).len() ==> ((#[trigger] spec_flags(
                g,
                u,
                sysroot,
                deps_dir,
                m,
            )[i]) == "--crate-type"@ <==> i == 3),
        forall|i: int|
            0 <= i < spec_flags(g, u, sysroot, deps_dir, m).len() ==> ((#[trigger] spec_flags(
                g,
                u,
                sysroot,
                deps_dir,
                m,
            )[i]) == "--sysroot"@ <==> i == 5),
        forall|i: int|
            0 <= i < spec_flags(g, u, sysroot, deps_dir, m).len() ==> ((#[trigger] spec_flags(
                g,
                u,
                sysroot,
                deps_dir,
                m,
            )[i]) == "-L"@ <==> i == 9),
        forall|i: int|
            0 <= i < spec_flags(g, u, sysroot, deps_dir, m).len() ==> ((#[trigger] spec_flags(
                g,
                u,
                sysroot,
                deps_dir,
                m,
            )[i]) == "--emit=dep-info,metadata"@ <==> i == 11),
        forall|i: int|
            0 <= i < spec_flags(g, u, sysroot, deps_dir, m).len() ==> (is_edition_flag(
                #[trigger] spec_flags(g, u, sysroot, deps_dir, m)[i],
            ) <==> i == 8),
        forall|i: int|
            0 <= i < spec_flags(g, u, sysroot, deps_dir, m).len() ==> ((#[trigger] spec_flags(
                g,
                u,
                sysroot,
                deps_dir,
                m,
            )[i]) == "--cfg"@ <==> cfg_slot(u, i)),
        forall|i: int|
            0 <= i < spec_flags(g, u, sysroot, deps_dir, m).len() ==> ((#[trigger] spec_flags(
                g,
                u,
                sysroot,
                deps_dir,
                m,
            )[i]) == "--extern"@ <==> extern_slot(u, i)),
        forall|k: int|
            0 <= k < u.features@.len() ==> #[trigger] spec_flags(g, u, sysroot, deps_dir, m)[12 + 2
                * k + 1] == "feature=\""@ + u.features.deep_view()[k] + "\""@,
        forall|k1: int, k2: int|
            #![trigger u.features.deep_view()[k1], u.features.deep_view()[k2]]
            0 <= k1 < u.features@.len() && 0 <= k2 < u.features@.len() && spec_flags(
                g,
                u,
                sysroot,
                deps_dir,
                m,
            )[12 + 2 * k1 + 1] == spec_flags(g, u, sysroot, deps_dir, m)[12 + 2 * k2 + 1] ==> k1
                == k2,
        forall|k: int|
            0 <= k < u.deps@.len() ==> #[trigger] spec_flags(g, u, sysroot, deps_dir, m)[12 + 2
                * u.features@.len() + 2 * k + 1] == dep_name(g, u, k) + "="@ + m[dep_name(g, u, k)],
{
    reveal_strlit("rustc");
    reveal_strlit("--crate-name");
    reveal_strlit("--crate-type");
    reveal_strlit("--sysroot");
    reveal_strlit("-L");
    reveal_strlit("--emit=dep-info,metadata");
    reveal_strlit("--cfg");
    reveal_strlit("--extern");
    reveal_strlit("--edition=");
    reveal_strlit("feature=\"");
    reveal_strlit("=");

    let fl = spec_flags(g, u, sysroot, deps_dir, m);
    let base = crate::assemble::base_flags(u, sysroot, deps_dir);
    let ff = feature_flags(u.features.deep_view());
    let ef = extern_flags(g, u, m, u.deps@.len() as int);
    let nf = u.features@.len() as int;
    let nd = u.deps@.len() as int;

    lemma_feature_flags_shape(u.features.deep_view());
    lemma_extern_flags_shape(g, u, m, nd);
    lemma_edition_flag_is_edition(u.edition);
    lemma_kind_token_head(u.kinds@[0]);
    assert(ff == crate::assemble::feature_table(u.features.deep_view()));
    assert(ef == crate::assemble::extern_table(g, u, m, nd));
    assert(base.len() == 12);
    assert(ff.len() == 2 * nf && ef.len() == 2 * nd);
    assert(fl.len() == 12 + 2 * nf + 2 * nd);

    // where every entry sits
    assert(forall|i: int| 0 <= i < 12 ==> #[trigger] fl[i] == base[i]);
    assert(forall|i: int| 12 <= i < 12 + 2 * nf ==> #[trigger] fl[i] == ff[i - 12]);
    assert(forall|i: int|
        12 + 2 * nf <= i < fl.len() ==> #[trigger] fl[i] == ef[i - 12 - 2 * nf]);

    // the head's value entries are never flag-led, and the sections' value
    // entries are never flag tokens
    assert forall|i: int| 12 <= i < 12 + 2 * nf && (i - 12) % 2 == 1 implies (#[trigger] fl[i]).len()
        > 0 && fl[i][0] == 'f' by {
        let k = (i - 12) / 2;
        assert(ff[2 * k + 1] == "feature=\""@ + u.features.deep_view()[k] + "\""@);
        lemma_feature_value_head(u.features.deep_view()[k]);
    }
    assert forall|i: int|
        12 + 2 * nf <= i < fl.len() && (i - 12 - 2 * nf) % 2 == 1 implies (#[trigger] fl[i]).len()
        > 0 && fl[i][0] != '-' by {
        let k = (i - 12 - 2 * nf) / 2;
        assert(ef[2 * k + 1] == dep_name(g, u, k) + "="@ + m[dep_name(g, u, k)]);
        lemma_extern_value_head(g.units@[u.deps@[k] as int].pkg_name@, m[dep_name(g, u, k)]);
    }

    // spell the head out once
    assert(base[0] == "rustc"@ && base[1] == "--crate-name"@ && base[2] == u.crate_name@ && base[3]
        == "--crate-type"@ && base[4] == kind_token(u.kinds@[0]) && base[5] == "--sysroot"@
        && base[6] == sysroot && base[7] == joined(u.src_root.deep_view()) && base[8]
        == "--edition="@ + edition_token(u.edition) && base[9] == "-L"@ && base[10] == deps_dir
        && base[11] == "--emit=dep-info,metadata"@);

    // the two same-length head tokens differ in spelling, and the program
    // name differs from the one flag token of its length
    assert("--crate-name"@[8] == 'n' && "--crate-type"@[8] == 't');
    assert("--crate-name"@ != "--crate-type"@);
    assert("rustc"@[0] == 'r' && "--cfg"@[0] == '-' && "--extern"@[0] == '-');
    assert("rustc"@ != "--cfg"@);

    // the flag tokens stand at their fixed or sectioned places and nowhere
    // else: everything else is a plain value, a keyword-led value, or a flag
    // token of another length or spelling
    assert forall|i: int|
        0 <= i < fl.len() implies ((fl[i] == "--crate-name"@ <==> i == 1) && (fl[i]
        == "--crate-type"@ <==> i == 3) && (fl[i] == "--sysroot"@ <==> i == 5) && (fl[i] == "-L"@
        <==> i == 9) && (fl[i] == "--emit=dep-info,metadata"@ <==> i == 11) && (fl[i] == "--cfg"@
        <==> cfg_slot(u, i)) && (fl[i] == "--extern"@ <==> extern_slot(u, i))) by {
        if i < 12 {
            assert(i == 0 || i == 1 || i == 2 || i == 3 || i == 4 || i == 5 || i == 6 || i == 7
                || i == 8 || i == 9 || i == 10 || i == 11);
            assert(fl[i] == base[i]);
            assert(!cfg_slot(u, i) && !extern_slot(u, i));
        } else if i < 12 + 2 * nf {
            if (i - 12) % 2 == 0 {
                let k = (i - 12) / 2;
                assert(fl[i] == ff[2 * k]);
                assert(u.features.deep_view()[k] == u.features.deep_view()[k]);
                assert(fl[i] == "--cfg"@);
                assert(cfg_slot(u, i) && !extern_slot(u, i));
            } else {
                assert(fl[i].len() > 0 && fl[i][0] == 'f');
                assert(!cfg_slot(u, i) && !extern_slot(u, i));
            }
        } else {
            if (i - 12 - 2 * nf) % 2 == 0 {
                let k = (i - 12 - 2 * nf) / 2;
                assert(fl[i] == ef[2 * k]);
                assert(dep_name(g, u, k) == dep_name(g, u, k));
                assert(fl[i] == "--extern"@);
                assert(extern_slot(u, i) && !cfg_slot(u, i));
            } else {
                assert(fl[i].len() > 0 && fl[i][0] != '-');
                assert(!cfg_slot(u, i) && !extern_slot(u, i));
            }
        }
        assert(fl[i] == "--crate-name"@ <==> i == 1);
        assert(fl[i] == "--crate-type"@ <==> i == 3);
        assert(fl[i] == "--sysroot"@ <==> i == 5);
        assert(fl[i] == "-L"@ <==> i == 9);
        assert(fl[i] == "--emit=dep-info,metadata"@ <==> i == 11);
        assert(fl[i] == "--cfg"@ <==> cfg_slot(u, i));
        assert(fl[i] == "--extern"@ <==> extern_slot(u, i));
    }

    // the edition flag stands at its place alone
    assert forall|i: int| 0 <= i < fl.len() implies (is_edition_flag(fl[i]) <==> i == 8) by {
        if i == 8 {
            assert(fl[8] == base[8]);
        } else if is_edition_flag(fl[i]) {
            let s = fl[i];
            let pre = "--edition="@;
            assert(s.subrange(0, 10)[0] == s[0] && s.subrange(0, 10)[2] == s[2] && s.subrange(
                0,
                10,
            )[3] == s[3]);
            assert(s[0] == pre[0] && s[2] == pre[2] && s[3] == pre[3]);
            if i < 12 {
                assert(i == 0 || i == 1 || i == 2 || i == 3 || i == 4 || i == 5 || i == 6 || i == 7
                    || i == 9 || i == 10 || i == 11);
                assert(fl[i] == base[i]);
                lemma_kind_token_head(u.kinds@[0]);
            } else if i < 12 + 2 * nf {
                if (i - 12) % 2 == 0 {
                    let k = (i - 12) / 2;
                    assert(u.features.deep_view()[k] == u.features.deep_view()[k]);
                    assert(fl[i] == ff[2 * k] && fl[i] == "--cfg"@);
                } else {
                    assert(fl[i][0] == 'f');
                }
            } else {
                if (i - 12 - 2 * nf) % 2 == 0 {
                    let k = (i - 12 - 2 * nf) / 2;
                    assert(dep_name(g, u, k) == dep_name(g, u, k));
                    assert(fl[i] == ef[2 * k] && fl[i] == "--extern"@);
                } else {
                    assert(fl[i][0] != '-');
                }
            }
            assert(false);
        }
    }

    // each feature's value follows its flag
    assert forall|k: int| 0 <= k < nf implies #[trigger] fl[12 + 2 * k + 1] == "feature=\""@
        + u.features.deep_view()[k] + "\""@ by {
        assert(u.features.deep_view()[k] == u.features.deep_view()[k]);
        assert(fl[12 + 2 * k + 1] == ff[2 * k + 1]);
    }

    // each dependency's value follows its flag
    assert forall|k: int| 0 <= k < nd implies #[trigger] fl[12 + 2 * nf + 2 * k + 1] == dep_name(
        g,
        u,
        k,
    ) + "="@ + m[dep_name(g, u, k)] by {
        assert(fl[12 + 2 * nf + 2 * k + 1] == ef[2 * k + 1]);
    }

    // distinct features give distinct value tokens
    assert forall|k1: int, k2: int|
        #![trigger u.features.deep_view()[k1], u.features.deep_view()[k2]]
        0 <= k1 < nf && 0 <= k2 < nf && fl[12 + 2 * k1 + 1] == fl[12 + 2 * k2 + 1] implies k1
        == k2 by {
        let f1 = u.features.deep_view()[k1];
        let f2 = u.features.deep_view()[k2];
        let t1 = "feature=\""@ + f1 + "\""@;
        let t2 = "feature=\""@ + f2 + "\""@;
        assert(fl[12 + 2 * k1 + 1] == t1);
        assert(fl[12 + 2 * k2 + 1] == t2);
        if t1 == t2 {
            assert(f1.len() == f2.len());
            assert(f1 =~= f2) by {
                assert forall|q: int| 0 <= q < f1.len() implies f1[q] == f2[q] by {
                    assert(t1[9 + q] == f1[q]);
                    assert(t2[9 + q] == f2[q]);
                }
            }
            if k1 != k2 {
                assert(u.features.deep_view()[k1] != u.features.deep_view()[k2]);
            }
        }
    }
}

} // verus!

use crate::errors::SynthesisError;
use crate::graph::UnitGraph;
use crate::paths::is_component_prefix;
use vstd::prelude::*;

verus! {

/// Unit `i` is a candidate owner of `path` when the parent directory of its
/// source-root file is an ancestor (inclusive) of `path`.
pub open spec fn is_candidate(g: UnitGraph, i: int, path: Seq<Seq<char>>) -> bool {
    &&& 0 <= i < g.units@.len()
    &&& is_component_prefix(g.units@[i].src_dir(), path)
}

/// How many candidates there are at index `from` or above.
pub open spec fn count_candidates_from(g: UnitGraph, path: Seq<Seq<char>>, from: int) -> nat
    decreases g.units@.len() - from,
{
    if from < 0 || from >= g.units@.len() {
        0
    } else if is_candidate(g, from, path) {
        count_candidates_from(g, path, from + 1) + 1
    } else {
        count_candidates_from(g, path, from + 1)
    }
}

/// The least candidate index at `from` or above, if any.
pub open spec fn first_candidate_from(g: UnitGraph, path: Seq<Seq<char>>, from: int) -> Option<
    int,
>
    decreases g.units@.len() - from,
{
    if from < 0 || from >= g.units@.len() {
        None
    } else if is_candidate(g, from, path) {
        Some(from)
    } else {
        first_candidate_from(g, path, from + 1)
    }
}

/// The least index at `from` or above that is both a candidate and a library
/// target, if any.
pub open spec fn first_lib_candidate_from(g: UnitGraph, path: Seq<Seq<char>>, from: int) -> Option<
    int,
>
    decreases g.units@.len() - from,
{
    if from < 0 || from >= g.units@.len() {
        None
    } else if is_candidate(g, from, path) && g.units@[from].spec_is_lib() {
        Some(from)
    } else {
        first_lib_candidate_from(g, path, from + 1)
    }
}

/// What locating must return: with no candidate the path lies outside every
/// unit's source tree; a sole candidate owns the path whatever its kind; with
/// several, the least library candidate owns it, and with none of them a
/// library the request is ambiguous.
pub open spec fn spec_locate(g: UnitGraph, path: Seq<Seq<char>>) -> Result<int, SynthesisError> {
    let n = count_candidates_from(g, path, 0);
    if n == 0 {
        Err(SynthesisError::UnitNotFound)
    } else if n == 1 {
        Ok(first_candidate_from(g, path, 0)->Some_0)
    } else {
        match first_lib_candidate_from(g, path, 0) {
            Some(i) => Ok(i),
            None => Err(SynthesisError::AmbiguousUnit),
        }
    }
}

/// There is no candidate at `from` or above exactly when the count from there
/// is zero.
proof fn lemma_count_zero(g: UnitGraph, path: Seq<Seq<char>>, from: int)
    requires
        from >= 0,
    ensures
        count_candidates_from(g, path, from) == 0 <==> forall|j: int|
            from <= j < g.units@.len() ==> !is_candidate(g, j, path),
    decreases g.units@.len() - from,
{
    if from >= 0 && from < g.units@.len() {
        lemma_count_zero(g, path, from + 1);
    }
}

/// With exactly one candidate at `from` or above, every candidate there is
/// the first one.
proof fn lemma_count_one_unique(g: UnitGraph, path: Seq<Seq<char>>, from: int)
    requires
        from >= 0,
        count_candidates_from(g, path, from) == 1,
    ensures
        first_candidate_from(g, path, from) is Some,
        forall|j: int|
            from <= j < g.units@.len() && is_candidate(g, j, path) ==> j == first_candidate_from(
                g,
                path,
                from,
            )->Some_0,
    decreases g.units@.len() - from,
{
    if from >= 0 && from < g.units@.len() {
        if is_candidate(g, from, path) {
            lemma_count_zero(g, path, from + 1);
        } else {
            lemma_count_one_unique(g, path, from + 1);
        }
    }
}

/// What the first library candidate is: none exactly when no candidate is a
/// library, and otherwise the least candidate that is one.
proof fn lemma_first_lib(g: UnitGraph, path: Seq<Seq<char>>, from: int)
    requires
        from >= 0,
    ensures
        first_lib_candidate_from(g, path, from) is None <==> forall|j: int|
            from <= j < g.units@.len() && is_candidate(g, j, path) ==> !g.units@[j].spec_is_lib(),
        first_lib_candidate_from(g, path, from) matches Some(i) ==> {
            &&& from <= i < g.units@.len()
            &&& is_candidate(g, i, path)
            &&& g.units@[i].spec_is_lib()
            &&& forall|j: int|
                from <= j < i && is_candidate(g, j, path) ==> !g.units@[j].spec_is_lib()
        },
    decreases g.units@.len() - from,
{
    if from >= 0 && from < g.units@.len() {
        lemma_first_lib(g, path, from + 1);
    }
}

/// Locates the single compilation unit whose source tree contains `path`.
///
/// The unit returned is a candidate (its source-root directory is an
/// ancestor of `path`); with no candidate the result is `UnitNotFound`; a
/// sole candidate is returned whatever its kind; among several candidates
/// the least library target wins, and with no library among them the result
/// is `AmbiguousUnit`.
/// The parent directory of a unit's source-root file, as components.
fn unit_src_dir(u: &crate::graph::CompilationUnit) -> (dir: Vec<String>)
    requires
        u.src_root@.len() > 0,
    ensures
        dir.deep_view() == u.src_dir(),
{
    let mut dir: Vec<String> = Vec::new();
    let mut k: usize = 0;
    while k < u.src_root.len() - 1
        invariant
            u.src_root@.len() > 0,
            0 <= k <= u.src_root@.len() - 1,
            dir.deep_view() =~= u.src_root.deep_view().subrange(0, k as int),
        decreases u.src_root@.len() - 1 - k,
    {
        let ghost prev_dv = dir.deep_view();
        let ghost prev_v = dir@;
        let component = u.src_root[k].clone();
        proof {
            assert(component == u.src_root@[k as int]);
        }
        dir.push(component);
        proof {
            assert(prev_dv.len() == prev_v.len());
            assert(prev_dv.len() == k as int);
            assert(dir@ == prev_v.push(u.src_root@[k as int]));
            assert forall|j: int| 0 <= j < dir@.len() implies dir.deep_view()[j]
                == u.src_root.deep_view()[j] by {
                if j < k {
                    assert(dir@[j] == prev_v[j]);
                    assert(prev_dv[j] == prev_v[j].deep_view());
                    assert(prev_dv[j] == u.src_root.deep_view().subrange(0, k as int)[j]);
                } else {
                    assert(dir@[j] == u.src_root@[k as int]);
                }
            }
            assert(dir.deep_view() =~= u.src_root.deep_view().subrange(0, (k + 1) as int));
        }
        k += 1;
    }
    proof {
        assert(dir.deep_view() =~= u.src_root.deep_view().drop_last());
    }
    dir
}

pub fn locate(g: &UnitGraph, path: &Vec<String>) -> (r: Result<usize, SynthesisError>)
    requires
        g.wf(),
    ensures
        match r {
            Ok(i) => spec_locate(*g, path.deep_view()) == Ok::<int, SynthesisError>(i as int),
            Err(e) => spec_locate(*g, path.deep_view()) == Err::<int, SynthesisError>(e),
        },
        r matches Ok(i) ==> is_candidate(*g, i as int, path.deep_view()),
{
    let ghost pv = path.deep_view();
    let mut cands: Vec<usize> = Vec::new();
    let mut i: usize = 0;
    while i < g.units.len()
        invariant
            g.wf(),
            0 <= i <= g.units@.len(),
            // cands holds exactly the candidate indices below i, in increasing order
            forall|c: int| 0 <= c < cands@.len() ==> (#[trigger] cands@[c]) < i,
            forall|c: int|
                0 <= c < cands@.len() ==> is_candidate(*g, #[trigger] cands@[c] as int, pv),
            forall|j: int|
                0 <= j < i && is_candidate(*g, j, pv) ==> exists|c: int|
                    0 <= c < cands@.len() && cands@[c] == j,
            forall|c1: int, c2: int|
                #![trigger cands@[c1], cands@[c2]]
                0 <= c1 < c2 < cands@.len() ==> cands@[c1] < cands@[c2],
            pv == path.deep_view(),
        decreases g.units@.len() - i,
    {
        let u = &g.units[i];
        proof {
            assert(g.units@[i as int].wf());
        }
        let dir = unit_src_dir(u);
        if crate::paths::is_ancestor_of(&dir, path) {
            let ghost old_cands = cands@;
            cands.push(i);
            proof {
                assert forall|j: int| 0 <= j < i + 1 && is_candidate(*g, j, pv) implies exists|
                    c: int,
                |
                    0 <= c < cands@.len() && cands@[c] == j by {
                    if j == i {
                        assert(cands@[cands@.len() - 1] == i as usize);
                    } else {
                        let c = choose|c: int| 0 <= c < old_cands.len() && old_cands[c] == j;
                        assert(cands@[c] == j);
                    }
                }
            }
        }
        i += 1;
    }
    proof {
        lemma_count_matches(*g, pv, 0, cands@);
    }
    if cands.len() == 0 {
        proof {
            lemma_count_zero(*g, pv, 0);
        }
        return Err(SynthesisError::UnitNotFound);
    }
    if cands.len() == 1 {
        proof {
            lemma_count_one_unique(*g, pv, 0);
        }
        return Ok(cands[0]);
    }
    // several candidates: the least library target among them wins
    let mut c: usize = 0;
    while c < cands.len()
        invariant
            0 <= c <= cands@.len(),
            forall|j: int| 0 <= j < cands@.len() ==> (#[trigger] cands@[j]) < g.units@.len(),
            forall|j: int|
                0 <= j < cands@.len() ==> is_candidate(*g, #[trigger] cands@[j] as int, pv),
            forall|j: int|
                0 <= j < g.units@.len() && is_candidate(*g, j, pv) ==> exists|x: int|
                    0 <= x < cands@.len() && cands@[x] == j,
            forall|c1: int, c2: int|
                #![trigger cands@[c1], cands@[c2]]
                0 <= c1 < c2 < cands@.len() ==> cands@[c1] < cands@[c2],
            forall|j: int| 0 <= j < c ==> !g.units@[cands@[j] as int].spec_is_lib(),
            count_candidates_from(*g, pv, 0) == cands@.len(),
            cands@.len() >= 2,
            pv == path.deep_view(),
        decreases cands@.len() - c,
    {
        let idx = cands[c];
        if g.units[idx].is_lib() {
            proof {
                lemma_first_lib(*g, pv, 0);
                // every candidate below idx is in cands at a position below c,
                // hence not a library; so idx is the least library candidate
                assert forall|j: int| 0 <= j < idx && is_candidate(*g, j, pv) implies !g.units@[j].spec_is_lib() by {
                    let x = choose|x: int| 0 <= x < cands@.len() && cands@[x] == j;
                    assert(x < c) by {
                        if x > c {
                            assert(cands@[c as int] < cands@[x]);
                        }
                    }
                }
                assert(first_lib_candidate_from(*g, pv, 0) == Some(idx as int)) by {
                    let f = first_lib_candidate_from(*g, pv, 0);
                    if f is Some {
                        let fi = f->Some_0;
                        if fi < idx {
                            assert(!g.units@[fi].spec_is_lib());
                        } else if fi > idx {
                            assert(is_candidate(*g, idx as int, pv));
                            assert(g.units@[idx as int].spec_is_lib());
                        }
                    } else {
                        assert(is_candidate(*g, idx as int, pv));
                    }
                }
            }
            return Ok(idx);
        }
        c += 1;
    }
    proof {
        lemma_first_lib(*g, pv, 0);
        assert forall|j: int| 0 <= j < g.units@.len() && is_candidate(*g, j, pv) implies !g.units@[j].spec_is_lib() by {
            let x = choose|x: int| 0 <= x < cands@.len() && cands@[x] == j;
        }
    }
    Err(SynthesisError::AmbiguousUnit)
}

/// A strictly increasing list that holds exactly the candidate indices at
/// `from` or above has the candidate count as its length.
proof fn lemma_count_matches(g: UnitGraph, path: Seq<Seq<char>>, from: int, cands: Seq<usize>)
    requires
        from >= 0,
        forall|c: int| 0 <= c < cands.len() ==> from <= (#[trigger] cands[c]) < g.units@.len(),
        forall|c: int| 0 <= c < cands.len() ==> is_candidate(g, #[trigger] cands[c] as int, path),
        forall|j: int|
            from <= j < g.units@.len() && is_candidate(g, j, path) ==> exists|c: int|
                0 <= c < cands.len() && cands[c] == j,
        forall|c1: int, c2: int| #![trigger cands[c1], cands[c2]] 0 <= c1 < c2 < cands.len() ==> cands[c1] < cands[c2],
    ensures
        count_candidates_from(g, path, from) == cands.len(),
    decreases g.units@.len() - from,
{
    if from >= g.units@.len() {
        if cands.len() > 0 {
            assert(from <= cands[0] < g.units@.len());
        }
    } else {
        if is_candidate(g, from, path) {
            // `from` must be cands[0]
            let c0 = choose|c: int| 0 <= c < cands.len() && cands[c] == from;
            assert(c0 == 0) by {
                if c0 > 0 {
                    assert(cands[0] < cands[c0]);
                    assert(from <= cands[0]);
                }
            }
            let rest = cands.drop_first();
            assert forall|j: int|
                from + 1 <= j < g.units@.len() && is_candidate(g, j, path) implies exists|c: int|
                0 <= c < rest.len() && rest[c] == j by {
                let c = choose|c: int| 0 <= c < cands.len() && cands[c] == j;
                assert(c > 0) by {
                    if c == 0 {
                        assert(cands[0] == from);
                    }
                }
                assert(rest[c - 1] == j);
            }
            assert forall|c: int| 0 <= c < rest.len() implies from + 1 <= (#[trigger] rest[c])
                < g.units@.len() by {
                assert(rest[c] == cands[c + 1]);
                assert(cands[0] < cands[c + 1]);
            }
            lemma_count_matches(g, path, from + 1, rest);
        } else {
            assert forall|c: int| 0 <= c < cands.len() implies from + 1 <= (#[trigger] cands[c])
                < g.units@.len() by {
                if cands[c] == from {
                    assert(is_candidate(g, cands[c] as int, path));
                }
            }
            lemma_count_matches(g, path, from + 1, cands);
        }
    }
}

/// Inside a single unit's source tree the locator returns that unit: when
/// `i` is the one candidate for `path`, locating yields `i`, whatever the
/// unit's kind.
pub proof fn lemma_locate_sole_owner(g: UnitGraph, path: Seq<Seq<char>>, i: int)
    requires
        is_candidate(g, i, path),
        forall|j: int| 0 <= j < g.units@.len() && is_candidate(g, j, path) ==> j == i,
    ensures
        spec_locate(g, path) == Ok::<int, SynthesisError>(i),
{
    lemma_count_single(g, path, 0, i);
    lemma_count_one_unique(g, path, 0);
    let f = first_candidate_from(g, path, 0);
    lemma_first_candidate_is_candidate(g, path, 0);
}

/// Outside every unit's source tree the locator fails with `UnitNotFound`.
pub proof fn lemma_locate_outside(g: UnitGraph, path: Seq<Seq<char>>)
    requires
        forall|j: int| 0 <= j < g.units@.len() ==> !is_candidate(g, j, path),
    ensures
        spec_locate(g, path) == Err::<int, SynthesisError>(SynthesisError::UnitNotFound),
{
    lemma_count_zero(g, path, 0);
}

/// Whatever the candidates' place in the unit list, when one of them is a
/// library target and no other candidate is, the locator selects it.
pub proof fn lemma_locate_prefers_library(g: UnitGraph, path: Seq<Seq<char>>, i: int)
    requires
        is_candidate(g, i, path),
        g.units@[i].spec_is_lib(),
        forall|j: int|
            0 <= j < g.units@.len() && is_candidate(g, j, path) && g.units@[j].spec_is_lib() ==> j
                == i,
    ensures
        spec_locate(g, path) == Ok::<int, SynthesisError>(i),
{
    let n = count_candidates_from(g, path, 0);
    lemma_count_zero(g, path, 0);
    assert(n != 0);
    if n == 1 {
        lemma_count_one_unique(g, path, 0);
        lemma_first_candidate_is_candidate(g, path, 0);
    } else {
        lemma_first_lib(g, path, 0);
        let f = first_lib_candidate_from(g, path, 0);
        assert(f is Some) by {
            if f is None {
                assert(!g.units@[i].spec_is_lib());
            }
        }
    }
}

/// The first candidate, when there is one, is a candidate.
proof fn lemma_first_candidate_is_candidate(g: UnitGraph, path: Seq<Seq<char>>, from: int)
    ensures
        first_candidate_from(g, path, from) matches Some(i) ==> from <= i < g.units@.len()
            && is_candidate(g, i, path),
    decreases g.units@.len() - from,
{
    if from >= 0 && from < g.units@.len() {
        lemma_first_candidate_is_candidate(g, path, from + 1);
    }
}

/// When `i` is the only candidate at or above `from`, the count from there is
/// one.
proof fn lemma_count_single(g: UnitGraph, path: Seq<Seq<char>>, from: int, i: int)
    requires
        0 <= from <= i,
        is_candidate(g, i, path),
        forall|j: int| from <= j < g.units@.len() && is_candidate(g, j, path) ==> j == i,
    ensures
        count_candidates_from(g, path, from) == 1,
    decreases g.units@.len() - from,
{
    if from < g.units@.len() {
        if from == i {
            lemma_count_zero(g, path, from + 1);
        } else {
            lemma_count_single(g, path, from + 1, i);
        }
    }
}

} // verus!

use vstd::prelude::*;

verus! {

/// A filesystem path is modeled as its ordered list of components. An
/// absolute path's leading separator appears as an empty first component, so
/// joining the components with `/` reproduces the textual path.
///
/// `pre` names the requested path or one of its ancestors (equality included)
/// exactly when the components of `pre` are a prefix of those of `path`.
pub open spec fn is_component_prefix(pre: Seq<Seq<char>>, path: Seq<Seq<char>>) -> bool {
    pre.len() <= path.len() && pre == path.subrange(0, pre.len() as int)
}

/// The textual form of a component list: the components joined with `/`.
pub open spec fn joined(cs: Seq<Seq<char>>) -> Seq<char>
    decreases cs.len(),
{
    if cs.len() == 0 {
        Seq::empty()
    } else if cs.len() == 1 {
        cs[0]
    } else {
        joined(cs.drop_last()) + seq!['/'] + cs.last()
    }
}

/// Whether the directory `pre` lies on the chain of ancestors of `path`
/// (inclusive of equality), in the component model.
pub fn is_ancestor_of(pre: &Vec<String>, path: &Vec<String>) -> (r: bool)
    ensures
        r == is_component_prefix(pre.deep_view(), path.deep_view()),
{
    if pre.len() > path.len() {
        return false;
    }
    let mut i: usize = 0;
    while i < pre.len()
        invariant
            0 <= i <= pre.len(),
            pre.len() <= path.len(),
            forall|j: int| 0 <= j < i ==> pre.deep_view()[j] == path.deep_view()[j],
        decreases pre.len() - i,
    {
        if !equal_strings(&pre[i], &path[i]) {
            proof {
                let pv = pre.deep_view();
                let qv = path.deep_view();
                assert(pv[i as int] != qv.subrange(0, pv.len() as int)[i as int]);
            }
            return false;
        }
        i += 1;
    }
    proof {
        let pv = pre.deep_view();
        let qv = path.deep_view();
        assert(pv =~= qv.subrange(0, pv.len() as int));
    }
    true
}

/// String equality, decided over the views.
pub fn equal_strings(a: &String, b: &String) -> (r: bool)
    ensures
        r == (a@ == b@),
{
    a.eq(b)
}

/// Joins path components with `/` into the textual path.
pub fn join_components(cs: &Vec<String>) -> (r: String)
    ensures
        r@ == joined(cs.deep_view()),
{
    let mut r = String::new();
    let mut i: usize = 0;
    proof {
        reveal_strlit("/");
    }
    while i < cs.len()
        invariant
            0 <= i <= cs.len(),
            r@ == joined(cs.deep_view().subrange(0, i as int)),
            "/"@ == seq!['/'],
        decreases cs.len() - i,
    {
        if i > 0 {
            r.append("/");
        }
        r.append(cs[i].as_str());
        proof {
            let cv = cs.deep_view();
            let prefix = cv.subrange(0, i as int);
            let next = cv.subrange(0, i + 1 as int);
            assert(next.drop_last() =~= prefix);
            assert(next.last() == cv[i as int]);
            assert(r@ =~= joined(next));
        }
        i += 1;
    }
    proof {
        assert(cs.deep_view().subrange(0, cs.len() as int) =~= cs.deep_view());
    }
    r
}

} // verus!

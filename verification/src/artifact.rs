use crate::names::normalize_name;
use crate::names::normalized;
use vstd::prelude::*;

verus! {

/// The largest position of `c` in `s` strictly below `upto`, if any.
pub open spec fn last_index_below(s: Seq<char>, c: char, upto: int) -> Option<int>
    decreases upto,
{
    if upto <= 0 || upto > s.len() {
        None
    } else if s[upto - 1] == c {
        Some(upto - 1)
    } else {
        last_index_below(s, c, upto - 1)
    }
}

/// What parsing a file name against the compiled-metadata convention
/// `lib<package-name>-<hash>.<metadata extension>` yields: when the name
/// carries the `lib` prefix, the metadata extension, and a hyphen separating
/// a nonempty package name from a nonempty hash, the package name under the
/// host identifier convention; otherwise nothing. The hyphen taken is the
/// last one, since package names may themselves contain hyphens.
pub open spec fn spec_parse_artifact_name(s: Seq<char>) -> Option<Seq<char>> {
    let pre = "lib"@;
    let suf = ".rmeta"@;
    if s.len() >= pre.len() + suf.len() && s.subrange(0, pre.len() as int) == pre && s.subrange(
        s.len() - suf.len(),
        s.len() as int,
    ) == suf {
        let stem_end = s.len() - suf.len();
        match last_index_below(s, '-', stem_end as int) {
            Some(d) => {
                if d > pre.len() && stem_end - d > 1 {
                    Some(normalized(s.subrange(pre.len() as int, d)))
                } else {
                    None
                }
            },
            None => None,
        }
    } else {
        None
    }
}

/// Parses one directory entry's file name against the compiled-metadata
/// naming convention, yielding the normalized package name it encodes.
pub fn parse_artifact_name(s: &str) -> (r: Option<String>)
    ensures
        match r {
            Some(name) => spec_parse_artifact_name(s@) == Some(name@),
            None => spec_parse_artifact_name(s@) is None,
        },
{
    proof {
        reveal_strlit("lib");
        reveal_strlit(".rmeta");
    }
    let n = s.unicode_len();
    if n < 9 {
        return None;
    }
    if !(s.get_char(0) == 'l' && s.get_char(1) == 'i' && s.get_char(2) == 'b') {
        proof {
            let sub = s@.subrange(0, 3);
            assert(sub[0] == s@[0] && sub[1] == s@[1] && sub[2] == s@[2]);
            assert(sub != "lib"@) by {
                if sub == "lib"@ {
                    assert(sub[0] == "lib"@[0] && sub[1] == "lib"@[1] && sub[2] == "lib"@[2]);
                }
            }
        }
        return None;
    }
    let stem_end = n - 6;
    if !(s.get_char(stem_end) == '.' && s.get_char(stem_end + 1) == 'r' && s.get_char(
        stem_end + 2,
    ) == 'm' && s.get_char(stem_end + 3) == 'e' && s.get_char(stem_end + 4) == 't' && s.get_char(
        stem_end + 5,
    ) == 'a') {
        proof {
            let suf = ".rmeta"@;
            let sub = s@.subrange(n - 6, n as int);
            assert(forall|q: int| 0 <= q < 6 ==> (#[trigger] sub[q]) == s@[n - 6 + q]);
            assert(sub != suf) by {
                if sub == suf {
                    assert(sub[0] == suf[0] && sub[1] == suf[1] && sub[2] == suf[2] && sub[3]
                        == suf[3] && sub[4] == suf[4] && sub[5] == suf[5]);
                }
            }
        }
        return None;
    }
    proof {
        assert(s@.subrange(0, 3) =~= "lib"@);
        assert(s@.subrange(n - 6, n as int) =~= ".rmeta"@);
    }
    let mut i: usize = stem_end;
    while i > 0
        invariant
            0 <= i <= stem_end,
            stem_end <= s@.len(),
            n == s@.len(),
            stem_end == n - 6,
            ("lib"@).len() == 3,
            (".rmeta"@).len() == 6,
            s@.subrange(0, 3) == "lib"@,
            s@.subrange(n - 6, n as int) == ".rmeta"@,
            last_index_below(s@, '-', stem_end as int) == last_index_below(s@, '-', i as int),
        decreases i,
    {
        if s.get_char(i - 1) == '-' {
            let d = i - 1;
            proof {
                assert(last_index_below(s@, '-', i as int) == Some(d as int));
            }
            if d > 3 && stem_end - d > 1 {
                let pkg = s.substring_char(3, d);
                let name = normalize_name(pkg);
                proof {
                    assert(pkg@ =~= s@.subrange(3, d as int));
                }
                return Some(name);
            } else {
                return None;
            }
        }
        i -= 1;
    }
    proof {
        assert(last_index_below(s@, '-', 0int) is None);
    }
    None
}

/// The mapping a recorded entry list denotes: an entry recorded later wins
/// over an earlier one with the same name.
pub open spec fn pairs_map(entries: Seq<(Seq<char>, Seq<char>)>) -> Map<Seq<char>, Seq<char>>
    decreases entries.len(),
{
    if entries.len() == 0 {
        Map::empty()
    } else {
        pairs_map(entries.drop_last()).insert(entries.last().0, entries.last().1)
    }
}

/// Appended pairs take precedence: the mapping of `a + b` answers every key
/// of `b` as `b` alone does, and every other key as `a` alone does.
pub proof fn lemma_pairs_map_append(
    a: Seq<(Seq<char>, Seq<char>)>,
    b: Seq<(Seq<char>, Seq<char>)>,
    k: Seq<char>,
)
    ensures
        pairs_map(a + b).contains_key(k) <==> (pairs_map(a).contains_key(k) || pairs_map(
            b,
        ).contains_key(k)),
        pairs_map(b).contains_key(k) ==> pairs_map(a + b)[k] == pairs_map(b)[k],
        !pairs_map(b).contains_key(k) && pairs_map(a).contains_key(k) ==> pairs_map(a + b)[k]
            == pairs_map(a)[k],
    decreases b.len(),
{
    if b.len() == 0 {
        assert(a + b =~= a);
    } else {
        lemma_pairs_map_append(a, b.drop_last(), k);
        assert((a + b).drop_last() =~= a + b.drop_last());
        assert((a + b).last() == b.last());
    }
}

/// For a lookup key absent from the entries at position `i` and above, the
/// whole list and its prefix below `i` denote the same result.
proof fn lemma_pairs_map_skip(entries: Seq<(Seq<char>, Seq<char>)>, i: int, k: Seq<char>)
    requires
        0 <= i <= entries.len(),
        forall|j: int| i <= j < entries.len() ==> (#[trigger] entries[j]).0 != k,
    ensures
        pairs_map(entries).contains_key(k) == pairs_map(entries.subrange(0, i)).contains_key(k),
        pairs_map(entries).contains_key(k) ==> pairs_map(entries)[k] == pairs_map(
            entries.subrange(0, i),
        )[k],
    decreases entries.len() - i,
{
    if i == entries.len() {
        assert(entries.subrange(0, i) =~= entries);
    } else {
        let shorter = entries.drop_last();
        assert(entries.last().0 != k);
        assert forall|j: int| i <= j < shorter.len() implies (#[trigger] shorter[j]).0 != k by {
            assert(shorter[j] == entries[j]);
        }
        lemma_pairs_map_skip(shorter, i, k);
        assert(shorter.subrange(0, i) =~= entries.subrange(0, i));
    }
}

/// The index of compiled-metadata artifacts found in a build output
/// directory: normalized package name to artifact path.
pub struct ArtifactIndex {
    pub entries: Vec<(String, String)>,
}

impl View for ArtifactIndex {
    type V = Map<Seq<char>, Seq<char>>;

    open spec fn view(&self) -> Map<Seq<char>, Seq<char>> {
        pairs_map(self.entries.deep_view())
    }
}

impl ArtifactIndex {
    /// An empty index.
    pub fn new() -> (r: ArtifactIndex)
        ensures
            r@ == Map::<Seq<char>, Seq<char>>::empty(),
    {
        let r = ArtifactIndex { entries: Vec::new() };
        proof {
            assert(r.entries.deep_view() =~= Seq::<(Seq<char>, Seq<char>)>::empty());
        }
        r
    }

    /// Records one artifact, displacing any earlier record of the same name.
    pub fn record(&mut self, name: String, path: String)
        ensures
            final(self)@ == old(self)@.insert(name@, path@),
    {
        let ghost prev = self.entries.deep_view();
        let ghost prevv = self.entries@;
        self.entries.push((name, path));
        proof {
            assert(self.entries.deep_view() =~= prev.push((name@, path@)));
            assert(self.entries.deep_view().drop_last() =~= prev);
        }
    }

    /// Looks a normalized package name up, yielding the recorded path.
    pub fn get(&self, name: &String) -> (r: Option<&String>)
        ensures
            match r {
                Some(p) => self@.contains_key(name@) && self@[name@] == p@,
                None => !self@.contains_key(name@),
            },
    {
        let mut i: usize = self.entries.len();
        while i > 0
            invariant
                0 <= i <= self.entries@.len(),
                forall|j: int|
                    i <= j < self.entries@.len() ==> (#[trigger] self.entries.deep_view()[j]).0
                        != name@,
            decreases i,
        {
            if crate::paths::equal_strings(&self.entries[i - 1].0, name) {
                proof {
                    lemma_pairs_map_skip(self.entries.deep_view(), i as int, name@);
                    let pfx = self.entries.deep_view().subrange(0, i as int);
                    assert(pfx.drop_last() =~= self.entries.deep_view().subrange(0, i - 1));
                    assert(pfx.last() == self.entries.deep_view()[i - 1]);
                }
                return Some(&self.entries[i - 1].1);
            }
            i -= 1;
        }
        proof {
            lemma_pairs_map_skip(self.entries.deep_view(), 0, name@);
            assert(self.entries.deep_view().subrange(0, 0) =~= Seq::<(Seq<char>, Seq<char>)>::empty());
        }
        None
    }
}

/// The index a directory listing denotes: each entry whose file name parses
/// under the metadata naming convention is recorded, in listing order, so a
/// later entry for the same package displaces an earlier one.
pub open spec fn spec_build_index(files: Seq<(Seq<char>, Seq<char>)>) -> Map<Seq<char>, Seq<char>>
    decreases files.len(),
{
    if files.len() == 0 {
        Map::empty()
    } else {
        let m = spec_build_index(files.drop_last());
        match spec_parse_artifact_name(files.last().0) {
            Some(n) => m.insert(n, files.last().1),
            None => m,
        }
    }
}

/// Builds the artifact index from a directory listing of (file name, full
/// path) pairs, in listing order.
pub fn build_index(files: &Vec<(String, String)>) -> (r: ArtifactIndex)
    ensures
        r@ == spec_build_index(files.deep_view()),
{
    let mut r = ArtifactIndex::new();
    let mut i: usize = 0;
    while i < files.len()
        invariant
            0 <= i <= files@.len(),
            r@ == spec_build_index(files.deep_view().subrange(0, i as int)),
        decreases files@.len() - i,
    {
        let file_name = &files[i].0;
        match parse_artifact_name(file_name.as_str()) {
            Some(pkg) => {
                let path = files[i].1.clone();
                r.record(pkg, path);
            },
            None => {},
        }
        proof {
            let fv = files.deep_view();
            assert(fv.subrange(0, (i + 1) as int).drop_last() =~= fv.subrange(0, i as int));
            assert(fv.subrange(0, (i + 1) as int).last() == fv[i as int]);
            assert(fv[i as int].0 == file_name@);
        }
        i += 1;
    }
    proof {
        assert(files.deep_view().subrange(0, files@.len() as int) =~= files.deep_view());
    }
    r
}

} // verus!

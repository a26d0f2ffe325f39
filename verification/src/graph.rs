use crate::names::dec_rep;
use crate::names::u64_to_dec;
use vstd::prelude::*;

verus! {

/// One output kind a compilation unit can be built as.
#[derive(Debug, Clone, Copy, PartialEq, Eq, Structural)]
pub enum CrateKind {
    Lib,
    Rlib,
    Dylib,
    Cdylib,
    Staticlib,
    ProcMacro,
    Bin,
}

/// The token the output-kind flag carries for each kind.
pub open spec fn kind_token(k: CrateKind) -> Seq<char> {
    match k {
        CrateKind::Lib => "lib"@,
        CrateKind::Rlib => "rlib"@,
        CrateKind::Dylib => "dylib"@,
        CrateKind::Cdylib => "cdylib"@,
        CrateKind::Staticlib => "staticlib"@,
        CrateKind::ProcMacro => "proc-macro"@,
        CrateKind::Bin => "bin"@,
    }
}

/// Renders an output kind as its flag token.
pub fn kind_str(k: CrateKind) -> (r: &'static str)
    ensures
        r@ == kind_token(k),
{
    match k {
        CrateKind::Lib => "lib",
        CrateKind::Rlib => "rlib",
        CrateKind::Dylib => "dylib",
        CrateKind::Cdylib => "cdylib",
        CrateKind::Staticlib => "staticlib",
        CrateKind::ProcMacro => "proc-macro",
        CrateKind::Bin => "bin",
    }
}

/// A language edition marker.
#[derive(Debug, Clone, Copy, PartialEq, Eq, Structural)]
pub enum Edition {
    E2015,
    E2018,
    E2021,
    E2024,
}

/// The year token an edition is written as.
pub open spec fn edition_token(e: Edition) -> Seq<char> {
    match e {
        Edition::E2015 => "2015"@,
        Edition::E2018 => "2018"@,
        Edition::E2021 => "2021"@,
        Edition::E2024 => "2024"@,
    }
}

/// Renders an edition as its year token.
pub fn edition_str(e: Edition) -> (r: &'static str)
    ensures
        r@ == edition_token(e),
{
    match e {
        Edition::E2015 => "2015",
        Edition::E2018 => "2018",
        Edition::E2021 => "2021",
        Edition::E2024 => "2024",
    }
}

/// A package version, held as its three numeric components.
#[derive(Debug, Clone, Copy, PartialEq, Eq, Structural)]
pub struct Version {
    pub major: u64,
    pub minor: u64,
    pub patch: u64,
}

/// The textual `major.minor.patch` form of a version.
pub open spec fn version_rep(v: Version) -> Seq<char> {
    dec_rep(v.major as nat) + seq!['.'] + dec_rep(v.minor as nat) + seq!['.'] + dec_rep(
        v.patch as nat,
    )
}

impl Version {
    /// Renders the version as `major.minor.patch`.
    pub fn render(&self) -> (r: String)
        ensures
            r@ == version_rep(*self),
    {
        proof {
            reveal_strlit(".");
        }
        let mut r = u64_to_dec(self.major);
        r.append(".");
        let minor = u64_to_dec(self.minor);
        r.append(minor.as_str());
        r.append(".");
        let patch = u64_to_dec(self.patch);
        r.append(patch.as_str());
        proof {
            assert(r@ =~= version_rep(*self));
        }
        r
    }
}

/// One buildable target of a package, with everything the synthesis needs to
/// know of it: its identity, what it is built as, where its source tree
/// starts, its dialect, its enabled features, and which other units it
/// depends on (as indices into the owning graph).
#[derive(Debug, Clone)]
pub struct CompilationUnit {
    /// The owning package's name, as the orchestrator spells it (hyphens
    /// allowed).
    pub pkg_name: String,
    /// The owning package's version.
    pub version: Version,
    /// The target's crate name (the unit-name flag's value).
    pub crate_name: String,
    /// The declared output kinds; never empty. Only the first is used for the
    /// output-kind flag, a deliberate, known limitation for multi-kind
    /// targets.
    pub kinds: Vec<CrateKind>,
    /// The components of the path to the target's source-root file.
    pub src_root: Vec<String>,
    /// The language edition the target declares.
    pub edition: Edition,
    /// The enabled feature names, each listed once.
    pub features: Vec<String>,
    /// The units this unit depends on, as indices into the graph.
    pub deps: Vec<usize>,
}

impl CompilationUnit {
    /// A unit is well formed when its source root names a file (so it has a
    /// parent directory), it declares at least one output kind, and its
    /// features are listed without repetition.
    pub open spec fn wf(self) -> bool {
        &&& self.src_root@.len() > 0
        &&& self.kinds@.len() > 0
        &&& self.features.deep_view().no_duplicates()
    }

    /// The directory holding the unit's source tree: the parent of its
    /// source-root file.
    pub open spec fn src_dir(self) -> Seq<Seq<char>> {
        self.src_root.deep_view().drop_last()
    }

    /// Whether the unit's declared kinds include the library output kind.
    pub open spec fn spec_is_lib(self) -> bool {
        exists|k: int| 0 <= k < self.kinds@.len() && self.kinds@[k] == CrateKind::Lib
    }

    /// Whether the unit is a library target.
    pub fn is_lib(&self) -> (r: bool)
        ensures
            r == self.spec_is_lib(),
    {
        let mut k: usize = 0;
        while k < self.kinds.len()
            invariant
                0 <= k <= self.kinds@.len(),
                forall|j: int| 0 <= j < k ==> self.kinds@[j] != CrateKind::Lib,
            decreases self.kinds@.len() - k,
        {
            if self.kinds[k] == CrateKind::Lib {
                return true;
            }
            k += 1;
        }
        false
    }
}

/// The whole compilation-unit graph of one synthesis request: every unit the
/// orchestrator would build, plus the indices of the root units it would
/// build directly.
#[derive(Debug, Clone)]
pub struct UnitGraph {
    pub units: Vec<CompilationUnit>,
    pub roots: Vec<usize>,
}

impl UnitGraph {
    /// A graph is well formed when every unit is, every dependency reference
    /// resolves to a unit of the graph, and every root index does too.
    pub open spec fn wf(self) -> bool {
        &&& forall|i: int| 0 <= i < self.units@.len() ==> (#[trigger] self.units@[i]).wf()
        &&& forall|i: int, d: int|
            0 <= i < self.units@.len() && 0 <= d < self.units@[i].deps@.len() ==> (
            #[trigger] self.units@[i].deps@[d]) < self.units@.len()
        &&& forall|r: int| 0 <= r < self.roots@.len() ==> (#[trigger] self.roots@[r]) < self.units@.len()
    }
}

} // verus!

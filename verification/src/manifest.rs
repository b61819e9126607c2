//! The in-memory model of a manifest: packages, dependencies, workspaces,
//! and the error taxonomy shared by the parser and the member resolver.

use vstd::prelude::*;

verus! {

/// The identity of a single buildable unit.
#[derive(Debug)]
pub struct Package {
    pub name: String,
}

/// A dependency declaration, decoded positionally from the manifest text:
/// a bare string becomes `Simple`, a key/value table becomes `Detailed`.
///
/// Only the keys of a detailed table bear on the analysis (a `path` or
/// `workspace` key marks the declaration as a local or centralized
/// reference), so the keys are what the model keeps.
#[derive(Debug)]
pub enum Dependency {
    /// A bare version-requirement string.
    Simple(String),
    /// The keys of a key/value dependency table, in declaration order.
    Detailed(Vec<String>),
}

/// A dependency table: names mapped to declarations, in declaration order.
pub type DepTable = Vec<(String, Dependency)>;

/// A workspace section: member patterns and the optional central table.
#[derive(Debug)]
pub struct Workspace {
    pub members: Vec<String>,
    pub dependencies: Option<DepTable>,
}

/// A whole manifest: it may describe a workspace root, a package, or both.
#[derive(Debug)]
pub struct CargoToml {
    pub workspace: Option<Workspace>,
    pub package: Option<Package>,
    pub dependencies: Option<DepTable>,
}

/// Everything that can go wrong while loading, parsing, or resolving.
#[derive(Debug)]
pub enum AuditError {
    /// A manifest file that had to exist could not be read; holds the
    /// member pattern whose manifest was missing.
    IoError(String),
    /// The manifest text was malformed, or a recognized key held a value
    /// of the wrong type; holds a description of the fault.
    ParseError(String),
    /// A wildcard-discovered manifest declares dependencies but no
    /// package name to record them under; holds the directory name.
    MissingRequiredField(String),
}

/// Does the list of strings contain one whose characters are `name`?
pub open spec fn has_key(keys: Seq<String>, name: Seq<char>) -> bool {
    exists|i: int| 0 <= i < keys.len() && keys[i]@ == name
}

/// Are the strings in the list pairwise distinct?
pub open spec fn keys_distinct(keys: Seq<String>) -> bool {
    forall|i: int, j: int| 0 <= i < j < keys.len() ==> keys[i]@ != keys[j]@
}

/// A dependency pins a version independently unless it is a detailed
/// table carrying a `path` or `workspace` key, which denotes a local or
/// intentionally centralized reference.
pub open spec fn is_independent_pin(d: Dependency) -> bool {
    match d {
        Dependency::Simple(_) => true,
        Dependency::Detailed(keys) => !has_key(keys@, "path"@) && !has_key(keys@, "workspace"@),
    }
}

/// Does the dependency table declare the name `n`?
pub open spec fn table_has(deps: Seq<(String, Dependency)>, n: Seq<char>) -> bool {
    exists|i: int| 0 <= i < deps.len() && deps[i].0@ == n
}

/// Are the names of the table pairwise distinct?
pub open spec fn names_distinct(deps: Seq<(String, Dependency)>) -> bool {
    forall|i: int, j: int| 0 <= i < j < deps.len() ==> deps[i].0@ != deps[j].0@
}

/// An optional dependency table, seen as empty when absent.
pub open spec fn opt_deps(o: Option<DepTable>) -> Seq<(String, Dependency)> {
    match o {
        Some(d) => d@,
        None => Seq::empty(),
    }
}

/// The workspace-level dependency table, empty when none is declared.
pub open spec fn workspace_deps(w: Workspace) -> Seq<(String, Dependency)> {
    match w.dependencies {
        Some(d) => d@,
        None => Seq::empty(),
    }
}

impl Workspace {
    /// Dependency names are unique within the central table.
    pub open spec fn wf(&self) -> bool {
        match self.dependencies {
            Some(d) => names_distinct(d@),
            None => true,
        }
    }
}

impl CargoToml {
    /// Dependency names are unique within each table of the manifest.
    pub open spec fn wf(&self) -> bool {
        &&& match self.dependencies {
            Some(d) => names_distinct(d@),
            None => true,
        }
        &&& match self.workspace {
            Some(w) => w.wf(),
            None => true,
        }
    }
}

/// Appending one string to a list adds exactly that name to its key set.
pub proof fn lemma_has_key_push(keys: Seq<String>, x: String, n: Seq<char>)
    ensures
        has_key(keys.push(x), n) <==> (has_key(keys, n) || x@ == n),
{
    if has_key(keys.push(x), n) {
        let i = choose|i: int| 0 <= i < keys.push(x).len() && keys.push(x)[i]@ == n;
        if i < keys.len() {
            assert(keys[i]@ == n);
        } else {
            assert(x@ == n);
        }
    }
    if has_key(keys, n) {
        let i = choose|i: int| 0 <= i < keys.len() && keys[i]@ == n;
        assert(keys.push(x)[i]@ == n);
    }
    if x@ == n {
        assert(keys.push(x)[keys.len() as int]@ == n);
    }
}

/// Does `keys` contain the string `target`?
pub fn keys_contain(keys: &Vec<String>, target: &String) -> (r: bool)
    ensures
        r == has_key(keys@, target@),
{
    let mut i: usize = 0;
    while i < keys.len()
        invariant
            i <= keys@.len(),
            forall|j: int| 0 <= j < i ==> keys@[j]@ != target@,
        decreases keys@.len() - i,
    {
        if keys[i] == *target {
            return true;
        }
        i += 1;
    }
    false
}

/// Is this dependency an independent version pin?
pub fn dep_is_independent(d: &Dependency) -> (r: bool)
    ensures
        r == is_independent_pin(*d),
{
    match d {
        Dependency::Simple(_) => true,
        Dependency::Detailed(keys) => {
            let path_key: String = "path".to_owned();
            let workspace_key: String = "workspace".to_owned();
            !keys_contain(keys, &path_key) && !keys_contain(keys, &workspace_key)
        },
    }
}

/// Does the dependency table declare the name `n`?
pub fn table_contains(deps: &DepTable, n: &String) -> (r: bool)
    ensures
        r == table_has(deps@, n@),
{
    let mut i: usize = 0;
    while i < deps.len()
        invariant
            i <= deps@.len(),
            forall|j: int| 0 <= j < i ==> deps@[j].0@ != n@,
        decreases deps@.len() - i,
    {
        if deps[i].0 == *n {
            return true;
        }
        i += 1;
    }
    false
}

} // verus!

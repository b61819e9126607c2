//! General properties of the analysis, stated and proved once for every
//! input: what an empty workspace reports, which declarations can never
//! be reported, when a name is guaranteed to be reported, what a wildcard
//! listing may skip, and that classification is a function of a detailed
//! table's keys alone.

use vstd::prelude::*;

use crate::analyze::independent_count;
use crate::analyze::is_duplicate;
use crate::analyze::members_count;
use crate::manifest::DepTable;
use crate::manifest::Dependency;
use crate::manifest::Workspace;
use crate::manifest::CargoToml;
use crate::manifest::has_key;
use crate::manifest::is_independent_pin;
use crate::manifest::workspace_deps;
use crate::parse::doc_find;
use crate::parse::manifest_decodes;
use crate::parse::manifest_matches;
use crate::toml_doc::TomlDoc;
use crate::resolve::MemberSource;
use crate::resolve::all_yield;
use crate::resolve::entry_fails;
use crate::resolve::entry_yield;
use crate::resolve::resolved_map;
use crate::resolve::DirEntry;

verus! {

proof fn lemma_independent_count_zero(deps: Seq<(String, Dependency)>, n: Seq<char>)
    requires
        forall|j: int|
            0 <= j < deps.len() && deps[j].0@ == n ==> !is_independent_pin(#[trigger] deps[j].1),
    ensures
        independent_count(deps, n) == 0,
    decreases deps.len(),
{
    if deps.len() > 0 {
        assert forall|j: int|
            0 <= j < deps.drop_first().len() && deps.drop_first()[j].0@ == n implies
            !is_independent_pin(#[trigger] deps.drop_first()[j].1) by {
            assert(deps.drop_first()[j] == deps[j + 1]);
        }
        lemma_independent_count_zero(deps.drop_first(), n);
    }
}

proof fn lemma_members_count_zero(members: Seq<(String, DepTable)>, n: Seq<char>)
    requires
        forall|k: int, j: int|
            0 <= k < members.len() && 0 <= j < members[k].1@.len() && members[k].1@[j].0@ == n
                ==> !is_independent_pin(#[trigger] members[k].1@[j].1),
    ensures
        members_count(members, n) == 0,
    decreases members.len(),
{
    if members.len() > 0 {
        lemma_independent_count_zero(members[0].1@, n);
        assert forall|k: int, j: int|
            0 <= k < members.drop_first().len() && 0 <= j < members.drop_first()[k].1@.len()
                && members.drop_first()[k].1@[j].0@ == n implies !is_independent_pin(
            #[trigger] members.drop_first()[k].1@[j].1,
        ) by {
            assert(members.drop_first()[k] == members[k + 1]);
        }
        lemma_members_count_zero(members.drop_first(), n);
    }
}

proof fn lemma_independent_count_at_least_one(deps: Seq<(String, Dependency)>, n: Seq<char>, j: int)
    requires
        0 <= j < deps.len(),
        deps[j].0@ == n,
        is_independent_pin(deps[j].1),
    ensures
        independent_count(deps, n) >= 1,
    decreases deps.len(),
{
    if j > 0 {
        assert(deps.drop_first()[j - 1] == deps[j]);
        lemma_independent_count_at_least_one(deps.drop_first(), n, j - 1);
    }
}

proof fn lemma_members_count_at_least_one(
    members: Seq<(String, DepTable)>,
    n: Seq<char>,
    k: int,
    j: int,
)
    requires
        0 <= k < members.len(),
        0 <= j < members[k].1@.len(),
        members[k].1@[j].0@ == n,
        is_independent_pin(members[k].1@[j].1),
    ensures
        members_count(members, n) >= 1,
    decreases members.len(),
{
    if k == 0 {
        lemma_independent_count_at_least_one(members[0].1@, n, j);
    } else {
        assert(members.drop_first()[k - 1] == members[k]);
        lemma_members_count_at_least_one(members.drop_first(), n, k - 1, j);
    }
}

/// A workspace with an empty member list reports nothing, whatever its
/// central dependency table holds.
pub proof fn lemma_empty_members_no_duplicates(
    w: Workspace,
    sources: Seq<MemberSource>,
    n: Seq<char>,
)
    requires
        w.members@.len() == 0,
        sources.len() == 0,
    ensures
        !is_duplicate(workspace_deps(w), resolved_map(w.members@, sources), n),
{
    assert(all_yield(w.members@, sources) =~= Seq::<(String, DepTable)>::empty());
    assert(resolved_map(w.members@, sources) =~= Seq::<(String, DepTable)>::empty());
    assert(members_count(Seq::<(String, DepTable)>::empty(), n) == 0);
}

/// A dependency that every member references only through a
/// workspace-inheritance marker is never reported: its count stays at the
/// central seed.
pub proof fn lemma_workspace_inherited_not_reported(
    wdeps: Seq<(String, Dependency)>,
    members: Seq<(String, DepTable)>,
    n: Seq<char>,
)
    requires
        forall|k: int, j: int|
            0 <= k < members.len() && 0 <= j < members[k].1@.len() && members[k].1@[j].0@ == n
                ==> ((#[trigger] members[k].1@[j].1) matches Dependency::Detailed(ks) && has_key(
                ks@,
                "workspace"@,
            )),
    ensures
        !is_duplicate(wdeps, members, n),
{
    assert forall|k: int, j: int|
        0 <= k < members.len() && 0 <= j < members[k].1@.len() && members[k].1@[j].0@ == n
            implies !is_independent_pin(#[trigger] members[k].1@[j].1) by {
    }
    lemma_members_count_zero(members, n);
}

/// A dependency that is a path-only reference in every member is never
/// reported, however many members declare it.
pub proof fn lemma_path_reference_not_reported(
    wdeps: Seq<(String, Dependency)>,
    members: Seq<(String, DepTable)>,
    n: Seq<char>,
)
    requires
        forall|k: int, j: int|
            0 <= k < members.len() && 0 <= j < members[k].1@.len() && members[k].1@[j].0@ == n
                ==> ((#[trigger] members[k].1@[j].1) matches Dependency::Detailed(ks) && has_key(
                ks@,
                "path"@,
            )),
    ensures
        !is_duplicate(wdeps, members, n),
{
    assert forall|k: int, j: int|
        0 <= k < members.len() && 0 <= j < members[k].1@.len() && members[k].1@[j].0@ == n
            implies !is_independent_pin(#[trigger] members[k].1@[j].1) by {
    }
    lemma_members_count_zero(members, n);
}

/// Two distinct members that each pin a name independently make that name
/// a duplicate, whether or not the central table declares it.
pub proof fn lemma_two_independent_pins_reported(
    wdeps: Seq<(String, Dependency)>,
    members: Seq<(String, DepTable)>,
    n: Seq<char>,
    k1: int,
    j1: int,
    k2: int,
    j2: int,
)
    requires
        0 <= k1 < k2 < members.len(),
        0 <= j1 < members[k1].1@.len(),
        members[k1].1@[j1].0@ == n,
        is_independent_pin(members[k1].1@[j1].1),
        0 <= j2 < members[k2].1@.len(),
        members[k2].1@[j2].0@ == n,
        is_independent_pin(members[k2].1@[j2].1),
    ensures
        is_duplicate(wdeps, members, n),
    decreases members.len(),
{
    if k1 == 0 {
        lemma_independent_count_at_least_one(members[0].1@, n, j1);
        assert(members.drop_first()[k2 - 1] == members[k2]);
        lemma_members_count_at_least_one(members.drop_first(), n, k2 - 1, j2);
    } else {
        assert(members.drop_first()[k1 - 1] == members[k1]);
        assert(members.drop_first()[k2 - 1] == members[k2]);
        lemma_two_independent_pins_reported(
            wdeps,
            members.drop_first(),
            n,
            k1 - 1,
            j1,
            k2 - 1,
            j2,
        );
    }
}

/// A wildcard listing entry that is a plain file, a symbolic link, not a
/// directory, or a directory without a manifest contributes nothing to
/// the member map and causes no error.
pub proof fn lemma_wildcard_skips_irrelevant_entries(e: DirEntry)
    requires
        e.is_file || e.is_symlink || !e.is_dir || e.manifest is None,
    ensures
        entry_yield(e) =~= Seq::<(String, DepTable)>::empty(),
        !entry_fails(e),
{
}

/// Unknown top-level keys are ignored: two documents that agree on the
/// three recognized keys — and may differ in any others — decode
/// identically, both in whether they decode and in what they decode to.
pub proof fn lemma_unknown_keys_ignored(
    a: Seq<(String, TomlDoc)>,
    b: Seq<(String, TomlDoc)>,
    m: CargoToml,
)
    requires
        doc_find(a, "workspace"@) == doc_find(b, "workspace"@),
        doc_find(a, "package"@) == doc_find(b, "package"@),
        doc_find(a, "dependencies"@) == doc_find(b, "dependencies"@),
    ensures
        manifest_decodes(a) == manifest_decodes(b),
        manifest_matches(a, m) == manifest_matches(b, m),
{
}

proof fn lemma_has_key_by_views(ka: Seq<String>, kb: Seq<String>, n: Seq<char>)
    requires
        ka.map_values(|k: String| k@) == kb.map_values(|k: String| k@),
    ensures
        has_key(ka, n) == has_key(kb, n),
{
    let va = ka.map_values(|k: String| k@);
    let vb = kb.map_values(|k: String| k@);
    assert(va.len() == ka.len());
    assert(vb.len() == kb.len());
    if has_key(ka, n) {
        let i = choose|i: int| 0 <= i < ka.len() && ka[i]@ == n;
        assert(vb[i] == kb[i]@);
        assert(va[i] == ka[i]@);
        assert(kb[i]@ == n);
    }
    if has_key(kb, n) {
        let i = choose|i: int| 0 <= i < kb.len() && kb[i]@ == n;
        assert(vb[i] == kb[i]@);
        assert(va[i] == ka[i]@);
        assert(ka[i]@ == n);
    }
}

/// Classification is a function of a detailed table's keys alone: a table
/// decoded from manifest text and one built directly, with the same keys,
/// are classified identically as independent pins or central references.
pub proof fn lemma_classification_by_keys(a: Dependency, b: Dependency)
    requires
        a matches Dependency::Detailed(ka) && b matches Dependency::Detailed(kb)
            && ka@.map_values(|k: String| k@) == kb@.map_values(|k: String| k@),
    ensures
        is_independent_pin(a) == is_independent_pin(b),
{
    let ka = a->Detailed_0;
    let kb = b->Detailed_0;
    lemma_has_key_by_views(ka@, kb@, "path"@);
    lemma_has_key_by_views(ka@, kb@, "workspace"@);
}

} // verus!

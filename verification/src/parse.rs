//! The manifest parser: decodes the mirrored TOML document of a manifest
//! into the library's model. A bare string becomes a `Simple` dependency,
//! a table becomes a `Detailed` one, any other value under a recognized
//! key is a parse error; unknown keys are ignored. The whole result is
//! fixed by `doc_of(text)`: the spec functions below say exactly which
//! documents decode and what they decode to.

use vstd::prelude::*;

use crate::manifest::AuditError;
use crate::manifest::CargoToml;
use crate::manifest::DepTable;
use crate::manifest::Dependency;
use crate::manifest::Package;
use crate::manifest::Workspace;
use crate::manifest::names_distinct;
use crate::toml_doc::TomlDoc;
use crate::toml_doc::doc_node_wf;
use crate::toml_doc::doc_of;
use crate::toml_doc::doc_pairs_wf;
use crate::toml_doc::parse_document;
use crate::toml_doc::toml_error_message;

verus! {

/// The value recorded first under `key`, if any.
pub open spec fn doc_find(ps: Seq<(String, TomlDoc)>, key: Seq<char>) -> Option<TomlDoc>
    decreases ps.len(),
{
    if ps.len() == 0 {
        None
    } else if ps[0].0@ == key {
        Some(ps[0].1)
    } else {
        doc_find(ps.drop_first(), key)
    }
}

/// A dependency value decodes when it is a string or a table.
pub open spec fn dep_decodes(v: TomlDoc) -> bool {
    v is Str || v is Table
}

/// The dependency `d` is the decoding of the document value `v`: a bare
/// string becomes the `Simple` variant holding it, a table becomes the
/// `Detailed` variant holding exactly its keys.
pub open spec fn dep_matches(v: TomlDoc, d: Dependency) -> bool {
    match v {
        TomlDoc::Str(s) => d matches Dependency::Simple(s2) && s2@ == s@,
        TomlDoc::Table(ps) => d matches Dependency::Detailed(ks) && ks@.len() == ps@.len() && (
        forall|i: int| 0 <= i < ps@.len() ==> ks@[i]@ == ps@[i].0@),
        TomlDoc::Arr(_) => false,
        TomlDoc::Other => false,
    }
}

/// A dependency table decodes when every value does.
pub open spec fn dep_table_decodes(ps: Seq<(String, TomlDoc)>) -> bool {
    forall|i: int| 0 <= i < ps.len() ==> dep_decodes(#[trigger] ps[i].1)
}

/// The table `d` is the decoding of the document pairs `ps`, pair by
/// pair, the names carried over unchanged.
pub open spec fn dep_table_matches(
    ps: Seq<(String, TomlDoc)>,
    d: Seq<(String, Dependency)>,
) -> bool {
    &&& d.len() == ps.len()
    &&& forall|i: int|
        0 <= i < ps.len() ==> (#[trigger] d[i]).0@ == ps[i].0@ && dep_matches(ps[i].1, d[i].1)
}

/// A member list decodes when every element is a string.
pub open spec fn members_decode(vs: Seq<TomlDoc>) -> bool {
    forall|i: int| 0 <= i < vs.len() ==> (#[trigger] vs[i]) is Str
}

/// The patterns `ms` are the decoding of the array elements `vs`.
pub open spec fn members_match(vs: Seq<TomlDoc>, ms: Seq<String>) -> bool {
    &&& ms.len() == vs.len()
    &&& forall|i: int|
        0 <= i < vs.len() ==> ((#[trigger] vs[i]) matches TomlDoc::Str(s) && ms[i]@ == s@)
}

/// A workspace section decodes when its required member list is an array
/// of strings and its optional dependency table decodes.
pub open spec fn workspace_decodes(ps: Seq<(String, TomlDoc)>) -> bool {
    &&& (doc_find(ps, "members"@) matches Some(mv) && mv matches TomlDoc::Arr(vs)
        && members_decode(vs@))
    &&& match doc_find(ps, "dependencies"@) {
        None => true,
        Some(dv) => dv matches TomlDoc::Table(dps) && dep_table_decodes(dps@),
    }
}

/// The workspace `w` is the decoding of the section pairs `ps`.
pub open spec fn workspace_matches(ps: Seq<(String, TomlDoc)>, w: Workspace) -> bool {
    &&& (doc_find(ps, "members"@) matches Some(mv) && mv matches TomlDoc::Arr(vs)
        && members_match(vs@, w.members@))
    &&& match doc_find(ps, "dependencies"@) {
        None => w.dependencies is None,
        Some(dv) => dv matches TomlDoc::Table(dps) && w.dependencies matches Some(d)
            && dep_table_matches(dps@, d@),
    }
}

/// A package section decodes when its required name is a string.
pub open spec fn package_decodes(ps: Seq<(String, TomlDoc)>) -> bool {
    doc_find(ps, "name"@) matches Some(nv) && nv is Str
}

/// The package `p` is the decoding of the section pairs `ps`.
pub open spec fn package_matches(ps: Seq<(String, TomlDoc)>, p: Package) -> bool {
    doc_find(ps, "name"@) matches Some(nv) && nv matches TomlDoc::Str(s) && p.name@ == s@
}

/// A document decodes when each recognized top-level key — workspace,
/// package, dependencies — is absent or holds a section of the right
/// shape; every other key is ignored.
pub open spec fn manifest_decodes(top: Seq<(String, TomlDoc)>) -> bool {
    &&& match doc_find(top, "workspace"@) {
        None => true,
        Some(v) => v matches TomlDoc::Table(ps) && workspace_decodes(ps@),
    }
    &&& match doc_find(top, "package"@) {
        None => true,
        Some(v) => v matches TomlDoc::Table(ps) && package_decodes(ps@),
    }
    &&& match doc_find(top, "dependencies"@) {
        None => true,
        Some(v) => v matches TomlDoc::Table(ps) && dep_table_decodes(ps@),
    }
}

/// The manifest `m` is the decoding of the document `top`: each field is
/// `None` exactly when its key is absent, and otherwise mirrors the
/// section's content.
pub open spec fn manifest_matches(top: Seq<(String, TomlDoc)>, m: CargoToml) -> bool {
    &&& match doc_find(top, "workspace"@) {
        None => m.workspace is None,
        Some(v) => v matches TomlDoc::Table(ps) && m.workspace matches Some(w)
            && workspace_matches(ps@, w),
    }
    &&& match doc_find(top, "package"@) {
        None => m.package is None,
        Some(v) => v matches TomlDoc::Table(ps) && m.package matches Some(p) && package_matches(
            ps@,
            p,
        ),
    }
    &&& match doc_find(top, "dependencies"@) {
        None => m.dependencies is None,
        Some(v) => v matches TomlDoc::Table(ps) && m.dependencies matches Some(d)
            && dep_table_matches(ps@, d@),
    }
}

/// The position of the pair recorded first under `key`, if any.
fn find_key(pairs: &Vec<(String, TomlDoc)>, key: &String) -> (r: Option<usize>)
    ensures
        r matches Some(i) ==> i < pairs@.len() && pairs@[i as int].0@ == key@ && doc_find(
            pairs@,
            key@,
        ) == Some(pairs@[i as int].1),
        r is None ==> doc_find(pairs@, key@) is None,
{
    let ghost whole = pairs@;
    let mut i: usize = 0;
    proof {
        assert(whole.skip(0) =~= whole);
    }
    while i < pairs.len()
        invariant
            whole == pairs@,
            i <= whole.len(),
            doc_find(whole, key@) == doc_find(whole.skip(i as int), key@),
        decreases whole.len() - i,
    {
        proof {
            assert(whole.skip(i as int)[0] == whole[i as int]);
            assert(whole.skip(i as int).drop_first() =~= whole.skip(i as int + 1));
        }
        if pairs[i].0 == *key {
            proof {
                assert(doc_find(whole.skip(i as int), key@) == Some(whole[i as int].1));
            }
            return Some(i);
        }
        i += 1;
    }
    proof {
        assert(whole.skip(whole.len() as int) =~= Seq::<(String, TomlDoc)>::empty());
        assert(doc_find(whole.skip(whole.len() as int), key@) is None);
    }
    None
}

/// The keys of a table's pairs, in order.
fn keys_of(ps: &Vec<(String, TomlDoc)>) -> (r: Vec<String>)
    ensures
        r@.len() == ps@.len(),
        forall|i: int| 0 <= i < r@.len() ==> r@[i]@ == ps@[i].0@,
{
    let mut r: Vec<String> = Vec::new();
    let mut i: usize = 0;
    while i < ps.len()
        invariant
            i <= ps@.len(),
            r@.len() == i,
            forall|j: int| 0 <= j < i ==> r@[j]@ == ps@[j].0@,
        decreases ps@.len() - i,
    {
        r.push(ps[i].0.clone());
        i += 1;
    }
    r
}

/// Decode one dependency value, positionally: a bare string becomes a
/// `Simple` pin, a table becomes `Detailed` and keeps its keys, and any
/// other kind of value is rejected.
pub fn decode_dep(v: &TomlDoc) -> (r: Result<Dependency, AuditError>)
    ensures
        (r matches Ok(_)) <==> dep_decodes(*v),
        r matches Ok(d) ==> dep_matches(*v, d),
        r matches Err(e) ==> e matches AuditError::ParseError(_),
{
    match v {
        TomlDoc::Str(s) => Ok(Dependency::Simple(s.clone())),
        TomlDoc::Table(inner) => Ok(Dependency::Detailed(keys_of(inner))),
        TomlDoc::Arr(_) => Err(
            AuditError::ParseError("a dependency must be a version string or a table".to_owned()),
        ),
        TomlDoc::Other => Err(
            AuditError::ParseError("a dependency must be a version string or a table".to_owned()),
        ),
    }
}

/// Decode a dependency table: each pair becomes a named dependency, in
/// order, the names carried over unchanged.
fn decode_deps(ps: &Vec<(String, TomlDoc)>) -> (r: Result<DepTable, AuditError>)
    ensures
        (r matches Ok(_)) <==> dep_table_decodes(ps@),
        r matches Ok(d) ==> dep_table_matches(ps@, d@),
        r matches Err(e) ==> e matches AuditError::ParseError(_),
{
    let mut d: DepTable = Vec::new();
    let mut i: usize = 0;
    while i < ps.len()
        invariant
            i <= ps@.len(),
            d@.len() == i,
            forall|j: int|
                0 <= j < i ==> (#[trigger] d@[j]).0@ == ps@[j].0@ && dep_matches(
                    ps@[j].1,
                    d@[j].1,
                ),
        decreases ps@.len() - i,
    {
        let name = ps[i].0.clone();
        match decode_dep(&ps[i].1) {
            Ok(dep) => {
                d.push((name, dep));
            },
            Err(e) => {
                proof {
                    assert(!dep_decodes(ps@[i as int].1));
                }
                return Err(e);
            },
        }
        i += 1;
    }
    proof {
        assert forall|i: int| 0 <= i < ps@.len() implies dep_decodes(#[trigger] ps@[i].1) by {
            assert(dep_matches(ps@[i].1, d@[i].1));
        }
    }
    Ok(d)
}

/// Decode a member pattern list: every element must be a string.
fn decode_members(vals: &Vec<TomlDoc>) -> (r: Result<Vec<String>, AuditError>)
    ensures
        (r matches Ok(_)) <==> members_decode(vals@),
        r matches Ok(ms) ==> members_match(vals@, ms@),
        r matches Err(e) ==> e matches AuditError::ParseError(_),
{
    let mut ms: Vec<String> = Vec::new();
    let mut i: usize = 0;
    while i < vals.len()
        invariant
            i <= vals@.len(),
            ms@.len() == i,
            forall|j: int|
                0 <= j < i ==> ((#[trigger] vals@[j]) matches TomlDoc::Str(s) && ms@[j]@ == s@),
        decreases vals@.len() - i,
    {
        match &vals[i] {
            TomlDoc::Str(s) => {
                ms.push(s.clone());
            },
            _ => {
                return Err(AuditError::ParseError("a member pattern must be a string".to_owned()));
            },
        }
        i += 1;
    }
    Ok(ms)
}

/// Decode a workspace section: the member list is required, the central
/// dependency table is optional.
fn decode_workspace(ps: &Vec<(String, TomlDoc)>) -> (r: Result<Workspace, AuditError>)
    requires
        forall|i: int| 0 <= i < ps@.len() ==> doc_node_wf(#[trigger] ps@[i].1),
    ensures
        (r matches Ok(_)) <==> workspace_decodes(ps@),
        r matches Ok(w) ==> workspace_matches(ps@, w) && w.wf(),
        r matches Err(e) ==> e matches AuditError::ParseError(_),
{
    let members_key: String = "members".to_owned();
    let members: Vec<String> = match find_key(ps, &members_key) {
        None => {
            return Err(
                AuditError::ParseError("a workspace must declare its member list".to_owned()),
            );
        },
        Some(i) => {
            match &ps[i].1 {
                TomlDoc::Arr(vals) => {
                    match decode_members(vals) {
                        Ok(ms) => ms,
                        Err(e) => {
                            return Err(e);
                        },
                    }
                },
                _ => {
                    return Err(
                        AuditError::ParseError("the member list must be an array".to_owned()),
                    );
                },
            }
        },
    };
    let deps_key: String = "dependencies".to_owned();
    let dependencies: Option<DepTable> = match find_key(ps, &deps_key) {
        None => None,
        Some(i) => {
            match &ps[i].1 {
                TomlDoc::Table(inner) => {
                    match decode_deps(inner) {
                        Ok(d) => {
                            proof {
                                assert(doc_node_wf(ps@[i as int].1));
                                assert(names_distinct(d@));
                            }
                            Some(d)
                        },
                        Err(e) => {
                            return Err(e);
                        },
                    }
                },
                _ => {
                    return Err(
                        AuditError::ParseError("the dependency table must be a table".to_owned()),
                    );
                },
            }
        },
    };
    Ok(Workspace { members, dependencies })
}

/// Decode a package section: the name is required and must be a string.
fn decode_package(ps: &Vec<(String, TomlDoc)>) -> (r: Result<Package, AuditError>)
    ensures
        (r matches Ok(_)) <==> package_decodes(ps@),
        r matches Ok(p) ==> package_matches(ps@, p),
        r matches Err(e) ==> e matches AuditError::ParseError(_),
{
    let name_key: String = "name".to_owned();
    match find_key(ps, &name_key) {
        None => Err(AuditError::ParseError("a package must declare its name".to_owned())),
        Some(i) => {
            match &ps[i].1 {
                TomlDoc::Str(s) => Ok(Package { name: s.clone() }),
                _ => Err(AuditError::ParseError("the package name must be a string".to_owned())),
            }
        },
    }
}

/// Decode a whole manifest from its document. Unknown keys are ignored;
/// a recognized key with the wrong kind of value is an error.
fn decode_manifest(top: &Vec<(String, TomlDoc)>) -> (r: Result<CargoToml, AuditError>)
    requires
        doc_pairs_wf(top@),
    ensures
        (r matches Ok(_)) <==> manifest_decodes(top@),
        r matches Ok(m) ==> manifest_matches(top@, m) && m.wf(),
        r matches Err(e) ==> e matches AuditError::ParseError(_),
{
    let workspace_key: String = "workspace".to_owned();
    let workspace: Option<Workspace> = match find_key(top, &workspace_key) {
        None => None,
        Some(i) => {
            match &top[i].1 {
                TomlDoc::Table(ps) => {
                    proof {
                        assert(doc_node_wf(top@[i as int].1));
                    }
                    match decode_workspace(ps) {
                        Ok(w) => Some(w),
                        Err(e) => {
                            return Err(e);
                        },
                    }
                },
                _ => {
                    return Err(
                        AuditError::ParseError("the workspace section must be a table".to_owned()),
                    );
                },
            }
        },
    };
    let package_key: String = "package".to_owned();
    let package: Option<Package> = match find_key(top, &package_key) {
        None => None,
        Some(i) => {
            match &top[i].1 {
                TomlDoc::Table(ps) => {
                    match decode_package(ps) {
                        Ok(p) => Some(p),
                        Err(e) => {
                            return Err(e);
                        },
                    }
                },
                _ => {
                    return Err(
                        AuditError::ParseError("the package section must be a table".to_owned()),
                    );
                },
            }
        },
    };
    let deps_key: String = "dependencies".to_owned();
    let dependencies: Option<DepTable> = match find_key(top, &deps_key) {
        None => None,
        Some(i) => {
            match &top[i].1 {
                TomlDoc::Table(ps) => {
                    match decode_deps(ps) {
                        Ok(d) => {
                            proof {
                                assert(doc_node_wf(top@[i as int].1));
                                assert(names_distinct(d@));
                            }
                            Some(d)
                        },
                        Err(e) => {
                            return Err(e);
                        },
                    }
                },
                _ => {
                    return Err(
                        AuditError::ParseError("the dependency table must be a table".to_owned()),
                    );
                },
            }
        },
    };
    Ok(CargoToml { workspace, package, dependencies })
}

/// Parse manifest text into the model. The outcome is fixed by the
/// text's document: malformed text is a parse error; a well-formed
/// document decodes exactly when each recognized key has the right
/// shape, and the result then mirrors the document's content.
pub fn parse_cargo_toml(text: &str) -> (r: Result<CargoToml, AuditError>)
    ensures
        doc_of(text@) is None ==> (r matches Err(e) && e matches AuditError::ParseError(_)),
        doc_of(text@) matches Some(top) ==> ((r matches Ok(_)) <==> manifest_decodes(top@)),
        doc_of(text@) matches Some(top) ==> (r matches Ok(m) ==> manifest_matches(top@, m)
            && m.wf()),
        r matches Err(e) ==> e matches AuditError::ParseError(_),
{
    match parse_document(text) {
        Err(e) => Err(AuditError::ParseError(toml_error_message(&e))),
        Ok(top) => decode_manifest(&top),
    }
}

} // verus!

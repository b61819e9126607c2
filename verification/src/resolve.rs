//! The workspace member resolver: turns the member pattern list plus a
//! plain snapshot of what the filesystem showed for each pattern into the
//! map from member identifier to declared dependency table.
//!
//! The caller performs the directory listing and file reading and hands
//! the outcome in as values; every decision — which entries are skipped,
//! which identifier a table is recorded under, which failure aborts the
//! resolution — is made and verified here.

use vstd::prelude::*;
use vstd::string::StrSliceExecFns;

use crate::analyze::is_duplicate;
use crate::manifest::AuditError;
use crate::manifest::CargoToml;
use crate::manifest::DepTable;
use crate::manifest::Workspace;
use crate::manifest::has_key;
use crate::manifest::keys_distinct;
use crate::manifest::workspace_deps;

verus! {

/// What one directory listing showed for one entry: its name, what kind
/// of entry it is, and the parsed manifest when the entry is a directory
/// holding a manifest file.
pub struct DirEntry {
    pub name: String,
    pub is_file: bool,
    pub is_symlink: bool,
    pub is_dir: bool,
    pub manifest: Option<CargoToml>,
}

/// What the filesystem showed for one member pattern: the manifest read
/// at a literal path (`None` when the file could not be read), or the
/// directory listing for a wildcard pattern.
pub enum MemberSource {
    Literal { manifest: Option<CargoToml> },
    Wildcard { entries: Vec<DirEntry> },
}

/// A member pattern addresses every subdirectory of a folder when it
/// ends in a slash and a star; any other pattern is a literal path.
pub open spec fn wildcard_pattern(p: Seq<char>) -> bool {
    p.len() >= 2 && p[p.len() - 2] == '/' && p[p.len() - 1] == '*'
}

/// Is this member pattern a wildcard?
pub fn is_wildcard_pattern(p: &String) -> (r: bool)
    ensures
        r == wildcard_pattern(p@),
{
    let n = p.as_str().unicode_len();
    if n < 2 {
        false
    } else {
        let c1 = p.as_str().get_char(n - 2);
        let c2 = p.as_str().get_char(n - 1);
        c1 == '/' && c2 == '*'
    }
}

/// The folder a wildcard pattern scans: the pattern with its two-character
/// suffix stripped.
pub fn wildcard_folder(p: &String) -> (r: String)
    requires
        wildcard_pattern(p@),
    ensures
        r@ == p@.subrange(0, p@.len() - 2),
{
    let n = p.as_str().unicode_len();
    p.as_str().substring_char(0, n - 2).to_owned()
}

/// A wildcard entry fails resolution when it is a real directory whose
/// manifest declares dependencies but no package to name them after.
pub open spec fn entry_fails(e: DirEntry) -> bool {
    &&& !e.is_file
    &&& !e.is_symlink
    &&& e.is_dir
    &&& e.manifest matches Some(m) && m.dependencies is Some && m.package is None
}

/// The member table one wildcard entry contributes: files, symbolic
/// links, non-directories, directories without a manifest, and manifests
/// without dependencies all contribute nothing.
pub open spec fn entry_yield(e: DirEntry) -> Seq<(String, DepTable)> {
    if e.is_file || e.is_symlink || !e.is_dir {
        Seq::empty()
    } else {
        match e.manifest {
            None => Seq::empty(),
            Some(m) => match m.dependencies {
                None => Seq::empty(),
                Some(d) => match m.package {
                    Some(p) => seq![(p.name, d)],
                    None => Seq::empty(),
                },
            },
        }
    }
}

/// The member tables contributed by a whole directory listing, in order.
pub open spec fn entries_yield(es: Seq<DirEntry>) -> Seq<(String, DepTable)>
    decreases es.len(),
{
    if es.len() == 0 {
        Seq::empty()
    } else {
        entry_yield(es[0]) + entries_yield(es.drop_first())
    }
}

/// The first failing entry of a directory listing, if any.
pub open spec fn entries_first_error(es: Seq<DirEntry>) -> Option<AuditError>
    decreases es.len(),
{
    if es.len() == 0 {
        None
    } else if entry_fails(es[0]) {
        Some(AuditError::MissingRequiredField(es[0].name))
    } else {
        entries_first_error(es.drop_first())
    }
}

/// The member tables one source contributes: a literal member is
/// recorded under its pattern when its manifest declares dependencies; a
/// wildcard contributes whatever its listing yields.
pub open spec fn source_yield(pattern: String, s: MemberSource) -> Seq<(String, DepTable)> {
    match s {
        MemberSource::Literal { manifest } => match manifest {
            Some(m) => match m.dependencies {
                Some(d) => seq![(pattern, d)],
                None => Seq::empty(),
            },
            None => Seq::empty(),
        },
        MemberSource::Wildcard { entries } => entries_yield(entries@),
    }
}

/// How one source fails: a literal member whose manifest is unreadable is
/// a hard failure; a wildcard fails only through a failing entry.
pub open spec fn source_first_error(pattern: String, s: MemberSource) -> Option<AuditError> {
    match s {
        MemberSource::Literal { manifest } => if manifest is None {
            Some(AuditError::IoError(pattern))
        } else {
            None
        },
        MemberSource::Wildcard { entries } => entries_first_error(entries@),
    }
}

/// Every member table contributed by the pattern list, in order.
pub open spec fn all_yield(patterns: Seq<String>, sources: Seq<MemberSource>) -> Seq<
    (String, DepTable),
>
    decreases sources.len(),
{
    if sources.len() == 0 {
        Seq::empty()
    } else {
        source_yield(patterns[0], sources[0]) + all_yield(
            patterns.drop_first(),
            sources.drop_first(),
        )
    }
}

/// The first failure over the whole pattern list, if any.
pub open spec fn first_resolve_error(patterns: Seq<String>, sources: Seq<MemberSource>) -> Option<
    AuditError,
>
    decreases sources.len(),
{
    if sources.len() == 0 {
        None
    } else if source_first_error(patterns[0], sources[0]) is Some {
        source_first_error(patterns[0], sources[0])
    } else {
        first_resolve_error(patterns.drop_first(), sources.drop_first())
    }
}

/// Insert into an association list: an existing identifier has its table
/// replaced in place, a new identifier is appended.
pub open spec fn upsert(m: Seq<(String, DepTable)>, k: String, v: DepTable) -> Seq<
    (String, DepTable),
>
    decreases m.len(),
{
    if m.len() == 0 {
        seq![(k, v)]
    } else if m[0].0@ == k@ {
        seq![(k, v)] + m.drop_first()
    } else {
        seq![m[0]] + upsert(m.drop_first(), k, v)
    }
}

/// Fold the contributed pairs into a map, later contributions replacing
/// earlier ones with the same identifier.
pub open spec fn resolve_acc(acc: Seq<(String, DepTable)>, pairs: Seq<(String, DepTable)>) -> Seq<
    (String, DepTable),
>
    decreases pairs.len(),
{
    if pairs.len() == 0 {
        acc
    } else {
        resolve_acc(upsert(acc, pairs[0].0, pairs[0].1), pairs.drop_first())
    }
}

/// The member dependency map a pattern list resolves to.
pub open spec fn resolved_map(patterns: Seq<String>, sources: Seq<MemberSource>) -> Seq<
    (String, DepTable),
> {
    resolve_acc(Seq::empty(), all_yield(patterns, sources))
}

proof fn lemma_upsert_found(m: Seq<(String, DepTable)>, k: String, v: DepTable, i: int)
    requires
        0 <= i < m.len(),
        m[i].0@ == k@,
        forall|j: int| 0 <= j < i ==> m[j].0@ != k@,
    ensures
        upsert(m, k, v) =~= m.update(i, (k, v)),
    decreases i,
{
    if i == 0 {
        assert(upsert(m, k, v) =~= seq![(k, v)] + m.drop_first());
    } else {
        assert(m.drop_first()[i - 1] == m[i]);
        lemma_upsert_found(m.drop_first(), k, v, i - 1);
        assert(upsert(m, k, v) =~= seq![m[0]] + m.drop_first().update(i - 1, (k, v)));
    }
}

proof fn lemma_upsert_absent(m: Seq<(String, DepTable)>, k: String, v: DepTable)
    requires
        forall|j: int| 0 <= j < m.len() ==> m[j].0@ != k@,
    ensures
        upsert(m, k, v) =~= m.push((k, v)),
    decreases m.len(),
{
    if m.len() > 0 {
        lemma_upsert_absent(m.drop_first(), k, v);
        assert(upsert(m, k, v) =~= seq![m[0]] + m.drop_first().push((k, v)));
    }
}

proof fn lemma_resolve_acc_concat(
    acc: Seq<(String, DepTable)>,
    a: Seq<(String, DepTable)>,
    b: Seq<(String, DepTable)>,
)
    ensures
        resolve_acc(acc, a + b) == resolve_acc(resolve_acc(acc, a), b),
    decreases a.len(),
{
    if a.len() == 0 {
        assert(a + b =~= b);
    } else {
        assert((a + b)[0] == a[0]);
        assert((a + b).drop_first() =~= a.drop_first() + b);
        lemma_resolve_acc_concat(upsert(acc, a[0].0, a[0].1), a.drop_first(), b);
    }
}

proof fn lemma_resolve_acc_singleton(acc: Seq<(String, DepTable)>, p: (String, DepTable))
    ensures
        resolve_acc(acc, seq![p]) == upsert(acc, p.0, p.1),
{
    assert(seq![p].drop_first() =~= Seq::<(String, DepTable)>::empty());
    assert(seq![p][0] == p);
    assert(resolve_acc(upsert(acc, p.0, p.1), seq![p].drop_first()) == upsert(acc, p.0, p.1));
}

/// Record `v` under the identifier `k`, replacing any table already
/// recorded under it.
#[verifier::loop_isolation(false)]
fn map_upsert(m: &mut Vec<(String, DepTable)>, k: String, v: DepTable)
    ensures
        final(m)@ == upsert(old(m)@, k, v),
{
    let ghost m0 = m@;
    let ghost gk = k;
    let ghost gv = v;
    let mut i: usize = 0;
    while i < m.len()
        invariant
            m@ == m0,
            i <= m0.len(),
            gk == k,
            gv == v,
            forall|j: int| 0 <= j < i ==> m0[j].0@ != k@,
        decreases m0.len() - i,
    {
        if m[i].0 == k {
            let ghost gi = i as int;
            let _replaced = m.remove(i);
            m.insert(i, (k, v));
            proof {
                lemma_upsert_found(m0, gk, gv, gi);
                assert(m@ =~= m0.update(gi, (gk, gv)));
            }
            return ;
        }
        i += 1;
    }
    m.push((k, v));
    proof {
        lemma_upsert_absent(m0, gk, gv);
        assert(m@ =~= m0.push((gk, gv)));
    }
}

impl Workspace {
    /// Resolve every member pattern against what the filesystem showed,
    /// producing the map from member identifier to its dependency table.
    ///
    /// A literal pattern whose manifest is missing aborts with `IoError`;
    /// a wildcard-discovered manifest with dependencies but no package
    /// aborts with `MissingRequiredField`; everything else that a
    /// wildcard listing shows is skipped silently.
    #[verifier::loop_isolation(false)]
    pub fn get_member_dependencies(&self, sources: Vec<MemberSource>) -> (r: Result<
        Vec<(String, DepTable)>,
        AuditError,
    >)
        requires
            self.members@.len() == sources@.len(),
        ensures
            (r matches Ok(m)) <==> first_resolve_error(self.members@, sources@) is None,
            r matches Ok(m) ==> m@ == resolved_map(self.members@, sources@),
            r matches Err(e) ==> first_resolve_error(self.members@, sources@) == Some(e),
    {
        let ghost pats = self.members@;
        let ghost srcs = sources@;
        let ghost goal = resolved_map(pats, srcs);
        let mut rest = sources;
        let mut acc: Vec<(String, DepTable)> = Vec::new();
        let mut i: usize = 0;
        proof {
            assert(pats.skip(0) =~= pats);
            assert(srcs.skip(0) =~= srcs);
        }
        while i < self.members.len()
            invariant
                pats == self.members@,
                srcs.len() == pats.len(),
                goal == resolved_map(pats, srcs),
                i <= pats.len(),
                rest@ == srcs.skip(i as int),
                first_resolve_error(pats, srcs) == first_resolve_error(
                    pats.skip(i as int),
                    srcs.skip(i as int),
                ),
                resolve_acc(acc@, all_yield(pats.skip(i as int), srcs.skip(i as int))) == goal,
            decreases pats.len() - i,
        {
            proof {
                assert(srcs.skip(i as int)[0] == srcs[i as int]);
                assert(pats.skip(i as int)[0] == pats[i as int]);
                assert(srcs.skip(i as int).drop_first() =~= srcs.skip(i as int + 1));
                assert(pats.skip(i as int).drop_first() =~= pats.skip(i as int + 1));
                assert(srcs.skip(i as int).remove(0) =~= srcs.skip(i as int + 1));
            }
            let ghost gsrc = srcs[i as int];
            let ghost rest_yield = all_yield(pats.skip(i as int + 1), srcs.skip(i as int + 1));
            let src = rest.remove(0);
            match src {
                MemberSource::Literal { manifest } => {
                    match manifest {
                        None => {
                            proof {
                                assert(source_first_error(pats[i as int], gsrc) == Some(
                                    AuditError::IoError(pats[i as int]),
                                ));
                                assert(first_resolve_error(
                                    pats.skip(i as int),
                                    srcs.skip(i as int),
                                ) == Some(AuditError::IoError(pats[i as int])));
                            }
                            return Err(AuditError::IoError(self.members[i].clone()));
                        },
                        Some(m) => {
                            match m.dependencies {
                                Some(d) => {
                                    let ghost gd = d;
                                    let key = self.members[i].clone();
                                    proof {
                                        assert(source_yield(pats[i as int], gsrc) == seq![
                                            (pats[i as int], gd),
                                        ]);
                                        lemma_resolve_acc_concat(
                                            acc@,
                                            source_yield(pats[i as int], gsrc),
                                            rest_yield,
                                        );
                                        lemma_resolve_acc_singleton(acc@, (pats[i as int], gd));
                                    }
                                    map_upsert(&mut acc, key, d);
                                },
                                None => {
                                    proof {
                                        assert(source_yield(pats[i as int], gsrc)
                                            =~= Seq::<(String, DepTable)>::empty());
                                        assert(source_yield(pats[i as int], gsrc) + rest_yield
                                            =~= rest_yield);
                                    }
                                },
                            }
                        },
                    }
                },
                MemberSource::Wildcard { entries } => {
                    let ghost ev = entries@;
                    let mut es = entries;
                    let total = es.len();
                    let mut j: usize = 0;
                    proof {
                        assert(ev.skip(0) =~= ev);
                        assert(source_yield(pats[i as int], gsrc) == entries_yield(ev));
                        assert(source_first_error(pats[i as int], gsrc) == entries_first_error(
                            ev,
                        ));
                        lemma_resolve_acc_concat(acc@, entries_yield(ev), rest_yield);
                    }
                    while j < total
                        invariant
                            total == ev.len(),
                            pats == self.members@,
                            srcs.len() == pats.len(),
                            goal == resolved_map(pats, srcs),
                            i < pats.len(),
                            j <= ev.len(),
                            es@ == ev.skip(j as int),
                            gsrc == srcs[i as int],
                            rest_yield == all_yield(
                                pats.skip(i as int + 1),
                                srcs.skip(i as int + 1),
                            ),
                            rest@ == srcs.skip(i as int + 1),
                            first_resolve_error(pats, srcs) == first_resolve_error(
                                pats.skip(i as int),
                                srcs.skip(i as int),
                            ),
                            source_first_error(pats[i as int], gsrc) == entries_first_error(ev),
                            source_first_error(pats[i as int], srcs.skip(i as int)[0])
                                == source_first_error(pats[i as int], gsrc),
                            srcs.skip(i as int)[0] == gsrc,
                            pats.skip(i as int)[0] == pats[i as int],
                            srcs.skip(i as int).drop_first() == srcs.skip(i as int + 1),
                            pats.skip(i as int).drop_first() == pats.skip(i as int + 1),
                            entries_first_error(ev) == entries_first_error(ev.skip(j as int)),
                            resolve_acc(acc@, entries_yield(ev.skip(j as int)) + rest_yield)
                                == goal,
                        decreases ev.len() - j,
                    {
                        proof {
                            assert(ev.skip(j as int)[0] == ev[j as int]);
                            assert(ev.skip(j as int).drop_first() =~= ev.skip(j as int + 1));
                            assert(ev.skip(j as int).remove(0) =~= ev.skip(j as int + 1));
                        }
                        let ghost ge = ev[j as int];
                        let e = es.remove(0);
                        let mut recorded = false;
                        let mut failed = false;
                        let mut fail_name: String = String::new();
                        if e.is_file || e.is_symlink {
                        } else if !e.is_dir {
                        } else {
                            match e.manifest {
                                None => {
                                },
                                Some(m) => {
                                    match m.dependencies {
                                        None => {
                                        },
                                        Some(d) => {
                                            match m.package {
                                                Some(p) => {
                                                    let ghost gp = (p.name, d);
                                                    proof {
                                                        assert(entry_yield(ge) == seq![gp]);
                                                        lemma_resolve_acc_concat(
                                                            acc@,
                                                            seq![gp],
                                                            entries_yield(
                                                                ev.skip(j as int + 1),
                                                            ) + rest_yield,
                                                        );
                                                        lemma_resolve_acc_singleton(acc@, gp);
                                                        assert(entries_yield(ev.skip(j as int))
                                                            + rest_yield =~= seq![gp] + (
                                                        entries_yield(ev.skip(j as int + 1))
                                                            + rest_yield));
                                                    }
                                                    map_upsert(&mut acc, p.name, d);
                                                    recorded = true;
                                                },
                                                None => {
                                                    failed = true;
                                                    fail_name = e.name;
                                                },
                                            }
                                        },
                                    }
                                },
                            }
                        }
                        if failed {
                            proof {
                                assert(entry_fails(ge));
                                assert(entries_first_error(ev.skip(j as int)) == Some(
                                    AuditError::MissingRequiredField(ge.name),
                                ));
                                assert(source_first_error(pats[i as int], gsrc) == Some(
                                    AuditError::MissingRequiredField(ge.name),
                                ));
                                assert(first_resolve_error(
                                    pats.skip(i as int),
                                    srcs.skip(i as int),
                                ) == Some(AuditError::MissingRequiredField(ge.name)));
                            }
                            return Err(AuditError::MissingRequiredField(fail_name));
                        }
                        proof {
                            assert(!entry_fails(ge));
                            if !recorded {
                                assert(entry_yield(ge) =~= Seq::<(String, DepTable)>::empty());
                                assert(entries_yield(ev.skip(j as int)) =~= entry_yield(ge)
                                    + entries_yield(ev.skip(j as int + 1)));
                                assert(entries_yield(ev.skip(j as int)) + rest_yield
                                    =~= entries_yield(ev.skip(j as int + 1)) + rest_yield);
                            }
                        }
                        j += 1;
                    }
                    proof {
                        assert(ev.skip(ev.len() as int) =~= Seq::<DirEntry>::empty());
                        assert(entries_first_error(ev) is None);
                        assert(entries_yield(ev.skip(ev.len() as int))
                            =~= Seq::<(String, DepTable)>::empty());
                        assert(entries_yield(ev.skip(ev.len() as int)) + rest_yield
                            =~= rest_yield);
                    }
                },
            }
            i += 1;
        }
        proof {
            assert(srcs.skip(srcs.len() as int) =~= Seq::<MemberSource>::empty());
            assert(pats.skip(pats.len() as int) =~= Seq::<String>::empty());
            assert(resolve_acc(acc@, all_yield(pats.skip(pats.len() as int), srcs.skip(
                srcs.len() as int,
            ))) == acc@);
        }
        Ok(acc)
    }

    /// Resolve the members and report every dependency name that is
    /// version-pinned in more than one place, each name once, in no
    /// promised order.
    pub fn find_duplicate_dependencies(&self, sources: Vec<MemberSource>) -> (r: Result<
        Vec<String>,
        AuditError,
    >)
        requires
            self.members@.len() == sources@.len(),
        ensures
            (r matches Ok(d)) <==> first_resolve_error(self.members@, sources@) is None,
            r matches Err(e) ==> first_resolve_error(self.members@, sources@) == Some(e),
            r matches Ok(d) ==> keys_distinct(d@),
            r matches Ok(d) ==> forall|i: int|
                0 <= i < d@.len() ==> is_duplicate(
                    workspace_deps(*self),
                    resolved_map(self.members@, sources@),
                    d@[i]@,
                ),
            r matches Ok(d) ==> forall|n: Seq<char>|
                is_duplicate(workspace_deps(*self), resolved_map(self.members@, sources@), n)
                    ==> has_key(d@, n),
    {
        let ghost srcs = sources@;
        match self.get_member_dependencies(sources) {
            Err(e) => Err(e),
            Ok(members) => Ok(self.find_duplicate_names(&members)),
        }
    }
}

} // verus!

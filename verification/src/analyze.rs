//! The duplicate-dependency analyzer: counts how often each dependency
//! name is pinned independently across the workspace table and all member
//! tables, and reports every name whose count exceeds one.

use vstd::prelude::*;

use crate::manifest::DepTable;
use crate::manifest::Dependency;
use crate::manifest::Workspace;
use crate::manifest::dep_is_independent;
use crate::manifest::has_key;
use crate::manifest::is_independent_pin;
use crate::manifest::keys_contain;
use crate::manifest::keys_distinct;
use crate::manifest::lemma_has_key_push;
use crate::manifest::opt_deps;
use crate::manifest::table_contains;
use crate::manifest::table_has;
use crate::manifest::workspace_deps;

verus! {

/// How many entries of the table declare `n` as an independent pin.
pub open spec fn independent_count(deps: Seq<(String, Dependency)>, n: Seq<char>) -> nat
    decreases deps.len(),
{
    if deps.len() == 0 {
        0
    } else {
        (if deps[0].0@ == n && is_independent_pin(deps[0].1) {
            1nat
        } else {
            0nat
        }) + independent_count(deps.drop_first(), n)
    }
}

/// The independent pins of `n` summed over all member tables.
pub open spec fn members_count(members: Seq<(String, DepTable)>, n: Seq<char>) -> nat
    decreases members.len(),
{
    if members.len() == 0 {
        0
    } else {
        independent_count(members[0].1@, n) + members_count(members.drop_first(), n)
    }
}

/// The occurrence count of `n`: one seed when the workspace-level table
/// declares it, plus every independent pin in a member table.
pub open spec fn occurrence_count(
    wdeps: Seq<(String, Dependency)>,
    members: Seq<(String, DepTable)>,
    n: Seq<char>,
) -> nat {
    (if table_has(wdeps, n) {
        1nat
    } else {
        0nat
    }) + members_count(members, n)
}

/// A name is redundantly pinned when its occurrence count exceeds one.
pub open spec fn is_duplicate(
    wdeps: Seq<(String, Dependency)>,
    members: Seq<(String, DepTable)>,
    n: Seq<char>,
) -> bool {
    occurrence_count(wdeps, members, n) > 1
}

/// A name occurs somewhere: in the workspace table or in a member table.
pub open spec fn mentions(
    wdeps: Seq<(String, Dependency)>,
    members: Seq<(String, DepTable)>,
    n: Seq<char>,
) -> bool {
    table_has(wdeps, n) || exists|k: int|
        0 <= k < members.len() && table_has(members[k].1@, n)
}

/// A count capped at two: the analysis only asks whether a count exceeds
/// one, so nothing above two needs to be tracked.
pub open spec fn cap2(x: nat) -> nat {
    if x >= 2 {
        2
    } else {
        x
    }
}

proof fn lemma_independent_count_push(
    s: Seq<(String, Dependency)>,
    p: (String, Dependency),
    n: Seq<char>,
)
    ensures
        independent_count(s.push(p), n) == independent_count(s, n) + (if p.0@ == n
            && is_independent_pin(p.1) {
            1nat
        } else {
            0nat
        }),
    decreases s.len(),
{
    let t = s.push(p);
    if s.len() == 0 {
        assert(t[0] == p);
        assert(t.drop_first() =~= Seq::empty());
        assert(independent_count(t.drop_first(), n) == 0);
    } else {
        assert(t[0] == s[0]);
        assert(t.drop_first() =~= s.drop_first().push(p));
        lemma_independent_count_push(s.drop_first(), p, n);
    }
}

proof fn lemma_members_count_push(ms: Seq<(String, DepTable)>, m: (String, DepTable), n: Seq<char>)
    ensures
        members_count(ms.push(m), n) == members_count(ms, n) + independent_count(m.1@, n),
    decreases ms.len(),
{
    let t = ms.push(m);
    if ms.len() == 0 {
        assert(t[0] == m);
        assert(t.drop_first() =~= Seq::empty());
        assert(members_count(t.drop_first(), n) == 0);
    } else {
        assert(t[0] == ms[0]);
        assert(t.drop_first() =~= ms.drop_first().push(m));
        lemma_members_count_push(ms.drop_first(), m, n);
    }
}

/// A positive independent count means the table declares the name.
proof fn lemma_independent_count_pos(deps: Seq<(String, Dependency)>, n: Seq<char>)
    ensures
        independent_count(deps, n) > 0 ==> table_has(deps, n),
    decreases deps.len(),
{
    if deps.len() > 0 {
        lemma_independent_count_pos(deps.drop_first(), n);
        if independent_count(deps, n) > 0 {
            if deps[0].0@ == n {
                assert(table_has(deps, n));
            } else {
                assert(table_has(deps.drop_first(), n));
                let i = choose|i: int|
                    0 <= i < deps.drop_first().len() && deps.drop_first()[i].0@ == n;
                assert(deps[i + 1].0@ == n);
            }
        }
    }
}

/// A positive summed count means some member table declares the name.
proof fn lemma_members_count_pos(ms: Seq<(String, DepTable)>, n: Seq<char>)
    ensures
        members_count(ms, n) > 0 ==> exists|k: int| 0 <= k < ms.len() && table_has(ms[k].1@, n),
    decreases ms.len(),
{
    if ms.len() > 0 {
        lemma_members_count_pos(ms.drop_first(), n);
        if members_count(ms, n) > 0 {
            if independent_count(ms[0].1@, n) > 0 {
                lemma_independent_count_pos(ms[0].1@, n);
                assert(table_has(ms[0].1@, n));
            } else {
                let k = choose|k: int|
                    0 <= k < ms.drop_first().len() && table_has(ms.drop_first()[k].1@, n);
                assert(table_has(ms[k + 1].1@, n));
            }
        }
    }
}

/// A duplicated name is mentioned somewhere, so scanning every declared
/// name misses no duplicate.
pub proof fn lemma_duplicate_is_mentioned(
    wdeps: Seq<(String, Dependency)>,
    members: Seq<(String, DepTable)>,
    n: Seq<char>,
)
    ensures
        is_duplicate(wdeps, members, n) ==> mentions(wdeps, members, n),
{
    if is_duplicate(wdeps, members, n) && !table_has(wdeps, n) {
        lemma_members_count_pos(members, n);
    }
}

/// Append `name`: afterwards the key set holds exactly the old names and
/// this one.
fn push_name(acc: &mut Vec<String>, name: &String)
    ensures
        final(acc)@.len() == old(acc)@.len() + 1,
        forall|n: Seq<char>|
            #[trigger] has_key(final(acc)@, n) <==> (has_key(old(acc)@, n) || name@ == n),
{
    let ghost a0 = acc@;
    acc.push(name.clone());
    proof {
        assert forall|n: Seq<char>| #[trigger]
            has_key(acc@, n) <==> (has_key(a0, n) || name@ == n) by {
            lemma_has_key_push(a0, acc@[a0.len() as int], n);
        }
    }
}

/// Append `name` unless it is already present; the key set grows by at
/// most that name and stays distinct.
fn push_name_unique(acc: &mut Vec<String>, name: &String)
    ensures
        forall|n: Seq<char>|
            #[trigger] has_key(final(acc)@, n) <==> (has_key(old(acc)@, n) || name@ == n),
        keys_distinct(old(acc)@) ==> keys_distinct(final(acc)@),
        final(acc)@.len() == old(acc)@.len() || (final(acc)@.len() == old(acc)@.len() + 1
            && final(acc)@.last()@ == name@),
        forall|j: int| 0 <= j < old(acc)@.len() ==> final(acc)@[j] == old(acc)@[j],
{
    if !keys_contain(acc, name) {
        let ghost a0 = acc@;
        acc.push(name.clone());
        proof {
            assert forall|n: Seq<char>| #[trigger]
                has_key(acc@, n) <==> (has_key(a0, n) || name@ == n) by {
                lemma_has_key_push(a0, acc@[a0.len() as int], n);
            }
            if keys_distinct(a0) {
                assert forall|a: int, b: int|
                    0 <= a < b < acc@.len() implies acc@[a]@ != acc@[b]@ by {
                    if b == a0.len() {
                        if a0[a]@ == name@ {
                            assert(has_key(a0, name@));
                        }
                    }
                }
            }
        }
    }
}

/// How many entries of `deps` declare `n` as an independent pin.
fn count_independent(deps: &DepTable, n: &String) -> (r: usize)
    ensures
        r == independent_count(deps@, n@),
{
    let mut c: usize = 0;
    let mut i: usize = 0;
    while i < deps.len()
        invariant
            i <= deps@.len(),
            c <= i,
            c == independent_count(deps@.take(i as int), n@),
        decreases deps@.len() - i,
    {
        let p = &deps[i];
        let hit = p.0 == *n && dep_is_independent(&p.1);
        proof {
            lemma_independent_count_push(deps@.take(i as int), deps@[i as int], n@);
            assert(deps@.take(i as int + 1) =~= deps@.take(i as int).push(deps@[i as int]));
        }
        if hit {
            c = c + 1;
        }
        i += 1;
    }
    proof {
        assert(deps@.take(deps@.len() as int) =~= deps@);
    }
    c
}

impl Workspace {
    /// The set of names declared in the workspace-level dependency table,
    /// each reported once.
    pub fn get_workspace_dependency_names(&self) -> (r: Vec<String>)
        ensures
            keys_distinct(r@),
            forall|n: Seq<char>| has_key(r@, n) <==> table_has(workspace_deps(*self), n),
    {
        let mut r: Vec<String> = Vec::new();
        match &self.dependencies {
            None => r,
            Some(deps) => {
                let mut i: usize = 0;
                while i < deps.len()
                    invariant
                        i <= deps@.len(),
                        keys_distinct(r@),
                        forall|n: Seq<char>| #[trigger] has_key(r@, n) ==> table_has(deps@, n),
                        forall|j: int| 0 <= j < i ==> has_key(r@, deps@[j].0@),
                    decreases deps@.len() - i,
                {
                    push_name_unique(&mut r, &deps[i].0);
                    proof {
                        assert(table_has(deps@, deps@[i as int].0@));
                    }
                    i += 1;
                }
                proof {
                    assert forall|n: Seq<char>|
                        table_has(deps@, n) implies has_key(r@, n) by {
                        let j = choose|j: int| 0 <= j < deps@.len() && deps@[j].0@ == n;
                        assert(has_key(r@, deps@[j].0@));
                    }
                }
                r
            },
        }
    }

    /// Does `n` reach an occurrence count above one, given the resolved
    /// member tables?
    pub fn is_duplicate_name(&self, members: &Vec<(String, DepTable)>, n: &String) -> (r: bool)
        ensures
            r == is_duplicate(workspace_deps(*self), members@, n@),
    {
        let seeded: bool = match &self.dependencies {
            Some(d) => table_contains(d, n),
            None => false,
        };
        let mut c: usize = if seeded {
            1
        } else {
            0
        };
        let mut i: usize = 0;
        while i < members.len()
            invariant
                i <= members@.len(),
                c <= 2,
                c == cap2(
                    (if table_has(workspace_deps(*self), n@) {
                        1nat
                    } else {
                        0nat
                    }) + members_count(members@.take(i as int), n@),
                ),
            decreases members@.len() - i,
        {
            let cm = count_independent(&members[i].1, n);
            proof {
                lemma_members_count_push(members@.take(i as int), members@[i as int], n@);
                assert(members@.take(i as int + 1) =~= members@.take(i as int).push(
                    members@[i as int],
                ));
            }
            if cm >= 2 {
                c = 2;
            } else {
                c = c + cm;
                if c >= 2 {
                    c = 2;
                }
            }
            i += 1;
        }
        proof {
            assert(members@.take(members@.len() as int) =~= members@);
        }
        c >= 2
    }

    /// Every name whose occurrence count exceeds one, each reported once,
    /// in no promised order.
    pub fn find_duplicate_names(&self, members: &Vec<(String, DepTable)>) -> (r: Vec<String>)
        ensures
            keys_distinct(r@),
            forall|i: int|
                0 <= i < r@.len() ==> is_duplicate(workspace_deps(*self), members@, r@[i]@),
            forall|n: Seq<char>|
                is_duplicate(workspace_deps(*self), members@, n) ==> has_key(r@, n),
    {
        let candidates = candidate_names(&self.dependencies, members);
        let ghost wseq = workspace_deps(*self);
        let mut r: Vec<String> = Vec::new();
        let mut i: usize = 0;
        while i < candidates.len()
            invariant
                i <= candidates@.len(),
                wseq == workspace_deps(*self),
                keys_distinct(r@),
                forall|j: int| 0 <= j < r@.len() ==> is_duplicate(wseq, members@, r@[j]@),
                forall|j: int|
                    0 <= j < i && is_duplicate(wseq, members@, candidates@[j]@) ==> has_key(
                        r@,
                        candidates@[j]@,
                    ),
            decreases candidates@.len() - i,
        {
            let name = &candidates[i];
            if self.is_duplicate_name(members, name) {
                let ghost r0 = r@;
                push_name_unique(&mut r, name);
                proof {
                    assert forall|j: int|
                        0 <= j < r@.len() implies is_duplicate(wseq, members@, r@[j]@) by {
                        if j < r0.len() {
                            assert(r@[j] == r0[j]);
                        } else {
                            assert(r@[j]@ == candidates@[i as int]@);
                        }
                    }
                }
            }
            i += 1;
        }
        proof {
            assert forall|n: Seq<char>|
                is_duplicate(wseq, members@, n) implies has_key(r@, n) by {
                lemma_duplicate_is_mentioned(wseq, members@, n);
                assert(has_key(candidates@, n));
                let j = choose|j: int| 0 <= j < candidates@.len() && candidates@[j]@ == n;
                assert(is_duplicate(wseq, members@, candidates@[j]@));
                assert(has_key(r@, candidates@[j]@));
            }
        }
        r
    }
}

/// Every name declared in the central table or in any member table; names
/// may repeat, but none is missing.
fn candidate_names(wdeps: &Option<DepTable>, members: &Vec<(String, DepTable)>) -> (r: Vec<String>)
    ensures
        forall|n: Seq<char>|
            #[trigger] has_key(r@, n) <==> mentions(opt_deps(*wdeps), members@, n),
{
    let ghost wseq: Seq<(String, Dependency)> = opt_deps(*wdeps);
    let mut r: Vec<String> = Vec::new();
    match wdeps {
        None => {
        },
        Some(d) => {
            let mut i: usize = 0;
            while i < d.len()
                invariant
                    i <= d@.len(),
                    wseq == d@,
                    forall|n: Seq<char>| #[trigger] has_key(r@, n) ==> table_has(wseq, n),
                    forall|j: int| 0 <= j < i ==> has_key(r@, d@[j].0@),
                decreases d@.len() - i,
            {
                push_name(&mut r, &d[i].0);
                proof {
                    assert(table_has(wseq, d@[i as int].0@));
                }
                i += 1;
            }
        },
    }
    let mut k: usize = 0;
    while k < members.len()
        invariant
            k <= members@.len(),
            forall|n: Seq<char>| #[trigger] has_key(r@, n) ==> mentions(wseq, members@, n),
            forall|n: Seq<char>| table_has(wseq, n) ==> #[trigger] has_key(r@, n),
            forall|j: int, jj: int|
                0 <= j < k && 0 <= jj < members@[j].1@.len() ==> has_key(
                    r@,
                    members@[j].1@[jj].0@,
                ),
        decreases members@.len() - k,
    {
        let table = &members[k].1;
        let mut i: usize = 0;
        while i < table.len()
            invariant
                i <= table@.len(),
                k < members@.len(),
                table@ == members@[k as int].1@,
                forall|n: Seq<char>| #[trigger] has_key(r@, n) ==> mentions(wseq, members@, n),
                forall|n: Seq<char>| table_has(wseq, n) ==> #[trigger] has_key(r@, n),
                forall|j: int, jj: int|
                    0 <= j < k && 0 <= jj < members@[j].1@.len() ==> has_key(
                        r@,
                        members@[j].1@[jj].0@,
                    ),
                forall|jj: int| 0 <= jj < i ==> has_key(r@, table@[jj].0@),
            decreases table@.len() - i,
        {
            push_name(&mut r, &table[i].0);
            proof {
                assert(table_has(members@[k as int].1@, table@[i as int].0@));
            }
            i += 1;
        }
        k += 1;
    }
    proof {
        assert forall|n: Seq<char>| mentions(wseq, members@, n) implies has_key(r@, n) by {
            if !table_has(wseq, n) {
                let kk = choose|kk: int|
                    0 <= kk < members@.len() && table_has(members@[kk].1@, n);
                let jj = choose|jj: int|
                    0 <= jj < members@[kk].1@.len() && members@[kk].1@[jj].0@ == n;
                assert(has_key(r@, members@[kk].1@[jj].0@));
            }
        }
    }
    r
}

} // verus!

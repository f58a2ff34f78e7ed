//! Workspace access control: which agents may work in which project.
use vstd::prelude::*;

use crate::config::{entries_of, entry_names, entry_view, AccessEntry, ProjectAccess, WorkspaceAccess};
use crate::agents::has_path_syntax;
use crate::text::{chars_of, string_of, trim_chars, trimmed, clone_texts, contains_text, lemma_push_contains, lemma_texts_push, same_text};

verus! {

/// Position of the entry for project `p` (the first one, if names repeat).
pub open spec fn entry_index(e: Seq<AccessEntry>, p: Seq<char>) -> int {
    choose|i: int| 0 <= i < e.len() && e[i].0 == p && forall|j: int| 0 <= j < i ==> e[j].0 != p
}

/// `agents` with `a` appended unless already listed.
pub open spec fn with_agent(agents: Seq<Seq<char>>, a: Seq<char>) -> Seq<Seq<char>> {
    if agents.contains(a) {
        agents
    } else {
        agents.push(a)
    }
}

/// The agent is not `a`.
pub open spec fn other_than(a: Seq<char>) -> spec_fn(Seq<char>) -> bool {
    |x: Seq<char>| x != a
}

/// Access entries after granting agent `a` access to project `p`.
pub open spec fn granted(e: Seq<AccessEntry>, p: Seq<char>, a: Seq<char>) -> Seq<AccessEntry> {
    if entry_names(e).contains(p) {
        let i = entry_index(e, p);
        e.update(i, (p, with_agent(e[i].1, a)))
    } else {
        e.push((p, seq![a]))
    }
}

/// Access entries after revoking agent `a`'s access to project `p`; a project left
/// without agents is dropped.
pub open spec fn revoked(e: Seq<AccessEntry>, p: Seq<char>, a: Seq<char>) -> Seq<AccessEntry> {
    if entry_names(e).contains(p) {
        let i = entry_index(e, p);
        let rest = e[i].1.filter(other_than(a));
        if rest.len() == 0 {
            e.remove(i)
        } else {
            e.update(i, (p, rest))
        }
    } else {
        e
    }
}

/// Agent `a` may work in project `p`.
pub open spec fn may_access(e: Seq<AccessEntry>, p: Seq<char>, a: Seq<char>) -> bool {
    entry_names(e).contains(p) && e[entry_index(e, p)].1.contains(a)
}

/// The project lists agent `a`.
pub open spec fn lists_agent(a: Seq<char>) -> spec_fn(AccessEntry) -> bool {
    |x: AccessEntry| x.1.contains(a)
}

/// Names of the projects that list agent `a`, in entry order.
pub open spec fn projects_of(e: Seq<AccessEntry>, a: Seq<char>) -> Seq<Seq<char>> {
    entry_names(e.filter(lists_agent(a)))
}

/// The entry at `i` is the first one for project `p`.
proof fn lemma_entry_index(e: Seq<AccessEntry>, p: Seq<char>, i: int)
    requires
        0 <= i < e.len(),
        e[i].0 == p,
        forall|j: int| 0 <= j < i ==> e[j].0 != p,
    ensures
        entry_names(e).contains(p),
        entry_index(e, p) == i,
{
    assert(entry_names(e)[i] == p);
    let k = entry_index(e, p);
    if k < i {
        assert(e[k].0 != p);
    }
    if i < k {
        assert(e[i].0 != p);
    }
}

/// Index of the first entry for `project`.
fn find_project(access: &WorkspaceAccess, project: &str) -> (r: Option<usize>)
    ensures
        match r {
            Some(i) => i < access.entries().len() && entry_index(access.entries(), project@) == i
                && access.entries()[i as int].0 == project@ && entry_names(
                access.entries(),
            ).contains(project@),
            None => !entry_names(access.entries()).contains(project@),
        },
{
    let mut i: usize = 0;
    while i < access.projects.len()
        invariant
            i <= access.projects.len(),
            forall|j: int| 0 <= j < i ==> access.entries()[j].0 != project@,
        decreases access.projects.len() - i,
    {
        if same_text(access.projects[i].0.as_str(), project) {
            proof {
                lemma_entry_index(access.entries(), project@, i as int);
            }
            return Some(i);
        }
        i = i + 1;
    }
    proof {
        if entry_names(access.entries()).contains(project@) {
            let w = choose|w: int|
                0 <= w < entry_names(access.entries()).len() && entry_names(access.entries())[w]
                    == project@;
            assert(access.entries()[w].0 == project@);
        }
    }
    None
}

proof fn lemma_entries_update(s: Seq<(String, ProjectAccess)>, i: int, x: (String, ProjectAccess))
    requires
        0 <= i < s.len(),
    ensures
        entries_of(s.update(i, x)) == entries_of(s).update(i, entry_view(x)),
{
    assert(entries_of(s.update(i, x)) =~= entries_of(s).update(i, entry_view(x)));
}

proof fn lemma_entries_push(s: Seq<(String, ProjectAccess)>, x: (String, ProjectAccess))
    ensures
        entries_of(s.push(x)) == entries_of(s).push(entry_view(x)),
{
    assert(entries_of(s.push(x)) =~= entries_of(s).push(entry_view(x)));
}

proof fn lemma_entries_remove(s: Seq<(String, ProjectAccess)>, i: int)
    requires
        0 <= i < s.len(),
    ensures
        entries_of(s.remove(i)) == entries_of(s).remove(i),
{
    assert(entries_of(s.remove(i)) =~= entries_of(s).remove(i));
}

/// Replacing an entry's agents keeps the project names.
proof fn lemma_names_update(e: Seq<AccessEntry>, i: int, x: AccessEntry)
    requires
        0 <= i < e.len(),
        x.0 == e[i].0,
    ensures
        entry_names(e.update(i, x)) == entry_names(e),
{
    assert(entry_names(e.update(i, x)) =~= entry_names(e));
}

/// Adding a project not yet named keeps names unique.
proof fn lemma_names_push(e: Seq<AccessEntry>, x: AccessEntry)
    requires
        entry_names(e).no_duplicates(),
        !entry_names(e).contains(x.0),
    ensures
        entry_names(e.push(x)).no_duplicates(),
{
    let n = entry_names(e.push(x));
    assert(n =~= entry_names(e).push(x.0));
    assert forall|a: int, b: int| 0 <= a < b < n.len() implies n[a] != n[b] by {
        if b == e.len() {
            assert(entry_names(e)[a] == n[a]);
        }
    }
}

/// Dropping an entry keeps names unique.
proof fn lemma_names_remove(e: Seq<AccessEntry>, i: int)
    requires
        entry_names(e).no_duplicates(),
        0 <= i < e.len(),
    ensures
        entry_names(e.remove(i)).no_duplicates(),
{
    let n = entry_names(e.remove(i));
    assert forall|a: int, b: int| 0 <= a < b < n.len() implies n[a] != n[b] by {
        let aa = if a < i { a } else { a + 1 };
        let bb = if b < i { b } else { b + 1 };
        assert(n[a] == entry_names(e)[aa]);
        assert(n[b] == entry_names(e)[bb]);
    }
}

/// A copy of `agents` with `agent` appended unless already listed.
fn agents_with(agents: &Vec<String>, agent: &str) -> (r: Vec<String>)
    ensures
        r.deep_view() == with_agent(agents.deep_view(), agent@),
{
    let mut r = clone_texts(agents);
    if !contains_text(agents, agent) {
        let ghost before = r;
        let c = agent.to_owned();
        r.push(c);
        proof {
            lemma_texts_push(r, before, c);
        }
    }
    r
}

/// The agents of `agents` other than `agent`, in order.
fn agents_without(agents: &Vec<String>, agent: &str) -> (r: Vec<String>)
    ensures
        r.deep_view() == agents.deep_view().filter(other_than(agent@)),
{
    let ghost s = agents.deep_view();
    let mut rest: Vec<String> = Vec::new();
    let mut j: usize = 0;
    while j < agents.len()
        invariant
            s == agents.deep_view(),
            j <= agents.len(),
            rest.deep_view() == s.take(j as int).filter(other_than(agent@)),
        decreases agents.len() - j,
    {
        let ghost before = rest;
        let ghost x = s[j as int];
        proof {
            assert(s.take(j + 1) =~= s.take(j as int).push(x));
            s.take(j as int).lemma_filter_push(x, other_than(agent@));
        }
        if !same_text(agents[j].as_str(), agent) {
            let c = agents[j].clone();
            rest.push(c);
            proof {
                lemma_texts_push(rest, before, c);
            }
        }
        j = j + 1;
    }
    assert(s.take(s.len() as int) =~= s);
    rest
}

/// Grant an agent access to a project: the project's entry is created if missing,
/// and the agent is added unless already listed.
pub fn grant_access(access: &mut WorkspaceAccess, project: &str, agent: &str)
    requires
        old(access).wf(),
    ensures
        final(access).wf(),
        final(access).entries() == granted(old(access).entries(), project@, agent@),
{
    let ghost e = access.entries();
    let ghost s = access.projects@;
    match find_project(access, project) {
        Some(i) => {
            let agents = agents_with(&access.projects[i].1.agents, agent);
            let name = access.projects[i].0.clone();
            let entry = (name, ProjectAccess { agents });
            proof {
                lemma_entries_update(s, i as int, entry);
                lemma_names_update(e, i as int, entry_view(entry));
            }
            access.projects.set(i, entry);
        },
        None => {
            let mut agents: Vec<String> = Vec::new();
            agents.push(agent.to_owned());
            let entry = (project.to_owned(), ProjectAccess { agents });
            assert(agents.deep_view() =~= seq![agent@]);
            proof {
                lemma_entries_push(s, entry);
                lemma_names_push(e, entry_view(entry));
            }
            access.projects.push(entry);
        },
    }
}

/// Revoke an agent's access to a project; a project left without agents loses its
/// entry.
pub fn revoke_access(access: &mut WorkspaceAccess, project: &str, agent: &str)
    requires
        old(access).wf(),
    ensures
        final(access).wf(),
        final(access).entries() == revoked(old(access).entries(), project@, agent@),
{
    let ghost e = access.entries();
    let ghost s = access.projects@;
    match find_project(access, project) {
        Some(i) => {
            let rest = agents_without(&access.projects[i].1.agents, agent);
            if rest.len() == 0 {
                proof {
                    lemma_entries_remove(s, i as int);
                    lemma_names_remove(e, i as int);
                }
                access.projects.remove(i);
            } else {
                let name = access.projects[i].0.clone();
                let entry = (name, ProjectAccess { agents: rest });
                proof {
                    lemma_entries_update(s, i as int, entry);
                    lemma_names_update(e, i as int, entry_view(entry));
                }
                access.projects.set(i, entry);
            }
        },
        None => {},
    }
}

/// Get all projects an agent can access, in entry order.
pub fn get_agent_projects(access: &WorkspaceAccess, agent: &str) -> (r: Vec<String>)
    ensures
        r.deep_view() == projects_of(access.entries(), agent@),
{
    let ghost e = access.entries();
    let mut r: Vec<String> = Vec::new();
    let mut i: usize = 0;
    while i < access.projects.len()
        invariant
            i <= access.projects.len(),
            e == access.entries(),
            r.deep_view() == entry_names(e.take(i as int).filter(lists_agent(agent@))),
        decreases access.projects.len() - i,
    {
        let ghost before = r;
        proof {
            assert(e.take(i + 1) =~= e.take(i as int).push(e[i as int]));
            e.take(i as int).lemma_filter_push(e[i as int], lists_agent(agent@));
        }
        if contains_text(&access.projects[i].1.agents, agent) {
            let c = access.projects[i].0.clone();
            r.push(c);
            proof {
                lemma_texts_push(r, before, c);
                assert(entry_names(e.take(i as int).filter(lists_agent(agent@)).push(e[i as int]))
                    =~= entry_names(e.take(i as int).filter(lists_agent(agent@))).push(c@));
            }
        } else {
            assert(entry_names(e.take(i + 1).filter(lists_agent(agent@))) == entry_names(
                e.take(i as int).filter(lists_agent(agent@)),
            ));
        }
        i = i + 1;
    }
    assert(e.take(e.len() as int) =~= e);
    r
}

/// Check if an agent has access to a project.
pub fn check_access(access: &WorkspaceAccess, project: &str, agent: &str) -> (r: bool)
    ensures
        r == may_access(access.entries(), project@, agent@),
{
    match find_project(access, project) {
        Some(i) => contains_text(&access.projects[i].1.agents, agent),
        None => false,
    }
}

/// With unique names, the entry named `p` is the one at `i`.
proof fn lemma_index_unique(e: Seq<AccessEntry>, p: Seq<char>, i: int)
    requires
        entry_names(e).no_duplicates(),
        0 <= i < e.len(),
        e[i].0 == p,
    ensures
        entry_names(e).contains(p),
        entry_index(e, p) == i,
{
    assert forall|j: int| 0 <= j < i implies e[j].0 != p by {
        assert(entry_names(e)[j] != entry_names(e)[i]);
    }
    lemma_entry_index(e, p, i);
}

/// The entry named `p`, when there is one, sits at `entry_index`.
proof fn lemma_index_of_named(e: Seq<AccessEntry>, p: Seq<char>)
    requires
        entry_names(e).contains(p),
    ensures
        0 <= entry_index(e, p) < e.len(),
        e[entry_index(e, p)].0 == p,
{
    let w = choose|w: int| 0 <= w < entry_names(e).len() && entry_names(e)[w] == p;
    // the first entry named p witnesses the choice in `entry_index`
    assert(exists|f: int| 0 <= f <= w && e[f].0 == p && forall|j: int| 0 <= j < f ==> e[j].0 != p) by {
        lemma_first_named(e, p, w);
    }
}

proof fn lemma_first_named(e: Seq<AccessEntry>, p: Seq<char>, w: int)
    requires
        0 <= w < e.len(),
        e[w].0 == p,
    ensures
        exists|f: int| 0 <= f <= w && e[f].0 == p && forall|j: int| 0 <= j < f ==> e[j].0 != p,
    decreases w,
{
    if exists|j: int| 0 <= j < w && e[j].0 == p {
        let j = choose|j: int| 0 <= j < w && e[j].0 == p;
        lemma_first_named(e, p, j);
    } else {
        assert(forall|j: int| 0 <= j < w ==> e[j].0 != p);
    }
}

proof fn lemma_grant_existing_same(e: Seq<AccessEntry>, p: Seq<char>, a: Seq<char>, a2: Seq<char>)
    requires
        entry_names(e).no_duplicates(),
        entry_names(e).contains(p),
    ensures
        may_access(granted(e, p, a), p, a),
        a2 != a ==> may_access(granted(e, p, a), p, a2) == may_access(e, p, a2),
{
    lemma_index_of_named(e, p);
    let i = entry_index(e, p);
    let g = granted(e, p, a);
    lemma_names_update(e, i, (p, with_agent(e[i].1, a)));
    lemma_index_unique(g, p, i);
    lemma_push_contains(e[i].1, a, a);
    lemma_push_contains(e[i].1, a, a2);
}

proof fn lemma_grant_existing_other(e: Seq<AccessEntry>, p: Seq<char>, a: Seq<char>, p2: Seq<char>, a2: Seq<char>)
    requires
        entry_names(e).no_duplicates(),
        entry_names(e).contains(p),
        p2 != p,
    ensures
        may_access(granted(e, p, a), p2, a2) == may_access(e, p2, a2),
{
    lemma_index_of_named(e, p);
    let i = entry_index(e, p);
    let g = granted(e, p, a);
    lemma_names_update(e, i, (p, with_agent(e[i].1, a)));
    if entry_names(e).contains(p2) {
        lemma_index_of_named(e, p2);
        lemma_index_unique(g, p2, entry_index(e, p2));
    }
}

proof fn lemma_grant_new_same(e: Seq<AccessEntry>, p: Seq<char>, a: Seq<char>, a2: Seq<char>)
    requires
        entry_names(e).no_duplicates(),
        !entry_names(e).contains(p),
    ensures
        may_access(granted(e, p, a), p, a),
        a2 != a ==> !may_access(granted(e, p, a), p, a2),
        !may_access(e, p, a2),
{
    let n = e.len() as int;
    let g = granted(e, p, a);
    lemma_names_push(e, (p, seq![a]));
    lemma_index_unique(g, p, n);
    assert(g[n].1[0] == a);
    if a2 != a && seq![a].contains(a2) {
        let w = choose|w: int| 0 <= w < 1 && seq![a][w] == a2;
    }
}

proof fn lemma_grant_new_other(e: Seq<AccessEntry>, p: Seq<char>, a: Seq<char>, p2: Seq<char>, a2: Seq<char>)
    requires
        entry_names(e).no_duplicates(),
        !entry_names(e).contains(p),
        p2 != p,
    ensures
        may_access(granted(e, p, a), p2, a2) == may_access(e, p2, a2),
{
    let g = granted(e, p, a);
    lemma_names_push(e, (p, seq![a]));
    assert(entry_names(g) =~= entry_names(e).push(p));
    lemma_push_contains(entry_names(e), p, p2);
    if entry_names(e).contains(p2) {
        lemma_index_of_named(e, p2);
        lemma_index_unique(g, p2, entry_index(e, p2));
    }
}

/// After granting agent `a` access to project `p`, `a` may work in `p`; every other
/// agent and project keeps the access it had.
pub proof fn law_grant_access(e: Seq<AccessEntry>, p: Seq<char>, a: Seq<char>, p2: Seq<char>, a2: Seq<char>)
    requires
        entry_names(e).no_duplicates(),
    ensures
        may_access(granted(e, p, a), p, a),
        (p2 != p || a2 != a) ==> may_access(granted(e, p, a), p2, a2) == may_access(e, p2, a2),
{
    if entry_names(e).contains(p) {
        lemma_grant_existing_same(e, p, a, a2);
        if p2 != p {
            lemma_grant_existing_other(e, p, a, p2, a2);
        }
    } else {
        lemma_grant_new_same(e, p, a, a2);
        if p2 != p {
            lemma_grant_new_other(e, p, a, p2, a2);
        }
    }
}

/// Names after dropping the entry at `i`: the same, less that entry's.
proof fn lemma_remove_name(e: Seq<AccessEntry>, i: int, q: Seq<char>)
    requires
        entry_names(e).no_duplicates(),
        0 <= i < e.len(),
    ensures
        entry_names(e.remove(i)).contains(q) <==> (entry_names(e).contains(q) && e[i].0 != q),
{
    let r = e.remove(i);
    if entry_names(r).contains(q) {
        let w = choose|w: int| 0 <= w < entry_names(r).len() && entry_names(r)[w] == q;
        let ww = if w < i { w } else { w + 1 };
        assert(entry_names(e)[ww] == q);
        assert(entry_names(e)[ww] != entry_names(e)[i]);
    }
    if entry_names(e).contains(q) && e[i].0 != q {
        let w = choose|w: int| 0 <= w < entry_names(e).len() && entry_names(e)[w] == q;
        let ww = if w < i { w } else { w - 1 };
        assert(entry_names(r)[ww] == q);
    }
}

/// After dropping the entry at `i`, another project's entry is unchanged.
proof fn lemma_remove_other(e: Seq<AccessEntry>, i: int, q: Seq<char>)
    requires
        entry_names(e).no_duplicates(),
        0 <= i < e.len(),
        entry_names(e).contains(q),
        e[i].0 != q,
    ensures
        entry_names(e.remove(i)).contains(q),
        e.remove(i)[entry_index(e.remove(i), q)] == e[entry_index(e, q)],
{
    lemma_index_of_named(e, q);
    lemma_names_remove(e, i);
    let i2 = entry_index(e, q);
    let j2 = if i2 < i { i2 } else { i2 - 1 };
    assert(e.remove(i)[j2] == e[i2]);
    lemma_index_unique(e.remove(i), q, j2);
}

proof fn lemma_revoke_drop(e: Seq<AccessEntry>, p: Seq<char>, a: Seq<char>, p2: Seq<char>, a2: Seq<char>)
    requires
        entry_names(e).no_duplicates(),
        entry_names(e).contains(p),
        e[entry_index(e, p)].1.filter(other_than(a)).len() == 0,
    ensures
        !entry_names(revoked(e, p, a)).contains(p),
        p2 != p ==> may_access(revoked(e, p, a), p2, a2) == may_access(e, p2, a2),
        a2 != a ==> !may_access(e, p, a2),
{
    lemma_index_of_named(e, p);
    let i = entry_index(e, p);
    lemma_remove_name(e, i, p);
    if p2 != p {
        lemma_remove_name(e, i, p2);
        if entry_names(e).contains(p2) {
            lemma_remove_other(e, i, p2);
        }
    }
    if a2 != a && e[i].1.contains(a2) {
        let w = choose|w: int| 0 <= w < e[i].1.len() && e[i].1[w] == a2;
        e[i].1.lemma_filter_contains(other_than(a), w);
    }
}

proof fn lemma_revoke_keep_same(e: Seq<AccessEntry>, p: Seq<char>, a: Seq<char>, a2: Seq<char>)
    requires
        entry_names(e).no_duplicates(),
        entry_names(e).contains(p),
        e[entry_index(e, p)].1.filter(other_than(a)).len() > 0,
    ensures
        !may_access(revoked(e, p, a), p, a),
        a2 != a ==> may_access(revoked(e, p, a), p, a2) == may_access(e, p, a2),
{
    lemma_index_of_named(e, p);
    let i = entry_index(e, p);
    let rest = e[i].1.filter(other_than(a));
    let v = revoked(e, p, a);
    lemma_names_update(e, i, (p, rest));
    lemma_index_unique(v, p, i);
    assert(!rest.contains(a)) by {
        if rest.contains(a) {
            let w = choose|w: int| 0 <= w < rest.len() && rest[w] == a;
            e[i].1.lemma_filter_pred(other_than(a), w);
        }
    }
    if a2 != a {
        if e[i].1.contains(a2) {
            let w = choose|w: int| 0 <= w < e[i].1.len() && e[i].1[w] == a2;
            e[i].1.lemma_filter_contains(other_than(a), w);
        }
        if rest.contains(a2) {
            e[i].1.lemma_filter_contains_rev(other_than(a), a2);
        }
    }
}

proof fn lemma_revoke_keep_other(e: Seq<AccessEntry>, p: Seq<char>, a: Seq<char>, p2: Seq<char>, a2: Seq<char>)
    requires
        entry_names(e).no_duplicates(),
        entry_names(e).contains(p),
        e[entry_index(e, p)].1.filter(other_than(a)).len() > 0,
        p2 != p,
    ensures
        may_access(revoked(e, p, a), p2, a2) == may_access(e, p2, a2),
{
    lemma_index_of_named(e, p);
    let i = entry_index(e, p);
    let rest = e[i].1.filter(other_than(a));
    let v = revoked(e, p, a);
    lemma_names_update(e, i, (p, rest));
    if entry_names(e).contains(p2) {
        lemma_index_of_named(e, p2);
        lemma_index_unique(v, p2, entry_index(e, p2));
    }
}

/// After revoking agent `a`'s access to project `p`, `a` may not work in `p`; every
/// other agent and project keeps the access it had.
pub proof fn law_revoke_access(e: Seq<AccessEntry>, p: Seq<char>, a: Seq<char>, p2: Seq<char>, a2: Seq<char>)
    requires
        entry_names(e).no_duplicates(),
    ensures
        !may_access(revoked(e, p, a), p, a),
        (p2 != p || a2 != a) ==> may_access(revoked(e, p, a), p2, a2) == may_access(e, p2, a2),
{
    if entry_names(e).contains(p) {
        lemma_index_of_named(e, p);
        if e[entry_index(e, p)].1.filter(other_than(a)).len() == 0 {
            lemma_revoke_drop(e, p, a, p2, a2);
        } else {
            lemma_revoke_keep_same(e, p, a, a2);
            if p2 != p {
                lemma_revoke_keep_other(e, p, a, p2, a2);
            }
        }
    }
}

/// An agent's project list names exactly the projects it may work in.
pub proof fn law_projects_match_access(e: Seq<AccessEntry>, a: Seq<char>, p: Seq<char>)
    requires
        entry_names(e).no_duplicates(),
    ensures
        projects_of(e, a).contains(p) <==> may_access(e, p, a),
{
    let f = e.filter(lists_agent(a));
    if projects_of(e, a).contains(p) {
        let w = choose|w: int| 0 <= w < projects_of(e, a).len() && projects_of(e, a)[w] == p;
        assert(f.contains(f[w]));
        e.lemma_filter_contains_rev(lists_agent(a), f[w]);
        e.lemma_filter_pred(lists_agent(a), w);
        let k = choose|k: int| 0 <= k < e.len() && e[k] == f[w];
        lemma_index_unique(e, p, k);
    }
    if may_access(e, p, a) {
        lemma_index_of_named(e, p);
        let i = entry_index(e, p);
        e.lemma_filter_contains(lists_agent(a), i);
        let w = choose|w: int| 0 <= w < f.len() && f[w] == e[i];
        assert(projects_of(e, a)[w] == p);
    }
}

/// Granting an agent access it lacked and then revoking it gives back the entries
/// as they were, unless the project had an entry with no agents (which the revoke
/// then drops).
pub proof fn law_grant_then_revoke(e: Seq<AccessEntry>, p: Seq<char>, a: Seq<char>)
    requires
        entry_names(e).no_duplicates(),
        !may_access(e, p, a),
        entry_names(e).contains(p) ==> e[entry_index(e, p)].1.len() > 0,
    ensures
        revoked(granted(e, p, a), p, a) == e,
{
    let g = granted(e, p, a);
    if entry_names(e).contains(p) {
        lemma_index_of_named(e, p);
        let i = entry_index(e, p);
        let list = e[i].1;
        lemma_names_update(e, i, (p, with_agent(list, a)));
        lemma_index_unique(g, p, i);
        assert(list.push(a).filter(other_than(a)) == list.filter(other_than(a))) by {
            list.lemma_filter_push(a, other_than(a));
        }
        lemma_filter_keeps_all(list, a);
        assert(g.update(i, (p, list)) =~= e);
    } else {
        let n = e.len() as int;
        lemma_names_push(e, (p, seq![a]));
        lemma_index_unique(g, p, n);
        assert(seq![a] =~= Seq::<Seq<char>>::empty().push(a));
        Seq::<Seq<char>>::empty().lemma_filter_push(a, other_than(a));
        lemma_filter_keeps_all(Seq::<Seq<char>>::empty(), a);
        assert(g.remove(n) =~= e);
    }
}

/// Filtering out an agent that is not listed keeps the list.
proof fn lemma_filter_keeps_all(list: Seq<Seq<char>>, a: Seq<char>)
    requires
        !list.contains(a),
    ensures
        list.filter(other_than(a)) == list,
    decreases list.len(),
{
    reveal(Seq::filter);
    if list.len() > 0 {
        assert(!list.drop_last().contains(a)) by {
            if list.drop_last().contains(a) {
                let w = choose|w: int| 0 <= w < list.drop_last().len() && list.drop_last()[w] == a;
                assert(list[w] == a);
            }
        }
        lemma_filter_keeps_all(list.drop_last(), a);
        assert(list[list.len() - 1] != a);
        assert(list.drop_last().push(list.last()) =~= list);
    }
}

/// The name a new project gets from the requested text: the text without leading
/// and trailing white space, which must not be empty nor hold a path separator
/// or `..`.
pub open spec fn project_name_check(raw: Seq<char>) -> Result<Seq<char>, Seq<char>> {
    let name = trimmed(raw);
    if name.len() == 0 {
        Err("name is required"@)
    } else if has_path_syntax(name) {
        Err("invalid project name"@)
    } else {
        Ok(name)
    }
}

/// Check the name requested for a new project and return the name to use.
pub fn validate_project_name(raw: &str) -> (r: Result<String, String>)
    ensures
        match project_name_check(raw@) {
            Ok(n) => r is Ok && r->Ok_0@ == n,
            Err(e) => r is Err && r->Err_0@ == e,
        },
{
    let chars = chars_of(raw);
    let name = string_of(&trim_chars(&chars));
    if name.as_str().is_empty() {
        return Err(String::from_str("name is required"));
    }
    if crate::agents::path_syntax(name.as_str()) {
        return Err(String::from_str("invalid project name"));
    }
    Ok(name)
}

} // verus!

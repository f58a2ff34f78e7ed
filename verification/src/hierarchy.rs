//! The reporting lines of the organisation chart: chains of superiors, and the
//! tree shape that adding, updating and removing positions keep.
use vstd::prelude::*;

use crate::config::PositionView;
use crate::org::{
    first_where, has_id, is_first_where, lacks_id, lemma_first_where,
    lemma_first_where_none, reparented, updated, without_position,
};

verus! {

/// The superior of the id `x`: the parent of the first position with that id, if
/// there is such a position and it has a parent.
pub open spec fn parent_of(s: Seq<PositionView>, x: Seq<char>) -> Option<Seq<char>> {
    match first_where(s, has_id(x)) {
        Some(p) => p.parent_id,
        None => None,
    }
}

/// Following superiors `k` times up from the id `x`; `None` once the chain has ended.
pub open spec fn superior(s: Seq<PositionView>, x: Seq<char>, k: nat) -> Option<Seq<char>>
    decreases k,
{
    if k == 0 {
        Some(x)
    } else {
        match parent_of(s, x) {
            Some(y) => superior(s, y, (k - 1) as nat),
            None => None,
        }
    }
}

/// The chain of superiors above `x` ends.
pub open spec fn chain_ends(s: Seq<PositionView>, x: Seq<char>) -> bool {
    exists|k: nat| #[trigger] superior(s, x, k) is None
}

/// The chart is tree-shaped: every chain of superiors ends, so no position lies
/// above itself.
pub open spec fn is_tree(s: Seq<PositionView>) -> bool {
    forall|x: Seq<char>| #[trigger] chain_ends(s, x)
}

/// Walking up from `x` for at most `fuel` steps, the chain ends without meeting `id`.
pub open spec fn ends_clear_of(s: Seq<PositionView>, x: Option<Seq<char>>, id: Seq<char>, fuel: nat) -> bool
    decreases fuel,
{
    match x {
        None => true,
        Some(y) => if y == id {
            false
        } else if fuel == 0 {
            false
        } else {
            ends_clear_of(s, parent_of(s, y), id, (fuel - 1) as nat)
        },
    }
}

/// Giving the position `id` the superior that `parent_id` asks for (when it asks
/// for one) would close a loop: the chain above the new superior, followed for as
/// many steps as the chart has positions, meets `id` or does not end.
pub open spec fn creates_cycle(s: Seq<PositionView>, id: Seq<char>, parent_id: Option<Option<Seq<char>>>) -> bool {
    match parent_id {
        Some(Some(p)) => !ends_clear_of(s, Some(p), id, s.len()),
        _ => false,
    }
}

/// `id` is `p` or lies above it: some chain of superiors from `p` meets `id`.
pub open spec fn at_or_above(s: Seq<PositionView>, id: Seq<char>, p: Seq<char>) -> bool {
    exists|k: nat| #[trigger] superior(s, p, k) == Some(id)
}

/// The chain above `p` ends after `m` steps without meeting `id`.
pub open spec fn clear_chain(s: Seq<PositionView>, p: Seq<char>, id: Seq<char>, m: nat) -> bool {
    &&& superior(s, p, m) is None
    &&& forall|j: nat| j < m ==> #[trigger] superior(s, p, j) != Some(id)
}

/// No position has the id `x` or reports to it.
pub open spec fn unused_id(s: Seq<PositionView>, x: Seq<char>) -> bool {
    forall|i: int| 0 <= i < s.len() ==> (#[trigger] s[i]).id != x && s[i].parent_id != Some(x)
}

proof fn lemma_none_stays(s: Seq<PositionView>, x: Seq<char>, a: nat, b: nat)
    requires
        superior(s, x, a) is None,
        a <= b,
    ensures
        superior(s, x, b) is None,
    decreases a,
{
    if a > 0 {
        if let Some(y) = parent_of(s, x) {
            lemma_none_stays(s, y, (a - 1) as nat, (b - 1) as nat);
        }
    }
}

proof fn lemma_compose(s: Seq<PositionView>, x: Seq<char>, a: nat, b: nat)
    requires
        superior(s, x, a) is Some,
    ensures
        superior(s, x, a + b) == superior(s, superior(s, x, a)->0, b),
    decreases a,
{
    if a > 0 {
        let z = parent_of(s, x)->0;
        lemma_compose(s, z, (a - 1) as nat, b);
        assert((a + b - 1) as nat == (a - 1) as nat + b);
    }
}

proof fn lemma_last_step(s: Seq<PositionView>, x: Seq<char>, j: nat)
    ensures
        superior(s, x, j + 1) == match superior(s, x, j) {
            Some(y) => parent_of(s, y),
            None => None,
        },
{
    if superior(s, x, j) is Some {
        lemma_compose(s, x, j, 1);
        let y = superior(s, x, j)->0;
        assert(superior(s, y, 1) == parent_of(s, y)) by {
            if let Some(z) = parent_of(s, y) {
                assert(superior(s, z, 0) == Some(z));
            }
        }
    } else {
        lemma_none_stays(s, x, j, j + 1);
    }
}

proof fn lemma_cycle_stays(s: Seq<PositionView>, x: Seq<char>, c: nat, n: nat)
    requires
        c >= 1,
        superior(s, x, c) == Some(x),
    ensures
        superior(s, x, n) is Some,
    decreases n,
{
    if n < c {
        if superior(s, x, n) is None {
            lemma_none_stays(s, x, n, c);
        }
    } else {
        lemma_compose(s, x, c, (n - c) as nat);
        lemma_cycle_stays(s, x, c, (n - c) as nat);
    }
}

/// A chain that comes back to where it started never ends.
proof fn lemma_cycle_never_ends(s: Seq<PositionView>, x: Seq<char>, c: nat)
    requires
        c >= 1,
        superior(s, x, c) == Some(x),
    ensures
        !chain_ends(s, x),
{
    if chain_ends(s, x) {
        let k = choose|k: nat| #[trigger] superior(s, x, k) is None;
        lemma_cycle_stays(s, x, c, k);
    }
}

/// A walk that ends within its fuel without meeting `id` is a clear chain.
proof fn lemma_clear(s: Seq<PositionView>, x: Seq<char>, id: Seq<char>, fuel: nat) -> (m: nat)
    requires
        ends_clear_of(s, Some(x), id, fuel),
    ensures
        clear_chain(s, x, id, m),
    decreases fuel,
{
    match parent_of(s, x) {
        None => {
            assert forall|j: nat| j < 1 implies #[trigger] superior(s, x, j) != Some(id) by {}
            1
        },
        Some(y) => {
            let m0 = lemma_clear(s, y, id, (fuel - 1) as nat);
            assert forall|j: nat| j < m0 + 1 implies #[trigger] superior(s, x, j) != Some(id) by {
                if j > 0 {
                    assert(superior(s, x, j) == superior(s, y, (j - 1) as nat));
                }
            }
            m0 + 1
        },
    }
}

/// A clear chain never meets `id`, however far it is followed.
proof fn lemma_clear_never_meets(s: Seq<PositionView>, p: Seq<char>, id: Seq<char>, m: nat, k: nat)
    requires
        clear_chain(s, p, id, m),
    ensures
        superior(s, p, k) != Some(id),
{
    if k >= m {
        lemma_none_stays(s, p, m, k);
    }
}

/// A new parent that is the position itself, or lies below it, is refused: it
/// would close a loop in the chart.
pub proof fn law_cycles_are_refused(s: Seq<PositionView>, id: Seq<char>, p: Seq<char>)
    requires
        at_or_above(s, id, p),
    ensures
        creates_cycle(s, id, Some(Some(p))),
{
    if ends_clear_of(s, Some(p), id, s.len()) {
        let m = lemma_clear(s, p, id, s.len());
        let k = choose|k: nat| #[trigger] superior(s, p, k) == Some(id);
        lemma_clear_never_meets(s, p, id, m, k);
    }
}

proof fn lemma_min_index(s: Seq<PositionView>, pred: spec_fn(PositionView) -> bool, j: int) -> (i: int)
    requires
        0 <= j < s.len(),
        pred(s[j]),
    ensures
        is_first_where(s, pred, i),
    decreases j,
{
    if exists|k: int| 0 <= k < j && pred(s[k]) {
        let k = choose|k: int| 0 <= k < j && pred(s[k]);
        lemma_min_index(s, pred, k)
    } else {
        j
    }
}

/// What `first_where` names sits at the first index that satisfies the predicate.
proof fn lemma_first_index(s: Seq<PositionView>, pred: spec_fn(PositionView) -> bool)
    ensures
        first_where(s, pred) matches Some(v) ==> exists|i: int| is_first_where(s, pred, i) && s[i] == v,
        first_where(s, pred) is None ==> forall|j: int| 0 <= j < s.len() ==> !pred(#[trigger] s[j]),
{
    if exists|j: int| 0 <= j < s.len() && pred(s[j]) {
        let j = choose|j: int| 0 <= j < s.len() && pred(s[j]);
        let i = lemma_min_index(s, pred, j);
        lemma_first_where(s, pred, i);
    } else {
        lemma_first_where_none(s, pred);
    }
}

/// A superior is the parent named by some position.
proof fn lemma_parent_in_chart(s: Seq<PositionView>, z: Seq<char>)
    requires
        parent_of(s, z) is Some,
    ensures
        exists|i: int| 0 <= i < s.len() && (#[trigger] s[i]).parent_id == parent_of(s, z),
{
    lemma_first_index(s, has_id(z));
}

/// Where two charts give every id but `id` the same superior, walks that avoid
/// `id` agree.
proof fn lemma_agree(s: Seq<PositionView>, t: Seq<PositionView>, id: Seq<char>, x: Seq<char>, m: nat)
    requires
        forall|y: Seq<char>| y != id ==> #[trigger] parent_of(t, y) == parent_of(s, y),
        forall|j: nat| j < m ==> #[trigger] superior(s, x, j) != Some(id),
    ensures
        superior(t, x, m) == superior(s, x, m),
    decreases m,
{
    if m > 0 {
        assert(superior(s, x, 0) != Some(id));
        if let Some(y) = parent_of(s, x) {
            assert forall|j: nat| j < (m - 1) as nat implies #[trigger] superior(s, y, j) != Some(id) by {
                assert(superior(s, x, j + 1) == superior(s, y, j));
            }
            lemma_agree(s, t, id, y, (m - 1) as nat);
        }
    }
}

proof fn lemma_first_meeting(s: Seq<PositionView>, x: Seq<char>, id: Seq<char>, j: nat) -> (j0: nat)
    requires
        superior(s, x, j) == Some(id),
    ensures
        j0 <= j,
        superior(s, x, j0) == Some(id),
        forall|i: nat| i < j0 ==> #[trigger] superior(s, x, i) != Some(id),
    decreases j,
{
    if exists|i: nat| i < j && #[trigger] superior(s, x, i) == Some(id) {
        let i = choose|i: nat| i < j && #[trigger] superior(s, x, i) == Some(id);
        lemma_first_meeting(s, x, id, i)
    } else {
        j
    }
}

/// Giving `id` a new superior `np` keeps a tree a tree, when the chain above the
/// new superior ends without coming back to `id`.
proof fn lemma_relink(s: Seq<PositionView>, t: Seq<PositionView>, id: Seq<char>, np: Option<Seq<char>>, m: nat)
    requires
        is_tree(s),
        forall|y: Seq<char>| y != id ==> #[trigger] parent_of(t, y) == parent_of(s, y),
        parent_of(t, id) == np,
        np matches Some(p) ==> clear_chain(s, p, id, m),
    ensures
        is_tree(t),
{
    // the chain above `id` in the new chart ends after `end` steps
    let end: nat = match np {
        None => 1,
        Some(p) => m + 1,
    };
    assert(superior(t, id, end) is None) by {
        if let Some(p) = np {
            lemma_agree(s, t, id, p, m);
            assert(superior(t, id, m + 1) == superior(t, p, m));
        }
    }
    assert forall|x: Seq<char>| #[trigger] chain_ends(t, x) by {
        assert(chain_ends(s, x));
        let k = choose|k: nat| #[trigger] superior(s, x, k) is None;
        if exists|j: nat| j < k && #[trigger] superior(s, x, j) == Some(id) {
            let j = choose|j: nat| j < k && #[trigger] superior(s, x, j) == Some(id);
            let j0 = lemma_first_meeting(s, x, id, j);
            lemma_agree(s, t, id, x, j0);
            lemma_compose(t, x, j0, end);
            assert(superior(t, x, j0 + end) is None);
        } else {
            lemma_agree(s, t, id, x, k);
            assert(superior(t, x, k) is None);
        }
    }
}

/// Updating a position keeps the chart tree-shaped when its new superior, if it
/// gets one, is neither the position itself nor below it: exactly the updates that
/// `update_position` carries out.
pub proof fn law_update_keeps_tree(
    s: Seq<PositionView>,
    id: Seq<char>,
    k: int,
    title: Option<Seq<char>>,
    parent_id: Option<Option<Seq<char>>>,
    agents: Option<Seq<Seq<char>>>,
    system_prompt: Option<Seq<char>>,
)
    requires
        is_tree(s),
        is_first_where(s, has_id(id), k),
        !creates_cycle(s, id, parent_id),
    ensures
        is_tree(s.update(k, updated(s[k], title, parent_id, agents, system_prompt))),
{
    let u = updated(s[k], title, parent_id, agents, system_prompt);
    let t = s.update(k, u);
    assert forall|y: Seq<char>| y != id implies #[trigger] parent_of(t, y) == parent_of(s, y) by {
        lemma_first_index(s, has_id(y));
        if first_where(s, has_id(y)) is Some {
            let i = choose|i: int| is_first_where(s, has_id(y), i) && s[i] == first_where(s, has_id(y))->0;
            assert(is_first_where(t, has_id(y), i)) by {
                assert forall|j: int| 0 <= j < i implies !has_id(y)(t[j]) by {
                    if j != k {
                        assert(t[j] == s[j]);
                    }
                }
            }
            lemma_first_where(t, has_id(y), i);
        } else {
            assert forall|j: int| 0 <= j < t.len() implies !has_id(y)(#[trigger] t[j]) by {
                if j != k {
                    assert(t[j] == s[j]);
                }
            }
            lemma_first_where_none(t, has_id(y));
        }
    }
    assert(is_first_where(t, has_id(id), k)) by {
        assert forall|j: int| 0 <= j < k implies !has_id(id)(t[j]) by {
            assert(t[j] == s[j]);
        }
    }
    lemma_first_where(t, has_id(id), k);
    lemma_first_where(s, has_id(id), k);
    let np = u.parent_id;
    match parent_id {
        Some(Some(p)) => {
            let m = lemma_clear(s, p, id, s.len());
            lemma_relink(s, t, id, np, m);
        },
        Some(None) => {
            lemma_relink(s, t, id, np, 0);
        },
        None => {
            if let Some(p) = np {
                assert(chain_ends(s, p));
                let m = choose|m: nat| #[trigger] superior(s, p, m) is None;
                assert forall|j: nat| j < m implies #[trigger] superior(s, p, j) != Some(id) by {
                    if superior(s, p, j) == Some(id) {
                        assert(superior(s, id, j + 1) == superior(s, p, j));
                        lemma_cycle_never_ends(s, id, j + 1);
                        assert(chain_ends(s, id));
                    }
                }
                lemma_relink(s, t, id, np, m);
            } else {
                lemma_relink(s, t, id, np, 0);
            }
        },
    }
}

/// Adding a position under an id that no position has or reports to, and that is
/// not its own superior, keeps the chart tree-shaped.
pub proof fn law_add_keeps_tree(s: Seq<PositionView>, a: PositionView)
    requires
        is_tree(s),
        unused_id(s, a.id),
        a.parent_id != Some(a.id),
    ensures
        is_tree(s.push(a)),
{
    let t = s.push(a);
    assert forall|y: Seq<char>| y != a.id implies #[trigger] parent_of(t, y) == parent_of(s, y) by {
        s.lemma_filter_push(a, has_id(y));
    }
    let n = s.len() as int;
    assert(is_first_where(t, has_id(a.id), n)) by {
        assert forall|j: int| 0 <= j < n implies !has_id(a.id)(t[j]) by {
            assert(t[j] == s[j]);
        }
    }
    lemma_first_where(t, has_id(a.id), n);
    if let Some(q) = a.parent_id {
        assert(chain_ends(s, q));
        let m = choose|m: nat| #[trigger] superior(s, q, m) is None;
        assert forall|j: nat| j < m implies #[trigger] superior(s, q, j) != Some(a.id) by {
            if j > 0 {
                lemma_last_step(s, q, (j - 1) as nat);
                if let Some(y) = superior(s, q, (j - 1) as nat) {
                    if parent_of(s, y) is Some {
                        lemma_parent_in_chart(s, y);
                    }
                }
            }
        }
        lemma_relink(s, t, a.id, a.parent_id, m);
    } else {
        lemma_relink(s, t, a.id, a.parent_id, 0);
    }
}

/// Without the removed id, a removal keeps each other position's group of
/// same-id positions, each moved under the new parent where it reported to `id`.
proof fn lemma_without_filter(s: Seq<PositionView>, id: Seq<char>, np: Option<Seq<char>>, y: Seq<char>)
    requires
        y != id,
    ensures
        without_position(s, id, np).filter(has_id(y)) == s.filter(has_id(y)).map_values(
            |p: PositionView| reparented(p, id, np),
        ),
    decreases s.len(),
{
    let f = |p: PositionView| reparented(p, id, np);
    if s.len() == 0 {
        assert(without_position(s, id, np) =~= Seq::<PositionView>::empty());
        assert(s.filter(has_id(y)) =~= Seq::<PositionView>::empty());
        assert(without_position(s, id, np).filter(has_id(y)) =~= Seq::<PositionView>::empty());
    } else {
        let r = s.drop_last();
        let a = s.last();
        lemma_without_filter(r, id, np, y);
        assert(s =~= r.push(a));
        assert(s.map_values(f) =~= r.map_values(f).push(f(a)));
        r.map_values(f).lemma_filter_push(f(a), lacks_id(id));
        r.lemma_filter_push(a, has_id(y));
        let wr = without_position(r, id, np);
        if a.id != id {
            wr.lemma_filter_push(f(a), has_id(y));
        }
        assert(r.filter(has_id(y)).push(a).map_values(f) =~= r.filter(has_id(y)).map_values(f).push(f(a)));
    }
}

/// The superiors after a removal: the removed id has none, and a position that
/// reported to it reports to its parent instead.
proof fn lemma_parent_after_removal(s: Seq<PositionView>, id: Seq<char>, target: PositionView, y: Seq<char>)
    requires
        first_where(s, has_id(id)) == Some(target),
    ensures
        parent_of(without_position(s, id, target.parent_id), y) == if y == id {
            None
        } else if parent_of(s, y) == Some(id) {
            parent_of(s, id)
        } else {
            parent_of(s, y)
        },
{
    let w = without_position(s, id, target.parent_id);
    if y == id {
        crate::org::law_removed_position_leaves_no_trace(s, id, target);
        lemma_first_where_none(w, has_id(id));
    } else {
        lemma_without_filter(s, id, target.parent_id, y);
    }
}

proof fn lemma_removal_walk(s: Seq<PositionView>, id: Seq<char>, target: PositionView, x: Seq<char>, j: nat) -> (i: nat)
    requires
        is_tree(s),
        first_where(s, has_id(id)) == Some(target),
        x != id,
    ensures
        superior(without_position(s, id, target.parent_id), x, j) is None || (i >= j && superior(
            without_position(s, id, target.parent_id),
            x,
            j,
        ) == superior(s, x, i) && superior(s, x, i) != Some(id)),
    decreases j,
{
    let w = without_position(s, id, target.parent_id);
    if j == 0 {
        0
    } else {
        let i0 = lemma_removal_walk(s, id, target, x, (j - 1) as nat);
        lemma_last_step(w, x, (j - 1) as nat);
        if let Some(z) = superior(w, x, (j - 1) as nat) {
            lemma_parent_after_removal(s, id, target, z);
            lemma_last_step(s, x, i0);
            if parent_of(s, z) == Some(id) {
                lemma_last_step(s, x, i0 + 1);
                if parent_of(s, id) == Some(id) {
                    assert(superior(s, id, 0) == Some(id));
                    assert(superior(s, id, 1) == Some(id));
                    lemma_cycle_never_ends(s, id, 1);
                    assert(chain_ends(s, id));
                }
                i0 + 2
            } else {
                i0 + 1
            }
        } else {
            j
        }
    }
}

/// Removing a position keeps the chart tree-shaped: its direct reports move up to
/// its parent, and no chain of superiors can close into a loop.
pub proof fn law_remove_keeps_tree(s: Seq<PositionView>, id: Seq<char>, target: PositionView)
    requires
        is_tree(s),
        first_where(s, has_id(id)) == Some(target),
    ensures
        is_tree(without_position(s, id, target.parent_id)),
{
    let w = without_position(s, id, target.parent_id);
    assert forall|x: Seq<char>| #[trigger] chain_ends(w, x) by {
        if x == id {
            lemma_parent_after_removal(s, id, target, id);
            assert(superior(w, x, 1) is None);
        } else {
            assert(chain_ends(s, x));
            let k = choose|k: nat| #[trigger] superior(s, x, k) is None;
            let i = lemma_removal_walk(s, id, target, x, k);
            if superior(w, x, k) is Some {
                lemma_none_stays(s, x, k, i);
            }
            assert(superior(w, x, k) is None);
        }
    }
}

} // verus!

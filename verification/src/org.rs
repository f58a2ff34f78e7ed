//! The organisation chart: positions, their reporting lines and the agents that
//! fill them.
use vstd::prelude::*;

use crate::clock::{unix_millis, unix_subsec_nanos};
use crate::hierarchy::{creates_cycle, ends_clear_of, unused_id};
use crate::config::{clone_position, opt_view, views, AgentConfig, OrgChart, Position, PositionView};
use crate::text::{
    clone_opt_text, contains_seq, contains_text, decimal, occurs_at, digit_char, lemma_push_contains, lemma_texts_push, hexadecimal, join, join_texts, opt_text, push_char,
    push_padded_decimal, push_padded_hex, same_text, zero_pad,
};

verus! {

/// The position has the id `id`.
pub open spec fn has_id(id: Seq<char>) -> spec_fn(PositionView) -> bool {
    |p: PositionView| p.id == id
}

/// The position does not have the id `id`.
pub open spec fn lacks_id(id: Seq<char>) -> spec_fn(PositionView) -> bool {
    |p: PositionView| p.id != id
}

/// The position reports directly to the position `id`.
pub open spec fn reports_to(id: Seq<char>) -> spec_fn(PositionView) -> bool {
    |p: PositionView| p.parent_id == Some(id)
}

/// The agent `agent` fills the position.
pub open spec fn staffed_by(agent: Seq<char>) -> spec_fn(PositionView) -> bool {
    |p: PositionView| p.agents.contains(agent)
}

/// `i` is the first position of `s` that satisfies `pred`.
pub open spec fn is_first_where(s: Seq<PositionView>, pred: spec_fn(PositionView) -> bool, i: int) -> bool {
    &&& 0 <= i < s.len()
    &&& pred(s[i])
    &&& forall|j: int| 0 <= j < i ==> !pred(s[j])
}

/// The first position of `s` that satisfies `pred`, if any.
pub open spec fn first_where(s: Seq<PositionView>, pred: spec_fn(PositionView) -> bool) -> Option<PositionView> {
    let m = s.filter(pred);
    if m.len() > 0 {
        Some(m[0])
    } else {
        None
    }
}

/// `p` with its parent replaced by `new_parent` when it reported to `id`.
pub open spec fn reparented(p: PositionView, id: Seq<char>, new_parent: Option<Seq<char>>) -> PositionView {
    if p.parent_id == Some(id) {
        PositionView { parent_id: new_parent, ..p }
    } else {
        p
    }
}

/// The chart after the positions with id `id` are removed and their direct
/// reports are moved under `new_parent`.
pub open spec fn without_position(s: Seq<PositionView>, id: Seq<char>, new_parent: Option<Seq<char>>) -> Seq<PositionView> {
    s.map_values(|p: PositionView| reparented(p, id, new_parent)).filter(lacks_id(id))
}

/// `p` with the fields that are given replaced.
pub open spec fn updated(
    p: PositionView,
    title: Option<Seq<char>>,
    parent_id: Option<Option<Seq<char>>>,
    agents: Option<Seq<Seq<char>>>,
    system_prompt: Option<Seq<char>>,
) -> PositionView {
    PositionView {
        id: p.id,
        title: match title {
            Some(t) => t,
            None => p.title,
        },
        parent_id: match parent_id {
            Some(x) => x,
            None => p.parent_id,
        },
        agents: match agents {
            Some(a) => a,
            None => p.agents,
        },
        system_prompt: match system_prompt {
            Some(s) => s,
            None => p.system_prompt,
        },
    }
}

/// Text of an optional new parent.
pub open spec fn opt_parent_text(o: Option<Option<String>>) -> Option<Option<Seq<char>>> {
    match o {
        Some(p) => Some(opt_text(p)),
        None => None,
    }
}

/// Texts of an optional list of strings.
pub open spec fn opt_texts(o: Option<Vec<String>>) -> Option<Seq<Seq<char>>> {
    match o {
        Some(a) => Some(a.deep_view()),
        None => None,
    }
}

/// The text of a generated position id: `pos_<millis>_<suffix as 4 hex digits>`.
pub open spec fn position_id_text(millis: nat, suffix: nat) -> Seq<char> {
    seq!['p', 'o', 's', '_'] + decimal(millis) + seq!['_'] + zero_pad(hexadecimal(suffix), 4)
}

/// `id` has the form of a generated position id: `pos_<millis>_<4 hex digits>`.
pub open spec fn is_position_id(id: Seq<char>) -> bool {
    exists|millis: nat, suffix: nat|
        #![trigger position_id_text(millis, suffix)]
        suffix < 0x10000 && id == position_id_text(millis, suffix)
}

/// Ten to the power `k`.
pub open spec fn pow10(k: nat) -> nat
    decreases k,
{
    if k == 0 {
        1
    } else {
        10 * pow10((k - 1) as nat)
    }
}

/// `k` zeros.
pub open spec fn zeros(k: nat) -> Seq<char> {
    Seq::new(k, |i: int| '0')
}

proof fn lemma_decimal_pow10(k: nat)
    ensures
        pow10(k) >= 1,
        decimal(pow10(k)) == seq!['1'] + zeros(k),
    decreases k,
{
    if k == 0 {
        assert(decimal(1) == seq![digit_char(1)]);
        assert(seq!['1'] + zeros(0) =~= seq!['1']);
    } else {
        let p = pow10((k - 1) as nat);
        lemma_decimal_pow10((k - 1) as nat);
        assert((10 * p) / 10 == p && (10 * p) % 10 == 0 && 10 * p >= 10) by (nonlinear_arith)
            requires
                p >= 1,
        ;
        assert(digit_char(0) == '0');
        assert(seq!['1'] + zeros(k) =~= (seq!['1'] + zeros((k - 1) as nat)).push('0'));
    }
}

/// Agent names of the positions of `s`, position by position, in order.
pub open spec fn all_agents(s: Seq<PositionView>) -> Seq<Seq<char>>
    decreases s.len(),
{
    if s.len() == 0 {
        Seq::empty()
    } else {
        all_agents(s.drop_last()) + s.last().agents
    }
}

/// Titles of the positions of `s`, in order.
pub open spec fn all_titles(s: Seq<PositionView>) -> Seq<Seq<char>> {
    s.map_values(|p: PositionView| p.title)
}

/// How a group of positions is named: its agents when it has any, else its titles,
/// joined with `、`.
pub open spec fn group_text(s: Seq<PositionView>) -> Seq<char> {
    if all_agents(s).len() > 0 {
        join(all_agents(s), "、"@)
    } else {
        join(all_titles(s), "、"@)
    }
}

/// Agent names of an index of agents to positions, in order.
pub open spec fn index_keys(ix: Seq<(String, Position)>) -> Seq<Seq<char>> {
    ix.map_values(|e: (String, Position)| e.0@)
}

/// The paragraphs of the system prompt of an agent whose personal prompt is
/// `agent_prompt`, in position `pos` of the chart `org`.
pub open spec fn prompt_parts(org: Seq<PositionView>, pos: PositionView, agent_prompt: Seq<char>) -> Seq<Seq<char>> {
    let p1 = seq!["【职位】你是公司的"@ + pos.title + "。"@];
    let p2 = match pos.parent_id {
        Some(pid) => match first_where(org, has_id(pid)) {
            Some(parent) => if parent.agents.len() > 0 {
                p1.push("你的上级是："@ + join(parent.agents, "、"@) + "。"@)
            } else {
                p1.push("你的上级是："@ + parent.title + "。"@)
            },
            None => p1,
        },
        None => p1.push("你是最高管理者，直接向用户（公司所有者）汇报。"@),
    };
    let subs = org.filter(reports_to(pos.id));
    let p3 = if subs.len() > 0 {
        p2.push("你的下属有："@ + group_text(subs) + "。你可以使用delegate工具向他们分配任务。"@)
    } else {
        p2
    };
    let p4 = if pos.system_prompt.len() > 0 {
        p3.push("【职位要求】"@ + pos.system_prompt)
    } else {
        p3
    };
    if agent_prompt.len() > 0 {
        p4.push("【个人设定】"@ + agent_prompt)
    } else {
        p4
    }
}

proof fn lemma_filter_none<A>(s: Seq<A>, pred: spec_fn(A) -> bool)
    requires
        forall|j: int| 0 <= j < s.len() ==> !pred(s[j]),
    ensures
        s.filter(pred).len() == 0,
    decreases s.len(),
{
    reveal(Seq::filter);
    if s.len() > 0 {
        lemma_filter_none(s.drop_last(), pred);
    }
}

proof fn lemma_filter_first<A>(s: Seq<A>, pred: spec_fn(A) -> bool, i: int)
    requires
        0 <= i < s.len(),
        pred(s[i]),
        forall|j: int| 0 <= j < i ==> !pred(s[j]),
    ensures
        s.filter(pred).len() > 0,
        s.filter(pred)[0] == s[i],
    decreases s.len(),
{
    reveal(Seq::filter);
    if i == s.len() - 1 {
        lemma_filter_none(s.drop_last(), pred);
    } else {
        lemma_filter_first(s.drop_last(), pred, i);
    }
}

/// The first position that satisfies a predicate is what `first_where` names.
pub(crate) proof fn lemma_first_where(s: Seq<PositionView>, pred: spec_fn(PositionView) -> bool, i: int)
    requires
        is_first_where(s, pred, i),
    ensures
        first_where(s, pred) == Some(s[i]),
{
    lemma_filter_first(s, pred, i);
}

/// With no position satisfying a predicate, `first_where` names none.
pub(crate) proof fn lemma_first_where_none(s: Seq<PositionView>, pred: spec_fn(PositionView) -> bool)
    requires
        forall|j: int| 0 <= j < s.len() ==> !pred(s[j]),
    ensures
        first_where(s, pred) is None,
{
    lemma_filter_none(s, pred);
}

/// Index of the first position with id `id`.
fn index_of_id(positions: &Vec<Position>, id: &str) -> (r: Option<usize>)
    ensures
        match r {
            Some(i) => is_first_where(views(positions@), has_id(id@), i as int),
            None => forall|j: int| 0 <= j < positions@.len() ==> !has_id(id@)(views(positions@)[j]),
        },
{
    let mut i: usize = 0;
    while i < positions.len()
        invariant
            i <= positions.len(),
            forall|j: int| 0 <= j < i ==> !has_id(id@)(views(positions@)[j]),
        decreases positions.len() - i,
    {
        if same_text(positions[i].id.as_str(), id) {
            return Some(i);
        }
        i = i + 1;
    }
    None
}

/// Index of the first position that the agent `agent` fills.
fn index_of_agent(positions: &Vec<Position>, agent: &str) -> (r: Option<usize>)
    ensures
        match r {
            Some(i) => is_first_where(views(positions@), staffed_by(agent@), i as int),
            None => forall|j: int|
                0 <= j < positions@.len() ==> !staffed_by(agent@)(views(positions@)[j]),
        },
{
    let mut i: usize = 0;
    while i < positions.len()
        invariant
            i <= positions.len(),
            forall|j: int| 0 <= j < i ==> !staffed_by(agent@)(views(positions@)[j]),
        decreases positions.len() - i,
    {
        if contains_text(&positions[i].agents, agent) {
            return Some(i);
        }
        i = i + 1;
    }
    None
}

/// Find a position by ID: the first position whose id is `id`.
pub fn find_position(org: &OrgChart, id: &str) -> (r: Option<Position>)
    ensures
        opt_view(r) == first_where(org@, has_id(id@)),
{
    match index_of_id(&org.positions, id) {
        Some(i) => {
            proof {
                lemma_first_where(org@, has_id(id@), i as int);
            }
            Some(clone_position(&org.positions[i]))
        },
        None => {
            proof {
                lemma_first_where_none(org@, has_id(id@));
            }
            None
        },
    }
}

/// Find the position an agent is assigned to: the first position that lists it.
pub fn find_agent_position(org: &OrgChart, agent_name: &str) -> (r: Option<Position>)
    ensures
        opt_view(r) == first_where(org@, staffed_by(agent_name@)),
{
    match index_of_agent(&org.positions, agent_name) {
        Some(i) => {
            proof {
                lemma_first_where(org@, staffed_by(agent_name@), i as int);
            }
            Some(clone_position(&org.positions[i]))
        },
        None => {
            proof {
                lemma_first_where_none(org@, staffed_by(agent_name@));
            }
            None
        },
    }
}

/// Get the direct subordinates of a position, in chart order.
pub fn get_subordinates(org: &OrgChart, position_id: &str) -> (r: Vec<Position>)
    ensures
        views(r@) == org@.filter(reports_to(position_id@)),
{
    let mut r: Vec<Position> = Vec::new();
    let mut i: usize = 0;
    while i < org.positions.len()
        invariant
            i <= org.positions.len(),
            views(r@) == org@.take(i as int).filter(reports_to(position_id@)),
        decreases org.positions.len() - i,
    {
        let ghost before = r@;
        let reports = match &org.positions[i].parent_id {
            Some(pid) => same_text(pid.as_str(), position_id),
            None => false,
        };
        proof {
            assert(org@.take(i + 1) =~= org@.take(i as int).push(org@[i as int]));
            org@.take(i as int).lemma_filter_push(org@[i as int], reports_to(position_id@));
        }
        if reports {
            r.push(clone_position(&org.positions[i]));
            assert(views(r@) =~= views(before).push(org@[i as int]));
        }
        i = i + 1;
    }
    assert(org@.take(org.positions.len() as int) =~= org@);
    r
}

/// Remove a position. Children are re-parented to the removed position's parent.
/// Every position with the id goes; the first one names the new parent.
pub fn remove_position(org: &mut OrgChart, id: &str) -> (r: Result<(), String>)
    ensures
        match first_where(old(org)@, has_id(id@)) {
            None => r is Err && r->Err_0@ == "Position not found"@ && final(org)@ == old(org)@,
            Some(target) => r is Ok && final(org)@ == without_position(
                old(org)@,
                id@,
                target.parent_id,
            ),
        },
{
    let k = match index_of_id(&org.positions, id) {
        Some(k) => k,
        None => {
            proof {
                lemma_first_where_none(org@, has_id(id@));
            }
            return Err(String::from_str("Position not found"));
        },
    };
    proof {
        lemma_first_where(org@, has_id(id@), k as int);
    }
    let new_parent = clone_opt_text(&org.positions[k].parent_id);
    let ghost np = opt_text(new_parent);
    let ghost old_view = org@;
    let ghost f = |p: PositionView| reparented(p, id@, np);
    let mut kept: Vec<Position> = Vec::new();
    let mut i: usize = 0;
    while i < org.positions.len()
        invariant
            i <= org.positions.len(),
            org@ == old_view,
            opt_text(new_parent) == np,
            f == (|p: PositionView| reparented(p, id@, np)),
            views(kept@) == old_view.take(i as int).map_values(f).filter(lacks_id(id@)),
        decreases org.positions.len() - i,
    {
        let ghost before = kept@;
        proof {
            assert(old_view.take(i + 1).map_values(f) =~= old_view.take(i as int).map_values(f).push(
                f(old_view[i as int]),
            ));
            old_view.take(i as int).map_values(f).lemma_filter_push(
                f(old_view[i as int]),
                lacks_id(id@),
            );
        }
        if !same_text(org.positions[i].id.as_str(), id) {
            let mut q = clone_position(&org.positions[i]);
            let moves = match &q.parent_id {
                Some(pid) => same_text(pid.as_str(), id),
                None => false,
            };
            if moves {
                q.parent_id = clone_opt_text(&new_parent);
            }
            assert(q@ == f(old_view[i as int]));
            kept.push(q);
            assert(views(kept@) =~= views(before).push(f(old_view[i as int])));
        }
        i = i + 1;
    }
    assert(old_view.take(old_view.len() as int) =~= old_view);
    org.positions = kept;
    Ok(())
}

/// Whether the chain of superiors above `start`, followed for as many steps as the
/// chart has positions, ends without meeting `id`.
fn chain_clear_of(org: &OrgChart, start: &str, id: &str) -> (r: bool)
    ensures
        r == ends_clear_of(org@, Some(start@), id@, org@.len()),
{
    let mut cur: Option<String> = Some(start.to_owned());
    let mut fuel: usize = org.positions.len();
    loop
        invariant
            ends_clear_of(org@, Some(start@), id@, org@.len()) == ends_clear_of(org@, opt_text(cur), id@, fuel as nat),
        decreases fuel,
    {
        let y = match cur {
            None => {
                return true;
            },
            Some(y) => y,
        };
        if same_text(y.as_str(), id) {
            return false;
        }
        if fuel == 0 {
            return false;
        }
        cur = match find_position(org, y.as_str()) {
            Some(p) => p.parent_id,
            None => None,
        };
        fuel = fuel - 1;
    }
}

/// Update a position's fields: the first position with id `id` takes each field
/// that is given. A new parent that is the position itself or lies below it would
/// break the tree, and is refused with the chart left as it was.
pub fn update_position(
    org: &mut OrgChart,
    id: &str,
    title: Option<String>,
    parent_id: Option<Option<String>>,
    agents: Option<Vec<String>>,
    system_prompt: Option<String>,
) -> (r: Result<(), String>)
    ensures
        match first_where(old(org)@, has_id(id@)) {
            None => r is Err && r->Err_0@ == "Position not found"@ && final(org)@ == old(org)@,
            Some(_) => if creates_cycle(old(org)@, id@, opt_parent_text(parent_id)) {
                r is Err && r->Err_0@ == "Parent would create a cycle"@ && final(org)@ == old(org)@
            } else {
                r is Ok && exists|k: int|
                is_first_where(old(org)@, has_id(id@), k) && final(org)@ == old(org)@.update(
                    k,
                    updated(
                        old(org)@[k],
                        opt_text(title),
                        opt_parent_text(parent_id),
                        opt_texts(agents),
                        opt_text(system_prompt),
                    ),
                )
            },
        },
{
    let k = match index_of_id(&org.positions, id) {
        Some(k) => k,
        None => {
            proof {
                lemma_first_where_none(org@, has_id(id@));
            }
            return Err(String::from_str("Position not found"));
        },
    };
    proof {
        lemma_first_where(org@, has_id(id@), k as int);
    }
    if let Some(Some(p)) = &parent_id {
        if !chain_clear_of(org, p.as_str(), id) {
            return Err(String::from_str("Parent would create a cycle"));
        }
    }
    let ghost old_view = org@;
    let ghost new_fields = updated(
        old_view[k as int],
        opt_text(title),
        opt_parent_text(parent_id),
        opt_texts(agents),
        opt_text(system_prompt),
    );
    let mut pos = clone_position(&org.positions[k]);
    if let Some(t) = title {
        pos.title = t;
    }
    if let Some(p) = parent_id {
        pos.parent_id = p;
    }
    if let Some(a) = agents {
        pos.agents = a;
    }
    if let Some(s) = system_prompt {
        pos.system_prompt = s;
    }
    assert(pos@ == new_fields);
    org.positions.set(k, pos);
    assert(org@ =~= old_view.update(k as int, new_fields));
    Ok(())
}

/// Builds a position id from the clock reading: `pos_<millis>_<low 16 bits of the
/// nanoseconds, as 4 hex digits>`.
pub fn position_id(millis: u128, nanos: u32) -> (r: String)
    ensures
        r@ == position_id_text(millis as nat, (nanos & 0xFFFF) as nat),
        (nanos & 0xFFFF) < 0x10000,
{
    let suffix = nanos & 0xFFFF;
    assert(nanos & 0xFFFF < 0x10000) by (bit_vector);
    let mut out = String::from_str("pos_");
    assert(out@ =~= seq!['p', 'o', 's', '_']) by {
        reveal_strlit("pos_");
    }
    push_padded_decimal(&mut out, millis, 0);
    push_char(&mut out, '_');
    push_padded_hex(&mut out, suffix as u128, 4);
    proof {
        assert(zero_pad(decimal(millis as nat), 0) == decimal(millis as nat));
        assert(out@ =~= position_id_text(millis as nat, suffix as nat));
    }
    out
}

/// Generate a position id from the current time.
fn gen_id() -> (r: String)
    ensures
        exists|millis: nat, suffix: nat|
            #![trigger position_id_text(millis, suffix)]
            suffix < 0x10000 && r@ == position_id_text(millis, suffix),
{
    let millis = unix_millis();
    let nanos = unix_subsec_nanos();
    let id = position_id(millis, nanos);
    assert(position_id_text(millis as nat, (nanos & 0xFFFF) as nat) == id@);
    id
}

/// Whether the text `c` is in use as an id in the chart: some position has it as
/// its id or its parent, or it is the parent a new position is to get.
fn id_in_use(org: &OrgChart, parent_id: &Option<String>, c: &str) -> (r: bool)
    ensures
        r == (!unused_id(org@, c@) || opt_text(*parent_id) == Some(c@)),
{
    if let Some(p) = parent_id {
        if same_text(p.as_str(), c) {
            return true;
        }
    }
    let mut i: usize = 0;
    while i < org.positions.len()
        invariant
            i <= org.positions.len(),
            opt_text(*parent_id) != Some(c@),
            forall|j: int| 0 <= j < i ==> (#[trigger] org@[j]).id != c@ && org@[j].parent_id != Some(c@),
        decreases org.positions.len() - i,
    {
        if same_text(org.positions[i].id.as_str(), c) {
            assert(org@[i as int].id == c@);
            return true;
        }
        if let Some(q) = &org.positions[i].parent_id {
            if same_text(q.as_str(), c) {
                assert(org@[i as int].parent_id == Some(c@));
                return true;
            }
        }
        i = i + 1;
    }
    false
}

/// The length of the longest text in use as an id: any position's id or parent,
/// or the parent a new position is to get.
fn longest_id_in_use(org: &OrgChart, parent_id: &Option<String>) -> (r: usize)
    ensures
        forall|i: int|
            0 <= i < org@.len() ==> (#[trigger] org@[i]).id.len() <= r && (org@[i].parent_id matches Some(
                q,
            ) ==> q.len() <= r),
        opt_text(*parent_id) matches Some(q) ==> q.len() <= r,
{
    let mut longest: usize = match parent_id {
        Some(p) => p.as_str().unicode_len(),
        None => 0,
    };
    let mut i: usize = 0;
    while i < org.positions.len()
        invariant
            i <= org.positions.len(),
            opt_text(*parent_id) matches Some(q) ==> q.len() <= longest,
            forall|j: int|
                0 <= j < i ==> (#[trigger] org@[j]).id.len() <= longest && (org@[j].parent_id matches Some(
                    q,
                ) ==> q.len() <= longest),
        decreases org.positions.len() - i,
    {
        let n = org.positions[i].id.as_str().unicode_len();
        if n > longest {
            longest = n;
        }
        if let Some(q) = &org.positions[i].parent_id {
            let m = q.as_str().unicode_len();
            if m > longest {
                longest = m;
            }
        }
        i = i + 1;
    }
    longest
}

/// A position id longer than every text in use, so that it is new to the chart:
/// `pos_1<zeros>_0000`, with as many zeros as the longest text in use has
/// characters.
fn spacious_position_id(org: &OrgChart, parent_id: &Option<String>) -> (r: String)
    ensures
        is_position_id(r@),
        unused_id(org@, r@),
        opt_text(*parent_id) != Some(r@),
{
    let longest = longest_id_in_use(org, parent_id);
    let mut out = String::from_str("pos_");
    assert(out@ =~= seq!['p', 'o', 's', '_']) by {
        reveal_strlit("pos_");
    }
    push_char(&mut out, '1');
    let ghost head = out@;
    let mut k: usize = 0;
    while k < longest
        invariant
            k <= longest,
            out@ == head + zeros(k as nat),
        decreases longest - k,
    {
        push_char(&mut out, '0');
        k = k + 1;
        assert(out@ =~= head + zeros(k as nat));
    }
    push_char(&mut out, '_');
    push_padded_hex(&mut out, 0, 4);
    proof {
        lemma_decimal_pow10(longest as nat);
        assert(out@ =~= position_id_text(pow10(longest as nat), 0));
        assert(out@.len() > longest);
    }
    out
}

/// Add a new position, with a generated id, no agents and an empty prompt, at the
/// end of the chart. The id is new to the chart: no position has it or reports to
/// it, and it is not the new position's own parent. It is the id the clock gives,
/// or, should that be in use, a longer one of the same form.
pub fn add_position(org: &mut OrgChart, title: String, parent_id: Option<String>) -> (r: Position)
    ensures
        is_position_id(r@.id),
        unused_id(old(org)@, r@.id),
        r@.parent_id != Some(r@.id),
        r@.title == title@,
        r@.parent_id == opt_text(parent_id),
        r@.agents == Seq::<Seq<char>>::empty(),
        r@.system_prompt == Seq::<char>::empty(),
        final(org)@ == old(org)@.push(r@),
{
    let clock_id = gen_id();
    let id = if id_in_use(org, &parent_id, clock_id.as_str()) {
        spacious_position_id(org, &parent_id)
    } else {
        clock_id
    };
    let pos = Position {
        id,
        title,
        parent_id,
        agents: Vec::new(),
        system_prompt: String::new(),
    };
    assert(pos@.agents =~= Seq::<Seq<char>>::empty());
    let ghost old_view = org@;
    org.positions.push(clone_position(&pos));
    assert(org@ =~= old_view.push(pos@));
    pos
}

/// Put the agent `agent` into the position `id` (the first with that id), after
/// the agents it already has, and return the position as it now is; `None`, with
/// the chart unchanged, when no position has the id.
pub fn add_agent_to_position(org: &mut OrgChart, id: &str, agent: String) -> (r: Option<Position>)
    ensures
        match first_where(old(org)@, has_id(id@)) {
            None => r is None && final(org)@ == old(org)@,
            Some(p) => exists|k: int|
                is_first_where(old(org)@, has_id(id@), k) && (r matches Some(q) && q@ == (PositionView {
                    agents: p.agents.push(agent@),
                    ..p
                }) && final(org)@ == old(org)@.update(k, q@)),
        },
{
    let k = match index_of_id(&org.positions, id) {
        Some(k) => k,
        None => {
            proof {
                lemma_first_where_none(org@, has_id(id@));
            }
            return None;
        },
    };
    proof {
        lemma_first_where(org@, has_id(id@), k as int);
    }
    let ghost old_view = org@;
    let mut pos = clone_position(&org.positions[k]);
    let ghost before = pos.agents;
    let c = agent;
    pos.agents.push(c);
    proof {
        lemma_texts_push(pos.agents, before, c);
    }
    let result = clone_position(&pos);
    org.positions.set(k, pos);
    assert(org@ =~= old_view.update(k as int, result@));
    Some(result)
}

/// Whether `agent` is already a key of the index.
fn index_has(ix: &Vec<(String, Position)>, agent: &str) -> (r: bool)
    ensures
        r == index_keys(ix@).contains(agent@),
{
    let mut i: usize = 0;
    while i < ix.len()
        invariant
            i <= ix.len(),
            forall|j: int| 0 <= j < i ==> index_keys(ix@)[j] != agent@,
        decreases ix.len() - i,
    {
        if same_text(ix[i].0.as_str(), agent) {
            assert(index_keys(ix@)[i as int] == agent@);
            return true;
        }
        i = i + 1;
    }
    false
}

/// Build an index from agent name to the position that agent fills, for lookups
/// by name. Each agent of the chart occurs once, with the first position listing it.
pub fn build_agent_position_index(org: &OrgChart) -> (r: Vec<(String, Position)>)
    ensures
        index_keys(r@).no_duplicates(),
        forall|a: Seq<char>|
            index_keys(r@).contains(a) <==> exists|i: int| 0 <= i < org@.len() && (#[trigger] org@[i].agents).contains(a),
        forall|k: int|
            0 <= k < r@.len() ==> first_where(org@, staffed_by(r@[k].0@)) == Some(#[trigger] r@[k].1@),
{
    let mut ix: Vec<(String, Position)> = Vec::new();
    let mut i: usize = 0;
    while i < org.positions.len()
        invariant
            i <= org.positions.len(),
            index_keys(ix@).no_duplicates(),
            forall|a: Seq<char>|
                index_keys(ix@).contains(a) <==> exists|i2: int| 0 <= i2 < i && (#[trigger] org@[i2].agents).contains(a),
            forall|k: int|
                0 <= k < ix@.len() ==> first_where(org@, staffed_by(ix@[k].0@)) == Some(#[trigger] ix@[k].1@),
        decreases org.positions.len() - i,
    {
        let agents = &org.positions[i].agents;
        let mut j: usize = 0;
        while j < agents.len()
            invariant
                i < org.positions.len(),
                agents == &org.positions@[i as int].agents,
                j <= agents.len(),
                index_keys(ix@).no_duplicates(),
                forall|a: Seq<char>|
                    index_keys(ix@).contains(a) <==> (exists|i2: int| 0 <= i2 < i && (#[trigger] org@[i2].agents).contains(a))
                        || agents.deep_view().take(j as int).contains(a),
                forall|k: int|
                    0 <= k < ix@.len() ==> first_where(org@, staffed_by(ix@[k].0@)) == Some(#[trigger] ix@[k].1@),
            decreases agents.len() - j,
        {
            let ghost before = ix@;
            let ghost name = agents.deep_view()[j as int];
            assert(agents.deep_view().take(j + 1) =~= agents.deep_view().take(j as int).push(name));
            let present = index_has(&ix, agents[j].as_str());
            if !present {
                proof {
                    assert forall|i2: int| 0 <= i2 < i implies !staffed_by(name)(org@[i2]) by {
                        if org@[i2].agents.contains(name) {
                            assert(index_keys(ix@).contains(name));
                        }
                    }
                    assert(org@[i as int].agents[j as int] == name);
                    lemma_first_where(org@, staffed_by(name), i as int);
                }
                ix.push((agents[j].clone(), clone_position(&org.positions[i])));
                assert(index_keys(ix@) =~= index_keys(before).push(name));
            }
            proof {
                assert forall|a: Seq<char>|
                    index_keys(ix@).contains(a) <==> (exists|i2: int| 0 <= i2 < i && (#[trigger] org@[i2].agents).contains(a))
                        || agents.deep_view().take(j + 1).contains(a) by {
                    lemma_push_contains(agents.deep_view().take(j as int), name, a);
                    if !present {
                        lemma_push_contains(index_keys(before), name, a);
                    }
                }
            }
            j = j + 1;
        }
        assert(agents.deep_view().take(agents.len() as int) =~= org@[i as int].agents);
        i = i + 1;
    }
    ix
}

/// Agent names of the given positions, position by position.
pub(crate) fn agents_of(ps: &Vec<Position>) -> (r: Vec<String>)
    ensures
        r.deep_view() == all_agents(views(ps@)),
{
    let mut names: Vec<String> = Vec::new();
    let mut i: usize = 0;
    while i < ps.len()
        invariant
            i <= ps.len(),
            names.deep_view() == all_agents(views(ps@).take(i as int)),
        decreases ps.len() - i,
    {
        let agents = &ps[i].agents;
        let ghost start = names.deep_view();
        let mut j: usize = 0;
        while j < agents.len()
            invariant
                i < ps.len(),
                agents == &ps@[i as int].agents,
                j <= agents.len(),
                names.deep_view() == start + agents.deep_view().take(j as int),
            decreases agents.len() - j,
        {
            let ghost before = names;
            let c = agents[j].clone();
            names.push(c);
            proof {
                lemma_texts_push(names, before, c);
                assert(agents.deep_view().take(j + 1) =~= agents.deep_view().take(j as int).push(c@));
            }
            j = j + 1;
            assert(names.deep_view() =~= start + agents.deep_view().take(j as int));
        }
        assert(views(ps@).take(i + 1).drop_last() =~= views(ps@).take(i as int));
        assert(agents.deep_view().take(agents.len() as int) =~= agents.deep_view());
        i = i + 1;
    }
    assert(views(ps@).take(ps.len() as int) =~= views(ps@));
    names
}

/// Titles of the given positions.
fn titles_of(ps: &Vec<Position>) -> (r: Vec<String>)
    ensures
        r.deep_view() == all_titles(views(ps@)),
{
    let mut titles: Vec<String> = Vec::new();
    let mut i: usize = 0;
    while i < ps.len()
        invariant
            i <= ps.len(),
            titles@.len() == i,
            forall|j: int| 0 <= j < i ==> titles@[j]@ == ps@[j].title@,
        decreases ps.len() - i,
    {
        titles.push(ps[i].title.clone());
        i = i + 1;
    }
    assert(titles.deep_view() =~= all_titles(views(ps@)));
    titles
}

/// How a group of positions is named: its agents when it has any, else its
/// titles, joined with `、`.
pub fn group_display(ps: &Vec<Position>) -> (r: String)
    ensures
        r@ == group_text(views(ps@)),
{
    let names = agents_of(ps);
    if names.len() > 0 {
        join_texts(&names, "、")
    } else {
        let titles = titles_of(ps);
        join_texts(&titles, "、")
    }
}

/// Build the combined system prompt for an agent in a position: the position, its
/// superior, its subordinates, the position's own prompt and the agent's personal
/// prompt, as paragraphs separated by a blank line.
pub fn build_system_prompt(org: &OrgChart, position: &Position, agent: &AgentConfig) -> (r: String)
    ensures
        r@ == join(prompt_parts(org@, position@, agent.system_prompt@), "\n\n"@),
{
    let mut parts: Vec<String> = Vec::new();
    let mut first = String::from_str("【职位】你是公司的");
    first.append(position.title.as_str());
    first.append("。");
    parts.push(first);
    match &position.parent_id {
        Some(pid) => {
            match find_position(org, pid.as_str()) {
                Some(parent) => {
                    let mut line = String::from_str("你的上级是：");
                    if parent.agents.len() > 0 {
                        let names = join_texts(&parent.agents, "、");
                        line.append(names.as_str());
                    } else {
                        line.append(parent.title.as_str());
                    }
                    line.append("。");
                    parts.push(line);
                },
                None => {},
            }
        },
        None => {
            parts.push(String::from_str("你是最高管理者，直接向用户（公司所有者）汇报。"));
        },
    }
    let subs = get_subordinates(org, position.id.as_str());
    if subs.len() > 0 {
        let mut line = String::from_str("你的下属有：");
        let names = group_display(&subs);
        line.append(names.as_str());
        line.append("。你可以使用delegate工具向他们分配任务。");
        parts.push(line);
    }
    if position.system_prompt.as_str().unicode_len() > 0 {
        let mut line = String::from_str("【职位要求】");
        line.append(position.system_prompt.as_str());
        parts.push(line);
    }
    if agent.system_prompt.as_str().unicode_len() > 0 {
        let mut line = String::from_str("【个人设定】");
        line.append(agent.system_prompt.as_str());
        parts.push(line);
    }
    assert(parts.deep_view() =~= prompt_parts(org@, position@, agent.system_prompt@));
    join_texts(&parts, "\n\n")
}

/// After a position is removed, no position has its id, and, unless the removed
/// position reported to itself, none reports to it: its direct reports moved to
/// its parent.
pub proof fn law_removed_position_leaves_no_trace(s: Seq<PositionView>, id: Seq<char>, target: PositionView)
    requires
        first_where(s, has_id(id)) == Some(target),
    ensures
        forall|i: int|
            0 <= i < without_position(s, id, target.parent_id).len() ==> (#[trigger] without_position(
                s,
                id,
                target.parent_id,
            )[i]).id != id,
        target.parent_id != Some(id) ==> forall|i: int|
            0 <= i < without_position(s, id, target.parent_id).len() ==> (#[trigger] without_position(
                s,
                id,
                target.parent_id,
            )[i]).parent_id != Some(id),
{
    let m = s.map_values(|p: PositionView| reparented(p, id, target.parent_id));
    let w = without_position(s, id, target.parent_id);
    assert forall|i: int| 0 <= i < w.len() implies (#[trigger] w[i]).id != id && (target.parent_id
        != Some(id) ==> w[i].parent_id != Some(id)) by {
        m.lemma_filter_pred(lacks_id(id), i);
        assert(w.contains(w[i]));
        m.lemma_filter_contains_rev(lacks_id(id), w[i]);
        let k = choose|k: int| 0 <= k < m.len() && m[k] == w[i];
        assert(m[k] == reparented(s[k], id, target.parent_id));
    }
}

/// A position added under an id that no other position has is what a lookup of
/// that id finds.
pub proof fn law_added_position_is_found(s: Seq<PositionView>, p: PositionView)
    requires
        forall|j: int| 0 <= j < s.len() ==> s[j].id != p.id,
    ensures
        first_where(s.push(p), has_id(p.id)) == Some(p),
{
    lemma_first_where(s.push(p), has_id(p.id), s.len() as int);
}

/// After a position is updated, a lookup of its id finds the updated position:
/// the update keeps the id, so the same position is still the first with it.
pub proof fn law_updated_position_is_found(
    s: Seq<PositionView>,
    id: Seq<char>,
    k: int,
    title: Option<Seq<char>>,
    parent_id: Option<Option<Seq<char>>>,
    agents: Option<Seq<Seq<char>>>,
    system_prompt: Option<Seq<char>>,
)
    requires
        is_first_where(s, has_id(id), k),
    ensures
        first_where(
            s.update(k, updated(s[k], title, parent_id, agents, system_prompt)),
            has_id(id),
        ) == Some(updated(s[k], title, parent_id, agents, system_prompt)),
{
    let u = s.update(k, updated(s[k], title, parent_id, agents, system_prompt));
    assert(is_first_where(u, has_id(id), k)) by {
        assert forall|j: int| 0 <= j < k implies !has_id(id)(u[j]) by {
            assert(u[j] == s[j]);
        }
    }
    lemma_first_where(u, has_id(id), k);
}

/// Updating a position replaces exactly the fields that are given, each by the
/// given value (an agents list replaces the old one; it is not merged), keeps its
/// id and every field that is not given, and leaves every other position as it was.
pub proof fn law_update_replaces_given_fields(
    s: Seq<PositionView>,
    k: int,
    title: Option<Seq<char>>,
    parent_id: Option<Option<Seq<char>>>,
    agents: Option<Seq<Seq<char>>>,
    system_prompt: Option<Seq<char>>,
)
    requires
        0 <= k < s.len(),
    ensures
        ({
            let t = s.update(k, updated(s[k], title, parent_id, agents, system_prompt));
            &&& t.len() == s.len()
            &&& t[k].id == s[k].id
            &&& (title matches Some(v) ==> t[k].title == v)
            &&& (title is None ==> t[k].title == s[k].title)
            &&& (parent_id matches Some(v) ==> t[k].parent_id == v)
            &&& (parent_id is None ==> t[k].parent_id == s[k].parent_id)
            &&& (agents matches Some(v) ==> t[k].agents == v)
            &&& (agents is None ==> t[k].agents == s[k].agents)
            &&& (system_prompt matches Some(v) ==> t[k].system_prompt == v)
            &&& (system_prompt is None ==> t[k].system_prompt == s[k].system_prompt)
            &&& forall|j: int| 0 <= j < s.len() && j != k ==> t[j] == s[j]
        }),
{
}

proof fn lemma_removal_commutes(s: Seq<PositionView>, id: Seq<char>, np: Option<Seq<char>>)
    ensures
        without_position(s, id, np) == s.filter(lacks_id(id)).map_values(
            |p: PositionView| reparented(p, id, np),
        ),
    decreases s.len(),
{
    let f = |p: PositionView| reparented(p, id, np);
    if s.len() == 0 {
        assert(without_position(s, id, np) =~= Seq::<PositionView>::empty());
        assert(s.filter(lacks_id(id)) =~= Seq::<PositionView>::empty());
    } else {
        let r = s.drop_last();
        let a = s.last();
        lemma_removal_commutes(r, id, np);
        assert(s =~= r.push(a));
        assert(s.map_values(f) =~= r.map_values(f).push(f(a)));
        r.map_values(f).lemma_filter_push(f(a), lacks_id(id));
        r.lemma_filter_push(a, lacks_id(id));
        assert(r.filter(lacks_id(id)).push(a).map_values(f) =~= r.filter(lacks_id(id)).map_values(f).push(f(a)));
    }
}

/// Removing the position `id` keeps the other positions, in order, each with its
/// id, title, agents and system prompt unchanged; the only change to a remaining
/// position is that a parent equal to `id` becomes `new_parent`.
pub proof fn law_removal_changes_only_parents(s: Seq<PositionView>, id: Seq<char>, new_parent: Option<Seq<char>>)
    ensures
        ({
            let w = without_position(s, id, new_parent);
            let kept = s.filter(lacks_id(id));
            &&& w.len() == kept.len()
            &&& forall|i: int|
                0 <= i < w.len() ==> {
                    &&& (#[trigger] w[i]).id == kept[i].id
                    &&& w[i].id != id
                    &&& w[i].title == kept[i].title
                    &&& w[i].agents == kept[i].agents
                    &&& w[i].system_prompt == kept[i].system_prompt
                    &&& w[i].parent_id == if kept[i].parent_id == Some(id) {
                        new_parent
                    } else {
                        kept[i].parent_id
                    }
                }
        }),
{
    lemma_removal_commutes(s, id, new_parent);
    let kept = s.filter(lacks_id(id));
    assert forall|i: int| 0 <= i < kept.len() implies kept[i].id != id by {
        s.lemma_filter_pred(lacks_id(id), i);
    }
}

proof fn lemma_occurs_in_longer(a: Seq<char>, b: Seq<char>, needle: Seq<char>, i: int)
    requires
        occurs_at(a, needle, i),
    ensures
        occurs_at(a + b, needle, i),
{
    assert((a + b).subrange(i, i + needle.len()) =~= a.subrange(i, i + needle.len()));
}

/// Each part of a joined text occurs in it.
proof fn lemma_join_holds_parts(parts: Seq<Seq<char>>, sep: Seq<char>, k: int)
    requires
        0 <= k < parts.len(),
    ensures
        contains_seq(join(parts, sep), parts[k]),
    decreases parts.len(),
{
    if parts.len() == 1 {
        assert(occurs_at(join(parts, sep), parts[k], 0)) by {
            assert(join(parts, sep).subrange(0, parts[0].len() as int) =~= parts[0]);
        }
    } else if k == parts.len() - 1 {
        let front = join(parts.drop_last(), sep) + sep;
        let at = front.len() as int;
        assert(join(parts, sep) == front + parts.last());
        assert((front + parts.last()).subrange(at, at + parts.last().len()) =~= parts.last());
        assert(occurs_at(join(parts, sep), parts[k], at));
    } else {
        lemma_join_holds_parts(parts.drop_last(), sep, k);
        let i = choose|i: int| occurs_at(join(parts.drop_last(), sep), parts[k], i);
        lemma_occurs_in_longer(join(parts.drop_last(), sep), sep + parts.last(), parts[k], i);
        assert(join(parts.drop_last(), sep) + (sep + parts.last()) =~= join(parts, sep));
    }
}

/// The system prompt of an agent keeps the position's requirements whenever the
/// position has a prompt of its own, and the agent's personal prompt whenever the
/// agent has one, each as its own paragraph, whatever the other holds.
pub proof fn law_prompt_keeps_both_prompts(org: Seq<PositionView>, pos: PositionView, agent_prompt: Seq<char>)
    ensures
        pos.system_prompt.len() > 0 ==> contains_seq(
            join(prompt_parts(org, pos, agent_prompt), "\n\n"@),
            "【职位要求】"@ + pos.system_prompt,
        ),
        agent_prompt.len() > 0 ==> contains_seq(
            join(prompt_parts(org, pos, agent_prompt), "\n\n"@),
            "【个人设定】"@ + agent_prompt,
        ),
        prompt_parts(org, pos, agent_prompt)[0] == "【职位】你是公司的"@ + pos.title + "。"@,
{
    let parts = prompt_parts(org, pos, agent_prompt);
    if pos.system_prompt.len() > 0 {
        let n = if agent_prompt.len() > 0 {
            parts.len() - 2
        } else {
            parts.len() - 1
        };
        assert(parts[n] == "【职位要求】"@ + pos.system_prompt);
        lemma_join_holds_parts(parts, "\n\n"@, n);
    }
    if agent_prompt.len() > 0 {
        lemma_join_holds_parts(parts, "\n\n"@, parts.len() - 1);
    }
}

} // verus!

//! The task board: tasks with a status, assigned agents and progress in percent.
use vstd::prelude::*;

use crate::clock::unix_millis;
use crate::text::{
    chars_of, clone_texts, decimal, hexadecimal, opt_text, push_char, push_padded_decimal,
    push_padded_hex, same_text, trim_chars, trimmed, zero_pad,
};

verus! {

/// A task on the board. `status` is one of "pending", "in_progress", "done";
/// `progress` is a percentage from 0 to 100.
#[derive(Clone, Debug, Default, PartialEq)]
pub struct Task {
    pub id: String,
    pub title: String,
    pub description: String,
    pub status: String,
    pub agents: Vec<String>,
    pub progress: u32,
}

/// Abstract value of a task.
pub struct TaskView {
    pub id: Seq<char>,
    pub title: Seq<char>,
    pub description: Seq<char>,
    pub status: Seq<char>,
    pub agents: Seq<Seq<char>>,
    pub progress: u32,
}

impl View for Task {
    type V = TaskView;

    open spec fn view(&self) -> TaskView {
        TaskView {
            id: self.id@,
            title: self.title@,
            description: self.description@,
            status: self.status@,
            agents: self.agents.deep_view(),
            progress: self.progress,
        }
    }
}

/// The board: all tasks, in creation order.
#[derive(Clone, Debug, Default, PartialEq)]
pub struct TaskBoard {
    pub tasks: Vec<Task>,
}

/// Abstract values of a list of tasks.
pub open spec fn task_views(v: Seq<Task>) -> Seq<TaskView> {
    v.map_values(|t: Task| t@)
}

impl View for TaskBoard {
    type V = Seq<TaskView>;

    open spec fn view(&self) -> Seq<TaskView> {
        task_views(self.tasks@)
    }
}

/// The body of a request that creates a task.
#[derive(Clone, Debug, PartialEq)]
pub struct CreateTaskBody {
    pub title: String,
    pub description: String,
}

/// The body of a request that updates a task: each field given replaces the task's.
#[derive(Clone, Debug, PartialEq)]
pub struct UpdateTaskBody {
    pub title: Option<String>,
    pub description: Option<String>,
    pub status: Option<String>,
    pub agents: Option<Vec<String>>,
    pub progress: Option<u32>,
}

/// The task does not have the id `id`.
pub open spec fn task_lacks_id(id: Seq<char>) -> spec_fn(TaskView) -> bool {
    |t: TaskView| t.id != id
}

/// `i` is the first task of `s` with id `id`.
pub open spec fn is_first_task(s: Seq<TaskView>, id: Seq<char>, i: int) -> bool {
    &&& 0 <= i < s.len()
    &&& s[i].id == id
    &&& forall|j: int| 0 <= j < i ==> s[j].id != id
}

/// Some task of `s` has id `id`.
pub open spec fn has_task(s: Seq<TaskView>, id: Seq<char>) -> bool {
    exists|i: int| 0 <= i < s.len() && s[i].id == id
}

/// Every task's progress is at most 100.
pub open spec fn progress_in_range(s: Seq<TaskView>) -> bool {
    forall|i: int| 0 <= i < s.len() ==> s[i].progress <= 100
}

/// `t` with the fields that are given replaced; a progress above 100 is taken as 100.
pub open spec fn task_updated(
    t: TaskView,
    title: Option<Seq<char>>,
    description: Option<Seq<char>>,
    status: Option<Seq<char>>,
    agents: Option<Seq<Seq<char>>>,
    progress: Option<u32>,
) -> TaskView {
    TaskView {
        id: t.id,
        title: match title {
            Some(v) => v,
            None => t.title,
        },
        description: match description {
            Some(v) => v,
            None => t.description,
        },
        status: match status {
            Some(v) => v,
            None => t.status,
        },
        agents: match agents {
            Some(v) => v,
            None => t.agents,
        },
        progress: match progress {
            Some(v) => if v > 100 {
                100
            } else {
                v
            },
            None => t.progress,
        },
    }
}

/// Texts of an optional list of strings.
pub open spec fn opt_task_agents(o: Option<Vec<String>>) -> Option<Seq<Seq<char>>> {
    match o {
        Some(a) => Some(a.deep_view()),
        None => None,
    }
}

/// The 16-bit suffix of a task id: the low two 16-bit halves of the millisecond
/// count combined with exclusive or.
pub open spec fn task_id_suffix(millis: u128) -> u16 {
    ((millis & 0xFFFF) as u16) ^ (((millis >> 16) & 0xFFFF) as u16)
}

/// The text of a generated task id: `task_<millis>_<suffix as 4 hex digits>`.
pub open spec fn task_id_text(millis: u128) -> Seq<char> {
    seq!['t', 'a', 's', 'k', '_'] + decimal(millis as nat) + seq!['_'] + zero_pad(
        hexadecimal(task_id_suffix(millis) as nat),
        4,
    )
}

/// `id` has the form of a generated task id.
pub open spec fn is_task_id(id: Seq<char>) -> bool {
    exists|millis: u128| id == task_id_text(millis)
}

/// Builds a task id from a millisecond clock reading.
pub fn task_id(millis: u128) -> (r: String)
    ensures
        r@ == task_id_text(millis),
{
    let low = (millis & 0xFFFF) as u16;
    let high = ((millis >> 16) & 0xFFFF) as u16;
    let suffix: u16 = low ^ high;
    let mut out = String::from_str("task_");
    assert(out@ =~= seq!['t', 'a', 's', 'k', '_']) by {
        reveal_strlit("task_");
    }
    push_padded_decimal(&mut out, millis, 0);
    push_char(&mut out, '_');
    push_padded_hex(&mut out, suffix as u128, 4);
    assert(out@ =~= task_id_text(millis));
    out
}

fn gen_id() -> (r: String)
    ensures
        is_task_id(r@),
{
    let millis = unix_millis();
    task_id(millis)
}

fn clone_task(t: &Task) -> (r: Task)
    ensures
        r@ == t@,
{
    Task {
        id: t.id.clone(),
        title: t.title.clone(),
        description: t.description.clone(),
        status: t.status.clone(),
        agents: clone_texts(&t.agents),
        progress: t.progress,
    }
}

/// Add a task, in progress at 0%, with no agents and a generated id, at the end of
/// the board.
pub fn add_task(board: &mut TaskBoard, title: String, description: String) -> (r: Task)
    ensures
        is_task_id(r@.id),
        r@.title == title@,
        r@.description == description@,
        r@.status == "in_progress"@,
        r@.agents == Seq::<Seq<char>>::empty(),
        r@.progress == 0,
        final(board)@ == old(board)@.push(r@),
{
    let task = Task {
        id: gen_id(),
        title,
        description,
        status: String::from_str("in_progress"),
        agents: Vec::new(),
        progress: 0,
    };
    assert(task@.agents =~= Seq::<Seq<char>>::empty());
    let ghost old_view = board@;
    board.tasks.push(clone_task(&task));
    assert(board@ =~= old_view.push(task@));
    task
}

/// Update the first task with id `id`, replacing each field that is given (a
/// progress above 100 is stored as 100). Returns whether such a task exists;
/// without one the board is unchanged.
pub fn update_task(
    board: &mut TaskBoard,
    id: &str,
    title: Option<String>,
    description: Option<String>,
    status: Option<String>,
    agents: Option<Vec<String>>,
    progress: Option<u32>,
) -> (r: bool)
    ensures
        r == has_task(old(board)@, id@),
        !r ==> final(board)@ == old(board)@,
        r ==> exists|k: int|
            is_first_task(old(board)@, id@, k) && final(board)@ == old(board)@.update(
                k,
                task_updated(
                    old(board)@[k],
                    opt_text(title),
                    opt_text(description),
                    opt_text(status),
                    opt_task_agents(agents),
                    progress,
                ),
            ),
{
    let mut k: usize = 0;
    while k < board.tasks.len()
        invariant
            k <= board.tasks.len(),
            forall|j: int| 0 <= j < k ==> board@[j].id != id@,
        ensures
            k <= board.tasks.len(),
            forall|j: int| 0 <= j < k ==> board@[j].id != id@,
            k < board.tasks.len() ==> board@[k as int].id == id@,
        decreases board.tasks.len() - k,
    {
        if same_text(board.tasks[k].id.as_str(), id) {
            break;
        }
        k = k + 1;
    }
    if k == board.tasks.len() {
        assert(!has_task(board@, id@));
        return false;
    }
    let ghost old_view = board@;
    let ghost new_fields = task_updated(
        old_view[k as int],
        opt_text(title),
        opt_text(description),
        opt_text(status),
        opt_task_agents(agents),
        progress,
    );
    let mut task = clone_task(&board.tasks[k]);
    if let Some(v) = title {
        task.title = v;
    }
    if let Some(v) = description {
        task.description = v;
    }
    if let Some(v) = status {
        task.status = v;
    }
    if let Some(v) = agents {
        task.agents = v;
    }
    if let Some(v) = progress {
        task.progress = if v > 100 {
            100
        } else {
            v
        };
    }
    assert(task@ == new_fields);
    board.tasks.set(k, task);
    assert(board@ =~= old_view.update(k as int, new_fields));
    assert(is_first_task(old_view, id@, k as int));
    true
}

/// Delete every task with id `id`, keeping the others in order. Returns whether
/// any was deleted.
pub fn delete_task(board: &mut TaskBoard, id: &str) -> (r: bool)
    ensures
        final(board)@ == old(board)@.filter(task_lacks_id(id@)),
        r == has_task(old(board)@, id@),
{
    let ghost old_view = board@;
    let mut kept: Vec<Task> = Vec::new();
    let mut removed = false;
    let mut i: usize = 0;
    while i < board.tasks.len()
        invariant
            i <= board.tasks.len(),
            board@ == old_view,
            task_views(kept@) == old_view.take(i as int).filter(task_lacks_id(id@)),
            removed == has_task(old_view.take(i as int), id@),
        decreases board.tasks.len() - i,
    {
        let ghost before = kept@;
        proof {
            assert(old_view.take(i + 1) =~= old_view.take(i as int).push(old_view[i as int]));
            old_view.take(i as int).lemma_filter_push(old_view[i as int], task_lacks_id(id@));
        }
        if same_text(board.tasks[i].id.as_str(), id) {
            removed = true;
            assert(old_view.take(i + 1)[i as int].id == id@);
        } else {
            kept.push(clone_task(&board.tasks[i]));
            assert(task_views(kept@) =~= task_views(before).push(old_view[i as int]));
            proof {
                if has_task(old_view.take(i + 1), id@) {
                    let pre = old_view.take(i + 1);
                    let w = choose|w: int| 0 <= w < pre.len() && (#[trigger] pre[w]).id == id@;
                    assert(old_view.take(i as int)[w].id == id@);
                }
            }
        }
        i = i + 1;
    }
    assert(old_view.take(old_view.len() as int) =~= old_view);
    board.tasks = kept;
    removed
}

/// After `delete_task`, no task on the board has the deleted id.
pub proof fn law_deleted_task_is_gone(before: Seq<TaskView>, id: Seq<char>)
    ensures
        !has_task(before.filter(task_lacks_id(id)), id),
{
    let after = before.filter(task_lacks_id(id));
    if has_task(after, id) {
        let w = choose|w: int| 0 <= w < after.len() && after[w].id == id;
        before.lemma_filter_pred(task_lacks_id(id), w);
    }
}

/// Adding, updating and deleting tasks keep every task's progress within 0..=100.
pub proof fn law_progress_stays_in_range(
    before: Seq<TaskView>,
    added: TaskView,
    k: int,
    title: Option<Seq<char>>,
    description: Option<Seq<char>>,
    status: Option<Seq<char>>,
    agents: Option<Seq<Seq<char>>>,
    progress: Option<u32>,
    id: Seq<char>,
)
    requires
        progress_in_range(before),
        added.progress == 0,
        0 <= k < before.len(),
    ensures
        progress_in_range(before.push(added)),
        progress_in_range(
            before.update(k, task_updated(before[k], title, description, status, agents, progress)),
        ),
        progress_in_range(before.filter(task_lacks_id(id))),
{
    let after = before.filter(task_lacks_id(id));
    assert forall|i: int| 0 <= i < after.len() implies after[i].progress <= 100 by {
        assert(after.contains(after[i]));
        before.lemma_filter_contains_rev(task_lacks_id(id), after[i]);
        let j = choose|j: int| 0 <= j < before.len() && before[j] == after[i];
    }
    assert forall|i: int| 0 <= i < before.push(added).len() implies before.push(added)[i].progress
        <= 100 by {
        if i < before.len() {
            assert(before.push(added)[i] == before[i]);
        }
    }
}

/// A task title is missing when it is empty or only white space.
pub fn title_is_blank(title: &str) -> (r: bool)
    ensures
        r == (trimmed(title@).len() == 0),
{
    let chars = chars_of(title);
    trim_chars(&chars).len() == 0
}

/// Updating a task replaces exactly the fields that are given, each by the given
/// value (a progress above 100 by 100), keeps its id and every field that is not
/// given, and leaves every other task as it was.
pub proof fn law_task_update_replaces_given_fields(
    s: Seq<TaskView>,
    k: int,
    title: Option<Seq<char>>,
    description: Option<Seq<char>>,
    status: Option<Seq<char>>,
    agents: Option<Seq<Seq<char>>>,
    progress: Option<u32>,
)
    requires
        0 <= k < s.len(),
    ensures
        ({
            let t = s.update(k, task_updated(s[k], title, description, status, agents, progress));
            &&& t.len() == s.len()
            &&& t[k].id == s[k].id
            &&& (title matches Some(v) ==> t[k].title == v)
            &&& (title is None ==> t[k].title == s[k].title)
            &&& (description matches Some(v) ==> t[k].description == v)
            &&& (description is None ==> t[k].description == s[k].description)
            &&& (status matches Some(v) ==> t[k].status == v)
            &&& (status is None ==> t[k].status == s[k].status)
            &&& (agents matches Some(v) ==> t[k].agents == v)
            &&& (agents is None ==> t[k].agents == s[k].agents)
            &&& (progress matches Some(v) ==> t[k].progress == if v <= 100 { v } else { 100 })
            &&& (progress is None ==> t[k].progress == s[k].progress)
            &&& forall|j: int| 0 <= j < s.len() && j != k ==> t[j] == s[j]
        }),
{
}

} // verus!

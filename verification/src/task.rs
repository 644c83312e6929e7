//! Task tracking: namespaced task ids, statuses, dependency lists, and the
//! task/buffer footer rendered into tool output.

use vstd::prelude::*;

use crate::text::{
    join, join_strings, sort_strs, sorted_strings, views, append_dec, dec_string, chars_of, dec, lemma_next_index_of, next_index_of, parse_u32_range,
    parse_u32_spec, str_eq,
};

verus! {

// ── Namespace + TaskId ───────────────────────────────────

#[derive(Debug, Clone, PartialEq, Eq, Hash, Structural)]
pub enum Namespace {
    Ws,
    Team,
}

/// The name of a namespace.
pub open spec fn ns_name(ns: Namespace) -> Seq<char> {
    match ns {
        Namespace::Ws => "ws"@,
        Namespace::Team => "team"@,
    }
}

pub open spec fn unknown_namespace_error(s: Seq<char>) -> Seq<char> {
    "Unknown namespace '"@ + s + "'. Must be 'ws' or 'team'"@
}

/// `Namespace::parse`: the namespace named `s`, or an error message.
pub open spec fn parse_namespace(s: Seq<char>) -> Result<Namespace, Seq<char>> {
    if s == "ws"@ {
        Ok(Namespace::Ws)
    } else if s == "team"@ {
        Ok(Namespace::Team)
    } else {
        Err(unknown_namespace_error(s))
    }
}

impl Namespace {
    pub fn as_str(&self) -> (r: &str)
        ensures
            r@ == ns_name(*self),
    {
        match self {
            Namespace::Ws => "ws",
            Namespace::Team => "team",
        }
    }

    pub fn parse(s: &str) -> (r: Result<Self, String>)
        ensures
            match r {
                Ok(ns) => parse_namespace(s@) == Ok::<Namespace, Seq<char>>(ns),
                Err(m) => parse_namespace(s@) == Err::<Namespace, Seq<char>>(m@),
            },
    {
        if str_eq(s, "ws") {
            Ok(Namespace::Ws)
        } else if str_eq(s, "team") {
            Ok(Namespace::Team)
        } else {
            let mut m = String::from_str("Unknown namespace '");
            m.append(s);
            m.append("'. Must be 'ws' or 'team'");
            Err(m)
        }
    }
}

#[derive(Debug, Clone, PartialEq, Eq, Hash, Structural)]
pub struct TaskId {
    pub namespace: Namespace,
    pub id: u32,
}

/// `namespace:id`, the display form of a task id.
pub open spec fn task_id_text(ns: Namespace, id: u32) -> Seq<char> {
    ns_name(ns) + ":"@ + dec(id as nat)
}

pub open spec fn invalid_id_number_error(s: Seq<char>) -> Seq<char> {
    "Invalid task ID number: '"@ + s + "'"@
}

pub open spec fn invalid_id_error(s: Seq<char>) -> Seq<char> {
    "Invalid task ID: '"@ + s + "'. Use N, ws:N, or team:N"@
}

/// `TaskId::parse`: `N` (in the `ws` namespace) or `ns:N`, split at the first `:`.
pub open spec fn parse_task_id(s: Seq<char>) -> Result<TaskId, Seq<char>> {
    let j = next_index_of(s, ':', 0);
    if j < s.len() {
        let ns = s.take(j);
        let id_str = s.skip(j + 1);
        match parse_namespace(ns) {
            Ok(namespace) => match parse_u32_spec(id_str) {
                Some(id) => Ok(TaskId { namespace, id }),
                None => Err(invalid_id_number_error(id_str)),
            },
            Err(m) => Err(m),
        }
    } else {
        match parse_u32_spec(s) {
            Some(id) => Ok(TaskId { namespace: Namespace::Ws, id }),
            None => Err(invalid_id_error(s)),
        }
    }
}

/// `ns:id` as a string.
fn task_id_string(ns: &Namespace, id: u32) -> (r: String)
    ensures
        r@ == task_id_text(*ns, id),
{
    let mut r = String::from_str(ns.as_str());
    r.append(":");
    append_dec(&mut r, id as u64);
    r
}

impl TaskId {
    pub fn parse(s: &str) -> (r: Result<Self, String>)
        ensures
            match r {
                Ok(t) => parse_task_id(s@) == Ok::<TaskId, Seq<char>>(t),
                Err(m) => parse_task_id(s@) == Err::<TaskId, Seq<char>>(m@),
            },
    {
        let v = chars_of(s);
        let n = v.len();
        let j = crate::text::find_char_from(&v, ':', 0);
        proof {
            lemma_next_index_of(s@, ':', 0);
        }
        if j < n {
            let ns_str = s.substring_char(0, j);
            let id_str = s.substring_char(j + 1, n);
            assert(ns_str@ =~= s@.take(j as int));
            assert(id_str@ =~= s@.skip(j + 1));
            let namespace = match Namespace::parse(ns_str) {
                Ok(ns) => ns,
                Err(m) => return Err(m),
            };
            assert(v@.subrange(j + 1, n as int) =~= id_str@);
            match parse_u32_range(&v, j + 1, n) {
                Some(id) => Ok(TaskId { namespace, id }),
                None => {
                    let mut m = String::from_str("Invalid task ID number: '");
                    m.append(id_str);
                    m.append("'");
                    Err(m)
                },
            }
        } else {
            assert(v@.subrange(0, n as int) =~= s@);
            match parse_u32_range(&v, 0, n) {
                Some(id) => Ok(TaskId { namespace: Namespace::Ws, id }),
                None => {
                    let mut m = String::from_str("Invalid task ID: '");
                    m.append(s);
                    m.append("'. Use N, ws:N, or team:N");
                    Err(m)
                },
            }
        }
    }

    pub fn display(&self) -> (r: String)
        ensures
            r@ == task_id_text(self.namespace, self.id),
    {
        task_id_string(&self.namespace, self.id)
    }
}

// ── Task status ──────────────────────────────────────────

#[derive(Debug, Clone, PartialEq, Eq, Structural)]
pub enum TaskStatus {
    Pending,
    InProgress,
    Done,
    Blocked,
}

pub open spec fn invalid_status_error(s: Seq<char>) -> Seq<char> {
    "Invalid status '"@ + s + "'. Must be: pending, in_progress, done, blocked"@
}

/// `TaskStatus::parse`.
pub open spec fn parse_status(s: Seq<char>) -> Result<TaskStatus, Seq<char>> {
    if s == "pending"@ {
        Ok(TaskStatus::Pending)
    } else if s == "in_progress"@ {
        Ok(TaskStatus::InProgress)
    } else if s == "done"@ {
        Ok(TaskStatus::Done)
    } else if s == "blocked"@ {
        Ok(TaskStatus::Blocked)
    } else {
        Err(invalid_status_error(s))
    }
}

impl TaskStatus {
    pub fn parse(s: &str) -> (r: Result<Self, String>)
        ensures
            match r {
                Ok(st) => parse_status(s@) == Ok::<TaskStatus, Seq<char>>(st),
                Err(m) => parse_status(s@) == Err::<TaskStatus, Seq<char>>(m@),
            },
    {
        if str_eq(s, "pending") {
            Ok(TaskStatus::Pending)
        } else if str_eq(s, "in_progress") {
            Ok(TaskStatus::InProgress)
        } else if str_eq(s, "done") {
            Ok(TaskStatus::Done)
        } else if str_eq(s, "blocked") {
            Ok(TaskStatus::Blocked)
        } else {
            let mut m = String::from_str("Invalid status '");
            m.append(s);
            m.append("'. Must be: pending, in_progress, done, blocked");
            Err(m)
        }
    }
}

// ── Task ─────────────────────────────────────────────────

#[derive(Debug, Clone)]
pub struct Task {
    pub namespace: Namespace,
    pub id: u32,
    pub name: String,
    pub description: Option<String>,
    pub status: TaskStatus,
    pub owner: Option<String>,
    pub depends_on: Vec<TaskId>,
}

impl Task {
    pub fn display_id(&self) -> (r: String)
        ensures
            r@ == task_id_text(self.namespace, self.id),
    {
        task_id_string(&self.namespace, self.id)
    }
}


// ── Task footer rendering ────────────────────────────────

pub open spec fn ws_pred() -> spec_fn(Task) -> bool {
    |t: Task| t.namespace is Ws
}

pub open spec fn team_pred() -> spec_fn(Task) -> bool {
    |t: Task| t.namespace is Team
}

pub open spec fn ws_done_pred() -> spec_fn(Task) -> bool {
    |t: Task| t.namespace is Ws && t.status is Done
}

pub open spec fn team_done_pred() -> spec_fn(Task) -> bool {
    |t: Task| t.namespace is Team && t.status is Done
}

pub open spec fn done_pred() -> spec_fn(Task) -> bool {
    |t: Task| t.status is Done
}

pub open spec fn in_progress_pred() -> spec_fn(Task) -> bool {
    |t: Task| t.status is InProgress
}

pub open spec fn waiting_pred() -> spec_fn(Task) -> bool {
    |t: Task| t.status is Pending || t.status is Blocked
}

/// The first `n` elements of `s` (all of them when there are fewer).
pub open spec fn first_n<A>(s: Seq<A>, n: nat) -> Seq<A> {
    if s.len() <= n {
        s
    } else {
        s.take(n as int)
    }
}

pub open spec fn owner_text(owner: Option<String>) -> Seq<char> {
    match owner {
        Some(o) => " (owner: "@ + o@ + ")"@,
        None => Seq::empty(),
    }
}

pub open spec fn done_line(t: Task) -> Seq<char> {
    "  ✓ "@ + task_id_text(t.namespace, t.id) + ". "@ + t.name@
}

pub open spec fn in_progress_line(t: Task) -> Seq<char> {
    "  → "@ + task_id_text(t.namespace, t.id) + "."@ + t.name@ + "  "@ + owner_text(t.owner)
        + " ← in_progress"@
}

pub open spec fn dep_texts(deps: Seq<TaskId>) -> Seq<Seq<char>> {
    deps.map_values(|d: TaskId| task_id_text(d.namespace, d.id))
}

pub open spec fn waiting_line(t: Task) -> Seq<char> {
    "    "@ + task_id_text(t.namespace, t.id) + "."@ + t.name@ + owner_text(t.owner) + if t.status is Blocked
        && t.depends_on@.len() > 0 {
        "  (blocked by: "@ + join(dep_texts(t.depends_on@), ", "@) + ")"@
    } else {
        Seq::empty()
    }
}

pub open spec fn counter_texts(ws_done: nat, ws_total: nat, team_done: nat, team_total: nat) -> Seq<Seq<char>> {
    (if ws_total > 0 {
        seq!["ws:["@ + dec(ws_done) + "/"@ + dec(ws_total) + "]"@]
    } else {
        Seq::empty()
    }) + (if team_total > 0 {
        seq!["team:["@ + dec(team_done) + "/"@ + dec(team_total) + "]"@]
    } else {
        Seq::empty()
    })
}

pub open spec fn done_summary_line(ws_done: nat, team_done: nat) -> Seq<char> {
    let parts = (if ws_done > 0 {
        seq![dec(ws_done) + " ws"@]
    } else {
        Seq::empty()
    }) + (if team_done > 0 {
        seq![dec(team_done) + " team"@]
    } else {
        Seq::empty()
    });
    "  ✓ "@ + join(parts, ", "@) + " done"@
}

pub open spec fn buffers_line(names: Seq<Seq<char>>) -> Seq<char> {
    let sorted = sort_strs(names);
    let shown = first_n(sorted, 5);
    let list = if names.len() > 5 {
        join(shown, ", "@) + ", +"@ + dec((names.len() - 5) as nat) + " more"@
    } else {
        join(shown, ", "@)
    };
    "── Buffers: "@ + dec(names.len()) + " staged ("@ + list + ") ──"@
}

/// The footer's lines: a header with per-namespace done/total counters; the
/// done tasks (or a per-namespace summary once three or more are done); up to
/// three in-progress tasks; pending/blocked tasks in the slots those leave,
/// with a count of the rest; the staged buffers (first five by name); a rule.
pub open spec fn footer_lines(tasks: Seq<Task>, session: Seq<char>, names: Seq<Seq<char>>) -> Seq<Seq<char>> {
    let ws_total = tasks.filter(ws_pred()).len();
    let ws_done = tasks.filter(ws_done_pred()).len();
    let team_total = tasks.filter(team_pred()).len();
    let team_done = tasks.filter(team_done_pred()).len();
    let header = "── Tasks ("@ + session + ") "@ + join(
        counter_texts(ws_done, ws_total, team_done, team_total),
        " "@,
    ) + " ──────────────────────────"@;
    let done = if ws_done + team_done >= 3 {
        seq![done_summary_line(ws_done, team_done)]
    } else {
        tasks.filter(done_pred()).map_values(|t: Task| done_line(t))
    };
    let active = first_n(tasks.filter(in_progress_pred()), 3);
    let slots = (3 - active.len()) as nat;
    let waiting = tasks.filter(waiting_pred());
    let shown = first_n(waiting, slots);
    let more = if waiting.len() > shown.len() {
        seq!["    ... and "@ + dec((waiting.len() - shown.len()) as nat) + " more"@]
    } else {
        Seq::empty()
    };
    let buffers = if names.len() > 0 {
        seq![buffers_line(names)]
    } else {
        Seq::empty()
    };
    seq![header] + done + active.map_values(|t: Task| in_progress_line(t)) + shown.map_values(
        |t: Task| waiting_line(t),
    ) + more + buffers + seq!["──────────────────────────────────────────"@]
}

/// The footer text: empty without tasks and buffers, else its lines joined by newlines.
pub open spec fn footer_text(tasks: Seq<Task>, session: Seq<char>, names: Seq<Seq<char>>) -> Seq<char> {
    if tasks.len() == 0 && names.len() == 0 {
        Seq::empty()
    } else {
        join(footer_lines(tasks, session, names), "\n"@)
    }
}


proof fn lemma_take_push_filter(ts: Seq<Task>, i: int, p: spec_fn(Task) -> bool)
    requires
        0 <= i < ts.len(),
    ensures
        ts.take(i + 1).filter(p) == if p(ts[i]) {
            ts.take(i).filter(p).push(ts[i])
        } else {
            ts.take(i).filter(p)
        },
{
    assert(ts.take(i + 1) =~= ts.take(i).push(ts[i]));
    ts.take(i).lemma_filter_push(ts[i], p);
}

/// Per-namespace totals and done counts: (ws total, ws done, team total, team done).
fn count_tasks(tasks: &[Task]) -> (r: (usize, usize, usize, usize))
    ensures
        r.0 == tasks@.filter(ws_pred()).len(),
        r.1 == tasks@.filter(ws_done_pred()).len(),
        r.2 == tasks@.filter(team_pred()).len(),
        r.3 == tasks@.filter(team_done_pred()).len(),
        r.1 + r.3 <= tasks@.len(),
{
    let mut wt: usize = 0;
    let mut wd: usize = 0;
    let mut tt: usize = 0;
    let mut td: usize = 0;
    let mut i: usize = 0;
    assert(tasks@.take(0) =~= Seq::<Task>::empty());
    reveal_with_fuel(Seq::filter, 1);
    while i < tasks.len()
        invariant
            i <= tasks@.len(),
            wt == tasks@.take(i as int).filter(ws_pred()).len(),
            wd == tasks@.take(i as int).filter(ws_done_pred()).len(),
            tt == tasks@.take(i as int).filter(team_pred()).len(),
            td == tasks@.take(i as int).filter(team_done_pred()).len(),
            wt + tt == i,
            wd <= wt,
            td <= tt,
        decreases tasks@.len() - i,
    {
        let t = &tasks[i];
        proof {
            lemma_take_push_filter(tasks@, i as int, ws_pred());
            lemma_take_push_filter(tasks@, i as int, ws_done_pred());
            lemma_take_push_filter(tasks@, i as int, team_pred());
            lemma_take_push_filter(tasks@, i as int, team_done_pred());
        }
        match t.namespace {
            Namespace::Ws => {
                wt += 1;
                if t.status == TaskStatus::Done {
                    wd += 1;
                }
            },
            Namespace::Team => {
                tt += 1;
                if t.status == TaskStatus::Done {
                    td += 1;
                }
            },
        }
        i += 1;
    }
    assert(tasks@.take(i as int) =~= tasks@);
    (wt, wd, tt, td)
}

fn owner_string(owner: &Option<String>) -> (r: String)
    ensures
        r@ == owner_text(*owner),
{
    match owner {
        Some(o) => {
            let mut r = String::from_str(" (owner: ");
            r.append(o.as_str());
            r.append(")");
            r
        },
        None => String::new(),
    }
}

fn done_line_string(t: &Task) -> (r: String)
    ensures
        r@ == done_line(*t),
{
    let mut r = String::from_str("  ✓ ");
    r.append(t.display_id().as_str());
    r.append(". ");
    r.append(t.name.as_str());
    r
}

fn in_progress_line_string(t: &Task) -> (r: String)
    ensures
        r@ == in_progress_line(*t),
{
    let mut r = String::from_str("  → ");
    r.append(t.display_id().as_str());
    r.append(".");
    r.append(t.name.as_str());
    r.append("  ");
    r.append(owner_string(&t.owner).as_str());
    r.append(" ← in_progress");
    r
}

fn waiting_line_string(t: &Task) -> (r: String)
    ensures
        r@ == waiting_line(*t),
{
    let mut r = String::from_str("    ");
    r.append(t.display_id().as_str());
    r.append(".");
    r.append(t.name.as_str());
    r.append(owner_string(&t.owner).as_str());
    if t.status == TaskStatus::Blocked && t.depends_on.len() > 0 {
        let mut ids: Vec<String> = Vec::new();
        let mut k: usize = 0;
        while k < t.depends_on.len()
            invariant
                k <= t.depends_on@.len(),
                views(ids@) == dep_texts(t.depends_on@.take(k as int)),
            decreases t.depends_on@.len() - k,
        {
            ids.push(t.depends_on[k].display());
            proof {
                assert(dep_texts(t.depends_on@.take(k + 1)) =~= dep_texts(t.depends_on@.take(k as int)).push(
                    task_id_text(t.depends_on@[k as int].namespace, t.depends_on@[k as int].id),
                ));
                assert(views(ids@) =~= dep_texts(t.depends_on@.take(k + 1)));
            }
            k += 1;
        }
        assert(t.depends_on@.take(k as int) =~= t.depends_on@);
        r.append("  (blocked by: ");
        r.append(join_strings(&ids, ", ").as_str());
        r.append(")");
    }
    r
}

/// The lines for the done tasks, or the done summary.
fn done_section(tasks: &[Task], ws_done: usize, team_done: usize) -> (r: Vec<String>)
    requires
        ws_done == tasks@.filter(ws_done_pred()).len(),
        team_done == tasks@.filter(team_done_pred()).len(),
        ws_done + team_done <= tasks@.len(),
    ensures
        views(r@) == if ws_done + team_done >= 3 {
            seq![done_summary_line(ws_done as nat, team_done as nat)]
        } else {
            tasks@.filter(done_pred()).map_values(|t: Task| done_line(t))
        },
{
    let mut r: Vec<String> = Vec::new();
    let _n = tasks.len();
    if ws_done + team_done >= 3 {
        let mut parts: Vec<String> = Vec::new();
        if ws_done > 0 {
            let mut p = dec_string(ws_done as u64);
            p.append(" ws");
            parts.push(p);
        }
        if team_done > 0 {
            let mut p = dec_string(team_done as u64);
            p.append(" team");
            parts.push(p);
        }
        proof {
            let want = (if ws_done > 0 {
                seq![dec(ws_done as nat) + " ws"@]
            } else {
                Seq::<Seq<char>>::empty()
            }) + (if team_done > 0 {
                seq![dec(team_done as nat) + " team"@]
            } else {
                Seq::<Seq<char>>::empty()
            });
            assert(views(parts@) =~= want);
        }
        let mut line = String::from_str("  ✓ ");
        line.append(join_strings(&parts, ", ").as_str());
        line.append(" done");
        r.push(line);
        assert(views(r@) =~= seq![done_summary_line(ws_done as nat, team_done as nat)]);
        return r;
    }
    let mut i: usize = 0;
    reveal_with_fuel(Seq::filter, 1);
    while i < tasks.len()
        invariant
            i <= tasks@.len(),
            views(r@) == tasks@.take(i as int).filter(done_pred()).map_values(|t: Task| done_line(t)),
        decreases tasks@.len() - i,
    {
        proof {
            lemma_take_push_filter(tasks@, i as int, done_pred());
        }
        if tasks[i].status == TaskStatus::Done {
            let ghost before = r@;
            r.push(done_line_string(&tasks[i]));
            proof {
                assert(views(r@) =~= views(before).push(done_line(tasks@[i as int])));
                assert(tasks@.take(i + 1).filter(done_pred()).map_values(|t: Task| done_line(t))
                    =~= tasks@.take(i as int).filter(done_pred()).map_values(|t: Task| done_line(t)).push(
                    done_line(tasks@[i as int]),
                ));
            }
        }
        i += 1;
    }
    assert(tasks@.take(i as int) =~= tasks@);
    r
}

/// The lines for the first three in-progress tasks.
fn in_progress_section(tasks: &[Task]) -> (r: Vec<String>)
    ensures
        views(r@) == first_n(tasks@.filter(in_progress_pred()), 3).map_values(
            |t: Task| in_progress_line(t),
        ),
        r@.len() <= 3,
{
    let mut r: Vec<String> = Vec::new();
    let mut i: usize = 0;
    reveal_with_fuel(Seq::filter, 1);
    while i < tasks.len()
        invariant
            i <= tasks@.len(),
            views(r@) == first_n(tasks@.take(i as int).filter(in_progress_pred()), 3).map_values(
                |t: Task| in_progress_line(t),
            ),
            r@.len() == if tasks@.take(i as int).filter(in_progress_pred()).len() < 3 {
                tasks@.take(i as int).filter(in_progress_pred()).len()
            } else {
                3
            },
        decreases tasks@.len() - i,
    {
        let ghost f = tasks@.take(i as int).filter(in_progress_pred());
        proof {
            lemma_take_push_filter(tasks@, i as int, in_progress_pred());
        }
        if tasks[i].status == TaskStatus::InProgress {
            let ghost f2 = f.push(tasks@[i as int]);
            if r.len() < 3 {
                let ghost before = r@;
                r.push(in_progress_line_string(&tasks[i]));
                proof {
                    assert(first_n(f, 3) == f);
                    assert(first_n(f2, 3) == f2);
                    assert(views(r@) =~= views(before).push(in_progress_line(tasks@[i as int])));
                    assert(f2.map_values(|t: Task| in_progress_line(t)) =~= f.map_values(
                        |t: Task| in_progress_line(t),
                    ).push(in_progress_line(tasks@[i as int])));
                }
            } else {
                proof {
                    assert(f2.take(3) =~= f.take(3));
                }
            }
        }
        i += 1;
    }
    assert(tasks@.take(i as int) =~= tasks@);
    r
}

/// The lines for the first `slots` pending or blocked tasks, and how many more there are.
fn waiting_section(tasks: &[Task], slots: usize) -> (r: (Vec<String>, usize))
    ensures
        views(r.0@) == first_n(tasks@.filter(waiting_pred()), slots as nat).map_values(
            |t: Task| waiting_line(t),
        ),
        r.1 == tasks@.filter(waiting_pred()).len() - first_n(
            tasks@.filter(waiting_pred()),
            slots as nat,
        ).len(),
{
    let mut r: Vec<String> = Vec::new();
    let mut total: usize = 0;
    let mut i: usize = 0;
    reveal_with_fuel(Seq::filter, 1);
    while i < tasks.len()
        invariant
            i <= tasks@.len(),
            views(r@) == first_n(tasks@.take(i as int).filter(waiting_pred()), slots as nat).map_values(
                |t: Task| waiting_line(t),
            ),
            total == tasks@.take(i as int).filter(waiting_pred()).len(),
            r@.len() == if total < slots { total } else { slots },
        decreases tasks@.len() - i,
    {
        let ghost f = tasks@.take(i as int).filter(waiting_pred());
        proof {
            lemma_take_push_filter(tasks@, i as int, waiting_pred());
        }
        if tasks[i].status == TaskStatus::Pending || tasks[i].status == TaskStatus::Blocked {
            let ghost f2 = f.push(tasks@[i as int]);
            if r.len() < slots {
                let ghost before = r@;
                r.push(waiting_line_string(&tasks[i]));
                proof {
                    assert(first_n(f, slots as nat) == f);
                    assert(first_n(f2, slots as nat) == f2);
                    assert(views(r@) =~= views(before).push(waiting_line(tasks@[i as int])));
                    assert(f2.map_values(|t: Task| waiting_line(t)) =~= f.map_values(
                        |t: Task| waiting_line(t),
                    ).push(waiting_line(tasks@[i as int])));
                }
            } else {
                proof {
                    assert(f2.take(slots as int) =~= f.take(slots as int));
                }
            }
            total += 1;
        }
        i += 1;
    }
    assert(tasks@.take(i as int) =~= tasks@);
    let hidden = total - r.len();
    (r, hidden)
}

/// The staged-buffers line.
fn buffers_line_string(names: &[String]) -> (r: String)
    requires
        names@.len() > 0,
    ensures
        r@ == buffers_line(views(names@)),
{
    let sorted = sorted_strings(names);
    let ghost sv = sort_strs(views(names@));
    let mut shown: Vec<String> = Vec::new();
    let mut k: usize = 0;
    while k < sorted.len() && k < 5
        invariant
            k <= sorted@.len(),
            k <= 5,
            views(sorted@) == sv,
            views(shown@) == views(sorted@).take(k as int),
        decreases sorted@.len() - k,
    {
        let c = sorted[k].clone();
        assert(c@ == sorted@[k as int]@);
        let ghost before = shown@;
        shown.push(c);
        assert(views(shown@) =~= views(before).push(c@));
        assert(views(sorted@).take(k + 1) =~= views(sorted@).take(k as int).push(views(sorted@)[k as int]));
        assert(views(shown@) =~= views(sorted@).take(k + 1));
        k += 1;
    }
    proof {
        crate::text::lemma_sort_strs_len(views(names@));
        assert(views(shown@) =~= first_n(sv, 5));
    }
    let mut list = join_strings(&shown, ", ");
    if names.len() > 5 {
        list.append(", +");
        append_dec(&mut list, (names.len() - 5) as u64);
        list.append(" more");
    }
    let mut r = String::from_str("── Buffers: ");
    append_dec(&mut r, names.len() as u64);
    r.append(" staged (");
    r.append(list.as_str());
    r.append(") ──");
    r
}

/// Renders the task/buffer footer shown after tool output.
#[verifier::spinoff_prover]
#[verifier::rlimit(40)]
pub fn render_task_footer(tasks: &[Task], session: &str, buffer_names: &[String]) -> (r: String)
    ensures
        r@ == footer_text(tasks@, session@, views(buffer_names@)),
{
    if tasks.len() == 0 && buffer_names.len() == 0 {
        return String::new();
    }
    let (ws_total, ws_done, team_total, team_done) = count_tasks(tasks);
    let mut counters: Vec<String> = Vec::new();
    if ws_total > 0 {
        let mut c = String::from_str("ws:[");
        append_dec(&mut c, ws_done as u64);
        c.append("/");
        append_dec(&mut c, ws_total as u64);
        c.append("]");
        counters.push(c);
    }
    if team_total > 0 {
        let mut c = String::from_str("team:[");
        append_dec(&mut c, team_done as u64);
        c.append("/");
        append_dec(&mut c, team_total as u64);
        c.append("]");
        counters.push(c);
    }
    assert(views(counters@) =~= counter_texts(
        ws_done as nat,
        ws_total as nat,
        team_done as nat,
        team_total as nat,
    ));
    let mut header = String::from_str("── Tasks (");
    header.append(session);
    header.append(") ");
    header.append(join_strings(&counters, " ").as_str());
    header.append(" ──────────────────────────");

    let mut lines: Vec<String> = Vec::new();
    lines.push(header);
    let mut done = done_section(tasks, ws_done, team_done);
    lines.append(&mut done);
    let mut active = in_progress_section(tasks);
    let slots = 3 - active.len();
    lines.append(&mut active);
    let (mut waiting, hidden) = waiting_section(tasks, slots);
    lines.append(&mut waiting);
    if hidden > 0 {
        let mut m = String::from_str("    ... and ");
        append_dec(&mut m, hidden as u64);
        m.append(" more");
        lines.push(m);
    }
    if buffer_names.len() > 0 {
        lines.push(buffers_line_string(buffer_names));
    }
    lines.push(String::from_str("──────────────────────────────────────────"));
    proof {
        let ts = tasks@;
        let active_s = first_n(ts.filter(in_progress_pred()), 3);
        let waiting_s = ts.filter(waiting_pred());
        let shown_s = first_n(waiting_s, slots as nat);
        assert(views(lines@) =~= footer_lines(ts, session@, views(buffer_names@)));
    }
    join_strings(&lines, "\n")
}


// ── Task param structs ───────────────────────────────────

pub struct TaskCreateParams {
    /// Name/title of the task
    pub name: String,
    /// Optional description with more detail
    pub description: Option<String>,
    /// Task IDs this depends on, in the forms "3", "ws:3", "team:2".
    pub depends_on: Option<Vec<String>>,
    /// Namespace: "ws" (default) or "team"
    pub namespace: Option<String>,
    /// Owner name (for team tasks: who owns the task)
    pub owner: Option<String>,
}

pub struct TaskDoneParams {
    /// Task ID: "3", "ws:3", or "team:3"
    pub id: String,
}

pub struct TaskUpdateParams {
    /// Task ID: "3", "ws:3", or "team:3"
    pub id: String,
    /// New status: pending, in_progress, done, blocked
    pub status: Option<String>,
    /// New description
    pub description: Option<String>,
    /// New owner (for team tasks)
    pub owner: Option<String>,
}

pub struct TaskInitParams {
    /// Name of the task session (e.g., "auth-refactor")
    pub name: String,
    /// This agent session's id, from the SessionStart hint.
    pub session_id: Option<String>,
    /// This subagent's agent_id, from the SubagentStart hint (empty for the main session).
    pub agent_id: Option<String>,
}

pub struct TaskListParams {
    /// Filter by namespace: "ws", "team", or omit for all
    pub namespace: Option<String>,
}

pub struct TaskClearParams {
    /// Clear only this namespace: "ws", "team", or omit to clear all
    pub namespace: Option<String>,
}

pub struct RegisterParams {
    /// Your role name (e.g. "backend-dev").
    pub role: String,
    /// This agent session's id, from the SessionStart hint.
    pub session_id: Option<String>,
    /// This subagent's agent_id, from the SubagentStart hint.
    pub agent_id: Option<String>,
}

pub struct MsgSendParams {
    /// Recipient role name
    pub recipient: String,
    /// One-line subject shown in the recipient's inbox doorbell
    pub subject: String,
    /// Full message body, returned when the recipient reads the inbox
    pub body: String,
    /// Mark urgent so the doorbell flags it.
    pub urgent: Option<bool>,
    /// Sender label; resolved from the caller's registered role when omitted.
    pub sender: Option<String>,
    /// This agent session's id, from the SessionStart/SubagentStart hint.
    pub session_id: Option<String>,
    /// This subagent's agent_id, from the SubagentStart hint.
    pub agent_id: Option<String>,
}

pub struct InboxReadParams {
    /// Your role name. Returns unread messages addressed to this role and marks them read.
    pub role: String,
}

// ── dependency lists ─────────────────────────────────────

/// What `serde_json::from_str::<Vec<String>>` makes of a text.
pub uninterp spec fn json_string_list(text: Seq<char>) -> Option<Seq<Seq<char>>>;

/// A lower-case hexadecimal digit.
pub open spec fn hex_digit(d: nat) -> char {
    if d < 10 { (d + 48) as char } else { (d + 87) as char }
}

/// How a JSON writer spells one character inside a string: `"` and `\`
/// escaped with a backslash, the control characters below U+0020 as `\b`,
/// `\t`, `\n`, `\f`, `\r` or `\u00XX`, every other character as itself.
pub open spec fn json_escape(c: char) -> Seq<char> {
    let u = c as u32;
    if c == '"' {
        seq!['\\', '"']
    } else if c == '\\' {
        seq!['\\', '\\']
    } else if u == 8 {
        seq!['\\', 'b']
    } else if u == 9 {
        seq!['\\', 't']
    } else if u == 10 {
        seq!['\\', 'n']
    } else if u == 12 {
        seq!['\\', 'f']
    } else if u == 13 {
        seq!['\\', 'r']
    } else if u < 32 {
        seq!['\\', 'u', '0', '0', hex_digit((u / 16) as nat), hex_digit((u % 16) as nat)]
    } else {
        seq![c]
    }
}

/// The escaped characters of a string.
pub open spec fn json_escaped(s: Seq<char>) -> Seq<char>
    decreases s.len(),
{
    if s.len() == 0 {
        Seq::empty()
    } else {
        json_escaped(s.drop_last()) + json_escape(s.last())
    }
}

/// What `serde_json::to_string` makes of a list of strings: `[`, each string
/// in double quotes with its characters escaped, separated by `,`, then `]`.
pub open spec fn json_of_strings(items: Seq<Seq<char>>) -> Seq<char> {
    "["@ + join(items.map_values(|x: Seq<char>| "\""@ + json_escaped(x) + "\""@), ","@) + "]"@
}

/// `serde_json::from_str::<Vec<String>>(text).ok()`: the strings of a JSON
/// array of strings, or nothing when the text is not one; the outcome depends
/// on the text alone.
#[verifier::external_body]
fn parse_json_strings(text: &str) -> (r: Option<Vec<String>>)
    ensures
        match r {
            Some(v) => json_string_list(text@) == Some(views(v@)),
            None => json_string_list(text@) is None,
        },
{
    serde_json::from_str::<Vec<String>>(text).ok()
}

/// `serde_json::to_string(items).ok()`: the compact JSON array of the strings
/// (`json_of_strings`), which `serde_json::from_str::<Vec<String>>` reads back
/// as the same strings.
/// Encoding a list of strings into memory does not fail (the writer is a
/// `Vec<u8>` and `String`'s serializer raises no error), so the result is present.
#[verifier::external_body]
fn encode_json_strings(items: &Vec<String>) -> (r: Option<String>)
    ensures
        r is Some,
        match r {
            Some(s) => s@ == json_of_strings(views(items@)) && json_string_list(s@) == Some(views(items@)),
            None => true,
        },
{
    serde_json::to_string(items).ok()
}

/// The task ids among `strs`, in order; strings that are not task ids are skipped.
pub open spec fn task_ids_of(strs: Seq<Seq<char>>) -> Seq<TaskId>
    decreases strs.len(),
{
    if strs.len() == 0 {
        Seq::empty()
    } else {
        let rest = task_ids_of(strs.drop_last());
        match parse_task_id(strs.last()) {
            Ok(t) => rest.push(t),
            Err(_) => rest,
        }
    }
}

/// The task ids among `strs`, in order, skipping strings that do not parse.
pub fn task_ids_from_strings(strs: &[String]) -> (r: Vec<TaskId>)
    ensures
        r@ == task_ids_of(views(strs@)),
{
    let mut r: Vec<TaskId> = Vec::new();
    let mut i: usize = 0;
    while i < strs.len()
        invariant
            i <= strs@.len(),
            r@ == task_ids_of(views(strs@.take(i as int))),
        decreases strs@.len() - i,
    {
        proof {
            assert(views(strs@.take(i + 1)).drop_last() =~= views(strs@.take(i as int)));
            assert(views(strs@.take(i + 1)).last() == strs@[i as int]@);
        }
        match TaskId::parse(strs[i].as_str()) {
            Ok(t) => r.push(t),
            Err(_) => {},
        }
        i += 1;
    }
    assert(strs@.take(i as int) =~= strs@);
    r
}

/// The dependency list stored as JSON text: the task ids in it, or none when
/// the text is not a JSON array of strings.
pub fn parse_depends_on(json_str: &str) -> (r: Vec<TaskId>)
    ensures
        r@ == match json_string_list(json_str@) {
            Some(l) => task_ids_of(l),
            None => Seq::empty(),
        },
{
    match parse_json_strings(json_str) {
        Some(v) => task_ids_from_strings(v.as_slice()),
        None => Vec::new(),
    }
}

/// The dependency list as JSON text: the array of the ids' display forms.
pub fn serialize_depends_on(deps: &[TaskId]) -> (r: String)
    ensures
        r@ == json_of_strings(dep_texts(deps@)),
        json_string_list(r@) == Some(dep_texts(deps@)),
{
    let mut strings: Vec<String> = Vec::new();
    let mut k: usize = 0;
    while k < deps.len()
        invariant
            k <= deps@.len(),
            views(strings@) == dep_texts(deps@.take(k as int)),
        decreases deps@.len() - k,
    {
        strings.push(deps[k].display());
        proof {
            assert(dep_texts(deps@.take(k + 1)) =~= dep_texts(deps@.take(k as int)).push(
                task_id_text(deps@[k as int].namespace, deps@[k as int].id),
            ));
            assert(views(strings@) =~= dep_texts(deps@.take(k + 1)));
        }
        k += 1;
    }
    assert(deps@.take(k as int) =~= deps@);
    match encode_json_strings(&strings) {
        Some(s) => s,
        None => String::from_str("[]"),
    }
}

/// The order in which the staged buffers are named never changes the footer:
/// any reordering of the same names renders the same text.
pub proof fn law_footer_ignores_buffer_order(
    tasks: Seq<Task>,
    session: Seq<char>,
    a: Seq<Seq<char>>,
    b: Seq<Seq<char>>,
)
    requires
        a.to_multiset() == b.to_multiset(),
    ensures
        footer_text(tasks, session, a) == footer_text(tasks, session, b),
{
    crate::text::lemma_sort_strs_permutation(a, b);
    assert(buffers_line(a) == buffers_line(b));
    assert(footer_lines(tasks, session, a) == footer_lines(tasks, session, b));
}

/// A task's id text reads back as that id.
pub proof fn law_task_id_display_parses_back(ns: Namespace, id: u32)
    ensures
        parse_task_id(task_id_text(ns, id)) == Ok::<TaskId, Seq<char>>(TaskId { namespace: ns, id }),
{
    let name = ns_name(ns);
    let d = dec(id as nat);
    let s = task_id_text(ns, id);
    reveal_strlit("ws");
    reveal_strlit("team");
    reveal_strlit(":");
    assert(s == name + ":"@ + d);
    crate::text::lemma_dec_digits(id as nat);
    assert(s[name.len() as int] == ':');
    assert forall|j: int| 0 <= j < name.len() implies s[j] != ':' by {
        assert(s[j] == name[j]);
    }
    lemma_next_index_of(s, ':', 0);
    let j = next_index_of(s, ':', 0);
    if j < name.len() {
        assert(s[j] == name[j]);
    }
    assert(j == name.len());
    assert(s.take(j) =~= name);
    assert(s.skip(j + 1) =~= d);
    assert("ws"@ != "team"@);
}

/// Dependency ids written out as their display forms read back unchanged.
pub proof fn law_dep_texts_parse_back(deps: Seq<TaskId>)
    ensures
        task_ids_of(dep_texts(deps)) == deps,
    decreases deps.len(),
{
    if deps.len() > 0 {
        law_dep_texts_parse_back(deps.drop_last());
        assert(dep_texts(deps).drop_last() =~= dep_texts(deps.drop_last()));
        let t = deps.last();
        law_task_id_display_parses_back(t.namespace, t.id);
        assert(deps.drop_last().push(t) =~= deps);
    }
}

/// The status a pending or blocked task gets from its dependencies: pending
/// when it has none or all of them are done, else blocked.
pub open spec fn recomputed_status_text(deps: Seq<TaskId>, done_ids: Seq<Seq<char>>) -> Seq<char> {
    if deps.len() == 0 || forall|k: int| 0 <= k < deps.len() ==> done_ids.contains(
        #[trigger] task_id_text(deps[k].namespace, deps[k].id),
    ) {
        "pending"@
    } else {
        "blocked"@
    }
}

/// The status for a pending/blocked task given the display ids of the done tasks.
pub fn recomputed_status(deps: &[TaskId], done_ids: &[String]) -> (r: &'static str)
    ensures
        r@ == recomputed_status_text(deps@, views(done_ids@)),
{
    let mut k: usize = 0;
    while k < deps.len()
        invariant
            k <= deps@.len(),
            forall|j: int| 0 <= j < k ==> views(done_ids@).contains(
                #[trigger] task_id_text(deps@[j].namespace, deps@[j].id),
            ),
        decreases deps@.len() - k,
    {
        let id = deps[k].display();
        let mut found = false;
        let mut i: usize = 0;
        while i < done_ids.len()
            invariant
                i <= done_ids@.len(),
                found == exists|m: int| 0 <= m < i && done_ids@[m]@ == id@,
            decreases done_ids@.len() - i,
        {
            if crate::text::str_eq(done_ids[i].as_str(), id.as_str()) {
                found = true;
            }
            i += 1;
        }
        if !found {
            proof {
                if views(done_ids@).contains(id@) {
                    let m = choose|m: int| 0 <= m < views(done_ids@).len() && views(done_ids@)[m] == id@;
                    assert(done_ids@[m]@ == id@);
                }
            }
            return "blocked";
        }
        proof {
            let m = choose|m: int| 0 <= m < i && done_ids@[m]@ == id@;
            assert(views(done_ids@)[m] == id@);
        }
        k += 1;
    }
    "pending"
}

/// Whether `id` is among `ids`.
fn contains_id(ids: &[TaskId], id: &TaskId) -> (r: bool)
    ensures
        r == ids@.contains(*id),
{
    let mut i: usize = 0;
    while i < ids.len()
        invariant
            i <= ids@.len(),
            forall|j: int| 0 <= j < i ==> ids@[j] != *id,
        decreases ids@.len() - i,
    {
        if ids[i] == *id {
            assert(ids@[i as int] == *id);
            return true;
        }
        i += 1;
    }
    false
}

/// The status a pending or blocked task takes from its dependencies: pending
/// when every dependency is among the done tasks (or it has none), else blocked.
pub fn blocked_status(deps: &[TaskId], done: &[TaskId]) -> (r: TaskStatus)
    ensures
        r == (if forall|k: int| 0 <= k < deps@.len() ==> done@.contains(#[trigger] deps@[k]) {
            TaskStatus::Pending
        } else {
            TaskStatus::Blocked
        }),
{
    let mut k: usize = 0;
    while k < deps.len()
        invariant
            k <= deps@.len(),
            forall|j: int| 0 <= j < k ==> done@.contains(#[trigger] deps@[j]),
        decreases deps@.len() - k,
    {
        if !contains_id(done, &deps[k]) {
            return TaskStatus::Blocked;
        }
        k += 1;
    }
    TaskStatus::Pending
}

/// A task as stored: the namespace and status fall back to `ws` and pending
/// when unrecognized, and the dependency list is read from its JSON text.
pub fn task_from_row(
    ns_str: &str,
    id: u32,
    name: String,
    description: Option<String>,
    status_str: &str,
    owner: Option<String>,
    deps_json: &str,
) -> (r: Task)
    ensures
        r.namespace == match parse_namespace(ns_str@) {
            Ok(ns) => ns,
            Err(_) => Namespace::Ws,
        },
        r.id == id,
        r.name == name,
        r.description == description,
        r.status == match parse_status(status_str@) {
            Ok(st) => st,
            Err(_) => TaskStatus::Pending,
        },
        r.owner == owner,
        r.depends_on@ == match json_string_list(deps_json@) {
            Some(l) => task_ids_of(l),
            None => Seq::empty(),
        },
{
    let namespace = match Namespace::parse(ns_str) {
        Ok(ns) => ns,
        Err(_) => Namespace::Ws,
    };
    let status = match TaskStatus::parse(status_str) {
        Ok(st) => st,
        Err(_) => TaskStatus::Pending,
    };
    Task { namespace, id, name, description, status, owner, depends_on: parse_depends_on(deps_json) }
}

/// Whether a `buffers` table with these columns lacks `source_hash`.
pub fn needs_source_hash_column(cols: &[String]) -> (r: bool)
    ensures
        r == !views(cols@).contains("source_hash"@),
{
    let mut i: usize = 0;
    while i < cols.len()
        invariant
            i <= cols@.len(),
            forall|k: int| 0 <= k < i ==> cols@[k]@ != "source_hash"@,
        decreases cols@.len() - i,
    {
        if crate::text::str_eq(cols[i].as_str(), "source_hash") {
            assert(views(cols@)[i as int] == "source_hash"@);
            return false;
        }
        i += 1;
    }
    true
}

/// The sender of an outgoing task message: an explicit sender; else, when a
/// session id is supplied, the role registered for `(session id, agent id)`;
/// else the process's active role.
pub fn resolve_sender(
    explicit: Option<String>,
    claude_session_id: Option<&str>,
    agent_id: &str,
    registered_role: Option<String>,
    active_role_fallback: Option<String>,
) -> (r: Option<String>)
    ensures
        r == match explicit {
            Some(s) => Some(s),
            None => if claude_session_id is Some {
                registered_role
            } else {
                active_role_fallback
            },
        },
{
    if let Some(s) = explicit {
        return Some(s);
    }
    if claude_session_id.is_some() {
        return registered_role;
    }
    active_role_fallback
}


proof fn lemma_join_starts_with_first(parts: Seq<Seq<char>>, sep: Seq<char>)
    requires
        parts.len() > 0,
    ensures
        join(parts, sep).len() >= parts[0].len(),
        join(parts, sep).take(parts[0].len() as int) == parts[0],
    decreases parts.len(),
{
    if parts.len() == 1 {
        assert(join(parts, sep).take(parts[0].len() as int) =~= parts[0]);
    } else {
        let front = parts.drop_last();
        lemma_join_starts_with_first(front, sep);
        assert(front[0] == parts[0]);
        let j = join(front, sep);
        assert(join(parts, sep) == j + sep + parts.last());
        assert((j + sep + parts.last()).take(parts[0].len() as int) =~= j.take(parts[0].len() as int));
    }
}

/// The footer starts with its header, which counts each namespace's tasks and,
/// of those, the done ones only (a task in progress, pending or blocked is
/// never counted as done): `ws:[done/total]` when there are ws tasks and
/// `team:[done/total]` when there are team tasks.
pub proof fn law_footer_header_counts(tasks: Seq<Task>, session: Seq<char>, names: Seq<Seq<char>>)
    requires
        tasks.len() > 0 || names.len() > 0,
    ensures
        ({
            let wt = tasks.filter(|t: Task| t.namespace is Ws).len();
            let wd = tasks.filter(|t: Task| t.namespace is Ws && t.status is Done).len();
            let tt = tasks.filter(|t: Task| t.namespace is Team).len();
            let td = tasks.filter(|t: Task| t.namespace is Team && t.status is Done).len();
            let ws = "ws:["@ + dec(wd) + "/"@ + dec(wt) + "]"@;
            let team = "team:["@ + dec(td) + "/"@ + dec(tt) + "]"@;
            let counters = if wt > 0 && tt > 0 {
                ws + " "@ + team
            } else if wt > 0 {
                ws
            } else if tt > 0 {
                team
            } else {
                Seq::empty()
            };
            let header = "── Tasks ("@ + session + ") "@ + counters + " ──────────────────────────"@;
            footer_text(tasks, session, names).take(header.len() as int) == header
        }),
{
    assert(ws_pred() =~= (|t: Task| t.namespace is Ws));
    assert(ws_done_pred() =~= (|t: Task| t.namespace is Ws && t.status is Done));
    assert(team_pred() =~= (|t: Task| t.namespace is Team));
    assert(team_done_pred() =~= (|t: Task| t.namespace is Team && t.status is Done));
    let wt = tasks.filter(ws_pred()).len();
    let wd = tasks.filter(ws_done_pred()).len();
    let tt = tasks.filter(team_pred()).len();
    let td = tasks.filter(team_done_pred()).len();
    let c = counter_texts(wd, wt, td, tt);
    if wt > 0 && tt > 0 {
        assert(c.len() == 2);
        assert(join(c, " "@) == join(c.drop_last(), " "@) + " "@ + c.last());
        assert(c.drop_last().len() == 1);
    } else if wt > 0 || tt > 0 {
        assert(c.len() == 1);
    } else {
        assert(c.len() == 0);
    }
    let lines = footer_lines(tasks, session, names);
    lemma_join_starts_with_first(lines, "\n"@);
}


/// A task is pending exactly when each of its dependencies is done: one
/// dependency whose id is not among the done ids, wherever it stands in the
/// list, makes it blocked, and a task without dependencies is pending.
/// The status is always one of the two.
pub proof fn law_blocked_by_any_undone_dependency(deps: Seq<TaskId>, done_ids: Seq<Seq<char>>, k: int)
    ensures
        recomputed_status_text(deps, done_ids) == "pending"@ || recomputed_status_text(deps, done_ids)
            == "blocked"@,
        (0 <= k < deps.len() && !done_ids.contains(task_id_text(deps[k].namespace, deps[k].id)))
            ==> recomputed_status_text(deps, done_ids) == "blocked"@,
        (forall|j: int| 0 <= j < deps.len() ==> done_ids.contains(#[trigger] task_id_text(deps[j].namespace, deps[j].id)))
            ==> recomputed_status_text(deps, done_ids) == "pending"@,
        deps.len() == 0 ==> recomputed_status_text(deps, done_ids) == "pending"@,
{
    reveal_strlit("pending");
    reveal_strlit("blocked");
    assert("pending"@[0] != "blocked"@[0]);
}

/// The status of a task with dependencies `a` then `b` is pending exactly
/// when it would be pending with `a` alone and with `b` alone; and more done
/// tasks never block a pending task.
pub proof fn law_status_of_joined_dependencies(
    a: Seq<TaskId>,
    b: Seq<TaskId>,
    done_ids: Seq<Seq<char>>,
    more_done: Seq<Seq<char>>,
)
    ensures
        (recomputed_status_text(a + b, done_ids) == "pending"@) <==> (recomputed_status_text(a, done_ids)
            == "pending"@ && recomputed_status_text(b, done_ids) == "pending"@),
        (recomputed_status_text(a, done_ids) == "pending"@ && (forall|x: Seq<char>| done_ids.contains(x) ==> more_done.contains(x)))
            ==> recomputed_status_text(a, more_done) == "pending"@,
{
    reveal_strlit("pending");
    reveal_strlit("blocked");
    assert("pending"@[0] != "blocked"@[0]);
    let ab = a + b;
    if recomputed_status_text(a, done_ids) == "pending"@ && recomputed_status_text(b, done_ids) == "pending"@ {
        assert forall|k: int| 0 <= k < ab.len() implies done_ids.contains(
            #[trigger] task_id_text(ab[k].namespace, ab[k].id),
        ) by {
            if k < a.len() {
                assert(ab[k] == a[k]);
            } else {
                assert(ab[k] == b[k - a.len()]);
            }
        }
    }
    if recomputed_status_text(ab, done_ids) == "pending"@ {
        assert forall|k: int| 0 <= k < a.len() implies done_ids.contains(
            #[trigger] task_id_text(a[k].namespace, a[k].id),
        ) by {
            assert(ab[k] == a[k]);
        }
        assert forall|k: int| 0 <= k < b.len() implies done_ids.contains(
            #[trigger] task_id_text(b[k].namespace, b[k].id),
        ) by {
            assert(ab[k + a.len()] == b[k]);
        }
    }
}


/// What the footer lists below its header, in order: the done tasks, one line
/// each, or a single summary line once three or more are done; the first
/// three tasks in progress; as many pending or blocked tasks as the
/// in-progress lines leave of three slots, then a count of the waiting tasks
/// left out; the staged buffers when there are any; and a closing rule.
pub proof fn law_footer_sections(tasks: Seq<Task>, session: Seq<char>, names: Seq<Seq<char>>)
    ensures
        ({
            let lines = footer_lines(tasks, session, names);
            let done = tasks.filter(|t: Task| t.status is Done);
            let active = tasks.filter(|t: Task| t.status is InProgress);
            let waiting = tasks.filter(|t: Task| t.status is Pending || t.status is Blocked);
            let wd = tasks.filter(|t: Task| t.namespace is Ws && t.status is Done).len();
            let td = tasks.filter(|t: Task| t.namespace is Team && t.status is Done).len();
            let nd: int = if wd + td >= 3 { 1 } else { done.len() as int };
            let na: int = if active.len() < 3 { active.len() as int } else { 3 };
            let nw: int = if waiting.len() < 3 - na { waiting.len() as int } else { 3 - na };
            let nm: int = if waiting.len() > nw { 1 } else { 0 };
            let nb: int = if names.len() > 0 { 1 } else { 0 };
            &&& lines.len() == 1 + nd + na + nw + nm + nb + 1
            &&& wd + td >= 3 ==> lines[1] == done_summary_line(wd, td)
            &&& wd + td < 3 ==> forall|i: int| 0 <= i < done.len() ==> lines[1 + i] == done_line(#[trigger] done[i])
            &&& forall|i: int| 0 <= i < na ==> lines[1 + nd + i] == in_progress_line(#[trigger] active[i])
            &&& forall|i: int| 0 <= i < nw ==> lines[1 + nd + na + i] == waiting_line(#[trigger] waiting[i])
            &&& nm == 1 ==> lines[1 + nd + na + nw] == "    ... and "@ + dec((waiting.len() - nw) as nat) + " more"@
            &&& nb == 1 ==> lines[1 + nd + na + nw + nm] == buffers_line(names)
            &&& lines.last() == "──────────────────────────────────────────"@
        }),
{
    assert(done_pred() =~= (|t: Task| t.status is Done));
    assert(in_progress_pred() =~= (|t: Task| t.status is InProgress));
    assert(waiting_pred() =~= (|t: Task| t.status is Pending || t.status is Blocked));
    assert(ws_done_pred() =~= (|t: Task| t.namespace is Ws && t.status is Done));
    assert(team_done_pred() =~= (|t: Task| t.namespace is Team && t.status is Done));
    let lines = footer_lines(tasks, session, names);
    let done = tasks.filter(done_pred());
    let active = tasks.filter(in_progress_pred());
    let waiting = tasks.filter(waiting_pred());
    let wd = tasks.filter(ws_done_pred()).len();
    let td = tasks.filter(team_done_pred()).len();
    let shown_a = first_n(active, 3);
    let slots = (3 - shown_a.len()) as nat;
    let shown_w = first_n(waiting, slots);
    let na: int = if active.len() < 3 { active.len() as int } else { 3 };
    assert(shown_a.len() == na);
    assert forall|i: int| 0 <= i < na implies shown_a[i] == active[i] by {}
    let nw: int = if waiting.len() < 3 - na { waiting.len() as int } else { 3 - na };
    assert(shown_w.len() == nw);
    assert forall|i: int| 0 <= i < nw implies shown_w[i] == waiting[i] by {}
}

} // verus!

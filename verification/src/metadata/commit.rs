//! Tasks: their metadata, its textual encoding, and commit-message tags.
use vstd::prelude::*;
use crate::clock::unix_now_secs;
use crate::refs::Reference;
use crate::text::{
    chars_of, chars_eq, chars_views, decimal, free_of, find_char, is_digit, is_prefix,
    lemma_decimal_digits, lemma_decimal_free_of, lemma_decimal_roundtrip, lemma_find_char, lemma_find_char_bound,
    lemma_split_cons, lemma_split_single, parse_unsigned, parse_unsigned_chars, push_decimal,
    push_str, slice_chars, split_char, split_chars, starts_with, string_from_chars, str_eq,
    strings_view, clone_string,
};

verus! {

/// Where a task stands.
#[derive(Debug, Clone, Copy, PartialEq, Eq, Structural)]
pub enum TaskStatus {
    Todo,
    InProgress,
    Done,
}

/// A task: an id, a description, optional story points, its status, when it
/// was created, started and completed (seconds since the epoch), and the
/// commits made for it.
#[derive(Debug, Clone)]
pub struct TaskMetadata {
    pub id: String,
    pub description: String,
    pub story_points: Option<u32>,
    pub status: TaskStatus,
    pub created_at: u64,
    pub started_at: Option<u64>,
    pub completed_at: Option<u64>,
    pub commit_ids: Vec<String>,
}

/// The name of a status in the encoding.
pub open spec fn status_name(s: TaskStatus) -> Seq<char> {
    match s {
        TaskStatus::Todo => "TODO"@,
        TaskStatus::InProgress => "IN_PROGRESS"@,
        TaskStatus::Done => "DONE"@,
    }
}

/// The status a name stands for; an unknown name reads as to-do.
pub open spec fn status_of_name(n: Seq<char>) -> TaskStatus {
    if n == "IN_PROGRESS"@ {
        TaskStatus::InProgress
    } else if n == "DONE"@ {
        TaskStatus::Done
    } else {
        TaskStatus::Todo
    }
}

/// An optional number written in decimal, or nothing.
pub open spec fn opt_decimal(v: Option<nat>) -> Seq<char> {
    match v {
        Some(n) => decimal(n),
        None => seq![],
    }
}

/// The encoding
/// `TASK-METADATA:<id>:<description>:<points>:<status>:<created>:<started>:<completed>`.
pub open spec fn task_encoding(
    id: Seq<char>,
    description: Seq<char>,
    points: Option<nat>,
    status: TaskStatus,
    created: nat,
    started: Option<nat>,
    completed: Option<nat>,
) -> Seq<char> {
    "TASK-METADATA"@ + seq![':'] + id + seq![':'] + description + seq![':'] + opt_decimal(points)
        + seq![':'] + status_name(status) + seq![':'] + decimal(created) + seq![':'] + opt_decimal(
        started,
    ) + seq![':'] + opt_decimal(completed)
}

/// An optional number: nothing when the text is empty, otherwise the number
/// when it reads as one (and nothing when it does not).
pub open spec fn opt_parse(t: Seq<char>, max: nat) -> Option<nat> {
    if t.len() == 0 {
        None
    } else {
        parse_unsigned(t, 10, max)
    }
}

/// The fields that `decode` reads, when the text splits at `:` into at
/// least eight pieces, the first is `TASK-METADATA`, and the creation time
/// reads as a number.
pub open spec fn task_decoding(e: Seq<char>) -> Option<
    (Seq<char>, Seq<char>, Option<nat>, TaskStatus, nat, Option<nat>, Option<nat>),
> {
    let p = split_char(e, ':');
    if p.len() >= 8 && p[0] == "TASK-METADATA"@ {
        match parse_unsigned(p[5], 10, u64::MAX as nat) {
            Some(created) => Some(
                (
                    p[1],
                    p[2],
                    opt_parse(p[3], u32::MAX as nat),
                    status_of_name(p[4]),
                    created,
                    opt_parse(p[6], u64::MAX as nat),
                    opt_parse(p[7], u64::MAX as nat),
                ),
            ),
            None => None,
        }
    } else {
        None
    }
}

/// The id in a commit message tagged `[Task-<id>]` at its start: the
/// characters up to the first `]`, at least one.
pub open spec fn task_tag(m: Seq<char>) -> Option<Seq<char>> {
    if is_prefix("[Task-"@, m) {
        let rest = m.subrange(6, m.len() as int);
        match find_char(rest, ']') {
            Some(k) => if k > 0 {
                Some(rest.subrange(0, k as int))
            } else {
                None
            },
            None => None,
        }
    } else {
        None
    }
}

fn push_opt_decimal(s: &mut String, v: Option<u64>)
    ensures
        final(s)@ == old(s)@ + opt_decimal(
            match v {
                Some(n) => Some(n as nat),
                None => None,
            },
        ),
{
    match v {
        Some(n) => push_decimal(s, n),
        None => {
            assert(old(s)@ + Seq::<char>::empty() =~= old(s)@);
        },
    }
}

fn parse_opt(t: &[char], max: u64) -> (r: Option<u64>)
    ensures
        match r {
            Some(v) => opt_parse(t@, max as nat) == Some(v as nat),
            None => opt_parse(t@, max as nat) is None,
        },
{
    if t.len() == 0 {
        None
    } else {
        parse_unsigned_chars(t, 10, max)
    }
}

impl TaskMetadata {
    /// The optional numbers of a task as naturals.
    pub open spec fn opt_nat(v: Option<u64>) -> Option<nat> {
        match v {
            Some(n) => Some(n as nat),
            None => None,
        }
    }

    /// A new task, to do, created now, with no commits.
    pub fn new(id: String, description: String, story_points: Option<u32>) -> (r: TaskMetadata)
        ensures
            r.id == id,
            r.description == description,
            r.story_points == story_points,
            r.status == TaskStatus::Todo,
            r.started_at is None,
            r.completed_at is None,
            r.commit_ids@.len() == 0,
    {
        TaskMetadata {
            id,
            description,
            story_points,
            status: TaskStatus::Todo,
            created_at: unix_now_secs(),
            started_at: None,
            completed_at: None,
            commit_ids: Vec::new(),
        }
    }

    /// A commit message tagged with the task: `[Task-<id>] <message>`.
    pub fn format_commit_message(&self, message: &str) -> (r: String)
        ensures
            r@ == "[Task-"@ + self.id@ + "] "@ + message@,
    {
        let mut r = String::new();
        push_str(&mut r, "[Task-");
        push_str(&mut r, self.id.as_str());
        push_str(&mut r, "] ");
        push_str(&mut r, message);
        r
    }

    /// The task id that a commit message is tagged with, if any.
    pub fn extract_from_message(message: &str) -> (r: Option<String>)
        ensures
            match r {
                Some(id) => task_tag(message@) == Some(id@),
                None => task_tag(message@) is None,
            },
    {
        let m = chars_of(message);
        let pre = chars_of("[Task-");
        proof {
            reveal_strlit("[Task-");
        }
        if !starts_with(m.as_slice(), pre.as_slice()) {
            return None;
        }
        let ghost rest = m@.subrange(6, m@.len() as int);
        let mut k: usize = 6;
        while k < m.len()
            invariant
                6 <= k <= m.len(),
                is_prefix("[Task-"@, m@),
                m@ == message@,
                "[Task-"@.len() == 6,
                rest == m@.subrange(6, m@.len() as int),
                forall|j: int| 0 <= j < k - 6 ==> rest[j] != ']',
            decreases m.len() - k,
        {
            if m[k] == ']' {
                proof {
                    lemma_find_char(rest, ']', k - 6);
                }
                if k == 6 {
                    return None;
                }
                let id = slice_chars(m.as_slice(), 6, k);
                assert(id@ =~= rest.subrange(0, k - 6));
                return Some(string_from_chars(id.as_slice()));
            }
            k += 1;
        }
        proof {
            lemma_find_char(rest, ']', rest.len() as int);
        }
        None
    }

    /// The seconds between start and completion, when both are known.
    pub fn get_duration(&self) -> (r: Option<u64>)
        requires
            (self.started_at, self.completed_at) matches (Some(s), Some(e)) ==> s <= e,
        ensures
            r == match (self.started_at, self.completed_at) {
                (Some(s), Some(e)) => Some((e - s) as u64),
                _ => None,
            },
    {
        match (self.started_at, self.completed_at) {
            (Some(start), Some(end)) => Some(end - start),
            _ => None,
        }
    }

    /// The duration as `<hours>h <minutes>m`, or `Not completed`.
    pub fn format_duration(&self) -> (r: String)
        requires
            (self.started_at, self.completed_at) matches (Some(s), Some(e)) ==> s <= e,
        ensures
            r@ == match (self.started_at, self.completed_at) {
                (Some(s), Some(e)) => decimal(((e - s) / 3600) as nat) + "h "@ + decimal(
                    (((e - s) % 3600) / 60) as nat,
                ) + "m"@,
                _ => "Not completed"@,
            },
    {
        match self.get_duration() {
            Some(d) => {
                let mut r = String::new();
                push_decimal(&mut r, d / 3600);
                push_str(&mut r, "h ");
                push_decimal(&mut r, (d % 3600) / 60);
                push_str(&mut r, "m");
                r
            },
            None => "Not completed".to_owned(),
        }
    }

    /// The task as
    /// `TASK-METADATA:<id>:<description>:<points>:<status>:<created>:<started>:<completed>`.
    pub fn encode(&self) -> (r: String)
        ensures
            r@ == task_encoding(
                self.id@,
                self.description@,
                match self.story_points {
                    Some(p) => Some(p as nat),
                    None => None,
                },
                self.status,
                self.created_at as nat,
                Self::opt_nat(self.started_at),
                Self::opt_nat(self.completed_at),
            ),
    {
        let mut r = String::new();
        push_str(&mut r, "TASK-METADATA");
        r.push(':');
        push_str(&mut r, self.id.as_str());
        r.push(':');
        push_str(&mut r, self.description.as_str());
        r.push(':');
        push_opt_decimal(
            &mut r,
            match self.story_points {
                Some(p) => Some(p as u64),
                None => None,
            },
        );
        r.push(':');
        match self.status {
            TaskStatus::Todo => push_str(&mut r, "TODO"),
            TaskStatus::InProgress => push_str(&mut r, "IN_PROGRESS"),
            TaskStatus::Done => push_str(&mut r, "DONE"),
        }
        r.push(':');
        push_decimal(&mut r, self.created_at);
        r.push(':');
        push_opt_decimal(&mut r, self.started_at);
        r.push(':');
        push_opt_decimal(&mut r, self.completed_at);
        r
    }

    /// Reads a task back from its encoding; the commit list starts empty.
    pub fn decode(encoded: &str) -> (r: Option<TaskMetadata>)
        ensures
            match (r, task_decoding(encoded@)) {
                (Some(t), Some((id, desc, points, status, created, started, completed))) => t.id@
                    == id && t.description@ == desc && Self::opt_nat(
                    match t.story_points {
                        Some(p) => Some(p as u64),
                        None => None,
                    },
                ) == points && t.status == status && t.created_at == created && Self::opt_nat(
                    t.started_at,
                ) == started && Self::opt_nat(t.completed_at) == completed
                    && t.commit_ids@.len() == 0,
                (None, None) => true,
                _ => false,
            },
    {
        let e = chars_of(encoded);
        let parts = split_chars(e.as_slice(), ':');
        let ghost pv = chars_views(parts@);
        if parts.len() < 8 {
            return None;
        }
        assert(pv[0] == parts@[0]@ && pv[1] == parts@[1]@ && pv[2] == parts@[2]@ && pv[3]
            == parts@[3]@ && pv[4] == parts@[4]@ && pv[5] == parts@[5]@ && pv[6] == parts@[6]@
            && pv[7] == parts@[7]@);
        let tag = chars_of("TASK-METADATA");
        if !chars_eq(parts[0].as_slice(), tag.as_slice()) {
            return None;
        }
        let story_points = match parse_opt(parts[3].as_slice(), u32::MAX as u64) {
            Some(v) => Some(v as u32),
            None => None,
        };
        let in_progress = chars_of("IN_PROGRESS");
        let done = chars_of("DONE");
        let status = if chars_eq(parts[4].as_slice(), in_progress.as_slice()) {
            TaskStatus::InProgress
        } else if chars_eq(parts[4].as_slice(), done.as_slice()) {
            TaskStatus::Done
        } else {
            TaskStatus::Todo
        };
        let created_at = match parse_unsigned_chars(parts[5].as_slice(), 10, u64::MAX) {
            Some(v) => v,
            None => return None,
        };
        let started_at = parse_opt(parts[6].as_slice(), u64::MAX);
        let completed_at = parse_opt(parts[7].as_slice(), u64::MAX);
        Some(
            TaskMetadata {
                id: string_from_chars(parts[1].as_slice()),
                description: string_from_chars(parts[2].as_slice()),
                story_points,
                status,
                created_at,
                started_at,
                completed_at,
                commit_ids: Vec::new(),
            },
        )
    }
}


/// An optional number written out reads back as itself, when it fits.
proof fn lemma_opt_roundtrip(v: Option<nat>, max: nat)
    requires
        v matches Some(n) ==> n <= max,
    ensures
        opt_parse(opt_decimal(v), max) == v,
        free_of(opt_decimal(v), ':'),
{
    assert(!is_digit(':', 10));
    match v {
        Some(n) => {
            lemma_decimal_digits(n);
            lemma_decimal_roundtrip(n, max);
            lemma_decimal_free_of(n, ':');
        },
        None => {},
    }
}

/// Decoding an encoded task gives its fields back when neither the id nor
/// the description holds a `:`.
pub proof fn lemma_task_roundtrip(
    id: Seq<char>,
    description: Seq<char>,
    points: Option<u32>,
    status: TaskStatus,
    created: u64,
    started: Option<u64>,
    completed: Option<u64>,
)
    requires
        free_of(id, ':'),
        free_of(description, ':'),
    ensures
        task_decoding(
            task_encoding(
                id,
                description,
                TaskMetadata::opt_nat(
                    match points {
                        Some(p) => Some(p as u64),
                        None => None,
                    },
                ),
                status,
                created as nat,
                TaskMetadata::opt_nat(started),
                TaskMetadata::opt_nat(completed),
            ),
        ) == Some(
            (
                id,
                description,
                TaskMetadata::opt_nat(
                    match points {
                        Some(p) => Some(p as u64),
                        None => None,
                    },
                ),
                status,
                created as nat,
                TaskMetadata::opt_nat(started),
                TaskMetadata::opt_nat(completed),
            ),
        ),
{
    reveal_strlit("TASK-METADATA");
    reveal_strlit("TODO");
    reveal_strlit("IN_PROGRESS");
    reveal_strlit("DONE");
    let pv = TaskMetadata::opt_nat(
        match points {
            Some(p) => Some(p as u64),
            None => None,
        },
    );
    let sv = TaskMetadata::opt_nat(started);
    let cv = TaskMetadata::opt_nat(completed);
    let tag = "TASK-METADATA"@;
    let sn = status_name(status);
    let dc = decimal(created as nat);
    let op = opt_decimal(pv);
    let os = opt_decimal(sv);
    let oc = opt_decimal(cv);
    assert(!is_digit(':', 10));
    lemma_opt_roundtrip(pv, u32::MAX as nat);
    lemma_opt_roundtrip(sv, u64::MAX as nat);
    lemma_opt_roundtrip(cv, u64::MAX as nat);
    lemma_decimal_free_of(created as nat, ':');
    lemma_decimal_roundtrip(created as nat, u64::MAX as nat);
    assert(free_of(tag, ':'));
    assert(free_of(sn, ':'));
    assert(status_of_name(sn) == status) by {
        assert("TODO"@ != "IN_PROGRESS"@ && "TODO"@ != "DONE"@ && "DONE"@ != "IN_PROGRESS"@) by {
            assert("TODO"@[0] != "DONE"@[0]);
        }
    }
    lemma_encoding_joined(id, description, pv, status, created as nat, sv, cv);
    lemma_split8(tag, id, description, op, sn, dc, os, oc);
}

proof fn lemma_encoding_joined(
    id: Seq<char>,
    description: Seq<char>,
    points: Option<nat>,
    status: TaskStatus,
    created: nat,
    started: Option<nat>,
    completed: Option<nat>,
)
    ensures
        task_encoding(id, description, points, status, created, started, completed) == joined8(
            "TASK-METADATA"@,
            id,
            description,
            opt_decimal(points),
            status_name(status),
            decimal(created),
            opt_decimal(started),
            opt_decimal(completed),
        ),
{
}

/// Eight pieces joined by `:`.
spec fn joined8(
    a0: Seq<char>,
    a1: Seq<char>,
    a2: Seq<char>,
    a3: Seq<char>,
    a4: Seq<char>,
    a5: Seq<char>,
    a6: Seq<char>,
    a7: Seq<char>,
) -> Seq<char> {
    a0 + seq![':'] + a1 + seq![':'] + a2 + seq![':'] + a3 + seq![':'] + a4 + seq![':'] + a5
        + seq![':'] + a6 + seq![':'] + a7
}

/// Splitting eight pieces free of `:`, joined by it, gives the pieces.
proof fn lemma_split8(
    a0: Seq<char>,
    a1: Seq<char>,
    a2: Seq<char>,
    a3: Seq<char>,
    a4: Seq<char>,
    a5: Seq<char>,
    a6: Seq<char>,
    a7: Seq<char>,
)
    requires
        free_of(a0, ':'),
        free_of(a1, ':'),
        free_of(a2, ':'),
        free_of(a3, ':'),
        free_of(a4, ':'),
        free_of(a5, ':'),
        free_of(a6, ':'),
        free_of(a7, ':'),
    ensures
        split_char(joined8(a0, a1, a2, a3, a4, a5, a6, a7), ':') == seq![a0, a1, a2, a3, a4, a5, a6, a7],
{
    let t6 = a6 + seq![':'] + a7;
    let t5 = a5 + seq![':'] + t6;
    let t4 = a4 + seq![':'] + t5;
    let t3 = a3 + seq![':'] + t4;
    let t2 = a2 + seq![':'] + t3;
    let t1 = a1 + seq![':'] + t2;
    let t0 = a0 + seq![':'] + t1;
    assert(joined8(a0, a1, a2, a3, a4, a5, a6, a7) =~= t0);
    lemma_split_single(a7, ':');
    lemma_split_cons(a6, a7, ':');
    lemma_split_cons(a5, t6, ':');
    lemma_split_cons(a4, t5, ':');
    lemma_split_cons(a3, t4, ':');
    lemma_split_cons(a2, t3, ':');
    lemma_split_cons(a1, t2, ':');
    lemma_split_cons(a0, t1, ':');
    assert(split_char(t0, ':') =~= seq![a0, a1, a2, a3, a4, a5, a6, a7]);
}


/// The total of the story points of the tasks that have them.
pub open spec fn total_points(tasks: Seq<TaskMetadata>) -> nat
    decreases tasks.len(),
{
    if tasks.len() == 0 {
        0
    } else {
        total_points(tasks.drop_last()) + match tasks.last().story_points {
            Some(p) => p as nat,
            None => 0,
        }
    }
}

/// The total of the story points of the finished tasks.
pub open spec fn done_points(tasks: Seq<TaskMetadata>) -> nat
    decreases tasks.len(),
{
    if tasks.len() == 0 {
        0
    } else {
        done_points(tasks.drop_last()) + match tasks.last().story_points {
            Some(p) => if tasks.last().status == TaskStatus::Done {
                p as nat
            } else {
                0
            },
            None => 0,
        }
    }
}

/// Finished points never exceed the total.
proof fn lemma_done_le_total(tasks: Seq<TaskMetadata>)
    ensures
        done_points(tasks) <= total_points(tasks),
    decreases tasks.len(),
{
    if tasks.len() > 0 {
        lemma_done_le_total(tasks.drop_last());
    }
}

/// The commits, in walk order, whose message is tagged with the task.
pub open spec fn tagged_commits(id: Seq<char>, chain: Seq<(Seq<char>, Seq<char>)>) -> Seq<Seq<char>>
    decreases chain.len(),
{
    if chain.len() == 0 {
        seq![]
    } else {
        tagged_commits(id, chain.drop_last()) + if task_tag(chain.last().1) == Some(id) {
            seq![chain.last().0]
        } else {
            seq![]
        }
    }
}

/// A task placed into a list ordered by creation time, after every task
/// created no later than it.
pub open spec fn insert_by_created(s: Seq<TaskMetadata>, t: TaskMetadata) -> Seq<TaskMetadata>
    decreases s.len(),
{
    if s.len() == 0 || s.last().created_at <= t.created_at {
        s.push(t)
    } else {
        insert_by_created(s.drop_last(), t).push(s.last())
    }
}

/// The tasks ordered by creation time, tasks created at the same time
/// keeping their order.
pub open spec fn by_created(s: Seq<TaskMetadata>) -> Seq<TaskMetadata>
    decreases s.len(),
{
    if s.len() == 0 {
        seq![]
    } else {
        insert_by_created(by_created(s.drop_last()), s.last())
    }
}

/// Tasks in order of creation time.
pub open spec fn created_in_order(s: Seq<TaskMetadata>) -> bool {
    forall|i: int, j: int| 0 <= i < j < s.len() ==> s[i].created_at <= s[j].created_at
}

proof fn lemma_insert_by_created(s: Seq<TaskMetadata>, t: TaskMetadata)
    requires
        created_in_order(s),
    ensures
        created_in_order(insert_by_created(s, t)),
        insert_by_created(s, t).to_multiset() == s.to_multiset().insert(t),
        insert_by_created(s, t).len() == s.len() + 1,
        insert_by_created(s, t).last().created_at == if s.len() == 0 || s.last().created_at
            <= t.created_at {
            t.created_at
        } else {
            s.last().created_at
        },
    decreases s.len(),
{
    broadcast use vstd::seq_lib::group_to_multiset_ensures;

    if s.len() == 0 || s.last().created_at <= t.created_at {
    } else {
        let d = s.drop_last();
        lemma_insert_by_created(d, t);
        let r = insert_by_created(d, t);
        assert(d.push(s.last()) =~= s);
        assert(r.push(s.last()).to_multiset() == r.to_multiset().insert(s.last()));
        assert(s.to_multiset() == d.to_multiset().insert(s.last()));
        assert(r.push(s.last()).to_multiset() =~= s.to_multiset().insert(t));
        assert(d.len() > 0 ==> d.last().created_at <= s.last().created_at);
        assert(r.last().created_at <= s.last().created_at);
    }
}

/// Ordering tasks by creation time gives the same tasks, in order of
/// creation time.
pub proof fn lemma_by_created(s: Seq<TaskMetadata>)
    ensures
        created_in_order(by_created(s)),
        by_created(s).to_multiset() == s.to_multiset(),
        by_created(s).len() == s.len(),
    decreases s.len(),
{
    broadcast use vstd::seq_lib::group_to_multiset_ensures;

    if s.len() == 0 {
        assert(by_created(s).to_multiset() =~= s.to_multiset());
    } else {
        lemma_by_created(s.drop_last());
        lemma_insert_by_created(by_created(s.drop_last()), s.last());
        assert(s.drop_last().push(s.last()) =~= s);
    }
}

/// Inserting at the position past every task created no later, and before
/// the later ones, is `insert_by_created`.
proof fn lemma_insert_at(s: Seq<TaskMetadata>, t: TaskMetadata, p: int)
    requires
        0 <= p <= s.len(),
        forall|j: int| p <= j < s.len() ==> #[trigger] s[j].created_at > t.created_at,
        p > 0 ==> s[p - 1].created_at <= t.created_at,
    ensures
        insert_by_created(s, t) == s.take(p).push(t) + s.skip(p),
    decreases s.len(),
{
    if s.len() == 0 {
        assert(s.take(p).push(t) + s.skip(p) =~= s.push(t));
    } else if p == s.len() {
        assert(s.take(p).push(t) + s.skip(p) =~= s.push(t));
    } else {
        lemma_insert_at(s.drop_last(), t, p);
        assert(s.drop_last().take(p) =~= s.take(p));
        assert(s.take(p).push(t) + s.skip(p) =~= (s.drop_last().take(p).push(t) + s.drop_last().skip(
            p,
        )).push(s.last()));
    }
}


/// The tasks found under the task references: for each symbolic reference
/// whose task could be read, the task, in order.
pub open spec fn task_entries_spec(s: Seq<(Reference, Option<TaskMetadata>)>) -> Seq<TaskMetadata>
    decreases s.len(),
{
    if s.len() == 0 {
        seq![]
    } else {
        task_entries_spec(s.drop_last()) + match s.last() {
            (Reference::Symbolic(_), Some(t)) => seq![t],
            _ => seq![],
        }
    }
}

/// Finds tasks and sums up sprint progress for a repository.
pub struct CommitMetadataManager {
    pub repo_path: String,
}

impl CommitMetadataManager {
    /// A manager for the repository at the given path.
    pub fn new(repo_path: &str) -> (r: CommitMetadataManager)
        ensures
            r.repo_path@ == repo_path@,
    {
        CommitMetadataManager { repo_path: repo_path.to_owned() }
    }

    /// The task's id and status, as put into commit messages:
    /// `Task: <id>` and `Status: <status>` on two lines.
    pub fn format_task_metadata(&self, task: &TaskMetadata) -> (r: String)
        ensures
            r@ == "Task: "@ + task.id@ + "\nStatus: "@ + status_name(task.status),
    {
        let mut r = String::new();
        push_str(&mut r, "Task: ");
        push_str(&mut r, task.id.as_str());
        push_str(&mut r, "\nStatus: ");
        match task.status {
            TaskStatus::Todo => push_str(&mut r, "TODO"),
            TaskStatus::InProgress => push_str(&mut r, "IN_PROGRESS"),
            TaskStatus::Done => push_str(&mut r, "DONE"),
        }
        r
    }

    /// The reference under which a task's metadata is kept:
    /// `refs/meta/task/<id>`.
    pub fn task_ref(task_id: &str) -> (r: String)
        ensures
            r@ == "refs/meta/task/"@ + task_id@,
    {
        let mut r = String::new();
        push_str(&mut r, "refs/meta/task/");
        push_str(&mut r, task_id);
        r
    }

    /// The task id of a metadata reference: the part after
    /// `refs/meta/task/`, or the whole path when it lies elsewhere.
    pub fn task_id_of_ref(path: &str) -> (r: String)
        ensures
            r@ == if is_prefix("refs/meta/task/"@, path@) {
                path@.subrange(15, path@.len() as int)
            } else {
                path@
            },
    {
        let p = chars_of(path);
        let pre = chars_of("refs/meta/task/");
        proof {
            reveal_strlit("refs/meta/task/");
        }
        if starts_with(p.as_slice(), pre.as_slice()) {
            string_from_chars(slice_chars(p.as_slice(), 15, p.len()).as_slice())
        } else {
            string_from_chars(p.as_slice())
        }
    }

    /// The total story points of the tasks and those of the finished ones.
    /// (The percentage done is their ratio, zero with no points.)
    pub fn calculate_sprint_progress(&self, tasks: &[TaskMetadata]) -> (r: (u32, u32))
        requires
            total_points(tasks@) <= u32::MAX,
        ensures
            r.0 == total_points(tasks@),
            r.1 == done_points(tasks@),
    {
        let mut total: u32 = 0;
        let mut done: u32 = 0;
        let mut i: usize = 0;
        while i < tasks.len()
            invariant
                i <= tasks.len(),
                total_points(tasks@) <= u32::MAX,
                total == total_points(tasks@.take(i as int)),
                done == done_points(tasks@.take(i as int)),
            decreases tasks.len() - i,
        {
            proof {
                assert(tasks@.take(i + 1).drop_last() =~= tasks@.take(i as int));
                lemma_total_prefix(tasks@, i + 1);
                lemma_done_le_total(tasks@.take(i + 1));
            }
            match tasks[i].story_points {
                Some(p) => {
                    total = total + p;
                    if tasks[i].status == TaskStatus::Done {
                        done = done + p;
                    }
                },
                None => {},
            }
            i += 1;
        }
        assert(tasks@.take(i as int) =~= tasks@);
        (total, done)
    }

    /// The branch for a task of a sprint: `<sprint>/task/<id>`.
    pub fn create_task_branch_name(&self, sprint_branch: &str, task_id: &str) -> (r: String)
        ensures
            r@ == sprint_branch@ + "/task/"@ + task_id@,
    {
        let mut r = String::new();
        push_str(&mut r, sprint_branch);
        push_str(&mut r, "/task/");
        push_str(&mut r, task_id);
        r
    }

    /// Of the commits met walking a branch back from its tip, given as
    /// (id, message) in that order, the ids of those tagged with the task.
    pub fn commits_for_task(task_id: &str, chain: &Vec<(String, String)>) -> (r: Vec<String>)
        ensures
            strings_view(r@) == tagged_commits(
                task_id@,
                chain@.map_values(|c: (String, String)| (c.0@, c.1@)),
            ),
    {
        let ghost cv = chain@.map_values(|c: (String, String)| (c.0@, c.1@));
        let mut r: Vec<String> = Vec::new();
        let mut i: usize = 0;
        while i < chain.len()
            invariant
                i <= chain.len(),
                cv == chain@.map_values(|c: (String, String)| (c.0@, c.1@)),
                strings_view(r@) == tagged_commits(task_id@, cv.take(i as int)),
            decreases chain.len() - i,
        {
            assert(cv.take(i + 1).drop_last() =~= cv.take(i as int));
            let ghost before = strings_view(r@);
            match TaskMetadata::extract_from_message(chain[i].1.as_str()) {
                Some(id) => {
                    if str_eq(id.as_str(), task_id) {
                        r.push(clone_string(&chain[i].0));
                        assert(strings_view(r@) =~= before.push(chain[i as int].0@));
                    } else {
                        assert(strings_view(r@) =~= before + Seq::<Seq<char>>::empty());
                    }
                },
                None => {
                    assert(strings_view(r@) =~= before + Seq::<Seq<char>>::empty());
                },
            }
            i += 1;
        }
        assert(cv.take(i as int) =~= cv);
        r
    }

    /// The tasks found under the task references, given each reference
    /// with its task when it could be read; to be ordered by creation with
    /// `sort_by_created`.
    pub fn task_entries(found: Vec<(Reference, Option<TaskMetadata>)>) -> (r: Vec<TaskMetadata>)
        ensures
            r@ == task_entries_spec(found@),
    {
        let ghost orig = found@;
        let mut rest = found;
        let mut r: Vec<TaskMetadata> = Vec::new();
        let ghost mut done: int = 0;
        while rest.len() > 0
            invariant
                0 <= done <= orig.len(),
                rest@ == orig.skip(done),
                r@ == task_entries_spec(orig.take(done)),
            decreases rest.len(),
        {
            let ghost before = r@;
            let (rf, t) = rest.remove(0);
            proof {
                assert(orig.take(done + 1).drop_last() =~= orig.take(done));
                assert(orig[done] == (rf, t));
                assert(rest@ =~= orig.skip(done + 1));
            }
            match (rf, t) {
                (Reference::Symbolic(_), Some(task)) => {
                    r.push(task);
                },
                _ => {
                    assert(r@ =~= before + Seq::<TaskMetadata>::empty());
                },
            }
            proof {
                done = done + 1;
            }
        }
        assert(orig.take(done) =~= orig);
        r
    }

    /// The tasks ordered by creation time; tasks created at the same time
    /// keep their order.
    pub fn sort_by_created(tasks: Vec<TaskMetadata>) -> (r: Vec<TaskMetadata>)
        ensures
            r@ == by_created(tasks@),
            created_in_order(r@),
            r@.to_multiset() == tasks@.to_multiset(),
    {
        proof {
            lemma_by_created(tasks@);
        }
        let ghost orig = tasks@;
        let mut rest = tasks;
        let mut r: Vec<TaskMetadata> = Vec::new();
        let ghost mut done: int = 0;
        while rest.len() > 0
            invariant
                0 <= done <= orig.len(),
                rest@ == orig.skip(done),
                r@ == by_created(orig.take(done)),
            decreases rest.len(),
        {
            let t = rest.remove(0);
            proof {
                assert(orig.take(done + 1).drop_last() =~= orig.take(done));
                assert(t == orig[done]);
                assert(rest@ =~= orig.skip(done + 1));
            }
            let mut p: usize = r.len();
            while p > 0 && r[p - 1].created_at > t.created_at
                invariant
                    p <= r.len(),
                    forall|j: int| p <= j < r.len() ==> #[trigger] r@[j].created_at > t.created_at,
                decreases p,
            {
                p -= 1;
            }
            proof {
                lemma_insert_at(r@, t, p as int);
            }
            let ghost r0 = r@;
            r.insert(p, t);
            proof {
                assert(r@ =~= r0.take(p as int).push(t) + r0.skip(p as int));
                done = done + 1;
            }
        }
        assert(orig.take(done) =~= orig);
        r
    }
}

/// The running totals of a prefix grow by the next task's points.
proof fn lemma_total_prefix(tasks: Seq<TaskMetadata>, i: int)
    requires
        0 < i <= tasks.len(),
    ensures
        total_points(tasks.take(i)) <= total_points(tasks),
        total_points(tasks.take(i)) == total_points(tasks.take(i - 1)) + match tasks[i - 1].story_points {
            Some(p) => p as nat,
            None => 0,
        },
        done_points(tasks.take(i)) == done_points(tasks.take(i - 1)) + match tasks[i - 1].story_points {
            Some(p) => if tasks[i - 1].status == TaskStatus::Done {
                p as nat
            } else {
                0
            },
            None => 0,
        },
    decreases tasks.len() - i,
{
    assert(tasks.take(i).drop_last() =~= tasks.take(i - 1));
    if i < tasks.len() {
        lemma_total_prefix(tasks, i + 1);
    } else {
        assert(tasks.take(i) =~= tasks);
    }
}

} // verus!

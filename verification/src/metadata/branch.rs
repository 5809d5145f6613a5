//! Sprints: their metadata, its textual encoding, and branch names.
use vstd::prelude::*;
use crate::clock::unix_now_secs;
use crate::error::Error;
use crate::text::{
    chars_of, chars_eq, chars_views, decimal, free_of, lemma_decimal_free_of,
    lemma_decimal_roundtrip, lemma_split_cons, lemma_split_single, lowercase, parse_unsigned,
    parse_unsigned_chars, push_chars, push_decimal, push_str, replace_char, replace_chars,
    split_char, split_chars, string_from_chars, to_lowercase, is_digit, is_prefix, starts_with, slice_chars,
};
use crate::refs::Reference;

verus! {

/// A sprint: a name, its start (seconds since the epoch) and its length in
/// days.
#[derive(Debug, Clone)]
pub struct SprintMetadata {
    pub name: String,
    pub start_timestamp: u64,
    pub duration_days: u32,
}

/// The encoding `SPRINT:<name>:<start>:<days>`.
pub open spec fn sprint_encoding(name: Seq<char>, start: nat, days: nat) -> Seq<char> {
    "SPRINT"@ + seq![':'] + name + seq![':'] + decimal(start) + seq![':'] + decimal(days)
}

/// What `decode` reads from a text: the name, start and length, when the
/// text splits at `:` into at least four pieces, the first is `SPRINT`, and
/// the third and fourth are numbers that fit.
pub open spec fn sprint_decoding(e: Seq<char>) -> Option<(Seq<char>, nat, nat)> {
    let parts = split_char(e, ':');
    if parts.len() >= 4 && parts[0] == "SPRINT"@ {
        match (
            parse_unsigned(parts[2], 10, u64::MAX as nat),
            parse_unsigned(parts[3], 10, u32::MAX as nat),
        ) {
            (Some(start), Some(days)) => Some((parts[1], start, days)),
            _ => None,
        }
    } else {
        None
    }
}

/// The branch name of a sprint: `sprint-` and the lower-cased name with its
/// spaces turned into dashes.
pub open spec fn sprint_branch_name(name: Seq<char>) -> Seq<char> {
    "sprint-"@ + lowercase(replace_char(name, ' ', '-'))
}

/// A reference path with a prefix taken off, or the whole path when it
/// does not start with it.
pub open spec fn meta_name(path: Seq<char>, pre: Seq<char>) -> Seq<char> {
    if is_prefix(pre, path) {
        path.subrange(pre.len() as int, path.len() as int)
    } else {
        path
    }
}

/// The path with the prefix taken off when it starts with it.
pub fn strip_meta_prefix(path: &str, pre: &str) -> (r: String)
    ensures
        r@ == meta_name(path@, pre@),
{
    let p = chars_of(path);
    let q = chars_of(pre);
    if starts_with(p.as_slice(), q.as_slice()) {
        let rest = slice_chars(p.as_slice(), q.len(), p.len());
        string_from_chars(rest.as_slice())
    } else {
        path.to_owned()
    }
}

/// The sprints found under the sprint references: for each symbolic
/// reference whose sprint could be read, its name (the path after
/// `refs/meta/sprint-`) and the sprint, in order.
pub open spec fn sprint_entries_spec(s: Seq<(Reference, Option<SprintMetadata>)>) -> Seq<
    (Seq<char>, SprintMetadata),
>
    decreases s.len(),
{
    if s.len() == 0 {
        seq![]
    } else {
        sprint_entries_spec(s.drop_last()) + match s.last() {
            (Reference::Symbolic(p), Some(m)) => seq![(meta_name(p@, "refs/meta/sprint-"@), m)],
            _ => seq![],
        }
    }
}

impl SprintMetadata {
    /// A sprint that starts now.
    pub fn new(name: String, duration_days: u32) -> (r: SprintMetadata)
        ensures
            r.name == name,
            r.duration_days == duration_days,
    {
        let now = unix_now_secs();
        SprintMetadata { name, start_timestamp: now, duration_days }
    }

    /// The end of the sprint: its start plus its length in seconds.
    pub fn end_timestamp(&self) -> (r: u64)
        requires
            self.start_timestamp + self.duration_days * 86400 <= u64::MAX,
        ensures
            r == self.start_timestamp + self.duration_days * 86400,
    {
        self.start_timestamp + (self.duration_days as u64 * 24 * 60 * 60)
    }

    /// Whether the sprint has not ended at the given time.
    pub fn is_active_at(&self, now: u64) -> (r: bool)
        requires
            self.start_timestamp + self.duration_days * 86400 <= u64::MAX,
        ensures
            r == (now <= self.start_timestamp + self.duration_days * 86400),
    {
        now <= self.end_timestamp()
    }

    /// Whether the sprint has not ended yet, by the system clock: whether
    /// the clock's reading is at most its end. Which time the clock reads is
    /// not known here, so what holds of every reading is stated: a sprint
    /// ending at the last second a `u64` holds is active at any reading.
    pub fn is_active(&self) -> (r: bool)
        requires
            self.start_timestamp + self.duration_days * 86400 <= u64::MAX,
        ensures
            self.start_timestamp + self.duration_days * 86400 == u64::MAX ==> r,
    {
        let now = unix_now_secs();
        self.is_active_at(now)
    }

    /// A timestamp as `YYYY-MM-DD HH:MM` in UTC, by chrono
    /// (`DateTime::from_timestamp`, then `format`); the epoch when the
    /// timestamp is out of chrono's range. Before the year 10000, chrono's
    /// documentation gives the text: the proleptic Gregorian date, the year
    /// in four digits, the rest in two. From then on (where `%Y` takes a
    /// sign) only the name is stated.
    #[verifier::external_body]
    pub fn format_date(timestamp: u64) -> (r: String)
        ensures
            r@ == utc_minutes(timestamp),
            timestamp < 253402300800 ==> r@ == utc_date_text(timestamp as nat),
    {
        let dt = chrono::DateTime::from_timestamp(timestamp as i64, 0).unwrap_or(
            chrono::DateTime::UNIX_EPOCH,
        );
        dt.format("%Y-%m-%d %H:%M").to_string()
    }

    /// The sprint's branch name.
    pub fn to_branch_name(&self) -> (r: String)
        ensures
            r@ == sprint_branch_name(self.name@),
    {
        let n = chars_of(self.name.as_str());
        let dashed = replace_chars(n.as_slice(), ' ', '-');
        let dashed_s = string_from_chars(dashed.as_slice());
        let low = to_lowercase(dashed_s.as_str());
        let mut r = String::new();
        push_str(&mut r, "sprint-");
        push_str(&mut r, low.as_str());
        r
    }

    /// The sprint as `SPRINT:<name>:<start>:<days>`.
    pub fn encode(&self) -> (r: String)
        ensures
            r@ == sprint_encoding(self.name@, self.start_timestamp as nat, self.duration_days as nat),
    {
        let mut r = String::new();
        push_str(&mut r, "SPRINT");
        r.push(':');
        push_str(&mut r, self.name.as_str());
        r.push(':');
        push_decimal(&mut r, self.start_timestamp);
        r.push(':');
        push_decimal(&mut r, self.duration_days as u64);
        r
    }

    /// Reads a sprint back from its encoding.
    pub fn decode(encoded: &str) -> (r: Option<SprintMetadata>)
        ensures
            match (r, sprint_decoding(encoded@)) {
                (Some(m), Some((name, start, days))) => m.name@ == name && m.start_timestamp
                    == start && m.duration_days == days,
                (None, None) => true,
                _ => false,
            },
    {
        let e = chars_of(encoded);
        let parts = split_chars(e.as_slice(), ':');
        let ghost pv = chars_views(parts@);
        assert(pv == split_char(encoded@, ':'));
        if parts.len() < 4 {
            return None;
        }
        assert(pv[0] == parts@[0]@);
        let tag = chars_of("SPRINT");
        if !chars_eq(parts[0].as_slice(), tag.as_slice()) {
            return None;
        }
        assert(pv[1] == parts@[1]@ && pv[2] == parts@[2]@ && pv[3] == parts@[3]@);
        let start = match parse_unsigned_chars(parts[2].as_slice(), 10, u64::MAX) {
            Some(v) => v,
            None => return None,
        };
        let days = match parse_unsigned_chars(parts[3].as_slice(), 10, u32::MAX as u64) {
            Some(v) => v,
            None => return None,
        };
        let name = string_from_chars(parts[1].as_slice());
        Some(SprintMetadata { name, start_timestamp: start, duration_days: days as u32 })
    }
}

/// The date text that chrono gives for a timestamp.
pub uninterp spec fn utc_minutes(timestamp: u64) -> Seq<char>;

/// A timestamp as the sprint commands show it: the Gregorian date text
/// before the year 10000, chrono's text from then on.
pub open spec fn shown_date(timestamp: u64) -> Seq<char> {
    if timestamp < 253402300800 {
        utc_date_text(timestamp as nat)
    } else {
        utc_minutes(timestamp)
    }
}

/// A leap year of the Gregorian calendar.
pub open spec fn is_leap(y: int) -> bool {
    (y % 4 == 0 && y % 100 != 0) || y % 400 == 0
}

/// The days of year `y`.
pub open spec fn year_days(y: int) -> nat {
    if is_leap(y) {
        366
    } else {
        365
    }
}

/// The days of month `m` (one to twelve) of year `y`.
pub open spec fn month_days(y: int, m: int) -> nat {
    if m == 2 {
        if is_leap(y) {
            29
        } else {
            28
        }
    } else if m == 4 || m == 6 || m == 9 || m == 11 {
        30
    } else {
        31
    }
}

/// The year, month and day (from one) that lie `d` days after the first
/// of month `m` of year `y`: whole years are skipped from January on, then
/// whole months.
pub open spec fn civil_from(y: int, m: int, d: nat) -> (int, int, int)
    decreases d,
{
    if m == 1 && d >= year_days(y) {
        civil_from(y + 1, 1, (d - year_days(y)) as nat)
    } else if d >= month_days(y, m) {
        civil_from(y, m + 1, (d - month_days(y, m)) as nat)
    } else {
        (y, m, d + 1int)
    }
}

/// The decimal numeral of `n` with zeros in front up to `w` digits.
pub open spec fn zero_padded(n: nat, w: nat) -> Seq<char> {
    let t = decimal(n);
    Seq::new(if t.len() < w {
        (w - t.len()) as nat
    } else {
        0
    }, |i: int| '0') + t
}

/// A timestamp as `YYYY-MM-DD HH:MM` of the Gregorian calendar in UTC.
pub open spec fn utc_date_text(timestamp: nat) -> Seq<char> {
    let c = civil_from(1970, 1, timestamp / 86400);
    let secs = timestamp % 86400;
    zero_padded(c.0 as nat, 4) + "-"@ + zero_padded(c.1 as nat, 2) + "-"@ + zero_padded(
        c.2 as nat,
        2,
    ) + " "@ + zero_padded(secs / 3600, 2) + ":"@ + zero_padded((secs % 3600) / 60, 2)
}

/// Decoding an encoded sprint gives the sprint back when its name holds no
/// `:`.
pub proof fn lemma_sprint_roundtrip(name: Seq<char>, start: u64, days: u32)
    requires
        free_of(name, ':'),
    ensures
        sprint_decoding(sprint_encoding(name, start as nat, days as nat)) == Some(
            (name, start as nat, days as nat),
        ),
{
    reveal_strlit("SPRINT");
    let tag = "SPRINT"@;
    let ds = decimal(start as nat);
    let dd = decimal(days as nat);
    assert(!is_digit(':', 10));
    lemma_decimal_free_of(start as nat, ':');
    lemma_decimal_free_of(days as nat, ':');
    lemma_split_single(dd, ':');
    lemma_split_cons(ds, dd, ':');
    lemma_split_cons(name, ds + seq![':'] + dd, ':');
    lemma_split_cons(tag, name + seq![':'] + ds + seq![':'] + dd, ':');
    assert(sprint_encoding(name, start as nat, days as nat) =~= tag + seq![':'] + (name + seq![':']
        + (ds + seq![':'] + dd)));
    assert(name + seq![':'] + ds + seq![':'] + dd =~= name + seq![':'] + (ds + seq![':'] + dd));
    lemma_decimal_roundtrip(start as nat, u64::MAX as nat);
    lemma_decimal_roundtrip(days as nat, u32::MAX as nat);
}

/// A sprint placed into a list ordered newest first, after every sprint
/// started no earlier than it.
pub open spec fn insert_newest(s: Seq<(String, SprintMetadata)>, t: (String, SprintMetadata)) -> Seq<
    (String, SprintMetadata),
>
    decreases s.len(),
{
    if s.len() == 0 || s.last().1.start_timestamp >= t.1.start_timestamp {
        s.push(t)
    } else {
        insert_newest(s.drop_last(), t).push(s.last())
    }
}

/// The sprints ordered by start, newest first, sprints started at the same
/// time keeping their order.
pub open spec fn newest_first(s: Seq<(String, SprintMetadata)>) -> Seq<(String, SprintMetadata)>
    decreases s.len(),
{
    if s.len() == 0 {
        seq![]
    } else {
        insert_newest(newest_first(s.drop_last()), s.last())
    }
}

proof fn lemma_insert_newest(s: Seq<(String, SprintMetadata)>, t: (String, SprintMetadata), p: int)
    requires
        0 <= p <= s.len(),
        forall|j: int| p <= j < s.len() ==> #[trigger] s[j].1.start_timestamp < t.1.start_timestamp,
        p > 0 ==> s[p - 1].1.start_timestamp >= t.1.start_timestamp,
    ensures
        insert_newest(s, t) == s.take(p).push(t) + s.skip(p),
    decreases s.len(),
{
    if s.len() == 0 || p == s.len() {
        assert(s.take(p).push(t) + s.skip(p) =~= s.push(t));
    } else {
        lemma_insert_newest(s.drop_last(), t, p);
        assert(s.drop_last().take(p) =~= s.take(p));
        assert(s.take(p).push(t) + s.skip(p) =~= (s.drop_last().take(p).push(t) + s.drop_last().skip(
            p,
        )).push(s.last()));
    }
}

/// Sprints newest first.
pub open spec fn newest_in_order(s: Seq<(String, SprintMetadata)>) -> bool {
    forall|i: int, j: int| 0 <= i < j < s.len() ==> s[i].1.start_timestamp >= s[j].1.start_timestamp
}

proof fn lemma_insert_newest_props(s: Seq<(String, SprintMetadata)>, t: (String, SprintMetadata))
    requires
        newest_in_order(s),
    ensures
        newest_in_order(insert_newest(s, t)),
        insert_newest(s, t).to_multiset() == s.to_multiset().insert(t),
        insert_newest(s, t).len() == s.len() + 1,
        insert_newest(s, t).last().1.start_timestamp == if s.len() == 0
            || s.last().1.start_timestamp >= t.1.start_timestamp {
            t.1.start_timestamp
        } else {
            s.last().1.start_timestamp
        },
    decreases s.len(),
{
    broadcast use vstd::seq_lib::group_to_multiset_ensures;

    if s.len() == 0 || s.last().1.start_timestamp >= t.1.start_timestamp {
    } else {
        let d = s.drop_last();
        lemma_insert_newest_props(d, t);
        let r = insert_newest(d, t);
        assert(d.push(s.last()) =~= s);
        assert(r.push(s.last()).to_multiset() == r.to_multiset().insert(s.last()));
        assert(s.to_multiset() == d.to_multiset().insert(s.last()));
        assert(r.push(s.last()).to_multiset() =~= s.to_multiset().insert(t));
        assert(d.len() > 0 ==> d.last().1.start_timestamp >= s.last().1.start_timestamp);
        assert(r.last().1.start_timestamp >= s.last().1.start_timestamp);
    }
}

/// Ordering sprints newest first gives the same sprints, newest first.
pub proof fn lemma_newest_first(s: Seq<(String, SprintMetadata)>)
    ensures
        newest_in_order(newest_first(s)),
        newest_first(s).to_multiset() == s.to_multiset(),
        newest_first(s).len() == s.len(),
    decreases s.len(),
{
    broadcast use vstd::seq_lib::group_to_multiset_ensures;

    if s.len() == 0 {
        assert(newest_first(s).to_multiset() =~= s.to_multiset());
    } else {
        lemma_newest_first(s.drop_last());
        lemma_insert_newest_props(newest_first(s.drop_last()), s.last());
        assert(s.drop_last().push(s.last()) =~= s);
    }
}

/// Whether a sprint has not ended at a time: the time is at most its start
/// plus its length in seconds.
pub open spec fn sprint_active_at(m: SprintMetadata, now: int) -> bool {
    now <= m.start_timestamp + m.duration_days * 86400
}

/// Finds sprints and the branch the work is on.
pub struct BranchMetadataManager {
    pub repo_path: String,
}

impl BranchMetadataManager {
    /// A manager for the repository at the given path.
    pub fn new(repo_path: &str) -> (r: BranchMetadataManager)
        ensures
            r.repo_path@ == repo_path@,
    {
        BranchMetadataManager { repo_path: repo_path.to_owned() }
    }

    /// The current branch from where HEAD points: the part after
    /// `refs/heads/` of a symbolic reference (or the whole path when it lies
    /// elsewhere), and an error for a detached HEAD.
    pub fn get_current_branch(&self, current: &Reference) -> (r: Result<String, Error>)
        ensures
            match current {
                Reference::Symbolic(path) => r matches Ok(name) && name@ == if is_prefix(
                    "refs/heads/"@,
                    path@,
                ) {
                    path@.subrange(11, path@.len() as int)
                } else {
                    path@
                },
                Reference::Direct(_) => r matches Err(Error::Generic(m)) && m@
                    == "HEAD is in a detached state"@,
            },
    {
        match current {
            Reference::Symbolic(path) => {
                let p = chars_of(path.as_str());
                let pre = chars_of("refs/heads/");
                proof {
                    reveal_strlit("refs/heads/");
                }
                if starts_with(p.as_slice(), pre.as_slice()) {
                    let rest = slice_chars(p.as_slice(), 11, p.len());
                    Ok(string_from_chars(rest.as_slice()))
                } else {
                    Ok(string_from_chars(p.as_slice()))
                }
            },
            Reference::Direct(_) => Err(Error::Generic("HEAD is in a detached state".to_owned())),
        }
    }

    /// The reference under which a branch's sprint metadata is kept:
    /// `refs/meta/<branch>`.
    pub fn meta_ref(branch_name: &str) -> (r: String)
        ensures
            r@ == "refs/meta/"@ + branch_name@,
    {
        let mut r = String::new();
        push_str(&mut r, "refs/meta/");
        push_str(&mut r, branch_name);
        r
    }

    /// The older place for a branch's sprint metadata:
    /// `refs/meta/sprint-<branch>`.
    pub fn alt_meta_ref(branch_name: &str) -> (r: String)
        ensures
            r@ == "refs/meta/sprint-"@ + branch_name@,
    {
        let mut r = String::new();
        push_str(&mut r, "refs/meta/sprint-");
        push_str(&mut r, branch_name);
        r
    }

    /// The sprint branch made for a branch's metadata: the name itself when
    /// it starts with `sprint-`, else the name with that prefix.
    pub fn sprint_branch_for(branch_name: &str) -> (r: String)
        ensures
            r@ == if is_prefix("sprint-"@, branch_name@) {
                branch_name@
            } else {
                "sprint-"@ + branch_name@
            },
    {
        let b = chars_of(branch_name);
        let pre = chars_of("sprint-");
        if starts_with(b.as_slice(), pre.as_slice()) {
            branch_name.to_owned()
        } else {
            let mut r = String::new();
            push_str(&mut r, "sprint-");
            push_str(&mut r, branch_name);
            r
        }
    }

    /// The branch a metadata reference stands for, as the search for the
    /// active sprint reads it: the part after `refs/meta/sprint-`, else the
    /// part after `refs/meta/`; `None` for other references.
    pub fn branch_of_meta_ref(path: &str) -> (r: Option<String>)
        ensures
            match r {
                Some(b) => if is_prefix("refs/meta/sprint-"@, path@) {
                    b@ == path@.subrange(17, path@.len() as int)
                } else {
                    is_prefix("refs/meta/"@, path@) && b@ == path@.subrange(10, path@.len() as int)
                },
                None => !is_prefix("refs/meta/"@, path@) && !is_prefix("refs/meta/sprint-"@, path@),
            },
    {
        let p = chars_of(path);
        let s = chars_of("refs/meta/sprint-");
        let m = chars_of("refs/meta/");
        proof {
            reveal_strlit("refs/meta/sprint-");
            reveal_strlit("refs/meta/");
        }
        if starts_with(p.as_slice(), s.as_slice()) {
            Some(string_from_chars(slice_chars(p.as_slice(), 17, p.len()).as_slice()))
        } else if starts_with(p.as_slice(), m.as_slice()) {
            Some(string_from_chars(slice_chars(p.as_slice(), 10, p.len()).as_slice()))
        } else {
            None
        }
    }

    /// The branch of a `refs/meta/sprint-` reference, as the list of all
    /// sprints reads it: the part after that prefix, or the whole path.
    pub fn branch_of_sprint_ref(path: &str) -> (r: String)
        ensures
            r@ == if is_prefix("refs/meta/sprint-"@, path@) {
                path@.subrange(17, path@.len() as int)
            } else {
                path@
            },
    {
        let p = chars_of(path);
        let s = chars_of("refs/meta/sprint-");
        proof {
            reveal_strlit("refs/meta/sprint-");
        }
        if starts_with(p.as_slice(), s.as_slice()) {
            string_from_chars(slice_chars(p.as_slice(), 17, p.len()).as_slice())
        } else {
            string_from_chars(p.as_slice())
        }
    }

    /// Where the search for the active sprint stops: the first sprint in the
    /// list that has not ended at the given time, if any.
    pub fn first_active(sprints: &Vec<(String, SprintMetadata)>, now: u64) -> (r: Option<usize>)
        ensures
            match r {
                Some(i) => i < sprints.len() && sprint_active_at(sprints@[i as int].1, now as int)
                    && forall|j: int|
                    0 <= j < i ==> !sprint_active_at(#[trigger] sprints@[j].1, now as int),
                None => forall|j: int|
                    0 <= j < sprints.len() ==> !sprint_active_at(
                        #[trigger] sprints@[j].1,
                        now as int,
                    ),
            },
    {
        let mut i: usize = 0;
        while i < sprints.len()
            invariant
                i <= sprints.len(),
                forall|j: int| 0 <= j < i ==> !sprint_active_at(#[trigger] sprints@[j].1, now as int),
            decreases sprints.len() - i,
        {
            let m = &sprints[i].1;
            let end: u128 = m.start_timestamp as u128 + m.duration_days as u128 * 86400;
            if now as u128 <= end {
                return Some(i);
            }
            i += 1;
        }
        None
    }

    /// The sprints found under the sprint references, given each reference
    /// with its sprint when it could be read; to be ordered newest first
    /// with `sort_newest_first`.
    pub fn sprint_entries(found: Vec<(Reference, Option<SprintMetadata>)>) -> (r: Vec<
        (String, SprintMetadata),
    >)
        ensures
            r@.map_values(|e: (String, SprintMetadata)| (e.0@, e.1)) == sprint_entries_spec(found@),
    {
        let ghost orig = found@;
        let mut rest = found;
        let mut r: Vec<(String, SprintMetadata)> = Vec::new();
        let ghost mut done: int = 0;
        while rest.len() > 0
            invariant
                0 <= done <= orig.len(),
                rest@ == orig.skip(done),
                r@.map_values(|e: (String, SprintMetadata)| (e.0@, e.1)) == sprint_entries_spec(
                    orig.take(done),
                ),
            decreases rest.len(),
        {
            let ghost before = r@.map_values(|e: (String, SprintMetadata)| (e.0@, e.1));
            let (rf, m) = rest.remove(0);
            proof {
                assert(orig.take(done + 1).drop_last() =~= orig.take(done));
                assert(orig[done] == (rf, m));
                assert(rest@ =~= orig.skip(done + 1));
            }
            match (rf, m) {
                (Reference::Symbolic(p), Some(meta)) => {
                    let name = strip_meta_prefix(p.as_str(), "refs/meta/sprint-");
                    r.push((name, meta));
                    assert(r@.map_values(|e: (String, SprintMetadata)| (e.0@, e.1)) =~= before.push(
                        (meta_name(p@, "refs/meta/sprint-"@), meta),
                    ));
                },
                _ => {
                    assert(r@.map_values(|e: (String, SprintMetadata)| (e.0@, e.1)) =~= before
                        + Seq::<(Seq<char>, SprintMetadata)>::empty());
                },
            }
            proof {
                done = done + 1;
            }
        }
        assert(orig.take(done) =~= orig);
        r
    }

    /// The sprints ordered by start, newest first; sprints started at the
    /// same time keep their order.
    pub fn sort_newest_first(sprints: Vec<(String, SprintMetadata)>) -> (r: Vec<(String, SprintMetadata)>)
        ensures
            r@ == newest_first(sprints@),
            newest_in_order(r@),
            r@.to_multiset() == sprints@.to_multiset(),
    {
        proof {
            lemma_newest_first(sprints@);
        }
        let ghost orig = sprints@;
        let mut rest = sprints;
        let mut r: Vec<(String, SprintMetadata)> = Vec::new();
        let ghost mut done: int = 0;
        while rest.len() > 0
            invariant
                0 <= done <= orig.len(),
                rest@ == orig.skip(done),
                r@ == newest_first(orig.take(done)),
            decreases rest.len(),
        {
            let t = rest.remove(0);
            proof {
                assert(orig.take(done + 1).drop_last() =~= orig.take(done));
                assert(t == orig[done]);
                assert(rest@ =~= orig.skip(done + 1));
            }
            let mut p: usize = r.len();
            while p > 0 && r[p - 1].1.start_timestamp < t.1.start_timestamp
                invariant
                    p <= r.len(),
                    forall|j: int|
                        p <= j < r.len() ==> #[trigger] r@[j].1.start_timestamp
                            < t.1.start_timestamp,
                decreases p,
            {
                p -= 1;
            }
            proof {
                lemma_insert_newest(r@, t, p as int);
            }
            let ghost r0 = r@;
            r.insert(p, t);
            proof {
                assert(r@ =~= r0.take(p as int).push(t) + r0.skip(p as int));
                done = done + 1;
            }
        }
        assert(orig.take(done) =~= orig);
        r
    }
}


} // verus!

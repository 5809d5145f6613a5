//! The common ancestors of commits: a walk back through parents that marks
//! each commit with the sides it is reached from.
//!
//! The program around the library loads the commits the walk may meet; the
//! walk here takes them as a table of object ids, each with `None` for an
//! object that is not a commit and `Some(parent)` for a commit.
use vstd::prelude::*;
use crate::error::Error;
use crate::text::{clone_string, push_str, str_eq, strings_view};

verus! {

/// A mark a commit can carry during the walk.
#[derive(Debug, Clone, Copy, PartialEq, Eq, Structural)]
pub enum Flag {
    Parent1,
    Parent2,
    Result,
    Stale,
}

/// The marks of one commit.
#[derive(Debug, Clone, Copy, PartialEq, Eq, Structural)]
pub struct Marks {
    pub parent1: bool,
    pub parent2: bool,
    pub result: bool,
    pub stale: bool,
}

/// No marks.
pub open spec fn unmarked() -> Marks {
    Marks { parent1: false, parent2: false, result: false, stale: false }
}

/// The marks of either.
pub open spec fn join(a: Marks, b: Marks) -> Marks {
    Marks {
        parent1: a.parent1 || b.parent1,
        parent2: a.parent2 || b.parent2,
        result: a.result || b.result,
        stale: a.stale || b.stale,
    }
}

/// Whether the marks hold a flag.
pub open spec fn has_flag(m: Marks, f: Flag) -> bool {
    match f {
        Flag::Parent1 => m.parent1,
        Flag::Parent2 => m.parent2,
        Flag::Result => m.result,
        Flag::Stale => m.stale,
    }
}

/// How many marks are set.
pub open spec fn mark_count(m: Marks) -> nat {
    (if m.parent1 {
        1nat
    } else {
        0nat
    }) + (if m.parent2 {
        1nat
    } else {
        0nat
    }) + (if m.result {
        1nat
    } else {
        0nat
    }) + (if m.stale {
        1nat
    } else {
        0nat
    })
}

/// The marks recorded per commit id.
pub type FlagTable = Seq<(Seq<char>, Marks)>;

/// The objects the walk may meet: an id, and `None` for an object that is
/// not a commit or `Some(parent)` for a commit.
pub type ObjectTable = Seq<(Seq<char>, Option<Option<Seq<char>>>)>;

/// The position of the last entry with the key.
pub open spec fn flag_index(t: FlagTable, k: Seq<char>) -> Option<int>
    decreases t.len(),
{
    if t.len() == 0 {
        None
    } else if t.last().0 == k {
        Some(t.len() - 1)
    } else {
        flag_index(t.drop_last(), k)
    }
}

/// The marks of a commit; none when it has no entry.
pub open spec fn marks_of(t: FlagTable, k: Seq<char>) -> Marks {
    match flag_index(t, k) {
        Some(i) => t[i].1,
        None => unmarked(),
    }
}

/// The table with a commit's marks replaced, or added.
pub open spec fn with_marks(t: FlagTable, k: Seq<char>, m: Marks) -> FlagTable {
    match flag_index(t, k) {
        Some(i) => t.update(i, (k, m)),
        None => t.push((k, m)),
    }
}

/// The position of the last object with the id.
pub open spec fn object_index(g: ObjectTable, k: Seq<char>) -> Option<int>
    decreases g.len(),
{
    if g.len() == 0 {
        None
    } else if g.last().0 == k {
        Some(g.len() - 1)
    } else {
        object_index(g.drop_last(), k)
    }
}

/// The object with the id, if the table has it.
pub open spec fn object_of(g: ObjectTable, k: Seq<char>) -> Option<Option<Option<Seq<char>>>> {
    match object_index(g, k) {
        Some(i) => Some(g[i].1),
        None => None,
    }
}

/// The state of the walk: the marks, the commits still to visit, and the
/// commits found reached from both sides, in order.
pub ghost struct Walk {
    pub flags: FlagTable,
    pub queue: Seq<Seq<char>>,
    pub results: Seq<Seq<char>>,
}

/// Every commit still to visit is stale (so is an empty queue).
pub open spec fn all_stale(w: Walk) -> bool {
    forall|i: int| 0 <= i < w.queue.len() ==> (#[trigger] marks_of(w.flags, w.queue[i])).stale
}

/// One visit: the first queued commit is taken; when reached from both
/// sides it becomes a result and its parent is reached stale; otherwise
/// its parent gets its marks. A parent that gains a mark is queued. An id
/// that is not in the table stops the walk.
pub open spec fn step(g: ObjectTable, w: Walk) -> Result<Walk, Seq<char>> {
    let c = w.queue[0];
    let rest = w.queue.drop_first();
    match object_of(g, c) {
        None => Err(c),
        Some(None) => Ok(Walk { queue: rest, ..w }),
        Some(Some(parent)) => {
            let f = marks_of(w.flags, c);
            let common = f.parent1 && f.parent2;
            let flags1 = if common {
                with_marks(w.flags, c, Marks { result: true, ..f })
            } else {
                w.flags
            };
            let results1 = if common {
                w.results.push(c)
            } else {
                w.results
            };
            let carried = if common {
                Marks { result: true, stale: true, ..f }
            } else {
                f
            };
            match parent {
                None => Ok(Walk { flags: flags1, queue: rest, results: results1 }),
                Some(p) => {
                    let cur = marks_of(flags1, p);
                    let next = join(cur, carried);
                    if next != cur {
                        Ok(Walk { flags: with_marks(flags1, p, next), queue: rest.push(p), results: results1 })
                    } else {
                        Ok(Walk { flags: flags1, queue: rest, results: results1 })
                    }
                },
            }
        },
    }
}

/// The results that did not turn stale, in order.
pub open spec fn fresh_results(t: FlagTable, results: Seq<Seq<char>>) -> Seq<Seq<char>>
    decreases results.len(),
{
    if results.len() == 0 {
        seq![]
    } else {
        fresh_results(t, results.drop_last()) + if marks_of(t, results.last()).stale {
            seq![]
        } else {
            seq![results.last()]
        }
    }
}

/// The walk run for at most `fuel` visits: the fresh results once every
/// queued commit is stale, the missing id when one is met, or nothing when
/// the visits run out.
pub open spec fn run(g: ObjectTable, w: Walk, fuel: nat) -> Option<Result<Seq<Seq<char>>, Seq<char>>>
    decreases fuel,
{
    if all_stale(w) {
        Some(Ok(fresh_results(w.flags, w.results)))
    } else if fuel == 0 {
        None
    } else {
        match step(g, w) {
            Err(c) => Some(Err(c)),
            Ok(w2) => run(g, w2, (fuel - 1) as nat),
        }
    }
}

/// Once the walk ends, more visits change nothing.
pub proof fn lemma_run_more_fuel(g: ObjectTable, w: Walk, a: nat, b: nat)
    requires
        a <= b,
        run(g, w, a) is Some,
    ensures
        run(g, w, b) == run(g, w, a),
    decreases a,
{
    if !all_stale(w) {
        if let Ok(w2) = step(g, w) {
            lemma_run_more_fuel(g, w2, (a - 1) as nat, (b - 1) as nat);
        }
    }
}

/// What the walk ends with, when it ends.
pub open spec fn outcome(g: ObjectTable, w: Walk) -> Option<Result<Seq<Seq<char>>, Seq<char>>> {
    if exists|n: nat| #[trigger] run(g, w, n) is Some {
        run(g, w, choose|n: nat| #[trigger] run(g, w, n) is Some)
    } else {
        None
    }
}

/// A walk that ends after `n` visits ends with what it ends with then.
pub proof fn lemma_outcome(g: ObjectTable, w: Walk, n: nat)
    requires
        run(g, w, n) is Some,
    ensures
        outcome(g, w) == run(g, w, n),
{
    let m = choose|m: nat| #[trigger] run(g, w, m) is Some;
    if m <= n {
        lemma_run_more_fuel(g, w, m, n);
    } else {
        lemma_run_more_fuel(g, w, n, m);
    }
}

/// The ids that the walk starts from: one id and then others.
pub open spec fn seeds(one: Seq<char>, twos: Seq<Seq<char>>) -> Seq<Seq<char>> {
    seq![one] + twos
}

/// The marks at the start: the first id reached from side one, each other
/// id from side two.
pub open spec fn start_flags(one: Seq<char>, twos: Seq<Seq<char>>) -> FlagTable
    decreases twos.len(),
{
    if twos.len() == 0 {
        seq![(one, Marks { parent1: true, ..unmarked() })]
    } else {
        let t = start_flags(one, twos.drop_last());
        let k = twos.last();
        with_marks(t, k, Marks { parent2: true, ..marks_of(t, k) })
    }
}

/// The walk at the start.
pub open spec fn start(one: Seq<char>, twos: Seq<Seq<char>>) -> Walk {
    Walk { flags: start_flags(one, twos), queue: seeds(one, twos), results: seq![] }
}

/// The first of the ids that the table lacks.
pub open spec fn first_missing(g: ObjectTable, ids: Seq<Seq<char>>) -> Option<Seq<char>>
    decreases ids.len(),
{
    if ids.len() == 0 {
        None
    } else if object_of(g, ids[0]) is None {
        Some(ids[0])
    } else {
        first_missing(g, ids.drop_first())
    }
}


/// No two entries of the table have the same key.
pub open spec fn distinct_keys(t: FlagTable) -> bool {
    forall|i: int, j: int| 0 <= i < j < t.len() ==> t[i].0 != t[j].0
}

/// The parents named in the object table.
pub open spec fn parent_ids(g: ObjectTable) -> Seq<Seq<char>>
    decreases g.len(),
{
    if g.len() == 0 {
        seq![]
    } else {
        parent_ids(g.drop_last()) + match g.last().1 {
            Some(Some(p)) => seq![p],
            _ => seq![],
        }
    }
}

/// The ids that can ever be marked or queued: the starting ids and the
/// parents in the table.
pub open spec fn reachable_ids(g: ObjectTable, sd: Seq<Seq<char>>) -> Seq<Seq<char>> {
    sd + parent_ids(g)
}

/// The sum of the marks in the table.
pub open spec fn total_marks(t: FlagTable) -> nat
    decreases t.len(),
{
    if t.len() == 0 {
        0
    } else {
        total_marks(t.drop_last()) + mark_count(t.last().1)
    }
}

/// The shape the walk keeps: keys distinct, and every key and queued id
/// one that can be reached.
pub open spec fn walk_inv(g: ObjectTable, sd: Seq<Seq<char>>, w: Walk) -> bool {
    &&& distinct_keys(w.flags)
    &&& forall|i: int| 0 <= i < w.flags.len() ==> reachable_ids(g, sd).contains(#[trigger] w.flags[i].0)
    &&& forall|i: int| 0 <= i < w.queue.len() ==> reachable_ids(g, sd).contains(#[trigger] w.queue[i])
}

proof fn lemma_flag_index(t: FlagTable, k: Seq<char>)
    ensures
        flag_index(t, k) matches Some(i) ==> 0 <= i < t.len() && t[i].0 == k && forall|j: int|
            i < j < t.len() ==> t[j].0 != k,
        flag_index(t, k) is None ==> forall|j: int| 0 <= j < t.len() ==> t[j].0 != k,
    decreases t.len(),
{
    if t.len() > 0 && t.last().0 != k {
        lemma_flag_index(t.drop_last(), k);
        assert forall|j: int| 0 <= j < t.len() - 1 implies t[j] == t.drop_last()[j] by {}
    }
}

proof fn lemma_flag_index_at(t: FlagTable, k: Seq<char>, i: int)
    requires
        0 <= i < t.len(),
        t[i].0 == k,
        forall|j: int| i < j < t.len() ==> t[j].0 != k,
    ensures
        flag_index(t, k) == Some(i),
    decreases t.len(),
{
    if i < t.len() - 1 {
        lemma_flag_index_at(t.drop_last(), k, i);
    }
}

proof fn lemma_flag_index_none(t: FlagTable, k: Seq<char>)
    requires
        forall|j: int| 0 <= j < t.len() ==> t[j].0 != k,
    ensures
        flag_index(t, k) is None,
    decreases t.len(),
{
    if t.len() > 0 {
        lemma_flag_index_none(t.drop_last(), k);
    }
}

proof fn lemma_total_update(t: FlagTable, i: int, x: (Seq<char>, Marks))
    requires
        0 <= i < t.len(),
    ensures
        total_marks(t.update(i, x)) + mark_count(t[i].1) == total_marks(t) + mark_count(x.1),
    decreases t.len(),
{
    let u = t.update(i, x);
    if i < t.len() - 1 {
        lemma_total_update(t.drop_last(), i, x);
        assert(u.drop_last() =~= t.drop_last().update(i, x));
    } else {
        assert(u.drop_last() =~= t.drop_last());
    }
}

proof fn lemma_total_bound(t: FlagTable)
    ensures
        total_marks(t) <= 4 * t.len(),
    decreases t.len(),
{
    if t.len() > 0 {
        lemma_total_bound(t.drop_last());
    }
}

/// Replacing or adding a commit's marks: it then has them, others keep
/// theirs, keys stay distinct, and the total changes by the difference.
proof fn lemma_with_marks(t: FlagTable, k: Seq<char>, m: Marks)
    requires
        distinct_keys(t),
    ensures
        marks_of(with_marks(t, k, m), k) == m,
        forall|q: Seq<char>| q != k ==> #[trigger] marks_of(with_marks(t, k, m), q) == marks_of(t, q),
        distinct_keys(with_marks(t, k, m)),
        total_marks(with_marks(t, k, m)) + mark_count(marks_of(t, k)) == total_marks(t) + mark_count(m),
        forall|i: int| 0 <= i < with_marks(t, k, m).len() ==> (#[trigger] with_marks(t, k, m)[i].0
            == k || exists|j: int| 0 <= j < t.len() && t[j].0 == with_marks(t, k, m)[i].0),
{
    lemma_flag_index(t, k);
    let w = with_marks(t, k, m);
    match flag_index(t, k) {
        Some(i) => {
            lemma_flag_index_at(w, k, i);
            lemma_total_update(t, i, (k, m));
            assert forall|q: Seq<char>| q != k implies #[trigger] marks_of(w, q) == marks_of(t, q) by {
                lemma_flag_index(t, q);
                match flag_index(t, q) {
                    Some(j) => lemma_flag_index_at(w, q, j),
                    None => lemma_flag_index_none(w, q),
                }
            }
            assert forall|a: int, b: int| 0 <= a < b < w.len() implies w[a].0 != w[b].0 by {
                if a != i && b != i {
                    assert(t[a].0 != t[b].0);
                }
            }
            assert forall|a: int| 0 <= a < w.len() implies (#[trigger] w[a].0 == k || exists|j: int|
                0 <= j < t.len() && t[j].0 == w[a].0) by {
                if a != i {
                    assert(t[a].0 == w[a].0);
                }
            }
        },
        None => {
            lemma_flag_index_at(w, k, t.len() as int);
            assert(w.drop_last() =~= t);
            assert forall|q: Seq<char>| q != k implies #[trigger] marks_of(w, q) == marks_of(t, q) by {
                lemma_flag_index(t, q);
                match flag_index(t, q) {
                    Some(j) => lemma_flag_index_at(w, q, j),
                    None => lemma_flag_index_none(w, q),
                }
            }
            assert forall|a: int| 0 <= a < w.len() implies (#[trigger] w[a].0 == k || exists|j: int|
                0 <= j < t.len() && t[j].0 == w[a].0) by {
                if a < t.len() {
                    assert(t[a].0 == w[a].0);
                }
            }
        },
    }
}

/// Distinct keys drawn from a list are no more than the list.
proof fn lemma_keys_len(t: FlagTable, a: Seq<Seq<char>>)
    requires
        distinct_keys(t),
        forall|i: int| 0 <= i < t.len() ==> a.contains(#[trigger] t[i].0),
    ensures
        t.len() <= a.len(),
{
    let keys = t.map_values(|e: (Seq<char>, Marks)| e.0);
    assert(keys.no_duplicates()) by {
        assert forall|i: int, j: int| 0 <= i < keys.len() && 0 <= j < keys.len() && i != j implies keys[i]
            != keys[j] by {
            if i < j {
                assert(t[i].0 != t[j].0);
            } else {
                assert(t[j].0 != t[i].0);
            }
        }
    }
    keys.unique_seq_to_set();
    a.lemma_cardinality_of_set();
    vstd::seq_lib::seq_to_set_is_finite(a);
    assert(keys.to_set().subset_of(a.to_set())) by {
        assert forall|x: Seq<char>| keys.to_set().contains(x) implies a.to_set().contains(x) by {
            let i = choose|i: int| 0 <= i < keys.len() && keys[i] == x;
            assert(a.contains(t[i].0));
        }
    }
    vstd::set_lib::lemma_len_subset(keys.to_set(), a.to_set());
}

proof fn lemma_object_index(g: ObjectTable, k: Seq<char>)
    ensures
        object_index(g, k) matches Some(i) ==> 0 <= i < g.len() && g[i].0 == k,
    decreases g.len(),
{
    if g.len() > 0 && g.last().0 != k {
        lemma_object_index(g.drop_last(), k);
    }
}

/// A commit's parent is among the parents of the table.
proof fn lemma_parent_listed(g: ObjectTable, c: Seq<char>, p: Seq<char>)
    requires
        object_of(g, c) == Some(Some(Some(p))),
    ensures
        parent_ids(g).contains(p),
    decreases g.len(),
{
    if g.last().0 == c {
        assert(parent_ids(g).last() == p);
    } else {
        lemma_object_index(g.drop_last(), c);
        assert(object_of(g.drop_last(), c) == object_of(g, c));
        lemma_parent_listed(g.drop_last(), c, p);
        let q = parent_ids(g.drop_last());
        let i = choose|i: int| 0 <= i < q.len() && q[i] == p;
        assert(parent_ids(g)[i] == p);
    }
}

/// A visit keeps the shape, never removes marks, and either adds a mark or
/// shortens the queue.
pub proof fn lemma_step(g: ObjectTable, sd: Seq<Seq<char>>, w: Walk)
    requires
        walk_inv(g, sd, w),
        w.queue.len() > 0,
        step(g, w) is Ok,
    ensures
        walk_inv(g, sd, step(g, w)->Ok_0),
        total_marks(step(g, w)->Ok_0.flags) > total_marks(w.flags) || (total_marks(
            step(g, w)->Ok_0.flags,
        ) == total_marks(w.flags) && step(g, w)->Ok_0.queue.len() < w.queue.len()),
        w.flags.len() <= reachable_ids(g, sd).len(),
        step(g, w)->Ok_0.flags.len() <= reachable_ids(g, sd).len(),
{
    let a = reachable_ids(g, sd);
    let c = w.queue[0];
    let rest = w.queue.drop_first();
    let w2 = step(g, w)->Ok_0;
    lemma_keys_len(w.flags, a);
    assert(a.contains(w.queue[0]));
    assert forall|i: int| 0 <= i < rest.len() implies a.contains(#[trigger] rest[i]) by {
        assert(rest[i] == w.queue[i + 1]);
    }
    match object_of(g, c) {
        None => {},
        Some(None) => {},
        Some(Some(parent)) => {
            let f = marks_of(w.flags, c);
            let common = f.parent1 && f.parent2;
            let flags1 = if common {
                with_marks(w.flags, c, Marks { result: true, ..f })
            } else {
                w.flags
            };
            if common {
                lemma_with_marks(w.flags, c, Marks { result: true, ..f });
                assert forall|i: int| 0 <= i < flags1.len() implies a.contains(#[trigger] flags1[i].0) by {
                    if flags1[i].0 != c {
                        let j = choose|j: int| 0 <= j < w.flags.len() && w.flags[j].0 == flags1[i].0;
                        assert(a.contains(w.flags[j].0));
                    }
                }
            }
            assert(total_marks(flags1) >= total_marks(w.flags));
            let carried = if common {
                Marks { result: true, stale: true, ..f }
            } else {
                f
            };
            match parent {
                None => {},
                Some(p) => {
                    let cur = marks_of(flags1, p);
                    let next = join(cur, carried);
                    if next != cur {
                        lemma_parent_listed(g, c, p);
                        assert(a.contains(p)) by {
                            let q = parent_ids(g);
                            let i = choose|i: int| 0 <= i < q.len() && q[i] == p;
                            assert(a[sd.len() + i] == p);
                        }
                        lemma_with_marks(flags1, p, next);
                        let f2 = with_marks(flags1, p, next);
                        assert forall|i: int| 0 <= i < f2.len() implies a.contains(#[trigger] f2[i].0) by {
                            if f2[i].0 != p {
                                let j = choose|j: int| 0 <= j < flags1.len() && flags1[j].0 == f2[i].0;
                                assert(a.contains(flags1[j].0));
                            }
                        }
                        let q2 = rest.push(p);
                        assert forall|i: int| 0 <= i < q2.len() implies a.contains(#[trigger] q2[i]) by {
                            if i < rest.len() {
                                assert(q2[i] == rest[i]);
                            }
                        }
                        assert(mark_count(next) > mark_count(cur));
                        lemma_keys_len(f2, a);
                    }
                },
            }
            lemma_keys_len(w2.flags, a);
        },
    }
}


/// `b` is reached from `a` by following parents `n` times.
pub open spec fn reaches(g: ObjectTable, a: Seq<char>, b: Seq<char>, n: nat) -> bool
    decreases n,
{
    if n == 0 {
        a == b
    } else {
        match object_of(g, a) {
            Some(Some(Some(p))) => reaches(g, p, b, (n - 1) as nat),
            _ => false,
        }
    }
}

/// `b` is `a` or one of its ancestors in the table.
pub open spec fn is_ancestor(g: ObjectTable, a: Seq<char>, b: Seq<char>) -> bool {
    exists|n: nat| #[trigger] reaches(g, a, b, n)
}

/// An ancestor of one of the ids.
pub open spec fn ancestor_of_some(g: ObjectTable, twos: Seq<Seq<char>>, b: Seq<char>) -> bool {
    exists|i: int| 0 <= i < twos.len() && #[trigger] is_ancestor(g, twos[i], b)
}

/// What the marks mean: side one's mark only on ancestors of the first
/// id, side two's only on ancestors of one of the others, and every result
/// carries both.
pub open spec fn marks_sound(g: ObjectTable, one: Seq<char>, twos: Seq<Seq<char>>, w: Walk) -> bool {
    &&& forall|k: Seq<char>| #[trigger] marks_of(w.flags, k).parent1 ==> is_ancestor(g, one, k)
    &&& forall|k: Seq<char>| #[trigger] marks_of(w.flags, k).parent2 ==> ancestor_of_some(g, twos, k)
    &&& forall|i: int| 0 <= i < w.results.len() ==> (#[trigger] marks_of(w.flags, w.results[i])).parent1
        && marks_of(w.flags, w.results[i]).parent2
}

proof fn lemma_reaches_extend(g: ObjectTable, a: Seq<char>, c: Seq<char>, n: nat, p: Seq<char>)
    requires
        reaches(g, a, c, n),
        object_of(g, c) == Some(Some(Some(p))),
    ensures
        reaches(g, a, p, n + 1),
    decreases n,
{
    if n > 0 {
        if let Some(Some(Some(q))) = object_of(g, a) {
            lemma_reaches_extend(g, q, c, (n - 1) as nat, p);
        }
    } else {
        assert(reaches(g, p, p, 0));
    }
}

proof fn lemma_ancestor_extend(g: ObjectTable, a: Seq<char>, c: Seq<char>, p: Seq<char>)
    requires
        is_ancestor(g, a, c),
        object_of(g, c) == Some(Some(Some(p))),
    ensures
        is_ancestor(g, a, p),
{
    let n = choose|n: nat| #[trigger] reaches(g, a, c, n);
    lemma_reaches_extend(g, a, c, n, p);
}

/// A visit keeps the meaning of the marks, and marks are never lost.
proof fn lemma_step_sound(g: ObjectTable, one: Seq<char>, twos: Seq<Seq<char>>, w: Walk)
    requires
        distinct_keys(w.flags),
        marks_sound(g, one, twos, w),
        w.queue.len() > 0,
        step(g, w) is Ok,
    ensures
        marks_sound(g, one, twos, step(g, w)->Ok_0),
{
    let c = w.queue[0];
    let w2 = step(g, w)->Ok_0;
    match object_of(g, c) {
        None => {},
        Some(None) => {},
        Some(Some(parent)) => {
            let f = marks_of(w.flags, c);
            let common = f.parent1 && f.parent2;
            let flags1 = if common {
                with_marks(w.flags, c, Marks { result: true, ..f })
            } else {
                w.flags
            };
            if common {
                lemma_with_marks(w.flags, c, Marks { result: true, ..f });
            }
            assert(distinct_keys(flags1));
            assert forall|k: Seq<char>|
                #![trigger marks_of(flags1, k)]
                (marks_of(flags1, k).parent1 ==> marks_of(w.flags, k).parent1) && (marks_of(
                    flags1,
                    k,
                ).parent2 ==> marks_of(w.flags, k).parent2) && (marks_of(w.flags, k).parent1
                    ==> marks_of(flags1, k).parent1) && (marks_of(w.flags, k).parent2 ==> marks_of(
                    flags1,
                    k,
                ).parent2) by {}
            let carried = if common {
                Marks { result: true, stale: true, ..f }
            } else {
                f
            };
            match parent {
                None => {
                    assert(w2.flags == flags1);
                },
                Some(p) => {
                    let cur = marks_of(flags1, p);
                    let next = join(cur, carried);
                    if next != cur {
                        lemma_with_marks(flags1, p, next);
                        let f2 = with_marks(flags1, p, next);
                        assert(w2.flags == f2);
                        if f.parent1 {
                            lemma_ancestor_extend(g, one, c, p);
                        }
                        if f.parent2 {
                            let i = choose|i: int| 0 <= i < twos.len() && #[trigger] is_ancestor(
                                g,
                                twos[i],
                                c,
                            );
                            lemma_ancestor_extend(g, twos[i], c, p);
                        }
                        assert forall|k: Seq<char>| #[trigger]
                            marks_of(f2, k).parent1 implies is_ancestor(g, one, k) by {
                            if k != p {
                                assert(marks_of(f2, k) == marks_of(flags1, k));
                            }
                        }
                        assert forall|k: Seq<char>| #[trigger]
                            marks_of(f2, k).parent2 implies ancestor_of_some(g, twos, k) by {
                            if k != p {
                                assert(marks_of(f2, k) == marks_of(flags1, k));
                            }
                        }
                        assert forall|i: int| 0 <= i < w2.results.len() implies (#[trigger] marks_of(
                            f2,
                            w2.results[i],
                        )).parent1 && marks_of(f2, w2.results[i]).parent2 by {
                            let r = w2.results[i];
                            if i < w.results.len() {
                                assert(marks_of(w.flags, w.results[i]).parent1);
                            }
                            if r != p {
                                assert(marks_of(f2, r) == marks_of(flags1, r));
                            }
                        }
                    } else {
                        assert(w2.flags == flags1);
                        assert forall|i: int| 0 <= i < w2.results.len() implies (#[trigger] marks_of(
                            flags1,
                            w2.results[i],
                        )).parent1 && marks_of(flags1, w2.results[i]).parent2 by {
                            if i < w.results.len() {
                                assert(marks_of(w.flags, w.results[i]).parent1);
                            }
                        }
                    }
                },
            }
            if parent is None {
                assert forall|i: int| 0 <= i < w2.results.len() implies (#[trigger] marks_of(
                    flags1,
                    w2.results[i],
                )).parent1 && marks_of(flags1, w2.results[i]).parent2 by {
                    if i < w.results.len() {
                        assert(marks_of(w.flags, w.results[i]).parent1);
                    }
                }
            }
        },
    }
}

/// The fresh results are among the results.
proof fn lemma_fresh_within(t: FlagTable, results: Seq<Seq<char>>, x: Seq<char>)
    requires
        fresh_results(t, results).contains(x),
    ensures
        results.contains(x),
    decreases results.len(),
{
    let rest = fresh_results(t, results.drop_last());
    if rest.contains(x) {
        lemma_fresh_within(t, results.drop_last(), x);
        let i = choose|i: int| 0 <= i < results.drop_last().len() && results.drop_last()[i] == x;
        assert(results[i] == x);
    } else {
        let v = fresh_results(t, results);
        let i = choose|i: int| 0 <= i < v.len() && v[i] == x;
        assert(i >= rest.len());
        assert(results[results.len() - 1] == x);
    }
}

proof fn lemma_run_sound(
    g: ObjectTable,
    one: Seq<char>,
    twos: Seq<Seq<char>>,
    w: Walk,
    n: nat,
    x: Seq<char>,
)
    requires
        walk_inv(g, seeds(one, twos), w),
        marks_sound(g, one, twos, w),
        run(g, w, n) matches Some(Ok(v)) && v.contains(x),
    ensures
        is_ancestor(g, one, x),
        ancestor_of_some(g, twos, x),
    decreases n,
{
    if all_stale(w) {
        lemma_fresh_within(w.flags, w.results, x);
        let i = choose|i: int| 0 <= i < w.results.len() && w.results[i] == x;
        assert(marks_of(w.flags, w.results[i]).parent1);
    } else {
        lemma_step(g, seeds(one, twos), w);
        lemma_step_sound(g, one, twos, w);
        lemma_run_sound(g, one, twos, step(g, w)->Ok_0, (n - 1) as nat, x);
    }
}

/// The starting marks: side one's only on the first id, side two's only
/// on the others, keys distinct and among the starting ids.
proof fn lemma_start_flags(one: Seq<char>, twos: Seq<Seq<char>>)
    ensures
        distinct_keys(start_flags(one, twos)),
        forall|k: Seq<char>| #[trigger] marks_of(start_flags(one, twos), k).parent1 ==> k == one,
        forall|k: Seq<char>| #[trigger] marks_of(start_flags(one, twos), k).parent2 ==> twos.contains(k),
        marks_of(start_flags(one, twos), one).parent1,
        forall|i: int| 0 <= i < twos.len() ==> #[trigger] marks_of(start_flags(one, twos), twos[i]).parent2,
        forall|i: int| 0 <= i < start_flags(one, twos).len() ==> seeds(one, twos).contains(
            #[trigger] start_flags(one, twos)[i].0,
        ),
    decreases twos.len(),
{
    let t = start_flags(one, twos);
    if twos.len() == 0 {
        lemma_flag_index_at(t, one, 0);
        assert forall|k: Seq<char>| #[trigger] marks_of(t, k).parent1 implies k == one by {
            if k != one {
                lemma_flag_index_none(t, k);
            }
        }
        assert forall|k: Seq<char>| !(#[trigger] marks_of(t, k).parent2) by {
            if k != one {
                lemma_flag_index_none(t, k);
            }
        }
        assert(seeds(one, twos)[0] == one);
    } else {
        let d = twos.drop_last();
        let t0 = start_flags(one, d);
        let k = twos.last();
        lemma_start_flags(one, d);
        lemma_with_marks(t0, k, Marks { parent2: true, ..marks_of(t0, k) });
        assert forall|q: Seq<char>| #[trigger] marks_of(t, q).parent2 implies twos.contains(q) by {
            if q != k {
                let i = choose|i: int| 0 <= i < d.len() && d[i] == q;
                assert(twos[i] == q);
            } else {
                assert(twos[twos.len() - 1] == q);
            }
        }
        assert forall|i: int| 0 <= i < twos.len() implies #[trigger] marks_of(t, twos[i]).parent2 by {
            if i < d.len() && twos[i] != k {
                assert(marks_of(t0, d[i]).parent2);
            }
        }
        assert forall|i: int| 0 <= i < t.len() implies seeds(one, twos).contains(#[trigger] t[i].0) by {
            if t[i].0 == k {
                assert(seeds(one, twos)[twos.len() as int] == k);
            } else {
                let j = choose|j: int| 0 <= j < t0.len() && t0[j].0 == t[i].0;
                let s0 = seeds(one, d);
                assert(s0.contains(t0[j].0));
                let m = choose|m: int| 0 <= m < s0.len() && s0[m] == t0[j].0;
                assert(seeds(one, twos)[m] == s0[m]);
            }
        }
    }
}

/// The walk at the start keeps the shape and the meaning of the marks.
proof fn lemma_start(g: ObjectTable, one: Seq<char>, twos: Seq<Seq<char>>)
    ensures
        walk_inv(g, seeds(one, twos), start(one, twos)),
        marks_sound(g, one, twos, start(one, twos)),
{
    lemma_start_flags(one, twos);
    let w = start(one, twos);
    let a = reachable_ids(g, seeds(one, twos));
    assert forall|i: int| 0 <= i < w.flags.len() implies a.contains(#[trigger] w.flags[i].0) by {
        let sd = seeds(one, twos);
        let m = choose|m: int| 0 <= m < sd.len() && sd[m] == w.flags[i].0;
        assert(a[m] == sd[m]);
    }
    assert forall|i: int| 0 <= i < w.queue.len() implies a.contains(#[trigger] w.queue[i]) by {
        assert(a[i] == w.queue[i]);
    }
    assert forall|k: Seq<char>| #[trigger] marks_of(w.flags, k).parent1 implies is_ancestor(g, one, k) by {
        assert(reaches(g, one, k, 0));
    }
    assert forall|k: Seq<char>| #[trigger] marks_of(w.flags, k).parent2 implies ancestor_of_some(
        g,
        twos,
        k,
    ) by {
        let i = choose|i: int| 0 <= i < twos.len() && twos[i] == k;
        assert(reaches(g, twos[i], k, 0));
        assert(is_ancestor(g, twos[i], k));
    }
}

/// Every commit that the walk from a commit and others gives as a common
/// ancestor is an ancestor of that commit and of one of the others.
pub proof fn lemma_results_are_common_ancestors(
    g: ObjectTable,
    one: Seq<char>,
    twos: Seq<Seq<char>>,
    x: Seq<char>,
)
    requires
        outcome(g, start(one, twos)) matches Some(Ok(v)) && v.contains(x),
    ensures
        is_ancestor(g, one, x),
        ancestor_of_some(g, twos, x),
{
    let w = start(one, twos);
    let n = choose|n: nat| #[trigger] run(g, w, n) is Some;
    lemma_start(g, one, twos);
    lemma_run_sound(g, one, twos, w, n, x);
}


/// Every object of the table is a commit.
pub open spec fn all_commits(g: ObjectTable) -> bool {
    forall|i: int| 0 <= i < g.len() ==> (#[trigger] g[i]).1 is Some
}

/// A depth that drops from each commit to its parent: the history has no
/// cycle.
pub open spec fn ranked(g: ObjectTable, rank: spec_fn(Seq<char>) -> nat) -> bool {
    forall|k: Seq<char>|
        match #[trigger] object_of(g, k) {
            Some(Some(Some(p))) => rank(p) < rank(k),
            _ => true,
        }
}

/// Every mark of `a` is a mark of `b`.
pub open spec fn within(a: Marks, b: Marks) -> bool {
    &&& a.parent1 ==> b.parent1
    &&& a.parent2 ==> b.parent2
    &&& a.result ==> b.result
    &&& a.stale ==> b.stale
}

/// The marks a visit hands on to the parent.
pub open spec fn carried_marks(m: Marks) -> Marks {
    if m.parent1 && m.parent2 {
        Marks { result: true, stale: true, ..m }
    } else {
        m
    }
}

/// What the walk keeps beyond the meaning of its marks: a commit off the
/// queue has handed its marks on to its parent, and was taken as a result
/// when it carries both sides; a stale mark lies strictly below a result;
/// the starting commits keep their marks.
pub open spec fn walk_complete(g: ObjectTable, one: Seq<char>, twos: Seq<Seq<char>>, w: Walk) -> bool {
    &&& forall|k: Seq<char>|
        !w.queue.contains(k) ==> match #[trigger] object_of(g, k) {
            Some(Some(Some(p))) => within(carried_marks(marks_of(w.flags, k)), marks_of(w.flags, p)),
            _ => true,
        }
    &&& forall|k: Seq<char>|
        !w.queue.contains(k) && (#[trigger] marks_of(w.flags, k)).parent1 && marks_of(w.flags, k).parent2
            && object_of(g, k) is Some ==> w.results.contains(k)
    &&& forall|k: Seq<char>|
        (#[trigger] marks_of(w.flags, k)).stale ==> exists|i: int, n: nat|
            0 <= i < w.results.len() && n >= 1 && #[trigger] reaches(g, w.results[i], k, n)
    &&& marks_of(w.flags, one).parent1
    &&& forall|i: int| 0 <= i < twos.len() ==> #[trigger] marks_of(w.flags, twos[i]).parent2
}

proof fn lemma_object_commit(g: ObjectTable, k: Seq<char>)
    requires
        all_commits(g),
    ensures
        object_of(g, k) matches Some(x) ==> x is Some,
{
    lemma_object_index(g, k);
    if let Some(i) = object_index(g, k) {
        assert(g[i].1 is Some);
    }
}

/// A visit keeps what `walk_complete` says.
proof fn lemma_step_complete(
    g: ObjectTable,
    one: Seq<char>,
    twos: Seq<Seq<char>>,
    rank: spec_fn(Seq<char>) -> nat,
    w: Walk,
)
    requires
        distinct_keys(w.flags),
        walk_complete(g, one, twos, w),
        all_commits(g),
        ranked(g, rank),
        w.queue.len() > 0,
        step(g, w) is Ok,
    ensures
        walk_complete(g, one, twos, step(g, w)->Ok_0),
{
    let c = w.queue[0];
    let rest = w.queue.drop_first();
    let w2 = step(g, w)->Ok_0;
    lemma_object_commit(g, c);
    assert(forall|k: Seq<char>| rest.contains(k) ==> w.queue.contains(k)) by {
        assert forall|k: Seq<char>| rest.contains(k) implies w.queue.contains(k) by {
            let i = choose|i: int| 0 <= i < rest.len() && rest[i] == k;
            assert(w.queue[i + 1] == k);
        }
    }
    assert(forall|k: Seq<char>| w.queue.contains(k) && k != c ==> rest.contains(k)) by {
        assert forall|k: Seq<char>| w.queue.contains(k) && k != c implies rest.contains(k) by {
            let i = choose|i: int| 0 <= i < w.queue.len() && w.queue[i] == k;
            assert(i != 0);
            assert(rest[i - 1] == k);
        }
    }
    match object_of(g, c) {
        None => {},
        Some(None) => {},
        Some(Some(parent)) => {
            let f = marks_of(w.flags, c);
            let common = f.parent1 && f.parent2;
            let flags1 = if common {
                with_marks(w.flags, c, Marks { result: true, ..f })
            } else {
                w.flags
            };
            let results1 = if common {
                w.results.push(c)
            } else {
                w.results
            };
            let carried = if common {
                Marks { result: true, stale: true, ..f }
            } else {
                f
            };
            if common {
                lemma_with_marks(w.flags, c, Marks { result: true, ..f });
            }
            assert(distinct_keys(flags1));
            assert(forall|k: Seq<char>| #[trigger] marks_of(flags1, k) == if k == c {
                if common { Marks { result: true, ..f } } else { f }
            } else {
                marks_of(w.flags, k)
            });
            assert(forall|i: int| 0 <= i < w.results.len() ==> results1[i] == w.results[i]);
            assert(common ==> results1.contains(c)) by {
                if common {
                    assert(results1[w.results.len() as int] == c);
                }
            }
            match parent {
                None => {
                    assert(w2.flags == flags1 && w2.queue == rest && w2.results == results1);
                    assert forall|k: Seq<char>|
                        !w2.queue.contains(k) implies match #[trigger] object_of(g, k) {
                        Some(Some(Some(p))) => within(
                            carried_marks(marks_of(w2.flags, k)),
                            marks_of(w2.flags, p),
                        ),
                        _ => true,
                    } by {
                        if k != c {
                            assert(!w.queue.contains(k));
                        }
                    }
                    assert forall|k: Seq<char>|
                        !w2.queue.contains(k) && (#[trigger] marks_of(w2.flags, k)).parent1
                            && marks_of(w2.flags, k).parent2 && object_of(g, k) is Some implies w2.results.contains(
                        k,
                    ) by {
                        if k != c {
                            assert(!w.queue.contains(k));
                            let i = choose|i: int| 0 <= i < w.results.len() && w.results[i] == k;
                            assert(results1[i] == k);
                        }
                    }
                    assert forall|k: Seq<char>| (#[trigger] marks_of(w2.flags, k)).stale implies exists|
                        i: int,
                        n: nat,
                    | 0 <= i < w2.results.len() && n >= 1 && #[trigger] reaches(g, w2.results[i], k, n) by {
                        assert(marks_of(w.flags, k).stale);
                        let (i, n) = choose|i: int, n: nat|
                            0 <= i < w.results.len() && n >= 1 && #[trigger] reaches(g, w.results[i], k, n);
                        assert(results1[i] == w.results[i]);
                    }
                },
                Some(p) => {
                    assert(rank(p) < rank(c));
                    assert(p != c);
                    let cur = marks_of(flags1, p);
                    let next = join(cur, carried);
                    let changed = next != cur;
                    let flags2 = if changed {
                        with_marks(flags1, p, next)
                    } else {
                        flags1
                    };
                    let queue2 = if changed {
                        rest.push(p)
                    } else {
                        rest
                    };
                    if changed {
                        lemma_with_marks(flags1, p, next);
                    }
                    assert(w2.flags == flags2 && w2.queue == queue2 && w2.results == results1);
                    assert(forall|k: Seq<char>| #[trigger] marks_of(flags2, k) == if k == p && changed {
                        next
                    } else {
                        marks_of(flags1, k)
                    });
                    assert(changed ==> queue2.contains(p)) by {
                        if changed {
                            assert(queue2[rest.len() as int] == p);
                        }
                    }
                    assert(forall|k: Seq<char>| queue2.contains(k) && k != p ==> rest.contains(k)) by {
                        assert forall|k: Seq<char>| queue2.contains(k) && k != p implies rest.contains(k) by {
                            let i = choose|i: int| 0 <= i < queue2.len() && queue2[i] == k;
                            if changed {
                                assert(i < rest.len());
                            }
                            assert(rest[i] == k);
                        }
                    }
                    assert(forall|k: Seq<char>| rest.contains(k) ==> queue2.contains(k)) by {
                        assert forall|k: Seq<char>| rest.contains(k) implies queue2.contains(k) by {
                            let i = choose|i: int| 0 <= i < rest.len() && rest[i] == k;
                            assert(queue2[i] == k);
                        }
                    }
                    // Every mark only grows.
                    assert(forall|k: Seq<char>| within(#[trigger] marks_of(w.flags, k), marks_of(flags2, k)));
                    assert forall|k: Seq<char>|
                        !w2.queue.contains(k) implies match #[trigger] object_of(g, k) {
                        Some(Some(Some(q))) => within(
                            carried_marks(marks_of(w2.flags, k)),
                            marks_of(w2.flags, q),
                        ),
                        _ => true,
                    } by {
                        if k == c {
                            assert(object_of(g, k) == Some(Some(Some(p))));
                            assert(carried_marks(marks_of(flags2, c)) == carried);
                            assert(within(carried, next));
                        } else {
                            assert(!rest.contains(k) || queue2.contains(k));
                            assert(!w.queue.contains(k));
                            if let Some(Some(Some(q))) = object_of(g, k) {
                                assert(within(carried_marks(marks_of(w.flags, k)), marks_of(w.flags, q)));
                                assert(within(marks_of(w.flags, q), marks_of(flags2, q)));
                                if k != p || !changed {
                                    assert(marks_of(flags2, k) == marks_of(w.flags, k));
                                }
                            }
                        }
                    }
                    assert forall|k: Seq<char>|
                        !w2.queue.contains(k) && (#[trigger] marks_of(w2.flags, k)).parent1
                            && marks_of(w2.flags, k).parent2 && object_of(g, k) is Some implies w2.results.contains(
                        k,
                    ) by {
                        if k != c {
                            assert(!w.queue.contains(k));
                            if k != p || !changed {
                                assert(marks_of(flags2, k) == marks_of(w.flags, k));
                            }
                            let i = choose|i: int| 0 <= i < w.results.len() && w.results[i] == k;
                            assert(results1[i] == k);
                        }
                    }
                    assert forall|k: Seq<char>| (#[trigger] marks_of(w2.flags, k)).stale implies exists|
                        i: int,
                        n: nat,
                    | 0 <= i < w2.results.len() && n >= 1 && #[trigger] reaches(g, w2.results[i], k, n) by {
                        if k == p && changed && !marks_of(w.flags, p).stale {
                            assert(carried.stale);
                            if common {
                                let i = w.results.len() as int;
                                assert(results1[i] == c);
                                assert(reaches(g, c, c, 0));
                                lemma_reaches_extend(g, c, c, 0, p);
                                assert(reaches(g, results1[i], k, 1));
                            } else {
                                assert(f.stale);
                                let (i, n) = choose|i: int, n: nat|
                                    0 <= i < w.results.len() && n >= 1 && #[trigger] reaches(
                                        g,
                                        w.results[i],
                                        c,
                                        n,
                                    );
                                lemma_reaches_extend(g, w.results[i], c, n, p);
                                assert(results1[i] == w.results[i]);
                                assert(reaches(g, results1[i], k, n + 1));
                            }
                        } else {
                            assert(marks_of(w.flags, k).stale);
                            let (i, n) = choose|i: int, n: nat|
                                0 <= i < w.results.len() && n >= 1 && #[trigger] reaches(
                                    g,
                                    w.results[i],
                                    k,
                                    n,
                                );
                            assert(results1[i] == w.results[i]);
                        }
                    }
                    assert(within(marks_of(w.flags, one), marks_of(flags2, one)));
                    assert forall|i: int| 0 <= i < twos.len() implies #[trigger] marks_of(
                        w2.flags,
                        twos[i],
                    ).parent2 by {
                        assert(marks_of(w.flags, twos[i]).parent2);
                        assert(within(marks_of(w.flags, twos[i]), marks_of(flags2, twos[i])));
                    }
                },
            }
        },
    }
}

/// Every parent named in the table is itself in the table.
pub open spec fn closed_table(g: ObjectTable) -> bool {
    forall|k: Seq<char>|
        match #[trigger] object_of(g, k) {
            Some(Some(Some(p))) => object_of(g, p) is Some,
            _ => true,
        }
}

/// Off the queue and with no stale mark anywhere, a side's mark runs down
/// the whole chain of parents.
proof fn lemma_chain_marked(
    g: ObjectTable,
    one: Seq<char>,
    twos: Seq<Seq<char>>,
    w: Walk,
    a: Seq<char>,
    b: Seq<char>,
    n: nat,
    side_one: bool,
)
    requires
        walk_complete(g, one, twos, w),
        w.queue.len() == 0,
        reaches(g, a, b, n),
        side_one ==> marks_of(w.flags, a).parent1,
        !side_one ==> marks_of(w.flags, a).parent2,
    ensures
        side_one ==> marks_of(w.flags, b).parent1,
        !side_one ==> marks_of(w.flags, b).parent2,
    decreases n,
{
    if n > 0 {
        if let Some(Some(Some(p))) = object_of(g, a) {
            assert(!w.queue.contains(a));
            assert(within(carried_marks(marks_of(w.flags, a)), marks_of(w.flags, p)));
            lemma_chain_marked(g, one, twos, w, p, b, (n - 1) as nat, side_one);
        }
    }
}

/// Following parents lowers the depth.
proof fn lemma_reaches_rank(
    g: ObjectTable,
    rank: spec_fn(Seq<char>) -> nat,
    a: Seq<char>,
    b: Seq<char>,
    n: nat,
)
    requires
        ranked(g, rank),
        reaches(g, a, b, n),
        n >= 1,
    ensures
        rank(b) < rank(a),
    decreases n,
{
    if let Some(Some(Some(p))) = object_of(g, a) {
        assert(rank(p) < rank(a));
        if n > 1 {
            lemma_reaches_rank(g, rank, p, b, (n - 1) as nat);
        }
    }
}

/// Every id reached from one in the table is in the table.
proof fn lemma_reaches_in_table(g: ObjectTable, a: Seq<char>, b: Seq<char>, n: nat)
    requires
        closed_table(g),
        object_of(g, a) is Some,
        reaches(g, a, b, n),
    ensures
        object_of(g, b) is Some,
    decreases n,
{
    if n > 0 {
        if let Some(Some(Some(p))) = object_of(g, a) {
            lemma_reaches_in_table(g, p, b, (n - 1) as nat);
        }
    }
}

/// A position of the deepest id of a non-empty list.
proof fn lemma_top(results: Seq<Seq<char>>, rank: spec_fn(Seq<char>) -> nat) -> (i: int)
    requires
        results.len() > 0,
    ensures
        0 <= i < results.len(),
        forall|j: int| 0 <= j < results.len() ==> rank(#[trigger] results[j]) <= rank(results[i]),
    decreases results.len(),
{
    if results.len() == 1 {
        0
    } else {
        let d = results.drop_last();
        let k = lemma_top(d, rank);
        assert(forall|j: int| 0 <= j < d.len() ==> results[j] == d[j]);
        if rank(results.last()) > rank(d[k]) {
            results.len() - 1
        } else {
            k
        }
    }
}

/// A result that did not turn stale is among the fresh results.
proof fn lemma_fresh_has(t: FlagTable, results: Seq<Seq<char>>, i: int)
    requires
        0 <= i < results.len(),
        !marks_of(t, results[i]).stale,
    ensures
        fresh_results(t, results).len() > 0,
    decreases results.len(),
{
    if i < results.len() - 1 {
        lemma_fresh_has(t, results.drop_last(), i);
    }
}

/// The starting marks carry no result and no stale mark.
proof fn lemma_start_flags_plain(one: Seq<char>, twos: Seq<Seq<char>>)
    ensures
        forall|k: Seq<char>|
            !(#[trigger] marks_of(start_flags(one, twos), k)).result && !marks_of(
                start_flags(one, twos),
                k,
            ).stale,
    decreases twos.len(),
{
    let t = start_flags(one, twos);
    if twos.len() == 0 {
        lemma_flag_index_at(t, one, 0);
        assert forall|k: Seq<char>| !(#[trigger] marks_of(t, k)).result && !marks_of(t, k).stale by {
            if k != one {
                lemma_flag_index_none(t, k);
            }
        }
    } else {
        let d = twos.drop_last();
        let t0 = start_flags(one, d);
        lemma_start_flags(one, d);
        lemma_start_flags_plain(one, d);
        lemma_with_marks(t0, twos.last(), Marks { parent2: true, ..marks_of(t0, twos.last()) });
    }
}

/// From any state that keeps `walk_complete`, a walk that ends without
/// error gives a fresh result whenever some commit of the table lies on
/// both sides.
proof fn lemma_run_complete(
    g: ObjectTable,
    one: Seq<char>,
    twos: Seq<Seq<char>>,
    rank: spec_fn(Seq<char>) -> nat,
    w: Walk,
    n: nat,
    c: Seq<char>,
)
    requires
        walk_inv(g, seeds(one, twos), w),
        walk_complete(g, one, twos, w),
        all_commits(g),
        ranked(g, rank),
        run(g, w, n) matches Some(Ok(_)),
        is_ancestor(g, one, c),
        ancestor_of_some(g, twos, c),
        object_of(g, c) is Some,
    ensures
        run(g, w, n) matches Some(Ok(v)) && v.len() > 0,
    decreases n,
{
    if all_stale(w) {
        if exists|i: int| 0 <= i < w.results.len() && !marks_of(w.flags, w.results[i]).stale {
            let i = choose|i: int| 0 <= i < w.results.len() && !marks_of(w.flags, w.results[i]).stale;
            lemma_fresh_has(w.flags, w.results, i);
        } else {
            if w.results.len() > 0 {
                let i = lemma_top(w.results, rank);
                assert(marks_of(w.flags, w.results[i]).stale);
                let (j, m) = choose|j: int, m: nat|
                    0 <= j < w.results.len() && m >= 1 && #[trigger] reaches(g, w.results[j], w.results[i], m);
                lemma_reaches_rank(g, rank, w.results[j], w.results[i], m);
                assert(rank(w.results[j]) <= rank(w.results[i]));
            }
            assert(w.results.len() == 0);
            assert forall|k: Seq<char>| !(#[trigger] marks_of(w.flags, k)).stale by {
                if marks_of(w.flags, k).stale {
                    let (j, m) = choose|j: int, m: nat|
                        0 <= j < w.results.len() && m >= 1 && #[trigger] reaches(g, w.results[j], k, m);
                }
            }
            if w.queue.len() > 0 {
                assert(marks_of(w.flags, w.queue[0]).stale);
            }
            let m1 = choose|m: nat| #[trigger] reaches(g, one, c, m);
            lemma_chain_marked(g, one, twos, w, one, c, m1, true);
            let i2 = choose|i: int| 0 <= i < twos.len() && #[trigger] is_ancestor(g, twos[i], c);
            let m2 = choose|m: nat| #[trigger] reaches(g, twos[i2], c, m);
            lemma_chain_marked(g, one, twos, w, twos[i2], c, m2, false);
            assert(!w.queue.contains(c));
            assert(w.results.contains(c));
        }
    } else {
        lemma_step(g, seeds(one, twos), w);
        lemma_step_complete(g, one, twos, rank, w);
        lemma_run_complete(g, one, twos, rank, step(g, w)->Ok_0, (n - 1) as nat, c);
    }
}

/// The walk from a commit against another, over a history with no cycle
/// whose table holds every parent it names and only commits: when it ends
/// without error, each id it gives lies on both chains of parents, and it
/// gives at least one exactly when the two chains share a commit.
pub proof fn lemma_common_ancestors_found(
    g: ObjectTable,
    one: Seq<char>,
    two: Seq<char>,
    rank: spec_fn(Seq<char>) -> nat,
)
    requires
        all_commits(g),
        ranked(g, rank),
        closed_table(g),
        object_of(g, one) is Some,
        outcome(g, start(one, seq![two])) matches Some(Ok(_)),
    ensures
        outcome(g, start(one, seq![two])) matches Some(Ok(v)) && (forall|x: Seq<char>|
            v.contains(x) ==> is_ancestor(g, one, x) && is_ancestor(g, two, x)) && (v.len() > 0
            <==> exists|c: Seq<char>| is_ancestor(g, one, c) && #[trigger] is_ancestor(g, two, c)),
{
    let twos = seq![two];
    let w = start(one, twos);
    let v = outcome(g, w)->Some_0->Ok_0;
    assert forall|x: Seq<char>| v.contains(x) implies is_ancestor(g, one, x) && is_ancestor(g, two, x) by {
        lemma_results_are_common_ancestors(g, one, twos, x);
        let i = choose|i: int| 0 <= i < twos.len() && #[trigger] is_ancestor(g, twos[i], x);
        assert(twos[i] == two);
    }
    if v.len() > 0 {
        assert(v.contains(v[0]));
        assert(is_ancestor(g, one, v[0]) && is_ancestor(g, two, v[0]));
    }
    if exists|c: Seq<char>| is_ancestor(g, one, c) && #[trigger] is_ancestor(g, two, c) {
        let c = choose|c: Seq<char>| is_ancestor(g, one, c) && #[trigger] is_ancestor(g, two, c);
        let m = choose|m: nat| #[trigger] reaches(g, one, c, m);
        lemma_reaches_in_table(g, one, c, m);
        assert(twos[0] == two);
        assert(ancestor_of_some(g, twos, c));
        lemma_start(g, one, twos);
        lemma_start_flags(one, twos);
        lemma_start_flags_plain(one, twos);
        assert(forall|k: Seq<char>| w.queue.contains(k) <== (k == one || k == two)) by {
            assert(w.queue[0] == one && w.queue[1] == two);
        }
        assert forall|k: Seq<char>|
            !w.queue.contains(k) implies match #[trigger] object_of(g, k) {
            Some(Some(Some(p))) => within(carried_marks(marks_of(w.flags, k)), marks_of(w.flags, p)),
            _ => true,
        } by {
            assert(!marks_of(w.flags, k).parent1 && !marks_of(w.flags, k).parent2);
        }
        assert(walk_complete(g, one, twos, w));
        let n = choose|n: nat| #[trigger] run(g, w, n) is Some;
        lemma_run_complete(g, one, twos, rank, w, n, c);
    }
}

/// An object as the table holds it.
pub open spec fn object_view(o: (String, Option<Option<String>>)) -> (Seq<char>, Option<
    Option<Seq<char>>,
>) {
    (
        o.0@,
        match o.1 {
            Some(Some(p)) => Some(Some(p@)),
            Some(None) => Some(None),
            None => None,
        },
    )
}

/// The error for an object that cannot be found.
pub open spec fn not_found(e: Error, c: Seq<char>) -> bool {
    e matches Error::Generic(m) && m@ == "Object not found: "@ + c
}

fn not_found_error(c: &str) -> (e: Error)
    ensures
        not_found(e, c@),
{
    let mut m = String::new();
    push_str(&mut m, "Object not found: ");
    push_str(&mut m, c);
    Error::Generic(m)
}

/// The walk back from a commit and others that finds their common
/// ancestors.
pub struct CommonAncestors {
    objects: Vec<(String, Option<Option<String>>)>,
    flags: Vec<(String, Marks)>,
    queue: Vec<String>,
    results: Vec<String>,
    seed_ids: Ghost<Seq<Seq<char>>>,
}

impl CommonAncestors {
    /// The objects the walk may meet.
    pub closed spec fn objects_view(&self) -> ObjectTable {
        self.objects@.map_values(|o: (String, Option<Option<String>>)| object_view(o))
    }

    /// The state of the walk.
    pub closed spec fn walk(&self) -> Walk {
        Walk {
            flags: self.flags@.map_values(|f: (String, Marks)| (f.0@, f.1)),
            queue: strings_view(self.queue@),
            results: strings_view(self.results@),
        }
    }

    /// The walk keeps its shape.
    pub closed spec fn wf(&self) -> bool {
        walk_inv(self.objects_view(), self.seed_ids@, self.walk())
    }

    fn find_flag(&self, k: &str) -> (r: Option<usize>)
        ensures
            match r {
                Some(i) => flag_index(self.walk().flags, k@) == Some(i as int) && i < self.flags@.len(),
                None => flag_index(self.walk().flags, k@) is None,
            },
    {
        let ghost t = self.walk().flags;
        let mut i: usize = self.flags.len();
        assert(t.take(i as int) =~= t);
        while i > 0
            invariant
                i <= self.flags@.len(),
                t == self.walk().flags,
                flag_index(t, k@) == flag_index(t.take(i as int), k@),
            decreases i,
        {
            let ghost pre = t.take(i as int);
            assert(pre.drop_last() =~= t.take(i - 1));
            assert(pre.last() == t[i - 1]);
            if str_eq(self.flags[i - 1].0.as_str(), k) {
                proof {
                    lemma_flag_index(t, k@);
                    lemma_flag_index(pre, k@);
                }
                return Some(i - 1);
            }
            i -= 1;
        }
        None
    }

    fn marks(&self, k: &str) -> (r: Marks)
        ensures
            r == marks_of(self.walk().flags, k@),
    {
        match self.find_flag(k) {
            Some(i) => self.flags[i].1,
            None => Marks { parent1: false, parent2: false, result: false, stale: false },
        }
    }

    fn set_marks(&mut self, k: &str, m: Marks)
        ensures
            final(self).walk().flags == with_marks(old(self).walk().flags, k@, m),
            final(self).walk().queue == old(self).walk().queue,
            final(self).walk().results == old(self).walk().results,
            final(self).objects_view() == old(self).objects_view(),
            final(self).seed_ids == old(self).seed_ids,
    {
        let ghost t = self.walk().flags;
        match self.find_flag(k) {
            Some(i) => {
                self.flags.set(i, (k.to_owned(), m));
                assert(self.walk().flags =~= t.update(i as int, (k@, m)));
            },
            None => {
                self.flags.push((k.to_owned(), m));
                assert(self.walk().flags =~= t.push((k@, m)));
            },
        }
    }

    fn lookup(&self, k: &str) -> (r: Option<Option<Option<String>>>)
        ensures
            object_of(self.objects_view(), k@) == match r {
                Some(Some(Some(p))) => Some(Some(Some(p@))),
                Some(Some(None)) => Some(Some(None)),
                Some(None) => Some(None),
                None => None,
            },
    {
        let ghost g = self.objects_view();
        let mut i: usize = self.objects.len();
        assert(g.take(i as int) =~= g);
        while i > 0
            invariant
                i <= self.objects@.len(),
                g == self.objects_view(),
                object_index(g, k@) == object_index(g.take(i as int), k@),
            decreases i,
        {
            let ghost pre = g.take(i as int);
            assert(pre.drop_last() =~= g.take(i - 1));
            assert(pre.last() == g[i - 1]);
            if str_eq(self.objects[i - 1].0.as_str(), k) {
                let r = match &self.objects[i - 1].1 {
                    Some(Some(p)) => Some(Some(Some(clone_string(p)))),
                    Some(None) => Some(Some(None)),
                    None => Some(None),
                };
                return r;
            }
            i -= 1;
        }
        None
    }

    fn all_stale_now(&self) -> (r: bool)
        ensures
            r == all_stale(self.walk()),
    {
        let ghost w = self.walk();
        let mut i: usize = 0;
        while i < self.queue.len()
            invariant
                i <= self.queue@.len(),
                w == self.walk(),
                forall|j: int| 0 <= j < i ==> (#[trigger] marks_of(w.flags, w.queue[j])).stale,
            decreases self.queue@.len() - i,
        {
            let m = self.marks(self.queue[i].as_str());
            assert(w.queue[i as int] == self.queue@[i as int]@);
            if !m.stale {
                return false;
            }
            i += 1;
        }
        true
    }

    /// Whether a commit carries a mark.
    pub fn is_marked(&self, oid: &str, flag: Flag) -> (r: bool)
        ensures
            r == has_flag(marks_of(self.walk().flags, oid@), flag),
    {
        let m = self.marks(oid);
        match flag {
            Flag::Parent1 => m.parent1,
            Flag::Parent2 => m.parent2,
            Flag::Result => m.result,
            Flag::Stale => m.stale,
        }
    }

    /// A walk from `one` (side one) and each of `twos` (side two) over the
    /// given objects; an error names the first of them that the objects
    /// lack.
    pub fn new(objects: Vec<(String, Option<Option<String>>)>, one: &str, twos: &[&str]) -> (r:
        Result<CommonAncestors, Error>)
        ensures
            match first_missing(
                objects@.map_values(|o: (String, Option<Option<String>>)| object_view(o)),
                seeds(one@, twos@.map_values(|t: &str| t@)),
            ) {
                Some(c) => r matches Err(e) && not_found(e, c),
                None => r matches Ok(ca) && ca.wf() && ca.objects_view() == objects@.map_values(
                    |o: (String, Option<Option<String>>)| object_view(o),
                ) && ca.walk() == start(one@, twos@.map_values(|t: &str| t@)),
            },
    {
        let ghost tv = twos@.map_values(|t: &str| t@);
        let ghost sd = seeds(one@, tv);
        let ghost gv = objects@.map_values(|o: (String, Option<Option<String>>)| object_view(o));
        let mut ca = CommonAncestors {
            objects,
            flags: Vec::new(),
            queue: Vec::new(),
            results: Vec::new(),
            seed_ids: Ghost(sd),
        };
        let ghost g = ca.objects_view();
        assert(g == gv);
        if ca.lookup(one).is_none() {
            assert(sd[0] == one@);
            return Err(not_found_error(one));
        }
        assert(first_missing(g, sd) == first_missing(g, tv)) by {
            assert(sd.drop_first() =~= tv);
        }
        assert(tv.skip(0) =~= tv);
        let mut i: usize = 0;
        while i < twos.len()
            invariant
                i <= twos@.len(),
                tv == twos@.map_values(|t: &str| t@),
                g == ca.objects_view(),
                g == gv,
                gv == objects@.map_values(|o: (String, Option<Option<String>>)| object_view(o)),
                sd == seeds(one@, tv),
                ca.seed_ids@ == sd,
                ca.walk().queue == Seq::<Seq<char>>::empty(),
                ca.walk().flags == Seq::<(Seq<char>, Marks)>::empty(),
                ca.walk().results == Seq::<Seq<char>>::empty(),
                first_missing(g, sd) == first_missing(g, tv.skip(i as int)),
            decreases twos@.len() - i,
        {
            assert(tv.skip(i as int)[0] == twos@[i as int]@);
            if ca.lookup(twos[i]).is_none() {
                assert(first_missing(g, tv.skip(i as int)) == Some(twos@[i as int]@));
                return Err(not_found_error(twos[i]));
            }
            assert(tv.skip(i as int).drop_first() =~= tv.skip(i + 1));
            i += 1;
        }
        assert(tv.skip(i as int).len() == 0);
        ca.set_marks(one, Marks { parent1: true, parent2: false, result: false, stale: false });
        ca.queue.push(one.to_owned());
        assert(ca.walk().queue =~= seq![one@]);
        assert(seeds(one@, tv.take(0)) =~= seq![one@]);
        assert(ca.walk().results =~= Seq::<Seq<char>>::empty());
        assert(tv.take(0) =~= Seq::<Seq<char>>::empty());
        assert(ca.walk().flags =~= start_flags(one@, Seq::<Seq<char>>::empty())) by {
            lemma_flag_index_none(Seq::<(Seq<char>, Marks)>::empty(), one@);
        }
        let mut j: usize = 0;
        while j < twos.len()
            invariant
                j <= twos@.len(),
                tv == twos@.map_values(|t: &str| t@),
                g == ca.objects_view(),
                g == gv,
                gv == objects@.map_values(|o: (String, Option<Option<String>>)| object_view(o)),
                sd == seeds(one@, tv),
                ca.seed_ids@ == sd,
                ca.walk().flags == start_flags(one@, tv.take(j as int)),
                ca.walk().queue == seeds(one@, tv.take(j as int)),
                ca.walk().results == Seq::<Seq<char>>::empty(),
            decreases twos@.len() - j,
        {
            let cur = ca.marks(twos[j]);
            ca.set_marks(twos[j], Marks { parent2: true, ..cur });
            let ghost q0 = ca.walk().queue;
            ca.queue.push(twos[j].to_owned());
            proof {
                assert(tv.take(j + 1).drop_last() =~= tv.take(j as int));
                assert(tv.take(j + 1).last() == twos@[j as int]@);
                assert(ca.walk().queue =~= q0.push(twos@[j as int]@));
                assert(seeds(one@, tv.take(j + 1)) =~= seeds(one@, tv.take(j as int)).push(
                    twos@[j as int]@,
                ));
            }
            j += 1;
        }
        assert(tv.take(j as int) =~= tv);
        proof {
            lemma_start(g, one@, tv);
        }
        Ok(ca)
    }

    /// Walks back until every commit still queued is stale, and gives the
    /// commits found reached from both sides that did not turn stale, in
    /// the order found; an error names an id the objects lack.
    pub fn find(&mut self) -> (r: Result<Vec<String>, Error>)
        requires
            old(self).wf(),
        ensures
            match r {
                Ok(v) => outcome(old(self).objects_view(), old(self).walk()) == Some(
                    Ok::<Seq<Seq<char>>, Seq<char>>(strings_view(v@)),
                ),
                Err(e) => outcome(old(self).objects_view(), old(self).walk()) matches Some(Err(c))
                    && not_found(e, c),
            },
    {
        let ghost g = self.objects_view();
        let ghost w0 = self.walk();
        let ghost sd = self.seed_ids@;
        let ghost a = reachable_ids(g, sd);
        let ghost mut k: nat = 0;
        proof {
            lemma_keys_len(w0.flags, a);
            lemma_total_bound(w0.flags);
        }
        while !self.all_stale_now()
            invariant
                self.wf(),
                self.objects_view() == g,
                g == old(self).objects_view(),
                w0 == old(self).walk(),
                self.seed_ids@ == sd,
                a == reachable_ids(g, sd),
                total_marks(self.walk().flags) <= 4 * a.len(),
                forall|n: nat| n >= k ==> #[trigger] run(g, w0, n) == run(g, self.walk(), (n - k) as nat),
            decreases 4 * a.len() - total_marks(self.walk().flags), self.queue@.len(),
        {
            let ghost wc = self.walk();
            assert(wc.queue.len() > 0);
            let c = self.queue.remove(0);
            assert(self.walk().queue =~= wc.queue.drop_first());
            assert(c@ == wc.queue[0]);
            match self.lookup(c.as_str()) {
                None => {
                    proof {
                        assert(step(g, wc) == Err::<Walk, Seq<char>>(c@));
                        assert(run(g, wc, 1) == Some(Err::<Seq<Seq<char>>, Seq<char>>(c@)));
                        assert(run(g, w0, k + 1) == run(g, wc, ((k + 1) - k) as nat));
                        lemma_outcome(g, w0, k + 1);
                        assert(outcome(g, w0) == Some(Err::<Seq<Seq<char>>, Seq<char>>(c@)));
                    }
                    return Err(not_found_error(c.as_str()));
                },
                Some(None) => {},
                Some(Some(parent)) => {
                    let f = self.marks(c.as_str());
                    let common = f.parent1 && f.parent2;
                    let carried = if common {
                        Marks { result: true, stale: true, ..f }
                    } else {
                        f
                    };
                    if common {
                        self.set_marks(c.as_str(), Marks { result: true, ..f });
                        let ghost r0 = self.walk().results;
                        self.results.push(clone_string(&c));
                        assert(self.walk().results =~= r0.push(c@));
                    }
                    match parent {
                        None => {},
                        Some(p) => {
                            let cur = self.marks(p.as_str());
                            let next = Marks {
                                parent1: cur.parent1 || carried.parent1,
                                parent2: cur.parent2 || carried.parent2,
                                result: cur.result || carried.result,
                                stale: cur.stale || carried.stale,
                            };
                            if next != cur {
                                self.set_marks(p.as_str(), next);
                                let ghost q0 = self.walk().queue;
                                self.queue.push(p);
                                assert(self.walk().queue =~= q0.push(p@));
                            }
                        },
                    }
                },
            }
            proof {
                assert(step(g, wc) is Ok);
                assert(self.walk() == step(g, wc)->Ok_0);
                lemma_step(g, sd, wc);
                lemma_total_bound(self.walk().flags);
                assert forall|n: nat| n >= k + 1 implies #[trigger] run(g, w0, n) == run(
                    g,
                    self.walk(),
                    (n - (k + 1)) as nat,
                ) by {
                    assert(run(g, w0, n) == run(g, wc, (n - k) as nat));
                    assert(run(g, wc, (n - k) as nat) == run(g, self.walk(), (n - (k + 1)) as nat));
                }
                k = k + 1;
            }
        }
        let ghost wf = self.walk();
        let mut out: Vec<String> = Vec::new();
        let mut i: usize = 0;
        while i < self.results.len()
            invariant
                i <= self.results@.len(),
                wf == self.walk(),
                strings_view(out@) == fresh_results(wf.flags, wf.results.take(i as int)),
            decreases self.results@.len() - i,
        {
            assert(wf.results.take(i + 1).drop_last() =~= wf.results.take(i as int));
            assert(wf.results.take(i + 1).last() == self.results@[i as int]@);
            let ghost before = strings_view(out@);
            let m = self.marks(self.results[i].as_str());
            if !m.stale {
                out.push(clone_string(&self.results[i]));
                assert(strings_view(out@) =~= before.push(self.results@[i as int]@));
            } else {
                assert(strings_view(out@) =~= before + Seq::<Seq<char>>::empty());
            }
            i += 1;
        }
        assert(wf.results.take(i as int) =~= wf.results);
        proof {
            assert(run(g, w0, k) == run(g, wf, (k - k) as nat));
            lemma_outcome(g, w0, k);
        }
        Ok(out)
    }
}

} // verus!

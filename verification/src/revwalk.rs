//! The history walk that limits a listing: the marks it keeps on commits,
//! the queue of commits still to look at, and the commits it lets through.
//! Loading commits is the caller's part; each step takes what was loaded.
use vstd::prelude::*;
use crate::text::{clone_string, str_eq, strings_view};

verus! {

/// The marks the walk keeps on a commit.
#[derive(Debug, Clone, Copy, PartialEq, Eq, Structural)]
pub struct RevFlags {
    /// Queued once already.
    pub seen: bool,
    /// Its parent has been handled.
    pub added: bool,
    /// Left out of the listing.
    pub uninteresting: bool,
    /// Changes nothing under the paths looked at.
    pub tree_same: bool,
}

/// One of the marks.
#[derive(Debug, Clone, Copy, PartialEq, Eq, Structural)]
pub enum Flag {
    Seen,
    Added,
    Uninteresting,
    TreeSame,
}

/// No marks.
pub open spec fn no_flags() -> RevFlags {
    RevFlags { seen: false, added: false, uninteresting: false, tree_same: false }
}

/// Whether a mark is set.
pub open spec fn flag_set(f: RevFlags, flag: Flag) -> bool {
    match flag {
        Flag::Seen => f.seen,
        Flag::Added => f.added,
        Flag::Uninteresting => f.uninteresting,
        Flag::TreeSame => f.tree_same,
    }
}

/// The marks with one more set.
pub open spec fn with_flag(f: RevFlags, flag: Flag) -> RevFlags {
    match flag {
        Flag::Seen => RevFlags { seen: true, ..f },
        Flag::Added => RevFlags { added: true, ..f },
        Flag::Uninteresting => RevFlags { uninteresting: true, ..f },
        Flag::TreeSame => RevFlags { tree_same: true, ..f },
    }
}

/// The marks table as values.
pub open spec fn table_view(t: Seq<(String, RevFlags)>) -> Seq<(Seq<char>, RevFlags)> {
    t.map_values(|e: (String, RevFlags)| (e.0@, e.1))
}

/// No commit is listed twice in the table.
pub open spec fn distinct(t: Seq<(Seq<char>, RevFlags)>) -> bool {
    forall|i: int, j: int| 0 <= i < j < t.len() ==> t[i].0 != t[j].0
}

/// The marks of a commit: those listed for it, or none.
pub open spec fn flags_of(t: Seq<(Seq<char>, RevFlags)>, k: Seq<char>) -> RevFlags {
    if exists|i: int| 0 <= i < t.len() && t[i].0 == k {
        t[choose|i: int| 0 <= i < t.len() && t[i].0 == k].1
    } else {
        no_flags()
    }
}

proof fn lemma_flags_at(t: Seq<(Seq<char>, RevFlags)>, i: int)
    requires
        distinct(t),
        0 <= i < t.len(),
    ensures
        flags_of(t, t[i].0) == t[i].1,
{
    let k = t[i].0;
    let j = choose|j: int| 0 <= j < t.len() && t[j].0 == k;
    assert(t[j].0 == k);
    if j != i {
        if j < i {
            assert(t[j].0 != t[i].0);
        } else {
            assert(t[i].0 != t[j].0);
        }
    }
}

/// The walk: the marks, the commits still to look at in order, the
/// commits let through in order, and whether it is limited.
pub struct RevWalk {
    pub flags: Vec<(String, RevFlags)>,
    pub queue: Vec<String>,
    pub output: Vec<String>,
    pub limited: bool,
}

impl RevWalk {
    /// The marks as values.
    pub open spec fn marks(&self) -> Seq<(Seq<char>, RevFlags)> {
        table_view(self.flags@)
    }

    /// The table lists each commit once.
    pub open spec fn wf(&self) -> bool {
        distinct(self.marks())
    }

    /// A walk with no marks, nothing queued and nothing let through.
    pub fn new() -> (r: RevWalk)
        ensures
            r.wf(),
            r.marks().len() == 0,
            r.queue@.len() == 0,
            r.output@.len() == 0,
            !r.limited,
    {
        RevWalk { flags: Vec::new(), queue: Vec::new(), output: Vec::new(), limited: false }
    }

    /// Where a commit is listed in the table.
    fn find(&self, oid: &str) -> (r: Option<usize>)
        requires
            self.wf(),
        ensures
            match r {
                Some(i) => i < self.flags.len() && self.marks()[i as int].0 == oid@,
                None => forall|i: int| 0 <= i < self.marks().len() ==> self.marks()[i].0 != oid@,
            },
    {
        let mut i: usize = 0;
        while i < self.flags.len()
            invariant
                i <= self.flags.len(),
                forall|j: int| 0 <= j < i ==> self.marks()[j].0 != oid@,
            decreases self.flags.len() - i,
        {
            assert(self.marks()[i as int].0 == self.flags@[i as int].0@);
            if str_eq(self.flags[i].0.as_str(), oid) {
                return Some(i);
            }
            i += 1;
        }
        None
    }

    /// The marks of a commit.
    pub fn flags_for(&self, oid: &str) -> (r: RevFlags)
        requires
            self.wf(),
        ensures
            r == flags_of(self.marks(), oid@),
    {
        match self.find(oid) {
            Some(i) => {
                proof {
                    lemma_flags_at(self.marks(), i as int);
                }
                self.flags[i].1
            },
            None => RevFlags { seen: false, added: false, uninteresting: false, tree_same: false },
        }
    }

    /// Whether a commit carries a mark.
    pub fn is_marked(&self, oid: &str, flag: Flag) -> (r: bool)
        requires
            self.wf(),
        ensures
            r == flag_set(flags_of(self.marks(), oid@), flag),
    {
        let f = self.flags_for(oid);
        match flag {
            Flag::Seen => f.seen,
            Flag::Added => f.added,
            Flag::Uninteresting => f.uninteresting,
            Flag::TreeSame => f.tree_same,
        }
    }

    /// Sets a mark on a commit; whether it was not set before.
    pub fn mark(&mut self, oid: &str, flag: Flag) -> (r: bool)
        requires
            old(self).wf(),
        ensures
            final(self).wf(),
            r == !flag_set(flags_of(old(self).marks(), oid@), flag),
            forall|k: Seq<char>|
                #[trigger] flags_of(final(self).marks(), k) == if k == oid@ {
                    with_flag(flags_of(old(self).marks(), oid@), flag)
                } else {
                    flags_of(old(self).marks(), k)
                },
            final(self).queue == old(self).queue,
            final(self).output == old(self).output,
            final(self).limited == old(self).limited,
    {
        let ghost t0 = self.marks();
        let f = self.flags_for(oid);
        let was = match flag {
            Flag::Seen => f.seen,
            Flag::Added => f.added,
            Flag::Uninteresting => f.uninteresting,
            Flag::TreeSame => f.tree_same,
        };
        let nf = match flag {
            Flag::Seen => RevFlags { seen: true, ..f },
            Flag::Added => RevFlags { added: true, ..f },
            Flag::Uninteresting => RevFlags { uninteresting: true, ..f },
            Flag::TreeSame => RevFlags { tree_same: true, ..f },
        };
        match self.find(oid) {
            Some(i) => {
                let key = clone_string(&self.flags[i].0);
                self.flags.set(i, (key, nf));
                proof {
                    let t1 = self.marks();
                    assert(t1 =~= t0.update(i as int, (oid@, nf)));
                    assert forall|a: int, b: int| 0 <= a < b < t1.len() implies t1[a].0 != t1[b].0 by {
                        assert(t1[a].0 == t0[a].0 && t1[b].0 == t0[b].0);
                    }
                    assert forall|k: Seq<char>| #[trigger] flags_of(t1, k) == if k == oid@ {
                        with_flag(flags_of(t0, oid@), flag)
                    } else {
                        flags_of(t0, k)
                    } by {
                        lemma_flags_at(t1, i as int);
                        lemma_flags_at(t0, i as int);
                        if k != oid@ {
                            if exists|j: int| 0 <= j < t0.len() && t0[j].0 == k {
                                let j = choose|j: int| 0 <= j < t0.len() && t0[j].0 == k;
                                lemma_flags_at(t0, j);
                                lemma_flags_at(t1, j);
                            } else {
                                assert forall|j: int| 0 <= j < t1.len() implies t1[j].0 != k by {
                                    assert(t1[j].0 == t0[j].0);
                                }
                            }
                        }
                    }
                }
            },
            None => {
                self.flags.push((oid.to_owned(), nf));
                proof {
                    let t1 = self.marks();
                    assert(t1 =~= t0.push((oid@, nf)));
                    assert(f == no_flags());
                    assert forall|a: int, b: int| 0 <= a < b < t1.len() implies t1[a].0 != t1[b].0 by {
                        if b == t0.len() {
                            assert(t1[a].0 == t0[a].0);
                        } else {
                            assert(t1[a].0 == t0[a].0 && t1[b].0 == t0[b].0);
                        }
                    }
                    assert forall|k: Seq<char>| #[trigger] flags_of(t1, k) == if k == oid@ {
                        with_flag(flags_of(t0, oid@), flag)
                    } else {
                        flags_of(t0, k)
                    } by {
                        lemma_flags_at(t1, t0.len() as int);
                        if k != oid@ {
                            if exists|j: int| 0 <= j < t0.len() && t0[j].0 == k {
                                let j = choose|j: int| 0 <= j < t0.len() && t0[j].0 == k;
                                lemma_flags_at(t0, j);
                                lemma_flags_at(t1, j);
                            } else {
                                assert forall|j: int| 0 <= j < t1.len() implies t1[j].0 != k by {
                                    if j < t0.len() {
                                        assert(t1[j].0 == t0[j].0);
                                    }
                                }
                            }
                        }
                    }
                }
            },
        }
        !was
    }

    /// The queue as values.
    pub open spec fn queued(&self) -> Seq<Seq<char>> {
        strings_view(self.queue@)
    }

    /// The commits let through, as values.
    pub open spec fn listed(&self) -> Seq<Seq<char>> {
        strings_view(self.output@)
    }

    /// Queues a commit unless it was queued before.
    pub fn enqueue(&mut self, oid: &str)
        requires
            old(self).wf(),
        ensures
            final(self).wf(),
            forall|k: Seq<char>|
                #[trigger] flags_of(final(self).marks(), k) == if k == oid@ {
                    with_flag(flags_of(old(self).marks(), oid@), Flag::Seen)
                } else {
                    flags_of(old(self).marks(), k)
                },
            final(self).queued() == if flags_of(old(self).marks(), oid@).seen {
                old(self).queued()
            } else {
                old(self).queued().push(oid@)
            },
            final(self).output == old(self).output,
            final(self).limited == old(self).limited,
    {
        let ghost q0 = self.queued();
        if !self.mark(oid, Flag::Seen) {
            return;
        }
        self.queue.push(oid.to_owned());
        assert(self.queued() =~= q0.push(oid@));
    }

    /// Starts the walk at a commit: it is queued, and a commit to leave out
    /// makes the walk limited and is marked so. Whether its ancestors are to
    /// be marked left out too, one `mark_chain_step` at a time from it.
    pub fn start_point(&mut self, oid: &str, interesting: bool) -> (r: bool)
        requires
            old(self).wf(),
        ensures
            final(self).wf(),
            r == !interesting,
            forall|k: Seq<char>|
                #[trigger] flags_of(final(self).marks(), k) == if k == oid@ {
                    if interesting {
                        with_flag(flags_of(old(self).marks(), oid@), Flag::Seen)
                    } else {
                        with_flag(
                            with_flag(flags_of(old(self).marks(), oid@), Flag::Seen),
                            Flag::Uninteresting,
                        )
                    }
                } else {
                    flags_of(old(self).marks(), k)
                },
            final(self).queued() == if flags_of(old(self).marks(), oid@).seen {
                old(self).queued()
            } else {
                old(self).queued().push(oid@)
            },
            final(self).output == old(self).output,
            final(self).limited == (old(self).limited || !interesting),
    {
        self.enqueue(oid);
        if !interesting {
            self.limited = true;
            self.mark(oid, Flag::Uninteresting);
        }
        !interesting
    }

    /// One step of marking the ancestors of a left-out commit, given the
    /// parent of the commit last reached: the parent is marked left out,
    /// and the marking goes on from it (returned) unless it had the mark
    /// already or there is no parent.
    pub fn mark_chain_step(&mut self, parent: Option<&str>) -> (r: Option<String>)
        requires
            old(self).wf(),
        ensures
            final(self).wf(),
            final(self).queue == old(self).queue,
            final(self).output == old(self).output,
            final(self).limited == old(self).limited,
            match parent {
                None => final(self).marks() == old(self).marks() && r is None,
                Some(p) => {
                    &&& forall|k: Seq<char>|
                        #[trigger] flags_of(final(self).marks(), k) == if k == p@ {
                            with_flag(flags_of(old(self).marks(), p@), Flag::Uninteresting)
                        } else {
                            flags_of(old(self).marks(), k)
                        }
                    &&& if flags_of(old(self).marks(), p@).uninteresting {
                        r is None
                    } else {
                        r matches Some(q) && q@ == p@
                    }
                },
            },
    {
        match parent {
            None => None,
            Some(p) => {
                if self.mark(p, Flag::Uninteresting) {
                    Some(p.to_owned())
                } else {
                    None
                }
            },
        }
    }

    /// Whether the limiting walk goes on: not once the queue is empty;
    /// yes while the oldest commit let through is no newer than the newest
    /// queued one (their dates given); else while some queued commit is
    /// not left out.
    pub fn still_interesting(&self, oldest_out_date: i64, newest_in_date: i64) -> (r: bool)
        requires
            self.wf(),
        ensures
            r == (self.queued().len() > 0 && ((self.listed().len() > 0 && oldest_out_date
                <= newest_in_date) || exists|i: int|
                0 <= i < self.queued().len() && !(#[trigger] flags_of(
                    self.marks(),
                    self.queued()[i],
                )).uninteresting)),
    {
        if self.queue.len() == 0 {
            return false;
        }
        if self.output.len() > 0 && oldest_out_date <= newest_in_date {
            return true;
        }
        let mut i: usize = 0;
        while i < self.queue.len()
            invariant
                self.wf(),
                i <= self.queue.len(),
                forall|j: int|
                    0 <= j < i ==> (#[trigger] flags_of(self.marks(), self.queued()[j])).uninteresting,
            decreases self.queue.len() - i,
        {
            assert(self.queued()[i as int] == self.queue@[i as int]@);
            if !self.is_marked(self.queue[i].as_str(), Flag::Uninteresting) {
                return true;
            }
            i += 1;
        }
        false
    }

    /// Takes the first queued commit.
    pub fn take_front(&mut self) -> (r: Option<String>)
        requires
            old(self).wf(),
        ensures
            final(self).wf(),
            final(self).flags == old(self).flags,
            final(self).output == old(self).output,
            final(self).limited == old(self).limited,
            old(self).queued().len() == 0 ==> r is None && final(self).queued() == old(self).queued(),
            old(self).queued().len() > 0 ==> (r matches Some(c) && c@ == old(self).queued()[0])
                && final(self).queued() == old(self).queued().drop_first(),
    {
        if self.queue.len() == 0 {
            return None;
        }
        let ghost q0 = self.queued();
        let c = self.queue.remove(0);
        assert(self.queued() =~= q0.drop_first());
        Some(c)
    }

    /// Handles the parent of a commit taken from the queue, once per
    /// commit: the parent of a left-out commit is marked left out (and its
    /// ancestors are to be marked from it, returned), and the parent is
    /// queued unless it was before.
    pub fn add_parents(&mut self, oid: &str, parent: Option<&str>) -> (r: Option<String>)
        requires
            old(self).wf(),
        ensures
            final(self).wf(),
            final(self).output == old(self).output,
            final(self).limited == old(self).limited,
            ({
                let f0 = flags_of(old(self).marks(), oid@);
                let m1 = |k: Seq<char>|
                    if k == oid@ {
                        with_flag(f0, Flag::Added)
                    } else {
                        flags_of(old(self).marks(), k)
                    };
                if f0.added {
                    (forall|k: Seq<char>| #[trigger] flags_of(final(self).marks(), k) == flags_of(
                        old(self).marks(),
                        k,
                    )) && final(self).queued() == old(self).queued() && r is None
                } else {
                    match parent {
                        None => (forall|k: Seq<char>| #[trigger] flags_of(final(self).marks(), k) == m1(k))
                            && final(self).queued() == old(self).queued() && r is None,
                        Some(p) => {
                            let left_out = with_flag(f0, Flag::Added).uninteresting;
                            let m2 = |k: Seq<char>|
                                if k == p@ && left_out {
                                    with_flag(m1(k), Flag::Uninteresting)
                                } else {
                                    m1(k)
                                };
                            &&& forall|k: Seq<char>|
                                #[trigger] flags_of(final(self).marks(), k) == if k == p@ {
                                    with_flag(m2(k), Flag::Seen)
                                } else {
                                    m2(k)
                                }
                            &&& final(self).queued() == if m2(p@).seen {
                                old(self).queued()
                            } else {
                                old(self).queued().push(p@)
                            }
                            &&& if left_out && !m1(p@).uninteresting {
                                r matches Some(q) && q@ == p@
                            } else {
                                r is None
                            }
                        },
                    }
                }
            }),
    {
        if !self.mark(oid, Flag::Added) {
            return None;
        }
        match parent {
            None => None,
            Some(p) => {
                let mut chain = None;
                if self.is_marked(oid, Flag::Uninteresting) {
                    if self.mark(p, Flag::Uninteresting) {
                        chain = Some(p.to_owned());
                    }
                }
                self.enqueue(p);
                chain
            },
        }
    }

    /// Lets a commit taken from the queue through unless it is left out.
    pub fn let_through(&mut self, oid: &str)
        requires
            old(self).wf(),
        ensures
            final(self).flags == old(self).flags,
            final(self).queue == old(self).queue,
            final(self).limited == old(self).limited,
            final(self).listed() == if flags_of(old(self).marks(), oid@).uninteresting {
                old(self).listed()
            } else {
                old(self).listed().push(oid@)
            },
    {
        let ghost o0 = self.listed();
        if !self.is_marked(oid, Flag::Uninteresting) {
            self.output.push(oid.to_owned());
            assert(self.listed() =~= o0.push(oid@));
        }
    }

    /// Ends the limiting walk: what was let through becomes the queue.
    pub fn finish_limit(&mut self)
        ensures
            final(self).flags == old(self).flags,
            final(self).output == old(self).output,
            final(self).limited == old(self).limited,
            final(self).queued() == old(self).listed(),
    {
        let mut q: Vec<String> = Vec::new();
        let mut i: usize = 0;
        while i < self.output.len()
            invariant
                i <= self.output.len(),
                strings_view(q@) == strings_view(self.output@).take(i as int),
            decreases self.output.len() - i,
        {
            let ghost before = strings_view(q@);
            q.push(clone_string(&self.output[i]));
            assert(strings_view(q@) =~= before.push(self.output@[i as int]@));
            assert(strings_view(self.output@).take(i + 1) =~= strings_view(self.output@).take(
                i as int,
            ).push(self.output@[i as int]@));
            i += 1;
        }
        assert(strings_view(self.output@).take(i as int) =~= strings_view(self.output@));
        self.queue = q;
    }


    /// Marks a commit as changing nothing under the paths looked at, when
    /// its difference from its parent there is empty.
    pub fn simplify(&mut self, oid: &str, diff_empty: bool)
        requires
            old(self).wf(),
        ensures
            final(self).wf(),
            final(self).queue == old(self).queue,
            final(self).output == old(self).output,
            final(self).limited == old(self).limited,
            forall|k: Seq<char>|
                #[trigger] flags_of(final(self).marks(), k) == if k == oid@ && diff_empty {
                    with_flag(flags_of(old(self).marks(), oid@), Flag::TreeSame)
                } else {
                    flags_of(old(self).marks(), k)
                },
    {
        if diff_empty {
            self.mark(oid, Flag::TreeSame);
        }
    }

    /// Whether a commit taken from the queue is listed: not when it is
    /// left out, nor when it changes nothing under the paths looked at.
    pub fn is_shown(&self, oid: &str) -> (r: bool)
        requires
            self.wf(),
        ensures
            r == !(flags_of(self.marks(), oid@).uninteresting || flags_of(self.marks(), oid@).tree_same),
    {
        let f = self.flags_for(oid);
        !(f.uninteresting || f.tree_same)
    }

}

} // verus!

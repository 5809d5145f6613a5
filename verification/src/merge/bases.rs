//! The merge bases of two commits: their common ancestors, less those that
//! are ancestors of another.
use vstd::prelude::*;
use crate::error::Error;
use crate::merge::common_ancestors::{
    CommonAncestors, ObjectTable, not_found, object_view, outcome, first_missing, seeds, start,
    is_ancestor, lemma_results_are_common_ancestors,
};
use crate::text::{clone_string, str_eq, strings_view};

verus! {

/// What the walk from `a` against `b` gives: its results, or the id that
/// could not be found.
pub open spec fn pair_walk(g: ObjectTable, a: Seq<char>, b: Seq<char>) -> Result<
    Seq<Seq<char>>,
    Seq<char>,
> {
    match first_missing(g, seeds(a, seq![b])) {
        Some(c) => Err(c),
        None => match outcome(g, start(a, seq![b])) {
            Some(r) => r,
            None => Err(seq![]),
        },
    }
}

/// The ids with repeats dropped, each kept where it first occurs.
pub open spec fn dedup(s: Seq<Seq<char>>) -> Seq<Seq<char>>
    decreases s.len(),
{
    if s.len() == 0 {
        seq![]
    } else {
        let d = dedup(s.drop_last());
        if d.contains(s.last()) {
            d
        } else {
            d.push(s.last())
        }
    }
}

/// The ids other than `c` not yet found redundant, in order.
pub open spec fn others_of(cs: Seq<Seq<char>>, red: Seq<Seq<char>>, c: Seq<char>) -> Seq<Seq<char>>
    decreases cs.len(),
{
    if cs.len() == 0 {
        seq![]
    } else {
        others_of(cs.drop_last(), red, c) + if cs.last() != c && !red.contains(cs.last()) {
            seq![cs.last()]
        } else {
            seq![]
        }
    }
}

/// Whether `c` turns out to be an ancestor of one of the others, trying
/// them in order.
pub open spec fn under_another(g: ObjectTable, c: Seq<char>, others: Seq<Seq<char>>) -> Result<
    bool,
    Seq<char>,
>
    decreases others.len(),
{
    if others.len() == 0 {
        Ok(false)
    } else {
        match pair_walk(g, c, others[0]) {
            Err(e) => Err(e),
            Ok(v) => if v.contains(c) {
                Ok(true)
            } else {
                under_another(g, c, others.drop_first())
            },
        }
    }
}

/// The redundant ids once each of the others found to be an ancestor of
/// `c` is added, trying them in order.
pub open spec fn add_under(
    g: ObjectTable,
    c: Seq<char>,
    others: Seq<Seq<char>>,
    red: Seq<Seq<char>>,
) -> Result<Seq<Seq<char>>, Seq<char>>
    decreases others.len(),
{
    if others.len() == 0 {
        Ok(red)
    } else {
        match pair_walk(g, others[0], c) {
            Err(e) => Err(e),
            Ok(v) => add_under(
                g,
                c,
                others.drop_first(),
                if v.contains(others[0]) {
                    red.push(others[0])
                } else {
                    red
                },
            ),
        }
    }
}

/// The redundant ids after looking at `c`: `c` itself when it is an
/// ancestor of another, else those others that are ancestors of `c`.
pub open spec fn filter_one(
    g: ObjectTable,
    cs: Seq<Seq<char>>,
    red: Seq<Seq<char>>,
    c: Seq<char>,
) -> Result<Seq<Seq<char>>, Seq<char>> {
    if red.contains(c) {
        Ok(red)
    } else {
        let others = others_of(cs, red, c);
        if others.len() == 0 {
            Ok(red)
        } else {
            match under_another(g, c, others) {
                Err(e) => Err(e),
                Ok(true) => Ok(red.push(c)),
                Ok(false) => add_under(g, c, others, red),
            }
        }
    }
}

/// The redundant ids after looking at each of `cs` from position `i` on.
pub open spec fn filter_from(
    g: ObjectTable,
    cs: Seq<Seq<char>>,
    red: Seq<Seq<char>>,
    i: int,
) -> Result<Seq<Seq<char>>, Seq<char>>
    decreases cs.len() - i,
{
    if i < 0 || i >= cs.len() {
        Ok(red)
    } else {
        match filter_one(g, cs, red, cs[i]) {
            Err(e) => Err(e),
            Ok(red2) => filter_from(g, cs, red2, i + 1),
        }
    }
}

/// The ids not among the redundant ones, in order.
pub open spec fn without(cs: Seq<Seq<char>>, red: Seq<Seq<char>>) -> Seq<Seq<char>>
    decreases cs.len(),
{
    if cs.len() == 0 {
        seq![]
    } else {
        without(cs.drop_last(), red) + if red.contains(cs.last()) {
            seq![]
        } else {
            seq![cs.last()]
        }
    }
}

/// The merge bases of two commits: their common ancestors without repeats;
/// when more than one, less those that are ancestors of another.
pub open spec fn merge_bases(g: ObjectTable, one: Seq<char>, two: Seq<char>) -> Result<
    Seq<Seq<char>>,
    Seq<char>,
> {
    match pair_walk(g, one, two) {
        Err(e) => Err(e),
        Ok(v) => {
            let cs = dedup(v);
            if cs.len() <= 1 {
                Ok(cs)
            } else {
                match filter_from(g, cs, seq![], 0) {
                    Err(e) => Err(e),
                    Ok(red) => Ok(without(cs, red)),
                }
            }
        },
    }
}

/// No id occurs twice.
pub open spec fn no_repeats(s: Seq<Seq<char>>) -> bool {
    forall|i: int, j: int| 0 <= i < j < s.len() ==> s[i] != s[j]
}

proof fn lemma_dedup_no_repeats(s: Seq<Seq<char>>)
    ensures
        no_repeats(dedup(s)),
        forall|x: Seq<char>| dedup(s).contains(x) ==> s.contains(x),
    decreases s.len(),
{
    if s.len() > 0 {
        let d = dedup(s.drop_last());
        lemma_dedup_no_repeats(s.drop_last());
        assert forall|x: Seq<char>| dedup(s).contains(x) implies s.contains(x) by {
            let k = choose|k: int| 0 <= k < dedup(s).len() && dedup(s)[k] == x;
            if k < d.len() {
                assert(d[k] == x);
                assert(d.contains(x));
                assert(s.drop_last().contains(x));
                let m = choose|m: int| 0 <= m < s.drop_last().len() && s.drop_last()[m] == x;
                assert(s[m] == x);
            } else {
                assert(s[s.len() - 1] == x);
            }
        }
    }
}

proof fn lemma_without_no_repeats(cs: Seq<Seq<char>>, red: Seq<Seq<char>>)
    requires
        no_repeats(cs),
    ensures
        no_repeats(without(cs, red)),
        forall|x: Seq<char>| without(cs, red).contains(x) ==> cs.contains(x),
    decreases cs.len(),
{
    if cs.len() > 0 {
        let q = cs.drop_last();
        assert(no_repeats(q)) by {
            assert forall|i: int, j: int| 0 <= i < j < q.len() implies q[i] != q[j] by {
                assert(q[i] == cs[i] && q[j] == cs[j]);
            }
        }
        lemma_without_no_repeats(q, red);
        let w = without(q, red);
        assert(!q.contains(cs.last())) by {
            if q.contains(cs.last()) {
                let m = choose|m: int| 0 <= m < q.len() && q[m] == cs.last();
                assert(cs[m] == cs[cs.len() - 1]);
            }
        }
        assert(!w.contains(cs.last()));
        assert forall|x: Seq<char>| without(cs, red).contains(x) implies cs.contains(x) by {
            let k = choose|k: int| 0 <= k < without(cs, red).len() && without(cs, red)[k] == x;
            if k < w.len() {
                assert(w[k] == x);
                assert(w.contains(x));
                assert(q.contains(x));
                let m = choose|m: int| 0 <= m < q.len() && q[m] == x;
                assert(cs[m] == x);
            } else {
                assert(cs[cs.len() - 1] == x);
            }
        }
        assert forall|i: int, j: int|
            0 <= i < j < without(cs, red).len() implies without(cs, red)[i] != without(cs, red)[j] by {
            if j >= w.len() {
                assert(without(cs, red)[j] == cs.last());
                assert(without(cs, red)[i] == w[i]);
            } else {
                assert(without(cs, red)[i] == w[i] && without(cs, red)[j] == w[j]);
            }
        }
    }
}

/// The merge bases of two commits never name a commit twice.
pub proof fn lemma_merge_bases_no_repeats(g: ObjectTable, one: Seq<char>, two: Seq<char>)
    ensures
        merge_bases(g, one, two) matches Ok(v) ==> no_repeats(v),
{
    match pair_walk(g, one, two) {
        Err(_) => {},
        Ok(v) => {
            lemma_dedup_no_repeats(v);
            let cs = dedup(v);
            if cs.len() > 1 {
                match filter_from(g, cs, seq![], 0) {
                    Err(_) => {},
                    Ok(red) => {
                        lemma_without_no_repeats(cs, red);
                    },
                }
            }
        },
    }
}

/// Every merge base of two commits is an ancestor of both (each counted
/// as its own ancestor); so two commits whose histories share no commit
/// have none.
pub proof fn lemma_merge_bases_common(g: ObjectTable, one: Seq<char>, two: Seq<char>, x: Seq<char>)
    requires
        merge_bases(g, one, two) matches Ok(v) && v.contains(x),
    ensures
        is_ancestor(g, one, x),
        is_ancestor(g, two, x),
{
    match pair_walk(g, one, two) {
        Err(_) => {},
        Ok(v) => {
            lemma_dedup_no_repeats(v);
            let cs = dedup(v);
            if cs.len() > 1 {
                if let Ok(red) = filter_from(g, cs, seq![], 0) {
                    lemma_without_no_repeats(cs, red);
                    assert(cs.contains(x));
                }
            }
            assert(cs.contains(x));
            assert(v.contains(x));
            assert(first_missing(g, seeds(one, seq![two])) is None);
            lemma_results_are_common_ancestors(g, one, seq![two], x);
            let i = choose|i: int| 0 <= i < seq![two].len() && #[trigger] is_ancestor(g, seq![two][i], x);
            assert(seq![two][i] == two);
        },
    }
}

/// The objects table as the walk sees it.
pub open spec fn objects_table(objects: Seq<(String, Option<Option<String>>)>) -> ObjectTable {
    objects.map_values(|o: (String, Option<Option<String>>)| object_view(o))
}

fn clone_objects(objects: &Vec<(String, Option<Option<String>>)>) -> (r: Vec<
    (String, Option<Option<String>>),
>)
    ensures
        objects_table(r@) == objects_table(objects@),
{
    let mut r: Vec<(String, Option<Option<String>>)> = Vec::new();
    let mut i: usize = 0;
    while i < objects.len()
        invariant
            i <= objects.len(),
            objects_table(r@) == objects_table(objects@.take(i as int)),
        decreases objects.len() - i,
    {
        let o = &objects[i];
        let p = match &o.1 {
            Some(Some(p)) => Some(Some(clone_string(p))),
            Some(None) => Some(None),
            None => None,
        };
        let ghost before = objects_table(r@);
        r.push((clone_string(&o.0), p));
        assert(objects_table(r@) =~= before.push(object_view(objects@[i as int])));
        assert(objects@.take(i + 1) =~= objects@.take(i as int).push(objects@[i as int]));
        assert(objects_table(objects@.take(i + 1)) =~= objects_table(objects@.take(i as int)).push(
            object_view(objects@[i as int]),
        ));
        i += 1;
    }
    assert(objects@.take(i as int) =~= objects@);
    r
}

/// Whether the list holds the id.
fn holds(v: &Vec<String>, s: &str) -> (r: bool)
    ensures
        r == strings_view(v@).contains(s@),
{
    let mut i: usize = 0;
    while i < v.len()
        invariant
            i <= v.len(),
            forall|j: int| 0 <= j < i ==> v@[j]@ != s@,
        decreases v.len() - i,
    {
        if str_eq(v[i].as_str(), s) {
            assert(strings_view(v@)[i as int] == s@);
            return true;
        }
        i += 1;
    }
    assert forall|j: int| 0 <= j < strings_view(v@).len() implies strings_view(v@)[j] != s@ by {
        assert(strings_view(v@)[j] == v@[j]@);
    }
    false
}

/// The walk from `a` against `b`.
fn walk_pair(objects: &Vec<(String, Option<Option<String>>)>, a: &str, b: &str) -> (r: Result<
    Vec<String>,
    Error,
>)
    ensures
        match r {
            Ok(v) => pair_walk(objects_table(objects@), a@, b@) == Ok::<Seq<Seq<char>>, Seq<char>>(
                strings_view(v@),
            ),
            Err(e) => pair_walk(objects_table(objects@), a@, b@) matches Err(c) && not_found(e, c),
        },
{
    let objs = clone_objects(objects);
    let mut tw: Vec<&str> = Vec::new();
    tw.push(b);
    assert(tw@.map_values(|t: &str| t@) =~= seq![b@]);
    match CommonAncestors::new(objs, a, tw.as_slice()) {
        Err(e) => Err(e),
        Ok(mut ca) => ca.find(),
    }
}

/// Finds the merge bases of commits over a table of objects.
pub struct Bases {
    objects: Vec<(String, Option<Option<String>>)>,
}

impl Bases {
    /// The objects the walks may meet.
    pub closed spec fn objects_view(&self) -> ObjectTable {
        objects_table(self.objects@)
    }

    /// A finder over the given objects.
    pub fn new(objects: Vec<(String, Option<Option<String>>)>) -> (r: Bases)
        ensures
            r.objects_view() == objects_table(objects@),
    {
        Bases { objects }
    }

    /// The merge bases of two commits (see `merge_bases`); an error names
    /// an id the objects lack.
    pub fn find(&self, one: &str, two: &str) -> (r: Result<Vec<String>, Error>)
        ensures
            match r {
                Ok(v) => merge_bases(self.objects_view(), one@, two@) == Ok::<
                    Seq<Seq<char>>,
                    Seq<char>,
                >(strings_view(v@)),
                Err(e) => merge_bases(self.objects_view(), one@, two@) matches Err(c) && not_found(e, c),
            },
    {
        let ghost g = self.objects_view();
        let initial = match walk_pair(&self.objects, one, two) {
            Err(e) => return Err(e),
            Ok(v) => v,
        };
        let ghost iv = strings_view(initial@);
        let mut commits: Vec<String> = Vec::new();
        let mut i: usize = 0;
        while i < initial.len()
            invariant
                i <= initial.len(),
                iv == strings_view(initial@),
                strings_view(commits@) == dedup(iv.take(i as int)),
                g == self.objects_view(),
                pair_walk(g, one@, two@) == Ok::<Seq<Seq<char>>, Seq<char>>(iv),
            decreases initial.len() - i,
        {
            assert(iv.take(i + 1).drop_last() =~= iv.take(i as int));
            assert(iv.take(i + 1).last() == initial@[i as int]@);
            if !holds(&commits, initial[i].as_str()) {
                let ghost before = strings_view(commits@);
                commits.push(clone_string(&initial[i]));
                assert(strings_view(commits@) =~= before.push(initial@[i as int]@));
            }
            i += 1;
        }
        assert(iv.take(i as int) =~= iv);
        let ghost cs = strings_view(commits@);
        if commits.len() <= 1 {
            return Ok(commits);
        }
        let mut redundant: Vec<String> = Vec::new();
        let mut k: usize = 0;
        assert(strings_view(redundant@) =~= Seq::<Seq<char>>::empty());
        while k < commits.len()
            invariant
                k <= commits.len(),
                g == self.objects_view(),
                cs == strings_view(commits@),
                pair_walk(g, one@, two@) == Ok::<Seq<Seq<char>>, Seq<char>>(iv),
                cs == dedup(iv),
                cs.len() > 1,
                filter_from(g, cs, seq![], 0) == filter_from(g, cs, strings_view(redundant@), k as int),
            decreases commits.len() - k,
        {
            let ghost red0 = strings_view(redundant@);
            match self.filter_commit(&commits, &mut redundant, k) {
                Err(e) => {
                    proof {
                        assert(filter_from(g, cs, red0, k as int) == Err::<Seq<Seq<char>>, Seq<char>>(
                            filter_one(g, cs, red0, cs[k as int])->Err_0,
                        ));
                    }
                    return Err(e);
                },
                Ok(()) => {},
            }
            k += 1;
        }
        let ghost red = strings_view(redundant@);
        assert(filter_from(g, cs, red, k as int) == Ok::<Seq<Seq<char>>, Seq<char>>(red));
        let mut out: Vec<String> = Vec::new();
        let mut j: usize = 0;
        while j < commits.len()
            invariant
                j <= commits.len(),
                cs == strings_view(commits@),
                red == strings_view(redundant@),
                strings_view(out@) == without(cs.take(j as int), red),
                g == self.objects_view(),
                pair_walk(g, one@, two@) == Ok::<Seq<Seq<char>>, Seq<char>>(iv),
                cs == dedup(iv),
                cs.len() > 1,
                filter_from(g, cs, seq![], 0) == Ok::<Seq<Seq<char>>, Seq<char>>(red),
            decreases commits.len() - j,
        {
            assert(cs.take(j + 1).drop_last() =~= cs.take(j as int));
            assert(cs.take(j + 1).last() == commits@[j as int]@);
            let ghost before = strings_view(out@);
            if !holds(&redundant, commits[j].as_str()) {
                out.push(clone_string(&commits[j]));
                assert(strings_view(out@) =~= before.push(commits@[j as int]@));
            } else {
                assert(strings_view(out@) =~= before + Seq::<Seq<char>>::empty());
            }
            j += 1;
        }
        assert(cs.take(j as int) =~= cs);
        Ok(out)
    }

    /// Looks at the `k`-th candidate, adding what it finds redundant.
    fn filter_commit(&self, commits: &Vec<String>, redundant: &mut Vec<String>, k: usize) -> (r:
        Result<(), Error>)
        requires
            k < commits.len(),
        ensures
            match r {
                Ok(()) => filter_one(
                    self.objects_view(),
                    strings_view(commits@),
                    strings_view(old(redundant)@),
                    commits@[k as int]@,
                ) == Ok::<Seq<Seq<char>>, Seq<char>>(strings_view(final(redundant)@)),
                Err(e) => filter_one(
                    self.objects_view(),
                    strings_view(commits@),
                    strings_view(old(redundant)@),
                    commits@[k as int]@,
                ) matches Err(c) && not_found(e, c),
            },
    {
        let ghost g = self.objects_view();
        let ghost cs = strings_view(commits@);
        let ghost red0 = strings_view(redundant@);
        let c = commits[k].as_str();
        if holds(redundant, c) {
            return Ok(());
        }
        let mut others: Vec<String> = Vec::new();
        let mut i: usize = 0;
        while i < commits.len()
            invariant
                i <= commits.len(),
                k < commits.len(),
                cs == strings_view(commits@),
                red0 == strings_view(redundant@),
                red0 == strings_view(old(redundant)@),
                c@ == cs[k as int],
                strings_view(others@) == others_of(cs.take(i as int), red0, c@),
            decreases commits.len() - i,
        {
            assert(cs.take(i + 1).drop_last() =~= cs.take(i as int));
            assert(cs.take(i + 1).last() == commits@[i as int]@);
            let ghost before = strings_view(others@);
            if !str_eq(commits[i].as_str(), c) && !holds(redundant, commits[i].as_str()) {
                others.push(clone_string(&commits[i]));
                assert(strings_view(others@) =~= before.push(commits@[i as int]@));
            } else {
                assert(strings_view(others@) =~= before + Seq::<Seq<char>>::empty());
            }
            i += 1;
        }
        assert(cs.take(i as int) =~= cs);
        let ghost ov = strings_view(others@);
        assert(!red0.contains(c@));
        if others.len() == 0 {
            return Ok(());
        }
        assert(filter_one(g, cs, red0, c@) == match under_another(g, c@, ov) {
            Err(e) => Err(e),
            Ok(true) => Ok(red0.push(c@)),
            Ok(false) => add_under(g, c@, ov, red0),
        });
        let mut j: usize = 0;
        assert(ov.skip(0) =~= ov);
        while j < others.len()
            invariant
                j <= others.len(),
                g == self.objects_view(),
                ov == strings_view(others@),
                c@ == cs[k as int],
                k < commits.len(),
                cs == strings_view(commits@),
                red0 == strings_view(redundant@),
                red0 == strings_view(old(redundant)@),
                filter_one(g, cs, red0, c@) == match under_another(g, c@, ov) {
                    Err(e) => Err(e),
                    Ok(true) => Ok(red0.push(c@)),
                    Ok(false) => add_under(g, c@, ov, red0),
                },
                under_another(g, c@, ov) == under_another(g, c@, ov.skip(j as int)),
            decreases others.len() - j,
        {
            assert(ov.skip(j as int)[0] == others@[j as int]@);
            assert(ov.skip(j as int).drop_first() =~= ov.skip(j + 1));
            match walk_pair(&self.objects, c, others[j].as_str()) {
                Err(e) => return Err(e),
                Ok(v) => {
                    if holds(&v, c) {
                        redundant.push(c.to_owned());
                        assert(strings_view(redundant@) =~= red0.push(c@));
                        return Ok(());
                    }
                },
            }
            j += 1;
        }
        assert(ov.skip(j as int).len() == 0);
        let mut m: usize = 0;
        assert(ov.skip(0) =~= ov);
        assert(filter_one(g, cs, red0, c@) == add_under(g, c@, ov, red0));
        while m < others.len()
            invariant
                m <= others.len(),
                g == self.objects_view(),
                ov == strings_view(others@),
                k < commits.len(),
                c@ == cs[k as int],
                cs == strings_view(commits@),
                red0 == strings_view(old(redundant)@),
                filter_one(g, cs, red0, c@) == add_under(g, c@, ov, red0),
                add_under(g, c@, ov, red0) == add_under(g, c@, ov.skip(m as int), strings_view(
                    redundant@,
                )),
            decreases others.len() - m,
        {
            assert(ov.skip(m as int)[0] == others@[m as int]@);
            assert(ov.skip(m as int).drop_first() =~= ov.skip(m + 1));
            let ghost redm = strings_view(redundant@);
            match walk_pair(&self.objects, others[m].as_str(), c) {
                Err(e) => return Err(e),
                Ok(v) => {
                    if holds(&v, others[m].as_str()) {
                        redundant.push(clone_string(&others[m]));
                        assert(strings_view(redundant@) =~= redm.push(others@[m as int]@));
                    }
                },
            }
            m += 1;
        }
        assert(ov.skip(m as int).len() == 0);
        Ok(())
    }
}

} // verus!

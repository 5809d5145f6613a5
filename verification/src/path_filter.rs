//! Filters that select paths under a set of given paths.
use vstd::prelude::*;
use crate::text::{clone_string, str_eq, strings_view};

verus! {

/// A node of the trie of paths.
#[derive(Debug)]
pub struct Trie {
    matched: bool,
    children: Vec<(String, Trie)>,
}

/// A trie node as values.
pub ghost struct TrieView {
    pub matched: bool,
    pub children: Seq<(Seq<char>, TrieView)>,
}

/// The values of a trie.
pub closed spec fn trie_view(t: Trie) -> TrieView
    decreases t,
{
    TrieView { matched: t.matched, children: children_view(t.children@) }
}

/// The values of a trie's children.
pub closed spec fn children_view(cs: Seq<(String, Trie)>) -> Seq<(Seq<char>, TrieView)>
    decreases cs,
{
    if cs.len() == 0 {
        seq![]
    } else {
        seq![(cs[0].0@, trie_view(cs[0].1))] + children_view(cs.subrange(1, cs.len() as int))
    }
}


proof fn lemma_children_view(cs: Seq<(String, Trie)>)
    ensures
        children_view(cs).len() == cs.len(),
        forall|i: int|
            0 <= i < cs.len() ==> #[trigger] children_view(cs)[i] == (cs[i].0@, trie_view(cs[i].1)),
    decreases cs.len(),
{
    if cs.len() > 0 {
        let rest = cs.subrange(1, cs.len() as int);
        lemma_children_view(rest);
        assert forall|i: int| 0 <= i < cs.len() implies #[trigger] children_view(cs)[i] == (
            cs[i].0@,
            trie_view(cs[i].1),
        ) by {
            if i > 0 {
                assert(children_view(cs)[i] == children_view(rest)[i - 1]);
                assert(rest[i - 1] == cs[i]);
            }
        }
    }
}

/// Whether a node lets a name through: it was reached by a given path, or
/// the name leads on towards one.
pub open spec fn lets_through(t: TrieView, name: Seq<char>) -> bool {
    t.matched || child_pos(t.children, name) is Some
}

/// The entries a node lets through, in order.
pub open spec fn kept<T>(es: Seq<(String, T)>, t: TrieView) -> Seq<(String, T)>
    decreases es.len(),
{
    if es.len() == 0 {
        Seq::empty()
    } else if lets_through(t, es.last().0@) {
        kept(es.drop_last(), t).push(es.last())
    } else {
        kept(es.drop_last(), t)
    }
}

/// A node with no children.
pub open spec fn leaf(matched: bool) -> TrieView {
    TrieView { matched, children: Seq::empty() }
}

/// The position of the first child with a name.
pub open spec fn child_pos(cs: Seq<(Seq<char>, TrieView)>, name: Seq<char>) -> Option<int>
    decreases cs.len(),
{
    if cs.len() == 0 {
        None
    } else if cs.last().0 == name && child_pos(cs.drop_last(), name) is None {
        Some(cs.len() - 1)
    } else {
        child_pos(cs.drop_last(), name)
    }
}

/// A trie with a path of components added: the node at its end marked as
/// matched, the nodes on the way created where missing.
pub open spec fn insert_path(t: TrieView, comps: Seq<Seq<char>>) -> TrieView
    decreases comps.len(),
{
    if comps.len() == 0 {
        TrieView { matched: true, children: t.children }
    } else {
        match child_pos(t.children, comps[0]) {
            Some(i) => TrieView {
                matched: t.matched,
                children: t.children.update(
                    i,
                    (comps[0], insert_path(t.children[i].1, comps.drop_first())),
                ),
            },
            None => TrieView {
                matched: t.matched,
                children: t.children.push(
                    (comps[0], insert_path(leaf(false), comps.drop_first())),
                ),
            },
        }
    }
}

/// The components of a path, as `Path::components` gives them.
pub uninterp spec fn path_components(p: Seq<char>) -> Seq<Seq<char>>;

/// `std::path::Path::components`, each component as text.
#[verifier::external_body]
fn components(p: &str) -> (r: Vec<String>)
    ensures
        strings_view(r@) == path_components(p@),
{
    std::path::Path::new(p).components().map(|c| c.as_os_str().to_string_lossy().to_string()).collect()
}

/// A path joined with a name as `Path::join` joins them: the name alone
/// where it is absolute or the path is empty, else the two with one `/`
/// between them.
pub open spec fn joined(base: Seq<char>, name: Seq<char>) -> Seq<char> {
    if name.len() > 0 && name[0] == '/' {
        name
    } else if base.len() == 0 {
        name
    } else if base.last() == '/' {
        base + name
    } else {
        base + seq!['/'] + name
    }
}

/// `std::path::Path::join`, as text.
#[verifier::external_body]
pub(crate) fn path_join(base: &str, name: &str) -> (r: String)
    ensures
        r@ == joined(base@, name@),
{
    std::path::Path::new(base).join(name).to_string_lossy().to_string()
}

/// The trie of a list of paths, built one path after another from a root
/// that is matched only when there are none.
pub open spec fn trie_of(paths: Seq<Seq<char>>, k: int) -> TrieView
    decreases k,
{
    if k <= 0 {
        leaf(paths.len() == 0)
    } else {
        insert_path(trie_of(paths, k - 1), path_components(paths[k - 1]))
    }
}

/// The node reached from `t` by following the components `c`, if every
/// step has a child of that name.
pub open spec fn walk(t: TrieView, c: Seq<Seq<char>>) -> Option<TrieView>
    decreases c.len(),
{
    if c.len() == 0 {
        Some(t)
    } else {
        match child_pos(t.children, c[0]) {
            Some(i) => walk(t.children[i].1, c.drop_first()),
            None => None,
        }
    }
}

/// The components `c` lead from `t` to a node that was reached by a given
/// path.
pub open spec fn admits(t: TrieView, c: Seq<Seq<char>>) -> bool {
    walk(t, c) matches Some(n) && n.matched
}

proof fn lemma_child_pos_update(
    cs: Seq<(Seq<char>, TrieView)>,
    i: int,
    v: TrieView,
    nm: Seq<char>,
)
    requires
        0 <= i < cs.len(),
    ensures
        child_pos(cs.update(i, (cs[i].0, v)), nm) == child_pos(cs, nm),
    decreases cs.len(),
{
    let u = cs.update(i, (cs[i].0, v));
    if i < cs.len() - 1 {
        lemma_child_pos_update(cs.drop_last(), i, v, nm);
        assert(u.drop_last() =~= cs.drop_last().update(i, (cs[i].0, v)));
    } else {
        assert(u.drop_last() =~= cs.drop_last());
    }
}

proof fn lemma_child_pos_push(cs: Seq<(Seq<char>, TrieView)>, name: Seq<char>, v: TrieView, nm: Seq<char>)
    requires
        child_pos(cs, name) is None,
    ensures
        child_pos(cs.push((name, v)), nm) == if nm == name {
            Some(cs.len() as int)
        } else {
            child_pos(cs, nm)
        },
{
    assert(cs.push((name, v)).drop_last() =~= cs);
}

proof fn lemma_insert_admits(t: TrieView, comps: Seq<Seq<char>>)
    ensures
        admits(insert_path(t, comps), comps),
    decreases comps.len(),
{
    if comps.len() > 0 {
        let rest = comps.drop_first();
        let n = insert_path(t, comps);
        match child_pos(t.children, comps[0]) {
            Some(i) => {
                lemma_child_pos_found(t.children, comps[0]);
                lemma_child_pos_update(t.children, i, insert_path(t.children[i].1, rest), comps[0]);
                lemma_insert_admits(t.children[i].1, rest);
            },
            None => {
                lemma_child_pos_push(t.children, comps[0], insert_path(leaf(false), rest), comps[0]);
                lemma_insert_admits(leaf(false), rest);
            },
        }
    }
}

proof fn lemma_insert_keeps(t: TrieView, comps: Seq<Seq<char>>, c: Seq<Seq<char>>)
    requires
        admits(t, c),
    ensures
        admits(insert_path(t, comps), c),
    decreases comps.len(),
{
    let n = insert_path(t, comps);
    if c.len() == 0 {
        assert(walk(n, c) == Some(n));
        assert(walk(t, c) == Some(t));
    } else if comps.len() == 0 {
        assert(n.children == t.children);
        assert(walk(n, c) == walk(t, c));
    } else {
        let rest = comps.drop_first();
        let j = child_pos(t.children, c[0])->0;
        assert(child_pos(t.children, c[0]) is Some);
        assert(walk(t, c) == walk(t.children[j].1, c.drop_first()));
        lemma_child_pos_found(t.children, c[0]);
        match child_pos(t.children, comps[0]) {
            Some(i) => {
                lemma_child_pos_found(t.children, comps[0]);
                lemma_child_pos_update(t.children, i, insert_path(t.children[i].1, rest), c[0]);
                assert(n.children == t.children.update(i, (t.children[i].0, insert_path(t.children[i].1, rest))));
                assert(child_pos(n.children, c[0]) == Some(j));
                assert(walk(n, c) == walk(n.children[j].1, c.drop_first()));
                if j == i {
                    lemma_insert_keeps(t.children[i].1, rest, c.drop_first());
                } else {
                    assert(n.children[j] == t.children[j]);
                }
            },
            None => {
                lemma_child_pos_push(t.children, comps[0], insert_path(leaf(false), rest), c[0]);
                assert(c[0] != comps[0]);
                assert(child_pos(n.children, c[0]) == Some(j));
                assert(n.children[j] == t.children[j]);
                assert(walk(n, c) == walk(n.children[j].1, c.drop_first()));
            },
        }
    }
}

proof fn lemma_trie_of_admits(paths: Seq<Seq<char>>, k: int)
    requires
        0 <= k <= paths.len(),
    ensures
        forall|j: int| 0 <= j < k ==> admits(trie_of(paths, k), path_components(#[trigger] paths[j])),
    decreases k,
{
    if k > 0 {
        lemma_trie_of_admits(paths, k - 1);
        let t = trie_of(paths, k - 1);
        assert forall|j: int| 0 <= j < k implies admits(
            trie_of(paths, k),
            path_components(#[trigger] paths[j]),
        ) by {
            if j < k - 1 {
                lemma_insert_keeps(t, path_components(paths[k - 1]), path_components(paths[j]));
            } else {
                lemma_insert_admits(t, path_components(paths[k - 1]));
            }
        }
    }
}

/// A filter built from paths reaches, along the components of each given
/// path, a node that lets everything under it through; with no path given
/// it lets everything through from the start.
pub proof fn lemma_filter_admits_given_paths(paths: Seq<Seq<char>>)
    ensures
        forall|j: int|
            0 <= j < paths.len() ==> admits(
                trie_of(paths, paths.len() as int),
                path_components(#[trigger] paths[j]),
            ),
        paths.len() == 0 ==> trie_of(paths, 0).matched,
{
    lemma_trie_of_admits(paths, paths.len() as int);
}

impl Trie {
    /// A node with no children.
    fn new(matched: bool) -> (r: Trie)
        ensures
            trie_view(r) == leaf(matched),
    {
        let r = Trie { matched, children: Vec::new() };
        proof {
            assert(children_view(r.children@) =~= Seq::<(Seq<char>, TrieView)>::empty());
        }
        r
    }

    /// The trie of a list of paths.
    fn from_paths(paths: &[String]) -> (r: Trie)
        ensures
            trie_view(r) == trie_of(paths@.map_values(|p: String| p@), paths.len() as int),
    {
        let ghost pv = paths@.map_values(|p: String| p@);
        let mut root = Trie::new(paths.len() == 0);
        let mut k: usize = 0;
        while k < paths.len()
            invariant
                k <= paths.len(),
                pv == paths@.map_values(|p: String| p@),
                trie_view(root) == trie_of(pv, k as int),
            decreases paths.len() - k,
        {
            let comps = components(paths[k].as_str());
            assert(pv[k as int] == paths@[k as int]@);
            root = add_path(root, &comps, 0);
            proof {
                assert(strings_view(comps@).skip(0) =~= strings_view(comps@));
            }
            k += 1;
        }
        root
    }
}

/// A copy of a trie.
fn copy_trie(t: &Trie) -> (r: Trie)
    ensures
        trie_view(r) == trie_view(*t),
    decreases t,
{
    let mut children: Vec<(String, Trie)> = Vec::new();
    let mut i: usize = 0;
    proof {
        lemma_children_view(t.children@);
    }
    while i < t.children.len()
        invariant
            i <= t.children.len(),
            children@.len() == i,
            children_view(t.children@).len() == t.children@.len(),
            forall|j: int| 0 <= j < t.children@.len() ==> #[trigger] children_view(t.children@)[j] == (
                t.children@[j].0@,
                trie_view(t.children@[j].1),
            ),
            forall|j: int| 0 <= j < i ==> (#[trigger] children@[j]).0@ == t.children@[j].0@ && trie_view(
                children@[j].1,
            ) == trie_view(t.children@[j].1),
        decreases t.children.len() - i,
    {
        proof {
            assert(decreases_to!(*t => t.children@[i as int].1));
        }
        let c = copy_trie(&t.children[i].1);
        children.push((clone_string(&t.children[i].0), c));
        i += 1;
    }
    let r = Trie { matched: t.matched, children };
    proof {
        lemma_children_view(r.children@);
        assert(children_view(r.children@) =~= children_view(t.children@));
    }
    r
}

/// The position of the child with a name.
fn find_child(children: &Vec<(String, Trie)>, name: &str) -> (r: Option<usize>)
    ensures
        match r {
            Some(i) => i < children.len() && child_pos(children_view(children@), name@) == Some(i as int),
            None => child_pos(children_view(children@), name@) is None,
        },
{
    proof {
        lemma_children_view(children@);
    }
    let ghost cv = children_view(children@);
    let mut i: usize = 0;
    while i < children.len()
        invariant
            i <= children.len(),
            cv == children_view(children@),
            cv.len() == children@.len(),
            forall|j: int| 0 <= j < children@.len() ==> #[trigger] cv[j] == (
                children@[j].0@,
                trie_view(children@[j].1),
            ),
            child_pos(cv.take(i as int), name@) is None,
        decreases children.len() - i,
    {
        assert(cv.take(i + 1).drop_last() =~= cv.take(i as int));
        if str_eq(children[i].0.as_str(), name) {
            proof {
                lemma_child_pos_prefix(cv, i as int + 1, name@);
            }
            return Some(i);
        }
        i += 1;
    }
    assert(cv.take(children.len() as int) =~= cv);
    None
}

/// The position found holds a child with the name.
proof fn lemma_child_pos_found(cs: Seq<(Seq<char>, TrieView)>, name: Seq<char>)
    ensures
        child_pos(cs, name) matches Some(i) ==> 0 <= i < cs.len() && cs[i].0 == name,
    decreases cs.len(),
{
    if cs.len() > 0 {
        lemma_child_pos_found(cs.drop_last(), name);
    }
}

/// The first position is found in a prefix that holds it.
proof fn lemma_child_pos_prefix(cs: Seq<(Seq<char>, TrieView)>, k: int, name: Seq<char>)
    requires
        0 < k <= cs.len(),
        child_pos(cs.take(k), name) == Some(k - 1),
    ensures
        child_pos(cs, name) == Some(k - 1),
    decreases cs.len() - k,
{
    if k < cs.len() {
        assert(cs.drop_last().take(k) =~= cs.take(k));
        lemma_child_pos_prefix(cs.drop_last(), k, name);
    } else {
        assert(cs.take(k) =~= cs);
    }
}

/// A trie with a path of components from position `k` on added.
fn add_path(t: Trie, comps: &Vec<String>, k: usize) -> (r: Trie)
    requires
        k <= comps.len(),
    ensures
        trie_view(r) == insert_path(trie_view(t), strings_view(comps@).skip(k as int)),
    decreases comps.len() - k,
{
    let ghost rest = strings_view(comps@).skip(k as int);
    if k == comps.len() {
        let r = Trie { matched: true, children: t.children };
        assert(rest.len() == 0);
        return r;
    }
    assert(rest[0] == comps@[k as int]@);
    assert(rest.drop_first() =~= strings_view(comps@).skip(k + 1));
    let Trie { matched, mut children } = t;
    proof {
        lemma_children_view(children@);
    }
    let ghost cv0 = children_view(children@);
    match find_child(&children, comps[k].as_str()) {
        Some(i) => {
            let ghost old_children = children@;
            proof {
                lemma_child_pos_found(cv0, rest[0]);
            }
            let (name, child) = children.remove(i);
            let nc = add_path(child, comps, k + 1);
            children.insert(i, (name, nc));
            proof {
                assert(children@ =~= old_children.update(i as int, (name, nc)));
                lemma_children_view(children@);
                assert(children_view(children@) =~= cv0.update(
                    i as int,
                    (rest[0], insert_path(cv0[i as int].1, rest.drop_first())),
                ));
            }
        },
        None => {
            let nc = add_path(Trie::new(false), comps, k + 1);
            children.push((clone_string(&comps[k]), nc));
            proof {
                lemma_children_view(children@);
                assert(children_view(children@) =~= cv0.push(
                    (rest[0], insert_path(leaf(false), rest.drop_first())),
                ));
            }
        },
    }
    Trie { matched, children }
}

/// Selects paths under a set of given paths, one component at a time.
#[derive(Debug)]
pub struct PathFilter {
    routes: Trie,
    path: String,
}

impl PathFilter {
    /// The node the filter stands at.
    pub closed spec fn routes_view(&self) -> TrieView {
        trie_view(self.routes)
    }

    /// The path the filter has reached.
    pub closed spec fn path_view(&self) -> Seq<char> {
        self.path@
    }

    /// A filter that lets every path through.
    pub fn new() -> (r: PathFilter)
        ensures
            r.routes_view() == leaf(true),
            r.path_view() == Seq::<char>::empty(),
    {
        PathFilter { routes: Trie::new(true), path: String::new() }
    }

    /// A filter that lets through the given paths and what lies under
    /// them; every path when none is given.
    pub fn build(paths: &[String]) -> (r: PathFilter)
        ensures
            r.routes_view() == trie_of(paths@.map_values(|p: String| p@), paths.len() as int),
            r.path_view() == Seq::<char>::empty(),
    {
        PathFilter { routes: Trie::from_paths(paths), path: String::new() }
    }

    /// The path the filter has reached.
    pub fn path(&self) -> (r: &str)
        ensures
            r@ == self.path_view(),
    {
        self.path.as_str()
    }

    /// The entries whose names the filter lets through at this point: all
    /// of them where a given path has been reached, else those that lead
    /// on towards one.
    pub fn filter_entries<'a, T>(&self, entries: &'a Vec<(String, T)>) -> (r: Vec<(&'a String, &'a T)>)
        ensures
            r@.len() == kept(entries@, self.routes_view()).len(),
            forall|k: int|
                0 <= k < r@.len() ==> *(#[trigger] r@[k]).0 == kept(entries@, self.routes_view())[k].0
                    && *r@[k].1 == kept(entries@, self.routes_view())[k].1,
    {
        let ghost t = self.routes_view();
        let mut result: Vec<(&'a String, &'a T)> = Vec::new();
        let mut j: usize = 0;
        proof {
            lemma_children_view(self.routes.children@);
        }
        while j < entries.len()
            invariant
                j <= entries.len(),
                t == self.routes_view(),
                t.matched == self.routes.matched,
                t.children == children_view(self.routes.children@),
                result@.len() == kept(entries@.take(j as int), t).len(),
                forall|k: int|
                    0 <= k < result@.len() ==> *(#[trigger] result@[k]).0 == kept(
                        entries@.take(j as int),
                        t,
                    )[k].0 && *result@[k].1 == kept(entries@.take(j as int), t)[k].1,
            decreases entries.len() - j,
        {
            proof {
                assert(entries@.take(j + 1).drop_last() =~= entries@.take(j as int));
            }
            let (name, entry) = (&entries[j].0, &entries[j].1);
            if self.routes.matched || find_child(&self.routes.children, name.as_str()).is_some() {
                result.push((name, entry));
            }
            j += 1;
        }
        assert(entries@.take(entries.len() as int) =~= entries@);
        result
    }

    /// The filter one component further on: the same node where a given
    /// path has been reached, else the child for the name, or a node that
    /// lets nothing through.
    pub fn join(&self, name: &str) -> (r: PathFilter)
        ensures
            r.routes_view() == if self.routes_view().matched {
                self.routes_view()
            } else {
                match child_pos(self.routes_view().children, name@) {
                    Some(i) => self.routes_view().children[i].1,
                    None => leaf(false),
                }
            },
            r.path_view() == joined(self.path_view(), name@),
    {
        let next = if self.routes.matched {
            copy_trie(&self.routes)
        } else {
            match find_child(&self.routes.children, name) {
                Some(i) => {
                    proof {
                        lemma_children_view(self.routes.children@);
                    }
                    copy_trie(&self.routes.children[i].1)
                },
                None => Trie::new(false),
            }
        };
        PathFilter { routes: next, path: path_join(self.path.as_str(), name) }
    }
}

} // verus!

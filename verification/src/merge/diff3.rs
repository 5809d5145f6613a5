//! Line-based three-way merge of an original text and two changed versions.
//!
//! Each changed version is matched against the original line by line; the
//! merge then walks the three texts, copying runs of lines on which all
//! three agree and emitting, between such runs, a clean chunk where only one
//! side changed or a conflict where both did.
use vstd::prelude::*;
use std::collections::HashMap;
use crate::error::Error;
use crate::text::{
    chars_of, clone_string, find_char, find_char_in, join_strings, lines, lines_of, push_str,
    slice_chars, string_from_chars, strings_eq, strings_range, strings_view, str_eq,
};

verus! {

broadcast use vstd::std_specs::hash::group_hash_axioms;

/// A text as its lines.
pub type Lines = Seq<Seq<char>>;

/// A text cut after each `\n`, every line keeping its ending; a last piece
/// without one is a line too.
pub open spec fn lines_with_endings(s: Seq<char>) -> Lines
    decreases s.len(),
{
    if s.len() == 0 {
        seq![]
    } else {
        match find_char(s, '\n') {
            None => seq![s],
            Some(k) => {
                if k < s.len() {
                    seq![s.subrange(0, k + 1 as int)] + lines_with_endings(
                        s.subrange(k + 1 as int, s.len() as int),
                    )
                } else {
                    seq![]
                }
            },
        }
    }
}

/// A text and its lines with endings have as many lines as `str::lines`
/// finds.
pub proof fn lemma_lines_count(s: Seq<char>)
    ensures
        lines(s).len() == lines_with_endings(s).len(),
    decreases s.len(),
{
    if s.len() > 0 {
        if let Some(k) = find_char(s, '\n') {
            if k < s.len() {
                lemma_lines_count(s.subrange(k + 1 as int, s.len() as int));
            }
        }
    }
}

/// Joining the lines with endings gives the text back.
pub proof fn lemma_join_lines_with_endings(s: Seq<char>)
    ensures
        lines_with_endings(s).flatten() == s,
    decreases s.len(),
{
    broadcast use vstd::seq::Seq::group_seq_flatten;

    if s.len() > 0 {
        crate::text::lemma_find_char_bound(s, '\n');
        match find_char(s, '\n') {
            None => {
                assert(lines_with_endings(s) == seq![s]);
            },
            Some(k) => {
                let rest = s.subrange(k + 1 as int, s.len() as int);
                lemma_join_lines_with_endings(rest);
                let head = s.subrange(0, k + 1 as int);
                vstd::seq_lib::lemma_flatten_concat(seq![head], lines_with_endings(rest));
                assert(seq![head].flatten() == head);
                assert(head + rest =~= s);
            },
        }
    }
}

/// A list of lines that is the lines with endings of its own joined text.
pub open spec fn is_line_list(x: Lines) -> bool {
    lines_with_endings(x.flatten()) == x
}

/// A list of lines has as many lines as `str::lines` finds in its joined
/// text.
pub proof fn lemma_line_list_count(x: Lines)
    requires
        is_line_list(x),
    ensures
        lines(x.flatten()).len() == x.len(),
{
    lemma_lines_count(x.flatten());
}

// ---------------------------------------------------------------- matching lines

/// What a step of the line walk did.
#[derive(Debug, PartialEq, Eq)]
enum EditType {
    Eql,
    Add,
    Del,
}

/// A line of one of the texts: its position and content.
#[derive(Debug)]
struct LineInfo {
    number: usize,
    content: String,
}

/// A step of the line walk, with the lines it touched.
#[derive(Debug)]
struct Edit {
    kind: EditType,
    a_line: Option<LineInfo>,
    b_line: Option<LineInfo>,
}

/// A step of the line walk as values.
pub ghost struct EditView {
    pub kind: int,
    pub a_line: Option<(int, Seq<char>)>,
    pub b_line: Option<(int, Seq<char>)>,
}

/// Kinds of steps: lines equal, a line added, a line deleted.
pub open spec fn kind_eql() -> int {
    0
}

pub open spec fn kind_add() -> int {
    1
}

pub open spec fn kind_del() -> int {
    2
}

spec fn edit_type_view(t: EditType) -> int {
    match t {
        EditType::Eql => kind_eql(),
        EditType::Add => kind_add(),
        EditType::Del => kind_del(),
    }
}

spec fn line_info_view(l: Option<LineInfo>) -> Option<(int, Seq<char>)> {
    match l {
        Some(x) => Some((x.number as int, x.content@)),
        None => None,
    }
}

spec fn edit_view(e: Edit) -> EditView {
    EditView { kind: edit_type_view(e.kind), a_line: line_info_view(e.a_line), b_line: line_info_view(e.b_line) }
}

spec fn edits_view(es: Seq<Edit>) -> Seq<EditView> {
    es.map_values(|e: Edit| edit_view(e))
}

/// The walk over lines `a[i..]` and `b[j..]`: equal lines are kept
/// together; otherwise a line of `b` counts as added while `b` has lines,
/// and a line of `a` as deleted after that.
pub open spec fn walk(a: Lines, b: Lines, i: int, j: int) -> Seq<EditView>
    decreases a.len() - i + b.len() - j,
{
    if i < 0 || j < 0 || i > a.len() || j > b.len() {
        seq![]
    } else if i < a.len() && j < b.len() && a[i] == b[j] {
        seq![EditView { kind: kind_eql(), a_line: Some((i, a[i])), b_line: Some((j, b[j])) }]
            + walk(a, b, i + 1, j + 1)
    } else if j < b.len() {
        seq![EditView { kind: kind_add(), a_line: None, b_line: Some((j, b[j])) }] + walk(
            a,
            b,
            i,
            j + 1,
        )
    } else if i < a.len() {
        seq![EditView { kind: kind_del(), a_line: Some((i, a[i])), b_line: None }] + walk(
            a,
            b,
            i + 1,
            j,
        )
    } else {
        seq![]
    }
}

/// The pairs of equal lines that the walk from `i`, `j` keeps together.
pub open spec fn walk_pairs(a: Lines, b: Lines, i: int, j: int) -> Seq<(int, int)>
    decreases a.len() - i + b.len() - j,
{
    if i < 0 || j < 0 || i > a.len() || j > b.len() {
        seq![]
    } else if i < a.len() && j < b.len() && a[i] == b[j] {
        seq![(i, j)] + walk_pairs(a, b, i + 1, j + 1)
    } else if j < b.len() {
        walk_pairs(a, b, i, j + 1)
    } else if i < a.len() {
        walk_pairs(a, b, i + 1, j)
    } else {
        seq![]
    }
}

/// The position of a line, or -1 for none.
pub open spec fn line_number(l: Option<(int, Seq<char>)>) -> int {
    match l {
        Some(x) => x.0,
        None => -1,
    }
}

/// The pairs of positions of the equal-line steps.
pub open spec fn eql_pairs(es: Seq<EditView>) -> Seq<(int, int)>
    decreases es.len(),
{
    if es.len() == 0 {
        seq![]
    } else {
        let p = eql_pairs(es.drop_last());
        let e = es.last();
        if e.kind == kind_eql() && e.a_line is Some && e.b_line is Some {
            p.push((line_number(e.a_line), line_number(e.b_line)))
        } else {
            p
        }
    }
}

/// The map from the first position to the second of each pair, in order.
pub open spec fn pairs_map(ps: Seq<(int, int)>) -> Map<usize, usize>
    decreases ps.len(),
{
    if ps.len() == 0 {
        Map::empty()
    } else {
        pairs_map(ps.drop_last()).insert(ps.last().0 as usize, ps.last().1 as usize)
    }
}

/// The match set of a version against the original: for each line of the
/// original kept equal by the walk, the line of the version it equals.
/// Both texts are split as `str::lines` splits them.
pub open spec fn match_map(o: Lines, f: Lines) -> Map<usize, usize> {
    pairs_map(walk_pairs(lines(o.flatten()), lines(f.flatten()), 0, 0))
}

proof fn lemma_eql_pairs_concat(x: Seq<EditView>, y: Seq<EditView>)
    ensures
        eql_pairs(x + y) == eql_pairs(x) + eql_pairs(y),
    decreases y.len(),
{
    if y.len() == 0 {
        assert(x + y =~= x);
        assert(eql_pairs(x) + eql_pairs(y) =~= eql_pairs(x));
    } else {
        lemma_eql_pairs_concat(x, y.drop_last());
        assert((x + y).drop_last() =~= x + y.drop_last());
        assert((x + y).last() == y.last());
        assert(eql_pairs(x + y) =~= eql_pairs(x) + eql_pairs(y));
    }
}

/// The equal-line steps of the walk are its pairs.
proof fn lemma_walk_pairs(a: Lines, b: Lines, i: int, j: int)
    ensures
        eql_pairs(walk(a, b, i, j)) == walk_pairs(a, b, i, j),
    decreases a.len() - i + b.len() - j,
{
    if i < 0 || j < 0 || i > a.len() || j > b.len() {
    } else if i < a.len() && j < b.len() && a[i] == b[j] {
        lemma_walk_pairs(a, b, i + 1, j + 1);
        let e = EditView { kind: kind_eql(), a_line: Some((i, a[i])), b_line: Some((j, b[j])) };
        lemma_eql_pairs_concat(seq![e], walk(a, b, i + 1, j + 1));
        assert(seq![e].drop_last() =~= Seq::<EditView>::empty());
        assert(eql_pairs(Seq::<EditView>::empty()) =~= Seq::<(int, int)>::empty());
        assert(eql_pairs(seq![e]) =~= seq![(i, j)]);
    } else if j < b.len() {
        lemma_walk_pairs(a, b, i, j + 1);
        let e = EditView { kind: kind_add(), a_line: None, b_line: Some((j, b[j])) };
        lemma_eql_pairs_concat(seq![e], walk(a, b, i, j + 1));
        assert(seq![e].drop_last() =~= Seq::<EditView>::empty());
        assert(eql_pairs(Seq::<EditView>::empty()) =~= Seq::<(int, int)>::empty());
        assert(eql_pairs(seq![e]) =~= Seq::<(int, int)>::empty());
        assert(eql_pairs(walk(a, b, i, j)) =~= walk_pairs(a, b, i, j));
    } else if i < a.len() {
        lemma_walk_pairs(a, b, i + 1, j);
        let e = EditView { kind: kind_del(), a_line: Some((i, a[i])), b_line: None };
        lemma_eql_pairs_concat(seq![e], walk(a, b, i + 1, j));
        assert(seq![e].drop_last() =~= Seq::<EditView>::empty());
        assert(eql_pairs(Seq::<EditView>::empty()) =~= Seq::<(int, int)>::empty());
        assert(eql_pairs(seq![e]) =~= Seq::<(int, int)>::empty());
        assert(eql_pairs(walk(a, b, i, j)) =~= walk_pairs(a, b, i, j));
    }
}

/// The pairs of the walk: first positions `i, i + 1, ...` in turn, second
/// positions increasing, all inside the texts.
proof fn lemma_walk_pairs_shape(a: Lines, b: Lines, i: int, j: int)
    requires
        0 <= i <= a.len(),
        0 <= j <= b.len(),
    ensures
        forall|t: int|
            0 <= t < walk_pairs(a, b, i, j).len() ==> (#[trigger] walk_pairs(a, b, i, j)[t]).0 == i
                + t && walk_pairs(a, b, i, j)[t].0 < a.len() && j <= walk_pairs(a, b, i, j)[t].1
                < b.len(),
        forall|s: int, t: int|
            0 <= s < t < walk_pairs(a, b, i, j).len() ==> #[trigger] walk_pairs(a, b, i, j)[s].1
                < #[trigger] walk_pairs(a, b, i, j)[t].1,
    decreases a.len() - i + b.len() - j,
{
    let w = walk_pairs(a, b, i, j);
    if i < a.len() && j < b.len() && a[i] == b[j] {
        lemma_walk_pairs_shape(a, b, i + 1, j + 1);
        let r = walk_pairs(a, b, i + 1, j + 1);
        assert(w == seq![(i, j)] + r);
        assert forall|t: int| 0 <= t < w.len() implies (#[trigger] w[t]).0 == i + t && w[t].0
            < a.len() && j <= w[t].1 < b.len() by {
            if t > 0 {
                assert(w[t] == r[t - 1]);
            }
        }
        assert forall|s: int, t: int| 0 <= s < t < w.len() implies #[trigger] w[s].1
            < #[trigger] w[t].1 by {
            assert(w[t] == r[t - 1]);
            if s > 0 {
                assert(w[s] == r[s - 1]);
            }
        }
    } else if j < b.len() {
        lemma_walk_pairs_shape(a, b, i, j + 1);
        assert(w == walk_pairs(a, b, i, j + 1));
    } else if i < a.len() {
        lemma_walk_pairs_after_b(a, b, i, j);
    } else {
        assert(w.len() == 0);
    }
}

/// Once the second text is used up, the walk keeps no more pairs.
proof fn lemma_walk_pairs_after_b(a: Lines, b: Lines, i: int, j: int)
    requires
        j == b.len(),
    ensures
        walk_pairs(a, b, i, j).len() == 0,
    decreases a.len() - i,
{
    if 0 <= i < a.len() {
        lemma_walk_pairs_after_b(a, b, i + 1, j);
    }
}

/// Pairs whose first positions are `0, 1, ...` give the map from each
/// position to its second position.
proof fn lemma_pairs_map(ps: Seq<(int, int)>)
    requires
        forall|t: int| 0 <= t < ps.len() ==> (#[trigger] ps[t]).0 == t,
        forall|t: int| 0 <= t < ps.len() ==> 0 <= (#[trigger] ps[t]).1 <= usize::MAX,
        ps.len() <= usize::MAX,
    ensures
        forall|k: usize| #[trigger] pairs_map(ps).contains_key(k) <==> k < ps.len(),
        forall|k: usize| k < ps.len() ==> #[trigger] pairs_map(ps)[k] == ps[k as int].1,
    decreases ps.len(),
{
    if ps.len() > 0 {
        let q = ps.drop_last();
        assert forall|t: int| 0 <= t < q.len() implies (#[trigger] q[t]).0 == t by {
            assert(q[t] == ps[t]);
        }
        assert forall|t: int| 0 <= t < q.len() implies 0 <= (#[trigger] q[t]).1 <= usize::MAX by {
            assert(q[t] == ps[t]);
        }
        lemma_pairs_map(q);
        let n = ps.len() - 1;
        assert(ps[n].0 == n);
        assert(ps.last() == ps[n]);
        let x = ps.last().0 as usize;
        assert(x == n);
        assert(pairs_map(ps) == pairs_map(q).insert(x, ps.last().1 as usize));
        assert forall|k: usize| #[trigger] pairs_map(ps).contains_key(k) <==> k < ps.len() by {
            if k < q.len() {
                assert(pairs_map(q).contains_key(k));
            } else if k == x {
            } else {
                assert(!pairs_map(q).contains_key(k));
            }
        }
        assert forall|k: usize| k < ps.len() implies #[trigger] pairs_map(ps)[k] == ps[k as int].1 by {
            if k < q.len() {
                assert(q[k as int] == ps[k as int]);
                assert(k != x);
            } else {
                assert(k == x);
            }
        }
    }
}

/// A match set: its keys are the positions `0, 1, ...` of the original up to
/// some count, its values increase with the keys, and all lie inside the
/// texts.
pub open spec fn well_matched(m: Map<usize, usize>, n_o: int, n_f: int) -> bool {
    &&& forall|k: usize| #[trigger] m.contains_key(k) ==> k < n_o && m[k] < n_f
    &&& forall|k: usize, k2: usize|
        #![trigger m.contains_key(k), m.contains_key(k2)]
        m.contains_key(k2) && k <= k2 ==> m.contains_key(k)
    &&& forall|k: usize, k2: usize|
        #![trigger m[k], m[k2]]
        m.contains_key(k) && m.contains_key(k2) && k < k2 ==> m[k] < m[k2]
}

/// The match set of a version against the original is well matched.
pub proof fn lemma_match_map_well_matched(o: Lines, f: Lines)
    requires
        lines(o.flatten()).len() <= usize::MAX,
        lines(f.flatten()).len() <= usize::MAX,
    ensures
        well_matched(match_map(o, f), lines(o.flatten()).len() as int, lines(f.flatten()).len() as int),
{
    let a = lines(o.flatten());
    let b = lines(f.flatten());
    let ps = walk_pairs(a, b, 0, 0);
    lemma_walk_pairs_shape(a, b, 0, 0);
    assert forall|t: int| 0 <= t < ps.len() implies (#[trigger] ps[t]).0 == t by {}
    assert forall|t: int| 0 <= t < ps.len() implies 0 <= (#[trigger] ps[t]).1 <= usize::MAX by {}
    assert(ps.len() <= a.len()) by {
        if ps.len() > 0 {
            assert(ps[ps.len() - 1].0 == ps.len() - 1);
        }
    }
    lemma_pairs_map(ps);
    let m = match_map(o, f);
    assert forall|k: usize, k2: usize|
        m.contains_key(k) && m.contains_key(k2) && k < k2 implies #[trigger] m[k] < #[trigger] m[k2] by {
        assert(ps[k as int].1 < ps[k2 as int].1);
    }
}


// ---------------------------------------------------------------- the three-way walk

/// The three texts and the match sets of the two versions.
pub ghost struct Texts {
    pub o: Lines,
    pub a: Lines,
    pub b: Lines,
    pub match_a: Map<usize, usize>,
    pub match_b: Map<usize, usize>,
}

/// How far the walk has come in each text.
pub ghost struct Pos {
    pub lo: int,
    pub la: int,
    pub lb: int,
}

/// A chunk of the merged text.
pub ghost enum ChunkView {
    Clean(Lines),
    Conflict(Lines, Lines, Lines),
}

/// The texts of a merge: the versions' match sets against the original.
pub open spec fn texts_of(o: Lines, a: Lines, b: Lines) -> Texts {
    Texts { o, a, b, match_a: match_map(o, a), match_b: match_map(o, b) }
}

/// A position of the original.
pub open spec fn has_key(m: Map<usize, usize>, k: int) -> bool {
    0 <= k <= usize::MAX && m.contains_key(k as usize)
}

/// The matching position for a position of the original.
pub open spec fn value_at(m: Map<usize, usize>, k: int) -> int {
    m[k as usize] as int
}

/// `i` lines ahead, some text still has a line.
pub open spec fn in_bounds(t: Texts, p: Pos, i: int) -> bool {
    p.lo + i <= t.o.len() || p.la + i <= t.a.len() || p.lb + i <= t.b.len()
}

/// The match set takes the original `i` lines ahead to the version `i`
/// lines ahead.
pub open spec fn matches_at(m: Map<usize, usize>, lo: int, off: int, i: int) -> bool {
    has_key(m, lo + i) && value_at(m, lo + i) == off + i
}

/// A bound beyond which no text has lines.
pub open spec fn scan_bound(t: Texts) -> int {
    (t.o.len() + t.a.len() + t.b.len() + 2) as int
}

/// The first `i` from the given one at which the three texts stop
/// matching (or run out).
pub open spec fn mismatch_from(t: Texts, p: Pos, i: int) -> int
    decreases scan_bound(t) - i,
{
    if i >= scan_bound(t) {
        i
    } else if in_bounds(t, p, i) && matches_at(t.match_a, p.lo, p.la, i) && matches_at(
        t.match_b,
        p.lo,
        p.lb,
        i,
    ) {
        mismatch_from(t, p, i + 1)
    } else {
        i
    }
}

/// The first position of the original from `o` on that both versions
/// match, or one past the end.
pub open spec fn match_from(t: Texts, o: int) -> int
    decreases t.o.len() + 1 - o,
{
    if o > t.o.len() || (has_key(t.match_a, o) && has_key(t.match_b, o)) {
        o
    } else {
        match_from(t, o + 1)
    }
}

/// What the walk does next.
pub ghost enum Step {
    /// Emit the rest of the texts and stop.
    Final,
    /// Emit the lines before these one-based positions, and go on from
    /// there.
    Emit(int, int, int),
}

/// The next step from a position.
pub open spec fn next_step(t: Texts, p: Pos) -> Step {
    let i = mismatch_from(t, p, 1);
    if !in_bounds(t, p, i) {
        Step::Final
    } else if i == 1 {
        let o = match_from(t, p.lo + 1);
        if has_key(t.match_a, o) && has_key(t.match_b, o) {
            Step::Emit(o, value_at(t.match_a, o), value_at(t.match_b, o))
        } else {
            Step::Final
        }
    } else {
        Step::Emit(p.lo + i, p.la + i, p.lb + i)
    }
}

/// A chunk for lines of the three texts: the other side where one side kept
/// the original (or both sides agree), else a conflict.
pub open spec fn chunk_for(o: Lines, a: Lines, b: Lines) -> ChunkView {
    if a == o || a == b {
        ChunkView::Clean(b)
    } else if b == o {
        ChunkView::Clean(a)
    } else {
        ChunkView::Conflict(o, a, b)
    }
}

/// The chunk of the lines before the given positions.
pub open spec fn emit_view(t: Texts, p: Pos, o: int, a: int, b: int) -> ChunkView {
    chunk_for(
        t.o.subrange(p.lo, o - 1),
        t.a.subrange(p.la, a - 1),
        t.b.subrange(p.lb, b - 1),
    )
}

/// The chunk of the remaining lines.
pub open spec fn final_view(t: Texts, p: Pos) -> ChunkView {
    chunk_for(
        t.o.subrange(p.lo, t.o.len() as int),
        t.a.subrange(p.la, t.a.len() as int),
        t.b.subrange(p.lb, t.b.len() as int),
    )
}

/// The three texts are aligned one line ahead.
pub open spec fn aligned(t: Texts, p: Pos) -> bool {
    matches_at(t.match_a, p.lo, p.la, 1) && matches_at(t.match_b, p.lo, p.lb, 1)
}

/// What is left of the walk: two for each line of the original still ahead,
/// one more while the texts are not aligned.
pub open spec fn measure(t: Texts, p: Pos) -> nat {
    if 0 <= p.lo <= t.o.len() {
        (2 * (t.o.len() + 1 - p.lo) + if aligned(t, p) {
            0int
        } else {
            1int
        }) as nat
    } else {
        0
    }
}

/// The chunks that the walk emits from a position on.
pub open spec fn run(t: Texts, p: Pos) -> Seq<ChunkView>
    decreases measure(t, p),
{
    match next_step(t, p) {
        Step::Final => seq![final_view(t, p)],
        Step::Emit(o, a, b) => {
            let q = Pos { lo: o - 1, la: a - 1, lb: b - 1 };
            if measure(t, q) < measure(t, p) {
                seq![emit_view(t, p, o, a, b)] + run(t, q)
            } else {
                seq![]
            }
        },
    }
}

/// The start of the walk.
pub open spec fn start() -> Pos {
    Pos { lo: 0, la: 0, lb: 0 }
}

/// The texts of a merge as lists of lines whose match sets are well
/// matched, small enough for positions to be machine integers.
pub open spec fn texts_ok(t: Texts) -> bool {
    &&& 2 * (t.o.len() + t.a.len() + t.b.len()) + 4 <= usize::MAX
    &&& well_matched(t.match_a, t.o.len() as int, t.a.len() as int)
    &&& well_matched(t.match_b, t.o.len() as int, t.b.len() as int)
}

/// The positions the walk can be at: inside the texts, and behind the
/// next match of each version.
pub open spec fn pos_ok(t: Texts, p: Pos) -> bool {
    &&& 0 <= p.lo <= t.o.len()
    &&& 0 <= p.la <= t.a.len()
    &&& 0 <= p.lb <= t.b.len()
    &&& has_key(t.match_a, p.lo + 1) ==> p.la < value_at(t.match_a, p.lo + 1)
    &&& has_key(t.match_b, p.lo + 1) ==> p.lb < value_at(t.match_b, p.lo + 1)
}


/// The texts agree `i` lines ahead.
pub open spec fn agree_at(t: Texts, p: Pos, i: int) -> bool {
    in_bounds(t, p, i) && matches_at(t.match_a, p.lo, p.la, i) && matches_at(t.match_b, p.lo, p.lb, i)
}

proof fn lemma_mismatch_from(t: Texts, p: Pos, k: int)
    requires
        1 <= k <= scan_bound(t),
        0 <= p.lo && 0 <= p.la && 0 <= p.lb,
    ensures
        k <= mismatch_from(t, p, k) <= scan_bound(t),
        forall|j: int| k <= j < mismatch_from(t, p, k) ==> #[trigger] agree_at(t, p, j),
        !agree_at(t, p, mismatch_from(t, p, k)),
    decreases scan_bound(t) - k,
{
    if k < scan_bound(t) && agree_at(t, p, k) {
        lemma_mismatch_from(t, p, k + 1);
    } else if k >= scan_bound(t) {
        assert(!in_bounds(t, p, k));
    }
}

proof fn lemma_match_from(t: Texts, o: int)
    requires
        0 <= o,
    ensures
        o <= match_from(t, o),
        match_from(t, o) <= t.o.len() + 1 || match_from(t, o) == o,
        match_from(t, o) <= t.o.len() ==> has_key(t.match_a, match_from(t, o)) && has_key(
            t.match_b,
            match_from(t, o),
        ),
        forall|j: int|
            o <= j < match_from(t, o) ==> !(#[trigger] has_key(t.match_a, j) && has_key(
                t.match_b,
                j,
            )),
    decreases t.o.len() + 1 - o,
{
    if !(o > t.o.len() || (has_key(t.match_a, o) && has_key(t.match_b, o))) {
        lemma_match_from(t, o + 1);
    }
}

/// From a reachable position, each step stays inside the texts, reaches
/// another reachable position, and makes progress.
proof fn lemma_step(t: Texts, p: Pos)
    requires
        texts_ok(t),
        pos_ok(t, p),
    ensures
        match next_step(t, p) {
            Step::Final => true,
            Step::Emit(o, a, b) => {
                let q = Pos { lo: o - 1, la: a - 1, lb: b - 1 };
                &&& p.lo <= o - 1 <= t.o.len()
                &&& p.la <= a - 1 <= t.a.len()
                &&& p.lb <= b - 1 <= t.b.len()
                &&& pos_ok(t, q)
                &&& measure(t, q) < measure(t, p)
            },
        },
{
    let i = mismatch_from(t, p, 1);
    lemma_mismatch_from(t, p, 1);
    let ma = t.match_a;
    let mb = t.match_b;
    if in_bounds(t, p, i) {
        if i == 1 {
            let o = match_from(t, p.lo + 1);
            lemma_match_from(t, p.lo + 1);
            if has_key(ma, o) && has_key(mb, o) {
                if o > p.lo + 1 {
                    assert(!(has_key(ma, p.lo + 1) && has_key(mb, p.lo + 1)));
                    assert(ma.contains_key(o as usize) && (p.lo + 1) as usize <= o as usize);
                    assert(mb.contains_key(o as usize) && (p.lo + 1) as usize <= o as usize);
                    assert(ma.contains_key((p.lo + 1) as usize));
                    assert(mb.contains_key((p.lo + 1) as usize));
                    assert(false);
                }
                assert(o == p.lo + 1);
                let q = Pos { lo: o - 1, la: value_at(ma, o) - 1, lb: value_at(mb, o) - 1 };
                assert(ma.contains_key(o as usize));
                assert(mb.contains_key(o as usize));
                assert(!agree_at(t, p, 1));
                assert(aligned(t, q));
                assert(!aligned(t, p));
            }
        } else {
            assert(agree_at(t, p, i - 1));
            let k = p.lo + i - 1;
            assert(ma.contains_key(k as usize));
            assert(mb.contains_key(k as usize));
            let q = Pos { lo: k, la: p.la + i - 1, lb: p.lb + i - 1 };
            if has_key(ma, k + 1) {
                assert(ma[k as usize] < ma[(k + 1) as usize]);
            }
            if has_key(mb, k + 1) {
                assert(mb[k as usize] < mb[(k + 1) as usize]);
            }
            assert(pos_ok(t, q));
        }
    }
}


// ---------------------------------------------------------------- executable

/// The lines of a text, each with its `\n` if it has one.
pub fn split_lines_with_endings(s: &str) -> (r: Vec<String>)
    ensures
        strings_view(r@) == lines_with_endings(s@),
{
    let c = chars_of(s);
    let mut r: Vec<String> = Vec::new();
    let mut start: usize = 0;
    assert(c@.subrange(0, c.len() as int) =~= c@);
    assert(strings_view(r@) =~= Seq::<Seq<char>>::empty());
    assert(Seq::<Seq<char>>::empty() + lines_with_endings(c@) =~= lines_with_endings(c@));
    while start < c.len()
        invariant
            start <= c.len(),
            strings_view(r@) + lines_with_endings(c@.subrange(start as int, c.len() as int))
                == lines_with_endings(c@),
        decreases c.len() - start,
    {
        let rest = slice_chars(c.as_slice(), start, c.len());
        let ghost rv = rest@;
        proof {
            crate::text::lemma_find_char_bound(rv, '\n');
        }
        let ghost r0 = strings_view(r@);
        match find_char_in(rest.as_slice(), '\n') {
            Some(k) => {
                let line = slice_chars(rest.as_slice(), 0, k + 1);
                r.push(string_from_chars(line.as_slice()));
                proof {
                    assert(strings_view(r@) =~= r0.push(line@));
                    assert(rv.subrange(k + 1 as int, rv.len() as int) =~= c@.subrange(
                        start + k + 1,
                        c.len() as int,
                    ));
                    assert(lines_with_endings(rv) == seq![line@] + lines_with_endings(
                        c@.subrange(start + k + 1, c.len() as int),
                    ));
                    assert(r0.push(line@) + lines_with_endings(
                        c@.subrange(start + k + 1, c.len() as int),
                    ) =~= r0 + lines_with_endings(rv));
                }
                start = start + k + 1;
            },
            None => {
                r.push(string_from_chars(rest.as_slice()));
                proof {
                    assert(strings_view(r@) =~= r0.push(rv));
                    assert(lines_with_endings(rv) == seq![rv]);
                    assert(c@.subrange(c.len() as int, c.len() as int) =~= Seq::<char>::empty());
                    assert(strings_view(r@) + lines_with_endings(Seq::<char>::empty()) =~= r0
                        + lines_with_endings(rv));
                }
                start = c.len();
            },
        }
    }
    proof {
        assert(c@.subrange(start as int, c.len() as int) =~= Seq::<char>::empty());
        assert(strings_view(r@) + Seq::<Seq<char>>::empty() =~= strings_view(r@));
    }
    r
}

/// The line walk between two texts, split as `str::lines` splits them.
fn diff(a: &str, b: &str) -> (r: Vec<Edit>)
    ensures
        edits_view(r@) == walk(lines(a@), lines(b@), 0, 0),
{
    let ac = chars_of(a);
    let bc = chars_of(b);
    let a_lines = lines_of(ac.as_slice());
    let b_lines = lines_of(bc.as_slice());
    let ghost al = strings_view(a_lines@);
    let ghost bl = strings_view(b_lines@);
    let mut result: Vec<Edit> = Vec::new();
    let mut i: usize = 0;
    let mut j: usize = 0;
    while i < a_lines.len() || j < b_lines.len()
        invariant
            al == strings_view(a_lines@),
            bl == strings_view(b_lines@),
            al == lines(a@),
            bl == lines(b@),
            i <= a_lines.len(),
            j <= b_lines.len(),
            edits_view(result@) + walk(al, bl, i as int, j as int) == walk(al, bl, 0, 0),
        decreases a_lines.len() - i + b_lines.len() - j,
    {
        let ghost r0 = edits_view(result@);
        if i < a_lines.len() && j < b_lines.len() && str_eq(
            a_lines[i].as_str(),
            b_lines[j].as_str(),
        ) {
            let e = Edit {
                kind: EditType::Eql,
                a_line: Some(LineInfo { number: i, content: clone_string(&a_lines[i]) }),
                b_line: Some(LineInfo { number: j, content: clone_string(&b_lines[j]) }),
            };
            result.push(e);
            proof {
                assert(edits_view(result@) =~= r0.push(edit_view(e)));
                assert(r0.push(edit_view(e)) + walk(al, bl, i + 1, j + 1) =~= r0 + walk(
                    al,
                    bl,
                    i as int,
                    j as int,
                ));
            }
            i += 1;
            j += 1;
        } else if j < b_lines.len() {
            let e = Edit {
                kind: EditType::Add,
                a_line: None,
                b_line: Some(LineInfo { number: j, content: clone_string(&b_lines[j]) }),
            };
            result.push(e);
            proof {
                assert(edits_view(result@) =~= r0.push(edit_view(e)));
                assert(r0.push(edit_view(e)) + walk(al, bl, i as int, j + 1) =~= r0 + walk(
                    al,
                    bl,
                    i as int,
                    j as int,
                ));
            }
            j += 1;
        } else {
            let e = Edit {
                kind: EditType::Del,
                a_line: Some(LineInfo { number: i, content: clone_string(&a_lines[i]) }),
                b_line: None,
            };
            result.push(e);
            proof {
                assert(edits_view(result@) =~= r0.push(edit_view(e)));
                assert(r0.push(edit_view(e)) + walk(al, bl, i + 1, j as int) =~= r0 + walk(
                    al,
                    bl,
                    i as int,
                    j as int,
                ));
            }
            i += 1;
        }
    }
    proof {
        assert(walk(al, bl, i as int, j as int) =~= Seq::<EditView>::empty());
        assert(edits_view(result@) =~= edits_view(result@) + Seq::<EditView>::empty());
    }
    result
}


/// A chunk of a merged text.
#[derive(Debug, Clone)]
pub enum Chunk {
    /// Lines on which the versions do not conflict.
    Clean { lines: Vec<String> },
    /// Lines that both versions changed, each in its own way.
    Conflict { o_lines: Vec<String>, a_lines: Vec<String>, b_lines: Vec<String> },
}

impl View for Chunk {
    type V = ChunkView;

    open spec fn view(&self) -> ChunkView {
        match self {
            Chunk::Clean { lines } => ChunkView::Clean(strings_view(lines@)),
            Chunk::Conflict { o_lines, a_lines, b_lines } => ChunkView::Conflict(
                strings_view(o_lines@),
                strings_view(a_lines@),
                strings_view(b_lines@),
            ),
        }
    }
}

/// The view of a list of chunks.
pub open spec fn chunks_view(v: Seq<Chunk>) -> Seq<ChunkView> {
    v.map_values(|c: Chunk| c@)
}

/// An optional name as characters.
pub open spec fn name_view(n: Option<&str>) -> Option<Seq<char>> {
    match n {
        Some(s) => Some(s@),
        None => None,
    }
}

/// A conflict marker line: seven marker characters, a space and the name if
/// there is one, and a line end.
pub open spec fn marker(m: Seq<char>, name: Option<Seq<char>>) -> Seq<char> {
    m + match name {
        Some(n) => " "@ + n,
        None => Seq::empty(),
    } + "\n"@
}

/// The text of a chunk: its lines, or for a conflict the two versions'
/// lines between markers that name them.
pub open spec fn chunk_text(c: ChunkView, a_name: Option<Seq<char>>, b_name: Option<Seq<char>>) -> Seq<
    char,
> {
    match c {
        ChunkView::Clean(ls) => ls.flatten(),
        ChunkView::Conflict(_, a, b) => marker("<<<<<<<"@, a_name) + a.flatten() + marker(
            "======="@,
            None,
        ) + b.flatten() + marker(">>>>>>>"@, b_name),
    }
}

/// The text of the chunks one after another.
pub open spec fn merged_text(cs: Seq<ChunkView>, a_name: Option<Seq<char>>, b_name: Option<Seq<char>>) -> Seq<
    char,
>
    decreases cs.len(),
{
    if cs.len() == 0 {
        Seq::empty()
    } else {
        merged_text(cs.drop_last(), a_name, b_name) + chunk_text(cs.last(), a_name, b_name)
    }
}

/// Appends a marker line.
fn push_marker(text: &mut String, m: &str, name: Option<&str>)
    ensures
        final(text)@ == old(text)@ + marker(m@, name_view(name)),
{
    push_str(text, m);
    match name {
        Some(n) => {
            push_str(text, " ");
            push_str(text, n);
        },
        None => {},
    }
    push_str(text, "\n");
    proof {
        match name {
            Some(n) => {
                assert(marker(m@, name_view(name)) =~= m@ + (" "@ + n@) + "\n"@);
            },
            None => {
                assert(marker(m@, name_view(name)) =~= m@ + Seq::<char>::empty() + "\n"@);
            },
        }
    }
}

impl Chunk {
    /// The text of the chunk, conflicts marked with the versions' names.
    pub fn to_string(&self, a_name: Option<&str>, b_name: Option<&str>) -> (r: String)
        ensures
            r@ == chunk_text(self@, name_view(a_name), name_view(b_name)),
    {
        match self {
            Chunk::Clean { lines } => join_strings(lines.as_slice()),
            Chunk::Conflict { o_lines: _, a_lines, b_lines } => {
                let mut text = String::new();
                push_marker(&mut text, "<<<<<<<", a_name);
                let a = join_strings(a_lines.as_slice());
                push_str(&mut text, a.as_str());
                push_marker(&mut text, "=======", None);
                let b = join_strings(b_lines.as_slice());
                push_str(&mut text, b.as_str());
                push_marker(&mut text, ">>>>>>>", b_name);
                proof {
                    assert(text@ =~= chunk_text(self@, name_view(a_name), name_view(b_name)));
                }
                text
            },
        }
    }
}

/// The result of a merge: its chunks in order.
#[derive(Debug)]
pub struct MergeResult {
    chunks: Vec<Chunk>,
}

impl View for MergeResult {
    type V = Seq<ChunkView>;

    closed spec fn view(&self) -> Seq<ChunkView> {
        chunks_view(self.chunks@)
    }
}

impl MergeResult {
    /// A result made of the given chunks.
    pub fn new(chunks: Vec<Chunk>) -> (r: Self)
        ensures
            r@ == chunks_view(chunks@),
    {
        MergeResult { chunks }
    }

    /// Whether no chunk is a conflict.
    pub fn is_clean(&self) -> (r: bool)
        ensures
            r == forall|k: int| 0 <= k < self@.len() ==> #[trigger] self@[k] is Clean,
    {
        let mut k: usize = 0;
        while k < self.chunks.len()
            invariant
                k <= self.chunks.len(),
                forall|j: int| 0 <= j < k ==> #[trigger] self@[j] is Clean,
            decreases self.chunks.len() - k,
        {
            match &self.chunks[k] {
                Chunk::Conflict { .. } => {
                    assert(!(self@[k as int] is Clean));
                    return false;
                },
                Chunk::Clean { .. } => {},
            }
            k += 1;
        }
        true
    }

    /// The merged text, conflicts marked with the versions' names.
    pub fn to_string(&self, a_name: Option<&str>, b_name: Option<&str>) -> (r: String)
        ensures
            r@ == merged_text(self@, name_view(a_name), name_view(b_name)),
    {
        let mut text = String::new();
        let mut k: usize = 0;
        while k < self.chunks.len()
            invariant
                k <= self.chunks.len(),
                text@ == merged_text(self@.take(k as int), name_view(a_name), name_view(b_name)),
            decreases self.chunks.len() - k,
        {
            let c = self.chunks[k].to_string(a_name, b_name);
            push_str(&mut text, c.as_str());
            proof {
                assert(self@.take(k + 1).drop_last() =~= self@.take(k as int));
            }
            k += 1;
        }
        assert(self@.take(self.chunks.len() as int) =~= self@);
        text
    }
}


/// The state of a three-way merge.
#[derive(Debug)]
pub struct Diff3 {
    o: Vec<String>,
    a: Vec<String>,
    b: Vec<String>,
    chunks: Vec<Chunk>,
    line_o: usize,
    line_a: usize,
    line_b: usize,
    match_a: HashMap<usize, usize>,
    match_b: HashMap<usize, usize>,
}

/// Three lists of lines that a merge can take: each is the lines with
/// endings of its joined text, and together they are small enough for
/// positions to be machine integers.
pub open spec fn mergeable(o: Lines, a: Lines, b: Lines) -> bool {
    &&& is_line_list(o)
    &&& is_line_list(a)
    &&& is_line_list(b)
    &&& 2 * (o.len() + a.len() + b.len()) + 4 <= usize::MAX
}

impl Diff3 {
    /// The texts and match sets of the merge.
    pub closed spec fn texts(&self) -> Texts {
        Texts {
            o: strings_view(self.o@),
            a: strings_view(self.a@),
            b: strings_view(self.b@),
            match_a: self.match_a@,
            match_b: self.match_b@,
        }
    }

    /// How far the merge has come.
    pub closed spec fn pos(&self) -> Pos {
        Pos { lo: self.line_o as int, la: self.line_a as int, lb: self.line_b as int }
    }

    /// The original and the two versions.
    pub closed spec fn inputs(&self) -> (Lines, Lines, Lines) {
        (strings_view(self.o@), strings_view(self.a@), strings_view(self.b@))
    }

    /// The same original and versions as another merge.
    pub closed spec fn same_inputs(&self, other: &Self) -> bool {
        self.o@ == other.o@ && self.a@ == other.a@ && self.b@ == other.b@
    }

    /// A merge of the three lists of lines, not started.
    pub fn new(o: Vec<String>, a: Vec<String>, b: Vec<String>) -> (r: Self)
        ensures
            r.inputs() == (strings_view(o@), strings_view(a@), strings_view(b@)),
    {
        Diff3 {
            o,
            a,
            b,
            chunks: Vec::new(),
            line_o: 0,
            line_a: 0,
            line_b: 0,
            match_a: HashMap::new(),
            match_b: HashMap::new(),
        }
    }

    /// Merges the three texts: the chunks that the walk emits from the start.
    pub fn merge(self) -> (r: Result<MergeResult, Error>)
        requires
            mergeable(self.inputs().0, self.inputs().1, self.inputs().2),
        ensures
            r matches Ok(m) && m@ == run(
                texts_of(self.inputs().0, self.inputs().1, self.inputs().2),
                start(),
            ),
    {
        let mut d = self;
        d.setup();
        d.generate_chunks();
        Ok(MergeResult::new(d.chunks))
    }

    /// Starts the walk: no chunks, all positions at the start, and the
    /// versions' match sets against the original.
    fn setup(&mut self)
        requires
            mergeable(old(self).inputs().0, old(self).inputs().1, old(self).inputs().2),
        ensures
            final(self).inputs() == old(self).inputs(),
            final(self).texts() == texts_of(
                old(self).inputs().0,
                old(self).inputs().1,
                old(self).inputs().2,
            ),
            final(self).pos() == start(),
            final(self).chunks@.len() == 0,
            texts_ok(final(self).texts()),
            pos_ok(final(self).texts(), start()),
    {
        self.chunks = Vec::new();
        self.line_o = 0;
        self.line_a = 0;
        self.line_b = 0;
        proof {
            lemma_line_list_count(strings_view(self.o@));
        }
        let ma = self.match_set(&self.a);
        let mb = self.match_set(&self.b);
        self.match_a = ma;
        self.match_b = mb;
        proof {
            let o = strings_view(self.o@);
            lemma_line_list_count(o);
            lemma_line_list_count(strings_view(self.a@));
            lemma_line_list_count(strings_view(self.b@));
            lemma_match_map_well_matched(o, strings_view(self.a@));
            lemma_match_map_well_matched(o, strings_view(self.b@));
            let t = self.texts();
            if has_key(t.match_a, 1) {
                assert(t.match_a.contains_key(0usize));
                assert(t.match_a[0usize] < t.match_a[1usize]);
            }
            if has_key(t.match_b, 1) {
                assert(t.match_b.contains_key(0usize));
                assert(t.match_b[0usize] < t.match_b[1usize]);
            }
        }
    }

    /// The match set of a version against the original.
    fn match_set(&self, file: &Vec<String>) -> (r: HashMap<usize, usize>)
        requires
            lines(strings_view(self.o@).flatten()).len() <= usize::MAX,
        ensures
            r@ == match_map(strings_view(self.o@), strings_view(file@)),
    {
        let o_content = join_strings(self.o.as_slice());
        let file_content = join_strings(file.as_slice());
        let edits = diff(o_content.as_str(), file_content.as_str());
        let ghost ev = edits_view(edits@);
        let ghost la = lines(o_content@);
        let ghost lb = lines(file_content@);
        proof {
            lemma_walk_pairs(la, lb, 0, 0);
            lemma_walk_pairs_shape(la, lb, 0, 0);
        }
        let mut matches: HashMap<usize, usize> = HashMap::new();
        let mut k: usize = 0;
        assert(ev.take(0) =~= Seq::<EditView>::empty());
        while k < edits.len()
            invariant
                k <= edits.len(),
                ev == edits_view(edits@),
                ev == walk(la, lb, 0, 0),
                eql_pairs(ev) == walk_pairs(la, lb, 0, 0),
                la.len() <= usize::MAX,
                forall|t: int|
                    0 <= t < walk_pairs(la, lb, 0, 0).len() ==> (#[trigger] walk_pairs(
                        la,
                        lb,
                        0,
                        0,
                    )[t]).0 == t && walk_pairs(la, lb, 0, 0)[t].0 < la.len() && 0 <= walk_pairs(
                        la,
                        lb,
                        0,
                        0,
                    )[t].1 < lb.len(),
                matches@ == pairs_map(eql_pairs(ev.take(k as int))),
            decreases edits.len() - k,
        {
            let ghost before = ev.take(k as int);
            proof {
                assert(ev.take(k + 1) =~= before.push(ev[k as int]));
                assert(ev.take(k + 1).drop_last() =~= before);
            }
            match edits[k].kind {
                EditType::Eql => {
                    match (&edits[k].a_line, &edits[k].b_line) {
                        (Some(a_line), Some(b_line)) => {
                            proof {
                                assert(ev[k as int].kind == kind_eql());
                                assert(ev[k as int].a_line == Some(
                                    (a_line.number as int, a_line.content@),
                                ));
                                assert(ev[k as int].b_line == Some(
                                    (b_line.number as int, b_line.content@),
                                ));
                                assert(eql_pairs(ev.take(k + 1)) == eql_pairs(before).push(
                                    (a_line.number as int, b_line.number as int),
                                ));
                                lemma_eql_pairs_concat(ev.take(k + 1), ev.skip(k + 1));
                                assert(ev.take(k + 1) + ev.skip(k + 1) =~= ev);
                                let ps = eql_pairs(ev.take(k + 1));
                                let n = ps.len() - 1;
                                assert(ps[n] == walk_pairs(la, lb, 0, 0)[n]);
                            }
                            let ghost m0 = matches@;
                            matches.insert(a_line.number, b_line.number);
                            assert(matches@ == m0.insert(a_line.number, b_line.number));
                            assert(eql_pairs(before).push(
                                (a_line.number as int, b_line.number as int),
                            ).drop_last() =~= eql_pairs(before));
                            assert(pairs_map(eql_pairs(ev.take(k + 1))) == pairs_map(
                                eql_pairs(before),
                            ).insert(a_line.number, b_line.number));
                        },
                        _ => {
                            assert(eql_pairs(ev.take(k + 1)) == eql_pairs(before));
                        },
                    }
                },
                _ => {
                    assert(ev[k as int].kind != kind_eql());
                    assert(eql_pairs(ev.take(k + 1)) == eql_pairs(before));
                },
            }
            k += 1;
        }
        assert(ev.take(edits.len() as int) =~= ev);
        matches
    }
}


impl Diff3 {
    /// Whether some text still has a line `i` lines ahead.
    fn in_bounds(&self, i: usize) -> (r: bool)
        requires
            texts_ok(self.texts()),
            pos_ok(self.texts(), self.pos()),
            i < scan_bound(self.texts()),
        ensures
            r == in_bounds(self.texts(), self.pos(), i as int),
    {
        self.line_o + i <= self.o.len() || self.line_a + i <= self.a.len() || self.line_b + i
            <= self.b.len()
    }

    /// Whether the match set takes the original `i` lines ahead to the
    /// version `i` lines ahead of `offset`.
    fn matches(&self, matches: &HashMap<usize, usize>, offset: usize, i: usize) -> (r: bool)
        requires
            self.line_o + i <= usize::MAX,
            offset + i <= usize::MAX,
        ensures
            r == matches_at(matches@, self.line_o as int, offset as int, i as int),
    {
        match matches.get(&(self.line_o + i)) {
            Some(v) => *v == offset + i,
            None => false,
        }
    }

    /// How many lines ahead the texts first stop agreeing, if some text
    /// still has a line there.
    fn find_next_mismatch(&self) -> (r: Option<usize>)
        requires
            texts_ok(self.texts()),
            pos_ok(self.texts(), self.pos()),
        ensures
            match r {
                Some(i) => i == mismatch_from(self.texts(), self.pos(), 1) && in_bounds(
                    self.texts(),
                    self.pos(),
                    i as int,
                ),
                None => !in_bounds(self.texts(), self.pos(), mismatch_from(self.texts(), self.pos(), 1)),
            },
    {
        let ghost t = self.texts();
        let ghost p = self.pos();
        let mut i: usize = 1;
        while self.in_bounds(i) && self.matches(&self.match_a, self.line_a, i) && self.matches(
            &self.match_b,
            self.line_b,
            i,
        )
            invariant
                t == self.texts(),
                p == self.pos(),
                texts_ok(t),
                pos_ok(t, p),
                1 <= i < scan_bound(t),
                mismatch_from(t, p, i as int) == mismatch_from(t, p, 1),
            decreases scan_bound(t) - i,
        {
            assert(agree_at(t, p, i as int));
            i += 1;
        }
        if self.in_bounds(i) {
            Some(i)
        } else {
            None
        }
    }

    /// The next line of the original, one-based, that both versions match,
    /// with the lines it matches.
    fn find_next_match(&self) -> (r: (usize, Option<usize>, Option<usize>))
        requires
            texts_ok(self.texts()),
            pos_ok(self.texts(), self.pos()),
        ensures
            r.0 == match_from(self.texts(), self.line_o + 1),
            r.1 == (if has_key(self.texts().match_a, r.0 as int) {
                Some(self.texts().match_a[r.0])
            } else {
                None::<usize>
            }),
            r.2 == (if has_key(self.texts().match_b, r.0 as int) {
                Some(self.texts().match_b[r.0])
            } else {
                None::<usize>
            }),
    {
        let ghost t = self.texts();
        let mut o = self.line_o + 1;
        while o <= self.o.len() && !(self.match_a.contains_key(&o) && self.match_b.contains_key(&o))
            invariant
                t == self.texts(),
                texts_ok(t),
                pos_ok(t, self.pos()),
                self.line_o + 1 <= o <= self.o.len() + 1,
                match_from(t, o as int) == match_from(t, self.line_o + 1),
            decreases self.o.len() + 1 - o,
        {
            o += 1;
        }
        let a = match self.match_a.get(&o) {
            Some(v) => Some(*v),
            None => None,
        };
        let b = match self.match_b.get(&o) {
            Some(v) => Some(*v),
            None => None,
        };
        (o, a, b)
    }

    /// Adds the chunk for the given lines of the three texts.
    fn write_chunk(&mut self, o: &[String], a: &[String], b: &[String])
        ensures
            final(self).same_inputs(old(self)),
            final(self).texts() == old(self).texts(),
            final(self).pos() == old(self).pos(),
            chunks_view(final(self).chunks@) == chunks_view(old(self).chunks@).push(
                chunk_for(strings_view(o@), strings_view(a@), strings_view(b@)),
            ),
    {
        let ghost c0 = chunks_view(self.chunks@);
        let c = if strings_eq(a, o) || strings_eq(a, b) {
            Chunk::Clean { lines: strings_range(b, 0, b.len()) }
        } else if strings_eq(b, o) {
            Chunk::Clean { lines: strings_range(a, 0, a.len()) }
        } else {
            Chunk::Conflict {
                o_lines: strings_range(o, 0, o.len()),
                a_lines: strings_range(a, 0, a.len()),
                b_lines: strings_range(b, 0, b.len()),
            }
        };
        proof {
            assert(strings_view(a@).subrange(0, a@.len() as int) =~= strings_view(a@));
            assert(strings_view(b@).subrange(0, b@.len() as int) =~= strings_view(b@));
            assert(strings_view(o@).subrange(0, o@.len() as int) =~= strings_view(o@));
        }
        self.chunks.push(c);
        assert(chunks_view(self.chunks@) =~= c0.push(c@));
    }

    /// Adds the chunk of the lines before the given one-based positions and
    /// moves there.
    fn emit_chunk(&mut self, o: usize, a: usize, b: usize)
        requires
            old(self).line_o + 1 <= o <= old(self).o.len() + 1,
            old(self).line_a + 1 <= a <= old(self).a.len() + 1,
            old(self).line_b + 1 <= b <= old(self).b.len() + 1,
        ensures
            final(self).same_inputs(old(self)),
            final(self).texts() == old(self).texts(),
            final(self).pos() == (Pos { lo: o - 1, la: a - 1, lb: b - 1 }),
            chunks_view(final(self).chunks@) == chunks_view(old(self).chunks@).push(
                emit_view(old(self).texts(), old(self).pos(), o as int, a as int, b as int),
            ),
    {
        let o_lines = strings_range(self.o.as_slice(), self.line_o, o - 1);
        let a_lines = strings_range(self.a.as_slice(), self.line_a, a - 1);
        let b_lines = strings_range(self.b.as_slice(), self.line_b, b - 1);
        self.write_chunk(o_lines.as_slice(), a_lines.as_slice(), b_lines.as_slice());
        self.line_o = o - 1;
        self.line_a = a - 1;
        self.line_b = b - 1;
    }

    /// Adds the chunk of all remaining lines.
    fn emit_final_chunk(&mut self)
        requires
            pos_ok(old(self).texts(), old(self).pos()),
        ensures
            final(self).same_inputs(old(self)),
            final(self).texts() == old(self).texts(),
            chunks_view(final(self).chunks@) == chunks_view(old(self).chunks@).push(
                final_view(old(self).texts(), old(self).pos()),
            ),
    {
        let o_lines = strings_range(self.o.as_slice(), self.line_o, self.o.len());
        let a_lines = strings_range(self.a.as_slice(), self.line_a, self.a.len());
        let b_lines = strings_range(self.b.as_slice(), self.line_b, self.b.len());
        self.write_chunk(o_lines.as_slice(), a_lines.as_slice(), b_lines.as_slice());
    }

    /// Walks the three texts from the current position to the end, adding
    /// the chunks of the walk.
    fn generate_chunks(&mut self)
        requires
            texts_ok(old(self).texts()),
            pos_ok(old(self).texts(), old(self).pos()),
        ensures
            final(self).same_inputs(old(self)),
            chunks_view(final(self).chunks@) == chunks_view(old(self).chunks@) + run(
                old(self).texts(),
                old(self).pos(),
            ),
    {
        let ghost t = old(self).texts();
        let ghost goal = chunks_view(old(self).chunks@) + run(t, old(self).pos());
        loop
            invariant
                t == old(self).texts(),
                goal == chunks_view(old(self).chunks@) + run(t, old(self).pos()),
                self.texts() == t,
                self.same_inputs(old(self)),
                texts_ok(t),
                pos_ok(t, self.pos()),
                chunks_view(self.chunks@) + run(t, self.pos()) == goal,
            decreases measure(t, self.pos()),
        {
            let ghost p = self.pos();
            let ghost c0 = chunks_view(self.chunks@);
            proof {
                lemma_step(t, p);
            }
            let i = self.find_next_mismatch();
            match i {
                Some(i) => {
                    if i == 1 {
                        let (o, a, b) = self.find_next_match();
                        match (a, b) {
                            (Some(a), Some(b)) => {
                                self.emit_chunk(o, a, b);
                                proof {
                                    assert(c0.push(emit_view(t, p, o as int, a as int, b as int))
                                        + run(t, self.pos()) =~= c0 + run(t, p));
                                }
                            },
                            _ => {
                                self.emit_final_chunk();
                                proof {
                                    assert(c0.push(final_view(t, p)) =~= c0 + run(t, p));
                                }
                                return;
                            },
                        }
                    } else {
                        let lo = self.line_o + i;
                        let la = self.line_a + i;
                        let lb = self.line_b + i;
                        self.emit_chunk(lo, la, lb);
                        proof {
                            assert(c0.push(emit_view(t, p, lo as int, la as int, lb as int)) + run(
                                t,
                                self.pos(),
                            ) =~= c0 + run(t, p));
                        }
                    }
                },
                None => {
                    self.emit_final_chunk();
                    proof {
                        assert(c0.push(final_view(t, p)) =~= c0 + run(t, p));
                    }
                    return;
                },
            }
        }
    }
}

/// Merges two changed versions `a` and `b` of an original text `o`, line by
/// line: the chunks that the walk over their lines with endings emits.
pub fn merge(o: &str, a: &str, b: &str) -> (r: Result<MergeResult, Error>)
    requires
        2 * (lines_with_endings(o@).len() + lines_with_endings(a@).len() + lines_with_endings(
            b@,
        ).len()) + 4 <= usize::MAX,
    ensures
        r matches Ok(m) && m@ == run(
            texts_of(lines_with_endings(o@), lines_with_endings(a@), lines_with_endings(b@)),
            start(),
        ),
{
    let ov = split_lines_with_endings(o);
    let av = split_lines_with_endings(a);
    let bv = split_lines_with_endings(b);
    proof {
        lemma_join_lines_with_endings(o@);
        lemma_join_lines_with_endings(a@);
        lemma_join_lines_with_endings(b@);
    }
    let diff3 = Diff3::new(ov, av, bv);
    diff3.merge()
}


// ---------------------------------------------------------------- laws

/// Whether every chunk is clean.
pub open spec fn all_clean(cs: Seq<ChunkView>) -> bool {
    forall|k: int| 0 <= k < cs.len() ==> #[trigger] cs[k] is Clean
}

/// The lines of clean chunks one after another.
pub open spec fn clean_join(cs: Seq<ChunkView>) -> Lines
    decreases cs.len(),
{
    if cs.len() == 0 {
        Seq::empty()
    } else {
        clean_join(cs.drop_last()) + match cs.last() {
            ChunkView::Clean(ls) => ls,
            ChunkView::Conflict(_, _, _) => Seq::empty(),
        }
    }
}

proof fn lemma_clean_join_concat(x: Seq<ChunkView>, y: Seq<ChunkView>)
    ensures
        clean_join(x + y) == clean_join(x) + clean_join(y),
    decreases y.len(),
{
    if y.len() == 0 {
        assert(x + y =~= x);
        assert(clean_join(x) + clean_join(y) =~= clean_join(x));
    } else {
        lemma_clean_join_concat(x, y.drop_last());
        assert((x + y).drop_last() =~= x + y.drop_last());
        assert(clean_join(x + y) =~= clean_join(x) + clean_join(y));
    }
}

proof fn lemma_merged_text_clean(cs: Seq<ChunkView>, a_name: Option<Seq<char>>, b_name: Option<Seq<char>>)
    requires
        all_clean(cs),
    ensures
        merged_text(cs, a_name, b_name) == clean_join(cs).flatten(),
    decreases cs.len(),
{
    if cs.len() > 0 {
        let q = cs.drop_last();
        assert forall|k: int| 0 <= k < q.len() implies #[trigger] q[k] is Clean by {
            assert(q[k] == cs[k]);
        }
        lemma_merged_text_clean(q, a_name, b_name);
        assert(cs[cs.len() - 1] is Clean);
        if let ChunkView::Clean(ls) = cs.last() {
            vstd::seq_lib::lemma_flatten_concat(clean_join(q), ls);
        }
    }
}

/// The walk of a text against itself keeps every line with itself.
proof fn lemma_walk_pairs_same(l: Lines, i: int)
    requires
        0 <= i <= l.len(),
    ensures
        walk_pairs(l, l, i, i).len() == l.len() - i,
        forall|t: int|
            0 <= t < l.len() - i ==> #[trigger] walk_pairs(l, l, i, i)[t] == (i + t, i + t),
    decreases l.len() - i,
{
    if i < l.len() {
        lemma_walk_pairs_same(l, i + 1);
        let r = walk_pairs(l, l, i + 1, i + 1);
        assert(walk_pairs(l, l, i, i) == seq![(i, i)] + r);
        assert forall|t: int| 0 <= t < l.len() - i implies #[trigger] walk_pairs(l, l, i, i)[t] == (
            i + t,
            i + t,
        ) by {
            if t > 0 {
                assert(walk_pairs(l, l, i, i)[t] == r[t - 1]);
            }
        }
    }
}

/// The match set of a list of lines against itself takes each line to
/// itself.
proof fn lemma_match_map_same(o: Lines)
    requires
        is_line_list(o),
        o.len() <= usize::MAX,
    ensures
        forall|k: int| 0 <= k ==> (#[trigger] has_key(match_map(o, o), k) <==> k < o.len()),
        forall|k: int| 0 <= k < o.len() ==> #[trigger] value_at(match_map(o, o), k) == k,
{
    let l = lines(o.flatten());
    lemma_line_list_count(o);
    lemma_walk_pairs_same(l, 0);
    let ps = walk_pairs(l, l, 0, 0);
    assert forall|t: int| 0 <= t < ps.len() implies (#[trigger] ps[t]).0 == t by {}
    assert forall|t: int| 0 <= t < ps.len() implies 0 <= (#[trigger] ps[t]).1 <= usize::MAX by {}
    lemma_pairs_map(ps);
    assert forall|k: int| 0 <= k < o.len() implies #[trigger] value_at(match_map(o, o), k) == k by {
        assert(ps[k] == (k, k));
    }
}

/// Where one version is the original, every chunk from an aligned position
/// is clean and holds the lines of the other version, which follow one
/// another to its end.
proof fn lemma_run_one_side_unchanged(t: Texts, p: Pos, ours_unchanged: bool)
    requires
        texts_ok(t),
        pos_ok(t, p),
        ours_unchanged ==> t.a == t.o && p.la == p.lo,
        !ours_unchanged ==> t.b == t.o && p.lb == p.lo,
        ours_unchanged ==> forall|k: int| 0 <= k ==> (#[trigger] has_key(t.match_a, k) <==> k < t.o.len()),
        ours_unchanged ==> forall|k: int| 0 <= k < t.o.len() ==> #[trigger] value_at(t.match_a, k) == k,
        !ours_unchanged ==> forall|k: int| 0 <= k ==> (#[trigger] has_key(t.match_b, k) <==> k < t.o.len()),
        !ours_unchanged ==> forall|k: int| 0 <= k < t.o.len() ==> #[trigger] value_at(t.match_b, k) == k,
    ensures
        all_clean(run(t, p)),
        ours_unchanged ==> clean_join(run(t, p)) == t.b.subrange(p.lb, t.b.len() as int),
        !ours_unchanged ==> clean_join(run(t, p)) == t.a.subrange(p.la, t.a.len() as int),
    decreases measure(t, p),
{
    lemma_step(t, p);
    let i = mismatch_from(t, p, 1);
    lemma_mismatch_from(t, p, 1);
    match next_step(t, p) {
        Step::Final => {
            let c = final_view(t, p);
            assert(run(t, p) == seq![c]);
            assert(seq![c].drop_last() =~= Seq::<ChunkView>::empty());
            assert(clean_join(Seq::<ChunkView>::empty()) =~= Seq::<Seq<char>>::empty());
            if ours_unchanged {
                assert(t.a.subrange(p.la, t.a.len() as int) == t.o.subrange(p.lo, t.o.len() as int));
                assert(c == ChunkView::Clean(t.b.subrange(p.lb, t.b.len() as int)));
                assert(clean_join(seq![c]) =~= t.b.subrange(p.lb, t.b.len() as int));
            } else {
                let oo = t.o.subrange(p.lo, t.o.len() as int);
                let aa = t.a.subrange(p.la, t.a.len() as int);
                assert(t.b.subrange(p.lb, t.b.len() as int) == oo);
                if aa == oo {
                    assert(c == ChunkView::Clean(oo));
                }
                assert(c == ChunkView::Clean(aa));
                assert(clean_join(seq![c]) =~= aa);
            }
        },
        Step::Emit(o, a, b) => {
            let q = Pos { lo: o - 1, la: a - 1, lb: b - 1 };
            if i == 1 {
                lemma_match_from(t, p.lo + 1);
            }
            if ours_unchanged {
                assert(a == o);
            } else {
                assert(b == o);
            }
            lemma_run_one_side_unchanged(t, q, ours_unchanged);
            let c = emit_view(t, p, o, a, b);
            assert(run(t, p) == seq![c] + run(t, q));
            lemma_clean_join_concat(seq![c], run(t, q));
            assert(seq![c].drop_last() =~= Seq::<ChunkView>::empty());
            assert forall|k: int| 0 <= k < run(t, p).len() implies #[trigger] run(t, p)[k] is Clean by {
                if k > 0 {
                    assert(run(t, p)[k] == run(t, q)[k - 1]);
                }
            }
            if ours_unchanged {
                assert(t.a.subrange(p.la, a - 1) == t.o.subrange(p.lo, o - 1));
                assert(c == ChunkView::Clean(t.b.subrange(p.lb, b - 1)));
                assert(clean_join(Seq::<ChunkView>::empty()) =~= Seq::<Seq<char>>::empty());
                assert(clean_join(seq![c]) =~= t.b.subrange(p.lb, b - 1));
                assert(t.b.subrange(p.lb, b - 1) + t.b.subrange(b - 1, t.b.len() as int)
                    =~= t.b.subrange(p.lb, t.b.len() as int));
            } else {
                let oo = t.o.subrange(p.lo, o - 1);
                let aa = t.a.subrange(p.la, a - 1);
                assert(t.b.subrange(p.lb, b - 1) == oo);
                if aa == oo {
                    assert(c == ChunkView::Clean(oo));
                }
                assert(c == ChunkView::Clean(aa));
                assert(clean_join(Seq::<ChunkView>::empty()) =~= Seq::<Seq<char>>::empty());
                assert(clean_join(seq![c]) =~= aa);
                assert(t.a.subrange(p.la, a - 1) + t.a.subrange(a - 1, t.a.len() as int)
                    =~= t.a.subrange(p.la, t.a.len() as int));
            }
        },
    }
}

/// Merging where our version is the original text: the merge is clean and
/// its text is their version.
pub proof fn lemma_merge_ours_unchanged(
    o: Seq<char>,
    b: Seq<char>,
    a_name: Option<Seq<char>>,
    b_name: Option<Seq<char>>,
)
    requires
        2 * (lines_with_endings(o).len() + lines_with_endings(o).len() + lines_with_endings(b).len())
            + 4 <= usize::MAX,
    ensures
        all_clean(run(texts_of(lines_with_endings(o), lines_with_endings(o), lines_with_endings(b)), start())),
        merged_text(
            run(texts_of(lines_with_endings(o), lines_with_endings(o), lines_with_endings(b)), start()),
            a_name,
            b_name,
        ) == b,
{
    let ol = lines_with_endings(o);
    let bl = lines_with_endings(b);
    lemma_join_lines_with_endings(o);
    lemma_join_lines_with_endings(b);
    let t = texts_of(ol, ol, bl);
    lemma_line_list_count(ol);
    lemma_line_list_count(bl);
    lemma_match_map_well_matched(ol, ol);
    lemma_match_map_well_matched(ol, bl);
    lemma_match_map_same(ol);
    if has_key(t.match_b, 1) {
        assert(t.match_b.contains_key(0usize));
        assert(t.match_b[0usize] < t.match_b[1usize]);
    }
    lemma_run_one_side_unchanged(t, start(), true);
    lemma_merged_text_clean(run(t, start()), a_name, b_name);
    assert(bl.subrange(0, bl.len() as int) =~= bl);
}

/// Merging where their version is the original text: the merge is clean
/// and its text is our version.
pub proof fn lemma_merge_theirs_unchanged(
    o: Seq<char>,
    a: Seq<char>,
    a_name: Option<Seq<char>>,
    b_name: Option<Seq<char>>,
)
    requires
        2 * (lines_with_endings(o).len() + lines_with_endings(a).len() + lines_with_endings(o).len())
            + 4 <= usize::MAX,
    ensures
        all_clean(run(texts_of(lines_with_endings(o), lines_with_endings(a), lines_with_endings(o)), start())),
        merged_text(
            run(texts_of(lines_with_endings(o), lines_with_endings(a), lines_with_endings(o)), start()),
            a_name,
            b_name,
        ) == a,
{
    let ol = lines_with_endings(o);
    let al = lines_with_endings(a);
    lemma_join_lines_with_endings(o);
    lemma_join_lines_with_endings(a);
    let t = texts_of(ol, al, ol);
    lemma_line_list_count(ol);
    lemma_line_list_count(al);
    lemma_match_map_well_matched(ol, al);
    lemma_match_map_well_matched(ol, ol);
    lemma_match_map_same(ol);
    if has_key(t.match_a, 1) {
        assert(t.match_a.contains_key(0usize));
        assert(t.match_a[0usize] < t.match_a[1usize]);
    }
    lemma_run_one_side_unchanged(t, start(), false);
    lemma_merged_text_clean(run(t, start()), a_name, b_name);
    assert(al.subrange(0, al.len() as int) =~= al);
}


/// Where both versions are the same, every chunk from a position that is
/// the same in both is clean and holds their lines, which follow one
/// another to the end.
proof fn lemma_run_sides_agree(t: Texts, p: Pos)
    requires
        texts_ok(t),
        pos_ok(t, p),
        t.a == t.b,
        t.match_a == t.match_b,
        p.la == p.lb,
    ensures
        all_clean(run(t, p)),
        clean_join(run(t, p)) == t.a.subrange(p.la, t.a.len() as int),
    decreases measure(t, p),
{
    lemma_step(t, p);
    match next_step(t, p) {
        Step::Final => {
            let c = final_view(t, p);
            assert(run(t, p) == seq![c]);
            assert(c == ChunkView::Clean(t.b.subrange(p.lb, t.b.len() as int)));
            assert(seq![c].drop_last() =~= Seq::<ChunkView>::empty());
            assert(clean_join(Seq::<ChunkView>::empty()) =~= Seq::<Seq<char>>::empty());
            assert(clean_join(seq![c]) =~= t.a.subrange(p.la, t.a.len() as int));
        },
        Step::Emit(o, a, b) => {
            let q = Pos { lo: o - 1, la: a - 1, lb: b - 1 };
            assert(a == b);
            lemma_run_sides_agree(t, q);
            let c = emit_view(t, p, o, a, b);
            assert(c == ChunkView::Clean(t.b.subrange(p.lb, b - 1)));
            assert(run(t, p) == seq![c] + run(t, q));
            lemma_clean_join_concat(seq![c], run(t, q));
            assert(seq![c].drop_last() =~= Seq::<ChunkView>::empty());
            assert forall|k: int| 0 <= k < run(t, p).len() implies #[trigger] run(t, p)[k] is Clean by {
                if k > 0 {
                    assert(run(t, p)[k] == run(t, q)[k - 1]);
                }
            }
            assert(clean_join(Seq::<ChunkView>::empty()) =~= Seq::<Seq<char>>::empty());
            assert(clean_join(seq![c]) =~= t.b.subrange(p.lb, b - 1));
            assert(t.a.subrange(p.la, a - 1) + t.a.subrange(a - 1, t.a.len() as int)
                =~= t.a.subrange(p.la, t.a.len() as int));
        },
    }
}

/// Merging two identical versions: the merge is clean and its text is that
/// version, whatever the original.
pub proof fn lemma_merge_sides_agree(
    o: Seq<char>,
    a: Seq<char>,
    a_name: Option<Seq<char>>,
    b_name: Option<Seq<char>>,
)
    requires
        2 * (lines_with_endings(o).len() + lines_with_endings(a).len() + lines_with_endings(a).len())
            + 4 <= usize::MAX,
    ensures
        all_clean(run(texts_of(lines_with_endings(o), lines_with_endings(a), lines_with_endings(a)), start())),
        merged_text(
            run(texts_of(lines_with_endings(o), lines_with_endings(a), lines_with_endings(a)), start()),
            a_name,
            b_name,
        ) == a,
{
    let ol = lines_with_endings(o);
    let al = lines_with_endings(a);
    lemma_join_lines_with_endings(o);
    lemma_join_lines_with_endings(a);
    let t = texts_of(ol, al, al);
    lemma_line_list_count(ol);
    lemma_line_list_count(al);
    lemma_match_map_well_matched(ol, al);
    if has_key(t.match_a, 1) {
        assert(t.match_a.contains_key(0usize));
        assert(t.match_a[0usize] < t.match_a[1usize]);
    }
    lemma_run_sides_agree(t, start());
    lemma_merged_text_clean(run(t, start()), a_name, b_name);
    assert(al.subrange(0, al.len() as int) =~= al);
}


/// Merging two identical lists of lines: the merge is clean and its text
/// is the lines one after another, whatever the original.
pub proof fn lemma_lines_sides_agree(o: Lines, a: Lines, a_name: Option<Seq<char>>, b_name: Option<Seq<char>>)
    requires
        mergeable(o, a, a),
    ensures
        all_clean(run(texts_of(o, a, a), start())),
        merged_text(run(texts_of(o, a, a), start()), a_name, b_name) == a.flatten(),
{
    let t = texts_of(o, a, a);
    lemma_line_list_count(o);
    lemma_line_list_count(a);
    lemma_match_map_well_matched(o, a);
    if has_key(t.match_a, 1) {
        assert(t.match_a.contains_key(0usize));
        assert(t.match_a[0usize] < t.match_a[1usize]);
    }
    lemma_run_sides_agree(t, start());
    lemma_merged_text_clean(run(t, start()), a_name, b_name);
    assert(a.subrange(0, a.len() as int) =~= a);
}


/// A chunk merges its part of the original and of the two versions as a
/// three-way merge must: it is clean with their version where ours kept
/// the original or both agree, clean with ours where theirs kept the
/// original, and a conflict holding all three parts exactly when the
/// three parts all differ.
pub open spec fn chunk_merges(c: ChunkView, o: Lines, a: Lines, b: Lines) -> bool {
    match c {
        ChunkView::Clean(x) => (a == o && x == b) || (a == b && x == b) || (b == o && x == a),
        ChunkView::Conflict(co, ca, cb) => co == o && ca == a && cb == b && a != o && b != o && a
            != b,
    }
}

/// Positions that split the three texts, in order, into the parts the
/// chunks merge: each chunk covers the lines between one position and the
/// next, from `first` to the ends of the texts.
pub open spec fn chunks_tile(t: Texts, cs: Seq<ChunkView>, bs: Seq<Pos>, first: Pos) -> bool {
    &&& bs.len() == cs.len() + 1
    &&& bs[0] == first
    &&& bs.last() == (Pos { lo: t.o.len() as int, la: t.a.len() as int, lb: t.b.len() as int })
    &&& forall|k: int|
        0 <= k < cs.len() ==> {
            &&& 0 <= (#[trigger] bs[k]).lo <= bs[k + 1].lo
            &&& 0 <= bs[k].la <= bs[k + 1].la
            &&& 0 <= bs[k].lb <= bs[k + 1].lb
            &&& chunk_merges(
                cs[k],
                t.o.subrange(bs[k].lo, bs[k + 1].lo),
                t.a.subrange(bs[k].la, bs[k + 1].la),
                t.b.subrange(bs[k].lb, bs[k + 1].lb),
            )
        }
}

proof fn lemma_chunk_for_merges(o: Lines, a: Lines, b: Lines)
    ensures
        chunk_merges(chunk_for(o, a, b), o, a, b),
{
}

/// The chunks the walk emits from a position split what is left of the
/// three texts, in order, into parts each merged as a three-way merge
/// must.
proof fn lemma_run_tiles(t: Texts, p: Pos) -> (bs: Seq<Pos>)
    requires
        texts_ok(t),
        pos_ok(t, p),
    ensures
        chunks_tile(t, run(t, p), bs, p),
    decreases measure(t, p),
{
    lemma_step(t, p);
    let end = Pos { lo: t.o.len() as int, la: t.a.len() as int, lb: t.b.len() as int };
    match next_step(t, p) {
        Step::Final => {
            let c = final_view(t, p);
            assert(run(t, p) == seq![c]);
            lemma_chunk_for_merges(
                t.o.subrange(p.lo, t.o.len() as int),
                t.a.subrange(p.la, t.a.len() as int),
                t.b.subrange(p.lb, t.b.len() as int),
            );
            let bs = seq![p, end];
            assert(chunks_tile(t, run(t, p), bs, p));
            bs
        },
        Step::Emit(o, a, b) => {
            let q = Pos { lo: o - 1, la: a - 1, lb: b - 1 };
            let rest = lemma_run_tiles(t, q);
            let c = emit_view(t, p, o, a, b);
            assert(run(t, p) == seq![c] + run(t, q));
            lemma_chunk_for_merges(
                t.o.subrange(p.lo, o - 1),
                t.a.subrange(p.la, a - 1),
                t.b.subrange(p.lb, b - 1),
            );
            let bs = seq![p] + rest;
            let cs = run(t, p);
            assert forall|k: int| 0 <= k < cs.len() implies {
                &&& 0 <= (#[trigger] bs[k]).lo <= bs[k + 1].lo
                &&& 0 <= bs[k].la <= bs[k + 1].la
                &&& 0 <= bs[k].lb <= bs[k + 1].lb
                &&& chunk_merges(
                    cs[k],
                    t.o.subrange(bs[k].lo, bs[k + 1].lo),
                    t.a.subrange(bs[k].la, bs[k + 1].la),
                    t.b.subrange(bs[k].lb, bs[k + 1].lb),
                )
            } by {
                if k == 0 {
                    assert(bs[1] == rest[0]);
                } else {
                    assert(bs[k] == rest[k - 1] && bs[k + 1] == rest[k]);
                    assert(cs[k] == run(t, q)[k - 1]);
                    assert(0 <= rest[k - 1].lo);
                }
            }
            assert(bs.last() == rest.last());
            bs
        },
    }
}

/// A three-way merge of texts splits the original and both versions, in
/// order and without gaps, into parts; each part is merged clean with
/// their side where ours kept the original or both sides agree, clean
/// with our side where theirs kept the original, and is a conflict of the
/// three parts exactly when all three differ.
pub proof fn lemma_merge_chunks_tile(o: Seq<char>, a: Seq<char>, b: Seq<char>) -> (bs: Seq<Pos>)
    requires
        2 * (lines_with_endings(o).len() + lines_with_endings(a).len() + lines_with_endings(b).len())
            + 4 <= usize::MAX,
    ensures
        chunks_tile(
            texts_of(lines_with_endings(o), lines_with_endings(a), lines_with_endings(b)),
            run(texts_of(lines_with_endings(o), lines_with_endings(a), lines_with_endings(b)), start()),
            bs,
            start(),
        ),
{
    lemma_join_lines_with_endings(o);
    lemma_join_lines_with_endings(a);
    lemma_join_lines_with_endings(b);
    lemma_lines_tile(lines_with_endings(o), lines_with_endings(a), lines_with_endings(b))
}

/// A three-way merge of lists of lines splits them the same way.
pub proof fn lemma_lines_tile(o: Lines, a: Lines, b: Lines) -> (bs: Seq<Pos>)
    requires
        mergeable(o, a, b),
    ensures
        chunks_tile(texts_of(o, a, b), run(texts_of(o, a, b), start()), bs, start()),
{
    let t = texts_of(o, a, b);
    lemma_line_list_count(o);
    lemma_line_list_count(a);
    lemma_line_list_count(b);
    lemma_match_map_well_matched(o, a);
    lemma_match_map_well_matched(o, b);
    if has_key(t.match_a, 1) {
        assert(t.match_a.contains_key(0usize));
        assert(t.match_a[0usize] < t.match_a[1usize]);
    }
    if has_key(t.match_b, 1) {
        assert(t.match_b.contains_key(0usize));
        assert(t.match_b[0usize] < t.match_b[1usize]);
    }
    lemma_run_tiles(t, start())
}

} // verus!

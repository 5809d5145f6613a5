//! A shortest line diff, and its unified-diff rendering.
use vstd::prelude::*;
use crate::text::{strings_view, decimal, push_str, push_decimal};

verus! {

/// One step of an edit script between two sequences of lines.
#[derive(Debug, Clone, Copy, PartialEq, Eq, Structural)]
pub enum Edit {
    /// The line at this position of the new sequence is inserted.
    Insert(usize),
    /// The line at this position of the old sequence is deleted.
    Delete(usize),
    /// The lines at these positions of the old and new sequence are equal.
    Equal(usize, usize),
}

/// The length of a longest common subsequence of the old lines from `i`
/// and the new lines from `j`.
pub open spec fn lcs(a: Seq<Seq<char>>, b: Seq<Seq<char>>, i: nat, j: nat) -> nat
    decreases a.len() + b.len() + 2 - i - j,
{
    if i >= a.len() || j >= b.len() {
        0
    } else if a[i as int] == b[j as int] {
        1 + lcs(a, b, i + 1, j + 1)
    } else {
        let d = lcs(a, b, i + 1, j);
        let n = lcs(a, b, i, j + 1);
        if d >= n {
            d
        } else {
            n
        }
    }
}

/// The edit script `diff_lines` gives from old line `i` and new line `j`
/// on, a shortest one: equal lines pair up; at a mismatch the old line is
/// deleted when that keeps a longest common subsequence within reach, else
/// the new line is inserted.
pub open spec fn diff_steps(a: Seq<Seq<char>>, b: Seq<Seq<char>>, i: nat, j: nat) -> Seq<Edit>
    decreases a.len() + b.len() - i - j,
{
    if i > a.len() || j > b.len() {
        seq![]
    } else if i == a.len() {
        if j == b.len() {
            seq![]
        } else {
            seq![Edit::Insert(j as usize)] + diff_steps(a, b, i, j + 1)
        }
    } else if j == b.len() {
        seq![Edit::Delete(i as usize)] + diff_steps(a, b, i + 1, j)
    } else if a[i as int] == b[j as int] {
        seq![Edit::Equal(i as usize, j as usize)] + diff_steps(a, b, i + 1, j + 1)
    } else if lcs(a, b, i + 1, j) >= lcs(a, b, i, j + 1) {
        seq![Edit::Delete(i as usize)] + diff_steps(a, b, i + 1, j)
    } else {
        seq![Edit::Insert(j as usize)] + diff_steps(a, b, i, j + 1)
    }
}

/// The edit script is a walk through both sequences from positions `x` and
/// `y`: each edit names the next unread line of its side, equal edits pair
/// equal lines, and the walk ends having read both sequences whole.
pub open spec fn walk(a: Seq<Seq<char>>, b: Seq<Seq<char>>, e: Seq<Edit>, x: int, y: int) -> bool
    decreases e.len(),
{
    if e.len() == 0 {
        x == a.len() && y == b.len()
    } else {
        match e[0] {
            Edit::Insert(j) => j == y && 0 <= y < b.len() && walk(a, b, e.drop_first(), x, y + 1),
            Edit::Delete(i) => i == x && 0 <= x < a.len() && walk(a, b, e.drop_first(), x + 1, y),
            Edit::Equal(i, j) => i == x && j == y && 0 <= x < a.len() && 0 <= y < b.len() && a[x]
                == b[y] && walk(a, b, e.drop_first(), x + 1, y + 1),
        }
    }
}

/// An edit script that turns `a` into `b`.
pub open spec fn valid_script(a: Seq<Seq<char>>, b: Seq<Seq<char>>, e: Seq<Edit>) -> bool {
    walk(a, b, e, 0, 0)
}

/// The number of inserts and deletes in a script.
pub open spec fn changes(e: Seq<Edit>) -> nat
    decreases e.len(),
{
    if e.len() == 0 {
        0
    } else {
        changes(e.drop_first()) + match e[0] {
            Edit::Equal(_, _) => 0nat,
            _ => 1nat,
        }
    }
}

/// The number of equal pairs in a script.
pub open spec fn equals(e: Seq<Edit>) -> nat
    decreases e.len(),
{
    if e.len() == 0 {
        0
    } else {
        equals(e.drop_first()) + match e[0] {
            Edit::Equal(_, _) => 1nat,
            _ => 0nat,
        }
    }
}

/// Dropping a line from either side shortens a longest common subsequence
/// by at most one and never lengthens it.
proof fn lemma_lcs_steps(a: Seq<Seq<char>>, b: Seq<Seq<char>>, i: nat, j: nat)
    requires
        i <= a.len(),
        j <= b.len(),
    ensures
        lcs(a, b, i + 1, j) <= lcs(a, b, i, j),
        lcs(a, b, i, j + 1) <= lcs(a, b, i, j),
        lcs(a, b, i, j) <= lcs(a, b, i + 1, j) + 1,
        lcs(a, b, i, j) <= lcs(a, b, i, j + 1) + 1,
        lcs(a, b, i, j) <= a.len() - i,
    decreases a.len() + b.len() - i - j,
{
    if i < a.len() && j < b.len() {
        lemma_lcs_steps(a, b, i + 1, j);
        lemma_lcs_steps(a, b, i, j + 1);
        lemma_lcs_steps(a, b, i + 1, j + 1);
    } else if i < a.len() {
        lemma_lcs_steps(a, b, i + 1, j);
    } else if j < b.len() {
        lemma_lcs_steps(a, b, i, j + 1);
    }
}

/// A walk from `x`, `y` pairs at most a longest common subsequence's worth
/// of lines, and its inserts and deletes number the unread lines of both
/// sides less twice its pairs.
proof fn lemma_walk_counts(a: Seq<Seq<char>>, b: Seq<Seq<char>>, e: Seq<Edit>, x: int, y: int)
    requires
        walk(a, b, e, x, y),
        0 <= x <= a.len(),
        0 <= y <= b.len(),
    ensures
        equals(e) <= lcs(a, b, x as nat, y as nat),
        changes(e) + 2 * equals(e) == (a.len() - x) + (b.len() - y),
    decreases e.len(),
{
    if e.len() > 0 {
        lemma_lcs_steps(a, b, x as nat, y as nat);
        match e[0] {
            Edit::Insert(_) => lemma_walk_counts(a, b, e.drop_first(), x, y + 1),
            Edit::Delete(_) => lemma_walk_counts(a, b, e.drop_first(), x + 1, y),
            Edit::Equal(_, _) => lemma_walk_counts(a, b, e.drop_first(), x + 1, y + 1),
        }
    }
}

/// The script that `diff_steps` builds from positions `i`, `j` walks the
/// rest of both sequences and pairs a longest common subsequence.
pub proof fn lemma_diff_steps_walk(a: Seq<Seq<char>>, b: Seq<Seq<char>>, i: nat, j: nat)
    requires
        i <= a.len(),
        j <= b.len(),
        a.len() <= usize::MAX,
        b.len() <= usize::MAX,
    ensures
        walk(a, b, diff_steps(a, b, i, j), i as int, j as int),
        equals(diff_steps(a, b, i, j)) == lcs(a, b, i, j),
    decreases a.len() + b.len() - i - j,
{
    let e = diff_steps(a, b, i, j);
    if i == a.len() {
        if j < b.len() {
            lemma_diff_steps_walk(a, b, i, j + 1);
            assert(e.drop_first() =~= diff_steps(a, b, i, j + 1));
        }
    } else if j == b.len() {
        lemma_diff_steps_walk(a, b, i + 1, j);
        assert(e.drop_first() =~= diff_steps(a, b, i + 1, j));
    } else if a[i as int] == b[j as int] {
        lemma_diff_steps_walk(a, b, i + 1, j + 1);
        assert(e.drop_first() =~= diff_steps(a, b, i + 1, j + 1));
    } else if lcs(a, b, i + 1, j) >= lcs(a, b, i, j + 1) {
        lemma_diff_steps_walk(a, b, i + 1, j);
        assert(e.drop_first() =~= diff_steps(a, b, i + 1, j));
    } else {
        lemma_diff_steps_walk(a, b, i, j + 1);
        assert(e.drop_first() =~= diff_steps(a, b, i, j + 1));
    }
}

/// The script of `diff_lines` turns the old lines into the new lines.
pub proof fn lemma_diff_lines_valid(a: Seq<Seq<char>>, b: Seq<Seq<char>>)
    requires
        a.len() <= usize::MAX,
        b.len() <= usize::MAX,
    ensures
        valid_script(a, b, diff_steps(a, b, 0, 0)),
{
    lemma_diff_steps_walk(a, b, 0, 0);
}

/// The script of `diff_lines` is a shortest edit script: no script that
/// turns the old lines into the new ones has fewer inserts and deletes.
pub proof fn lemma_diff_lines_shortest(a: Seq<Seq<char>>, b: Seq<Seq<char>>, e: Seq<Edit>)
    requires
        a.len() <= usize::MAX,
        b.len() <= usize::MAX,
        valid_script(a, b, e),
    ensures
        changes(diff_steps(a, b, 0, 0)) <= changes(e),
        changes(diff_steps(a, b, 0, 0)) == a.len() + b.len() - 2 * lcs(a, b, 0, 0),
{
    lemma_diff_steps_walk(a, b, 0, 0);
    lemma_walk_counts(a, b, diff_steps(a, b, 0, 0), 0, 0);
    lemma_walk_counts(a, b, e, 0, 0);
}

/// The old-line positions a script names, in order.
pub open spec fn old_indices(e: Seq<Edit>) -> Seq<nat>
    decreases e.len(),
{
    if e.len() == 0 {
        seq![]
    } else {
        match old_index(e[0]) {
            Some(i) => seq![i] + old_indices(e.drop_first()),
            None => old_indices(e.drop_first()),
        }
    }
}

/// The new-line positions a script names, in order.
pub open spec fn new_indices(e: Seq<Edit>) -> Seq<nat>
    decreases e.len(),
{
    if e.len() == 0 {
        seq![]
    } else {
        match new_index(e[0]) {
            Some(j) => seq![j] + new_indices(e.drop_first()),
            None => new_indices(e.drop_first()),
        }
    }
}

/// The positions from `x` up to `n`, in order.
pub open spec fn positions(x: int, n: int) -> Seq<nat> {
    Seq::new((n - x) as nat, |k: int| (x + k) as nat)
}

/// A walk from `x` and `y` names each remaining old line once and each
/// remaining new line once, in order, and pairs only equal lines.
proof fn lemma_walk_indices(a: Seq<Seq<char>>, b: Seq<Seq<char>>, e: Seq<Edit>, x: int, y: int)
    requires
        walk(a, b, e, x, y),
        0 <= x,
        0 <= y,
    ensures
        x <= a.len(),
        y <= b.len(),
        old_indices(e) == positions(x, a.len() as int),
        new_indices(e) == positions(y, b.len() as int),
        forall|k: int|
            0 <= k < e.len() ==> (#[trigger] e[k] matches Edit::Equal(i, j) ==> a[i as int] == b[j as int]),
    decreases e.len(),
{
    if e.len() == 0 {
        assert(positions(x, a.len() as int) =~= Seq::<nat>::empty());
        assert(positions(y, b.len() as int) =~= Seq::<nat>::empty());
    } else {
        let r = e.drop_first();
        match e[0] {
            Edit::Insert(j) => {
                lemma_walk_indices(a, b, r, x, y + 1);
                assert(positions(x, a.len() as int) == old_indices(r));
                assert(positions(y, b.len() as int) =~= seq![y as nat] + positions(y + 1, b.len() as int));
            },
            Edit::Delete(i) => {
                lemma_walk_indices(a, b, r, x + 1, y);
                assert(positions(x, a.len() as int) =~= seq![x as nat] + positions(x + 1, a.len() as int));
                assert(positions(y, b.len() as int) == new_indices(r));
            },
            Edit::Equal(i, j) => {
                lemma_walk_indices(a, b, r, x + 1, y + 1);
                assert(positions(x, a.len() as int) =~= seq![x as nat] + positions(x + 1, a.len() as int));
                assert(positions(y, b.len() as int) =~= seq![y as nat] + positions(y + 1, b.len() as int));
            },
        }
        assert forall|k: int|
            0 <= k < e.len() implies (#[trigger] e[k] matches Edit::Equal(i, j) ==> a[i as int] == b[
            j as int]) by {
            if k > 0 {
                assert(e[k] == r[k - 1]);
            }
        }
    }
}

/// The script of `diff_lines` names every old line once and every new line
/// once, each in order, and pairs only equal lines.
pub proof fn lemma_diff_lines_indices(a: Seq<Seq<char>>, b: Seq<Seq<char>>)
    requires
        a.len() <= usize::MAX,
        b.len() <= usize::MAX,
    ensures
        old_indices(diff_steps(a, b, 0, 0)) == positions(0, a.len() as int),
        new_indices(diff_steps(a, b, 0, 0)) == positions(0, b.len() as int),
        forall|k: int|
            0 <= k < diff_steps(a, b, 0, 0).len() ==> (#[trigger] diff_steps(a, b, 0, 0)[k] matches Edit::Equal(
                i,
                j,
            ) ==> a[i as int] == b[j as int]),
{
    lemma_diff_steps_walk(a, b, 0, 0);
    lemma_walk_indices(a, b, diff_steps(a, b, 0, 0), 0, 0);
}

/// The table of longest-common-subsequence lengths: `rows[k][j]` for old
/// line `a.len() - k` and new line `j`.
fn lcs_table(a: &[String], b: &[String]) -> (rows: Vec<Vec<usize>>)
    ensures
        rows@.len() == a@.len() + 1,
        forall|k: int| 0 <= k < rows@.len() ==> #[trigger] rows@[k]@.len() == b@.len() + 1,
        forall|k: int, j: int|
            0 <= k < rows@.len() && 0 <= j <= b@.len() ==> #[trigger] rows@[k]@[j] == lcs(
                strings_view(a@),
                strings_view(b@),
                (a@.len() - k) as nat,
                j as nat,
            ),
{
    let ghost av = strings_view(a@);
    let ghost bv = strings_view(b@);
    let n = a.len();
    let m = b.len();
    let mut rows: Vec<Vec<usize>> = Vec::new();
    let mut last: Vec<usize> = Vec::new();
    let mut j: usize = 0;
    while j < m
        invariant
            j <= m,
            m == b.len(),
            last@.len() == j,
            forall|t: int| 0 <= t < j ==> #[trigger] last@[t] == 0,
        decreases m - j,
    {
        last.push(0);
        j += 1;
    }
    last.push(0);
    proof {
        assert forall|t: int| 0 <= t <= m implies #[trigger] last@[t] == lcs(av, bv, n as nat, t as nat) by {}
    }
    rows.push(last);
    let mut k: usize = 0;
    while k < n
        invariant
            k <= n,
            n == a.len(),
            m == b.len(),
            av == strings_view(a@),
            bv == strings_view(b@),
            rows@.len() == k + 1,
            forall|q: int| 0 <= q < rows@.len() ==> #[trigger] rows@[q]@.len() == m + 1,
            forall|q: int, t: int|
                0 <= q < rows@.len() && 0 <= t <= m ==> #[trigger] rows@[q]@[t] == lcs(
                    av,
                    bv,
                    (n - q) as nat,
                    t as nat,
                ),
        decreases n - k,
    {
        let i = n - k - 1;
        let mut row: Vec<usize> = Vec::new();
        let mut t: usize = 0;
        while t < m
            invariant
                t <= m,
                row@.len() == t,
            decreases m - t,
        {
            row.push(0);
            t += 1;
        }
        row.push(0);
        assert(row@[m as int] == 0);
        assert(rows@[k as int]@.len() == m + 1);
        let mut jj: usize = m;
        while jj > 0
            invariant
                jj <= m,
                i + 1 <= n,
                i == n - k - 1,
                k < n,
                row@.len() == m + 1,
                rows@.len() == k + 1,
                rows@[k as int]@.len() == m + 1,
                av == strings_view(a@),
                bv == strings_view(b@),
                n == a.len(),
                m == b.len(),
                forall|t: int| 0 <= t <= m ==> #[trigger] rows@[k as int]@[t] == lcs(
                    av,
                    bv,
                    (i + 1) as nat,
                    t as nat,
                ),
                forall|t: int| jj <= t <= m ==> #[trigger] row@[t] == lcs(
                    av,
                    bv,
                    i as nat,
                    t as nat,
                ),
            decreases jj,
        {
            let j = jj - 1;
            proof {
                lemma_lcs_steps(av, bv, (i + 1) as nat, (j + 1) as nat);
            }
            let v = if a[i] == b[j] {
                assert(av[i as int] == bv[j as int]);
                1 + rows[k][j + 1]
            } else {
                assert(av[i as int] != bv[j as int]);
                let d = rows[k][j];
                let r = row[j + 1];
                if d >= r {
                    d
                } else {
                    r
                }
            };
            row.set(j, v);
            jj = j;
        }
        proof {
            assert(row@[m as int] == lcs(av, bv, i as nat, m as nat));
        }
        rows.push(row);
        k += 1;
    }
    rows
}

/// Computes a shortest edit script between two sequences of lines.
#[verifier::rlimit(60)]
pub fn diff_lines(a: &[String], b: &[String]) -> (r: Vec<Edit>)
    ensures
        r@ == diff_steps(strings_view(a@), strings_view(b@), 0, 0),
        valid_script(strings_view(a@), strings_view(b@), r@),
        forall|e: Seq<Edit>| #[trigger]
            valid_script(strings_view(a@), strings_view(b@), e) ==> changes(r@) <= changes(e),
{
    let ghost av = strings_view(a@);
    let ghost bv = strings_view(b@);
    let table = lcs_table(a, b);
    let n = a.len();
    let m = b.len();
    let mut edits: Vec<Edit> = Vec::new();
    let mut i: usize = 0;
    let mut j: usize = 0;
    while i < n || j < m
        invariant
            av == strings_view(a@),
            bv == strings_view(b@),
            n == a.len(),
            m == b.len(),
            i <= n,
            j <= m,
            table@.len() == n + 1,
            forall|k: int| 0 <= k < table@.len() ==> #[trigger] table@[k]@.len() == m + 1,
            forall|k: int, t: int|
                0 <= k < table@.len() && 0 <= t <= m ==> #[trigger] table@[k]@[t] == lcs(
                    av,
                    bv,
                    (n - k) as nat,
                    t as nat,
                ),
            edits@ + diff_steps(av, bv, i as nat, j as nat) == diff_steps(av, bv, 0, 0),
        decreases n + m - i - j,
    {
        let ghost e0 = edits@;
        let ghost rest = diff_steps(av, bv, i as nat, j as nat);
        if i >= n {
            edits.push(Edit::Insert(j));
            assert(edits@ + diff_steps(av, bv, i as nat, (j + 1) as nat) =~= e0 + rest);
            j += 1;
        } else if j >= m {
            edits.push(Edit::Delete(i));
            assert(edits@ + diff_steps(av, bv, (i + 1) as nat, j as nat) =~= e0 + rest);
            i += 1;
        } else if a[i] == b[j] {
            assert(av[i as int] == bv[j as int]);
            edits.push(Edit::Equal(i, j));
            assert(edits@ + diff_steps(av, bv, (i + 1) as nat, (j + 1) as nat) =~= e0 + rest);
            i += 1;
            j += 1;
        } else {
            assert(av[i as int] != bv[j as int]);
            let d = table[n - i - 1][j];
            let ins = table[n - i][j + 1];
            assert(d == lcs(av, bv, (i + 1) as nat, j as nat));
            assert(ins == lcs(av, bv, i as nat, (j + 1) as nat));
            if d >= ins {
                edits.push(Edit::Delete(i));
                assert(edits@ + diff_steps(av, bv, (i + 1) as nat, j as nat) =~= e0 + rest);
                i += 1;
            } else {
                edits.push(Edit::Insert(j));
                assert(edits@ + diff_steps(av, bv, i as nat, (j + 1) as nat) =~= e0 + rest);
                j += 1;
            }
        }
    }
    assert(diff_steps(av, bv, i as nat, j as nat) =~= Seq::<Edit>::empty());
    assert(edits@ =~= edits@ + diff_steps(av, bv, i as nat, j as nat));
    proof {
        lemma_diff_lines_valid(av, bv);
        assert forall|e: Seq<Edit>| #[trigger] valid_script(av, bv, e) implies changes(edits@)
            <= changes(e) by {
            lemma_diff_lines_shortest(av, bv, e);
        }
    }
    edits
}

/// A byte that counts as text: printable ASCII or ASCII whitespace.
pub open spec fn is_text_byte(b: u8) -> bool {
    (0x21 <= b <= 0x7e) || b == 0x20 || b == 0x09 || b == 0x0a || b == 0x0c || b == 0x0d
}

/// The number of bytes that are not text.
pub open spec fn count_non_text(s: Seq<u8>) -> nat
    decreases s.len(),
{
    if s.len() == 0 {
        0
    } else {
        count_non_text(s.drop_last()) + if is_text_byte(s.last()) {
            0nat
        } else {
            1nat
        }
    }
}

/// The length of the sample that decides whether content is binary.
pub open spec fn sample_len(n: nat) -> nat {
    if n < 8192 {
        n
    } else {
        8192
    }
}

/// Content is binary when it is non-empty and holds a zero byte, or when more
/// than 30% of its first 8 KiB are not text.
pub open spec fn is_binary(c: Seq<u8>) -> bool {
    c.len() > 0 && (c.contains(0u8) || count_non_text(c.take(sample_len(c.len()) as int)) * 10
        > sample_len(c.len()) * 3)
}

/// Whether content looks binary.
pub fn is_binary_content(content: &[u8]) -> (r: bool)
    ensures
        r == is_binary(content@),
{
    if content.len() == 0 {
        return false;
    }
    let mut i: usize = 0;
    while i < content.len()
        invariant
            i <= content.len(),
            forall|j: int| 0 <= j < i ==> content@[j] != 0u8,
        decreases content.len() - i,
    {
        if content[i] == 0 {
            assert(content@.contains(0u8));
            return true;
        }
        i += 1;
    }
    assert(!content@.contains(0u8));
    let n: usize = if content.len() < 8192 {
        content.len()
    } else {
        8192
    };
    let mut non_text: usize = 0;
    let mut k: usize = 0;
    while k < n
        invariant
            n <= content.len(),
            n == sample_len(content.len() as nat),
            k <= n,
            non_text <= k,
            non_text as nat == count_non_text(content@.take(k as int)),
        decreases n - k,
    {
        let b = content[k];
        let text = (0x21 <= b && b <= 0x7e) || b == 0x20 || b == 0x09 || b == 0x0a || b == 0x0c
            || b == 0x0d;
        assert(content@.take(k + 1).drop_last() =~= content@.take(k as int));
        if !text {
            non_text += 1;
        }
        k += 1;
    }
    non_text * 10 > n * 3
}


/// Every index of the script lies inside its sequence.
pub open spec fn indices_in_bounds(a_len: nat, b_len: nat, e: Seq<Edit>) -> bool {
    forall|k: int|
        0 <= k < e.len() ==> match #[trigger] e[k] {
            Edit::Insert(j) => j < b_len,
            Edit::Delete(i) => i < a_len,
            Edit::Equal(i, j) => i < a_len && j < b_len,
        }
}

/// A walk only names lines of the two sequences.
pub proof fn lemma_walk_in_bounds(a: Seq<Seq<char>>, b: Seq<Seq<char>>, e: Seq<Edit>, x: int, y: int)
    requires
        0 <= x,
        0 <= y,
        walk(a, b, e, x, y),
    ensures
        indices_in_bounds(a.len(), b.len(), e),
    decreases e.len(),
{
    if e.len() > 0 {
        match e[0] {
            Edit::Insert(j) => lemma_walk_in_bounds(a, b, e.drop_first(), x, y + 1),
            Edit::Delete(i) => lemma_walk_in_bounds(a, b, e.drop_first(), x + 1, y),
            Edit::Equal(i, j) => lemma_walk_in_bounds(a, b, e.drop_first(), x + 1, y + 1),
        }
        assert forall|k: int| 0 <= k < e.len() implies match #[trigger] e[k] {
            Edit::Insert(j) => j < b.len(),
            Edit::Delete(i) => i < a.len(),
            Edit::Equal(i, j) => i < a.len() && j < b.len(),
        } by {
            if k > 0 {
                assert(e[k] == e.drop_first()[k - 1]);
            }
        }
    }
}

/// An insert or a delete.
pub open spec fn is_change(e: Edit) -> bool {
    !(e is Equal)
}

/// The hunks of a script as inclusive ranges of script positions: a hunk
/// starts `ctx` positions before a change (or at 0), takes every position up
/// to the last change that is followed by at most `ctx` equal lines, and the
/// `ctx` equal lines after it. `st` holds the start of the open hunk and the
/// position of its last change.
pub open spec fn hunk_scan(m: Seq<Edit>, ctx: nat, idx: nat, st: Option<(nat, nat)>) -> Seq<(nat, nat)>
    decreases m.len() - idx,
{
    if idx >= m.len() {
        match st {
            Some((lo, _)) => seq![(lo, (m.len() - 1) as nat)],
            None => seq![],
        }
    } else if is_change(m[idx as int]) {
        let start: nat = if idx > ctx {
            (idx - ctx) as nat
        } else {
            0
        };
        let lo = match st {
            Some((lo, _)) => lo,
            None => start,
        };
        hunk_scan(m, ctx, idx + 1, Some((lo, idx)))
    } else {
        match st {
            Some((lo, p)) => if idx - p <= ctx {
                hunk_scan(m, ctx, idx + 1, Some((lo, p)))
            } else {
                seq![(lo, (idx - 1) as nat)] + hunk_scan(m, ctx, idx + 1, None)
            },
            None => hunk_scan(m, ctx, idx + 1, None),
        }
    }
}

/// A hunk `(lo, hi)` of a script shows its changes with their context:
/// it opens `ctx` positions before its first change (or at the start of
/// the script) with only equal lines before that change, and closes after
/// its last change once `ctx` equal lines have followed it, or at the end
/// of the script when fewer are left.
pub open spec fn hunk_in_context(m: Seq<Edit>, ctx: nat, lo: nat, hi: nat) -> bool {
    &&& lo <= hi < m.len()
    &&& exists|f: int, p: int|
        lo <= f <= p <= hi && is_change(#[trigger] m[f]) && is_change(#[trigger] m[p]) && lo == (if f
            > ctx {
            f - ctx
        } else {
            0
        }) && (forall|j: int| lo <= j < f ==> !is_change(#[trigger] m[j])) && (forall|j: int|
            p < j <= hi ==> !is_change(#[trigger] m[j])) && hi == (if p + ctx < m.len() - 1 {
            p + ctx
        } else {
            m.len() - 1
        })
}

/// What the scan knows at a position: with no hunk open, the `ctx`
/// positions before are equal; with one open from `lo` whose last change
/// is at `p`, the hunk so far is in context.
pub open spec fn scan_state_ok(m: Seq<Edit>, ctx: nat, idx: nat, st: Option<(nat, nat)>) -> bool {
    &&& idx <= m.len()
    &&& match st {
        None => forall|j: int| idx - ctx <= j < idx && 0 <= j ==> !is_change(#[trigger] m[j]),
        Some((lo, p)) => {
            &&& lo <= p < idx
            &&& idx - p <= ctx + 1
            &&& is_change(m[p as int])
            &&& forall|j: int| p < j < idx ==> !is_change(#[trigger] m[j])
            &&& exists|f: int|
                lo <= f <= p && is_change(#[trigger] m[f]) && lo == (if f > ctx {
                    f - ctx
                } else {
                    0
                }) && (forall|j: int| lo <= j < f ==> !is_change(#[trigger] m[j]))
        },
    }
}

proof fn lemma_hunk_scan_context(m: Seq<Edit>, ctx: nat, idx: nat, st: Option<(nat, nat)>)
    requires
        scan_state_ok(m, ctx, idx, st),
    ensures
        forall|k: int|
            0 <= k < hunk_scan(m, ctx, idx, st).len() ==> hunk_in_context(
                m,
                ctx,
                (#[trigger] hunk_scan(m, ctx, idx, st)[k]).0,
                hunk_scan(m, ctx, idx, st)[k].1,
            ),
    decreases m.len() - idx,
{
    let hs = hunk_scan(m, ctx, idx, st);
    if idx >= m.len() {
        if let Some((lo, p)) = st {
            let f = choose|f: int|
                lo <= f <= p && is_change(#[trigger] m[f]) && lo == (if f > ctx {
                    f - ctx
                } else {
                    0
                }) && (forall|j: int| lo <= j < f ==> !is_change(#[trigger] m[j]));
            assert(hs =~= seq![(lo, (m.len() - 1) as nat)]);
            assert(hunk_in_context(m, ctx, lo, (m.len() - 1) as nat)) by {
                assert(is_change(m[f]) && is_change(m[p as int]));
                assert(lo <= (m.len() - 1) as nat);
            }
            assert(hs[0] == (lo, (m.len() - 1) as nat));
        }
    } else if is_change(m[idx as int]) {
        let start: nat = if idx > ctx {
            (idx - ctx) as nat
        } else {
            0
        };
        let lo = match st {
            Some((lo, _)) => lo,
            None => start,
        };
        let st2 = Some((lo, idx));
        assert(scan_state_ok(m, ctx, idx + 1, st2)) by {
            match st {
                None => {
                    let f = idx as int;
                    assert(lo <= f <= idx && is_change(m[f]));
                },
                Some((lo0, p0)) => {
                    let f = choose|f: int|
                        lo0 <= f <= p0 && is_change(#[trigger] m[f]) && lo0 == (if f > ctx {
                            f - ctx
                        } else {
                            0
                        }) && (forall|j: int| lo0 <= j < f ==> !is_change(#[trigger] m[j]));
                    assert(lo <= f <= idx && is_change(m[f]));
                },
            }
        }
        lemma_hunk_scan_context(m, ctx, idx + 1, st2);
        assert(hs == hunk_scan(m, ctx, idx + 1, st2));
    } else {
        match st {
            Some((lo, p)) => {
                if idx - p <= ctx {
                    lemma_hunk_scan_context(m, ctx, idx + 1, Some((lo, p)));
                    assert(hs == hunk_scan(m, ctx, idx + 1, Some((lo, p))));
                } else {
                    let rest = hunk_scan(m, ctx, idx + 1, None);
                    assert(scan_state_ok(m, ctx, idx + 1, None));
                    lemma_hunk_scan_context(m, ctx, idx + 1, None);
                    let f = choose|f: int|
                        lo <= f <= p && is_change(#[trigger] m[f]) && lo == (if f > ctx {
                            f - ctx
                        } else {
                            0
                        }) && (forall|j: int| lo <= j < f ==> !is_change(#[trigger] m[j]));
                    assert(hunk_in_context(m, ctx, lo, (idx - 1) as nat)) by {
                        assert(is_change(m[f]) && is_change(m[p as int]));
                    }
                    assert forall|k: int| 0 <= k < hs.len() implies hunk_in_context(
                        m,
                        ctx,
                        (#[trigger] hs[k]).0,
                        hs[k].1,
                    ) by {
                        if k > 0 {
                            assert(hs[k] == rest[k - 1]);
                        }
                    }
                }
            },
            None => {
                lemma_hunk_scan_context(m, ctx, idx + 1, None);
                assert(hs == hunk_scan(m, ctx, idx + 1, None));
            },
        }
    }
}

/// The hunks of a diff show each change with its context on both sides:
/// every hunk opens `ctx` positions before its first change (or at the
/// start), with only equal lines between, and closes `ctx` equal lines
/// after its last change (or at the end of the script).
pub proof fn lemma_hunks_in_context(m: Seq<Edit>, ctx: nat)
    ensures
        forall|k: int|
            0 <= k < hunk_scan(m, ctx, 0, None).len() ==> hunk_in_context(
                m,
                ctx,
                (#[trigger] hunk_scan(m, ctx, 0, None)[k]).0,
                hunk_scan(m, ctx, 0, None)[k].1,
            ),
{
    lemma_hunk_scan_context(m, ctx, 0, None);
}

/// Some hunk of `hs` holds position `c`.
pub open spec fn covered(hs: Seq<(nat, nat)>, c: int) -> bool {
    exists|k: int| 0 <= k < hs.len() && (#[trigger] hs[k]).0 <= c <= hs[k].1
}

proof fn lemma_hunk_scan_covers(m: Seq<Edit>, ctx: nat, idx: nat, st: Option<(nat, nat)>)
    requires
        scan_state_ok(m, ctx, idx, st),
    ensures
        forall|c: int|
            idx <= c < m.len() && is_change(#[trigger] m[c]) ==> covered(
                hunk_scan(m, ctx, idx, st),
                c,
            ),
        st is Some ==> hunk_scan(m, ctx, idx, st).len() > 0 && hunk_scan(m, ctx, idx, st)[0].0
            == st.unwrap().0 && hunk_scan(m, ctx, idx, st)[0].1 >= st.unwrap().1,
    decreases m.len() - idx,
{
    let hs = hunk_scan(m, ctx, idx, st);
    if idx >= m.len() {
    } else if is_change(m[idx as int]) {
        let start: nat = if idx > ctx {
            (idx - ctx) as nat
        } else {
            0
        };
        let lo = match st {
            Some((lo, _)) => lo,
            None => start,
        };
        let st2 = Some((lo, idx));
        lemma_hunk_scan_context(m, ctx, idx, st);
        assert(scan_state_ok(m, ctx, idx + 1, st2)) by {
            match st {
                None => {
                    let f = idx as int;
                    assert(lo <= f <= idx && is_change(m[f]));
                },
                Some((lo0, p0)) => {
                    let f = choose|f: int|
                        lo0 <= f <= p0 && is_change(#[trigger] m[f]) && lo0 == (if f > ctx {
                            f - ctx
                        } else {
                            0
                        }) && (forall|j: int| lo0 <= j < f ==> !is_change(#[trigger] m[j]));
                    assert(lo <= f <= idx && is_change(m[f]));
                },
            }
        }
        lemma_hunk_scan_covers(m, ctx, idx + 1, st2);
        assert(hs == hunk_scan(m, ctx, idx + 1, st2));
        assert(covered(hs, idx as int)) by {
            assert(hs[0].0 <= idx <= hs[0].1);
        }
    } else {
        match st {
            Some((lo, p)) => {
                if idx - p <= ctx {
                    lemma_hunk_scan_covers(m, ctx, idx + 1, Some((lo, p)));
                    assert(hs == hunk_scan(m, ctx, idx + 1, Some((lo, p))));
                } else {
                    let rest = hunk_scan(m, ctx, idx + 1, None);
                    assert(scan_state_ok(m, ctx, idx + 1, None));
                    lemma_hunk_scan_covers(m, ctx, idx + 1, None);
                    assert(hs == seq![(lo, (idx - 1) as nat)] + rest);
                    assert forall|c: int|
                        idx <= c < m.len() && is_change(#[trigger] m[c]) implies covered(hs, c) by {
                        let k = choose|k: int| 0 <= k < rest.len() && (#[trigger] rest[k]).0 <= c <= rest[k].1;
                        assert(hs[k + 1] == rest[k]);
                    }
                }
            },
            None => {
                lemma_hunk_scan_covers(m, ctx, idx + 1, None);
                assert(hs == hunk_scan(m, ctx, idx + 1, None));
            },
        }
    }
}

/// Every change of a script lies in some hunk of its diff.
pub proof fn lemma_hunks_cover_changes(m: Seq<Edit>, ctx: nat)
    ensures
        forall|c: int|
            0 <= c < m.len() && is_change(#[trigger] m[c]) ==> covered(hunk_scan(m, ctx, 0, None), c),
{
    lemma_hunk_scan_covers(m, ctx, 0, None);
}

/// The old-line position an edit names.
pub open spec fn old_index(e: Edit) -> Option<nat> {
    match e {
        Edit::Insert(_) => None,
        Edit::Delete(i) => Some(i as nat),
        Edit::Equal(i, _) => Some(i as nat),
    }
}

/// The new-line position an edit names.
pub open spec fn new_index(e: Edit) -> Option<nat> {
    match e {
        Edit::Insert(j) => Some(j as nat),
        Edit::Delete(_) => None,
        Edit::Equal(_, j) => Some(j as nat),
    }
}

/// The least position that `f` names in `m`, or `usize::MAX` when none.
pub open spec fn min_index(m: Seq<Edit>, old: bool) -> nat
    decreases m.len(),
{
    if m.len() == 0 {
        usize::MAX as nat
    } else {
        let r = min_index(m.drop_last(), old);
        match if old {
            old_index(m.last())
        } else {
            new_index(m.last())
        } {
            Some(i) => if i < r {
                i
            } else {
                r
            },
            None => r,
        }
    }
}

/// One past the greatest position named in `m`, or 0 when none.
pub open spec fn end_index(m: Seq<Edit>, old: bool) -> nat
    decreases m.len(),
{
    if m.len() == 0 {
        0
    } else {
        let r = end_index(m.drop_last(), old);
        match if old {
            old_index(m.last())
        } else {
            new_index(m.last())
        } {
            Some(i) => if i + 1 > r {
                i + 1
            } else {
                r
            },
            None => r,
        }
    }
}

/// The first line number of a hunk's range (0-based).
pub open spec fn range_start(m: Seq<Edit>, old: bool) -> nat {
    if min_index(m, old) == usize::MAX {
        0
    } else {
        min_index(m, old)
    }
}

/// One rendered line of a hunk.
pub open spec fn render_edit(a: Seq<Seq<char>>, b: Seq<Seq<char>>, ed: Edit) -> Seq<char> {
    match ed {
        Edit::Equal(i, _) => seq![' '] + a[i as int] + seq!['\n'],
        Edit::Delete(i) => seq!['-'] + a[i as int] + seq!['\n'],
        Edit::Insert(j) => seq!['+'] + b[j as int] + seq!['\n'],
    }
}

/// The rendered lines of a part of a script.
pub open spec fn render_edits(a: Seq<Seq<char>>, b: Seq<Seq<char>>, m: Seq<Edit>) -> Seq<char>
    decreases m.len(),
{
    if m.len() == 0 {
        seq![]
    } else {
        render_edits(a, b, m.drop_last()) + render_edit(a, b, m.last())
    }
}

/// A hunk header `@@ -s,c +s,c @@`.
pub open spec fn hunk_header(a_start: nat, a_count: nat, b_start: nat, b_count: nat) -> Seq<char> {
    "@@ -"@ + decimal(a_start) + ","@ + decimal(a_count) + " +"@ + decimal(b_start) + ","@
        + decimal(b_count) + " @@\n"@
}

/// A rendered hunk.
pub open spec fn render_hunk(a: Seq<Seq<char>>, b: Seq<Seq<char>>, h: Seq<Edit>) -> Seq<char> {
    let a0 = range_start(h, true);
    let b0 = range_start(h, false);
    hunk_header(
        a0 + 1,
        (end_index(h, true) - a0) as nat,
        b0 + 1,
        (end_index(h, false) - b0) as nat,
    ) + render_edits(a, b, h)
}

/// The rendered hunks, in order.
pub open spec fn render_hunks(
    a: Seq<Seq<char>>,
    b: Seq<Seq<char>>,
    m: Seq<Edit>,
    hs: Seq<(nat, nat)>,
) -> Seq<char>
    decreases hs.len(),
{
    if hs.len() == 0 {
        seq![]
    } else {
        render_hunks(a, b, m, hs.drop_last()) + render_hunk(
            a,
            b,
            m.subrange(hs.last().0 as int, (hs.last().1 + 1) as int),
        )
    }
}

/// Lines each written with a leading mark and a newline.
pub open spec fn marked_lines(mark: char, ls: Seq<Seq<char>>) -> Seq<char>
    decreases ls.len(),
{
    if ls.len() == 0 {
        seq![]
    } else {
        marked_lines(mark, ls.drop_last()) + seq![mark] + ls.last() + seq!['\n']
    }
}

/// The unified-diff text of a script: whole-file hunks when one side is
/// empty; hunks with `ctx` lines of context otherwise; and, when nothing
/// changed, the common lines under one header.
pub open spec fn format_diff_view(a: Seq<Seq<char>>, b: Seq<Seq<char>>, e: Seq<Edit>, ctx: nat) -> Seq<char> {
    if e.len() == 0 {
        seq![]
    } else if a.len() == 0 && b.len() != 0 {
        "@@ -0,0 +1,"@ + decimal(b.len()) + " @@\n"@ + marked_lines('+', b)
    } else if a.len() != 0 && b.len() == 0 {
        "@@ -1,"@ + decimal(a.len()) + " +0,0 @@\n"@ + marked_lines('-', a)
    } else if a.len() == 0 && b.len() == 0 {
        seq![]
    } else {
        let hs = hunk_scan(e, ctx, 0, None);
        if hs.len() == 0 {
            let n = if a.len() < b.len() {
                a.len()
            } else {
                b.len()
            };
            "@@ -1,"@ + decimal(a.len()) + " +1,"@ + decimal(b.len()) + " @@\n"@ + marked_lines(
                ' ',
                a.take(n as int),
            )
        } else {
            render_hunks(a, b, e, hs)
        }
    }
}

fn push_marked_lines(r: &mut String, mark: char, ls: &[String], n: usize)
    requires
        n <= ls.len(),
    ensures
        final(r)@ == old(r)@ + marked_lines(mark, strings_view(ls@).take(n as int)),
{
    let ghost r0 = r@;
    let ghost lv = strings_view(ls@);
    let mut i: usize = 0;
    assert(lv.take(0) =~= Seq::<Seq<char>>::empty());
    while i < n
        invariant
            n <= ls.len(),
            lv == strings_view(ls@),
            i <= n,
            r@ == r0 + marked_lines(mark, lv.take(i as int)),
        decreases n - i,
    {
        r.push(mark);
        push_str(r, ls[i].as_str());
        r.push('\n');
        assert(lv.take(i + 1).drop_last() =~= lv.take(i as int));
        assert(r@ =~= r0 + marked_lines(mark, lv.take(i + 1)));
        i += 1;
    }
}

/// The hunk ranges of a script.
fn scan_hunks(m: &[Edit], ctx: usize) -> (r: Vec<(usize, usize)>)
    ensures
        r@.map_values(|h: (usize, usize)| (h.0 as nat, h.1 as nat)) == hunk_scan(m@, ctx as nat, 0, None),
        forall|k: int| 0 <= k < r@.len() ==> #[trigger] r@[k].0 <= r@[k].1 < m@.len(),
{
    let ghost target = hunk_scan(m@, ctx as nat, 0, None);
    let mut r: Vec<(usize, usize)> = Vec::new();
    let mut open: bool = false;
    let mut lo: usize = 0;
    let mut p: usize = 0;
    let mut idx: usize = 0;
    while idx < m.len()
        invariant
            idx <= m.len(),
            open ==> lo <= p < idx,
            r@.map_values(|h: (usize, usize)| (h.0 as nat, h.1 as nat)) + hunk_scan(
                m@,
                ctx as nat,
                idx as nat,
                if open {
                    Some((lo as nat, p as nat))
                } else {
                    None
                },
            ) == target,
            forall|k: int| 0 <= k < r@.len() ==> #[trigger] r@[k].0 <= r@[k].1 < m@.len(),
        decreases m.len() - idx,
    {
        let ghost st = if open {
            Some((lo as nat, p as nat))
        } else {
            None::<(nat, nat)>
        };
        let ghost done = r@.map_values(|h: (usize, usize)| (h.0 as nat, h.1 as nat));
        let change = match m[idx] {
            Edit::Equal(_, _) => false,
            _ => true,
        };
        if change {
            let start: usize = if idx > ctx {
                idx - ctx
            } else {
                0
            };
            if !open {
                lo = start;
            }
            open = true;
            p = idx;
        } else if open {
            if idx - p <= ctx {
            } else {
                r.push((lo, idx - 1));
                assert(r@.map_values(|h: (usize, usize)| (h.0 as nat, h.1 as nat)) =~= done.push(
                    (lo as nat, (idx - 1) as nat),
                ));
                open = false;
            }
        }
        idx += 1;
    }
    if open {
        let ghost done = r@.map_values(|h: (usize, usize)| (h.0 as nat, h.1 as nat));
        r.push((lo, m.len() - 1));
        assert(r@.map_values(|h: (usize, usize)| (h.0 as nat, h.1 as nat)) =~= done.push(
            (lo as nat, (m.len() - 1) as nat),
        ));
    } else {
        assert(r@.map_values(|h: (usize, usize)| (h.0 as nat, h.1 as nat)) =~= r@.map_values(
            |h: (usize, usize)| (h.0 as nat, h.1 as nat),
        ) + Seq::<(nat, nat)>::empty());
    }
    r
}

/// Renders one hunk.
#[verifier::rlimit(60)]
#[verifier::spinoff_prover]
fn push_hunk(r: &mut String, a: &[String], b: &[String], m: &[Edit], lo: usize, hi: usize)
    requires
        lo <= hi < m.len(),
        indices_in_bounds(a.len() as nat, b.len() as nat, m@),
    ensures
        final(r)@ == old(r)@ + render_hunk(
            strings_view(a@),
            strings_view(b@),
            m@.subrange(lo as int, hi + 1),
        ),
{
    let ghost av = strings_view(a@);
    let ghost bv = strings_view(b@);
    let ghost h = m@.subrange(lo as int, hi + 1);
    let mut a_min: usize = usize::MAX;
    let mut a_max: usize = 0;
    let mut b_min: usize = usize::MAX;
    let mut b_max: usize = 0;
    let mut body = String::new();
    let mut k: usize = lo;
    assert(m@.subrange(lo as int, lo as int) =~= Seq::<Edit>::empty());
    while k <= hi
        invariant
            lo <= k <= hi + 1,
            hi < m.len(),
            indices_in_bounds(a.len() as nat, b.len() as nat, m@),
            av == strings_view(a@),
            bv == strings_view(b@),
            a_min as nat == min_index(m@.subrange(lo as int, k as int), true),
            a_max as nat == end_index(m@.subrange(lo as int, k as int), true),
            b_min as nat == min_index(m@.subrange(lo as int, k as int), false),
            b_max as nat == end_index(m@.subrange(lo as int, k as int), false),
            a_min == usize::MAX ==> a_max == 0,
            a_min != usize::MAX ==> a_min < a_max <= a.len(),
            b_min == usize::MAX ==> b_max == 0,
            b_min != usize::MAX ==> b_min < b_max <= b.len(),
            body@ == render_edits(av, bv, m@.subrange(lo as int, k as int)),
        decreases hi + 1 - k,
    {
        let e = m[k];
        let ghost prev = m@.subrange(lo as int, k as int);
        let ghost next = m@.subrange(lo as int, k + 1);
        assert(next.drop_last() =~= prev);
        assert(next.last() == e);
        match e {
            Edit::Equal(ai, bi) => {
                if ai < a_min {
                    a_min = ai;
                }
                if ai + 1 > a_max {
                    a_max = ai + 1;
                }
                if bi < b_min {
                    b_min = bi;
                }
                if bi + 1 > b_max {
                    b_max = bi + 1;
                }
                body.push(' ');
                push_str(&mut body, a[ai].as_str());
                body.push('\n');
            },
            Edit::Delete(ai) => {
                if ai < a_min {
                    a_min = ai;
                }
                if ai + 1 > a_max {
                    a_max = ai + 1;
                }
                body.push('-');
                push_str(&mut body, a[ai].as_str());
                body.push('\n');
            },
            Edit::Insert(bi) => {
                if bi < b_min {
                    b_min = bi;
                }
                if bi + 1 > b_max {
                    b_max = bi + 1;
                }
                body.push('+');
                push_str(&mut body, b[bi].as_str());
                body.push('\n');
            },
        }
        assert(body@ =~= render_edits(av, bv, next));
        k += 1;
    }
    assert(m@.subrange(lo as int, k as int) == h);
    if a_min == usize::MAX {
        a_min = 0;
    }
    if b_min == usize::MAX {
        b_min = 0;
    }
    let ghost r0 = r@;
    push_str(r, "@@ -");
    push_decimal(r, (a_min + 1) as u64);
    push_str(r, ",");
    push_decimal(r, (a_max - a_min) as u64);
    push_str(r, " +");
    push_decimal(r, (b_min + 1) as u64);
    push_str(r, ",");
    push_decimal(r, (b_max - b_min) as u64);
    push_str(r, " @@\n");
    push_str(r, body.as_str());
    assert(r@ =~= r0 + render_hunk(av, bv, h));
}

/// Formats an edit script between two sequences of lines as unified-diff
/// hunks with the given number of context lines.
pub fn format_diff(a: &[String], b: &[String], edits: &[Edit], context_lines: usize) -> (r: String)
    requires
        valid_script(strings_view(a@), strings_view(b@), edits@),
    ensures
        r@ == format_diff_view(strings_view(a@), strings_view(b@), edits@, context_lines as nat),
{
    let ghost av = strings_view(a@);
    let ghost bv = strings_view(b@);
    proof {
        lemma_walk_in_bounds(av, bv, edits@, 0, 0);
    }
    let mut result = String::new();
    if edits.len() == 0 {
        return result;
    }
    if a.len() == 0 && b.len() != 0 {
        push_str(&mut result, "@@ -0,0 +1,");
        push_decimal(&mut result, b.len() as u64);
        push_str(&mut result, " @@\n");
        push_marked_lines(&mut result, '+', b, b.len());
        assert(bv.take(b.len() as int) =~= bv);
        return result;
    } else if a.len() != 0 && b.len() == 0 {
        push_str(&mut result, "@@ -1,");
        push_decimal(&mut result, a.len() as u64);
        push_str(&mut result, " +0,0 @@\n");
        push_marked_lines(&mut result, '-', a, a.len());
        assert(av.take(a.len() as int) =~= av);
        return result;
    } else if a.len() == 0 && b.len() == 0 {
        return result;
    }
    let hunks = scan_hunks(edits, context_lines);
    let ghost hs = hunks@.map_values(|h: (usize, usize)| (h.0 as nat, h.1 as nat));
    if hunks.len() == 0 {
        push_str(&mut result, "@@ -1,");
        push_decimal(&mut result, a.len() as u64);
        push_str(&mut result, " +1,");
        push_decimal(&mut result, b.len() as u64);
        push_str(&mut result, " @@\n");
        let n = if a.len() < b.len() {
            a.len()
        } else {
            b.len()
        };
        push_marked_lines(&mut result, ' ', a, n);
        return result;
    }
    let mut t: usize = 0;
    assert(hs.take(0) =~= Seq::<(nat, nat)>::empty());
    while t < hunks.len()
        invariant
            t <= hunks.len(),
            hs == hunks@.map_values(|h: (usize, usize)| (h.0 as nat, h.1 as nat)),
            forall|k: int| 0 <= k < hunks@.len() ==> #[trigger] hunks@[k].0 <= hunks@[k].1 < edits@.len(),
            indices_in_bounds(a.len() as nat, b.len() as nat, edits@),
            av == strings_view(a@),
            bv == strings_view(b@),
            result@ == render_hunks(av, bv, edits@, hs.take(t as int)),
        decreases hunks.len() - t,
    {
        let (lo, hi) = hunks[t];
        assert(hunks@[t as int].0 <= hunks@[t as int].1 < edits@.len());
        push_hunk(&mut result, a, b, edits, lo, hi);
        assert(hs.take(t + 1).drop_last() =~= hs.take(t as int));
        assert(hs.take(t + 1).last() == (lo as nat, hi as nat));
        t += 1;
    }
    assert(hs.take(hunks.len() as int) =~= hs);
    result
}

} // verus!

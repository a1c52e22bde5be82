//! The shared grouped-rendering algorithm: stable insertion sort by the
//! composite (outer, inner, name) key, then a walk over the sorted rows that
//! emits a section header exactly when a grouping key changes.

use vstd::prelude::*;
use vstd::string::StringExecFns;

use crate::text::{
    lemma_lex_lt_connex, lemma_lex_lt_irrefl, lemma_lex_lt_trans, lex_lt, str_eq, str_lt,
};

verus! {

/// One renderable entry: the two grouping keys, and the name and icon that
/// make up its line.
pub struct Row {
    pub outer: String,
    pub inner: String,
    pub name: String,
    pub icon: String,
}

/// Strict composite key order: outer group, then inner group, then name,
/// each compared as case-sensitive lexicographic character order.
pub open spec fn row_lt(a: Row, b: Row) -> bool {
    ||| lex_lt(a.outer@, b.outer@)
    ||| (a.outer@ == b.outer@ && (lex_lt(a.inner@, b.inner@) || (a.inner@ == b.inner@ && lex_lt(
        a.name@,
        b.name@,
    ))))
}

/// Adjacent-pair sortedness under the composite key order.
pub open spec fn spec_rows_sorted(s: Seq<Row>) -> bool {
    forall|k: int| 0 < k < s.len() ==> !row_lt(#[trigger] s[k], s[k - 1])
}

proof fn lemma_row_lt_irrefl(a: Row)
    ensures
        !row_lt(a, a),
{
    lemma_lex_lt_irrefl(a.outer@);
    lemma_lex_lt_irrefl(a.inner@);
    lemma_lex_lt_irrefl(a.name@);
}

proof fn lemma_row_lt_trans(a: Row, b: Row, c: Row)
    requires
        row_lt(a, b),
        row_lt(b, c),
    ensures
        row_lt(a, c),
{
    if lex_lt(a.outer@, b.outer@) && lex_lt(b.outer@, c.outer@) {
        lemma_lex_lt_trans(a.outer@, b.outer@, c.outer@);
    } else if a.outer@ == b.outer@ && b.outer@ == c.outer@ {
        if lex_lt(a.inner@, b.inner@) && lex_lt(b.inner@, c.inner@) {
            lemma_lex_lt_trans(a.inner@, b.inner@, c.inner@);
        } else if a.inner@ == b.inner@ && b.inner@ == c.inner@ {
            lemma_lex_lt_trans(a.name@, b.name@, c.name@);
        }
    }
}

proof fn lemma_row_lt_asym(a: Row, b: Row)
    requires
        row_lt(a, b),
    ensures
        !row_lt(b, a),
{
    if row_lt(b, a) {
        lemma_row_lt_trans(a, b, a);
        lemma_row_lt_irrefl(a);
    }
}

/// Rows that sort neither way carry the same three keys.
proof fn lemma_row_keys_equal(a: Row, b: Row)
    requires
        !row_lt(a, b),
        !row_lt(b, a),
    ensures
        a.outer@ == b.outer@,
        a.inner@ == b.inner@,
        a.name@ == b.name@,
{
    lemma_lex_lt_connex(a.outer@, b.outer@);
    lemma_lex_lt_connex(a.inner@, b.inner@);
    lemma_lex_lt_connex(a.name@, b.name@);
}

/// Where a stable insertion places `x`: before the first strictly greater
/// element, after everything less than or equal to it.
pub open spec fn spec_insert_row(x: Row, s: Seq<Row>) -> Seq<Row>
    decreases s.len(),
{
    if s.len() == 0 {
        seq![x]
    } else if row_lt(x, s[0]) {
        seq![x] + s
    } else {
        seq![s[0]] + spec_insert_row(x, s.drop_first())
    }
}

/// Stable insertion sort: each element in turn is inserted into the sorted
/// prefix, after any element with an equal key.
pub open spec fn spec_sort_rows(s: Seq<Row>) -> Seq<Row>
    decreases s.len(),
{
    if s.len() == 0 {
        Seq::empty()
    } else {
        spec_insert_row(s.last(), spec_sort_rows(s.drop_last()))
    }
}

/// Insertion splits the sequence at the first strictly greater element.
proof fn lemma_insert_row_at(x: Row, s: Seq<Row>, j: int)
    requires
        0 <= j <= s.len(),
        forall|k: int| 0 <= k < j ==> !row_lt(x, #[trigger] s[k]),
        j < s.len() ==> row_lt(x, s[j]),
    ensures
        spec_insert_row(x, s) == s.take(j) + seq![x] + s.skip(j),
    decreases j,
{
    if j == 0 {
        if s.len() == 0 {
            assert(spec_insert_row(x, s) =~= s.take(0) + seq![x] + s.skip(0));
        } else {
            assert(seq![x] + s =~= s.take(0) + seq![x] + s.skip(0));
        }
    } else {
        assert(!row_lt(x, s[0]));
        lemma_insert_row_at(x, s.drop_first(), j - 1);
        assert(seq![s[0]] + (s.drop_first().take(j - 1) + seq![x] + s.drop_first().skip(j - 1))
            =~= s.take(j) + seq![x] + s.skip(j));
    }
}

/// Inserting into a sorted sequence keeps it sorted.
proof fn lemma_insert_row_sorted(x: Row, s: Seq<Row>)
    requires
        spec_rows_sorted(s),
    ensures
        spec_rows_sorted(spec_insert_row(x, s)),
    decreases s.len(),
{
    if s.len() == 0 {
    } else if row_lt(x, s[0]) {
        let t = seq![x] + s;
        assert forall|k: int| 0 < k < t.len() implies !row_lt(#[trigger] t[k], t[k - 1]) by {
            if k == 1 {
                assert(t[0] == x);
                assert(t[1] == s[0]);
                lemma_row_lt_asym(x, s[0]);
            } else {
                assert(t[k] == s[k - 1]);
                assert(t[k - 1] == s[k - 2]);
            }
        }
    } else {
        let d = s.drop_first();
        assert forall|k: int| 0 < k < d.len() implies !row_lt(#[trigger] d[k], d[k - 1]) by {
            assert(d[k] == s[k + 1]);
            assert(d[k - 1] == s[k]);
        }
        lemma_insert_row_sorted(x, d);
        let u = spec_insert_row(x, d);
        let t = seq![s[0]] + u;
        assert forall|k: int| 0 < k < t.len() implies !row_lt(#[trigger] t[k], t[k - 1]) by {
            if k == 1 {
                if s.len() == 1 {
                    assert(u == seq![x]);
                    assert(t[1] == x);
                } else if row_lt(x, d[0]) {
                    assert(u == seq![x] + d);
                    assert(t[1] == x);
                } else {
                    assert(u == seq![d[0]] + spec_insert_row(x, d.drop_first()));
                    assert(t[1] == s[1]);
                }
            } else {
                assert(t[k] == u[k - 1]);
                assert(t[k - 1] == u[k - 2]);
            }
        }
    }
}

/// The sort's result is sorted.
pub proof fn lemma_sort_rows_sorted(s: Seq<Row>)
    ensures
        spec_rows_sorted(spec_sort_rows(s)),
    decreases s.len(),
{
    if s.len() > 0 {
        lemma_sort_rows_sorted(s.drop_last());
        lemma_insert_row_sorted(s.last(), spec_sort_rows(s.drop_last()));
    }
}

/// In a sorted sequence no later element sorts strictly before an earlier
/// one.
proof fn lemma_sorted_le(s: Seq<Row>, i: int, j: int)
    requires
        spec_rows_sorted(s),
        0 <= i <= j < s.len(),
    ensures
        !row_lt(s[j], s[i]),
    decreases j - i,
{
    if i < j {
        lemma_sorted_le(s, i, j - 1);
        assert(!row_lt(s[j], s[j - 1]));
        if row_lt(s[j], s[i]) {
            if row_lt(s[j - 1], s[j]) {
                lemma_row_lt_trans(s[j - 1], s[j], s[i]);
            } else {
                lemma_row_keys_equal(s[j - 1], s[j]);
                assert(row_lt(s[j - 1], s[i]) == row_lt(s[j], s[i]));
            }
        }
    } else {
        lemma_row_lt_irrefl(s[i]);
    }
}

/// Sorting a sequence that is already sorted leaves it unchanged — so the
/// grouped renderer is idempotent: re-running it on its own (sorted) output
/// order produces identical lines.
pub proof fn lemma_sort_rows_of_sorted(s: Seq<Row>)
    requires
        spec_rows_sorted(s),
    ensures
        spec_sort_rows(s) == s,
    decreases s.len(),
{
    if s.len() > 0 {
        let q = s.drop_last();
        assert forall|k: int| 0 < k < q.len() implies !row_lt(#[trigger] q[k], q[k - 1]) by {
            assert(q[k] == s[k]);
            assert(q[k - 1] == s[k - 1]);
        }
        lemma_sort_rows_of_sorted(q);
        assert forall|k: int| 0 <= k < q.len() implies !row_lt(s.last(), #[trigger] q[k]) by {
            lemma_sorted_le(s, k, s.len() - 1);
        }
        lemma_insert_row_at(s.last(), q, q.len() as int);
        assert(q.take(q.len() as int) =~= q);
        assert(q.skip(q.len() as int) =~= Seq::<Row>::empty());
        assert(q + seq![s.last()] + Seq::<Row>::empty() =~= s);
    }
}

/// Sorting twice is sorting once.
pub proof fn lemma_sort_rows_idempotent(s: Seq<Row>)
    ensures
        spec_sort_rows(spec_sort_rows(s)) == spec_sort_rows(s),
{
    lemma_sort_rows_sorted(s);
    lemma_sort_rows_of_sorted(spec_sort_rows(s));
}

/// On rows already in sorted order the grouped renderer re-sorts them to
/// themselves, so running it again over its own output order emits the very
/// same lines.
pub proof fn lemma_grouped_render_idempotent(s: Seq<Row>)
    requires
        spec_rows_sorted(s),
    ensures
        spec_grouped_lines(spec_sort_rows(s), Seq::empty(), Seq::empty()) == spec_grouped_lines(
            s,
            Seq::empty(),
            Seq::empty(),
        ),
{
    lemma_sort_rows_of_sorted(s);
}

/// Decides the composite key order.
fn row_lt_exec(a: &Row, b: &Row) -> (r: bool)
    ensures
        r == row_lt(*a, *b),
{
    if str_lt(a.outer.as_str(), b.outer.as_str()) {
        true
    } else if str_eq(a.outer.as_str(), b.outer.as_str()) {
        if str_lt(a.inner.as_str(), b.inner.as_str()) {
            true
        } else if str_eq(a.inner.as_str(), b.inner.as_str()) {
            str_lt(a.name.as_str(), b.name.as_str())
        } else {
            false
        }
    } else {
        false
    }
}

/// Inserts a row into a sorted vector, after any row with an equal key.
#[verifier::loop_isolation(false)]
fn insert_row(v: &mut Vec<Row>, x: Row)
    ensures
        final(v)@ == spec_insert_row(x, old(v)@),
{
    let n = v.len();
    let mut j: usize = 0;
    while j < n && !row_lt_exec(&x, &v[j])
        invariant
            j <= n,
            forall|k: int| 0 <= k < j ==> !row_lt(x, #[trigger] v@[k]),
        decreases n - j,
    {
        j = j + 1;
    }
    proof {
        lemma_insert_row_at(x, v@, j as int);
    }
    v.insert(j, x);
    proof {
        assert(old(v)@.insert(j as int, x) =~= old(v)@.take(j as int) + seq![x] + old(v)@.skip(
            j as int,
        ));
    }
}

/// Sorts rows by the composite key, stably.
#[verifier::loop_isolation(false)]
pub fn sort_rows(rows: Vec<Row>) -> (r: Vec<Row>)
    ensures
        r@ == spec_sort_rows(rows@),
{
    let ghost orig = rows@;
    let mut rest = rows;
    let mut out: Vec<Row> = Vec::new();
    let ghost mut i: int = 0;
    proof {
        assert(rest@ =~= orig.skip(0));
        assert(orig.take(0) =~= Seq::<Row>::empty());
    }
    while rest.len() > 0
        invariant
            0 <= i <= orig.len(),
            rest@ =~= orig.skip(i),
            out@ == spec_sort_rows(orig.take(i)),
        decreases rest.len(),
    {
        let x = rest.remove(0);
        proof {
            assert(x == orig[i]);
            assert(rest@ =~= orig.skip(i + 1));
            assert(orig.take(i + 1).drop_last() =~= orig.take(i));
            assert(orig.take(i + 1).last() == orig[i]);
        }
        insert_row(&mut out, x);
        proof {
            i = i + 1;
        }
    }
    proof {
        assert(orig.take(i) =~= orig);
    }
    out
}

/// The view of a produced line list: each line as its characters.
pub open spec fn lines_view(v: Seq<String>) -> Seq<Seq<char>> {
    v.map_values(|s: String| s@)
}

/// An outer-group header line.
pub open spec fn spec_outer_header(s: Seq<char>) -> Seq<char> {
    "## "@ + s
}

/// An inner-group header line.
pub open spec fn spec_inner_header(s: Seq<char>) -> Seq<char> {
    "### "@ + s
}

/// An entry line naming a record and its icon.
pub open spec fn spec_entry_line(name: Seq<char>, icon: Seq<char>) -> Seq<char> {
    "["@ + name + "]: "@ + icon
}

fn outer_header(s: &str) -> (r: String)
    ensures
        r@ == spec_outer_header(s@),
{
    let mut r = String::from_str("## ");
    r.append(s);
    r
}

fn inner_header(s: &str) -> (r: String)
    ensures
        r@ == spec_inner_header(s@),
{
    let mut r = String::from_str("### ");
    r.append(s);
    r
}

/// Builds one "[name]: icon" line.
pub fn entry_line(name: &str, icon: &str) -> (r: String)
    ensures
        r@ == spec_entry_line(name@, icon@),
{
    let mut r = String::from_str("[");
    r.append(name);
    r.append("]: ");
    r.append(icon);
    r
}

/// The walk over sorted rows: a changed outer key emits an outer header and
/// an inner header, a changed inner key alone emits an inner header, and
/// every row emits its entry line; the trackers then hold the row's keys.
pub open spec fn spec_grouped_lines(rows: Seq<Row>, lo: Seq<char>, li: Seq<char>) -> Seq<Seq<char>>
    decreases rows.len(),
{
    if rows.len() == 0 {
        Seq::empty()
    } else {
        let r = rows[0];
        let heads: Seq<Seq<char>> = if r.outer@ != lo {
            seq![spec_outer_header(r.outer@), spec_inner_header(r.inner@)]
        } else if r.inner@ != li {
            seq![spec_inner_header(r.inner@)]
        } else {
            Seq::empty()
        };
        heads + seq![spec_entry_line(r.name@, r.icon@)] + spec_grouped_lines(
            rows.drop_first(),
            r.outer@,
            r.inner@,
        )
    }
}

/// Walks the rows in order with both trackers starting empty, emitting
/// headers at key changes and one entry line per row.
#[verifier::loop_isolation(false)]
pub fn grouped_lines(rows: Vec<Row>) -> (out: Vec<String>)
    ensures
        lines_view(out@) == spec_grouped_lines(rows@, Seq::empty(), Seq::empty()),
{
    let ghost orig = rows@;
    let mut rest = rows;
    let mut out: Vec<String> = Vec::new();
    let mut last_outer = String::new();
    let mut last_inner = String::new();
    let ghost mut i: int = 0;
    proof {
        assert(rest@ =~= orig.skip(0));
        assert(lines_view(out@) =~= Seq::<Seq<char>>::empty());
    }
    while rest.len() > 0
        invariant
            0 <= i <= orig.len(),
            rest@ =~= orig.skip(i),
            spec_grouped_lines(orig, Seq::empty(), Seq::empty()) == lines_view(out@)
                + spec_grouped_lines(orig.skip(i), last_outer@, last_inner@),
        decreases rest.len(),
    {
        let row = rest.remove(0);
        proof {
            assert(row == orig[i]);
            assert(rest@ =~= orig.skip(i + 1));
            assert(orig.skip(i)[0] == orig[i]);
            assert(orig.skip(i).drop_first() =~= orig.skip(i + 1));
        }
        let ghost out_before = out@;
        if !str_eq(row.outer.as_str(), last_outer.as_str()) {
            out.push(outer_header(row.outer.as_str()));
            out.push(inner_header(row.inner.as_str()));
        } else if !str_eq(row.inner.as_str(), last_inner.as_str()) {
            out.push(inner_header(row.inner.as_str()));
        }
        out.push(entry_line(row.name.as_str(), row.icon.as_str()));
        proof {
            let r = orig[i];
            let heads: Seq<Seq<char>> = if r.outer@ != last_outer@ {
                seq![spec_outer_header(r.outer@), spec_inner_header(r.inner@)]
            } else if r.inner@ != last_inner@ {
                seq![spec_inner_header(r.inner@)]
            } else {
                Seq::<Seq<char>>::empty()
            };
            assert(lines_view(out@) =~= lines_view(out_before) + heads + seq![
                spec_entry_line(r.name@, r.icon@),
            ]);
            assert(lines_view(out_before) + heads + seq![spec_entry_line(r.name@, r.icon@)]
                + spec_grouped_lines(orig.skip(i + 1), r.outer@, r.inner@) =~= lines_view(
                out_before,
            ) + (heads + seq![spec_entry_line(r.name@, r.icon@)] + spec_grouped_lines(
                orig.skip(i + 1),
                r.outer@,
                r.inner@,
            )));
        }
        last_outer = row.outer;
        last_inner = row.inner;
        proof {
            i = i + 1;
        }
    }
    proof {
        assert(spec_grouped_lines(orig.skip(i), last_outer@, last_inner@) =~= Seq::<
            Seq<char>,
        >::empty());
        assert(lines_view(out@) + Seq::<Seq<char>>::empty() =~= lines_view(out@));
    }
    out
}

} // verus!

//! The rows of a data file, and the form of a file that does not depend on their order.

use vstd::prelude::*;
use vstd::relations::*;

use crate::order::{lemma_lex_antisymmetric, lemma_lex_total, lemma_lex_transitive, lex_le, Ranked};
use crate::sort::sorted;

verus! {

pub const NEWLINE: u8 = 10;

pub const CARRIAGE_RETURN: u8 = 13;

/// How many bytes stand before the first newline; all of them where there is none.
pub open spec fn line_len(data: Seq<u8>) -> nat
    decreases data.len(),
{
    if data.len() == 0 || data[0] == NEWLINE {
        0
    } else {
        1 + line_len(data.drop_first())
    }
}

/// A line without the carriage return at its end, if there is one.
pub open spec fn without_return(line: Seq<u8>) -> Seq<u8> {
    if line.len() > 0 && line.last() == CARRIAGE_RETURN {
        line.drop_last()
    } else {
        line
    }
}

/// The rows of a file: its lines, without line ends, that are not empty.
pub open spec fn rows(data: Seq<u8>) -> Seq<Seq<u8>>
    decreases data.len(),
{
    let len = line_len(data) as int;
    let row = without_return(data.take(len));
    let rest = if len < data.len() {
        rows(data.skip(len + 1))
    } else {
        Seq::empty()
    };
    if row.len() == 0 {
        rest
    } else {
        seq![row] + rest
    }
}

/// Rows one after the other, each ended by a newline.
pub open spec fn joined(rows: Seq<Seq<u8>>) -> Seq<u8>
    decreases rows.len(),
{
    if rows.len() == 0 {
        Seq::empty()
    } else {
        rows[0].push(NEWLINE) + joined(rows.drop_first())
    }
}

/// The order that rows are sorted by.
pub open spec fn row_order() -> spec_fn(Seq<u8>, Seq<u8>) -> bool {
    |a: Seq<u8>, b: Seq<u8>| lex_le(a, b)
}

/// The rows of a file in sorted order, each ended by a newline.
pub open spec fn canonical_form(data: Seq<u8>) -> Seq<u8> {
    joined(rows(data).sort_by(row_order()))
}

pub open spec fn has_newline(row: Seq<u8>) -> bool {
    row.contains(NEWLINE)
}

proof fn lemma_row_order_is_total()
    ensures
        total_ordering(row_order()),
{
    let order = row_order();
    assert forall|a: Seq<u8>| #[trigger] order(a, a) by {
        lemma_lex_total(a, a);
    }
    assert forall|a: Seq<u8>, b: Seq<u8>| #[trigger] order(a, b) && #[trigger] order(b, a) implies a
        == b by {
        lemma_lex_antisymmetric(a, b);
    }
    assert forall|a: Seq<u8>, b: Seq<u8>, c: Seq<u8>|
        #[trigger] order(a, b) && #[trigger] order(b, c) implies order(a, c) by {
        lemma_lex_transitive(a, b, c);
    }
    assert forall|a: Seq<u8>, b: Seq<u8>| #[trigger] order(a, b) || #[trigger] order(b, a) by {
        lemma_lex_total(a, b);
    }
}

proof fn lemma_line_len(data: Seq<u8>)
    ensures
        line_len(data) <= data.len(),
        forall|i: int| 0 <= i < line_len(data) ==> #[trigger] data[i] != NEWLINE,
        line_len(data) < data.len() ==> data[line_len(data) as int] == NEWLINE,
    decreases data.len(),
{
    if data.len() > 0 && data[0] != NEWLINE {
        lemma_line_len(data.drop_first());
        assert forall|i: int| 0 <= i < line_len(data) implies #[trigger] data[i] != NEWLINE by {
            if i > 0 {
                assert(data[i] == data.drop_first()[i - 1]);
            }
        }
    }
}

proof fn lemma_line_len_is(data: Seq<u8>, n: int)
    requires
        0 <= n <= data.len(),
        forall|i: int| 0 <= i < n ==> #[trigger] data[i] != NEWLINE,
        n < data.len() ==> data[n] == NEWLINE,
    ensures
        line_len(data) == n,
{
    lemma_line_len(data);
    let m = line_len(data) as int;
    if m < n {
        assert(data[m] != NEWLINE);
    } else if n < m {
        assert(data[n] != NEWLINE);
    }
}

/// No row is empty, and none holds a newline.
pub proof fn lemma_rows_are_lines(data: Seq<u8>)
    ensures
        forall|i: int|
            0 <= i < rows(data).len() ==> (#[trigger] rows(data)[i]).len() > 0 && !has_newline(
                rows(data)[i],
            ),
    decreases data.len(),
{
    lemma_line_len(data);
    let len = line_len(data) as int;
    let line = data.take(len);
    let row = without_return(line);
    assert(!has_newline(row)) by {
        if has_newline(row) {
            let i = choose|i: int| 0 <= i < row.len() && row[i] == NEWLINE;
            assert(row[i] == data[i]);
        }
    }
    let rest = if len < data.len() {
        rows(data.skip(len + 1))
    } else {
        Seq::empty()
    };
    if len < data.len() {
        lemma_rows_are_lines(data.skip(len + 1));
    }
    assert forall|i: int| 0 <= i < rows(data).len() implies (#[trigger] rows(data)[i]).len() > 0
        && !has_newline(rows(data)[i]) by {
        if row.len() == 0 {
            assert(rows(data)[i] == rest[i]);
        } else if i > 0 {
            assert(rows(data)[i] == rest[i - 1]);
        }
    }
}

/// Two sequences of the same values, each mapped by `f`, are sequences of the same values.
pub proof fn lemma_map_keeps_multiset<A, B>(a: Seq<A>, b: Seq<A>, f: spec_fn(A) -> B)
    requires
        a.to_multiset() == b.to_multiset(),
    ensures
        a.map_values(f).to_multiset() == b.map_values(f).to_multiset(),
    decreases a.len(),
{
    broadcast use vstd::seq_lib::group_to_multiset_ensures;
    broadcast use vstd::multiset::group_multiset_axioms;

    a.to_multiset_ensures();
    b.to_multiset_ensures();
    if a.len() == 0 {
        assert(a.map_values(f) =~= b.map_values(f));
    } else {
        let last = a.len() - 1;
        let x = a[last];
        assert(a.contains(x));
        assert(a.to_multiset().count(x) > 0);
        assert(b.to_multiset().count(x) > 0);
        assert(b.contains(x));
        let k = choose|k: int| 0 <= k < b.len() && b[k] == x;
        lemma_map_keeps_multiset(a.remove(last), b.remove(k), f);
        let fa = a.map_values(f);
        let fb = b.map_values(f);
        assert(fa.remove(last) =~= a.remove(last).map_values(f));
        assert(fb.remove(k) =~= b.remove(k).map_values(f));
        assert(fa.contains(fa[last]));
        assert(fb.contains(fb[k]));
        assert(fa.to_multiset() =~= fa.remove(last).to_multiset().insert(f(x)));
        assert(fb.to_multiset() =~= fb.remove(k).to_multiset().insert(f(x)));
    }
}

proof fn lemma_joined_push(s: Seq<Seq<u8>>, row: Seq<u8>)
    ensures
        joined(s.push(row)) == joined(s) + row.push(NEWLINE),
    decreases s.len(),
{
    if s.len() == 0 {
        assert(s.push(row).drop_first() =~= Seq::<Seq<u8>>::empty());
        assert(joined(Seq::<Seq<u8>>::empty()) =~= Seq::<u8>::empty());
        assert(joined(s.push(row)) =~= joined(s) + row.push(NEWLINE));
    } else {
        assert(s.push(row).drop_first() =~= s.drop_first().push(row));
        lemma_joined_push(s.drop_first(), row);
        assert(joined(s.push(row)) =~= joined(s) + row.push(NEWLINE));
    }
}

proof fn lemma_joined_injective(a: Seq<Seq<u8>>, b: Seq<Seq<u8>>)
    requires
        joined(a) == joined(b),
        forall|i: int| 0 <= i < a.len() ==> !has_newline(#[trigger] a[i]),
        forall|i: int| 0 <= i < b.len() ==> !has_newline(#[trigger] b[i]),
    ensures
        a == b,
    decreases a.len(),
{
    if a.len() == 0 || b.len() == 0 {
        assert(a.len() > 0 ==> joined(a).len() > 0);
        assert(b.len() > 0 ==> joined(b).len() > 0);
        assert(a =~= b);
    } else {
        let text = joined(a);
        let n = a[0].len() as int;
        let m = b[0].len() as int;
        assert forall|i: int| 0 <= i < n implies text[i] != NEWLINE by {
            assert(text[i] == a[0][i]);
            assert(!has_newline(a[0]));
        }
        assert(text[n] == NEWLINE);
        assert forall|i: int| 0 <= i < m implies text[i] != NEWLINE by {
            assert(text[i] == b[0][i]);
            assert(!has_newline(b[0]));
        }
        assert(text[m] == NEWLINE);
        assert(n == m);
        assert(text.take(n) =~= a[0]);
        assert(text.take(n) =~= b[0]);
        assert(text.skip(n + 1) =~= joined(a.drop_first()));
        assert(text.skip(n + 1) =~= joined(b.drop_first()));
        lemma_joined_injective(a.drop_first(), b.drop_first());
        assert(a =~= seq![a[0]] + a.drop_first());
        assert(b =~= seq![b[0]] + b.drop_first());
    }
}

/// Two files have the same canonical form exactly when they hold the same rows equally often,
/// in whatever order and with whatever line ends and blank lines.
pub proof fn law_canonical_form_is_the_rows(a: Seq<u8>, b: Seq<u8>)
    ensures
        canonical_form(a) == canonical_form(b) <==> rows(a).to_multiset() == rows(b).to_multiset(),
{
    broadcast use vstd::seq_lib::group_to_multiset_ensures;

    lemma_row_order_is_total();
    let sa = rows(a).sort_by(row_order());
    let sb = rows(b).sort_by(row_order());
    rows(a).lemma_sort_by_ensures(row_order());
    rows(b).lemma_sort_by_ensures(row_order());
    if rows(a).to_multiset() == rows(b).to_multiset() {
        vstd::seq_lib::lemma_sorted_unique(sa, sb, row_order());
    }
    if canonical_form(a) == canonical_form(b) {
        lemma_rows_are_lines(a);
        lemma_rows_are_lines(b);
        assert forall|i: int| 0 <= i < sa.len() implies !has_newline(#[trigger] sa[i]) by {
            assert(sa.contains(sa[i]));
            assert(rows(a).contains(sa[i]));
        }
        assert forall|i: int| 0 <= i < sb.len() implies !has_newline(#[trigger] sb[i]) by {
            assert(sb.contains(sb[i]));
            assert(rows(b).contains(sb[i]));
        }
        lemma_joined_injective(sa, sb);
    }
}

/// The rows before a newline and the rows after it are all the rows there are, in this order.
pub proof fn law_rows_are_parted_by_newlines(a: Seq<u8>, b: Seq<u8>)
    ensures
        rows(a.push(10u8) + b) == rows(a) + rows(b),
    decreases a.len(),
{
    let data = a.push(10u8) + b;
    lemma_line_len(a);
    let n = line_len(a) as int;
    assert forall|i: int| 0 <= i < n implies #[trigger] data[i] != NEWLINE by {
        assert(data[i] == a[i]);
    }
    lemma_line_len_is(data, n);
    assert(data.take(n) =~= a.take(n));
    if n < a.len() {
        let rest = a.skip(n + 1);
        assert(data.skip(n + 1) =~= rest.push(10u8) + b);
        law_rows_are_parted_by_newlines(rest, b);
    } else {
        assert(data.skip(n + 1) =~= b);
    }
    assert(rows(data) =~= rows(a) + rows(b));
}

/// Text without a newline is one row, and none where it is blank. A carriage return at its end
/// does not belong to the row.
pub proof fn law_line_is_a_row(line: Seq<u8>)
    requires
        !line.contains(10u8),
    ensures
        line.len() == 0 || line == seq![13u8] ==> rows(line).len() == 0,
        line.len() > 0 && line.last() != 13 ==> rows(line) == seq![line],
        line.len() > 1 && line.last() == 13 ==> rows(line) == seq![line.drop_last()],
{
    assert forall|i: int| 0 <= i < line.len() implies #[trigger] line[i] != NEWLINE by {
        assert(line.contains(line[i]));
    }
    lemma_line_len_is(line, line.len() as int);
    assert(line.take(line.len() as int) =~= line);
    assert(rows(line) =~= if without_return(line).len() == 0 {
        Seq::empty()
    } else {
        seq![without_return(line)]
    });
}

proof fn lemma_joined_is_flat(s: Seq<Seq<u8>>)
    ensures
        joined(s) == s.map_values(|row: Seq<u8>| row.push(10u8)).flatten(),
    decreases s.len(),
{
    let ended = s.map_values(|row: Seq<u8>| row.push(10u8));
    if s.len() > 0 {
        lemma_joined_is_flat(s.drop_first());
        assert(ended.drop_first() =~= s.drop_first().map_values(|row: Seq<u8>| row.push(10u8)));
        assert(ended.first() == s[0].push(10u8));
    }
    assert(joined(s) =~= ended.flatten());
}

/// The canonical form is all the rows, each as often as it occurs, in dictionary order and each
/// with a newline behind it.
pub proof fn law_canonical_form_is_the_sorted_rows(data: Seq<u8>)
    ensures
        exists|s: Seq<Seq<u8>>|
            #![trigger s.to_multiset()]
            s.to_multiset() == rows(data).to_multiset() && (forall|i: int, j: int|
                0 <= i < j < s.len() ==> lex_le(#[trigger] s[i], #[trigger] s[j]))
                && canonical_form(data) == s.map_values(|row: Seq<u8>| row.push(10u8)).flatten(),
{
    lemma_row_order_is_total();
    rows(data).lemma_sort_by_ensures(row_order());
    let s = rows(data).sort_by(row_order());
    assert forall|i: int, j: int| 0 <= i < j < s.len() implies lex_le(
        #[trigger] s[i],
        #[trigger] s[j],
    ) by {
        assert(row_order()(s[i], s[j]));
    }
    lemma_joined_is_flat(s);
    assert(s.to_multiset() == rows(data).to_multiset());
}

/// The rows of a file.
pub fn split_rows<'a>(data: &'a [u8]) -> (r: Vec<&'a [u8]>)
    ensures
        r@.map_values(|row: &[u8]| row@) == rows(data@),
{
    let mut r: Vec<&'a [u8]> = Vec::new();
    let mut start: usize = 0;
    let mut more = true;
    let ghost content = |row: &[u8]| row@;
    proof {
        assert(data@.skip(0) =~= data@);
        assert(r@.map_values(content) + rows(data@) =~= rows(data@));
    }
    while more
        invariant
            start <= data@.len(),
            content == (|row: &[u8]| row@),
            more ==> rows(data@) == r@.map_values(content) + rows(data@.skip(start as int)),
            !more ==> rows(data@) == r@.map_values(content),
        decreases data@.len() - start + if more { 1int } else { 0int },
    {
        let ghost rest = data@.skip(start as int);
        let mut end: usize = start;
        while end < data.len() && data[end] != NEWLINE
            invariant
                start <= end <= data@.len(),
                forall|i: int| start <= i < end ==> #[trigger] data@[i] != NEWLINE,
            decreases data@.len() - end,
        {
            end = end + 1;
        }
        proof {
            lemma_line_len_is(rest, end - start);
        }
        let mut row_end: usize = end;
        if end > start && data[end - 1] == CARRIAGE_RETURN {
            row_end = end - 1;
        }
        let row = vstd::slice::slice_subrange(data, start, row_end);
        assert(row@ =~= without_return(rest.take(end - start)));
        let ghost before = r@.map_values(content);
        if row_end > start {
            r.push(row);
            assert(r@.map_values(content) =~= before.push(row@));
        }
        if end < data.len() {
            assert(rest.skip(end - start + 1) =~= data@.skip(end + 1));
            assert(rows(data@) =~= r@.map_values(content) + rows(data@.skip(end + 1)));
            start = end + 1;
        } else {
            assert(rows(data@) =~= r@.map_values(content));
            more = false;
        }
    }
    r
}

/// The canonical form of a file.
pub fn canonicalize(data: &[u8]) -> (form: Vec<u8>)
    ensures
        form@ == canonical_form(data@),
{
    let unsorted = split_rows(data);
    let sorted_rows = sorted(unsorted);
    let ghost content = |row: &[u8]| row@;
    let ghost texts = sorted_rows@.map_values(content);
    proof {
        lemma_row_order_is_total();
        lemma_map_keeps_multiset(unsorted@, sorted_rows@, content);
        rows(data@).lemma_sort_by_ensures(row_order());
        assert(sorted_by(texts, row_order())) by {
            assert forall|i: int, j: int| 0 <= i < j < texts.len() implies #[trigger] row_order()(
                texts[i],
                texts[j],
            ) by {
                assert(sorted_rows@[i].ranks_le(sorted_rows@[j]));
            }
        }
        vstd::seq_lib::lemma_sorted_unique(texts, rows(data@).sort_by(row_order()), row_order());
    }
    let mut form: Vec<u8> = Vec::new();
    let mut i: usize = 0;
    assert(texts.take(0) =~= Seq::<Seq<u8>>::empty());
    while i < sorted_rows.len()
        invariant
            i <= sorted_rows@.len(),
            content == (|row: &[u8]| row@),
            texts == sorted_rows@.map_values(content),
            form@ == joined(texts.take(i as int)),
        decreases sorted_rows@.len() - i,
    {
        let row = sorted_rows[i];
        let ghost before = form@;
        form.extend_from_slice(row);
        assert(form@ =~= before + row@);
        form.push(NEWLINE);
        proof {
            assert(texts.take(i + 1) =~= texts.take(i as int).push(row@));
            lemma_joined_push(texts.take(i as int), row@);
            assert(form@ =~= before + row@.push(NEWLINE));
        }
        i = i + 1;
    }
    assert(texts.take(i as int) =~= texts);
    form
}

} // verus!

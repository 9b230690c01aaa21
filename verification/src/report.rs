//! Batch input and tabular export: target lists read from standard input,
//! and the CSV table that several module outputs are merged into.
use vstd::prelude::*;

use crate::text::{
    append_chars, chars_of, has_char, join, lemma_deep_view_push, string_of, trim, trim_chars,
};

verus! {

/// The lines of `s`, split at each `\n` (the last line may be empty).
pub open spec fn lines_of(s: Seq<char>) -> Seq<Seq<char>>
    decreases s.len(),
{
    if s.len() == 0 {
        seq![Seq::empty()]
    } else {
        let ls = lines_of(s.drop_last());
        if s.last() == '\n' {
            ls.push(Seq::empty())
        } else {
            ls.update(ls.len() - 1, ls.last().push(s.last()))
        }
    }
}

/// A line names a target when, trimmed, it is not empty and is not a `#`
/// comment.
pub open spec fn is_target_line(line: Seq<char>) -> bool {
    trim(line).len() > 0 && trim(line)[0] != '#'
}

/// The trimmed target lines among `lines`, in order.
pub open spec fn target_lines(lines: Seq<Seq<char>>) -> Seq<Seq<char>>
    decreases lines.len(),
{
    if lines.len() == 0 {
        Seq::empty()
    } else {
        let rest = target_lines(lines.drop_last());
        if is_target_line(lines.last()) {
            rest.push(trim(lines.last()))
        } else {
            rest
        }
    }
}

proof fn lemma_lines_of_nonempty(s: Seq<char>)
    ensures
        lines_of(s).len() >= 1,
    decreases s.len(),
{
    if s.len() > 0 {
        lemma_lines_of_nonempty(s.drop_last());
    }
}

/// Splitting at line breaks loses nothing: no line holds a `\n`, and the
/// lines joined with `\n` give the text back.
pub proof fn lemma_lines_of_join(s: Seq<char>)
    ensures
        join(lines_of(s), seq!['\n']) == s,
        forall|i: int| 0 <= i < lines_of(s).len() ==> !(#[trigger] lines_of(s)[i]).contains('\n'),
    decreases s.len(),
{
    if s.len() > 0 {
        let t = s.drop_last();
        lemma_lines_of_join(t);
        lemma_lines_of_nonempty(t);
        let ls = lines_of(t);
        let r = lines_of(s);
        if s.last() == '\n' {
            assert(r.drop_last() =~= ls);
            assert(join(r, seq!['\n']) =~= s);
            assert forall|i: int| 0 <= i < r.len() implies !(#[trigger] r[i]).contains('\n') by {
                if i < ls.len() {
                    assert(r[i] == ls[i]);
                } else {
                    assert(r[i] =~= Seq::<char>::empty());
                }
            }
        } else {
            let n = ls.len() - 1;
            if ls.len() == 1 {
                assert(join(r, seq!['\n']) =~= s);
            } else {
                assert(r.drop_last() =~= ls.drop_last());
                assert(r.last() == ls.last().push(s.last()));
                let j = join(ls.drop_last(), seq!['\n']);
                assert(join(ls, seq!['\n']) == j + seq!['\n'] + ls.last());
                assert(join(r, seq!['\n']) == j + seq!['\n'] + ls.last().push(s.last()));
                assert(j + seq!['\n'] + ls.last().push(s.last()) =~= (j + seq!['\n'] + ls.last()).push(
                    s.last(),
                ));
                assert(t.push(s.last()) =~= s);
            }
            assert forall|i: int| 0 <= i < r.len() implies !(#[trigger] r[i]).contains('\n') by {
                if i < n {
                    assert(r[i] == ls[i]);
                } else {
                    assert(!ls[n].contains('\n'));
                    if r[i].contains('\n') {
                        let k = choose|k: int| 0 <= k < r[i].len() && r[i][k] == '\n';
                        if k < ls[n].len() {
                            assert(ls[n][k] == '\n');
                        }
                    }
                }
            }
        }
    }
}

/// The targets are the lines that, trimmed, are neither empty nor start
/// with `#`, trimmed and in their order.
pub proof fn lemma_target_lines_filter(lines: Seq<Seq<char>>)
    ensures
        target_lines(lines) == lines.filter(|l: Seq<char>| trim(l).len() > 0 && trim(l)[0] != '#')
            .map_values(|l: Seq<char>| trim(l)),
    decreases lines.len(),
{
    reveal(Seq::filter);
    if lines.len() > 0 {
        lemma_target_lines_filter(lines.drop_last());
        let pred = |l: Seq<char>| trim(l).len() > 0 && trim(l)[0] != '#';
        let f = lines.drop_last().filter(pred);
        if pred(lines.last()) {
            assert(f.push(lines.last()).map_values(|l: Seq<char>| trim(l)) =~= f.map_values(
                |l: Seq<char>| trim(l),
            ).push(trim(lines.last())));
        }
    }
}

/// Standard input held no target.
#[derive(Debug, Clone, Copy, PartialEq, Eq, Structural)]
pub enum TargetsError {
    NoTargets,
}

/// The targets listed in `input`, one per line: lines are trimmed, and
/// blank lines and `#` comments are skipped. It is an error when none is
/// left.
pub fn targets_from_lines(input: &str) -> (r: Result<Vec<String>, TargetsError>)
    ensures
        match r {
            Ok(ts) => ts.deep_view() == target_lines(lines_of(input@)) && ts@.len() > 0,
            Err(_) => target_lines(lines_of(input@)).len() == 0,
        },
{
    let v = chars_of(input);
    let mut done: Vec<String> = Vec::new();
    let mut cur: Vec<char> = Vec::new();
    let mut i: usize = 0;
    proof {
        assert(v@.take(0) =~= Seq::<char>::empty());
    }
    while i < v.len()
        invariant
            i <= v.len(),
            lines_of(v@.take(i as int)).len() >= 1,
            lines_of(v@.take(i as int)).last() == cur@,
            done.deep_view() == target_lines(lines_of(v@.take(i as int)).drop_last()),
        decreases v.len() - i,
    {
        let ghost prev = lines_of(v@.take(i as int));
        assert(v@.take(i + 1).drop_last() =~= v@.take(i as int));
        assert(v@.take(i + 1).last() == v@[i as int]);
        proof {
            lemma_lines_of_nonempty(v@.take(i + 1));
        }
        if v[i] == '\n' {
            let t = trim_chars(&cur);
            assert(prev.drop_last().push(prev.last()) =~= prev);
            if t.len() > 0 && t[0] != '#' {
                let ghost before = done.deep_view();
                done.push(string_of(&t));
                assert(done.deep_view() =~= before.push(trim(cur@)));
            }
            assert(lines_of(v@.take(i + 1)).drop_last() =~= prev);
            cur = Vec::new();
        } else {
            let c = v[i];
            cur.push(c);
            assert(lines_of(v@.take(i + 1)).drop_last() =~= prev.drop_last());
        }
        i += 1;
    }
    assert(v@.take(v.len() as int) =~= v@);
    let ghost ls = lines_of(v@);
    let t = trim_chars(&cur);
    assert(ls.drop_last().push(ls.last()) =~= ls);
    if t.len() > 0 && t[0] != '#' {
        let ghost before = done.deep_view();
        done.push(string_of(&t));
        assert(done.deep_view() =~= before.push(trim(cur@)));
    }
    if done.len() == 0 {
        Err(TargetsError::NoTargets)
    } else {
        Ok(done)
    }
}

// ---------------------------------------------------------------------------
// CSV export
// ---------------------------------------------------------------------------

/// The flat table of one module output.
pub struct Table {
    /// The module label written in the first CSV column of merged exports.
    pub module: String,
    pub headers: Vec<String>,
    pub rows: Vec<Vec<String>>,
}

pub struct TableView {
    pub module: Seq<char>,
    pub headers: Seq<Seq<char>>,
    pub rows: Seq<Seq<Seq<char>>>,
}

impl Table {
    pub open spec fn view_of(&self) -> TableView {
        TableView { module: self.module@, headers: self.headers.deep_view(), rows: self.rows.deep_view() }
    }
}

pub open spec fn tables_view(ts: Seq<Table>) -> Seq<TableView> {
    ts.map_values(|t: Table| t.view_of())
}

/// Whether every two neighbouring tables have the same headers.
pub open spec fn same_headers(ts: Seq<TableView>) -> bool {
    forall|i: int| 0 <= i < ts.len() - 1 ==> #[trigger] ts[i].headers == ts[i + 1].headers
}

/// The rows of `t`, each headed by the module label.
pub open spec fn labelled_rows(t: TableView) -> Seq<Seq<Seq<char>>> {
    t.rows.map_values(|r: Seq<Seq<char>>| seq![t.module] + r)
}

/// All tables' labelled rows, in order.
pub open spec fn merged_rows(ts: Seq<TableView>) -> Seq<Seq<Seq<char>>>
    decreases ts.len(),
{
    if ts.len() == 0 {
        Seq::empty()
    } else {
        merged_rows(ts.drop_last()) + labelled_rows(ts.last())
    }
}

/// How many rows the tables hold together.
pub open spec fn row_count(ts: Seq<TableView>) -> nat
    decreases ts.len(),
{
    if ts.len() == 0 {
        0
    } else {
        row_count(ts.drop_last()) + ts.last().rows.len()
    }
}

proof fn lemma_row_count_prefix(ts: Seq<TableView>, a: int, b: int)
    requires
        0 <= a <= b <= ts.len(),
    ensures
        row_count(ts.take(a)) <= row_count(ts.take(b)),
        b == a + 1 ==> row_count(ts.take(b)) == row_count(ts.take(a)) + ts[a].rows.len(),
    decreases b - a,
{
    if a < b {
        assert(ts.take(b).drop_last() =~= ts.take(b - 1));
        lemma_row_count_prefix(ts, a, b - 1);
    }
}

/// Merging lists every row of every table, in order, each headed by its
/// table's module label: row `j` of table `k` comes after all the rows of
/// the tables before it.
pub proof fn lemma_merged_rows(ts: Seq<TableView>)
    ensures
        merged_rows(ts).len() == row_count(ts),
        forall|k: int, j: int|
            0 <= k < ts.len() && 0 <= j < ts[k].rows.len() ==> merged_rows(ts)[row_count(ts.take(k))
                + j] == seq![ts[k].module] + (#[trigger] ts[k].rows[j]),
    decreases ts.len(),
{
    if ts.len() > 0 {
        let t = ts.drop_last();
        let n = ts.len() - 1;
        lemma_merged_rows(t);
        let m = merged_rows(t);
        let last = labelled_rows(ts.last());
        assert forall|k: int, j: int|
            0 <= k < ts.len() && 0 <= j < ts[k].rows.len() implies merged_rows(ts)[row_count(
            ts.take(k),
        ) + j] == seq![ts[k].module] + (#[trigger] ts[k].rows[j]) by {
            if k < n {
                assert(ts.take(k) =~= t.take(k));
                assert(t[k] == ts[k]);
                lemma_row_count_prefix(t, k, k + 1);
                lemma_row_count_prefix(t, k + 1, n);
                assert(t.take(n) =~= t);
            } else {
                assert(ts.take(k) =~= t);
                assert(last[j] == seq![ts[k].module] + ts[k].rows[j]);
            }
        }
    }
}

/// The CSV export of the outputs: one table as it is; several tables with
/// the same headers as one table with a leading `module` column; `None`
/// when the headers differ.
pub open spec fn csv_of(ts: Seq<TableView>) -> Option<(Seq<Seq<char>>, Seq<Seq<Seq<char>>>)> {
    if ts.len() > 1 && !same_headers(ts) {
        None
    } else if ts.len() > 1 {
        Some((seq!["module"@] + ts[0].headers, merged_rows(ts)))
    } else {
        Some((ts[0].headers, ts[0].rows))
    }
}

/// A single output is exported as it is; several outputs with the same
/// headers become one table with a leading `module` column and all their
/// labelled rows; outputs whose headers differ cannot be merged.
pub proof fn lemma_csv_cases(ts: Seq<TableView>)
    requires
        ts.len() > 0,
    ensures
        ts.len() == 1 ==> csv_of(ts) == Some((ts[0].headers, ts[0].rows)),
        ts.len() > 1 && (forall|i: int| 0 <= i < ts.len() - 1 ==> #[trigger] ts[i].headers == ts[i
            + 1].headers) ==> csv_of(ts) == Some((seq!["module"@] + ts[0].headers, merged_rows(ts))),
        ts.len() > 1 && (exists|i: int| 0 <= i < ts.len() - 1 && #[trigger] ts[i].headers != ts[i
            + 1].headers) ==> csv_of(ts) is None,
{
}

fn copy_strings(v: &Vec<String>) -> (r: Vec<String>)
    ensures
        r.deep_view() == v.deep_view(),
{
    let mut r: Vec<String> = Vec::new();
    let mut i: usize = 0;
    while i < v.len()
        invariant
            i <= v.len(),
            r.deep_view() == v.deep_view().take(i as int),
        decreases v.len() - i,
    {
        let ghost before = r;
        let x = v[i].clone();
        r.push(x);
        proof {
            lemma_deep_view_push(before, r, x);
        }
        assert(r.deep_view() =~= v.deep_view().take(i + 1));
        i += 1;
    }
    assert(v.deep_view().take(v.len() as int) =~= v.deep_view());
    r
}

fn copy_rows(v: &Vec<Vec<String>>) -> (r: Vec<Vec<String>>)
    ensures
        r.deep_view() == v.deep_view(),
{
    let mut r: Vec<Vec<String>> = Vec::new();
    let mut i: usize = 0;
    while i < v.len()
        invariant
            i <= v.len(),
            r.deep_view() == v.deep_view().take(i as int),
        decreases v.len() - i,
    {
        let ghost before = r;
        let x = copy_strings(&v[i]);
        r.push(x);
        proof {
            lemma_deep_view_push(before, r, x);
        }
        assert(r.deep_view() =~= v.deep_view().take(i + 1));
        i += 1;
    }
    assert(v.deep_view().take(v.len() as int) =~= v.deep_view());
    r
}

fn same_strings(a: &Vec<String>, b: &Vec<String>) -> (r: bool)
    ensures
        r == (a.deep_view() == b.deep_view()),
{
    if a.len() != b.len() {
        assert(a.deep_view().len() != b.deep_view().len());
        return false;
    }
    let mut i: usize = 0;
    while i < a.len()
        invariant
            i <= a.len() == b.len(),
            forall|j: int| 0 <= j < i ==> a.deep_view()[j] == b.deep_view()[j],
        decreases a.len() - i,
    {
        if a[i] != b[i] {
            assert(a.deep_view()[i as int] != b.deep_view()[i as int]);
            return false;
        }
        i += 1;
    }
    assert(a.deep_view() =~= b.deep_view());
    true
}

/// The CSV table of the outputs, or `None` when several outputs have
/// different headers.
pub fn csv_table(outputs: &Vec<Table>) -> (r: Option<(Vec<String>, Vec<Vec<String>>)>)
    requires
        outputs@.len() > 0,
    ensures
        match r {
            Some((h, rows)) => csv_of(tables_view(outputs@)) == Some((h.deep_view(), rows.deep_view())),
            None => csv_of(tables_view(outputs@)) is None,
        },
{
    let ghost tv = tables_view(outputs@);
    let mut same = true;
    let mut i: usize = 0;
    while i < outputs.len() - 1
        invariant
            tv == tables_view(outputs@),
            tv.len() == outputs@.len(),
            i < outputs@.len(),
            same == (forall|j: int| 0 <= j < i ==> #[trigger] tv[j].headers == tv[j + 1].headers),
        decreases outputs@.len() - i,
    {
        let s = same_strings(&outputs[i].headers, &outputs[i + 1].headers);
        assert(tv[i as int] == outputs@[i as int].view_of());
        assert(tv[i + 1] == outputs@[i + 1].view_of());
        proof {
            if !s {
                assert(!(tv[i as int].headers == tv[i + 1].headers));
            }
            if !same {
                let j = choose|j: int| 0 <= j < i && !(#[trigger] tv[j].headers == tv[j + 1].headers);
                assert(0 <= j < i + 1 && !(tv[j].headers == tv[j + 1].headers));
            }
        }
        same = same && s;
        i += 1;
    }
    assert(same == same_headers(tv));
    if outputs.len() > 1 && !same {
        return None;
    }
    if outputs.len() > 1 {
        let mut headers: Vec<String> = Vec::new();
        headers.push(String::from_str("module"));
        let mut k: usize = 0;
        while k < outputs[0].headers.len()
            invariant
                outputs@.len() > 1,
                k <= outputs@[0].headers@.len(),
                headers.deep_view() == seq!["module"@] + outputs@[0].headers.deep_view().take(
                    k as int,
                ),
            decreases outputs@[0].headers@.len() - k,
        {
            let ghost before = headers;
            let x = outputs[0].headers[k].clone();
            headers.push(x);
            proof {
                lemma_deep_view_push(before, headers, x);
            }
            assert(headers.deep_view() =~= seq!["module"@] + outputs@[0].headers.deep_view().take(
                k + 1,
            ));
            k += 1;
        }
        assert(outputs@[0].headers.deep_view().take(k as int) =~= outputs@[0].headers.deep_view());
        let mut rows: Vec<Vec<String>> = Vec::new();
        let mut t: usize = 0;
        while t < outputs.len()
            invariant
                t <= outputs@.len(),
                tv == tables_view(outputs@),
                rows.deep_view() == merged_rows(tv.take(t as int)),
            decreases outputs@.len() - t,
        {
            let table = &outputs[t];
            let ghost base = rows.deep_view();
            assert(tv.take(t + 1).drop_last() =~= tv.take(t as int));
            assert(tv.take(t + 1).last() == table.view_of());
            let mut j: usize = 0;
            while j < table.rows.len()
                invariant
                    j <= table.rows@.len(),
                    rows.deep_view() == base + labelled_rows(table.view_of()).take(j as int),
                decreases table.rows@.len() - j,
            {
                let mut row: Vec<String> = Vec::new();
                row.push(table.module.clone());
                let src = &table.rows[j];
                let mut c: usize = 0;
                while c < src.len()
                    invariant
                        c <= src@.len(),
                        row.deep_view() == seq![table.module@] + src.deep_view().take(c as int),
                    decreases src@.len() - c,
                {
                    let ghost before = row;
                    let x = src[c].clone();
                    row.push(x);
                    proof {
                        lemma_deep_view_push(before, row, x);
                    }
                    assert(row.deep_view() =~= seq![table.module@] + src.deep_view().take(c + 1));
                    c += 1;
                }
                assert(src.deep_view().take(c as int) =~= src.deep_view());
                assert(table.rows.deep_view()[j as int] == src.deep_view());
                let ghost before = rows;
                let ghost rv = row;
                rows.push(row);
                proof {
                    lemma_deep_view_push(before, rows, rv);
                }
                assert(rows.deep_view() =~= base + labelled_rows(table.view_of()).take(j + 1));
                j += 1;
            }
            assert(labelled_rows(table.view_of()).take(j as int) =~= labelled_rows(
                table.view_of(),
            ));
            t += 1;
        }
        assert(tv.take(outputs@.len() as int) =~= tv);
        Some((headers, rows))
    } else {
        Some((copy_strings(&outputs[0].headers), copy_rows(&outputs[0].rows)))
    }
}

// ---------------------------------------------------------------------------
// CSV text
// ---------------------------------------------------------------------------

/// A CSV field must be quoted when it holds a comma, a quote or a line break.
pub open spec fn needs_quotes(f: Seq<char>) -> bool {
    f.contains(',') || f.contains('"') || f.contains('\n') || f.contains('\r')
}

/// `f` with every `"` doubled.
pub open spec fn escape_quotes(f: Seq<char>) -> Seq<char>
    decreases f.len(),
{
    if f.len() == 0 {
        Seq::empty()
    } else if f.last() == '"' {
        escape_quotes(f.drop_last()) + seq!['"', '"']
    } else {
        escape_quotes(f.drop_last()).push(f.last())
    }
}

/// A field as written in a CSV file.
pub open spec fn csv_field(f: Seq<char>) -> Seq<char> {
    if needs_quotes(f) {
        seq!['"'] + escape_quotes(f) + seq!['"']
    } else {
        f
    }
}

/// One CSV line: the fields, comma-separated, then a newline.
pub open spec fn csv_line(fields: Seq<Seq<char>>) -> Seq<char> {
    join(fields.map_values(|f: Seq<char>| csv_field(f)), ","@) + seq!['\n']
}

/// The CSV lines of `rows`, in order.
pub open spec fn csv_lines(rows: Seq<Seq<Seq<char>>>) -> Seq<char>
    decreases rows.len(),
{
    if rows.len() == 0 {
        Seq::empty()
    } else {
        csv_lines(rows.drop_last()) + csv_line(rows.last())
    }
}

/// A CSV file: the header line, then one line per row.
pub open spec fn csv_file(headers: Seq<Seq<char>>, rows: Seq<Seq<Seq<char>>>) -> Seq<char> {
    csv_line(headers) + csv_lines(rows)
}

/// `s` with each doubled quote read back as one quote.
pub open spec fn unescape_quotes(s: Seq<char>) -> Seq<char>
    decreases s.len(),
{
    if s.len() == 0 {
        Seq::empty()
    } else if s.len() >= 2 && s.last() == '"' && s[s.len() - 2] == '"' {
        unescape_quotes(s.take(s.len() - 2)).push('"')
    } else {
        unescape_quotes(s.drop_last()).push(s.last())
    }
}

proof fn lemma_unescape_escape(f: Seq<char>)
    ensures
        unescape_quotes(escape_quotes(f)) == f,
    decreases f.len(),
{
    if f.len() > 0 {
        lemma_unescape_escape(f.drop_last());
        let e = escape_quotes(f.drop_last());
        let s = escape_quotes(f);
        if f.last() == '"' {
            assert(s.take(s.len() - 2) =~= e);
        } else {
            assert(s.drop_last() =~= e);
        }
        assert(f.drop_last().push(f.last()) =~= f);
    }
}

/// A field is written as it is unless it holds a comma, a quote or a line
/// break; then it is written between quotes, and reading the quoted text
/// back (each doubled quote as one) gives the field.
pub proof fn lemma_csv_field_round_trip(f: Seq<char>)
    ensures
        !(f.contains(',') || f.contains('"') || f.contains('\n') || f.contains('\r'))
            ==> csv_field(f) == f,
        (f.contains(',') || f.contains('"') || f.contains('\n') || f.contains('\r')) ==> {
            let c = csv_field(f);
            &&& c.len() >= 2
            &&& c[0] == '"'
            &&& c.last() == '"'
            &&& unescape_quotes(c.subrange(1, c.len() - 1)) == f
        },
{
    lemma_unescape_escape(f);
    let c = csv_field(f);
    if needs_quotes(f) {
        assert(c.subrange(1, c.len() - 1) =~= escape_quotes(f));
    }
}

fn field_text(f: &String) -> (s: String)
    ensures
        s@ == csv_field(f@),
{
    let v = chars_of(f.as_str());
    let quote = has_char(&v, ',') || has_char(&v, '"') || has_char(&v, '\n') || has_char(&v, '\r');
    if !quote {
        return f.clone();
    }
    let mut esc: Vec<char> = Vec::new();
    let mut i: usize = 0;
    while i < v.len()
        invariant
            i <= v.len(),
            esc@ == escape_quotes(v@.take(i as int)),
        decreases v.len() - i,
    {
        assert(v@.take(i + 1).drop_last() =~= v@.take(i as int));
        assert(v@.take(i + 1).last() == v@[i as int]);
        if v[i] == '"' {
            esc.push('"');
            esc.push('"');
            assert(esc@ =~= escape_quotes(v@.take(i as int)) + seq!['"', '"']);
        } else {
            esc.push(v[i]);
        }
        i += 1;
    }
    assert(v@.take(v.len() as int) =~= v@);
    let mut s = String::new();
    let mut open: Vec<char> = Vec::new();
    open.push('"');
    append_chars(&mut s, &open);
    append_chars(&mut s, &esc);
    append_chars(&mut s, &open);
    assert(s@ =~= seq!['"'] + escape_quotes(f@) + seq!['"']);
    s
}

fn line_text(out: &mut String, fields: &Vec<String>)
    ensures
        final(out)@ == old(out)@ + csv_line(fields.deep_view()),
{
    let ghost fs = fields.deep_view().map_values(|f: Seq<char>| csv_field(f));
    let mut line = String::new();
    let mut i: usize = 0;
    while i < fields.len()
        invariant
            i <= fields.len(),
            fs == fields.deep_view().map_values(|f: Seq<char>| csv_field(f)),
            line@ == join(fs.take(i as int), ","@),
        decreases fields.len() - i,
    {
        assert(fs.take(i + 1).drop_last() =~= fs.take(i as int));
        assert(fs.take(i + 1).last() == csv_field(fields@[i as int]@));
        let f = field_text(&fields[i]);
        if i == 0 {
            line.append(f.as_str());
            assert(line@ =~= join(fs.take(1), ","@));
        } else {
            line.append(",");
            line.append(f.as_str());
        }
        i += 1;
    }
    assert(fs.take(fields.len() as int) =~= fs);
    let mut nl: Vec<char> = Vec::new();
    nl.push('\n');
    append_chars(&mut line, &nl);
    out.append(line.as_str());
    assert(out@ =~= old(out)@ + csv_line(fields.deep_view()));
}

/// The text of a CSV file with this header line and these rows.
pub fn csv_text(headers: &Vec<String>, rows: &Vec<Vec<String>>) -> (s: String)
    ensures
        s@ == csv_file(headers.deep_view(), rows.deep_view()),
{
    let mut s = String::new();
    line_text(&mut s, headers);
    let ghost head = s@;
    assert(head =~= csv_line(headers.deep_view()));
    let ghost rv = rows.deep_view();
    let mut i: usize = 0;
    while i < rows.len()
        invariant
            i <= rows@.len(),
            rv == rows.deep_view(),
            s@ == head + csv_lines(rv.take(i as int)),
        decreases rows@.len() - i,
    {
        assert(rv.take(i + 1).drop_last() =~= rv.take(i as int));
        assert(rv.take(i + 1).last() == rows@[i as int].deep_view());
        line_text(&mut s, &rows[i]);
        assert(s@ =~= head + csv_lines(rv.take(i + 1)));
        i += 1;
    }
    assert(rv.take(rows@.len() as int) =~= rv);
    s
}

// ---------------------------------------------------------------------------
// Console table layout
// ---------------------------------------------------------------------------

/// The widest cell of column `i` among `rows` (0 when none).
pub open spec fn cells_width(rows: Seq<Seq<Seq<char>>>, i: int) -> nat
    decreases rows.len(),
{
    if rows.len() == 0 {
        0
    } else {
        let rest = cells_width(rows.drop_last(), i);
        let w = if 0 <= i < rows.last().len() {
            rows.last()[i].len()
        } else {
            0
        };
        if w > rest {
            w
        } else {
            rest
        }
    }
}

/// The width of column `i`: its header or its widest cell, in characters.
pub open spec fn column_width(headers: Seq<Seq<char>>, rows: Seq<Seq<Seq<char>>>, i: int) -> nat {
    if headers[i].len() > cells_width(rows, i) {
        headers[i].len()
    } else {
        cells_width(rows, i)
    }
}

proof fn lemma_cells_width(rows: Seq<Seq<Seq<char>>>, i: int)
    ensures
        forall|r: int| 0 <= r < rows.len() && 0 <= i < rows[r].len() ==> (#[trigger] rows[r])[i].len()
            <= cells_width(rows, i),
        cells_width(rows, i) == 0 || exists|r: int|
            0 <= r < rows.len() && 0 <= i < rows[r].len() && (#[trigger] rows[r])[i].len()
                == cells_width(rows, i),
    decreases rows.len(),
{
    if rows.len() > 0 {
        let t = rows.drop_last();
        lemma_cells_width(t, i);
        assert forall|r: int| 0 <= r < rows.len() && 0 <= i < rows[r].len() implies (
        #[trigger] rows[r])[i].len() <= cells_width(rows, i) by {
            if r < t.len() {
                assert(rows[r] == t[r]);
            }
        }
        if cells_width(rows, i) != 0 && cells_width(rows, i) == cells_width(t, i) {
            let r = choose|r: int|
                0 <= r < t.len() && 0 <= i < t[r].len() && (#[trigger] t[r])[i].len() == cells_width(
                    t,
                    i,
                );
            assert(rows[r] == t[r]);
        }
    }
}

/// A column is as wide as its header or its widest cell, whichever is
/// wider: no narrower than any of them, and as wide as one of them.
pub proof fn lemma_column_width(headers: Seq<Seq<char>>, rows: Seq<Seq<Seq<char>>>, i: int)
    requires
        0 <= i < headers.len(),
    ensures
        headers[i].len() <= column_width(headers, rows, i),
        forall|r: int| 0 <= r < rows.len() && 0 <= i < rows[r].len() ==> (#[trigger] rows[r])[i].len()
            <= column_width(headers, rows, i),
        column_width(headers, rows, i) == headers[i].len() || exists|r: int|
            0 <= r < rows.len() && 0 <= i < rows[r].len() && (#[trigger] rows[r])[i].len()
                == column_width(headers, rows, i),
{
    lemma_cells_width(rows, i);
}

/// The width of each column of a console table.
pub fn column_widths(headers: &Vec<String>, rows: &Vec<Vec<String>>) -> (w: Vec<usize>)
    ensures
        w@.len() == headers@.len(),
        forall|i: int|
            0 <= i < headers@.len() ==> #[trigger] w@[i] == column_width(
                headers.deep_view(),
                rows.deep_view(),
                i,
            ),
{
    let ghost hv = headers.deep_view();
    let ghost rv = rows.deep_view();
    let mut w: Vec<usize> = Vec::new();
    let mut c: usize = 0;
    while c < headers.len()
        invariant
            c <= headers@.len(),
            hv == headers.deep_view(),
            rv == rows.deep_view(),
            w@.len() == c,
            forall|i: int| 0 <= i < c ==> #[trigger] w@[i] == column_width(hv, rv, i),
        decreases headers@.len() - c,
    {
        let mut best: usize = 0;
        let mut r: usize = 0;
        while r < rows.len()
            invariant
                c < headers@.len(),
                r <= rows@.len(),
                rv == rows.deep_view(),
                best == cells_width(rv.take(r as int), c as int),
            decreases rows@.len() - r,
        {
            assert(rv.take(r + 1).drop_last() =~= rv.take(r as int));
            assert(rv.take(r + 1).last() == rows@[r as int].deep_view());
            if c < rows[r].len() {
                let n = rows[r][c].as_str().unicode_len();
                if n > best {
                    best = n;
                }
            }
            r += 1;
        }
        assert(rv.take(rows@.len() as int) =~= rv);
        let h = headers[c].as_str().unicode_len();
        w.push(if h > best { h } else { best });
        c += 1;
    }
    w
}

/// `s` padded with spaces on the right to at least `width` characters.
pub open spec fn pad_right(s: Seq<char>, width: nat) -> Seq<char> {
    if s.len() >= width {
        s
    } else {
        s + Seq::new((width - s.len()) as nat, |i: int| ' ')
    }
}

/// Padding keeps the cell as its start and fills up to the width with
/// spaces; a cell already as wide is left as it is.
pub proof fn lemma_pad_right(s: Seq<char>, width: nat)
    ensures
        pad_right(s, width).len() == if s.len() >= width { s.len() } else { width },
        pad_right(s, width).take(s.len() as int) == s,
        forall|i: int| s.len() <= i < pad_right(s, width).len() ==> #[trigger] pad_right(s, width)[i] == ' ',
{
    assert(pad_right(s, width).take(s.len() as int) =~= s);
}

/// A cell padded to its column's width.
pub fn pad_cell(cell: &String, width: usize) -> (s: String)
    ensures
        s@ == pad_right(cell@, width as nat),
{
    let len = cell.as_str().unicode_len();
    if len >= width {
        return cell.clone();
    }
    let mut pad: Vec<char> = Vec::new();
    let mut i: usize = 0;
    while i < width - len
        invariant
            len < width,
            i <= width - len,
            pad@ =~= Seq::new(i as nat, |k: int| ' '),
        decreases width - len - i,
    {
        pad.push(' ');
        i += 1;
    }
    let mut s = cell.clone();
    append_chars(&mut s, &pad);
    s
}

} // verus!

//! Human-readable table, summary line and hints for a set of decisions.

use vstd::prelude::*;
use vstd::string::StringSliceAdditionalSpecFns;

use crate::config::Config;
use crate::date::{format_date, format_date_spec};
use crate::model::{
    age_fits, decision_views, string_views, whole_days, Decision, DecisionView, PackageSource,
    Verdict,
};
use crate::text::{contains, decimal, decimal_int, occurs_at, push_char, push_i64, push_str, push_u64};

verus! {

/// Number of decisions with verdict `v`.
pub open spec fn count_verdict(ds: Seq<DecisionView>, v: Verdict) -> nat
    decreases ds.len(),
{
    if ds.len() == 0 {
        0
    } else {
        count_verdict(ds.drop_last(), v) + if ds.last().verdict == v {
            1nat
        } else {
            0nat
        }
    }
}

proof fn lemma_count_verdict_bound(ds: Seq<DecisionView>, v: Verdict)
    ensures
        count_verdict(ds, v) <= ds.len(),
    decreases ds.len(),
{
    if ds.len() > 0 {
        lemma_count_verdict_bound(ds.drop_last(), v);
    }
}

/// How many decisions allow, promote and block.
pub fn counts(decisions: &[Decision]) -> (r: (usize, usize, usize))
    ensures
        r.0 == count_verdict(decision_views(decisions@), Verdict::Allow),
        r.1 == count_verdict(decision_views(decisions@), Verdict::Promote),
        r.2 == count_verdict(decision_views(decisions@), Verdict::Block),
{
    let ghost ds = decision_views(decisions@);
    let mut allowed: usize = 0;
    let mut promoted: usize = 0;
    let mut blocked: usize = 0;
    let n = decisions.len();
    for i in 0..n
        invariant
            n == decisions@.len() == ds.len(),
            ds == decision_views(decisions@),
            allowed == count_verdict(ds.take(i as int), Verdict::Allow),
            promoted == count_verdict(ds.take(i as int), Verdict::Promote),
            blocked == count_verdict(ds.take(i as int), Verdict::Block),
    {
        assert(ds.take(i + 1).drop_last() == ds.take(i as int));
        assert(ds.take(i + 1).last() == ds[i as int]);
        proof {
            lemma_count_verdict_bound(ds.take(i as int), Verdict::Allow);
            lemma_count_verdict_bound(ds.take(i as int), Verdict::Promote);
            lemma_count_verdict_bound(ds.take(i as int), Verdict::Block);
        }
        match decisions[i].verdict {
            Verdict::Allow => allowed += 1,
            Verdict::Promote => promoted += 1,
            Verdict::Block => blocked += 1,
        }
    }
    assert(ds.take(n as int) == ds);
    (allowed, promoted, blocked)
}

pub open spec fn green() -> Seq<char> {
    seq!['\x1b', '[', '3', '2', 'm']
}

pub open spec fn red() -> Seq<char> {
    seq!['\x1b', '[', '3', '1', 'm']
}

pub open spec fn yellow() -> Seq<char> {
    seq!['\x1b', '[', '3', '3', 'm']
}

pub open spec fn reset() -> Seq<char> {
    seq!['\x1b', '[', '0', 'm']
}

/// `text` wrapped in the ANSI color `code` when `on`.
pub open spec fn paint_spec(text: Seq<char>, code: Seq<char>, on: bool) -> Seq<char> {
    if on {
        code + text + reset()
    } else {
        text
    }
}

/// Wrap `text` in an ANSI color when `color` is on. Applied *after* padding
/// so escape sequences never disturb column widths.
fn paint(out: &mut String, text: &Vec<char>, code: &Vec<char>, color: bool)
    ensures
        final(out)@ == old(out)@ + paint_spec(text@, code@, color),
{
    if color {
        crate::text::push_chars(out, code);
        crate::text::push_chars(out, text);
        push_str(out, "\x1b[0m");
        assert("\x1b[0m"@ == reset()) by {
            reveal_strlit("\x1b[0m");
        }
    } else {
        crate::text::push_chars(out, text);
    }
}

/// Length of `s` in UTF-8 bytes (`str::len`).
pub open spec fn byte_len(s: Seq<char>) -> nat {
    vstd::utf8::encode_utf8(s).len()
}

/// `s` padded with spaces to `width` characters (`{:<width$}`).
pub open spec fn pad_right(s: Seq<char>, width: int) -> Seq<char> {
    s + Seq::new(if width > s.len() { (width - s.len()) as nat } else { 0 }, |i: int| ' ')
}

/// The elements of `parts` joined by `sep`.
pub open spec fn join(parts: Seq<Seq<char>>, sep: Seq<char>) -> Seq<char>
    decreases parts.len(),
{
    if parts.len() == 0 {
        seq![]
    } else if parts.len() == 1 {
        parts[0]
    } else {
        join(parts.drop_last(), sep) + sep + parts.last()
    }
}

/// Column headers of the table.
pub open spec fn headers() -> Seq<Seq<char>> {
    seq![
        "PACKAGE"@,
        "SRC"@,
        "INSTALLED"@,
        "CANDIDATE"@,
        "PUBLISHED"@,
        "AGE"@,
        "VERDICT"@,
        "REASON"@,
    ]
}

/// The age cell and its color.
pub open spec fn age_cell(d: DecisionView, now: i64, min_age_days: u32) -> (Seq<char>, Seq<char>) {
    match d.publication.published_at {
        Some(ts) => {
            let a = whole_days(now as int, ts as int);
            (decimal_int(a) + seq!['d'], if a >= min_age_days {
                green()
            } else {
                red()
            })
        },
        None => (seq!['-'], seq![]),
    }
}

pub open spec fn verdict_color(v: Verdict) -> Seq<char> {
    match v {
        Verdict::Allow => green(),
        Verdict::Promote => yellow(),
        Verdict::Block => red(),
    }
}

/// The eight cells of a decision's row.
pub open spec fn row_cells(d: DecisionView, now: i64, min_age_days: u32) -> Seq<Seq<char>> {
    seq![
        d.candidate.name@,
        d.candidate.source.label(),
        d.candidate.installed_version@,
        d.candidate.candidate_version@,
        match d.publication.published_at {
            Some(ts) => format_date_spec(ts as int),
            None => "unknown"@,
        },
        age_cell(d, now, min_age_days).0,
        d.verdict.label(),
        join(d.reasons, "; "@),
    ]
}

/// Every part occurs in the parts joined by a separator.
proof fn lemma_join_contains_parts(parts: Seq<Seq<char>>, sep: Seq<char>, i: int)
    requires
        0 <= i < parts.len(),
    ensures
        contains(join(parts, sep), parts[i]),
    decreases parts.len(),
{
    let j = join(parts, sep);
    if parts.len() == 1 {
        assert(j.subrange(0, parts[0].len() as int) =~= parts[0]);
        assert(occurs_at(j, parts[i], 0));
    } else {
        let pre = join(parts.drop_last(), sep);
        assert(j == pre + sep + parts.last());
        if i == parts.len() - 1 {
            let k = (pre.len() + sep.len()) as int;
            assert(j.subrange(k, k + parts[i].len()) =~= parts[i]);
            assert(occurs_at(j, parts[i], k));
        } else {
            assert(parts.drop_last()[i] == parts[i]);
            lemma_join_contains_parts(parts.drop_last(), sep, i);
            let k = choose|k: int| occurs_at(pre, parts[i], k);
            assert(j.subrange(k, k + parts[i].len()) =~= pre.subrange(k, k + parts[i].len()));
            assert(occurs_at(j, parts[i], k));
        }
    }
}

/// Parts joined by a separator start with the first part, and every later
/// part follows a separator.
proof fn lemma_join_layout(parts: Seq<Seq<char>>, sep: Seq<char>, i: int)
    requires
        0 <= i < parts.len(),
    ensures
        occurs_at(join(parts, sep), parts[0], 0),
        i > 0 ==> contains(join(parts, sep), sep + parts[i]),
    decreases parts.len(),
{
    let j = join(parts, sep);
    if parts.len() == 1 {
        assert(j.subrange(0, parts[0].len() as int) =~= parts[0]);
    } else {
        let pre = join(parts.drop_last(), sep);
        assert(j == pre + sep + parts.last());
        assert(parts.drop_last()[0] == parts[0]);
        lemma_join_layout(parts.drop_last(), sep, 0);
        assert(j.subrange(0, parts[0].len() as int) =~= pre.subrange(0, parts[0].len() as int));
        if i == parts.len() - 1 {
            let k = pre.len() as int;
            assert(j.subrange(k, k + (sep + parts[i]).len()) =~= sep + parts[i]);
            assert(occurs_at(j, sep + parts[i], k));
        } else if i > 0 {
            assert(parts.drop_last()[i] == parts[i]);
            lemma_join_layout(parts.drop_last(), sep, i);
            let k = choose|k: int| occurs_at(pre, sep + parts[i], k);
            assert(j.subrange(k, k + (sep + parts[i]).len()) =~= pre.subrange(
                k,
                k + (sep + parts[i]).len(),
            ));
            assert(occurs_at(j, sep + parts[i], k));
        }
    }
}

/// The REASON cell of a decision's row lists every reason its verdict
/// carries (each occurs in the cell): it starts with the first reason, each
/// later one follows a `"; "`, and it is empty when there is none.
pub proof fn lemma_reason_cell_lists_every_reason(d: DecisionView, now: i64, min_age_days: u32)
    ensures
        row_cells(d, now, min_age_days).len() == 8,
        forall|i: int|
            0 <= i < d.reasons.len() ==> contains(
                row_cells(d, now, min_age_days)[7],
                #[trigger] d.reasons[i],
            ),
        d.reasons.len() == 0 ==> row_cells(d, now, min_age_days)[7].len() == 0,
        d.reasons.len() > 0 ==> occurs_at(row_cells(d, now, min_age_days)[7], d.reasons[0], 0),
        forall|i: int|
            1 <= i < d.reasons.len() ==> contains(
                row_cells(d, now, min_age_days)[7],
                "; "@ + #[trigger] d.reasons[i],
            ),
{
    if d.reasons.len() > 0 {
        lemma_join_layout(d.reasons, "; "@, 0);
    }
    assert forall|i: int| 1 <= i < d.reasons.len() implies contains(
        row_cells(d, now, min_age_days)[7],
        "; "@ + #[trigger] d.reasons[i],
    ) by {
        lemma_join_layout(d.reasons, "; "@, i);
    }
    assert forall|i: int| 0 <= i < d.reasons.len() implies contains(
        row_cells(d, now, min_age_days)[7],
        #[trigger] d.reasons[i],
    ) by {
        lemma_join_contains_parts(d.reasons, "; "@, i);
    }
}

/// Width of column `i`: the longest cell in it, in bytes.
pub open spec fn column_width(rows: Seq<Seq<Seq<char>>>, i: int) -> nat
    decreases rows.len(),
{
    if rows.len() == 0 {
        byte_len(headers()[i])
    } else {
        let w = column_width(rows.drop_last(), i);
        let c = byte_len(rows.last()[i]);
        if c > w {
            c
        } else {
            w
        }
    }
}

/// The color of cell `i`, given the row's age and verdict colors.
pub open spec fn cell_color(i: int, age_color: Seq<char>, verdict_color: Seq<char>) -> Seq<char> {
    if i == 5 {
        age_color
    } else if i == 6 {
        verdict_color
    } else {
        seq![]
    }
}

/// The first `k` cells of a row, separated by two spaces, padded (all but
/// the last column) and painted.
pub open spec fn row_prefix(
    cells: Seq<Seq<char>>,
    widths: Seq<nat>,
    age_color: Seq<char>,
    verdict_color: Seq<char>,
    color: bool,
    k: int,
) -> Seq<char>
    decreases k,
{
    if k <= 0 {
        seq![]
    } else {
        row_prefix(cells, widths, age_color, verdict_color, color, k - 1) + cell_text(
            cells,
            widths,
            age_color,
            verdict_color,
            color,
            k - 1,
        )
    }
}

/// Cell `i` of a line with its leading separator: padded (unless it is the
/// last column) and painted.
pub open spec fn cell_text(
    cells: Seq<Seq<char>>,
    widths: Seq<nat>,
    age_color: Seq<char>,
    verdict_color: Seq<char>,
    color: bool,
    i: int,
) -> Seq<char> {
    let padded = if i == 7 {
        cells[i]
    } else {
        pad_right(cells[i], widths[i] as int)
    };
    let code = cell_color(i, age_color, verdict_color);
    (if i > 0 {
        seq![' ', ' ']
    } else {
        seq![]
    }) + paint_spec(padded, code, color && code.len() > 0)
}

/// One full table line.
pub open spec fn row_line(
    cells: Seq<Seq<char>>,
    widths: Seq<nat>,
    age_color: Seq<char>,
    verdict_color: Seq<char>,
    color: bool,
) -> Seq<char> {
    row_prefix(cells, widths, age_color, verdict_color, color, 8) + seq!['\n']
}

/// The table lines of the first `k` decisions.
pub open spec fn decision_lines(
    ds: Seq<DecisionView>,
    widths: Seq<nat>,
    now: i64,
    min_age_days: u32,
    color: bool,
    k: int,
) -> Seq<char>
    decreases k,
{
    if k <= 0 {
        seq![]
    } else {
        let d = ds[k - 1];
        decision_lines(ds, widths, now, min_age_days, color, k - 1) + row_line(
            row_cells(d, now, min_age_days),
            widths,
            age_cell(d, now, min_age_days).1,
            verdict_color(d.verdict),
            color,
        )
    }
}

/// The table: header, a dashed separator sized to each column, then one
/// line per decision.
pub open spec fn table_spec(ds: Seq<DecisionView>, now: i64, min_age_days: u32, color: bool) -> Seq<char> {
    let rows = Seq::new(ds.len(), |j: int| row_cells(ds[j], now, min_age_days));
    let widths = Seq::new(8, |i: int| column_width(rows, i));
    let sep = Seq::new(8, |i: int| Seq::new(widths[i], |j: int| '-'));
    row_line(headers(), widths, seq![], seq![], color) + row_line(sep, widths, seq![], seq![], color)
        + decision_lines(ds, widths, now, min_age_days, color, ds.len() as int)
}

/// Whether every known publication time is within `i64` range of `now`.
pub open spec fn ages_computable(ds: Seq<DecisionView>, now: i64) -> bool {
    forall|i: int|
        #![trigger ds[i]]
        0 <= i < ds.len() ==> match ds[i].publication.published_at {
            Some(ts) => age_fits(now, ts),
            None => true,
        }
}

} // verus!

verus! {

/// The parts joined by `sep`.
pub fn join_strings(parts: &Vec<String>, sep: &str) -> (r: String)
    ensures
        r@ == join(string_views(parts@), sep@),
{
    let ghost ps = string_views(parts@);
    let mut s = String::new();
    let n = parts.len();
    for i in 0..n
        invariant
            n == parts@.len() == ps.len(),
            ps == string_views(parts@),
            s@ == join(ps.take(i as int), sep@),
    {
        let ghost t = ps.take(i + 1);
        assert(t.drop_last() == ps.take(i as int));
        assert(t.last() == parts@[i as int]@);
        if i > 0 {
            push_str(&mut s, sep);
        } else {
            assert(ps.take(0).len() == 0);
        }
        push_str(&mut s, parts[i].as_str());
    }
    assert(ps.take(n as int) == ps);
    s
}

/// The length of `s` in bytes.
fn byte_length(s: &String) -> (r: usize)
    ensures
        r == byte_len(s@),
{
    s.as_str().as_bytes().len()
}

fn color_chars(code: u8) -> (r: Vec<char>)
    requires
        code <= 3,
    ensures
        code == 0 ==> r@ == Seq::<char>::empty(),
        code == 1 ==> r@ == green(),
        code == 2 ==> r@ == red(),
        code == 3 ==> r@ == yellow(),
{
    if code == 0 {
        Vec::new()
    } else if code == 1 {
        vec!['\x1b', '[', '3', '2', 'm']
    } else if code == 2 {
        vec!['\x1b', '[', '3', '1', 'm']
    } else {
        vec!['\x1b', '[', '3', '3', 'm']
    }
}

/// Append cell `i` of a line, with its leading separator.
fn render_cell(
    out: &mut String,
    cell: &String,
    width: usize,
    i: usize,
    age_color: &Vec<char>,
    verdict_color: &Vec<char>,
    color: bool,
)
    requires
        i < 8,
    ensures
        final(out)@ == old(out)@ + (if i > 0 {
            seq![' ', ' ']
        } else {
            seq![]
        }) + paint_spec(
            if i == 7 {
                cell@
            } else {
                pad_right(cell@, width as int)
            },
            cell_color(i as int, age_color@, verdict_color@),
            color && cell_color(i as int, age_color@, verdict_color@).len() > 0,
        ),
{
    let ghost start = out@;
    if i > 0 {
        push_char(out, ' ');
        push_char(out, ' ');
    }
    let ghost mid = out@;
    let mut padded = crate::text::chars_of(cell.as_str());
    if i != 7 {
        let count = padded.len();
        if width > count {
            let extra = width - count;
            let ghost base = padded@;
            for k in 0..extra
                invariant
                    padded@ == base + Seq::new(k as nat, |j: int| ' '),
            {
                padded.push(' ');
                assert(base + Seq::new((k + 1) as nat, |j: int| ' ') =~= (base + Seq::new(
                    k as nat,
                    |j: int| ' ',
                )).push(' '));
            }
            assert(padded@ =~= pad_right(cell@, width as int));
        } else {
            assert(padded@ =~= pad_right(cell@, width as int));
        }
    }
    let empty: Vec<char> = Vec::new();
    let code: &Vec<char> = if i == 5 {
        age_color
    } else if i == 6 {
        verdict_color
    } else {
        &empty
    };
    assert(code@ == cell_color(i as int, age_color@, verdict_color@));
    paint(out, &padded, code, color && code.len() > 0);
    assert(mid == start + (if i > 0 {
        seq![' ', ' ']
    } else {
        seq![]
    }));
}

/// Append one table line.
fn render_row(
    out: &mut String,
    cells: &Vec<String>,
    widths: &Vec<usize>,
    age_color: &Vec<char>,
    verdict_color: &Vec<char>,
    color: bool,
)
    requires
        cells@.len() == 8,
        widths@.len() == 8,
    ensures
        final(out)@ == old(out)@ + row_line(
            string_views(cells@),
            widths@.map_values(|w: usize| w as nat),
            age_color@,
            verdict_color@,
            color,
        ),
{
    let ghost cs = string_views(cells@);
    let ghost ws = widths@.map_values(|w: usize| w as nat);
    let ghost start = out@;
    for i in 0..8
        invariant
            cells@.len() == 8,
            widths@.len() == 8,
            cs == string_views(cells@),
            ws == widths@.map_values(|w: usize| w as nat),
            out@ == start + row_prefix(cs, ws, age_color@, verdict_color@, color, i as int),
    {
        let ghost before = out@;
        render_cell(out, &cells[i], widths[i], i, age_color, verdict_color, color);
        assert(cells@[i as int]@ == cs[i as int]);
        assert(widths@[i as int] as nat == ws[i as int]);
        assert(out@ == before + cell_text(cs, ws, age_color@, verdict_color@, color, i as int));
    }
    push_char(out, '\n');
}

} // verus!

verus! {

/// The cells and colors of one decision's table line.
fn decision_row(d: &Decision, now: i64, min_age_days: u32) -> (r: (Vec<String>, Vec<char>, Vec<char>))
    requires
        match d.publication.published_at {
            Some(ts) => age_fits(now, ts),
            None => true,
        },
    ensures
        r.0@.len() == 8,
        string_views(r.0@) == row_cells(d@, now, min_age_days),
        r.1@ == age_cell(d@, now, min_age_days).1,
        r.2@ == verdict_color(d.verdict),
{
    let published = match d.publication.published_at {
        Some(ts) => format_date(ts),
        None => crate::text::string_of("unknown"),
    };
    let (age_text, age_color) = match d.age_days(now) {
        Some(a) => {
            let mut t = String::new();
            push_i64(&mut t, a);
            push_char(&mut t, 'd');
            let c = if a >= min_age_days as i64 {
                color_chars(1)
            } else {
                color_chars(2)
            };
            (t, c)
        },
        None => {
            let mut t = String::new();
            push_char(&mut t, '-');
            (t, color_chars(0))
        },
    };
    let verdict_code = match d.verdict {
        Verdict::Allow => color_chars(1),
        Verdict::Promote => color_chars(3),
        Verdict::Block => color_chars(2),
    };
    let cells = vec![
        d.candidate.name.clone(),
        crate::text::string_of(d.candidate.source.as_str()),
        d.candidate.installed_version.clone(),
        d.candidate.candidate_version.clone(),
        published,
        age_text,
        crate::text::string_of(d.verdict.as_str()),
        join_strings(&d.reasons, "; "),
    ];
    let ghost rc = row_cells(d@, now, min_age_days);
    assert(cells@[0]@ == rc[0]);
    assert(cells@[1]@ == rc[1]);
    assert(cells@[2]@ == rc[2]);
    assert(cells@[3]@ == rc[3]);
    assert(cells@[4]@ == rc[4]);
    assert(cells@[5]@ == rc[5]);
    assert(cells@[6]@ == rc[6]);
    assert(cells@[7]@ == rc[7]);
    assert(string_views(cells@) =~= row_cells(d@, now, min_age_days));
    (cells, age_color, verdict_code)
}

/// Byte widths of the eight columns over the header and all rows.
fn column_widths(rows: &Vec<Vec<String>>, headers_row: &Vec<String>) -> (r: Vec<usize>)
    requires
        headers_row@.len() == 8,
        string_views(headers_row@) == headers(),
        forall|j: int| 0 <= j < rows@.len() ==> #[trigger] rows@[j]@.len() == 8,
    ensures
        r@.len() == 8,
        forall|i: int|
            0 <= i < 8 ==> #[trigger] r@[i] as nat == column_width(
                Seq::new(rows@.len(), |j: int| string_views(rows@[j]@)),
                i,
            ),
{
    let ghost rs = Seq::new(rows@.len(), |j: int| string_views(rows@[j]@));
    let mut widths: Vec<usize> = Vec::new();
    for i in 0..8
        invariant
            headers_row@.len() == 8,
            string_views(headers_row@) == headers(),
            forall|j: int| 0 <= j < rows@.len() ==> #[trigger] rows@[j]@.len() == 8,
            rs == Seq::new(rows@.len(), |j: int| string_views(rows@[j]@)),
            widths@.len() == i,
            forall|k: int| 0 <= k < i ==> #[trigger] widths@[k] as nat == column_width(rs, k),
    {
        let mut w = byte_length(&headers_row[i]);
        assert(headers_row@[i as int]@ == headers()[i as int]);
        let n = rows.len();
        for j in 0..n
            invariant
                i < 8,
                n == rows@.len() == rs.len(),
                forall|j: int| 0 <= j < rows@.len() ==> #[trigger] rows@[j]@.len() == 8,
                rs == Seq::new(rows@.len(), |j: int| string_views(rows@[j]@)),
                string_views(headers_row@) == headers(),
                w as nat == column_width(rs.take(j as int), i as int),
        {
            let c = byte_length(&rows[j][i]);
            assert(rs.take(j + 1).drop_last() == rs.take(j as int));
            assert(rs.take(j + 1).last()[i as int] == rows@[j as int]@[i as int]@);
            if c > w {
                w = c;
            }
        }
        assert(rs.take(n as int) == rs);
        widths.push(w);
    }
    widths
}

/// Render the summary table for interactive use. The AGE and VERDICT columns
/// are colored relative to `min_age_days` when `color` is enabled: green for
/// upgrades that pass the age gate, red for blocked ones, yellow for
/// promoted dependencies.
pub fn render_table(decisions: &[Decision], now: i64, min_age_days: u32, color: bool) -> (r: String)
    requires
        ages_computable(decision_views(decisions@), now),
    ensures
        r@ == table_spec(decision_views(decisions@), now, min_age_days, color),
{
    let ghost ds = decision_views(decisions@);
    let ghost rows_spec = Seq::new(ds.len(), |j: int| row_cells(ds[j], now, min_age_days));
    let mut rows: Vec<Vec<String>> = Vec::new();
    let mut age_colors: Vec<Vec<char>> = Vec::new();
    let mut verdict_colors: Vec<Vec<char>> = Vec::new();
    let n = decisions.len();
    for j in 0..n
        invariant
            n == decisions@.len() == ds.len(),
            ds == decision_views(decisions@),
            ages_computable(ds, now),
            rows_spec == Seq::new(ds.len(), |j: int| row_cells(ds[j], now, min_age_days)),
            rows@.len() == j,
            age_colors@.len() == j,
            verdict_colors@.len() == j,
            forall|k: int| 0 <= k < j ==> #[trigger] rows@[k]@.len() == 8,
            forall|k: int| 0 <= k < j ==> #[trigger] string_views(rows@[k]@) == rows_spec[k],
            forall|k: int|
                0 <= k < j ==> #[trigger] age_colors@[k]@ == age_cell(ds[k], now, min_age_days).1,
            forall|k: int| 0 <= k < j ==> #[trigger] verdict_colors@[k]@ == verdict_color(ds[k].verdict),
    {
        assert(ds[j as int] == decisions@[j as int]@);
        let (cells, ac, vc) = decision_row(&decisions[j], now, min_age_days);
        rows.push(cells);
        age_colors.push(ac);
        verdict_colors.push(vc);
    }
    let header_cells = vec![
        crate::text::string_of("PACKAGE"),
        crate::text::string_of("SRC"),
        crate::text::string_of("INSTALLED"),
        crate::text::string_of("CANDIDATE"),
        crate::text::string_of("PUBLISHED"),
        crate::text::string_of("AGE"),
        crate::text::string_of("VERDICT"),
        crate::text::string_of("REASON"),
    ];
    assert(string_views(header_cells@) =~= headers());
    let widths = column_widths(&rows, &header_cells);
    let ghost ws = widths@.map_values(|w: usize| w as nat);
    assert(Seq::new(rows@.len(), |j: int| string_views(rows@[j]@)) =~= rows_spec);
    assert(ws =~= Seq::new(8, |i: int| column_width(rows_spec, i)));
    let mut sep: Vec<String> = Vec::new();
    for i in 0..8
        invariant
            widths@.len() == 8,
            sep@.len() == i,
            forall|k: int|
                0 <= k < i ==> #[trigger] sep@[k]@ == Seq::new(widths@[k] as nat, |t: int| '-'),
    {
        let mut dash = String::new();
        let wi = widths[i];
        for t in 0..wi
            invariant
                dash@ == Seq::new(t as nat, |u: int| '-'),
        {
            push_char(&mut dash, '-');
            assert(Seq::new((t + 1) as nat, |u: int| '-') =~= Seq::new(t as nat, |u: int| '-').push(
                '-',
            ));
        }
        sep.push(dash);
    }
    assert(string_views(sep@) =~= Seq::new(8, |i: int| Seq::new(ws[i], |t: int| '-')));
    let empty: Vec<char> = Vec::new();
    let mut out = String::new();
    render_row(&mut out, &header_cells, &widths, &empty, &empty, color);
    render_row(&mut out, &sep, &widths, &empty, &empty, color);
    let ghost prefix = out@;
    for j in 0..n
        invariant
            n == rows@.len() == age_colors@.len() == verdict_colors@.len() == ds.len(),
            widths@.len() == 8,
            ws == widths@.map_values(|w: usize| w as nat),
            forall|k: int| 0 <= k < n ==> #[trigger] rows@[k]@.len() == 8,
            forall|k: int| 0 <= k < n ==> #[trigger] string_views(rows@[k]@) == rows_spec[k],
            rows_spec == Seq::new(ds.len(), |j: int| row_cells(ds[j], now, min_age_days)),
            forall|k: int|
                0 <= k < n ==> #[trigger] age_colors@[k]@ == age_cell(ds[k], now, min_age_days).1,
            forall|k: int| 0 <= k < n ==> #[trigger] verdict_colors@[k]@ == verdict_color(ds[k].verdict),
            out@ == prefix + decision_lines(ds, ws, now, min_age_days, color, j as int),
    {
        render_row(&mut out, &rows[j], &widths, &age_colors[j], &verdict_colors[j], color);
    }
    out
}

/// One-line summary appended below the table.
pub fn render_summary(decisions: &[Decision]) -> (r: String)
    ensures
        r@ == summary_spec(decision_views(decisions@)),
{
    let (allowed, promoted, blocked) = counts(decisions);
    let mut s = String::new();
    push_u64(&mut s, decisions.len() as u64);
    push_str(&mut s, " upgrade(s): ");
    push_u64(&mut s, allowed as u64);
    push_str(&mut s, " allowed");
    if promoted > 0 {
        push_str(&mut s, ", ");
        push_u64(&mut s, promoted as u64);
        push_str(&mut s, " promoted");
    }
    push_str(&mut s, ", ");
    push_u64(&mut s, blocked as u64);
    push_str(&mut s, " blocked");
    s
}

/// `{total} upgrade(s): {allowed} allowed[, {promoted} promoted], {blocked} blocked`.
pub open spec fn summary_spec(ds: Seq<DecisionView>) -> Seq<char> {
    let promoted = count_verdict(ds, Verdict::Promote);
    decimal(ds.len()) + " upgrade(s): "@ + decimal(count_verdict(ds, Verdict::Allow))
        + " allowed"@ + (if promoted > 0 {
        ", "@ + decimal(promoted) + " promoted"@
    } else {
        seq![]
    }) + ", "@ + decimal(count_verdict(ds, Verdict::Block)) + " blocked"@
}

/// Whether some blocked AUR decision has no publication date.
pub open spec fn aur_unknown_blocked(ds: Seq<DecisionView>) -> bool {
    exists|i: int|
        0 <= i < ds.len() && (#[trigger] ds[i]).verdict == Verdict::Block && ds[i].candidate.source
            == PackageSource::Aur && ds[i].publication.published_at is None
}

/// The hint shown whenever anything is blocked.
pub open spec fn hint_spec(ds: Seq<DecisionView>, aur_heuristic: bool, config_path: Seq<char>) -> Option<Seq<char>> {
    let blocked = count_verdict(ds, Verdict::Block);
    if blocked == 0 {
        None
    } else {
        let first = "hint: "@ + decimal(blocked)
            + " package(s) blocked; whitelist trusted packages via always_allow in "@ + config_path;
        if aur_unknown_blocked(ds) && !aur_heuristic {
            Some(first + "\n"@ + aur_hint_line())
        } else {
            Some(first)
        }
    }
}

pub open spec fn aur_hint_line() -> Seq<char> {
    "hint: AUR packages have no official publication date; aur_heuristic = true (or --aur-heuristic) gates them by the LastModified field"@
}

/// Actionable hint shown after the report whenever anything is blocked.
/// Points at the whitelist (`always_allow`) and, when blocked AUR packages
/// have unknown age and the heuristic is off, at `aur_heuristic`.
/// Returns `None` when nothing is blocked.
pub fn render_hint(decisions: &[Decision], config: &Config, config_path: &str) -> (r: Option<String>)
    ensures
        match r {
            Some(h) => hint_spec(decision_views(decisions@), config.aur_heuristic, config_path@)
                == Some(h@),
            None => hint_spec(decision_views(decisions@), config.aur_heuristic, config_path@) is None,
        },
{
    let ghost ds = decision_views(decisions@);
    let (_, _, blocked) = counts(decisions);
    if blocked == 0 {
        return None;
    }
    let mut s = String::new();
    push_str(&mut s, "hint: ");
    push_u64(&mut s, blocked as u64);
    push_str(&mut s, " package(s) blocked; whitelist trusted packages via always_allow in ");
    push_str(&mut s, config_path);
    let mut aur_unknown = false;
    let n = decisions.len();
    for i in 0..n
        invariant
            n == decisions@.len() == ds.len(),
            ds == decision_views(decisions@),
            aur_unknown == exists|k: int|
                0 <= k < i && (#[trigger] ds[k]).verdict == Verdict::Block && ds[k].candidate.source
                    == PackageSource::Aur && ds[k].publication.published_at is None,
    {
        let d = &decisions[i];
        assert(ds[i as int] == d@);
        if d.verdict == Verdict::Block && d.candidate.source == PackageSource::Aur
            && d.publication.published_at.is_none() {
            aur_unknown = true;
        }
    }
    if aur_unknown && !config.aur_heuristic {
        push_str(&mut s, "\n");
        push_str(
            &mut s,
            "hint: AUR packages have no official publication date; aur_heuristic = true (or --aur-heuristic) gates them by the LastModified field",
        );
    }
    Some(s)
}

} // verus!

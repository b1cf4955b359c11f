//! Indexing metrics: brackets the insert and build phase of every chunk with
//! wall-clock readings, records the vector count, tree count and database
//! size after each chunk, and renders a column-aligned table — each column as
//! wide as the widest of the five values it holds, so the rows line up.
use vstd::prelude::*;

use crate::text::{chars_to_string, str_chars};

verus! {

broadcast use vstd::seq_lib::group_seq_properties;

/// The decimal digits of `n`, most significant first.
pub open spec fn dec_digits(n: nat) -> Seq<char>
    decreases n,
{
    if n < 10 {
        seq![digit_char(n)]
    } else {
        dec_digits(n / 10).push(digit_char(n % 10))
    }
}

/// The character of one decimal digit.
pub open spec fn digit_char(d: nat) -> char {
    ((48 + d % 10) as u8) as char
}

/// `n` spaces.
pub open spec fn spaces(n: nat) -> Seq<char>
    decreases n,
{
    if n == 0 {
        Seq::empty()
    } else {
        spaces((n - 1) as nat).push(' ')
    }
}

/// `cell` padded on the left with spaces up to `width`; wider cells stay as
/// they are.
pub open spec fn padded(cell: Seq<char>, width: nat) -> Seq<char> {
    if cell.len() >= width {
        cell
    } else {
        spaces((width - cell.len()) as nat) + cell
    }
}

/// A value with two decimals: the integer part of `n / scale`, a point, and
/// the first two fractional digits.
pub open spec fn fixed2(n: nat, scale: nat) -> Seq<char>
    recommends
        scale >= 1,
{
    let frac = (n % scale) * 100 / scale;
    dec_digits(n / scale) + seq!['.', digit_char(frac / 10), digit_char(frac % 10)]
}

/// A duration of `n` nanoseconds under the unit that keeps its integer part
/// below one thousand, with two decimals.
pub open spec fn dur_text(n: nat) -> Seq<char> {
    if n < 1000 {
        fixed2(n, 1) + seq!['n', 's']
    } else if n < 1000000 {
        fixed2(n, 1000) + seq!['u', 's']
    } else if n < 1000000000 {
        fixed2(n, 1000000) + seq!['m', 's']
    } else {
        fixed2(n, 1000000000) + seq!['s']
    }
}

/// What byte-unit displays for `n` bytes under the appropriate binary unit
/// with two decimals.
pub uninterp spec fn byte_text(n: u64) -> Seq<char>;

/// Relies on byte-unit's `Byte::from_u64` and
/// `AdjustedByte::get_appropriate_unit(UnitType::Binary)`, displayed with two
/// decimals: a reading such as `9.77 KiB`, a function of the byte count
/// alone.
#[verifier::external_body]
fn format_byte_size(n: u64) -> (r: String)
    ensures
        r@ == byte_text(n),
{
    let b = byte_unit::Byte::from_u64(n).get_appropriate_unit(byte_unit::UnitType::Binary);
    format!("{b:.2}")
}

/// Appends the decimal digits of `v`.
fn push_dec(out: &mut Vec<char>, v: u128)
    ensures
        final(out)@ == old(out)@ + dec_digits(v as nat),
    decreases v,
{
    if v < 10 {
        out.push((48 + v as u8) as char);
        proof {
            assert(old(out)@ + dec_digits(v as nat) =~= old(out)@.push(digit_char(v as nat)));
        }
    } else {
        push_dec(out, v / 10);
        out.push((48 + (v % 10) as u8) as char);
        proof {
            assert(old(out)@ + dec_digits(v as nat) =~= (old(out)@ + dec_digits(
                (v / 10) as nat,
            )).push(digit_char((v % 10) as nat)));
        }
    }
}

/// Appends a value with two decimals at the given scale.
fn push_fixed2(out: &mut Vec<char>, n: u128, scale: u128)
    requires
        1 <= scale <= 1000000000,
    ensures
        final(out)@ == old(out)@ + fixed2(n as nat, scale as nat),
{
    push_dec(out, n / scale);
    let frac = (n % scale) * 100 / scale;
    out.push('.');
    out.push((48 + (frac / 10 % 10) as u8) as char);
    out.push((48 + (frac % 10) as u8) as char);
    proof {
        let fr = ((n as nat) % (scale as nat)) * 100 / (scale as nat);
        assert(fr < 100) by (nonlinear_arith)
            requires
                1 <= scale,
                fr == ((n as nat) % (scale as nat)) * 100 / (scale as nat),
        ;
        assert(old(out)@ + fixed2(n as nat, scale as nat) =~= ((old(out)@ + dec_digits(
            (n / scale) as nat,
        )).push('.').push(digit_char((fr / 10) as nat))).push(digit_char((fr % 10) as nat)));
    }
}

/// Formats a duration in nanoseconds, choosing the unit as `dur_text` does.
fn format_duration(n: u128) -> (r: Vec<char>)
    ensures
        r@ == dur_text(n as nat),
{
    let mut out: Vec<char> = Vec::new();
    if n < 1000 {
        push_fixed2(&mut out, n, 1);
        out.push('n');
        out.push('s');
        proof {
            assert(out@ =~= dur_text(n as nat));
        }
    } else if n < 1000000 {
        push_fixed2(&mut out, n, 1000);
        out.push('u');
        out.push('s');
        proof {
            assert(out@ =~= dur_text(n as nat));
        }
    } else if n < 1000000000 {
        push_fixed2(&mut out, n, 1000000);
        out.push('m');
        out.push('s');
        proof {
            assert(out@ =~= dur_text(n as nat));
        }
    } else {
        push_fixed2(&mut out, n, 1000000000);
        out.push('s');
        proof {
            assert(out@ =~= dur_text(n as nat));
        }
    }
    out
}

/// Pads a cell on the left with spaces up to `width`.
fn pad_left(cell: &Vec<char>, width: usize) -> (r: Vec<char>)
    ensures
        r@ == padded(cell@, width as nat),
{
    let mut out: Vec<char> = Vec::new();
    if cell.len() < width {
        let gap = width - cell.len();
        let mut i: usize = 0;
        while i < gap
            invariant
                i <= gap,
                out@ == spaces(i as nat),
            decreases gap - i,
        {
            out.push(' ');
            i += 1;
        }
    }
    let mut j: usize = 0;
    let ghost lead = out@;
    while j < cell.len()
        invariant
            j <= cell@.len(),
            out@ == lead + cell@.take(j as int),
        decreases cell@.len() - j,
    {
        out.push(cell[j]);
        proof {
            assert(lead + cell@.take((j + 1) as int) =~= (lead + cell@.take(j as int)).push(
                cell@[j as int],
            ));
        }
        j += 1;
    }
    proof {
        assert(cell@.take(cell@.len() as int) =~= cell@);
        if cell@.len() >= width as nat {
            assert(lead =~= Seq::<char>::empty());
            assert(lead + cell@ =~= cell@);
        }
    }
    out
}

/// One table row: the cells padded to their column widths, separated by
/// commas.
pub open spec fn row_text(cells: Seq<Seq<char>>, widths: Seq<usize>) -> Seq<char>
    decreases cells.len(),
{
    if cells.len() == 0 {
        Seq::empty()
    } else if cells.len() == 1 {
        padded(cells[0], widths[0] as nat)
    } else {
        row_text(cells.drop_last(), widths.drop_last()) + ", "@ + padded(
            cells.last(),
            widths.last() as nat,
        )
    }
}

/// The views of a list of cells.
pub open spec fn views_of(cells: Seq<Vec<char>>) -> Seq<Seq<char>> {
    Seq::new(cells.len(), |i: int| cells[i]@)
}

/// Renders one row of cells aligned to the column widths.
fn render_row(cells: &Vec<Vec<char>>, widths: &Vec<usize>) -> (r: Vec<char>)
    requires
        cells@.len() == widths@.len(),
    ensures
        r@ == row_text(views_of(cells@), widths@),
{
    let mut out: Vec<char> = Vec::new();
    let sep = str_chars(", ");
    proof {
        assert(views_of(cells@).take(0) =~= views_of(cells@.take(0)));
        assert(out@ =~= row_text(views_of(cells@).take(0), widths@.take(0)));
    }
    let mut i: usize = 0;
    while i < cells.len()
        invariant
            i <= cells@.len(),
            cells@.len() == widths@.len(),
            sep@ == ", "@,
            out@ == row_text(views_of(cells@).take(i as int), widths@.take(i as int)),
        decreases cells@.len() - i,
    {
        if i > 0 {
            out.extend_from_slice(sep.as_slice());
        }
        let padded_cell = pad_left(&cells[i], widths[i]);
        out.extend_from_slice(padded_cell.as_slice());
        proof {
            let cv = views_of(cells@);
            assert(cv.take((i + 1) as int).drop_last() =~= cv.take(i as int));
            assert(widths@.take((i + 1) as int).drop_last() =~= widths@.take(i as int));
            assert(cv.take((i + 1) as int).last() == cells@[i as int]@);
            assert(widths@.take((i + 1) as int).last() == widths@[i as int]);
            if i == 0 {
                assert(out@ =~= row_text(cv.take(1), widths@.take(1)));
            } else {
                assert(out@ =~= row_text(cv.take((i + 1) as int), widths@.take((i + 1) as int)));
            }
        }
        i += 1;
    }
    proof {
        assert(views_of(cells@).take(cells@.len() as int) =~= views_of(cells@));
        assert(widths@.take(widths@.len() as int) =~= widths@);
    }
    out
}

/// Appends a fixed piece of text.
fn push_label(out: &mut Vec<char>, s: &str)
    ensures
        final(out)@ == old(out)@ + s@,
{
    let v = str_chars(s);
    out.extend_from_slice(v.as_slice());
}

/// The larger of two widths.
pub open spec fn max2(a: nat, b: nat) -> nat {
    if a >= b {
        a
    } else {
        b
    }
}

/// The smaller of two lengths.
pub open spec fn min2(a: nat, b: nat) -> nat {
    if a <= b {
        a
    } else {
        b
    }
}

/// The first `m` vector or tree counts as decimal cells.
pub open spec fn counts_text(vs: Seq<usize>, m: nat) -> Seq<Seq<char>> {
    Seq::new(m, |i: int| dec_digits(vs[i] as nat))
}

/// The first `m` durations as cells.
pub open spec fn durs_text(ds: Seq<u64>, m: nat) -> Seq<Seq<char>> {
    Seq::new(m, |i: int| dur_text(ds[i] as nat))
}

/// The first `m` database sizes as cells.
pub open spec fn sizes_text(ss: Seq<usize>, m: nat) -> Seq<Seq<char>> {
    Seq::new(m, |i: int| byte_text(ss[i] as u64))
}

/// Per column, the width of the widest of the five cells it holds.
pub open spec fn widths5(
    c1: Seq<Seq<char>>,
    c2: Seq<Seq<char>>,
    c3: Seq<Seq<char>>,
    c4: Seq<Seq<char>>,
    c5: Seq<Seq<char>>,
    m: nat,
) -> Seq<usize> {
    Seq::new(
        m,
        |i: int|
            max2(
                max2(max2(max2(c1[i].len(), c2[i].len()), c3[i].len()), c4[i].len()),
                c5[i].len(),
            ) as usize,
    )
}

/// The per-chunk durations of the header line, separated by plus signs: each
/// chunk's insert phase plus its build phase.
pub open spec fn sums_text(ins: Seq<u64>, bld: Seq<u64>, j: int) -> Seq<char>
    decreases j,
{
    if j <= 0 {
        Seq::empty()
    } else if j == 1 {
        dur_text((ins[0] + bld[0]) as nat)
    } else {
        sums_text(ins, bld, j - 1) + " + "@ + dur_text((ins[j - 1] + bld[j - 1]) as nat)
    }
}

/// The whole rendered metrics table: the header line with the total time and
/// the per-chunk times, then the five aligned rows. Rows render as many
/// columns as every recorded list can fill.
pub open spec fn table_text(
    total: nat,
    ins: Seq<u64>,
    bld: Seq<u64>,
    vs: Seq<usize>,
    trees: Seq<usize>,
    sizes: Seq<usize>,
) -> Seq<char> {
    let k = min2(ins.len(), bld.len());
    let m = min2(min2(min2(min2(vs.len(), ins.len()), bld.len()), trees.len()), sizes.len());
    let c1 = counts_text(vs, m);
    let c2 = durs_text(ins, m);
    let c3 = durs_text(bld, m);
    let c4 = counts_text(trees, m);
    let c5 = sizes_text(sizes, m);
    let w = widths5(c1, c2, c3, c4, c5, m);
    "Total time to index: "@ + dur_text(total) + " ("@ + sums_text(ins, bld, k as int) + ")\n"@
        + "  => Vectors:    "@ + row_text(c1, w) + "\n"@ + "  => Insertions: "@ + row_text(c2, w)
        + "\n"@ + "  => Builds:     "@ + row_text(c3, w) + "\n"@ + "  => Trees:      "@ + row_text(
        c4,
        w,
    ) + "\n"@ + "  => Db size:    "@ + row_text(c5, w)
}

/// Builds the decimal cells of the first `m` counts.
fn build_count_cells(vs: &Vec<usize>, m: usize) -> (r: Vec<Vec<char>>)
    requires
        m <= vs@.len(),
    ensures
        r@.len() == m,
        views_of(r@) == counts_text(vs@, m as nat),
{
    let mut r: Vec<Vec<char>> = Vec::new();
    let mut i: usize = 0;
    while i < m
        invariant
            i <= m,
            m <= vs@.len(),
            r@.len() == i,
            forall|t: int| 0 <= t < i ==> (#[trigger] r@[t])@ == dec_digits(vs@[t] as nat),
        decreases m - i,
    {
        let mut cell: Vec<char> = Vec::new();
        push_dec(&mut cell, vs[i] as u128);
        let ghost old_r = r@;
        r.push(cell);
        proof {
            assert(forall|t: int| 0 <= t < i ==> r@[t] == old_r[t]);
            assert(r@[i as int]@ == dec_digits(vs@[i as int] as nat));
        }
        i += 1;
    }
    proof {
        assert(views_of(r@) =~= counts_text(vs@, m as nat));
    }
    r
}

/// Builds the duration cells of the first `m` phase durations.
fn build_dur_cells(ds: &Vec<u64>, m: usize) -> (r: Vec<Vec<char>>)
    requires
        m <= ds@.len(),
    ensures
        r@.len() == m,
        views_of(r@) == durs_text(ds@, m as nat),
{
    let mut r: Vec<Vec<char>> = Vec::new();
    let mut i: usize = 0;
    while i < m
        invariant
            i <= m,
            m <= ds@.len(),
            r@.len() == i,
            forall|t: int| 0 <= t < i ==> (#[trigger] r@[t])@ == dur_text(ds@[t] as nat),
        decreases m - i,
    {
        let cell = format_duration(ds[i] as u128);
        let ghost old_r = r@;
        r.push(cell);
        proof {
            assert(forall|t: int| 0 <= t < i ==> r@[t] == old_r[t]);
            assert(r@[i as int]@ == dur_text(ds@[i as int] as nat));
        }
        i += 1;
    }
    proof {
        assert(views_of(r@) =~= durs_text(ds@, m as nat));
    }
    r
}

/// Builds the byte-size cells of the first `m` database sizes.
fn build_size_cells(ss: &Vec<usize>, m: usize) -> (r: Vec<Vec<char>>)
    requires
        m <= ss@.len(),
    ensures
        r@.len() == m,
        views_of(r@) == sizes_text(ss@, m as nat),
{
    let mut r: Vec<Vec<char>> = Vec::new();
    let mut i: usize = 0;
    while i < m
        invariant
            i <= m,
            m <= ss@.len(),
            r@.len() == i,
            forall|t: int| 0 <= t < i ==> (#[trigger] r@[t])@ == byte_text(ss@[t] as u64),
        decreases m - i,
    {
        let text = format_byte_size(ss[i] as u64);
        let cell = str_chars(text.as_str());
        let ghost old_r = r@;
        r.push(cell);
        proof {
            assert(forall|t: int| 0 <= t < i ==> r@[t] == old_r[t]);
            assert(r@[i as int]@ == byte_text(ss@[i as int] as u64));
        }
        i += 1;
    }
    proof {
        assert(views_of(r@) =~= sizes_text(ss@, m as nat));
    }
    r
}

/// The larger of two widths.
fn max2_ex(a: usize, b: usize) -> (r: usize)
    ensures
        r as nat == max2(a as nat, b as nat),
{
    if a >= b {
        a
    } else {
        b
    }
}

/// The smaller of two lengths.
fn min2_ex(a: usize, b: usize) -> (r: usize)
    ensures
        r as nat == min2(a as nat, b as nat),
{
    if a <= b {
        a
    } else {
        b
    }
}

/// Computes, per column, the width of the widest of the five cells.
fn compute_widths(
    c1: &Vec<Vec<char>>,
    c2: &Vec<Vec<char>>,
    c3: &Vec<Vec<char>>,
    c4: &Vec<Vec<char>>,
    c5: &Vec<Vec<char>>,
    m: usize,
) -> (r: Vec<usize>)
    requires
        c1@.len() == m,
        c2@.len() == m,
        c3@.len() == m,
        c4@.len() == m,
        c5@.len() == m,
    ensures
        r@.len() == m,
        r@ == widths5(
            views_of(c1@),
            views_of(c2@),
            views_of(c3@),
            views_of(c4@),
            views_of(c5@),
            m as nat,
        ),
{
    let ghost spec_w = widths5(
        views_of(c1@),
        views_of(c2@),
        views_of(c3@),
        views_of(c4@),
        views_of(c5@),
        m as nat,
    );
    let mut r: Vec<usize> = Vec::new();
    let mut i: usize = 0;
    while i < m
        invariant
            i <= m,
            c1@.len() == m,
            c2@.len() == m,
            c3@.len() == m,
            c4@.len() == m,
            c5@.len() == m,
            r@.len() == i,
            spec_w == widths5(
                views_of(c1@),
                views_of(c2@),
                views_of(c3@),
                views_of(c4@),
                views_of(c5@),
                m as nat,
            ),
            forall|t: int| 0 <= t < i ==> r@[t] == spec_w[t],
        decreases m - i,
    {
        let w = max2_ex(
            max2_ex(max2_ex(max2_ex(c1[i].len(), c2[i].len()), c3[i].len()), c4[i].len()),
            c5[i].len(),
        );
        r.push(w);
        i += 1;
    }
    proof {
        assert(r@ =~= spec_w);
    }
    r
}

/// Renders the whole metrics table from the recorded plain values.
#[verifier::rlimit(80)]
pub fn render_table(
    total_nanos: u64,
    insert_nanos: &Vec<u64>,
    build_nanos: &Vec<u64>,
    nb_vectors: &Vec<usize>,
    nb_trees: &Vec<usize>,
    db_sizes: &Vec<usize>,
) -> (r: String)
    ensures
        r@ == table_text(
            total_nanos as nat,
            insert_nanos@,
            build_nanos@,
            nb_vectors@,
            nb_trees@,
            db_sizes@,
        ),
{
    let mut out: Vec<char> = Vec::new();
    push_label(&mut out, "Total time to index: ");
    let total_cell = format_duration(total_nanos as u128);
    out.extend_from_slice(total_cell.as_slice());
    push_label(&mut out, " (");
    let k = min2_ex(insert_nanos.len(), build_nanos.len());
    let ghost header_base = out@;
    proof {
        assert(out@ =~= header_base + sums_text(insert_nanos@, build_nanos@, 0));
    }
    let mut j: usize = 0;
    while j < k
        invariant
            j <= k,
            k as nat == min2(insert_nanos@.len(), build_nanos@.len()),
            out@ == header_base + sums_text(insert_nanos@, build_nanos@, j as int),
        decreases k - j,
    {
        if j > 0 {
            push_label(&mut out, " + ");
        }
        let sum: u128 = (insert_nanos[j] as u128) + (build_nanos[j] as u128);
        let cell = format_duration(sum);
        out.extend_from_slice(cell.as_slice());
        proof {
            if j == 0 {
                assert(out@ =~= header_base + sums_text(insert_nanos@, build_nanos@, 1));
            } else {
                assert(out@ =~= header_base + sums_text(insert_nanos@, build_nanos@, (j + 1) as int));
            }
        }
        j += 1;
    }
    push_label(&mut out, ")\n");
    let m = min2_ex(
        min2_ex(
            min2_ex(min2_ex(nb_vectors.len(), insert_nanos.len()), build_nanos.len()),
            nb_trees.len(),
        ),
        db_sizes.len(),
    );
    let c1 = build_count_cells(nb_vectors, m);
    let c2 = build_dur_cells(insert_nanos, m);
    let c3 = build_dur_cells(build_nanos, m);
    let c4 = build_count_cells(nb_trees, m);
    let c5 = build_size_cells(db_sizes, m);
    let w = compute_widths(&c1, &c2, &c3, &c4, &c5, m);
    push_label(&mut out, "  => Vectors:    ");
    let row1 = render_row(&c1, &w);
    out.extend_from_slice(row1.as_slice());
    push_label(&mut out, "\n  => Insertions: ");
    let row2 = render_row(&c2, &w);
    out.extend_from_slice(row2.as_slice());
    push_label(&mut out, "\n  => Builds:     ");
    let row3 = render_row(&c3, &w);
    out.extend_from_slice(row3.as_slice());
    push_label(&mut out, "\n  => Trees:      ");
    let row4 = render_row(&c4, &w);
    out.extend_from_slice(row4.as_slice());
    push_label(&mut out, "\n  => Db size:    ");
    let row5 = render_row(&c5, &w);
    out.extend_from_slice(row5.as_slice());
    proof {
        assert("\n  => Insertions: "@ =~= "\n"@ + "  => Insertions: "@) by {
            reveal_strlit("\n  => Insertions: ");
            reveal_strlit("\n");
            reveal_strlit("  => Insertions: ");
        }
        assert("\n  => Builds:     "@ =~= "\n"@ + "  => Builds:     "@) by {
            reveal_strlit("\n  => Builds:     ");
            reveal_strlit("\n");
            reveal_strlit("  => Builds:     ");
        }
        assert("\n  => Trees:      "@ =~= "\n"@ + "  => Trees:      "@) by {
            reveal_strlit("\n  => Trees:      ");
            reveal_strlit("\n");
            reveal_strlit("  => Trees:      ");
        }
        assert("\n  => Db size:    "@ =~= "\n"@ + "  => Db size:    "@) by {
            reveal_strlit("\n  => Db size:    ");
            reveal_strlit("\n");
            reveal_strlit("  => Db size:    ");
        }
        assert(out@ =~= table_text(
            total_nanos as nat,
            insert_nanos@,
            build_nanos@,
            nb_vectors@,
            nb_trees@,
            db_sizes@,
        ));
    }
    chars_to_string(&out)
}

#[verifier::external_type_specification]
#[verifier::external_body]
pub struct ExInstant(std::time::Instant);

/// Relies on std's `Instant::now`; nothing is promised of the reading.
#[verifier::external_body]
fn instant_now() -> (t: std::time::Instant) {
    std::time::Instant::now()
}

/// Relies on `Instant::duration_since` and `Duration::as_nanos`: the
/// nanoseconds elapsed from `earlier` to `later` — zero when `later` is in
/// fact the earlier reading. Nothing is promised of the value.
#[verifier::external_body]
fn nanos_between(earlier: &std::time::Instant, later: &std::time::Instant) -> (n: u64) {
    later.duration_since(*earlier).as_nanos() as u64
}

/// Wall-clock metrics of one chunked indexing run: the insert and build
/// phase of every chunk is bracketed by readings, and after each chunk the
/// caller feeds back the cumulative vector count, the resulting tree count
/// and the database size.
#[derive(Debug)]
pub struct IndexingMetrics {
    start: std::time::Instant,
    end: std::time::Instant,
    insert_durations: Vec<(std::time::Instant, std::time::Instant)>,
    build_durations: Vec<(std::time::Instant, std::time::Instant)>,
    nb_vectors: Vec<usize>,
    database_size: Vec<usize>,
    nb_trees: Vec<usize>,
}

impl IndexingMetrics {
    /// How many insert phases have been opened.
    pub closed spec fn insert_chunks(&self) -> nat {
        self.insert_durations@.len()
    }

    /// How many build phases have been opened.
    pub closed spec fn build_chunks(&self) -> nat {
        self.build_durations@.len()
    }

    /// The recorded cumulative vector counts, one per chunk.
    pub closed spec fn vectors(&self) -> Seq<usize> {
        self.nb_vectors@
    }

    /// The recorded database sizes, one per chunk.
    pub closed spec fn sizes(&self) -> Seq<usize> {
        self.database_size@
    }

    /// The recorded tree counts, one per chunk.
    pub closed spec fn trees(&self) -> Seq<usize> {
        self.nb_trees@
    }

    /// Opens the metrics of a fresh run, with nothing recorded yet.
    pub fn new() -> (r: Self)
        ensures
            r.insert_chunks() == 0,
            r.build_chunks() == 0,
            r.vectors() == Seq::<usize>::empty(),
            r.sizes() == Seq::<usize>::empty(),
            r.trees() == Seq::<usize>::empty(),
    {
        let start = instant_now();
        let end = instant_now();
        IndexingMetrics {
            start,
            end,
            insert_durations: Vec::new(),
            build_durations: Vec::new(),
            nb_vectors: Vec::new(),
            database_size: Vec::new(),
            nb_trees: Vec::new(),
        }
    }

    /// Opens one chunk's insert phase.
    pub fn start_insertion(&mut self)
        ensures
            final(self).insert_chunks() == old(self).insert_chunks() + 1,
            final(self).build_chunks() == old(self).build_chunks(),
            final(self).vectors() == old(self).vectors(),
            final(self).sizes() == old(self).sizes(),
            final(self).trees() == old(self).trees(),
    {
        let a = instant_now();
        let b = instant_now();
        self.insert_durations.push((a, b));
    }

    /// Closes the insert phase that `start_insertion` opened.
    pub fn end_insertion(&mut self)
        requires
            old(self).insert_chunks() > 0,
        ensures
            final(self).insert_chunks() == old(self).insert_chunks(),
            final(self).build_chunks() == old(self).build_chunks(),
            final(self).vectors() == old(self).vectors(),
            final(self).sizes() == old(self).sizes(),
            final(self).trees() == old(self).trees(),
    {
        let pair = self.insert_durations.pop();
        match pair {
            Some(p) => {
                let now = instant_now();
                self.insert_durations.push((p.0, now));
                proof {
                    assert(self.insert_durations@.len() == old(self).insert_durations@.len());
                }
            },
            None => {},
        }
    }

    /// Opens one chunk's build phase.
    pub fn start_building(&mut self)
        ensures
            final(self).build_chunks() == old(self).build_chunks() + 1,
            final(self).insert_chunks() == old(self).insert_chunks(),
            final(self).vectors() == old(self).vectors(),
            final(self).sizes() == old(self).sizes(),
            final(self).trees() == old(self).trees(),
    {
        let a = instant_now();
        let b = instant_now();
        self.build_durations.push((a, b));
    }

    /// Closes the build phase that `start_building` opened.
    pub fn end_building(&mut self)
        requires
            old(self).build_chunks() > 0,
        ensures
            final(self).insert_chunks() == old(self).insert_chunks(),
            final(self).build_chunks() == old(self).build_chunks(),
            final(self).vectors() == old(self).vectors(),
            final(self).sizes() == old(self).sizes(),
            final(self).trees() == old(self).trees(),
    {
        let pair = self.build_durations.pop();
        match pair {
            Some(p) => {
                let now = instant_now();
                self.build_durations.push((p.0, now));
                proof {
                    assert(self.build_durations@.len() == old(self).build_durations@.len());
                }
            },
            None => {},
        }
    }

    /// Records the cumulative vector count after a chunk.
    pub fn new_nb_vectors(&mut self, nb_vectors: usize)
        ensures
            final(self).vectors() == old(self).vectors().push(nb_vectors),
            final(self).insert_chunks() == old(self).insert_chunks(),
            final(self).build_chunks() == old(self).build_chunks(),
            final(self).sizes() == old(self).sizes(),
            final(self).trees() == old(self).trees(),
    {
        self.nb_vectors.push(nb_vectors);
    }

    /// Records the database size after a chunk.
    pub fn new_database_size(&mut self, size: usize)
        ensures
            final(self).sizes() == old(self).sizes().push(size),
            final(self).insert_chunks() == old(self).insert_chunks(),
            final(self).build_chunks() == old(self).build_chunks(),
            final(self).vectors() == old(self).vectors(),
            final(self).trees() == old(self).trees(),
    {
        self.database_size.push(size);
    }

    /// Records the resulting tree count after a chunk.
    pub fn new_nb_trees(&mut self, nb_trees: usize)
        ensures
            final(self).trees() == old(self).trees().push(nb_trees),
            final(self).insert_chunks() == old(self).insert_chunks(),
            final(self).build_chunks() == old(self).build_chunks(),
            final(self).vectors() == old(self).vectors(),
            final(self).sizes() == old(self).sizes(),
    {
        self.nb_trees.push(nb_trees);
    }

    /// Closes the run: total time counts from `new` to this call.
    pub fn end(&mut self)
        ensures
            final(self).insert_chunks() == old(self).insert_chunks(),
            final(self).build_chunks() == old(self).build_chunks(),
            final(self).vectors() == old(self).vectors(),
            final(self).sizes() == old(self).sizes(),
            final(self).trees() == old(self).trees(),
    {
        let now = instant_now();
        self.end = now;
    }

    /// Renders the aligned table of this run: the total and per-chunk times
    /// are whatever the clock readings gave, everything else is the recorded
    /// values.
    pub fn render(&self) -> (r: String)
        ensures
            exists|total: u64, ins: Seq<u64>, bld: Seq<u64>|
                {
                    &&& ins.len() == self.insert_chunks()
                    &&& bld.len() == self.build_chunks()
                    &&& r@ == #[trigger] table_text(
                        total as nat,
                        ins,
                        bld,
                        self.vectors(),
                        self.trees(),
                        self.sizes(),
                    )
                },
    {
        let mut ins: Vec<u64> = Vec::new();
        let mut i: usize = 0;
        while i < self.insert_durations.len()
            invariant
                i <= self.insert_durations@.len(),
                ins@.len() == i,
            decreases self.insert_durations@.len() - i,
        {
            let pair = &self.insert_durations[i];
            let n = nanos_between(&pair.0, &pair.1);
            ins.push(n);
            i += 1;
        }
        let mut bld: Vec<u64> = Vec::new();
        let mut j: usize = 0;
        while j < self.build_durations.len()
            invariant
                j <= self.build_durations@.len(),
                bld@.len() == j,
            decreases self.build_durations@.len() - j,
        {
            let pair = &self.build_durations[j];
            let n = nanos_between(&pair.0, &pair.1);
            bld.push(n);
            j += 1;
        }
        let total = nanos_between(&self.start, &self.end);
        let r = render_table(
            total,
            &ins,
            &bld,
            &self.nb_vectors,
            &self.nb_trees,
            &self.database_size,
        );
        proof {
            assert(r@ == table_text(
                total as nat,
                ins@,
                bld@,
                self.vectors(),
                self.trees(),
                self.sizes(),
            ));
        }
        r
    }
}

} // verus!

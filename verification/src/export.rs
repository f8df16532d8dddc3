use vstd::prelude::*;
use vstd::string::StringSliceAdditionalSpecFns;

use crate::command::{dec_digits, dec_digits_signed, push_bytes, push_i64_dec, push_text, push_u64_dec};
use crate::response::{match_at, spec_trimmed, trimmed};

verus! {

/// The views of a sequence of byte vectors.
pub open spec fn views_of(s: Seq<Vec<u8>>) -> Seq<Seq<u8>> {
    s.map_values(|v: Vec<u8>| v@)
}

/// The offset of the first `sep` in `s`, or `s`'s length when there is none.
pub open spec fn find_byte(s: Seq<u8>, sep: u8) -> nat
    decreases s.len(),
{
    if s.len() == 0 {
        0
    } else if s[0] == sep {
        0
    } else {
        1 + find_byte(s.drop_first(), sep)
    }
}

/// `find_byte` finds exactly the first occurrence.
pub proof fn lemma_find_byte(s: Seq<u8>, sep: u8, k: int)
    requires
        0 <= k <= s.len(),
        forall|t: int| 0 <= t < k ==> s[t] != sep,
        k < s.len() ==> s[k] == sep,
    ensures
        find_byte(s, sep) == k,
    decreases k,
{
    if k == 0 {
    } else {
        assert(s[0] != sep);
        lemma_find_byte(s.drop_first(), sep, k - 1);
    }
}

/// A line without its trailing carriage return, if it carries one.
pub open spec fn strip_cr(l: Seq<u8>) -> Seq<u8> {
    if l.len() > 0 && l.last() == 13 {
        l.drop_last()
    } else {
        l
    }
}

/// The lines of `s`: split at every newline, each line's one trailing
/// carriage return (if any) removed, empty lines kept.
pub open spec fn spec_lines(s: Seq<u8>) -> Seq<Seq<u8>>
    decreases s.len(),
{
    let i = find_byte(s, 10);
    if i >= s.len() {
        seq![strip_cr(s)]
    } else {
        seq![strip_cr(s.take(i as int))] + spec_lines(s.skip(i + 1 as int))
    }
}

/// Drop a trailing carriage return.
fn strip_cr_exec(l: &mut Vec<u8>)
    ensures
        final(l)@ == strip_cr(old(l)@),
{
    if l.len() > 0 {
        let last_i = l.len() - 1;
        let last_b = l[last_i];
        if last_b == 13 {
            l.pop();
        }
    }
}

/// Split `s` into lines.
fn split_lines(s: &[u8]) -> (r: Vec<Vec<u8>>)
    ensures
        views_of(r@) == spec_lines(s@),
{
    let mut lines: Vec<Vec<u8>> = Vec::new();
    let mut cur: Vec<u8> = Vec::new();
    let ghost mut cstart: int = 0;
    let mut i: usize = 0;
    proof {
        assert(s@.skip(0) =~= s@);
        assert(views_of(lines@) + spec_lines(s@) =~= spec_lines(s@));
    }
    while i < s.len()
        invariant
            0 <= cstart <= i <= s@.len(),
            cur@ == s@.subrange(cstart, i as int),
            forall|t: int| cstart <= t < i ==> s@[t] != 10,
            spec_lines(s@) == views_of(lines@) + spec_lines(s@.skip(cstart)),
        decreases s@.len() - i,
    {
        let b = s[i];
        if b == 10 {
            proof {
                let rem = s@.skip(cstart);
                assert forall|t: int| 0 <= t < i - cstart implies rem[t] != 10 by {
                    assert(rem[t] == s@[cstart + t]);
                }
                assert(rem[i - cstart] == 10);
                lemma_find_byte(rem, 10, i - cstart);
                assert(rem.take(i - cstart) =~= s@.subrange(cstart, i as int));
                assert(rem.skip(i - cstart + 1) =~= s@.skip(i + 1));
                assert(spec_lines(rem) == seq![strip_cr(cur@)] + spec_lines(s@.skip(i + 1)));
            }
            strip_cr_exec(&mut cur);
            let mut done: Vec<u8> = Vec::new();
            core::mem::swap(&mut cur, &mut done);
            lines.push(done);
            proof {
                assert(views_of(lines@) =~= views_of(lines@.drop_last()) + seq![
                    lines@.last()@,
                ]);
                assert(views_of(lines@) + spec_lines(s@.skip(i + 1)) =~= views_of(
                    lines@.drop_last(),
                ) + spec_lines(s@.skip(cstart)));
                cstart = i + 1;
                assert(cur@ =~= s@.subrange(cstart, i + 1));
            }
        } else {
            cur.push(b);
            proof {
                assert(cur@ =~= s@.subrange(cstart, i + 1));
            }
        }
        i += 1;
    }
    proof {
        let rem = s@.skip(cstart);
        assert forall|t: int| 0 <= t < rem.len() implies rem[t] != 10 by {
            assert(rem[t] == s@[cstart + t]);
        }
        lemma_find_byte(rem, 10, rem.len() as int);
        assert(rem =~= s@.subrange(cstart, i as int));
        assert(spec_lines(rem) == seq![strip_cr(cur@)]);
    }
    strip_cr_exec(&mut cur);
    lines.push(cur);
    proof {
        assert(views_of(lines@) =~= views_of(lines@.drop_last()) + seq![lines@.last()@]);
        assert(views_of(lines@) =~= spec_lines(s@));
    }
    lines
}

/// Whether `l` begins with `p`.
pub open spec fn starts_with(l: Seq<u8>, p: Seq<u8>) -> bool {
    p.len() <= l.len() && l.take(p.len() as int) == p
}

/// The index of the first line beginning with `p`, or the number of lines
/// when there is none.
pub open spec fn find_prefixed_line(ls: Seq<Seq<u8>>, p: Seq<u8>) -> nat
    decreases ls.len(),
{
    if ls.len() == 0 {
        0
    } else if starts_with(ls[0], p) {
        0
    } else {
        1 + find_prefixed_line(ls.drop_first(), p)
    }
}

/// `find_prefixed_line` finds exactly the first match.
pub proof fn lemma_find_prefixed_line(ls: Seq<Seq<u8>>, p: Seq<u8>, k: int)
    requires
        0 <= k <= ls.len(),
        forall|t: int| 0 <= t < k ==> !starts_with(ls[t], p),
        k < ls.len() ==> starts_with(ls[k], p),
    ensures
        find_prefixed_line(ls, p) == k,
    decreases k,
{
    if k == 0 {
    } else {
        assert(!starts_with(ls[0], p));
        lemma_find_prefixed_line(ls.drop_first(), p, k - 1);
    }
}

/// The index of the last line before `d` beginning with `p`, or `-1` when
/// there is none.
pub open spec fn rfind_prefixed_line(ls: Seq<Seq<u8>>, p: Seq<u8>, d: int) -> int
    decreases d,
{
    if d <= 0 || d > ls.len() {
        -1
    } else if starts_with(ls[d - 1], p) {
        d - 1
    } else {
        rfind_prefixed_line(ls, p, d - 1)
    }
}

/// The index of the first cell equal to `name`, or the number of cells when
/// there is none.
pub open spec fn find_cell(cells: Seq<Seq<u8>>, name: Seq<u8>) -> nat
    decreases cells.len(),
{
    if cells.len() == 0 {
        0
    } else if cells[0] == name {
        0
    } else {
        1 + find_cell(cells.drop_first(), name)
    }
}

/// `find_cell` finds exactly the first match.
pub proof fn lemma_find_cell(cells: Seq<Seq<u8>>, name: Seq<u8>, k: int)
    requires
        0 <= k <= cells.len(),
        forall|t: int| 0 <= t < k ==> cells[t] != name,
        k < cells.len() ==> cells[k] == name,
    ensures
        find_cell(cells, name) == k,
    decreases k,
{
    if k == 0 {
    } else {
        assert(cells[0] != name);
        lemma_find_cell(cells.drop_first(), name, k - 1);
    }
}

/// The cells of one tab-separated row, empty cells kept.
pub open spec fn spec_split(s: Seq<u8>, sep: u8) -> Seq<Seq<u8>>
    decreases s.len(),
{
    let i = find_byte(s, sep);
    if i >= s.len() {
        seq![s]
    } else {
        seq![s.take(i as int)] + spec_split(s.skip(i + 1 as int), sep)
    }
}

/// Split `s` at every `sep`.
fn split_cells(s: &[u8], sep: u8) -> (r: Vec<Vec<u8>>)
    ensures
        views_of(r@) == spec_split(s@, sep),
{
    let mut cells: Vec<Vec<u8>> = Vec::new();
    let mut cur: Vec<u8> = Vec::new();
    let ghost mut cstart: int = 0;
    let mut i: usize = 0;
    proof {
        assert(s@.skip(0) =~= s@);
        assert(views_of(cells@) + spec_split(s@, sep) =~= spec_split(s@, sep));
    }
    while i < s.len()
        invariant
            0 <= cstart <= i <= s@.len(),
            cur@ == s@.subrange(cstart, i as int),
            forall|t: int| cstart <= t < i ==> s@[t] != sep,
            spec_split(s@, sep) == views_of(cells@) + spec_split(s@.skip(cstart), sep),
        decreases s@.len() - i,
    {
        let b = s[i];
        if b == sep {
            proof {
                let rem = s@.skip(cstart);
                assert forall|t: int| 0 <= t < i - cstart implies rem[t] != sep by {
                    assert(rem[t] == s@[cstart + t]);
                }
                assert(rem[i - cstart] == sep);
                lemma_find_byte(rem, sep, i - cstart);
                assert(rem.take(i - cstart) =~= s@.subrange(cstart, i as int));
                assert(rem.skip(i - cstart + 1) =~= s@.skip(i + 1));
                assert(spec_split(rem, sep) == seq![cur@] + spec_split(s@.skip(i + 1), sep));
            }
            let mut done: Vec<u8> = Vec::new();
            core::mem::swap(&mut cur, &mut done);
            cells.push(done);
            proof {
                assert(views_of(cells@) =~= views_of(cells@.drop_last()) + seq![cells@.last()@]);
                assert(views_of(cells@) + spec_split(s@.skip(i + 1), sep) =~= views_of(
                    cells@.drop_last(),
                ) + spec_split(s@.skip(cstart), sep));
                cstart = i + 1;
                assert(cur@ =~= s@.subrange(cstart, i + 1));
            }
        } else {
            cur.push(b);
            proof {
                assert(cur@ =~= s@.subrange(cstart, i + 1));
            }
        }
        i += 1;
    }
    proof {
        let rem = s@.skip(cstart);
        assert forall|t: int| 0 <= t < rem.len() implies rem[t] != sep by {
            assert(rem[t] == s@[cstart + t]);
        }
        lemma_find_byte(rem, sep, rem.len() as int);
        assert(rem =~= s@.subrange(cstart, i as int));
        assert(spec_split(rem, sep) == seq![cur@]);
    }
    cells.push(cur);
    proof {
        assert(views_of(cells@) =~= views_of(cells@.drop_last()) + seq![cells@.last()@]);
        assert(views_of(cells@) =~= spec_split(s@, sep));
    }
    cells
}

/// A decimal digit.
pub open spec fn is_digit(b: u8) -> bool {
    48 <= b <= 57
}

/// Every byte a decimal digit.
pub open spec fn all_digits(s: Seq<u8>) -> bool {
    forall|i: int| 0 <= i < s.len() ==> is_digit(#[trigger] s[i])
}

/// The number a digit string denotes.
pub open spec fn digits_val(s: Seq<u8>) -> int
    decreases s.len(),
{
    if s.len() == 0 {
        0
    } else {
        10 * digits_val(s.drop_last()) + (s.last() - 48)
    }
}

pub open spec fn pow10(n: nat) -> int
    decreases n,
{
    if n == 0 {
        1
    } else {
        10 * pow10((n - 1) as nat)
    }
}

/// A digit string of length `n` denotes less than ten to the `n`.
pub proof fn lemma_digits_val_bound(s: Seq<u8>)
    requires
        all_digits(s),
    ensures
        0 <= digits_val(s) < pow10(s.len()),
    decreases s.len(),
{
    if s.len() > 0 {
        assert(all_digits(s.drop_last())) by {
            assert(forall|i: int|
                0 <= i < s.len() - 1 ==> s.drop_last()[i] == #[trigger] s[i]);
        }
        lemma_digits_val_bound(s.drop_last());
    }
}

pub proof fn lemma_pow10_pos(n: nat)
    ensures
        pow10(n) >= 1,
    decreases n,
{
    if n > 0 {
        lemma_pow10_pos((n - 1) as nat);
    }
}

pub proof fn lemma_pow10_mono(a: nat, b: nat)
    requires
        a <= b,
    ensures
        pow10(a) <= pow10(b),
    decreases b,
{
    if a < b {
        lemma_pow10_mono(a, (b - 1) as nat);
        lemma_pow10_pos((b - 1) as nat);
    }
}

/// The factor that scales a fraction of the given number of digits to
/// thousandths.
pub open spec fn frac_scale(n: int) -> int {
    if n == 1 {
        100
    } else if n == 2 {
        10
    } else {
        1
    }
}

/// A sample period in milliseconds — an unsigned decimal numeral of at most
/// 13 integer digits with an optional fraction of at most 3 digits — read as
/// microseconds.
pub open spec fn spec_parse_period_us(v: Seq<u8>) -> Option<u64> {
    let dot = find_byte(v, 46) as int;
    if dot >= v.len() {
        if 1 <= v.len() <= 13 && all_digits(v) {
            Some((digits_val(v) * 1000) as u64)
        } else {
            None
        }
    } else {
        let ints = v.take(dot);
        let frac = v.skip(dot + 1);
        if 1 <= ints.len() <= 13 && all_digits(ints) && 1 <= frac.len() <= 3 && all_digits(frac) {
            Some((digits_val(ints) * 1000 + digits_val(frac) * frac_scale(frac.len() as int)) as u64)
        } else {
            None
        }
    }
}

/// Read a digit string of at most 13 digits.
fn parse_digits(s: &[u8]) -> (r: Option<u64>)
    ensures
        match r {
            Some(v) => 1 <= s@.len() <= 13 && all_digits(s@) && v == digits_val(s@)
                && v < pow10(13),
            None => !(1 <= s@.len() <= 13 && all_digits(s@)),
        },
{
    if s.len() == 0 || s.len() > 13 {
        return None;
    }
    let mut val: u64 = 0;
    let mut i: usize = 0;
    proof {
        assert(s@.take(0) =~= Seq::<u8>::empty());
    }
    while i < s.len()
        invariant
            i <= s@.len() <= 13,
            all_digits(s@.take(i as int)),
            val == digits_val(s@.take(i as int)),
            val < pow10(i as nat),
        decreases s@.len() - i,
    {
        let b = s[i];
        if b < 48 || b > 57 {
            return None;
        }
        proof {
            assert(s@.take(i + 1).drop_last() =~= s@.take(i as int));
            assert(s@.take(i + 1).last() == s@[i as int]);
            assert(forall|t: int| 0 <= t < i + 1 ==> s@.take(i + 1)[t] == #[trigger] s@[t]);
            lemma_pow10_mono(i as nat, 12);
            reveal_with_fuel(pow10, 14);
            assert(pow10(12) == 1000000000000);
        }
        val = 10 * val + ((b - 48) as u64);
        i += 1;
    }
    proof {
        assert(s@.take(s@.len() as int) =~= s@);
        lemma_pow10_mono(s@.len(), 13);
    }
    Some(val)
}

/// Copy a byte vector.
fn copy_bytes(v: &Vec<u8>) -> (r: Vec<u8>)
    ensures
        r@ == v@,
{
    let mut out: Vec<u8> = Vec::new();
    let mut i: usize = 0;
    while i < v.len()
        invariant
            i <= v@.len(),
            out@ == v@.take(i as int),
        decreases v@.len() - i,
    {
        out.push(v[i]);
        proof {
            assert(out@ =~= v@.take(i + 1));
        }
        i += 1;
    }
    proof {
        assert(out@ =~= v@);
    }
    out
}

/// Copy `v` from offset `from` on.
fn copy_tail(v: &Vec<u8>, from: usize) -> (r: Vec<u8>)
    requires
        from <= v@.len(),
    ensures
        r@ == v@.skip(from as int),
{
    let mut out: Vec<u8> = Vec::new();
    let mut i: usize = from;
    while i < v.len()
        invariant
            from <= i <= v@.len(),
            out@ == v@.subrange(from as int, i as int),
        decreases v@.len() - i,
    {
        out.push(v[i]);
        proof {
            assert(out@ =~= v@.subrange(from as int, i + 1));
        }
        i += 1;
    }
    proof {
        assert(out@ =~= v@.skip(from as int));
    }
    out
}

/// Read a sample period in milliseconds as microseconds.
fn parse_period_us(v: &[u8]) -> (r: Option<u64>)
    ensures
        r == spec_parse_period_us(v@),
{
    let mut dot: usize = 0;
    while dot < v.len() && v[dot] != 46
        invariant
            dot <= v@.len(),
            forall|t: int| 0 <= t < dot ==> v@[t] != 46,
        decreases v@.len() - dot,
    {
        dot += 1;
    }
    proof {
        lemma_find_byte(v@, 46, dot as int);
    }
    if dot == v.len() {
        match parse_digits(v) {
            Some(ms) => {
                proof {
                    reveal_with_fuel(pow10, 14);
                }
                Some(ms * 1000)
            },
            None => None,
        }
    } else {
        let ints_vec: Vec<u8> = {
            let mut out: Vec<u8> = Vec::new();
            let mut i: usize = 0;
            while i < dot
                invariant
                    i <= dot <= v@.len(),
                    out@ == v@.subrange(0, i as int),
                decreases dot - i,
            {
                out.push(v[i]);
                proof {
                    assert(out@ =~= v@.subrange(0, i + 1));
                }
                i += 1;
            }
            out
        };
        proof {
            assert(ints_vec@ =~= v@.take(dot as int));
        }
        let frac_vec: Vec<u8> = {
            let mut out: Vec<u8> = Vec::new();
            let mut i: usize = dot + 1;
            while i < v.len()
                invariant
                    dot + 1 <= i <= v@.len(),
                    out@ == v@.subrange(dot + 1, i as int),
                decreases v@.len() - i,
            {
                out.push(v[i]);
                proof {
                    assert(out@ =~= v@.subrange(dot + 1, i + 1));
                }
                i += 1;
            }
            out
        };
        proof {
            assert(frac_vec@ =~= v@.skip(dot + 1));
        }
        let ints = match parse_digits(ints_vec.as_slice()) {
            Some(x) => x,
            None => {
                return None;
            },
        };
        if frac_vec.len() == 0 || frac_vec.len() > 3 {
            return None;
        }
        let frac = match parse_digits(frac_vec.as_slice()) {
            Some(x) => x,
            None => {
                return None;
            },
        };
        let scale: u64 = if frac_vec.len() == 1 {
            100
        } else if frac_vec.len() == 2 {
            10
        } else {
            1
        };
        proof {
            reveal_with_fuel(pow10, 14);
            lemma_digits_val_bound(frac_vec@);
            lemma_pow10_mono(frac_vec@.len(), 3);
        }
        Some(ints * 1000 + frac * scale)
    }
}

/// What one export file failed to provide.
#[derive(Debug, PartialEq, Eq, Structural)]
pub enum ExportError {
    /// No `[DATA]` marker separates the header block from the table.
    MissingDataMarker,
    /// No header line names the sample period.
    MissingSamplePeriod,
    /// The sample period is not a positive decimal numeral of milliseconds.
    BadSamplePeriod,
    /// Nothing follows the `[DATA]` marker.
    MissingHeaderRow,
    /// The table's header row misses one of the three channel names.
    MissingChannel,
    /// A data row is too short to carry every channel's column.
    RaggedRow,
}

/// The mathematical content of a parsed export.
pub struct RawExportView {
    pub sample_period_us: u64,
    pub probe: Seq<Seq<u8>>,
    pub current: Seq<Seq<u8>>,
    pub voltage: Seq<Seq<u8>>,
}

impl RawExportView {
    pub open spec fn wf(self) -> bool {
        &&& self.probe.len() == self.current.len()
        &&& self.probe.len() == self.voltage.len()
        &&& self.sample_period_us > 0
    }
}

/// One export file reduced to its table: the sample period and, per channel,
/// the column of still-textual sample values in acquisition order.
#[derive(Debug)]
pub struct RawExport {
    pub sample_period_us: u64,
    pub probe: Vec<Vec<u8>>,
    pub current: Vec<Vec<u8>>,
    pub voltage: Vec<Vec<u8>>,
}

impl View for RawExport {
    type V = RawExportView;

    open spec fn view(&self) -> RawExportView {
        RawExportView {
            sample_period_us: self.sample_period_us,
            probe: views_of(self.probe@),
            current: views_of(self.current@),
            voltage: views_of(self.voltage@),
        }
    }
}

/// The three channel columns of the rows, in order: per non-empty row, the
/// cell of each channel's column; `None` when a non-empty row is too short.
pub open spec fn collect_rows(rows: Seq<Seq<u8>>, pi: int, ci: int, vi: int) -> Option<
    (Seq<Seq<u8>>, Seq<Seq<u8>>, Seq<Seq<u8>>),
>
    decreases rows.len(),
{
    if rows.len() == 0 {
        Some((Seq::<Seq<u8>>::empty(), Seq::<Seq<u8>>::empty(), Seq::<Seq<u8>>::empty()))
    } else {
        match collect_rows(rows.drop_last(), pi, ci, vi) {
            None => None,
            Some(acc) => {
                let row = rows.last();
                if row.len() == 0 {
                    Some(acc)
                } else {
                    let cells = spec_split(row, 9);
                    if pi < cells.len() && ci < cells.len() && vi < cells.len() {
                        Some((acc.0.push(cells[pi]), acc.1.push(cells[ci]), acc.2.push(cells[vi])))
                    } else {
                        None
                    }
                }
            },
        }
    }
}

/// Once a prefix of the rows fails to collect, the whole table fails.
pub proof fn lemma_collect_none(rows: Seq<Seq<u8>>, pi: int, ci: int, vi: int, j: int)
    requires
        0 <= j <= rows.len(),
        collect_rows(rows.take(j), pi, ci, vi) is None,
    ensures
        collect_rows(rows, pi, ci, vi) is None,
    decreases rows.len() - j,
{
    if j == rows.len() {
        assert(rows.take(j) =~= rows);
    } else {
        assert(rows.take(j + 1).drop_last() =~= rows.take(j));
        lemma_collect_none(rows, pi, ci, vi, j + 1);
    }
}

/// The whole export grammar: a header block holding a sample-period line,
/// a `[DATA]` marker, a tab-separated header row naming the channels, then
/// one tab-separated row per sample.
pub open spec fn spec_parse_export(s: Seq<u8>) -> Result<RawExportView, ExportError> {
    let ls = spec_lines(s);
    let d = find_prefixed_line(ls, "[DATA]".spec_bytes()) as int;
    if d == ls.len() {
        Err(ExportError::MissingDataMarker)
    } else {
        let spi = rfind_prefixed_line(ls, "Sample Period (ms)".spec_bytes(), d);
        if spi < 0 {
            Err(ExportError::MissingSamplePeriod)
        } else {
            let period = spec_parse_period_us(
                spec_trimmed(ls[spi].skip("Sample Period (ms)".spec_bytes().len() as int)),
            );
            if period is None || period == Some(0u64) {
                Err(ExportError::BadSamplePeriod)
            } else if d + 1 >= ls.len() {
                Err(ExportError::MissingHeaderRow)
            } else {
                let hdr = spec_split(ls[d + 1], 9);
                let pi = find_cell(hdr, "Capacitive Probe (m)".spec_bytes()) as int;
                let ci = find_cell(hdr, "Current (A)".spec_bytes()) as int;
                let vi = find_cell(hdr, "Voltage Monitor (V)".spec_bytes()) as int;
                if pi == hdr.len() || ci == hdr.len() || vi == hdr.len() {
                    Err(ExportError::MissingChannel)
                } else {
                    match collect_rows(ls.skip(d + 2), pi, ci, vi) {
                        None => Err(ExportError::RaggedRow),
                        Some(cols) => Ok(
                            RawExportView {
                                sample_period_us: period->Some_0,
                                probe: cols.0,
                                current: cols.1,
                                voltage: cols.2,
                            },
                        ),
                    }
                }
            }
        }
    }
}

/// The index of the first line beginning with `p`, or the line count.
fn find_prefixed(lines: &Vec<Vec<u8>>, p: &[u8]) -> (r: usize)
    ensures
        r == find_prefixed_line(views_of(lines@), p@),
        r <= lines@.len(),
{
    let mut d: usize = 0;
    while d < lines.len()
        invariant
            d <= lines@.len(),
            forall|t: int| 0 <= t < d ==> !starts_with(#[trigger] views_of(lines@)[t], p@),
        decreases lines@.len() - d,
    {
        let line: &Vec<u8> = &lines[d];
        let hit = match_at(line.as_slice(), 0, p);
        proof {
            assert(views_of(lines@)[d as int] == line@);
        }
        if hit {
            proof {
                lemma_find_prefixed_line(views_of(lines@), p@, d as int);
            }
            return d;
        }
        d += 1;
    }
    proof {
        lemma_find_prefixed_line(views_of(lines@), p@, lines@.len() as int);
    }
    d
}

/// The index of the last line before `d` beginning with `p`.
fn rfind_prefixed(lines: &Vec<Vec<u8>>, p: &[u8], d: usize) -> (r: Option<usize>)
    requires
        d <= lines@.len(),
    ensures
        match r {
            Some(k) => rfind_prefixed_line(views_of(lines@), p@, d as int) == k && k < d
                && starts_with(views_of(lines@)[k as int], p@),
            None => rfind_prefixed_line(views_of(lines@), p@, d as int) == -1,
        },
{
    let mut j: usize = d;
    while j > 0
        invariant
            j <= d <= lines@.len(),
            rfind_prefixed_line(views_of(lines@), p@, d as int) == rfind_prefixed_line(
                views_of(lines@),
                p@,
                j as int,
            ),
        decreases j,
    {
        let line: &Vec<u8> = &lines[j - 1];
        let hit = match_at(line.as_slice(), 0, p);
        proof {
            assert(views_of(lines@)[j - 1] == line@);
        }
        if hit {
            return Some(j - 1);
        }
        j -= 1;
    }
    None
}

/// The index of the first cell equal to `name`, or the cell count.
fn find_cell_exec(cells: &Vec<Vec<u8>>, name: &[u8]) -> (r: usize)
    ensures
        r == find_cell(views_of(cells@), name@),
        r <= cells@.len(),
{
    let mut d: usize = 0;
    while d < cells.len()
        invariant
            d <= cells@.len(),
            forall|t: int| 0 <= t < d ==> #[trigger] views_of(cells@)[t] != name@,
        decreases cells@.len() - d,
    {
        let cell: &Vec<u8> = &cells[d];
        let hit = cell.len() == name.len() && match_at(cell.as_slice(), 0, name);
        proof {
            assert(views_of(cells@)[d as int] == cell@);
            assert(cell@.subrange(0, cell@.len() as int) =~= cell@);
        }
        if hit {
            proof {
                lemma_find_cell(views_of(cells@), name@, d as int);
            }
            return d;
        }
        d += 1;
    }
    proof {
        lemma_find_cell(views_of(cells@), name@, cells@.len() as int);
    }
    d
}

/// Parse one export file: the sample period from the header block, the
/// channel columns from the tab-separated table after the `[DATA]` marker.
/// Fails, naming what is missing or malformed, rather than returning a
/// partial table; a success always carries equally long channel columns and
/// a positive sample period.
#[verifier::loop_isolation(false)]
pub fn parse_export(data: &[u8]) -> (r: Result<RawExport, ExportError>)
    ensures
        r matches Ok(e) ==> spec_parse_export(data@) == Ok::<RawExportView, ExportError>(e@)
            && e@.wf(),
        r matches Err(err) ==> spec_parse_export(data@) == Err::<RawExportView, ExportError>(err),
{
    let lines = split_lines(data);
    let d = find_prefixed(&lines, "[DATA]".as_bytes());
    if d == lines.len() {
        return Err(ExportError::MissingDataMarker);
    }
    let sp_pat: &[u8] = "Sample Period (ms)".as_bytes();
    let spi = match rfind_prefixed(&lines, sp_pat, d) {
        Some(k) => k,
        None => {
            return Err(ExportError::MissingSamplePeriod);
        },
    };
    let sp_line: &Vec<u8> = &lines[spi];
    proof {
        assert(views_of(lines@)[spi as int] == sp_line@);
    }
    let rest = copy_tail(sp_line, sp_pat.len());
    let value = trimmed(rest.as_slice());
    let period = match parse_period_us(value.as_slice()) {
        Some(us) => {
            if us == 0 {
                return Err(ExportError::BadSamplePeriod);
            }
            us
        },
        None => {
            return Err(ExportError::BadSamplePeriod);
        },
    };
    if d + 1 >= lines.len() {
        return Err(ExportError::MissingHeaderRow);
    }
    let header_line: &Vec<u8> = &lines[d + 1];
    proof {
        assert(views_of(lines@)[d + 1] == header_line@);
    }
    let hdr = split_cells(header_line.as_slice(), 9);
    let pi = find_cell_exec(&hdr, "Capacitive Probe (m)".as_bytes());
    let ci = find_cell_exec(&hdr, "Current (A)".as_bytes());
    let vi = find_cell_exec(&hdr, "Voltage Monitor (V)".as_bytes());
    if pi == hdr.len() || ci == hdr.len() || vi == hdr.len() {
        return Err(ExportError::MissingChannel);
    }
    let ghost rows = views_of(lines@).skip(d + 2);
    let mut probe: Vec<Vec<u8>> = Vec::new();
    let mut current: Vec<Vec<u8>> = Vec::new();
    let mut voltage: Vec<Vec<u8>> = Vec::new();
    let mut j: usize = d + 2;
    proof {
        assert(rows.take(0) =~= Seq::<Seq<u8>>::empty());
    }
    while j < lines.len()
        invariant
            d + 2 <= j <= lines@.len(),
            rows == views_of(lines@).skip(d + 2),
            collect_rows(rows.take(j - (d + 2)), pi as int, ci as int, vi as int) == Some(
                (views_of(probe@), views_of(current@), views_of(voltage@)),
            ),
            views_of(probe@).len() == views_of(current@).len(),
            views_of(probe@).len() == views_of(voltage@).len(),
        decreases lines@.len() - j,
    {
        let ghost k = j - (d + 2);
        proof {
            assert(rows.take(k + 1).drop_last() =~= rows.take(k));
            assert(rows.take(k + 1).last() == rows[k]);
            assert(rows[k] == views_of(lines@)[j as int]);
        }
        let line: &Vec<u8> = &lines[j];
        proof {
            assert(views_of(lines@)[j as int] == line@);
        }
        if line.len() > 0 {
            let cells = split_cells(line.as_slice(), 9);
            if pi < cells.len() && ci < cells.len() && vi < cells.len() {
                let pc = copy_bytes(&cells[pi]);
                let cc = copy_bytes(&cells[ci]);
                let vc = copy_bytes(&cells[vi]);
                proof {
                    assert(views_of(cells@)[pi as int] == cells@[pi as int]@);
                    assert(views_of(cells@)[ci as int] == cells@[ci as int]@);
                    assert(views_of(cells@)[vi as int] == cells@[vi as int]@);
                }
                probe.push(pc);
                current.push(cc);
                voltage.push(vc);
                proof {
                    assert(views_of(probe@) =~= views_of(probe@.drop_last()).push(
                        probe@.last()@,
                    ));
                    assert(views_of(current@) =~= views_of(current@.drop_last()).push(
                        current@.last()@,
                    ));
                    assert(views_of(voltage@) =~= views_of(voltage@.drop_last()).push(
                        voltage@.last()@,
                    ));
                }
            } else {
                proof {
                    assert(collect_rows(rows.take(k + 1), pi as int, ci as int, vi as int)
                        is None);
                    lemma_collect_none(rows, pi as int, ci as int, vi as int, k + 1);
                }
                return Err(ExportError::RaggedRow);
            }
        }
        j += 1;
    }
    proof {
        assert(rows.take(lines@.len() - (d + 2)) =~= rows);
    }
    Ok(RawExport { sample_period_us: period, probe, current, voltage })
}

/// A sample period in microseconds rendered as decimal milliseconds, exact:
/// whole milliseconds bare, a sub-millisecond remainder as a fraction of up
/// to three digits without trailing zeros.
pub open spec fn spec_ms_decimal(us: u64) -> Seq<u8> {
    let ms = (us / 1000) as nat;
    let frac = us % 1000;
    if frac == 0 {
        dec_digits(ms)
    } else if frac % 100 == 0 {
        dec_digits(ms) + ".".spec_bytes() + dec_digits((frac / 100) as nat)
    } else if frac % 10 == 0 {
        dec_digits(ms) + ".".spec_bytes() + (if frac / 10 < 10 {
            seq![48u8]
        } else {
            Seq::<u8>::empty()
        }) + dec_digits((frac / 10) as nat)
    } else {
        dec_digits(ms) + ".".spec_bytes() + (if frac < 10 {
            seq![48u8, 48u8]
        } else if frac < 100 {
            seq![48u8]
        } else {
            Seq::<u8>::empty()
        }) + dec_digits(frac as nat)
    }
}

/// Append a sample period in microseconds as decimal milliseconds.
fn push_ms_decimal(out: &mut Vec<u8>, us: u64)
    ensures
        final(out)@ == old(out)@ + spec_ms_decimal(us),
{
    let ghost start = out@;
    let ms: u64 = us / 1000;
    let frac: u64 = us % 1000;
    push_u64_dec(out, ms);
    if frac == 0 {
    } else if frac % 100 == 0 {
        push_text(out, ".");
        push_u64_dec(out, frac / 100);
    } else if frac % 10 == 0 {
        push_text(out, ".");
        if frac / 10 < 10 {
            out.push(48);
            proof {
                assert(out@ =~= start + dec_digits((us / 1000) as nat) + ".".spec_bytes() + seq![
                    48u8,
                ]);
            }
        }
        push_u64_dec(out, frac / 10);
    } else {
        push_text(out, ".");
        if frac < 10 {
            out.push(48);
            out.push(48);
            proof {
                assert(out@ =~= start + dec_digits((us / 1000) as nat) + ".".spec_bytes() + seq![
                    48u8,
                    48u8,
                ]);
            }
        } else if frac < 100 {
            out.push(48);
            proof {
                assert(out@ =~= start + dec_digits((us / 1000) as nat) + ".".spec_bytes() + seq![
                    48u8,
                ]);
            }
        }
        push_u64_dec(out, frac);
    }
    proof {
        assert(out@ =~= start + spec_ms_decimal(us));
    }
}

/// The tab-separated sample rows, one line per sample across the three
/// columns.
pub open spec fn spec_rows(p: Seq<Seq<u8>>, c: Seq<Seq<u8>>, v: Seq<Seq<u8>>) -> Seq<u8>
    recommends
        p.len() == c.len() && p.len() == v.len(),
    decreases p.len(),
{
    if p.len() == 0 {
        Seq::<u8>::empty()
    } else {
        spec_rows(p.drop_last(), c.drop_last(), v.drop_last()) + p.last() + "\t".spec_bytes()
            + c.last() + "\t".spec_bytes() + v.last() + "\n".spec_bytes()
    }
}

/// The whole export file a stitched series is written back as: a header
/// block carrying the date, the exact sample period in milliseconds and the
/// applied generator settings (millivolts, milliseconds, hundredths of a
/// percent), then the `[DATA]` marker, the channel-name row, and one row per
/// sample.
pub open spec fn spec_rendered_export(
    date: Seq<u8>,
    sample_period_us: u64,
    s: crate::settings::WavegenSettings,
    p: Seq<Seq<u8>>,
    c: Seq<Seq<u8>>,
    v: Seq<Seq<u8>>,
) -> Seq<u8> {
    "Experiment\tHistory Data\t\nDate\t".spec_bytes() + date + "\t\nSample Period (ms)\t".spec_bytes()
        + spec_ms_decimal(sample_period_us) + "\t\npkpk_mv\t".spec_bytes() + dec_digits(
        s.pkpk_mv as nat,
    ) + "\t\noffset_mv\t".spec_bytes() + dec_digits_signed(s.offset_mv as int)
        + "\t\nsymmetry_cpct\t".spec_bytes() + dec_digits(s.symmetry_cpct as nat)
        + "\t\nperiod_ms\t".spec_bytes() + dec_digits(s.period_ms as nat) + "\t\n\n[DATA]\n".spec_bytes()
        + "Capacitive Probe (m)\tCurrent (A)\tVoltage Monitor (V)\n".spec_bytes() + spec_rows(
        p,
        c,
        v,
    )
}

/// Render a stitched series back to the export file format, the sample
/// values already in their textual form.
pub fn render_export(
    date: &Vec<u8>,
    sample_period_us: u64,
    s: &crate::settings::WavegenSettings,
    probe: &Vec<Vec<u8>>,
    current: &Vec<Vec<u8>>,
    voltage: &Vec<Vec<u8>>,
) -> (r: Vec<u8>)
    requires
        s.offset_mv > i64::MIN,
        probe@.len() == current@.len(),
        probe@.len() == voltage@.len(),
    ensures
        r@ == spec_rendered_export(
            date@,
            sample_period_us,
            *s,
            views_of(probe@),
            views_of(current@),
            views_of(voltage@),
        ),
{
    let mut out: Vec<u8> = Vec::new();
    push_text(&mut out, "Experiment\tHistory Data\t\nDate\t");
    push_bytes(&mut out, date.as_slice());
    push_text(&mut out, "\t\nSample Period (ms)\t");
    push_ms_decimal(&mut out, sample_period_us);
    push_text(&mut out, "\t\npkpk_mv\t");
    push_u64_dec(&mut out, s.pkpk_mv);
    push_text(&mut out, "\t\noffset_mv\t");
    push_i64_dec(&mut out, s.offset_mv);
    push_text(&mut out, "\t\nsymmetry_cpct\t");
    push_u64_dec(&mut out, s.symmetry_cpct);
    push_text(&mut out, "\t\nperiod_ms\t");
    push_u64_dec(&mut out, s.period_ms);
    push_text(&mut out, "\t\n\n[DATA]\n");
    push_text(&mut out, "Capacitive Probe (m)\tCurrent (A)\tVoltage Monitor (V)\n");
    let ghost head = out@;
    let mut j: usize = 0;
    proof {
        assert(views_of(probe@).take(0) =~= Seq::<Seq<u8>>::empty());
        assert(views_of(current@).take(0) =~= Seq::<Seq<u8>>::empty());
        assert(views_of(voltage@).take(0) =~= Seq::<Seq<u8>>::empty());
        assert(out@ =~= head + spec_rows(
            views_of(probe@).take(0),
            views_of(current@).take(0),
            views_of(voltage@).take(0),
        ));
    }
    while j < probe.len()
        invariant
            j <= probe@.len(),
            probe@.len() == current@.len(),
            probe@.len() == voltage@.len(),
            out@ == head + spec_rows(
                views_of(probe@).take(j as int),
                views_of(current@).take(j as int),
                views_of(voltage@).take(j as int),
            ),
        decreases probe@.len() - j,
    {
        let pr: &Vec<u8> = &probe[j];
        let cr: &Vec<u8> = &current[j];
        let vr: &Vec<u8> = &voltage[j];
        proof {
            assert(views_of(probe@)[j as int] == pr@);
            assert(views_of(current@)[j as int] == cr@);
            assert(views_of(voltage@)[j as int] == vr@);
            assert(views_of(probe@).take(j + 1).drop_last() =~= views_of(probe@).take(j as int));
            assert(views_of(current@).take(j + 1).drop_last() =~= views_of(current@).take(
                j as int,
            ));
            assert(views_of(voltage@).take(j + 1).drop_last() =~= views_of(voltage@).take(
                j as int,
            ));
        }
        push_bytes(&mut out, pr.as_slice());
        push_text(&mut out, "\t");
        push_bytes(&mut out, cr.as_slice());
        push_text(&mut out, "\t");
        push_bytes(&mut out, vr.as_slice());
        push_text(&mut out, "\n");
        proof {
            assert(out@ =~= head + spec_rows(
                views_of(probe@).take(j + 1),
                views_of(current@).take(j + 1),
                views_of(voltage@).take(j + 1),
            ));
        }
        j += 1;
    }
    proof {
        assert(views_of(probe@).take(probe@.len() as int) =~= views_of(probe@));
        assert(views_of(current@).take(current@.len() as int) =~= views_of(current@));
        assert(views_of(voltage@).take(voltage@.len() as int) =~= views_of(voltage@));
        assert(out@ =~= spec_rendered_export(
            date@,
            sample_period_us,
            *s,
            views_of(probe@),
            views_of(current@),
            views_of(voltage@),
        ));
    }
    out
}

} // verus!


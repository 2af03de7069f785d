//! Interchange formats: delimited text (CSV and friends) and the structure of the
//! complex and real-kernel JSON model files.

use vstd::prelude::*;

use crate::error::{error_from, fails_with, ErrorKind, VecfitError};
use crate::shape::{channel_count, shape_positive_msg, Shape};
use crate::text::{chars_of, debug_list, decimal, lower, push_debug_list, push_decimal, trim, trim_bounds, trimmed};

verus! {

/// Column format of delimited sample data.
#[derive(Debug, Clone, Copy, PartialEq, Eq, Structural)]
pub enum CsvFormat {
    /// Magnitude/phase pairs: `|Y1|, ang_Y1, |Y2|, ang_Y2, ...` (angle in degrees)
    MagnitudePhase,
    /// Real/imaginary pairs: `re_Y1, im_Y1, re_Y2, im_Y2, ...`
    RealImag,
}

/// A delimited table as the `csv` crate reads it: the header fields (or the
/// message of the error met reading them), the records read before the first
/// error, and that error's message.
#[derive(Debug)]
pub struct CsvTable {
    pub headers: Result<Vec<String>, String>,
    pub records: Vec<Vec<String>>,
    pub error: Option<String>,
}

pub open spec fn fields_view(v: Vec<String>) -> Seq<Seq<char>> {
    v@.map_values(|f: String| f@)
}

impl CsvTable {
    pub open spec fn view(&self) -> (Result<Seq<Seq<char>>, Seq<char>>, Seq<Seq<Seq<char>>>, Option<Seq<char>>) {
        (
            match self.headers {
                Ok(h) => Ok(fields_view(h)),
                Err(e) => Err(e@),
            },
            self.records@.map_values(|r: Vec<String>| fields_view(r)),
            match self.error {
                Some(e) => Some(e@),
                None => None,
            },
        )
    }
}

/// What the `csv` crate reads from `input` with the given field delimiter, a
/// header row, and records of equal length: header fields or an error message,
/// the records up to the first error, and that error's message.
pub uninterp spec fn csv_table(input: Seq<u8>, delimiter: u8) -> (
    Result<Seq<Seq<char>>, Seq<char>>,
    Seq<Seq<Seq<char>>>,
    Option<Seq<char>>,
);

/// Reads `input` with `csv::ReaderBuilder` (headers on, the given delimiter): the
/// header fields, then the records in order up to the first error. Errors are
/// kept as their `Display` text.
#[verifier::external_body]
fn read_csv_table(input: &[u8], delimiter: u8) -> (t: CsvTable)
    ensures
        t.view() == csv_table(input@, delimiter),
{
    let mut reader = csv::ReaderBuilder::new().has_headers(true).delimiter(delimiter).from_reader(input);
    let headers = reader.headers().map(|h| h.iter().map(String::from).collect()).map_err(|e| e.to_string());
    let mut records = Vec::new();
    let mut error = None;
    for record in reader.records() {
        match record {
            Ok(r) => records.push(r.iter().map(String::from).collect()),
            Err(e) => {
                error = Some(e.to_string());
                break;
            },
        }
    }
    CsvTable { headers, records, error }
}

/// A header names real/imaginary pairs when, trimmed and in lower case, it starts
/// with `re`. (Only `R`/`r` and `E`/`e` have lower-case forms starting with `r`
/// and `e`, so ASCII case folding of the first two characters decides it.)
pub open spec fn names_real_part(header: Seq<char>) -> bool {
    let t = trim(header);
    t.len() >= 2 && lower(t[0]) == 'r' && lower(t[1]) == 'e'
}

/// The column format and channel count that the headers describe.
pub open spec fn csv_format_of(headers: Seq<Seq<char>>) -> Result<(CsvFormat, nat), Seq<char>> {
    if headers.len() < 3 {
        Err("expected at least a frequency column and one column pair"@)
    } else if (headers.len() - 1) % 2 != 0 {
        Err("data columns must appear in complete pairs"@)
    } else {
        Ok(
            (
                if names_real_part(headers[1]) {
                    CsvFormat::RealImag
                } else {
                    CsvFormat::MagnitudePhase
                },
                ((headers.len() - 1) / 2) as nat,
            ),
        )
    }
}

/// Detects the column format from the headers: a frequency column, then one pair of
/// columns per channel; the first data header decides the format.
pub fn detect_csv_format(headers: &Vec<String>) -> (r: Result<(CsvFormat, usize), VecfitError>)
    ensures
        csv_format_of(fields_view(*headers)) matches Ok((f, n)) ==> r == Ok::<
            (CsvFormat, usize),
            VecfitError,
        >((f, n as usize)),
        csv_format_of(fields_view(*headers)) matches Err(m) ==> fails_with(r, ErrorKind::Csv, m),
{
    let ghost hv = fields_view(*headers);
    if headers.len() < 3 {
        return Err(
            error_from(ErrorKind::Csv, "expected at least a frequency column and one column pair"),
        );
    }
    if (headers.len() - 1) % 2 != 0 {
        return Err(error_from(ErrorKind::Csv, "data columns must appear in complete pairs"));
    }
    let channels = (headers.len() - 1) / 2;
    assert(hv[1] == headers@[1]@);
    let cs = chars_of(headers[1].as_str());
    let (p, q) = trim_bounds(&cs, 0, cs.len());
    assert(cs@.subrange(0, cs@.len() as int) == cs@);
    let is_re = q >= 2 && p <= q - 2 && crate::text::lower_char(cs[p]) == 'r'
        && crate::text::lower_char(cs[p + 1]) == 'e';
    proof {
        let t = cs@.subrange(p as int, q as int);
        if q - p >= 2 {
            assert(t[0] == cs@[p as int]);
            assert(t[1] == cs@[p + 1]);
        }
    }
    let format = if is_re {
        CsvFormat::RealImag
    } else {
        CsvFormat::MagnitudePhase
    };
    Ok((format, channels))
}

/// The delimited columns needed for one sample, in the order they are read: the
/// frequency field, then each channel's two fields, each trimmed, or the error for a
/// missing column. The list ends at the first missing column.
pub open spec fn record_fields(record: Seq<Seq<char>>, format: CsvFormat, channels: nat) -> Seq<
    Result<Seq<char>, Seq<char>>,
> {
    fields_from(record, format, 0, 1 + 2 * channels)
}

/// The message for a missing column at position `k` of a record.
pub open spec fn missing_column_msg(format: CsvFormat, k: nat) -> Seq<char> {
    if k == 0 {
        "missing frequency column"@
    } else if k % 2 == 1 {
        match format {
            CsvFormat::MagnitudePhase => "missing magnitude column"@,
            CsvFormat::RealImag => "missing real column"@,
        }
    } else {
        match format {
            CsvFormat::MagnitudePhase => "missing phase column"@,
            CsvFormat::RealImag => "missing imaginary column"@,
        }
    }
}

/// Fields `k` to `total - 1` of a record, stopping after the first missing one.
pub open spec fn fields_from(record: Seq<Seq<char>>, format: CsvFormat, k: nat, total: nat) -> Seq<
    Result<Seq<char>, Seq<char>>,
>
    decreases total - k,
{
    if k >= total {
        seq![]
    } else if k < record.len() {
        seq![Ok(trim(record[k as int]))] + fields_from(record, format, k + 1, total)
    } else {
        seq![Err(missing_column_msg(format, k))]
    }
}

fn missing_column(format: CsvFormat, k: usize) -> (e: VecfitError)
    ensures
        e.kind() == ErrorKind::Csv,
        e.message() == missing_column_msg(format, k as nat),
{
    if k == 0 {
        error_from(ErrorKind::Csv, "missing frequency column")
    } else if k % 2 == 1 {
        match format {
            CsvFormat::MagnitudePhase => error_from(ErrorKind::Csv, "missing magnitude column"),
            CsvFormat::RealImag => error_from(ErrorKind::Csv, "missing real column"),
        }
    } else {
        match format {
            CsvFormat::MagnitudePhase => error_from(ErrorKind::Csv, "missing phase column"),
            CsvFormat::RealImag => error_from(ErrorKind::Csv, "missing imaginary column"),
        }
    }
}

pub open spec fn field_view(f: Result<String, VecfitError>) -> Result<Seq<char>, Seq<char>> {
    match f {
        Ok(s) => Ok(s@),
        Err(e) => Err(e.message()),
    }
}

pub open spec fn row_view(row: Vec<Result<String, VecfitError>>) -> Seq<Result<Seq<char>, Seq<char>>> {
    row@.map_values(|f: Result<String, VecfitError>| field_view(f))
}

/// The fields of one record that sample parsing reads.
fn select_fields(record: &Vec<String>, format: CsvFormat, channels: usize) -> (r: Vec<
    Result<String, VecfitError>,
>)
    requires
        1 + 2 * channels <= usize::MAX,
    ensures
        row_view(r) == record_fields(fields_view(*record), format, channels as nat),
        forall|k: int| 0 <= k < r.len() ==> (#[trigger] r@[k] matches Err(e) ==> e.kind() == ErrorKind::Csv),
{
    let total = 1 + 2 * channels;
    let ghost rv = fields_view(*record);
    let mut out: Vec<Result<String, VecfitError>> = Vec::new();
    let mut k: usize = 0;
    assert(row_view(out) =~= Seq::<Result<Seq<char>, Seq<char>>>::empty());
    while k < total
        invariant
            k <= total,
            total == 1 + 2 * channels,
            rv == fields_view(*record),
            record_fields(rv, format, channels as nat) == row_view(out) + fields_from(
                rv,
                format,
                k as nat,
                total as nat,
            ),
            forall|j: int| 0 <= j < out.len() ==> (#[trigger] out@[j] matches Err(e) ==> e.kind() == ErrorKind::Csv),
        decreases total - k,
    {
        let ghost before = row_view(out);
        let ghost old_out = out@;
        if k < record.len() {
            let f = trimmed(record[k].as_str());
            assert(rv[k as int] == record@[k as int]@);
            out.push(Ok(f));
            assert(row_view(out) == before.push(Ok(trim(rv[k as int]))));
            assert(before.push(Ok(trim(rv[k as int]))) + fields_from(rv, format, (k + 1) as nat, total as nat)
                == before + (seq![Ok(trim(rv[k as int]))] + fields_from(rv, format, (k + 1) as nat, total as nat)));
            assert forall|j: int| 0 <= j < out.len() implies (#[trigger] out@[j] matches Err(e) ==> e.kind() == ErrorKind::Csv) by {
                if j < old_out.len() {
                    assert(out@[j] == old_out[j]);
                }
            }
            k = k + 1;
        } else {
            out.push(Err(missing_column(format, k)));
            assert(row_view(out) == before.push(Err(missing_column_msg(format, k as nat))));
            assert(before + seq![Err(missing_column_msg(format, k as nat))] == before.push(Err(missing_column_msg(format, k as nat))));
            assert forall|j: int| 0 <= j < out.len() implies (#[trigger] out@[j] matches Err(e) ==> e.kind() == ErrorKind::Csv) by {
                if j < old_out.len() {
                    assert(out@[j] == old_out[j]);
                }
            }
            return out;
        }
    }
    assert(row_view(out) + Seq::<Result<Seq<char>, Seq<char>>>::empty() == row_view(out));
    out
}

/// Delimited sample data, column by column: the format and channel count from the
/// headers, the fields each sample row needs (as text, in reading order), and the
/// error that ended reading, if any, to be reported after the rows before it.
#[derive(Debug)]
pub struct CsvColumns {
    pub format: CsvFormat,
    pub channels: usize,
    pub rows: Vec<Vec<Result<String, VecfitError>>>,
    pub error: Option<VecfitError>,
}

/// The columns of a delimited table: the header format, then each record's fields.
pub open spec fn columns_of(
    table: (Result<Seq<Seq<char>>, Seq<char>>, Seq<Seq<Seq<char>>>, Option<Seq<char>>),
) -> Result<(CsvFormat, nat, Seq<Seq<Result<Seq<char>, Seq<char>>>>, Option<Seq<char>>), Seq<char>> {
    match table.0 {
        Err(m) => Err(m),
        Ok(h) => match csv_format_of(h) {
            Err(m) => Err(m),
            Ok((f, n)) => Ok(
                (f, n, table.1.map_values(|rec: Seq<Seq<char>>| record_fields(rec, f, n)), table.2),
            ),
        },
    }
}

/// Every error among a row's fields is a CSV error.
pub open spec fn row_errors_are_csv(row: Vec<Result<String, VecfitError>>) -> bool {
    forall|k: int| 0 <= k < row.len() ==> (#[trigger] row@[k] matches Err(e) ==> e.kind() == ErrorKind::Csv)
}

impl CsvColumns {
    /// Every error the columns carry, in a field or as the error that ended
    /// reading, is a CSV error.
    pub open spec fn errors_are_csv(&self) -> bool {
        &&& forall|i: int| 0 <= i < self.rows.len() ==> row_errors_are_csv(#[trigger] self.rows@[i])
        &&& self.error matches Some(e) ==> e.kind() == ErrorKind::Csv
    }

    pub open spec fn view(&self) -> (CsvFormat, nat, Seq<Seq<Result<Seq<char>, Seq<char>>>>, Option<Seq<char>>) {
        (
            self.format,
            self.channels as nat,
            self.rows@.map_values(|r: Vec<Result<String, VecfitError>>| row_view(r)),
            match self.error {
                Some(e) => Some(e.message()),
                None => None,
            },
        )
    }
}

/// Splits a delimited table into the columns sample parsing reads. Every error is
/// a CSV error.
pub fn columns_from_table(table: CsvTable) -> (r: Result<CsvColumns, VecfitError>)
    ensures
        columns_of(table.view()) matches Ok(v) ==> r is Ok && r->Ok_0.view() == v,
        columns_of(table.view()) matches Err(m) ==> fails_with(r, ErrorKind::Csv, m),
        r matches Ok(c) ==> c.errors_are_csv(),
{
    let ghost tv = table.view();
    let CsvTable { headers, records, error } = table;
    let headers = match headers {
        Ok(h) => h,
        Err(m) => {
            return Err(VecfitError::Csv(m));
        },
    };
    let (format, channels) = match detect_csv_format(&headers) {
        Ok(d) => d,
        Err(e) => return Err(e),
    };
    assert(1 + 2 * channels <= headers.len());
    let mut rows: Vec<Vec<Result<String, VecfitError>>> = Vec::new();
    let mut i: usize = 0;
    let ghost want = tv.1.map_values(|rec: Seq<Seq<char>>| record_fields(rec, format, channels as nat));
    assert(rows@.map_values(|r: Vec<Result<String, VecfitError>>| row_view(r)) =~= want.take(0));
    while i < records.len()
        invariant
            i <= records.len(),
            1 + 2 * channels <= headers.len(),
            tv.1 == records@.map_values(|r: Vec<String>| fields_view(r)),
            want == tv.1.map_values(|rec: Seq<Seq<char>>| record_fields(rec, format, channels as nat)),
            rows@.map_values(|r: Vec<Result<String, VecfitError>>| row_view(r)) == want.take(i as int),
            forall|j: int| 0 <= j < rows.len() ==> row_errors_are_csv(#[trigger] rows@[j]),
        decreases records.len() - i,
    {
        let row = select_fields(&records[i], format, channels);
        let ghost before = rows@.map_values(|r: Vec<Result<String, VecfitError>>| row_view(r));
        rows.push(row);
        assert(want[i as int] == record_fields(fields_view(records@[i as int]), format, channels as nat));
        assert(rows@.map_values(|r: Vec<Result<String, VecfitError>>| row_view(r)) == before.push(want[i as int]));
        assert(want.take(i + 1) == want.take(i as int).push(want[i as int]));
        i = i + 1;
    }
    assert(want.take(records.len() as int) == want);
    let error = match error {
        Some(m) => Some(VecfitError::Csv(m)),
        None => None,
    };
    Ok(CsvColumns { format, channels, rows, error })
}

/// Reads delimited sample data with the `csv` crate and splits it into columns.
pub fn read_delimited(input: &[u8], delimiter: u8) -> (r: Result<CsvColumns, VecfitError>)
    ensures
        columns_of(csv_table(input@, delimiter)) matches Ok(v) ==> r is Ok && r->Ok_0.view() == v,
        columns_of(csv_table(input@, delimiter)) matches Err(m) ==> fails_with(r, ErrorKind::Csv, m),
        r matches Ok(c) ==> c.errors_are_csv(),
{
    let table = read_csv_table(input, delimiter);
    columns_from_table(table)
}

/// The shape of delimited sample data: a scalar for one channel, a vector otherwise.
pub fn csv_shape(channels: usize) -> (r: Result<Shape, VecfitError>)
    ensures
        channels == 1 ==> r is Ok && r->Ok_0@ == Seq::<usize>::empty(),
        channels > 1 ==> r is Ok && r->Ok_0@ == seq![channels] && r->Ok_0.wf(),
        channels == 0 ==> fails_with(r, ErrorKind::Shape, shape_positive_msg()),
{
    if channels == 1 {
        Ok(Shape::scalar())
    } else {
        Shape::vector(channels)
    }
}

// ---------------------------------------------------------------------------
// JSON model structure
// ---------------------------------------------------------------------------

/// The shape a JSON model records, or the default for its channel count (a scalar
/// for one channel, a vector otherwise); it must describe exactly `channels`.
pub open spec fn json_shape(shape: Option<Seq<usize>>, channels: nat) -> Result<Seq<usize>, (ErrorKind, Seq<char>)> {
    let s = match shape {
        Some(s) => Ok(s),
        None => if channels == 1 {
            Ok(seq![])
        } else if channels == 0 {
            Err((ErrorKind::Shape, shape_positive_msg()))
        } else {
            Ok(seq![channels as usize])
        },
    };
    match s {
        Err(e) => Err(e),
        Ok(s) => if channel_count(s) != channels {
            Err(
                (
                    ErrorKind::Serialization,
                    "JSON shape "@ + debug_list(s) + " expects "@ + decimal(channel_count(s))
                        + " channels but model has "@ + decimal(channels),
                ),
            )
        } else {
            Ok(s)
        },
    }
}

pub open spec fn opt_shape(shape: Option<Shape>) -> Option<Seq<usize>> {
    match shape {
        Some(s) => Some(s@),
        None => None,
    }
}

pub open spec fn shape_ok(shape: Option<Shape>) -> bool {
    shape matches Some(s) ==> s.wf()
}

/// `r` is the outcome `v` describes: the same shape, or an error of that kind and message.
pub open spec fn shape_result(r: Result<Shape, VecfitError>, v: Result<Seq<usize>, (ErrorKind, Seq<char>)>) -> bool {
    match v {
        Ok(s) => r is Ok && r->Ok_0@ == s && r->Ok_0.wf(),
        Err((k, m)) => fails_with(r, k, m),
    }
}

/// Resolves the shape of a JSON model with `channels` channels.
pub fn resolve_json_shape(shape: Option<Shape>, channels: usize) -> (r: Result<Shape, VecfitError>)
    requires
        shape_ok(shape),
    ensures
        shape_result(r, json_shape(opt_shape(shape), channels as nat)),
{
    let shape = match shape {
        Some(s) => s,
        None => {
            if channels == 1 {
                Shape::scalar()
            } else {
                match Shape::vector(channels) {
                    Ok(s) => s,
                    Err(e) => return Err(e),
                }
            }
        },
    };
    let n = shape.channels();
    if n != channels {
        let mut m = String::from_str("JSON shape ");
        push_debug_list(&mut m, shape.dims());
        m.append(" expects ");
        push_decimal(&mut m, n);
        m.append(" channels but model has ");
        push_decimal(&mut m, channels);
        return Err(VecfitError::Serialization(m));
    }
    Ok(shape)
}

/// The `(rows, cols)` of the residue matrix of a shape: `1 x 1` for a scalar,
/// `n x 1` for a vector of `n`, `r x c` for a matrix.
pub open spec fn matrix_dims(shape: Seq<usize>) -> Option<(usize, usize)> {
    if shape.len() == 0 {
        Some((1, 1))
    } else if shape.len() == 1 {
        Some((shape[0], 1))
    } else if shape.len() == 2 {
        Some((shape[0], shape[1]))
    } else {
        None
    }
}

/// The residue-matrix dimensions of a shape; shapes of more than two dimensions
/// have none.
pub fn residue_matrix_dims(shape: &Shape) -> (r: Result<(usize, usize), VecfitError>)
    ensures
        matrix_dims(shape@) matches Some(d) ==> r == Ok::<(usize, usize), VecfitError>(d),
        matrix_dims(shape@) is None ==> fails_with(
            r,
            ErrorKind::Shape,
            "expected scalar, vector, or matrix shape, found "@ + debug_list(shape@),
        ),
{
    let d = shape.dims();
    if d.len() == 0 {
        Ok((1, 1))
    } else if d.len() == 1 {
        Ok((d[0], 1))
    } else if d.len() == 2 {
        Ok((d[0], d[1]))
    } else {
        let mut m = String::from_str("expected scalar, vector, or matrix shape, found ");
        push_debug_list(&mut m, d);
        Err(VecfitError::Shape(m))
    }
}

/// The shape of a state-space JSON model with `rows x cols` outputs: the recorded one,
/// or a scalar, column vector or matrix by the dimensions; its residue-matrix
/// dimensions must be `rows x cols`.
pub open spec fn state_space_shape(shape: Option<Seq<usize>>, rows: nat, cols: nat) -> Result<
    Seq<usize>,
    (ErrorKind, Seq<char>),
> {
    if rows == 0 || cols == 0 {
        Err((ErrorKind::Serialization, "complex JSON state-space matrices must have positive dimensions"@))
    } else {
        let s = match shape {
            Some(s) => s,
            None => if rows == 1 && cols == 1 {
                seq![]
            } else if cols == 1 {
                seq![rows as usize]
            } else {
                seq![rows as usize, cols as usize]
            },
        };
        match matrix_dims(s) {
            None => Err((ErrorKind::Shape, "expected scalar, vector, or matrix shape, found "@ + debug_list(s))),
            Some((r, c)) => if r != rows || c != cols {
                Err(
                    (
                        ErrorKind::Serialization,
                        "complex JSON state-space dimensions "@ + decimal(rows) + "x"@ + decimal(cols)
                            + " do not match shape "@ + debug_list(s),
                    ),
                )
            } else {
                Ok(s)
            },
        }
    }
}

/// Resolves the shape of a state-space JSON model with `rows x cols` outputs.
pub fn resolve_state_space_json_shape(shape: Option<Shape>, rows: usize, cols: usize) -> (r: Result<
    Shape,
    VecfitError,
>)
    ensures
        match state_space_shape(opt_shape(shape), rows as nat, cols as nat) {
            Ok(s) => r is Ok && r->Ok_0@ == s,
            Err((k, m)) => fails_with(r, k, m),
        },
{
    if rows == 0 || cols == 0 {
        return Err(
            error_from(
                ErrorKind::Serialization,
                "complex JSON state-space matrices must have positive dimensions",
            ),
        );
    }
    let shape = match shape {
        Some(s) => s,
        None => {
            if rows == 1 && cols == 1 {
                Shape::scalar()
            } else if cols == 1 {
                match Shape::vector(rows) {
                    Ok(s) => s,
                    Err(e) => return Err(e),
                }
            } else {
                match Shape::matrix(rows, cols) {
                    Ok(s) => s,
                    Err(e) => return Err(e),
                }
            }
        },
    };
    let (shape_rows, shape_cols) = match residue_matrix_dims(&shape) {
        Ok(d) => d,
        Err(e) => return Err(e),
    };
    if shape_rows != rows || shape_cols != cols {
        let mut m = String::from_str("complex JSON state-space dimensions ");
        push_decimal(&mut m, rows);
        m.append("x");
        push_decimal(&mut m, cols);
        m.append(" do not match shape ");
        push_debug_list(&mut m, shape.dims());
        return Err(VecfitError::Serialization(m));
    }
    Ok(shape)
}

/// The sizes a complex JSON model file gives: its pole count, the length of each
/// residue, `C` and `B` row (for the parts that are present), the direct and
/// proportional term counts, and its recorded shape.
#[derive(Debug)]
pub struct ComplexJsonSizes {
    pub poles: usize,
    pub residue_rows: Option<Vec<usize>>,
    pub c_rows: Option<Vec<usize>>,
    pub b_rows: Option<Vec<usize>>,
    pub direct_terms: usize,
    pub proportional_terms: usize,
    pub shape: Option<Shape>,
}

/// How a complex JSON model file is read: residues per pole and channel, or a
/// modal state-space realization with `rows x cols` outputs.
#[derive(Debug)]
pub enum ComplexJsonPlan {
    Residues { channels: usize, shape: Shape },
    StateSpace { rows: usize, cols: usize, shape: Shape },
}

pub ghost enum PlanView {
    Residues(nat, Seq<usize>),
    StateSpace(nat, nat, Seq<usize>),
}

impl ComplexJsonPlan {
    pub open spec fn view(&self) -> PlanView {
        match self {
            ComplexJsonPlan::Residues { channels, shape } => PlanView::Residues(*channels as nat, shape@),
            ComplexJsonPlan::StateSpace { rows, cols, shape } => PlanView::StateSpace(
                *rows as nat,
                *cols as nat,
                shape@,
            ),
        }
    }
}

pub open spec fn opt_lens(o: Option<Vec<usize>>) -> Option<Seq<usize>> {
    match o {
        Some(v) => Some(v@),
        None => None,
    }
}

/// Every entry of `lens` equals `n`.
pub open spec fn all_equal(lens: Seq<usize>, n: nat) -> bool {
    forall|k: int| 0 <= k < lens.len() ==> lens[k] == n
}

pub open spec fn ser(m: Seq<char>) -> (ErrorKind, Seq<char>) {
    (ErrorKind::Serialization, m)
}

/// The structure checks of a complex JSON model file, in the order they are made.
pub open spec fn complex_json_plan(
    poles: nat,
    res: Option<Seq<usize>>,
    c: Option<Seq<usize>>,
    b: Option<Seq<usize>>,
    d: nat,
    e: nat,
    shape: Option<Seq<usize>>,
) -> Result<PlanView, (ErrorKind, Seq<char>)> {
    if res is Some && (c is Some || b is Some) {
        Err(ser("complex JSON must contain either residues or C/B state-space matrices, not both"@))
    } else if (c is Some) != (b is Some) {
        Err(ser("complex JSON state-space form requires both C and B"@))
    } else if res is Some {
        let rows = res->Some_0;
        if rows.len() != poles {
            Err(ser("complex JSON residue rows must match pole count"@))
        } else if e != d {
            Err(ser("complex JSON proportional term count must match channel count"@))
        } else if !all_equal(rows, d) {
            Err(ser("complex JSON residue row length must match channel count"@))
        } else {
            match json_shape(shape, d) {
                Err(x) => Err(x),
                Ok(s) => Ok(PlanView::Residues(d, s)),
            }
        }
    } else if c is Some {
        let cr = c->Some_0;
        let br = b->Some_0;
        if poles == 0 {
            Err(ser("complex JSON state-space form requires at least one pole"@))
        } else if cr.len() == 0 {
            Err(ser("complex JSON C matrix must have at least one row"@))
        } else if br.len() != poles {
            Err(ser("complex JSON B matrix row count must match pole count"@))
        } else {
            let rows = cr.len();
            let cols = br[0] as nat;
            if rows * cols > usize::MAX {
                Err(ser("complex JSON state-space dimensions are too large"@))
            } else if d != rows * cols {
                Err(ser("complex JSON direct term count must match channel count"@))
            } else if e != rows * cols {
                Err(ser("complex JSON proportional term count must match channel count"@))
            } else {
                match state_space_shape(shape, rows, cols) {
                    Err(x) => Err(x),
                    Ok(s) => if !all_equal(cr, poles) {
                        Err(ser("complex JSON c matrix column count must be "@ + decimal(poles)))
                    } else if !all_equal(br, cols) {
                        Err(ser("complex JSON b matrix column count must be "@ + decimal(cols)))
                    } else {
                        Ok(PlanView::StateSpace(rows, cols, s))
                    },
                }
            }
        }
    } else {
        Err(ser("complex JSON must contain residues or C/B state-space matrices"@))
    }
}

fn lens_equal(lens: &Vec<usize>, n: usize) -> (r: bool)
    ensures
        r == all_equal(lens@, n as nat),
{
    let mut k: usize = 0;
    while k < lens.len()
        invariant
            k <= lens.len(),
            forall|j: int| 0 <= j < k ==> lens@[j] == n,
        decreases lens.len() - k,
    {
        if lens[k] != n {
            return false;
        }
        k = k + 1;
    }
    true
}

fn ser_error(m: &str) -> (e: VecfitError)
    ensures
        e.kind() == ErrorKind::Serialization,
        e.message() == m@,
{
    error_from(ErrorKind::Serialization, m)
}

/// Checks the structure of a complex JSON model file and says how to read it.
pub fn plan_complex_json(sizes: ComplexJsonSizes) -> (r: Result<ComplexJsonPlan, VecfitError>)
    requires
        shape_ok(sizes.shape),
    ensures
        match complex_json_plan(
            sizes.poles as nat,
            opt_lens(sizes.residue_rows),
            opt_lens(sizes.c_rows),
            opt_lens(sizes.b_rows),
            sizes.direct_terms as nat,
            sizes.proportional_terms as nat,
            opt_shape(sizes.shape),
        ) {
            Ok(v) => r is Ok && r->Ok_0.view() == v,
            Err((k, m)) => fails_with(r, k, m),
        },
{
    let ComplexJsonSizes {
        poles,
        residue_rows,
        c_rows,
        b_rows,
        direct_terms,
        proportional_terms,
        shape,
    } = sizes;
    if residue_rows.is_some() && (c_rows.is_some() || b_rows.is_some()) {
        return Err(
            ser_error(
                "complex JSON must contain either residues or C/B state-space matrices, not both",
            ),
        );
    }
    if c_rows.is_some() != b_rows.is_some() {
        return Err(ser_error("complex JSON state-space form requires both C and B"));
    }
    match residue_rows {
        Some(rows) => {
            if rows.len() != poles {
                return Err(ser_error("complex JSON residue rows must match pole count"));
            }
            let channels = direct_terms;
            if proportional_terms != channels {
                return Err(
                    ser_error("complex JSON proportional term count must match channel count"),
                );
            }
            if !lens_equal(&rows, channels) {
                return Err(
                    ser_error("complex JSON residue row length must match channel count"),
                );
            }
            let s = match resolve_json_shape(shape, channels) {
                Ok(s) => s,
                Err(e) => return Err(e),
            };
            Ok(ComplexJsonPlan::Residues { channels, shape: s })
        },
        None => match (c_rows, b_rows) {
            (Some(cr), Some(br)) => {
                if poles == 0 {
                    return Err(
                        ser_error("complex JSON state-space form requires at least one pole"),
                    );
                }
                if cr.len() == 0 {
                    return Err(ser_error("complex JSON C matrix must have at least one row"));
                }
                if br.len() != poles {
                    return Err(ser_error("complex JSON B matrix row count must match pole count"));
                }
                let rows = cr.len();
                let cols = br[0];
                let channels = match rows.checked_mul(cols) {
                    Some(n) => n,
                    None => {
                        return Err(ser_error("complex JSON state-space dimensions are too large"));
                    },
                };
                if direct_terms != channels {
                    return Err(ser_error("complex JSON direct term count must match channel count"));
                }
                if proportional_terms != channels {
                    return Err(
                        ser_error("complex JSON proportional term count must match channel count"),
                    );
                }
                let s = match resolve_state_space_json_shape(shape, rows, cols) {
                    Ok(s) => s,
                    Err(e) => return Err(e),
                };
                if !lens_equal(&cr, poles) {
                    let mut m = String::from_str("complex JSON c matrix column count must be ");
                    push_decimal(&mut m, poles);
                    return Err(VecfitError::Serialization(m));
                }
                if !lens_equal(&br, cols) {
                    let mut m = String::from_str("complex JSON b matrix column count must be ");
                    push_decimal(&mut m, cols);
                    return Err(VecfitError::Serialization(m));
                }
                Ok(ComplexJsonPlan::StateSpace { rows, cols, shape: s })
            },
            _ => Err(ser_error("complex JSON must contain residues or C/B state-space matrices")),
        },
    }
}

/// The structure checks of a real-kernel JSON model file, in the order they are
/// made; the result is the model's shape.
pub open spec fn real_kernel_plan(
    n_poles: nat,
    poles: nat,
    n_functions: nat,
    d: nat,
    e: Option<nat>,
    residue_rows: Seq<usize>,
    shape: Option<Seq<usize>>,
) -> Result<Seq<usize>, (ErrorKind, Seq<char>)> {
    if poles != n_poles {
        Err(ser("real-kernel JSON pole list length does not match n_poles"@))
    } else if d != n_functions {
        Err(ser("real-kernel JSON direct term count must match n_functions"@))
    } else if e matches Some(n) && n != n_functions {
        Err(ser("real-kernel JSON proportional term count must match n_functions"@))
    } else if !all_equal(residue_rows, n_functions) {
        Err(ser("real-kernel JSON residue row length must match n_functions"@))
    } else {
        json_shape(shape, n_functions)
    }
}

/// The sizes a real-kernel JSON model file gives.
#[derive(Debug)]
pub struct RealKernelSizes {
    pub n_poles: usize,
    pub poles: usize,
    pub n_functions: usize,
    pub direct_terms: usize,
    pub proportional_terms: Option<usize>,
    pub residue_rows: Vec<usize>,
    pub shape: Option<Shape>,
}

/// Checks the structure of a real-kernel JSON model file and resolves its shape.
pub fn plan_real_kernel_json(sizes: RealKernelSizes) -> (r: Result<Shape, VecfitError>)
    requires
        shape_ok(sizes.shape),
    ensures
        shape_result(
            r,
            real_kernel_plan(
                sizes.n_poles as nat,
                sizes.poles as nat,
                sizes.n_functions as nat,
                sizes.direct_terms as nat,
                match sizes.proportional_terms {
                    Some(n) => Some(n as nat),
                    None => None,
                },
                sizes.residue_rows@,
                opt_shape(sizes.shape),
            ),
        ),
{
    let RealKernelSizes {
        n_poles,
        poles,
        n_functions,
        direct_terms,
        proportional_terms,
        residue_rows,
        shape,
    } = sizes;
    if poles != n_poles {
        return Err(ser_error("real-kernel JSON pole list length does not match n_poles"));
    }
    if direct_terms != n_functions {
        return Err(ser_error("real-kernel JSON direct term count must match n_functions"));
    }
    match proportional_terms {
        Some(n) => {
            if n != n_functions {
                return Err(
                    ser_error("real-kernel JSON proportional term count must match n_functions"),
                );
            }
        },
        None => {},
    }
    if !lens_equal(&residue_rows, n_functions) {
        return Err(ser_error("real-kernel JSON residue row length must match n_functions"));
    }
    resolve_json_shape(shape, n_functions)
}

proof fn lemma_complete_fields(record: Seq<Seq<char>>, format: CsvFormat, k: nat, total: nat)
    requires
        k <= total,
        record.len() >= total,
    ensures
        fields_from(record, format, k, total) == Seq::new(
            (total - k) as nat,
            |m: int| Ok::<Seq<char>, Seq<char>>(trim(record[k + m])),
        ),
    decreases total - k,
{
    if k < total {
        lemma_complete_fields(record, format, k + 1, total);
        assert(fields_from(record, format, k, total) =~= Seq::new(
            (total - k) as nat,
            |m: int| Ok::<Seq<char>, Seq<char>>(trim(record[k + m])),
        ));
    } else {
        assert(fields_from(record, format, k, total) =~= Seq::new(
            (total - k) as nat,
            |m: int| Ok::<Seq<char>, Seq<char>>(trim(record[k + m])),
        ));
    }
}

/// A record with a field for the frequency and for both columns of every channel
/// is read in full: its first `1 + 2 * channels` fields, each trimmed, in order.
pub proof fn law_complete_record_fields(record: Seq<Seq<char>>, format: CsvFormat, channels: nat)
    requires
        record.len() >= 1 + 2 * channels,
    ensures
        record_fields(record, format, channels) == Seq::new(
            1 + 2 * channels,
            |m: int| Ok::<Seq<char>, Seq<char>>(trim(record[m])),
        ),
{
    lemma_complete_fields(record, format, 0, 1 + 2 * channels);
    assert(Seq::new((1 + 2 * channels - 0) as nat, |m: int| Ok::<Seq<char>, Seq<char>>(trim(record[0 + m])))
        =~= Seq::new(1 + 2 * channels, |m: int| Ok::<Seq<char>, Seq<char>>(trim(record[m]))));
}

/// A model written as complex JSON in residue form reads back with the same
/// channel count and shape: its pole count, residue rows of one entry per channel,
/// one direct and one proportional term per channel, and its recorded shape pass
/// every structure check.
pub proof fn law_complex_json_shape_roundtrip(poles: nat, channels: nat, shape: Seq<usize>)
    requires
        channels > 0,
        channel_count(shape) == channels,
        channels <= usize::MAX,
    ensures
        complex_json_plan(
            poles,
            Some(Seq::new(poles, |k: int| channels as usize)),
            None,
            None,
            channels,
            channels,
            Some(shape),
        ) == Ok::<PlanView, (ErrorKind, Seq<char>)>(PlanView::Residues(channels, shape)),
{
    let rows = Seq::new(poles, |k: int| channels as usize);
    assert(all_equal(rows, channels));
}

/// A real model written as real-kernel JSON reads back with the same shape: its
/// pole list, residue rows of one entry per function, direct and proportional terms
/// per function, and its recorded shape pass every structure check.
pub proof fn law_real_kernel_shape_roundtrip(poles: nat, channels: nat, shape: Seq<usize>)
    requires
        channels > 0,
        channel_count(shape) == channels,
        channels <= usize::MAX,
    ensures
        real_kernel_plan(
            poles,
            poles,
            channels,
            channels,
            Some(channels),
            Seq::new(poles, |k: int| channels as usize),
            Some(shape),
        ) == Ok::<Seq<usize>, (ErrorKind, Seq<char>)>(shape),
{
    let rows = Seq::new(poles, |k: int| channels as usize);
    assert(all_equal(rows, channels));
}

} // verus!

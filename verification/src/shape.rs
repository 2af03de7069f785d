//! Output shapes, flattening layouts and the flat response payloads that carry them.

use vstd::prelude::*;

use crate::error::{error_from, fails_with, ErrorKind, VecfitError};
use crate::text::{debug_list, decimal, push_debug_list, push_decimal};

verus! {

/// Memory layout used when flattening multi-dimensional responses.
#[derive(Debug, Clone, Copy, PartialEq, Eq, Structural)]
pub enum Layout {
    RowMajor,
    ColumnMajor,
}

impl Default for Layout {
    fn default() -> (l: Layout)
        ensures
            l == Layout::RowMajor,
    {
        Layout::RowMajor
    }
}

/// `format!("{:?}", layout)`.
pub open spec fn layout_name(l: Layout) -> Seq<char> {
    match l {
        Layout::RowMajor => "RowMajor"@,
        Layout::ColumnMajor => "ColumnMajor"@,
    }
}

fn push_layout_name(s: &mut String, l: Layout)
    ensures
        final(s)@ == old(s)@ + layout_name(l),
{
    match l {
        Layout::RowMajor => s.append("RowMajor"),
        Layout::ColumnMajor => s.append("ColumnMajor"),
    }
}

/// Product of the dimensions; 1 for no dimensions.
pub open spec fn product(dims: Seq<usize>) -> nat
    decreases dims.len(),
{
    if dims.len() == 0 {
        1
    } else {
        product(dims.drop_last()) * (dims.last() as nat)
    }
}

/// Recorded output shape for each fitted sample: its dimensions, none for a scalar.
#[derive(Debug, PartialEq, Eq, Default)]
pub struct Shape(Vec<usize>);

impl View for Shape {
    type V = Seq<usize>;

    closed spec fn view(&self) -> Seq<usize> {
        self.0@
    }
}

impl Clone for Shape {
    fn clone(&self) -> (r: Shape)
        ensures
            r@ == self@,
    {
        Shape(self.0.clone())
    }
}

/// The number of channels of a shape: the product of its dimensions (1 for a scalar).
pub open spec fn channel_count(dims: Seq<usize>) -> nat {
    product(dims)
}

/// Every dimension is positive.
pub open spec fn all_positive(dims: Seq<usize>) -> bool {
    forall|i: int| 0 <= i < dims.len() ==> dims[i] > 0
}

pub open spec fn shape_positive_msg() -> Seq<char> {
    "shape dimensions must be positive"@
}

impl Shape {
    /// Every running product of the dimensions, and so the channel count, fits in a
    /// machine word.
    pub open spec fn wf(&self) -> bool {
        forall|k: int| 0 <= k <= self@.len() ==> #[trigger] product(self@.take(k)) <= usize::MAX
    }

    pub fn scalar() -> (s: Shape)
        ensures
            s@ == Seq::<usize>::empty(),
            s.wf(),
    {
        let s = Shape(Vec::new());
        assert forall|k: int| 0 <= k <= s@.len() implies #[trigger] product(s@.take(k)) <= usize::MAX by {
            assert(s@.take(k) == Seq::<usize>::empty());
        }
        s
    }

    /// A shape with the given dimensions, taken as they are; used to restore a
    /// stored shape.
    pub fn from_dims(dims: Vec<usize>) -> (s: Shape)
        ensures
            s@ == dims@,
    {
        Shape(dims)
    }

    pub fn vector(len: usize) -> (r: Result<Shape, VecfitError>)
        ensures
            len > 0 ==> r is Ok && r->Ok_0@ == seq![len] && r->Ok_0.wf(),
            len == 0 ==> fails_with(r, ErrorKind::Shape, shape_positive_msg()),
    {
        let mut dims: Vec<usize> = Vec::new();
        dims.push(len);
        assert(dims@ == seq![len]);
        let r = Self::tensor(dims);
        proof {
            if len > 0 {
                lemma_wf_one(r->Ok_0);
            } else {
                assert(seq![len][0] == 0);
            }
        }
        r
    }

    pub fn matrix(rows: usize, cols: usize) -> (r: Result<Shape, VecfitError>)
        ensures
            rows > 0 && cols > 0 ==> r is Ok && r->Ok_0@ == seq![rows, cols],
            rows > 0 && cols > 0 && rows * cols <= usize::MAX ==> r->Ok_0.wf(),
            rows == 0 || cols == 0 ==> fails_with(r, ErrorKind::Shape, shape_positive_msg()),
    {
        let mut dims: Vec<usize> = Vec::new();
        dims.push(rows);
        dims.push(cols);
        assert(dims@ == seq![rows, cols]);
        let r = Self::tensor(dims);
        proof {
            if rows == 0 {
                assert(seq![rows, cols][0] == 0);
            }
            if cols == 0 {
                assert(seq![rows, cols][1] == 0);
            }
            if rows > 0 && cols > 0 && rows * cols <= usize::MAX {
                lemma_wf_two(r->Ok_0);
            }
        }
        r
    }

    /// A shape with the given dimensions; every dimension must be positive.
    pub fn tensor(dims: Vec<usize>) -> (r: Result<Shape, VecfitError>)
        ensures
            all_positive(dims@) ==> r is Ok && r->Ok_0@ == dims@,
            all_positive(dims@) && product(dims@) <= usize::MAX ==> r->Ok_0.wf(),
            !all_positive(dims@) ==> fails_with(r, ErrorKind::Shape, shape_positive_msg()),
    {
        let mut i: usize = 0;
        while i < dims.len()
            invariant
                i <= dims.len(),
                forall|k: int| 0 <= k < i ==> dims@[k] > 0,
            decreases dims.len() - i,
        {
            if dims[i] == 0 {
                return Err(error_from(ErrorKind::Shape, "shape dimensions must be positive"));
            }
            i = i + 1;
        }
        proof {
            if product(dims@) <= usize::MAX {
                assert forall|k: int| 0 <= k <= dims@.len() implies #[trigger] product(dims@.take(k))
                    <= usize::MAX by {
                    lemma_prefix_product(dims@, k);
                }
            }
        }
        Ok(Shape(dims))
    }

    pub fn dims(&self) -> (d: &[usize])
        ensures
            d@ == self@,
    {
        self.0.as_slice()
    }

    pub fn ndim(&self) -> (n: usize)
        ensures
            n == self@.len(),
    {
        self.0.len()
    }

    pub fn is_scalar(&self) -> (b: bool)
        ensures
            b == (self@.len() == 0),
    {
        self.0.len() == 0
    }

    /// Number of flattened values per sample: the product of the dimensions, 1 for a scalar.
    pub fn channels(&self) -> (n: usize)
        requires
            self.wf(),
        ensures
            n == channel_count(self@),
    {
        let mut acc: usize = 1;
        let mut i: usize = 0;
        assert(self@.take(0) == Seq::<usize>::empty());
        while i < self.0.len()
            invariant
                i <= self@.len(),
                self.wf(),
                acc == product(self@.take(i as int)),
            decreases self@.len() - i,
        {
            proof {
                let t = self@.take(i + 1);
                assert(t.drop_last() == self@.take(i as int));
                assert(product(t) <= usize::MAX);
            }
            acc = acc * self.0[i];
            i = i + 1;
        }
        proof {
            assert(self@.take(self@.len() as int) == self@);
        }
        acc
    }

    pub fn expect_vector(&self) -> (r: Result<usize, VecfitError>)
        ensures
            self@.len() == 1 ==> r == Ok::<usize, VecfitError>(self@[0]),
            self@.len() != 1 ==> fails_with(
                r,
                ErrorKind::Shape,
                "expected vector shape, found "@ + debug_list(self@),
            ),
    {
        if self.0.len() == 1 {
            Ok(self.0[0])
        } else {
            let mut m = String::from_str("expected vector shape, found ");
            push_debug_list(&mut m, self.0.as_slice());
            Err(VecfitError::Shape(m))
        }
    }

    pub fn expect_matrix(&self) -> (r: Result<(usize, usize), VecfitError>)
        ensures
            self@.len() == 2 ==> r == Ok::<(usize, usize), VecfitError>((self@[0], self@[1])),
            self@.len() != 2 ==> fails_with(
                r,
                ErrorKind::Shape,
                "expected matrix shape, found "@ + debug_list(self@),
            ),
    {
        if self.0.len() == 2 {
            Ok((self.0[0], self.0[1]))
        } else {
            let mut m = String::from_str("expected matrix shape, found ");
            push_debug_list(&mut m, self.0.as_slice());
            Err(VecfitError::Shape(m))
        }
    }

    /// Infer a shape from a channel count: a scalar for 1, a square matrix when
    /// the count is a perfect square, otherwise a vector.
    pub fn infer_square(channels: usize) -> (r: Result<Shape, VecfitError>)
        ensures
            channels == 1 ==> r is Ok && r->Ok_0@ == Seq::<usize>::empty(),
            channels == 0 ==> fails_with(r, ErrorKind::Shape, shape_positive_msg()),
            channels > 1 && is_square(channels as nat) ==> r is Ok && r->Ok_0@ == seq![
                square_root(channels as nat) as usize,
                square_root(channels as nat) as usize,
            ],
            channels > 1 && !is_square(channels as nat) ==> r is Ok && r->Ok_0@ == seq![channels],
    {
        if channels == 1 {
            return Ok(Self::scalar());
        }
        let root = isqrt(channels);
        proof {
            lemma_square_root(channels as nat, root as nat);
            if channels == 0 {
                assert(root == 0) by (nonlinear_arith)
                    requires
                        root * root <= 0,
                ;
            }
        }
        if root * root == channels {
            Self::matrix(root, root)
        } else {
            Self::vector(channels)
        }
    }
}

/// With positive dimensions, the product of a prefix is at most the whole product.
proof fn lemma_prefix_product(d: Seq<usize>, k: int)
    requires
        all_positive(d),
        0 <= k <= d.len(),
    ensures
        product(d.take(k)) <= product(d),
    decreases d.len() - k,
{
    if k < d.len() {
        lemma_prefix_product(d, k + 1);
        let t = d.take(k + 1);
        assert(t.drop_last() == d.take(k));
        assert(t.last() == d[k]);
        let p = product(d.take(k));
        let x = d[k] as nat;
        assert(p <= p * x) by (nonlinear_arith)
            requires
                x >= 1,
        ;
    } else {
        assert(d.take(k) == d);
    }
}

proof fn lemma_wf_one(s: Shape)
    requires
        s@.len() == 1,
    ensures
        s.wf(),
        product(s@) == s@[0],
{
    let d = s@;
    assert(d.take(0) == Seq::<usize>::empty());
    assert(d.take(1) == d);
    assert(d.drop_last() == Seq::<usize>::empty());
    assert(product(Seq::<usize>::empty()) == 1);
    assert(product(d) == product(d.drop_last()) * (d.last() as nat));
    assert forall|k: int| 0 <= k <= d.len() implies #[trigger] product(d.take(k)) <= usize::MAX by {
        if k == 0 {
        } else {
        }
    }
}

proof fn lemma_wf_two(s: Shape)
    requires
        s@.len() == 2,
        s@[0] * s@[1] <= usize::MAX,
        s@[1] > 0,
    ensures
        s.wf(),
        product(s@) == s@[0] * s@[1],
{
    let d = s@;
    let (rows, cols) = (d[0], d[1]);
    assert(d.take(0) == Seq::<usize>::empty());
    assert(d.take(1) == seq![rows]);
    assert(d.take(2) == d);
    assert(d.drop_last() == seq![rows]);
    assert(seq![rows].drop_last() == Seq::<usize>::empty());
    assert(product(Seq::<usize>::empty()) == 1);
    assert(product(seq![rows]) == product(seq![rows].drop_last()) * (rows as nat));
    assert(product(d) == product(d.drop_last()) * (cols as nat));
    assert(rows <= rows * cols) by (nonlinear_arith)
        requires
            cols > 0,
    ;
    assert forall|k: int| 0 <= k <= d.len() implies #[trigger] product(d.take(k)) <= usize::MAX by {
        if k == 0 {
        } else if k == 1 {
        } else {
        }
    }
}

/// `n` is the square of a natural number.
pub open spec fn is_square(n: nat) -> bool {
    square_root(n) * square_root(n) == n
}

/// The largest `r` with `r * r <= n`.
pub open spec fn is_root_of(n: nat, r: nat) -> bool {
    r * r <= n < (r + 1) * (r + 1)
}

/// The integer square root of `n`: the largest `r` with `r * r <= n`.
pub closed spec fn square_root(n: nat) -> nat {
    choose|r: nat| is_root_of(n, r)
}

proof fn lemma_root_unique(n: nat, a: nat, b: nat)
    requires
        is_root_of(n, a),
        is_root_of(n, b),
    ensures
        a == b,
{
    if a < b {
        assert((a + 1) * (a + 1) <= b * b) by (nonlinear_arith)
            requires
                a + 1 <= b,
        ;
    }
    if b < a {
        assert((b + 1) * (b + 1) <= a * a) by (nonlinear_arith)
            requires
                b + 1 <= a,
        ;
    }
}

/// Any root of `n` is its square root.
pub proof fn lemma_square_root(n: nat, r: nat)
    requires
        is_root_of(n, r),
    ensures
        square_root(n) == r,
        is_square(n) <==> r * r == n,
{
    assert(is_root_of(n, r));
    let s = square_root(n);
    lemma_root_unique(n, r, s);
}

/// Integer square root: the largest `r` with `r * r <= val`.
pub fn isqrt(val: usize) -> (r: usize)
    ensures
        is_root_of(val as nat, r as nat),
        r as nat == square_root(val as nat),
{
    let v: u64 = val as u64;
    let mut lo: u64 = 0;
    let mut hi: u64 = if v < 0xFFFF_FFFF {
        v + 1
    } else {
        0x1_0000_0000
    };
    proof {
        if v < 0xFFFF_FFFF {
            assert(v < (v + 1) * (v + 1)) by (nonlinear_arith);
        } else {
            assert(v < 0x1_0000_0000 * 0x1_0000_0000) by (nonlinear_arith)
                requires
                    v <= u64::MAX,
            ;
        }
    }
    while hi - lo > 1
        invariant
            lo < hi <= 0x1_0000_0000,
            lo * lo <= v,
            v < hi * hi,
        decreases hi - lo,
    {
        let mid = lo + (hi - lo) / 2;
        assert(mid * mid < 0x1_0000_0000 * 0x1_0000_0000) by (nonlinear_arith)
            requires
                mid < 0x1_0000_0000,
        ;
        if mid * mid <= v {
            lo = mid;
        } else {
            hi = mid;
        }
    }
    proof {
        assert(hi == lo + 1);
        assert(lo <= v) by (nonlinear_arith)
            requires
                lo * lo <= v,
        ;
        lemma_square_root(val as nat, lo as nat);
    }
    lo as usize
}

pub open spec fn length_mismatch_msg(len: nat, dims: Seq<usize>) -> Seq<char> {
    "flattened data length "@ + decimal(len) + " does not match shape "@ + debug_list(dims)
        + " ("@ + decimal(channel_count(dims)) + " channels)"@
}

/// Flattened response payload paired with shape metadata.
#[derive(Debug, Clone, PartialEq)]
pub struct FlatResponse<T> {
    pub values: Vec<T>,
    pub shape: Shape,
    pub layout: Layout,
}

impl<T> FlatResponse<T> {
    /// A payload whose length matches the shape's channel count.
    pub fn new(values: Vec<T>, shape: Shape, layout: Layout) -> (r: Result<Self, VecfitError>)
        requires
            shape.wf(),
        ensures
            values.len() == channel_count(shape@) ==> r is Ok && r->Ok_0.values@ == values@
                && r->Ok_0.shape@ == shape@ && r->Ok_0.layout == layout,
            values.len() != channel_count(shape@) ==> fails_with(
                r,
                ErrorKind::Shape,
                length_mismatch_msg(values.len() as nat, shape@),
            ),
    {
        let expected = shape.channels();
        if values.len() != expected {
            let mut m = String::from_str("flattened data length ");
            push_decimal(&mut m, values.len());
            m.append(" does not match shape ");
            push_debug_list(&mut m, shape.dims());
            m.append(" (");
            push_decimal(&mut m, expected);
            m.append(" channels)");
            return Err(VecfitError::Shape(m));
        }
        Ok(FlatResponse { values, shape, layout })
    }

    pub fn scalar(value: T) -> (r: Self)
        ensures
            r.values@ == seq![value],
            r.shape@ == Seq::<usize>::empty(),
            r.layout == Layout::RowMajor,
    {
        let mut values: Vec<T> = Vec::new();
        values.push(value);
        FlatResponse { values, shape: Shape::scalar(), layout: Layout::RowMajor }
    }

    /// A vector response: one channel per value, row-major.
    pub fn from_values(values: Vec<T>) -> (r: Result<Self, VecfitError>)
        ensures
            values.len() > 0 ==> r is Ok && r->Ok_0.values@ == values@ && r->Ok_0.shape@ == seq![
                values.len(),
            ] && r->Ok_0.layout == Layout::RowMajor,
            values.len() == 0 ==> fails_with(r, ErrorKind::Shape, shape_positive_msg()),
    {
        let len = values.len();
        let shape = Self::vector_shape(len)?;
        proof {
            lemma_wf_one(shape);
        }
        Self::new(values, shape, Layout::RowMajor)
    }

    fn vector_shape(len: usize) -> (r: Result<Shape, VecfitError>)
        ensures
            len > 0 ==> r is Ok && r->Ok_0@ == seq![len] && r->Ok_0.wf(),
            len == 0 ==> fails_with(r, ErrorKind::Shape, shape_positive_msg()),
    {
        Shape::vector(len)
    }

    /// A matrix response from its rows: the rows must be non-empty and of one length;
    /// the values are flattened row by row.
    pub fn from_rows(rows: Vec<Vec<T>>) -> (r: Result<Self, VecfitError>)
        ensures
            rows_ok(rows@.map_values(|row: Vec<T>| row@)) ==> r is Ok && r->Ok_0.values@
                == flatten(rows@.map_values(|row: Vec<T>| row@)) && r->Ok_0.shape@ == seq![
                rows.len(),
                rows@[0].len(),
            ] && r->Ok_0.layout == Layout::RowMajor,
            rows.len() == 0 || rows@[0].len() == 0 ==> fails_with(
                r,
                ErrorKind::Shape,
                "matrix response cannot be empty"@,
            ),
            rows.len() > 0 && rows@[0].len() > 0 && !rows_ok(rows@.map_values(|row: Vec<T>| row@))
                ==> fails_with(r, ErrorKind::Shape, "matrix response rows must have constant length"@),
    {
        let ghost rs = rows@.map_values(|row: Vec<T>| row@);
        let n_rows = rows.len();
        let cols = if n_rows == 0 {
            0
        } else {
            rows[0].len()
        };
        if n_rows == 0 || cols == 0 {
            return Err(error_from(ErrorKind::Shape, "matrix response cannot be empty"));
        }
        let mut i: usize = 0;
        while i < n_rows
            invariant
                i <= n_rows == rows.len(),
                rs == rows@.map_values(|row: Vec<T>| row@),
                cols == rows@[0].len(),
                cols > 0,
                forall|k: int| 0 <= k < i ==> #[trigger] rs[k].len() == cols,
            decreases n_rows - i,
        {
            if rows[i].len() != cols {
                assert(rs[i as int].len() != rs[0].len());
                return Err(
                    error_from(ErrorKind::Shape, "matrix response rows must have constant length"),
                );
            }
            i = i + 1;
        }
        let mut values: Vec<T> = Vec::new();
        let mut rest = rows;
        let mut taken: usize = 0;
        // consume rows from the front, keeping the order
        rest = reverse_vec(rest);
        while rest.len() > 0
            invariant
                taken + rest.len() == n_rows,
                rs.len() == n_rows,
                forall|k: int| 0 <= k < rest.len() ==> #[trigger] rest@[k]@ == rs[n_rows - 1 - k],
                values@ == flatten(rs.take(taken as int)),
                values.len() == taken * cols,
                forall|k: int| 0 <= k < n_rows ==> #[trigger] rs[k].len() == cols,
                n_rows > 0,
                cols > 0,
            decreases rest.len(),
        {
            let ghost before = values@;
            let row = rest.pop().unwrap();
            assert(row@ == rs[taken as int]);
            let mut row = row;
            proof {
                lemma_flatten_push(rs.take(taken as int), rs[taken as int]);
                assert(rs.take(taken + 1) == rs.take(taken as int).push(rs[taken as int]));
            }
            values.append(&mut row);
            taken = taken + 1;
            assert(values.len() == (taken - 1) * cols + cols);
            assert(values.len() == taken * cols) by (nonlinear_arith)
                requires
                    values.len() == (taken - 1) * cols + cols,
                    taken >= 1,
            ;
        }
        assert(rs.take(n_rows as int) == rs);
        let ghost total = values.len();
        let shape = Shape::matrix(n_rows, cols)?;
        proof {
            assert(n_rows * cols == total);
            lemma_wf_two(shape);
        }
        Self::new(values, shape, Layout::RowMajor)
    }
}

/// The rows concatenated in order, as one flat list.
pub fn concat_rows<T: Copy>(rows: &Vec<Vec<T>>) -> (r: Vec<T>)
    ensures
        r@ == flatten(rows@.map_values(|row: Vec<T>| row@)),
{
    let ghost rs = rows@.map_values(|row: Vec<T>| row@);
    let mut out: Vec<T> = Vec::new();
    let mut i: usize = 0;
    while i < rows.len()
        invariant
            i <= rows.len(),
            rs == rows@.map_values(|row: Vec<T>| row@),
            out@ == flatten(rs.take(i as int)),
        decreases rows.len() - i,
    {
        let row = &rows[i];
        let ghost before = out@;
        let mut j: usize = 0;
        while j < row.len()
            invariant
                j <= row.len(),
                out@ == before + row@.subrange(0, j as int),
            decreases row.len() - j,
        {
            out.push(row[j]);
            j = j + 1;
            assert(out@ =~= before + row@.subrange(0, j as int));
        }
        proof {
            assert(row@.subrange(0, row.len() as int) == row@);
            assert(rs[i as int] == row@);
            lemma_flatten_push(rs.take(i as int), rs[i as int]);
            assert(rs.take(i + 1) == rs.take(i as int).push(rs[i as int]));
        }
        i = i + 1;
    }
    assert(rs.take(rows.len() as int) == rs);
    out
}

fn reverse_vec<T>(v: Vec<T>) -> (r: Vec<T>)
    ensures
        r.len() == v.len(),
        forall|k: int| 0 <= k < v.len() ==> #[trigger] r@[k] == v@[v.len() - 1 - k],
{
    let mut src = v;
    let n = src.len();
    let ghost orig = src@;
    let mut out: Vec<T> = Vec::new();
    while src.len() > 0
        invariant
            out.len() + src.len() == n,
            orig.len() == n,
            src@ == orig.take(src.len() as int),
            forall|k: int| 0 <= k < out.len() ==> #[trigger] out@[k] == orig[n - 1 - k],
        decreases src.len(),
    {
        let x = src.pop().unwrap();
        out.push(x);
    }
    out
}

/// Every row has the length of the first, and there is at least one non-empty row.
pub open spec fn rows_ok<T>(rows: Seq<Seq<T>>) -> bool {
    &&& rows.len() > 0
    &&& rows[0].len() > 0
    &&& forall|k: int| 0 <= k < rows.len() ==> #[trigger] rows[k].len() == rows[0].len()
}

/// The rows concatenated in order.
pub open spec fn flatten<T>(rows: Seq<Seq<T>>) -> Seq<T>
    decreases rows.len(),
{
    if rows.len() == 0 {
        seq![]
    } else {
        flatten(rows.drop_last()) + rows.last()
    }
}

pub proof fn lemma_flatten_push<T>(rows: Seq<Seq<T>>, row: Seq<T>)
    ensures
        flatten(rows.push(row)) == flatten(rows) + row,
{
    assert(rows.push(row).drop_last() == rows);
}

/// The position in a flat buffer of entry `(r, c)` of a `rows x cols` matrix.
pub open spec fn flat_index(layout: Layout, rows: int, cols: int, r: int, c: int) -> int {
    match layout {
        Layout::RowMajor => r * cols + c,
        Layout::ColumnMajor => c * rows + r,
    }
}

/// The position of entry `(r, c)` of a `rows x cols` matrix flattened in `layout`.
pub fn channel_index(layout: Layout, rows: usize, cols: usize, r: usize, c: usize) -> (i: usize)
    requires
        r < rows,
        c < cols,
        rows * cols <= usize::MAX,
    ensures
        i == flat_index(layout, rows as int, cols as int, r as int, c as int),
        i < rows * cols,
{
    match layout {
        Layout::RowMajor => {
            assert(r * cols + c < rows * cols) by (nonlinear_arith)
                requires
                    r < rows,
                    c < cols,
            ;
            r * cols + c
        },
        Layout::ColumnMajor => {
            assert(c * rows + r < rows * cols) by (nonlinear_arith)
                requires
                    r < rows,
                    c < cols,
            ;
            c * rows + r
        },
    }
}

/// Owned response payload that can be reconstructed into scalar, vector, or matrix form.
#[derive(Debug, Clone, PartialEq)]
pub struct ResponseSample<T> {
    pub values: Vec<T>,
    pub shape: Shape,
    pub layout: Layout,
}

impl<T> From<FlatResponse<T>> for ResponseSample<T> {
    fn from(value: FlatResponse<T>) -> (r: Self) {
        ResponseSample { values: value.values, shape: value.shape, layout: value.layout }
    }
}

impl<T> vstd::std_specs::convert::FromSpecImpl<FlatResponse<T>> for ResponseSample<T> {
    open spec fn obeys_from_spec() -> bool {
        true
    }

    open spec fn from_spec(v: FlatResponse<T>) -> Self {
        ResponseSample { values: v.values, shape: v.shape, layout: v.layout }
    }
}

impl<T> ResponseSample<T> {
    pub fn new(values: Vec<T>, shape: Shape, layout: Layout) -> (r: Result<Self, VecfitError>)
        requires
            shape.wf(),
        ensures
            values.len() == channel_count(shape@) ==> r is Ok && r->Ok_0.values@ == values@
                && r->Ok_0.shape@ == shape@ && r->Ok_0.layout == layout,
            values.len() != channel_count(shape@) ==> fails_with(
                r,
                ErrorKind::Shape,
                length_mismatch_msg(values.len() as nat, shape@),
            ),
    {
        match FlatResponse::new(values, shape, layout) {
            Ok(flat) => Ok(ResponseSample { values: flat.values, shape: flat.shape, layout: flat.layout }),
            Err(e) => Err(e),
        }
    }

    pub fn into_scalar(self) -> (r: Result<T, VecfitError>)
        ensures
            self.shape@.len() == 0 && self.values.len() > 0 ==> r == Ok::<T, VecfitError>(self.values@[0]),
            self.shape@.len() != 0 ==> fails_with(
                r,
                ErrorKind::Shape,
                "expected scalar shape, found "@ + debug_list(self.shape@),
            ),
            self.shape@.len() == 0 && self.values.len() == 0 ==> fails_with(
                r,
                ErrorKind::Shape,
                "scalar value is missing"@,
            ),
    {
        if !self.shape.is_scalar() {
            let mut m = String::from_str("expected scalar shape, found ");
            push_debug_list(&mut m, self.shape.dims());
            return Err(VecfitError::Shape(m));
        }
        let mut values = self.values;
        if values.len() == 0 {
            return Err(error_from(ErrorKind::Shape, "scalar value is missing"));
        }
        Ok(values.swap_remove(0))
    }

    pub fn into_vector(self) -> (r: Result<Vec<T>, VecfitError>)
        ensures
            self.shape@.len() == 1 ==> r is Ok && r->Ok_0@ == self.values@,
            self.shape@.len() != 1 ==> fails_with(
                r,
                ErrorKind::Shape,
                "expected vector shape, found "@ + debug_list(self.shape@),
            ),
    {
        match self.shape.expect_vector() {
            Ok(_) => Ok(self.values),
            Err(e) => Err(e),
        }
    }

    /// The matrix `m[r][c]`, read from the flat values in the recorded layout.
    pub fn into_matrix(self) -> (r: Result<Vec<Vec<T>>, VecfitError>)
        where
            T: Clone,
        requires
            self.shape@.len() == 2 ==> self.shape@[0] * self.shape@[1] <= self.values.len(),
        ensures
            self.shape@.len() == 2 ==> r is Ok && r->Ok_0.len() == self.shape@[0] && (forall|i: int|
                0 <= i < self.shape@[0] ==> (#[trigger] r->Ok_0@[i]).len() == self.shape@[1]) && (
            forall|i: int, j: int|
                0 <= i < self.shape@[0] && 0 <= j < self.shape@[1] ==> cloned::<T>(
                    self.values@[flat_index(
                        self.layout,
                        self.shape@[0] as int,
                        self.shape@[1] as int,
                        i,
                        j,
                    )],
                    #[trigger] r->Ok_0@[i]@[j],
                )),
            self.shape@.len() != 2 ==> fails_with(
                r,
                ErrorKind::Shape,
                "expected matrix shape, found "@ + debug_list(self.shape@),
            ),
    {
        let (rows, cols) = match self.shape.expect_matrix() {
            Ok(d) => d,
            Err(e) => return Err(e),
        };
        let layout = self.layout;
        let values = &self.values;
        let mut out: Vec<Vec<T>> = Vec::new();
        let mut i: usize = 0;
        while i < rows
            invariant
                i <= rows,
                rows == self.shape@[0],
                cols == self.shape@[1],
                rows * cols <= values.len(),
                values == &self.values,
                layout == self.layout,
                out.len() == i,
                forall|a: int| 0 <= a < i ==> (#[trigger] out@[a]).len() == cols,
                forall|a: int, b: int|
                    0 <= a < i && 0 <= b < cols ==> cloned::<T>(
                        values@[flat_index(layout, rows as int, cols as int, a, b)],
                        #[trigger] out@[a]@[b],
                    ),
            decreases rows - i,
        {
            let mut row: Vec<T> = Vec::new();
            let mut j: usize = 0;
            while j < cols
                invariant
                    i < rows,
                    j <= cols,
                    rows * cols <= values.len(),
                    row.len() == j,
                    forall|b: int|
                        0 <= b < j ==> cloned::<T>(
                            values@[flat_index(layout, rows as int, cols as int, i as int, b)],
                            #[trigger] row@[b],
                        ),
                decreases cols - j,
            {
                let idx = match layout {
                    Layout::RowMajor => {
                        assert(i * cols + j < rows * cols) by (nonlinear_arith)
                            requires
                                i < rows,
                                j < cols,
                        ;
                        i * cols + j
                    },
                    Layout::ColumnMajor => {
                        assert(j * rows + i < rows * cols) by (nonlinear_arith)
                            requires
                                i < rows,
                                j < cols,
                        ;
                        j * rows + i
                    },
                };
                let v = values[idx].clone();
                row.push(v);
                j = j + 1;
            }
            out.push(row);
            i = i + 1;
        }
        Ok(out)
    }
}

/// The layout-change and shape-change checks of a batch of responses, and their values
/// gathered sample after sample.
#[derive(Debug)]
pub struct ResponseBatch<T> {
    pub values: Vec<T>,
    pub shape: Option<Shape>,
    pub layout: Layout,
}

pub open spec fn shape_changed_msg(from: Seq<usize>, to: Seq<usize>) -> Seq<char> {
    "response shape changed from "@ + debug_list(from) + " to "@ + debug_list(to)
}

pub open spec fn layout_changed_msg(from: Layout, to: Layout) -> Seq<char> {
    "response layout changed from "@ + layout_name(from) + " to "@ + layout_name(to)
}

fn same_dims(a: &Shape, b: &Shape) -> (r: bool)
    ensures
        r == (a@ == b@),
{
    if a.0.len() != b.0.len() {
        return false;
    }
    let mut i: usize = 0;
    while i < a.0.len()
        invariant
            i <= a@.len() == b@.len(),
            forall|k: int| 0 <= k < i ==> a@[k] == b@[k],
        decreases a@.len() - i,
    {
        if a.0[i] != b.0[i] {
            return false;
        }
        i = i + 1;
    }
    assert(a@ == b@);
    true
}

impl<T> ResponseBatch<T> {
    pub fn new() -> (b: Self)
        ensures
            b.values@ == Seq::<T>::empty(),
            b.shape is None,
            b.layout == Layout::RowMajor,
    {
        ResponseBatch { values: Vec::new(), shape: None, layout: Layout::RowMajor }
    }

    /// Adds one sample's response: the first fixes the shape and layout, every later
    /// one must have the same.
    pub fn push(&mut self, response: FlatResponse<T>) -> (r: Result<(), VecfitError>)
        ensures
            old(self).shape is Some && old(self).shape->Some_0@ != response.shape@ ==> fails_with(
                r,
                ErrorKind::Shape,
                shape_changed_msg(old(self).shape->Some_0@, response.shape@),
            ),
            old(self).shape is Some && old(self).shape->Some_0@ == response.shape@
                && old(self).layout != response.layout ==> fails_with(
                r,
                ErrorKind::Shape,
                layout_changed_msg(old(self).layout, response.layout),
            ),
            r is Err ==> final(self).values@ == old(self).values@,
            r is Ok <==> (old(self).shape is None || (old(self).shape->Some_0@ == response.shape@
                && old(self).layout == response.layout)),
            r is Ok ==> final(self).values@ == old(self).values@ + response.values@
                && final(self).shape is Some && final(self).shape->Some_0@ == response.shape@
                && final(self).layout == response.layout,
    {
        let mut response = response;
        match &self.shape {
            Some(expected) => {
                if !same_dims(expected, &response.shape) {
                    let mut m = String::from_str("response shape changed from ");
                    push_debug_list(&mut m, expected.dims());
                    m.append(" to ");
                    push_debug_list(&mut m, response.shape.dims());
                    return Err(VecfitError::Shape(m));
                }
                if self.layout != response.layout {
                    let mut m = String::from_str("response layout changed from ");
                    push_layout_name(&mut m, self.layout);
                    m.append(" to ");
                    push_layout_name(&mut m, response.layout);
                    return Err(VecfitError::Shape(m));
                }
            },
            None => {
                self.layout = response.layout;
                self.shape = Some(response.shape.clone());
            },
        }
        self.values.append(&mut response.values);
        Ok(())
    }

    /// The gathered values with their shape (a scalar when nothing was pushed) and layout.
    pub fn finish(self) -> (r: (Vec<T>, Shape, Layout))
        ensures
            r.0@ == self.values@,
            self.shape is Some ==> r.1@ == self.shape->Some_0@,
            self.shape is None ==> r.1@ == Seq::<usize>::empty(),
            r.2 == self.layout,
    {
        let shape = match self.shape {
            Some(s) => s,
            None => Shape::scalar(),
        };
        (self.values, shape, self.layout)
    }
}

/// Reading a row-major flattening back as a matrix gives the rows.
pub proof fn law_rows_roundtrip<T>(rows: Seq<Seq<T>>)
    requires
        rows_ok(rows),
    ensures
        flatten(rows).len() == rows.len() * rows[0].len(),
        forall|i: int, j: int|
            0 <= i < rows.len() && 0 <= j < rows[0].len() ==> flatten(rows)[flat_index(
                Layout::RowMajor,
                rows.len() as int,
                rows[0].len() as int,
                i,
                j,
            )] == #[trigger] rows[i][j],
{
    lemma_flatten_rows(rows, rows.len() as int, rows[0].len() as int);
    assert(rows.take(rows.len() as int) == rows);
}

proof fn lemma_flatten_rows<T>(rows: Seq<Seq<T>>, n: int, cols: int)
    requires
        0 <= n <= rows.len(),
        forall|k: int| 0 <= k < rows.len() ==> #[trigger] rows[k].len() == cols,
        cols >= 0,
    ensures
        flatten(rows.take(n)).len() == n * cols,
        forall|i: int, j: int|
            0 <= i < n && 0 <= j < cols ==> flatten(rows.take(n))[i * cols + j] == #[trigger] rows[i][j],
    decreases n,
{
    if n == 0 {
        assert(rows.take(0) == Seq::<Seq<T>>::empty());
    } else {
        lemma_flatten_rows(rows, n - 1, cols);
        let t = rows.take(n);
        assert(t.drop_last() == rows.take(n - 1));
        assert(t.last() == rows[n - 1]);
        let prev = flatten(rows.take(n - 1));
        assert(flatten(t) == prev + rows[n - 1]);
        assert((n - 1) * cols + cols == n * cols) by (nonlinear_arith);
        assert forall|i: int, j: int| 0 <= i < n && 0 <= j < cols implies flatten(t)[i * cols + j]
            == #[trigger] rows[i][j] by {
            if i < n - 1 {
                assert(i * cols + j < (n - 1) * cols) by (nonlinear_arith)
                    requires
                        0 <= i < n - 1,
                        0 <= j < cols,
                ;
                assert(0 <= i * cols + j) by (nonlinear_arith)
                    requires
                        0 <= i,
                        0 <= j,
                        cols >= 0,
                ;
            } else {
                assert(i * cols + j == (n - 1) * cols + j);
            }
        }
    }
    if n == rows.len() {
    }
}

/// The unit value stands for the scalar shape.
impl From<()> for Shape {
    fn from(_unit: ()) -> (s: Shape)
        ensures
            s@ == Seq::<usize>::empty(),
    {
        Shape::scalar()
    }
}

impl vstd::std_specs::convert::FromSpecImpl<()> for Shape {
    open spec fn obeys_from_spec() -> bool {
        false
    }

    closed spec fn from_spec(v: ()) -> Shape {
        arbitrary()
    }
}

/// Each sample's row of a flat `(sample, channel)` buffer, reconstructed with the
/// given shape and layout; the first row that does not fit the shape stops it.
pub fn split_samples<T: Copy>(
    values: &Vec<T>,
    samples: usize,
    channels: usize,
    shape: &Shape,
    layout: Layout,
) -> (r: Result<Vec<ResponseSample<T>>, VecfitError>)
    requires
        samples * channels <= values.len(),
        shape.wf(),
    ensures
        samples > 0 && channels != channel_count(shape@) ==> fails_with(
            r,
            ErrorKind::Shape,
            length_mismatch_msg(channels as nat, shape@),
        ),
        samples == 0 || channels == channel_count(shape@) ==> r is Ok && r->Ok_0.len() == samples
            && (forall|k: int|
            0 <= k < samples ==> (#[trigger] r->Ok_0@[k]).values@ == values@.subrange(
                k * channels,
                k * channels + channels,
            ) && r->Ok_0@[k].shape@ == shape@ && r->Ok_0@[k].layout == layout),
{
    let mut out: Vec<ResponseSample<T>> = Vec::new();
    let mut k: usize = 0;
    while k < samples
        invariant
            k <= samples,
            samples * channels <= values.len(),
            shape.wf(),
            out.len() == k,
            k > 0 ==> channels == channel_count(shape@),
            forall|j: int|
                0 <= j < k ==> (#[trigger] out@[j]).values@ == values@.subrange(
                    j * channels,
                    j * channels + channels,
                ) && out@[j].shape@ == shape@ && out@[j].layout == layout,
        decreases samples - k,
    {
        assert(k * channels + channels <= samples * channels) by (nonlinear_arith)
            requires
                k < samples,
        ;
        let start = k * channels;
        let mut row: Vec<T> = Vec::new();
        let mut c: usize = 0;
        while c < channels
            invariant
                c <= channels,
                start == k * channels,
                start + channels <= values.len(),
                row@ == values@.subrange(start as int, start + c),
            decreases channels - c,
        {
            row.push(values[start + c]);
            assert(values@.subrange(start as int, start + c + 1) == values@.subrange(
                start as int,
                start + c,
            ).push(values@[start + c]));
            c = c + 1;
        }
        let sample = match ResponseSample::new(row, shape.clone(), layout) {
            Ok(s) => s,
            Err(e) => return Err(e),
        };
        out.push(sample);
        k = k + 1;
    }
    Ok(out)
}

/// The flat `(sample, channel)` values regrouped by channel: `r[ch][k]` is the value
/// of channel `ch` at sample `k`.
pub fn transpose_samples<T: Copy>(values: &Vec<T>, samples: usize, channels: usize) -> (r: Vec<
    Vec<T>,
>)
    requires
        samples * channels <= values.len(),
    ensures
        r.len() == channels,
        forall|ch: int| 0 <= ch < channels ==> (#[trigger] r@[ch]).len() == samples,
        forall|ch: int, k: int|
            0 <= ch < channels && 0 <= k < samples ==> #[trigger] r@[ch]@[k] == values@[k * channels
                + ch],
{
    let mut out: Vec<Vec<T>> = Vec::new();
    let mut ch: usize = 0;
    while ch < channels
        invariant
            ch <= channels,
            samples * channels <= values.len(),
            out.len() == ch,
            forall|a: int| 0 <= a < ch ==> (#[trigger] out@[a]).len() == samples,
            forall|a: int, k: int|
                0 <= a < ch && 0 <= k < samples ==> #[trigger] out@[a]@[k] == values@[k * channels
                    + a],
        decreases channels - ch,
    {
        let mut col: Vec<T> = Vec::new();
        let mut k: usize = 0;
        while k < samples
            invariant
                k <= samples,
                ch < channels,
                samples * channels <= values.len(),
                col.len() == k,
                forall|b: int| 0 <= b < k ==> #[trigger] col@[b] == values@[b * channels + ch],
            decreases samples - k,
        {
            assert(k * channels + ch < samples * channels) by (nonlinear_arith)
                requires
                    k < samples,
                    ch < channels,
            ;
            col.push(values[k * channels + ch]);
            k = k + 1;
        }
        out.push(col);
        ch = ch + 1;
    }
    out
}

/// Inferring a shape from a positive channel count keeps the channel count.
pub proof fn law_infer_square_channels(channels: nat)
    requires
        channels > 0,
    ensures
        channels == 1 ==> channel_count(Seq::<usize>::empty()) == channels,
        channels > 1 && is_square(channels) && channels <= usize::MAX ==> channel_count(
            seq![square_root(channels) as usize, square_root(channels) as usize],
        ) == channels,
        channels > 1 && !is_square(channels) && channels <= usize::MAX ==> channel_count(
            seq![channels as usize],
        ) == channels,
{
    let e = Seq::<usize>::empty();
    assert(product(e) == 1);
    if channels > 1 && channels <= usize::MAX {
        let r = square_root(channels);
        if is_square(channels) {
            assert(r <= channels) by (nonlinear_arith)
                requires
                    r * r == channels,
                    channels > 1,
            ;
            let s = seq![r as usize, r as usize];
            assert(s.drop_last() == seq![r as usize]);
            assert(seq![r as usize].drop_last() == e);
            assert(product(seq![r as usize]) == product(e) * r);
            assert(product(s) == product(seq![r as usize]) * r);
        } else {
            let s = seq![channels as usize];
            assert(s.drop_last() == e);
            assert(product(s) == product(e) * channels);
        }
    }
}

/// Both layouts place the entries of a `rows x cols` matrix at distinct positions
/// inside a buffer of `rows * cols` values.
pub proof fn law_flat_index_bijective(layout: Layout, rows: int, cols: int)
    requires
        rows >= 0,
        cols >= 0,
    ensures
        forall|i: int, j: int|
            0 <= i < rows && 0 <= j < cols ==> 0 <= #[trigger] flat_index(layout, rows, cols, i, j)
                < rows * cols,
        forall|i1: int, j1: int, i2: int, j2: int|
            0 <= i1 < rows && 0 <= j1 < cols && 0 <= i2 < rows && 0 <= j2 < cols && #[trigger] flat_index(
                layout,
                rows,
                cols,
                i1,
                j1,
            ) == #[trigger] flat_index(layout, rows, cols, i2, j2) ==> i1 == i2 && j1 == j2,
{
    assert forall|i: int, j: int| 0 <= i < rows && 0 <= j < cols implies 0 <= #[trigger] flat_index(
        layout,
        rows,
        cols,
        i,
        j,
    ) < rows * cols by {
        match layout {
            Layout::RowMajor => {
                assert(0 <= i * cols + j < rows * cols) by (nonlinear_arith)
                    requires
                        0 <= i < rows,
                        0 <= j < cols,
                ;
            },
            Layout::ColumnMajor => {
                assert(0 <= j * rows + i < rows * cols) by (nonlinear_arith)
                    requires
                        0 <= i < rows,
                        0 <= j < cols,
                ;
            },
        }
    }
    assert forall|i1: int, j1: int, i2: int, j2: int|
        0 <= i1 < rows && 0 <= j1 < cols && 0 <= i2 < rows && 0 <= j2 < cols && #[trigger] flat_index(
            layout,
            rows,
            cols,
            i1,
            j1,
        ) == #[trigger] flat_index(layout, rows, cols, i2, j2) implies i1 == i2 && j1 == j2 by {
        match layout {
            Layout::RowMajor => {
                lemma_unique_digits(i1, j1, i2, j2, cols);
            },
            Layout::ColumnMajor => {
                lemma_unique_digits(j1, i1, j2, i2, rows);
            },
        }
    }
}

proof fn lemma_unique_digits(a1: int, b1: int, a2: int, b2: int, n: int)
    requires
        0 <= b1 < n,
        0 <= b2 < n,
        a1 >= 0,
        a2 >= 0,
        a1 * n + b1 == a2 * n + b2,
    ensures
        a1 == a2,
        b1 == b2,
{
    if a1 < a2 {
        assert(a1 * n + b1 < a2 * n + b2) by (nonlinear_arith)
            requires
                a1 < a2,
                0 <= b1 < n,
                0 <= b2,
        ;
    } else if a2 < a1 {
        assert(a2 * n + b2 < a1 * n + b1) by (nonlinear_arith)
            requires
                a2 < a1,
                0 <= b2 < n,
                0 <= b1,
        ;
    }
}

} // verus!

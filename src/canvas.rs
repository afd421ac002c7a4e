use vstd::prelude::*;


verus! {

/// PPM lines are broken before a value that would make them reach this length.
pub const PPM_LINE_LIMIT: usize = 70;

pub open spec fn digit(d: nat) -> char {
    if d == 0 {
        '0'
    } else if d == 1 {
        '1'
    } else if d == 2 {
        '2'
    } else if d == 3 {
        '3'
    } else if d == 4 {
        '4'
    } else if d == 5 {
        '5'
    } else if d == 6 {
        '6'
    } else if d == 7 {
        '7'
    } else if d == 8 {
        '8'
    } else {
        '9'
    }
}

/// The decimal digits of `n`, without leading zeros.
pub open spec fn decimal(n: nat) -> Seq<char>
    decreases n,
{
    if n < 10 {
        seq![digit(n)]
    } else {
        decimal(n / 10).push(digit(n % 10))
    }
}

/// `P3`, the size, and the largest channel value, one per line.
pub open spec fn ppm_header(width: nat, height: nat) -> Seq<char> {
    seq!['P', '3', '\n'] + decimal(width) + seq![' '] + decimal(height) + seq!['\n', '2', '5', '5', '\n']
}

/// Appends one value and a space to `text`, whose current line holds `used`
/// characters; the line is ended first (its trailing space replaced by a line
/// break) where the value would make it reach the limit. Gives the new text and
/// the length of its current line.
pub open spec fn ppm_step(text: Seq<char>, used: int, value: Seq<char>) -> (Seq<char>, int) {
    if used + value.len() >= PPM_LINE_LIMIT {
        (text.drop_last().push('\n') + value.push(' '), value.len() + 1 as int)
    } else {
        (text + value.push(' '), used + value.len() + 1)
    }
}

/// The text of the first `i` values of a row, each followed by a space.
pub open spec fn row_progress(values: Seq<Seq<char>>, i: nat) -> (Seq<char>, int)
    decreases i,
{
    if i == 0 {
        (Seq::empty(), 0)
    } else {
        let (text, used) = row_progress(values, (i - 1) as nat);
        ppm_step(text, used, values[i - 1])
    }
}

/// A row of values: its lines, the last one ended by a line break.
pub open spec fn row_text(values: Seq<Seq<char>>) -> Seq<char> {
    if values.len() == 0 {
        Seq::empty()
    } else {
        row_progress(values, values.len()).0.drop_last().push('\n')
    }
}

/// The channel values of row `y`, red, green and blue of each pixel in turn.
pub open spec fn row_values(c: Canvas<[u8; 3]>, y: int) -> Seq<Seq<char>> {
    Seq::new((3 * c.width) as nat, |j: int| decimal(c.at(j / 3, y)[j % 3] as nat))
}

/// The text of the first `y` rows.
pub open spec fn rows_text(c: Canvas<[u8; 3]>, y: nat) -> Seq<char>
    decreases y,
{
    if y == 0 {
        Seq::empty()
    } else {
        rows_text(c, (y - 1) as nat) + row_text(row_values(c, y - 1))
    }
}

/// The whole canvas as plain PPM text.
pub open spec fn ppm_text(c: Canvas<[u8; 3]>) -> Seq<char> {
    ppm_header(c.width as nat, c.height as nat) + rows_text(c, c.height as nat)
}

fn digit_char(d: usize) -> (r: char)
    requires
        d < 10,
    ensures
        r == digit(d as nat),
{
    if d == 0 {
        '0'
    } else if d == 1 {
        '1'
    } else if d == 2 {
        '2'
    } else if d == 3 {
        '3'
    } else if d == 4 {
        '4'
    } else if d == 5 {
        '5'
    } else if d == 6 {
        '6'
    } else if d == 7 {
        '7'
    } else if d == 8 {
        '8'
    } else {
        '9'
    }
}

fn push_decimal(out: &mut Vec<char>, n: usize)
    ensures
        final(out)@ == old(out)@ + decimal(n as nat),
    decreases n,
{
    if n >= 10 {
        push_decimal(out, n / 10);
    }
    out.push(digit_char(n % 10));
    assert(n >= 10 ==> decimal(n as nat) == decimal((n / 10) as nat).push(digit((n % 10) as nat)));
}

proof fn lemma_byte_decimal_short(n: nat)
    requires
        n < 256,
    ensures
        1 <= decimal(n).len() <= 3,
{
    reveal_with_fuel(decimal, 3);
}

/// Appends one channel value, breaking the line first where it is due.
fn emit_value(out: &mut Vec<char>, line_start: &mut usize, value: u8)
    requires
        *old(line_start) <= old(out)@.len(),
        old(out)@.len() - *old(line_start) <= PPM_LINE_LIMIT,
        old(out)@.len() - *old(line_start) >= PPM_LINE_LIMIT - 3 ==> old(out)@.len() > 0,
    ensures
        (*final(out))@ == ppm_step(old(out)@, old(out)@.len() - *old(line_start), decimal(value as nat)).0,
        final(out)@.len() - *final(line_start) == ppm_step(
            old(out)@,
            old(out)@.len() - *old(line_start),
            decimal(value as nat),
        ).1,
        *final(line_start) <= final(out)@.len(),
        final(out)@.len() - *final(line_start) <= PPM_LINE_LIMIT,
        final(out)@.len() > 0,
        final(out)@.last() == ' ',
{
    proof {
        lemma_byte_decimal_short(value as nat);
    }
    let mut digits: Vec<char> = Vec::new();
    push_decimal(&mut digits, value as usize);
    assert(digits@ =~= decimal(value as nat));
    if out.len() - *line_start + digits.len() >= PPM_LINE_LIMIT {
        out.pop();
        out.push('\n');
        *line_start = out.len();
    }
    let ghost before = out@;
    let mut k: usize = 0;
    while k < digits.len()
        invariant
            0 <= k <= digits@.len(),
            out@ == before + digits@.subrange(0, k as int),
            *line_start <= before.len(),
        decreases digits@.len() - k,
    {
        out.push(digits[k]);
        assert(digits@.subrange(0, k + 1) =~= digits@.subrange(0, k as int).push(digits@[k as int]));
        k = k + 1;
    }
    out.push(' ');
    assert(digits@.subrange(0, k as int) =~= digits@);
    assert(out@ =~= before + digits@.push(' '));
}

/// A grid of pixels, stored row by row.
pub struct Canvas<C> {
    pub width: usize,
    pub height: usize,
    pub canvas: Vec<C>,
}

impl<C: Copy> View for Canvas<C> {
    type V = Seq<C>;

    open spec fn view(&self) -> Seq<C> {
        self.canvas@
    }
}

impl<C: Copy> Canvas<C> {
    pub open spec fn well_formed(&self) -> bool {
        self@.len() == self.width * self.height
    }

    /// The pixel at column `x` of row `y`.
    pub open spec fn at(&self, x: int, y: int) -> C {
        self@[y * self.width + x]
    }

    /// A canvas of the given size with every pixel set to `fill`.
    pub fn new(width: usize, height: usize, fill: C) -> (r: Canvas<C>)
        requires
            width * height <= usize::MAX,
        ensures
            r.width == width,
            r.height == height,
            r.well_formed(),
            forall|i: int| 0 <= i < r@.len() ==> #[trigger] r@[i] == fill,
            forall|x: int, y: int| 0 <= x < width && 0 <= y < height ==> #[trigger] r.at(x, y) == fill,
    {
        let total = width * height;
        let mut canvas: Vec<C> = Vec::new();
        let mut i: usize = 0;
        while i < total
            invariant
                0 <= i <= total,
                canvas@.len() == i,
                forall|k: int| 0 <= k < i ==> #[trigger] canvas@[k] == fill,
            decreases total - i,
        {
            canvas.push(fill);
            i = i + 1;
        }
        let r = Canvas { width, height, canvas };
        assert forall|x: int, y: int| 0 <= x < width && 0 <= y < height implies #[trigger] r.at(x, y)
            == fill by {
            r.lemma_position_in_range(x, y);
        }
        r
    }

    proof fn lemma_position_in_range(&self, x: int, y: int)
        requires
            0 <= x < self.width,
            0 <= y < self.height,
        ensures
            0 <= y * self.width <= y * self.width + x < self.width * self.height,
    {
        assert(y * self.width + x < (y + 1) * self.width) by (nonlinear_arith)
            requires
                0 <= x < self.width,
                0 <= y,
        ;
        assert((y + 1) * self.width <= self.height * self.width) by (nonlinear_arith)
            requires
                y + 1 <= self.height,
                0 <= self.width,
        ;
        assert(0 <= y * self.width) by (nonlinear_arith)
            requires
                0 <= y,
                0 <= self.width,
        ;
    }

    pub fn write_pixel(&mut self, x: usize, y: usize, colour: C)
        requires
            old(self).well_formed(),
            x < old(self).width,
            y < old(self).height,
        ensures
            final(self).well_formed(),
            final(self).width == old(self).width,
            final(self).height == old(self).height,
            final(self)@ == old(self)@.update(y * old(self).width + x, colour),
            final(self).at(x as int, y as int) == colour,
            forall|i: int, j: int|
                0 <= i < old(self).width && 0 <= j < old(self).height && (i != x || j != y)
                    ==> #[trigger] final(self).at(i, j) == old(self).at(i, j),
    {
        let _pixel_count = self.canvas.len();
        let ghost before = self@;
        proof {
            self.lemma_position_in_range(x as int, y as int);
        }
        let index = y * self.width + x;
        self.canvas.set(index, colour);
        proof {
            let w = self.width as int;
            assert forall|i: int, j: int|
                0 <= i < w && 0 <= j < self.height && (i != x || j != y) implies #[trigger] self.at(i, j)
                == before[j * w + i] by {
                self.lemma_position_in_range(i, j);
                lemma_distinct_positions(w, i, j, x as int, y as int);
            }
        }
    }

    pub fn pixel_at(&self, x: usize, y: usize) -> (r: C)
        requires
            self.well_formed(),
            x < self.width,
            y < self.height,
        ensures
            r == self.at(x as int, y as int),
    {
        let _pixel_count = self.canvas.len();
        proof {
            self.lemma_position_in_range(x as int, y as int);
        }
        self.canvas[y * self.width + x]
    }
}

proof fn lemma_progress_shape(values: Seq<Seq<char>>, i: nat)
    requires
        i <= values.len(),
        forall|j: int| 0 <= j < i ==> 1 <= #[trigger] values[j].len() <= 3,
    ensures
        0 <= row_progress(values, i).1 <= row_progress(values, i).0.len(),
        row_progress(values, i).1 <= PPM_LINE_LIMIT,
        i == 0 ==> row_progress(values, i).0.len() == 0,
        i > 0 ==> row_progress(values, i).0.len() > 0 && row_progress(values, i).0.last() == ' ',
    decreases i,
{
    if i > 0 {
        lemma_progress_shape(values, (i - 1) as nat);
        assert(1 <= values[i - 1].len() <= 3);
    }
}

/// A step taken after earlier text leaves that text alone.
proof fn lemma_step_after(before: Seq<char>, text: Seq<char>, used: int, value: Seq<char>)
    requires
        0 <= used <= text.len(),
        value.len() <= 3,
    ensures
        ppm_step(before + text, used, value).0 == before + ppm_step(text, used, value).0,
        ppm_step(before + text, used, value).1 == ppm_step(text, used, value).1,
{
    if used + value.len() >= PPM_LINE_LIMIT {
        assert((before + text).drop_last() =~= before + text.drop_last());
        assert((before + text).drop_last().push('\n') + value.push(' ') =~= before + (text.drop_last().push(
            '\n',
        ) + value.push(' ')));
    } else {
        assert((before + text) + value.push(' ') =~= before + (text + value.push(' ')));
    }
}

/// Two pixels of a row-major grid share no storage position.
proof fn lemma_distinct_positions(w: int, i: int, j: int, x: int, y: int)
    requires
        0 <= i < w,
        0 <= x < w,
        0 <= j,
        0 <= y,
        i != x || j != y,
    ensures
        j * w + i != y * w + x,
{
    if j == y {
        assert(j * w == y * w);
    } else if j < y {
        assert((j + 1) * w <= y * w) by (nonlinear_arith)
            requires
                j + 1 <= y,
                0 <= w,
        ;
        assert((j + 1) * w == j * w + w) by (nonlinear_arith);
    } else {
        assert((y + 1) * w <= j * w) by (nonlinear_arith)
            requires
                y + 1 <= j,
                0 <= w,
        ;
        assert((y + 1) * w == y * w + w) by (nonlinear_arith);
    }
}

/// Relies on `String`'s `FromIterator<char>`: the characters, in order.
#[verifier::external_body]
fn string_from_chars(chars: &Vec<char>) -> (r: String)
    ensures
        r@ == chars@,
{
    chars.iter().collect()
}

impl Canvas<[u8; 3]> {
    /// The canvas as plain PPM text: a header, then each row's channel
    /// values, lines broken before they would reach the limit.
    pub fn to_ppm(&self) -> (r: String)
        requires
            self.well_formed(),
        ensures
            r@ == ppm_text(*self),
    {
        let mut out: Vec<char> = Vec::new();
        out.push('P');
        out.push('3');
        out.push('\n');
        push_decimal(&mut out, self.width);
        out.push(' ');
        push_decimal(&mut out, self.height);
        out.push('\n');
        out.push('2');
        out.push('5');
        out.push('5');
        out.push('\n');
        assert(out@ =~= ppm_header(self.width as nat, self.height as nat) + rows_text(*self, 0));
        let mut y: usize = 0;
        while y < self.height
            invariant
                self.well_formed(),
                0 <= y <= self.height,
                out@ == ppm_header(self.width as nat, self.height as nat) + rows_text(*self, y as nat),
                out@.len() > 0,
                out@.last() == '\n',
            decreases self.height - y,
        {
            let ghost before = out@;
            let ghost values = row_values(*self, y as int);
            assert forall|j: int| 0 <= j < values.len() implies 1 <= #[trigger] values[j].len() <= 3 by {
                lemma_byte_decimal_short(self.at(j / 3, y as int)[j % 3] as nat);
            }
            let mut line_start = out.len();
            proof {
                lemma_progress_shape(values, 0);
                assert(out@ =~= before + row_progress(values, 0).0);
            }
            let mut x: usize = 0;
            while x < self.width
                invariant
                    self.well_formed(),
                    y < self.height,
                    0 <= x <= self.width,
                    values == row_values(*self, y as int),
                    values.len() == 3 * self.width,
                    forall|j: int| 0 <= j < values.len() ==> 1 <= #[trigger] values[j].len() <= 3,
                    out@ == before + row_progress(values, (3 * x) as nat).0,
                    line_start <= out@.len(),
                    out@.len() - line_start == row_progress(values, (3 * x) as nat).1,
                    before.len() > 0,
                    before.last() == '\n',
                decreases self.width - x,
            {
                let pixel = self.pixel_at(x, y);
                let ghost i = (3 * x) as nat;
                proof {
                    lemma_progress_shape(values, i);
                    lemma_progress_shape(values, i + 1nat);
                    lemma_progress_shape(values, i + 2nat);
                    assert(values[i as int] == decimal(pixel[0] as nat));
                    assert(values[i + 1int] == decimal(pixel[1] as nat));
                    assert(values[i + 2int] == decimal(pixel[2] as nat));
                    let (t0, u0) = row_progress(values, i);
                    lemma_step_after(before, t0, u0, values[i as int]);
                    let (t1, u1) = row_progress(values, i + 1nat);
                    lemma_step_after(before, t1, u1, values[i + 1int]);
                    let (t2, u2) = row_progress(values, i + 2nat);
                    lemma_step_after(before, t2, u2, values[i + 2int]);
                }
                emit_value(&mut out, &mut line_start, pixel[0]);
                emit_value(&mut out, &mut line_start, pixel[1]);
                emit_value(&mut out, &mut line_start, pixel[2]);
                x = x + 1;
            }
            proof {
                lemma_progress_shape(values, (3 * x) as nat);
            }
            out.pop();
            out.push('\n');
            proof {
                let t = row_progress(values, values.len()).0;
                assert(values.len() == 3 * x);
                if values.len() == 0 {
                    assert(out@ =~= before);
                } else {
                    assert(out@ =~= before + t.drop_last().push('\n'));
                }
                assert(out@ =~= ppm_header(self.width as nat, self.height as nat) + rows_text(
                    *self,
                    (y + 1) as nat,
                ));
            }
            y = y + 1;
        }
        string_from_chars(&out)
    }
}

} // verus!

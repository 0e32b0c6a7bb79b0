use vstd::prelude::*;
use crate::canvas::Canvas;

verus! {

/// Longest a PPM text line may be: a line is flushed before it would reach it.
pub const MAX_LINE_LEN: usize = 70;

/// A pixel whose three channels are already scaled to `0..=255`.
#[derive(Debug, Clone, Copy, PartialEq, Eq, Structural)]
pub struct Rgb8 {
    pub r: u8,
    pub g: u8,
    pub b: u8,
}

/// The character of the decimal digit `d` (below ten).
pub open spec fn digit_char(d: nat) -> char {
    if d == 0 {
        '0'
    } else if d == 1 {
        '1'
    } else if d == 2 {
        '2'
    } else if d == 3 {
        '3'
    } else if d == 4 {
        '4'
    } else if d == 5 {
        '5'
    } else if d == 6 {
        '6'
    } else if d == 7 {
        '7'
    } else if d == 8 {
        '8'
    } else {
        '9'
    }
}

/// The decimal representation of `n`, without leading zeros.
pub open spec fn decimal(n: nat) -> Seq<char>
    decreases n,
{
    if n < 10 {
        seq![digit_char(n)]
    } else {
        decimal(n / 10) + seq![digit_char(n % 10)]
    }
}

/// The text of one channel value in the pixel data: its decimal digits and a
/// separating space.
pub open spec fn channel_token(v: u8) -> Seq<char> {
    decimal(v as nat) + seq![' ']
}

/// The channel tokens of a run of pixels, red, green then blue for each.
pub open spec fn pixel_tokens(pixels: Seq<Rgb8>) -> Seq<Seq<char>>
    decreases pixels.len(),
{
    if pixels.len() == 0 {
        Seq::empty()
    } else {
        seq![channel_token(pixels[0].r), channel_token(pixels[0].g), channel_token(pixels[0].b)]
            + pixel_tokens(pixels.drop_first())
    }
}

/// The lines produced by appending `tokens` one by one to the partial line
/// `line`, starting a new line whenever the next token would make the
/// current one reach `MAX_LINE_LEN` characters; the last partial line is kept.
pub open spec fn wrap_lines(tokens: Seq<Seq<char>>, line: Seq<char>) -> Seq<Seq<char>>
    decreases tokens.len(),
{
    if tokens.len() == 0 {
        seq![line]
    } else if line.len() + tokens[0].len() >= MAX_LINE_LEN {
        seq![line] + wrap_lines(tokens.drop_first(), tokens[0])
    } else {
        wrap_lines(tokens.drop_first(), line + tokens[0])
    }
}

/// Row `y` of a canvas, from left to right.
pub open spec fn canvas_row(canvas: Canvas<Rgb8>, y: int) -> Seq<Rgb8> {
    Seq::new(canvas.spec_width(), |x: int| canvas.pixel(x, y))
}

/// The text lines that encode row `y` of a canvas.
pub open spec fn row_lines(canvas: Canvas<Rgb8>, y: int) -> Seq<Seq<char>> {
    wrap_lines(pixel_tokens(canvas_row(canvas, y)), Seq::empty())
}

/// The text lines that encode the first `n` rows of a canvas, top to bottom.
pub open spec fn pixel_lines(canvas: Canvas<Rgb8>, n: nat) -> Seq<Seq<char>>
    decreases n,
{
    if n == 0 {
        Seq::empty()
    } else {
        pixel_lines(canvas, (n - 1) as nat) + row_lines(canvas, n - 1)
    }
}

/// The three header lines of a plain PPM image of the given size.
pub open spec fn header_lines(width: nat, height: nat) -> Seq<Seq<char>> {
    seq!["P3"@, decimal(width) + seq![' '] + decimal(height), "255"@]
}

/// Every line of the PPM encoding of a canvas.
pub open spec fn ppm_lines(canvas: Canvas<Rgb8>) -> Seq<Seq<char>> {
    header_lines(canvas.spec_width(), canvas.spec_height()) + pixel_lines(canvas, canvas.spec_height())
}

/// The text of a sequence of lines, each ended by a newline.
pub open spec fn joined_lines(lines: Seq<Seq<char>>) -> Seq<char>
    decreases lines.len(),
{
    if lines.len() == 0 {
        Seq::empty()
    } else {
        joined_lines(lines.drop_last()) + lines.last() + seq!['\n']
    }
}

/// The text of a PPM document made of `lines`: each line ended by a newline,
/// and a blank line at the end.
pub open spec fn document(lines: Seq<Seq<char>>) -> Seq<char> {
    joined_lines(lines) + seq!['\n']
}

/// The character sequences held by a list of strings.
pub open spec fn lines_of(rows: Seq<String>) -> Seq<Seq<char>> {
    rows.map_values(|s: String| s@)
}

proof fn lemma_decimal_len(n: nat)
    ensures
        1 <= decimal(n).len() <= n + 1,
        n < 10 ==> decimal(n).len() == 1,
        n < 100 ==> decimal(n).len() <= 2,
        n < 1000 ==> decimal(n).len() <= 3,
    decreases n,
{
    if n >= 10 {
        lemma_decimal_len(n / 10);
    }
}

proof fn lemma_wrap_cons(t: Seq<char>, rest: Seq<Seq<char>>, line: Seq<char>)
    ensures
        wrap_lines(seq![t] + rest, line) == if line.len() + t.len() >= MAX_LINE_LEN {
            seq![line] + wrap_lines(rest, t)
        } else {
            wrap_lines(rest, line + t)
        },
{
    let tokens = seq![t] + rest;
    assert(tokens.drop_first() =~= rest);
    assert(tokens[0] == t);
}

/// Every token shorter than `MAX_LINE_LEN` and a partial line shorter than it
/// give lines that are all shorter than it.
proof fn lemma_wrap_lines_short(tokens: Seq<Seq<char>>, line: Seq<char>)
    requires
        line.len() < MAX_LINE_LEN,
        forall|k: int| 0 <= k < tokens.len() ==> (#[trigger] tokens[k]).len() < MAX_LINE_LEN,
    ensures
        forall|i: int|
            0 <= i < wrap_lines(tokens, line).len() ==> (#[trigger] wrap_lines(
                tokens,
                line,
            )[i]).len() < MAX_LINE_LEN,
    decreases tokens.len(),
{
    if tokens.len() > 0 {
        let rest = tokens.drop_first();
        assert forall|k: int| 0 <= k < rest.len() implies (#[trigger] rest[k]).len()
            < MAX_LINE_LEN by {
            assert(rest[k] == tokens[k + 1]);
        }
        if line.len() + tokens[0].len() >= MAX_LINE_LEN {
            lemma_wrap_lines_short(rest, tokens[0]);
            let tail = wrap_lines(rest, tokens[0]);
            assert forall|i: int|
                0 <= i < wrap_lines(tokens, line).len() implies (#[trigger] wrap_lines(
                tokens,
                line,
            )[i]).len() < MAX_LINE_LEN by {
                assert(wrap_lines(tokens, line) == seq![line] + tail);
                if i > 0 {
                    assert(wrap_lines(tokens, line)[i] == tail[i - 1]);
                }
            }
        } else {
            lemma_wrap_lines_short(rest, line + tokens[0]);
            assert(wrap_lines(tokens, line) == wrap_lines(rest, line + tokens[0]));
        }
    } else {
        assert(wrap_lines(tokens, line) == seq![line]);
    }
}

proof fn lemma_pixel_tokens_short(pixels: Seq<Rgb8>)
    ensures
        forall|k: int|
            0 <= k < pixel_tokens(pixels).len() ==> (#[trigger] pixel_tokens(pixels)[k]).len()
                <= 4,
    decreases pixels.len(),
{
    if pixels.len() > 0 {
        let rest = pixels.drop_first();
        lemma_pixel_tokens_short(rest);
        lemma_decimal_len(pixels[0].r as nat);
        lemma_decimal_len(pixels[0].g as nat);
        lemma_decimal_len(pixels[0].b as nat);
        let head = seq![
            channel_token(pixels[0].r),
            channel_token(pixels[0].g),
            channel_token(pixels[0].b),
        ];
        assert forall|k: int|
            0 <= k < pixel_tokens(pixels).len() implies (#[trigger] pixel_tokens(pixels)[k]).len()
            <= 4 by {
            if k >= 3 {
                assert(pixel_tokens(pixels)[k] == pixel_tokens(rest)[k - 3]);
            } else {
                assert(pixel_tokens(pixels)[k] == head[k]);
            }
        }
    }
}

/// Every line of pixel data in the PPM encoding of a canvas is shorter than
/// `MAX_LINE_LEN` characters.
pub proof fn lemma_pixel_lines_short(canvas: Canvas<Rgb8>, n: nat)
    ensures
        forall|i: int|
            0 <= i < pixel_lines(canvas, n).len() ==> (#[trigger] pixel_lines(canvas, n)[i]).len()
                < MAX_LINE_LEN,
    decreases n,
{
    if n > 0 {
        let m = (n - 1) as nat;
        lemma_pixel_lines_short(canvas, m);
        let tokens = pixel_tokens(canvas_row(canvas, m as int));
        lemma_pixel_tokens_short(canvas_row(canvas, m as int));
        lemma_wrap_lines_short(tokens, Seq::empty());
        let front = pixel_lines(canvas, m);
        let back = row_lines(canvas, m as int);
        assert forall|i: int|
            0 <= i < pixel_lines(canvas, n).len() implies (#[trigger] pixel_lines(canvas, n)[i]).len()
            < MAX_LINE_LEN by {
            if i < front.len() {
                assert(pixel_lines(canvas, n)[i] == front[i]);
            } else {
                assert(pixel_lines(canvas, n)[i] == back[i - front.len()]);
            }
        }
    }
}

fn digit_str(d: usize) -> (r: &'static str)
    requires
        d < 10,
    ensures
        r@ == seq![digit_char(d as nat)],
{
    proof {
        reveal_strlit("0");
        reveal_strlit("1");
        reveal_strlit("2");
        reveal_strlit("3");
        reveal_strlit("4");
        reveal_strlit("5");
        reveal_strlit("6");
        reveal_strlit("7");
        reveal_strlit("8");
        reveal_strlit("9");
    }
    match d {
        0 => "0",
        1 => "1",
        2 => "2",
        3 => "3",
        4 => "4",
        5 => "5",
        6 => "6",
        7 => "7",
        8 => "8",
        _ => "9",
    }
}

/// Appends the decimal digits of `n` to `s` and returns how many there were.
fn push_decimal(s: &mut String, n: usize) -> (len: usize)
    ensures
        final(s)@ == old(s)@ + decimal(n as nat),
        len == decimal(n as nat).len(),
    decreases n,
{
    proof {
        lemma_decimal_len(n as nat);
    }
    let mut len: usize = 0;
    if n >= 10 {
        len = push_decimal(s, n / 10);
        proof {
            lemma_decimal_len((n / 10) as nat);
        }
    }
    s.append(digit_str(n % 10));
    proof {
        if n >= 10 {
            assert(final(s)@ =~= old(s)@ + decimal(n as nat));
        } else {
            assert(n % 10 == n);
        }
    }
    len + 1
}

proof fn lemma_lines_of_push(rows: Seq<String>, s: String)
    ensures
        lines_of(rows.push(s)) == lines_of(rows).push(s@),
{
    assert(lines_of(rows.push(s)) =~= lines_of(rows).push(s@));
}

/// Builds the token of channel value `v`, returning it with its length.
fn channel_token_string(v: u8) -> (r: (String, usize))
    ensures
        r.0@ == channel_token(v),
        r.1 == r.0@.len(),
        r.1 <= 4,
{
    let mut token = String::new();
    let len = push_decimal(&mut token, v as usize);
    proof {
        lemma_decimal_len(v as nat);
        reveal_strlit(" ");
    }
    token.append(" ");
    (token, len + 1)
}

/// Feeds the token of channel value `v` to the partial line `line`, which
/// holds `line_len` characters: when the token would make the line reach
/// `MAX_LINE_LEN`, the line is moved to `rows` and the token starts the next
/// one. Returns the new partial line and its length.
fn emit_token(rows: &mut Vec<String>, line: String, line_len: usize, v: u8) -> (r: (String, usize))
    requires
        line_len == line@.len(),
        line_len < MAX_LINE_LEN,
    ensures
        r.1 == r.0@.len(),
        r.1 < MAX_LINE_LEN,
        forall|rest: Seq<Seq<char>>|
            #![trigger wrap_lines(rest, r.0@)]
            lines_of(final(rows)@) + wrap_lines(rest, r.0@) == lines_of(old(rows)@)
                + wrap_lines(seq![channel_token(v)] + rest, line@),
{
    let (token, token_len) = channel_token_string(v);
    let ghost t = token@;
    if line_len + token_len >= MAX_LINE_LEN {
        proof {
            lemma_lines_of_push(rows@, line);
        }
        let ghost old_line = line@;
        rows.push(line);
        proof {
            assert forall|rest: Seq<Seq<char>>|
                #![trigger wrap_lines(rest, t)]
                lines_of(rows@) + wrap_lines(rest, t) == lines_of(old(rows)@)
                    + wrap_lines(seq![t] + rest, old_line) by {
                lemma_wrap_cons(t, rest, old_line);
                assert(lines_of(old(rows)@).push(old_line) + wrap_lines(rest, t) =~= lines_of(
                    old(rows)@,
                ) + (seq![old_line] + wrap_lines(rest, t)));
            }
        }
        (token, token_len)
    } else {
        let mut line = line;
        let ghost old_line = line@;
        line.append(token.as_str());
        proof {
            assert forall|rest: Seq<Seq<char>>|
                #![trigger wrap_lines(rest, line@)]
                lines_of(rows@) + wrap_lines(rest, line@) == lines_of(old(rows)@)
                    + wrap_lines(seq![t] + rest, old_line) by {
                lemma_wrap_cons(t, rest, old_line);
            }
        }
        (line, line_len + token_len)
    }
}

/// A plain-text (P3) PPM image, held as its lines.
pub struct PPMFile {
    pub rows: Vec<String>,
}

impl Default for PPMFile {
    fn default() -> (r: Self)
        ensures
            r.rows@.len() == 0,
    {
        PPMFile { rows: Vec::new() }
    }
}

impl PPMFile {
    /// The PPM encoding of a canvas: the header, then the pixel data row by row.
    pub fn from_canvas(canvas: &Canvas<Rgb8>) -> (r: Self)
        requires
            canvas.wf(),
        ensures
            lines_of(r.rows@) == ppm_lines(*canvas),
    {
        let mut ppm = PPMFile { rows: Vec::new() };
        ppm.add_headers((canvas.width(), canvas.height()));
        ppm.add_pixels(canvas);
        assert(lines_of(ppm.rows@) =~= ppm_lines(*canvas));
        ppm
    }

    /// Appends the three header lines for an image of `size.0` columns and
    /// `size.1` rows.
    pub fn add_headers(&mut self, size: (usize, usize))
        ensures
            lines_of(final(self).rows@) == lines_of(old(self).rows@) + header_lines(
                size.0 as nat,
                size.1 as nat,
            ),
    {
        proof {
            reveal_strlit("P3");
            reveal_strlit(" ");
            reveal_strlit("255");
        }
        let ghost before = self.rows@;
        let mut size_line = String::new();
        push_decimal(&mut size_line, size.0);
        size_line.append(" ");
        push_decimal(&mut size_line, size.1);
        assert(size_line@ =~= decimal(size.0 as nat) + seq![' '] + decimal(size.1 as nat));
        let magic = String::from_str("P3");
        let max_value = String::from_str("255");
        proof {
            lemma_lines_of_push(before, magic);
            lemma_lines_of_push(before.push(magic), size_line);
            lemma_lines_of_push(before.push(magic).push(size_line), max_value);
        }
        self.rows.push(magic);
        self.rows.push(size_line);
        self.rows.push(max_value);
        assert(lines_of(self.rows@) =~= lines_of(before) + header_lines(size.0 as nat, size.1 as nat));
    }

    /// Appends the lines that encode row `y` of `canvas`.
    fn add_row(&mut self, canvas: &Canvas<Rgb8>, y: usize)
        requires
            canvas.wf(),
            y < canvas.spec_height(),
        ensures
            lines_of(final(self).rows@) == lines_of(old(self).rows@) + row_lines(*canvas, y as int),
    {
        let ghost row = canvas_row(*canvas, y as int);
        let width = canvas.width();
        let mut line = String::new();
        let mut line_len: usize = 0;
        let mut x: usize = 0;
        assert(row.subrange(0, width as int) =~= row);
        while x < width
            invariant
                canvas.wf(),
                width == canvas.spec_width(),
                y < canvas.spec_height(),
                x <= width,
                row == canvas_row(*canvas, y as int),
                line_len == line@.len(),
                line_len < MAX_LINE_LEN,
                lines_of(self.rows@) + wrap_lines(
                    pixel_tokens(row.subrange(x as int, width as int)),
                    line@,
                ) == lines_of(old(self).rows@) + row_lines(*canvas, y as int),
            decreases width - x,
        {
            let px = match canvas.get_pixel(x, y) {
                Ok(px) => px,
                Err(_) => {
                    assert(false);
                    return;
                },
            };
            let ghost rest = pixel_tokens(row.subrange(x + 1, width as int));
            let ghost tr = channel_token(px.r);
            let ghost tg = channel_token(px.g);
            let ghost tb = channel_token(px.b);
            proof {
                let here = row.subrange(x as int, width as int);
                assert(here.drop_first() =~= row.subrange(x + 1, width as int));
                assert(here[0] == px);
                assert(pixel_tokens(here) =~= seq![tr] + (seq![tg] + (seq![tb] + rest)));
            }
            let ghost rows0 = lines_of(self.rows@);
            let ghost line0 = line@;
            let (l1, n1) = emit_token(&mut self.rows, line, line_len, px.r);
            let ghost rows1 = lines_of(self.rows@);
            let (l2, n2) = emit_token(&mut self.rows, l1, n1, px.g);
            let ghost rows2 = lines_of(self.rows@);
            let (l3, n3) = emit_token(&mut self.rows, l2, n2, px.b);
            proof {
                assert(lines_of(self.rows@) + wrap_lines(rest, l3@) == rows2 + wrap_lines(
                    seq![tb] + rest,
                    l2@,
                ));
                assert(rows2 + wrap_lines(seq![tb] + rest, l2@) == rows1 + wrap_lines(
                    seq![tg] + (seq![tb] + rest),
                    l1@,
                ));
                assert(rows1 + wrap_lines(seq![tg] + (seq![tb] + rest), l1@) == rows0 + wrap_lines(
                    seq![tr] + (seq![tg] + (seq![tb] + rest)),
                    line0,
                ));
            }
            line = l3;
            line_len = n3;
            x = x + 1;
        }
        proof {
            lemma_lines_of_push(self.rows@, line);
            assert(row.subrange(width as int, width as int) =~= Seq::<Rgb8>::empty());
        }
        self.rows.push(line);
    }

    /// Appends the lines that encode every row of `canvas`, top to bottom.
    fn add_pixels(&mut self, canvas: &Canvas<Rgb8>)
        requires
            canvas.wf(),
        ensures
            lines_of(final(self).rows@) == lines_of(old(self).rows@) + pixel_lines(
                *canvas,
                canvas.spec_height(),
            ),
    {
        let height = canvas.height();
        let mut y: usize = 0;
        while y < height
            invariant
                canvas.wf(),
                height == canvas.spec_height(),
                y <= height,
                lines_of(self.rows@) == lines_of(old(self).rows@) + pixel_lines(*canvas, y as nat),
            decreases height - y,
        {
            self.add_row(canvas, y);
            assert(lines_of(self.rows@) =~= lines_of(old(self).rows@) + pixel_lines(
                *canvas,
                (y + 1) as nat,
            ));
            y = y + 1;
        }
    }

    /// The document text: every line followed by a newline, then a blank line.
    pub fn to_string(&self) -> (r: String)
        ensures
            r@ == document(lines_of(self.rows@)),
    {
        let mut text = String::new();
        let mut i: usize = 0;
        assert(lines_of(self.rows@).subrange(0, 0) =~= Seq::<Seq<char>>::empty());
        while i < self.rows.len()
            invariant
                i <= self.rows@.len(),
                text@ == joined_lines(lines_of(self.rows@).subrange(0, i as int)),
            decreases self.rows@.len() - i,
        {
            let ghost before = text@;
            text.append(self.rows[i].as_str());
            proof {
                reveal_strlit("\n");
            }
            text.append("\n");
            assert(text@ =~= before + self.rows@[i as int]@ + seq!['\n']);
            let ghost done = lines_of(self.rows@).subrange(0, i + 1);
            assert(done.drop_last() =~= lines_of(self.rows@).subrange(0, i as int));
            assert(done.last() == self.rows@[i as int]@);
            i = i + 1;
        }
        assert(lines_of(self.rows@).subrange(0, i as int) =~= lines_of(self.rows@));
        proof {
            reveal_strlit("\n");
        }
        text.append("\n");
        text
    }
}

} // verus!

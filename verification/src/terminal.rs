use vstd::prelude::*;

use crate::position::Position;

verus! {

/// An ANSI palette color index.
#[derive(Clone, Copy, PartialEq, Eq, Structural, Debug)]
pub struct Color {
    pub code: u8,
}

impl Color {
    pub fn new(code: u8) -> (r: Color)
        ensures
            r == (Color { code }),
    {
        Color { code }
    }
}

/// One draw primitive of the render buffer.
pub enum DrawOp {
    Bg(Color),
    Fg(Color),
    MoveTo(Position),
    Text(String),
    FillRect(Position, Position, Color),
}

/// The value of a draw primitive, with text as its character sequence.
pub enum OpView {
    Bg(Color),
    Fg(Color),
    MoveTo(Position),
    Text(Seq<char>),
    FillRect(Position, Position, Color),
}

impl View for DrawOp {
    type V = OpView;

    open spec fn view(&self) -> OpView {
        match self {
            DrawOp::Bg(c) => OpView::Bg(*c),
            DrawOp::Fg(c) => OpView::Fg(*c),
            DrawOp::MoveTo(p) => OpView::MoveTo(*p),
            DrawOp::Text(t) => OpView::Text(t@),
            DrawOp::FillRect(s, e, c) => OpView::FillRect(*s, *e, *c),
        }
    }
}

fn op_dup(op: &DrawOp) -> (r: DrawOp)
    ensures
        r@ == op@,
{
    match op {
        DrawOp::Bg(c) => DrawOp::Bg(*c),
        DrawOp::Fg(c) => DrawOp::Fg(*c),
        DrawOp::MoveTo(p) => DrawOp::MoveTo(*p),
        DrawOp::Text(t) => DrawOp::Text(t.clone()),
        DrawOp::FillRect(s, e, c) => DrawOp::FillRect(*s, *e, *c),
    }
}

/// An accumulator of draw primitives. Primitives compose by concatenation;
/// the whole buffer is turned into one escape-sequence string and flushed to
/// the terminal once per user-visible update.
pub struct Formatter {
    pub ops: Vec<DrawOp>,
}

impl View for Formatter {
    type V = Seq<OpView>;

    open spec fn view(&self) -> Seq<OpView> {
        self.ops@.map_values(|op: DrawOp| op@)
    }
}

impl Formatter {
    pub fn new() -> (r: Self)
        ensures
            r@ == Seq::<OpView>::empty(),
    {
        let r = Formatter { ops: Vec::new() };
        proof {
            assert(r@ =~= Seq::<OpView>::empty());
        }
        r
    }

    pub fn bg_color(self, color: &Color) -> (r: Self)
        ensures
            r@ == self@.push(OpView::Bg(*color)),
    {
        let mut ops = self.ops;
        let ghost prev = ops@.map_values(|op: DrawOp| op@);
        ops.push(DrawOp::Bg(*color));
        let r = Formatter { ops };
        proof {
            assert(r@ =~= prev.push(OpView::Bg(*color)));
        }
        r
    }

    pub fn fg_color(self, color: &Color) -> (r: Self)
        ensures
            r@ == self@.push(OpView::Fg(*color)),
    {
        let mut ops = self.ops;
        let ghost prev = ops@.map_values(|op: DrawOp| op@);
        ops.push(DrawOp::Fg(*color));
        let r = Formatter { ops };
        proof {
            assert(r@ =~= prev.push(OpView::Fg(*color)));
        }
        r
    }

    pub fn go_to(self, position: Position) -> (r: Self)
        ensures
            r@ == self@.push(OpView::MoveTo(position)),
    {
        let mut ops = self.ops;
        let ghost prev = ops@.map_values(|op: DrawOp| op@);
        ops.push(DrawOp::MoveTo(position));
        let r = Formatter { ops };
        proof {
            assert(r@ =~= prev.push(OpView::MoveTo(position)));
        }
        r
    }

    pub fn text(self, text: String) -> (r: Self)
        ensures
            r@ == self@.push(OpView::Text(text@)),
    {
        let ghost t = text@;
        let mut ops = self.ops;
        let ghost prev = ops@.map_values(|op: DrawOp| op@);
        ops.push(DrawOp::Text(text));
        let r = Formatter { ops };
        proof {
            assert(r@ =~= prev.push(OpView::Text(t)));
        }
        r
    }

    /// Queue a filled rectangle between the two corners.
    pub fn create_box(self, start: &Position, end: &Position, color: &Color) -> (r: Self)
        ensures
            r@ == self@.push(OpView::FillRect(*start, *end, *color)),
    {
        let mut ops = self.ops;
        let ghost prev = ops@.map_values(|op: DrawOp| op@);
        ops.push(DrawOp::FillRect(*start, *end, *color));
        let r = Formatter { ops };
        proof {
            assert(r@ =~= prev.push(OpView::FillRect(*start, *end, *color)));
        }
        r
    }

    /// Append all of `other`'s primitives after this buffer's own.
    pub fn append(&mut self, other: &Formatter)
        ensures
            final(self)@ == old(self)@ + other@,
    {
        let n = other.ops.len();
        let mut i: usize = 0;
        while i < n
            invariant
                n == other.ops.len(),
                i <= n,
                self@ == old(self)@ + other@.take(i as int),
            decreases n - i,
        {
            let ghost prev = self@;
            self.ops.push(op_dup(&other.ops[i]));
            i = i + 1;
            proof {
                assert(self@ =~= prev.push(other@[i - 1]));
                assert(old(self)@ + other@.take(i as int) =~= (old(self)@ + other@.take(
                    i as int - 1,
                )).push(other@[i - 1]));
            }
        }
        proof {
            assert(other@.take(n as int) =~= other@);
        }
    }

    /// The two buffers, one after the other.
    pub fn concat(self, other: &Formatter) -> (r: Self)
        ensures
            r@ == self@ + other@,
    {
        let mut joined = self;
        joined.append(other);
        joined
    }
}

// What a primitive writes to the terminal. The escape vocabulary itself is
// termion's; each kind of escape text is named by an uninterpreted function
// below and produced by the wrapper beside it.
pub uninterp spec fn bg_escape(code: u8) -> Seq<char>;

pub uninterp spec fn fg_escape(code: u8) -> Seq<char>;

pub uninterp spec fn goto_escape(x: int, y: int) -> Seq<char>;

/// Relies on termion::color::AnsiValue::bg_string: the escape text is a
/// function of the color code alone.
#[verifier::external_body]
fn bg_escape_str(code: u8) -> (r: String)
    ensures
        r@ == bg_escape(code),
{
    termion::color::AnsiValue(code).bg_string()
}

/// Relies on termion::color::AnsiValue::fg_string: the escape text is a
/// function of the color code alone.
#[verifier::external_body]
fn fg_escape_str(code: u8) -> (r: String)
    ensures
        r@ == fg_escape(code),
{
    termion::color::AnsiValue(code).fg_string()
}

/// Relies on the From<termion::cursor::Goto> impl for String: the escape
/// text is a function of the two coordinates alone.
#[verifier::external_body]
fn goto_escape_str(x: u16, y: u16) -> (r: String)
    ensures
        r@ == goto_escape(x as int, y as int),
{
    String::from(termion::cursor::Goto(x, y))
}

pub open spec fn spaces_seq(n: int) -> Seq<char> {
    Seq::new(if n < 0 {
        0
    } else {
        n as nat
    }, |i: int| ' ')
}

/// The rows of a filled rectangle: each row moves the cursor to the row
/// start and writes one cell-wide blank per column.
pub open spec fn fill_rows(x: int, y: int, rows: int, width: int) -> Seq<char>
    decreases rows,
{
    if rows <= 0 {
        Seq::empty()
    } else {
        goto_escape(x, y) + spaces_seq(width) + fill_rows(x, y + 1, rows - 1, width)
    }
}

pub open spec fn fill_rect_chars(start: Position, end: Position, color: Color) -> Seq<char> {
    if start.x <= end.x && start.y <= end.y {
        bg_escape(color.code) + fill_rows(
            start.x as int,
            start.y as int,
            end.y - start.y + 1,
            end.x - start.x + 1,
        )
    } else {
        Seq::empty()
    }
}

pub open spec fn render_op(op: OpView) -> Seq<char> {
    match op {
        OpView::Bg(c) => bg_escape(c.code),
        OpView::Fg(c) => fg_escape(c.code),
        OpView::MoveTo(p) => goto_escape(p.x as int, p.y as int),
        OpView::Text(t) => t,
        OpView::FillRect(s, e, c) => fill_rect_chars(s, e, c),
    }
}

/// The escape text of a whole buffer: each primitive's text in order.
pub open spec fn render_ops(ops: Seq<OpView>) -> Seq<char>
    decreases ops.len(),
{
    if ops.len() == 0 {
        Seq::empty()
    } else {
        render_ops(ops.drop_last()) + render_op(ops.last())
    }
}

proof fn lemma_fill_rows_snoc(x: int, y: int, rows: int, width: int)
    requires
        rows >= 0,
    ensures
        fill_rows(x, y, rows + 1, width) == fill_rows(x, y, rows, width) + goto_escape(x, y + rows)
            + spaces_seq(width),
    decreases rows,
{
    if rows == 0 {
        assert(fill_rows(x, y + 1, 0, width) =~= Seq::<char>::empty());
        assert(fill_rows(x, y, 0, width) =~= Seq::<char>::empty());
        assert(fill_rows(x, y, 1, width) =~= fill_rows(x, y, 0, width) + goto_escape(x, y)
            + spaces_seq(width));
    } else {
        lemma_fill_rows_snoc(x, y + 1, rows - 1, width);
        assert(fill_rows(x, y, rows + 1, width) =~= fill_rows(x, y, rows, width) + goto_escape(
            x,
            y + rows,
        ) + spaces_seq(width));
    }
}

fn spaces(w: u32) -> (r: String)
    ensures
        r@ == spaces_seq(w as int),
{
    let mut s = String::new();
    let mut i: u32 = 0;
    proof {
        reveal_strlit(" ");
    }
    while i < w
        invariant
            i <= w,
            s@ == spaces_seq(i as int),

        decreases w - i,
    {
        s.append(" ");
        i = i + 1;
        proof {
            reveal_strlit(" ");
            assert(s@ =~= spaces_seq(i as int));
        }
    }
    s
}

impl Formatter {
    /// The batched escape-sequence text of this buffer, ready for one write
    /// to the terminal.
    pub fn render(&self) -> (r: String)
        ensures
            r@ == render_ops(self@),
    {
        let mut out = String::new();
        let n = self.ops.len();
        let mut i: usize = 0;
        proof {
            assert(self@.take(0) =~= Seq::<OpView>::empty());
        }
        while i < n
            invariant
                n == self.ops.len(),
                i <= n,
                out@ == render_ops(self@.take(i as int)),
            decreases n - i,
        {
            let ghost prev_ops = self@.take(i as int);
            match &self.ops[i] {
                DrawOp::Bg(c) => {
                    let piece = bg_escape_str(c.code);
                    out.append(piece.as_str());
                },
                DrawOp::Fg(c) => {
                    let piece = fg_escape_str(c.code);
                    out.append(piece.as_str());
                },
                DrawOp::MoveTo(p) => {
                    let piece = goto_escape_str(p.x, p.y);
                    out.append(piece.as_str());
                },
                DrawOp::Text(t) => {
                    out.append(t.as_str());
                },
                DrawOp::FillRect(s, e, c) => {
                    if s.x <= e.x && s.y <= e.y {
                        let piece = bg_escape_str(c.code);
                        out.append(piece.as_str());
                        let width: u32 = e.x as u32 - s.x as u32 + 1;
                        let blank = spaces(width);
                        let rows: u32 = e.y as u32 - s.y as u32 + 1;
                        let mut row: u32 = 0;
                        while row < rows
                            invariant
                                rows == e.y - s.y + 1,
                                width == e.x - s.x + 1,
                                s.x <= e.x,
                                s.y <= e.y,
                                row <= rows,
                                blank@ == spaces_seq(width as int),
                                out@ == render_ops(prev_ops) + bg_escape(c.code) + fill_rows(
                                    s.x as int,
                                    s.y as int,
                                    row as int,
                                    width as int,
                                ),
                            decreases rows - row,
                        {
                            let yy: u16 = (s.y as u32 + row) as u16;
                            let piece = goto_escape_str(s.x, yy);
                            out.append(piece.as_str());
                            out.append(blank.as_str());
                            proof {
                                lemma_fill_rows_snoc(
                                    s.x as int,
                                    s.y as int,
                                    row as int,
                                    width as int,
                                );
                            }
                            row = row + 1;
                        }
                    }
                },
            }
            i = i + 1;
            proof {
                assert(self@.take(i as int).drop_last() =~= prev_ops);
                assert(self@.take(i as int).last() == self@[i - 1]);
            }
        }
        proof {
            assert(self@.take(n as int) =~= self@);
        }
        out
    }
}

} // verus!

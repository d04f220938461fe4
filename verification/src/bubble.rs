//! Framing body lines into a bubble, and the layout entry points.

use crate::glyphs::{glyph_set, GlyphSet, Mood, Style};
use crate::text::{extend_range, extend_repeated, join_with, repeated, rows, to_chars, to_text};
use crate::wrap::{all_within, body_lines, is_plain, layout_body, lemma_body_fits, lemma_short_message_is_body, MIN_WIDTH};
use vstd::prelude::*;

verus! {

/// What to lay out, and how.
pub struct LayoutRequest {
    /// The message.
    pub text: String,
    /// The largest number of characters a body line may hold.
    pub max_width: usize,
    /// Wrap lines that are too long; when off they are truncated instead.
    pub wrap_enabled: bool,
    pub mood: Mood,
    pub style: Style,
}

/// Why a request cannot be laid out.
#[derive(Clone, Copy, Debug, PartialEq, Eq, Structural)]
pub enum LayoutError {
    /// The width leaves no room to split a word.
    WidthTooSmall,
}

/// A framed block of text: a rule, the framed body lines, a rule.
pub struct Bubble {
    pub top: Vec<char>,
    pub rows: Vec<Vec<char>>,
    pub bottom: Vec<char>,
}

/// The characters of a bubble.
pub struct BubbleView {
    pub top: Seq<char>,
    pub rows: Seq<Seq<char>>,
    pub bottom: Seq<char>,
}

impl View for Bubble {
    type V = BubbleView;

    open spec fn view(&self) -> BubbleView {
        BubbleView { top: self.top@, rows: rows(self.rows@), bottom: self.bottom@ }
    }
}

impl LayoutRequest {
    /// A request is valid when its width leaves room to split a word.
    pub open spec fn is_valid(&self) -> bool {
        self.max_width >= MIN_WIDTH
    }
}

impl BubbleView {
    /// The width of the bubble: that of its first framed line.
    pub open spec fn width(self) -> nat {
        if self.rows.len() > 0 {
            self.rows[0].len()
        } else {
            0
        }
    }

    /// Every framed line has the width of the bubble.
    pub open spec fn is_aligned(self) -> bool {
        forall|i: int| 0 <= i < self.rows.len() ==> #[trigger] self.rows[i].len() == self.width()
    }

    /// All lines from top to bottom.
    pub open spec fn lines(self) -> Seq<Seq<char>> {
        seq![self.top] + self.rows + seq![self.bottom]
    }

    /// The lines joined by newlines, with none after the last.
    pub open spec fn rendered(self) -> Seq<char> {
        join_with(self.lines(), '\n')
    }
}

/// The length of the longest of `body`, 0 if there is none.
pub open spec fn widest(body: Seq<Seq<char>>) -> nat
    decreases body.len(),
{
    if body.len() == 0 {
        0
    } else {
        let rest = widest(body.drop_last());
        if body.last().len() > rest {
            body.last().len()
        } else {
            rest
        }
    }
}

/// The common width of the framed lines of `body`: the longest line, a
/// glyph and a space on either side.
pub open spec fn frame_width(body: Seq<Seq<char>>) -> nat {
    widest(body) + 4
}

/// Body line `i` between its glyphs, padded with spaces before the closing
/// glyph to the common width.
pub open spec fn framed_row(g: GlyphSet, style: Style, body: Seq<Seq<char>>, i: int) -> Seq<char> {
    seq![g.left_spec(style, body.len(), i), ' '] + body[i] + repeated(
        ' ',
        (widest(body) - body[i].len() + 1) as nat,
    ) + seq![g.right_spec(style, body.len(), i)]
}

/// A rule spanning `inner` columns: between two corners in the modern
/// style, after one space and without corners in the classic one.
pub open spec fn rule(style: Style, left: char, fill: char, right: char, inner: nat) -> Seq<char> {
    match style {
        Style::Modern => seq![left] + repeated(fill, inner) + seq![right],
        Style::Classic => seq![' '] + repeated(fill, inner),
    }
}

/// The bubble around `body`.
pub open spec fn framed(body: Seq<Seq<char>>, style: Style, mood: Mood) -> BubbleView {
    let g = glyph_set(style, mood);
    let inner = widest(body) + 2;
    BubbleView {
        top: rule(style, g.topleft, g.top_rule, g.topright, inner),
        rows: Seq::new(body.len(), |i: int| framed_row(g, style, body, i)),
        bottom: rule(style, g.botleft, g.bottom_rule, g.botright, inner),
    }
}

/// The bubble for a message.
pub open spec fn layout_spec(
    text: Seq<char>,
    width: nat,
    wrap: bool,
    mood: Mood,
    style: Style,
) -> BubbleView {
    framed(body_lines(text, width, wrap), style, mood)
}

/// A framed line without its glyphs, the spaces beside them and `pad`
/// columns of padding.
pub open spec fn unframed(row: Seq<char>, pad: nat) -> Seq<char> {
    row.subrange(2, row.len() - 2 - pad)
}

/// Each line of `body` is at most `widest(body)` long.
pub proof fn lemma_widest_bounds(body: Seq<Seq<char>>, i: int)
    requires
        0 <= i < body.len(),
    ensures
        body[i].len() <= widest(body),
    decreases body.len(),
{
    if i < body.len() - 1 {
        lemma_widest_bounds(body.drop_last(), i);
    }
}

/// Every framed line has the common width.
pub proof fn lemma_rows_share_width(body: Seq<Seq<char>>, style: Style, mood: Mood)
    ensures
        framed(body, style, mood).rows.len() == body.len(),
        forall|i: int|
            0 <= i < body.len() ==> #[trigger] framed(body, style, mood).rows[i].len()
                == frame_width(body),
{
    assert forall|i: int| 0 <= i < body.len() implies #[trigger] framed(
        body,
        style,
        mood,
    ).rows[i].len() == frame_width(body) by {
        lemma_widest_bounds(body, i);
    }
}

/// Taking the glyphs and the padding away from a framed line leaves the body
/// line it was made from.
pub proof fn lemma_unframe(body: Seq<Seq<char>>, style: Style, mood: Mood, i: int)
    requires
        0 <= i < body.len(),
    ensures
        widest(body) >= body[i].len(),
        unframed(framed(body, style, mood).rows[i], (widest(body) - body[i].len()) as nat)
            == body[i],
{
    lemma_widest_bounds(body, i);
    let g = glyph_set(style, mood);
    let row = framed_row(g, style, body, i);
    let pad = (widest(body) - body[i].len()) as nat;
    assert(row.len() == body[i].len() + pad + 4);
    assert(unframed(row, pad) =~= body[i]);
}

/// Taking the glyphs and the padding away from the framed lines of a
/// laid-out message leaves its body lines, each as it was before framing.
pub proof fn lemma_frame_round_trip(
    text: Seq<char>,
    width: nat,
    wrap: bool,
    mood: Mood,
    style: Style,
    i: int,
)
    requires
        width >= 4,
        0 <= i < body_lines(text, width, wrap).len(),
    ensures
        layout_spec(text, width, wrap, mood, style).rows.len() == body_lines(
            text,
            width,
            wrap,
        ).len(),
        frame_width(body_lines(text, width, wrap)) >= body_lines(text, width, wrap)[i].len() + 4,
        unframed(
            layout_spec(text, width, wrap, mood, style).rows[i],
            (frame_width(body_lines(text, width, wrap)) - 4 - body_lines(
                text,
                width,
                wrap,
            )[i].len()) as nat,
        ) == body_lines(text, width, wrap)[i],
{
    lemma_unframe(body_lines(text, width, wrap), style, mood, i);
}

/// The length of the longest line of `body`.
fn widest_of(body: &Vec<Vec<char>>) -> (w: usize)
    ensures
        w == widest(rows(body@)),
{
    let ghost all = rows(body@);
    let mut w: usize = 0;
    let mut i: usize = 0;
    assert(all.take(0) =~= Seq::<Seq<char>>::empty());
    while i < body.len()
        invariant
            i <= body.len(),
            rows(body@) == all,
            w == widest(all.take(i as int)),
        decreases body.len() - i,
    {
        proof {
            let upto = all.take(i + 1);
            assert(upto.drop_last() =~= all.take(i as int));
            assert(upto.last() == body@[i as int]@);
        }
        if body[i].len() > w {
            w = body[i].len();
        }
        i += 1;
    }
    assert(all.take(body.len() as int) =~= all);
    w
}

/// Draws a rule over `wide + 2` columns.
fn draw_rule(style: Style, left: char, fill: char, right: char, wide: usize) -> (r: Vec<char>)
    ensures
        r@ == rule(style, left, fill, right, (wide + 2) as nat),
{
    let mut r: Vec<char> = Vec::new();
    match style {
        Style::Modern => r.push(left),
        Style::Classic => r.push(' '),
    }
    extend_repeated(&mut r, fill, wide);
    r.push(fill);
    r.push(fill);
    assert(repeated(fill, wide as nat).push(fill).push(fill) =~= repeated(
        fill,
        (wide + 2) as nat,
    ));
    match style {
        Style::Modern => {
            r.push(right);
            assert(r@ =~= rule(style, left, fill, right, (wide + 2) as nat));
        },
        Style::Classic => {
            assert(r@ =~= rule(style, left, fill, right, (wide + 2) as nat));
        },
    }
    r
}

/// Frames `body` with the glyphs of `style` and `mood`.
pub fn frame(body: &Vec<Vec<char>>, style: Style, mood: Mood) -> (b: Bubble)
    ensures
        b@ == framed(rows(body@), style, mood),
        b@.is_aligned(),
        body@.len() > 0 ==> b@.width() == frame_width(rows(body@)),
{
    let ghost all = rows(body@);
    let g = GlyphSet::resolve(style, mood);
    let wide: usize = widest_of(body);
    let count: usize = body.len();
    let mut framed_rows: Vec<Vec<char>> = Vec::new();
    let mut i: usize = 0;
    while i < count
        invariant
            i <= count,
            count == body.len(),
            rows(body@) == all,
            wide == widest(all),
            g == glyph_set(style, mood),
            rows(framed_rows@) == Seq::new(i as nat, |k: int| framed_row(g, style, all, k)),
        decreases count - i,
    {
        let line = &body[i];
        proof {
            assert(line@ == all[i as int]);
            lemma_widest_bounds(all, i as int);
        }
        let mut row: Vec<char> = Vec::new();
        row.push(g.left(style, count, i));
        row.push(' ');
        extend_range(&mut row, line, 0, line.len());
        extend_repeated(&mut row, ' ', wide - line.len());
        row.push(' ');
        row.push(g.right(style, count, i));
        proof {
            assert(line@.subrange(0, line.len() as int) =~= line@);
            assert(repeated(' ', (wide - line.len()) as nat).push(' ') =~= repeated(
                ' ',
                (wide - line.len() + 1) as nat,
            ));
            assert(row@ =~= framed_row(g, style, all, i as int));
        }
        let ghost before = rows(framed_rows@);
        framed_rows.push(row);
        assert(rows(framed_rows@) =~= before.push(framed_row(g, style, all, i as int)));
        assert(rows(framed_rows@) =~= Seq::new(
            (i + 1) as nat,
            |k: int| framed_row(g, style, all, k),
        ));
        i += 1;
    }
    let top = draw_rule(style, g.topleft, g.top_rule, g.topright, wide);
    let bottom = draw_rule(style, g.botleft, g.bottom_rule, g.botright, wide);
    let b = Bubble { top, rows: framed_rows, bottom };
    proof {
        lemma_rows_share_width(all, style, mood);
        assert(b@.rows =~= framed(all, style, mood).rows);
        assert(b@.is_aligned()) by {
            assert forall|i: int| 0 <= i < b@.rows.len() implies #[trigger] b@.rows[i].len()
                == b@.width() by {
                assert(framed(all, style, mood).rows[i].len() == frame_width(all));
                assert(framed(all, style, mood).rows[0].len() == frame_width(all));
            }
        }
    }
    b
}

impl Bubble {
    /// The width of the bubble in characters.
    pub fn width(&self) -> (w: usize)
        ensures
            w == self@.width(),
    {
        if self.rows.len() > 0 {
            self.rows[0].len()
        } else {
            0
        }
    }

    /// The bubble as one string, its lines joined by newlines.
    pub fn render(&self) -> (s: String)
        ensures
            s@ == self@.rendered(),
    {
        let mut out: Vec<char> = Vec::new();
        extend_range(&mut out, &self.top, 0, self.top.len());
        assert(self.top@.subrange(0, self.top.len() as int) =~= self.top@);
        let ghost head = seq![self.top@];
        assert(out@ =~= join_with(head, '\n'));
        let mut i: usize = 0;
        assert(rows(self.rows@).take(0) =~= Seq::<Seq<char>>::empty());
        assert(head + rows(self.rows@).take(0) =~= head);
        while i < self.rows.len()
            invariant
                i <= self.rows.len(),
                head == seq![self.top@],
                out@ == join_with(head + rows(self.rows@).take(i as int), '\n'),
            decreases self.rows.len() - i,
        {
            let row = &self.rows[i];
            let ghost sofar = head + rows(self.rows@).take(i as int);
            out.push('\n');
            extend_range(&mut out, row, 0, row.len());
            proof {
                let next = head + rows(self.rows@).take(i + 1);
                assert(row@.subrange(0, row.len() as int) =~= row@);
                assert(next.drop_last() =~= sofar);
                assert(next.last() == row@);
            }
            i += 1;
        }
        let ghost body = head + rows(self.rows@);
        assert(rows(self.rows@).take(self.rows.len() as int) =~= rows(self.rows@));
        out.push('\n');
        extend_range(&mut out, &self.bottom, 0, self.bottom.len());
        proof {
            let all = self@.lines();
            assert(self.bottom@.subrange(0, self.bottom.len() as int) =~= self.bottom@);
            assert(all.drop_last() =~= body);
            assert(all.last() == self.bottom@);
        }
        to_text(&out)
    }
}

/// A plain message that is no longer than the width is framed as a single
/// line: the opening glyph, a space, the message, a space, the closing glyph.
pub proof fn lemma_short_message_row(
    text: Seq<char>,
    width: nat,
    wrap: bool,
    mood: Mood,
    style: Style,
)
    requires
        width >= 4,
        is_plain(text),
        text.len() <= width,
    ensures
        layout_spec(text, width, wrap, mood, style).rows == seq![
            seq![glyph_set(style, mood).sleft, ' '] + text + seq![
                ' ',
                glyph_set(style, mood).sright,
            ],
        ],
{
    lemma_short_message_is_body(text, width, wrap);
    let body = seq![text];
    let g = glyph_set(style, mood);
    assert(body.drop_last() =~= Seq::<Seq<char>>::empty());
    assert(widest(body.drop_last()) == 0);
    assert(widest(body) == text.len());
    let row = seq![g.sleft, ' '] + text + seq![' ', g.sright];
    assert(framed_row(g, style, body, 0) =~= row);
    assert(framed(body, style, mood).rows =~= seq![row]);
}

/// Lays out the message of `request` and frames it.
///
/// Fails exactly when the width is below [`MIN_WIDTH`]. Otherwise the body
/// has at least one line, none of them longer than the requested width, and
/// all framed lines share one width. A plain message that fits the width is
/// framed as a single line.
pub fn layout(request: &LayoutRequest) -> (r: Result<Bubble, LayoutError>)
    ensures
        !request.is_valid() ==> r == Err::<Bubble, LayoutError>(LayoutError::WidthTooSmall),
        request.is_valid() ==> r is Ok && r->Ok_0@ == layout_spec(
            request.text@,
            request.max_width as nat,
            request.wrap_enabled,
            request.mood,
            request.style,
        ),
        request.is_valid() ==> ({
            let body = body_lines(
                request.text@,
                request.max_width as nat,
                request.wrap_enabled,
            );
            &&& body.len() >= 1
            &&& all_within(body, request.max_width as nat)
            &&& r->Ok_0@.rows.len() == body.len()
            &&& r->Ok_0@.is_aligned()
            &&& r->Ok_0@.width() == frame_width(body)
        }),
        request.is_valid() && is_plain(request.text@) && request.text@.len()
            <= request.max_width ==> r->Ok_0@.rows == seq![
            seq![glyph_set(request.style, request.mood).sleft, ' '] + request.text@ + seq![
                ' ',
                glyph_set(request.style, request.mood).sright,
            ],
        ],
{
    if request.max_width < MIN_WIDTH {
        return Err(LayoutError::WidthTooSmall);
    }
    let text = to_chars(request.text.as_str());
    let body = layout_body(&text, request.max_width, request.wrap_enabled);
    proof {
        lemma_body_fits(request.text@, request.max_width as nat, request.wrap_enabled);
        if is_plain(request.text@) && request.text@.len() <= request.max_width {
            lemma_short_message_row(
                request.text@,
                request.max_width as nat,
                request.wrap_enabled,
                request.mood,
                request.style,
            );
        }
    }
    Ok(frame(&body, request.style, request.mood))
}

/// The mood that goes with the `thinking` flag.
pub open spec fn mood_of(thinking: bool) -> Mood {
    if thinking {
        Mood::Think
    } else {
        Mood::Speak
    }
}

/// The style that goes with the `modern` flag.
pub open spec fn style_of(modern: bool) -> Style {
    if modern {
        Style::Modern
    } else {
        Style::Classic
    }
}

/// Renders the bubble for the message `s`.
pub fn make_bubble(s: String, width: usize, thinking: bool, wrap: bool, modern: bool) -> (r: String)
    requires
        width >= MIN_WIDTH,
    ensures
        r@ == layout_spec(s@, width as nat, wrap, mood_of(thinking), style_of(modern)).rendered(),
{
    let mood = if thinking {
        Mood::Think
    } else {
        Mood::Speak
    };
    let style = if modern {
        Style::Modern
    } else {
        Style::Classic
    };
    let text = to_chars(s.as_str());
    let body = layout_body(&text, width, wrap);
    frame(&body, style, mood).render()
}

} // verus!

//! Splitting a text into runs of one color. A color code is a caret followed
//! by six hexadecimal digits (`^RRGGBB`); it switches the color of the text
//! after it and is not shown itself. `^000000` switches back to the default
//! color and `^000001` to the highlight color. A caret that does not start
//! such a code is ordinary text.

use vstd::prelude::*;

verus! {

/// The color a run of text is drawn in.
#[derive(Clone, Copy, Debug, PartialEq, Eq, Structural)]
pub enum SpanColor {
    /// The color the text attributes came with.
    Inherited,
    /// The default text color (`^000000`).
    Default,
    /// The highlight color (`^000001`).
    Highlight,
    /// Any other code, as red, green and blue.
    Rgb(u8, u8, u8),
}

/// A run of text of one color: the bytes `start..end` of the text.
#[derive(Clone, Copy, Debug, PartialEq, Eq, Structural)]
pub struct ColorSpan {
    pub start: usize,
    pub end: usize,
    pub color: SpanColor,
}

pub open spec fn is_hex_digit(b: u8) -> bool {
    (48 <= b <= 57) || (65 <= b <= 70) || (97 <= b <= 102)
}

pub open spec fn hex_value(b: u8) -> int {
    if 48 <= b <= 57 {
        b - 48
    } else if 65 <= b <= 70 {
        b - 55
    } else {
        b - 87
    }
}

/// Whether a color code starts at byte `p`.
pub open spec fn is_color_code(text: Seq<u8>, p: int) -> bool {
    &&& 0 <= p
    &&& p + 7 <= text.len()
    &&& text[p] == 94
    &&& forall|i: int| p + 1 <= i < p + 7 ==> is_hex_digit(#[trigger] text[i])
}

/// The first color code at or after `from`, or the end of the text.
pub open spec fn next_color_code(text: Seq<u8>, from: int) -> int
    decreases text.len() - from,
{
    if from >= text.len() {
        text.len() as int
    } else if is_color_code(text, from) {
        from
    } else {
        next_color_code(text, from + 1)
    }
}

/// The byte that the hex digits at `p` and `p + 1` spell.
pub open spec fn hex_byte(text: Seq<u8>, p: int) -> int {
    hex_value(text[p]) * 16 + hex_value(text[p + 1])
}

/// The color that the code at `p` switches to.
pub open spec fn code_color(text: Seq<u8>, p: int) -> SpanColor {
    let digits = text.subrange(p + 1, p + 7);
    if digits == seq![48u8, 48, 48, 48, 48, 48] {
        SpanColor::Default
    } else if digits == seq![48u8, 48, 48, 48, 48, 49] {
        SpanColor::Highlight
    } else {
        SpanColor::Rgb(
            hex_byte(text, p + 1) as u8,
            hex_byte(text, p + 3) as u8,
            hex_byte(text, p + 5) as u8,
        )
    }
}

/// The runs of `text` from byte `pos` on, where the text at `pos` is drawn in
/// `color`: each stretch between color codes that holds any text is one run.
pub open spec fn spans_from(text: Seq<u8>, pos: int, color: SpanColor) -> Seq<ColorSpan>
    decreases text.len() - pos,
{
    if pos < 0 || pos >= text.len() {
        Seq::empty()
    } else {
        let code = next_color_code(text, pos);
        if code >= text.len() {
            seq![ColorSpan { start: pos as usize, end: text.len() as usize, color }]
        } else {
            let rest = if pos < code + 7 <= text.len() {
                spans_from(text, code + 7, code_color(text, code))
            } else {
                Seq::empty()
            };
            if code > pos {
                seq![ColorSpan { start: pos as usize, end: code as usize, color }] + rest
            } else {
                rest
            }
        }
    }
}

/// The runs of a whole text drawn in the color its attributes came with.
pub open spec fn color_spans_of(text: Seq<u8>) -> Seq<ColorSpan> {
    spans_from(text, 0, SpanColor::Inherited)
}

/// Whether the byte at `p` continues a multi-byte UTF-8 character.
pub open spec fn is_continuation_byte(b: u8) -> bool {
    128 <= b < 192
}

/// Whether the bytes of a string can be split as the runs are read: the six
/// bytes after each caret either reach the end of the text or end on a
/// character boundary.
pub open spec fn splits_at_carets(text: Seq<u8>) -> bool {
    forall|p: int|
        0 <= p && p + 7 < text.len() && #[trigger] text[p] == 94 ==> !is_continuation_byte(
            text[p + 7],
        )
}

proof fn lemma_next_color_code_bounds(text: Seq<u8>, from: int)
    requires
        0 <= from,
    ensures
        from <= next_color_code(text, from) || from > text.len(),
        next_color_code(text, from) <= text.len(),
        next_color_code(text, from) < text.len() ==> is_color_code(
            text,
            next_color_code(text, from),
        ),
        forall|q: int| from <= q < next_color_code(text, from) ==> !is_color_code(text, q),
    decreases text.len() - from,
{
    if from < text.len() && !is_color_code(text, from) {
        lemma_next_color_code_bounds(text, from + 1);
    }
}

proof fn lemma_next_color_code_skip(text: Seq<u8>, from: int, p: int)
    requires
        0 <= from <= p,
        forall|q: int| from <= q < p ==> !is_color_code(text, q),
    ensures
        next_color_code(text, from) == next_color_code(text, p),
    decreases p - from,
{
    if from < p {
        lemma_next_color_code_skip(text, from + 1, p);
    }
}

fn is_hex_digit_byte(b: u8) -> (hex: bool)
    ensures
        hex == is_hex_digit(b),
{
    (48 <= b && b <= 57) || (65 <= b && b <= 70) || (97 <= b && b <= 102)
}

fn hex_digit_value(b: u8) -> (value: u8)
    requires
        is_hex_digit(b),
    ensures
        value == hex_value(b),
        value < 16,
{
    if b <= 57 {
        b - 48
    } else if b <= 70 {
        b - 55
    } else {
        b - 87
    }
}

fn color_code_at(text: &[u8], p: usize) -> (code: bool)
    ensures
        code == is_color_code(text@, p as int),
{
    if p >= text.len() || text.len() - p < 7 || text[p] != 94 {
        return false;
    }
    let mut i: usize = p + 1;
    while i < p + 7
        invariant
            p + 7 <= text.len(),
            p + 1 <= i <= p + 7,
            forall|j: int| p + 1 <= j < i ==> is_hex_digit(#[trigger] text@[j]),
        decreases p + 7 - i,
    {
        if !is_hex_digit_byte(text[i]) {
            return false;
        }
        i = i + 1;
    }
    true
}

fn find_color_code(text: &[u8], from: usize) -> (code: usize)
    ensures
        code == next_color_code(text@, from as int),
{
    let mut p = from;
    while p < text.len()
        invariant
            from <= p,
            forall|q: int| from <= q < p ==> !is_color_code(text@, q),
        decreases text.len() - p,
    {
        if color_code_at(text, p) {
            proof {
                lemma_next_color_code_skip(text@, from as int, p as int);
            }
            return p;
        }
        p = p + 1;
    }
    proof {
        lemma_next_color_code_skip(text@, from as int, p as int);
    }
    if p > text.len() {
        text.len()
    } else {
        p
    }
}

fn code_color_at(text: &[u8], p: usize) -> (color: SpanColor)
    requires
        is_color_code(text@, p as int),
    ensures
        color == code_color(text@, p as int),
{
    let ghost digits = text@.subrange(p + 1, p + 7);
    assert(p + 7 <= text.len());
    let zeros = text[p + 1] == 48 && text[p + 2] == 48 && text[p + 3] == 48 && text[p + 4] == 48
        && text[p + 5] == 48;
    if zeros && text[p + 6] == 48 {
        assert(digits =~= seq![48u8, 48, 48, 48, 48, 48]);
        SpanColor::Default
    } else if zeros && text[p + 6] == 49 {
        assert(digits =~= seq![48u8, 48, 48, 48, 48, 49]);
        SpanColor::Highlight
    } else {
        assert(digits != seq![48u8, 48, 48, 48, 48, 48] && digits != seq![48u8, 48, 48, 48, 48, 49])
            by {
            if digits == seq![48u8, 48, 48, 48, 48, 48] || digits == seq![48u8, 48, 48, 48, 48, 49] {
                assert(digits[0] == text@[p + 1]);
                assert(digits[1] == text@[p + 2]);
                assert(digits[2] == text@[p + 3]);
                assert(digits[3] == text@[p + 4]);
                assert(digits[4] == text@[p + 5]);
                assert(digits[5] == text@[p + 6]);
            }
        }
        assert(is_hex_digit(text@[p + 1]) && is_hex_digit(text@[p + 2]) && is_hex_digit(text@[p + 3])
            && is_hex_digit(text@[p + 4]) && is_hex_digit(text@[p + 5]) && is_hex_digit(
            text@[p + 6],
        ));
        let red = hex_digit_value(text[p + 1]) * 16 + hex_digit_value(text[p + 2]);
        let green = hex_digit_value(text[p + 3]) * 16 + hex_digit_value(text[p + 4]);
        let blue = hex_digit_value(text[p + 5]) * 16 + hex_digit_value(text[p + 6]);
        SpanColor::Rgb(red, green, blue)
    }
}

/// Whether byte `q` of the text is shown in one of `spans` or belongs to a
/// color code.
pub open spec fn accounted_for(spans: Seq<ColorSpan>, text: Seq<u8>, q: int) -> bool {
    ||| exists|i: int| 0 <= i < spans.len() && #[trigger] spans[i].start <= q < spans[i].end
    ||| exists|c: int| c <= q < c + 7 && #[trigger] is_color_code(text, c)
}

/// The layout of the runs from `pos` on: each run holds text, lies after `pos`
/// and before the end, the runs come in order without overlapping, no run
/// shows the start of a color code, and every byte from `pos` on is shown in a
/// run or belongs to a color code.
pub proof fn lemma_spans_from_layout(text: Seq<u8>, pos: int, color: SpanColor)
    requires
        0 <= pos,
        text.len() <= usize::MAX,
    ensures
        ({
            let spans = spans_from(text, pos, color);
            &&& forall|i: int|
                0 <= i < spans.len() ==> pos <= #[trigger] spans[i].start < spans[i].end <= text.len()
            &&& forall|i: int, j: int|
                0 <= i < j < spans.len() ==> #[trigger] spans[i].end <= #[trigger] spans[j].start
            &&& forall|i: int, q: int|
                0 <= i < spans.len() && #[trigger] spans[i].start <= q < spans[i].end
                    ==> !#[trigger] is_color_code(text, q)
            &&& forall|q: int| pos <= q < text.len() ==> #[trigger] accounted_for(spans, text, q)
        }),
    decreases text.len() - pos,
{
    let spans = spans_from(text, pos, color);
    if pos >= text.len() {
        return;
    }
    lemma_next_color_code_bounds(text, pos);
    let code = next_color_code(text, pos);
    if code >= text.len() {
        let only = ColorSpan { start: pos as usize, end: text.len() as usize, color };
        assert(spans == seq![only]);
        assert forall|q: int| pos <= q < text.len() implies #[trigger] accounted_for(spans, text, q) by {
            assert(spans[0].start <= q < spans[0].end);
        }
        return;
    }
    let next = code_color(text, code);
    lemma_spans_from_layout(text, code + 7, next);
    let rest = spans_from(text, code + 7, next);
    if code > pos {
        let first = ColorSpan { start: pos as usize, end: code as usize, color };
        assert(spans == seq![first] + rest);
        assert forall|i: int| 0 <= i < spans.len() implies pos <= #[trigger] spans[i].start
            < spans[i].end <= text.len() by {
            if i > 0 {
                assert(spans[i] == rest[i - 1]);
            }
        }
        assert forall|i: int, j: int| 0 <= i < j < spans.len() implies #[trigger] spans[i].end
            <= #[trigger] spans[j].start by {
            assert(spans[j] == rest[j - 1]);
            if i > 0 {
                assert(spans[i] == rest[i - 1]);
            }
        }
        assert forall|i: int, q: int| 0 <= i < spans.len() && #[trigger] spans[i].start <= q
            < spans[i].end implies !#[trigger] is_color_code(text, q) by {
            if i > 0 {
                assert(spans[i] == rest[i - 1]);
            }
        }
        assert forall|q: int| pos <= q < text.len() implies #[trigger] accounted_for(spans, text, q) by {
            if q < code {
                assert(spans[0].start <= q < spans[0].end);
            } else if q < code + 7 {
                assert(code <= q < code + 7 && is_color_code(text, code));
            } else {
                assert(accounted_for(rest, text, q));
                if exists|i: int| 0 <= i < rest.len() && #[trigger] rest[i].start <= q < rest[i].end {
                    let i = choose|i: int| 0 <= i < rest.len() && #[trigger] rest[i].start <= q < rest[i].end;
                    assert(spans[i + 1] == rest[i]);
                }
            }
        }
    } else {
        assert(spans == rest);
        assert forall|q: int| pos <= q < text.len() implies #[trigger] accounted_for(spans, text, q) by {
            if q < code + 7 {
                assert(code <= q < code + 7 && is_color_code(text, code));
            } else {
                assert(accounted_for(rest, text, q));
            }
        }
    }
}

/// The runs of a text hold all of it but its color codes: each run holds
/// text, they come in order without overlapping, no run shows the start of a
/// color code, and every byte is shown in a run or belongs to a color code.
pub proof fn lemma_color_spans_layout(text: Seq<u8>)
    requires
        text.len() <= usize::MAX,
    ensures
        ({
            let spans = color_spans_of(text);
            &&& forall|i: int|
                0 <= i < spans.len() ==> #[trigger] spans[i].start < spans[i].end <= text.len()
            &&& forall|i: int, j: int|
                0 <= i < j < spans.len() ==> #[trigger] spans[i].end <= #[trigger] spans[j].start
            &&& forall|i: int, q: int|
                0 <= i < spans.len() && #[trigger] spans[i].start <= q < spans[i].end
                    ==> !#[trigger] is_color_code(text, q)
            &&& forall|q: int| 0 <= q < text.len() ==> #[trigger] accounted_for(spans, text, q)
        }),
{
    lemma_spans_from_layout(text, 0, SpanColor::Inherited);
}

/// The text from byte `pos` on with its color codes taken out, read from
/// left to right: a code is dropped whole, every other byte is kept.
pub open spec fn shown_text(text: Seq<u8>, pos: int) -> Seq<u8>
    decreases text.len() - pos,
{
    if pos < 0 || pos >= text.len() {
        Seq::empty()
    } else if is_color_code(text, pos) {
        shown_text(text, pos + 7)
    } else {
        seq![text[pos]] + shown_text(text, pos + 1)
    }
}

/// The bytes of the runs, one run after the other.
pub open spec fn joined_spans(text: Seq<u8>, spans: Seq<ColorSpan>) -> Seq<u8>
    decreases spans.len(),
{
    if spans.len() == 0 {
        Seq::empty()
    } else {
        text.subrange(spans[0].start as int, spans[0].end as int) + joined_spans(
            text,
            spans.drop_first(),
        )
    }
}

proof fn lemma_shown_text_plain(text: Seq<u8>, from: int, to: int)
    requires
        0 <= from <= to <= text.len(),
        forall|q: int| from <= q < to ==> !is_color_code(text, q),
    ensures
        shown_text(text, from) == text.subrange(from, to) + shown_text(text, to),
    decreases to - from,
{
    if from < to {
        lemma_shown_text_plain(text, from + 1, to);
        assert(text.subrange(from, to) =~= seq![text[from]] + text.subrange(from + 1, to));
    } else {
        assert(text.subrange(from, to) =~= Seq::<u8>::empty());
    }
}

proof fn lemma_spans_from_join(text: Seq<u8>, pos: int, color: SpanColor)
    requires
        0 <= pos,
        text.len() <= usize::MAX,
    ensures
        joined_spans(text, spans_from(text, pos, color)) == shown_text(text, pos),
    decreases text.len() - pos,
{
    let spans = spans_from(text, pos, color);
    if pos >= text.len() {
        return;
    }
    lemma_next_color_code_bounds(text, pos);
    let code = next_color_code(text, pos);
    lemma_shown_text_plain(text, pos, code);
    if code >= text.len() {
        let only = ColorSpan { start: pos as usize, end: text.len() as usize, color };
        assert(spans == seq![only]);
        assert(seq![only].drop_first() =~= Seq::<ColorSpan>::empty());
        assert(joined_spans(text, Seq::<ColorSpan>::empty()) =~= Seq::<u8>::empty());
        assert(joined_spans(text, spans) == text.subrange(pos, text.len() as int) + Seq::<u8>::empty());
        assert(joined_spans(text, spans) =~= text.subrange(pos, text.len() as int));
        assert(shown_text(text, text.len() as int) =~= Seq::<u8>::empty());
        return;
    }
    let next = code_color(text, code);
    lemma_spans_from_join(text, code + 7, next);
    let rest = spans_from(text, code + 7, next);
    assert(shown_text(text, code) == shown_text(text, code + 7));
    if code > pos {
        let first = ColorSpan { start: pos as usize, end: code as usize, color };
        assert(spans == seq![first] + rest);
        assert((seq![first] + rest).drop_first() =~= rest);
        assert(joined_spans(text, spans) == text.subrange(pos, code) + joined_spans(text, rest));
    } else {
        assert(spans == rest);
        assert(text.subrange(pos, code) =~= Seq::<u8>::empty());
    }
}

/// The runs of a text, joined one after the other, give the text with its
/// color codes taken out.
pub proof fn lemma_color_spans_join(text: Seq<u8>)
    requires
        text.len() <= usize::MAX,
    ensures
        joined_spans(text, color_spans_of(text)) == shown_text(text, 0),
{
    lemma_spans_from_join(text, 0, SpanColor::Inherited);
}

/// Reads the runs of a text one at a time.
pub struct ColorSpanIterator {
    text: Vec<u8>,
    position: usize,
    color: SpanColor,
}

impl ColorSpanIterator {
    /// The runs that are still to come.
    pub closed spec fn remaining(&self) -> Seq<ColorSpan> {
        spans_from(self.text@, self.position as int, self.color)
    }

    /// The bytes of the text that is read.
    pub closed spec fn text(&self) -> Seq<u8> {
        self.text@
    }

    pub closed spec fn well_formed(&self) -> bool {
        splits_at_carets(self.text@)
    }

    /// Starts reading `text`, drawn at first in the color its attributes came
    /// with.
    pub fn new(text: &[u8]) -> (iterator: Self)
        requires
            splits_at_carets(text@),
        ensures
            iterator.well_formed(),
            iterator.text() == text@,
            iterator.remaining() == color_spans_of(text@),
    {
        let mut bytes: Vec<u8> = Vec::new();
        let mut i: usize = 0;
        while i < text.len()
            invariant
                i <= text.len(),
                bytes@ == text@.subrange(0, i as int),
            decreases text.len() - i,
        {
            bytes.push(text[i]);
            i = i + 1;
        }
        assert(bytes@ =~= text@);
        ColorSpanIterator { text: bytes, position: 0, color: SpanColor::Inherited }
    }

    /// The next run, if any is left.
    pub fn next(&mut self) -> (span: Option<ColorSpan>)
        requires
            old(self).well_formed(),
        ensures
            final(self).well_formed(),
            final(self).text() == old(self).text(),
            old(self).remaining().len() == 0 ==> span is None && final(self).remaining().len() == 0,
            old(self).remaining().len() > 0 ==> span == Some(old(self).remaining()[0])
                && final(self).remaining() == old(self).remaining().drop_first(),
    {
        let len = self.text.len();
        loop
            invariant
                len == self.text.len(),
                self.text@ == old(self).text@,
                splits_at_carets(self.text@),
                spans_from(self.text@, self.position as int, self.color) == spans_from(
                    old(self).text@,
                    old(self).position as int,
                    old(self).color,
                ),
            decreases len - self.position,
        {
            if self.position >= len {
                return None;
            }
            let start = self.position;
            let code = find_color_code(self.text.as_slice(), start);
            proof {
                lemma_next_color_code_bounds(self.text@, start as int);
            }
            if code >= len {
                self.position = len;
                return Some(ColorSpan { start, end: len, color: self.color });
            }
            if code > start {
                let span = ColorSpan { start, end: code, color: self.color };
                proof {
                    lemma_next_color_code_bounds(self.text@, code as int);
                    assert(next_color_code(self.text@, code as int) == code);
                }
                self.position = code;
                assert(spans_from(self.text@, start as int, span.color) =~= seq![span]
                    + spans_from(self.text@, code as int, span.color));
                return Some(span);
            }
            self.color = code_color_at(self.text.as_slice(), code);
            self.position = code + 7;
        }
    }
}

/// All runs of `text`, in order.
pub fn color_spans(text: &[u8]) -> (spans: Vec<ColorSpan>)
    requires
        splits_at_carets(text@),
    ensures
        spans@ == color_spans_of(text@),
{
    let mut iterator = ColorSpanIterator::new(text);
    let mut spans: Vec<ColorSpan> = Vec::new();
    loop
        invariant
            iterator.well_formed(),
            spans@ + iterator.remaining() == color_spans_of(text@),
        decreases iterator.remaining().len(),
    {
        let ghost before = iterator.remaining();
        match iterator.next() {
            Some(span) => {
                assert(spans@.push(span) + iterator.remaining() =~= spans@ + before);
                spans.push(span);
            },
            None => {
                assert(spans@ + before =~= spans@);
                return spans;
            },
        }
    }
}

} // verus!

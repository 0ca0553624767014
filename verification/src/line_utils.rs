//! Helpers on styled lines of terminal text: owned copies, blank-line
//! detection and line prefixes. Styles and alignments are ratatui's and are
//! carried through unchanged.
use ratatui::layout::Alignment;
use ratatui::style::Style;
use vstd::prelude::*;

use crate::text::chars_of;

verus! {

#[verifier::external_type_specification]
#[verifier::external_body]
pub struct ExStyle(Style);

#[verifier::external_type_specification]
#[verifier::external_body]
pub struct ExAlignment(Alignment);

/// A run of text with one style.
#[derive(Debug)]
pub struct Span {
    pub style: Style,
    pub content: String,
}

/// A line of text: its spans, with the line's own style and alignment.
#[derive(Debug)]
pub struct Line {
    pub style: Style,
    pub alignment: Option<Alignment>,
    pub spans: Vec<Span>,
}

/// The content of a span.
pub struct SpanView {
    pub style: Style,
    pub content: Seq<char>,
}

/// The content of a line.
pub struct LineView {
    pub style: Style,
    pub alignment: Option<Alignment>,
    pub spans: Seq<SpanView>,
}

pub open spec fn spans_view(s: Seq<Span>) -> Seq<SpanView> {
    s.map_values(|x: Span| x@)
}

pub open spec fn lines_view(s: Seq<Line>) -> Seq<LineView> {
    s.map_values(|l: Line| l@)
}

impl View for Span {
    type V = SpanView;

    open spec fn view(&self) -> SpanView {
        SpanView { style: self.style, content: self.content@ }
    }
}

impl View for Line {
    type V = LineView;

    open spec fn view(&self) -> LineView {
        LineView { style: self.style, alignment: self.alignment, spans: spans_view(self.spans@) }
    }
}

fn copy_span(s: &Span) -> (r: Span)
    ensures
        r@ == s@,
{
    Span { style: s.style, content: s.content.clone() }
}

/// An owned copy of `line`.
pub fn line_to_static(line: &Line) -> (r: Line)
    ensures
        r@ == line@,
{
    let mut spans: Vec<Span> = Vec::new();
    let mut i: usize = 0;
    while i < line.spans.len()
        invariant
            i <= line.spans@.len(),
            spans@.len() == i,
            forall|j: int| 0 <= j < i ==> (#[trigger] spans@[j])@ == line.spans@[j]@,
        decreases line.spans.len() - i,
    {
        spans.push(copy_span(&line.spans[i]));
        i = i + 1;
    }
    let r = Line { style: line.style, alignment: line.alignment, spans };
    assert(r@.spans =~= line@.spans);
    r
}

/// Appends owned copies of `src` to `out`.
pub fn push_owned_lines(src: &[Line], out: &mut Vec<Line>)
    ensures
        lines_view(final(out)@) == lines_view(old(out)@) + lines_view(src@),
{
    let ghost start = lines_view(out@);
    let mut i: usize = 0;
    while i < src.len()
        invariant
            i <= src@.len(),
            start == lines_view(old(out)@),
            lines_view(out@) == start + lines_view(src@).take(i as int),
        decreases src.len() - i,
    {
        let ghost before = out@;
        out.push(line_to_static(&src[i]));
        assert(lines_view(out@) =~= lines_view(before).push(src@[i as int]@));
        i = i + 1;
        assert(lines_view(out@) =~= start + lines_view(src@).take(i as int));
    }
    assert(lines_view(src@).take(src@.len() as int) =~= lines_view(src@));
}

/// Every character of `s` is a space.
pub open spec fn spaces_only(s: Seq<char>) -> bool {
    forall|i: int| 0 <= i < s.len() ==> #[trigger] s[i] == ' '
}

fn is_spaces_only(s: &str) -> (r: bool)
    ensures
        r == spaces_only(s@),
{
    let chars = chars_of(s);
    let mut i: usize = 0;
    while i < chars.len()
        invariant
            i <= chars@.len(),
            chars@ == s@,
            forall|j: int| 0 <= j < i ==> #[trigger] chars@[j] == ' ',
        decreases chars.len() - i,
    {
        if chars[i] != ' ' {
            return false;
        }
        i = i + 1;
    }
    true
}

/// A line is blank when it has no spans, or every span is empty or made of
/// spaces only (no tabs or newlines).
pub fn is_blank_line_spaces_only(line: &Line) -> (r: bool)
    ensures
        r == forall|i: int| 0 <= i < line.spans@.len() ==> #[trigger] spaces_only(line.spans@[i].content@),
{
    let mut i: usize = 0;
    while i < line.spans.len()
        invariant
            i <= line.spans@.len(),
            forall|j: int| 0 <= j < i ==> #[trigger] spaces_only(line.spans@[j].content@),
        decreases line.spans.len() - i,
    {
        if !is_spaces_only(line.spans[i].content.as_str()) {
            return false;
        }
        i = i + 1;
    }
    true
}

/// `out` is `l` with `prefix` before its spans.
pub open spec fn prefixed(l: LineView, prefix: SpanView, out: LineView) -> bool {
    &&& out.style == l.style
    &&& out.alignment == l.alignment
    &&& out.spans == seq![prefix] + l.spans
}

/// Each line with `initial_prefix` (first line) or `subsequent_prefix` (the
/// others) put before its spans, as new owned lines.
pub fn prefix_lines(lines: &[Line], initial_prefix: Span, subsequent_prefix: Span) -> (r: Vec<Line>)
    ensures
        r@.len() == lines@.len(),
        forall|i: int| 0 <= i < r@.len() ==> prefixed(
            lines@[i]@,
            if i == 0 { initial_prefix@ } else { subsequent_prefix@ },
            #[trigger] r@[i]@,
        ),
{
    let mut out: Vec<Line> = Vec::new();
    let mut i: usize = 0;
    while i < lines.len()
        invariant
            i <= lines@.len(),
            out@.len() == i,
            forall|k: int| 0 <= k < i ==> prefixed(
                lines@[k]@,
                if k == 0 { initial_prefix@ } else { subsequent_prefix@ },
                #[trigger] out@[k]@,
            ),
        decreases lines.len() - i,
    {
        let l = &lines[i];
        let prefix = if i == 0 { &initial_prefix } else { &subsequent_prefix };
        let mut spans: Vec<Span> = Vec::new();
        spans.push(copy_span(prefix));
        let mut j: usize = 0;
        while j < l.spans.len()
            invariant
                j <= l.spans@.len(),
                spans@.len() == j + 1,
                spans@[0]@ == prefix@,
                forall|k: int| 0 <= k < j ==> spans@[k + 1]@ == (#[trigger] l.spans@[k])@,
            decreases l.spans.len() - j,
        {
            spans.push(copy_span(&l.spans[j]));
            j = j + 1;
        }
        let line = Line { style: l.style, alignment: l.alignment, spans };
        assert forall|m: int| 1 <= m < spans@.len() implies (#[trigger] spans@[m])@ == l.spans@[m - 1]@ by {
            assert(spans@[(m - 1) + 1]@ == l.spans@[m - 1]@);
        }
        assert(line@.spans =~= seq![prefix@] + l@.spans);
        out.push(line);
        i = i + 1;
    }
    out
}

} // verus!

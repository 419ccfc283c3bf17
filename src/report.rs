//! Diagnostics: their severity, their spans and the colour events that a
//! renderer walks to highlight sub-spans inside the main span.
use std::cmp::Ordering;
use vstd::prelude::*;

use crate::flags::BehaviorFlag;
use crate::program::{Program, Span};

verus! {

/// The severity of a diagnostic, from the least to the most severe.
#[derive(Clone, Copy, Debug, PartialEq, Eq, Structural)]
pub enum ReportLevel {
    Info,
    Warning,
    Error,
}

impl ReportLevel {
    pub open spec fn rank(self) -> int {
        match self {
            ReportLevel::Info => 0,
            ReportLevel::Warning => 1,
            ReportLevel::Error => 2,
        }
    }

    /// Whether `self` is at least as severe as `threshold`.
    pub fn at_least(&self, threshold: &ReportLevel) -> (r: bool)
        ensures
            r == (self.rank() >= threshold.rank()),
    {
        let a: u8 = match self {
            ReportLevel::Info => 0,
            ReportLevel::Warning => 1,
            ReportLevel::Error => 2,
        };
        let b: u8 = match threshold {
            ReportLevel::Info => 0,
            ReportLevel::Warning => 1,
            ReportLevel::Error => 2,
        };
        a >= b
    }
}

/// The colour that marks a sub-span: red for strong bypasses, yellow for weak
/// ones, cyan for unresolved calls.
#[derive(Clone, Copy, Debug, PartialEq, Eq, Structural)]
pub enum Color {
    Red,
    Yellow,
    Cyan,
}

/// The colour setting a renderer applies: a foreground colour, or a reset.
#[derive(Clone, Copy, Debug, PartialEq, Eq, Structural)]
pub enum ColorSpec {
    Fg(Color),
    Reset,
}

/// Where a sub-span starts (with its colour) or ends (without one). Both
/// events of one sub-span share an id.
#[derive(Clone, Copy, Debug, PartialEq, Eq, Structural)]
pub struct ColorEvent {
    pub color: Option<Color>,
    pub line: usize,
    pub col: usize,
    pub id: usize,
}

/// Events are ordered by line, then column, then ends before starts.
pub open spec fn spec_event_cmp(a: ColorEvent, b: ColorEvent) -> Ordering {
    if a.line != b.line {
        if a.line < b.line {
            Ordering::Less
        } else {
            Ordering::Greater
        }
    } else if a.col != b.col {
        if a.col < b.col {
            Ordering::Less
        } else {
            Ordering::Greater
        }
    } else if a.color is Some != b.color is Some {
        if b.color is Some {
            Ordering::Less
        } else {
            Ordering::Greater
        }
    } else {
        Ordering::Equal
    }
}

impl ColorEvent {
    /// The rendering order of two events.
    pub fn cmp_events(&self, other: &ColorEvent) -> (r: Ordering)
        ensures
            r == spec_event_cmp(*self, *other),
    {
        if self.line != other.line {
            return if self.line < other.line {
                Ordering::Less
            } else {
                Ordering::Greater
            };
        }
        if self.col != other.col {
            return if self.col < other.col {
                Ordering::Less
            } else {
                Ordering::Greater
            };
        }
        let a = self.color.is_some();
        let b = other.color.is_some();
        if a != b {
            return if b {
                Ordering::Less
            } else {
                Ordering::Greater
            };
        }
        Ordering::Equal
    }
}

/// The position of the last entry of `s` with id `id`.
pub open spec fn last_with_id(s: Seq<(Color, usize)>, id: usize) -> Option<int>
    decreases s.len(),
{
    if s.len() == 0 {
        None
    } else if s.last().1 == id {
        Some(s.len() - 1)
    } else {
        last_with_id(s.drop_last(), id)
    }
}

proof fn lemma_last_with_id(s: Seq<(Color, usize)>, id: usize)
    ensures
        match last_with_id(s, id) {
            Some(k) => 0 <= k < s.len() && s[k].1 == id && forall|j: int|
                k < j < s.len() ==> #[trigger] s[j].1 != id,
            None => forall|j: int| 0 <= j < s.len() ==> #[trigger] s[j].1 != id,
        },
    decreases s.len(),
{
    if s.len() > 0 {
        let init = s.drop_last();
        lemma_last_with_id(init, id);
        assert forall|j: int| 0 <= j < s.len() - 1 implies #[trigger] init[j] == s[j] by {}
        if s.last().1 != id {
            match last_with_id(init, id) {
                Some(k) => {
                    assert(s[k] == init[k]);
                    assert forall|j: int| k < j < s.len() implies #[trigger] s[j].1 != id by {
                        if j < s.len() - 1 {
                            assert(s[j] == init[j]);
                        }
                    }
                },
                None => {
                    assert forall|j: int| 0 <= j < s.len() implies #[trigger] s[j].1 != id by {
                        if j < s.len() - 1 {
                            assert(s[j] == init[j]);
                        }
                    }
                },
            }
        }
    }
}

/// The colours open at a point of a rendering, innermost last.
pub struct ColorStack(Vec<(Color, usize)>);

impl View for ColorStack {
    type V = Seq<(Color, usize)>;

    closed spec fn view(&self) -> Seq<(Color, usize)> {
        self.0@
    }
}

impl ColorStack {
    pub fn new() -> (r: ColorStack)
        ensures
            r@ == Seq::<(Color, usize)>::empty(),
    {
        ColorStack(Vec::new())
    }

    /// A start event opens its colour; an end event closes the innermost
    /// open colour of the same id, if any.
    pub fn handle_event(&mut self, event: &ColorEvent)
        ensures
            match event.color {
                Some(c) => final(self)@ == old(self)@.push((c, event.id)),
                None => match last_with_id(old(self)@, event.id) {
                    Some(k) => final(self)@ == old(self)@.remove(k),
                    None => final(self)@ == old(self)@,
                },
            },
    {
        proof {
            lemma_last_with_id(self@, event.id);
        }
        match event.color {
            Some(color) => self.0.push((color, event.id)),
            None => {
                let mut i: usize = self.0.len();
                let mut found: Option<usize> = None;
                while i > 0 && found.is_none()
                    invariant
                        self@ == old(self)@,
                        i <= self@.len(),
                        found matches Some(k) ==> k == i && last_with_id(self@, event.id) == Some(
                            k as int,
                        ),
                        found is None ==> forall|j: int|
                            i <= j < self@.len() ==> #[trigger] self@[j].1 != event.id,
                    decreases i,
                {
                    i = i - 1;
                    if self.0[i].1 == event.id {
                        proof {
                            lemma_last_with_id(self@, event.id);
                        }
                        found = Some(i);
                    }
                }
                match found {
                    Some(k) => {
                        self.0.remove(k);
                    },
                    None => {
                        proof {
                            lemma_last_with_id(self@, event.id);
                        }
                    },
                }
            },
        }
    }

    /// The innermost open colour, or a reset when none is open.
    pub fn current_spec(&self) -> (r: ColorSpec)
        ensures
            r == (if self@.len() == 0 {
                ColorSpec::Reset
            } else {
                ColorSpec::Fg(self@.last().0)
            }),
    {
        let n = self.0.len();
        if n == 0 {
            ColorSpec::Reset
        } else {
            ColorSpec::Fg(self.0[n - 1].0)
        }
    }
}

/// A main span with coloured sub-spans inside it, as start and end events.
#[derive(Clone, Debug)]
pub struct ColorSpan {
    main_span: Span,
    sub_span_events: Vec<ColorEvent>,
}

/// The events that `add_sub_span` appends for `span`, whose id is `id`.
pub open spec fn sub_span_events(color: Color, span: Span, id: usize) -> Seq<ColorEvent> {
    seq![
        ColorEvent { color: Some(color), line: span.beg.line, col: span.beg.col, id },
        ColorEvent { color: None, line: span.end.line, col: span.end.col, id },
    ]
}

/// The events after adding `spans` in order, each of the file of `main`.
pub open spec fn with_sub_spans(
    events: Seq<ColorEvent>,
    main: Span,
    color: Color,
    spans: Seq<Span>,
) -> Seq<ColorEvent>
    decreases spans.len(),
{
    if spans.len() == 0 {
        events
    } else {
        let prev = with_sub_spans(events, main, color, spans.drop_last());
        if spans.last().file_id == main.file_id {
            prev + sub_span_events(color, spans.last(), prev.len() as usize)
        } else {
            prev
        }
    }
}

impl ColorSpan {
    pub closed spec fn spec_main_span(&self) -> Span {
        self.main_span
    }

    pub closed spec fn events(&self) -> Seq<ColorEvent> {
        self.sub_span_events@
    }

    pub fn new(_crate_data: &Program, main_span: Span) -> (r: Option<ColorSpan>)
        ensures
            r matches Some(cs) && cs.spec_main_span() == main_span && cs.events() == Seq::<
                ColorEvent,
            >::empty(),
    {
        Some(ColorSpan { main_span, sub_span_events: Vec::new() })
    }

    pub fn main_span(&self) -> (r: Span)
        ensures
            r == self.spec_main_span(),
    {
        self.main_span
    }

    pub fn sub_span_events(&self) -> (r: &Vec<ColorEvent>)
        ensures
            r@ == self.events(),
    {
        &self.sub_span_events
    }

    /// Adds a sub-span of colour `color`, unless it lies in another file than
    /// the main span (as spans from macros may); says whether it was added.
    pub fn add_sub_span(&mut self, color: Color, span: Span) -> (r: bool)
        ensures
            final(self).spec_main_span() == old(self).spec_main_span(),
            r == (span.file_id == old(self).spec_main_span().file_id),
            r ==> final(self).events() == old(self).events() + sub_span_events(
                color,
                span,
                old(self).events().len() as usize,
            ),
            !r ==> final(self).events() == old(self).events(),
    {
        if span.file_id != self.main_span.file_id {
            return false;
        }
        let event_id = self.sub_span_events.len();
        self.sub_span_events.push(
            ColorEvent { color: Some(color), line: span.beg.line, col: span.beg.col, id: event_id },
        );
        self.sub_span_events.push(
            ColorEvent { color: None, line: span.end.line, col: span.end.col, id: event_id },
        );
        assert(self.events() =~= old(self).events() + sub_span_events(color, span, event_id));
        true
    }
}

/// The characters of `s` after the first `n`.
pub open spec fn skip_chars(s: Seq<char>, n: int) -> Seq<char> {
    if n <= s.len() {
        s.subrange(n, s.len() as int)
    } else {
        Seq::empty()
    }
}

/// The first `n` characters of `s`, or all of them when it is shorter.
pub open spec fn take_chars(s: Seq<char>, n: int) -> Seq<char> {
    if n <= s.len() {
        s.subrange(0, n)
    } else {
        s
    }
}

/// The source lines of `span` among the lines `content` of its file, from
/// its first line up to the line before its last, the first cut at the
/// start column and then the last cut at the end column; none when that
/// range of lines is empty or not in the file.
pub open spec fn spec_snippet(content: Seq<Seq<char>>, span: Span) -> Option<Seq<Seq<char>>> {
    let lo = span.beg.line - 1;
    let hi = span.end.line - 1;
    if span.beg.line >= 1 && lo < hi && hi <= content.len() {
        let lines = content.subrange(lo, hi);
        let first = lines.update(0, skip_chars(lines[0], span.beg.col as int));
        let last = first.len() - 1;
        Some(first.update(last, take_chars(first[last], span.end.col as int)))
    } else {
        None
    }
}

fn skip_prefix(s: &String, n: usize) -> (r: String)
    ensures
        r@ == skip_chars(s@, n as int),
{
    let len = s.as_str().unicode_len();
    if n <= len {
        s.as_str().substring_char(n, len).to_owned()
    } else {
        String::new()
    }
}

fn take_prefix(s: &String, n: usize) -> (r: String)
    ensures
        r@ == take_chars(s@, n as int),
{
    let len = s.as_str().unicode_len();
    if n <= len {
        s.as_str().substring_char(0, n).to_owned()
    } else {
        s.clone()
    }
}

/// The lines of `span`'s snippet, out of the lines of its file.
pub fn snippet_from_lines(content: &Vec<String>, span: &Span) -> (r: Option<Vec<String>>)
    ensures
        match spec_snippet(content@.map_values(|l: String| l@), *span) {
            Some(lines) => r matches Some(v) && v@.map_values(|l: String| l@) == lines,
            None => r is None,
        },
{
    let ghost view = content@.map_values(|l: String| l@);
    if span.beg.line < 1 || span.end.line < 1 {
        return None;
    }
    let lo = span.beg.line - 1;
    let hi = span.end.line - 1;
    if !(lo < hi && hi <= content.len()) {
        return None;
    }
    let mut lines: Vec<String> = Vec::new();
    let mut i: usize = lo;
    while i < hi
        invariant
            lo <= i <= hi <= content@.len(),
            view == content@.map_values(|l: String| l@),
            lines@.map_values(|l: String| l@) == view.subrange(lo as int, i as int),
        decreases hi - i,
    {
        let ghost before = lines@;
        let line = content[i].clone();
        lines.push(line);
        proof {
            assert(lines@.map_values(|l: String| l@) =~= before.map_values(|l: String| l@).push(
                line@,
            ));
            assert(view.subrange(lo as int, i + 1) =~= view.subrange(lo as int, i as int).push(
                view[i as int],
            ));
        }
        i = i + 1;
    }
    let ghost base = lines@.map_values(|l: String| l@);
    let first = skip_prefix(&lines[0], span.beg.col);
    lines.set(0, first);
    let ghost mid = lines@.map_values(|l: String| l@);
    assert(mid =~= base.update(0, skip_chars(base[0], span.beg.col as int)));
    let last_index = lines.len() - 1;
    let last = take_prefix(&lines[last_index], span.end.col);
    lines.set(last_index, last);
    assert(lines@.map_values(|l: String| l@) =~= mid.update(
        last_index as int,
        take_chars(mid[last_index as int], span.end.col as int),
    ));
    Some(lines)
}

/// The first position from `q` on whose event sorts after `e`, or the length.
pub open spec fn first_after(sorted: Seq<ColorEvent>, e: ColorEvent, q: int) -> int
    decreases sorted.len() - q,
{
    if q >= sorted.len() {
        sorted.len() as int
    } else if spec_event_cmp(sorted[q], e) == Ordering::Greater {
        q
    } else {
        first_after(sorted, e, q + 1)
    }
}

/// `e` inserted into `sorted` after every event that does not sort after it.
pub open spec fn insert_event(sorted: Seq<ColorEvent>, e: ColorEvent) -> Seq<ColorEvent> {
    sorted.insert(first_after(sorted, e, 0), e)
}

/// The events in rendering order; events that compare equal keep their
/// relative order.
pub open spec fn sort_events(events: Seq<ColorEvent>) -> Seq<ColorEvent>
    decreases events.len(),
{
    if events.len() == 0 {
        Seq::empty()
    } else {
        insert_event(sort_events(events.drop_last()), events.last())
    }
}

proof fn lemma_first_after_bounds(sorted: Seq<ColorEvent>, e: ColorEvent, q: int)
    requires
        0 <= q <= sorted.len(),
    ensures
        q <= first_after(sorted, e, q) <= sorted.len(),
    decreases sorted.len() - q,
{
    if q < sorted.len() && spec_event_cmp(sorted[q], e) != Ordering::Greater {
        lemma_first_after_bounds(sorted, e, q + 1);
    }
}

proof fn lemma_sort_len(events: Seq<ColorEvent>)
    ensures
        sort_events(events).len() == events.len(),
    decreases events.len(),
{
    if events.len() > 0 {
        lemma_sort_len(events.drop_last());
        lemma_first_after_bounds(sort_events(events.drop_last()), events.last(), 0);
    }
}

/// What a renderer outputs: a character of the snippet, a line end, or a
/// change of colour.
#[derive(Clone, Copy, Debug, PartialEq, Eq, Structural)]
pub enum RenderPiece {
    Char(char),
    Newline,
    SetColor(ColorSpec),
}

/// The colour stack after `e`, as `ColorStack::handle_event` leaves it.
pub open spec fn stack_after(stack: Seq<(Color, usize)>, e: ColorEvent) -> Seq<(Color, usize)> {
    match e.color {
        Some(c) => stack.push((c, e.id)),
        None => match last_with_id(stack, e.id) {
            Some(k) => stack.remove(k),
            None => stack,
        },
    }
}

pub open spec fn spec_of_stack(stack: Seq<(Color, usize)>) -> ColorSpec {
    if stack.len() == 0 {
        ColorSpec::Reset
    } else {
        ColorSpec::Fg(stack.last().0)
    }
}

/// A rendering state: the next event, the open colours, the output so far.
pub type RenderState = (int, Seq<(Color, usize)>, Seq<RenderPiece>);

/// Applies every event, from the next one on, that sits at `line`, `col`,
/// each followed by the colour it leaves.
pub open spec fn apply_events_at(events: Seq<ColorEvent>, line: int, col: int, st: RenderState) -> RenderState
    decreases events.len() - st.0,
{
    if 0 <= st.0 < events.len() && events[st.0].line == line && events[st.0].col == col {
        let stack = stack_after(st.1, events[st.0]);
        apply_events_at(
            events,
            line,
            col,
            (st.0 + 1, stack, st.2.push(RenderPiece::SetColor(spec_of_stack(stack)))),
        )
    } else {
        st
    }
}

/// Renders the characters of one line, the first at column `col0`.
pub open spec fn render_chars(
    events: Seq<ColorEvent>,
    line: int,
    chars: Seq<char>,
    col0: int,
    st: RenderState,
) -> RenderState
    decreases chars.len(),
{
    if chars.len() == 0 {
        st
    } else {
        let before = render_chars(events, line, chars.drop_last(), col0, st);
        let at = apply_events_at(events, line, col0 + chars.len() - 1, before);
        (at.0, at.1, at.2.push(RenderPiece::Char(chars.last())))
    }
}

/// Renders one line and its end.
pub open spec fn render_line(
    events: Seq<ColorEvent>,
    line: int,
    chars: Seq<char>,
    col0: int,
    st: RenderState,
) -> RenderState {
    let body = render_chars(events, line, chars, col0, st);
    let end = apply_events_at(events, line, col0 + chars.len(), body);
    (end.0, end.1, end.2.push(RenderPiece::Newline))
}

/// Renders the lines of a snippet that starts at `start`.
pub open spec fn render_lines(
    events: Seq<ColorEvent>,
    start: crate::program::Loc,
    lines: Seq<Seq<char>>,
    st: RenderState,
) -> RenderState
    decreases lines.len(),
{
    if lines.len() == 0 {
        st
    } else {
        let k = lines.len() - 1;
        let before = render_lines(events, start, lines.drop_last(), st);
        render_line(
            events,
            start.line + k,
            lines[k],
            if k == 0 {
                start.col as int
            } else {
                0
            },
            before,
        )
    }
}

/// The first event from `pos` on that is not on a line before `line`.
pub open spec fn skip_before(events: Seq<ColorEvent>, pos: int, line: int) -> int
    decreases events.len() - pos,
{
    if 0 <= pos < events.len() && events[pos].line < line {
        skip_before(events, pos + 1, line)
    } else {
        pos
    }
}

/// The number of snippet lines rendered: one per line of the main span, as
/// far as the snippet goes.
pub open spec fn rendered_lines(main: Span, n: int) -> int {
    if main.end.line < main.beg.line {
        0
    } else if main.end.line - main.beg.line < n {
        main.end.line - main.beg.line + 1
    } else {
        n
    }
}

/// The rendering of a snippet: its lines with the colour changes of the
/// sorted events interleaved, events before the first line dropped, then a
/// final reset.
pub open spec fn spec_render(events: Seq<ColorEvent>, main: Span, snippet: Seq<Seq<char>>) -> Seq<
    RenderPiece,
> {
    let sorted = sort_events(events);
    let start = (skip_before(sorted, 0, main.beg.line as int), Seq::empty(), Seq::empty());
    let lines = snippet.subrange(0, rendered_lines(main, snippet.len() as int));
    render_lines(sorted, main.beg, lines, start).2.push(RenderPiece::SetColor(ColorSpec::Reset))
}

/// The columns of the first rendered line fit in `usize`.
pub open spec fn render_fits(main: Span, snippet: Seq<Seq<char>>) -> bool {
    snippet.len() > 0 ==> main.beg.col + snippet[0].len() <= usize::MAX
}

fn sorts_after(a: &ColorEvent, b: &ColorEvent) -> (r: bool)
    ensures
        r == (spec_event_cmp(*a, *b) == Ordering::Greater),
{
    match a.cmp_events(b) {
        Ordering::Greater => true,
        _ => false,
    }
}

fn apply_events(
    events: &Vec<ColorEvent>,
    pos: usize,
    line: usize,
    col: usize,
    stack: &mut ColorStack,
    out: &mut Vec<RenderPiece>,
) -> (r: usize)
    requires
        pos <= events@.len(),
    ensures
        r <= events@.len(),
        (r as int, final(stack)@, final(out)@) == apply_events_at(
            events@,
            line as int,
            col as int,
            (pos as int, old(stack)@, old(out)@),
        ),
{
    let mut p = pos;
    while p < events.len() && events[p].line == line && events[p].col == col
        invariant
            pos <= p <= events@.len(),
            apply_events_at(events@, line as int, col as int, (p as int, stack@, out@))
                == apply_events_at(
                events@,
                line as int,
                col as int,
                (pos as int, old(stack)@, old(out)@),
            ),
        decreases events@.len() - p,
    {
        stack.handle_event(&events[p]);
        out.push(RenderPiece::SetColor(stack.current_spec()));
        p = p + 1;
    }
    p
}

impl ColorSpan {
    /// The sub-span events in rendering order.
    pub fn sorted_events(&self) -> (r: Vec<ColorEvent>)
        ensures
            r@ == sort_events(self.events()),
    {
        let events = &self.sub_span_events;
        let mut sorted: Vec<ColorEvent> = Vec::new();
        let mut i: usize = 0;
        while i < events.len()
            invariant
                i <= events@.len(),
                sorted@ == sort_events(events@.subrange(0, i as int)),
            decreases events@.len() - i,
        {
            let e = events[i];
            proof {
                assert(events@.subrange(0, i + 1).drop_last() == events@.subrange(0, i as int));
                lemma_sort_len(events@.subrange(0, i as int));
            }
            let mut q: usize = 0;
            while q < sorted.len() && !sorts_after(&sorted[q], &e)
                invariant
                    q <= sorted@.len(),
                    first_after(sorted@, e, q as int) == first_after(sorted@, e, 0),
                decreases sorted@.len() - q,
            {
                proof {
                    assert(spec_event_cmp(sorted@[q as int], e) != Ordering::Greater);
                }
                q = q + 1;
            }
            proof {
                if q < sorted@.len() {
                    assert(spec_event_cmp(sorted@[q as int], e) == Ordering::Greater);
                }
            }
            sorted.insert(q, e);
            i = i + 1;
        }
        assert(events@.subrange(0, i as int) == events@);
        sorted
    }

    /// The rendering of `snippet`, the lines of the main span.
    pub fn render(&self, snippet: &Vec<String>) -> (r: Vec<RenderPiece>)
        requires
            render_fits(self.spec_main_span(), snippet@.map_values(|l: String| l@)),
        ensures
            r@ == spec_render(
                self.events(),
                self.spec_main_span(),
                snippet@.map_values(|l: String| l@),
            ),
    {
        let ghost lines_view = snippet@.map_values(|l: String| l@);
        let events = self.sorted_events();
        let main = self.main_span;
        let mut pos: usize = 0;
        while pos < events.len() && events[pos].line < main.beg.line
            invariant
                pos <= events@.len(),
                skip_before(events@, pos as int, main.beg.line as int) == skip_before(
                    events@,
                    0,
                    main.beg.line as int,
                ),
            decreases events@.len() - pos,
        {
            pos = pos + 1;
        }
        let mut stack = ColorStack::new();
        let mut out: Vec<RenderPiece> = Vec::new();
        let n_lines: usize = if main.end.line < main.beg.line {
            0
        } else if main.end.line - main.beg.line < snippet.len() {
            main.end.line - main.beg.line + 1
        } else {
            snippet.len()
        };
        let ghost start: RenderState = (pos as int, Seq::empty(), Seq::empty());
        let mut k: usize = 0;
        while k < n_lines
            invariant
                lines_view == snippet@.map_values(|l: String| l@),
                render_fits(main, lines_view),
                main == self.spec_main_span(),
                n_lines == rendered_lines(main, snippet@.len() as int),
                n_lines <= snippet@.len(),
                n_lines > 0 ==> main.beg.line + n_lines - 1 <= main.end.line,
                k <= n_lines,
                pos <= events@.len(),
                (pos as int, stack@, out@) == render_lines(
                    events@,
                    main.beg,
                    lines_view.subrange(0, k as int),
                    start,
                ),
            decreases n_lines - k,
        {
            let line_idx = main.beg.line + k;
            let line = snippet[k].as_str();
            let len = line.unicode_len();
            let ghost chars = lines_view[k as int];
            assert(chars == line@);
            let col0: usize = if k == 0 {
                main.beg.col
            } else {
                0
            };
            let ghost before: RenderState = (pos as int, stack@, out@);
            assert(col0 + len <= usize::MAX);
            let mut col: usize = col0;
            let mut c: usize = 0;
            while c < len
                invariant
                    len == chars.len(),
                    chars == line@,
                    c <= len,
                    col == col0 + c,
                    col0 + len <= usize::MAX,
                    pos <= events@.len(),
                    (pos as int, stack@, out@) == render_chars(
                        events@,
                        line_idx as int,
                        chars.subrange(0, c as int),
                        col0 as int,
                        before,
                    ),
                decreases len - c,
            {
                proof {
                    assert(chars.subrange(0, c + 1).drop_last() == chars.subrange(0, c as int));
                }
                pos = apply_events(&events, pos, line_idx, col, &mut stack, &mut out);
                let ch = line.get_char(c);
                out.push(RenderPiece::Char(ch));
                col = col + 1;
                c = c + 1;
            }
            proof {
                assert(chars.subrange(0, c as int) == chars);
            }
            pos = apply_events(&events, pos, line_idx, col, &mut stack, &mut out);
            out.push(RenderPiece::Newline);
            proof {
                assert(lines_view.subrange(0, k + 1).drop_last() == lines_view.subrange(0, k as int));
                assert(lines_view.subrange(0, k + 1)[k as int] == chars);
            }
            k = k + 1;
        }
        out.push(RenderPiece::SetColor(ColorSpec::Reset));
        out
    }
}

/// A diagnostic of an analysis.
#[derive(Clone, Debug)]
pub struct Report {
    pub level: ReportLevel,
    pub behavior: BehaviorFlag,
    pub message: String,
    pub color_span: ColorSpan,
}

} // verus!

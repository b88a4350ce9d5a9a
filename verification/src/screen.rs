//! What a terminal shows.
use crate::text;
use vstd::prelude::*;
use vstd::string::*;

verus! {

/// What became of the process of a terminal.
#[derive(Clone, Copy, Debug, PartialEq, Eq, Structural)]
pub enum TerminalProcessState {
    Running,
    Exited,
    Closed,
    Interrupted,
}

/// What an observation of a terminal saw.
#[derive(Clone, Copy, Debug, PartialEq, Eq, Structural)]
pub enum ObservationClassification {
    Unchanged,
    ChangedThenStabilized,
    StillChangingAtDeadline,
}

/// How a piece of a line looks.
#[derive(Debug, PartialEq, Eq)]
pub struct TerminalStyle {
    pub foreground: String,
    pub background: String,
    pub bold: bool,
    pub faint: bool,
    pub italic: bool,
    pub underline: String,
    pub reverse: bool,
    pub strikethrough: bool,
    pub invisible: bool,
}

/// A piece of a line in one style.
#[derive(Debug, PartialEq, Eq)]
pub struct TerminalStyleSpan {
    pub text: String,
    pub style: TerminalStyle,
}

/// A line of a screen.
#[derive(Debug, PartialEq, Eq)]
pub struct TerminalScreenLine {
    pub spans: Vec<TerminalStyleSpan>,
    pub wrapped: bool,
}

/// The cursor of a screen.
#[derive(Debug, PartialEq, Eq)]
pub struct TerminalCursor {
    pub row: usize,
    pub column: usize,
    pub shape: String,
    pub visible: bool,
}

/// A screen at one moment.
#[derive(Debug, PartialEq, Eq)]
pub struct TerminalScreenSnapshot {
    pub terminal_id: String,
    pub screen_sequence: u64,
    pub rows: usize,
    pub columns: usize,
    pub lines: Vec<TerminalScreenLine>,
    pub cursor: TerminalCursor,
    pub alternate_screen: bool,
    pub title: String,
    pub mouse_reporting: bool,
    pub bracketed_paste: bool,
    pub process_state: TerminalProcessState,
    pub command: String,
    pub exit_code: Option<u32>,
    pub observation: ObservationClassification,
    pub recent_transcript: String,
}

/// What is stored of a terminal.
#[derive(Debug)]
pub struct TerminalRecord {
    pub id: String,
    pub command: String,
    pub shell: String,
    pub working_directory: String,
    pub created_at: i128,
    pub updated_at: i128,
    pub completed_at: Option<i128>,
    pub columns: u16,
    pub rows: u16,
    pub state: TerminalProcessState,
    pub exit_code: Option<u32>,
    pub latest_snapshot: Option<TerminalScreenSnapshot>,
    pub latest_observation: ObservationClassification,
    pub recent_transcript: String,
}

impl Clone for TerminalStyle {
    fn clone(&self) -> (r: Self)
        ensures
            r == *self,
    {
        TerminalStyle {
            foreground: self.foreground.clone(),
            background: self.background.clone(),
            bold: self.bold,
            faint: self.faint,
            italic: self.italic,
            underline: self.underline.clone(),
            reverse: self.reverse,
            strikethrough: self.strikethrough,
            invisible: self.invisible,
        }
    }
}

// ---------------------------------------------------------------------------
// The model

/// How a piece of a line looks.
#[verifier::ext_equal]
pub struct StyleView {
    pub foreground: Seq<char>,
    pub background: Seq<char>,
    pub bold: bool,
    pub faint: bool,
    pub italic: bool,
    pub underline: Seq<char>,
    pub reverse: bool,
    pub strikethrough: bool,
    pub invisible: bool,
}

/// A piece of a line in one style.
#[verifier::ext_equal]
pub struct SpanView {
    pub text: Seq<char>,
    pub style: StyleView,
}

/// A line of a screen.
#[verifier::ext_equal]
pub struct LineView {
    pub spans: Seq<SpanView>,
    pub wrapped: bool,
}

impl View for TerminalStyle {
    type V = StyleView;

    open spec fn view(&self) -> StyleView {
        StyleView {
            foreground: self.foreground@,
            background: self.background@,
            bold: self.bold,
            faint: self.faint,
            italic: self.italic,
            underline: self.underline@,
            reverse: self.reverse,
            strikethrough: self.strikethrough,
            invisible: self.invisible,
        }
    }
}

impl View for TerminalStyleSpan {
    type V = SpanView;

    open spec fn view(&self) -> SpanView {
        SpanView { text: self.text@, style: self.style@ }
    }
}

/// What spans say.
pub open spec fn span_views(v: Seq<TerminalStyleSpan>) -> Seq<SpanView> {
    Seq::new(v.len(), |i: int| v[i]@)
}

impl View for TerminalScreenLine {
    type V = LineView;

    open spec fn view(&self) -> LineView {
        LineView { spans: span_views(self.spans@), wrapped: self.wrapped }
    }
}

/// What lines say.
pub open spec fn line_views(v: Seq<TerminalScreenLine>) -> Seq<LineView> {
    Seq::new(v.len(), |i: int| v[i]@)
}

/// A cell of a screen: what stands in it, how many columns it takes, and how it looks.
#[derive(Debug)]
pub struct ScreenCell {
    pub text: String,
    pub width: usize,
    pub style: TerminalStyle,
}

/// A line of cells; one that is wrapped goes on in the next line.
#[derive(Debug)]
pub struct CellLine {
    pub cells: Vec<ScreenCell>,
    pub wrapped: bool,
}

/// Spaces.
pub open spec fn spaces(n: nat) -> Seq<char> {
    Seq::new(n, |i: int| ' ')
}

/// What is seen of a cell.
pub open spec fn seen(cell: ScreenCell) -> Seq<char> {
    if cell.style.invisible {
        spaces(cell.width as nat)
    } else {
        cell.text@
    }
}

/// What is seen of the first `n` cells.
pub open spec fn seen_cells(cells: Seq<ScreenCell>, n: nat) -> Seq<char>
    decreases n,
{
    if n == 0 {
        Seq::empty()
    } else {
        seen_cells(cells, (n - 1) as nat) + seen(cells[n - 1])
    }
}

/// The first `n` cells as spans: cells of one style that stand together are one span.
pub open spec fn spans_of(cells: Seq<ScreenCell>, n: nat) -> Seq<SpanView>
    decreases n,
{
    if n == 0 {
        Seq::empty()
    } else {
        let before = spans_of(cells, (n - 1) as nat);
        let cell = cells[n - 1];
        if before.len() > 0 && before.last().style == cell.style@ {
            before.update(
                before.len() - 1,
                SpanView { text: before.last().text + seen(cell), style: cell.style@ },
            )
        } else {
            before.push(SpanView { text: seen(cell), style: cell.style@ })
        }
    }
}

// ---------------------------------------------------------------------------
// Lines

/// What a terminal says of how a cell looks.
#[derive(Debug)]
pub struct CellAttributes {
    pub foreground: String,
    pub background: String,
    pub intensity: String,
    pub italic: bool,
    pub underline: String,
    pub reverse: bool,
    pub strikethrough: bool,
    pub invisible: bool,
}

/// How a cell looks.
pub fn terminal_style(attributes: &CellAttributes) -> (r: TerminalStyle)
    ensures
        r@ == (StyleView {
            foreground: attributes.foreground@,
            background: attributes.background@,
            bold: text::ascii_lower(attributes.intensity@) == "bold"@,
            faint: text::ascii_lower(attributes.intensity@) == "half"@,
            italic: attributes.italic,
            underline: text::ascii_lower(attributes.underline@),
            reverse: attributes.reverse,
            strikethrough: attributes.strikethrough,
            invisible: attributes.invisible,
        }),
{
    let intensity = text::to_ascii_lowercase(&attributes.intensity);
    TerminalStyle {
        foreground: attributes.foreground.clone(),
        background: attributes.background.clone(),
        bold: text::same(&intensity, "bold"),
        faint: text::same(&intensity, "half"),
        italic: attributes.italic,
        underline: text::to_ascii_lowercase(&attributes.underline),
        reverse: attributes.reverse,
        strikethrough: attributes.strikethrough,
        invisible: attributes.invisible,
    }
}

fn same_style(a: &TerminalStyle, b: &TerminalStyle) -> (r: bool)
    ensures
        r == (a@ == b@),
{
    text::same(&a.foreground, &b.foreground) && text::same(&a.background, &b.background) && a.bold
        == b.bold && a.faint == b.faint && a.italic == b.italic && text::same(
        &a.underline,
        &b.underline,
    ) && a.reverse == b.reverse && a.strikethrough == b.strikethrough && a.invisible == b.invisible
}

fn cell_text(cell: &ScreenCell) -> (s: String)
    ensures
        s@ == seen(*cell),
{
    if !cell.style.invisible {
        return cell.text.clone();
    }
    let mut s = String::new();
    let mut i: usize = 0;
    assert(s@ == spaces(0));
    while i < cell.width
        invariant
            i <= cell.width,
            s@ == spaces(i as nat),
        decreases cell.width - i,
    {
        s.push(' ');
        i += 1;
        assert(s@ == spaces(i as nat));
    }
    s
}

/// A line of cells as it is stored.
pub fn styled_line(line: &CellLine) -> (r: TerminalScreenLine)
    ensures
        r@ == (LineView {
            spans: spans_of(line.cells@, line.cells@.len()),
            wrapped: line.wrapped,
        }),
{
    let mut spans: Vec<TerminalStyleSpan> = Vec::new();
    let mut i: usize = 0;
    assert(span_views(spans@) == Seq::<SpanView>::empty());
    while i < line.cells.len()
        invariant
            i <= line.cells@.len(),
            span_views(spans@) == spans_of(line.cells@, i as nat),
        decreases line.cells@.len() - i,
    {
        let ghost before = span_views(spans@);
        let cell = &line.cells[i];
        let shown = cell_text(cell);
        let n: usize = spans.len();
        let joins = n > 0 && same_style(&spans[n - 1].style, &cell.style);
        assert(n > 0 ==> before.last() == spans@[n - 1]@);
        if joins {
            spans[n - 1].text.append(shown.as_str());
        } else {
            spans.push(TerminalStyleSpan { text: shown, style: cell.style.clone() });
        }
        assert(span_views(spans@) == spans_of(line.cells@, (i + 1) as nat));
        i += 1;
    }
    TerminalScreenLine { spans, wrapped: line.wrapped }
}

/// Whether nothing is seen of a line.
pub open spec fn is_blank(line: LineView) -> bool {
    forall|i: int|
        0 <= i < line.spans.len() ==> text::trimmed((#[trigger] line.spans[i]).text).len() == 0
}

/// Whether nothing is seen of a line.
pub fn is_blank_screen_line(line: &TerminalScreenLine) -> (r: bool)
    ensures
        r == is_blank(line@),
{
    let ghost spans = line@.spans;
    let mut i: usize = 0;
    while i < line.spans.len()
        invariant
            i <= line.spans@.len(),
            spans == span_views(line.spans@),
            forall|j: int|
                0 <= j < i ==> text::trimmed((#[trigger] spans[j]).text).len() == 0,
        decreases line.spans@.len() - i,
    {
        assert(spans[i as int].text == line.spans@[i as int].text@);
        if !text::trim(&line.spans[i].text).is_empty() {
            assert(line@.spans[i as int] == spans[i as int]);
            return false;
        }
        i += 1;
    }
    true
}

/// The lines without blank ones at their end.
pub open spec fn without_blank_end(lines: Seq<LineView>) -> Seq<LineView>
    decreases lines.len(),
{
    if lines.len() > 0 && is_blank(lines.last()) {
        without_blank_end(lines.drop_last())
    } else {
        lines
    }
}

/// Lines of cells, as stored.
pub open spec fn styled_views(lines: Seq<CellLine>) -> Seq<LineView> {
    Seq::new(
        lines.len(),
        |i: int|
            LineView {
                spans: spans_of(lines[i].cells@, lines[i].cells@.len()),
                wrapped: lines[i].wrapped,
            },
    )
}

/// Lines of cells as they are stored: blank ones at their end are left out.
pub fn styled_lines(lines: &Vec<CellLine>) -> (r: Vec<TerminalScreenLine>)
    ensures
        line_views(r@) == without_blank_end(styled_views(lines@)),
{
    let ghost all = styled_views(lines@);
    let mut r: Vec<TerminalScreenLine> = Vec::new();
    let mut i: usize = 0;
    while i < lines.len()
        invariant
            i <= lines@.len(),
            all == styled_views(lines@),
            line_views(r@) == all.take(i as int),
        decreases lines@.len() - i,
    {
        let ghost before = line_views(r@);
        r.push(styled_line(&lines[i]));
        assert(line_views(r@) == before.push(all[i as int]));
        assert(all.take(i + 1) == all.take(i as int).push(all[i as int]));
        i += 1;
    }
    assert(all.take(all.len() as int) == all);
    let mut n: usize = r.len();
    while n > 0 && is_blank_screen_line(&r[n - 1])
        invariant
            n == r@.len(),
            without_blank_end(all) == without_blank_end(line_views(r@)),
        decreases n,
    {
        let ghost before = line_views(r@);
        assert(before.last() == r@[n - 1]@);
        let _ = r.pop();
        n -= 1;
        assert(line_views(r@) == before.drop_last());
    }
    assert(n > 0 ==> line_views(r@).last() == r@[n - 1]@);
    r
}

// ---------------------------------------------------------------------------
// The transcript

/// What is seen of the first `n` lines; a wrapped line goes on in the next.
pub open spec fn seen_lines(lines: Seq<CellLine>, n: nat) -> Seq<char>
    decreases n,
{
    if n == 0 {
        Seq::empty()
    } else {
        let shown = seen_lines(lines, (n - 1) as nat) + seen_cells(
            lines[n - 1].cells@,
            lines[n - 1].cells@.len(),
        );
        if lines[n - 1].wrapped {
            shown
        } else {
            shown.push('\n')
        }
    }
}

/// Whether a character at the end of a transcript says nothing.
pub open spec fn is_filling(c: char) -> bool {
    c == ' ' || c == '\n' || c == '\r' || c == '\t'
}

/// The end of a text, where it is too long.
pub open spec fn tail_of(s: Seq<char>, maximum: nat) -> Seq<char> {
    if s.len() <= maximum {
        s
    } else {
        "… transcript truncated …\n"@ + s.skip(s.len() - maximum)
    }
}

/// The end of a text, where it is too long.
pub fn tail_chars(text: String, maximum: usize) -> (s: String)
    ensures
        s@ == tail_of(text@, maximum as nat),
{
    let v = text::chars_of(&text);
    if v.len() <= maximum {
        return text;
    }
    let tail = text::text_of_range(&v, v.len() - maximum, v.len());
    assert(tail@ == text@.skip(text@.len() - maximum));
    text::cat2("… transcript truncated …\n", &tail)
}

/// How much of a transcript a model sees.
pub const MODEL_TRANSCRIPT_TAIL: usize = 30_000;

/// What was seen on a terminal.
pub fn transcript(lines: &Vec<CellLine>) -> (s: String)
    ensures
        s@ == tail_of(
            text::strip_back(seen_lines(lines@, lines@.len()), |c: char| is_filling(c)),
            MODEL_TRANSCRIPT_TAIL as nat,
        ),
{
    let mut s = String::new();
    let mut i: usize = 0;
    while i < lines.len()
        invariant
            i <= lines@.len(),
            s@ == seen_lines(lines@, i as nat),
        decreases lines@.len() - i,
    {
        let ghost before = s@;
        let cells = &lines[i].cells;
        let mut j: usize = 0;
        assert(before + seen_cells(cells@, 0) == before);
        while j < cells.len()
            invariant
                j <= cells@.len(),
                s@ == before + seen_cells(cells@, j as nat),
            decreases cells@.len() - j,
        {
            let shown = cell_text(&cells[j]);
            s.append(shown.as_str());
            assert(before + seen_cells(cells@, (j + 1) as nat) == before + seen_cells(
                cells@,
                j as nat,
            ) + shown@);
            j += 1;
        }
        if !lines[i].wrapped {
            s.push('\n');
        }
        i += 1;
    }
    let v = text::chars_of(&s);
    let mut n: usize = v.len();
    let ghost f = |c: char| is_filling(c);
    while n > 0 && (v[n - 1] == ' ' || v[n - 1] == '\n' || v[n - 1] == '\r' || v[n - 1] == '\t')
        invariant
            n <= v@.len(),
            v@ == s@,
            forall|j: int| n <= j < s@.len() ==> is_filling(#[trigger] s@[j]),
        decreases n,
    {
        n -= 1;
    }
    proof {
        text::lemma_strip_back_at(s@, f, n as int);
    }
    let kept = text::text_of_range(&v, 0, n);
    assert(kept@ == s@.take(n as int));
    tail_chars(kept, MODEL_TRANSCRIPT_TAIL)
}

// ---------------------------------------------------------------------------
// The whole screen

/// What a terminal says of its screen.
#[derive(Debug)]
pub struct EmulatedScreen {
    pub sequence: u64,
    pub rows: usize,
    pub columns: usize,
    pub lines: Vec<CellLine>,
    pub cursor_x: usize,
    pub cursor_y: i64,
    pub cursor_shape: String,
    pub cursor_visibility: String,
    pub alternate_screen: bool,
    pub title: String,
    pub mouse_reporting: bool,
    pub bracketed_paste: bool,
}

/// The row of a cursor, counted from one.
pub open spec fn cursor_row(y: i64) -> int {
    if y < 0 {
        1
    } else {
        y + 1
    }
}

/// Whether something is the picture of a screen at one moment.
pub open spec fn pictures(
    r: TerminalScreenSnapshot,
    terminal_id: Seq<char>,
    command: Seq<char>,
    screen: EmulatedScreen,
    state: TerminalProcessState,
    exit_code: Option<u32>,
    observation: ObservationClassification,
    recent_transcript: Seq<char>,
) -> bool {
    &&& r.terminal_id@ == terminal_id
    &&& r.screen_sequence == screen.sequence
    &&& r.rows == screen.rows
    &&& r.columns == screen.columns
    &&& line_views(r.lines@) == without_blank_end(styled_views(screen.lines@))
    &&& r.cursor.row == cursor_row(screen.cursor_y)
    &&& r.cursor.column == screen.cursor_x + 1
    &&& r.cursor.shape@ == text::ascii_lower(screen.cursor_shape@)
    &&& r.cursor.visible == (text::ascii_lower(screen.cursor_visibility@) == text::ascii_lower(
        "visible"@,
    ))
    &&& r.alternate_screen == screen.alternate_screen
    &&& r.title@ == screen.title@
    &&& r.mouse_reporting == screen.mouse_reporting
    &&& r.bracketed_paste == screen.bracketed_paste
    &&& r.process_state == state
    &&& r.command@ == command
    &&& r.exit_code == exit_code
    &&& r.observation == observation
    &&& r.recent_transcript@ == recent_transcript
}

/// A screen at one moment.
pub fn snapshot(
    terminal_id: &str,
    command: &str,
    screen: &EmulatedScreen,
    state: TerminalProcessState,
    exit_code: Option<u32>,
    observation: ObservationClassification,
    recent_transcript: String,
) -> (r: TerminalScreenSnapshot)
    requires
        screen.cursor_x < usize::MAX,
        screen.cursor_y < usize::MAX,
    ensures
        pictures(
            r,
            terminal_id@,
            command@,
            *screen,
            state,
            exit_code,
            observation,
            recent_transcript@,
        ),
        r.recent_transcript == recent_transcript,
{
    let row: usize = if screen.cursor_y < 0 {
        1
    } else {
        (screen.cursor_y as usize) + 1
    };
    TerminalScreenSnapshot {
        terminal_id: terminal_id.to_owned(),
        screen_sequence: screen.sequence,
        rows: screen.rows,
        columns: screen.columns,
        lines: styled_lines(&screen.lines),
        cursor: TerminalCursor {
            row,
            column: screen.cursor_x + 1,
            shape: text::to_ascii_lowercase(&screen.cursor_shape),
            visible: text::same_ignoring_ascii_case(&screen.cursor_visibility, "visible"),
        },
        alternate_screen: screen.alternate_screen,
        title: screen.title.clone(),
        mouse_reporting: screen.mouse_reporting,
        bracketed_paste: screen.bracketed_paste,
        process_state: state,
        command: command.to_owned(),
        exit_code,
        observation,
        recent_transcript,
    }
}

// ---------------------------------------------------------------------------
// What always holds

/// What the first `n` spans say.
pub open spec fn span_texts(spans: Seq<SpanView>, n: nat) -> Seq<char>
    decreases n,
{
    if n == 0 {
        Seq::empty()
    } else {
        span_texts(spans, (n - 1) as nat) + spans[n - 1].text
    }
}

proof fn lemma_span_texts_prefix(a: Seq<SpanView>, b: Seq<SpanView>, n: nat)
    requires
        n <= a.len(),
        n <= b.len(),
        forall|i: int| 0 <= i < n ==> a[i] == b[i],
    ensures
        span_texts(a, n) == span_texts(b, n),
    decreases n,
{
    if n > 0 {
        lemma_span_texts_prefix(a, b, (n - 1) as nat);
    }
}

/// The spans of a line show what its cells show, and two spans that stand together differ in style.
pub proof fn spans_show_the_cells(cells: Seq<ScreenCell>, n: nat)
    requires
        n <= cells.len(),
    ensures
        span_texts(spans_of(cells, n), spans_of(cells, n).len()) == seen_cells(cells, n),
        forall|i: int|
            0 <= i < spans_of(cells, n).len() - 1 ==> (#[trigger] spans_of(cells, n)[i]).style
                != spans_of(cells, n)[i + 1].style,
    decreases n,
{
    if n > 0 {
        spans_show_the_cells(cells, (n - 1) as nat);
        let before = spans_of(cells, (n - 1) as nat);
        let after = spans_of(cells, n);
        let cell = cells[n - 1];
        if before.len() > 0 && before.last().style == cell.style@ {
            let m = (before.len() - 1) as nat;
            lemma_span_texts_prefix(before, after, m);
            assert(span_texts(after, after.len()) == span_texts(after, m) + after[m as int].text);
            assert(span_texts(before, before.len()) == span_texts(before, m) + before[m as int].text);
            assert(span_texts(before, m) + (before[m as int].text + seen(cell)) == (span_texts(
                before,
                m,
            ) + before[m as int].text) + seen(cell));
        } else {
            lemma_span_texts_prefix(before, after, before.len());
        }
    }
}

// ---------------------------------------------------------------------------
// Telling screens apart

/// A cell with what can be said of how it looks.
#[derive(Debug)]
pub struct PrintedCell {
    pub text: String,
    pub attributes: String,
}

/// A line of such cells.
#[derive(Debug)]
pub struct PrintedLine {
    pub cells: Vec<PrintedCell>,
    pub wrapped: bool,
}

/// The first `n` cells of a line.
pub open spec fn printed_cells(cells: Seq<PrintedCell>, n: nat) -> Seq<char>
    decreases n,
{
    if n == 0 {
        Seq::empty()
    } else {
        printed_cells(cells, (n - 1) as nat) + cells[n - 1].text@ + cells[n - 1].attributes@
    }
}

/// The first `n` lines of a screen.
pub open spec fn printed_lines(lines: Seq<PrintedLine>, n: nat) -> Seq<char>
    decreases n,
{
    if n == 0 {
        Seq::empty()
    } else {
        let line = lines[n - 1];
        printed_lines(lines, (n - 1) as nat) + printed_cells(line.cells@, line.cells@.len()).push(
            if line.wrapped {
                '\u{0}'
            } else {
                '\n'
            },
        )
    }
}

/// A text that changes with everything that is seen of a screen: `state` tells of the cursor, the
/// title and the modes.
pub fn screen_fingerprint(lines: &Vec<PrintedLine>, state: &str) -> (s: String)
    ensures
        s@ == printed_lines(lines@, lines@.len()).push('\u{1}') + state@,
{
    let mut s = String::new();
    let mut i: usize = 0;
    assert(s@ == Seq::<char>::empty());
    while i < lines.len()
        invariant
            i <= lines@.len(),
            s@ == printed_lines(lines@, i as nat),
        decreases lines@.len() - i,
    {
        let ghost before = s@;
        let line = &lines[i];
        let mut j: usize = 0;
        assert(before + printed_cells(line.cells@, 0) == before);
        while j < line.cells.len()
            invariant
                j <= line.cells@.len(),
                s@ == before + printed_cells(line.cells@, j as nat),
            decreases line.cells@.len() - j,
        {
            s.append(&line.cells[j].text);
            s.append(&line.cells[j].attributes);
            assert(s@ == before + printed_cells(line.cells@, (j + 1) as nat));
            j += 1;
        }
        s.push(
            if line.wrapped {
                '\u{0}'
            } else {
                '\n'
            },
        );
        assert(s@ == printed_lines(lines@, (i + 1) as nat));
        i += 1;
    }
    s.push('\u{1}');
    s.append(state);
    s
}

/// What is shown of a screen, of so many rows with the scrolled ones: where it begins.
pub fn visible_from(scrollback_rows: usize, physical_rows: usize) -> (start: usize)
    ensures
        start == (if scrollback_rows >= physical_rows {
            scrollback_rows - physical_rows
        } else {
            0
        }),
{
    scrollback_rows.saturating_sub(physical_rows)
}

// ---------------------------------------------------------------------------
// What a transcript shows

proof fn lemma_same_cells(a: Seq<ScreenCell>, b: Seq<ScreenCell>, n: nat)
    requires
        n <= a.len(),
        n <= b.len(),
        forall|i: int| 0 <= i < n ==> a[i] == b[i],
    ensures
        seen_cells(a, n) == seen_cells(b, n),
    decreases n,
{
    if n > 0 {
        lemma_same_cells(a, b, (n - 1) as nat);
    }
}

/// Each cell of a line is seen behind those before it: as the text that stands in it, or as many
/// spaces as it takes columns where it is invisible.
pub proof fn cells_are_seen_in_a_row(cells: Seq<ScreenCell>, cell: ScreenCell)
    ensures
        seen_cells(Seq::empty(), 0).len() == 0,
        !cell.style.invisible ==> seen_cells(cells.push(cell), cells.len() + 1) == seen_cells(
            cells,
            cells.len(),
        ) + cell.text@,
        cell.style.invisible ==> {
            let all = seen_cells(cells.push(cell), cells.len() + 1);
            let before = seen_cells(cells, cells.len());
            &&& all.len() == before.len() + cell.width
            &&& all.take(before.len() as int) == before
            &&& forall|i: int| before.len() <= i < all.len() ==> #[trigger] all[i] == ' '
        },
{
    lemma_same_cells(cells, cells.push(cell), cells.len());
    let before = seen_cells(cells, cells.len());
    assert(cells.push(cell)[cells.len() as int] == cell);
    if cell.style.invisible {
        let all = seen_cells(cells.push(cell), cells.len() + 1);
        assert(all == before + spaces(cell.width as nat));
        assert(all.take(before.len() as int) == before);
    }
}

proof fn lemma_same_lines(a: Seq<CellLine>, b: Seq<CellLine>, n: nat)
    requires
        n <= a.len(),
        n <= b.len(),
        forall|i: int| 0 <= i < n ==> a[i] == b[i],
    ensures
        seen_lines(a, n) == seen_lines(b, n),
    decreases n,
{
    if n > 0 {
        lemma_same_lines(a, b, (n - 1) as nat);
    }
}

/// What is seen of a line.
pub open spec fn line_text(line: CellLine) -> Seq<char> {
    seen_cells(line.cells@, line.cells@.len())
}

/// A line is seen behind those before it; a line feed follows it unless it goes on in the next.
pub proof fn a_line_feed_follows_a_line_that_ends(lines: Seq<CellLine>, line: CellLine)
    ensures
        seen_lines(Seq::empty(), 0).len() == 0,
        line.wrapped ==> seen_lines(lines.push(line), lines.len() + 1) == seen_lines(
            lines,
            lines.len(),
        ) + line_text(line),
        !line.wrapped ==> seen_lines(lines.push(line), lines.len() + 1) == seen_lines(
            lines,
            lines.len(),
        ) + line_text(line) + seq!['\n'],
{
    lemma_same_lines(lines, lines.push(line), lines.len());
    let shown = seen_lines(lines, lines.len()) + line_text(line);
    assert(shown.push('\n') == shown + seq!['\n']);
}

/// What is seen of each line.
pub open spec fn line_texts(lines: Seq<CellLine>) -> Seq<Seq<char>> {
    Seq::new(lines.len(), |i: int| line_text(lines[i]))
}

proof fn lemma_lines_joined(lines: Seq<CellLine>, n: nat)
    requires
        0 < n <= lines.len(),
        forall|i: int| 0 <= i < lines.len() ==> !(#[trigger] lines[i]).wrapped,
    ensures
        seen_lines(lines, n) == text::joined(line_texts(lines).take(n as int), seq!['\n']).push('\n'),
    decreases n,
{
    let texts = line_texts(lines);
    assert(!lines[n - 1].wrapped);
    assert(texts.take(n as int).last() == line_text(lines[n - 1]));
    if n == 1 {
        assert(seen_lines(lines, 0) == Seq::<char>::empty());
        assert(Seq::<char>::empty() + line_text(lines[0]) == line_text(lines[0]));
        assert(texts.take(1)[0] == line_text(lines[0]));
    } else {
        lemma_lines_joined(lines, (n - 1) as nat);
        assert(texts.take(n as int).drop_last() == texts.take(n - 1));
        let before = text::joined(texts.take(n - 1), seq!['\n']);
        assert(before.push('\n') == before + seq!['\n']);
    }
}

/// Split at line feeds, a transcript that is not cut gives back what is seen of each line, where no
/// line goes on in the next and the last one does not end with what says nothing.
pub proof fn a_transcript_splits_into_its_lines(lines: Seq<CellLine>)
    requires
        lines.len() > 0,
        forall|i: int| 0 <= i < lines.len() ==> !(#[trigger] lines[i]).wrapped,
        forall|i: int| 0 <= i < lines.len() ==> !line_text(#[trigger] lines[i]).contains('\n'),
        line_text(lines.last()).len() > 0,
        line_text(lines.last()).last() != ' ',
        line_text(lines.last()).last() != '\r',
        line_text(lines.last()).last() != '\t',
        seen_lines(lines, lines.len()).len() <= 30_000,
    ensures
        text::pieces(
            tail_of(
                text::strip_back(seen_lines(lines, lines.len()), |c: char| is_filling(c)),
                MODEL_TRANSCRIPT_TAIL as nat,
            ),
            '\n',
        ) == line_texts(lines),
{
    let texts = line_texts(lines);
    let whole = seen_lines(lines, lines.len());
    lemma_lines_joined(lines, lines.len());
    assert(texts.take(lines.len() as int) == texts);
    let shown = text::joined(texts, seq!['\n']);
    assert(whole == shown.push('\n'));
    let last = line_text(lines.last());
    assert(texts.last() == last);
    assert(last.contains(last.last()));
    assert(!line_text(lines[lines.len() - 1]).contains('\n'));
    assert(shown.last() == last.last()) by {
        if texts.len() > 1 {
            assert(shown == text::joined(texts.drop_last(), seq!['\n']) + seq!['\n'] + last);
        } else {
            assert(texts[0] == last);
        }
    }
    let f = |c: char| is_filling(c);
    assert(whole[whole.len() - 2] == shown.last());
    text::lemma_strip_back_at(whole, f, whole.len() - 1);
    assert(whole.take(whole.len() - 1) == shown);
    assert forall|i: int| 0 <= i < texts.len() implies !(#[trigger] texts[i]).contains('\n') by {
        assert(!line_text(lines[i]).contains('\n'));
    }
    text::joined_texts_split_again(texts, '\n');
}

/// Only what says nothing is taken off the end of a transcript: spaces, tabs and the ends of lines.
pub proof fn only_filling_is_taken_off_the_end(s: Seq<char>)
    ensures
        exists|n: int|
            {
                &&& 0 <= n <= s.len()
                &&& text::strip_back(s, |c: char| is_filling(c)) == #[trigger] s.take(n)
                &&& forall|k: int|
                    n <= k < s.len() ==> #[trigger] s[k] == ' ' || s[k] == '\n' || s[k] == '\r'
                        || s[k] == '\t'
                &&& n > 0 ==> s[n - 1] != ' ' && s[n - 1] != '\n' && s[n - 1] != '\r' && s[n - 1]
                    != '\t'
            },
{
    let f = |c: char| is_filling(c);
    let n = text::lemma_back_stripped(s, f);
    assert(text::strip_back(s, |c: char| is_filling(c)) == s.take(n));
    assert forall|k: int| n <= k < s.len() implies #[trigger] s[k] == ' ' || s[k] == '\n' || s[k]
        == '\r' || s[k] == '\t' by {
        assert(f(s[k]));
    }
    assert(n > 0 ==> !f(s[n - 1]));
}

/// A transcript that is too long keeps its end, and says that it was cut; one that is not stays whole.
pub proof fn a_long_transcript_keeps_its_end(s: Seq<char>, maximum: nat)
    ensures
        s.len() <= maximum ==> tail_of(s, maximum) == s,
        s.len() > maximum ==> {
            let cut = tail_of(s, maximum);
            &&& cut.len() > maximum
            &&& cut.skip(cut.len() - maximum) == s.skip(s.len() - maximum)
            &&& cut.take(cut.len() - maximum) == "… transcript truncated …\n"@
        },
{
    if s.len() > maximum {
        reveal_strlit("… transcript truncated …\n");
        let cut = tail_of(s, maximum);
        assert(cut.skip(cut.len() - maximum) == s.skip(s.len() - maximum));
        assert(cut.take(cut.len() - maximum) == "… transcript truncated …\n"@);
    }
}

proof fn lemma_printed_cells(cells: Seq<PrintedCell>, one: PrintedCell, n: nat)
    requires
        n <= cells.len(),
    ensures
        printed_cells(cells.push(one), n) == printed_cells(cells, n),
    decreases n,
{
    if n > 0 {
        lemma_printed_cells(cells, one, (n - 1) as nat);
    }
}

proof fn lemma_printed_lines(lines: Seq<PrintedLine>, one: PrintedLine, n: nat)
    requires
        n <= lines.len(),
    ensures
        printed_lines(lines.push(one), n) == printed_lines(lines, n),
    decreases n,
{
    if n > 0 {
        lemma_printed_lines(lines, one, (n - 1) as nat);
    }
}

/// Everything that is seen of a screen goes into what tells it from others: each cell with its text
/// and its looks, and each line with whether it goes on in the next.
pub proof fn everything_seen_tells_a_screen(
    cells: Seq<PrintedCell>,
    cell: PrintedCell,
    lines: Seq<PrintedLine>,
    line: PrintedLine,
)
    ensures
        printed_cells(Seq::empty(), 0).len() == 0,
        printed_cells(cells.push(cell), cells.len() + 1) == printed_cells(cells, cells.len())
            + cell.text@ + cell.attributes@,
        printed_lines(Seq::empty(), 0).len() == 0,
        printed_lines(lines.push(line), lines.len() + 1) == printed_lines(lines, lines.len())
            + printed_cells(line.cells@, line.cells@.len()) + seq![
            if line.wrapped {
                '\u{0}'
            } else {
                '\n'
            },
        ],
{
    lemma_printed_cells(cells, cell, cells.len());
    lemma_printed_lines(lines, line, lines.len());
}

/// A cursor above the screen is shown in its first row, and any other where it is.
pub proof fn the_cursor_is_shown_where_it_is(y: i64)
    ensures
        y >= 0 ==> cursor_row(y) == y + 1,
        y < 0 ==> cursor_row(y) == 1,
{
}

/// The picture of a screen has its size, its title and its modes, and shows its cursor counted from
/// one.
pub proof fn a_picture_shows_the_screen(
    r: TerminalScreenSnapshot,
    terminal_id: Seq<char>,
    command: Seq<char>,
    screen: EmulatedScreen,
    state: TerminalProcessState,
    exit_code: Option<u32>,
    observation: ObservationClassification,
    recent_transcript: Seq<char>,
)
    requires
        pictures(
            r,
            terminal_id,
            command,
            screen,
            state,
            exit_code,
            observation,
            recent_transcript,
        ),
    ensures
        r.terminal_id@ == terminal_id,
        r.rows == screen.rows,
        r.columns == screen.columns,
        r.screen_sequence == screen.sequence,
        r.title@ == screen.title@,
        r.alternate_screen == screen.alternate_screen,
        r.cursor.column == screen.cursor_x + 1,
        screen.cursor_y >= 0 ==> r.cursor.row == screen.cursor_y + 1,
        r.process_state == state,
        r.exit_code == exit_code,
        r.observation == observation,
        r.command@ == command,
        r.recent_transcript@ == recent_transcript,
{
}

/// What a model is told of a terminal falls at its line feeds into the lines of the terminal.
pub proof fn a_model_is_told_of_every_line(lines: Vec<CellLine>, told: String)
    requires
        call_ensures(transcript, (&lines,), told),
        lines@.len() > 0,
        forall|i: int| 0 <= i < lines@.len() ==> !(#[trigger] lines@[i]).wrapped,
        forall|i: int| 0 <= i < lines@.len() ==> !line_text(#[trigger] lines@[i]).contains('\n'),
        line_text(lines@.last()).len() > 0,
        line_text(lines@.last()).last() != ' ',
        line_text(lines@.last()).last() != '\r',
        line_text(lines@.last()).last() != '\t',
        seen_lines(lines@, lines@.len()).len() <= 30_000,
    ensures
        text::pieces(told@, '\n') == line_texts(lines@),
{
    a_transcript_splits_into_its_lines(lines@);
}

/// The last rows of a terminal are seen, as many as it shows.
pub proof fn the_last_rows_are_seen(rows: usize, shown: usize, start: usize)
    requires
        call_ensures(visible_from, (rows, shown), start),
    ensures
        start <= rows,
        rows >= shown ==> rows - start == shown,
        rows < shown ==> start == 0,
{
}

} // verus!

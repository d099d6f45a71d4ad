//! What the overlay window remembers between events.
use crate::bbox::{
    line_of_words, BboxLine, BboxLineView, BboxWord, BboxWordView, GlyphBounds, PixelPoint,
    TextSection, WordNumbers,
};
use crate::binary32::Binary32;
use crate::dom::{html_document, html_refuses, NodeView};
use crate::hocr::{
    lemma_lines_have_words, lemma_nodes_not_malformed, lines_of, lines_of_document, ocr_lines_view,
    read_hocr, HocrError, OcrWord, OcrWordView,
};
use crate::mesh::{
    build_mesh, have_words, lemma_lines_contents, lines_view, mesh_indices, mesh_vertices, Mesh,
    MAX_LINES,
};
use vstd::prelude::*;

verus! {

/// The size of the window's surface in pixels.
#[derive(Clone, Copy, Debug, PartialEq, Eq, Structural)]
pub struct Size {
    pub width: u32,
    pub height: u32,
}

/// The state of the overlay: the window's size, the size that the surface is
/// configured for, whether a recognition is running, and the lines on display.
#[derive(Debug)]
pub struct State {
    size: Size,
    config: Size,
    job_running: bool,
    ocr_text: Option<Vec<BboxLine>>,
}

/// The contents of the state.
pub struct StateView {
    pub size: Size,
    pub config: Size,
    pub job_running: bool,
    pub ocr_text: Option<Seq<BboxLineView>>,
}

impl View for State {
    type V = StateView;

    closed spec fn view(&self) -> StateView {
        StateView {
            size: self.size,
            config: self.config,
            job_running: self.job_running,
            ocr_text: match self.ocr_text {
                Some(lines) => Some(lines_view(lines@)),
                None => None,
            },
        }
    }
}

/// All words of the lines, in reading order.
pub open spec fn all_words(lines: Seq<BboxLineView>) -> Seq<BboxWordView>
    decreases lines.len(),
{
    if lines.len() == 0 {
        Seq::empty()
    } else {
        all_words(lines.drop_last()) + lines.last().words
    }
}

/// The lines, with every word highlighted that this point lies in and no other.
pub open spec fn lines_highlighted_at(lines: Seq<BboxLineView>, point: PixelPoint) -> Seq<BboxLineView> {
    Seq::new(lines.len(), |i: int| lines[i].highlighted_at(point))
}

impl StateView {
    /// What holds of the state at all times: the surface is configured for the
    /// window's size, and no line on display is without words.
    pub open spec fn inv(self) -> bool {
        &&& self.config == self.size
        &&& self.ocr_text matches Some(lines) ==> have_words(lines)
    }

    /// The words on display, in reading order.
    pub open spec fn words(self) -> Seq<BboxWordView> {
        match self.ocr_text {
            Some(lines) => all_words(lines),
            None => Seq::empty(),
        }
    }

    /// The state after the window was resized. A size without area is ignored.
    pub open spec fn resized(self, size: Size) -> StateView {
        if size.width > 0 && size.height > 0 {
            StateView { size, config: size, ..self }
        } else {
            self
        }
    }

    /// The state after a recognition was started. One that was still running is
    /// given up, and then the lines on display are too.
    pub open spec fn updated(self) -> StateView {
        StateView {
            job_running: true,
            ocr_text: if self.job_running {
                None
            } else {
                self.ocr_text
            },
            ..self
        }
    }

    /// The state after a recognition has ended with these lines.
    pub open spec fn showing(self, lines: Seq<BboxLineView>) -> StateView {
        StateView { job_running: false, ocr_text: Some(lines), ..self }
    }

    /// The state after the cursor has moved to this point.
    pub open spec fn hovered(self, point: PixelPoint) -> StateView {
        StateView {
            ocr_text: match self.ocr_text {
                Some(lines) => Some(lines_highlighted_at(lines, point)),
                None => None,
            },
            ..self
        }
    }

    /// The words that a click reports: those that are highlighted, in reading order.
    pub open spec fn clicked(self) -> Seq<BboxWordView> {
        self.words().filter(|word: BboxWordView| word.is_highlighted)
    }
}

/// The contents of borrowed words.
pub open spec fn borrowed_view(words: Seq<&BboxWord>) -> Seq<BboxWordView> {
    Seq::new(words.len(), |i: int| words[i]@)
}

impl State {
    /// The state of a window of this size, before any recognition.
    pub fn new(size: Size) -> (r: Self)
        ensures
            r@ == (StateView { size, config: size, job_running: false, ocr_text: None }),
            r@.inv(),
    {
        State { size, config: size, job_running: false, ocr_text: None }
    }

    /// The size of the window.
    pub fn size(&self) -> (r: Size)
        ensures
            r == self@.size,
    {
        self.size
    }

    /// The size that the surface is to be configured for.
    pub fn config(&self) -> (r: Size)
        ensures
            r == self@.config,
    {
        self.config
    }

    /// The lines on display.
    pub fn ocr_text(&self) -> (r: Option<&Vec<BboxLine>>)
        ensures
            match r {
                Some(lines) => self@.ocr_text == Some(lines_view(lines@)),
                None => self@.ocr_text is None,
            },
    {
        match &self.ocr_text {
            Some(lines) => Some(lines),
            None => None,
        }
    }

    /// Takes over a new size of the window, and tells whether the surface is to be
    /// configured for it.
    pub fn resize(&mut self, new_size: Size) -> (r: bool)
        ensures
            final(self)@ == old(self)@.resized(new_size),
            r == (new_size.width > 0 && new_size.height > 0),
            old(self)@.inv() ==> final(self)@.inv(),
    {
        if new_size.width > 0 && new_size.height > 0 {
            self.size = new_size;
            self.config = new_size;
            true
        } else {
            false
        }
    }

    /// Starts a recognition, and tells whether another one is running that is to be
    /// aborted.
    pub fn update(&mut self) -> (r: bool)
        ensures
            final(self)@ == old(self)@.updated(),
            r == old(self)@.job_running,
            old(self)@.inv() ==> final(self)@.inv(),
    {
        let abort = self.job_running;
        if abort {
            self.ocr_text = None;
        }
        self.job_running = true;
        abort
    }

    /// Reads the text of a recognition, where one is running and has ended. The
    /// argument is the text, or `None` while there is none yet.
    pub fn check_running_job(&self, finished: Option<&str>) -> (r: Option<
        Result<Vec<Vec<OcrWord>>, HocrError>,
    >)
        ensures
            r is Some <==> self@.job_running && finished is Some,
            r matches Some(Ok(lines)) ==> lines_of_document(html_document(finished->0@)) == Ok::<
                Seq<Seq<OcrWordView>>,
                HocrError,
            >(ocr_lines_view(lines@)),
            r matches Some(Err(e)) ==> e == HocrError::Malformed && html_refuses(finished->0)
                || html_document(finished->0@) is Some && lines_of(html_document(finished->0@)->0)
                == Err::<Seq<Seq<OcrWordView>>, HocrError>(e),
    {
        if !self.job_running {
            return None;
        }
        match finished {
            Some(text) => Some(read_hocr(text)),
            None => None,
        }
    }

    /// Ends the recognition and displays its lines.
    pub fn show(&mut self, lines: Vec<BboxLine>)
        ensures
            final(self)@ == old(self)@.showing(lines_view(lines@)),
            old(self)@.inv() && have_words(lines_view(lines@)) ==> final(self)@.inv(),
    {
        self.job_running = false;
        self.ocr_text = Some(lines);
    }

    /// The backgrounds of the lines on display.
    pub fn render(&self) -> (r: Option<Mesh>)
        requires
            self@.ocr_text matches Some(lines) ==> have_words(lines) && lines.len() <= MAX_LINES,
        ensures
            match self@.ocr_text {
                Some(lines) => {
                    &&& r is Some
                    &&& r->0.vertices@ == mesh_vertices(lines)
                    &&& r->0.indices@ == mesh_indices(lines.len())
                    &&& r->0.num_indices == 6 * lines.len()
                },
                None => r is None,
            },
    {
        match &self.ocr_text {
            Some(lines) => Some(build_mesh(lines)),
            None => None,
        }
    }

    /// The lines on display, as they are to be drawn: one section for each, in order,
    /// with glyphs of the height that is given for it.
    pub fn sections(&self, scales: &Vec<Binary32>) -> (r: Option<Vec<TextSection>>)
        requires
            self@.ocr_text matches Some(lines) ==> have_words(lines) && scales@.len()
                == lines.len(),
        ensures
            match self@.ocr_text {
                Some(lines) => {
                    &&& r is Some
                    &&& r->0@.len() == lines.len()
                    &&& forall|i: int|
                        0 <= i < lines.len() ==> (#[trigger] r->0@[i])@ == lines[i].section(
                            scales@[i],
                        )
                },
                None => r is None,
            },
    {
        match &self.ocr_text {
            Some(lines) => {
                let ghost contents = lines_view(lines@);
                let mut sections: Vec<TextSection> = Vec::new();
                for i in 0..lines.len()
                    invariant
                        contents == lines_view(lines@),
                        have_words(contents),
                        scales@.len() == contents.len(),
                        sections@.len() == i,
                        forall|j: int|
                            0 <= j < i ==> (#[trigger] sections@[j])@ == contents[j].section(
                                scales@[j],
                            ),
                {
                    assert(contents[i as int].words.len() > 0);
                    sections.push(lines[i].to_section(scales[i]));
                }
                Some(sections)
            },
            None => None,
        }
    }

    /// Highlights the words under the cursor, and tells whether there is anything on
    /// display to draw again.
    pub fn handle_cursor(&mut self, cursor_position: PixelPoint) -> (r: bool)
        ensures
            final(self)@ == old(self)@.hovered(cursor_position),
            r == (old(self)@.ocr_text is Some),
            old(self)@.inv() ==> final(self)@.inv(),
    {
        match &mut self.ocr_text {
            Some(lines) => {
                highlight_lines(lines, cursor_position);
                true
            },
            None => false,
        }
    }

    /// The words that a click reports.
    pub fn handle_click(&self) -> (r: Vec<&BboxWord>)
        ensures
            borrowed_view(r@) == self@.clicked(),
    {
        match &self.ocr_text {
            Some(lines) => highlighted_words(lines),
            None => {
                let none: Vec<&BboxWord> = Vec::new();
                assert(borrowed_view(none@) =~= self@.clicked());
                none
            },
        }
    }
}

/// Highlights the words that this point lies in, and no other.
fn highlight_lines(lines: &mut Vec<BboxLine>, position: PixelPoint)
    ensures
        lines_view(final(lines)@) == lines_highlighted_at(lines_view(old(lines)@), position),
{
    let ghost before = lines_view(lines@);
    let len = lines.len();
    for i in 0..len
        invariant
            lines@.len() == len == before.len(),
            forall|j: int|
                0 <= j < i ==> (#[trigger] lines@[j])@ == before[j].highlighted_at(position),
            forall|j: int| i <= j < before.len() ==> (#[trigger] lines@[j])@ == before[j],
    {
        lines[i].highlight(position);
    }
    assert(lines_view(lines@) =~= lines_highlighted_at(before, position));
}

/// Collects the highlighted words of all lines.
fn highlighted_words(lines: &Vec<BboxLine>) -> (r: Vec<&BboxWord>)
    ensures
        borrowed_view(r@) == all_words(lines_view(lines@)).filter(
            |word: BboxWordView| word.is_highlighted,
        ),
{
    let ghost contents = lines_view(lines@);
    let ghost marked = |word: BboxWordView| word.is_highlighted;
    let mut found: Vec<&BboxWord> = Vec::new();
    assert(borrowed_view(found@) =~= all_words(contents.take(0)).filter(marked));
    for i in 0..lines.len()
        invariant
            contents == lines_view(lines@),
            marked == (|word: BboxWordView| word.is_highlighted),
            borrowed_view(found@) == all_words(contents.take(i as int)).filter(marked),
    {
        let ghost so_far = all_words(contents.take(i as int));
        let words = &lines[i].words;
        let ghost line = contents[i as int].words;
        assert(so_far + line.take(0) =~= so_far);
        for j in 0..words.len()
            invariant
                line == contents[i as int].words,
                contents == lines_view(lines@),
                0 <= i < lines@.len(),
                *words == lines@[i as int].words,
                marked == (|word: BboxWordView| word.is_highlighted),
                borrowed_view(found@) == (so_far + line.take(j as int)).filter(marked),
        {
            let ghost before = found@;
            let word = &words[j];
            if word.is_highlighted {
                found.push(word);
                assert(borrowed_view(found@) =~= borrowed_view(before).push(word@));
            }
            proof {
                (so_far + line.take(j as int)).lemma_filter_push(word@, marked);
                assert(so_far + line.take(j + 1) =~= (so_far + line.take(j as int)).push(word@));
            }
        }
        assert(line.take(line.len() as int) =~= line);
        assert(contents.take(i + 1).drop_last() =~= contents.take(i as int));
    }
    assert(contents.take(contents.len() as int) =~= contents);
    found
}

/// Highlighting by one point wipes out what another point highlighted before.
pub proof fn lemma_hover_replaces(state: StateView, first: PixelPoint, second: PixelPoint)
    ensures
        state.hovered(first).hovered(second) == state.hovered(second),
{
    if let Some(lines) = state.ocr_text {
        let once = lines_highlighted_at(lines, second);
        let twice = lines_highlighted_at(lines_highlighted_at(lines, first), second);
        assert forall|i: int| 0 <= i < lines.len() implies once[i] == twice[i] by {
            assert(once[i].words =~= twice[i].words);
        }
        assert(once =~= twice);
    }
}

/// Moving the cursor moves no background.
pub proof fn lemma_hover_keeps_mesh(lines: Seq<BboxLineView>, point: PixelPoint)
    ensures
        mesh_vertices(lines_highlighted_at(lines, point)) == mesh_vertices(lines),
{
    let after = lines_highlighted_at(lines, point);
    assert forall|i: int| 0 <= i < lines.len() implies (#[trigger] after[i]).corners()
        == lines[i].corners() by {
        assert(after[i].min_xs() =~= lines[i].min_xs());
        assert(after[i].min_ys() =~= lines[i].min_ys());
        assert(after[i].max_xs() =~= lines[i].max_xs());
        assert(after[i].max_ys() =~= lines[i].max_ys());
    }
    assert(mesh_vertices(after) =~= mesh_vertices(lines));
}

/// The words of highlighted lines are the highlighted words of the lines.
proof fn lemma_all_words_highlighted(lines: Seq<BboxLineView>, point: PixelPoint)
    ensures
        all_words(lines_highlighted_at(lines, point)) == all_words(lines).map_values(
            |word: BboxWordView| word.highlighted_at(point),
        ),
    decreases lines.len(),
{
    let mark = |word: BboxWordView| word.highlighted_at(point);
    let after = lines_highlighted_at(lines, point);
    if lines.len() > 0 {
        lemma_all_words_highlighted(lines.drop_last(), point);
        assert(after.drop_last() =~= lines_highlighted_at(lines.drop_last(), point));
        assert(after.last().words =~= lines.last().words.map_values(mark));
    }
    assert(all_words(after) =~= all_words(lines).map_values(mark));
}

/// Which words are marked as highlighted is which words contain the point.
proof fn lemma_marked_words(words: Seq<BboxWordView>, point: PixelPoint)
    ensures
        words.map_values(|word: BboxWordView| word.highlighted_at(point)).filter(
            |word: BboxWordView| word.is_highlighted,
        ) == words.filter(|word: BboxWordView| word.contains(point)).map_values(
            |word: BboxWordView| word.highlighted_at(point),
        ),
    decreases words.len(),
{
    let mark = |word: BboxWordView| word.highlighted_at(point);
    let marked = |word: BboxWordView| word.is_highlighted;
    let hit = |word: BboxWordView| word.contains(point);
    if words.len() > 0 {
        let rest = words.drop_last();
        let word = words.last();
        lemma_marked_words(rest, point);
        assert(words =~= rest.push(word));
        assert(words.map_values(mark) =~= rest.map_values(mark).push(mark(word)));
        rest.map_values(mark).lemma_filter_push(mark(word), marked);
        rest.lemma_filter_push(word, hit);
        if hit(word) {
            assert(rest.filter(hit).push(word).map_values(mark) =~= rest.filter(hit).map_values(
                mark,
            ).push(mark(word)));
        }
    } else {
        assert(words.map_values(mark) =~= Seq::empty());
        assert(words.filter(hit) =~= Seq::empty());
        assert(words.filter(hit).map_values(mark) =~= Seq::empty());
    }
}

/// A click reports exactly the words that contain the point that the cursor was
/// last moved to, in reading order.
pub proof fn lemma_click_reports_words_under_cursor(state: StateView, point: PixelPoint)
    ensures
        state.hovered(point).clicked() == state.words().filter(
            |word: BboxWordView| word.contains(point),
        ).map_values(|word: BboxWordView| word.highlighted_at(point)),
{
    if let Some(lines) = state.ocr_text {
        lemma_all_words_highlighted(lines, point);
    } else {
        assert(state.words().map_values(|word: BboxWordView| word.highlighted_at(point))
            =~= Seq::empty());
    }
    lemma_marked_words(state.words(), point);
}

/// The lines that were read from a document can be shown: whatever numbers are
/// found for their words and wherever their glyphs are placed, each has words.
pub proof fn lemma_read_lines_can_be_shown(
    nodes: Seq<NodeView>,
    numbers: Seq<Seq<WordNumbers>>,
    glyphs: Seq<Seq<GlyphBounds>>,
)
    ensures
        lines_of(nodes) matches Ok(lines) ==> have_words(
            Seq::new(
                lines.len(),
                |i: int| line_of_words(lines[i], numbers[i]).placed(glyphs[i]),
            ),
        ),
{
    lemma_lines_have_words(nodes);
}

/// While a recognition runs, the lines of the one before stay on display; when it
/// is started anew before it has ended, they go.
pub proof fn lemma_lines_outlive_one_update(state: StateView, lines: Seq<BboxLineView>)
    ensures
        state.showing(lines).updated().ocr_text == Some(lines),
        state.showing(lines).updated().updated().ocr_text is None,
{
}

/// The contents of a state are its fields.
proof fn lemma_state_contents(state: State, i: int)
    ensures
        state@.size == state.size,
        state@.config == state.config,
        state@.job_running == state.job_running,
        state@.ocr_text is Some <==> state.ocr_text is Some,
        state.ocr_text matches Some(lines) ==> {
            &&& state@.ocr_text->0.len() == lines@.len()
            &&& 0 <= i < lines@.len() ==> state@.ocr_text->0[i] == lines@[i]@
        },
{
}

/// The contents of borrowed words are those of the words, in order.
pub proof fn lemma_borrowed_contents(words: Seq<&BboxWord>, i: int)
    requires
        0 <= i < words.len(),
    ensures
        borrowed_view(words).len() == words.len(),
        borrowed_view(words)[i] == words[i]@,
{
}

/// What holds at all times, field by field.
pub proof fn lemma_inv_contents(state: StateView)
    ensures
        state.inv() <==> {
            &&& state.config.width == state.size.width
            &&& state.config.height == state.size.height
            &&& state.ocr_text matches Some(lines) ==> forall|i: int|
                0 <= i < lines.len() ==> (#[trigger] lines[i]).words.len() > 0
        },
{
}

/// How many words stand in the first `i` of these lines.
pub open spec fn words_before(lines: Seq<BboxLineView>, i: int) -> nat
    decreases i,
{
    if i <= 0 {
        0
    } else {
        words_before(lines, i - 1) + lines[i - 1].words.len()
    }
}

/// Lines in a row have the words of the first ones, then those of the others.
pub proof fn lemma_all_words_append(a: Seq<BboxLineView>, b: Seq<BboxLineView>)
    ensures
        all_words(a + b) == all_words(a) + all_words(b),
    decreases b.len(),
{
    if b.len() == 0 {
        assert(a + b =~= a);
        assert(all_words(a) + all_words(b) =~= all_words(a));
    } else {
        lemma_all_words_append(a, b.drop_last());
        assert((a + b).drop_last() =~= a + b.drop_last());
        assert((a + b).last() == b.last());
        assert(all_words(a + b) =~= all_words(a) + all_words(b));
    }
}

/// Among all words, word `j` of line `i` comes after the words of the lines before and
/// after `j` words of its own line; and there are as many as the lines have together,
/// however many lines there are.
pub proof fn lemma_word_position(lines: Seq<BboxLineView>, i: int, j: int)
    requires
        0 <= i < lines.len(),
        0 <= j < lines[i].words.len(),
    ensures
        all_words(lines).len() == words_before(lines, lines.len() as int),
        words_before(lines, i) + j < all_words(lines).len(),
        all_words(lines)[words_before(lines, i) + j] == lines[i].words[j],
{
    lemma_word_count(lines);
    lemma_word_count(lines.take(i));
    lemma_words_before_take(lines, i, i);
    let rest = lines.skip(i);
    assert(lines =~= lines.take(i) + rest);
    lemma_all_words_append(lines.take(i), rest);
    assert(rest =~= seq![lines[i]] + rest.drop_first());
    lemma_all_words_append(seq![lines[i]], rest.drop_first());
    lemma_words_of_one_line(lines[i]);
}

/// The words of lines, counted.
proof fn lemma_word_count(lines: Seq<BboxLineView>)
    ensures
        all_words(lines).len() == words_before(lines, lines.len() as int),
    decreases lines.len(),
{
    if lines.len() > 0 {
        let rest = lines.drop_last();
        lemma_word_count(rest);
        assert(rest =~= lines.take(lines.len() - 1));
        lemma_words_before_take(lines, lines.len() - 1, lines.len() - 1);
    }
}

/// Later lines do not matter for the words before.
proof fn lemma_words_before_take(lines: Seq<BboxLineView>, n: int, i: int)
    requires
        0 <= i <= n <= lines.len(),
    ensures
        words_before(lines.take(n), i) == words_before(lines, i),
    decreases i,
{
    if i > 0 {
        lemma_words_before_take(lines, n, i - 1);
        assert(lines.take(n)[i - 1] == lines[i - 1]);
    }
}

/// One line has its own words, and no line has none.
pub proof fn lemma_words_of_one_line(line: BboxLineView)
    ensures
        all_words(Seq::empty()) == Seq::<BboxWordView>::empty(),
        all_words(seq![line]) == line.words,
{
    let none = Seq::<BboxLineView>::empty();
    assert(seq![line].drop_last() =~= none);
    assert(all_words(none) =~= Seq::empty());
    assert(all_words(seq![line]) =~= line.words);
}

/// A click reports every highlighted word of every line on display, and nothing else.
pub proof fn lemma_click_reports_each_word(
    state: &State,
    r: Vec<&BboxWord>,
    lines: Seq<BboxLineView>,
    i: int,
    j: int,
    k: int,
)
    requires
        call_ensures(State::handle_click, (state,), r),
        state@.ocr_text == Some(lines),
    ensures
        0 <= i < lines.len() && 0 <= j < lines[i].words.len() && lines[i].words[j].is_highlighted
            ==> exists|n: int| 0 <= n < r@.len() && (#[trigger] r@[n])@ == lines[i].words[j],
        0 <= k < r@.len() ==> r@[k].is_highlighted && exists|a: int, b: int|
            0 <= a < lines.len() && 0 <= b < lines[a].words.len() && #[trigger] lines[a].words[b]
                == r@[k]@,
{
    let marked = |word: BboxWordView| word.is_highlighted;
    let all = all_words(lines);
    let found = borrowed_view(r@);
    assert(found == all.filter(marked));
    if 0 <= i < lines.len() && 0 <= j < lines[i].words.len() && lines[i].words[j].is_highlighted {
        lemma_word_position(lines, i, j);
        let at = words_before(lines, i) + j;
        all.lemma_filter_contains(marked, at);
        let n = choose|n: int| 0 <= n < found.len() && found[n] == all[at];
        assert(r@[n]@ == lines[i].words[j]);
    }
    if 0 <= k < r@.len() {
        let word = found[k];
        assert(word == r@[k]@);
        all.lemma_filter_contains_rev(marked, word);
        let at = choose|n: int| 0 <= n < all.len() && all[n] == word;
        lemma_word_in_line(lines, at);
        assert(marked(word)) by {
            all.lemma_filter_pred(marked, k);
        }
    }
}

/// Each of all words stands in one of the lines.
proof fn lemma_word_in_line(lines: Seq<BboxLineView>, at: int)
    requires
        0 <= at < all_words(lines).len(),
    ensures
        exists|a: int, b: int|
            0 <= a < lines.len() && 0 <= b < lines[a].words.len() && #[trigger] lines[a].words[b]
                == all_words(lines)[at],
    decreases lines.len(),
{
    let rest = lines.drop_last();
    let before = all_words(rest).len();
    if at < before {
        lemma_word_in_line(rest, at);
        let (a, b) = choose|a: int, b: int|
            0 <= a < rest.len() && 0 <= b < rest[a].words.len() && #[trigger] rest[a].words[b]
                == all_words(rest)[at];
        assert(lines[a].words[b] == all_words(lines)[at]);
    } else {
        assert(lines[lines.len() - 1].words[at - before] == all_words(lines)[at]);
    }
}

/// What a click reports of lines in a row is what it reports of the first ones, then
/// what it reports of the others.
pub proof fn lemma_click_append(
    first: &State,
    second: &State,
    both: &State,
    a: Seq<BboxLineView>,
    b: Seq<BboxLineView>,
    from_first: Vec<&BboxWord>,
    from_second: Vec<&BboxWord>,
    from_both: Vec<&BboxWord>,
)
    requires
        first@.ocr_text == Some(a),
        second@.ocr_text == Some(b),
        both@.ocr_text == Some(a + b),
        call_ensures(State::handle_click, (first,), from_first),
        call_ensures(State::handle_click, (second,), from_second),
        call_ensures(State::handle_click, (both,), from_both),
    ensures
        borrowed_view(from_both@) == borrowed_view(from_first@) + borrowed_view(from_second@),
{
    lemma_all_words_append(a, b);
    Seq::filter_distributes_over_add(
        all_words(a),
        all_words(b),
        |word: BboxWordView| word.is_highlighted,
    );
}

/// A word at the end of a line is reported last by a click on that line alone if it is
/// highlighted, and not at all otherwise.
pub proof fn lemma_click_word_added(
    shorter: &State,
    longer: &State,
    line: BboxLineView,
    word: BboxWordView,
    from_shorter: Vec<&BboxWord>,
    from_longer: Vec<&BboxWord>,
)
    requires
        shorter@.ocr_text == Some(seq![line]),
        longer@.ocr_text == Some(seq![BboxLineView { words: line.words.push(word), ..line }]),
        call_ensures(State::handle_click, (shorter,), from_shorter),
        call_ensures(State::handle_click, (longer,), from_longer),
    ensures
        borrowed_view(from_longer@) == (if word.is_highlighted {
            borrowed_view(from_shorter@).push(word)
        } else {
            borrowed_view(from_shorter@)
        }),
{
    let more = BboxLineView { words: line.words.push(word), ..line };
    lemma_words_of_one_line(line);
    lemma_words_of_one_line(more);
    line.words.lemma_filter_push(word, |word: BboxWordView| word.is_highlighted);
}

/// A click reports nothing where nothing is on display, or no line is, or only a line
/// without words.
pub proof fn lemma_click_on_nothing(state: &State, r: Vec<&BboxWord>, is_highlighted: bool)
    requires
        call_ensures(State::handle_click, (state,), r),
        state@.ocr_text matches Some(lines) ==> lines == Seq::<BboxLineView>::empty() || lines
            == seq![BboxLineView { words: Seq::empty(), is_highlighted }],
    ensures
        r@.len() == 0,
{
    let line = BboxLineView { words: Seq::empty(), is_highlighted };
    lemma_words_of_one_line(line);
    assert(state@.words() =~= Seq::empty());
    assert(state@.clicked() =~= Seq::empty());
    assert(borrowed_view(r@).len() == r@.len());
}

/// Moving the cursor marks each word of each line exactly if the cursor lies in the
/// word's box, whatever else the word holds, and changes nothing else of the state.
/// There is something to draw again exactly where there are lines on display.
pub proof fn lemma_hover_marks_words(
    state: &mut State,
    point: PixelPoint,
    r: bool,
    i: int,
    j: int,
)
    requires
        call_ensures(State::handle_cursor, (state, point), r),
    ensures
        r <==> old(state)@.ocr_text is Some,
        final(state)@.size == old(state)@.size,
        final(state)@.config == old(state)@.config,
        final(state)@.job_running == old(state)@.job_running,
        final(state)@.ocr_text is Some <==> old(state)@.ocr_text is Some,
        old(state)@.ocr_text matches Some(lines) ==> {
            let after = final(state)@.ocr_text->0;
            &&& after.len() == lines.len()
            &&& 0 <= i < lines.len() ==> {
                &&& after[i].is_highlighted == lines[i].is_highlighted
                &&& after[i].words.len() == lines[i].words.len()
                &&& 0 <= j < lines[i].words.len() ==> {
                    let word = lines[i].words[j];
                    &&& after[i].words[j].is_highlighted <==> word.min.x.is_less(point.x)
                        && point.x.is_at_most(word.max.x) && word.min.y.is_less(point.y)
                        && point.y.is_at_most(word.max.y)
                    &&& after[i].words[j].text == word.text
                    &&& after[i].words[j].min == word.min
                    &&& after[i].words[j].max == word.max
                    &&& after[i].words[j].confidence == word.confidence
                    &&& after[i].words[j].language == word.language
                }
            }
        },
{
}

/// A click after the cursor was moved reports a word of any line exactly if the cursor
/// lies in the word's box: then the word is among those reported, and each word that is
/// reported has the cursor in its box.
pub proof fn lemma_click_after_hover(
    state: &mut State,
    point: PixelPoint,
    moved: bool,
    r: Vec<&BboxWord>,
    i: int,
    j: int,
    k: int,
)
    requires
        call_ensures(State::handle_cursor, (state, point), moved),
        call_ensures(State::handle_click, (final(state),), r),
        old(state)@.ocr_text is Some,
        0 <= i < old(state)@.ocr_text->0.len(),
        0 <= j < old(state)@.ocr_text->0[i].words.len(),
    ensures
        ({
            let word = old(state)@.ocr_text->0[i].words[j];
            word.min.x.is_less(point.x) && point.x.is_at_most(word.max.x) && word.min.y.is_less(
                point.y,
            ) && point.y.is_at_most(word.max.y) ==> exists|n: int|
                0 <= n < r@.len() && (#[trigger] r@[n])@ == (BboxWordView {
                    is_highlighted: true,
                    ..word
                })
        }),
        0 <= k < r@.len() ==> r@[k].min.x.is_less(point.x) && point.x.is_at_most(r@[k].max.x)
            && r@[k].min.y.is_less(point.y) && point.y.is_at_most(r@[k].max.y),
{
    let lines = state@.ocr_text->0;
    let after = lines_highlighted_at(lines, point);
    lemma_click_reports_each_word(final(state), r, after, i, j, k);
    assert(after[i].words[j] == lines[i].words[j].highlighted_at(point));
    if 0 <= k < r@.len() {
        let (a, b) = choose|a: int, b: int|
            0 <= a < after.len() && 0 <= b < after[a].words.len() && #[trigger] after[a].words[b]
                == r@[k]@;
        assert(after[a].words[b] == lines[a].words[b].highlighted_at(point));
        assert(r@[k]@.min == r@[k].min && r@[k]@.max == r@[k].max);
        assert(r@[k]@.is_highlighted == r@[k].is_highlighted);
    }
}

/// A new size with area is taken over both as the window's and as the surface's, and
/// the surface is to be configured anew exactly then; one without area is not taken
/// over. Nothing else changes.
pub proof fn lemma_resize_changes(state: &mut State, size: Size, r: bool)
    requires
        call_ensures(State::resize, (state, size), r),
    ensures
        r <==> size.width > 0 && size.height > 0,
        r ==> {
            &&& final(state)@.size.width == size.width
            &&& final(state)@.size.height == size.height
            &&& final(state)@.config.width == size.width
            &&& final(state)@.config.height == size.height
        },
        !r ==> final(state)@.size == old(state)@.size && final(state)@.config == old(state)@.config,
        final(state)@.job_running == old(state)@.job_running,
        final(state)@.ocr_text == old(state)@.ocr_text,
{
}

/// Starting a recognition keeps the sizes, and the lines on display unless another
/// recognition was running, which is to be aborted exactly then.
pub proof fn lemma_update_changes(state: &mut State, r: bool)
    requires
        call_ensures(State::update, (state,), r),
    ensures
        r == old(state)@.job_running,
        final(state)@.job_running,
        final(state)@.size == old(state)@.size,
        final(state)@.config == old(state)@.config,
        r ==> final(state)@.ocr_text is None,
        !r ==> final(state)@.ocr_text == old(state)@.ocr_text,
{
}

/// Ending a recognition replaces the lines on display, all of them, and keeps the
/// sizes.
pub proof fn lemma_show_changes(state: &mut State, lines: Vec<BboxLine>, i: int)
    requires
        call_ensures(State::show, (state, lines), ()),
    ensures
        !final(state)@.job_running,
        final(state)@.size == old(state)@.size,
        final(state)@.config == old(state)@.config,
        final(state)@.ocr_text matches Some(shown) && shown.len() == lines@.len() && (0 <= i
            < lines@.len() ==> shown[i] == lines@[i]@),
{
}

/// No event makes a state that does not hold at all times out of one that does, as long
/// as no line without words is shown.
pub proof fn lemma_inv_kept(
    resized: &mut State,
    size: Size,
    updated: &mut State,
    moved: &mut State,
    point: PixelPoint,
    shown: &mut State,
    lines: Vec<BboxLine>,
    done: (bool, bool, bool),
)
    requires
        call_ensures(State::resize, (resized, size), done.0),
        call_ensures(State::update, (updated,), done.1),
        call_ensures(State::handle_cursor, (moved, point), done.2),
        call_ensures(State::show, (shown, lines), ()),
        forall|i: int| 0 <= i < lines@.len() ==> (#[trigger] lines@[i]).words@.len() > 0,
    ensures
        old(resized)@.inv() ==> final(resized)@.inv(),
        old(updated)@.inv() ==> final(updated)@.inv(),
        old(moved)@.inv() ==> final(moved)@.inv(),
        old(shown)@.inv() ==> final(shown)@.inv(),
{
    if lines@.len() > 0 {
        lemma_lines_contents(lines@, 0);
    }
}

/// What can be asked of a state is what it holds.
pub proof fn lemma_state_read(
    state: &State,
    size: Size,
    config: Size,
    lines: Option<&Vec<BboxLine>>,
    i: int,
)
    requires
        call_ensures(State::size, (state,), size),
        call_ensures(State::config, (state,), config),
        call_ensures(State::ocr_text, (state,), lines),
    ensures
        size == state@.size,
        config == state@.config,
        lines is Some <==> state@.ocr_text is Some,
        lines matches Some(shown) ==> state@.ocr_text->0.len() == shown@.len() && (0 <= i
            < shown@.len() ==> state@.ocr_text->0[i] == shown@[i]@),
{
}

/// A new state has the size that it was made for, both as the window's and as the
/// surface's, no recognition and no lines.
pub proof fn lemma_new_state(size: Size, r: State)
    requires
        call_ensures(State::new, (size,), r),
    ensures
        r@.size == size,
        r@.config == size,
        !r@.job_running,
        r@.ocr_text is None,
{
}

/// The answer to whether a recognition has ended is none while none runs or no text is
/// there. Else it is the answer to the text: malformed only where the `html_parser`
/// crate refuses the text, and otherwise what the nodes of the text give.
pub proof fn lemma_job_answers(
    state: &State,
    finished: Option<&str>,
    r: Option<Result<Vec<Vec<OcrWord>>, HocrError>>,
)
    requires
        call_ensures(State::check_running_job, (state, finished), r),
    ensures
        r is None <==> !state@.job_running || finished is None,
        r matches Some(answer) ==> {
            &&& answer == Err::<Vec<Vec<OcrWord>>, HocrError>(HocrError::Malformed)
                ==> html_refuses(finished->0)
            &&& answer != Err::<Vec<Vec<OcrWord>>, HocrError>(HocrError::Malformed) ==> {
                &&& html_document(finished->0@) is Some
                &&& lines_of(html_document(finished->0@)->0) == (match answer {
                    Ok(lines) => Ok(ocr_lines_view(lines@)),
                    Err(e) => Err::<Seq<Seq<OcrWordView>>, HocrError>(e),
                })
            }
        },
{
    if let Some(text) = finished {
        if let Some(nodes) = html_document(text@) {
            lemma_nodes_not_malformed(nodes);
        }
    }
}

/// The backgrounds that are drawn are those of all lines on display.
pub proof fn lemma_render_draws_lines(
    state: &State,
    r: Option<Mesh>,
    lines: &Vec<BboxLine>,
    mesh: Mesh,
)
    requires
        call_ensures(State::render, (state,), r),
        state@.ocr_text matches Some(shown) ==> shown == lines_view(lines@),
        have_words(lines_view(lines@)),
        lines@.len() <= MAX_LINES,
        call_ensures(build_mesh, (lines,), mesh),
    ensures
        r is Some <==> state@.ocr_text is Some,
        r matches Some(drawn) ==> {
            &&& drawn.vertices@ == mesh.vertices@
            &&& drawn.indices@ == mesh.indices@
            &&& drawn.num_indices == mesh.num_indices
        },
{
}

/// The sections that are drawn are those of all lines on display, each in its place and
/// with its own height.
pub proof fn lemma_sections_drawn(
    state: &State,
    scales: &Vec<Binary32>,
    r: Option<Vec<TextSection>>,
    lines: &Vec<BboxLine>,
    i: int,
    section: TextSection,
)
    requires
        call_ensures(State::sections, (state, scales), r),
        state@.ocr_text matches Some(shown) ==> shown == lines_view(lines@),
        have_words(lines_view(lines@)),
        scales@.len() == lines@.len(),
        0 <= i < lines@.len(),
        call_ensures(BboxLine::to_section, (&lines@[i], scales@[i]), section),
    ensures
        r is Some <==> state@.ocr_text is Some,
        r matches Some(drawn) ==> drawn@.len() == lines@.len() && drawn@[i]@ == section@,
{
    lemma_lines_contents(lines@, i);
}

} // verus!

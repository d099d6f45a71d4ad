use screen_ocr::bbox::{
    BboxLine, BboxWord, GlyphBounds, PixelPoint, Rgb, Rgba, SupportedLanguages, Vertex, WordNumbers,
};
use screen_ocr::binary32::Binary32;
use screen_ocr::hocr::{HocrError, OcrWord};
use screen_ocr::mesh::{
    buffer_bytes, build_mesh, vertex_data, INDEX_BUFFER_SIZE, VERTEX_BUFFER_SIZE, VERTEX_SIZE,
};
use screen_ocr::state::{Size, State};

fn num(value: f32) -> Binary32 {
    Binary32 { bits: value.to_bits() }
}

fn point(x: f32, y: f32) -> PixelPoint {
    PixelPoint::new(num(x), num(y))
}

fn ocr_word(text: &str) -> OcrWord {
    OcrWord {
        text: text.to_string(),
        x: 0,
        y: 0,
        x2: 0,
        y2: 0,
        confidence: String::new(),
    }
}

fn numbers(x: f32, y: f32, x2: f32, y2: f32, confidence: f32) -> WordNumbers {
    WordNumbers { x: num(x), y: num(y), x2: num(x2), y2: num(y2), confidence: num(confidence) }
}

fn word(text: &str, x: f32, y: f32, x2: f32, y2: f32) -> BboxWord {
    BboxWord::new(ocr_word(text), numbers(x, y, x2, y2, 95.0))
}

fn sample() -> Vec<BboxLine> {
    vec![
        BboxLine::new(vec![word("one", 10.0, 12.0, 30.0, 20.0), word("two", 29.0, 10.0, 60.0, 22.5)]),
        BboxLine::new(vec![word("three", 5.0, 40.0, 50.0, 55.0)]),
    ]
}

fn shown() -> State {
    let mut state = State::new(Size { width: 640, height: 480 });
    state.show(sample());
    state
}

fn clicked(state: &State) -> Vec<String> {
    state.handle_click().iter().map(|word| word.text.clone()).collect()
}

fn rgba(color: Rgba) -> [f32; 4] {
    [color.r, color.g, color.b, color.a].map(|part| f32::from_bits(part.bits))
}

#[test]
fn new_word_is_plain_traditional_chinese() {
    let w = word("a", 1.0, 2.0, 3.0, 4.0);
    assert_eq!(w.text, "a");
    assert_eq!(w.min, point(1.0, 2.0));
    assert_eq!(w.max, point(3.0, 4.0));
    assert!(!w.is_highlighted);
    assert_eq!(w.confidence, num(95.0));
    assert_eq!(w.language, SupportedLanguages::ChiTra);
}

#[test]
fn box_is_open_on_the_left_and_closed_on_the_right() {
    let w = word("a", 10.0, 20.0, 30.0, 40.0);
    assert!(w.is_within_bounds(point(20.0, 30.0)));
    assert!(w.is_within_bounds(point(30.0, 40.0)));
    assert!(!w.is_within_bounds(point(10.0, 30.0)));
    assert!(!w.is_within_bounds(point(20.0, 20.0)));
    assert!(!w.is_within_bounds(point(30.001, 30.0)));
    assert!(!w.is_within_bounds(point(20.0, 40.001)));
    assert!(!w.is_within_bounds(point(f32::NAN, 30.0)));
    assert!(!word("b", f32::NAN, 0.0, 9.0, 9.0).is_within_bounds(point(5.0, 5.0)));
}

#[test]
fn colour_shows_highlight_then_confidence() {
    let mut w = word("a", 0.0, 0.0, 1.0, 1.0);
    assert_eq!(rgba(w.get_colour()), [0.0, 0.0, 0.0, 1.0]);
    w.confidence = num(90.0);
    assert_eq!(rgba(w.get_colour()), [0.0, 0.0, 0.0, 1.0]);
    w.confidence = num(89.99);
    assert_eq!(rgba(w.get_colour()), [1.0, 0.0, 0.0, 1.0]);
    w.confidence = num(f32::NAN);
    assert_eq!(rgba(w.get_colour()), [0.0, 0.0, 0.0, 1.0]);
    w.is_highlighted = true;
    assert_eq!(rgba(w.get_colour()), [0.0, 1.0, 0.0, 1.0]);
}

#[test]
fn language_chooses_the_font() {
    let mut w = word("a", 0.0, 0.0, 1.0, 1.0);
    assert_eq!(w.to_text(num(7.5)).font_id, 1);
    w.language = SupportedLanguages::Eng;
    let run = w.to_text(num(7.5));
    assert_eq!(run.font_id, 0);
    assert_eq!(run.text, "a");
    assert_eq!(run.scale, num(7.5));
    assert_eq!(rgba(run.color), [0.0, 0.0, 0.0, 1.0]);
}

#[test]
fn corners_are_the_outermost_coordinates() {
    let line = &sample()[0];
    assert_eq!(line.get_min(), point(10.0, 10.0));
    assert_eq!(line.get_max(), point(60.0, 22.5));
    let signs = BboxLine::new(vec![word("a", 0.0, -1.0, -0.0, -1.0), word("b", -0.0, -2.0, 0.0, -3.0)]);
    assert_eq!(signs.get_min(), point(-0.0, -2.0));
    assert_eq!(signs.get_max(), point(0.0, -1.0));
    let nan = BboxLine::new(vec![word("a", f32::NAN, 1.0, 2.0, 3.0), word("b", 4.0, 1.0, f32::NAN, 3.0)]);
    assert_eq!(nan.get_min(), point(4.0, 1.0));
    assert_eq!(nan.get_max(), point(f32::NAN, 3.0));
}

#[test]
fn line_contains_its_words() {
    let line = &sample()[0];
    for (x, y) in [(20.0, 15.0), (30.0, 20.0), (60.0, 22.5), (29.5, 10.5)] {
        let p = point(x, y);
        assert!(line.words.iter().any(|w| w.is_within_bounds(p)));
        assert!(line.is_within_bounds(p));
    }
    assert!(line.is_within_bounds(point(15.0, 11.0)));
    assert!(!line.is_within_bounds(point(10.0, 15.0)));
    assert!(!line.is_within_bounds(point(61.0, 15.0)));
}

#[test]
fn section_starts_at_the_corner_with_one_run_for_each_word() {
    let section = sample()[0].to_section(num(12.5));
    assert_eq!(section.screen_position, point(10.0, 10.0));
    let texts: Vec<&str> = section.text.iter().map(|run| run.text.as_str()).collect();
    assert_eq!(texts, vec!["one", "two"]);
    assert!(section.text.iter().all(|run| run.scale == num(12.5) && run.font_id == 1));
}

#[test]
fn background_is_two_triangles_over_four_corners() {
    let (vertices, indices) = sample()[0].to_vertices(8);
    let white = Rgb { r: num(1.0), g: num(1.0), b: num(1.0) };
    let expected: Vec<Vertex> = [(10.0, 10.0), (60.0, 10.0), (10.0, 22.5), (60.0, 22.5)]
        .iter()
        .map(|(x, y)| Vertex { position: point(*x, *y), color: white })
        .collect();
    assert_eq!(vertices, expected);
    assert_eq!(indices, vec![8, 9, 10, 10, 9, 11]);
    let (_, last) = sample()[0].to_vertices(u32::MAX - 3);
    assert_eq!(last[5], u32::MAX);
}

#[test]
fn last_glyph_of_a_word_gives_its_box() {
    let mut lines = sample();
    let line = &mut lines[0];
    let glyph = |i: usize, x: f32| GlyphBounds { section_index: i, min: point(x, 1.0), max: point(x + 1.0, 2.0) };
    line.place_glyphs(&vec![glyph(1, 100.0), glyph(1, 200.0)]);
    assert_eq!(line.words[0].min, point(10.0, 12.0));
    assert_eq!(line.words[0].max, point(30.0, 20.0));
    assert_eq!(line.words[1].min, point(200.0, 1.0));
    assert_eq!(line.words[1].max, point(201.0, 2.0));
    assert_eq!(line.words[1].text, "two");
    line.place_glyphs(&vec![]);
    assert_eq!(line.words[1].min, point(200.0, 1.0));
}

#[test]
fn mesh_joins_all_lines() {
    let mesh = build_mesh(&sample());
    assert_eq!(mesh.vertices.len(), 8);
    assert_eq!(mesh.vertices[4].position, point(5.0, 40.0));
    assert_eq!(mesh.vertices[7].position, point(50.0, 55.0));
    assert_eq!(mesh.indices, vec![0, 1, 2, 2, 1, 3, 4, 5, 6, 6, 5, 7]);
    assert_eq!(mesh.num_indices, 12);
    for (k, index) in mesh.indices.iter().enumerate() {
        assert_eq!(*index as usize / 4, k / 6);
    }
    for vertex in 0..8 {
        assert!(mesh.indices.contains(&vertex));
    }
    assert_eq!(build_mesh(&vec![]).num_indices, 0);
}

#[test]
fn buffers_hold_the_memory_of_their_numbers() {
    let words = vec![0x0102_0304, 0, u32::MAX, num(1.0).bits];
    let mut expected: Vec<u8> = Vec::new();
    for word in &words {
        expected.extend_from_slice(&word.to_ne_bytes());
    }
    let bytes = buffer_bytes(&words);
    assert_eq!(bytes, expected.as_slice());
    for (i, word) in words.iter().enumerate() {
        let read = u32::from_ne_bytes([bytes[4 * i], bytes[4 * i + 1], bytes[4 * i + 2], bytes[4 * i + 3]]);
        assert_eq!(read, *word);
    }
    assert!(buffer_bytes(&vec![]).is_empty());
}

#[test]
fn vertices_are_position_then_colour() {
    let color = Rgb { r: num(0.25), g: num(0.5), b: num(0.75) };
    let vertices = vec![
        Vertex { position: point(1.0, 2.0), color },
        Vertex { position: point(3.0, 4.0), color },
    ];
    let expected: Vec<u32> = [1.0, 2.0, 0.25, 0.5, 0.75, 3.0, 4.0, 0.25, 0.5, 0.75]
        .iter()
        .map(|value: &f32| value.to_bits())
        .collect();
    let data = vertex_data(&vertices);
    assert_eq!(data, expected);
    assert_eq!(buffer_bytes(&data).len(), 40);
}

#[test]
fn fresh_state_shows_nothing() {
    let mut state = State::new(Size { width: 0, height: 7 });
    assert_eq!(state.size(), Size { width: 0, height: 7 });
    assert_eq!(state.config(), state.size());
    assert!(state.ocr_text().is_none());
    assert!(state.render().is_none());
    assert!(!state.handle_cursor(point(1.0, 1.0)));
    assert!(state.handle_click().is_empty());
    assert!(state.check_running_job(Some("")).is_none());
}

#[test]
fn sizes_without_area_are_ignored() {
    let mut state = shown();
    assert!(state.resize(Size { width: 800, height: 600 }));
    assert_eq!(state.size(), Size { width: 800, height: 600 });
    assert_eq!(state.config(), state.size());
    assert!(!state.resize(Size { width: 0, height: 5 }));
    assert!(!state.resize(Size { width: 5, height: 0 }));
    assert_eq!(state.size(), Size { width: 800, height: 600 });
    assert_eq!(state.config(), state.size());
    assert!(state.ocr_text().is_some());
}

#[test]
fn lines_outlive_one_update() {
    let mut state = shown();
    assert!(!state.update());
    assert!(state.ocr_text().is_some());
    assert!(state.update());
    assert!(state.ocr_text().is_none());
    assert!(state.update());
}

#[test]
fn running_job_is_read_once_it_has_ended() {
    let mut state = State::new(Size { width: 1, height: 1 });
    state.update();
    assert!(state.check_running_job(None).is_none());
    let text = "<span class='ocr_line'><i title='bbox 4 8 12 16; x_wconf 96'>a</i></span>";
    let lines = state.check_running_job(Some(text)).unwrap().unwrap();
    assert_eq!(lines.len(), 1);
    assert_eq!(lines[0][0].text, "a");
    assert_eq!(lines[0][0].x2, 12);
    assert_eq!(state.check_running_job(Some("<head></head>")).unwrap().unwrap_err(), HocrError::Malformed);
    state.show(sample());
    assert!(state.check_running_job(Some(text)).is_none());
    assert!(!state.update());
}

#[test]
fn cursor_highlights_the_words_under_it() {
    let mut state = shown();
    assert!(state.handle_cursor(point(29.5, 15.0)));
    assert_eq!(clicked(&state), vec!["one", "two"]);
    assert!(state.handle_cursor(point(15.0, 15.0)));
    assert_eq!(clicked(&state), vec!["one"]);
    assert!(state.handle_cursor(point(20.0, 50.0)));
    assert_eq!(clicked(&state), vec!["three"]);
    assert!(state.handle_cursor(point(0.0, 0.0)));
    assert!(clicked(&state).is_empty());
}

#[test]
fn cursor_moves_no_background() {
    let mut state = shown();
    let before = state.render().unwrap();
    state.handle_cursor(point(29.5, 15.0));
    let after = state.render().unwrap();
    assert_eq!(before.vertices, after.vertices);
    assert_eq!(before.indices, after.indices);
    assert_eq!(after.num_indices, 12);
}

#[test]
fn glyphs_can_be_placed_in_batches() {
    let glyph = |i: usize, x: f32| GlyphBounds { section_index: i, min: point(x, 1.0), max: point(x + 1.0, 2.0) };
    let mut at_once = sample().remove(0);
    let mut in_batches = sample().remove(0);
    at_once.place_glyphs(&vec![glyph(0, 1.0), glyph(1, 2.0), glyph(0, 3.0)]);
    in_batches.place_glyphs(&vec![glyph(0, 1.0), glyph(1, 2.0)]);
    in_batches.place_glyphs(&vec![glyph(0, 3.0)]);
    for i in 0..2 {
        assert_eq!(at_once.words[i].min, in_batches.words[i].min);
        assert_eq!(at_once.words[i].max, in_batches.words[i].max);
    }
    assert_eq!(at_once.words[0].min, point(3.0, 1.0));
    assert_eq!(at_once.words[1].min, point(2.0, 1.0));
}

#[test]
fn words_are_paired_with_their_numbers() {
    let words = vec![ocr_word("a"), ocr_word("b")];
    let line = BboxLine::from_words(
        words,
        &vec![numbers(1.0, 2.0, 3.0, 4.0, 50.0), numbers(5.0, 6.0, 7.0, 8.0, 99.0)],
    );
    assert!(!line.is_highlighted);
    assert_eq!(line.words.len(), 2);
    assert_eq!(line.words[0].text, "a");
    assert_eq!(line.words[0].min, point(1.0, 2.0));
    assert_eq!(line.words[0].max, point(3.0, 4.0));
    assert_eq!(line.words[0].confidence, num(50.0));
    assert_eq!(line.words[1].text, "b");
    assert_eq!(line.words[1].min, point(5.0, 6.0));
    assert_eq!(line.words[1].max, point(7.0, 8.0));
    assert_eq!(line.words[1].confidence, num(99.0));
    assert!(line.words.iter().all(|w| !w.is_highlighted && w.language == SupportedLanguages::ChiTra));
}

#[test]
fn read_lines_can_be_shown() {
    let text = "<b class='ocr_line'><i title='bbox 4 8 12 16; c 96'>a</i></b>";
    let mut state = State::new(Size { width: 1, height: 1 });
    state.update();
    let read = state.check_running_job(Some(text)).unwrap().unwrap();
    let lines: Vec<BboxLine> = read
        .into_iter()
        .map(|words| {
            let found: Vec<WordNumbers> =
                words.iter().map(|w| numbers(w.x as f32, w.y as f32, w.x2 as f32, w.y2 as f32, 96.0)).collect();
            BboxLine::from_words(words, &found)
        })
        .collect();
    state.show(lines);
    assert_eq!(state.render().unwrap().vertices[3].position, point(12.0, 16.0));
}

#[test]
fn each_line_on_display_is_one_section() {
    let mut state = shown();
    state.handle_cursor(point(15.0, 15.0));
    let sections = state.sections(&vec![num(12.5), num(15.0)]).unwrap();
    assert_eq!(sections.len(), 2);
    assert_eq!(sections[0].screen_position, point(10.0, 10.0));
    assert_eq!(sections[0].text.len(), 2);
    assert_eq!(sections[0].text[0].scale, num(12.5));
    assert_eq!(rgba(sections[0].text[0].color), [0.0, 1.0, 0.0, 1.0]);
    assert_eq!(rgba(sections[0].text[1].color), [0.0, 0.0, 0.0, 1.0]);
    assert_eq!(sections[1].screen_position, point(5.0, 40.0));
    assert_eq!(sections[1].text[0].text, "three");
    assert_eq!(sections[1].text[0].scale, num(15.0));
    assert!(State::new(Size { width: 1, height: 1 }).sections(&vec![]).is_none());
}

#[test]
fn buffers_hold_a_thousand_vertices() {
    assert_eq!(VERTEX_SIZE, 20);
    assert_eq!(VERTEX_BUFFER_SIZE, 200_000);
    assert_eq!(INDEX_BUFFER_SIZE, 20_000);
    let lines: Vec<BboxLine> =
        (0..250).map(|_| BboxLine::new(vec![word("a", 1.0, 2.0, 3.0, 4.0)])).collect();
    let mesh = build_mesh(&lines);
    assert_eq!(mesh.vertices.len(), 1000);
    assert!(buffer_bytes(&vertex_data(&mesh.vertices)).len() as u64 <= VERTEX_BUFFER_SIZE);
    assert!(buffer_bytes(&mesh.indices).len() as u64 <= INDEX_BUFFER_SIZE);
}

#[test]
fn vertices_follow_each_other_in_memory() {
    let mesh = build_mesh(&sample());
    let data = vertex_data(&mesh.vertices);
    let bytes = buffer_bytes(&data);
    assert_eq!(bytes.len(), 8 * 20);
    assert_eq!(bytes[60..64], 60.0f32.to_ne_bytes());
    assert_eq!(bytes[64..68], 22.5f32.to_ne_bytes());
    assert_eq!(bytes[68..72], 1.0f32.to_ne_bytes());
}

use screen_ocr::dom::{parse_document, Attribute, DomElement, DomNode};
use screen_ocr::hocr::{
    get_text_child, nodes_to_lines, parse_title, read_document, read_hocr, read_word, HocrError, OcrWord,
};

const PAGE: &str = "<!DOCTYPE html>
<html>
 <head><title></title></head>
 <body>
  <div class='ocr_page' id='page_1' title='image \"\"; bbox 0 0 640 480; ppageno 0'>
   <div class='ocr_carea' title=\"bbox 40 8 200 64\">
    <p class='ocr_par'>
     <span class='ocr_line' title=\"bbox 40 8 200 24\">
      <span class='ocrx_word' id='word_1_1' title='bbox 40 8 97 24; x_wconf 96'>Hello</span>
      <!-- a comment -->
      <span class='ocrx_word' title='bbox 104 9 200 24; x_wconf 41.5'><strong>screen</strong></span>
     </span>
     <span class='wide ocr_line'>
      <span title='bbox 40 32 97 64; x_wconf 90'></span>
     </span>
    </p>
   </div>
  </div>
 </body>
</html>";

fn text(t: &str) -> DomNode {
    DomNode::Text(t.to_string())
}

fn comment(t: &str) -> DomNode {
    DomNode::Comment(t.to_string())
}

fn element(class: &str, children: Vec<DomNode>) -> DomNode {
    DomNode::Element(DomElement {
        classes: vec![class.to_string()],
        attributes: vec![],
        children,
    })
}

fn titled(title: Option<&str>, children: Vec<DomNode>) -> DomElement {
    DomElement {
        classes: vec![],
        attributes: vec![Attribute {
            name: "title".to_string(),
            value: title.map(|t| t.to_string()),
        }],
        children,
    }
}

fn word(title: &str, t: &str) -> DomNode {
    DomNode::Element(titled(Some(title), vec![text(t)]))
}

fn line(words: Vec<DomNode>) -> DomNode {
    element("ocr_line", words)
}

fn fields(word: &OcrWord) -> (&str, u128, u128, u128, u128, &str) {
    (word.text.as_str(), word.x, word.y, word.x2, word.y2, word.confidence.as_str())
}

fn texts(lines: &Vec<Vec<OcrWord>>) -> Vec<Vec<String>> {
    lines.iter().map(|line| line.iter().map(|word| word.text.clone()).collect()).collect()
}

fn error(nodes: Vec<DomNode>) -> HocrError {
    nodes_to_lines(&nodes).unwrap_err()
}

#[test]
fn html_becomes_nodes() {
    let nodes = parse_document("<p class='a b' id='i' title='t' hidden>x<b>y</b><!--z--></p>").unwrap();
    assert_eq!(nodes.len(), 1);
    let DomNode::Element(p) = &nodes[0] else { panic!("no element") };
    assert_eq!(p.classes, vec!["a".to_string(), "b".to_string()]);
    assert!(p.has_class(&"b".to_string()));
    assert!(!p.has_class(&"c".to_string()));
    assert_eq!(p.attributes.len(), 2);
    assert_eq!(p.attribute(&"title".to_string()), Some(&Some("t".to_string())));
    assert_eq!(p.attribute(&"hidden".to_string()), Some(&None));
    assert_eq!(p.attribute(&"id".to_string()), None);
    assert_eq!(p.children.len(), 3);
    assert!(matches!(&p.children[0], DomNode::Text(t) if t == "x"));
    assert!(matches!(&p.children[1], DomNode::Element(b) if b.children.len() == 1));
    assert!(matches!(&p.children[2], DomNode::Comment(t) if t == "z"));
}

#[test]
fn empty_text_is_an_empty_document() {
    assert_eq!(parse_document("").unwrap().len(), 0);
    assert_eq!(read_hocr("").unwrap().len(), 0);
}

#[test]
fn malformed_html_is_refused() {
    assert!(parse_document("<body></body>").is_none());
    assert!(parse_document("<html></html><html></html>").is_none());
    assert_eq!(read_hocr("<body></body>").unwrap_err(), HocrError::Malformed);
}

#[test]
fn first_attribute_of_a_name_counts() {
    let mut e = titled(Some("first"), vec![]);
    e.attributes.push(Attribute { name: "title".to_string(), value: None });
    assert_eq!(e.attribute(&"title".to_string()), Some(&Some("first".to_string())));
}

#[test]
fn page_has_two_lines() {
    let lines = read_hocr(PAGE).unwrap();
    assert_eq!(lines.len(), 2);
    assert_eq!(lines[0].len(), 2);
    assert_eq!(fields(&lines[0][0]), ("Hello", 40, 8, 97, 24, "96"));
    assert_eq!(fields(&lines[0][1]), ("screen", 104, 9, 200, 24, "41.5"));
    assert_eq!(lines[1].len(), 1);
    assert_eq!(fields(&lines[1][0]), ("", 40, 32, 97, 64, "90"));
}

#[test]
fn text_child_is_the_first_that_is_no_comment() {
    assert_eq!(get_text_child(&vec![]), "");
    assert_eq!(get_text_child(&vec![comment("c")]), "");
    assert_eq!(get_text_child(&vec![comment("c"), text("a"), text("b")]), "a");
    assert_eq!(get_text_child(&vec![element("", vec![comment("c"), text("a")]), text("b")]), "a");
    assert_eq!(get_text_child(&vec![element("", vec![]), text("b")]), "");
}

#[test]
fn title_gives_box_and_confidence() {
    let w = parse_title("bbox 1 2 3 4; x_wconf 96", "t".to_string()).unwrap();
    assert_eq!(fields(&w), ("t", 1, 2, 3, 4, "96"));
    let w = parse_title("a b1 2 3 4 b 96; c", "t".to_string()).unwrap();
    assert_eq!(fields(&w), ("t", 1, 2, 3, 4, "96;"));
    let w = parse_title("bbox 1 2 3 4  ", String::new()).unwrap();
    assert_eq!(fields(&w), ("", 1, 2, 3, 4, ""));
}

#[test]
fn short_titles_are_refused() {
    for title in ["", "bbox", "bbox 1", "bbox 1 2", "bbox 1 2 3", "bbox 1 2 3 4", "bbox 1 2 3 4; x_wconf"] {
        assert_eq!(parse_title(title, String::new()).unwrap_err(), HocrError::ShortTitle, "{}", title);
    }
}

#[test]
fn coordinates_without_digits_are_refused() {
    for title in ["bbox x 2 3 4; c 9", "bbox 1  3 4; c 9", "bbox 1 2 y 4; c 9", "bbox 1 2 3 ; c 9", "bbox z"] {
        assert_eq!(parse_title(title, String::new()).unwrap_err(), HocrError::NoDigits, "{}", title);
    }
}

#[test]
fn words_without_title_are_refused() {
    let none = DomElement { classes: vec![], attributes: vec![], children: vec![] };
    assert_eq!(read_word(&none).unwrap_err(), HocrError::NoTitle);
    assert_eq!(read_word(&titled(None, vec![])).unwrap_err(), HocrError::TitleWithoutValue);
    assert_eq!(error(vec![line(vec![element("", vec![])])]), HocrError::NoTitle);
}

#[test]
fn lines_without_words_are_refused() {
    assert_eq!(error(vec![line(vec![])]), HocrError::EmptyLine);
    assert_eq!(error(vec![line(vec![text("a"), comment("b")])]), HocrError::EmptyLine);
}

#[test]
fn first_error_of_the_document_counts() {
    let bad_line = line(vec![]);
    let bad_word = line(vec![element("", vec![])]);
    let good = line(vec![word("bbox 1 2 3 4; c 9", "a")]);
    assert_eq!(error(vec![good, element("", vec![bad_word]), bad_line]), HocrError::NoTitle);
}

#[test]
fn lines_come_in_the_order_of_the_document() {
    let title = "bbox 1 2 3 4; c 9";
    let first = line(vec![word(title, "a"), text(" "), word(title, "b")]);
    let second = line(vec![word(title, "c")]);
    let third = line(vec![word(title, "d")]);
    let nodes = vec![
        text("x"),
        element("ocr_par", vec![element("ocr_par", vec![first]), comment("y"), second]),
        third,
    ];
    let expected = vec![vec!["a", "b"], vec!["c"], vec!["d"]];
    assert_eq!(texts(&nodes_to_lines(&nodes).unwrap()), expected);
}

#[test]
fn lines_of_two_lists_are_appended() {
    let title = "bbox 1 2 3 4; c 9";
    let make = |t: &str| line(vec![word(title, t)]);
    let mut first = texts(&nodes_to_lines(&vec![make("a"), make("b")]).unwrap());
    let mut second = texts(&nodes_to_lines(&vec![make("c")]).unwrap());
    let both = texts(&nodes_to_lines(&vec![make("a"), make("b"), make("c")]).unwrap());
    first.append(&mut second);
    assert_eq!(both, first);
}

#[test]
fn words_are_not_looked_for_below_a_line() {
    let title = "bbox 1 2 3 4; c 9";
    let inner = DomNode::Element(titled(Some(title), vec![line(vec![word(title, "b")])]));
    let lines = nodes_to_lines(&vec![line(vec![inner])]).unwrap();
    assert_eq!(texts(&lines), vec![vec!["b"]]);
}

#[test]
fn text_and_comments_between_elements_do_not_matter() {
    let title = "bbox 1 2 3 4; c 9";
    let bare = vec![line(vec![word(title, "a"), word(title, "b")]), line(vec![word(title, "c")])];
    let filled = vec![
        text("x"),
        line(vec![comment("y"), word(title, "a"), text(" "), text(" "), word(title, "b"), comment("z")]),
        comment("w"),
        line(vec![word(title, "c"), text("v")]),
        text("u"),
    ];
    let expected = vec![vec!["a", "b"], vec!["c"]];
    assert_eq!(texts(&nodes_to_lines(&bare).unwrap()), expected);
    assert_eq!(texts(&nodes_to_lines(&filled).unwrap()), expected);
}

#[test]
fn a_document_is_read_or_missing() {
    assert_eq!(read_document(None).unwrap_err(), HocrError::Malformed);
    assert!(read_document(Some(vec![])).unwrap().is_empty());
    assert_eq!(read_document(Some(vec![line(vec![])])).unwrap_err(), HocrError::EmptyLine);
    let lines = read_document(Some(vec![line(vec![word("bbox 1 2 3 4; c 9", "a")])])).unwrap();
    assert_eq!(texts(&lines), vec![vec!["a"]]);
}

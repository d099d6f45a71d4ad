//! Lines and words of a recognised screen, read from the hOCR text that the
//! recogniser writes.
use crate::dom::{
    document_view, html_document, html_refuses, is_first_named, lemma_attribute, lemma_children,
    nodes_view, parse_document, DomElement, DomNode, ElementView, NodeView,
};
use crate::title::{
    bbox_coordinate, lemma_numeral, lemma_numeral_coordinate,
    lemma_split_at_separator, lemma_split_whole, numeral, parse_bbox, pieces_view, split, split_text,
};
use vstd::prelude::*;

verus! {

/// Why a text cannot be read as hOCR.
#[derive(Clone, Copy, Debug, PartialEq, Eq, Structural)]
pub enum HocrError {
    /// The text was refused as HTML.
    Malformed,
    /// A word has no `title` attribute.
    NoTitle,
    /// The `title` attribute of a word has no value.
    TitleWithoutValue,
    /// The title of a word ends before its bounding box or its confidence.
    ShortTitle,
    /// A coordinate of a word's bounding box has no digit.
    NoDigits,
    /// A line has no word.
    EmptyLine,
}

/// A recognised word: its text, the top left and the bottom right corner of its
/// bounding box in quarters of a pixel, and its confidence as it is written.
#[derive(Debug)]
pub struct OcrWord {
    pub text: String,
    pub x: u128,
    pub y: u128,
    pub x2: u128,
    pub y2: u128,
    pub confidence: String,
}

/// The contents of a recognised word.
pub struct OcrWordView {
    pub text: Seq<char>,
    pub x: u128,
    pub y: u128,
    pub x2: u128,
    pub y2: u128,
    pub confidence: Seq<char>,
}

impl View for OcrWord {
    type V = OcrWordView;

    open spec fn view(&self) -> OcrWordView {
        OcrWordView {
            text: self.text@,
            x: self.x,
            y: self.y,
            x2: self.x2,
            y2: self.y2,
            confidence: self.confidence@,
        }
    }
}

/// The contents of the words of a line.
pub open spec fn ocr_words_view(words: Seq<OcrWord>) -> Seq<OcrWordView> {
    Seq::new(words.len(), |i: int| words[i]@)
}

/// The contents of lines of words.
pub open spec fn ocr_lines_view(lines: Seq<Vec<OcrWord>>) -> Seq<Seq<OcrWordView>> {
    Seq::new(lines.len(), |i: int| ocr_words_view(lines[i]@))
}

/// The text of the first child that is no comment: of an element in turn its first
/// such child, and nothing where there is none.
pub open spec fn text_child(nodes: Seq<NodeView>) -> Seq<char>
    decreases nodes,
{
    if nodes.len() == 0 {
        Seq::empty()
    } else {
        match nodes[0] {
            NodeView::Text(text) => text,
            NodeView::Element(element) => text_child(element.children),
            NodeView::Comment(_) => text_child(nodes.drop_first()),
        }
    }
}

/// The coordinate in piece `i` of a title.
pub open spec fn coordinate_at(pieces: Seq<Seq<char>>, i: int) -> Result<u128, HocrError> {
    if i >= pieces.len() {
        Err(HocrError::ShortTitle)
    } else {
        match bbox_coordinate(pieces[i]) {
            Some(n) => Ok(n),
            None => Err(HocrError::NoDigits),
        }
    }
}

/// The word with this text that a title describes. Of the pieces between the
/// spaces of the title, the second to the fifth are the bounding box and the
/// seventh is the confidence.
pub open spec fn titled_word(title: Seq<char>, text: Seq<char>) -> Result<OcrWordView, HocrError> {
    let pieces = split(title, ' ');
    match (
        coordinate_at(pieces, 1),
        coordinate_at(pieces, 2),
        coordinate_at(pieces, 3),
        coordinate_at(pieces, 4),
    ) {
        (Err(e), _, _, _) => Err(e),
        (_, Err(e), _, _) => Err(e),
        (_, _, Err(e), _) => Err(e),
        (_, _, _, Err(e)) => Err(e),
        (Ok(x), Ok(y), Ok(x2), Ok(y2)) => if pieces.len() <= 6 {
            Err(HocrError::ShortTitle)
        } else {
            Ok(OcrWordView { text, x, y, x2, y2, confidence: pieces[6] })
        },
    }
}

/// The word that an element describes.
pub open spec fn word_of(element: ElementView) -> Result<OcrWordView, HocrError> {
    if !element.attributes.contains_key("title"@) {
        Err(HocrError::NoTitle)
    } else {
        match element.attributes["title"@] {
            None => Err(HocrError::TitleWithoutValue),
            Some(title) => titled_word(title, text_child(element.children)),
        }
    }
}

/// The words that a line's children describe: one for each child that is an
/// element, in order, or the error of the first that describes none.
pub open spec fn words_of(nodes: Seq<NodeView>) -> Result<Seq<OcrWordView>, HocrError>
    decreases nodes.len(),
{
    if nodes.len() == 0 {
        Ok(Seq::empty())
    } else {
        match words_of(nodes.drop_last()) {
            Err(e) => Err(e),
            Ok(words) => match nodes.last() {
                NodeView::Element(element) => match word_of(element) {
                    Err(e) => Err(e),
                    Ok(word) => Ok(words.push(word)),
                },
                _ => Ok(words),
            },
        }
    }
}

/// The lines that one node describes: an element of class `ocr_line` is a line of
/// at least one word, any other element has the lines of its children, and text
/// and comments have none.
pub open spec fn lines_of_node(node: NodeView) -> Result<Seq<Seq<OcrWordView>>, HocrError>
    decreases node, 0int,
{
    match node {
        NodeView::Element(element) => if element.classes.contains("ocr_line"@) {
            match words_of(element.children) {
                Err(e) => Err(e),
                Ok(words) => if words.len() == 0 {
                    Err(HocrError::EmptyLine)
                } else {
                    Ok(seq![words])
                },
            }
        } else {
            lines_of(element.children)
        },
        _ => Ok(Seq::empty()),
    }
}

/// The lines that nodes describe, in the order of the document, or the error of
/// the first node that has one.
pub open spec fn lines_of(nodes: Seq<NodeView>) -> Result<Seq<Seq<OcrWordView>>, HocrError>
    decreases nodes, 0int,
{
    if nodes.len() == 0 {
        Ok(Seq::empty())
    } else {
        match lines_of(nodes.drop_last()) {
            Err(e) => Err(e),
            Ok(lines) => match lines_of_node(nodes[nodes.len() - 1]) {
                Err(e) => Err(e),
                Ok(more) => Ok(lines + more),
            },
        }
    }
}

/// The words of two lists of children are the words of the first, then those of
/// the second; an error in the first comes before one in the second.
pub proof fn lemma_words_append(a: Seq<NodeView>, b: Seq<NodeView>)
    ensures
        words_of(a + b) == (match (words_of(a), words_of(b)) {
            (Err(e), _) => Err(e),
            (_, Err(e)) => Err(e),
            (Ok(first), Ok(second)) => Ok::<Seq<OcrWordView>, HocrError>(first + second),
        }),
    decreases b.len(),
{
    if b.len() == 0 {
        assert(a + b =~= a);
        if let Ok(first) = words_of(a) {
            assert(first + Seq::<OcrWordView>::empty() =~= first);
        }
    } else {
        lemma_words_append(a, b.drop_last());
        assert((a + b).drop_last() =~= a + b.drop_last());
        match (words_of(a), words_of(b.drop_last())) {
            (Ok(first), Ok(second)) => {
                if let NodeView::Element(element) = b.last() {
                    if let Ok(word) = word_of(element) {
                        assert((first + second).push(word) =~= first + second.push(word));
                    }
                }
            },
            _ => {},
        }
    }
}

/// The lines of two lists of nodes are the lines of the first, then those of the
/// second; an error in the first comes before one in the second.
pub proof fn lemma_lines_append(a: Seq<NodeView>, b: Seq<NodeView>)
    ensures
        lines_of(a + b) == (match (lines_of(a), lines_of(b)) {
            (Err(e), _) => Err(e),
            (_, Err(e)) => Err(e),
            (Ok(first), Ok(second)) => Ok::<Seq<Seq<OcrWordView>>, HocrError>(first + second),
        }),
    decreases b.len(),
{
    if b.len() == 0 {
        assert(a + b =~= a);
        if let Ok(first) = lines_of(a) {
            assert(first + Seq::<Seq<OcrWordView>>::empty() =~= first);
        }
    } else {
        lemma_lines_append(a, b.drop_last());
        assert((a + b).drop_last() =~= a + b.drop_last());
        match (lines_of(a), lines_of(b.drop_last()), lines_of_node(b[b.len() - 1])) {
            (Ok(first), Ok(second), Ok(third)) => {
                assert((first + second) + third =~= first + (second + third));
            },
            _ => {},
        }
    }
}

/// The nodes that are elements, in order.
pub open spec fn elements(nodes: Seq<NodeView>) -> Seq<NodeView> {
    nodes.filter(|node: NodeView| node is Element)
}

/// A line has one word for each child that is an element, in the same order, and
/// each word is the one that its element describes.
pub proof fn lemma_words_match_elements(nodes: Seq<NodeView>)
    ensures
        words_of(nodes) matches Ok(words) ==> words.len() == elements(nodes).len() && forall|i: int|
            0 <= i < words.len() ==> elements(nodes)[i] is Element && word_of(
                elements(nodes)[i]->Element_0,
            ) == Ok::<OcrWordView, HocrError>(#[trigger] words[i]),
    decreases nodes.len(),
{
    if nodes.len() > 0 {
        let rest = nodes.drop_last();
        lemma_words_match_elements(rest);
        rest.lemma_filter_push(nodes.last(), |node: NodeView| node is Element);
        assert(rest.push(nodes.last()) =~= nodes);
    } else {
        assert(elements(nodes) =~= Seq::empty());
    }
}

/// Text and comments between elements matter neither for the words of a line nor
/// for the lines of a document.
pub proof fn lemma_only_elements_matter(nodes: Seq<NodeView>)
    ensures
        words_of(elements(nodes)) == words_of(nodes),
        lines_of(elements(nodes)) == lines_of(nodes),
    decreases nodes.len(),
{
    if nodes.len() > 0 {
        let rest = nodes.drop_last();
        let node = nodes.last();
        lemma_only_elements_matter(rest);
        rest.lemma_filter_push(node, |node: NodeView| node is Element);
        assert(rest.push(node) =~= nodes);
        if node is Element {
            assert(elements(nodes).drop_last() =~= elements(rest));
        } else {
            assert(lines_of_node(node) == Ok::<Seq<Seq<OcrWordView>>, HocrError>(Seq::empty()));
            if let Ok(lines) = lines_of(rest) {
                assert(lines + Seq::<Seq<OcrWordView>>::empty() =~= lines);
            }
        }
    } else {
        assert(elements(nodes) =~= nodes);
    }
}

/// No line is without words.
pub proof fn lemma_lines_have_words(nodes: Seq<NodeView>)
    ensures
        lines_of(nodes) matches Ok(lines) ==> forall|i: int|
            0 <= i < lines.len() ==> (#[trigger] lines[i]).len() > 0,
    decreases nodes,
{
    if nodes.len() > 0 {
        let node = nodes[nodes.len() - 1];
        lemma_lines_have_words(nodes.drop_last());
        if let NodeView::Element(element) = node {
            assert(decreases_to!(nodes => node));
            lemma_lines_have_words(element.children);
        }
        assert(lines_of_node(node) matches Ok(more) ==> forall|i: int|
            0 <= i < more.len() ==> (#[trigger] more[i]).len() > 0);
        assert(lines_of(nodes) == (match (lines_of(nodes.drop_last()), lines_of_node(node)) {
            (Err(e), _) => Err(e),
            (_, Err(e)) => Err(e),
            (Ok(lines), Ok(more)) => Ok::<Seq<Seq<OcrWordView>>, HocrError>(lines + more),
        }));
    }
}

/// Finds the text of a word: see [`text_child`].
pub fn get_text_child(nodes: &Vec<DomNode>) -> (r: String)
    ensures
        r@ == text_child(nodes_view(nodes@)),
    decreases nodes@,
{
    let ghost contents = nodes_view(nodes@);
    assert(contents.skip(0) =~= contents);
    for i in 0..nodes.len()
        invariant
            contents == nodes_view(nodes@),
            text_child(contents) == text_child(contents.skip(i as int)),
    {
        assert(contents.skip(i as int)[0] == nodes@[i as int]@);
        match &nodes[i] {
            DomNode::Text(text) => {
                return text.clone();
            },
            DomNode::Element(element) => {
                proof {
                    lemma_children(*element);
                }
                assert(decreases_to!(nodes@ => nodes@[i as int]));
                return get_text_child(&element.children);
            },
            DomNode::Comment(_) => {
                assert(contents.skip(i as int).drop_first() =~= contents.skip(i + 1));
            },
        }
    }
    assert(contents.skip(contents.len() as int) =~= Seq::empty());
    String::new()
}

/// Reads the coordinate in piece `i` of a title.
fn parse_coordinate(pieces: &Vec<&str>, i: usize) -> (r: Result<u128, HocrError>)
    ensures
        r == coordinate_at(pieces_view(pieces@), i as int),
{
    if i >= pieces.len() {
        return Err(HocrError::ShortTitle);
    }
    match parse_bbox(pieces[i]) {
        Some(n) => Ok(n),
        None => Err(HocrError::NoDigits),
    }
}

/// Reads the word with this text that a title describes.
pub fn parse_title(title: &str, text: String) -> (r: Result<OcrWord, HocrError>)
    ensures
        match r {
            Ok(word) => titled_word(title@, text@) == Ok::<OcrWordView, HocrError>(word@),
            Err(e) => titled_word(title@, text@) == Err::<OcrWordView, HocrError>(e),
        },
{
    let pieces = split_text(title, ' ');
    let x = parse_coordinate(&pieces, 1)?;
    let y = parse_coordinate(&pieces, 2)?;
    let x2 = parse_coordinate(&pieces, 3)?;
    let y2 = parse_coordinate(&pieces, 4)?;
    if pieces.len() <= 6 {
        return Err(HocrError::ShortTitle);
    }
    let confidence = pieces[6].to_string();
    Ok(OcrWord { text, x, y, x2, y2, confidence })
}

/// Reads the word that an element describes.
pub fn read_word(element: &DomElement) -> (r: Result<OcrWord, HocrError>)
    ensures
        match r {
            Ok(word) => word_of(element@) == Ok::<OcrWordView, HocrError>(word@),
            Err(e) => word_of(element@) == Err::<OcrWordView, HocrError>(e),
        },
{
    proof {
        lemma_children(*element);
    }
    match element.attribute(&"title".to_string()) {
        None => Err(HocrError::NoTitle),
        Some(None) => Err(HocrError::TitleWithoutValue),
        Some(Some(title)) => parse_title(title.as_str(), get_text_child(&element.children)),
    }
}

/// Reads the words of a line.
fn read_words(nodes: &Vec<DomNode>) -> (r: Result<Vec<OcrWord>, HocrError>)
    ensures
        match r {
            Ok(words) => words_of(nodes_view(nodes@)) == Ok::<Seq<OcrWordView>, HocrError>(
                ocr_words_view(words@),
            ),
            Err(e) => words_of(nodes_view(nodes@)) == Err::<Seq<OcrWordView>, HocrError>(e),
        },
{
    let ghost contents = nodes_view(nodes@);
    let mut words: Vec<OcrWord> = Vec::new();
    assert(ocr_words_view(words@) =~= Seq::empty());
    for i in 0..nodes.len()
        invariant
            contents == nodes_view(nodes@),
            words_of(contents.take(i as int)) == Ok::<Seq<OcrWordView>, HocrError>(
                ocr_words_view(words@),
            ),
    {
        proof {
            assert(contents.take(i + 1).drop_last() =~= contents.take(i as int));
        }
        if let DomNode::Element(element) = &nodes[i] {
            match read_word(element) {
                Ok(word) => {
                    let ghost before = words@;
                    words.push(word);
                    assert(ocr_words_view(words@) =~= ocr_words_view(before).push(word@));
                },
                Err(e) => {
                    proof {
                        lemma_words_append(contents.take(i + 1), contents.skip(i + 1));
                        assert(contents.take(i + 1) + contents.skip(i + 1) =~= contents);
                    }
                    return Err(e);
                },
            }
        }
    }
    assert(contents.take(contents.len() as int) =~= contents);
    Ok(words)
}

/// Reads the lines that nodes describe, in the order of the document.
pub fn nodes_to_lines(nodes: &Vec<DomNode>) -> (r: Result<Vec<Vec<OcrWord>>, HocrError>)
    ensures
        match r {
            Ok(lines) => lines_of(nodes_view(nodes@)) == Ok::<Seq<Seq<OcrWordView>>, HocrError>(
                ocr_lines_view(lines@),
            ),
            Err(e) => lines_of(nodes_view(nodes@)) == Err::<Seq<Seq<OcrWordView>>, HocrError>(e),
        },
    decreases nodes@,
{
    let ghost contents = nodes_view(nodes@);
    let class = "ocr_line".to_string();
    let mut lines: Vec<Vec<OcrWord>> = Vec::new();
    assert(ocr_lines_view(lines@) =~= Seq::empty());
    for i in 0..nodes.len()
        invariant
            class@ == "ocr_line"@,
            contents == nodes_view(nodes@),
            lines_of(contents.take(i as int)) == Ok::<Seq<Seq<OcrWordView>>, HocrError>(
                ocr_lines_view(lines@),
            ),
    {
        let ghost before = lines@;
        proof {
            let node = nodes@[i as int]@;
            assert(contents.take(i + 1).drop_last() =~= contents.take(i as int));
            assert(contents.take(i + 1)[i as int] == node);
            assert(lines_of(contents.take(i + 1)) == (match lines_of_node(node) {
                Err(e) => Err(e),
                Ok(more) => Ok::<Seq<Seq<OcrWordView>>, HocrError>(ocr_lines_view(before) + more),
            }));
            lemma_lines_append(contents.take(i + 1), contents.skip(i + 1));
            assert(contents.take(i + 1) + contents.skip(i + 1) =~= contents);
        }
        if let DomNode::Element(element) = &nodes[i] {
            proof {
                lemma_children(*element);
            }
            if element.has_class(&class) {
                assert(lines_of_node(nodes@[i as int]@) == (match words_of(element@.children) {
                    Err(e) => Err(e),
                    Ok(words) => if words.len() == 0 {
                        Err(HocrError::EmptyLine)
                    } else {
                        Ok::<Seq<Seq<OcrWordView>>, HocrError>(seq![words])
                    },
                }));
                let words = read_words(&element.children)?;
                if words.len() == 0 {
                    return Err(HocrError::EmptyLine);
                }
                lines.push(words);
                assert(ocr_lines_view(lines@) =~= ocr_lines_view(before) + seq![
                    ocr_words_view(words@),
                ]);
            } else {
                assert(decreases_to!(nodes@ => nodes@[i as int]));
                let mut more = nodes_to_lines(&element.children)?;
                let ghost added = more@;
                lines.append(&mut more);
                assert(ocr_lines_view(lines@) =~= ocr_lines_view(before) + ocr_lines_view(added));
            }
        } else {
            assert(ocr_lines_view(before) + Seq::<Seq<OcrWordView>>::empty() =~= ocr_lines_view(before));
        }
    }
    assert(contents.take(contents.len() as int) =~= contents);
    Ok(lines)
}

/// The lines of an hOCR document, or that there is none.
pub open spec fn lines_of_document(document: Option<Seq<NodeView>>) -> Result<
    Seq<Seq<OcrWordView>>,
    HocrError,
> {
    match document {
        None => Err(HocrError::Malformed),
        Some(nodes) => lines_of(nodes),
    }
}

/// Reads the lines of an hOCR document, as [`parse_document`] hands it out.
pub fn read_document(document: Option<Vec<DomNode>>) -> (r: Result<Vec<Vec<OcrWord>>, HocrError>)
    ensures
        match r {
            Ok(lines) => lines_of_document(document_view(document)) == Ok::<
                Seq<Seq<OcrWordView>>,
                HocrError,
            >(ocr_lines_view(lines@)),
            Err(e) => lines_of_document(document_view(document)) == Err::<
                Seq<Seq<OcrWordView>>,
                HocrError,
            >(e),
        },
{
    match document {
        None => Err(HocrError::Malformed),
        Some(nodes) => nodes_to_lines(&nodes),
    }
}

/// Reads the lines of an hOCR text. A text can be refused as HTML that is not at
/// fault; see [`parse_document`].
pub fn read_hocr(text: &str) -> (r: Result<Vec<Vec<OcrWord>>, HocrError>)
    ensures
        match r {
            Ok(lines) => lines_of_document(html_document(text@)) == Ok::<
                Seq<Seq<OcrWordView>>,
                HocrError,
            >(ocr_lines_view(lines@)),
            Err(e) => e == HocrError::Malformed && html_refuses(text) || html_document(text@) is Some
                && lines_of(html_document(text@)->0) == Err::<Seq<Seq<OcrWordView>>, HocrError>(e),
        },
{
    read_document(parse_document(text))
}

/// The text of a word is the text node that comes first once comments are passed over;
/// where an element comes first instead, it is the text of that element's children,
/// whatever follows the element. Comments alone have no text.
pub proof fn lemma_text_after_comments(
    nodes: &Vec<DomNode>,
    r: String,
    i: int,
    inner: String,
)
    requires
        call_ensures(get_text_child, (nodes,), r),
        0 <= i <= nodes@.len(),
        forall|j: int| 0 <= j < i ==> (#[trigger] nodes@[j]) is Comment,
    ensures
        i == nodes@.len() ==> r@.len() == 0,
        i < nodes@.len() && nodes@[i] is Text ==> r@ == nodes@[i]->Text_0@,
        i < nodes@.len() && nodes@[i] is Element && call_ensures(
            get_text_child,
            (&nodes@[i]->Element_0.children,),
            inner,
        ) ==> r@ == inner@,
{
    let contents = nodes_view(nodes@);
    assert forall|j: int| 0 <= j < i implies (#[trigger] contents[j]) is Comment by {
        assert(nodes@[j] is Comment);
    }
    lemma_comments_passed_over(contents, i);
    if i < nodes@.len() {
        assert(contents.skip(i)[0] == nodes@[i]@);
        if nodes@[i] is Element {
            lemma_children(nodes@[i]->Element_0);
        }
    }
}

/// Comments at the start do not matter for the text.
proof fn lemma_comments_passed_over(nodes: Seq<NodeView>, i: int)
    requires
        0 <= i <= nodes.len(),
        forall|j: int| 0 <= j < i ==> (#[trigger] nodes[j]) is Comment,
    ensures
        text_child(nodes) == text_child(nodes.skip(i)),
    decreases i,
{
    if i == 0 {
        assert(nodes.skip(0) =~= nodes);
    } else {
        let rest = nodes.drop_first();
        assert(nodes[0] is Comment);
        assert forall|j: int| 0 <= j < i - 1 implies (#[trigger] rest[j]) is Comment by {
            assert(rest[j] == nodes[j + 1]);
        }
        lemma_comments_passed_over(rest, i - 1);
        assert(rest.skip(i - 1) =~= nodes.skip(i));
    }
}

/// What `parse_title` answers, piece by piece between the spaces. A word comes of it
/// exactly if the second to the fifth piece each hold a number and there are seven
/// pieces or more. The first of the four pieces that is missing or without a number
/// gives the error.
pub proof fn lemma_title_cases(
    title: &str,
    text: String,
    r: Result<OcrWord, HocrError>,
    pieces: Vec<&str>,
    found: (Option<u128>, Option<u128>, Option<u128>, Option<u128>),
)
    requires
        call_ensures(parse_title, (title, text), r),
        call_ensures(split_text, (title, ' '), pieces),
        pieces@.len() > 1 ==> call_ensures(parse_bbox, (pieces@[1],), found.0),
        pieces@.len() > 2 ==> call_ensures(parse_bbox, (pieces@[2],), found.1),
        pieces@.len() > 3 ==> call_ensures(parse_bbox, (pieces@[3],), found.2),
        pieces@.len() > 4 ==> call_ensures(parse_bbox, (pieces@[4],), found.3),
    ensures
        r is Ok <==> {
            &&& pieces@.len() > 6
            &&& found.0 is Some && found.1 is Some && found.2 is Some && found.3 is Some
        },
        r matches Ok(word) ==> {
            &&& word.text@ == text@
            &&& found == (Some(word.x), Some(word.y), Some(word.x2), Some(word.y2))
            &&& word.confidence@ == pieces@[6]@
        },
        r == Err::<OcrWord, HocrError>(HocrError::NoDigits) <==> {
            ||| pieces@.len() > 1 && found.0 is None
            ||| pieces@.len() > 2 && found.0 is Some && found.1 is None
            ||| pieces@.len() > 3 && found.0 is Some && found.1 is Some && found.2 is None
            ||| pieces@.len() > 4 && found.0 is Some && found.1 is Some && found.2 is Some
                && found.3 is None
        },
        r matches Err(e) ==> e == HocrError::NoDigits || e == HocrError::ShortTitle,
{
    let views = pieces_view(pieces@);
    assert(views.len() == pieces@.len());
    if pieces@.len() > 1 {
        assert(views[1] == pieces@[1]@);
    }
    if pieces@.len() > 2 {
        assert(views[2] == pieces@[2]@);
    }
    if pieces@.len() > 3 {
        assert(views[3] == pieces@[3]@);
    }
    if pieces@.len() > 4 {
        assert(views[4] == pieces@[4]@);
    }
}

/// The piece before a space comes first, then the pieces after it.
proof fn lemma_split_front(first: Seq<char>, rest: Seq<char>)
    requires
        !first.contains(' '),
    ensures
        split(first.push(' ') + rest, ' ').len() == 1 + split(rest, ' ').len(),
        split(first.push(' ') + rest, ' ')[0] == first,
        forall|i: int|
            0 <= i < split(rest, ' ').len() ==> split(first.push(' ') + rest, ' ')[i + 1]
                == #[trigger] split(rest, ' ')[i],
{
    lemma_split_at_separator(first, ' ', rest);
    lemma_split_whole(first, ' ');
}

/// The first piece of a text ends where the text does, or at its first space.
proof fn lemma_first_piece(first: Seq<char>, more: Seq<char>)
    requires
        !first.contains(' '),
        more.len() == 0 || more[0] == ' ',
    ensures
        split(first + more, ' ').len() > 0,
        split(first + more, ' ')[0] == first,
{
    if more.len() == 0 {
        assert(first + more =~= first);
        lemma_split_whole(first, ' ');
    } else {
        assert(first + more =~= first.push(' ') + more.drop_first());
        lemma_split_front(first, more.drop_first());
    }
}

/// A numeral holds no space, and neither do other characters without space after it.
proof fn lemma_numeral_without_space(n: u128, mark: Seq<char>)
    requires
        !mark.contains(' '),
    ensures
        !numeral(n as nat).contains(' '),
        !(numeral(n as nat) + mark).contains(' '),
{
    let row = numeral(n as nat);
    lemma_numeral(n as nat);
    assert forall|i: int| 0 <= i < row.len() implies row[i] != ' ' by {
        assert(48 <= row[i] as u32);
    }
    assert forall|i: int| 0 <= i < (row + mark).len() implies (row + mark)[i] != ' ' by {
        if i >= row.len() {
            assert((row + mark)[i] == mark[i - row.len()]);
        }
    }
}

/// `parse_title` reads back a title that was written with any four coordinates and any
/// confidence, such as `bbox 36 92 618 361; x_wconf 96`, whatever follows.
pub proof fn lemma_title_read_back(
    title: &str,
    text: String,
    r: Result<OcrWord, HocrError>,
    kind: Seq<char>,
    corners: (u128, u128, u128, u128),
    mark: Seq<char>,
    key: Seq<char>,
    confidence: Seq<char>,
    more: Seq<char>,
)
    requires
        call_ensures(parse_title, (title, text), r),
        !kind.contains(' '),
        !mark.contains(' '),
        !key.contains(' '),
        !confidence.contains(' '),
        forall|i: int| 0 <= i < mark.len() ==> !(48 <= (#[trigger] mark[i]) as u32 <= 57),
        more.len() == 0 || more[0] == ' ',
        title@ == kind.push(' ') + (numeral(corners.0 as nat).push(' ') + (numeral(
            corners.1 as nat,
        ).push(' ') + (numeral(corners.2 as nat).push(' ') + ((numeral(corners.3 as nat)
            + mark).push(' ') + (key.push(' ') + (confidence + more)))))),
    ensures
        r matches Ok(word) && {
            &&& word.text@ == text@
            &&& word.x == corners.0
            &&& word.y == corners.1
            &&& word.x2 == corners.2
            &&& word.y2 == corners.3
            &&& word.confidence@ == confidence
        },
{
    let none = Seq::<char>::empty();
    let x = numeral(corners.0 as nat);
    let y = numeral(corners.1 as nat);
    let x2 = numeral(corners.2 as nat);
    let y2 = numeral(corners.3 as nat) + mark;
    let after = confidence + more;
    let from_key = key.push(' ') + after;
    let from_y2 = y2.push(' ') + from_key;
    let from_x2 = x2.push(' ') + from_y2;
    let from_y = y.push(' ') + from_x2;
    let from_x = x.push(' ') + from_y;
    let pieces = split(title@, ' ');
    assert(pieces.len() > 6 && pieces[1] == x && pieces[2] == y && pieces[3] == x2 && pieces[4] == y2
        && pieces[6] == confidence) by {
        lemma_numeral_without_space(corners.0, mark);
        lemma_numeral_without_space(corners.1, mark);
        lemma_numeral_without_space(corners.2, mark);
        lemma_numeral_without_space(corners.3, mark);
        lemma_first_piece(confidence, more);
        lemma_split_front(key, after);
        lemma_split_front(y2, from_key);
        lemma_split_front(x2, from_y2);
        lemma_split_front(y, from_x2);
        lemma_split_front(x, from_y);
        lemma_split_front(kind, from_x);
        assert(split(from_key, ' ')[1] == split(after, ' ')[0]);
        assert(split(from_y2, ' ')[2] == split(from_key, ' ')[1]);
        assert(split(from_x2, ' ')[3] == split(from_y2, ' ')[2]);
        assert(split(from_x2, ' ')[1] == split(from_y2, ' ')[0]);
        assert(split(from_y, ' ')[4] == split(from_x2, ' ')[3]);
        assert(split(from_y, ' ')[2] == split(from_x2, ' ')[1]);
        assert(split(from_y, ' ')[1] == split(from_x2, ' ')[0]);
        assert(split(from_x, ' ')[5] == split(from_y, ' ')[4]);
        assert(split(from_x, ' ')[3] == split(from_y, ' ')[2]);
        assert(split(from_x, ' ')[2] == split(from_y, ' ')[1]);
        assert(split(from_x, ' ')[1] == split(from_y, ' ')[0]);
        assert(pieces[6] == split(from_x, ' ')[5]);
        assert(pieces[4] == split(from_x, ' ')[3]);
        assert(pieces[3] == split(from_x, ' ')[2]);
        assert(pieces[2] == split(from_x, ' ')[1]);
        assert(pieces[1] == split(from_x, ' ')[0]);
    }
    lemma_numeral_coordinate(corners.0, none);
    lemma_numeral_coordinate(corners.1, none);
    lemma_numeral_coordinate(corners.2, none);
    lemma_numeral_coordinate(corners.3, mark);
    assert(x + none =~= x && y + none =~= y && x2 + none =~= x2);
}

/// `read_word` refuses an element without a `title`, and one whose first `title` has no
/// value; of any other it answers as `parse_title` does on that value and the text of
/// the element's children.
pub proof fn lemma_word_read_from_title(
    element: &DomElement,
    r: Result<OcrWord, HocrError>,
    i: int,
    title: &str,
    text: String,
    parsed: Result<OcrWord, HocrError>,
)
    requires
        call_ensures(read_word, (element,), r),
        0 <= i < element.attributes@.len(),
        forall|j: int| 0 <= j < i ==> (#[trigger] element.attributes@[j]).name@ != "title"@,
    ensures
        element.attributes@[i].name@ != "title"@ && i == element.attributes@.len() - 1 ==> r == Err::<
            OcrWord,
            HocrError,
        >(HocrError::NoTitle),
        element.attributes@[i].name@ == "title"@ && element.attributes@[i].value is None ==> r
            == Err::<OcrWord, HocrError>(HocrError::TitleWithoutValue),
        element.attributes@[i].name@ == "title"@ && element.attributes@[i].value is Some && title@
            == element.attributes@[i].value->0@ && call_ensures(
            get_text_child,
            (&element.children,),
            text,
        ) && call_ensures(parse_title, (title, text), parsed) ==> {
            &&& r is Ok <==> parsed is Ok
            &&& r matches Ok(word) ==> word@ == parsed->Ok_0@
            &&& r matches Err(e) ==> e == parsed->Err_0
        },
{
    lemma_attribute(element.attributes@, "title"@);
    lemma_children(*element);
    if element.attributes@[i].name@ == "title"@ {
        assert(is_first_named(element.attributes@, "title"@, i));
    }
}

/// `read_word` refuses an element without attributes.
pub proof fn lemma_word_without_attributes(element: &DomElement, r: Result<OcrWord, HocrError>)
    requires
        call_ensures(read_word, (element,), r),
        element.attributes@.len() == 0,
    ensures
        r == Err::<OcrWord, HocrError>(HocrError::NoTitle),
{
    lemma_attribute(element.attributes@, "title"@);
}

/// A single child gives one word or none: an element the word that it describes, text
/// and comments nothing.
pub proof fn lemma_words_of_one(node: NodeView)
    ensures
        words_of(Seq::<NodeView>::empty()) == Ok::<Seq<OcrWordView>, HocrError>(Seq::empty()),
        node !is Element ==> words_of(seq![node]) == Ok::<Seq<OcrWordView>, HocrError>(
            Seq::empty(),
        ),
        node matches NodeView::Element(element) ==> words_of(seq![node]) == (match word_of(element) {
            Ok(word) => Ok(seq![word]),
            Err(e) => Err::<Seq<OcrWordView>, HocrError>(e),
        }),
{
    assert(seq![node].drop_last() =~= Seq::<NodeView>::empty());
    if let NodeView::Element(element) = node {
        if let Ok(word) = word_of(element) {
            assert(Seq::<OcrWordView>::empty().push(word) =~= seq![word]);
        }
    }
}

/// A single node gives one line, if it is an element one of whose classes reads
/// `ocr_line`: the words of its children, of which there must be one. Any other element
/// gives what its children give, and text and comments give nothing.
pub proof fn lemma_lines_of_one(node: NodeView)
    ensures
        lines_of(Seq::<NodeView>::empty()) == Ok::<Seq<Seq<OcrWordView>>, HocrError>(Seq::empty()),
        node !is Element ==> lines_of(seq![node]) == Ok::<Seq<Seq<OcrWordView>>, HocrError>(
            Seq::empty(),
        ),
        node matches NodeView::Element(element) ==> {
            let line = exists|i: int|
                0 <= i < element.classes.len() && #[trigger] element.classes[i] == "ocr_line"@;
            let words = words_of(element.children);
            &&& !line ==> lines_of(seq![node]) == lines_of(element.children)
            &&& line && words is Err ==> lines_of(seq![node]) == Err::<
                Seq<Seq<OcrWordView>>,
                HocrError,
            >(words->Err_0)
            &&& line && words is Ok && words->Ok_0.len() == 0 ==> lines_of(seq![node]) == Err::<
                Seq<Seq<OcrWordView>>,
                HocrError,
            >(HocrError::EmptyLine)
            &&& line && words is Ok && words->Ok_0.len() > 0 ==> lines_of(seq![node]) == Ok::<
                Seq<Seq<OcrWordView>>,
                HocrError,
            >(seq![words->Ok_0])
        },
{
    let none = Seq::<Seq<OcrWordView>>::empty();
    assert(seq![node].drop_last() =~= Seq::<NodeView>::empty());
    assert(seq![node][0] == node);
    assert(lines_of(seq![node]) == (match lines_of_node(node) {
        Err(e) => Err(e),
        Ok(more) => Ok::<Seq<Seq<OcrWordView>>, HocrError>(none + more),
    }));
    if let Ok(more) = lines_of_node(node) {
        assert(none + more =~= more);
    }
    if let NodeView::Element(element) = node {
        if element.classes.contains("ocr_line"@) {
            let i = choose|i: int|
                0 <= i < element.classes.len() && element.classes[i] == "ocr_line"@;
            assert(element.classes[i] == "ocr_line"@);
        }
        assert(lines_of_node(node) == (if element.classes.contains("ocr_line"@) {
            match words_of(element.children) {
                Err(e) => Err(e),
                Ok(words) => if words.len() == 0 {
                    Err(HocrError::EmptyLine)
                } else {
                    Ok::<Seq<Seq<OcrWordView>>, HocrError>(seq![words])
                },
            }
        } else {
            lines_of(element.children)
        }));
    }
}

/// No node is refused as HTML: a tree that was handed out is read, or is refused for
/// one of its words or lines.
pub proof fn lemma_nodes_not_malformed(nodes: Seq<NodeView>)
    ensures
        words_of(nodes) != Err::<Seq<OcrWordView>, HocrError>(HocrError::Malformed),
        lines_of(nodes) != Err::<Seq<Seq<OcrWordView>>, HocrError>(HocrError::Malformed),
    decreases nodes,
{
    if nodes.len() > 0 {
        let rest = nodes.drop_last();
        let node = nodes[nodes.len() - 1];
        lemma_nodes_not_malformed(rest);
        if let NodeView::Element(element) = node {
            assert(decreases_to!(nodes => node));
            lemma_nodes_not_malformed(element.children);
        }
        assert(lines_of_node(node) != Err::<Seq<Seq<OcrWordView>>, HocrError>(HocrError::Malformed));
    }
}

/// The contents of lines are those of their words, each in its place, and the contents
/// of a word are its fields.
pub proof fn lemma_ocr_contents(lines: Seq<Vec<OcrWord>>, i: int, j: int)
    requires
        0 <= i < lines.len(),
        0 <= j < lines[i]@.len(),
    ensures
        ocr_lines_view(lines).len() == lines.len(),
        ocr_lines_view(lines)[i] == ocr_words_view(lines[i]@),
        ocr_words_view(lines[i]@).len() == lines[i]@.len(),
        ({
            let contents = ocr_words_view(lines[i]@)[j];
            let word = lines[i]@[j];
            &&& contents.text == word.text@
            &&& contents.x == word.x && contents.y == word.y
            &&& contents.x2 == word.x2 && contents.y2 == word.y2
            &&& contents.confidence == word.confidence@
        }),
{
}

/// `read_document` refuses as malformed exactly that there is no document; given nodes,
/// it answers as `nodes_to_lines` does.
pub proof fn lemma_document_read(
    document: Option<Vec<DomNode>>,
    r: Result<Vec<Vec<OcrWord>>, HocrError>,
    lines: Result<Vec<Vec<OcrWord>>, HocrError>,
)
    requires
        call_ensures(read_document, (document,), r),
    ensures
        r == Err::<Vec<Vec<OcrWord>>, HocrError>(HocrError::Malformed) <==> document is None,
        document is Some && call_ensures(nodes_to_lines, (&document->0,), lines) ==> {
            &&& r is Ok <==> lines is Ok
            &&& r matches Ok(found) ==> ocr_lines_view(found@) == ocr_lines_view(lines->Ok_0@)
            &&& r matches Err(e) ==> e == lines->Err_0
        },
{
    if let Some(nodes) = document {
        lemma_nodes_not_malformed(nodes_view(nodes@));
    }
}

/// `read_hocr` calls a text malformed only where the `html_parser` crate refuses it, so
/// for no property of the text that the crate accepts. Every other answer is the answer
/// for the nodes that the crate has handed out, all of them and no others.
pub proof fn lemma_malformed_only_where_refused(
    text: &str,
    r: Result<Vec<Vec<OcrWord>>, HocrError>,
)
    requires
        call_ensures(read_hocr, (text,), r),
    ensures
        r == Err::<Vec<Vec<OcrWord>>, HocrError>(HocrError::Malformed) ==> html_refuses(text),
        r != Err::<Vec<Vec<OcrWord>>, HocrError>(HocrError::Malformed) ==> {
            &&& html_document(text@) is Some
            &&& lines_of(html_document(text@)->0) == (match r {
                Ok(lines) => Ok(ocr_lines_view(lines@)),
                Err(e) => Err::<Seq<Seq<OcrWordView>>, HocrError>(e),
            })
        },
{
    if let Some(nodes) = html_document(text@) {
        lemma_nodes_not_malformed(nodes);
    }
}

/// `read_hocr` answers as `read_document` does on what `parse_document` hands out for
/// the same text, unless one of the two calls of the `html_parser` crate was refused.
pub proof fn lemma_reading_goes_by_nodes(
    text: &str,
    r: Result<Vec<Vec<OcrWord>>, HocrError>,
    document: Option<Vec<DomNode>>,
    lines: Result<Vec<Vec<OcrWord>>, HocrError>,
)
    requires
        call_ensures(read_hocr, (text,), r),
        call_ensures(parse_document, (text,), document),
        call_ensures(read_document, (document,), lines),
    ensures
        html_refuses(text) || {
            &&& r is Ok <==> lines is Ok
            &&& r matches Ok(found) ==> ocr_lines_view(found@) == ocr_lines_view(lines->Ok_0@)
            &&& r matches Err(e) ==> e == lines->Err_0
        },
        r != Err::<Vec<Vec<OcrWord>>, HocrError>(HocrError::Malformed) && document is Some ==> {
            &&& r is Ok <==> lines is Ok
            &&& r matches Ok(found) ==> ocr_lines_view(found@) == ocr_lines_view(lines->Ok_0@)
            &&& r matches Err(e) ==> e == lines->Err_0
        },
{
}

/// Reading two lists of nodes in a row gives the lines of the first, then those of the
/// second; an error in the first comes before one in the second.
pub proof fn lemma_reading_in_parts(
    first: &Vec<DomNode>,
    second: &Vec<DomNode>,
    both: &Vec<DomNode>,
    from_first: Result<Vec<Vec<OcrWord>>, HocrError>,
    from_second: Result<Vec<Vec<OcrWord>>, HocrError>,
    from_both: Result<Vec<Vec<OcrWord>>, HocrError>,
)
    requires
        both@ == first@ + second@,
        call_ensures(nodes_to_lines, (first,), from_first),
        call_ensures(nodes_to_lines, (second,), from_second),
        call_ensures(nodes_to_lines, (both,), from_both),
    ensures
        from_first matches Err(e) ==> from_both == Err::<Vec<Vec<OcrWord>>, HocrError>(e),
        from_first is Ok && from_second is Err ==> from_both == Err::<Vec<Vec<OcrWord>>, HocrError>(
            from_second->Err_0,
        ),
        from_first is Ok && from_second is Ok ==> from_both is Ok && ocr_lines_view(
            from_both->Ok_0@,
        ) == ocr_lines_view(from_first->Ok_0@) + ocr_lines_view(from_second->Ok_0@),
{
    assert(nodes_view(both@) =~= nodes_view(first@) + nodes_view(second@));
    lemma_lines_append(nodes_view(first@), nodes_view(second@));
}

/// Reading a single node: text and comments give no line, an element without the class
/// `ocr_line` gives what its children give, and one with the class gives one line, of
/// which the words are those of its children.
pub proof fn lemma_reading_one_node(
    nodes: &Vec<DomNode>,
    r: Result<Vec<Vec<OcrWord>>, HocrError>,
    inner: Result<Vec<Vec<OcrWord>>, HocrError>,
)
    requires
        nodes@.len() == 1,
        call_ensures(nodes_to_lines, (nodes,), r),
    ensures
        nodes@[0] !is Element ==> r is Ok && r->Ok_0@.len() == 0,
        nodes@[0] matches DomNode::Element(element) ==> {
            let line = exists|i: int|
                0 <= i < element.classes@.len() && (#[trigger] element.classes@[i])@ == "ocr_line"@;
            let words = words_of(nodes_view(element.children@));
            &&& !line && call_ensures(nodes_to_lines, (&element.children,), inner) ==> {
                &&& r is Ok <==> inner is Ok
                &&& r matches Ok(lines) ==> ocr_lines_view(lines@) == ocr_lines_view(inner->Ok_0@)
                &&& r matches Err(e) ==> e == inner->Err_0
            }
            &&& line && r is Ok ==> {
                &&& r->Ok_0@.len() == 1
                &&& r->Ok_0@[0]@.len() > 0
                &&& words == Ok::<Seq<OcrWordView>, HocrError>(ocr_words_view(r->Ok_0@[0]@))
            }
            &&& line && r is Err ==> {
                ||| words == Err::<Seq<OcrWordView>, HocrError>(r->Err_0)
                ||| r->Err_0 == HocrError::EmptyLine && words == Ok::<Seq<OcrWordView>, HocrError>(
                    Seq::empty(),
                )
            }
        },
{
    let node = nodes@[0]@;
    assert(nodes_view(nodes@) =~= seq![node]);
    lemma_lines_of_one(node);
    if let Ok(lines) = r {
        assert(ocr_lines_view(lines@).len() == lines@.len());
        if lines@.len() == 1 {
            assert(ocr_lines_view(lines@)[0] == ocr_words_view(lines@[0]@));
            assert(ocr_words_view(lines@[0]@).len() == lines@[0]@.len());
        }
    }
    if let DomNode::Element(element) = nodes@[0] {
        lemma_children(element);
        let contents = element@;
        assert(node == NodeView::Element(contents));
        assert((exists|i: int|
            0 <= i < element.classes@.len() && (#[trigger] element.classes@[i])@ == "ocr_line"@)
            <==> (exists|i: int|
            0 <= i < contents.classes.len() && #[trigger] contents.classes[i] == "ocr_line"@)) by {
            assert forall|i: int| 0 <= i < contents.classes.len() implies
                #[trigger] contents.classes[i] == element.classes@[i]@ by {}
            if exists|i: int|
                0 <= i < element.classes@.len() && (#[trigger] element.classes@[i])@ == "ocr_line"@ {
                let i = choose|i: int|
                    0 <= i < element.classes@.len() && (#[trigger] element.classes@[i])@
                        == "ocr_line"@;
                assert(contents.classes[i] == "ocr_line"@);
            }
        }
        if let Ok(words) = words_of(contents.children) {
            if words.len() == 0 {
                assert(words =~= Seq::empty());
            }
        }
    }
}

/// Reading no nodes gives no lines.
pub proof fn lemma_reading_no_nodes(nodes: &Vec<DomNode>, r: Result<Vec<Vec<OcrWord>>, HocrError>)
    requires
        nodes@.len() == 0,
        call_ensures(nodes_to_lines, (nodes,), r),
    ensures
        r is Ok && r->Ok_0@.len() == 0,
{
    assert(nodes_view(nodes@) =~= Seq::empty());
    if let Ok(lines) = r {
        assert(ocr_lines_view(lines@).len() == lines@.len());
    }
}

} // verus!

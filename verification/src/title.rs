//! The `title` attribute of an hOCR word, such as
//! `bbox 40 8 97 24; x_wconf 96`.
use vstd::prelude::*;

verus! {

/// The pieces of a text between its separators.
pub open spec fn split(text: Seq<char>, separator: char) -> Seq<Seq<char>>
    decreases text.len(),
{
    if text.len() == 0 {
        seq![Seq::empty()]
    } else {
        let pieces = split(text.drop_last(), separator);
        if text.last() == separator {
            pieces.push(Seq::empty())
        } else {
            pieces.drop_last().push(pieces.last().push(text.last()))
        }
    }
}

/// The pieces, with a separator between each two.
pub open spec fn join(pieces: Seq<Seq<char>>, separator: char) -> Seq<char>
    decreases pieces.len(),
{
    if pieces.len() == 0 {
        Seq::empty()
    } else if pieces.len() == 1 {
        pieces[0]
    } else {
        join(pieces.drop_last(), separator).push(separator) + pieces.last()
    }
}

/// Splitting leaves at least one piece and no separator in any of them, and loses
/// nothing: the pieces joined are the text.
pub proof fn lemma_split(text: Seq<char>, separator: char)
    ensures
        split(text, separator).len() >= 1,
        join(split(text, separator), separator) == text,
        forall|i: int|
            0 <= i < split(text, separator).len() ==> !(#[trigger] split(text, separator)[i]).contains(
                separator,
            ),
    decreases text.len(),
{
    if text.len() > 0 {
        let rest = text.drop_last();
        let c = text.last();
        let before = split(rest, separator);
        let after = split(text, separator);
        lemma_split(rest, separator);
        if c == separator {
            assert(after.drop_last() =~= before);
            assert(join(after, separator) =~= text);
        } else {
            assert(after.drop_last() =~= before.drop_last());
            assert(!after.last().contains(separator)) by {
                assert forall|k: int| 0 <= k < after.last().len() implies after.last()[k]
                    != separator by {
                    if k < before.last().len() {
                        assert(before[before.len() - 1][k] == after.last()[k]);
                        assert(!before[before.len() - 1].contains(separator));
                    }
                }
            }
            assert(join(after, separator) =~= join(before, separator).push(c));
            assert(text =~= rest.push(c));
        }
    } else {
        assert(join(split(text, separator), separator) =~= text);
    }
}

/// What follows a separator, up to the end and without another one, is the last
/// piece.
proof fn lemma_split_last(text: Seq<char>, separator: char, piece: Seq<char>)
    requires
        !piece.contains(separator),
    ensures
        split(text.push(separator) + piece, separator) == split(text, separator).push(piece),
        split(piece, separator) == seq![piece],
    decreases piece.len(),
{
    if piece.len() == 0 {
        assert(text.push(separator) + piece =~= text.push(separator));
        assert(text.push(separator).drop_last() =~= text);
        assert(piece =~= Seq::empty());
    } else {
        let rest = piece.drop_last();
        let c = piece.last();
        assert(piece[piece.len() - 1] == c);
        assert(!rest.contains(separator)) by {
            assert forall|i: int| 0 <= i < rest.len() implies rest[i] != separator by {
                assert(piece[i] == rest[i]);
            }
        }
        lemma_split_last(text, separator, rest);
        assert((text.push(separator) + piece).drop_last() =~= text.push(separator) + rest);
        assert(rest.push(c) =~= piece);
        assert(split(text, separator).push(rest).drop_last() =~= split(text, separator));
        assert(seq![rest].drop_last().push(piece) =~= seq![piece]);
    }
}

/// Pieces without a separator, joined and split again, are the pieces.
pub proof fn lemma_split_joined(pieces: Seq<Seq<char>>, separator: char)
    requires
        pieces.len() >= 1,
        forall|i: int| 0 <= i < pieces.len() ==> !(#[trigger] pieces[i]).contains(separator),
    ensures
        split(join(pieces, separator), separator) == pieces,
    decreases pieces.len(),
{
    let last = pieces.last();
    assert(!pieces[pieces.len() - 1].contains(separator));
    if pieces.len() == 1 {
        lemma_split_last(Seq::empty(), separator, last);
        assert(pieces =~= seq![last]);
    } else {
        let rest = pieces.drop_last();
        assert forall|i: int| 0 <= i < rest.len() implies !(#[trigger] rest[i]).contains(
            separator,
        ) by {
            assert(rest[i] == pieces[i]);
        }
        lemma_split_joined(rest, separator);
        lemma_split_last(join(rest, separator), separator, last);
        assert(rest.push(last) =~= pieces);
    }
}

/// The characters of each piece.
pub open spec fn pieces_view(pieces: Seq<&str>) -> Seq<Seq<char>> {
    Seq::new(pieces.len(), |i: int| pieces[i]@)
}

/// Splits a text at every occurrence of the separator.
pub fn split_text<'a>(text: &'a str, separator: char) -> (r: Vec<&'a str>)
    ensures
        pieces_view(r@) == split(text@, separator),
{
    let len = text.unicode_len();
    let mut pieces: Vec<&'a str> = Vec::new();
    let mut start: usize = 0;
    let mut i: usize = 0;
    assert(text@.subrange(0, 0) =~= Seq::<char>::empty());
    assert(split(text@.take(0), separator) =~= pieces_view(pieces@).push(text@.subrange(0, 0)));
    for c in it: text.chars()
        invariant
            it.seq() == text@,
            len == text@.len(),
            i == it.index(),
            0 <= start <= i <= len,
            split(text@.take(i as int), separator) == pieces_view(pieces@).push(
                text@.subrange(start as int, i as int),
            ),
    {
        let ghost before = pieces@;
        assert(text@.take(i + 1).drop_last() =~= text@.take(i as int));
        if c == separator {
            pieces.push(text.substring_char(start, i));
            start = i + 1;
            assert(pieces_view(pieces@) =~= pieces_view(before).push(pieces@.last()@));
            assert(text@.subrange(start as int, i + 1) =~= Seq::<char>::empty());
        } else {
            assert(text@.subrange(start as int, i as int).push(c) =~= text@.subrange(
                start as int,
                i + 1,
            ));
            assert(pieces_view(pieces@).push(text@.subrange(start as int, i as int)).drop_last()
                =~= pieces_view(pieces@));
        }
        i = i + 1;
    }
    let ghost before = pieces@;
    pieces.push(text.substring_char(start, len));
    assert(pieces_view(pieces@) =~= pieces_view(before).push(pieces@.last()@));
    assert(text@.take(len as int) =~= text@);
    pieces
}

/// Whether a character is a decimal digit.
pub open spec fn is_digit(c: char) -> bool {
    '0' <= c && c <= '9'
}

/// The decimal digits of a text, in order.
pub open spec fn digits(text: Seq<char>) -> Seq<char> {
    text.filter(|c: char| is_digit(c))
}

/// One more character adds itself to the digits if it is one, else nothing.
pub proof fn lemma_digits_push(text: Seq<char>, c: char)
    ensures
        digits(text.push(c)) == (if is_digit(c) {
            digits(text).push(c)
        } else {
            digits(text)
        }),
{
    text.lemma_filter_push(c, |c: char| is_digit(c));
}

/// The number that a row of decimal digits stands for.
pub open spec fn decimal(row: Seq<char>) -> nat
    decreases row.len(),
{
    if row.len() == 0 {
        0
    } else {
        10 * decimal(row.drop_last()) + (row.last() as nat - '0' as nat) as nat
    }
}

/// The number, or the largest that fits.
pub open spec fn clamped(n: nat) -> u128 {
    if n <= u128::MAX {
        n as u128
    } else {
        u128::MAX
    }
}

/// A coordinate of a bounding box, as the digits of a piece of the title give it;
/// there is none where the piece has no digit. The recognised image is the screen
/// scaled up four times, so the unit is a quarter of a pixel.
pub open spec fn bbox_coordinate(piece: Seq<char>) -> Option<u128> {
    if digits(piece).len() == 0 {
        None
    } else {
        Some(clamped(decimal(digits(piece))))
    }
}

/// Only the digits of a piece matter.
pub proof fn lemma_only_digits_matter(piece: Seq<char>)
    ensures
        digits(digits(piece)) == digits(piece),
        bbox_coordinate(digits(piece)) == bbox_coordinate(piece),
    decreases piece.len(),
{
    if piece.len() > 0 {
        let rest = piece.drop_last();
        lemma_only_digits_matter(rest);
        lemma_digits_push(rest, piece.last());
        lemma_digits_push(digits(rest), piece.last());
        assert(rest.push(piece.last()) =~= piece);
    } else {
        assert(digits(piece) =~= piece);
    }
}

/// Reads a coordinate of a bounding box, in quarters of a pixel, from the digits
/// of a piece of the title. Characters that are no digits, such as a closing
/// semicolon, are passed over. A number beyond `u128::MAX` is read as that, which
/// in single precision is as infinite as every number above it.
pub fn parse_bbox(piece: &str) -> (r: Option<u128>)
    ensures
        r == bbox_coordinate(piece@),
{
    let mut any = false;
    let mut n: u128 = 0;
    assert(digits(piece@.take(0)) =~= Seq::empty()) by {
        reveal(Seq::filter);
    }
    for c in it: piece.chars()
        invariant
            it.seq() == piece@,
            any == (digits(piece@.take(it.index())).len() > 0),
            n == clamped(decimal(digits(piece@.take(it.index())))),
    {
        let ghost before = digits(piece@.take(it.index()));
        let ghost after = digits(piece@.take(it.index() + 1));
        assert(piece@.take(it.index() + 1) =~= piece@.take(it.index()).push(c));
        proof {
            lemma_digits_push(piece@.take(it.index()), c);
        }
        if '0' <= c && c <= '9' {
            assert(after.drop_last() =~= before);
            let digit: u128 = (c as u32 - '0' as u32) as u128;
            any = true;
            if n <= (u128::MAX - digit) / 10 {
                n = 10 * n + digit;
            } else {
                n = u128::MAX;
            }
        }
    }
    assert(piece@.take(piece@.len() as int) =~= piece@);
    if any {
        Some(n)
    } else {
        None
    }
}

/// A text with a separator splits into the pieces before it and the pieces after it.
pub proof fn lemma_split_at_separator(before: Seq<char>, separator: char, after: Seq<char>)
    ensures
        split(before.push(separator) + after, separator) == split(before, separator) + split(
            after,
            separator,
        ),
    decreases after.len(),
{
    let text = before.push(separator) + after;
    lemma_split(before, separator);
    lemma_split(after, separator);
    if after.len() == 0 {
        assert(text =~= before.push(separator));
        assert(text.drop_last() =~= before);
        assert(split(text, separator) =~= split(before, separator) + split(after, separator));
    } else {
        let rest = after.drop_last();
        lemma_split_at_separator(before, separator, rest);
        lemma_split(rest, separator);
        assert(text.drop_last() =~= before.push(separator) + rest);
        assert(split(text, separator) =~= split(before, separator) + split(after, separator));
    }
}

/// A text without a separator is its only piece.
pub proof fn lemma_split_whole(text: Seq<char>, separator: char)
    requires
        !text.contains(separator),
    ensures
        split(text, separator) == seq![text],
{
    lemma_split_last(Seq::empty(), separator, text);
}

/// What `split_text` hands out: as many pieces as there are separators, and one more;
/// each is a stretch of the text without separator, and together with one separator
/// between each two of them the pieces fill the text from its start to its end.
pub proof fn lemma_split_text(text: &str, separator: char, r: Vec<&str>, i: int)
    requires
        call_ensures(split_text, (text, separator), r),
        0 <= i < r@.len(),
    ensures
        text@.to_multiset().count(separator) + 1 == r@.len(),
        !r@[i]@.contains(separator),
        exists|from: int|
            #![trigger text@.subrange(from, from + r@[i]@.len())]
            {
                &&& 0 <= from && from + r@[i]@.len() <= text@.len()
                &&& r@[i]@ == text@.subrange(from, from + r@[i]@.len())
                &&& text@.take(from).to_multiset().count(separator) == i
                &&& from == 0 || text@[from - 1] == separator
                &&& from + r@[i]@.len() == text@.len() || text@[from + r@[i]@.len()] == separator
            },
{
    let from = lemma_piece_at(text@, separator, i);
    assert(split(text@, separator)[i] == r@[i]@);
    lemma_split(text@, separator);
}

/// Where piece `i` of a text starts.
proof fn lemma_piece_at(text: Seq<char>, separator: char, i: int) -> (from: int)
    requires
        0 <= i < split(text, separator).len(),
    ensures
        text.to_multiset().count(separator) + 1 == split(text, separator).len(),
        0 <= from && from + split(text, separator)[i].len() <= text.len(),
        split(text, separator)[i] == text.subrange(from, from + split(text, separator)[i].len()),
        text.take(from).to_multiset().count(separator) == i,
        from == 0 || text[from - 1] == separator,
        i == split(text, separator).len() - 1 ==> from + split(text, separator)[i].len()
            == text.len(),
        i < split(text, separator).len() - 1 ==> from + split(text, separator)[i].len() < text.len()
            && text[from + split(text, separator)[i].len()] == separator,
    decreases text.len(),
{
    broadcast use vstd::seq_lib::group_to_multiset_ensures;

    let pieces = split(text, separator);
    if text.len() == 0 {
        assert(text.take(0) =~= text);
        assert(pieces[i] =~= text.subrange(0, 0));
        0
    } else {
        let rest = text.drop_last();
        let c = text.last();
        let before = split(rest, separator);
        lemma_split(rest, separator);
        assert(text =~= rest.push(c));
        let last = lemma_piece_at(rest, separator, before.len() - 1);
        if c == separator && i == before.len() {
            assert(pieces[i] =~= text.subrange(text.len() as int, text.len() as int));
            assert(text.take(text.len() as int) =~= text);
            text.len() as int
        } else {
            let from = lemma_piece_at(rest, separator, i);
            assert(text.take(from) =~= rest.take(from));
            assert(pieces[i] =~= text.subrange(from, from + pieces[i].len()));
            from
        }
    }
}

/// The digits of two texts in a row are those of the first, then those of the second;
/// a character from `0` to `9` is a digit, and no other is.
pub proof fn lemma_digits_by_character(a: Seq<char>, b: Seq<char>, c: char)
    ensures
        digits(a + b) == digits(a) + digits(b),
        digits(seq![c]) == (if 48 <= c as u32 <= 57 {
            seq![c]
        } else {
            Seq::empty()
        }),
{
    Seq::filter_distributes_over_add(a, b, |c: char| is_digit(c));
    let none = Seq::<char>::empty();
    lemma_digits_push(none, c);
    assert(digits(none) =~= none);
    assert(none.push(c) =~= seq![c]);
}

/// How `parse_bbox` answers when one more character follows. One that is no digit
/// changes nothing. A digit appends itself to the number: the answer becomes ten times
/// the number and the digit, or the largest number where that is more; the first digit
/// is itself the number.
pub proof fn lemma_bbox_next_character(
    piece: &str,
    r: Option<u128>,
    longer: &str,
    c: char,
    next: Option<u128>,
)
    requires
        call_ensures(parse_bbox, (piece,), r),
        call_ensures(parse_bbox, (longer,), next),
        longer@ == piece@.push(c),
    ensures
        !(48 <= c as u32 <= 57) ==> next == r,
        48 <= c as u32 <= 57 && r is None ==> next == Some((c as u32 - 48) as u128),
        48 <= c as u32 <= 57 && r is Some && 10 * r->0 + (c as u32 - 48) <= u128::MAX ==> next
            == Some((10 * r->0 + (c as u32 - 48)) as u128),
        48 <= c as u32 <= 57 && r is Some && 10 * r->0 + (c as u32 - 48) > u128::MAX ==> next
            == Some(u128::MAX),
{
    let row = digits(piece@);
    lemma_digits_push(piece@, c);
    if is_digit(c) {
        assert(row.push(c).drop_last() =~= row);
        if row.len() == 0 {
            assert(decimal(row) == 0);
        }
    }
}

/// `parse_bbox` finds no number in an empty piece.
pub proof fn lemma_bbox_of_nothing(piece: &str, r: Option<u128>)
    requires
        call_ensures(parse_bbox, (piece,), r),
        piece@.len() == 0,
    ensures
        r is None,
{
    assert(digits(piece@) =~= Seq::empty());
}

/// The decimal numeral of a number.
pub open spec fn numeral(n: nat) -> Seq<char>
    decreases n,
{
    let digit = (48 + n % 10) as char;
    if n < 10 {
        seq![digit]
    } else {
        numeral(n / 10).push(digit)
    }
}

/// A numeral is made of digits alone, and stands for its number.
pub proof fn lemma_numeral(n: nat)
    ensures
        numeral(n).len() > 0,
        forall|i: int| 0 <= i < numeral(n).len() ==> 48 <= (#[trigger] numeral(n)[i]) as u32 <= 57,
        digits(numeral(n)) == numeral(n),
        decimal(numeral(n)) == n,
    decreases n,
{
    let digit = (48 + n % 10) as char;
    let none = Seq::<char>::empty();
    assert(digit as u32 == 48 + n % 10);
    if n < 10 {
        lemma_digits_push(none, digit);
        assert(digits(none) =~= none);
        assert(none.push(digit) =~= seq![digit]);
        assert(seq![digit].drop_last() =~= none);
        assert(decimal(none) == 0);
    } else {
        let rest = numeral(n / 10);
        lemma_numeral(n / 10);
        lemma_digits_push(rest, digit);
        assert(rest.push(digit).drop_last() =~= rest);
    }
}

/// `parse_bbox` reads back the number that was written in decimal digits, whatever
/// other characters follow it.
pub proof fn lemma_bbox_reads_numeral(n: u128, rest: Seq<char>, piece: &str, r: Option<u128>)
    requires
        call_ensures(parse_bbox, (piece,), r),
        piece@ == numeral(n as nat) + rest,
        forall|i: int| 0 <= i < rest.len() ==> !(48 <= (#[trigger] rest[i]) as u32 <= 57),
    ensures
        r == Some(n),
{
    lemma_numeral_coordinate(n, rest);
}

/// The coordinate in a numeral that other characters follow.
pub(crate) proof fn lemma_numeral_coordinate(n: u128, rest: Seq<char>)
    requires
        forall|i: int| 0 <= i < rest.len() ==> !(48 <= (#[trigger] rest[i]) as u32 <= 57),
    ensures
        bbox_coordinate(numeral(n as nat) + rest) == Some(n),
    decreases rest.len(),
{
    let row = numeral(n as nat);
    lemma_numeral(n as nat);
    if rest.len() == 0 {
        assert(row + rest =~= row);
    } else {
        let shorter = rest.drop_last();
        assert forall|i: int| 0 <= i < shorter.len() implies !(48 <= (#[trigger] shorter[i]) as u32
            <= 57) by {
            assert(shorter[i] == rest[i]);
        }
        lemma_numeral_coordinate(n, shorter);
        lemma_digits_push(row + shorter, rest.last());
        assert(!(48 <= rest[rest.len() - 1] as u32 <= 57));
        assert((row + shorter).push(rest.last()) =~= row + rest);
    }
}

/// `parse_bbox` finds a number exactly where the piece has a character from `0` to
/// `9`.
pub proof fn lemma_bbox_found(piece: &str, r: Option<u128>)
    requires
        call_ensures(parse_bbox, (piece,), r),
    ensures
        r is Some <==> exists|i: int| 0 <= i < piece@.len() && 48 <= (#[trigger] piece@[i]) as u32 <= 57,
{
    lemma_has_digits(piece@);
}

/// The digits are the characters from `0` to `9`.
pub proof fn lemma_digit_range(c: char)
    ensures
        is_digit(c) <==> 48 <= c as u32 <= 57,
{
}

/// A coordinate is found exactly where there is a digit.
proof fn lemma_has_digits(piece: Seq<char>)
    ensures
        bbox_coordinate(piece) is Some <==> exists|i: int|
            0 <= i < piece.len() && 48 <= (#[trigger] piece[i]) as u32 <= 57,
    decreases piece.len(),
{
    if piece.len() == 0 {
        assert(digits(piece) =~= Seq::empty());
    } else {
        let rest = piece.drop_last();
        lemma_has_digits(rest);
        lemma_digits_push(rest, piece.last());
        assert(rest.push(piece.last()) =~= piece);
        if bbox_coordinate(rest) is Some {
            let i = choose|i: int| 0 <= i < rest.len() && 48 <= (#[trigger] rest[i]) as u32 <= 57;
            assert(piece[i] == rest[i]);
        } else if is_digit(piece.last()) {
            assert(48 <= piece[piece.len() - 1] as u32 <= 57);
        } else {
            assert forall|i: int| 0 <= i < piece.len() implies !(48 <= (#[trigger] piece[i]) as u32
                <= 57) by {
                if i < rest.len() {
                    assert(!(48 <= rest[i] as u32 <= 57));
                    assert(piece[i] == rest[i]);
                } else {
                    lemma_digit_range(piece[i]);
                }
            }
        }
    }
}

} // verus!

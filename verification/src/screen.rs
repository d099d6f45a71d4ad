//! Choices about the graphics device and the part of the screen to capture.
use crate::state::Size;
use vstd::prelude::*;

verus! {

/// A part of a display: its top left corner, counted from that of the display, and
/// its size.
#[derive(Clone, Copy, Debug, PartialEq, Eq, Structural)]
pub struct CaptureArea {
    pub x: i32,
    pub y: i32,
    pub size: Size,
}

/// Whether `i` is the first position that holds `true`.
pub open spec fn is_first_true(flags: Seq<bool>, i: int) -> bool {
    &&& 0 <= i < flags.len()
    &&& flags[i]
    &&& forall|j: int| 0 <= j < i ==> !(#[trigger] flags[j])
}

/// Whether no position holds `true`.
pub open spec fn none_true(flags: Seq<bool>) -> bool {
    forall|j: int| 0 <= j < flags.len() ==> !(#[trigger] flags[j])
}

/// Finds the first candidate that is fit.
pub fn first_fit(fit: &Vec<bool>) -> (r: Option<usize>)
    ensures
        r matches Some(i) ==> is_first_true(fit@, i as int),
        r is None ==> none_true(fit@),
{
    for i in 0..fit.len()
        invariant
            forall|j: int| 0 <= j < i ==> !(#[trigger] fit@[j]),
    {
        if fit[i] {
            return Some(i);
        }
    }
    None
}

/// Chooses the format of the surface among those that it supports, from whether
/// each is an sRGB format: the first that is, or else the first of all.
pub fn choose_format(srgb: &Vec<bool>) -> (r: usize)
    requires
        srgb@.len() > 0,
    ensures
        is_first_true(srgb@, r as int) || r == 0 && none_true(srgb@),
{
    match first_fit(srgb) {
        Some(i) => i,
        None => 0,
    }
}

/// The part of a display that the inside of a window covers, given the positions of
/// both on the desktop. There is none where the offset does not fit.
pub fn capture_area(window: (i32, i32), display: (i32, i32), size: Size) -> (r: Option<CaptureArea>)
    ensures
        r is Some <==> i32::MIN <= window.0 - display.0 <= i32::MAX && i32::MIN <= window.1
            - display.1 <= i32::MAX,
        r matches Some(area) ==> area.x == window.0 - display.0 && area.y == window.1 - display.1
            && area.size == size,
{
    match (window.0.checked_sub(display.0), window.1.checked_sub(display.1)) {
        (Some(x), Some(y)) => Some(CaptureArea { x, y, size }),
        _ => None,
    }
}

/// The candidate that is found is fit and none before it is; none is found exactly
/// where none is fit.
pub proof fn lemma_first_fit(fit: &Vec<bool>, r: Option<usize>, j: int)
    requires
        call_ensures(first_fit, (fit,), r),
        0 <= j < fit@.len(),
    ensures
        r matches Some(i) ==> i < fit@.len() && fit@[i as int] && (fit@[j] ==> i <= j),
        r is None ==> !fit@[j],
{
}

/// No candidate is found among none.
pub proof fn lemma_no_candidates(fit: &Vec<bool>, r: Option<usize>)
    requires
        call_ensures(first_fit, (fit,), r),
        fit@.len() == 0,
    ensures
        r is None,
{
}

/// The format that is chosen is one of those supported. It is an sRGB format if there
/// is one, and none before it is; where there is none, it is the first of all.
pub proof fn lemma_format_chosen(srgb: &Vec<bool>, r: usize, j: int)
    requires
        srgb@.len() > 0,
        call_ensures(choose_format, (srgb,), r),
        0 <= j < srgb@.len(),
    ensures
        r < srgb@.len(),
        srgb@[j] ==> srgb@[r as int] && r <= j,
        !srgb@[r as int] ==> r == 0,
{
}

/// The captured area lies where the window is: its corner, counted from that of the
/// display, is the window's corner on the desktop. It has the window's size.
pub proof fn lemma_area_covers_window(
    window: (i32, i32),
    display: (i32, i32),
    size: Size,
    r: Option<CaptureArea>,
)
    requires
        call_ensures(capture_area, (window, display, size), r),
    ensures
        r matches Some(area) ==> {
            &&& display.0 + area.x == window.0
            &&& display.1 + area.y == window.1
            &&& area.size.width == size.width
            &&& area.size.height == size.height
        },
        r is None ==> {
            ||| window.0 - display.0 > i32::MAX
            ||| window.0 - display.0 < i32::MIN
            ||| window.1 - display.1 > i32::MAX
            ||| window.1 - display.1 < i32::MIN
        },
{
}

} // verus!

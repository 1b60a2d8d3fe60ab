//! The two values of the terminal widget library that the viewer's state
//! holds: a line of text and the state of a scrollbar.

use crate::text::{texts, without_line_breaks};
use ratatui::text::Line;
use ratatui::widgets::ScrollbarState;
use vstd::prelude::*;

verus! {

/// `Line` of the widget library: a line of text for the screen. Nothing is
/// known of what a value holds but what [`line_text`] names.
#[verifier::external_type_specification]
#[verifier::external_body]
pub struct ExLine<'a>(Line<'a>);

/// `ScrollbarState` of the widget library: where a scrollbar stands. Nothing
/// is known of what a value holds but what [`scrollbar_position`] names.
#[verifier::external_type_specification]
#[verifier::external_body]
pub struct ExScrollbarState(ScrollbarState);

/// The text that a line shows: the contents of its spans, one after another.
pub uninterp spec fn line_text(line: Line<'static>) -> Seq<char>;

/// The position that a scrollbar state holds, as its `get_position` returns it.
pub uninterp spec fn scrollbar_position(state: ScrollbarState) -> usize;

/// The texts that a list of lines shows.
pub open spec fn shown(lines: Seq<Line<'static>>) -> Seq<Seq<char>> {
    lines.map_values(|line: Line<'static>| line_text(line))
}

/// Makes a line of a text with `Line::from`.
///
/// Believed of it, as its source shows: the line gets one span for each line
/// of the text, as `str::lines` of std splits it, so that it shows the text
/// without its line breaks.
#[verifier::external_body]
pub(crate) fn line_from(text: String) -> (line: Line<'static>)
    ensures
        line_text(line) == without_line_breaks(text@),
{
    Line::from(text)
}

/// A fresh scrollbar state, from `ScrollbarState::default`.
///
/// Believed of it, as its source shows: the type derives `Default`, so the
/// position is 0.
#[verifier::external_body]
pub(crate) fn new_scrollbar() -> (state: ScrollbarState)
    ensures
        scrollbar_position(state) == 0,
{
    ScrollbarState::default()
}

/// Moves a scrollbar state with `ScrollbarState::position`.
///
/// Believed of it, as its source shows: it stores the position given in the
/// state and hands the state back, and `get_position` reads it from there.
#[verifier::external_body]
pub(crate) fn scrollbar_at(state: ScrollbarState, position: usize) -> (moved: ScrollbarState)
    ensures
        scrollbar_position(moved) == position,
{
    state.position(position)
}

/// Makes a line of each text.
pub fn show_lines(strings: Vec<String>) -> (lines: Vec<Line<'static>>)
    ensures
        shown(lines@) == texts(strings@).map_values(
            |text: Seq<char>| without_line_breaks(text),
        ),
{
    let ghost all = strings@;
    let mut lines: Vec<Line<'static>> = Vec::new();
    for text in it: strings.into_iter()
        invariant
            it.seq() == all,
            lines@.len() == it.index(),
            forall|i: int|
                0 <= i < lines@.len() ==> line_text(#[trigger] lines@[i]) == without_line_breaks(
                    all[i]@,
                ),
    {
        lines.push(line_from(text));
    }
    lines
}

} // verus!

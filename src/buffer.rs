//! The text buffer of a document view is rat-widget's `TextAreaState`.
//! This module declares it and the few operations the workspace needs.

use rat_widget::text::undo_buffer::UndoEntry;
use rat_widget::text::TextPosition;
use rat_widget::textarea::{TextAreaState, TextWrap};
use vstd::prelude::*;

verus! {

#[verifier::external_type_specification]
#[verifier::external_body]
pub struct ExTextAreaState(TextAreaState);

#[verifier::external_type_specification]
#[verifier::external_body]
pub struct ExUndoEntry(UndoEntry);

/// The text held by a text area.
pub uninterp spec fn buffer_text(b: TextAreaState) -> Seq<char>;

/// The line terminator a text area writes for a line break.
pub uninterp spec fn buffer_newline(b: TextAreaState) -> Seq<char>;

/// The number of steps a text area's undo buffer can undo, where it has one.
pub uninterp spec fn undo_count(b: TextAreaState) -> Option<nat>;

/// Whether a text area records its edits for replay.
pub uninterp spec fn replay_on(b: TextAreaState) -> bool;

/// The edits a text area has recorded for replay and not handed out yet.
pub uninterp spec fn pending_log(b: TextAreaState) -> Seq<UndoEntry>;

/// The text a text area holds after `log` is replayed into it, from its
/// text and its own undo history; `None` where the replay stops on an
/// entry that does not fit.
pub uninterp spec fn replay_outcome(b: TextAreaState, log: Seq<UndoEntry>) -> Option<Seq<char>>;

/// The horizontal and vertical scroll offsets of a text area.
pub uninterp spec fn buffer_offset(b: TextAreaState) -> (u32, u32);

/// How far into its first visible row a wrapped text area starts.
pub uninterp spec fn buffer_sub_row_offset(b: TextAreaState) -> u32;

/// Relies on `TextAreaState::cursor`: the cursor position. The cursor cell
/// is shared with every clone of the text area, so nothing is stated of it.
#[verifier::external_body]
pub(crate) fn cursor_of(b: &TextAreaState) -> (r: (u32, u32)) {
    let c = b.cursor();
    (c.x, c.y)
}

/// Relies on `TextAreaState::offset`: the scroll offsets.
#[verifier::external_body]
pub(crate) fn offset_of(b: &TextAreaState) -> (r: (u32, u32))
    ensures
        r == buffer_offset(*b),
{
    b.offset()
}

/// Relies on `TextAreaState::sub_row_offset`: the offset into the first
/// visible row.
#[verifier::external_body]
pub(crate) fn sub_row_offset_of(b: &TextAreaState) -> (r: u32)
    ensures
        r == buffer_sub_row_offset(*b),
{
    b.sub_row_offset()
}

/// Relies on `TextAreaState::named`: a fresh text area starts with no text
/// and an empty undo buffer that does not record for replay.
#[verifier::external_body]
pub(crate) fn new_buffer(name: &str) -> (r: TextAreaState)
    ensures
        buffer_text(r) == Seq::<char>::empty(),
        undo_count(r) == Some(0nat),
        !replay_on(r),
        pending_log(r) == Seq::<UndoEntry>::empty(),
{
    TextAreaState::named(name)
}

/// Relies on `TextAreaState::text`: a copy of the text value.
#[verifier::external_body]
pub(crate) fn text_of(b: &TextAreaState) -> (r: String)
    ensures
        r@ == buffer_text(*b),
{
    b.text()
}

/// Relies on `TextAreaState::newline`: the configured line terminator.
#[verifier::external_body]
pub(crate) fn newline_of(b: &TextAreaState) -> (r: String)
    ensures
        r@ == buffer_newline(*b),
{
    b.newline().to_string()
}

/// Relies on `TextAreaState::set_text`: the rope is rebuilt from `s`, the
/// undo buffer is cleared (the `SetText` entry it records for replay is no
/// undo step), the line terminator setting is left alone.
#[verifier::external_body]
pub(crate) fn set_text(b: &mut TextAreaState, s: &str)
    ensures
        buffer_text(*final(b)) == s@,
        buffer_newline(*final(b)) == buffer_newline(*old(b)),
        undo_count(*old(b)) is Some ==> undo_count(*final(b)) == Some(0nat),
        undo_count(*old(b)) is None ==> undo_count(*final(b)) is None,
        replay_on(*final(b)) == replay_on(*old(b)),
{
    b.set_text(s)
}

/// Relies on `Clone for TextAreaState`: the text core, with a clone of its
/// undo buffer, and the line terminator are cloned.
#[verifier::external_body]
pub(crate) fn clone_buffer(b: &TextAreaState) -> (r: TextAreaState)
    ensures
        buffer_text(r) == buffer_text(*b),
        buffer_newline(r) == buffer_newline(*b),
        undo_count(r) == undo_count(*b),
        replay_on(r) == replay_on(*b),
        pending_log(r) == pending_log(*b),
{
    b.clone()
}

/// Relies on `UndoBuffer::enable_replay_log`: where there is an undo
/// buffer it switches recording on, and it touches only the undo buffer.
#[verifier::external_body]
pub(crate) fn enable_replay(b: &mut TextAreaState)
    ensures
        buffer_text(*final(b)) == buffer_text(*old(b)),
        buffer_newline(*final(b)) == buffer_newline(*old(b)),
        undo_count(*final(b)) == undo_count(*old(b)),
        undo_count(*old(b)) is Some ==> replay_on(*final(b)),
{
    if let Some(undo) = b.undo_buffer_mut() {
        undo.enable_replay_log(true);
    }
}

/// Relies on `TextAreaState::recent_replay_log`: it takes the recorded
/// entries out of the undo buffer, none where there is no undo buffer,
/// and leaves the text alone.
#[verifier::external_body]
pub(crate) fn take_replay_log(b: &mut TextAreaState) -> (r: Vec<UndoEntry>)
    ensures
        r@ == pending_log(*old(b)),
        pending_log(*final(b)) == Seq::<UndoEntry>::empty(),
        buffer_offset(*final(b)) == buffer_offset(*old(b)),
        buffer_sub_row_offset(*final(b)) == buffer_sub_row_offset(*old(b)),
        undo_count(*final(b)) == undo_count(*old(b)),
        replay_on(*final(b)) == replay_on(*old(b)),
        buffer_text(*final(b)) == buffer_text(*old(b)),
        buffer_newline(*final(b)) == buffer_newline(*old(b)),
{
    b.recent_replay_log()
}

/// Relies on `TextAreaState::replay_log`: each entry is applied in turn;
/// an insert or remove whose byte range does not fit stops with
/// `expect("valid_range")`, which the requirement leaves out.
#[verifier::external_body]
pub(crate) fn replay_into(b: &mut TextAreaState, log: &Vec<UndoEntry>)
    requires
        replay_outcome(*old(b), log@) is Some,
    ensures
        replay_outcome(*old(b), log@) == Some(buffer_text(*final(b))),
        buffer_newline(*final(b)) == buffer_newline(*old(b)),
{
    b.replay_log(log.as_slice())
}

/// Relies on `UndoBuffer::open_undo`: the number of steps that can be
/// undone, where the text area has an undo buffer.
#[verifier::external_body]
pub(crate) fn open_undo(b: &TextAreaState) -> (r: Option<usize>)
    ensures
        r matches Some(n) ==> undo_count(*b) == Some(n as nat),
        r is None ==> undo_count(*b) is None,
{
    match b.undo_buffer() {
        Some(undo) => Some(undo.open_undo()),
        None => None,
    }
}

/// Relies on `TextAreaState::set_show_ctrl`: a display flag only.
#[verifier::external_body]
pub(crate) fn set_show_ctrl(b: &mut TextAreaState, show: bool)
    ensures
        buffer_text(*final(b)) == buffer_text(*old(b)),
        buffer_newline(*final(b)) == buffer_newline(*old(b)),
        undo_count(*final(b)) == undo_count(*old(b)),
        replay_on(*final(b)) == replay_on(*old(b)),
{
    b.set_show_ctrl(show)
}

/// Relies on `TextAreaState::set_wrap_ctrl`: a display flag only.
#[verifier::external_body]
pub(crate) fn set_wrap_ctrl(b: &mut TextAreaState, show: bool)
    ensures
        buffer_text(*final(b)) == buffer_text(*old(b)),
        buffer_newline(*final(b)) == buffer_newline(*old(b)),
        undo_count(*final(b)) == undo_count(*old(b)),
        replay_on(*final(b)) == replay_on(*old(b)),
{
    b.set_wrap_ctrl(show)
}

/// Relies on `TextAreaState::set_text_wrap` with `TextWrap::Word`: a
/// display setting only.
#[verifier::external_body]
pub(crate) fn set_word_wrap(b: &mut TextAreaState, break_area: u16)
    ensures
        buffer_text(*final(b)) == buffer_text(*old(b)),
        buffer_newline(*final(b)) == buffer_newline(*old(b)),
        undo_count(*final(b)) == undo_count(*old(b)),
        replay_on(*final(b)) == replay_on(*old(b)),
{
    b.set_text_wrap(TextWrap::Word(break_area))
}

/// Relies on `TextAreaState::set_text_wrap` with `TextWrap::Shift`: a
/// display setting only.
#[verifier::external_body]
pub(crate) fn set_shift_wrap(b: &mut TextAreaState)
    ensures
        buffer_text(*final(b)) == buffer_text(*old(b)),
        buffer_newline(*final(b)) == buffer_newline(*old(b)),
        undo_count(*final(b)) == undo_count(*old(b)),
        replay_on(*final(b)) == replay_on(*old(b)),
{
    b.set_text_wrap(TextWrap::Shift)
}

/// Relies on `TextAreaState::set_tab_width`: a display setting only.
#[verifier::external_body]
pub(crate) fn set_tab_width(b: &mut TextAreaState, width: u32)
    ensures
        buffer_text(*final(b)) == buffer_text(*old(b)),
        buffer_newline(*final(b)) == buffer_newline(*old(b)),
        undo_count(*final(b)) == undo_count(*old(b)),
        replay_on(*final(b)) == replay_on(*old(b)),
{
    b.set_tab_width(width)
}

/// Relies on `TextCore::byte_at`: the byte range of the grapheme at a
/// position, `None` where the position lies outside the text.
#[verifier::external_body]
pub(crate) fn byte_range_at(b: &TextAreaState, pos: (u32, u32)) -> (r: Option<(usize, usize)>) {
    match b.value.byte_at(TextPosition::new(pos.0, pos.1)) {
        Ok(r) => Some((r.start, r.end)),
        Err(_) => None,
    }
}

/// Relies on `TextCore::styles_at_match`: the range of the span with style
/// `style` that covers byte `byte`, if any.
#[verifier::external_body]
pub(crate) fn style_span_at(b: &TextAreaState, byte: usize, style: usize) -> (r: Option<(usize, usize)>) {
    match b.value.styles_at_match(byte, style) {
        Some(r) => Some((r.start, r.end)),
        None => None,
    }
}

/// Relies on `TextCore::str_slice_byte`: the text of a byte range, `None`
/// where the range does not fit the text.
#[verifier::external_body]
pub(crate) fn text_slice(b: &TextAreaState, range: (usize, usize)) -> (r: Option<String>) {
    match b.value.str_slice_byte(range.0..range.1) {
        Ok(t) => Some(t.into_owned()),
        Err(_) => None,
    }
}

} // verus!

//! One open view of a document: its path, whether it holds unsaved edits,
//! and its own text buffer.

use crate::buffer::{
    buffer_newline, buffer_text, clone_buffer, new_buffer, newline_of, open_undo, set_show_ctrl,
    set_shift_wrap, set_tab_width, set_text, set_word_wrap, set_wrap_ctrl, text_of, undo_count,
    byte_range_at, cursor_of, replay_on, style_span_at, text_slice,
};
use crate::link::{link_target, link_target_of, LinkError};
use crate::doc_type::{doc_type_of, md_extension, DocTypes};
use crate::paths::{extension_of, path_extension, path_with_extension, with_extension};
use rat_widget::textarea::TextAreaState;
use vstd::prelude::*;

verus! {

/// Display settings that a new view takes over from the configuration.
#[derive(Debug, Clone, Copy, PartialEq, Eq, Structural)]
pub struct ViewOptions {
    pub show_ctrl: bool,
    pub show_break: bool,
    pub wrap_text: bool,
    pub show_linenr: bool,
}

/// A view of one document.
pub struct MDFileState {
    /// The file the view belongs to; views with equal paths show the same
    /// document.
    pub path: String,
    /// Edits that are not saved yet.
    pub changed: bool,
    pub doc_type: DocTypes,
    pub edit: TextAreaState,
    pub show_linenr: bool,
}

/// The columns before the right border where word wrapping prefers to break.
pub const WORD_BREAK_AREA: u16 = 8;

/// The width of a tab stop.
pub const TAB_WIDTH: u32 = 4;

/// The path a new file gets: `md` is added where the name has no extension.
pub open spec fn new_file_path(p: Seq<char>) -> Seq<char> {
    if extension_of(p) is None {
        with_extension(p, md_extension())
    } else {
        p
    }
}

/// Where the first line break of `s` stands, or its length.
pub open spec fn first_break(s: Seq<char>) -> nat
    decreases s.len(),
{
    if s.len() == 0 {
        0
    } else if s[0] == '\n' {
        0
    } else {
        1 + first_break(s.drop_first())
    }
}

/// A line without the carriage return of a `\r\n` ending.
pub open spec fn strip_cr(l: Seq<char>) -> Seq<char> {
    if l.len() > 0 && l.last() == '\r' {
        l.drop_last()
    } else {
        l
    }
}

/// The lines of a text: split at `\n` or `\r\n`, the terminators dropped,
/// and no empty line after a final terminator.
pub open spec fn lines_of(s: Seq<char>) -> Seq<Seq<char>>
    decreases s.len(),
{
    if s.len() == 0 {
        seq![]
    } else {
        let k = first_break(s);
        if k >= s.len() {
            seq![s]
        } else {
            seq![strip_cr(s.subrange(0, k as int))] + lines_of(s.subrange(k + 1 as int, s.len() as int))
        }
    }
}

/// Each line followed by the terminator `nl`.
pub open spec fn terminated(lines: Seq<Seq<char>>, nl: Seq<char>) -> Seq<char>
    decreases lines.len(),
{
    if lines.len() == 0 {
        seq![]
    } else {
        terminated(lines.drop_last(), nl) + lines.last() + nl
    }
}

/// What saving writes: the lines of the buffer, each ended by its line
/// terminator.
pub open spec fn file_content(b: TextAreaState) -> Seq<char> {
    terminated(lines_of(buffer_text(b)), buffer_newline(b))
}

/// Relies on `str::lines`: the text split at `\n` and `\r\n`.
#[verifier::external_body]
fn split_lines(s: &str) -> (r: Vec<String>)
    ensures
        r@.len() == lines_of(s@).len(),
        forall|i: int| 0 <= i < r@.len() ==> #[trigger] r@[i]@ == lines_of(s@)[i],
{
    s.lines().map(|l| l.to_string()).collect()
}

impl MDFileState {
    /// Sets up the buffer of a new view by the display settings.
    fn configure(edit: &mut TextAreaState, opts: &ViewOptions)
        ensures
            buffer_text(*final(edit)) == buffer_text(*old(edit)),
            buffer_newline(*final(edit)) == buffer_newline(*old(edit)),
            undo_count(*final(edit)) == undo_count(*old(edit)),
            replay_on(*final(edit)) == replay_on(*old(edit)),
    {
        set_show_ctrl(edit, opts.show_ctrl);
        set_wrap_ctrl(edit, opts.show_break);
        if opts.wrap_text {
            set_word_wrap(edit, WORD_BREAK_AREA);
        } else {
            set_shift_wrap(edit);
        }
        set_tab_width(edit, TAB_WIDTH);
    }

    /// The document kind of a path, by its extension.
    pub fn doc_type(path: &str) -> (r: DocTypes)
        ensures
            r == doc_type_of(extension_of(path@)),
    {
        let ext = path_extension(path);
        DocTypes::for_extension(&ext)
    }

    /// The path a new or renamed file gets: `md` is added where the name
    /// has no extension.
    pub fn with_default_extension(path: &str) -> (r: String)
        ensures
            r@ == new_file_path(path@),
    {
        match path_extension(path) {
            None => {
                let md = String::from_str("md");
                proof {
                    reveal_strlit("md");
                    assert(md@ =~= md_extension());
                }
                path_with_extension(path, md.as_str())
            },
            Some(_) => String::from_str(path),
        }
    }

    /// A view of a new, empty file. A path without extension gets `md`.
    pub fn new_file(path: &str, opts: &ViewOptions) -> (r: MDFileState)
        ensures
            r.path@ == new_file_path(path@),
            !r.changed,
            r.doc_type == doc_type_of(extension_of(r.path@)),
            buffer_text(r.edit) == Seq::<char>::empty(),
            undo_count(r.edit) == Some(0nat),
            !replay_on(r.edit),
            r.show_linenr == opts.show_linenr,
    {
        let path = Self::with_default_extension(path);
        let doc_type = Self::doc_type(path.as_str());
        let mut edit = new_buffer(path.as_str());
        Self::configure(&mut edit, opts);
        MDFileState { path, changed: false, doc_type, edit, show_linenr: opts.show_linenr }
    }

    /// A view of an existing file whose content has been read as `text`.
    pub fn open_file(path: &str, text: &str, opts: &ViewOptions) -> (r: MDFileState)
        ensures
            r.path@ == path@,
            !r.changed,
            r.doc_type == doc_type_of(extension_of(path@)),
            buffer_text(r.edit) == text@,
            undo_count(r.edit) == Some(0nat),
            !replay_on(r.edit),
            r.show_linenr == opts.show_linenr,
    {
        let doc_type = Self::doc_type(path);
        let mut edit = new_buffer(path);
        set_text(&mut edit, text);
        Self::configure(&mut edit, opts);
        MDFileState { path: String::from_str(path), changed: false, doc_type, edit, show_linenr: opts.show_linenr }
    }

    /// An independent copy of this view: same path, flags and text, its
    /// own buffer.
    pub fn clone_view(&self) -> (r: MDFileState)
        ensures
            r.path@ == self.path@,
            r.changed == self.changed,
            r.doc_type == self.doc_type,
            r.show_linenr == self.show_linenr,
            buffer_text(r.edit) == buffer_text(self.edit),
            buffer_newline(r.edit) == buffer_newline(self.edit),
            undo_count(r.edit) == undo_count(self.edit),
            replay_on(r.edit) == replay_on(self.edit),
    {
        MDFileState {
            path: self.path.clone(),
            changed: self.changed,
            doc_type: self.doc_type,
            edit: clone_buffer(&self.edit),
            show_linenr: self.show_linenr,
        }
    }

    /// The text of the view.
    pub fn text(&self) -> (r: String)
        ensures
            r@ == buffer_text(self.edit),
    {
        text_of(&self.edit)
    }

    /// Replaces the text of the view; the view then holds unsaved edits.
    pub fn set_text(&mut self, text: &str)
        ensures
            buffer_text(final(self).edit) == text@,
            final(self).changed,
            final(self).path == old(self).path,
            final(self).doc_type == old(self).doc_type,
            final(self).show_linenr == old(self).show_linenr,
    {
        set_text(&mut self.edit, text);
        self.changed = true;
    }

    /// Re-reads the unsaved state after an edit: the view is changed while
    /// its buffer has steps to undo.
    pub fn text_changed(&mut self)
        ensures
            final(self).path == old(self).path,
            final(self).edit == old(self).edit,
            final(self).doc_type == old(self).doc_type,
            final(self).show_linenr == old(self).show_linenr,
            final(self).changed == (undo_count(old(self).edit) matches Some(n) && n > 0),
    {
        let n = open_undo(&self.edit);
        self.changed = match n {
            Some(n) => n > 0,
            None => false,
        };
    }

    /// Points the view at another file; saving then writes there.
    pub fn set_path(&mut self, path: &str)
        ensures
            final(self).path@ == path@,
            final(self).changed == old(self).changed,
            final(self).edit == old(self).edit,
            final(self).doc_type == old(self).doc_type,
            final(self).show_linenr == old(self).show_linenr,
    {
        self.path = String::from_str(path);
    }

    /// What saving writes: nothing while the view is unchanged, else the
    /// lines of the text, each ended by the buffer's line terminator.
    pub fn save_content(&self) -> (r: Option<String>)
        ensures
            !self.changed ==> r is None,
            self.changed ==> (r matches Some(c) && c@ == file_content(self.edit)),
    {
        if !self.changed {
            return None;
        }
        let text = text_of(&self.edit);
        let nl = newline_of(&self.edit);
        let lines = split_lines(text.as_str());
        let ghost ls = lines_of(text@);
        let mut out = String::new();
        let mut i: usize = 0;
        while i < lines.len()
            invariant
                0 <= i <= lines@.len(),
                lines@.len() == ls.len(),
                forall|k: int| 0 <= k < lines@.len() ==> #[trigger] lines@[k]@ == ls[k],
                out@ == terminated(ls.subrange(0, i as int), nl@),
            decreases lines@.len() - i,
        {
            out.append(lines[i].as_str());
            out.append(nl.as_str());
            proof {
                let pre = ls.subrange(0, i + 1);
                assert(pre.drop_last() =~= ls.subrange(0, i as int));
                assert(pre.last() == ls[i as int]);
            }
            i = i + 1;
        }
        proof {
            assert(ls.subrange(0, ls.len() as int) =~= ls);
        }
        Some(out)
    }

    /// The text of the link under the cursor, if the cursor stands on one;
    /// `link_style` is the style index that marks links.
    pub fn link_at_cursor(&self, link_style: usize) -> (r: Option<String>) {
        let cursor = cursor_of(&self.edit);
        match byte_range_at(&self.edit, cursor) {
            Some(at) => match style_span_at(&self.edit, at.0, link_style) {
                Some(span) => text_slice(&self.edit, span),
                None => None,
            },
            None => None,
        }
    }

    /// Where the link under the cursor leads; see
    /// [`crate::link::link_target`]. `Ok(None)` where the cursor stands on
    /// no link.
    pub fn follow_link(&self, link_style: usize) -> (r: Result<Option<String>, LinkError>)
        ensures
            r matches Ok(Some(p)) ==> exists|t: Seq<char>| link_target_of(self.path@, t) == Ok::<Option<Seq<char>>, LinkError>(Some(p@)),
            r matches Err(e) ==> exists|t: Seq<char>| link_target_of(self.path@, t) == Err::<Option<Seq<char>>, LinkError>(e),
    {
        match self.link_at_cursor(link_style) {
            Some(text) => link_target(self.path.as_str(), text.as_str()),
            None => Ok(None),
        }
    }

    /// Records a successful save.
    pub fn mark_saved(&mut self)
        ensures
            !final(self).changed,
            final(self).path == old(self).path,
            final(self).edit == old(self).edit,
            final(self).doc_type == old(self).doc_type,
            final(self).show_linenr == old(self).show_linenr,
    {
        self.changed = false;
    }
}

} // verus!

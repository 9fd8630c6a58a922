//! The notation as it is typed: a buffer that takes one edit at a time and is
//! read anew after each, and the marker line that shows where a text fails.
//!
//! The editor keeps the polygon that was last read from the buffer. A text that
//! fails changes nothing but the marker: the last polygon stays.
use vstd::prelude::*;
use vstd::string::*;
use crate::notation::{is_notation_char, lemma_parse_render, lemma_render_chars, parse_polygon, parse_result, render, render_text, PolygonSpec, SLASH};

verus! {

/// `String::pop` of std takes the last character off the string and returns it;
/// on the empty string it returns `None` and changes nothing.
pub assume_specification[ String::pop ](s: &mut String) -> (last: Option<char>)
    ensures
        old(s)@.len() == 0 ==> last is None && final(s)@ == old(s)@,
        old(s)@.len() > 0 ==> last == Some(old(s)@.last()) && final(s)@ == old(s)@.drop_last(),
;

/// One change to the text.
#[derive(Clone, Copy, Debug, PartialEq, Eq, Structural)]
pub enum Edit {
    /// A character typed at the end.
    Append(char),
    /// The last character taken away.
    Remove,
}

/// The text after an edit. A character that the notation has no use for is not
/// taken up, and nothing is removed from an empty text.
pub open spec fn edited(text: Seq<char>, edit: Edit) -> Seq<char> {
    match edit {
        Edit::Append(c) => if is_notation_char(c) {
            text.push(c)
        } else {
            text
        },
        Edit::Remove => if text.len() > 0 {
            text.drop_last()
        } else {
            text
        },
    }
}

/// The line shown above the text field. Over a text that is a polygon it is
/// empty. Over one that fails at `position` it holds a `v` in column
/// `position + 1`, which is above the offending character when the text stands
/// behind one opening bracket.
pub open spec fn marker_text(result: Result<PolygonSpec, usize>) -> Seq<char> {
    match result {
        Ok(_) => seq!['\n'],
        Err(position) => Seq::new((position + 1) as nat, |i: int| ' ') + seq!['v', '\n'],
    }
}

/// What an editor holds, as plain values.
pub ghost struct EditorState {
    /// The text as typed so far.
    pub text: Seq<char>,
    /// The polygon last read from the text.
    pub accepted: PolygonSpec,
}

/// The text being typed, and the polygon that was last read from it.
pub struct Editor {
    buffer: String,
    current: PolygonSpec,
}

impl View for Editor {
    type V = EditorState;

    closed spec fn view(&self) -> EditorState {
        EditorState { text: self.buffer@, accepted: self.current }
    }
}

impl Editor {
    /// The text holds nothing but digits and slashes, and while it is a polygon,
    /// that polygon is the accepted one.
    pub open spec fn wf(&self) -> bool {
        &&& forall|i: int| 0 <= i < self@.text.len() ==> is_notation_char(#[trigger] self@.text[i])
        &&& parse_result(self@.text) is Ok ==> parse_result(self@.text) == Ok::<PolygonSpec, usize>(
            self@.accepted,
        )
    }

    /// An editor that shows `initial` in its canonical notation.
    pub fn new(initial: PolygonSpec) -> (editor: Editor)
        ensures
            editor.wf(),
            editor@.text == render_text(initial),
            editor@.accepted == initial,
    {
        proof {
            lemma_parse_render(initial);
            lemma_render_chars(initial);
        }
        Editor { buffer: render(&initial), current: initial }
    }

    /// The text as typed so far.
    pub fn text(&self) -> (text: &str)
        ensures
            text@ == self@.text,
    {
        self.buffer.as_str()
    }

    /// The polygon last read from the text.
    pub fn accepted(&self) -> (spec: PolygonSpec)
        ensures
            spec == self@.accepted,
    {
        self.current
    }

    /// Applies one edit and reads the text anew. `Ok` carries the polygon that
    /// the text now is, which becomes the accepted one and is to be drawn;
    /// `Err` carries the position at which the text fails, and the accepted
    /// polygon stays as it was.
    pub fn apply(&mut self, edit: Edit) -> (result: Result<PolygonSpec, usize>)
        requires
            old(self).wf(),
        ensures
            final(self).wf(),
            final(self)@.text == edited(old(self)@.text, edit),
            result == parse_result(final(self)@.text),
            final(self)@.accepted == match result {
                Ok(spec) => spec,
                Err(_) => old(self)@.accepted,
            },
    {
        match edit {
            Edit::Append(c) => {
                if (c >= '0' && c <= '9') || c == SLASH {
                    self.buffer.push(c);
                }
            },
            Edit::Remove => {
                let _ = self.buffer.pop();
            },
        }
        let result = parse_polygon(self.buffer.as_str());
        if let Ok(spec) = result {
            self.current = spec;
        }
        result
    }
}

/// The marker line for the outcome of reading the text.
pub fn marker_line(result: &Result<PolygonSpec, usize>) -> (line: String)
    ensures
        line@ == marker_text(*result),
{
    let mut line = String::new();
    match result {
        Ok(_) => {
            line.push('\n');
        },
        Err(position) => {
            let position: usize = *position;
            line.push(' ');
            let mut i: usize = 0;
            while i < position
                invariant
                    i <= position,
                    line@ == Seq::new((i + 1) as nat, |j: int| ' '),
                decreases position - i,
            {
                line.push(' ');
                i += 1;
            }
            line.push('v');
            line.push('\n');
        },
    }
    line
}

} // verus!

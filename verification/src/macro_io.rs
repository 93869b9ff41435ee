//! The input that a macro reads, and the output that it writes.

use vstd::prelude::*;
use crate::text;
use crate::text::{chars_of, string_of, utf8_len};
use crate::values::Value;

verus! {

#[derive(Debug, Clone, Copy, PartialEq, Eq, Structural)]
pub enum MacroDelimiter {
    Parenthesis,
    Bracket,
    Brace,
}

#[derive(Debug, PartialEq, Eq)]
pub enum MacroInputKind {
    /// Text, which may open or close a group.
    Text { text: String, delimiter: Option<(MacroDelimiter, bool)> },
    Data(Value),
}

#[derive(Debug, PartialEq, Eq)]
pub struct MacroInputElement {
    pub kind: MacroInputKind,
    /// Something separates the element from the one before it.
    pub separated: bool,
    pub start: usize,
    pub end: usize,
}

/// The items of a layout, as ranges of elements.
#[derive(Debug, PartialEq, Eq)]
pub struct MacroInputLayout {
    pub start: usize,
    pub end: usize,
    pub items: Vec<(usize, usize)>,
}

#[derive(Debug, PartialEq, Eq)]
pub struct MacroInput {
    pub elements: Vec<MacroInputElement>,
    pub layouts: Vec<MacroInputLayout>,
    pub start: usize,
    pub end: usize,
}

/// A layout that a reader has entered, and how many of its items it began.
#[derive(Debug, PartialEq, Eq)]
pub struct LayoutFrame {
    pub start: usize,
    pub end: usize,
    pub items: Vec<(usize, usize)>,
    pub begun: usize,
    pub depth: usize,
}

/// How far a macro has read.
#[derive(Debug, PartialEq, Eq)]
pub struct MacroCursor {
    pub element: usize,
    /// The number of scalars read of the element.
    pub offset: usize,
    pub separator_consumed: bool,
    /// The groups that the reader opened and did not close.
    pub delimiters: Vec<MacroDelimiter>,
    pub layouts: Vec<LayoutFrame>,
}

#[derive(Debug, PartialEq, Eq)]
pub enum MacroOutput {
    Text(String),
    Data(Value),
    Separator,
    LayoutStart,
    Anchor,
    LayoutEnd,
}

/// The model of an entered layout.
pub struct Frame {
    pub start: int,
    pub end: int,
    pub items: Seq<(usize, usize)>,
    pub begun: int,
    pub depth: int,
}

/// The model of a cursor.
pub struct Cursor {
    pub element: int,
    pub offset: int,
    pub separator: bool,
    pub delimiters: Seq<MacroDelimiter>,
    pub layouts: Seq<Frame>,
}

impl View for LayoutFrame {
    type V = Frame;

    open spec fn view(&self) -> Frame {
        Frame {
            start: self.start as int,
            end: self.end as int,
            items: self.items@,
            begun: self.begun as int,
            depth: self.depth as int,
        }
    }
}

impl View for MacroCursor {
    type V = Cursor;

    open spec fn view(&self) -> Cursor {
        Cursor {
            element: self.element as int,
            offset: self.offset as int,
            separator: self.separator_consumed,
            delimiters: self.delimiters@,
            layouts: frames(self.layouts@),
        }
    }
}

pub open spec fn frames(layouts: Seq<LayoutFrame>) -> Seq<Frame> {
    layouts.map_values(|f: LayoutFrame| f@)
}

/// A cursor that has read nothing.
pub open spec fn beginning() -> Cursor {
    Cursor {
        element: 0,
        offset: 0,
        separator: false,
        delimiters: Seq::empty(),
        layouts: Seq::empty(),
    }
}

/// The place at which the current item of an entered layout ends.
pub open spec fn item_end(f: Frame) -> int {
    if 0 < f.begun <= f.items.len() {
        f.items[f.begun - 1].1 as int
    } else {
        f.start
    }
}

/// The first element that the cursor may not read.
pub open spec fn limit(c: Cursor, input: MacroInput) -> int {
    if c.layouts.len() == 0 {
        input.elements@.len() as int
    } else {
        let end = item_end(c.layouts.last());
        if end <= input.elements@.len() {
            end
        } else {
            input.elements@.len() as int
        }
    }
}

/// The current element can be read: nothing unread separates it.
pub open spec fn readable(c: Cursor, input: MacroInput) -> bool {
    0 <= c.element < limit(c, input) && (c.offset > 0 || !input.elements@[c.element].separated
        || c.separator)
}

/// The text of an element.
pub open spec fn text_of(element: MacroInputElement) -> Option<Seq<char>> {
    match element.kind {
        MacroInputKind::Text { text, delimiter } => Some(text@),
        MacroInputKind::Data(_) => None,
    }
}

pub open spec fn delimiter_of(element: MacroInputElement) -> Option<(MacroDelimiter, bool)> {
    match element.kind {
        MacroInputKind::Text { text, delimiter } => delimiter,
        MacroInputKind::Data(_) => None,
    }
}

/// The next scalar. Delimiters are read only where they are asked for.
pub open spec fn scalar(c: Cursor, input: MacroInput, structural: bool) -> Option<char> {
    if !readable(c, input) {
        None
    } else {
        let element = input.elements@[c.element];
        match text_of(element) {
            Some(text) => if (structural || delimiter_of(element) is None) && 0 <= c.offset
                < text.len() {
                Some(text[c.offset])
            } else {
                None
            },
            None => None,
        }
    }
}

/// The unread rest of the current element, where it is plain text.
pub open spec fn run(c: Cursor, input: MacroInput) -> Option<Seq<char>> {
    if !readable(c, input) {
        None
    } else {
        let element = input.elements@[c.element];
        match text_of(element) {
            Some(text) => if delimiter_of(element) is None && 0 <= c.offset <= text.len() {
                Some(text.skip(c.offset))
            } else {
                None
            },
            None => None,
        }
    }
}

/// The position after the scalars that the given number of bytes spell.
pub open spec fn boundary(text: Seq<char>, from: int, bytes: nat) -> Option<int>
    decreases text.len() - from,
{
    if bytes == 0 {
        Some(from)
    } else if 0 <= from < text.len() && text::utf8_width(text[from]) <= bytes {
        boundary(text, from + 1, (bytes - text::utf8_width(text[from])) as nat)
    } else {
        None
    }
}

/// The cursor at the next element.
pub open spec fn finished(c: Cursor) -> Cursor {
    Cursor { element: c.element + 1, offset: 0, separator: false, ..c }
}

/// The cursor after it read up to `next` of its element. Reading a delimiter
/// opens its group, or closes the innermost one, which must match.
pub open spec fn moved(c: Cursor, input: MacroInput, next: int) -> Option<Cursor> {
    if !(0 <= c.element < input.elements@.len()) {
        None
    } else {
        let element = input.elements@[c.element];
        match text_of(element) {
            None => None,
            Some(text) => if next > text.len() {
                None
            } else if next < text.len() {
                Some(Cursor { offset: next, ..c })
            } else {
                match delimiter_of(element) {
                    None => Some(finished(c)),
                    Some((delimiter, true)) => Some(
                        finished(Cursor { delimiters: c.delimiters.push(delimiter), ..c }),
                    ),
                    Some((delimiter, false)) => if c.delimiters.len() > 0 && c.delimiters.last()
                        == delimiter {
                        Some(finished(Cursor { delimiters: c.delimiters.drop_last(), ..c }))
                    } else {
                        None
                    },
                }
            },
        }
    }
}

/// The cursor after it read the given number of bytes.
pub open spec fn advanced(c: Cursor, input: MacroInput, bytes: nat) -> Option<Cursor> {
    if !(0 <= c.element < input.elements@.len()) {
        None
    } else {
        match text_of(input.elements@[c.element]) {
            None => None,
            Some(text) => match boundary(text, c.offset, bytes) {
                None => None,
                Some(next) => moved(c, input, next),
            },
        }
    }
}

/// The cursor after it read a text, scalar by scalar.
pub open spec fn read(c: Cursor, input: MacroInput, expected: Seq<char>) -> Option<Cursor>
    decreases expected.len(),
{
    if expected.len() == 0 {
        Some(c)
    } else {
        match scalar(c, input, true) {
            None => None,
            Some(found) => if found != expected[0] {
                None
            } else {
                match moved(c, input, c.offset + 1) {
                    None => None,
                    Some(next) => read(next, input, expected.skip(1)),
                }
            },
        }
    }
}

/// Nothing of the current range is left to read.
pub open spec fn ended(c: Cursor, input: MacroInput) -> bool {
    c.element == limit(c, input) && c.delimiters.len() == (if c.layouts.len() == 0 {
        0
    } else {
        c.layouts.last().depth
    })
}

/// The byte at which what was read ends.
pub open spec fn consumed(c: Cursor, input: MacroInput) -> int {
    if !(0 <= c.element < input.elements@.len()) {
        if input.end >= input.start {
            input.end as int
        } else {
            input.start as int
        }
    } else {
        let element = input.elements@[c.element];
        if c.offset > 0 {
            element.start + (match text_of(element) {
                Some(text) => if c.offset <= text.len() {
                    text::utf8_size(text.take(c.offset)) as int
                } else {
                    0
                },
                None => 0,
            })
        } else if c.separator {
            element.start as int
        } else if c.element == 0 {
            input.start as int
        } else {
            input.elements@[c.element - 1].end as int
        }
    }
}

/// The byte positions of an input are machine integers.
pub open spec fn measured(input: MacroInput) -> bool {
    forall|k: int|
        0 <= k < input.elements@.len() ==> match text_of(#[trigger] input.elements@[k]) {
            Some(text) => input.elements@[k].start + text::utf8_size(text) <= usize::MAX,
            None => true,
        }
}

/// The layout that begins at the cursor.
pub open spec fn layout_at(c: Cursor, input: MacroInput, k: int) -> Option<int>
    decreases k,
{
    if k <= 0 {
        None
    } else {
        match layout_at(c, input, k - 1) {
            Some(found) => Some(found),
            None => if k <= input.layouts@.len() && input.layouts@[k - 1].start == c.element && c.offset
                == 0 && input.layouts@[k - 1].end <= limit(c, input) {
                Some(k - 1)
            } else {
                None
            },
        }
    }
}

/// The cursor inside the layout that begins at it.
pub open spec fn entered(c: Cursor, input: MacroInput) -> Option<Cursor> {
    match layout_at(c, input, input.layouts@.len() as int) {
        None => None,
        Some(k) => {
            let layout = input.layouts@[k];
            Some(
                Cursor {
                    layouts: c.layouts.push(
                        Frame {
                            start: layout.start as int,
                            end: layout.end as int,
                            items: layout.items@,
                            begun: 0,
                            depth: c.delimiters.len() as int,
                        },
                    ),
                    ..c
                },
            )
        },
    }
}

/// The cursor at the next item of the layout that it is in.
pub open spec fn anchored(c: Cursor) -> Option<Cursor> {
    if c.layouts.len() == 0 {
        None
    } else {
        let f = c.layouts.last();
        if 0 <= f.begun < f.items.len() && c.element == item_end(f) && c.offset == 0
            && c.delimiters.len() == f.depth {
            Some(
                Cursor {
                    element: f.items[f.begun].0 as int,
                    offset: 0,
                    separator: true,
                    layouts: c.layouts.drop_last().push(Frame { begun: f.begun + 1, ..f }),
                    ..c
                },
            )
        } else {
            None
        }
    }
}

/// The cursor after the layout that it is in, all of which must be read.
pub open spec fn left(c: Cursor) -> Option<Cursor> {
    if c.layouts.len() == 0 {
        None
    } else {
        let f = c.layouts.last();
        if f.begun == f.items.len() && c.element == f.end && c.offset == 0 && c.delimiters.len()
            == f.depth {
            Some(Cursor { layouts: c.layouts.drop_last(), ..c })
        } else {
            None
        }
    }
}

impl MacroInput {
    pub fn new(elements: Vec<MacroInputElement>, start: usize, end: usize) -> (input: Self)
        ensures
            input.elements == elements,
            input.layouts@.len() == 0,
            input.start == start,
            input.end == end,
    {
        MacroInput { elements, layouts: Vec::new(), start, end }
    }

    pub fn empty() -> (input: Self)
        ensures
            input.elements@.len() == 0,
            input.layouts@.len() == 0,
            input.start == 0,
            input.end == 0,
    {
        MacroInput::new(Vec::new(), 0, 0)
    }

    pub fn with_layouts(self, layouts: Vec<MacroInputLayout>) -> (input: Self)
        ensures
            input.elements == self.elements,
            input.layouts == layouts,
            input.start == self.start,
            input.end == self.end,
    {
        MacroInput { elements: self.elements, layouts, start: self.start, end: self.end }
    }

    pub fn element(&self, index: usize) -> (element: Option<&MacroInputElement>)
        ensures
            match element {
                Some(element) => index < self.elements@.len() && *element
                    == self.elements@[index as int],
                None => index >= self.elements@.len(),
            },
    {
        if index < self.elements.len() {
            Some(&self.elements[index])
        } else {
            None
        }
    }

    pub fn start(&self) -> (start: usize)
        ensures
            start == self.start,
    {
        self.start
    }

    /// Whether the byte positions of the input are machine integers.
    pub fn is_measured(&self) -> (b: bool)
        ensures
            b == measured(*self),
    {
        let mut k: usize = 0;
        while k < self.elements.len()
            invariant
                k <= self.elements.len(),
                forall|i: int|
                    0 <= i < k ==> match text_of(#[trigger] self.elements@[i]) {
                        Some(text) => self.elements@[i].start + text::utf8_size(text)
                            <= usize::MAX,
                        None => true,
                    },
            decreases self.elements.len() - k,
        {
            match &self.elements[k].kind {
                MacroInputKind::Text { text, delimiter: _ } => {
                    if text::byte_len(text.as_str()) > usize::MAX - self.elements[k].start {
                        assert(text_of(self.elements@[k as int]) == Some(text@));
                        return false;
                    }
                },
                MacroInputKind::Data(_) => {},
            }
            k = k + 1;
        }
        true
    }
}

/// The position after the scalars that a number of bytes spell.
pub fn boundary_of(chars: &Vec<char>, from: usize, bytes: usize) -> (next: Option<usize>)
    requires
        from <= chars@.len(),
    ensures
        match next {
            Some(next) => boundary(chars@, from as int, bytes as nat) == Some(next as int) && from
                <= next <= chars@.len(),
            None => boundary(chars@, from as int, bytes as nat) is None,
        },
{
    let mut at = from;
    let mut rest = bytes;
    while rest > 0
        invariant
            from <= at <= chars@.len(),
            boundary(chars@, from as int, bytes as nat) == boundary(
                chars@,
                at as int,
                rest as nat,
            ),
        decreases chars@.len() - at,
    {
        if at >= chars.len() {
            return None;
        }
        let width = utf8_len(chars[at]);
        if width > rest {
            return None;
        }
        rest = rest - width;
        at = at + 1;
    }
    Some(at)
}

/// Bytes that spell scalars end in the text.
pub proof fn boundary_bounds(text: Seq<char>, from: int, bytes: nat)
    requires
        0 <= from <= text.len(),
    ensures
        boundary(text, from, bytes) matches Some(next) ==> from <= next <= text.len() && bytes
            == text::utf8_size(text.take(next)) - text::utf8_size(text.take(from)),
    decreases text.len() - from,
{
    if bytes > 0 && from < text.len() && text::utf8_width(text[from]) <= bytes {
        boundary_bounds(text, from + 1, (bytes - text::utf8_width(text[from])) as nat);
        text::utf8_size_step(text, from);
    }
}

fn copy_frame(frame: &LayoutFrame) -> (copy: LayoutFrame)
    ensures
        copy@ == frame@,
{
    LayoutFrame {
        start: frame.start,
        end: frame.end,
        items: copy_items(&frame.items),
        begun: frame.begun,
        depth: frame.depth,
    }
}

impl MacroCursor {
    pub fn new() -> (cursor: Self)
        ensures
            cursor@ == beginning(),
    {
        let cursor = MacroCursor {
            element: 0,
            offset: 0,
            separator_consumed: false,
            delimiters: Vec::new(),
            layouts: Vec::new(),
        };
        assert(cursor@.delimiters =~= Seq::empty());
        assert(cursor@.layouts =~= Seq::empty());
        cursor
    }

    /// The same cursor.
    pub fn copy(&self) -> (copy: Self)
        ensures
            copy@ == self@,
    {
        let mut delimiters: Vec<MacroDelimiter> = Vec::new();
        let mut k: usize = 0;
        while k < self.delimiters.len()
            invariant
                k <= self.delimiters.len(),
                delimiters@ == self.delimiters@.take(k as int),
            decreases self.delimiters.len() - k,
        {
            delimiters.push(self.delimiters[k]);
            assert(delimiters@ =~= self.delimiters@.take(k + 1));
            k = k + 1;
        }
        assert(delimiters@ =~= self.delimiters@);
        let mut layouts: Vec<LayoutFrame> = Vec::new();
        let mut j: usize = 0;
        while j < self.layouts.len()
            invariant
                j <= self.layouts.len(),
                layouts.len() == j,
                forall|i: int| 0 <= i < j ==> (#[trigger] layouts@[i])@ == self.layouts@[i]@,
            decreases self.layouts.len() - j,
        {
            layouts.push(copy_frame(&self.layouts[j]));
            j = j + 1;
        }
        assert(frames(layouts@) =~= frames(self.layouts@));
        MacroCursor {
            element: self.element,
            offset: self.offset,
            separator_consumed: self.separator_consumed,
            delimiters,
            layouts,
        }
    }

    /// The first element that the cursor may not read.
    fn limit(&self, input: &MacroInput) -> (end: usize)
        ensures
            end == limit(self@, *input),
            end <= input.elements@.len(),
    {
        let count = self.layouts.len();
        let all = input.elements.len();
        assert(self@.layouts.len() == count);
        if count == 0 {
            return all;
        }
        let frame = &self.layouts[count - 1];
        assert(self@.layouts.last() == frame@);
        let end = if frame.begun > 0 && frame.begun <= frame.items.len() {
            frame.items[frame.begun - 1].1
        } else {
            frame.start
        };
        if end <= all {
            end
        } else {
            all
        }
    }

    /// Reads a text, or leaves the cursor where it is.
    pub fn read_text(&mut self, input: &MacroInput, expected: &str) -> (success: bool)
        ensures
            match read(old(self)@, *input, expected@) {
                Some(next) => success && final(self)@ == next,
                None => !success && final(self)@ == old(self)@,
            },
    {
        let mut candidate = self.copy();
        let chars = chars_of(expected);
        let mut k: usize = 0;
        assert(expected@.skip(0) =~= expected@);
        while k < chars.len()
            invariant
                chars@ == expected@,
                k <= chars.len(),
                self@ == old(self)@,
                read(self@, *input, expected@) == read(
                    candidate@,
                    *input,
                    expected@.skip(k as int),
                ),
            decreases chars.len() - k,
        {
            proof {
                assert(expected@.skip(k as int)[0] == expected@[k as int]);
                assert(expected@.skip(k as int).skip(1) =~= expected@.skip(k + 1));
            }
            match candidate.current_scalar(input, true) {
                None => {
                    return false;
                },
                Some((actual, _)) => {
                    if actual != chars[k] {
                        return false;
                    }
                },
            }
            let next = candidate.offset + 1;
            if !candidate.move_to(input, next) {
                return false;
            }
            k = k + 1;
        }
        *self = candidate;
        true
    }

    /// The unread rest of the current element, where it is plain text.
    pub fn textual_run(&self, input: &MacroInput) -> (found: Option<String>)
        ensures
            match found {
                Some(text) => run(self@, *input) == Some(text@),
                None => run(self@, *input) is None,
            },
    {
        if !self.can_read_current(input) {
            return None;
        }
        match &input.elements[self.element].kind {
            MacroInputKind::Text { text, delimiter } => {
                let chars = chars_of(text.as_str());
                if delimiter.is_none() && self.offset <= chars.len() {
                    let rest = string_of(&chars, self.offset, chars.len());
                    assert(rest@ =~= text@.skip(self.offset as int));
                    Some(rest)
                } else {
                    None
                }
            },
            MacroInputKind::Data(_) => None,
        }
    }

    /// Reads a number of bytes of the current run.
    pub fn advance_run(&mut self, input: &MacroInput, bytes: usize) -> (success: bool)
        ensures
            if bytes == 0 {
                success && final(self)@ == old(self)@
            } else if run(old(self)@, *input) is None {
                !success && final(self)@ == old(self)@
            } else {
                match advanced(old(self)@, *input, bytes as nat) {
                    Some(next) => success && final(self)@ == next,
                    None => !success && final(self)@ == old(self)@,
                }
            },
    {
        if bytes == 0 {
            return true;
        }
        if self.textual_run(input).is_none() {
            return false;
        }
        self.advance_text(input, bytes)
    }

    /// Reads the data that stands at the cursor.
    pub fn read_data(&mut self, input: &MacroInput) -> (found: Option<Value>)
        ensures
            match found {
                Some(value) => readable(old(self)@, *input) && old(self)@.offset == 0
                    && input.elements@[old(self)@.element].kind == MacroInputKind::Data(value)
                    && final(self)@ == finished(old(self)@),
                None => (!readable(old(self)@, *input) || old(self)@.offset != 0
                    || !(input.elements@[old(self)@.element].kind is Data)) && final(self)@
                    == old(self)@,
            },
    {
        let count = input.elements.len();
        if !self.can_read_current(input) || self.offset != 0 {
            return None;
        }
        assert(self.element < count);
        match &input.elements[self.element].kind {
            MacroInputKind::Data(value) => {
                let copy = value.copy();
                self.finish_element();
                Some(copy)
            },
            MacroInputKind::Text { text: _, delimiter: _ } => None,
        }
    }

    /// Reads what separates the current element from the one before it.
    pub fn read_separator(&mut self, input: &MacroInput) -> (success: bool)
        ensures
            success == (old(self)@.element < limit(old(self)@, *input) && old(self)@.offset == 0
                && input.elements@[old(self)@.element].separated && !old(self)@.separator),
            final(self)@ == (if success {
                Cursor { separator: true, ..old(self)@ }
            } else {
                old(self)@
            }),
    {
        if self.element >= self.limit(input) {
            return false;
        }
        if self.offset != 0 || !input.elements[self.element].separated || self.separator_consumed {
            return false;
        }
        self.separator_consumed = true;
        true
    }

    /// Nothing of the current range is left to read.
    pub fn at_end(&self, input: &MacroInput) -> (b: bool)
        ensures
            b == ended(self@, *input),
    {
        let count = self.layouts.len();
        assert(self@.layouts.len() == count);
        let depth = if count == 0 {
            0
        } else {
            assert(self@.layouts.last() == self.layouts@[count - 1]@);
            self.layouts[count - 1].depth
        };
        self.element == self.limit(input) && self.delimiters.len() == depth
    }

    /// Every group that was opened is closed.
    pub fn balanced(&self) -> (b: bool)
        ensures
            b == (self@.delimiters.len() == 0),
    {
        self.delimiters.len() == 0
    }

    /// The byte at which what was read ends.
    pub fn consumed_end(&self, input: &MacroInput) -> (end: usize)
        requires
            measured(*input),
        ensures
            end == consumed(self@, *input),
    {
        if self.element >= input.elements.len() {
            return if input.end >= input.start {
                input.end
            } else {
                input.start
            };
        }
        let element = &input.elements[self.element];
        if self.offset > 0 {
            match &element.kind {
                MacroInputKind::Text { text, delimiter: _ } => {
                    let chars = chars_of(text.as_str());
                    if self.offset <= chars.len() {
                        proof {
                            text::utf8_size_grows(
                                text@,
                                self.offset as int,
                                text@.len() as int,
                            );
                            assert(text@.take(text@.len() as int) =~= text@);
                            assert(text_of(input.elements@[self.element as int]) == Some(text@));
                        }
                        let read_text = string_of(&chars, 0, self.offset);
                        assert(read_text@ =~= text@.take(self.offset as int));
                        element.start + text::byte_len(read_text.as_str())
                    } else {
                        element.start
                    }
                },
                MacroInputKind::Data(_) => element.start,
            }
        } else if self.separator_consumed {
            element.start
        } else if self.element == 0 {
            input.start
        } else {
            input.elements[self.element - 1].end
        }
    }

    /// The next scalar, and the number of bytes that spell it.
    pub fn current_scalar(&self, input: &MacroInput, structural: bool) -> (found: Option<
        (char, usize),
    >)
        ensures
            match found {
                Some((c, width)) => scalar(self@, *input, structural) == Some(c) && width
                    == text::utf8_width(c) && self.offset < usize::MAX,
                None => scalar(self@, *input, structural) is None,
            },
    {
        if !self.can_read_current(input) {
            return None;
        }
        match &input.elements[self.element].kind {
            MacroInputKind::Text { text, delimiter } => {
                if !structural && delimiter.is_some() {
                    return None;
                }
                let chars = chars_of(text.as_str());
                if self.offset < chars.len() {
                    let c = chars[self.offset];
                    Some((c, utf8_len(c)))
                } else {
                    None
                }
            },
            MacroInputKind::Data(_) => None,
        }
    }

    /// The current element can be read.
    pub fn can_read_current(&self, input: &MacroInput) -> (b: bool)
        ensures
            b == readable(self@, *input),
    {
        self.element < self.limit(input) && (self.offset > 0
            || !input.elements[self.element].separated || self.separator_consumed)
    }

    /// Reads up to a scalar of the current element.
    fn move_to(&mut self, input: &MacroInput, next: usize) -> (success: bool)
        ensures
            match moved(old(self)@, *input, next as int) {
                Some(c) => success && final(self)@ == c,
                None => !success && final(self)@ == old(self)@,
            },
    {
        if self.element >= input.elements.len() {
            return false;
        }
        match &input.elements[self.element].kind {
            MacroInputKind::Text { text, delimiter } => {
                let chars = chars_of(text.as_str());
                if next > chars.len() {
                    return false;
                }
                if next < chars.len() {
                    self.offset = next;
                    return true;
                }
                match delimiter {
                    Some((delimiter, opening)) => {
                        let ghost had = self.delimiters@;
                        if *opening {
                            self.delimiters.push(*delimiter);
                        } else {
                            let count = self.delimiters.len();
                            if count == 0 || self.delimiters[count - 1] != *delimiter {
                                return false;
                            }
                            self.delimiters.pop();
                            assert(self.delimiters@ =~= had.drop_last());
                        }
                    },
                    None => {},
                }
                self.finish_element();
                true
            },
            MacroInputKind::Data(_) => false,
        }
    }

    /// Reads a number of bytes of the current element.
    pub fn advance_text(&mut self, input: &MacroInput, bytes: usize) -> (success: bool)
        ensures
            match advanced(old(self)@, *input, bytes as nat) {
                Some(next) => success && final(self)@ == next,
                None => !success && final(self)@ == old(self)@,
            },
    {
        if self.element >= input.elements.len() {
            return false;
        }
        match &input.elements[self.element].kind {
            MacroInputKind::Text { text, delimiter: _ } => {
                let chars = chars_of(text.as_str());
                if self.offset > chars.len() {
                    if bytes == 0 {
                        let next = self.offset;
                        return self.move_to(input, next);
                    }
                    return false;
                }
                match boundary_of(&chars, self.offset, bytes) {
                    Some(next) => self.move_to(input, next),
                    None => false,
                }
            },
            MacroInputKind::Data(_) => false,
        }
    }

    /// Goes to the next element.
    pub fn finish_element(&mut self)
        requires
            old(self).element < usize::MAX,
        ensures
            final(self)@ == finished(old(self)@),
    {
        self.element = self.element + 1;
        self.offset = 0;
        self.separator_consumed = false;
    }

    /// Enters the layout that begins at the cursor.
    pub fn enter_layout(&mut self, input: &MacroInput) -> (success: bool)
        ensures
            match entered(old(self)@, *input) {
                Some(c) => success && final(self)@ == c,
                None => !success && final(self)@ == old(self)@,
            },
    {
        let end = self.limit(input);
        let mut k: usize = 0;
        while k < input.layouts.len()
            invariant
                k <= input.layouts.len(),
                end == limit(self@, *input),
                self@ == old(self)@,
                layout_at(self@, *input, k as int) is None,
            decreases input.layouts.len() - k,
        {
            let layout = &input.layouts[k];
            if layout.start == self.element && self.offset == 0 && layout.end <= end {
                proof {
                    layout_at_first(self@, *input, k as int, input.layouts@.len() as int);
                }
                let depth = self.delimiters.len();
                let frame = LayoutFrame {
                    start: layout.start,
                    end: layout.end,
                    items: copy_items(&layout.items),
                    begun: 0,
                    depth,
                };
                let ghost had = self@.layouts;
                self.layouts.push(frame);
                assert(self@.layouts =~= had.push(frame@));
                return true;
            }
            k = k + 1;
        }
        false
    }

    /// Goes to the next item of the layout that the cursor is in.
    pub fn read_anchor(&mut self) -> (success: bool)
        ensures
            match anchored(old(self)@) {
                Some(c) => success && final(self)@ == c,
                None => !success && final(self)@ == old(self)@,
            },
    {
        let count = self.layouts.len();
        let ghost had = self@;
        assert(self@.layouts.len() == count);
        if count == 0 {
            return false;
        }
        assert(self@.layouts.last() == self.layouts@[count - 1]@);
        let begun = self.layouts[count - 1].begun;
        if begun >= self.layouts[count - 1].items.len() {
            return false;
        }
        let end = if begun > 0 {
            self.layouts[count - 1].items[begun - 1].1
        } else {
            self.layouts[count - 1].start
        };
        if self.element != end || self.offset != 0 || self.delimiters.len() != self.layouts[count
            - 1].depth {
            return false;
        }
        let ghost all = self.layouts@;
        match self.layouts.pop() {
            Some(frame) => {
                assert(frame == all.last());
                let ghost old_frame = frame@;
                let mut frame = frame;
                self.element = frame.items[begun].0;
                self.separator_consumed = true;
                frame.begun = begun + 1;
                assert(frame@ == (Frame { begun: old_frame.begun + 1, ..old_frame }));
                self.layouts.push(frame);
                assert(self@.layouts =~= had.layouts.drop_last().push(frame@));
                true
            },
            None => false,
        }
    }

    /// Leaves the layout that the cursor is in.
    pub fn exit_layout(&mut self) -> (success: bool)
        ensures
            match left(old(self)@) {
                Some(c) => success && final(self)@ == c,
                None => !success && final(self)@ == old(self)@,
            },
    {
        let count = self.layouts.len();
        let ghost had = self@;
        assert(self@.layouts.len() == count);
        if count == 0 {
            return false;
        }
        assert(self@.layouts.last() == self.layouts@[count - 1]@);
        let done = {
            let frame = &self.layouts[count - 1];
            frame.begun == frame.items.len() && self.element == frame.end && self.offset == 0
                && self.delimiters.len() == frame.depth
        };
        if !done {
            return false;
        }
        self.layouts.pop();
        assert(self@.layouts =~= had.layouts.drop_last());
        true
    }
}

fn copy_items(items: &Vec<(usize, usize)>) -> (copy: Vec<(usize, usize)>)
    ensures
        copy@ == items@,
{
    let mut copy: Vec<(usize, usize)> = Vec::new();
    let mut k: usize = 0;
    while k < items.len()
        invariant
            k <= items.len(),
            copy@ == items@.take(k as int),
        decreases items.len() - k,
    {
        copy.push(items[k]);
        assert(copy@ =~= items@.take(k + 1));
        k = k + 1;
    }
    assert(copy@ =~= items@);
    copy
}

/// The first layout that begins at the cursor is the one that it enters.
proof fn layout_at_first(c: Cursor, input: MacroInput, k: int, n: int)
    requires
        0 <= k < n <= input.layouts@.len(),
        layout_at(c, input, k) is None,
        input.layouts@[k].start == c.element,
        c.offset == 0,
        input.layouts@[k].end <= limit(c, input),
    ensures
        layout_at(c, input, n) == Some(k),
    decreases n,
{
    if n > k + 1 {
        layout_at_first(c, input, k, n - 1);
    }
}

/// A text that is read is read in parts.
pub proof fn reading_splits(c: Cursor, input: MacroInput, first: Seq<char>, rest: Seq<char>)
    ensures
        read(c, input, first + rest) == (match read(c, input, first) {
            Some(next) => read(next, input, rest),
            None => None,
        }),
    decreases first.len(),
{
    if first.len() == 0 {
        assert(first + rest =~= rest);
    } else {
        assert((first + rest)[0] == first[0]);
        assert((first + rest).skip(1) =~= first.skip(1) + rest);
        match scalar(c, input, true) {
            Some(found) => {
                if found == first[0] {
                    match moved(c, input, c.offset + 1) {
                        Some(next) => {
                            reading_splits(next, input, first.skip(1), rest);
                        },
                        None => {},
                    }
                }
            },
            None => {},
        }
    }
}

} // verus!

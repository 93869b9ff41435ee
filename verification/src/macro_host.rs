//! What a macro run has done so far: its journal, and the snapshot that it
//! runs against.

use vstd::prelude::*;
use crate::diagnostic::Severity;
use crate::macro_io;
use crate::macro_io::{Cursor, MacroCursor, MacroInput, MacroOutput};
use crate::text::byte_len;
use crate::text;
use crate::values::Value;

verus! {

/// A message that a macro emits.
#[derive(Debug, PartialEq, Eq)]
pub struct Diagnostic {
    pub severity: Severity,
    pub message: String,
}

/// What a macro run cannot change.
#[derive(Debug, PartialEq, Eq)]
pub struct MacroSnapshot {
    pub environment: Value,
    pub input: MacroInput,
}

/// An output layout that is not closed yet.
#[derive(Debug, Clone, Copy, PartialEq, Eq, Structural)]
pub struct MacroOutputLayout {
    pub anchors: usize,
    pub item_has_content: bool,
}

/// What one alternative of a macro run has done.
#[derive(Debug, PartialEq, Eq)]
pub struct MacroJournal {
    pub diagnostics: Vec<Diagnostic>,
    pub active_cases: Vec<Value>,
    pub visited_cases: Vec<Value>,
    pub cursor: MacroCursor,
    pub output: Vec<MacroOutput>,
    pub output_layouts: Vec<MacroOutputLayout>,
    pub root_anchor_expansion: bool,
    pub root_item_has_content: bool,
}

/// The model of a journal.
pub struct Journal {
    pub diagnostics: Seq<Diagnostic>,
    pub active: Seq<Value>,
    pub visited: Seq<Value>,
    pub cursor: Cursor,
    pub output: Seq<MacroOutput>,
    pub layouts: Seq<MacroOutputLayout>,
    pub root_anchors: bool,
    pub root_content: bool,
}

impl View for MacroJournal {
    type V = Journal;

    open spec fn view(&self) -> Journal {
        Journal {
            diagnostics: self.diagnostics@,
            active: self.active_cases@,
            visited: self.visited_cases@,
            cursor: self.cursor@,
            output: self.output@,
            layouts: self.output_layouts@,
            root_anchors: self.root_anchor_expansion,
            root_content: self.root_item_has_content,
        }
    }
}

/// A journal of a run that has done nothing.
pub open spec fn fresh() -> Journal {
    Journal {
        diagnostics: Seq::empty(),
        active: Seq::empty(),
        visited: Seq::empty(),
        cursor: macro_io::beginning(),
        output: Seq::empty(),
        layouts: Seq::empty(),
        root_anchors: false,
        root_content: false,
    }
}

/// The current item has content.
pub open spec fn filled(j: Journal) -> Journal {
    if j.layouts.len() > 0 {
        Journal {
            layouts: j.layouts.update(
                j.layouts.len() - 1,
                MacroOutputLayout { item_has_content: true, ..j.layouts.last() },
            ),
            ..j
        }
    } else {
        Journal { root_content: true, ..j }
    }
}

pub open spec fn wrote(j: Journal, output: MacroOutput) -> Journal {
    Journal { output: j.output.push(output), ..j }
}

/// An anchor begins an item of the innermost layout, or of the whole output.
/// The item before it must have content, and outside a layout the first anchor
/// must come before everything else.
pub open spec fn anchor_error(j: Journal) -> Option<Seq<char>> {
    if j.layouts.len() > 0 {
        if j.layouts.last().anchors > 0 && !j.layouts.last().item_has_content {
            Some("macro `.write.anchor` cannot follow an empty layout item"@)
        } else {
            None
        }
    } else if !j.root_anchors {
        if j.output.len() > 0 {
            Some("macro `.write.anchor` must be the first output operation outside a layout"@)
        } else {
            None
        }
    } else if !j.root_content {
        Some("macro `.write.anchor` cannot follow an empty expansion item"@)
    } else {
        None
    }
}

pub open spec fn with_anchor(j: Journal) -> Journal {
    if j.layouts.len() > 0 {
        wrote(
            Journal {
                layouts: j.layouts.update(
                    j.layouts.len() - 1,
                    MacroOutputLayout {
                        anchors: (j.layouts.last().anchors + 1) as usize,
                        item_has_content: false,
                    },
                ),
                ..j
            },
            MacroOutput::Anchor,
        )
    } else {
        wrote(
            Journal { root_anchors: true, root_content: false, ..j },
            MacroOutput::Anchor,
        )
    }
}

/// A layout can be closed when its last item has content.
pub open spec fn close_error(j: Journal) -> Option<Seq<char>> {
    if j.layouts.len() == 0 {
        Some("internal macro output-layout stack became unbalanced"@)
    } else if j.layouts.last().anchors == 0 {
        Some("macro `.write.layout` requires at least one anchored item"@)
    } else if !j.layouts.last().item_has_content {
        Some("macro `.write.layout` cannot end with an empty item"@)
    } else {
        None
    }
}

/// Every layout is closed, and no anchored item is empty.
pub open spec fn complete(j: Journal) -> bool {
    j.layouts.len() == 0 && (!j.root_anchors || j.root_content)
}

/// The number of layouts that an output opens and does not close.
pub open spec fn depth(output: Seq<MacroOutput>) -> int
    decreases output.len(),
{
    if output.len() == 0 {
        0
    } else {
        depth(output.drop_last()) + (match output.last() {
            MacroOutput::LayoutStart => 1int,
            MacroOutput::LayoutEnd => -1int,
            _ => 0int,
        })
    }
}

/// The journal counts the open layouts of its output.
pub open spec fn nested(j: Journal) -> bool {
    depth(j.output) == j.layouts.len()
}

/// The items of each open layout can be counted further.
pub open spec fn bounded(j: Journal) -> bool {
    forall|k: int| 0 <= k < j.layouts.len() ==> (#[trigger] j.layouts[k]).anchors < usize::MAX
}

impl MacroJournal {
    pub fn new() -> (journal: Self)
        ensures
            journal@ == fresh(),
            nested(journal@),
    {
        let journal = MacroJournal {
            diagnostics: Vec::new(),
            active_cases: Vec::new(),
            visited_cases: Vec::new(),
            cursor: MacroCursor::new(),
            output: Vec::new(),
            output_layouts: Vec::new(),
            root_anchor_expansion: false,
            root_item_has_content: false,
        };
        proof {
            assert(journal@.diagnostics =~= Seq::empty());
            assert(journal@.active =~= Seq::empty());
            assert(journal@.visited =~= Seq::empty());
            assert(journal@.output =~= Seq::empty());
            assert(journal@.layouts =~= Seq::empty());
        }
        journal
    }

    pub fn push_diagnostic(&mut self, diagnostic: Diagnostic)
        ensures
            final(self)@ == (Journal {
                diagnostics: old(self)@.diagnostics.push(diagnostic),
                ..old(self)@
            }),
    {
        self.diagnostics.push(diagnostic);
    }

    /// Whether the items of each open layout can be counted further.
    pub fn is_bounded(&self) -> (b: bool)
        ensures
            b == bounded(self@),
    {
        let mut k: usize = 0;
        while k < self.output_layouts.len()
            invariant
                k <= self.output_layouts.len(),
                forall|i: int|
                    0 <= i < k ==> (#[trigger] self@.layouts[i]).anchors < usize::MAX,
            decreases self.output_layouts.len() - k,
        {
            assert(self@.layouts[k as int] == self.output_layouts@[k as int]);
            if self.output_layouts[k].anchors == usize::MAX {
                return false;
            }
            k = k + 1;
        }
        true
    }

    pub fn diagnostics(&self) -> (diagnostics: &Vec<Diagnostic>)
        ensures
            diagnostics@ == self@.diagnostics,
    {
        &self.diagnostics
    }

    pub fn output(&self) -> (output: &Vec<MacroOutput>)
        ensures
            output@ == self@.output,
    {
        &self.output
    }

    /// Writes text. An empty text is written, and is no content.
    pub fn write_text(&mut self, text: String)
        ensures
            final(self)@ == wrote(
                if text@.len() > 0 {
                    filled(old(self)@)
                } else {
                    old(self)@
                },
                MacroOutput::Text(text),
            ),
    {
        let bytes = byte_len(text.as_str());
        proof {
            text::utf8_size_grows(text@, 0, text@.len() as int);
            assert(text@.take(text@.len() as int) =~= text@);
            assert(text@.take(0) =~= Seq::empty());
        }
        if bytes > 0 {
            self.mark_output_content();
        }
        self.output.push(MacroOutput::Text(text));
    }

    pub fn write_data(&mut self, value: Value)
        ensures
            final(self)@ == wrote(filled(old(self)@), MacroOutput::Data(value)),
    {
        self.mark_output_content();
        self.output.push(MacroOutput::Data(value));
    }

    pub fn write_separator(&mut self)
        ensures
            final(self)@ == wrote(old(self)@, MacroOutput::Separator),
    {
        self.output.push(MacroOutput::Separator);
    }

    pub fn enter_output_layout(&mut self)
        ensures
            ({
                let j = wrote(filled(old(self)@), MacroOutput::LayoutStart);
                final(self)@ == (Journal {
                    layouts: j.layouts.push(
                        MacroOutputLayout { anchors: 0, item_has_content: false },
                    ),
                    ..j
                })
            }),
    {
        self.mark_output_content();
        self.output.push(MacroOutput::LayoutStart);
        self.output_layouts.push(MacroOutputLayout { anchors: 0, item_has_content: false });
    }

    pub fn write_anchor(&mut self) -> (result: Result<(), &'static str>)
        requires
            bounded(old(self)@),
        ensures
            match result {
                Ok(_) => anchor_error(old(self)@) is None && final(self)@ == with_anchor(
                    old(self)@,
                ),
                Err(message) => anchor_error(old(self)@) == Some(message@) && final(self)@
                    == old(self)@,
            },
    {
        let count = self.output_layouts.len();
        if count > 0 {
            let layout = self.output_layouts[count - 1];
            if layout.anchors > 0 && !layout.item_has_content {
                return Err("macro `.write.anchor` cannot follow an empty layout item");
            }
            self.output_layouts.set(
                count - 1,
                MacroOutputLayout { anchors: layout.anchors + 1, item_has_content: false },
            );
            self.output.push(MacroOutput::Anchor);
            return Ok(());
        }
        if !self.root_anchor_expansion {
            if self.output.len() > 0 {
                return Err(
                    "macro `.write.anchor` must be the first output operation outside a layout",
                );
            }
            self.root_anchor_expansion = true;
        } else if !self.root_item_has_content {
            return Err("macro `.write.anchor` cannot follow an empty expansion item");
        }
        self.root_item_has_content = false;
        self.output.push(MacroOutput::Anchor);
        Ok(())
    }

    pub fn exit_output_layout(&mut self) -> (result: Result<(), &'static str>)
        ensures
            match result {
                Ok(_) => close_error(old(self)@) is None && final(self)@ == (Journal {
                    layouts: old(self)@.layouts.drop_last(),
                    ..wrote(old(self)@, MacroOutput::LayoutEnd)
                }),
                Err(message) => close_error(old(self)@) == Some(message@) && final(self)@
                    == old(self)@,
            },
    {
        let count = self.output_layouts.len();
        if count == 0 {
            return Err("internal macro output-layout stack became unbalanced");
        }
        let layout = self.output_layouts[count - 1];
        if layout.anchors == 0 {
            return Err("macro `.write.layout` requires at least one anchored item");
        }
        if !layout.item_has_content {
            return Err("macro `.write.layout` cannot end with an empty item");
        }
        let ghost had = self.output_layouts@;
        self.output_layouts.pop();
        assert(self.output_layouts@ =~= had.drop_last());
        self.output.push(MacroOutput::LayoutEnd);
        Ok(())
    }

    pub fn output_is_complete(&self) -> (b: bool)
        ensures
            b == complete(self@),
    {
        self.output_layouts.len() == 0 && (!self.root_anchor_expansion
            || self.root_item_has_content)
    }

    pub fn is_anchor_expansion(&self) -> (b: bool)
        ensures
            b == self@.root_anchors,
    {
        self.root_anchor_expansion
    }

    pub fn mark_output_content(&mut self)
        ensures
            final(self)@ == filled(old(self)@),
    {
        let count = self.output_layouts.len();
        if count > 0 {
            let layout = self.output_layouts[count - 1];
            self.output_layouts.set(
                count - 1,
                MacroOutputLayout { anchors: layout.anchors, item_has_content: true },
            );
        } else {
            self.root_item_has_content = true;
        }
    }
}

/// The host of a macro run.
#[derive(Debug, PartialEq, Eq)]
pub struct MacroHost {
    pub snapshot: MacroSnapshot,
}

impl MacroHost {
    pub fn new(environment: Value, input: MacroInput) -> (host: Self)
        ensures
            host.snapshot.environment == environment,
            host.snapshot.input == input,
    {
        MacroHost { snapshot: MacroSnapshot { environment, input } }
    }
}

/// Every write keeps count of the open layouts: text, data, separators and
/// anchors leave it, an entered layout adds one, and a closed one takes one.
pub proof fn writes_keep_count(j: Journal, output: MacroOutput)
    requires
        nested(j),
        !(output is LayoutStart),
        !(output is LayoutEnd),
    ensures
        nested(wrote(j, output)),
        nested(wrote(filled(j), output)),
        nested(with_anchor(j)),
        ({
            let entered = wrote(filled(j), MacroOutput::LayoutStart);
            nested(
                Journal {
                    layouts: entered.layouts.push(
                        MacroOutputLayout { anchors: 0, item_has_content: false },
                    ),
                    ..entered
                },
            )
        }),
        close_error(j) is None ==> nested(
            Journal { layouts: j.layouts.drop_last(), ..wrote(j, MacroOutput::LayoutEnd) },
        ),
{
    assert(j.output.push(output).drop_last() =~= j.output);
    assert(j.output.push(MacroOutput::Anchor).drop_last() =~= j.output);
    assert(j.output.push(MacroOutput::LayoutStart).drop_last() =~= j.output);
    assert(j.output.push(MacroOutput::LayoutEnd).drop_last() =~= j.output);
}

/// A complete output opens and closes the same layouts.
pub proof fn complete_output_is_balanced(j: Journal)
    requires
        nested(j),
        complete(j),
    ensures
        depth(j.output) == 0,
{
}

/// A layout whose last item is empty cannot be closed, and an anchor cannot
/// follow an empty item: no item of a closed layout is empty.
pub proof fn no_layout_item_is_empty(j: Journal)
    requires
        j.layouts.len() > 0,
        j.layouts.last().anchors > 0,
        !j.layouts.last().item_has_content,
    ensures
        close_error(j) is Some,
        anchor_error(j) is Some,
{
}

} // verus!

//! Keyboard input state for fixed-width hint entry.

use crate::model::PickerOutcome;
use crate::text::push_char;
use vstd::prelude::*;
use vstd::string::StrSliceExecFns;

verus! {

/// A key press relevant to the picker.
#[derive(Debug, Clone, Copy, PartialEq, Eq, Structural)]
pub enum InputEvent {
    Char(char),
    Enter,
    Escape,
    CtrlC,
}

/// Characters typed so far towards a hint of fixed width.
#[derive(Debug, Clone)]
pub struct InputState {
    width: usize,
    buffer: String,
}

/// `outcome` reports that `text` was copied.
pub open spec fn is_copied(outcome: Option<PickerOutcome>, text: Seq<char>) -> bool {
    match outcome {
        Some(PickerOutcome::Copied { text: t }) => t@ == text,
        _ => false,
    }
}

impl InputState {
    /// Hint width this state collects.
    pub closed spec fn width_spec(&self) -> int {
        self.width as int
    }

    /// Characters typed since the buffer was last cleared.
    pub closed spec fn typed(&self) -> Seq<char> {
        self.buffer@
    }

    /// A state for hints of `width` characters with nothing typed yet.
    pub fn new(width: usize) -> (state: Self)
        ensures
            state.width_spec() == width,
            state.typed() == Seq::<char>::empty(),
    {
        InputState { width, buffer: String::new() }
    }

    /// Feeds one key press. Escape and Ctrl-C cancel; Enter is ignored; a
    /// character is appended to the buffer, and once the buffer holds as many
    /// characters as the hint width it is cleared and, if it spells one of
    /// `valid_hints`, reported as copied.
    pub fn push(&mut self, event: InputEvent, valid_hints: &[String]) -> (outcome: Option<PickerOutcome>)
        ensures
            final(self).width_spec() == old(self).width_spec(),
            match event {
                InputEvent::Escape | InputEvent::CtrlC => {
                    &&& outcome matches Some(PickerOutcome::Cancelled)
                    &&& final(self).typed() == old(self).typed()
                },
                InputEvent::Enter => {
                    &&& outcome is None
                    &&& final(self).typed() == old(self).typed()
                },
                InputEvent::Char(c) => {
                    let typed = old(self).typed().push(c);
                    if typed.len() == old(self).width_spec() {
                        &&& final(self).typed() == Seq::<char>::empty()
                        &&& if valid_hints@.map_values(|h: String| h@).contains(typed) {
                            is_copied(outcome, typed)
                        } else {
                            outcome is None
                        }
                    } else {
                        &&& final(self).typed() == typed
                        &&& outcome is None
                    }
                },
            },
    {
        match event {
            InputEvent::Escape | InputEvent::CtrlC => Some(PickerOutcome::Cancelled),
            InputEvent::Enter => None,
            InputEvent::Char(ch) => {
                push_char(&mut self.buffer, ch);
                if self.buffer.as_str().unicode_len() == self.width {
                    let entered = self.buffer.clone();
                    self.buffer = String::new();
                    let mut i: usize = 0;
                    let mut found = false;
                    while i < valid_hints.len()
                        invariant
                            i <= valid_hints@.len(),
                            found <==> exists|m: int|
                                0 <= m < i && (#[trigger] valid_hints@[m])@ == entered@,
                        decreases valid_hints@.len() - i,
                    {
                        if valid_hints[i] == entered {
                            found = true;
                        }
                        i = i + 1;
                    }
                    proof {
                        let hv = valid_hints@.map_values(|h: String| h@);
                        if found {
                            let m = choose|m: int|
                                0 <= m < i && (#[trigger] valid_hints@[m])@ == entered@;
                            assert(hv[m] == entered@);
                        } else {
                            assert(!hv.contains(entered@)) by {
                                if hv.contains(entered@) {
                                    let m = choose|m: int| 0 <= m < hv.len() && hv[m] == entered@;
                                    assert(valid_hints@[m]@ == entered@);
                                }
                            }
                        }
                    }
                    if found {
                        Some(PickerOutcome::Copied { text: entered })
                    } else {
                        None
                    }
                } else {
                    None
                }
            },
        }
    }
}

} // verus!

//! Picker session decisions: which key presses continue, cancel, close or
//! select a copied text. Reading keys, copying and drawing are done by the
//! caller, which feeds each key press to [`PickerSession::handle`] and acts
//! on the step it returns.

use crate::input::{InputEvent, InputState};
use crate::model::{HintAssignment, PickerOutcome};
use crate::picker::render::PickerView;
use vstd::prelude::*;
use vstd::string::{StrSliceExecFns, StringExecFns};

verus! {

/// A key press as the picker sees it.
#[derive(Debug, Clone, Copy, PartialEq, Eq, Structural)]
pub enum PickerInputEvent {
    Char(char),
    Enter,
    Escape,
    CtrlC,
    Other,
}

/// What the caller does after a key press.
#[derive(Debug, Clone, PartialEq, Eq)]
pub enum SessionStep {
    /// Keep reading keys.
    Continue,
    /// The session is over with this outcome.
    Finish(PickerOutcome),
    /// Copy this text; the session is over once it is copied.
    Copy(String),
}

/// State of an interactive picker over a built view.
pub struct PickerSession {
    input: InputState,
    hints: Vec<String>,
    texts: Vec<String>,
}

/// What handling a key press does: from the session `before` to the
/// session `after`, taking `step`. The hints, copied texts and entry width
/// stay. Without hints, Escape and Ctrl-C cancel, a character closes the
/// picker reporting no matches, and anything else is ignored. With hints,
/// Escape and Ctrl-C cancel, Enter and other keys are ignored, and a
/// character is added to the entry; a complete entry is cleared and, when
/// it spells a hint, selects the copied text of the first assignment with
/// that hint.
pub open spec fn handled(
    before: PickerSession,
    event: PickerInputEvent,
    after: PickerSession,
    step: SessionStep,
) -> bool {
    &&& after.wf()
    &&& after.hint_list() == before.hint_list()
    &&& after.text_list() == before.text_list()
    &&& after.width() == before.width()
    &&& before.hint_list().len() == 0 ==> {
        &&& after.typed() == before.typed()
        &&& match event {
            PickerInputEvent::Escape | PickerInputEvent::CtrlC => step == SessionStep::Finish(
                PickerOutcome::Cancelled,
            ),
            PickerInputEvent::Char(_) => step == SessionStep::Finish(PickerOutcome::NoMatches),
            _ => step == SessionStep::Continue,
        }
    }
    &&& before.hint_list().len() > 0 ==> match event {
        PickerInputEvent::Escape | PickerInputEvent::CtrlC => {
            &&& step == SessionStep::Finish(PickerOutcome::Cancelled)
            &&& after.typed() == before.typed()
        },
        PickerInputEvent::Char(c) => {
            let typed = before.typed().push(c);
            if typed.len() == before.width() {
                &&& after.typed() == Seq::<char>::empty()
                &&& match step {
                    SessionStep::Copy(text) => exists|i: int|
                        0 <= i < before.hint_list().len() && before.hint_list()[i] == typed
                            && text@ == before.text_list()[i] && forall|j: int|
                            0 <= j < i ==> before.hint_list()[j] != typed,
                    SessionStep::Continue => !before.hint_list().contains(typed),
                    SessionStep::Finish(_) => false,
                }
            } else {
                &&& after.typed() == typed
                &&& step == SessionStep::Continue
            }
        },
        _ => {
            &&& step == SessionStep::Continue
            &&& after.typed() == before.typed()
        },
    }
}

impl PickerSession {
    /// Every hint has its copied text.
    pub closed spec fn wf(&self) -> bool {
        self.hints@.len() == self.texts@.len()
    }

    /// Hints the session accepts, in assignment order.
    pub closed spec fn hint_list(&self) -> Seq<Seq<char>> {
        self.hints@.map_values(|h: String| h@)
    }

    /// Copied texts, aligned with [`Self::hint_list`].
    pub closed spec fn text_list(&self) -> Seq<Seq<char>> {
        self.texts@.map_values(|t: String| t@)
    }

    /// Characters typed towards the next hint.
    pub closed spec fn typed(&self) -> Seq<char> {
        self.input.typed()
    }

    /// Hint width in bytes that completes an entry.
    pub closed spec fn width(&self) -> int {
        self.input.width_spec()
    }

    /// A session over `view`: its hints and copied texts, with entries as
    /// wide as the first hint.
    pub fn new(view: &PickerView) -> (session: Self)
        ensures
            session.hint_list() == view.assignments@.map_values(|a: HintAssignment| a@.hint),
            session.text_list() == view.assignments@.map_values(|a: HintAssignment| a@.text),
            session.typed() == Seq::<char>::empty(),
            session.wf(),
            view.assignments@.len() > 0 ==> session.width() == view.assignments@[0].hint@.len(),
    {
        let mut hints: Vec<String> = Vec::new();
        let mut texts: Vec<String> = Vec::new();
        let mut i: usize = 0;
        while i < view.assignments.len()
            invariant
                i <= view.assignments@.len(),
                hints@.len() == i,
                texts@.len() == i,
                forall|m: int| 0 <= m < i ==> #[trigger] hints@[m]@ == view.assignments@[m].hint@,
                forall|m: int| 0 <= m < i ==> #[trigger] texts@[m]@ == view.assignments@[m].text@,
            decreases view.assignments@.len() - i,
        {
            hints.push(view.assignments[i].hint.clone());
            texts.push(view.assignments[i].text.clone());
            i = i + 1;
        }
        let width = if view.assignments.len() > 0 {
            view.assignments[0].hint.as_str().unicode_len()
        } else {
            0
        };
        let session = PickerSession { input: InputState::new(width), hints, texts };
        assert(session.hint_list() =~= view.assignments@.map_values(|a: HintAssignment| a@.hint));
        assert(session.text_list() =~= view.assignments@.map_values(|a: HintAssignment| a@.text));
        session
    }

    /// Decides what a key press does, as [`handled`] states it.
    #[verifier::loop_isolation(false)]
    pub fn handle(&mut self, event: PickerInputEvent) -> (step: SessionStep)
        requires
            old(self).wf(),
        ensures
            handled(*old(self), event, *final(self), step),
    {
        if self.hints.len() == 0 {
            return match event {
                PickerInputEvent::Escape | PickerInputEvent::CtrlC => SessionStep::Finish(
                    PickerOutcome::Cancelled,
                ),
                PickerInputEvent::Char(_) => SessionStep::Finish(PickerOutcome::NoMatches),
                _ => SessionStep::Continue,
            };
        }
        match event {
            PickerInputEvent::Escape | PickerInputEvent::CtrlC => SessionStep::Finish(
                PickerOutcome::Cancelled,
            ),
            PickerInputEvent::Enter | PickerInputEvent::Other => SessionStep::Continue,
            PickerInputEvent::Char(c) => {
                let outcome = self.input.push(InputEvent::Char(c), self.hints.as_slice());
                match outcome {
                    Some(PickerOutcome::Copied { text: hint }) => {
                        let hints = &self.hints;
                        let texts = &self.texts;
                        let mut i: usize = 0;
                        while i < hints.len()
                            invariant
                                i <= hints@.len(),
                                hints@.len() == texts@.len(),
                                hints@.map_values(|h: String| h@).contains(hint@),
                                forall|j: int| 0 <= j < i ==> #[trigger] hints@[j]@ != hint@,
                            decreases hints@.len() - i,
                        {
                            if hints[i] == hint {
                                let text = texts[i].clone();
                                proof {
                                    let hv = hints@.map_values(|h: String| h@);
                                    assert(hv[i as int] == hint@);
                                    assert(texts@.map_values(|t: String| t@)[i as int] == text@);
                                    assert forall|j: int| 0 <= j < i implies #[trigger] hv[j] != hint@ by {
                                        assert(hv[j] == hints@[j]@);
                                    }
                                }
                                return SessionStep::Copy(text);
                            }
                            i = i + 1;
                        }
                        proof {
                            let hv = hints@.map_values(|h: String| h@);
                            let m = choose|m: int| 0 <= m < hv.len() && hv[m] == hint@;
                            assert(hints@[m]@ == hint@);
                        }
                        SessionStep::Continue
                    },
                    _ => SessionStep::Continue,
                }
            },
        }
    }
}

/// Context added to a clipboard error when the selected text could not be copied.
pub const COPY_FAILURE_CONTEXT: &'static str = "failed to copy selected text";

/// How `{:?}` prints a string: quoted, with special characters escaped.
pub uninterp spec fn debug_quoted(text: Seq<char>) -> Seq<char>;

/// Formats `text` with `{:?}` (the standard library's `Debug` for `str`);
/// the contract names the result.
#[verifier::external_body]
fn quoted(text: &str) -> (q: String)
    ensures
        q@ == debug_quoted(text@),
{
    format!("{text:?}")
}

/// The message the picker shows when copying `text` failed with `error`.
pub fn copy_failure_message(text: &str, error: &str) -> (message: String)
    ensures
        message@ == "Herdr Pluck: failed to copy "@ + debug_quoted(text@) + ": "@ + error@,
{
    let mut message = "Herdr Pluck: failed to copy ".to_owned();
    message.append(quoted(text).as_str());
    message.append(": ");
    message.append(error);
    message
}

/// After typing the first `i` letters of a hint that is not yet complete,
/// the entry holds those letters and every step so far continued.
proof fn lemma_typing_prefix(sessions: Seq<PickerSession>, steps: Seq<SessionStep>, hint: Seq<char>, i: int)
    requires
        0 <= i < hint.len(),
        sessions.len() == hint.len() + 1,
        steps.len() == hint.len(),
        sessions[0].typed() == Seq::<char>::empty(),
        sessions[0].hint_list().contains(hint),
        hint.len() == sessions[0].width(),
        forall|k: int|
            0 <= k < hint.len() ==> handled(
                #[trigger] sessions[k],
                PickerInputEvent::Char(hint[k]),
                sessions[k + 1],
                steps[k],
            ),
    ensures
        sessions[i].typed() == hint.take(i),
        sessions[i].hint_list() == sessions[0].hint_list(),
        sessions[i].text_list() == sessions[0].text_list(),
        sessions[i].width() == sessions[0].width(),
        forall|j: int| 0 <= j < i ==> #[trigger] steps[j] == SessionStep::Continue,
    decreases i,
{
    if i == 0 {
        assert(hint.take(0) =~= Seq::<char>::empty());
    } else {
        lemma_typing_prefix(sessions, steps, hint, i - 1);
        assert(handled(sessions[i - 1], PickerInputEvent::Char(hint[i - 1]), sessions[i], steps[i - 1]));
        assert(hint.take(i - 1).push(hint[i - 1]) =~= hint.take(i));
    }
}

/// Typing a shown hint letter by letter from an empty entry keeps the
/// picker going until its last letter, which copies the text of the first
/// assignment with that hint.
pub proof fn law_typing_hint_copies_its_text(
    sessions: Seq<PickerSession>,
    steps: Seq<SessionStep>,
    hint: Seq<char>,
)
    requires
        hint.len() > 0,
        sessions.len() == hint.len() + 1,
        steps.len() == hint.len(),
        sessions[0].typed() == Seq::<char>::empty(),
        sessions[0].hint_list().contains(hint),
        hint.len() == sessions[0].width(),
        forall|i: int|
            0 <= i < hint.len() ==> handled(
                #[trigger] sessions[i],
                PickerInputEvent::Char(hint[i]),
                sessions[i + 1],
                steps[i],
            ),
    ensures
        forall|i: int| 0 <= i < hint.len() - 1 ==> #[trigger] steps[i] == SessionStep::Continue,
        steps[hint.len() - 1] matches SessionStep::Copy(text) && exists|k: int|
            0 <= k < sessions[0].hint_list().len() && sessions[0].hint_list()[k] == hint && text@
                == sessions[0].text_list()[k] && forall|j: int|
                0 <= j < k ==> sessions[0].hint_list()[j] != hint,
{
    let n: int = hint.len() as int;
    lemma_typing_prefix(sessions, steps, hint, n - 1);
    assert(handled(sessions[n - 1], PickerInputEvent::Char(hint[n - 1]), sessions[n], steps[n - 1]));
    assert(hint.take(n - 1).push(hint[n - 1]) =~= hint);
}

} // verus!

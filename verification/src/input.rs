//! Writing a history item back: copying it to the clipboard, or pasting it
//! into the application that had focus with a synthetic Ctrl+V.
use vstd::prelude::*;

use crate::clipboard::ClipboardWriteContent;
use crate::history::ClipboardError;
use crate::listener::{log_extends, log_since};
use crate::service::{content_follows, writes_content, ClipboardFiles, ClipboardService};
use crate::writer::{
    calls_since, content_formats, replaced_as_called, ClipboardOps, SequenceSuppressor, ClipboardWriter, ClipboardWriterError, OpsCall,
};

verus! {

/// What a history action did.
#[derive(Debug, Clone, Copy, PartialEq, Eq, Structural)]
pub enum ClipboardActionKind {
    Copied,
    Input,
}

/// The outcome of a history action.
#[derive(Debug, Clone, Copy, PartialEq, Eq, Structural)]
pub struct ClipboardActionOutcome {
    pub action: ClipboardActionKind,
    pub clipboard_updated: bool,
}

/// Why the surface could not hand input back to the target application.
#[derive(Debug, Clone, Copy, PartialEq, Eq, Structural)]
pub enum SurfaceError {
    FocusDenied,
    InputAttachmentDenied,
    TargetUnavailable,
    LockPoisoned,
    UnsupportedPlatform,
}

/// Why copying or pasting a history item failed.
#[derive(Debug, Clone, Copy, PartialEq, Eq)]
pub enum ClipboardInputError {
    Clipboard(ClipboardError),
    Writer(ClipboardWriterError),
    Surface(SurfaceError),
    ClipboardChanged,
    ModifierPressed,
    InputDenied,
    InputCleanupDenied,
}

/// Which input target a paste needs: file lists must land in a focused
/// descendant window, other content in the active target.
#[derive(Debug, Clone, Copy, PartialEq, Eq, Structural)]
pub enum SurfaceInputTargetRequirement {
    FocusedDescendant,
    ActiveTarget,
}

impl SurfaceInputTargetRequirement {
    /// The requirement's name in traces.
    pub fn as_str(self) -> (name: &'static str)
        ensures
            name@ == match self {
                SurfaceInputTargetRequirement::FocusedDescendant => "focused_descendant"@,
                SurfaceInputTargetRequirement::ActiveTarget => "active_target"@,
            },
    {
        match self {
            SurfaceInputTargetRequirement::FocusedDescendant => "focused_descendant",
            SurfaceInputTargetRequirement::ActiveTarget => "active_target",
        }
    }
}

/// The input target a paste of `content` needs.
pub open spec fn target_requirement_of(content: ClipboardWriteContent) -> SurfaceInputTargetRequirement {
    match content {
        ClipboardWriteContent::Files { .. } => SurfaceInputTargetRequirement::FocusedDescendant,
        _ => SurfaceInputTargetRequirement::ActiveTarget,
    }
}

/// The input target a paste of `content` needs.
pub fn input_target_requirement(content: &ClipboardWriteContent) -> (requirement: SurfaceInputTargetRequirement)
    ensures
        requirement == target_requirement_of(*content),
{
    match content {
        ClipboardWriteContent::Files { .. } => SurfaceInputTargetRequirement::FocusedDescendant,
        ClipboardWriteContent::Text(_) | ClipboardWriteContent::Image { .. } => SurfaceInputTargetRequirement::ActiveTarget,
    }
}

/// The kind of content, as named in traces.
pub fn content_kind(content: &ClipboardWriteContent) -> (name: &'static str)
    ensures
        name@ == match *content {
            ClipboardWriteContent::Text(_) => "text"@,
            ClipboardWriteContent::Image { .. } => "image"@,
            ClipboardWriteContent::Files { .. } => "files"@,
        },
{
    match content {
        ClipboardWriteContent::Text(_) => "text",
        ClipboardWriteContent::Image { .. } => "image",
        ClipboardWriteContent::Files { .. } => "files",
    }
}

/// One synthetic key event.
#[derive(Debug, Clone, Copy, PartialEq, Eq, Structural)]
pub struct KeyInput {
    pub virtual_key: u16,
    pub key_up: bool,
}

/// The Control key.
pub const VK_CONTROL: u16 = 0x11;
/// The V key.
pub const VK_V: u16 = 0x56;

/// The keyboard calls a paste makes. The log functions name what the calls
/// answered so far: each modifier query's answer, and each batch sent with
/// how many of its events were inserted.
pub trait InputApi {
    /// The answers of the modifier queries so far, oldest first.
    spec fn modifier_answers(&self) -> Seq<bool>;

    /// The batches sent so far with their insert counts, oldest first.
    spec fn sent(&self) -> Seq<(Seq<KeyInput>, usize)>;

    /// Whether Shift, Control, Alt or a Windows key is held down.
    fn modifier_pressed(&mut self) -> (pressed: bool)
        ensures
            final(self).modifier_answers() == old(self).modifier_answers().push(pressed),
            final(self).sent() == old(self).sent(),
    ;

    /// Inserts the events and reports how many were inserted.
    fn send(&mut self, inputs: &[KeyInput]) -> (inserted: usize)
        ensures
            final(self).sent() == old(self).sent().push((inputs@, inserted)),
            final(self).modifier_answers() == old(self).modifier_answers(),
    ;
}

/// Ctrl down, V down, V up, Ctrl up.
pub open spec fn ctrl_v_sequence() -> Seq<KeyInput> {
    seq![
        KeyInput { virtual_key: VK_CONTROL, key_up: false },
        KeyInput { virtual_key: VK_V, key_up: false },
        KeyInput { virtual_key: VK_V, key_up: true },
        KeyInput { virtual_key: VK_CONTROL, key_up: true },
    ]
}

/// The key releases that undo the first `inserted` events of Ctrl+V: V up
/// once V went down, then Ctrl up once Ctrl went down.
pub open spec fn releases_for(inserted: int) -> Seq<KeyInput> {
    if inserted >= 2 {
        seq![KeyInput { virtual_key: VK_V, key_up: true }, KeyInput { virtual_key: VK_CONTROL, key_up: true }]
    } else if inserted >= 1 {
        seq![KeyInput { virtual_key: VK_CONTROL, key_up: true }]
    } else {
        Seq::empty()
    }
}

/// The events of Ctrl+V.
pub fn ctrl_v_inputs() -> (inputs: Vec<KeyInput>)
    ensures
        inputs@ == ctrl_v_sequence(),
{
    let inputs = vec![
        KeyInput { virtual_key: VK_CONTROL, key_up: false },
        KeyInput { virtual_key: VK_V, key_up: false },
        KeyInput { virtual_key: VK_V, key_up: true },
        KeyInput { virtual_key: VK_CONTROL, key_up: true },
    ];
    assert(inputs@ =~= ctrl_v_sequence());
    inputs
}

/// The releases that undo a partial Ctrl+V of `inserted` events.
pub fn releases_after(inserted: usize) -> (releases: Vec<KeyInput>)
    ensures
        releases@ == releases_for(inserted as int),
{
    let mut releases: Vec<KeyInput> = Vec::new();
    if inserted >= 2 {
        releases.push(KeyInput { virtual_key: VK_V, key_up: true });
    }
    if inserted >= 1 {
        releases.push(KeyInput { virtual_key: VK_CONTROL, key_up: true });
    }
    assert(releases@ =~= releases_for(inserted as int));
    releases
}

/// What a paste reports from what the keyboard calls returned: a held
/// modifier stops it; all four events inserted is success; otherwise the
/// pressed keys are released in one batch, then one by one when the batch
/// fell short, and the paste is denied (or its cleanup, when a single
/// release failed).
pub open spec fn ctrl_v_outcome(modifier: bool, inserted: int, batch: int, singles_released: bool) -> Result<
    (),
    ClipboardInputError,
> {
    if modifier {
        Err(ClipboardInputError::ModifierPressed)
    } else if inserted == 4 {
        Ok(())
    } else if releases_for(inserted).len() == 0 || batch == releases_for(inserted).len() || singles_released {
        Err(ClipboardInputError::InputDenied)
    } else {
        Err(ClipboardInputError::InputCleanupDenied)
    }
}

/// What a paste reports once the keyboard calls have answered: whether a
/// modifier was held, how many of the four Ctrl+V events were inserted, how
/// many releases the batch inserted, and whether every single release went
/// through.
pub fn paste_outcome(modifier: bool, inserted: usize, batch: usize, singles_released: bool) -> (result: Result<
    (),
    ClipboardInputError,
>)
    ensures
        result == ctrl_v_outcome(modifier, inserted as int, batch as int, singles_released),
{
    if modifier {
        return Err(ClipboardInputError::ModifierPressed);
    }
    if inserted == 4 {
        return Ok(());
    }
    let releases = releases_after(inserted).len();
    if releases == 0 || batch == releases || singles_released {
        Err(ClipboardInputError::InputDenied)
    } else {
        Err(ClipboardInputError::InputCleanupDenied)
    }
}

/// Whether a paste that asked the modifier state `queries` times, got the
/// answers `modifiers`, and sent the batches `sends` (each with how many of
/// its events were inserted) did what a paste must and answered `result`:
/// one modifier query; nothing sent while a modifier is held; otherwise
/// Ctrl+V as one batch; a short insertion releases the pressed keys as one
/// batch and, when that batch falls short, one key at a time; the result is
/// `ctrl_v_outcome` of the answers.
pub open spec fn paste_follows(
    modifiers: Seq<bool>,
    sends: Seq<(Seq<KeyInput>, usize)>,
    result: Result<(), ClipboardInputError>,
) -> bool {
    &&& modifiers.len() == 1
    &&& if modifiers[0] {
        sends.len() == 0 && result == Err::<(), ClipboardInputError>(ClipboardInputError::ModifierPressed)
    } else {
        &&& sends.len() >= 1
        &&& sends[0].0 == ctrl_v_sequence()
        &&& {
            let inserted = sends[0].1 as int;
            let releases = releases_for(inserted);
            if inserted == 4 {
                sends.len() == 1 && result == Ok::<(), ClipboardInputError>(())
            } else if releases.len() == 0 {
                sends.len() == 1 && result == ctrl_v_outcome(false, inserted, 0, true)
            } else {
                &&& sends.len() >= 2
                &&& sends[1].0 == releases
                &&& if sends[1].1 == releases.len() {
                    sends.len() == 2 && result == ctrl_v_outcome(false, inserted, sends[1].1 as int, true)
                } else {
                    &&& sends.len() == 2 + releases.len()
                    &&& forall|k: int| 0 <= k < releases.len() ==> (#[trigger] sends[2 + k]).0 == seq![releases[k]]
                    &&& result == ctrl_v_outcome(
                        false,
                        inserted,
                        sends[1].1 as int,
                        forall|k: int| 0 <= k < releases.len() ==> (#[trigger] sends[2 + k]).1 == 1,
                    )
                }
            }
        }
    }
}

/// Pastes with a synthetic Ctrl+V, refusing while a modifier is held and
/// releasing every key a partial insertion left pressed.
pub fn send_ctrl_v<A: InputApi>(api: &mut A) -> (result: Result<(), ClipboardInputError>)
    ensures
        paste_follows(
            final(api).modifier_answers().subrange(
                old(api).modifier_answers().len() as int,
                final(api).modifier_answers().len() as int,
            ),
            final(api).sent().subrange(old(api).sent().len() as int, final(api).sent().len() as int),
            result,
        ),
{
    let ghost modifiers0 = api.modifier_answers();
    let ghost sent0 = api.sent();
    let modifier = api.modifier_pressed();
    let ghost modifiers1 = api.modifier_answers();
    assert(modifiers1.subrange(modifiers0.len() as int, modifiers1.len() as int) =~= seq![modifier]);
    if modifier {
        assert(api.sent().subrange(sent0.len() as int, api.sent().len() as int) =~= Seq::<(Seq<KeyInput>, usize)>::empty());
        return paste_outcome(true, 0, 0, false);
    }
    let inputs = ctrl_v_inputs();
    let inserted = api.send(inputs.as_slice());
    let count = inputs.len();
    let ghost first = seq![(ctrl_v_sequence(), inserted)];
    assert(api.sent().subrange(sent0.len() as int, api.sent().len() as int) =~= first);
    if inserted == count {
        return paste_outcome(false, inserted, 0, false);
    }
    let releases = releases_after(inserted);
    if releases.len() == 0 {
        return paste_outcome(false, inserted, 0, true);
    }
    let batch = api.send(releases.as_slice());
    let ghost second = first.push((releases@, batch));
    assert(api.sent().subrange(sent0.len() as int, api.sent().len() as int) =~= second);
    if batch == releases.len() {
        return paste_outcome(false, inserted, batch, true);
    }
    let mut all_released = true;
    let mut i: usize = 0;
    while i < releases.len()
        invariant
            i <= releases@.len(),
            releases@ == releases_for(inserted as int),
            api.modifier_answers() == modifiers1,
            api.sent().len() >= sent0.len(),
            ({
                let sends = api.sent().subrange(sent0.len() as int, api.sent().len() as int);
                &&& sends.len() == 2 + i
                &&& sends[0] == (ctrl_v_sequence(), inserted)
                &&& sends[1] == (releases@, batch)
                &&& forall|k: int| 0 <= k < i ==> (#[trigger] sends[2 + k]).0 == seq![releases@[k]]
                &&& all_released == forall|k: int| 0 <= k < i ==> (#[trigger] sends[2 + k]).1 == 1
            }),
        decreases releases.len() - i,
    {
        let single = vec![releases[i]];
        assert(single@ =~= seq![releases@[i as int]]);
        let ghost before = api.sent().subrange(sent0.len() as int, api.sent().len() as int);
        let ghost previous = all_released;
        let sent = api.send(single.as_slice());
        let ghost after = api.sent().subrange(sent0.len() as int, api.sent().len() as int);
        assert(after =~= before.push((seq![releases@[i as int]], sent)));
        all_released = all_released && sent == 1;
        i += 1;
        proof {
            assert forall|k: int| 0 <= k < i implies (#[trigger] after[2 + k]).0 == seq![releases@[k]] by {
                if k < i - 1 {
                    assert(after[2 + k] == before[2 + k]);
                }
            }
            if !previous {
                let k = choose|k: int| 0 <= k < i - 1 && !((#[trigger] before[2 + k]).1 == 1);
                assert(after[2 + k] == before[2 + k]);
            } else if sent != 1 {
                assert(after[2 + (i - 1)].1 == sent);
            } else {
                assert forall|k: int| 0 <= k < i implies (#[trigger] after[2 + k]).1 == 1 by {
                    if k < i - 1 {
                        assert(after[2 + k] == before[2 + k]);
                    }
                }
            }
        }
    }
    paste_outcome(false, inserted, batch, all_released)
}

/// The surface calls a paste makes: it hands focus back to the target
/// application, and forgets the capture that asked for the paste.
pub trait InputSurface {
    /// A claim on the target application for one paste.
    type Handoff;
    /// Claims the target application for a paste needing `requirement`.
    fn begin_input_handoff_for(&mut self, requirement: SurfaceInputTargetRequirement) -> Result<Self::Handoff, SurfaceError>;
    /// Gives focus back to the claimed target; returns the capture generation.
    fn restore_target(&mut self, handoff: &Self::Handoff) -> Result<u64, SurfaceError>;
    /// Clears the surface unless a newer capture replaced `generation`.
    fn clear_if_generation(&mut self, generation: u64);
    /// Releases the claim.
    fn end_input_handoff(&mut self, handoff: Self::Handoff);
}

/// Whether writing `content` answered `written` while the writer's calls
/// went from `before` to `after` and the suppressed sequences from
/// `suppressed_before` to `suppressed_after`: invalid content is refused
/// before any call; valid content is written as `replaced_as_called` says.
pub open spec fn written_content(
    content: ClipboardWriteContent,
    before: Seq<OpsCall>,
    after: Seq<OpsCall>,
    suppressed_before: Seq<u32>,
    suppressed_after: Seq<u32>,
    written: Result<Option<u32>, ClipboardWriterError>,
) -> bool {
    match content_formats(content) {
        Err(error) => written == Err::<Option<u32>, ClipboardWriterError>(error) && after == before
            && suppressed_after == suppressed_before,
        Ok(formats) => replaced_as_called(formats, calls_since(before, after), suppressed_before, suppressed_after, written),
    }
}

/// What a copy answers for the writer's answer: done, `ClipboardChanged`
/// when another program changed the clipboard meanwhile, or the writer's
/// error.
pub open spec fn copy_result(written: Result<Option<u32>, ClipboardWriterError>) -> Result<
    ClipboardActionOutcome,
    ClipboardInputError,
> {
    match written {
        Ok(Some(_)) => Ok(ClipboardActionOutcome { action: ClipboardActionKind::Copied, clipboard_updated: true }),
        Ok(None) => Err(ClipboardInputError::ClipboardChanged),
        Err(error) => Err(ClipboardInputError::Writer(error)),
    }
}

/// Copies and pastes history items.
pub struct ClipboardInputCoordinator<F: ClipboardFiles, O: ClipboardOps, S: InputSurface, A: InputApi> {
    clipboard: ClipboardService<F>,
    writer: ClipboardWriter<O>,
    surface: S,
    input: A,
}

impl<F: ClipboardFiles, O: ClipboardOps, S: InputSurface, A: InputApi> ClipboardInputCoordinator<F, O, S, A> {
    /// The history the coordinator writes back from.
    pub closed spec fn service(&self) -> ClipboardService<F> {
        self.clipboard
    }

    /// The clipboard calls the writer makes.
    pub closed spec fn writer_ops(&self) -> O {
        self.writer.ops()
    }

    /// The keyboard calls a paste makes.
    pub closed spec fn input_api(&self) -> A {
        self.input
    }

    /// The history, for queries and changes.
    pub fn clipboard_mut(&mut self) -> (service: &mut ClipboardService<F>)
        ensures
            *service == old(self).service(),
            final(self).service() == *final(service),
    {
        &mut self.clipboard
    }

    /// A coordinator over the history, the clipboard, the surface and the
    /// keyboard.
    pub fn new(clipboard: ClipboardService<F>, ops: O, surface: S, input: A) -> (coordinator: Self)
        ensures
            coordinator.service() == clipboard,
    {
        ClipboardInputCoordinator { clipboard, writer: ClipboardWriter::new(ops), surface, input }
    }

    /// Puts the item `id` on the clipboard; `ClipboardChanged` when another
    /// program changed the clipboard during the write.
    pub fn copy<G: SequenceSuppressor>(&mut self, id: i64, owner_window: usize, suppress: &mut G) -> (result: Result<
        ClipboardActionOutcome,
        ClipboardInputError,
    >)
        requires
            old(self).service().wf(),
        ensures
            final(self).service().wf(),
            final(self).service().table() == old(self).service().table(),
            log_extends(old(self).service().file_calls(), final(self).service().file_calls()),
            final(self).service().observations() == old(self).service().observations(),
            result matches Err(ClipboardInputError::Clipboard(error)) ==> content_follows(
                old(self).service().table(),
                id,
                log_since(old(self).service().file_calls(), final(self).service().file_calls()),
                Err(error),
            ),
            match result {
                Ok(outcome) => outcome == ClipboardActionOutcome { action: ClipboardActionKind::Copied, clipboard_updated: true }
                    && exists|content: ClipboardWriteContent| #[trigger] writes_content(
                    Ok(content),
                    old(self).service().table(),
                    id,
                ),
                Err(ClipboardInputError::Clipboard(error)) => writes_content(Err(error), old(self).service().table(), id),
                Err(error) => error is Writer || error is ClipboardChanged,
            },
            !(exists|content: ClipboardWriteContent| #[trigger] writes_content(
                Ok(content),
                old(self).service().table(),
                id,
            )) ==> (result matches Err(ClipboardInputError::Clipboard(error)) && writes_content(
                Err(error),
                old(self).service().table(),
                id,
            )),
            result matches Err(ClipboardInputError::Clipboard(_)) ==> final(self).writer_ops() == old(self).writer_ops()
                && final(suppress).suppressed() == old(suppress).suppressed(),
            !(result matches Err(ClipboardInputError::Clipboard(_))) ==> exists|
                content: ClipboardWriteContent,
                written: Result<Option<u32>, ClipboardWriterError>,
            |
                #[trigger] written_content(content, old(self).writer_ops().calls(), final(self).writer_ops().calls(), old(suppress).suppressed(), final(suppress).suppressed(), written)
                    && writes_content(Ok(content), old(self).service().table(), id) && content_follows(
                    old(self).service().table(),
                    id,
                    log_since(old(self).service().file_calls(), final(self).service().file_calls()),
                    Ok(content),
                ) && result == copy_result(written),
    {
        let content = match self.clipboard.content_for_write(id) {
            Ok(content) => content,
            Err(error) => {
                return Err(ClipboardInputError::Clipboard(error));
            },
        };
        let ghost before = self.writer.ops().calls();
        let written = self.writer.replace_in_transaction(&content, suppress);
        let result = match written {
            Ok(Some(_)) => Ok(ClipboardActionOutcome { action: ClipboardActionKind::Copied, clipboard_updated: true }),
            Ok(None) => Err(ClipboardInputError::ClipboardChanged),
            Err(error) => Err(ClipboardInputError::Writer(error)),
        };
        proof {
            assert(before == old(self).writer_ops().calls());
            assert(written_content(content, old(self).writer_ops().calls(), self.writer_ops().calls(), old(suppress).suppressed(), suppress.suppressed(), written));
            assert(writes_content(Ok(content), old(self).service().table(), id));
            assert(result == copy_result(written));
        }
        result
    }

    /// Pastes the item `id` into the application that had focus: claims the
    /// target, gives it focus back, replaces the clipboard and sends Ctrl+V.
    pub fn input<G: SequenceSuppressor>(&mut self, id: i64, owner_window: usize, suppress: &mut G) -> (result: Result<
        ClipboardActionOutcome,
        ClipboardInputError,
    >)
        requires
            old(self).service().wf(),
        ensures
            final(self).service().wf(),
            final(self).service().table() == old(self).service().table(),
            log_extends(old(self).service().file_calls(), final(self).service().file_calls()),
            final(self).service().observations() == old(self).service().observations(),
            result matches Err(ClipboardInputError::Clipboard(error)) ==> content_follows(
                old(self).service().table(),
                id,
                log_since(old(self).service().file_calls(), final(self).service().file_calls()),
                Err(error),
            ),
            match result {
                Ok(outcome) => outcome == ClipboardActionOutcome { action: ClipboardActionKind::Input, clipboard_updated: true }
                    && exists|content: ClipboardWriteContent| #[trigger] writes_content(
                    Ok(content),
                    old(self).service().table(),
                    id,
                ),
                Err(ClipboardInputError::Clipboard(error)) => writes_content(Err(error), old(self).service().table(), id),
                Err(_) => true,
            },
            !(exists|content: ClipboardWriteContent| #[trigger] writes_content(
                Ok(content),
                old(self).service().table(),
                id,
            )) ==> (result matches Err(ClipboardInputError::Clipboard(error)) && writes_content(
                Err(error),
                old(self).service().table(),
                id,
            )),
            (result matches Err(ClipboardInputError::Clipboard(_)) || result matches Err(ClipboardInputError::Surface(_)))
                ==> final(self).writer_ops() == old(self).writer_ops() && final(self).input_api() == old(
                self,
            ).input_api() && final(suppress).suppressed() == old(suppress).suppressed(),
            !(result matches Err(ClipboardInputError::Clipboard(_)) || result matches Err(ClipboardInputError::Surface(_)))
                ==> exists|content: ClipboardWriteContent, written: Result<Option<u32>, ClipboardWriterError>|
                #[trigger] written_content(content, old(self).writer_ops().calls(), final(self).writer_ops().calls(), old(suppress).suppressed(), final(suppress).suppressed(), written)
                    && writes_content(Ok(content), old(self).service().table(), id) && content_follows(
                    old(self).service().table(),
                    id,
                    log_since(old(self).service().file_calls(), final(self).service().file_calls()),
                    Ok(content),
                ) && match written {
                    Ok(Some(_)) => paste_follows(
                        final(self).input_api().modifier_answers().subrange(
                            old(self).input_api().modifier_answers().len() as int,
                            final(self).input_api().modifier_answers().len() as int,
                        ),
                        final(self).input_api().sent().subrange(
                            old(self).input_api().sent().len() as int,
                            final(self).input_api().sent().len() as int,
                        ),
                        match result {
                            Ok(_) => Ok::<(), ClipboardInputError>(()),
                            Err(error) => Err::<(), ClipboardInputError>(error),
                        },
                    ) && (result is Ok ==> result == Ok::<ClipboardActionOutcome, ClipboardInputError>(
                        ClipboardActionOutcome { action: ClipboardActionKind::Input, clipboard_updated: true },
                    )),
                    Ok(None) => result == Err::<ClipboardActionOutcome, ClipboardInputError>(
                        ClipboardInputError::ClipboardChanged,
                    ) && final(self).input_api() == old(self).input_api(),
                    Err(error) => result == Err::<ClipboardActionOutcome, ClipboardInputError>(
                        ClipboardInputError::Writer(error),
                    ) && final(self).input_api() == old(self).input_api(),
                },
    {
        let content = match self.clipboard.content_for_write(id) {
            Ok(content) => content,
            Err(error) => {
                return Err(ClipboardInputError::Clipboard(error));
            },
        };
        let requirement = input_target_requirement(&content);
        let handoff = match self.surface.begin_input_handoff_for(requirement) {
            Ok(handoff) => handoff,
            Err(error) => {
                return Err(ClipboardInputError::Surface(error));
            },
        };
        let generation = match self.surface.restore_target(&handoff) {
            Ok(generation) => generation,
            Err(error) => {
                self.surface.end_input_handoff(handoff);
                return Err(ClipboardInputError::Surface(error));
            },
        };
        let ghost before = self.writer.ops().calls();
        assert(before == old(self).writer_ops().calls());
        assert(self.input == old(self).input_api());
        let written = self.writer.replace_in_transaction(&content, suppress);
        assert(written_content(content, before, self.writer.ops().calls(), old(suppress).suppressed(), suppress.suppressed(), written));
        let ghost written_calls = self.writer.ops().calls();
        let result = match written {
            Ok(Some(_)) => {
                let pasted = send_ctrl_v(&mut self.input);
                match pasted {
                    Ok(()) => {
                        self.surface.clear_if_generation(generation);
                        Ok(ClipboardActionOutcome { action: ClipboardActionKind::Input, clipboard_updated: true })
                    },
                    Err(error) => Err(error),
                }
            },
            Ok(None) => Err(ClipboardInputError::ClipboardChanged),
            Err(error) => Err(ClipboardInputError::Writer(error)),
        };
        self.surface.end_input_handoff(handoff);
        proof {
            assert(self.writer_ops().calls() == written_calls);
            assert(writes_content(Ok(content), old(self).service().table(), id));
            assert(written_content(content, old(self).writer_ops().calls(), self.writer_ops().calls(), old(suppress).suppressed(), suppress.suppressed(), written));
        }
        result
    }
}

} // verus!

//! Commands that behaviors hand back to the scene runtime, with their views, and
//! the helpers that append them.

use vstd::prelude::*;
use crate::doc::{doc_view, Doc, DocView};
use crate::text::{trim, trim_seq};

verus! {

/// Severity of a script debug log entry.
#[derive(Clone, Copy, Debug, PartialEq, Eq, Structural)]
pub enum DebugLogSeverity {
    Info,
    Warn,
    Error,
}

/// A request from a behavior to the scene runtime.
#[derive(Debug)]
#[allow(inconsistent_fields)]
pub enum BehaviorCommand {
    SetVisibility { target: String, visible: bool },
    SetOffset { target: String, dx: i32, dy: i32 },
    SetText { target: String, text: String },
    SetProps {
        target: String,
        visible: Option<bool>,
        dx: Option<i32>,
        dy: Option<i32>,
        text: Option<String>,
    },
    SetProperty { target: String, path: String, value: Doc },
    SceneTransition { to_scene_id: String },
    SceneSpawn { template: String, target: String },
    SceneDespawn { target: String },
    PlaySong { song_id: String },
    StopSong,
    CopyToClipboard { text: String },
    BindInputAction { action: String, keys: Vec<String> },
    DebugLog {
        scene_id: String,
        source: Option<String>,
        severity: DebugLogSeverity,
        message: String,
    },
    ScriptError { scene_id: String, source: Option<String>, message: String },
}

/// The mathematical content of a [`BehaviorCommand`]: strings as character sequences.
#[allow(inconsistent_fields)]
pub enum CommandView {
    SetVisibility { target: Seq<char>, visible: bool },
    SetOffset { target: Seq<char>, dx: i32, dy: i32 },
    SetText { target: Seq<char>, text: Seq<char> },
    SetProps {
        target: Seq<char>,
        visible: Option<bool>,
        dx: Option<i32>,
        dy: Option<i32>,
        text: Option<Seq<char>>,
    },
    SetProperty { target: Seq<char>, path: Seq<char>, value: DocView },
    SceneTransition { to_scene_id: Seq<char> },
    SceneSpawn { template: Seq<char>, target: Seq<char> },
    SceneDespawn { target: Seq<char> },
    PlaySong { song_id: Seq<char> },
    StopSong,
    CopyToClipboard { text: Seq<char> },
    BindInputAction { action: Seq<char>, keys: Seq<Seq<char>> },
    DebugLog {
        scene_id: Seq<char>,
        source: Option<Seq<char>>,
        severity: DebugLogSeverity,
        message: Seq<char>,
    },
    ScriptError { scene_id: Seq<char>, source: Option<Seq<char>>, message: Seq<char> },
}

/// View of an optional string.
pub open spec fn opt_view(o: Option<String>) -> Option<Seq<char>> {
    match o {
        Some(s) => Some(s@),
        None => None,
    }
}

/// Views of a sequence of strings.
pub open spec fn strings_view(v: Seq<String>) -> Seq<Seq<char>> {
    v.map_values(|s: String| s@)
}

impl View for BehaviorCommand {
    type V = CommandView;

    open spec fn view(&self) -> CommandView {
        match self {
            BehaviorCommand::SetVisibility { target, visible } => CommandView::SetVisibility {
                target: target@,
                visible: *visible,
            },
            BehaviorCommand::SetOffset { target, dx, dy } => CommandView::SetOffset {
                target: target@,
                dx: *dx,
                dy: *dy,
            },
            BehaviorCommand::SetText { target, text } => CommandView::SetText {
                target: target@,
                text: text@,
            },
            BehaviorCommand::SetProps { target, visible, dx, dy, text } => CommandView::SetProps {
                target: target@,
                visible: *visible,
                dx: *dx,
                dy: *dy,
                text: opt_view(*text),
            },
            BehaviorCommand::SetProperty { target, path, value } => CommandView::SetProperty {
                target: target@,
                path: path@,
                value: doc_view(*value),
            },
            BehaviorCommand::SceneTransition { to_scene_id } => CommandView::SceneTransition {
                to_scene_id: to_scene_id@,
            },
            BehaviorCommand::SceneSpawn { template, target } => CommandView::SceneSpawn {
                template: template@,
                target: target@,
            },
            BehaviorCommand::SceneDespawn { target } => CommandView::SceneDespawn {
                target: target@,
            },
            BehaviorCommand::PlaySong { song_id } => CommandView::PlaySong { song_id: song_id@ },
            BehaviorCommand::StopSong => CommandView::StopSong,
            BehaviorCommand::CopyToClipboard { text } => CommandView::CopyToClipboard {
                text: text@,
            },
            BehaviorCommand::BindInputAction { action, keys } => CommandView::BindInputAction {
                action: action@,
                keys: strings_view(keys@),
            },
            BehaviorCommand::DebugLog { scene_id, source, severity, message } =>
                CommandView::DebugLog {
                scene_id: scene_id@,
                source: opt_view(*source),
                severity: *severity,
                message: message@,
            },
            BehaviorCommand::ScriptError { scene_id, source, message } =>
                CommandView::ScriptError {
                scene_id: scene_id@,
                source: opt_view(*source),
                message: message@,
            },
        }
    }
}

/// `after` is `before` with the single command `c` appended.
pub open spec fn appended(
    before: Seq<BehaviorCommand>,
    after: Seq<BehaviorCommand>,
    c: CommandView,
) -> bool {
    &&& after.len() == before.len() + 1
    &&& after.subrange(0, before.len() as int) == before
    &&& after.last()@ == c
}

/// `after` is `before` with the commands viewed as `cs` appended.
pub open spec fn appended_all(
    before: Seq<BehaviorCommand>,
    after: Seq<BehaviorCommand>,
    cs: Seq<CommandView>,
) -> bool {
    &&& after.len() == before.len() + cs.len()
    &&& after.subrange(0, before.len() as int) == before
    &&& forall|i: int| 0 <= i < cs.len() ==> #[trigger] after[before.len() + i]@ == cs[i]
}

/// Copies an optional string.
pub fn clone_opt(o: &Option<String>) -> (r: Option<String>)
    ensures
        opt_view(r) == opt_view(*o),
{
    match o {
        Some(s) => Some(s.clone()),
        None => None,
    }
}

/// Appends a visibility change for `target`.
pub fn emit_visibility(commands: &mut Vec<BehaviorCommand>, target: String, visible: bool)
    ensures
        appended(old(commands)@, final(commands)@, CommandView::SetVisibility { target: target@, visible }),
{
    commands.push(BehaviorCommand::SetVisibility { target, visible });
    assert(final(commands)@.subrange(0, old(commands)@.len() as int) =~= old(commands)@);
}

/// Appends an offset change for `target`.
pub fn emit_offset(commands: &mut Vec<BehaviorCommand>, target: String, dx: i32, dy: i32)
    ensures
        appended(old(commands)@, final(commands)@, CommandView::SetOffset { target: target@, dx, dy }),
{
    commands.push(BehaviorCommand::SetOffset { target, dx, dy });
    assert(final(commands)@.subrange(0, old(commands)@.len() as int) =~= old(commands)@);
}

/// Appends a text change for `target`.
pub fn emit_text(commands: &mut Vec<BehaviorCommand>, target: String, text: String)
    ensures
        appended(old(commands)@, final(commands)@, CommandView::SetText { target: target@, text: text@ }),
{
    commands.push(BehaviorCommand::SetText { target, text });
    assert(final(commands)@.subrange(0, old(commands)@.len() as int) =~= old(commands)@);
}

/// The object a behavior acts on: its configured target when that holds more than
/// whitespace, else the object it is attached to.
pub open spec fn resolved_target(target: Option<Seq<char>>, object_id: Seq<char>) -> Seq<char> {
    match target {
        Some(t) => if trim_seq(t).len() > 0 { t } else { object_id },
        None => object_id,
    }
}

/// Resolves the target a behavior acts on (see [`resolved_target`]).
pub fn resolve_target(target: &Option<String>, object_id: &str) -> (r: String)
    ensures
        r@ == resolved_target(opt_view(*target), object_id@),
{
    match target {
        Some(t) => {
            let trimmed = trim(t.as_str());
            if trimmed.unicode_len() > 0 {
                t.clone()
            } else {
                String::from_str(object_id)
            }
        },
        None => String::from_str(object_id),
    }
}

} // verus!

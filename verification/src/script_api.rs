//! Command-producing script services: diagnostics, audio, UI messages and
//! clipboard, scene jumps, the time service and input bindings.

use vstd::prelude::*;
use crate::command::{appended, appended_all, clone_opt, opt_view, strings_view, BehaviorCommand, CommandView, DebugLogSeverity};
use crate::text::{lemma_trim_keeps_nonblank, str_eq, trim, trim_seq};
use crate::timing::SceneStage;

verus! {

/// `before` is followed by `after` with nothing appended.
pub open spec fn unchanged(before: Seq<BehaviorCommand>, after: Seq<BehaviorCommand>) -> bool {
    after == before
}

/// Debug logging for one script of one scene.
pub struct ScriptDebugApi {
    scene_id: String,
    source: Option<String>,
}

/// Text of a layout diagnostic: `[layout:<target>] <message>`.
pub open spec fn layout_message(target: Seq<char>, message: Seq<char>) -> Seq<char> {
    "[layout:"@ + target + "] "@ + message
}

impl ScriptDebugApi {
    /// Scene the script runs in.
    pub closed spec fn scene_id_spec(&self) -> Seq<char> {
        self.scene_id@
    }

    /// Source file of the script, if any.
    pub closed spec fn source_spec(&self) -> Option<Seq<char>> {
        opt_view(self.source)
    }

    /// Diagnostics for `scene_id` from `source`.
    pub fn new(scene_id: String, source: Option<String>) -> (r: Self)
        ensures
            r.scene_id_spec() == scene_id@,
            r.source_spec() == opt_view(source),
    {
        ScriptDebugApi { scene_id, source }
    }

    /// Queues a log entry with the trimmed message; blank messages are dropped.
    pub fn push(&mut self, severity: DebugLogSeverity, message: &str, queue: &mut Vec<BehaviorCommand>)
        ensures
            *final(self) == *old(self),
            if trim_seq(message@).len() == 0 {
                unchanged(old(queue)@, final(queue)@)
            } else {
                appended(
                    old(queue)@,
                    final(queue)@,
                    CommandView::DebugLog {
                        scene_id: old(self).scene_id_spec(),
                        source: old(self).source_spec(),
                        severity,
                        message: trim_seq(message@),
                    },
                )
            },
    {
        let trimmed = trim(message);
        if trimmed.unicode_len() == 0 {
            return;
        }
        queue.push(
            BehaviorCommand::DebugLog {
                scene_id: self.scene_id.clone(),
                source: clone_opt(&self.source),
                severity,
                message: trimmed,
            },
        );
        assert(final(queue)@.subrange(0, old(queue)@.len() as int) =~= old(queue)@);
    }

    /// Queues a diagnostic about layout target `target`; nothing when either the
    /// target or the message is blank.
    pub fn push_layout(
        &mut self,
        severity: DebugLogSeverity,
        target: &str,
        message: &str,
        queue: &mut Vec<BehaviorCommand>,
    )
        ensures
            *final(self) == *old(self),
            ({
                let t = trim_seq(target@);
                let m = trim_seq(message@);
                if t.len() == 0 || m.len() == 0 {
                    unchanged(old(queue)@, final(queue)@)
                } else {
                    appended(
                        old(queue)@,
                        final(queue)@,
                        CommandView::DebugLog {
                            scene_id: old(self).scene_id_spec(),
                            source: old(self).source_spec(),
                            severity,
                            message: trim_seq(layout_message(t, m)),
                        },
                    )
                }
            }),
    {
        let target = trim(target);
        let message = trim(message);
        if target.unicode_len() == 0 || message.unicode_len() == 0 {
            return;
        }
        let mut text = String::from_str("[layout:");
        text.append(target.as_str());
        text.append("] ");
        text.append(message.as_str());
        proof {
            reveal_strlit("[layout:");
            assert(text@[0] == '[');
            lemma_trim_keeps_nonblank(text@);
        }
        self.push(severity, text.as_str(), queue);
    }

    /// Queues an informational entry.
    pub fn info(&mut self, message: &str, queue: &mut Vec<BehaviorCommand>)
        ensures
            *final(self) == *old(self),
            if trim_seq(message@).len() == 0 {
                unchanged(old(queue)@, final(queue)@)
            } else {
                appended(old(queue)@, final(queue)@, CommandView::DebugLog {
                    scene_id: old(self).scene_id_spec(),
                    source: old(self).source_spec(),
                    severity: DebugLogSeverity::Info,
                    message: trim_seq(message@),
                })
            },
    {
        self.push(DebugLogSeverity::Info, message, queue);
    }

    /// Queues a warning entry.
    pub fn warn(&mut self, message: &str, queue: &mut Vec<BehaviorCommand>)
        ensures
            *final(self) == *old(self),
            if trim_seq(message@).len() == 0 {
                unchanged(old(queue)@, final(queue)@)
            } else {
                appended(old(queue)@, final(queue)@, CommandView::DebugLog {
                    scene_id: old(self).scene_id_spec(),
                    source: old(self).source_spec(),
                    severity: DebugLogSeverity::Warn,
                    message: trim_seq(message@),
                })
            },
    {
        self.push(DebugLogSeverity::Warn, message, queue);
    }

    /// Queues an error entry.
    pub fn error(&mut self, message: &str, queue: &mut Vec<BehaviorCommand>)
        ensures
            *final(self) == *old(self),
            if trim_seq(message@).len() == 0 {
                unchanged(old(queue)@, final(queue)@)
            } else {
                appended(old(queue)@, final(queue)@, CommandView::DebugLog {
                    scene_id: old(self).scene_id_spec(),
                    source: old(self).source_spec(),
                    severity: DebugLogSeverity::Error,
                    message: trim_seq(message@),
                })
            },
    {
        self.push(DebugLogSeverity::Error, message, queue);
    }

    /// Queues an informational layout diagnostic.
    pub fn layout_info(&mut self, target: &str, message: &str, queue: &mut Vec<BehaviorCommand>)
        ensures
            *final(self) == *old(self),
            ({
                let t = trim_seq(target@);
                let m = trim_seq(message@);
                if t.len() == 0 || m.len() == 0 {
                    unchanged(old(queue)@, final(queue)@)
                } else {
                    appended(old(queue)@, final(queue)@, CommandView::DebugLog {
                        scene_id: old(self).scene_id_spec(),
                        source: old(self).source_spec(),
                        severity: DebugLogSeverity::Info,
                        message: trim_seq(layout_message(t, m)),
                    })
                }
            }),
    {
        self.push_layout(DebugLogSeverity::Info, target, message, queue);
    }

    /// Queues a layout warning.
    pub fn layout_warn(&mut self, target: &str, message: &str, queue: &mut Vec<BehaviorCommand>)
        ensures
            *final(self) == *old(self),
            ({
                let t = trim_seq(target@);
                let m = trim_seq(message@);
                if t.len() == 0 || m.len() == 0 {
                    unchanged(old(queue)@, final(queue)@)
                } else {
                    appended(old(queue)@, final(queue)@, CommandView::DebugLog {
                        scene_id: old(self).scene_id_spec(),
                        source: old(self).source_spec(),
                        severity: DebugLogSeverity::Warn,
                        message: trim_seq(layout_message(t, m)),
                    })
                }
            }),
    {
        self.push_layout(DebugLogSeverity::Warn, target, message, queue);
    }

    /// Queues a layout error.
    pub fn layout_error(&mut self, target: &str, message: &str, queue: &mut Vec<BehaviorCommand>)
        ensures
            *final(self) == *old(self),
            ({
                let t = trim_seq(target@);
                let m = trim_seq(message@);
                if t.len() == 0 || m.len() == 0 {
                    unchanged(old(queue)@, final(queue)@)
                } else {
                    appended(old(queue)@, final(queue)@, CommandView::DebugLog {
                        scene_id: old(self).scene_id_spec(),
                        source: old(self).source_spec(),
                        severity: DebugLogSeverity::Error,
                        message: trim_seq(layout_message(t, m)),
                    })
                }
            }),
    {
        self.push_layout(DebugLogSeverity::Error, target, message, queue);
    }
}

/// Song playback for scripts.
pub struct ScriptAudioApi {}

impl ScriptAudioApi {
    /// The audio service.
    pub fn new() -> (r: Self) {
        ScriptAudioApi {  }
    }

    /// Queues the song with the trimmed id; a blank id is refused.
    pub fn play_song(&mut self, song_id: &str, queue: &mut Vec<BehaviorCommand>) -> (r: bool)
        ensures
            r == (trim_seq(song_id@).len() > 0),
            r ==> appended(old(queue)@, final(queue)@, CommandView::PlaySong { song_id: trim_seq(song_id@) }),
            !r ==> unchanged(old(queue)@, final(queue)@),
    {
        let song_id = trim(song_id);
        if song_id.unicode_len() == 0 {
            return false;
        }
        queue.push(BehaviorCommand::PlaySong { song_id });
        assert(final(queue)@.subrange(0, old(queue)@.len() as int) =~= old(queue)@);
        true
    }

    /// The trimmed name of a cue or event to play (its volume or gain stays with
    /// the caller); a blank name is refused.
    pub fn cue_name(&self, name: &str) -> (r: Option<String>)
        ensures
            match r {
                Some(n) => trim_seq(name@).len() > 0 && n@ == trim_seq(name@),
                None => trim_seq(name@).len() == 0,
            },
    {
        let n = trim(name);
        if n.unicode_len() == 0 {
            None
        } else {
            Some(n)
        }
    }

    /// Queues a stop of the current song.
    pub fn stop_song(&mut self, queue: &mut Vec<BehaviorCommand>) -> (r: bool)
        ensures
            r,
            appended(old(queue)@, final(queue)@, CommandView::StopSong),
    {
        queue.push(BehaviorCommand::StopSong);
        assert(final(queue)@.subrange(0, old(queue)@.len() as int) =~= old(queue)@);
        true
    }
}

/// One step of the xorshift generator behind scripts' `rand()`: the state is
/// advanced by one, then mixed by shifts of 13 left, 7 right and 17 left.
pub open spec fn xorshift_next(state: u64) -> u64 {
    let x0 = if state == u64::MAX { 0 } else { (state + 1) as u64 };
    let x1 = x0 ^ ((x0 << 13u64) as u64);
    let x2 = x1 ^ (x1 >> 7u64);
    x2 ^ ((x2 << 17u64) as u64)
}

/// Advances the state of scripts' random generator (see [`xorshift_next`]).
pub fn next_random_state(state: u64) -> (r: u64)
    ensures
        r == xorshift_next(state),
{
    let mut x = state.wrapping_add(1);
    x ^= x << 13u64;
    x ^= x >> 7u64;
    x ^= x << 17u64;
    x
}

/// The top 53 bits of a generator state: the numerator of the fraction in
/// `[0, 1)` that `rand()` returns over `2^53`.
pub fn random_numerator(state: u64) -> (r: u64)
    ensures
        r == state >> 11u64,
        r < 0x20_0000_0000_0000,
{
    assert(state >> 11u64 < 0x20_0000_0000_0000u64) by (bit_vector);
    state >> 11u64
}

/// Queues removing the scene object `visual_id` that showed a vanished entity.
pub fn queue_scene_cleanup(queue: &mut Vec<BehaviorCommand>, visual_id: &str)
    ensures
        appended(old(queue)@, final(queue)@, CommandView::SceneDespawn { target: visual_id@ }),
{
    queue.push(BehaviorCommand::SceneDespawn { target: String::from_str(visual_id) });
    assert(final(queue)@.subrange(0, old(queue)@.len() as int) =~= old(queue)@);
}

/// Properties a script may set on an object of kind `kind`: visibility,
/// offset and position for all; text, font and colours for `text` objects;
/// scale, rotations, orbit speed and surface mode for `obj` objects.
pub open spec fn capabilities_of(kind: Option<Seq<char>>) -> Seq<Seq<char>> {
    let common = seq!["visible"@, "offset.x"@, "offset.y"@, "position.x"@, "position.y"@];
    if kind == Some("text"@) {
        common + seq!["text.content"@, "text.font"@, "style.fg"@, "style.bg"@]
    } else if kind == Some("obj"@) {
        common + seq!["obj.scale"@, "obj.yaw"@, "obj.pitch"@, "obj.roll"@, "obj.orbit_speed"@, "obj.surface_mode"@]
    } else {
        common
    }
}

fn push_all(out: &mut Vec<String>, items: &[&str])
    ensures
        strings_view(final(out)@) == strings_view(old(out)@) + items@.map_values(|x: &str| x@),
{
    let mut i: usize = 0;
    while i < items.len()
        invariant
            i <= items@.len(),
            strings_view(out@) == strings_view(old(out)@) + items@.map_values(|x: &str| x@).subrange(0, i as int),
        decreases items.len() - i,
    {
        let ghost before = out@;
        out.push(String::from_str(items[i]));
        proof {
            assert(strings_view(out@) =~= strings_view(before).push(items@[i as int]@));
            assert(items@.map_values(|x: &str| x@).subrange(0, i + 1) =~= items@.map_values(|x: &str| x@).subrange(0, i as int).push(items@[i as int]@));
        }
        i = i + 1;
    }
    assert(items@.map_values(|x: &str| x@).subrange(0, items@.len() as int) =~= items@.map_values(|x: &str| x@));
}

/// The properties a script may set on an object of kind `kind` (see [`capabilities_of`]).
pub fn kind_capabilities(kind: Option<&str>) -> (r: Vec<String>)
    ensures
        strings_view(r@) == capabilities_of(match kind { Some(k) => Some(k@), None => None }),
{
    proof {
        reveal_strlit("visible");
        reveal_strlit("offset.x");
        reveal_strlit("offset.y");
        reveal_strlit("position.x");
        reveal_strlit("position.y");
        reveal_strlit("text");
        reveal_strlit("obj");
    }
    let mut out: Vec<String> = Vec::new();
    let common: [&str; 5] = ["visible", "offset.x", "offset.y", "position.x", "position.y"];
    proof {
        assert(strings_view(out@) =~= Seq::<Seq<char>>::empty());
    }
    push_all(&mut out, &common);
    let ghost base = seq!["visible"@, "offset.x"@, "offset.y"@, "position.x"@, "position.y"@];
    assert(strings_view(out@) =~= base);
    let is_text = match kind { Some(k) => str_eq(k, "text"), None => false };
    let is_obj = match kind { Some(k) => str_eq(k, "obj"), None => false };
    if is_text {
        let extra: [&str; 4] = ["text.content", "text.font", "style.fg", "style.bg"];
        push_all(&mut out, &extra);
        proof {
            reveal_strlit("text.content");
            reveal_strlit("text.font");
            reveal_strlit("style.fg");
            reveal_strlit("style.bg");
            assert(extra@.map_values(|x: &str| x@) =~= seq!["text.content"@, "text.font"@, "style.fg"@, "style.bg"@]);
        }
    }
    if is_obj {
        let extra: [&str; 6] = ["obj.scale", "obj.yaw", "obj.pitch", "obj.roll", "obj.orbit_speed", "obj.surface_mode"];
        push_all(&mut out, &extra);
        proof {
            assert(extra@.map_values(|x: &str| x@) =~= seq!["obj.scale"@, "obj.yaw"@, "obj.pitch"@, "obj.roll"@, "obj.orbit_speed"@, "obj.surface_mode"@]);
        }
    }
    proof {
        reveal_strlit("text");
        reveal_strlit("obj");
        assert("text"@.len() == 4 && "obj"@.len() == 3);
    }
    out
}

/// Target that shows flash messages.
pub open spec fn flash_target() -> Seq<char> {
    "game-message"@
}

/// Queues copying the trimmed `text` to the clipboard; blank text is refused.
pub fn copy_to_clipboard(text: &str, queue: &mut Vec<BehaviorCommand>) -> (r: bool)
    ensures
        r == (trim_seq(text@).len() > 0),
        r ==> appended(old(queue)@, final(queue)@, CommandView::CopyToClipboard { text: trim_seq(text@) }),
        !r ==> unchanged(old(queue)@, final(queue)@),
{
    let trimmed = trim(text);
    if trimmed.unicode_len() == 0 {
        return false;
    }
    queue.push(BehaviorCommand::CopyToClipboard { text: trimmed });
    assert(final(queue)@.subrange(0, old(queue)@.len() as int) =~= old(queue)@);
    true
}

/// Deadline of a flash message shown for `ttl_ms` (negative counts as 0) from
/// `scene_elapsed_ms`, saturating, as a signed 64-bit value.
pub open spec fn flash_until(scene_elapsed_ms: u64, ttl_ms: i64) -> i64 {
    let ttl = if ttl_ms < 0 { 0int } else { ttl_ms as int };
    let until = if scene_elapsed_ms + ttl > u64::MAX { u64::MAX as int } else { scene_elapsed_ms + ttl };
    until as u64 as i64
}

/// The text and deadline to store for a flash message.
pub fn flash_plan(scene_elapsed_ms: u64, text: &str, ttl_ms: i64) -> (r: (String, i64))
    ensures
        r.0@ == trim_seq(text@),
        r.1 == flash_until(scene_elapsed_ms, ttl_ms),
{
    let ttl: u64 = if ttl_ms < 0 { 0 } else { ttl_ms as u64 };
    let until = scene_elapsed_ms.saturating_add(ttl);
    (trim(text), until as i64)
}

/// Queues showing the stored flash text on the flash target.
pub fn emit_flash_text(text: String, queue: &mut Vec<BehaviorCommand>)
    ensures
        appended(old(queue)@, final(queue)@, CommandView::SetText { target: flash_target(), text: text@ }),
{
    queue.push(BehaviorCommand::SetText { target: String::from_str("game-message"), text });
    assert(final(queue)@.subrange(0, old(queue)@.len() as int) =~= old(queue)@);
}

/// Whether a flash message with deadline `until_ms` has expired at `scene_elapsed_ms`.
pub open spec fn flash_expired(scene_elapsed_ms: u64, until_ms: Option<i64>) -> bool {
    match until_ms {
        Some(u) => (scene_elapsed_ms as i64) >= u,
        None => false,
    }
}

/// Decides whether a stored flash message has expired; when it has and its text
/// was not empty, queues clearing the flash target. The caller removes the
/// stored text and deadline when this returns `true`.
pub fn expire_flash(
    scene_elapsed_ms: u64,
    until_ms: Option<i64>,
    current_text: &str,
    queue: &mut Vec<BehaviorCommand>,
) -> (r: bool)
    ensures
        r == flash_expired(scene_elapsed_ms, until_ms),
        r && current_text@.len() > 0 ==> appended(
            old(queue)@,
            final(queue)@,
            CommandView::SetText { target: flash_target(), text: Seq::empty() },
        ),
        !(r && current_text@.len() > 0) ==> unchanged(old(queue)@, final(queue)@),
{
    let until = match until_ms {
        Some(u) => u,
        None => {
            return false;
        },
    };
    if (scene_elapsed_ms as i64) < until {
        return false;
    }
    if current_text.unicode_len() == 0 {
        return true;
    }
    queue.push(BehaviorCommand::SetText { target: String::from_str("game-message"), text: String::new() });
    assert(final(queue)@.subrange(0, old(queue)@.len() as int) =~= old(queue)@);
    true
}

/// Queues a transition to `to_scene_id`; a blank id is refused.
pub fn jump(to_scene_id: &str, queue: &mut Vec<BehaviorCommand>) -> (r: bool)
    ensures
        r == (trim_seq(to_scene_id@).len() > 0),
        r ==> appended(old(queue)@, final(queue)@, CommandView::SceneTransition { to_scene_id: to_scene_id@ }),
        !r ==> unchanged(old(queue)@, final(queue)@),
{
    let trimmed = trim(to_scene_id);
    if trimmed.unicode_len() == 0 {
        return false;
    }
    queue.push(BehaviorCommand::SceneTransition { to_scene_id: String::from_str(to_scene_id) });
    assert(final(queue)@.subrange(0, old(queue)@.len() as int) =~= old(queue)@);
    true
}

/// A value read from the time service.
pub enum TimeValue {
    Int(i64),
    Text(String),
    Unit,
}

/// Name of a stage as scripts see it.
pub open spec fn stage_label(stage: SceneStage) -> Seq<char> {
    match stage {
        SceneStage::OnEnter => "on_enter"@,
        SceneStage::OnIdle => "on_idle"@,
        SceneStage::OnLeave => "on_leave"@,
        SceneStage::Done => "done"@,
    }
}

/// The clocks and stage of the current frame, as scripts read them.
pub struct ScriptTimeApi {
    scene_elapsed_ms: u64,
    stage_elapsed_ms: u64,
    stage: String,
}

impl ScriptTimeApi {
    /// Scene clock.
    pub closed spec fn scene_ms(&self) -> u64 {
        self.scene_elapsed_ms
    }

    /// Stage clock.
    pub closed spec fn stage_ms(&self) -> u64 {
        self.stage_elapsed_ms
    }

    /// Stage name.
    pub closed spec fn stage_spec(&self) -> Seq<char> {
        self.stage@
    }

    /// The time service for this frame.
    pub fn new(scene_elapsed_ms: u64, stage_elapsed_ms: u64, stage: SceneStage) -> (r: Self)
        ensures
            r.scene_ms() == scene_elapsed_ms,
            r.stage_ms() == stage_elapsed_ms,
            r.stage_spec() == stage_label(stage),
    {
        let label = match stage {
            SceneStage::OnEnter => "on_enter",
            SceneStage::OnIdle => "on_idle",
            SceneStage::OnLeave => "on_leave",
            SceneStage::Done => "done",
        };
        ScriptTimeApi { scene_elapsed_ms, stage_elapsed_ms, stage: String::from_str(label) }
    }

    /// The scene clock as a script integer.
    pub fn scene_elapsed_ms(&self) -> (r: i64)
        ensures
            r == self.scene_ms() as i64,
    {
        self.scene_elapsed_ms as i64
    }

    /// The stage clock as a script integer.
    pub fn stage_elapsed_ms(&self) -> (r: i64)
        ensures
            r == self.stage_ms() as i64,
    {
        self.stage_elapsed_ms as i64
    }

    /// The stage name.
    pub fn stage(&self) -> (r: String)
        ensures
            r@ == self.stage_spec(),
    {
        self.stage.clone()
    }

    /// Whether `path` names a field of the time service.
    pub fn contains(&self, path: &str) -> (r: bool)
        ensures
            r == (path@ == "scene_elapsed_ms"@ || path@ == "stage_elapsed_ms"@ || path@ == "stage"@),
    {
        str_eq(path, "scene_elapsed_ms") || str_eq(path, "stage_elapsed_ms") || str_eq(path, "stage")
    }

    /// The field `path` names, or nothing.
    pub fn get(&self, path: &str) -> (r: TimeValue)
        ensures
            path@ == "scene_elapsed_ms"@ ==> r == TimeValue::Int(self.scene_ms() as i64),
            path@ != "scene_elapsed_ms"@ && path@ == "stage_elapsed_ms"@ ==> r == TimeValue::Int(self.stage_ms() as i64),
            path@ != "scene_elapsed_ms"@ && path@ != "stage_elapsed_ms"@ && path@ == "stage"@ ==> (r matches TimeValue::Text(s) && s@ == self.stage_spec()),
            path@ != "scene_elapsed_ms"@ && path@ != "stage_elapsed_ms"@ && path@ != "stage"@ ==> r is Unit,
    {
        if str_eq(path, "scene_elapsed_ms") {
            TimeValue::Int(self.scene_elapsed_ms())
        } else if str_eq(path, "stage_elapsed_ms") {
            TimeValue::Int(self.stage_elapsed_ms())
        } else if str_eq(path, "stage") {
            TimeValue::Text(self.stage())
        } else {
            TimeValue::Unit
        }
    }

    /// The integer field `path` names, else `fallback`.
    pub fn get_i(&self, path: &str, fallback: i64) -> (r: i64)
        ensures
            r == if path@ == "scene_elapsed_ms"@ {
                self.scene_ms() as i64
            } else if path@ == "stage_elapsed_ms"@ {
                self.stage_ms() as i64
            } else {
                fallback
            },
    {
        match self.get(path) {
            TimeValue::Int(v) => v,
            _ => fallback,
        }
    }

    /// Milliseconds since the scene clock was last recorded, clamped to
    /// `[0, max(max_ms, 0)]`; the current clock is then recorded. `last` is the
    /// integer kept at the script's state path (none when nothing, or no
    /// integer, is kept there, which counts as no time passed).
    pub fn delta_ms(&self, max_ms: i64, last: &mut Option<i64>) -> (r: i64)
        requires
            ({
                let now = self.scene_ms() as i64;
                match *old(last) {
                    Some(l) => i64::MIN <= now - l <= i64::MAX,
                    None => true,
                }
            }),
        ensures
            ({
                let now = self.scene_ms() as i64;
                let m = if max_ms < 0 { 0 } else { max_ms as int };
                let raw = match *old(last) {
                    Some(l) => now - l,
                    None => 0,
                };
                r == if raw < 0 { 0 } else if raw > m { m } else { raw }
            }),
            *final(last) == Some(self.scene_ms() as i64),
    {
        let now = self.scene_elapsed_ms as i64;
        let max_ms = if max_ms < 0 { 0 } else { max_ms };
        let previous = match *last {
            Some(l) => l,
            None => now,
        };
        *last = Some(now);
        let raw = now - previous;
        if raw < 0 {
            0
        } else if raw > max_ms {
            max_ms
        } else {
            raw
        }
    }
}

/// Key bindings of one input profile: action name and the key codes bound to it.
pub struct InputProfile {
    pub bindings: Vec<(String, Vec<String>)>,
}

/// Queues binding `action` to `keys`.
pub fn bind_action(action: &str, keys: Vec<String>, queue: &mut Vec<BehaviorCommand>) -> (r: bool)
    ensures
        r,
        appended(old(queue)@, final(queue)@, CommandView::BindInputAction { action: action@, keys: strings_view(keys@) }),
{
    queue.push(BehaviorCommand::BindInputAction { action: String::from_str(action), keys });
    assert(final(queue)@.subrange(0, old(queue)@.len() as int) =~= old(queue)@);
    true
}

fn copy_strings(v: &Vec<String>) -> (r: Vec<String>)
    ensures
        strings_view(r@) == strings_view(v@),
{
    let mut r: Vec<String> = Vec::new();
    let mut i: usize = 0;
    while i < v.len()
        invariant
            i <= v@.len(),
            strings_view(r@) == strings_view(v@.subrange(0, i as int)),
        decreases v.len() - i,
    {
        let ghost r0 = r@;
        r.push(v[i].clone());
        proof {
            assert(v@.subrange(0, i + 1) =~= v@.subrange(0, i as int).push(v@[i as int]));
            assert(strings_view(r@) =~= strings_view(r0).push(v@[i as int]@));
            assert(strings_view(v@.subrange(0, i + 1)) =~= strings_view(v@.subrange(0, i as int)).push(v@[i as int]@));
        }
        i = i + 1;
    }
    assert(v@.subrange(0, v@.len() as int) =~= v@);
    r
}

/// The binding commands a profile produces, in the profile's order.
pub open spec fn profile_commands(bindings: Seq<(String, Vec<String>)>) -> Seq<CommandView> {
    bindings.map_values(|b: (String, Vec<String>)| CommandView::BindInputAction {
        action: b.0@,
        keys: strings_view(b.1@),
    })
}

/// Queues every binding of `profile`; returns whether a profile was given.
pub fn load_profile(profile: Option<&InputProfile>, queue: &mut Vec<BehaviorCommand>) -> (r: bool)
    ensures
        r == profile is Some,
        match profile {
            Some(p) => appended_all(old(queue)@, final(queue)@, profile_commands(p.bindings@)),
            None => unchanged(old(queue)@, final(queue)@),
        },
{
    let p = match profile {
        Some(p) => p,
        None => {
            return false;
        },
    };
    let ghost before = queue@;
    let mut i: usize = 0;
    while i < p.bindings.len()
        invariant
            i <= p.bindings@.len(),
            queue@.len() == before.len() + i,
            queue@.subrange(0, before.len() as int) == before,
            forall|j: int| 0 <= j < i ==> #[trigger] queue@[before.len() + j]@ == profile_commands(p.bindings@)[j],
        decreases p.bindings.len() - i,
    {
        let action = p.bindings[i].0.clone();
        let keys = copy_strings(&p.bindings[i].1);
        let ghost q0 = queue@;
        queue.push(BehaviorCommand::BindInputAction { action, keys });
        proof {
            assert(queue@.subrange(0, before.len() as int) =~= q0.subrange(0, before.len() as int));
            assert forall|j: int| 0 <= j < i + 1 implies #[trigger] queue@[before.len() + j]@ == profile_commands(p.bindings@)[j] by {
                if j < i {
                    assert(queue@[before.len() + j] == q0[before.len() + j]);
                }
            }
        }
        i = i + 1;
    }
    true
}

} // verus!

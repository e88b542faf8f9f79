//! Time-driven behaviors: blinking, time windows, stage names and scene audio cues.

use vstd::prelude::*;
use crate::command::{
    appended, clone_opt, emit_visibility, opt_view, resolve_target, resolved_target,
    BehaviorCommand, CommandView,
};
use crate::params::BehaviorParams;
use crate::text::{eq_ignore_ascii_case, eq_ignore_ascii_case_seq, str_eq, trim, trim_seq};

verus! {

/// The phase a scene is in.
#[derive(Clone, Copy, Debug, PartialEq, Eq, Structural)]
pub enum SceneStage {
    OnEnter,
    OnIdle,
    OnLeave,
    Done,
}

/// Which clock a timed behavior reads.
#[derive(Clone, Copy, Debug, PartialEq, Eq, Structural)]
pub enum TimeScope {
    Scene,
    Stage,
}

/// Whether `elapsed_ms` lies in `[start_ms, end_ms)`, an absent bound being open.
pub open spec fn within_window(elapsed_ms: u64, start_ms: Option<u64>, end_ms: Option<u64>) -> bool {
    &&& match start_ms {
        Some(start) => elapsed_ms >= start,
        None => true,
    }
    &&& match end_ms {
        Some(end) => elapsed_ms < end,
        None => true,
    }
}

/// Whether `elapsed_ms` lies in the half-open window `[start_ms, end_ms)`.
pub fn is_within_time_window(elapsed_ms: u64, start_ms: Option<u64>, end_ms: Option<u64>) -> (r: bool)
    ensures
        r == within_window(elapsed_ms, start_ms, end_ms),
{
    let after_start = match start_ms {
        Some(start) => elapsed_ms >= start,
        None => true,
    };
    let before_end = match end_ms {
        Some(end) => elapsed_ms < end,
        None => true,
    };
    after_start && before_end
}

/// The clock named by `time_scope`: the stage clock for `stage` (any ASCII case,
/// surrounding whitespace ignored), else the scene clock.
pub open spec fn time_scope_of(time_scope: Option<Seq<char>>) -> TimeScope {
    match time_scope {
        Some(s) => if eq_ignore_ascii_case_seq(trim_seq(s), "stage"@) {
            TimeScope::Stage
        } else {
            TimeScope::Scene
        },
        None => TimeScope::Scene,
    }
}

impl TimeScope {
    /// Reads the clock choice from the parameters.
    pub fn from_params(params: &BehaviorParams) -> (r: Self)
        ensures
            r == time_scope_of(opt_view(params.time_scope)),
    {
        match &params.time_scope {
            Some(s) => {
                let t = trim(s.as_str());
                if eq_ignore_ascii_case(t.as_str(), "stage") {
                    TimeScope::Stage
                } else {
                    TimeScope::Scene
                }
            },
            None => TimeScope::Scene,
        }
    }

    /// The elapsed time on this clock.
    pub fn elapsed_ms(self, scene_elapsed_ms: u64, stage_elapsed_ms: u64) -> (r: u64)
        ensures
            r == match self {
                TimeScope::Scene => scene_elapsed_ms,
                TimeScope::Stage => stage_elapsed_ms,
            },
    {
        match self {
            TimeScope::Scene => scene_elapsed_ms,
            TimeScope::Stage => stage_elapsed_ms,
        }
    }
}

/// The stage a name denotes, ignoring ASCII case and surrounding whitespace.
pub open spec fn stage_named(raw: Seq<char>) -> Option<SceneStage> {
    let t = trim_seq(raw);
    if eq_ignore_ascii_case_seq(t, "on-enter"@) || eq_ignore_ascii_case_seq(t, "enter"@) {
        Some(SceneStage::OnEnter)
    } else if eq_ignore_ascii_case_seq(t, "on-idle"@) || eq_ignore_ascii_case_seq(t, "idle"@) {
        Some(SceneStage::OnIdle)
    } else if eq_ignore_ascii_case_seq(t, "on-leave"@) || eq_ignore_ascii_case_seq(t, "leave"@) {
        Some(SceneStage::OnLeave)
    } else if eq_ignore_ascii_case_seq(t, "done"@) {
        Some(SceneStage::Done)
    } else {
        None
    }
}

/// Parses a stage name such as `on-idle` or `leave`.
pub fn parse_stage_name(raw: &str) -> (r: Option<SceneStage>)
    ensures
        r == stage_named(raw@),
{
    let t = trim(raw);
    let t = t.as_str();
    if eq_ignore_ascii_case(t, "on-enter") || eq_ignore_ascii_case(t, "enter") {
        Some(SceneStage::OnEnter)
    } else if eq_ignore_ascii_case(t, "on-idle") || eq_ignore_ascii_case(t, "idle") {
        Some(SceneStage::OnIdle)
    } else if eq_ignore_ascii_case(t, "on-leave") || eq_ignore_ascii_case(t, "leave") {
        Some(SceneStage::OnLeave)
    } else if eq_ignore_ascii_case(t, "done") {
        Some(SceneStage::Done)
    } else {
        None
    }
}

/// `a + b`, or `u64::MAX` when that overflows.
pub open spec fn sat_add_u64(a: u64, b: u64) -> u64 {
    if a + b > u64::MAX {
        u64::MAX
    } else {
        (a + b) as u64
    }
}

/// Whether a blinking object is visible at `elapsed_ms`: always when the cycle is
/// empty or nothing is hidden, else during the first `visible_ms` of each cycle
/// shifted by `phase_ms`.
pub open spec fn blink_visible(visible_ms: u64, hidden_ms: u64, phase_ms: u64, elapsed_ms: u64) -> bool {
    let cycle = sat_add_u64(visible_ms, hidden_ms);
    if cycle == 0 {
        true
    } else {
        let t = sat_add_u64(elapsed_ms, phase_ms) % cycle;
        t < visible_ms || hidden_ms == 0
    }
}

/// Alternates an object's visibility on an on/off cycle.
pub struct BlinkBehavior {
    target: Option<String>,
    visible_ms: u64,
    hidden_ms: u64,
    phase_ms: u64,
}

impl BlinkBehavior {
    /// Configured target alias.
    pub closed spec fn target_spec(&self) -> Option<Seq<char>> {
        opt_view(self.target)
    }

    /// Length of the visible part of the cycle.
    pub closed spec fn visible_ms_spec(&self) -> u64 {
        self.visible_ms
    }

    /// Length of the hidden part of the cycle.
    pub closed spec fn hidden_ms_spec(&self) -> u64 {
        self.hidden_ms
    }

    /// Shift of the cycle.
    pub closed spec fn phase_ms_spec(&self) -> u64 {
        self.phase_ms
    }

    /// Reads the parameters: 250 ms visible, 250 ms hidden and no phase unless set.
    pub fn from_params(params: &BehaviorParams) -> (r: Self)
        ensures
            r.target_spec() == opt_view(params.target),
            r.visible_ms_spec() == match params.visible_ms {
                Some(v) => v,
                None => 250,
            },
            r.hidden_ms_spec() == match params.hidden_ms {
                Some(v) => v,
                None => 250,
            },
            r.phase_ms_spec() == match params.phase_ms {
                Some(v) => v,
                None => 0,
            },
    {
        BlinkBehavior {
            target: clone_opt(&params.target),
            visible_ms: match params.visible_ms {
                Some(v) => v,
                None => 250,
            },
            hidden_ms: match params.hidden_ms {
                Some(v) => v,
                None => 250,
            },
            phase_ms: match params.phase_ms {
                Some(v) => v,
                None => 0,
            },
        }
    }

    /// Emits the target's visibility at `scene_elapsed_ms`.
    pub fn update(&mut self, object_id: &str, scene_elapsed_ms: u64, commands: &mut Vec<BehaviorCommand>)
        ensures
            *final(self) == *old(self),
            appended(
                old(commands)@,
                final(commands)@,
                CommandView::SetVisibility {
                    target: resolved_target(old(self).target_spec(), object_id@),
                    visible: blink_visible(
                        old(self).visible_ms_spec(),
                        old(self).hidden_ms_spec(),
                        old(self).phase_ms_spec(),
                        scene_elapsed_ms,
                    ),
                },
            ),
    {
        let cycle = self.visible_ms.saturating_add(self.hidden_ms);
        let visible = if cycle == 0 {
            true
        } else {
            let t = scene_elapsed_ms.saturating_add(self.phase_ms) % cycle;
            t < self.visible_ms || self.hidden_ms == 0
        };
        let target = resolve_target(&self.target, object_id);
        emit_visibility(commands, target, visible);
    }
}

/// When and what a scene audio cue plays (its volume stays with the caller).
pub struct CueTiming {
    pub at_ms: u64,
    pub cue: String,
}

/// The audio cues of a scene, per stage.
pub struct SceneAudioCues<T> {
    pub on_enter: Vec<T>,
    pub on_idle: Vec<T>,
    pub on_leave: Vec<T>,
}

/// The cues that play during `stage`: none once the scene is done.
pub fn cues_for_stage<T>(audio: &SceneAudioCues<T>, stage: SceneStage) -> (r: &[T])
    ensures
        r@ == match stage {
            SceneStage::OnEnter => audio.on_enter@,
            SceneStage::OnIdle => audio.on_idle@,
            SceneStage::OnLeave => audio.on_leave@,
            SceneStage::Done => Seq::<T>::empty(),
        },
        stage == SceneStage::Done ==> r@.len() == 0,
{
    match stage {
        SceneStage::OnEnter => audio.on_enter.as_slice(),
        SceneStage::OnIdle => audio.on_idle.as_slice(),
        SceneStage::OnLeave => audio.on_leave.as_slice(),
        SceneStage::Done => &[],
    }
}

/// Identity of a fired cue: scene, object, stage, time and cue name.
pub type CueKey = (Seq<char>, Seq<char>, SceneStage, u64, Seq<char>);

/// A cue that has fired.
pub struct EmittedCue {
    scene_id: String,
    object_id: String,
    stage: SceneStage,
    at_ms: u64,
    cue: String,
}

/// Key of a fired cue.
spec fn emitted_key(e: EmittedCue) -> CueKey {
    (e.scene_id@, e.object_id@, e.stage, e.at_ms, e.cue@)
}

/// Whether a cue is due: its time has come and its name is not blank.
pub open spec fn cue_due(c: CueTiming, elapsed_ms: u64) -> bool {
    elapsed_ms >= c.at_ms && trim_seq(c.cue@).len() > 0
}

/// Plays each scene audio cue once, when its time is reached.
pub struct SceneAudioBehavior {
    emitted: Vec<EmittedCue>,
}

impl SceneAudioBehavior {
    /// Cues that have fired.
    pub closed spec fn fired(&self) -> Set<CueKey> {
        Set::new(|k: CueKey| exists|i: int| 0 <= i < self.emitted@.len() && emitted_key(#[trigger] self.emitted@[i]) == k)
    }

    /// A behavior that has fired nothing.
    pub fn new() -> (r: Self)
        ensures
            r.fired() == Set::<CueKey>::empty(),
    {
        let r = SceneAudioBehavior { emitted: Vec::new() };
        assert(r.fired() =~= Set::<CueKey>::empty());
        r
    }

    /// Indices of the cues among `cues[0..k]` that fire, given those that had
    /// fired before, and the set of fired cues afterwards.
    pub open spec fn plan(
        fired: Set<CueKey>,
        scene_id: Seq<char>,
        object_id: Seq<char>,
        stage: SceneStage,
        elapsed_ms: u64,
        cues: Seq<CueTiming>,
        k: nat,
    ) -> (Seq<usize>, Set<CueKey>)
        decreases k,
    {
        if k == 0 {
            (Seq::empty(), fired)
        } else {
            let (prev, seen) = Self::plan(fired, scene_id, object_id, stage, elapsed_ms, cues, (k - 1) as nat);
            let c = cues[k - 1];
            let key = (scene_id, object_id, stage, c.at_ms, c.cue@);
            if cue_due(c, elapsed_ms) && !seen.contains(key) {
                (prev.push((k - 1) as usize), seen.insert(key))
            } else {
                (prev, seen)
            }
        }
    }

    fn has_fired(&self, scene_id: &str, object_id: &str, stage: SceneStage, at_ms: u64, cue: &str) -> (r: bool)
        ensures
            r == self.fired().contains((scene_id@, object_id@, stage, at_ms, cue@)),
    {
        let mut i: usize = 0;
        while i < self.emitted.len()
            invariant
                i <= self.emitted@.len(),
                forall|j: int| 0 <= j < i ==> emitted_key(#[trigger] self.emitted@[j]) != (scene_id@, object_id@, stage, at_ms, cue@),
            decreases self.emitted.len() - i,
        {
            let e = &self.emitted[i];
            if e.stage == stage && e.at_ms == at_ms && str_eq(e.scene_id.as_str(), scene_id)
                && str_eq(e.object_id.as_str(), object_id) && str_eq(e.cue.as_str(), cue) {
                assert(emitted_key(self.emitted@[i as int]) == (scene_id@, object_id@, stage, at_ms, cue@));
                return true;
            }
            i = i + 1;
        }
        false
    }

    /// Records the cues of the current stage that are due and have not fired yet,
    /// and returns their indices in `cues`, in order.
    pub fn update(
        &mut self,
        scene_id: &str,
        object_id: &str,
        stage: SceneStage,
        elapsed_ms: u64,
        cues: &[CueTiming],
    ) -> (r: Vec<usize>)
        ensures
            ({
                let (idx, fired) = Self::plan(old(self).fired(), scene_id@, object_id@, stage, elapsed_ms, cues@, cues@.len());
                &&& r@ == idx
                &&& final(self).fired() == fired
            }),
    {
        let mut r: Vec<usize> = Vec::new();
        let mut i: usize = 0;
        let ghost start = self.fired();
        while i < cues.len()
            invariant
                i <= cues@.len(),
                ({
                    let (idx, fired) = Self::plan(start, scene_id@, object_id@, stage, elapsed_ms, cues@, i as nat);
                    &&& r@ == idx
                    &&& self.fired() == fired
                }),
            decreases cues.len() - i,
        {
            let c = &cues[i];
            let trimmed = trim(c.cue.as_str());
            if elapsed_ms >= c.at_ms && trimmed.unicode_len() > 0 {
                if !self.has_fired(scene_id, object_id, stage, c.at_ms, c.cue.as_str()) {
                    let ghost before = self.emitted@;
                    let e = EmittedCue {
                        scene_id: String::from_str(scene_id),
                        object_id: String::from_str(object_id),
                        stage,
                        at_ms: c.at_ms,
                        cue: c.cue.clone(),
                    };
                    self.emitted.push(e);
                    r.push(i);
                    proof {
                        let key = (scene_id@, object_id@, stage, c.at_ms, c.cue@);
                        assert(emitted_key(self.emitted@[before.len() as int]) == key);
                        assert forall|k: CueKey| #[trigger] self.fired().contains(k) == old_fired_insert(before, key, k) by {
                            if exists|j: int| 0 <= j < self.emitted@.len() && emitted_key(#[trigger] self.emitted@[j]) == k {
                                let j = choose|j: int| 0 <= j < self.emitted@.len() && emitted_key(#[trigger] self.emitted@[j]) == k;
                                if j < before.len() {
                                    assert(self.emitted@[j] == before[j]);
                                }
                            }
                            if exists|j: int| 0 <= j < before.len() && emitted_key(#[trigger] before[j]) == k {
                                let j = choose|j: int| 0 <= j < before.len() && emitted_key(#[trigger] before[j]) == k;
                                assert(self.emitted@[j] == before[j]);
                            }
                        }
                    }
                }
            }
            i = i + 1;
        }
        r
    }
}

// Whether `k` is among the keys of `before` or is `key`.
spec fn old_fired_insert(before: Seq<EmittedCue>, key: CueKey, k: CueKey) -> bool {
    (exists|j: int| 0 <= j < before.len() && emitted_key(#[trigger] before[j]) == k) || k == key
}

impl Default for SceneAudioBehavior {
    /// A behavior that has fired nothing.
    fn default() -> (r: Self)
        ensures
            r.fired() == Set::<CueKey>::empty(),
    {
        SceneAudioBehavior::new()
    }
}

} // verus!

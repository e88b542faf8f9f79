//! Authoring parameters of built-in behaviors and the screen regions they read.

use vstd::prelude::*;
use crate::command::{clone_opt, opt_view};

verus! {

/// A rectangle of terminal cells occupied by a rendered object.
#[derive(Clone, Copy, Debug, PartialEq, Eq, Structural)]
pub struct Region {
    pub x: u16,
    pub y: u16,
    pub width: u16,
    pub height: u16,
}

/// Behavior parameters as authored in scene files; unset values are `None`.
pub struct BehaviorParams {
    pub target: Option<String>,
    pub index: Option<usize>,
    pub count: Option<usize>,
    pub window: Option<usize>,
    pub step_y: Option<i32>,
    pub endless: Option<bool>,
    pub item_prefix: Option<String>,
    pub visible_ms: Option<u64>,
    pub hidden_ms: Option<u64>,
    pub phase_ms: Option<u64>,
    pub start_ms: Option<u64>,
    pub end_ms: Option<u64>,
    pub time_scope: Option<String>,
    pub script: Option<String>,
    pub src: Option<String>,
}

impl Default for BehaviorParams {
    fn default() -> (r: Self)
        ensures
            r.target is None,
            r.index is None,
            r.count is None,
            r.window is None,
            r.step_y is None,
            r.endless is None,
            r.item_prefix is None,
            r.visible_ms is None,
            r.hidden_ms is None,
            r.phase_ms is None,
            r.start_ms is None,
            r.end_ms is None,
            r.time_scope is None,
            r.script is None,
            r.src is None,
    {
        BehaviorParams {
            target: None,
            index: None,
            count: None,
            window: None,
            step_y: None,
            endless: None,
            item_prefix: None,
            visible_ms: None,
            hidden_ms: None,
            phase_ms: None,
            start_ms: None,
            end_ms: None,
            time_scope: None,
            script: None,
            src: None,
        }
    }
}


/// `a` and `b` hold the same parameters, texts compared by their views.
pub open spec fn same_params(a: BehaviorParams, b: BehaviorParams) -> bool {
    &&& opt_view(a.target) == opt_view(b.target)
    &&& a.index == b.index
    &&& a.count == b.count
    &&& a.window == b.window
    &&& a.step_y == b.step_y
    &&& a.endless == b.endless
    &&& opt_view(a.item_prefix) == opt_view(b.item_prefix)
    &&& a.visible_ms == b.visible_ms
    &&& a.hidden_ms == b.hidden_ms
    &&& a.phase_ms == b.phase_ms
    &&& a.start_ms == b.start_ms
    &&& a.end_ms == b.end_ms
    &&& opt_view(a.time_scope) == opt_view(b.time_scope)
    &&& opt_view(a.script) == opt_view(b.script)
    &&& opt_view(a.src) == opt_view(b.src)
}

impl BehaviorParams {
    /// A field-by-field copy.
    pub fn duplicate(&self) -> (r: Self)
        ensures
            same_params(r, *self),
            opt_view(r.target) == opt_view(self.target),
            r.index == self.index,
            r.count == self.count,
            r.window == self.window,
            r.step_y == self.step_y,
            r.endless == self.endless,
            opt_view(r.item_prefix) == opt_view(self.item_prefix),
            r.visible_ms == self.visible_ms,
            r.hidden_ms == self.hidden_ms,
            r.phase_ms == self.phase_ms,
            r.start_ms == self.start_ms,
            r.end_ms == self.end_ms,
            opt_view(r.time_scope) == opt_view(self.time_scope),
            opt_view(r.script) == opt_view(self.script),
            opt_view(r.src) == opt_view(self.src),
    {
        BehaviorParams {
            target: clone_opt(&self.target),
            index: self.index,
            count: self.count,
            window: self.window,
            step_y: self.step_y,
            endless: self.endless,
            item_prefix: clone_opt(&self.item_prefix),
            visible_ms: self.visible_ms,
            hidden_ms: self.hidden_ms,
            phase_ms: self.phase_ms,
            start_ms: self.start_ms,
            end_ms: self.end_ms,
            time_scope: clone_opt(&self.time_scope),
            script: clone_opt(&self.script),
            src: clone_opt(&self.src),
        }
    }
}

} // verus!

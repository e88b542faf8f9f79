//! Menu behaviors: showing the selected option, and laying out menu items in a
//! centred rolling window around the selected index.

use vstd::prelude::*;
use std::collections::BTreeMap;
use crate::command::{
    appended, appended_all, emit_offset, emit_visibility, resolve_target, resolved_target,
    opt_view, clone_opt, BehaviorCommand, CommandView,
};
use crate::params::{BehaviorParams, Region};
use crate::text::{
    contains_placeholder, decimal, has_placeholder, push_decimal, replace_placeholder,
    replace_placeholders,
};

verus! {

broadcast use {vstd::std_specs::btree::group_btree_axioms, vstd::laws_cmp::group_laws_cmp};

/// `x` clamped into the `i32` range.
pub open spec fn sat_i32(x: int) -> int {
    if x < i32::MIN {
        i32::MIN as int
    } else if x > i32::MAX {
        i32::MAX as int
    } else {
        x
    }
}

/// Absolute value.
pub open spec fn abs_int(x: int) -> int {
    if x < 0 {
        -x
    } else {
        x
    }
}

fn sat_add_i32(a: i32, b: i32) -> (r: i32)
    ensures
        r == sat_i32(a + b),
{
    let s = a as i64 + b as i64;
    if s < i32::MIN as i64 {
        i32::MIN
    } else if s > i32::MAX as i64 {
        i32::MAX
    } else {
        s as i32
    }
}

fn sat_mul_i32(a: i32, b: i32) -> (r: i32)
    ensures
        r == sat_i32(a * b),
{
    assert(-4611686018427387904 <= a * b <= 4611686018427387904) by (nonlinear_arith)
        requires
            -2147483648 <= a <= 2147483647,
            -2147483648 <= b <= 2147483647,
    ;
    let p = a as i64 * b as i64;
    if p < i32::MIN as i64 {
        i32::MIN
    } else if p > i32::MAX as i64 {
        i32::MAX
    } else {
        p as i32
    }
}

fn abs_i32(a: i32) -> (r: i32)
    requires
        a > i32::MIN,
    ensures
        r == abs_int(a as int),
{
    if a < 0 {
        -a
    } else {
        a
    }
}

/// Signed distance from `selected` to `index` as 32-bit values.
pub open spec fn raw_distance(index: usize, selected: usize) -> int {
    (index as i32) as int - (selected as i32) as int
}

/// Distance from `selected` to `index` in a menu of `total` entries that wraps
/// around: of `raw`, `raw - total` and `raw + total`, the first of smallest
/// magnitude.
pub open spec fn wrapped_distance(index: usize, selected: usize, total: usize) -> int {
    let raw = raw_distance(index, selected);
    if total <= 1 {
        raw
    } else {
        let t = (total as i32) as int;
        let m1 = if abs_int(raw) <= abs_int(raw - t) {
            raw
        } else {
            raw - t
        };
        if abs_int(m1) <= abs_int(raw + t) {
            m1
        } else {
            raw + t
        }
    }
}

/// The 32-bit arithmetic of [`wrapped_distance`] neither overflows nor takes the
/// magnitude of `i32::MIN`.
pub open spec fn wrapped_distance_ok(index: usize, selected: usize, total: usize) -> bool {
    let raw = raw_distance(index, selected);
    &&& i32::MIN <= raw <= i32::MAX
    &&& total > 1 ==> {
        let t = (total as i32) as int;
        &&& i32::MIN < raw
        &&& i32::MIN < raw - t <= i32::MAX
        &&& i32::MIN < raw + t <= i32::MAX
    }
}

/// Distance from the selected entry to entry `index` in a wrapping menu.
pub fn wrapped_menu_distance(index: usize, selected: usize, total: usize) -> (r: i32)
    requires
        wrapped_distance_ok(index, selected, total),
    ensures
        r == wrapped_distance(index, selected, total),
{
    let raw = (index as i32) - (selected as i32);
    if total <= 1 {
        return raw;
    }
    let total_i = total as i32;
    let a = raw;
    let b = raw - total_i;
    let c = raw + total_i;
    let m1 = if abs_i32(a) <= abs_i32(b) {
        a
    } else {
        b
    };
    if abs_i32(m1) <= abs_i32(c) {
        m1
    } else {
        c
    }
}

/// Relative position of entry `index` to the selection, wrapping when `endless`.
pub open spec fn relative_position(index: usize, selected: usize, total: usize, endless: bool) -> int {
    if endless {
        wrapped_distance(index, selected, total)
    } else {
        raw_distance(index, selected)
    }
}

/// The arithmetic of [`relative_position`] does not overflow and its magnitude
/// can be taken.
pub open spec fn relative_ok(index: usize, selected: usize, total: usize, endless: bool) -> bool {
    &&& endless ==> wrapped_distance_ok(index, selected, total)
    &&& !endless ==> i32::MIN <= raw_distance(index, selected) <= i32::MAX
    &&& relative_position(index, selected, total, endless) > i32::MIN
}

/// How many entries on each side of the selection stay visible.
pub open spec fn half_window(window: usize) -> int {
    ((if window >= 1 { (window - 1) as int } else { 0int }) / 2) as i32 as int
}

/// Vertical centre of the region items are centred in.
pub open spec fn center_y(target: Region) -> int {
    target.y as int + (if target.height >= 1 { target.height - 1 } else { 0int }) / 2
}

/// Step between items: the authored step, but at least one more than the item height.
pub open spec fn effective_step(step_y: int, item: Region) -> int {
    let item_height = if item.height >= 1 { item.height as int } else { 1int };
    if step_y >= item_height + 1 {
        step_y
    } else {
        item_height + 1
    }
}

/// The offset that moves an item, currently displaced by `last_dy`, to its slot
/// `relative` steps away from the centre of `target`.
pub open spec fn placement_dy(
    relative: int,
    step_y: int,
    item: Region,
    target: Region,
    last_dy: int,
) -> int {
    let desired = sat_i32(center_y(target) + sat_i32(relative * effective_step(step_y, item)));
    let base_y = item.y as int - last_dy;
    desired - base_y
}

/// The 32-bit arithmetic of [`placement_dy`] does not overflow.
pub open spec fn placement_ok(
    relative: int,
    step_y: int,
    item: Region,
    target: Region,
    last_dy: int,
) -> bool {
    let desired = sat_i32(center_y(target) + sat_i32(relative * effective_step(step_y, item)));
    let base_y = item.y as int - last_dy;
    &&& i32::MIN <= base_y <= i32::MAX
    &&& i32::MIN <= desired - base_y <= i32::MAX
}

/// What a carousel does with one item in one frame.
pub enum CarouselStep {
    /// The item is outside the window: hide it and forget its offset.
    Hide,
    /// The item is in the window but its region is not known yet: show it only.
    Show,
    /// Show the item and move it by this offset.
    Place(i32),
}

/// The carousel's decision for item `index` given the frame's inputs.
pub open spec fn item_step(
    index: usize,
    selected: usize,
    total: usize,
    endless: bool,
    window: usize,
    step_y: i32,
    target: Region,
    item: Option<Region>,
    last_dy: i32,
) -> CarouselStep {
    let relative = relative_position(index, selected, total, endless);
    if abs_int(relative) > half_window(window) {
        CarouselStep::Hide
    } else {
        match item {
            None => CarouselStep::Show,
            Some(r) => CarouselStep::Place(
                placement_dy(relative, step_y as int, r, target, last_dy as int) as i32,
            ),
        }
    }
}

/// The arithmetic behind [`item_step`] stays within 32 bits.
pub open spec fn item_step_ok(
    index: usize,
    selected: usize,
    total: usize,
    endless: bool,
    window: usize,
    step_y: i32,
    target: Region,
    item: Option<Region>,
    last_dy: i32,
) -> bool {
    let relative = relative_position(index, selected, total, endless);
    &&& relative_ok(index, selected, total, endless)
    &&& match item {
        Some(r) => abs_int(relative) <= half_window(window) ==> placement_ok(
            relative,
            step_y as int,
            r,
            target,
            last_dy as int,
        ),
        None => true,
    }
}

fn step_for_item(
    index: usize,
    selected: usize,
    total: usize,
    endless: bool,
    window: usize,
    step_y: i32,
    target: Region,
    item: Option<Region>,
    last_dy: i32,
) -> (r: CarouselStep)
    requires
        item_step_ok(index, selected, total, endless, window, step_y, target, item, last_dy),
    ensures
        r == item_step(index, selected, total, endless, window, step_y, target, item, last_dy),
{
    let relative = if endless {
        wrapped_menu_distance(index, selected, total)
    } else {
        (index as i32) - (selected as i32)
    };
    let half = (if window >= 1 {
        window - 1
    } else {
        0
    } / 2) as i32;
    if abs_i32(relative) > half {
        return CarouselStep::Hide;
    }
    match item {
        None => CarouselStep::Show,
        Some(r) => {
            let item_height: i32 = if r.height >= 1 {
                r.height as i32
            } else {
                1
            };
            let min_step = item_height + 1;
            let effective_step_y = if step_y >= min_step {
                step_y
            } else {
                min_step
            };
            let center = r_center(&target);
            let desired = sat_add_i32(center, sat_mul_i32(relative, effective_step_y));
            let base_y = r.y as i32 - last_dy;
            CarouselStep::Place(desired - base_y)
        },
    }
}

fn sat_i64(x: i64) -> (r: i64)
    ensures
        r == sat_i32(x as int),
{
    if x < i32::MIN as i64 {
        i32::MIN as i64
    } else if x > i32::MAX as i64 {
        i32::MAX as i64
    } else {
        x
    }
}

/// Whether the arithmetic of one item's step stays within 32 bits (see [`item_step_ok`]).
fn step_fits(
    index: usize,
    selected: usize,
    total: usize,
    endless: bool,
    window: usize,
    step_y: i32,
    target: Region,
    item: Option<Region>,
    last_dy: i32,
) -> (r: bool)
    ensures
        r == item_step_ok(index, selected, total, endless, window, step_y, target, item, last_dy),
{
    let lo: i64 = i32::MIN as i64;
    let hi: i64 = i32::MAX as i64;
    let raw: i64 = (index as i32) as i64 - (selected as i32) as i64;
    if raw < lo || raw > hi {
        return false;
    }
    if endless && total > 1 {
        let t: i64 = (total as i32) as i64;
        if !(lo < raw) || !(lo < raw - t && raw - t <= hi) || !(lo < raw + t && raw + t <= hi) {
            return false;
        }
    }
    let relative: i64 = if endless {
        wrapped_menu_distance(index, selected, total) as i64
    } else {
        raw
    };
    if relative <= lo {
        return false;
    }
    match item {
        None => true,
        Some(r) => {
            let half: i64 = ((if window >= 1 {
                window - 1
            } else {
                0
            } / 2) as i32) as i64;
            let magnitude: i64 = if relative < 0 {
                -relative
            } else {
                relative
            };
            if magnitude > half {
                return true;
            }
            let item_height: i64 = if r.height >= 1 {
                r.height as i64
            } else {
                1
            };
            let step: i64 = if step_y as i64 >= item_height + 1 {
                step_y as i64
            } else {
                item_height + 1
            };
            assert(-2147483647 * 2147483647 <= relative * step <= 2147483647 * 2147483647) by (nonlinear_arith)
                requires
                    -2147483647 <= relative <= 2147483647,
                    1 <= step <= 2147483647,
            ;
            let center: i64 = r_center(&target) as i64;
            let desired: i64 = sat_i64(center + sat_i64(relative * step));
            let base: i64 = r.y as i64 - last_dy as i64;
            lo <= base && base <= hi && lo <= desired - base && desired - base <= hi
        },
    }
}

fn r_center(target: &Region) -> (r: i32)
    ensures
        r == center_y(*target),
{
    let h: i32 = if target.height >= 1 {
        (target.height - 1) as i32
    } else {
        0
    };
    target.y as i32 + h / 2
}

/// Shows the object only while its menu entry is the selected one.
pub struct MenuSelectedBehavior {
    target: Option<String>,
    index: usize,
}

impl MenuSelectedBehavior {
    /// Configured target alias.
    pub closed spec fn target_spec(&self) -> Option<Seq<char>> {
        opt_view(self.target)
    }

    /// Menu entry this object stands for.
    pub closed spec fn index_spec(&self) -> usize {
        self.index
    }

    /// Reads the target and entry index (default 0).
    pub fn from_params(params: &BehaviorParams) -> (r: Self)
        ensures
            r.target_spec() == opt_view(params.target),
            r.index_spec() == match params.index {
                Some(i) => i,
                None => 0,
            },
    {
        MenuSelectedBehavior {
            target: clone_opt(&params.target),
            index: match params.index {
                Some(i) => i,
                None => 0,
            },
        }
    }

    /// Emits the visibility of the target: visible exactly when the selection is
    /// this entry.
    pub fn update(
        &mut self,
        object_id: &str,
        menu_selected_index: usize,
        commands: &mut Vec<BehaviorCommand>,
    )
        ensures
            *final(self) == *old(self),
            appended(
                old(commands)@,
                final(commands)@,
                CommandView::SetVisibility {
                    target: resolved_target(old(self).target_spec(), object_id@),
                    visible: menu_selected_index == old(self).index_spec(),
                },
            ),
    {
        let target = resolve_target(&self.target, object_id);
        emit_visibility(commands, target, menu_selected_index == self.index);
    }
}

/// Places one menu item in a centred rolling window around the selected entry.
pub struct MenuCarouselBehavior {
    target: Option<String>,
    index: usize,
    count: Option<usize>,
    window: usize,
    step_y: i32,
    endless: bool,
    last_dy: i32,
}

impl MenuCarouselBehavior {
    /// Alias of the region items are centred in.
    pub closed spec fn target_spec(&self) -> Option<Seq<char>> {
        opt_view(self.target)
    }

    /// Entry this item stands for.
    pub closed spec fn index_spec(&self) -> usize {
        self.index
    }

    /// Number of entries, when fixed by the author.
    pub closed spec fn count_spec(&self) -> Option<usize> {
        self.count
    }

    /// Number of entries visible at once.
    pub closed spec fn window_spec(&self) -> usize {
        self.window
    }

    /// Authored vertical step between entries.
    pub closed spec fn step_y_spec(&self) -> i32 {
        self.step_y
    }

    /// Whether the menu wraps around.
    pub closed spec fn endless_spec(&self) -> bool {
        self.endless
    }

    /// Offset applied to the item in the previous frame.
    pub closed spec fn last_dy_spec(&self) -> i32 {
        self.last_dy
    }

    /// Number of menu entries: the authored count, else the scene's option count.
    pub open spec fn total_spec(&self, menu_len: usize) -> usize {
        match self.count_spec() {
            Some(c) => c,
            None => menu_len,
        }
    }

    /// Reads the parameters: index 0, window 5 and step 2 (each at least 1) and
    /// wrapping on unless authored otherwise.
    pub fn from_params(params: &BehaviorParams) -> (r: Self)
        ensures
            r.target_spec() == opt_view(params.target),
            r.index_spec() == match params.index {
                Some(i) => i,
                None => 0,
            },
            r.count_spec() == params.count,
            r.window_spec() == match params.window {
                Some(w) => if w >= 1 { w } else { 1 },
                None => 5,
            },
            r.step_y_spec() == match params.step_y {
                Some(s) => if s >= 1 { s } else { 1 },
                None => 2,
            },
            r.endless_spec() == match params.endless {
                Some(e) => e,
                None => true,
            },
            r.last_dy_spec() == 0,
    {
        let window = match params.window {
            Some(w) => w,
            None => 5,
        };
        let step_y = match params.step_y {
            Some(s) => s,
            None => 2,
        };
        MenuCarouselBehavior {
            target: clone_opt(&params.target),
            index: match params.index {
                Some(i) => i,
                None => 0,
            },
            count: params.count,
            window: if window >= 1 {
                window
            } else {
                1
            },
            step_y: if step_y >= 1 {
                step_y
            } else {
                1
            },
            endless: match params.endless {
                Some(e) => e,
                None => true,
            },
            last_dy: 0,
        }
    }

    /// The decision for this frame: hidden when there are no entries, the index is
    /// out of range, no target is configured or its region is unknown; otherwise
    /// the item's step within the window.
    pub open spec fn frame_step(
        &self,
        menu_len: usize,
        selected_index: usize,
        target_region: Option<Region>,
        own_region: Option<Region>,
    ) -> CarouselStep {
        let total = self.total_spec(menu_len);
        if total == 0 || self.index_spec() >= total || self.target_spec() is None
            || target_region is None {
            CarouselStep::Hide
        } else {
            item_step(
                self.index_spec(),
                selected_index % total,
                total,
                self.endless_spec(),
                self.window_spec(),
                self.step_y_spec(),
                target_region.unwrap(),
                own_region,
                self.last_dy_spec(),
            )
        }
    }

    /// The frame's arithmetic stays within 32 bits.
    pub open spec fn frame_ok(
        &self,
        menu_len: usize,
        selected_index: usize,
        target_region: Option<Region>,
        own_region: Option<Region>,
    ) -> bool {
        let total = self.total_spec(menu_len);
        (total == 0 || self.index_spec() >= total || self.target_spec() is None
            || target_region is None) || item_step_ok(
            self.index_spec(),
            selected_index % total,
            total,
            self.endless_spec(),
            self.window_spec(),
            self.step_y_spec(),
            target_region.unwrap(),
            own_region,
            self.last_dy_spec(),
        )
    }

    /// Whether this frame's arithmetic stays within 32 bits (see [`Self::frame_ok`]).
    pub fn frame_fits(
        &self,
        menu_len: usize,
        selected_index: usize,
        target_region: Option<Region>,
        own_region: Option<Region>,
    ) -> (r: bool)
        ensures
            r == self.frame_ok(menu_len, selected_index, target_region, own_region),
    {
        let total = match self.count {
            Some(c) => c,
            None => menu_len,
        };
        if total == 0 || self.index >= total || self.target.is_none() {
            return true;
        }
        match target_region {
            None => true,
            Some(t) => step_fits(
                self.index,
                selected_index % total,
                total,
                self.endless,
                self.window,
                self.step_y,
                t,
                own_region,
                self.last_dy,
            ),
        }
    }

    /// Hides the object and forgets its offset.
    pub fn hide_and_reset(&mut self, object_id: &str, commands: &mut Vec<BehaviorCommand>)
        ensures
            final(self).last_dy_spec() == 0,
            final(self).target_spec() == old(self).target_spec(),
            final(self).index_spec() == old(self).index_spec(),
            final(self).count_spec() == old(self).count_spec(),
            final(self).window_spec() == old(self).window_spec(),
            final(self).step_y_spec() == old(self).step_y_spec(),
            final(self).endless_spec() == old(self).endless_spec(),
            appended(
                old(commands)@,
                final(commands)@,
                CommandView::SetVisibility { target: object_id@, visible: false },
            ),
    {
        self.last_dy = 0;
        emit_visibility(commands, String::from_str(object_id), false);
    }

    /// Shows, hides or moves the item for this frame. `target_region` is the
    /// region of the configured target, `own_region` that of the item itself.
    pub fn update(
        &mut self,
        object_id: &str,
        menu_len: usize,
        selected_index: usize,
        target_region: Option<Region>,
        own_region: Option<Region>,
        commands: &mut Vec<BehaviorCommand>,
    )
        requires
            old(self).frame_ok(menu_len, selected_index, target_region, own_region),
        ensures
            final(self).target_spec() == old(self).target_spec(),
            final(self).index_spec() == old(self).index_spec(),
            final(self).count_spec() == old(self).count_spec(),
            final(self).window_spec() == old(self).window_spec(),
            final(self).step_y_spec() == old(self).step_y_spec(),
            final(self).endless_spec() == old(self).endless_spec(),
            match old(self).frame_step(menu_len, selected_index, target_region, own_region) {
                CarouselStep::Hide => {
                    &&& final(self).last_dy_spec() == 0
                    &&& appended(
                        old(commands)@,
                        final(commands)@,
                        CommandView::SetVisibility { target: object_id@, visible: false },
                    )
                },
                CarouselStep::Show => {
                    &&& final(self).last_dy_spec() == old(self).last_dy_spec()
                    &&& appended(
                        old(commands)@,
                        final(commands)@,
                        CommandView::SetVisibility { target: object_id@, visible: true },
                    )
                },
                CarouselStep::Place(dy) => {
                    &&& final(self).last_dy_spec() == dy
                    &&& appended_all(
                        old(commands)@,
                        final(commands)@,
                        seq![
                            CommandView::SetVisibility { target: object_id@, visible: true },
                            CommandView::SetOffset { target: object_id@, dx: 0, dy },
                        ],
                    )
                },
            },
    {
        let total = match self.count {
            Some(c) => c,
            None => menu_len,
        };
        if total == 0 || self.index >= total || self.target.is_none() {
            self.hide_and_reset(object_id, commands);
            return;
        }
        let target = match target_region {
            Some(t) => t,
            None => {
                self.hide_and_reset(object_id, commands);
                return;
            },
        };
        let selected = selected_index % total;
        match step_for_item(
            self.index,
            selected,
            total,
            self.endless,
            self.window,
            self.step_y,
            target,
            own_region,
            self.last_dy,
        ) {
            CarouselStep::Hide => {
                self.hide_and_reset(object_id, commands);
            },
            CarouselStep::Show => {
                emit_visibility(commands, String::from_str(object_id), true);
            },
            CarouselStep::Place(dy) => {
                let ghost before = commands@;
                emit_visibility(commands, String::from_str(object_id), true);
                self.last_dy = dy;
                emit_offset(commands, String::from_str(object_id), 0, dy);
                proof {
                    assert(commands@.subrange(0, before.len() as int) =~= before);
                }
            },
        }
    }
}

/// Alias of item `index`: the prefix with each `{}` replaced by the index when it
/// holds one, else the prefix followed by the index.
pub open spec fn item_alias_seq(prefix: Seq<char>, index: usize) -> Seq<char> {
    if has_placeholder(prefix) {
        replace_placeholder(prefix, decimal(index as nat))
    } else {
        prefix + decimal(index as nat)
    }
}

/// Alias of item `index` (see [`item_alias_seq`]).
pub fn alias_for(prefix: &str, index: usize) -> (r: String)
    ensures
        r@ == item_alias_seq(prefix@, index),
{
    let mut digits = String::new();
    push_decimal(&mut digits, index);
    assert(digits@ =~= decimal(index as nat));
    if contains_placeholder(prefix) {
        replace_placeholders(prefix, digits.as_str())
    } else {
        let mut r = String::from_str(prefix);
        r.append(digits.as_str());
        r
    }
}


/// Commands a carousel emits for an item with the given alias and step.
pub open spec fn step_commands(alias: Seq<char>, step: CarouselStep) -> Seq<CommandView> {
    match step {
        CarouselStep::Hide => seq![CommandView::SetVisibility { target: alias, visible: false }],
        CarouselStep::Show => seq![CommandView::SetVisibility { target: alias, visible: true }],
        CarouselStep::Place(dy) => seq![
            CommandView::SetVisibility { target: alias, visible: true },
            CommandView::SetOffset { target: alias, dx: 0, dy },
        ],
    }
}

/// Offset remembered for item `i` (0 when none is).
pub open spec fn last_of(m: Map<usize, i32>, i: usize) -> i32 {
    if m.contains_key(i) {
        m[i]
    } else {
        0
    }
}

/// Remembered offsets after an item's step.
pub open spec fn step_memory(m: Map<usize, i32>, i: usize, step: CarouselStep) -> Map<usize, i32> {
    match step {
        CarouselStep::Hide => m.insert(i, 0),
        CarouselStep::Show => m,
        CarouselStep::Place(dy) => m.insert(i, dy),
    }
}

/// Views of a sequence of commands.
pub open spec fn cmds_view(s: Seq<BehaviorCommand>) -> Seq<CommandView> {
    s.map_values(|c: BehaviorCommand| c@)
}

/// Drives a group of menu items, named from a prefix, from one behavior.
pub struct MenuCarouselObjectBehavior {
    target: Option<String>,
    item_prefix: String,
    count: Option<usize>,
    window: usize,
    step_y: i32,
    endless: bool,
    last_dy_by_index: BTreeMap<usize, i32>,
}

impl MenuCarouselObjectBehavior {
    /// Alias of the region items are centred in.
    pub closed spec fn target_spec(&self) -> Option<Seq<char>> {
        opt_view(self.target)
    }

    /// Prefix (or `{}` pattern) naming the items.
    pub closed spec fn prefix_spec(&self) -> Seq<char> {
        self.item_prefix@
    }

    /// Number of entries, when fixed by the author.
    pub closed spec fn count_spec(&self) -> Option<usize> {
        self.count
    }

    /// Number of entries visible at once.
    pub closed spec fn window_spec(&self) -> usize {
        self.window
    }

    /// Authored vertical step between entries.
    pub closed spec fn step_y_spec(&self) -> i32 {
        self.step_y
    }

    /// Whether the menu wraps around.
    pub closed spec fn endless_spec(&self) -> bool {
        self.endless
    }

    /// Offsets applied to each item in the previous frame.
    pub closed spec fn memory(&self) -> Map<usize, i32> {
        self.last_dy_by_index@
    }

    /// Number of menu entries: the authored count, else the scene's option count.
    pub open spec fn total_spec(&self, menu_len: usize) -> usize {
        match self.count_spec() {
            Some(c) => c,
            None => menu_len,
        }
    }

    /// Reads the parameters: prefix `menu-item-`, window 5 and step 2 (each at
    /// least 1) and wrapping on unless authored otherwise.
    pub fn from_params(params: &BehaviorParams) -> (r: Self)
        ensures
            r.target_spec() == opt_view(params.target),
            r.prefix_spec() == match params.item_prefix {
                Some(p) => p@,
                None => "menu-item-"@,
            },
            r.count_spec() == params.count,
            r.window_spec() == match params.window {
                Some(w) => if w >= 1 { w } else { 1 },
                None => 5,
            },
            r.step_y_spec() == match params.step_y {
                Some(s) => if s >= 1 { s } else { 1 },
                None => 2,
            },
            r.endless_spec() == match params.endless {
                Some(e) => e,
                None => true,
            },
            r.memory() == Map::<usize, i32>::empty(),
    {
        let window = match params.window {
            Some(w) => w,
            None => 5,
        };
        let step_y = match params.step_y {
            Some(s) => s,
            None => 2,
        };
        MenuCarouselObjectBehavior {
            target: clone_opt(&params.target),
            item_prefix: match &params.item_prefix {
                Some(p) => p.clone(),
                None => String::from_str("menu-item-"),
            },
            count: params.count,
            window: if window >= 1 {
                window
            } else {
                1
            },
            step_y: if step_y >= 1 {
                step_y
            } else {
                1
            },
            endless: match params.endless {
                Some(e) => e,
                None => true,
            },
            last_dy_by_index: BTreeMap::new(),
        }
    }

    /// Number of menu entries this frame.
    pub fn total(&self, menu_len: usize) -> (r: usize)
        ensures
            r == self.total_spec(menu_len),
    {
        match self.count {
            Some(c) => c,
            None => menu_len,
        }
    }

    /// Alias of item `index` (see [`item_alias_seq`]).
    pub fn item_alias(&self, index: usize) -> (r: String)
        ensures
            r@ == item_alias_seq(self.prefix_spec(), index),
    {
        alias_for(self.item_prefix.as_str(), index)
    }

    /// Step of item `i` this frame.
    pub open spec fn step_of(
        &self,
        i: usize,
        selected: usize,
        total: usize,
        target: Region,
        regions: Seq<Option<Region>>,
    ) -> CarouselStep {
        item_step(
            i,
            selected,
            total,
            self.endless_spec(),
            self.window_spec(),
            self.step_y_spec(),
            target,
            regions[i as int],
            last_of(self.memory(), i),
        )
    }

    /// Commands for items `0..k`.
    pub open spec fn commands_upto(
        &self,
        k: nat,
        selected: usize,
        total: usize,
        target: Region,
        regions: Seq<Option<Region>>,
    ) -> Seq<CommandView>
        decreases k,
    {
        if k == 0 {
            Seq::empty()
        } else {
            self.commands_upto((k - 1) as nat, selected, total, target, regions) + step_commands(
                item_alias_seq(self.prefix_spec(), (k - 1) as usize),
                self.step_of((k - 1) as usize, selected, total, target, regions),
            )
        }
    }

    /// Remembered offsets after items `0..k`.
    pub open spec fn memory_upto(
        &self,
        k: nat,
        selected: usize,
        total: usize,
        target: Region,
        regions: Seq<Option<Region>>,
    ) -> Map<usize, i32>
        decreases k,
    {
        if k == 0 {
            self.memory()
        } else {
            step_memory(
                self.memory_upto((k - 1) as nat, selected, total, target, regions),
                (k - 1) as usize,
                self.step_of((k - 1) as usize, selected, total, target, regions),
            )
        }
    }

    /// Whether the frame's inputs fit the layout: nothing is laid out when there
    /// are no entries, no target or no target region; otherwise one region slot per
    /// entry and 32-bit arithmetic for each.
    pub open spec fn frame_ok(
        &self,
        menu_len: usize,
        selected_index: usize,
        target_region: Option<Region>,
        item_regions: Seq<Option<Region>>,
    ) -> bool {
        let total = self.total_spec(menu_len);
        total == 0 || self.target_spec() is None || target_region is None || {
            &&& item_regions.len() == total
            &&& forall|i: usize|
                #![trigger item_regions[i as int]]
                i < total ==> item_step_ok(
                    i,
                    selected_index % total,
                    total,
                    self.endless_spec(),
                    self.window_spec(),
                    self.step_y_spec(),
                    target_region.unwrap(),
                    item_regions[i as int],
                    last_of(self.memory(), i),
                )
        }
    }

    /// Whether this frame's inputs fit: one region slot per entry, and 32-bit
    /// arithmetic for every item (see [`Self::frame_ok`]).
    pub fn frame_fits(
        &self,
        menu_len: usize,
        selected_index: usize,
        target_region: Option<Region>,
        item_regions: &Vec<Option<Region>>,
    ) -> (r: bool)
        ensures
            r == self.frame_ok(menu_len, selected_index, target_region, item_regions@),
    {
        let total = self.total(menu_len);
        if total == 0 || self.target.is_none() {
            return true;
        }
        let target = match target_region {
            Some(t) => t,
            None => {
                return true;
            },
        };
        if item_regions.len() != total {
            return false;
        }
        let selected = selected_index % total;
        let mut i: usize = 0;
        while i < total
            invariant
                total == self.total_spec(menu_len),
                total > 0,
                self.target_spec() is Some,
                target_region == Some(target),
                item_regions@.len() == total,
                selected == selected_index % total,
                i <= total,
                forall|j: usize|
                    #![trigger item_regions@[j as int]]
                    j < i ==> item_step_ok(
                        j,
                        selected,
                        total,
                        self.endless_spec(),
                        self.window_spec(),
                        self.step_y_spec(),
                        target,
                        item_regions@[j as int],
                        last_of(self.memory(), j),
                    ),
            decreases total - i,
        {
            let last_dy = match self.last_dy_by_index.get(&i) {
                Some(v) => *v,
                None => 0,
            };
            assert(last_dy == last_of(self.memory(), i));
            if !step_fits(i, selected, total, self.endless, self.window, self.step_y, target, item_regions[i], last_dy) {
                proof {
                    assert(!item_step_ok(
                        i,
                        selected,
                        total,
                        self.endless_spec(),
                        self.window_spec(),
                        self.step_y_spec(),
                        target,
                        item_regions@[i as int],
                        last_of(self.memory(), i),
                    ));
                    assert(self.target_spec() is Some);
                }
                return false;
            }
            i = i + 1;
        }
        true
    }

    /// Lays out every item for this frame. `item_regions[i]` is the region of
    /// item `i` (see [`Self::item_alias`]) when the scene knows it.
    pub fn update(
        &mut self,
        menu_len: usize,
        selected_index: usize,
        target_region: Option<Region>,
        item_regions: &Vec<Option<Region>>,
        commands: &mut Vec<BehaviorCommand>,
    )
        requires
            old(self).frame_ok(menu_len, selected_index, target_region, item_regions@),
        ensures
            final(self).target_spec() == old(self).target_spec(),
            final(self).prefix_spec() == old(self).prefix_spec(),
            final(self).count_spec() == old(self).count_spec(),
            final(self).window_spec() == old(self).window_spec(),
            final(self).step_y_spec() == old(self).step_y_spec(),
            final(self).endless_spec() == old(self).endless_spec(),
            ({
                let total = old(self).total_spec(menu_len);
                if total == 0 || old(self).target_spec() is None || target_region is None {
                    &&& final(self).memory() == Map::<usize, i32>::empty()
                    &&& final(commands)@ == old(commands)@
                } else {
                    let selected = selected_index % total;
                    &&& final(self).memory() == old(self).memory_upto(
                        total as nat,
                        selected,
                        total,
                        target_region.unwrap(),
                        item_regions@,
                    )
                    &&& appended_all(
                        old(commands)@,
                        final(commands)@,
                        old(self).commands_upto(
                            total as nat,
                            selected,
                            total,
                            target_region.unwrap(),
                            item_regions@,
                        ),
                    )
                }
            }),
    {
        let total = self.total(menu_len);
        if total == 0 || self.target.is_none() {
            self.last_dy_by_index.clear();
            return;
        }
        let target = match target_region {
            Some(t) => t,
            None => {
                self.last_dy_by_index.clear();
                return;
            },
        };
        let ghost orig = *old(self);
        let ghost before = commands@;
        let selected = selected_index % total;
        let mut index: usize = 0;
        while index < total
            invariant
                index <= total == orig.total_spec(menu_len),
                total > 0,
                selected == selected_index % total,
                orig.frame_ok(menu_len, selected_index, target_region, item_regions@),
                target_region == Some(target),
                orig.target_spec() is Some,
                item_regions@.len() == total,
                self.target_spec() == orig.target_spec(),
                self.prefix_spec() == orig.prefix_spec(),
                self.count_spec() == orig.count_spec(),
                self.window_spec() == orig.window_spec(),
                self.step_y_spec() == orig.step_y_spec(),
                self.endless_spec() == orig.endless_spec(),
                self.memory() == orig.memory_upto(index as nat, selected, total, target, item_regions@),
                forall|j: usize| index <= j ==> last_of(self.memory(), j) == #[trigger] last_of(orig.memory(), j),
                commands@.len() >= before.len(),
                commands@.subrange(0, before.len() as int) == before,
                cmds_view(commands@.subrange(before.len() as int, commands@.len() as int))
                    == orig.commands_upto(index as nat, selected, total, target, item_regions@),
            decreases total - index,
        {
            let alias = self.item_alias(index);
            let last_dy = match self.last_dy_by_index.get(&index) {
                Some(v) => *v,
                None => 0,
            };
            assert(last_dy == last_of(orig.memory(), index));
            assert(item_regions@[index as int] == item_regions@[index as int]);
            let step = step_for_item(
                index,
                selected,
                total,
                self.endless,
                self.window,
                self.step_y,
                target,
                item_regions[index],
                last_dy,
            );
            let ghost mid = commands@;
            let ghost mem = self.memory();
            match step {
                CarouselStep::Hide => {
                    self.last_dy_by_index.insert(index, 0);
                    emit_visibility(commands, alias, false);
                },
                CarouselStep::Show => {
                    emit_visibility(commands, alias, true);
                },
                CarouselStep::Place(dy) => {
                    let alias2 = alias.clone();
                    emit_visibility(commands, alias, true);
                    self.last_dy_by_index.insert(index, dy);
                    emit_offset(commands, alias2, 0, dy);
                },
            }
            proof {
                let k = index as nat;
                let st = orig.step_of(index, selected, total, target, item_regions@);
                assert(st == step);
                let added = step_commands(item_alias_seq(orig.prefix_spec(), index), st);
                assert(commands@.subrange(0, mid.len() as int) == mid);
                assert(cmds_view(commands@.subrange(mid.len() as int, commands@.len() as int))
                    =~= added);
                assert(commands@.subrange(0, before.len() as int) =~= mid.subrange(
                    0,
                    before.len() as int,
                ));
                assert(cmds_view(commands@.subrange(before.len() as int, commands@.len() as int))
                    =~= cmds_view(mid.subrange(before.len() as int, mid.len() as int)) + cmds_view(
                    commands@.subrange(mid.len() as int, commands@.len() as int),
                ));
                assert(self.memory() =~= step_memory(mem, index, st));
            }
            index = index + 1;
        }
    }
}

} // verus!

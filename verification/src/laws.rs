//! Properties that hold across the library's operations: periodic timing,
//! emitter queues, one-shot audio cues, palette cycling, document merging,
//! prefab inheritance and canonical names.

use vstd::prelude::*;
use crate::emitter_state::{evict_count, ne_id, with_spawn, without_entity, EmitterKey};
use crate::catalog::{
    all_named, cycle_message, lemma_stack_bound, missing_message, names_unique, raw_has, raw_lookup,
    resolve_view,
};
use crate::doc::{first_key_at, key_index, merge_entries, merge_view, text_at, without_key, DocView};
use crate::geometry::sin32;
use crate::menu::{
    abs_int, center_y, effective_step, half_window, item_step, placement_dy, relative_ok,
    relative_position, sat_i32, wrapped_distance, CarouselStep,
};
use crate::params::Region;
use crate::palette::first_position;
use crate::path::{join_path, mod_path_name, parent_of};
use crate::registry::script_path;
use crate::script_output::{entries_commands, entry_command, ScriptCommandFields};
use crate::command::CommandView;
use crate::text::starts_with_seq;
use crate::timing::{blink_visible, cue_due, sat_add_u64, CueKey, CueTiming, SceneAudioBehavior, SceneStage};

verus! {

/// The integer sine table repeats every 32 steps, and half a turn later it
/// takes the opposite value.
pub proof fn law_sine_period_and_symmetry(i: int)
    ensures
        sin32(i + 32) == sin32(i),
        sin32(i + 16) == -sin32(i),
{
    assert((i + 32) % 32 == i % 32);
    let r = i % 32;
    assert(0 <= r < 32);
    if r < 16 {
        assert((i + 16) % 32 == r + 16);
    } else {
        assert((i + 16) % 32 == r - 16);
    }
}

/// A blinking object shows the same visibility one full cycle later, as long
/// as no time value saturates.
pub proof fn law_blink_repeats_each_cycle(visible_ms: u64, hidden_ms: u64, phase_ms: u64, elapsed_ms: u64)
    requires
        visible_ms + hidden_ms <= u64::MAX,
        elapsed_ms + phase_ms + visible_ms + hidden_ms <= u64::MAX,
    ensures
        blink_visible(visible_ms, hidden_ms, phase_ms, elapsed_ms) == blink_visible(
            visible_ms,
            hidden_ms,
            phase_ms,
            (elapsed_ms + visible_ms + hidden_ms) as u64,
        ),
{
    let cycle = visible_ms + hidden_ms;
    assert(sat_add_u64(visible_ms, hidden_ms) == cycle);
    let later = (elapsed_ms + visible_ms + hidden_ms) as u64;
    assert(sat_add_u64(later, phase_ms) == sat_add_u64(elapsed_ms, phase_ms) + cycle);
    if cycle > 0 {
        let a = sat_add_u64(elapsed_ms, phase_ms) as int;
        assert((a + cycle) % (cycle as int) == a % (cycle as int)) by {
            vstd::arithmetic::div_mod::lemma_mod_add_multiples_vanish(a, cycle as int);
        }
    }
}

/// Tracking a spawn puts the entity at the back of its emitter's queue, one
/// longer than before, and leaves the other queues alone.
pub proof fn law_spawn_joins_back_of_queue(m: Map<EmitterKey, Seq<u64>>, k: EmitterKey, id: u64, other: EmitterKey)
    requires
        other != k,
    ensures
        with_spawn(m, k, id).contains_key(k),
        with_spawn(m, k, id)[k].last() == id,
        with_spawn(m, k, id)[k].len() == (if m.contains_key(k) { m[k].len() } else { 0 }) + 1,
        with_spawn(m, k, id)[k].drop_last() == (if m.contains_key(k) { m[k] } else { Seq::<u64>::empty() }),
        with_spawn(m, k, id).contains_key(other) == m.contains_key(other),
        m.contains_key(other) ==> with_spawn(m, k, id)[other] == m[other],
{
    if !m.contains_key(k) {
        assert(seq![id].drop_last() =~= Seq::<u64>::empty());
    } else {
        assert(m[k].push(id).drop_last() =~= m[k]);
    }
}

/// After an entity is removed it is tracked by no emitter, and every queue
/// that is left keeps its other entities in order and is not empty.
pub proof fn law_removed_entity_is_gone(m: Map<EmitterKey, Seq<u64>>, id: u64, k: EmitterKey)
    requires
        without_entity(m, id).contains_key(k),
    ensures
        !without_entity(m, id)[k].contains(id),
        without_entity(m, id)[k].len() > 0,
        m.contains_key(k),
        without_entity(m, id)[k] == m[k].filter(ne_id(id)),
{
    let f = without_entity(m, id)[k];
    if f.contains(id) {
        let j = choose|j: int| 0 <= j < f.len() && f[j] == id;
        broadcast use vstd::seq_lib::group_filter_ensures;
        assert(ne_id(id)(f[j]));
    }
}

/// Making room for a new spawn leaves fewer than `max_count` entities of the
/// emitter and owner (none when `max_count` is 0), evicting no more than needed.
pub proof fn law_make_room_leaves_space(len: nat, max_count: usize)
    ensures
        evict_count(len, max_count) <= len,
        max_count > 0 ==> len - evict_count(len, max_count) < max_count,
        max_count > 0 && evict_count(len, max_count) > 0 ==> len - evict_count(len, max_count) + 1 == max_count,
        max_count == 0 ==> evict_count(len, max_count) == len,
{
}

/// The canonical name of a mod file always starts with `/`.
pub proof fn law_mod_path_name_is_rooted(mod_source: Seq<char>, path: Seq<char>)
    ensures
        mod_path_name(mod_source, path).len() > 0,
        mod_path_name(mod_source, path)[0] == '/',
{
}


/// Key under which cue `c` fires for the scene, object and stage.
pub open spec fn cue_key(scene_id: Seq<char>, object_id: Seq<char>, stage: SceneStage, c: CueTiming) -> CueKey {
    (scene_id, object_id, stage, c.at_ms, c.cue@)
}

proof fn lemma_plan_records_due(
    fired: Set<CueKey>,
    scene_id: Seq<char>,
    object_id: Seq<char>,
    stage: SceneStage,
    elapsed_ms: u64,
    cues: Seq<CueTiming>,
    k: nat,
)
    requires
        k <= cues.len(),
    ensures
        fired.subset_of(SceneAudioBehavior::plan(fired, scene_id, object_id, stage, elapsed_ms, cues, k).1),
        forall|j: int| 0 <= j < k && cue_due(#[trigger] cues[j], elapsed_ms) ==>
            SceneAudioBehavior::plan(fired, scene_id, object_id, stage, elapsed_ms, cues, k).1.contains(
                cue_key(scene_id, object_id, stage, cues[j]),
            ),
    decreases k,
{
    if k > 0 {
        lemma_plan_records_due(fired, scene_id, object_id, stage, elapsed_ms, cues, (k - 1) as nat);
    }
}

proof fn lemma_plan_quiet(
    fired: Set<CueKey>,
    scene_id: Seq<char>,
    object_id: Seq<char>,
    stage: SceneStage,
    elapsed_ms: u64,
    cues: Seq<CueTiming>,
    k: nat,
)
    requires
        k <= cues.len(),
        forall|j: int| 0 <= j < k && cue_due(#[trigger] cues[j], elapsed_ms) ==>
            fired.contains(cue_key(scene_id, object_id, stage, cues[j])),
    ensures
        SceneAudioBehavior::plan(fired, scene_id, object_id, stage, elapsed_ms, cues, k) == (Seq::<usize>::empty(), fired),
    decreases k,
{
    if k > 0 {
        lemma_plan_quiet(fired, scene_id, object_id, stage, elapsed_ms, cues, (k - 1) as nat);
        let c = cues[k - 1];
        if cue_due(c, elapsed_ms) {
            assert(fired.contains(cue_key(scene_id, object_id, stage, cues[k - 1])));
        }
    }
}

/// Each scene audio cue plays once: after an update, a second update with the
/// same scene, object, stage, time and cues plays nothing and records nothing
/// new; and every due cue is recorded as played.
pub proof fn law_audio_cue_plays_once(
    fired: Set<CueKey>,
    scene_id: Seq<char>,
    object_id: Seq<char>,
    stage: SceneStage,
    elapsed_ms: u64,
    cues: Seq<CueTiming>,
)
    ensures
        ({
            let after = SceneAudioBehavior::plan(fired, scene_id, object_id, stage, elapsed_ms, cues, cues.len()).1;
            &&& SceneAudioBehavior::plan(after, scene_id, object_id, stage, elapsed_ms, cues, cues.len())
                == (Seq::<usize>::empty(), after)
            &&& forall|j: int| 0 <= j < cues.len() && cue_due(#[trigger] cues[j], elapsed_ms) ==>
                after.contains(cue_key(scene_id, object_id, stage, cues[j]))
        }),
{
    lemma_plan_records_due(fired, scene_id, object_id, stage, elapsed_ms, cues, cues.len());
    let after = SceneAudioBehavior::plan(fired, scene_id, object_id, stage, elapsed_ms, cues, cues.len()).1;
    lemma_plan_quiet(after, scene_id, object_id, stage, elapsed_ms, cues, cues.len());
}


/// In a load order without repeated ids, the position found for the id at
/// position `i` is `i`, so cycling from it moves to the next id, wrapping
/// around after the last; an id never loaded counts as the first.
pub proof fn law_palette_cycle_follows_load_order(order: Seq<Seq<char>>, i: int, unknown: Seq<char>)
    requires
        order.no_duplicates(),
        0 <= i < order.len(),
        !order.contains(unknown),
    ensures
        first_position(order, order[i]) == i,
        order[(first_position(order, order[i]) + 1) % (order.len() as int)] == order[(i + 1) % (order.len() as int)],
        first_position(order, unknown) == 0,
    decreases order.len(),
{
    let init = order.drop_last();
    assert(init.no_duplicates());
    if i < order.len() - 1 {
        assert(!init.contains(unknown)) by {
            if init.contains(unknown) {
                let k = choose|k: int| 0 <= k < init.len() && init[k] == unknown;
                assert(order[k] == unknown);
            }
        }
        law_palette_cycle_follows_load_order(init, i, unknown);
        assert(init[i] == order[i]);
        assert(init.contains(order[i]));
    } else {
        assert(!init.contains(order[i])) by {
            if init.contains(order[i]) {
                let k = choose|k: int| 0 <= k < init.len() && init[k] == order[i];
                assert(order[k] == order[i]);
            }
        }
        if order.len() > 1 {
            assert(!init.contains(unknown)) by {
                if init.contains(unknown) {
                    let k = choose|k: int| 0 <= k < init.len() && init[k] == unknown;
                    assert(order[k] == unknown);
                }
            }
            law_palette_cycle_follows_load_order(init, 0, unknown);
        }
    }
    assert(order.last() != unknown) by {
        assert(order[order.len() - 1] == order.last());
    }
}


/// Some entry of `m` has key `k`.
pub open spec fn has_doc_key(m: Seq<((bool, Seq<char>), DocView)>, k: (bool, Seq<char>)) -> bool {
    exists|i: int| 0 <= i < m.len() && #[trigger] m[i].0 == k
}

proof fn lemma_key_index_some(m: Seq<((bool, Seq<char>), DocView)>, k: (bool, Seq<char>))
    ensures
        key_index(m, k) is Some <==> has_doc_key(m, k),
        key_index(m, k) is Some ==> first_key_at(m, k, key_index(m, k).unwrap()),
{
    if has_doc_key(m, k) {
        // the smallest position holding the key is a first position
        let i = choose|i: int| 0 <= i < m.len() && #[trigger] m[i].0 == k;
        lemma_least_key_position(m, k, i);
    }
    if key_index(m, k) is Some {
        let i = key_index(m, k).unwrap();
        assert(first_key_at(m, k, i));
        assert(m[i].0 == k);
    }
}

proof fn lemma_least_key_position(m: Seq<((bool, Seq<char>), DocView)>, k: (bool, Seq<char>), i: int)
    requires
        0 <= i < m.len(),
        m[i].0 == k,
    ensures
        exists|w: int| first_key_at(m, k, w),
    decreases i,
{
    if forall|j: int| 0 <= j < i ==> #[trigger] m[j].0 != k {
        assert(first_key_at(m, k, i));
    } else {
        let j = choose|j: int| 0 <= j < i && #[trigger] m[j].0 == k;
        lemma_least_key_position(m, k, j);
    }
}

proof fn lemma_merge_entries_keys(
    b: Seq<((bool, Seq<char>), DocView)>,
    o: Seq<((bool, Seq<char>), DocView)>,
    n: nat,
    k: (bool, Seq<char>),
)
    requires
        n <= o.len(),
    ensures
        has_doc_key(merge_entries(b, o, n), k) <==> (has_doc_key(b, k) || has_doc_key(o.take(n as int), k)),
    decreases n,
{
    if n == 0 {
        assert(!has_doc_key(o.take(0), k));
    } else {
        let acc = merge_entries(b, o, (n - 1) as nat);
        lemma_merge_entries_keys(b, o, (n - 1) as nat, k);
        let kn = o[n - 1].0;
        lemma_key_index_some(acc, kn);
        let r = merge_entries(b, o, n);
        assert(o.take(n as int) =~= o.take(n - 1).push(o[n - 1]));
        if has_doc_key(o.take(n as int), k) {
            let i = choose|i: int| 0 <= i < o.take(n as int).len() && #[trigger] o.take(n as int)[i].0 == k;
            if i < n - 1 {
                assert(o.take(n - 1)[i].0 == k);
            }
        }
        if has_doc_key(o.take(n - 1), k) {
            let i = choose|i: int| 0 <= i < o.take(n - 1).len() && #[trigger] o.take(n - 1)[i].0 == k;
            assert(o.take(n as int)[i].0 == k);
        }
        if k == kn {
            assert(o.take(n as int)[n - 1].0 == k);
        }
        match key_index(acc, kn) {
            Some(i) => {
                assert(r == acc.update(i, (acc[i].0, merge_view(acc[i].1, o[n - 1].1))));
                if has_doc_key(acc, k) {
                    let j = choose|j: int| 0 <= j < acc.len() && #[trigger] acc[j].0 == k;
                    assert(r[j].0 == k);
                }
                if has_doc_key(r, k) {
                    let j = choose|j: int| 0 <= j < r.len() && #[trigger] r[j].0 == k;
                    assert(acc[j].0 == k);
                }
                if k == kn {
                    assert(acc[i].0 == k);
                }
            },
            None => {
                assert(r == acc.push((kn, o[n - 1].1)));
                if has_doc_key(acc, k) {
                    let j = choose|j: int| 0 <= j < acc.len() && #[trigger] acc[j].0 == k;
                    assert(r[j].0 == k);
                }
                if has_doc_key(r, k) {
                    let j = choose|j: int| 0 <= j < r.len() && #[trigger] r[j].0 == k;
                    if j < acc.len() {
                        assert(acc[j].0 == k);
                    }
                }
                if k == kn {
                    assert(r[acc.len() as int].0 == k);
                }
            },
        }
    }
}

/// Deep merge: an overlay that is not a mapping replaces the base, as does any
/// overlay over a base that is not a mapping; two mappings merge into one whose
/// keys are those of both, and an empty overlay mapping leaves the base as it is.
pub proof fn law_merge_overlay_wins_and_keeps_keys(base: DocView, overlay: DocView, k: (bool, Seq<char>))
    ensures
        !(overlay is Mapping) ==> merge_view(base, overlay) == overlay,
        !(base is Mapping) ==> merge_view(base, overlay) == overlay,
        base is Mapping && overlay is Mapping ==> {
            &&& merge_view(base, overlay) is Mapping
            &&& has_doc_key(merge_view(base, overlay)->Mapping_0, k)
                <==> (has_doc_key(base->Mapping_0, k) || has_doc_key(overlay->Mapping_0, k))
        },
        base is Mapping && overlay == DocView::Mapping(Seq::empty()) ==> merge_view(base, overlay) == base,
{
    if base is Mapping && overlay is Mapping {
        let b = base->Mapping_0;
        let o = overlay->Mapping_0;
        lemma_merge_entries_keys(b, o, o.len(), k);
        assert(o.take(o.len() as int) =~= o);
    }
}


proof fn lemma_lookup_at(raw: Seq<(Seq<char>, DocView)>, i: int)
    requires
        names_unique(raw),
        0 <= i < raw.len(),
    ensures
        raw_lookup(raw, raw[i].0) == Some(raw[i].1),
{
    let w = choose|w: int| 0 <= w < raw.len() && #[trigger] raw[w].0 == raw[i].0;
    assert(raw[i].0 == raw[i].0);
    if w != i {
        assert(raw[w].0 == raw[i].0);
    }
}

/// Prefab inheritance: a prefab without a text `ref` resolves to its own
/// document; one that refers to itself is a cycle; an unknown name is missing;
/// and one that refers to a prefab without `ref` resolves to its own document,
/// without `ref`, deep-merged over that prefab's document.
pub proof fn law_prefab_resolution(raw: Seq<(Seq<char>, DocView)>, i: int, j: int, unknown: Seq<char>)
    requires
        names_unique(raw),
        0 <= i < raw.len(),
        0 <= j < raw.len(),
        forall|t: int| 0 <= t < raw.len() ==> #[trigger] raw[t].0 != unknown,
    ensures
        text_at(raw[i].1, "ref"@) is None ==> resolve_view(raw, raw[i].0, Seq::empty()) == Ok::<DocView, Seq<char>>(raw[i].1),
        text_at(raw[i].1, "ref"@) == Some(raw[i].0) ==> resolve_view(raw, raw[i].0, Seq::empty())
            == Err::<DocView, Seq<char>>(cycle_message(seq![raw[i].0], raw[i].0)),
        resolve_view(raw, unknown, Seq::empty()) == Err::<DocView, Seq<char>>(missing_message(unknown)),
        i != j && text_at(raw[i].1, "ref"@) == Some(raw[j].0) && text_at(raw[j].1, "ref"@) is None
            ==> resolve_view(raw, raw[i].0, Seq::empty())
            == Ok::<DocView, Seq<char>>(merge_view(raw[j].1, without_key(raw[i].1, "ref"@))),
{
    reveal_with_fuel(resolve_view, 3);
    lemma_lookup_at(raw, i);
    lemma_lookup_at(raw, j);
    assert(!Seq::<Seq<char>>::empty().contains(raw[i].0));
    assert(Seq::<Seq<char>>::empty().push(raw[i].0) =~= seq![raw[i].0]);
    assert(seq![raw[i].0].contains(raw[i].0)) by {
        assert(seq![raw[i].0][0] == raw[i].0);
    }
    if i != j {
        assert(raw.len() >= 2);
        assert(!seq![raw[i].0].contains(raw[j].0)) by {
            if seq![raw[i].0].contains(raw[j].0) {
                assert(raw[j].0 == raw[i].0);
            }
        }
    }
    assert(!Seq::<Seq<char>>::empty().contains(unknown));
    assert(raw_lookup(raw, unknown) is None);
}


/// A carousel always shows the selected entry and moves it so that its top
/// row lands on the vertical centre of the target region, whatever the window,
/// step or wrapping.
pub proof fn law_carousel_centres_selection(
    selected: usize,
    total: usize,
    endless: bool,
    window: usize,
    step_y: i32,
    target: Region,
    item: Region,
    last_dy: i32,
)
    requires
        window <= i32::MAX,
        i32::MIN <= center_y(target) - (item.y - last_dy) <= i32::MAX,
    ensures
        item_step(selected, selected, total, endless, window, step_y, target, Some(item), last_dy)
            == CarouselStep::Place((center_y(target) - (item.y - last_dy)) as i32),
        item.y - last_dy + (center_y(target) - (item.y - last_dy)) == center_y(target),
{
    let h = (if window >= 1 { (window - 1) as int } else { 0int }) / 2;
    assert(0 <= h <= i32::MAX);
    assert(half_window(window) == h);
    assert(abs_int(0) <= half_window(window));
}


/// In a wrapping menu of `total` entries the distance from the selection to an
/// entry is the shortest way round: at most half the menu in size, and equal
/// to the plain distance modulo `total`.
pub proof fn law_wrapped_distance_is_shortest(index: usize, selected: usize, total: usize)
    requires
        index < total,
        selected < total,
        total <= i32::MAX,
    ensures
        2 * abs_int(wrapped_distance(index, selected, total)) <= total,
        (wrapped_distance(index, selected, total) - (index - selected)) % (total as int) == 0,
{
    assert((index as i32) as int == index);
    assert((selected as i32) as int == selected);
    assert((total as i32) as int == total);
    let raw = index - selected;
    let t = total as int;
    let d = wrapped_distance(index, selected, total);
    if total > 1 {
        assert(d == raw || d == raw - t || d == raw + t);
        assert((raw - t - raw) % t == 0) by {
            vstd::arithmetic::div_mod::lemma_mod_self_0(t);
            assert(-t % t == 0) by {
                vstd::arithmetic::div_mod::lemma_mod_multiples_vanish(-1, 0, t);
            }
        }
        assert((raw + t - raw) % t == 0) by {
            vstd::arithmetic::div_mod::lemma_mod_self_0(t);
        }
        assert((raw - raw) % t == 0);
    } else {
        assert(raw == 0);
    }
}


/// Over each blink cycle (time measured with the phase added), the object is
/// visible during the first `visible_ms` and hidden during the `hidden_ms`
/// that follow: at time `n` whole cycles plus `o`, it is visible exactly when
/// `o < visible_ms`.
pub proof fn law_blink_visible_then_hidden(
    visible_ms: u64,
    hidden_ms: u64,
    phase_ms: u64,
    elapsed_ms: u64,
    n: nat,
    o: nat,
)
    requires
        hidden_ms > 0,
        visible_ms + hidden_ms <= u64::MAX,
        elapsed_ms + phase_ms <= u64::MAX,
        o < visible_ms + hidden_ms,
        elapsed_ms + phase_ms == n * (visible_ms + hidden_ms) + o,
    ensures
        blink_visible(visible_ms, hidden_ms, phase_ms, elapsed_ms) == (o < visible_ms),
{
    let c = (visible_ms + hidden_ms) as int;
    assert(sat_add_u64(visible_ms, hidden_ms) == c);
    assert(sat_add_u64(elapsed_ms, phase_ms) == elapsed_ms + phase_ms);
    vstd::arithmetic::div_mod::lemma_fundamental_div_mod_converse(
        (elapsed_ms + phase_ms) as int,
        c,
        n as int,
        o as int,
    );
}

/// `e` is a visibility entry with a target and a flag.
pub open spec fn is_visibility_entry(e: Option<ScriptCommandFields>) -> bool {
    &&& e is Some
    &&& e->0.op is Some
    &&& e->0.op->0@ == "visibility"@
    &&& e->0.target is Some
    &&& e->0.visible is Some
}

/// The command a visibility entry must give: for its target, with its flag.
pub open spec fn shown_as(e: Option<ScriptCommandFields>) -> CommandView {
    CommandView::SetVisibility { target: e->0.target->0@, visible: e->0.visible->0 }
}

/// The commands of a list of visibility entries: one per entry, in order, each
/// for the entry's target and with the entry's own flag, shown or hidden.
pub proof fn law_visibility_entries_keep_their_flags(es: Seq<Option<ScriptCommandFields>>)
    requires
        forall|i: int| 0 <= i < es.len() ==> is_visibility_entry(#[trigger] es[i]),
    ensures
        entries_commands(es).len() == es.len(),
        forall|i: int| 0 <= i < es.len() ==> #[trigger] entries_commands(es)[i] == shown_as(es[i]),
    decreases es.len(),
{
    if es.len() > 0 {
        let init = es.drop_last();
        assert forall|i: int| 0 <= i < init.len() implies is_visibility_entry(#[trigger] init[i]) by {
            assert(init[i] == es[i]);
            assert(is_visibility_entry(es[i]));
        }
        law_visibility_entries_keep_their_flags(init);
        let last = es[es.len() - 1];
        assert(is_visibility_entry(last));
        let e = last->0;
        assert(entry_command(e) == Some(shown_as(last)));
        assert forall|i: int| 0 <= i < es.len() implies #[trigger] entries_commands(es)[i] == shown_as(es[i]) by {
            if i < init.len() {
                assert(entries_commands(init)[i] == shown_as(init[i]));
                assert(init[i] == es[i]);
            }
        }
    }
}

/// A carousel moves each item in its window so that the item's top row lands
/// `r` steps from the centre of the target region, `r` being its position
/// relative to the selection; a step is the authored `step_y`, or one more than
/// the item's height (at least one) when `step_y` is smaller. So with a step
/// that clears the items, neighbouring items sit exactly `step_y` rows apart.
pub proof fn law_carousel_spaces_items_by_step(
    index: usize,
    selected: usize,
    total: usize,
    endless: bool,
    window: usize,
    step_y: i32,
    target: Region,
    item: Region,
    last_dy: i32,
)
    requires
        relative_ok(index, selected, total, endless),
        abs_int(relative_position(index, selected, total, endless)) <= half_window(window),
        ({
            let r = relative_position(index, selected, total, endless);
            let h = if item.height >= 1 { item.height as int } else { 1int };
            let s = if step_y >= h + 1 { step_y as int } else { h + 1 };
            let base = item.y - last_dy;
            &&& i32::MIN <= r * s <= i32::MAX
            &&& i32::MIN <= center_y(target) + r * s <= i32::MAX
            &&& i32::MIN <= base <= i32::MAX
            &&& i32::MIN <= center_y(target) + r * s - base <= i32::MAX
        }),
    ensures
        ({
            let r = relative_position(index, selected, total, endless);
            let h = if item.height >= 1 { item.height as int } else { 1int };
            let base = item.y - last_dy;
            item_step(index, selected, total, endless, window, step_y, target, Some(item), last_dy) matches CarouselStep::Place(d)
                && (step_y >= h + 1 ==> base + d == center_y(target) + r * step_y)
                && (step_y < h + 1 ==> base + d == center_y(target) + r * (h + 1))
        }),
{
    let r = relative_position(index, selected, total, endless);
    let s = effective_step(step_y as int, item);
    assert(sat_i32(r * s) == r * s);
    assert(sat_i32(center_y(target) + r * s) == center_y(target) + r * s);
    let d = placement_dy(r, step_y as int, item, target, last_dy as int);
    assert(d == center_y(target) + r * s - (item.y - last_dy));
    assert((d as i32) as int == d);
}

/// A behavior's script reference that starts with `./` or `../` is taken
/// beside the behavior file: the behavior file's directory, a `/`, then the
/// reference as written (when that directory is not empty and does not end in
/// `/`).
pub proof fn law_relative_script_beside_behavior(mod_source: Seq<char>, behavior_path: Seq<char>, script_ref: Seq<char>)
    requires
        starts_with_seq(script_ref, "./"@) || starts_with_seq(script_ref, "../"@),
        parent_of(behavior_path) is Some,
        parent_of(behavior_path)->0.len() > 0,
        parent_of(behavior_path)->0.last() != '/',
    ensures
        script_path(mod_source, behavior_path, script_ref) == parent_of(behavior_path)->0 + seq!['/'] + script_ref,
{
    reveal_strlit("/");
    reveal_strlit("./");
    reveal_strlit("../");
    if starts_with_seq(script_ref, "./"@) {
        assert(script_ref[0] == script_ref.subrange(0, 2)[0]);
    } else {
        assert(script_ref[0] == script_ref.subrange(0, 3)[0]);
    }
    assert(script_ref[0] == '.');
    if starts_with_seq(script_ref, "/"@) {
        assert(script_ref[0] == script_ref.subrange(0, 1)[0]);
    }
}

/// Resolving a prefab does not depend on which other prefabs are being
/// resolved around it, as long as the resolution succeeds with the longer
/// list of those.
proof fn lemma_resolve_stack_free(
    raw: Seq<(Seq<char>, DocView)>,
    name: Seq<char>,
    s: Seq<Seq<char>>,
    t: Seq<Seq<char>>,
)
    requires
        names_unique(raw),
        s.no_duplicates(),
        t.no_duplicates(),
        all_named(raw, s),
        all_named(raw, t),
        forall|x: Seq<char>| t.contains(x) ==> s.contains(x),
        resolve_view(raw, name, s) is Ok,
    ensures
        resolve_view(raw, name, t) == resolve_view(raw, name, s),
    decreases raw.len() - s.len(),
{
    assert(!s.contains(name));
    assert(!t.contains(name));
    match raw_lookup(raw, name) {
        None => {},
        Some(v) => match text_at(v, "ref"@) {
            None => {},
            Some(base) => {
                assert(raw_has(raw, name));
                lemma_stack_bound(raw, s, name);
                lemma_stack_bound(raw, t, name);
                let s2 = s.push(name);
                let t2 = t.push(name);
                assert(s2.no_duplicates()) by {
                    assert forall|a: int, b: int| 0 <= a < s2.len() && 0 <= b < s2.len() && a != b implies s2[a] != s2[b] by {
                        if a == s.len() {
                            assert(s.contains(s2[b]));
                        } else if b == s.len() {
                            assert(s.contains(s2[a]));
                        }
                    }
                }
                assert(t2.no_duplicates()) by {
                    assert forall|a: int, b: int| 0 <= a < t2.len() && 0 <= b < t2.len() && a != b implies t2[a] != t2[b] by {
                        if a == t.len() {
                            assert(t.contains(t2[b]));
                        } else if b == t.len() {
                            assert(t.contains(t2[a]));
                        }
                    }
                }
                assert(all_named(raw, s2)) by {
                    assert forall|i: int| 0 <= i < s2.len() implies raw_has(raw, #[trigger] s2[i]) by {
                        if i < s.len() {
                            assert(s2[i] == s[i]);
                        }
                    }
                }
                assert(all_named(raw, t2)) by {
                    assert forall|i: int| 0 <= i < t2.len() implies raw_has(raw, #[trigger] t2[i]) by {
                        if i < t.len() {
                            assert(t2[i] == t[i]);
                        }
                    }
                }
                assert forall|x: Seq<char>| t2.contains(x) implies s2.contains(x) by {
                    let k = choose|k: int| 0 <= k < t2.len() && t2[k] == x;
                    if k < t.len() {
                        assert(t.contains(t[k]));
                        let j = choose|j: int| 0 <= j < s.len() && s[j] == x;
                        assert(s2[j] == x);
                    } else {
                        assert(s2[s.len() as int] == x);
                    }
                }
                lemma_resolve_stack_free(raw, base, s2, t2);
            },
        },
    }
}

/// Prefab inheritance is transitive: a prefab that refers to another resolves
/// to its own document (without `ref`) deep-merged over that prefab's
/// resolved document, whose own `ref` is followed in turn. For a chain
/// `i -> j -> k` ending in a prefab without `ref`, that is `k`, then `j`
/// without `ref`, then `i` without `ref`, merged in that order.
pub proof fn law_prefab_inherits_resolved_base(raw: Seq<(Seq<char>, DocView)>, i: int, j: int, k: int)
    requires
        names_unique(raw),
        0 <= i < raw.len(),
        0 <= j < raw.len(),
        0 <= k < raw.len(),
    ensures
        ({
            let ni = raw[i].0;
            match text_at(raw[i].1, "ref"@) {
                Some(b) => resolve_view(raw, ni, Seq::empty()) is Ok ==> {
                    &&& resolve_view(raw, b, Seq::empty()) is Ok
                    &&& resolve_view(raw, ni, Seq::empty()) == Ok::<DocView, Seq<char>>(merge_view(
                        resolve_view(raw, b, Seq::empty())->Ok_0,
                        without_key(raw[i].1, "ref"@),
                    ))
                },
                None => true,
            }
        }),
        i != j && j != k && i != k && text_at(raw[i].1, "ref"@) == Some(raw[j].0)
            && text_at(raw[j].1, "ref"@) == Some(raw[k].0) && text_at(raw[k].1, "ref"@) is None
            ==> resolve_view(raw, raw[i].0, Seq::empty()) == Ok::<DocView, Seq<char>>(merge_view(
                merge_view(raw[k].1, without_key(raw[j].1, "ref"@)),
                without_key(raw[i].1, "ref"@),
            )),
{
    lemma_lookup_at(raw, i);
    lemma_lookup_at(raw, j);
    lemma_lookup_at(raw, k);
    let ni = raw[i].0;
    let empty = Seq::<Seq<char>>::empty();
    assert(!empty.contains(ni));
    assert(raw_has(raw, ni));
    match text_at(raw[i].1, "ref"@) {
        Some(b) => {
            if resolve_view(raw, ni, empty) is Ok {
                lemma_stack_bound(raw, empty, ni);
                let s = empty.push(ni);
                assert(s =~= seq![ni]);
                assert(s.no_duplicates());
                assert(all_named(raw, s)) by {
                    assert forall|q: int| 0 <= q < s.len() implies raw_has(raw, #[trigger] s[q]) by {
                        assert(s[q] == ni);
                    }
                }
                assert(all_named(raw, empty));
                lemma_resolve_stack_free(raw, b, s, empty);
            }
        },
        None => {},
    }
    if i != j && j != k && i != k && text_at(raw[i].1, "ref"@) == Some(raw[j].0)
        && text_at(raw[j].1, "ref"@) == Some(raw[k].0) && text_at(raw[k].1, "ref"@) is None {
        reveal_with_fuel(resolve_view, 4);
        let nj = raw[j].0;
        let nk = raw[k].0;
        assert(raw.len() >= 3);
        assert(!seq![ni].contains(nj)) by {
            if seq![ni].contains(nj) { assert(seq![ni][0] == nj); }
        }
        assert(empty.push(ni) =~= seq![ni]);
        assert(seq![ni].push(nj) =~= seq![ni, nj]);
        assert(!seq![ni, nj].contains(nk)) by {
            if seq![ni, nj].contains(nk) {
                let q = choose|q: int| 0 <= q < 2 && seq![ni, nj][q] == nk;
                assert(q == 0 || q == 1);
            }
        }
    }
}

/// A blink with no hidden time keeps the object visible, and one with no
/// visible time (but some hidden time) keeps it hidden, at every moment.
pub proof fn law_blink_degenerate_cycles(visible_ms: u64, hidden_ms: u64, phase_ms: u64, elapsed_ms: u64)
    ensures
        hidden_ms == 0 ==> blink_visible(visible_ms, hidden_ms, phase_ms, elapsed_ms),
        visible_ms == 0 && hidden_ms > 0 ==> !blink_visible(visible_ms, hidden_ms, phase_ms, elapsed_ms),
{
}

/// Items farther from the selection than half the window are hidden, whatever
/// is known of their region.
pub proof fn law_carousel_hides_outside_window(
    index: usize,
    selected: usize,
    total: usize,
    endless: bool,
    window: usize,
    step_y: i32,
    target: Region,
    item: Option<Region>,
    last_dy: i32,
)
    requires
        abs_int(relative_position(index, selected, total, endless)) > half_window(window),
    ensures
        item_step(index, selected, total, endless, window, step_y, target, item, last_dy) == CarouselStep::Hide,
{
}

/// A script reference starting with `/` is taken from the mod root, and a bare
/// name (no leading `/` or `.`) from the mod's `scripts` directory: each is the
/// mod directory, a `/`, then the reference without its leading slashes or
/// `scripts/` and the name (when the mod directory is not empty and does not
/// end in `/`).
pub proof fn law_rooted_and_bare_script_refs(mod_source: Seq<char>, behavior_path: Seq<char>, script_ref: Seq<char>)
    requires
        mod_source.len() > 0,
        mod_source.last() != '/',
    ensures
        script_ref.len() > 1 && script_ref[0] == '/' && script_ref[1] != '/'
            ==> script_path(mod_source, behavior_path, script_ref) == mod_source + seq!['/'] + script_ref.drop_first(),
        script_ref.len() > 0 && script_ref[0] != '/' && script_ref[0] != '.'
            ==> script_path(mod_source, behavior_path, script_ref) == mod_source + "/scripts/"@ + script_ref,
{
    reveal_strlit("/");
    reveal_strlit("./");
    reveal_strlit("../");
    reveal_strlit("scripts");
    reveal_strlit("/scripts/");
    if script_ref.len() > 1 && script_ref[0] == '/' && script_ref[1] != '/' {
        assert(script_ref.subrange(0, 1) =~= "/"@);
        let rest = script_ref.drop_first();
        reveal_with_fuel(crate::registry::strip_leading_slashes, 2);
        assert(rest[0] != '/');
        assert(crate::registry::strip_leading_slashes(script_ref) == rest);
    }
    if script_ref.len() > 0 && script_ref[0] != '/' && script_ref[0] != '.' {
        if starts_with_seq(script_ref, "/"@) {
            assert(script_ref[0] == script_ref.subrange(0, 1)[0]);
        }
        if starts_with_seq(script_ref, "./"@) {
            assert(script_ref[0] == script_ref.subrange(0, 2)[0]);
        }
        if starts_with_seq(script_ref, "../"@) {
            assert(script_ref[0] == script_ref.subrange(0, 3)[0]);
        }
        let scripts = join_path(mod_source, "scripts"@);
        assert(scripts =~= mod_source + seq!['/'] + "scripts"@);
        assert(scripts.last() == 's');
        assert(join_path(scripts, script_ref) =~= mod_source + "/scripts/"@ + script_ref);
    }
}

/// An offset entry moves its target by the entry's `dx` and `dy` (each taken
/// to 32 bits, a missing one counting as 0), and a set-text entry sets its
/// target's text to the entry's text.
pub proof fn law_offset_and_text_entries_keep_their_values(e: ScriptCommandFields)
    requires
        e.op is Some,
        e.target is Some,
    ensures
        e.op->0@ == "offset"@ ==> entry_command(e) == Some(CommandView::SetOffset {
            target: e.target->0@,
            dx: match e.dx { Some(v) => v as i32, None => 0i32 },
            dy: match e.dy { Some(v) => v as i32, None => 0i32 },
        }),
        e.op->0@ == "set-text"@ && e.text is Some ==> entry_command(e) == Some(CommandView::SetText {
            target: e.target->0@,
            text: e.text->0@,
        }),
        e.op->0@ == "visibility"@ && e.visible is Some ==> entry_command(e) == Some(CommandView::SetVisibility {
            target: e.target->0@,
            visible: e.visible->0,
        }),
{
    reveal_strlit("visibility");
    reveal_strlit("offset");
    reveal_strlit("set-text");
    assert("offset"@.len() != "visibility"@.len());
    assert("set-text"@.len() != "visibility"@.len());
    assert("set-text"@[2] != "offset"@[2]);
}
} // verus!

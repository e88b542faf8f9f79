//! Colour palettes of a mod: the store of loaded palettes, the choice of the
//! active one, cycling, and lookups of colours by key, position and ramp.

use vstd::prelude::*;
use indexmap::IndexMap;
use crate::command::opt_view;
use crate::text::{starts_with, starts_with_seq, str_eq};

verus! {

#[verifier::external_type_specification]
#[verifier::external_body]
#[verifier::reject_recursive_types(K)]
#[verifier::reject_recursive_types(V)]
#[verifier::reject_recursive_types(S)]
pub struct ExIndexMap<K, V, S>(IndexMap<K, V, S>);

/// The key/value pairs an ordered colour map holds, in insertion order.
pub uninterp spec fn color_entries(m: IndexMap<String, String>) -> Seq<(Seq<char>, Seq<char>)>;

/// Number of entries of an ordered colour map.
///
/// Trusted wrapper around `IndexMap::len`: returns the number of key/value pairs.
#[verifier::external_body]
fn index_map_len(m: &IndexMap<String, String>) -> (r: usize)
    ensures
        r == color_entries(*m).len(),
{
    m.len()
}

/// The key and value stored at position `index` of an ordered colour map.
///
/// Trusted wrapper around `IndexMap::get_index`: the pair at that position in
/// insertion order, or `None` past the end; the pair is copied out.
#[verifier::external_body]
fn index_map_get_index(m: &IndexMap<String, String>, index: usize) -> (r: Option<(String, String)>)
    ensures
        match r {
            Some(kv) => index < color_entries(*m).len() && (kv.0@, kv.1@) == color_entries(*m)[index as int],
            None => index >= color_entries(*m).len(),
        },
{
    m.get_index(index).map(|(k, v)| (k.clone(), v.clone()))
}

/// The value stored under `key` in an ordered colour map.
///
/// Trusted wrapper around `IndexMap::get`: when a value is found, the stored
/// pair with that key holds it, and it is the only stored pair with that key
/// (an `IndexMap` keeps each key once); no stored pair has the key otherwise.
/// The value is copied out.
#[verifier::external_body]
fn index_map_get(m: &IndexMap<String, String>, key: &str) -> (r: Option<String>)
    ensures
        match r {
            Some(v) => has_color(*m, key@, v@),
            None => forall|j: int| 0 <= j < color_entries(*m).len() ==> (#[trigger] color_entries(*m)[j]).0 != key@,
        },
{
    m.get(key).cloned()
}

/// One named colour palette.
pub struct PaletteData {
    pub id: String,
    pub name: String,
    /// Colour by key, in declaration order.
    pub colors: IndexMap<String, String>,
    /// Particle ramps: ramp name and its ordered colours. A name given twice
    /// is looked up by its first entry.
    pub particles: Vec<(String, Vec<String>)>,
}

/// The one entry of `m` with key `key` pairs it with `value`.
pub open spec fn has_color(m: IndexMap<String, String>, key: Seq<char>, value: Seq<char>) -> bool {
    exists|j: int|
        0 <= j < color_entries(m).len() && #[trigger] color_entries(m)[j] == (key, value)
        && forall|k: int| 0 <= k < color_entries(m).len() && (#[trigger] color_entries(m)[k]).0 == key ==> k == j
}

/// Position `i` holds the first particle ramp of `ps` named `ramp`.
pub open spec fn first_ramp_at(ps: Seq<(String, Vec<String>)>, ramp: Seq<char>, i: int) -> bool {
    &&& 0 <= i < ps.len()
    &&& ps[i].0@ == ramp
    &&& forall|j: int| 0 <= j < i ==> #[trigger] ps[j].0@ != ramp
}

/// No entry of `m` has key `key`.
pub open spec fn lacks_color(m: IndexMap<String, String>, key: Seq<char>) -> bool {
    forall|j: int| 0 <= j < color_entries(m).len() ==> (#[trigger] color_entries(m)[j]).0 != key
}

impl PaletteData {
    /// The colour stored under `key`, if any.
    pub fn color(&self, key: &str) -> (r: Option<String>)
        ensures
            match r {
                Some(v) => has_color(self.colors, key@, v@),
                None => lacks_color(self.colors, key@),
            },
    {
        index_map_get(&self.colors, key)
    }

    /// The colour stored under `key`, or the empty string.
    pub fn get_color(&self, key: &str) -> (r: String)
        ensures
            has_color(self.colors, key@, r@) || (lacks_color(self.colors, key@) && r@.len() == 0),
    {
        match index_map_get(&self.colors, key) {
            Some(v) => v,
            None => String::new(),
        }
    }

    /// The colour at position `idx` in declaration order, or the empty string
    /// for a negative or too large position.
    pub fn color_at(&self, idx: i64) -> (r: String)
        ensures
            r@ == if 0 <= idx < color_entries(self.colors).len() {
                color_entries(self.colors)[idx as int].1
            } else {
                Seq::<char>::empty()
            },
    {
        if idx < 0 {
            return String::new();
        }
        let n = index_map_len(&self.colors);
        if idx as u64 >= n as u64 {
            return String::new();
        }
        match index_map_get_index(&self.colors, idx as usize) {
            Some(kv) => kv.1,
            None => String::new(),
        }
    }

    /// The key at position `idx` in declaration order, or the empty string for a
    /// negative or too large position.
    pub fn key_at(&self, idx: i64) -> (r: String)
        ensures
            r@ == if 0 <= idx < color_entries(self.colors).len() {
                color_entries(self.colors)[idx as int].0
            } else {
                Seq::<char>::empty()
            },
    {
        if idx < 0 {
            return String::new();
        }
        let n = index_map_len(&self.colors);
        if idx as u64 >= n as u64 {
            return String::new();
        }
        match index_map_get_index(&self.colors, idx as usize) {
            Some(kv) => kv.0,
            None => String::new(),
        }
    }

    /// The colours of particle ramp `ramp`, if the palette has that ramp.
    pub fn particle_ramp(&self, ramp: &str) -> (r: Option<Vec<String>>)
        ensures
            match r {
                Some(v) => exists|i: int| #[trigger] first_ramp_at(self.particles@, ramp@, i)
                    && v@.map_values(|s: String| s@) == self.particles@[i].1@.map_values(|s: String| s@),
                None => forall|i: int| 0 <= i < self.particles@.len() ==> #[trigger] self.particles@[i].0@ != ramp@,
            },
    {
        let mut i: usize = 0;
        while i < self.particles.len()
            invariant
                i <= self.particles@.len(),
                forall|j: int| 0 <= j < i ==> #[trigger] self.particles@[j].0@ != ramp@,
            decreases self.particles.len() - i,
        {
            if str_eq(self.particles[i].0.as_str(), ramp) {
                let src = &self.particles[i].1;
                let mut out: Vec<String> = Vec::new();
                let mut j: usize = 0;
                while j < src.len()
                    invariant
                        j <= src@.len(),
                        out@.map_values(|s: String| s@) == src@.map_values(|s: String| s@).subrange(0, j as int),
                    decreases src.len() - j,
                {
                    let ghost before = out@;
                    out.push(src[j].clone());
                    proof {
                        assert(out@.map_values(|s: String| s@) =~= before.map_values(|s: String| s@).push(src@[j as int]@));
                        assert(src@.map_values(|s: String| s@).subrange(0, j + 1) =~= src@.map_values(|s: String| s@).subrange(0, j as int).push(src@[j as int]@));
                    }
                    j = j + 1;
                }
                assert(src@.map_values(|s: String| s@).subrange(0, src@.len() as int) =~= src@.map_values(|s: String| s@));
                assert(first_ramp_at(self.particles@, ramp@, i as int));
                return Some(out);
            }
            i = i + 1;
        }
        None
    }

    /// The colours of particle ramp `ramp`, or none when the palette lacks it.
    pub fn particles(&self, ramp: &str) -> (r: Vec<String>)
        ensures
            (exists|i: int| 0 <= i < self.particles@.len() && #[trigger] self.particles@[i].0@ == ramp@) ==> exists|i: int|
                #[trigger] first_ramp_at(self.particles@, ramp@, i)
                && r@.map_values(|s: String| s@) == self.particles@[i].1@.map_values(|s: String| s@),
            (forall|i: int| 0 <= i < self.particles@.len() ==> #[trigger] self.particles@[i].0@ != ramp@) ==> r@.len() == 0,
    {
        match self.particle_ramp(ramp) {
            Some(v) => v,
            None => Vec::new(),
        }
    }

    /// The colour keys, in declaration order.
    pub fn color_keys(&self) -> (r: Vec<String>)
        ensures
            r@.len() == color_entries(self.colors).len(),
            forall|i: int| 0 <= i < r@.len() ==> #[trigger] r@[i]@ == color_entries(self.colors)[i].0,
    {
        let n = index_map_len(&self.colors);
        let mut out: Vec<String> = Vec::new();
        let mut i: usize = 0;
        while i < n
            invariant
                n == color_entries(self.colors).len(),
                i <= n,
                out@.len() == i,
                forall|t: int| 0 <= t < i ==> #[trigger] out@[t]@ == color_entries(self.colors)[t].0,
            decreases n - i,
        {
            match index_map_get_index(&self.colors, i) {
                Some(kv) => out.push(kv.0),
                None => {
                    assert(false);
                    out.push(String::new());
                },
            }
            i = i + 1;
        }
        out
    }

    /// The colour values, in declaration order.
    pub fn color_values(&self) -> (r: Vec<String>)
        ensures
            r@.len() == color_entries(self.colors).len(),
            forall|i: int| 0 <= i < r@.len() ==> #[trigger] r@[i]@ == color_entries(self.colors)[i].1,
    {
        let n = index_map_len(&self.colors);
        let mut out: Vec<String> = Vec::new();
        let mut i: usize = 0;
        while i < n
            invariant
                n == color_entries(self.colors).len(),
                i <= n,
                out@.len() == i,
                forall|t: int| 0 <= t < i ==> #[trigger] out@[t]@ == color_entries(self.colors)[t].1,
            decreases n - i,
        {
            match index_map_get_index(&self.colors, i) {
                Some(kv) => out.push(kv.1),
                None => {
                    assert(false);
                    out.push(String::new());
                },
            }
            i = i + 1;
        }
        out
    }

    /// Number of named colours.
    pub fn colors_len(&self) -> (r: usize)
        ensures
            r == color_entries(self.colors).len(),
    {
        index_map_len(&self.colors)
    }
}

/// Ids of the stored palettes, in storage order.
pub open spec fn palette_ids(v: Seq<PaletteData>) -> Seq<Seq<char>> {
    v.map_values(|p: PaletteData| p.id@)
}

/// Position of the first occurrence of `id` in `order`, or 0 when absent.
pub open spec fn first_position(order: Seq<Seq<char>>, id: Seq<char>) -> int
    decreases order.len(),
{
    if order.len() == 0 {
        0
    } else if first_position(order.drop_last(), id) < order.len() - 1 && order.drop_last().contains(id) {
        first_position(order.drop_last(), id)
    } else if order.last() == id {
        order.len() - 1
    } else {
        0
    }
}

/// All palettes of a mod, by id, with their load order and a change counter.
pub struct PaletteStore {
    palettes: Vec<PaletteData>,
    order: Vec<String>,
    version: u64,
}

impl PaletteStore {
    /// No two stored palettes share an id.
    #[verifier::type_invariant]
    spec fn wf(&self) -> bool {
        palette_ids(self.palettes@).no_duplicates()
    }

    /// The stored palettes (ids are unique).
    pub closed spec fn palettes_spec(&self) -> Seq<PaletteData> {
        self.palettes@
    }

    /// Ids in the order they were loaded.
    pub closed spec fn order_spec(&self) -> Seq<Seq<char>> {
        self.order@.map_values(|s: String| s@)
    }

    /// The change counter.
    pub closed spec fn version_spec(&self) -> u64 {
        self.version
    }

    /// Whether a palette with id `id` is stored.
    pub open spec fn has_id(&self, id: Seq<char>) -> bool {
        palette_ids(self.palettes_spec()).contains(id)
    }

    /// An empty store with counter 1.
    pub fn new() -> (r: Self)
        ensures
            r.palettes_spec() == Seq::<PaletteData>::empty(),
            r.order_spec() == Seq::<Seq<char>>::empty(),
            r.version_spec() == 1,
    {
        let r = PaletteStore { palettes: Vec::new(), order: Vec::new(), version: 1 };
        assert(palette_ids(r.palettes@) =~= Seq::<Seq<char>>::empty());
        assert(r.order_spec() =~= Seq::<Seq<char>>::empty());
        r
    }

    fn find(&self, id: &str) -> (r: Option<usize>)
        ensures
            match r {
                Some(i) => i < self.palettes@.len() && self.palettes@[i as int].id@ == id@,
                None => !self.has_id(id@),
            },
    {
        let mut i: usize = 0;
        while i < self.palettes.len()
            invariant
                i <= self.palettes@.len(),
                forall|j: int| 0 <= j < i ==> self.palettes@[j].id@ != id@,
            decreases self.palettes.len() - i,
        {
            if str_eq(self.palettes[i].id.as_str(), id) {
                return Some(i);
            }
            i = i + 1;
        }
        proof {
            if self.has_id(id@) {
                let j = choose|j: int| 0 <= j < palette_ids(self.palettes@).len() && palette_ids(self.palettes@)[j] == id@;
                assert(self.palettes@[j].id@ == id@);
            }
        }
        None
    }

    /// Adds a loaded palette: its id joins the load order and it replaces any
    /// stored palette with the same id.
    pub fn add_loaded(&mut self, palette: PaletteData)
        ensures
            final(self).order_spec() == old(self).order_spec().push(palette.id@),
            final(self).version_spec() == old(self).version_spec(),
            old(self).has_id(palette.id@) ==> exists|i: int| 0 <= i < old(self).palettes_spec().len()
                && old(self).palettes_spec()[i].id@ == palette.id@
                && final(self).palettes_spec() == old(self).palettes_spec().update(i, palette),
            !old(self).has_id(palette.id@) ==> final(self).palettes_spec() == old(self).palettes_spec().push(palette),
    {
        proof {
            use_type_invariant(&*self);
        }
        let mut order: Vec<String> = Vec::new();
        std::mem::swap(&mut order, &mut self.order);
        order.push(palette.id.clone());
        self.order = order;
        assert(self.order_spec() =~= old(self).order_spec().push(palette.id@));
        let ghost v = self.palettes@;
        let found = self.find(palette.id.as_str());
        let mut palettes: Vec<PaletteData> = Vec::new();
        std::mem::swap(&mut palettes, &mut self.palettes);
        match found {
            Some(i) => {
                palettes.set(i, palette);
                proof {
                    assert(palette_ids(palettes@) =~= palette_ids(v).update(i as int, palette_ids(v)[i as int]));
                    assert(palette_ids(palettes@) =~= palette_ids(v));
                }
            },
            None => {
                palettes.push(palette);
                proof {
                    assert(palette_ids(palettes@) =~= palette_ids(v).push(palette.id@));
                    assert forall|a: int, b: int| 0 <= a < b < palette_ids(palettes@).len() implies palette_ids(palettes@)[a] != palette_ids(palettes@)[b] by {
                        if b == v.len() {
                            assert(palette_ids(v)[a] == palette_ids(palettes@)[a]);
                            assert(palette_ids(v).contains(palette_ids(v)[a]));
                        }
                    }
                }
            },
        }
        self.palettes = palettes;
    }

    /// Number of stored palettes.
    pub fn len(&self) -> (r: usize)
        ensures
            r == palette_ids(self.palettes_spec()).to_set().len(),
    {
        proof {
            use_type_invariant(self);
            palette_ids(self.palettes@).unique_seq_to_set();
        }
        self.palettes.len()
    }

    /// Whether no palette is stored.
    pub fn is_empty(&self) -> (r: bool)
        ensures
            r == (self.palettes_spec().len() == 0),
    {
        self.palettes.len() == 0
    }

    /// Id of the active palette: the persisted id when stored, else the default
    /// id when stored, else the first loaded id when stored.
    pub open spec fn resolved_id(&self, persisted: Option<Seq<char>>, default: Option<Seq<char>>) -> Option<Seq<char>> {
        if persisted is Some && self.has_id(persisted.unwrap()) {
            persisted
        } else if default is Some && self.has_id(default.unwrap()) {
            default
        } else if self.order_spec().len() > 0 && self.has_id(self.order_spec()[0]) {
            Some(self.order_spec()[0])
        } else {
            None
        }
    }

    fn get(&self, id: &str) -> (r: Option<&PaletteData>)
        ensures
            match r {
                Some(p) => self.has_id(id@) && p.id@ == id@ && exists|i: int| 0 <= i < self.palettes_spec().len() && self.palettes_spec()[i] == *p,
                None => !self.has_id(id@),
            },
    {
        match self.find(id) {
            Some(i) => {
                assert(palette_ids(self.palettes@)[i as int] == id@);
                Some(&self.palettes[i])
            },
            None => None,
        }
    }

    /// The active palette (see [`Self::resolved_id`]).
    pub fn resolve(&self, persisted: Option<&str>, default: Option<&str>) -> (r: Option<&PaletteData>)
        ensures
            ({
                let want = self.resolved_id(
                    match persisted { Some(s) => Some(s@), None => None },
                    match default { Some(s) => Some(s@), None => None },
                );
                match r {
                    Some(p) => want == Some(p.id@) && exists|i: int| 0 <= i < self.palettes_spec().len() && self.palettes_spec()[i] == *p,
                    None => want is None,
                }
            }),
    {
        if let Some(id) = persisted {
            if let Some(p) = self.get(id) {
                return Some(p);
            }
        }
        if let Some(id) = default {
            if let Some(p) = self.get(id) {
                return Some(p);
            }
        }
        if self.order.len() == 0 {
            return None;
        }
        self.get(self.order[0].as_str())
    }

    /// The id after `current_id` in load order, wrapping around; the id after the
    /// first one when `current_id` was never loaded; none when nothing was loaded.
    pub fn next_id(&self, current_id: &str) -> (r: Option<String>)
        ensures
            match r {
                Some(s) => {
                    let order = self.order_spec();
                    &&& order.len() > 0
                    &&& s@ == order[(first_position(order, current_id@) + 1) % (order.len() as int)]
                },
                None => self.order_spec().len() == 0,
            },
    {
        let n = self.order.len();
        if n == 0 {
            return None;
        }
        let ghost order = self.order_spec();
        let mut pos: usize = 0;
        let mut i: usize = 0;
        let mut found = false;
        while i < n && !found
            invariant
                n == self.order@.len(),
                order == self.order_spec(),
                i <= n,
                !order.subrange(0, i as int).contains(current_id@),
                found ==> i < n && pos == i && order[i as int] == current_id@,
                !found ==> pos == 0,
            decreases n - i, (if found { 0int } else { 1int }),
        {
            if str_eq(self.order[i].as_str(), current_id) {
                pos = i;
                found = true;
            } else {
                proof {
                    let next = order.subrange(0, i + 1);
                    assert(next =~= order.subrange(0, i as int).push(order[i as int]));
                    if next.contains(current_id@) {
                        let k = choose|k: int| 0 <= k < next.len() && #[trigger] next[k] == current_id@;
                        if k < i {
                            assert(order.subrange(0, i as int)[k] == current_id@);
                        }
                    }
                }
                i = i + 1;
            }
        }
        proof {
            if !found {
                assert(order.subrange(0, n as int) =~= order);
            }
        }
        proof {
            lemma_first_position(order, current_id@, pos as int, found);
        }
        let next = (pos + 1) % n;
        Some(self.order[next].clone())
    }

    /// The id a cycle makes active: the one after the active palette's id (the
    /// empty id when no palette is active) in load order, or the empty id when
    /// nothing was loaded.
    pub fn cycle_target(&self, persisted: Option<&str>, default: Option<&str>) -> (r: String)
        ensures
            ({
                let current = match self.resolved_id(
                    match persisted { Some(s) => Some(s@), None => None },
                    match default { Some(s) => Some(s@), None => None },
                ) {
                    Some(id) => id,
                    None => Seq::<char>::empty(),
                };
                let order = self.order_spec();
                r@ == if order.len() > 0 {
                    order[(first_position(order, current) + 1) % (order.len() as int)]
                } else {
                    Seq::<char>::empty()
                }
            }),
    {
        let current = match self.resolve(persisted, default) {
            Some(p) => p.id.clone(),
            None => String::new(),
        };
        match self.next_id(current.as_str()) {
            Some(s) => s,
            None => String::new(),
        }
    }

    /// The colours of particle ramp `ramp` of the active palette (see
    /// [`Self::resolved_id`]), if there is an active palette with that ramp.
    pub fn active_ramp(&self, persisted: Option<&str>, default: Option<&str>, ramp: &str) -> (r: Option<Vec<String>>)
        ensures
            r is Some ==> self.resolved_id(
                match persisted { Some(s) => Some(s@), None => None },
                match default { Some(s) => Some(s@), None => None },
            ) is Some,
            ({
                let want = self.resolved_id(
                    match persisted { Some(s) => Some(s@), None => None },
                    match default { Some(s) => Some(s@), None => None },
                );
                want is Some ==> exists|k: int| 0 <= k < self.palettes_spec().len()
                    && self.palettes_spec()[k].id@ == want.unwrap()
                    && match r {
                        Some(v) => exists|i: int| #[trigger] first_ramp_at(self.palettes_spec()[k].particles@, ramp@, i)
                            && v@.map_values(|s: String| s@) == self.palettes_spec()[k].particles@[i].1@.map_values(|s: String| s@),
                        None => forall|i: int| 0 <= i < self.palettes_spec()[k].particles@.len()
                            ==> #[trigger] self.palettes_spec()[k].particles@[i].0@ != ramp@,
                    }
            }),
    {
        match self.resolve(persisted, default) {
            Some(p) => p.particle_ramp(ramp),
            None => None,
        }
    }

    /// The foreground colour for a spawned prefab: the `fg` given at the call
    /// when there is one (none when it is empty); else the prefab's colour,
    /// where `@palette.<key>` names the colour `key` of the active palette (see
    /// [`Self::resolved_id`]); else none.
    pub fn prefab_fg_colour(
        &self,
        arg_fg: Option<&str>,
        catalog_fg: Option<&str>,
        persisted: Option<&str>,
        default: Option<&str>,
    ) -> (r: Option<String>)
        ensures
            match arg_fg {
                Some(a) => opt_view(r) == if a@.len() > 0 { Some(a@) } else { None },
                None => true,
            },
            arg_fg is None && catalog_fg is None ==> r is None,
            arg_fg is None && catalog_fg is Some && !starts_with_seq(catalog_fg.unwrap()@, "@palette."@)
                ==> opt_view(r) == Some(catalog_fg.unwrap()@),
            arg_fg is None && catalog_fg is Some && starts_with_seq(catalog_fg.unwrap()@, "@palette."@) ==> {
                let key = catalog_fg.unwrap()@.skip(9);
                let want = self.resolved_id(
                    match persisted { Some(s) => Some(s@), None => None },
                    match default { Some(s) => Some(s@), None => None },
                );
                match r {
                    Some(v) => exists|k: int| 0 <= k < self.palettes_spec().len()
                        && want == Some(self.palettes_spec()[k].id@)
                        && has_color(self.palettes_spec()[k].colors, key, v@),
                    None => want is None || exists|k: int| 0 <= k < self.palettes_spec().len()
                        && want == Some(self.palettes_spec()[k].id@)
                        && lacks_color(self.palettes_spec()[k].colors, key),
                }
            },
    {
        proof {
            reveal_strlit("@palette.");
        }
        match arg_fg {
            Some(a) => {
                if a.unicode_len() > 0 {
                    Some(String::from_str(a))
                } else {
                    None
                }
            },
            None => match catalog_fg {
                None => None,
                Some(c) => {
                    if starts_with(c, "@palette.") {
                        let n = c.unicode_len();
                        let key = c.substring_char(9, n);
                        assert(key@ =~= c@.skip(9));
                        match self.resolve(persisted, default) {
                            Some(p) => p.color(key),
                            None => None,
                        }
                    } else {
                        Some(String::from_str(c))
                    }
                },
            },
        }
    }

    /// Records that `id` becomes active: refused when no palette has that id or
    /// the choice cannot be persisted; otherwise the change counter is bumped
    /// (wrapping around after its largest value).
    pub fn select_active(&mut self, id: &str, can_persist: bool) -> (r: bool)
        ensures
            r == (old(self).has_id(id@) && can_persist),
            final(self).palettes_spec() == old(self).palettes_spec(),
            final(self).order_spec() == old(self).order_spec(),
            final(self).version_spec() == if !r {
                old(self).version_spec()
            } else if old(self).version_spec() == u64::MAX {
                0
            } else {
                (old(self).version_spec() + 1) as u64
            },
    {
        proof {
            use_type_invariant(&*self);
        }
        match self.find(id) {
            Some(i) => {
                assert(palette_ids(self.palettes@)[i as int] == id@);
                if can_persist {
                    self.version = self.version.wrapping_add(1);
                    true
                } else {
                    false
                }
            },
            None => false,
        }
    }

    /// The change counter.
    pub fn version(&self) -> (r: u64)
        ensures
            r == self.version_spec(),
    {
        self.version
    }

    /// Ids in load order.
    pub fn list(&self) -> (r: Vec<String>)
        ensures
            r@.map_values(|s: String| s@) == self.order_spec(),
    {
        let mut r: Vec<String> = Vec::new();
        let mut i: usize = 0;
        while i < self.order.len()
            invariant
                i <= self.order@.len(),
                r@.map_values(|s: String| s@) == self.order_spec().subrange(0, i as int),
            decreases self.order.len() - i,
        {
            let ghost r0 = r@;
            r.push(self.order[i].clone());
            proof {
                assert(r@.map_values(|s: String| s@) =~= r0.map_values(|s: String| s@).push(self.order@[i as int]@));
                assert(self.order_spec().subrange(0, i + 1) =~= self.order_spec().subrange(0, i as int).push(self.order@[i as int]@));
            }
            i = i + 1;
        }
        assert(self.order_spec().subrange(0, self.order@.len() as int) =~= self.order_spec());
        r
    }
}

proof fn lemma_first_position(order: Seq<Seq<char>>, id: Seq<char>, pos: int, found: bool)
    requires
        order.len() > 0,
        found ==> 0 <= pos < order.len() && order[pos] == id && !order.subrange(0, pos).contains(id),
        !found ==> pos == 0 && !order.contains(id),
    ensures
        first_position(order, id) == pos,
    decreases order.len(),
{
    let init = order.drop_last();
    if found && pos < order.len() - 1 {
        assert(init.subrange(0, pos) =~= order.subrange(0, pos));
        assert(init[pos] == id);
        lemma_first_position(init, id, pos, true);
        assert(init.contains(id));
    } else if found {
        assert(pos == order.len() - 1);
        assert(init =~= order.subrange(0, pos));
        assert(!init.contains(id));
    } else {
        assert(!init.contains(id)) by {
            if init.contains(id) {
                let k = choose|k: int| 0 <= k < init.len() && init[k] == id;
                assert(order[k] == id);
            }
        }
        if order.last() == id {
            assert(order[order.len() - 1] == id);
        }
    }
}

impl Default for PaletteStore {
    /// An empty store with counter 1.
    fn default() -> (r: Self)
        ensures
            r.palettes_spec() == Seq::<PaletteData>::empty(),
            r.order_spec() == Seq::<Seq<char>>::empty(),
            r.version_spec() == 1,
    {
        PaletteStore::new()
    }
}

} // verus!

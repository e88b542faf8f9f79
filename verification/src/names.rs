//! Names: built-in behavior names and their dispatch, the mod source setting,
//! and the tokens scripts use for motion modes, biomes and switches.

use vstd::prelude::*;
use crate::text::{ascii_lower, eq_ignore_ascii_case, eq_ignore_ascii_case_seq, push_char, to_ascii_lower, trim, trim_seq};

verus! {

/// Names of all built-in behaviors.
pub open spec fn builtin_names() -> Seq<Seq<char>> {
    seq![
        "blink"@,
        "bob"@,
        "follow"@,
        "menu-carousel"@,
        "menu-carousel-object"@,
        "rhai-script"@,
        "menu-selected"@,
        "selected-arrows"@,
        "stage-visibility"@,
        "timed-visibility"@,
    ]
}

/// Returns the names of all built-in behaviors.
pub fn builtin_behavior_names() -> (r: Vec<&'static str>)
    ensures
        r@.map_values(|s: &'static str| s@) == builtin_names(),
{
    let r = vec![
        "blink",
        "bob",
        "follow",
        "menu-carousel",
        "menu-carousel-object",
        "rhai-script",
        "menu-selected",
        "selected-arrows",
        "stage-visibility",
        "timed-visibility",
    ];
    assert(r@.map_values(|s: &'static str| s@) =~= builtin_names());
    r
}

/// The built-in behaviors.
#[derive(Clone, Copy, Debug, PartialEq, Eq, Structural)]
pub enum BuiltinKind {
    Blink,
    Bob,
    Follow,
    MenuCarousel,
    MenuCarouselObject,
    RhaiScript,
    MenuSelected,
    SelectedArrows,
    StageVisibility,
    TimedVisibility,
}

/// The built-in behavior a spec name selects, ignoring ASCII case and
/// surrounding whitespace.
pub open spec fn builtin_named(name: Seq<char>) -> Option<BuiltinKind> {
    let n = trim_seq(name);
    if eq_ignore_ascii_case_seq(n, "blink"@) {
        Some(BuiltinKind::Blink)
    } else if eq_ignore_ascii_case_seq(n, "bob"@) {
        Some(BuiltinKind::Bob)
    } else if eq_ignore_ascii_case_seq(n, "follow"@) {
        Some(BuiltinKind::Follow)
    } else if eq_ignore_ascii_case_seq(n, "menu-carousel"@) {
        Some(BuiltinKind::MenuCarousel)
    } else if eq_ignore_ascii_case_seq(n, "menu-carousel-object"@) {
        Some(BuiltinKind::MenuCarouselObject)
    } else if eq_ignore_ascii_case_seq(n, "rhai-script"@) {
        Some(BuiltinKind::RhaiScript)
    } else if eq_ignore_ascii_case_seq(n, "menu-selected"@) {
        Some(BuiltinKind::MenuSelected)
    } else if eq_ignore_ascii_case_seq(n, "selected-arrows"@) {
        Some(BuiltinKind::SelectedArrows)
    } else if eq_ignore_ascii_case_seq(n, "stage-visibility"@) {
        Some(BuiltinKind::StageVisibility)
    } else if eq_ignore_ascii_case_seq(n, "timed-visibility"@) {
        Some(BuiltinKind::TimedVisibility)
    } else {
        None
    }
}

/// Resolves the engine's built-in behavior names.
pub struct BuiltInBehaviorFactory;

impl BuiltInBehaviorFactory {
    /// The built-in behavior named by `name`, if any (see [`builtin_named`]).
    pub fn create(&self, name: &str) -> (r: Option<BuiltinKind>)
        ensures
            r == builtin_named(name@),
    {
        let t = trim(name);
        let n = t.as_str();
        if eq_ignore_ascii_case(n, "blink") {
            Some(BuiltinKind::Blink)
        } else if eq_ignore_ascii_case(n, "bob") {
            Some(BuiltinKind::Bob)
        } else if eq_ignore_ascii_case(n, "follow") {
            Some(BuiltinKind::Follow)
        } else if eq_ignore_ascii_case(n, "menu-carousel") {
            Some(BuiltinKind::MenuCarousel)
        } else if eq_ignore_ascii_case(n, "menu-carousel-object") {
            Some(BuiltinKind::MenuCarouselObject)
        } else if eq_ignore_ascii_case(n, "rhai-script") {
            Some(BuiltinKind::RhaiScript)
        } else if eq_ignore_ascii_case(n, "menu-selected") {
            Some(BuiltinKind::MenuSelected)
        } else if eq_ignore_ascii_case(n, "selected-arrows") {
            Some(BuiltinKind::SelectedArrows)
        } else if eq_ignore_ascii_case(n, "stage-visibility") {
            Some(BuiltinKind::StageVisibility)
        } else if eq_ignore_ascii_case(n, "timed-visibility") {
            Some(BuiltinKind::TimedVisibility)
        } else {
            None
        }
    }
}

/// Where scripts import shared modules from: the configured mod directory.
pub struct ModSource {
    configured: Option<String>,
}

/// Mod directory used when none is configured or given by the environment.
pub open spec fn default_mod_source() -> Seq<char> {
    "mods/shell-quest"@
}

impl ModSource {
    /// The configured directory, if any.
    pub closed spec fn configured_spec(&self) -> Option<Seq<char>> {
        match self.configured {
            Some(s) => Some(s@),
            None => None,
        }
    }

    /// No directory configured yet.
    pub fn new() -> (r: Self)
        ensures
            r.configured_spec() is None,
    {
        ModSource { configured: None }
    }

    /// Configures the mod directory.
    pub fn set_mod_source(&mut self, mod_source: String)
        ensures
            final(self).configured_spec() == Some(mod_source@),
    {
        self.configured = Some(mod_source);
    }

    /// The configured directory, else `from_env` (the environment's setting),
    /// else `mods/shell-quest`.
    pub fn get_mod_source(&self, from_env: Option<String>) -> (r: String)
        ensures
            r@ == match self.configured_spec() {
                Some(s) => s,
                None => match from_env {
                    Some(e) => e@,
                    None => default_mod_source(),
                },
            },
    {
        match &self.configured {
            Some(s) => s.clone(),
            None => match from_env {
                Some(e) => e,
                None => String::from_str("mods/shell-quest"),
            },
        }
    }
}

/// Sets the mod directory scripts resolve imports from.
pub fn init_behavior_system(config: &mut ModSource, mod_source: &str)
    ensures
        final(config).configured_spec() == Some(mod_source@),
{
    config.set_mod_source(String::from_str(mod_source));
}

/// Whether `c` is an ASCII letter or digit.
pub open spec fn is_ascii_alnum(c: char) -> bool {
    ('0' <= c <= '9') || ('a' <= c <= 'z') || ('A' <= c <= 'Z')
}

/// The ASCII letters and digits of `s`, lower-cased, in order.
pub open spec fn token_of(s: Seq<char>) -> Seq<char>
    decreases s.len(),
{
    if s.len() == 0 {
        s
    } else if is_ascii_alnum(s.last()) {
        token_of(s.drop_last()).push(ascii_lower(s.last()))
    } else {
        token_of(s.drop_last())
    }
}

/// Reduces `value` to its lower-cased ASCII letters and digits (empty for none).
pub fn normalize_token(value: Option<&str>) -> (r: String)
    ensures
        r@ == match value {
            Some(v) => token_of(v@),
            None => Seq::<char>::empty(),
        },
{
    let mut r = String::new();
    let v = match value {
        Some(v) => v,
        None => {
            return r;
        },
    };
    let n = v.unicode_len();
    let mut i: usize = 0;
    while i < n
        invariant
            n == v@.len(),
            i <= n,
            r@ == token_of(v@.subrange(0, i as int)),
        decreases n - i,
    {
        let c = v.get_char(i);
        proof {
            assert(v@.subrange(0, i + 1).drop_last() =~= v@.subrange(0, i as int));
        }
        if ('0' <= c && c <= '9') || ('a' <= c && c <= 'z') || ('A' <= c && c <= 'Z') {
            push_char(&mut r, to_ascii_lower(c));
        }
        i = i + 1;
    }
    assert(v@.subrange(0, n as int) =~= v@);
    r
}

/// How a body's motion is referenced.
#[derive(Clone, Copy, Debug, PartialEq, Eq, Structural)]
pub enum ReferenceFrameMode {
    World,
    ParentEntity,
    CelestialBody,
    LocalHorizon,
    Orbital,
}

/// The space a linear motor acts in.
#[derive(Clone, Copy, Debug, PartialEq, Eq, Structural)]
pub enum MotorSpace {
    Local,
    World,
    ReferenceFrame,
}

/// How an angular motor interprets its input.
#[derive(Clone, Copy, Debug, PartialEq, Eq, Structural)]
pub enum AngularMotorMode {
    Rate,
    Torque,
}

/// Which way is up for a character motor.
#[derive(Clone, Copy, Debug, PartialEq, Eq, Structural)]
pub enum CharacterUpMode {
    WorldUp,
    SurfaceNormal,
    ReferenceFrameUp,
}

/// Token of an optional setting.
pub open spec fn opt_token(value: Option<&str>) -> Seq<char> {
    match value {
        Some(v) => token_of(v@),
        None => Seq::<char>::empty(),
    }
}

/// Reference frame mode named by `value`; `World` otherwise.
pub open spec fn reference_frame_mode_of(token: Seq<char>) -> ReferenceFrameMode {
    if token == "parententity"@ {
        ReferenceFrameMode::ParentEntity
    } else if token == "celestialbody"@ {
        ReferenceFrameMode::CelestialBody
    } else if token == "localhorizon"@ {
        ReferenceFrameMode::LocalHorizon
    } else if token == "orbital"@ {
        ReferenceFrameMode::Orbital
    } else {
        ReferenceFrameMode::World
    }
}

/// Parses a reference frame mode, ignoring case and punctuation.
pub fn reference_frame_mode_from_str(value: Option<&str>) -> (r: ReferenceFrameMode)
    ensures
        r == reference_frame_mode_of(opt_token(value)),
{
    let t = normalize_token(value);
    let t = t.as_str();
    if crate::text::str_eq(t, "parententity") {
        ReferenceFrameMode::ParentEntity
    } else if crate::text::str_eq(t, "celestialbody") {
        ReferenceFrameMode::CelestialBody
    } else if crate::text::str_eq(t, "localhorizon") {
        ReferenceFrameMode::LocalHorizon
    } else if crate::text::str_eq(t, "orbital") {
        ReferenceFrameMode::Orbital
    } else {
        ReferenceFrameMode::World
    }
}

/// Motor space named by a token; `Local` otherwise.
pub open spec fn motor_space_of(token: Seq<char>) -> MotorSpace {
    if token == "world"@ {
        MotorSpace::World
    } else if token == "referenceframe"@ {
        MotorSpace::ReferenceFrame
    } else {
        MotorSpace::Local
    }
}

/// Parses a motor space, ignoring case and punctuation.
pub fn motor_space_from_str(value: Option<&str>) -> (r: MotorSpace)
    ensures
        r == motor_space_of(opt_token(value)),
{
    let t = normalize_token(value);
    let t = t.as_str();
    if crate::text::str_eq(t, "world") {
        MotorSpace::World
    } else if crate::text::str_eq(t, "referenceframe") {
        MotorSpace::ReferenceFrame
    } else {
        MotorSpace::Local
    }
}

/// Parses an angular motor mode (`torque`, else rate), ignoring case and punctuation.
pub fn angular_motor_mode_from_str(value: Option<&str>) -> (r: AngularMotorMode)
    ensures
        r == if opt_token(value) == "torque"@ {
            AngularMotorMode::Torque
        } else {
            AngularMotorMode::Rate
        },
{
    let t = normalize_token(value);
    if crate::text::str_eq(t.as_str(), "torque") {
        AngularMotorMode::Torque
    } else {
        AngularMotorMode::Rate
    }
}

/// Parses a character up mode, ignoring case and punctuation; world up otherwise.
pub fn character_up_mode_from_str(value: Option<&str>) -> (r: CharacterUpMode)
    ensures
        r == if opt_token(value) == "surfacenormal"@ {
            CharacterUpMode::SurfaceNormal
        } else if opt_token(value) == "referenceframeup"@ {
            CharacterUpMode::ReferenceFrameUp
        } else {
            CharacterUpMode::WorldUp
        },
{
    let t = normalize_token(value);
    let t = t.as_str();
    if crate::text::str_eq(t, "surfacenormal") {
        CharacterUpMode::SurfaceNormal
    } else if crate::text::str_eq(t, "referenceframeup") {
        CharacterUpMode::ReferenceFrameUp
    } else {
        CharacterUpMode::WorldUp
    }
}

/// Terrain biomes.
#[derive(Clone, Copy, Debug, PartialEq, Eq, Structural)]
pub enum Biome {
    Ocean,
    ShallowWater,
    Beach,
    Desert,
    Grassland,
    Forest,
    Tundra,
    Snow,
    Mountain,
    Volcanic,
}

/// Whether `s` equals one of the lower-case ASCII labels up to ASCII case.
pub open spec fn label_is(s: Seq<char>, label: Seq<char>) -> bool {
    eq_ignore_ascii_case_seq(s, label)
}

/// The biome a label names (with aliases), ignoring ASCII case and surrounding
/// whitespace.
pub open spec fn biome_of_label(label: Seq<char>) -> Option<Biome> {
    let t = trim_seq(label);
    if label_is(t, "ocean"@) {
        Some(Biome::Ocean)
    } else if label_is(t, "shallow"@) || label_is(t, "shallow_water"@) || label_is(t, "shallow-water"@) {
        Some(Biome::ShallowWater)
    } else if label_is(t, "beach"@) {
        Some(Biome::Beach)
    } else if label_is(t, "desert"@) {
        Some(Biome::Desert)
    } else if label_is(t, "grass"@) || label_is(t, "grassland"@) {
        Some(Biome::Grassland)
    } else if label_is(t, "forest"@) {
        Some(Biome::Forest)
    } else if label_is(t, "tundra"@) || label_is(t, "cold"@) {
        Some(Biome::Tundra)
    } else if label_is(t, "snow"@) || label_is(t, "ice"@) {
        Some(Biome::Snow)
    } else if label_is(t, "mountain"@) {
        Some(Biome::Mountain)
    } else if label_is(t, "volcanic"@) || label_is(t, "volcano"@) {
        Some(Biome::Volcanic)
    } else {
        None
    }
}

/// Parses a biome label (see [`biome_of_label`]).
pub fn biome_from_label(label: &str) -> (r: Option<Biome>)
    ensures
        r == biome_of_label(label@),
{
    let t = trim(label);
    let t = t.as_str();
    if eq_ignore_ascii_case(t, "ocean") {
        Some(Biome::Ocean)
    } else if eq_ignore_ascii_case(t, "shallow") || eq_ignore_ascii_case(t, "shallow_water")
        || eq_ignore_ascii_case(t, "shallow-water") {
        Some(Biome::ShallowWater)
    } else if eq_ignore_ascii_case(t, "beach") {
        Some(Biome::Beach)
    } else if eq_ignore_ascii_case(t, "desert") {
        Some(Biome::Desert)
    } else if eq_ignore_ascii_case(t, "grass") || eq_ignore_ascii_case(t, "grassland") {
        Some(Biome::Grassland)
    } else if eq_ignore_ascii_case(t, "forest") {
        Some(Biome::Forest)
    } else if eq_ignore_ascii_case(t, "tundra") || eq_ignore_ascii_case(t, "cold") {
        Some(Biome::Tundra)
    } else if eq_ignore_ascii_case(t, "snow") || eq_ignore_ascii_case(t, "ice") {
        Some(Biome::Snow)
    } else if eq_ignore_ascii_case(t, "mountain") {
        Some(Biome::Mountain)
    } else if eq_ignore_ascii_case(t, "volcanic") || eq_ignore_ascii_case(t, "volcano") {
        Some(Biome::Volcanic)
    } else {
        None
    }
}

/// The entries of a script array: the text of each string entry, none for any
/// other value.
pub open spec fn entry_texts(entries: Seq<Option<String>>) -> Seq<Option<Seq<char>>> {
    entries.map_values(|e: Option<String>| match e {
        Some(s) => Some(s@),
        None => None,
    })
}

/// The biomes named by the text entries, in order; entries that are not text
/// or name no biome are skipped.
pub open spec fn labelled_biomes(entries: Seq<Option<Seq<char>>>) -> Seq<Biome>
    decreases entries.len(),
{
    if entries.len() == 0 {
        Seq::empty()
    } else {
        let rest = labelled_biomes(entries.drop_last());
        match entries.last() {
            Some(label) => match biome_of_label(label) {
                Some(b) => rest.push(b),
                None => rest,
            },
            None => rest,
        }
    }
}

/// The spawn biomes a script prefers: those its entries name (see
/// [`labelled_biomes`]), or `defaults` when they name none.
pub fn preferred_biomes_from_array(entries: &Vec<Option<String>>, defaults: Vec<Biome>) -> (r: Vec<Biome>)
    ensures
        r@ == if labelled_biomes(entry_texts(entries@)).len() > 0 {
            labelled_biomes(entry_texts(entries@))
        } else {
            defaults@
        },
{
    let ghost texts = entry_texts(entries@);
    let mut out: Vec<Biome> = Vec::new();
    let mut i: usize = 0;
    while i < entries.len()
        invariant
            i <= entries@.len(),
            texts == entry_texts(entries@),
            out@ == labelled_biomes(texts.subrange(0, i as int)),
        decreases entries.len() - i,
    {
        proof {
            assert(texts.subrange(0, i + 1).drop_last() =~= texts.subrange(0, i as int));
        }
        match &entries[i] {
            Some(label) => match biome_from_label(label.as_str()) {
                Some(b) => out.push(b),
                None => {},
            },
            None => {},
        }
        i = i + 1;
    }
    assert(texts.subrange(0, entries@.len() as int) =~= texts);
    if out.len() == 0 {
        defaults
    } else {
        out
    }
}

/// The canonical label of a biome.
pub open spec fn biome_label_of(biome: Biome) -> Seq<char> {
    match biome {
        Biome::Ocean => "ocean"@,
        Biome::ShallowWater => "shallow"@,
        Biome::Beach => "beach"@,
        Biome::Desert => "desert"@,
        Biome::Grassland => "grassland"@,
        Biome::Forest => "forest"@,
        Biome::Tundra => "tundra"@,
        Biome::Snow => "snow"@,
        Biome::Mountain => "mountain"@,
        Biome::Volcanic => "volcanic"@,
    }
}

/// The canonical label of `biome`.
pub fn biome_label(biome: Biome) -> (r: &'static str)
    ensures
        r@ == biome_label_of(biome),
{
    match biome {
        Biome::Ocean => "ocean",
        Biome::ShallowWater => "shallow",
        Biome::Beach => "beach",
        Biome::Desert => "desert",
        Biome::Grassland => "grassland",
        Biome::Forest => "forest",
        Biome::Tundra => "tundra",
        Biome::Snow => "snow",
        Biome::Mountain => "mountain",
        Biome::Volcanic => "volcanic",
    }
}

/// The switch a text names: `1`, `true`, `yes`, `on` or `0`, `false`, `no`,
/// `off`, ignoring ASCII case and surrounding whitespace.
pub open spec fn switch_of_text(s: Seq<char>) -> Option<bool> {
    let t = trim_seq(s);
    if label_is(t, "1"@) || label_is(t, "true"@) || label_is(t, "yes"@) || label_is(t, "on"@) {
        Some(true)
    } else if label_is(t, "0"@) || label_is(t, "false"@) || label_is(t, "no"@) || label_is(t, "off"@) {
        Some(false)
    } else {
        None
    }
}

/// Reads a switch from text (see [`switch_of_text`]).
pub fn text_to_bool(s: &str) -> (r: Option<bool>)
    ensures
        r == switch_of_text(s@),
{
    let t = trim(s);
    let t = t.as_str();
    if eq_ignore_ascii_case(t, "1") || eq_ignore_ascii_case(t, "true") || eq_ignore_ascii_case(t, "yes")
        || eq_ignore_ascii_case(t, "on") {
        Some(true)
    } else if eq_ignore_ascii_case(t, "0") || eq_ignore_ascii_case(t, "false") || eq_ignore_ascii_case(t, "no")
        || eq_ignore_ascii_case(t, "off") {
        Some(false)
    } else {
        None
    }
}

} // verus!

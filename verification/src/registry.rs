//! Registry of mod-defined named behaviors, and the rules that turn a behavior
//! document into a registry entry.

use vstd::prelude::*;
use crate::command::opt_view;
use crate::path::{join_path, join_paths, mod_path_name, normalize_mod_path, parent_of, path_parent, opt_seq};
use crate::text::{starts_with, starts_with_seq, str_eq, trim, trim_seq, push_char};

verus! {

/// A mod-defined behavior: a name and a script body, with the canonical name of
/// the file the script came from.
pub struct ModBehavior {
    pub name: String,
    pub script: String,
    pub src: Option<String>,
}

/// The content of a [`ModBehavior`].
pub struct ModBehaviorView {
    pub name: Seq<char>,
    pub script: Seq<char>,
    pub src: Option<Seq<char>>,
}

impl View for ModBehavior {
    type V = ModBehaviorView;

    open spec fn view(&self) -> ModBehaviorView {
        ModBehaviorView { name: self.name@, script: self.script@, src: opt_view(self.src) }
    }
}

impl ModBehavior {
    /// A copy of this behavior.
    pub fn duplicate(&self) -> (r: Self)
        ensures
            r@ == self@,
    {
        ModBehavior {
            name: self.name.clone(),
            script: self.script.clone(),
            src: match &self.src {
                Some(s) => Some(s.clone()),
                None => None,
            },
        }
    }
}

/// Named behaviors loaded from a mod.
pub struct ModBehaviorRegistry {
    behaviors: Vec<ModBehavior>,
}

spec fn name_at(v: Seq<ModBehavior>, i: int) -> Seq<char> {
    v[i].name@
}

spec fn has_name(v: Seq<ModBehavior>, k: Seq<char>) -> bool {
    exists|i: int| 0 <= i < v.len() && #[trigger] name_at(v, i) == k
}

spec fn index_of_name(v: Seq<ModBehavior>, k: Seq<char>) -> int {
    choose|i: int| 0 <= i < v.len() && #[trigger] name_at(v, i) == k
}

spec fn names_unique(v: Seq<ModBehavior>) -> bool {
    forall|i: int, j: int| 0 <= i < v.len() && 0 <= j < v.len() && i != j ==> name_at(v, i) != name_at(v, j)
}

spec fn registry_map(v: Seq<ModBehavior>) -> Map<Seq<char>, ModBehaviorView> {
    Map::new(|k: Seq<char>| has_name(v, k), |k: Seq<char>| v[index_of_name(v, k)]@)
}

proof fn lemma_registry_at(v: Seq<ModBehavior>, i: int)
    requires
        names_unique(v),
        0 <= i < v.len(),
    ensures
        registry_map(v).contains_key(v[i].name@),
        registry_map(v)[v[i].name@] == v[i]@,
{
    let k = v[i].name@;
    assert(name_at(v, i) == k);
    let j = index_of_name(v, k);
    assert(name_at(v, j) == k);
}

proof fn lemma_registry_update(v: Seq<ModBehavior>, i: int, b: ModBehavior)
    requires
        names_unique(v),
        0 <= i < v.len(),
        b.name@ == v[i].name@,
    ensures
        names_unique(v.update(i, b)),
        registry_map(v.update(i, b)) == registry_map(v).insert(b.name@, b@),
{
    let nv = v.update(i, b);
    assert forall|a: int, c: int| 0 <= a < nv.len() && 0 <= c < nv.len() && a != c implies name_at(nv, a) != name_at(nv, c) by {
        assert(name_at(nv, a) == name_at(v, a));
        assert(name_at(nv, c) == name_at(v, c));
    }
    assert forall|k: Seq<char>| #[trigger] has_name(nv, k) == has_name(v, k) by {
        if has_name(nv, k) {
            let j = choose|j: int| 0 <= j < nv.len() && #[trigger] name_at(nv, j) == k;
            assert(name_at(v, j) == k);
        }
        if has_name(v, k) {
            let j = choose|j: int| 0 <= j < v.len() && #[trigger] name_at(v, j) == k;
            assert(name_at(nv, j) == k);
        }
    }
    assert forall|k: Seq<char>| has_name(nv, k) implies nv[index_of_name(nv, k)]@ == (if k == b.name@ {
        b@
    } else {
        v[index_of_name(v, k)]@
    }) by {
        let j = index_of_name(nv, k);
        assert(name_at(nv, j) == k);
        if k == b.name@ {
            if j != i {
                assert(name_at(v, j) == k);
                assert(name_at(v, i) == k);
            }
        } else {
            let j2 = index_of_name(v, k);
            assert(name_at(v, j2) == k);
            assert(name_at(v, j) == k);
        }
    }
    assert(name_at(v, i) == b.name@);
    assert(has_name(v, b.name@));
    assert(registry_map(nv) =~= registry_map(v).insert(b.name@, b@));
}

proof fn lemma_registry_push(v: Seq<ModBehavior>, b: ModBehavior)
    requires
        names_unique(v),
        !has_name(v, b.name@),
    ensures
        names_unique(v.push(b)),
        registry_map(v.push(b)) == registry_map(v).insert(b.name@, b@),
{
    let nv = v.push(b);
    assert forall|a: int, c: int| 0 <= a < nv.len() && 0 <= c < nv.len() && a != c implies name_at(nv, a) != name_at(nv, c) by {
        if a == v.len() {
            if name_at(nv, c) == name_at(nv, a) {
                assert(name_at(v, c) == b.name@);
            }
        } else if c == v.len() {
            if name_at(nv, c) == name_at(nv, a) {
                assert(name_at(v, a) == b.name@);
            }
        } else {
            assert(name_at(nv, a) == name_at(v, a));
            assert(name_at(nv, c) == name_at(v, c));
        }
    }
    assert forall|k: Seq<char>| #[trigger] has_name(nv, k) == (has_name(v, k) || k == b.name@) by {
        if has_name(nv, k) {
            let j = choose|j: int| 0 <= j < nv.len() && #[trigger] name_at(nv, j) == k;
            if j < v.len() {
                assert(name_at(v, j) == k);
            }
        }
        if has_name(v, k) {
            let j = choose|j: int| 0 <= j < v.len() && #[trigger] name_at(v, j) == k;
            assert(name_at(nv, j) == k);
        }
        if k == b.name@ {
            assert(name_at(nv, v.len() as int) == k);
        }
    }
    assert forall|k: Seq<char>| has_name(nv, k) implies nv[index_of_name(nv, k)]@ == (if k == b.name@ {
        b@
    } else {
        v[index_of_name(v, k)]@
    }) by {
        let j = index_of_name(nv, k);
        assert(name_at(nv, j) == k);
        if k == b.name@ {
            if j < v.len() {
                assert(name_at(v, j) == k);
            }
        } else {
            assert(j < v.len());
            let j2 = index_of_name(v, k);
            assert(name_at(v, j2) == k);
            assert(name_at(v, j) == k);
        }
    }
    assert(registry_map(nv) =~= registry_map(v).insert(b.name@, b@));
}

impl ModBehaviorRegistry {
    /// No two entries share a name.
    #[verifier::type_invariant]
    spec fn wf(&self) -> bool {
        names_unique(self.behaviors@)
    }

    /// Behaviors by name.
    pub closed spec fn view(&self) -> Map<Seq<char>, ModBehaviorView> {
        registry_map(self.behaviors@)
    }

    /// An empty registry.
    pub fn new() -> (r: Self)
        ensures
            r.view() == Map::<Seq<char>, ModBehaviorView>::empty(),
    {
        let r = ModBehaviorRegistry { behaviors: Vec::new() };
        assert(r.view() =~= Map::<Seq<char>, ModBehaviorView>::empty());
        r
    }

    fn find(&self, name: &str) -> (r: Option<usize>)
        ensures
            match r {
                Some(i) => i < self.behaviors@.len() && self.behaviors@[i as int].name@ == name@,
                None => !has_name(self.behaviors@, name@),
            },
    {
        let mut i: usize = 0;
        while i < self.behaviors.len()
            invariant
                i <= self.behaviors@.len(),
                forall|j: int| 0 <= j < i ==> name_at(self.behaviors@, j) != name@,
            decreases self.behaviors.len() - i,
        {
            if str_eq(self.behaviors[i].name.as_str(), name) {
                return Some(i);
            }
            i = i + 1;
        }
        None
    }

    /// The behavior registered under `name`, if any.
    pub fn get(&self, name: &str) -> (r: Option<&ModBehavior>)
        ensures
            match r {
                Some(b) => self.view().contains_key(name@) && b@ == self.view()[name@],
                None => !self.view().contains_key(name@),
            },
    {
        proof {
            use_type_invariant(self);
        }
        match self.find(name) {
            Some(i) => {
                proof {
                    lemma_registry_at(self.behaviors@, i as int);
                }
                Some(&self.behaviors[i])
            },
            None => None,
        }
    }

    /// Registers `b` under its name, replacing any behavior of the same name.
    pub fn insert(&mut self, b: ModBehavior)
        ensures
            final(self).view() == old(self).view().insert(b.name@, b@),
    {
        proof {
            use_type_invariant(&*self);
        }
        let ghost v = self.behaviors@;
        let found = self.find(b.name.as_str());
        let mut behaviors: Vec<ModBehavior> = Vec::new();
        std::mem::swap(&mut behaviors, &mut self.behaviors);
        match found {
            Some(i) => {
                proof {
                    lemma_registry_update(v, i as int, b);
                }
                behaviors.set(i, b);
            },
            None => {
                proof {
                    lemma_registry_push(v, b);
                }
                behaviors.push(b);
            },
        }
        self.behaviors = behaviors;
    }

    /// Whether no behavior is registered.
    pub fn is_empty(&self) -> (r: bool)
        ensures
            r == (self.view() == Map::<Seq<char>, ModBehaviorView>::empty()),
    {
        proof {
            use_type_invariant(self);
        }
        if self.behaviors.len() == 0 {
            assert(self.view() =~= Map::<Seq<char>, ModBehaviorView>::empty());
            true
        } else {
            proof {
                lemma_registry_at(self.behaviors@, 0);
                assert(!(self.view() =~= Map::<Seq<char>, ModBehaviorView>::empty()));
            }
            false
        }
    }
}

/// `s` without its leading `/` characters.
pub open spec fn strip_leading_slashes(s: Seq<char>) -> Seq<char>
    decreases s.len(),
{
    if s.len() > 0 && s[0] == '/' {
        strip_leading_slashes(s.drop_first())
    } else {
        s
    }
}

fn trim_leading_slashes(s: &str) -> (r: String)
    ensures
        r@ == strip_leading_slashes(s@),
{
    let n = s.unicode_len();
    let mut i: usize = 0;
    let mut done = false;
    assert(s@.subrange(0, n as int) =~= s@);
    while i < n && !done
        invariant
            n == s@.len(),
            i <= n,
            done ==> i < n && s@[i as int] != '/',
            strip_leading_slashes(s@) == strip_leading_slashes(s@.subrange(i as int, n as int)),
        decreases n - i, (if done { 0int } else { 1int }),
    {
        if s.get_char(i) != '/' {
            done = true;
        } else {
            proof {
                let t = s@.subrange(i as int, n as int);
                assert(t.drop_first() =~= s@.subrange(i + 1, n as int));
            }
            i = i + 1;
        }
    }
    proof {
        let t = s@.subrange(i as int, n as int);
        if i < n {
            assert(t[0] == s@[i as int]);
        }
    }
    s.substring_char(i, n).to_owned()
}

/// Where a behavior's external script lives: from the mod root for `/…`, beside
/// the behavior file for `./…` and `../…`, else in the mod's `scripts` directory.
pub open spec fn script_path(mod_source: Seq<char>, behavior_path: Seq<char>, script_ref: Seq<char>) -> Seq<char> {
    if starts_with_seq(script_ref, "/"@) {
        join_path(mod_source, strip_leading_slashes(script_ref))
    } else if starts_with_seq(script_ref, "./"@) || starts_with_seq(script_ref, "../"@) {
        let base = match parent_of(behavior_path) {
            Some(p) => p,
            None => mod_source,
        };
        join_path(base, script_ref)
    } else {
        join_path(join_path(mod_source, "scripts"@), script_ref)
    }
}

/// Resolves a behavior's `src` reference (see [`script_path`]).
pub fn resolve_behavior_src_path(mod_source: &str, behavior_path: &str, script_ref: &str) -> (r: String)
    ensures
        r@ == script_path(mod_source@, behavior_path@, script_ref@),
{
    if starts_with(script_ref, "/") {
        let rest = trim_leading_slashes(script_ref);
        return join_paths(mod_source, rest.as_str());
    }
    if starts_with(script_ref, "./") || starts_with(script_ref, "../") {
        let base = match path_parent(behavior_path) {
            Some(p) => p,
            None => String::from_str(mod_source),
        };
        return join_paths(base.as_str(), script_ref);
    }
    let scripts = join_paths(mod_source, "scripts");
    join_paths(scripts.as_str(), script_ref)
}

/// A behavior document as read from a mod's `behaviors/*.yml` file.
pub struct RawModBehavior {
    pub kind: String,
    pub name: String,
    pub script: Option<String>,
    pub src: Option<String>,
}

/// Where a behavior's script comes from.
pub enum BehaviorSource {
    /// The script is written in the document.
    Inline(ModBehavior),
    /// The script must be read from `script_path`.
    External { name: String, script_path: String },
}

/// Content of a [`BehaviorSource`].
pub enum BehaviorSourceView {
    Inline(ModBehaviorView),
    External { name: Seq<char>, script_path: Seq<char> },
}

impl View for BehaviorSource {
    type V = BehaviorSourceView;

    open spec fn view(&self) -> BehaviorSourceView {
        match self {
            BehaviorSource::Inline(b) => BehaviorSourceView::Inline(b@),
            BehaviorSource::External { name, script_path } => BehaviorSourceView::External {
                name: name@,
                script_path: script_path@,
            },
        }
    }
}

/// What a behavior document at `path` yields: an error unless its kind is
/// `behavior` and exactly one of `script` and `src` is given.
pub open spec fn behavior_plan(
    path: Seq<char>,
    kind: Seq<char>,
    name: Seq<char>,
    script: Option<Seq<char>>,
    src: Option<Seq<char>>,
    mod_source: Seq<char>,
) -> Result<BehaviorSourceView, Seq<char>> {
    if kind != "behavior"@ {
        Err("expected kind=behavior, got `"@ + kind + "`"@)
    } else {
        match (script, src) {
            (Some(body), None) => Ok(BehaviorSourceView::Inline(ModBehaviorView {
                name,
                script: body,
                src: Some(mod_path_name(mod_source, path)),
            })),
            (None, Some(r)) => Ok(BehaviorSourceView::External {
                name,
                script_path: script_path(mod_source, path, trim_seq(r)),
            }),
            (Some(_), Some(_)) => Err("expected exactly one of `script` or `src`"@),
            (None, None) => Err("missing required `script` or `src` field"@),
        }
    }
}

/// View of a plan result.
pub open spec fn plan_view(r: Result<BehaviorSource, String>) -> Result<BehaviorSourceView, Seq<char>> {
    match r {
        Ok(s) => Ok(s@),
        Err(e) => Err(e@),
    }
}

/// Turns a parsed behavior document at `path` into a registry entry or the
/// script file it needs (see [`behavior_plan`]).
pub fn plan_behavior(path: &str, raw: RawModBehavior, mod_source: &str) -> (r: Result<BehaviorSource, String>)
    ensures
        plan_view(r) == behavior_plan(path@, raw.kind@, raw.name@, opt_view(raw.script), opt_view(raw.src), mod_source@),
{
    if !str_eq(raw.kind.as_str(), "behavior") {
        let mut e = String::from_str("expected kind=behavior, got `");
        e.append(raw.kind.as_str());
        e.append("`");
        return Err(e);
    }
    match (raw.script, raw.src) {
        (Some(body), None) => {
            let src = normalize_mod_path(mod_source, path);
            Ok(BehaviorSource::Inline(ModBehavior { name: raw.name, script: body, src: Some(src) }))
        },
        (None, Some(r)) => {
            let t = trim(r.as_str());
            let script_path = resolve_behavior_src_path(mod_source, path, t.as_str());
            Ok(BehaviorSource::External { name: raw.name, script_path })
        },
        (Some(_), Some(_)) => Err(String::from_str("expected exactly one of `script` or `src`")),
        (None, None) => Err(String::from_str("missing required `script` or `src` field")),
    }
}

/// The registry entry for a behavior whose script was read from `script_path`.
pub fn finish_external(name: String, script_path: &str, mod_source: &str, script: String) -> (r: ModBehavior)
    ensures
        r@ == (ModBehaviorView { name: name@, script: script@, src: Some(mod_path_name(mod_source@, script_path@)) }),
{
    ModBehavior { name, script, src: Some(normalize_mod_path(mod_source, script_path)) }
}

/// Whether a file name has a `.yml` or `.yaml` extension.
pub open spec fn is_yaml_name(file_name: Seq<char>) -> bool {
    ||| (file_name.len() > 4 && file_name.subrange(file_name.len() - 4, file_name.len() as int) == ".yml"@)
    ||| (file_name.len() > 5 && file_name.subrange(file_name.len() - 5, file_name.len() as int) == ".yaml"@)
}

impl Default for ModBehaviorRegistry {
    /// An empty registry.
    fn default() -> (r: Self)
        ensures
            r.view() == Map::<Seq<char>, ModBehaviorView>::empty(),
    {
        ModBehaviorRegistry::new()
    }
}


/// Whether a behavior file name has a `.yml` or `.yaml` extension (see [`is_yaml_name`]).
pub fn is_yaml_file_name(file_name: &str) -> (r: bool)
    ensures
        r == is_yaml_name(file_name@),
{
    let n = file_name.unicode_len();
    proof {
        reveal_strlit(".yml");
        reveal_strlit(".yaml");
    }
    let yml = n > 4 && str_eq(file_name.substring_char(n - 4, n), ".yml");
    let yaml = n > 5 && str_eq(file_name.substring_char(n - 5, n), ".yaml");
    yml || yaml
}

} // verus!

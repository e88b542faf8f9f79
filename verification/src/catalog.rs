//! Mod catalogs: prefab inheritance through `ref` (each prefab document is
//! deep-merged over the document it refers to, with cycle and missing-prefab
//! errors), and the plain catalog records of input profiles, waves and
//! component settings.

use vstd::prelude::*;
use vstd::string::StringExecFns;
use crate::doc::{
    copy_doc, doc_view, get_text, merge_docs, merge_view, remove_key, text_at, without_key, Doc,
    DocView,
};
use crate::text::str_eq;

verus! {

/// Named raw documents, by their views.
pub open spec fn named_view(raw: Seq<(String, Doc)>) -> Seq<(Seq<char>, DocView)> {
    raw.map_values(|e: (String, Doc)| (e.0@, doc_view(e.1)))
}

/// No two documents share a name.
pub open spec fn names_unique(raw: Seq<(Seq<char>, DocView)>) -> bool {
    forall|i: int, j: int| 0 <= i < j < raw.len() ==> raw[i].0 != raw[j].0
}

/// The document named `name`, if any.
pub open spec fn raw_lookup(raw: Seq<(Seq<char>, DocView)>, name: Seq<char>) -> Option<DocView> {
    if exists|i: int| 0 <= i < raw.len() && #[trigger] raw[i].0 == name {
        Some(raw[choose|i: int| 0 <= i < raw.len() && #[trigger] raw[i].0 == name].1)
    } else {
        None
    }
}

/// Some document is named `name`.
pub open spec fn raw_has(raw: Seq<(Seq<char>, DocView)>, name: Seq<char>) -> bool {
    exists|j: int| 0 <= j < raw.len() && #[trigger] raw[j].0 == name
}

/// Every name of `names` names a document.
pub open spec fn all_named(raw: Seq<(Seq<char>, DocView)>, names: Seq<Seq<char>>) -> bool {
    forall|i: int| 0 <= i < names.len() ==> raw_has(raw, #[trigger] names[i])
}

/// Names joined with `" -> "`.
pub open spec fn arrow_join(s: Seq<Seq<char>>) -> Seq<char>
    decreases s.len(),
{
    if s.len() == 0 {
        Seq::empty()
    } else if s.len() == 1 {
        s[0]
    } else {
        arrow_join(s.drop_last()) + " -> "@ + s.last()
    }
}

/// Error for a prefab reached again while its own inheritance is resolved.
pub open spec fn cycle_message(stack: Seq<Seq<char>>, name: Seq<char>) -> Seq<char> {
    let chain = arrow_join(stack);
    let chain = if chain.len() > 0 { chain + " -> "@ } else { chain };
    "Prefab inheritance cycle detected: "@ + chain + name
}

/// Error for a prefab name that no document has.
pub open spec fn missing_message(name: Seq<char>) -> Seq<char> {
    "Prefab '"@ + name + "' references missing prefab"@
}

/// The resolved document of prefab `name`, reached through the prefabs in
/// `stack`: a prefab whose document has a text `ref` is its own document
/// (without `ref`) deep-merged over the resolved referenced prefab.
pub open spec fn resolve_view(raw: Seq<(Seq<char>, DocView)>, name: Seq<char>, stack: Seq<Seq<char>>) -> Result<DocView, Seq<char>>
    decreases raw.len() - stack.len(),
{
    if stack.contains(name) {
        Err(cycle_message(stack, name))
    } else {
        match raw_lookup(raw, name) {
            None => Err(missing_message(name)),
            Some(v) => match text_at(v, "ref"@) {
                None => Ok(v),
                Some(base) => if stack.len() < raw.len() {
                    match resolve_view(raw, base, stack.push(name)) {
                        Ok(b) => Ok(merge_view(b, without_key(v, "ref"@))),
                        Err(e) => Err(e),
                    }
                } else {
                    Ok(v)
                },
            },
        }
    }
}

/// View of a resolution result.
pub open spec fn result_view(r: Result<Doc, String>) -> Result<DocView, Seq<char>> {
    match r {
        Ok(d) => Ok(doc_view(d)),
        Err(e) => Err(e@),
    }
}

/// Views of a list of names.
pub open spec fn names_view(s: Seq<String>) -> Seq<Seq<char>> {
    s.map_values(|x: String| x@)
}

/// A duplicate-free list of names of `raw`, plus one more such name not in it,
/// is shorter than `raw`.
pub proof fn lemma_stack_bound(raw: Seq<(Seq<char>, DocView)>, stack: Seq<Seq<char>>, name: Seq<char>)
    requires
        names_unique(raw),
        stack.no_duplicates(),
        all_named(raw, stack),
        raw_has(raw, name),
        !stack.contains(name),
    ensures
        stack.len() < raw.len(),
{
    let keys = raw.map_values(|e: (Seq<char>, DocView)| e.0);
    let all = stack.push(name);
    assert(all.no_duplicates()) by {
        assert forall|a: int, b: int| 0 <= a < all.len() && 0 <= b < all.len() && a != b implies all[a] != all[b] by {
            if b == stack.len() {
                assert(stack.contains(all[a]) || a == stack.len());
            } else if a == stack.len() {
                assert(stack.contains(all[b]));
            }
        }
    }
    assert(keys.no_duplicates());
    assert(all.to_set().subset_of(keys.to_set())) by {
        assert forall|x: Seq<char>| all.to_set().contains(x) implies keys.to_set().contains(x) by {
            let i = choose|i: int| 0 <= i < all.len() && all[i] == x;
            if i < stack.len() {
                assert(raw_has(raw, stack[i]));
                let j = choose|j: int| 0 <= j < raw.len() && #[trigger] raw[j].0 == stack[i];
                assert(keys[j] == x);
            } else {
                let j = choose|j: int| 0 <= j < raw.len() && #[trigger] raw[j].0 == name;
                assert(keys[j] == x);
            }
        }
    }
    all.unique_seq_to_set();
    keys.unique_seq_to_set();
    vstd::set_lib::lemma_len_subset(all.to_set(), keys.to_set());
}

/// Whether `name` is in `stack`.
fn stack_has(stack: &Vec<String>, name: &str) -> (r: bool)
    ensures
        r == names_view(stack@).contains(name@),
{
    let mut i: usize = 0;
    while i < stack.len()
        invariant
            i <= stack@.len(),
            forall|j: int| 0 <= j < i ==> stack@[j]@ != name@,
        decreases stack.len() - i,
    {
        if str_eq(stack[i].as_str(), name) {
            assert(names_view(stack@)[i as int] == name@);
            return true;
        }
        i = i + 1;
    }
    proof {
        if names_view(stack@).contains(name@) {
            let j = choose|j: int| 0 <= j < names_view(stack@).len() && names_view(stack@)[j] == name@;
            assert(stack@[j]@ == name@);
        }
    }
    false
}

/// The cycle error for `name` reached through `stack`.
fn cycle_error(stack: &Vec<String>, name: &str) -> (r: String)
    ensures
        r@ == cycle_message(names_view(stack@), name@),
{
    let ghost sv = names_view(stack@);
    let mut chain = String::new();
    let mut i: usize = 0;
    while i < stack.len()
        invariant
            sv == names_view(stack@),
            i <= stack@.len(),
            chain@ == arrow_join(sv.subrange(0, i as int)),
        decreases stack.len() - i,
    {
        if i > 0 {
            chain.append(" -> ");
        }
        chain.append(stack[i].as_str());
        proof {
            let next = sv.subrange(0, i + 1);
            assert(next.drop_last() =~= sv.subrange(0, i as int));
            if i == 0 {
                assert(arrow_join(sv.subrange(0, 0)) =~= Seq::<char>::empty());
                assert(chain@ =~= next[0]);
            }
        }
        i = i + 1;
    }
    assert(sv.subrange(0, stack@.len() as int) =~= sv);
    let mut msg = String::from_str("Prefab inheritance cycle detected: ");
    let ghost joined = chain@;
    if chain.unicode_len() > 0 {
        chain.append(" -> ");
    }
    msg.append(chain.as_str());
    msg.append(name);
    proof {
        let c2 = if joined.len() > 0 { joined + " -> "@ } else { joined };
        assert(msg@ =~= "Prefab inheritance cycle detected: "@ + c2 + name@);
    }
    msg
}

/// The error for a prefab name that no document has.
fn missing_error(name: &str) -> (r: String)
    ensures
        r@ == missing_message(name@),
{
    let mut msg = String::from_str("Prefab '");
    msg.append(name);
    msg.append("' references missing prefab");
    msg
}

/// Position of the document named `name`.
fn find_named(raw: &Vec<(String, Doc)>, name: &str) -> (r: Option<usize>)
    requires
        names_unique(named_view(raw@)),
    ensures
        match r {
            Some(i) => i < raw@.len() && raw@[i as int].0@ == name@
                && raw_lookup(named_view(raw@), name@) == Some(doc_view(raw@[i as int].1)),
            None => raw_lookup(named_view(raw@), name@) is None,
        },
{
    let ghost nv = named_view(raw@);
    let mut i: usize = 0;
    while i < raw.len()
        invariant
            nv == named_view(raw@),
            names_unique(nv),
            i <= raw@.len(),
            forall|j: int| 0 <= j < i ==> raw@[j].0@ != name@,
        decreases raw.len() - i,
    {
        if str_eq(raw[i].0.as_str(), name) {
            proof {
                assert(nv[i as int].0 == name@);
                let w = choose|w: int| 0 <= w < nv.len() && #[trigger] nv[w].0 == name@;
                assert(w == i as int);
            }
            return Some(i);
        }
        i = i + 1;
    }
    proof {
        if exists|w: int| 0 <= w < nv.len() && #[trigger] nv[w].0 == name@ {
            let w = choose|w: int| 0 <= w < nv.len() && #[trigger] nv[w].0 == name@;
            assert(raw@[w].0@ != name@);
        }
    }
    None
}

/// Resolves the inheritance of prefab `name` (see [`resolve_view`]); `stack`
/// holds the prefabs whose resolution is under way.
fn resolve_prefab_yaml(name: &str, raw: &Vec<(String, Doc)>, stack: &mut Vec<String>) -> (r: Result<Doc, String>)
    requires
        names_unique(named_view(raw@)),
        names_view(old(stack)@).no_duplicates(),
        all_named(named_view(raw@), names_view(old(stack)@)),
    ensures
        result_view(r) == resolve_view(named_view(raw@), name@, names_view(old(stack)@)),
        r is Ok ==> final(stack)@ == old(stack)@,
    decreases raw@.len() - old(stack)@.len(),
{
    let ghost nv = named_view(raw@);
    let ghost sv = names_view(stack@);
    if stack_has(stack, name) {
        return Err(cycle_error(stack, name));
    }
    let idx = match find_named(raw, name) {
        Some(i) => i,
        None => return Err(missing_error(name)),
    };
    let v = &raw[idx].1;
    match get_text(v, "ref") {
        None => Ok(copy_doc(v)),
        Some(base) => {
            proof {
                assert(nv[idx as int].0 == name@);
                lemma_stack_bound(nv, sv, name@);
            }
            stack.push(name.to_string());
            proof {
                assert(names_view(stack@) =~= sv.push(name@));
                assert forall|i: int| 0 <= i < sv.len() + 1 implies raw_has(nv, #[trigger] sv.push(name@)[i]) by {
                    if i == sv.len() {
                        assert(nv[idx as int].0 == sv.push(name@)[i]);
                    } else {
                        assert(sv.push(name@)[i] == sv[i]);
                    }
                }
                assert(sv.push(name@).no_duplicates()) by {
                    assert forall|a: int, b: int| 0 <= a < sv.len() + 1 && 0 <= b < sv.len() + 1 && a != b
                        implies sv.push(name@)[a] != sv.push(name@)[b] by {
                        if b == sv.len() {
                            assert(sv.contains(sv.push(name@)[a]) || a == sv.len());
                        } else if a == sv.len() {
                            assert(sv.contains(sv.push(name@)[b]));
                        }
                    }
                }
            }
            let b = match resolve_prefab_yaml(base.as_str(), raw, stack) {
                Ok(b) => b,
                Err(e) => return Err(e),
            };
            let overlay = remove_key(copy_doc(v), "ref");
            let merged = merge_docs(b, overlay);
            stack.pop();
            proof {
                assert(stack@ =~= old(stack)@);
            }
            Ok(merged)
        },
    }
}

/// Resolves every prefab of `raw`, in order: the resolved documents under their
/// names, or the error of the first prefab that cannot be resolved.
pub fn resolve_prefabs(raw: &Vec<(String, Doc)>) -> (r: Result<Vec<(String, Doc)>, String>)
    requires
        names_unique(named_view(raw@)),
    ensures
        match r {
            Ok(out) => {
                &&& out@.len() == raw@.len()
                &&& forall|i: int| 0 <= i < raw@.len() ==> {
                    &&& #[trigger] out@[i].0@ == raw@[i].0@
                    &&& resolve_view(named_view(raw@), raw@[i].0@, Seq::empty()) == Ok::<DocView, Seq<char>>(doc_view(out@[i].1))
                }
            },
            Err(e) => exists|i: int| 0 <= i < raw@.len() && {
                &&& resolve_view(named_view(raw@), #[trigger] raw@[i].0@, Seq::empty()) == Err::<DocView, Seq<char>>(e@)
                &&& forall|j: int| 0 <= j < i ==> #[trigger] resolve_view(named_view(raw@), raw@[j].0@, Seq::empty()) is Ok
            },
        },
{
    let mut out: Vec<(String, Doc)> = Vec::new();
    let mut i: usize = 0;
    while i < raw.len()
        invariant
            names_unique(named_view(raw@)),
            i <= raw@.len(),
            out@.len() == i,
            forall|t: int| 0 <= t < i ==> {
                &&& #[trigger] out@[t].0@ == raw@[t].0@
                &&& resolve_view(named_view(raw@), raw@[t].0@, Seq::empty()) == Ok::<DocView, Seq<char>>(doc_view(out@[t].1))
            },
        decreases raw.len() - i,
    {
        let mut stack: Vec<String> = Vec::new();
        proof {
            assert(names_view(stack@) =~= Seq::<Seq<char>>::empty());
        }
        match resolve_prefab_yaml(raw[i].0.as_str(), raw, &mut stack) {
            Ok(d) => {
                out.push((raw[i].0.clone(), d));
            },
            Err(e) => {
                proof {
                    assert forall|j: int| 0 <= j < i implies #[trigger] resolve_view(named_view(raw@), raw@[j].0@, Seq::empty()) is Ok by {
                        assert(out@[j].0@ == raw@[j].0@);
                    }
                }
                return Err(e);
            },
        }
        i = i + 1;
    }
    Ok(out)
}

/// How a prefab is attached to a reference frame.
pub struct ReferenceFrameComponent {
    pub mode: Option<String>,
    pub entity_id: Option<u64>,
    pub body_id: Option<String>,
    pub inherit_linear_velocity: Option<bool>,
    pub inherit_angular_velocity: Option<bool>,
}

impl Default for ReferenceFrameComponent {
    fn default() -> (r: Self)
        ensures
            r.mode is None,
            r.entity_id is None,
            r.body_id is None,
            r.inherit_linear_velocity is None,
            r.inherit_angular_velocity is None,
    {
        ReferenceFrameComponent {
            mode: None,
            entity_id: None,
            body_id: None,
            inherit_linear_velocity: None,
            inherit_angular_velocity: None,
        }
    }
}

/// Which celestial body, site, region, system or route a prefab is bound to.
pub struct CelestialBindingComponent {
    pub body_id: Option<String>,
    pub site_id: Option<String>,
    pub region_id: Option<String>,
    pub system_id: Option<String>,
    pub route_id: Option<String>,
    pub frame_mode: Option<String>,
}

impl Default for CelestialBindingComponent {
    fn default() -> (r: Self)
        ensures
            r.body_id is None,
            r.site_id is None,
            r.region_id is None,
            r.system_id is None,
            r.route_id is None,
            r.frame_mode is None,
    {
        CelestialBindingComponent {
            body_id: None,
            site_id: None,
            region_id: None,
            system_id: None,
            route_id: None,
            frame_mode: None,
        }
    }
}

/// Dynamic spawn generator: a prefab and the size for each range of spawn indices.
pub struct WaveTemplate {
    pub prefab: String,
    pub size_distribution: Vec<SizeDistribution>,
}

/// Size given to spawns whose index is at least `min_idx` and, when set, below `max_idx`.
pub struct SizeDistribution {
    pub min_idx: i64,
    pub max_idx: Option<i64>,
    pub size: i64,
}

} // verus!

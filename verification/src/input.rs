//! Key state as scripts query it: held and just-pressed key codes, and named
//! actions bound to lists of key codes. Each set of codes holds a code once.
//! Codes are compared as given: the engine's input-code normalisation (from a
//! crate not available here) is applied by whoever supplies them.

use vstd::prelude::*;
use crate::command::strings_view;
use crate::text::str_eq;

verus! {

/// Whether `code` is a non-empty code held in `set`.
pub open spec fn code_in(set: Set<Seq<char>>, code: Seq<char>) -> bool {
    code.len() > 0 && set.contains(code)
}

/// Whether some key bound to `action` (the first binding of that name) is held in `set`.
pub open spec fn action_in(bindings: Seq<(Seq<char>, Seq<Seq<char>>)>, set: Set<Seq<char>>, action: Seq<char>) -> bool {
    exists|i: int| 0 <= i < bindings.len() && #[trigger] bindings[i].0 == action
        && (forall|j: int| 0 <= j < i ==> #[trigger] bindings[j].0 != action)
        && exists|k: int| 0 <= k < bindings[i].1.len() && #[trigger] code_in(set, bindings[i].1[k])
}

/// Views of action bindings.
pub open spec fn bindings_view(b: Seq<(String, Vec<String>)>) -> Seq<(Seq<char>, Seq<Seq<char>>)> {
    b.map_values(|e: (String, Vec<String>)| (e.0@, strings_view(e.1@)))
}

/// The key state of one frame.
pub struct InputState {
    /// Codes held down, each once.
    keys_down: Vec<String>,
    /// Codes pressed since the previous frame, each once.
    keys_just_pressed: Vec<String>,
    /// Action name and the codes bound to it; lookups use the first binding
    /// of a name.
    action_bindings: Vec<(String, Vec<String>)>,
}

fn contains_code(set: &Vec<String>, code: &str) -> (r: bool)
    ensures
        r == strings_view(set@).contains(code@),
{
    let mut i: usize = 0;
    while i < set.len()
        invariant
            i <= set@.len(),
            forall|j: int| 0 <= j < i ==> set@[j]@ != code@,
        decreases set.len() - i,
    {
        if str_eq(set[i].as_str(), code) {
            assert(strings_view(set@)[i as int] == code@);
            return true;
        }
        i = i + 1;
    }
    proof {
        if strings_view(set@).contains(code@) {
            let j = choose|j: int| 0 <= j < strings_view(set@).len() && strings_view(set@)[j] == code@;
            assert(set@[j]@ == code@);
        }
    }
    false
}

fn has_code(set: &Vec<String>, code: &str) -> (r: bool)
    ensures
        r == code_in(strings_view(set@).to_set(), code@),
{
    if code.unicode_len() == 0 {
        return false;
    }
    contains_code(set, code)
}

/// The codes of `s` with `c` added are those of `s` and `c`.
proof fn lemma_push_to_set(s: Seq<Seq<char>>, c: Seq<char>)
    ensures
        s.push(c).to_set() == s.to_set().insert(c),
{
    assert forall|x: Seq<char>| s.push(c).contains(x) <==> (s.contains(x) || x == c) by {
        if s.push(c).contains(x) {
            let k = choose|k: int| 0 <= k < s.push(c).len() && s.push(c)[k] == x;
            if k < s.len() {
                assert(s[k] == x);
            }
        }
        if s.contains(x) {
            let k = choose|k: int| 0 <= k < s.len() && s[k] == x;
            assert(s.push(c)[k] == x);
        }
        if x == c {
            assert(s.push(c)[s.len() as int] == x);
        }
    }
    assert forall|x: Seq<char>| #[trigger] s.push(c).to_set().contains(x) == s.to_set().insert(c).contains(x) by {
        assert(s.push(c).to_set().contains(x) == s.push(c).contains(x));
        assert(s.to_set().contains(x) == s.contains(x));
    }
    assert(s.push(c).to_set() =~= s.to_set().insert(c));
}

/// The codes of `codes`, each once, in order of first occurrence.
fn distinct_codes(codes: Vec<String>) -> (r: Vec<String>)
    ensures
        strings_view(r@).no_duplicates(),
        strings_view(r@).to_set() == strings_view(codes@).to_set(),
{
    let mut out: Vec<String> = Vec::new();
    let mut i: usize = 0;
    while i < codes.len()
        invariant
            i <= codes@.len(),
            strings_view(out@).no_duplicates(),
            strings_view(out@).to_set() == strings_view(codes@.subrange(0, i as int)).to_set(),
        decreases codes.len() - i,
    {
        let ghost before = strings_view(out@);
        let ghost c = codes@[i as int]@;
        let ghost seen = strings_view(codes@.subrange(0, i as int));
        proof {
            assert(strings_view(codes@.subrange(0, i + 1)) =~= seen.push(c));
            lemma_push_to_set(seen, c);
        }
        if !contains_code(&out, codes[i].as_str()) {
            out.push(codes[i].clone());
            proof {
                assert(strings_view(out@) =~= before.push(c));
                lemma_push_to_set(before, c);
                assert forall|a: int, b: int| 0 <= a < strings_view(out@).len() && 0 <= b < strings_view(out@).len() && a != b
                    implies strings_view(out@)[a] != strings_view(out@)[b] by {
                    if a == before.len() {
                        assert(before.contains(before[b]));
                    } else if b == before.len() {
                        assert(before.contains(before[a]));
                    }
                }
            }
        } else {
            proof {
                assert(before.to_set().contains(c));
                assert(seen.to_set().insert(c) =~= seen.to_set());
            }
        }
        i = i + 1;
    }
    assert(codes@.subrange(0, codes@.len() as int) =~= codes@);
    out
}

fn any_code(set: &Vec<String>, codes: &Vec<String>) -> (r: bool)
    ensures
        r == exists|k: int| 0 <= k < codes@.len() && #[trigger] code_in(strings_view(set@).to_set(), strings_view(codes@)[k]),
{
    let mut k: usize = 0;
    while k < codes.len()
        invariant
            k <= codes@.len(),
            forall|t: int| 0 <= t < k ==> !#[trigger] code_in(strings_view(set@).to_set(), strings_view(codes@)[t]),
        decreases codes.len() - k,
    {
        if has_code(set, codes[k].as_str()) {
            assert(code_in(strings_view(set@).to_set(), strings_view(codes@)[k as int]));
            return true;
        }
        k = k + 1;
    }
    false
}

impl InputState {
    /// Each set of codes holds a code once.
    #[verifier::type_invariant]
    spec fn codes_distinct(&self) -> bool {
        &&& strings_view(self.keys_down@).no_duplicates()
        &&& strings_view(self.keys_just_pressed@).no_duplicates()
    }

    /// Codes held down.
    pub closed spec fn down_set(&self) -> Set<Seq<char>> {
        strings_view(self.keys_down@).to_set()
    }

    /// Codes pressed since the previous frame.
    pub closed spec fn pressed_set(&self) -> Set<Seq<char>> {
        strings_view(self.keys_just_pressed@).to_set()
    }

    /// Action bindings, in order.
    pub closed spec fn bindings(&self) -> Seq<(Seq<char>, Seq<Seq<char>>)> {
        bindings_view(self.action_bindings@)
    }

    /// The key state holding the codes of `keys_down` and `keys_just_pressed`
    /// (a code given twice is held once) and the given action bindings.
    pub fn new(
        keys_down: Vec<String>,
        keys_just_pressed: Vec<String>,
        action_bindings: Vec<(String, Vec<String>)>,
    ) -> (r: Self)
        ensures
            r.down_set() == strings_view(keys_down@).to_set(),
            r.pressed_set() == strings_view(keys_just_pressed@).to_set(),
            r.bindings() == bindings_view(action_bindings@),
    {
        let keys_down = distinct_codes(keys_down);
        let keys_just_pressed = distinct_codes(keys_just_pressed);
        InputState { keys_down, keys_just_pressed, action_bindings }
    }

    fn action_held(&self, set: &Vec<String>, action: &str) -> (r: bool)
        ensures
            r == action_in(self.bindings(), strings_view(set@).to_set(), action@),
    {
        let ghost bv = bindings_view(self.action_bindings@);
        let ghost st = strings_view(set@).to_set();
        let mut i: usize = 0;
        while i < self.action_bindings.len()
            invariant
                bv == bindings_view(self.action_bindings@),
                st == strings_view(set@).to_set(),
                i <= self.action_bindings@.len(),
                forall|j: int| 0 <= j < i ==> #[trigger] bv[j].0 != action@,
            decreases self.action_bindings.len() - i,
        {
            if str_eq(self.action_bindings[i].0.as_str(), action) {
                let r = any_code(set, &self.action_bindings[i].1);
                proof {
                    assert(bv[i as int].0 == action@);
                    assert(bv[i as int].1 == strings_view(self.action_bindings@[i as int].1@));
                    if r {
                        let k = choose|k: int| 0 <= k < self.action_bindings@[i as int].1@.len()
                            && #[trigger] code_in(st, strings_view(self.action_bindings@[i as int].1@)[k]);
                        assert(code_in(st, bv[i as int].1[k]));
                    }
                    if action_in(bv, st, action@) {
                        let w = choose|w: int| 0 <= w < bv.len() && #[trigger] bv[w].0 == action@
                            && (forall|j: int| 0 <= j < w ==> #[trigger] bv[j].0 != action@)
                            && exists|k: int| 0 <= k < bv[w].1.len() && #[trigger] code_in(st, bv[w].1[k]);
                        if w < i {
                            assert(bv[w].0 != action@);
                        } else if w > i {
                            assert(bv[i as int].0 != action@);
                        }
                    }
                }
                return r;
            }
            i = i + 1;
        }
        false
    }

    /// Whether key `code` is held.
    pub fn down(&self, code: &str) -> (r: bool)
        ensures
            r == code_in(self.down_set(), code@),
    {
        has_code(&self.keys_down, code)
    }

    /// Whether key `code` was pressed this frame.
    pub fn just_pressed(&self, code: &str) -> (r: bool)
        ensures
            r == code_in(self.pressed_set(), code@),
    {
        has_code(&self.keys_just_pressed, code)
    }

    /// Whether any key is held.
    pub fn any_down(&self) -> (r: bool)
        ensures
            r == (self.down_set().len() > 0),
    {
        proof {
            use_type_invariant(self);
            strings_view(self.keys_down@).unique_seq_to_set();
        }
        self.keys_down.len() > 0
    }

    /// How many distinct keys are held.
    pub fn down_count(&self) -> (r: usize)
        ensures
            r == self.down_set().len(),
    {
        proof {
            use_type_invariant(self);
            strings_view(self.keys_down@).unique_seq_to_set();
        }
        self.keys_down.len()
    }

    /// Whether a key bound to `action` is held.
    pub fn action_down(&self, action: &str) -> (r: bool)
        ensures
            r == action_in(self.bindings(), self.down_set(), action@),
    {
        self.action_held(&self.keys_down, action)
    }

    /// Whether a key bound to `action` was pressed this frame.
    pub fn action_just_pressed(&self, action: &str) -> (r: bool)
        ensures
            r == action_in(self.bindings(), self.pressed_set(), action@),
    {
        self.action_held(&self.keys_just_pressed, action)
    }
}

} // verus!

//! The frame protocol of a scripted behavior. A script that failed to compile
//! is reported once, as a script error, and never run; a run that fails is
//! reported; a run that returns a value may replace the behavior's state and
//! yields the commands of its command list, then those its services queued.

use vstd::prelude::*;
use vstd::string::StringExecFns;
use crate::command::{appended, clone_opt, opt_view, BehaviorCommand, CommandView};
use crate::doc::{doc_view, Doc, DocView};
use crate::params::{same_params, BehaviorParams};
use crate::script_output::{apply_script_commands, commands_view, entries_commands, ScriptCommandFields};
use crate::menu::{alias_for, item_alias_seq};
use crate::command::strings_view;
use crate::text::{contains_seq, str_contains};

verus! {

/// The digest that std's default hasher, freshly made, gives a text.
pub uninterp spec fn text_digest(s: Seq<char>) -> u64;

/// Trusted wrapper around `BuildHasher::hash_one` with the default hasher
/// (`DefaultHasher::new()`, fixed keys): hashing the text once and finishing.
/// The contract only names the result as a function of the text; std leaves
/// the algorithm unspecified.
#[verifier::external_body]
fn default_hash_text(s: &str) -> (r: u64)
    ensures
        r == text_digest(s@),
{
    std::hash::BuildHasher::hash_one(&std::hash::BuildHasherDefault::<std::collections::hash_map::DefaultHasher>::default(), s)
}

/// Key under which a script's compiled form is cached.
pub fn script_hash(script: &str) -> (r: u64)
    ensures
        r == text_digest(script@),
{
    default_hash_text(script)
}

/// Expression nesting depth the script parser accepts, at global level and in
/// functions alike.
pub const MAX_EXPR_DEPTH: usize = 128;

/// The message Rhai's compiler gives for `script` under the expression depth
/// limit `max_expr_depth`, or none when the script compiles.
pub uninterp spec fn rhai_compile_failure(script: Seq<char>, max_expr_depth: usize) -> Option<Seq<char>>;

/// Trusted wrapper around `rhai::Engine::compile`, on a fresh engine whose
/// expression depth limits (global and in functions) are `max_expr_depth`: the
/// parse error's display text when the script does not compile, none when it
/// does. The contract names the result as a function of the script and the
/// limit; the compiled tree is not kept. The limit must be positive (Rhai reads
/// 0 as "no limit", and the parser then recurses without bound) and at most
/// [`MAX_EXPR_DEPTH`].
#[verifier::external_body]
fn compile_failure_of(script: &str, max_expr_depth: usize) -> (r: Option<String>)
    requires
        0 < max_expr_depth <= MAX_EXPR_DEPTH,
    ensures
        opt_view(r) == rhai_compile_failure(script@, max_expr_depth),
{
    let mut engine = rhai::Engine::new();
    engine.set_max_expr_depths(max_expr_depth, max_expr_depth);
    match engine.compile(script) {
        Ok(_) => None,
        Err(e) => Some(format!("{}", e)),
    }
}

/// How a run of the script ended.
pub enum ScriptOutcome {
    /// The script raised an error with this message.
    Failed(String),
    /// The script returned a value.
    Returned {
        /// The `state` field of a returned record, when it has one.
        state: Option<Doc>,
        /// The entries of the returned command list (empty when there is none).
        entries: Vec<Option<ScriptCommandFields>>,
        /// Commands the script's services queued during the run.
        queued: Vec<BehaviorCommand>,
    },
}

/// Text of the error reported for a script that does not compile.
pub open spec fn compile_message(err: Seq<char>) -> Seq<char> {
    "compile error: "@ + err
}

/// The compile stage of validating a script before it is used: an error with
/// the compile error message when the script does not compile under the
/// behavior engine's limits.
pub fn validate_script_compiles(script: &str) -> (r: Result<(), String>)
    ensures
        match rhai_compile_failure(script@, MAX_EXPR_DEPTH) {
            Some(e) => r matches Err(m) && m@ == compile_message(e),
            None => r is Ok,
        },
{
    match compile_failure_of(script, MAX_EXPR_DEPTH) {
        Some(err) => {
            let mut message = String::from_str("compile error: ");
            message.append(err.as_str());
            Err(message)
        },
        None => Ok(()),
    }
}

/// A behavior driven by a script.
pub struct RhaiScriptBehavior {
    params: BehaviorParams,
    state: Doc,
    compile_failure: Option<String>,
    compile_error_reported: bool,
    behavior_id: usize,
}

impl RhaiScriptBehavior {
    /// The script's source text.
    pub closed spec fn script_spec(&self) -> Option<Seq<char>> {
        opt_view(self.params.script)
    }

    /// The parameters the behavior was made with.
    pub closed spec fn params_spec(&self) -> BehaviorParams {
        self.params
    }

    /// Where the script came from.
    pub closed spec fn src_spec(&self) -> Option<Seq<char>> {
        opt_view(self.params.src)
    }

    /// The state scripts carry from frame to frame.
    pub closed spec fn state_spec(&self) -> DocView {
        doc_view(self.state)
    }

    /// The compiler's message for a script that does not compile.
    pub closed spec fn compile_error_spec(&self) -> Option<Seq<char>> {
        opt_view(self.compile_failure)
    }

    /// Whether the compile error has been reported.
    pub closed spec fn reported_spec(&self) -> bool {
        self.compile_error_reported
    }

    /// Identity of the behavior's script scope.
    pub closed spec fn id_spec(&self) -> usize {
        self.behavior_id
    }

    /// A behavior for `params` whose script has been compiled: `compile_failure`
    /// is the compiler's message for `params.script` when it does not compile;
    /// it is ignored without a script. The state starts as an empty record.
    pub fn from_compiled(params: &BehaviorParams, compile_failure: Option<String>, behavior_id: usize) -> (r: Self)
        ensures
            same_params(r.params_spec(), *params),
            r.script_spec() == opt_view(params.script),
            r.src_spec() == opt_view(params.src),
            r.state_spec() == DocView::Mapping(Seq::empty()),
            r.compile_error_spec() == if params.script is Some { opt_view(compile_failure) } else { None },
            !r.reported_spec(),
            r.id_spec() == behavior_id,
    {
        let compile_failure = match &params.script {
            Some(_) => compile_failure,
            None => None,
        };
        let r = RhaiScriptBehavior {
            params: params.duplicate(),
            state: Doc::Mapping(Vec::new()),
            compile_failure,
            compile_error_reported: false,
            behavior_id,
        };
        assert(crate::doc::entries_view(Seq::<(crate::doc::DocKey, Doc)>::empty()) =~= Seq::empty());
        r
    }

    /// A behavior for `params`: its script, if any, is compiled with the
    /// expression depth limit [`MAX_EXPR_DEPTH`], and the compiler's message is
    /// kept when it does not compile. The state starts as an empty record.
    pub fn from_params(params: &BehaviorParams, behavior_id: usize) -> (r: Self)
        ensures
            same_params(r.params_spec(), *params),
            r.script_spec() == opt_view(params.script),
            r.src_spec() == opt_view(params.src),
            r.state_spec() == DocView::Mapping(Seq::empty()),
            r.compile_error_spec() == match params.script {
                Some(s) => rhai_compile_failure(s@, MAX_EXPR_DEPTH),
                None => None,
            },
            !r.reported_spec(),
            r.id_spec() == behavior_id,
    {
        let compile_failure = match &params.script {
            Some(s) => compile_failure_of(s.as_str(), MAX_EXPR_DEPTH),
            None => None,
        };
        Self::from_compiled(params, compile_failure, behavior_id)
    }

    /// The parameters the behavior was made with.
    pub fn params(&self) -> (r: &BehaviorParams)
        ensures
            *r == self.params_spec(),
            opt_view(r.script) == self.script_spec(),
            opt_view(r.src) == self.src_spec(),
    {
        &self.params
    }

    /// The state carried between frames.
    pub fn state(&self) -> (r: &Doc)
        ensures
            doc_view(*r) == self.state_spec(),
    {
        &self.state
    }

    /// The compiler's message for a script that does not compile.
    pub fn compile_failure(&self) -> (r: Option<String>)
        ensures
            opt_view(r) == self.compile_error_spec(),
    {
        clone_opt(&self.compile_failure)
    }

    /// Identity of the behavior's script scope.
    pub fn behavior_id(&self) -> (r: usize)
        ensures
            r == self.id_spec(),
    {
        self.behavior_id
    }

    /// Whether the script reads screen regions (it mentions `regions`).
    pub fn needs_regions(&self) -> (r: bool)
        ensures
            r == match self.script_spec() {
                Some(s) => contains_seq(s, "regions"@),
                None => false,
            },
    {
        match &self.params.script {
            Some(s) => str_contains(s.as_str(), "regions"),
            None => false,
        }
    }

    /// Starts a frame: whether to run the script. A compile error is reported
    /// on the first frame only, and the script never runs; without a script
    /// nothing runs.
    pub fn begin_frame(&mut self, scene_id: &str, commands: &mut Vec<BehaviorCommand>) -> (run: bool)
        ensures
            final(self).params_spec() == old(self).params_spec(),
            final(self).script_spec() == old(self).script_spec(),
            final(self).src_spec() == old(self).src_spec(),
            final(self).state_spec() == old(self).state_spec(),
            final(self).compile_error_spec() == old(self).compile_error_spec(),
            final(self).id_spec() == old(self).id_spec(),
            match old(self).compile_error_spec() {
                Some(e) => {
                    &&& !run
                    &&& final(self).reported_spec()
                    &&& if old(self).reported_spec() {
                        final(commands)@ == old(commands)@
                    } else {
                        appended(old(commands)@, final(commands)@, CommandView::ScriptError {
                            scene_id: scene_id@,
                            source: old(self).src_spec(),
                            message: compile_message(e),
                        })
                    }
                },
                None => {
                    &&& run == old(self).script_spec() is Some
                    &&& final(self).reported_spec() == old(self).reported_spec()
                    &&& final(commands)@ == old(commands)@
                },
            },
    {
        match &self.compile_failure {
            Some(err) => {
                if !self.compile_error_reported {
                    let mut message = String::from_str("compile error: ");
                    message.append(err.as_str());
                    commands.push(BehaviorCommand::ScriptError {
                        scene_id: String::from_str(scene_id),
                        source: clone_opt(&self.params.src),
                        message,
                    });
                    assert(final(commands)@.subrange(0, old(commands)@.len() as int) =~= old(commands)@);
                    self.compile_error_reported = true;
                }
                false
            },
            None => self.params.script.is_some(),
        }
    }

    /// Ends a frame with the outcome of the run: a failure is reported as a
    /// script error; a returned value replaces the state when it carries one,
    /// then the commands of its command list are appended, then those queued
    /// by the script's services.
    pub fn finish_frame(&mut self, scene_id: &str, outcome: ScriptOutcome, commands: &mut Vec<BehaviorCommand>)
        ensures
            final(self).params_spec() == old(self).params_spec(),
            final(self).script_spec() == old(self).script_spec(),
            final(self).src_spec() == old(self).src_spec(),
            final(self).compile_error_spec() == old(self).compile_error_spec(),
            final(self).reported_spec() == old(self).reported_spec(),
            final(self).id_spec() == old(self).id_spec(),
            match outcome {
                ScriptOutcome::Failed(m) => {
                    &&& final(self).state_spec() == old(self).state_spec()
                    &&& appended(old(commands)@, final(commands)@, CommandView::ScriptError {
                        scene_id: scene_id@,
                        source: old(self).src_spec(),
                        message: m@,
                    })
                },
                ScriptOutcome::Returned { state, entries, queued } => {
                    &&& final(self).state_spec() == match state {
                        Some(d) => doc_view(d),
                        None => old(self).state_spec(),
                    }
                    &&& commands_view(final(commands)@) == commands_view(old(commands)@)
                        + entries_commands(entries@) + commands_view(queued@)
                },
            },
    {
        match outcome {
            ScriptOutcome::Failed(message) => {
                commands.push(BehaviorCommand::ScriptError {
                    scene_id: String::from_str(scene_id),
                    source: clone_opt(&self.params.src),
                    message,
                });
                assert(final(commands)@.subrange(0, old(commands)@.len() as int) =~= old(commands)@);
            },
            ScriptOutcome::Returned { state, entries, queued } => {
                match state {
                    Some(d) => {
                        self.state = d;
                    },
                    None => {},
                }
                apply_script_commands(&entries, commands);
                let ghost mid = commands@;
                let mut rest = queued;
                let ghost all = rest@;
                let mut i: usize = 0;
                let n = rest.len();
                let mut moved: Vec<BehaviorCommand> = Vec::new();
                proof {
                    assert(commands_view(moved@) =~= Seq::<CommandView>::empty());
                }
                while i < n
                    invariant
                        n == all.len(),
                        i <= n,
                        rest@ == all.skip(i as int),
                        commands_view(commands@) == commands_view(mid) + commands_view(all.take(i as int)),
                    decreases n - i,
                {
                    let c = rest.remove(0);
                    let ghost before = commands@;
                    commands.push(c);
                    proof {
                        assert(c == all[i as int]);
                        assert(rest@ =~= all.skip(i + 1));
                        assert(commands_view(commands@) =~= commands_view(before).push(c@));
                        assert(commands_view(all.take(i + 1)) =~= commands_view(all.take(i as int)).push(c@));
                    }
                    i = i + 1;
                }
                assert(all.take(n as int) =~= all);
            },
        }
    }
}


/// The message of the first script error among `commands`, if any.
pub open spec fn first_error_message(commands: Seq<CommandView>) -> Option<Seq<char>>
    decreases commands.len(),
{
    if commands.len() == 0 {
        None
    } else {
        match commands[0] {
            CommandView::ScriptError { message, .. } => Some(message),
            _ => first_error_message(commands.drop_first()),
        }
    }
}

/// The message of the first script error among `commands` (see [`first_error_message`]).
pub fn first_script_error(commands: &Vec<BehaviorCommand>) -> (r: Option<String>)
    ensures
        opt_view(r) == first_error_message(commands_view(commands@)),
{
    let ghost cv = commands_view(commands@);
    let mut i: usize = 0;
    assert(cv.skip(0) =~= cv);
    while i < commands.len()
        invariant
            cv == commands_view(commands@),
            i <= commands@.len(),
            first_error_message(cv) == first_error_message(cv.skip(i as int)),
        decreases commands.len() - i,
    {
        proof {
            assert(cv.skip(i as int)[0] == commands@[i as int]@);
            assert(cv.skip(i as int).drop_first() =~= cv.skip(i + 1));
        }
        match &commands[i] {
            BehaviorCommand::ScriptError { message, .. } => {
                return Some(message.clone());
            },
            _ => {},
        }
        i = i + 1;
    }
    assert(cv.skip(commands@.len() as int) =~= Seq::<CommandView>::empty());
    None
}


/// Names whose regions a script sees besides the scene's objects: the
/// configured target, then the alias of each of `total` menu items (the count
/// when one is configured, else the scene's option count; the prefix defaults
/// to `menu-item-`).
pub open spec fn region_names(target: Option<Seq<char>>, prefix: Option<Seq<char>>, total: usize) -> Seq<Seq<char>> {
    let p = match prefix { Some(p) => p, None => "menu-item-"@ };
    let head = match target { Some(t) => seq![t], None => Seq::empty() };
    head + Seq::new(total as nat, |i: int| item_alias_seq(p, i as usize))
}

/// The names of the regions to look up for a script (see [`region_names`]).
pub fn region_lookup_names(params: &BehaviorParams, menu_len: usize) -> (r: Vec<String>)
    ensures
        strings_view(r@) == region_names(
            opt_view(params.target),
            opt_view(params.item_prefix),
            match params.count { Some(c) => c, None => menu_len },
        ),
{
    let total = match params.count {
        Some(c) => c,
        None => menu_len,
    };
    let prefix: &str = match &params.item_prefix {
        Some(p) => p.as_str(),
        None => "menu-item-",
    };
    let mut out: Vec<String> = Vec::new();
    match &params.target {
        Some(t) => out.push(t.clone()),
        None => {},
    }
    let ghost head = strings_view(out@);
    let ghost p = match opt_view(params.item_prefix) { Some(p) => p, None => "menu-item-"@ };
    assert(prefix@ == p);
    let mut i: usize = 0;
    while i < total
        invariant
            i <= total,
            prefix@ == p,
            strings_view(out@) == head + Seq::new(i as nat, |k: int| item_alias_seq(p, k as usize)),
        decreases total - i,
    {
        let ghost before = out@;
        out.push(alias_for(prefix, i));
        proof {
            assert(strings_view(out@) =~= strings_view(before).push(item_alias_seq(p, i)));
            assert(Seq::new((i + 1) as nat, |k: int| item_alias_seq(p, k as usize))
                =~= Seq::new(i as nat, |k: int| item_alias_seq(p, k as usize)).push(item_alias_seq(p, i)));
        }
        i = i + 1;
    }
    proof {
        let t = opt_view(params.target);
        assert(head == match t { Some(x) => seq![x], None => Seq::<Seq<char>>::empty() }) by {
            assert(strings_view(Seq::<String>::empty()) =~= Seq::<Seq<char>>::empty());
            if params.target is Some {
                assert(strings_view(seq![params.target.unwrap()]) =~= seq![params.target.unwrap()@]);
            }
        }
    }
    out
}

} // verus!

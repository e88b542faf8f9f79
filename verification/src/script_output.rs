//! The command list a behavior script returns: each entry names an operation
//! (`visibility`, `offset`, `set-text`, `set-props`, `set`, `transition`) and
//! its fields; well-formed entries become behavior commands, the others are
//! skipped.

use vstd::prelude::*;
use crate::command::{opt_view, BehaviorCommand, CommandView};
use crate::doc::{copy_doc, doc_view, Doc, DocView};
use crate::text::{str_eq, trim, trim_seq};

verus! {

/// The fields of one entry of a script's command list, each present when the
/// entry holds it with the expected type (text, flag or integer).
pub struct ScriptCommandFields {
    pub op: Option<String>,
    pub target: Option<String>,
    pub visible: Option<bool>,
    pub dx: Option<i64>,
    pub dy: Option<i64>,
    pub text: Option<String>,
    pub path: Option<String>,
    /// The `value` field as a document, when it has one.
    pub value: Option<Doc>,
    pub to_scene_id: Option<String>,
}

/// Integer field narrowed to 32 bits, as the runtime stores offsets.
pub open spec fn narrow(o: Option<i64>) -> Option<i32> {
    match o {
        Some(v) => Some(v as i32),
        None => None,
    }
}

/// The command an entry stands for, if it is well formed. The path of a `set`
/// entry is kept as the script wrote it; the engine's set-path normalisation
/// (which turns `props.position.y` into `position.y`) is not applied here.
pub open spec fn entry_command(e: ScriptCommandFields) -> Option<CommandView> {
    let op = match e.op { Some(s) => s@, None => Seq::empty() };
    if op == "visibility"@ {
        match (e.target, e.visible) {
            (Some(t), Some(v)) => Some(CommandView::SetVisibility { target: t@, visible: v }),
            _ => None,
        }
    } else if op == "offset"@ {
        match e.target {
            Some(t) => Some(CommandView::SetOffset {
                target: t@,
                dx: match e.dx { Some(v) => v as i32, None => 0i32 },
                dy: match e.dy { Some(v) => v as i32, None => 0i32 },
            }),
            None => None,
        }
    } else if op == "set-text"@ {
        match (e.target, e.text) {
            (Some(t), Some(x)) => Some(CommandView::SetText { target: t@, text: x@ }),
            _ => None,
        }
    } else if op == "set-props"@ {
        match e.target {
            Some(t) => if e.visible is None && e.dx is None && e.dy is None && e.text is None {
                None
            } else {
                Some(CommandView::SetProps {
                    target: t@,
                    visible: e.visible,
                    dx: narrow(e.dx),
                    dy: narrow(e.dy),
                    text: opt_view(e.text),
                })
            },
            None => None,
        }
    } else if op == "set"@ {
        match (e.target, e.path, e.value) {
            (Some(t), Some(p), Some(v)) => Some(CommandView::SetProperty { target: t@, path: p@, value: doc_view(v) }),
            _ => None,
        }
    } else if op == "transition"@ {
        match e.to_scene_id {
            Some(s) => if trim_seq(s@).len() > 0 {
                Some(CommandView::SceneTransition { to_scene_id: s@ })
            } else {
                None
            },
            None => None,
        }
    } else {
        None
    }
}

/// The commands a list of entries stands for, in order (entries that are not
/// records, `None`, stand for nothing).
pub open spec fn entries_commands(es: Seq<Option<ScriptCommandFields>>) -> Seq<CommandView>
    decreases es.len(),
{
    if es.len() == 0 {
        Seq::empty()
    } else {
        let rest = entries_commands(es.drop_last());
        match es.last() {
            Some(e) => match entry_command(e) {
                Some(c) => rest.push(c),
                None => rest,
            },
            None => rest,
        }
    }
}

/// Views of a command list.
pub open spec fn commands_view(s: Seq<BehaviorCommand>) -> Seq<CommandView> {
    s.map_values(|c: BehaviorCommand| c@)
}

fn copy_opt(o: &Option<String>) -> (r: Option<String>)
    ensures
        opt_view(r) == opt_view(*o),
        r is Some == o is Some,
{
    match o {
        Some(s) => Some(s.clone()),
        None => None,
    }
}

/// The command for one entry (see [`entry_command`]).
pub fn entry_to_command(e: &ScriptCommandFields) -> (r: Option<BehaviorCommand>)
    ensures
        match r {
            Some(c) => entry_command(*e) == Some(c@),
            None => entry_command(*e) is None,
        },
{
    let op: &str = match &e.op {
        Some(s) => s.as_str(),
        None => "",
    };
    proof {
        reveal_strlit("");
        reveal_strlit("visibility");
        reveal_strlit("offset");
        reveal_strlit("set-text");
        reveal_strlit("set-props");
        reveal_strlit("set");
        reveal_strlit("transition");
    }
    let ghost opv = match e.op { Some(ref s) => s@, None => Seq::<char>::empty() };
    assert(op@ == opv);
    if str_eq(op, "visibility") {
        match (&e.target, &e.visible) {
            (Some(t), Some(v)) => Some(BehaviorCommand::SetVisibility { target: t.clone(), visible: *v }),
            _ => None,
        }
    } else if str_eq(op, "offset") {
        match &e.target {
            Some(t) => {
                let dx: i32 = match e.dx { Some(v) => v as i32, None => 0 };
                let dy: i32 = match e.dy { Some(v) => v as i32, None => 0 };
                Some(BehaviorCommand::SetOffset { target: t.clone(), dx, dy })
            },
            None => None,
        }
    } else if str_eq(op, "set-text") {
        match (&e.target, &e.text) {
            (Some(t), Some(x)) => Some(BehaviorCommand::SetText { target: t.clone(), text: x.clone() }),
            _ => None,
        }
    } else if str_eq(op, "set-props") {
        match &e.target {
            Some(t) => {
                if e.visible.is_none() && e.dx.is_none() && e.dy.is_none() && e.text.is_none() {
                    None
                } else {
                    let dx: Option<i32> = match e.dx { Some(v) => Some(v as i32), None => None };
                    let dy: Option<i32> = match e.dy { Some(v) => Some(v as i32), None => None };
                    Some(BehaviorCommand::SetProps {
                        target: t.clone(),
                        visible: e.visible,
                        dx,
                        dy,
                        text: copy_opt(&e.text),
                    })
                }
            },
            None => None,
        }
    } else if str_eq(op, "set") {
        match (&e.target, &e.path, &e.value) {
            (Some(t), Some(p), Some(v)) => Some(BehaviorCommand::SetProperty {
                target: t.clone(),
                path: p.clone(),
                value: copy_doc(v),
            }),
            _ => None,
        }
    } else if str_eq(op, "transition") {
        match &e.to_scene_id {
            Some(s) => {
                let trimmed = trim(s.as_str());
                if trimmed.unicode_len() > 0 {
                    Some(BehaviorCommand::SceneTransition { to_scene_id: s.clone() })
                } else {
                    None
                }
            },
            None => None,
        }
    } else {
        None
    }
}

/// Appends the commands that the entries of a script's command list stand
/// for, in order, skipping entries that are not well formed.
pub fn apply_script_commands(entries: &Vec<Option<ScriptCommandFields>>, commands: &mut Vec<BehaviorCommand>)
    ensures
        commands_view(final(commands)@) == commands_view(old(commands)@) + entries_commands(entries@),
{
    let mut i: usize = 0;
    while i < entries.len()
        invariant
            i <= entries@.len(),
            commands_view(commands@) == commands_view(old(commands)@) + entries_commands(entries@.subrange(0, i as int)),
        decreases entries.len() - i,
    {
        let ghost before = commands@;
        proof {
            assert(entries@.subrange(0, i + 1).drop_last() =~= entries@.subrange(0, i as int));
        }
        match &entries[i] {
            Some(e) => match entry_to_command(e) {
                Some(c) => {
                    commands.push(c);
                    assert(commands_view(commands@) =~= commands_view(before).push(c@));
                },
                None => {},
            },
            None => {},
        }
        i = i + 1;
    }
    assert(entries@.subrange(0, entries@.len() as int) =~= entries@);
}

} // verus!

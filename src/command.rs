use vstd::prelude::*;
use vstd::string::StringExecFns;
use indexmap::IndexMap;
use crate::model::{SourceArg, SourceCommand, text_or_empty};
use crate::flags::{expected_flags, flags_for, text_or_default};
use crate::completion::{
    expected_flag_completions, expected_positional, expected_positional_any, lists_of,
    flag_completions_for, positional_completion_for, positionalany_completion_for,
};
use crate::ordered_map::{text_entries, list_entries, texts_of, list_map_is_empty};

verus! {

broadcast use vstd::string::group_string_axioms;

/// The completion block of one command of the output.
pub struct Completion {
    pub flag: IndexMap<String, Vec<String>>,
    pub positional: Vec<Vec<String>>,
    pub positionalany: Vec<String>,
    pub dash: Vec<Vec<String>>,
    pub dashany: Vec<String>,
}

/// One command of the output, with its visible subcommands.
pub struct Command {
    pub name: String,
    pub aliases: Vec<String>,
    pub description: String,
    pub flags: IndexMap<String, String>,
    pub persistentflags: IndexMap<String, String>,
    pub completion: Completion,
    pub commands: Vec<Command>,
}

impl Completion {
    /// No part of the block holds anything.
    pub open spec fn spec_is_empty(&self) -> bool {
        &&& list_entries(self.flag).len() == 0
        &&& self.positional@.len() == 0
        &&& self.positionalany@.len() == 0
        &&& self.dash@.len() == 0
        &&& self.dashany@.len() == 0
    }

    /// Whether no part of the block holds anything; such a block is left out of
    /// the written document.
    pub fn is_empty(&self) -> (r: bool)
        ensures
            r == self.spec_is_empty(),
    {
        list_map_is_empty(&self.flag) && self.positional.len() == 0 && self.positionalany.len() == 0
            && self.dash.len() == 0 && self.dashany.len() == 0
    }
}

/// The positions of the visible commands of `s`, in their order.
pub open spec fn visible_children(s: Seq<SourceCommand>) -> Seq<int>
    decreases s.len(),
{
    if s.len() == 0 {
        Seq::empty()
    } else if !s.last().hidden {
        visible_children(s.drop_last()).push(s.len() - 1)
    } else {
        visible_children(s.drop_last())
    }
}

/// `c` is the completion block derived from the arguments `args`.
pub open spec fn completion_describes(c: Completion, args: Seq<SourceArg>) -> bool {
    &&& list_entries(c.flag) == expected_flag_completions(args)
    &&& lists_of(c.positional@) == expected_positional(args)
    &&& texts_of(c.positionalany@) == expected_positional_any(args)
    &&& c.dash@.len() == 0
    &&& c.dashany@.len() == 0
}

/// `out` is the output derived from the command `src`, its visible subcommands
/// included, in their order.
pub open spec fn describes(out: Command, src: SourceCommand) -> bool
    decreases src,
{
    let vis = visible_children(src.subcommands@);
    &&& out.name@ == src.name@
    &&& texts_of(out.aliases@) == texts_of(src.aliases@)
    &&& out.description@ == text_or_empty(src.about)
    &&& text_entries(out.flags) == expected_flags(src.args@, false)
    &&& text_entries(out.persistentflags) == expected_flags(src.args@, true)
    &&& completion_describes(out.completion, src.args@)
    &&& out.commands@.len() == vis.len()
    &&& forall|i: int|
        0 <= i < vis.len() ==> 0 <= #[trigger] vis[i] < src.subcommands@.len() && describes(
            out.commands@[i],
            src.subcommands@[vis[i]],
        )
}

/// A copy of a list of texts.
fn copy_texts(v: &Vec<String>) -> (r: Vec<String>)
    ensures
        texts_of(r@) == texts_of(v@),
{
    let mut r: Vec<String> = Vec::new();
    let mut i: usize = 0;
    while i < v.len()
        invariant
            i <= v.len(),
            texts_of(r@) == texts_of(v@.take(i as int)),
        decreases v.len() - i,
    {
        let ghost prev = r@;
        r.push(v[i].clone());
        assert(texts_of(r@) =~= texts_of(prev).push(v@[i as int]@));
        assert(texts_of(r@) =~= texts_of(v@.take(i + 1)));
        i = i + 1;
    }
    assert(v@.take(v.len() as int) =~= v@);
    r
}

/// The output for a command: its name, aliases and description, its flags of each
/// scope, its completion block, and the output for each visible subcommand.
pub fn command_for(cmd: &SourceCommand) -> (r: Command)
    ensures
        describes(r, *cmd),
    decreases cmd,
{
    let mut commands: Vec<Command> = Vec::new();
    let mut i: usize = 0;
    while i < cmd.subcommands.len()
        invariant
            i <= cmd.subcommands.len(),
            commands@.len() == visible_children(cmd.subcommands@.take(i as int)).len(),
            forall|k: int|
                0 <= k < commands@.len() ==> 0 <= #[trigger] visible_children(
                    cmd.subcommands@.take(i as int),
                )[k] < i && describes(
                    commands@[k],
                    cmd.subcommands@[visible_children(cmd.subcommands@.take(i as int))[k]],
                ),
        decreases cmd.subcommands.len() - i,
    {
        let ghost before = visible_children(cmd.subcommands@.take(i as int));
        assert(cmd.subcommands@.take(i + 1).drop_last() =~= cmd.subcommands@.take(i as int));
        let c = &cmd.subcommands[i];
        if !c.hidden {
            proof {
                assert(decreases_to!(cmd => cmd.subcommands@[i as int]));
            }
            let out = command_for(c);
            commands.push(out);
        }
        proof {
            let after = visible_children(cmd.subcommands@.take(i + 1));
            if !c.hidden {
                assert(after == before.push(i as int));
            } else {
                assert(after == before);
            }
        }
        i = i + 1;
    }
    assert(cmd.subcommands@.take(cmd.subcommands.len() as int) =~= cmd.subcommands@);
    let completion = Completion {
        flag: flag_completions_for(cmd),
        positional: positional_completion_for(cmd),
        positionalany: positionalany_completion_for(cmd),
        dash: Vec::new(),
        dashany: Vec::new(),
    };
    Command {
        name: cmd.name.clone(),
        aliases: copy_texts(&cmd.aliases),
        description: text_or_default(&cmd.about),
        flags: flags_for(cmd, false),
        persistentflags: flags_for(cmd, true),
        completion,
        commands,
    }
}

/// The generator of completion specifications.
pub struct Spec;

impl Spec {
    /// The name of the file a specification for the command `name` is written to.
    pub fn file_name(&self, name: &str) -> (r: String)
        ensures
            r@ == name@ + ".yaml"@,
    {
        let mut r = name.to_string();
        r.append(".yaml");
        r
    }

    /// The specification document of a command tree.
    pub fn generate(&self, cmd: &SourceCommand) -> (r: Command)
        ensures
            describes(r, *cmd),
    {
        command_for(cmd)
    }
}

} // verus!

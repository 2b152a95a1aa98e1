use vstd::prelude::*;
use crate::model::ValueHint;
use crate::ordered_map::texts_of;

verus! {

broadcast use vstd::string::group_string_axioms;

/// The completion actions that a value hint stands for. A command with arguments
/// has no action of its own yet and gets a single placeholder token.
pub open spec fn hint_actions(h: ValueHint) -> Seq<Seq<char>> {
    match h {
        ValueHint::AnyPath | ValueHint::FilePath | ValueHint::ExecutablePath => seq!["$files"@],
        ValueHint::DirPath => seq!["$directories"@],
        ValueHint::CommandWithArguments => seq!["$_placeholder.CommandWithArguments"@],
        ValueHint::CommandName | ValueHint::CommandString => seq![
            "$_os.PathExecutables"@,
            "$files"@,
        ],
        ValueHint::Username => seq!["$_os.Users"@],
        ValueHint::Hostname => seq!["$_net.Hosts"@],
        _ => Seq::empty(),
    }
}

/// The completion actions for a value hint.
pub fn action_for(hint: ValueHint) -> (r: Vec<String>)
    ensures
        texts_of(r@) == hint_actions(hint),
{
    let mut r: Vec<String> = Vec::new();
    match hint {
        ValueHint::AnyPath | ValueHint::FilePath | ValueHint::ExecutablePath => {
            r.push("$files".to_string());
        },
        ValueHint::DirPath => {
            r.push("$directories".to_string());
        },
        ValueHint::CommandWithArguments => {
            r.push("$_placeholder.CommandWithArguments".to_string());
        },
        ValueHint::CommandName | ValueHint::CommandString => {
            r.push("$_os.PathExecutables".to_string());
            r.push("$files".to_string());
        },
        ValueHint::Username => {
            r.push("$_os.Users".to_string());
        },
        ValueHint::Hostname => {
            r.push("$_net.Hosts".to_string());
        },
        _ => {},
    }
    assert(texts_of(r@) =~= hint_actions(hint));
    r
}

} // verus!

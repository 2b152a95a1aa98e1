use carapace_spec_clap::command::{command_for, Command, Completion, Spec};
use carapace_spec_clap::flags::{flags_for, modifier_for, signature_for};
use carapace_spec_clap::hint::action_for;
use carapace_spec_clap::model::{ArgAction, SourceArg, SourceCommand, SourceValue, ValueHint};
use indexmap::IndexMap;

fn arg() -> SourceArg {
    SourceArg {
        long: None,
        short: None,
        help: None,
        positional: false,
        hidden: false,
        global: false,
        require_equals: false,
        action: ArgAction::SetTrue,
        value_hint: ValueHint::Unknown,
        possible_values: Vec::new(),
        index: 0,
        unbounded: false,
    }
}

fn flag(long: &str) -> SourceArg {
    SourceArg { long: Some(long.to_string()), ..arg() }
}

fn positional(index: usize, hint: ValueHint) -> SourceArg {
    SourceArg { positional: true, index, value_hint: hint, action: ArgAction::SetValue, ..arg() }
}

fn command(name: &str, args: Vec<SourceArg>) -> SourceCommand {
    SourceCommand {
        name: name.to_string(),
        aliases: Vec::new(),
        about: None,
        hidden: false,
        args,
        subcommands: Vec::new(),
    }
}

fn strings(v: &[&str]) -> Vec<String> {
    v.iter().map(|s| s.to_string()).collect()
}

fn keys<V>(m: &IndexMap<String, V>) -> Vec<String> {
    m.keys().cloned().collect()
}

#[test]
fn require_equals_flag_with_user_hint() {
    let a = SourceArg {
        require_equals: true,
        action: ArgAction::SetValue,
        value_hint: ValueHint::Username,
        ..flag("optional")
    };
    let out = command_for(&command("app", vec![a]));
    assert_eq!(out.flags.get("--optional?"), Some(&String::new()));
    assert_eq!(out.flags.len(), 1);
    assert!(out.persistentflags.is_empty());
    assert_eq!(out.completion.flag.get("optional"), Some(&strings(&["$_os.Users"])));
}

#[test]
fn aliases_without_description() {
    let mut cmd = command("app", Vec::new());
    cmd.aliases = strings(&["alias1", "alias2"]);
    let out = command_for(&cmd);
    assert_eq!(out.aliases, strings(&["alias1", "alias2"]));
    assert_eq!(out.description, "");
}

#[test]
fn description_from_about() {
    let mut cmd = command("app", Vec::new());
    cmd.about = Some("does things".to_string());
    assert_eq!(command_for(&cmd).description, "does things");
}

#[test]
fn trailing_unbounded_positional_with_host_hint() {
    let first = positional(1, ValueHint::FilePath);
    let last = SourceArg { unbounded: true, ..positional(2, ValueHint::Hostname) };
    let out = command_for(&command("app", vec![first, last]));
    assert_eq!(out.completion.positionalany, strings(&["$_net.Hosts"]));
    assert_eq!(out.completion.positional, vec![strings(&["$files"])]);
}

#[test]
fn cumulative_flag_signature() {
    let a = SourceArg { short: Some('v'), action: ArgAction::Append, ..flag("value") };
    assert_eq!(signature_for(&a), "-v, --value");
    assert_eq!(modifier_for(&a), "=*");
    let out = command_for(&command("app", vec![a]));
    assert_eq!(keys(&out.flags), strings(&["-v, --value=*"]));
}

#[test]
fn counting_flag_has_only_star() {
    let a = SourceArg { short: Some('q'), action: ArgAction::Count, ..arg() };
    let out = command_for(&command("app", vec![a]));
    assert_eq!(keys(&out.flags), strings(&["-q*"]));
}

#[test]
fn require_equals_and_append() {
    let a = SourceArg { require_equals: true, action: ArgAction::Append, ..flag("item") };
    assert_eq!(modifier_for(&a), "?*");
}

#[test]
fn toggle_flag_has_no_modifier() {
    let a = SourceArg { help: Some("be loud".to_string()), ..flag("loud") };
    let out = command_for(&command("app", vec![a]));
    assert_eq!(out.flags.get("--loud"), Some(&"be loud".to_string()));
    assert!(out.completion.flag.is_empty());
}

#[test]
fn flags_sorted_by_long_else_short() {
    let args = vec![
        flag("zeta"),
        SourceArg { short: Some('b'), ..arg() },
        SourceArg { short: Some('z'), ..flag("alpha") },
        flag("beta"),
    ];
    let out = flags_for(&command("app", args), false);
    assert_eq!(keys(&out), strings(&["-z, --alpha", "-b", "--beta", "--zeta"]));
}

#[test]
fn global_and_local_flags_are_partitioned() {
    let args = vec![
        SourceArg { global: true, ..flag("config") },
        flag("local"),
        SourceArg { global: true, short: Some('v'), ..arg() },
    ];
    let out = command_for(&command("app", args));
    assert_eq!(keys(&out.flags), strings(&["--local"]));
    assert_eq!(keys(&out.persistentflags), strings(&["--config", "-v"]));
}

#[test]
fn hidden_arguments_and_commands_are_left_out() {
    let args = vec![
        SourceArg { hidden: true, value_hint: ValueHint::FilePath, action: ArgAction::SetValue, ..flag("secret") },
        SourceArg { hidden: true, ..positional(1, ValueHint::DirPath) },
        flag("shown"),
    ];
    let mut cmd = command("app", args);
    let mut hidden = command("internal", Vec::new());
    hidden.hidden = true;
    cmd.subcommands = vec![command("first", Vec::new()), hidden, command("last", Vec::new())];
    let out = command_for(&cmd);
    assert_eq!(keys(&out.flags), strings(&["--shown"]));
    assert!(out.completion.is_empty());
    let names: Vec<String> = out.commands.iter().map(|c| c.name.clone()).collect();
    assert_eq!(names, strings(&["first", "last"]));
}

#[test]
fn nested_subcommands() {
    let mut child = command("child", vec![flag("deep")]);
    child.subcommands = vec![command("grandchild", Vec::new())];
    let mut root = command("root", Vec::new());
    root.subcommands = vec![child];
    let out = command_for(&root);
    assert_eq!(out.commands.len(), 1);
    assert_eq!(keys(&out.commands[0].flags), strings(&["--deep"]));
    assert_eq!(out.commands[0].commands[0].name, "grandchild");
    assert!(out.commands[0].commands[0].commands.is_empty());
}

#[test]
fn positionals_ordered_by_index_with_empty_slots() {
    let args = vec![
        positional(3, ValueHint::Username),
        positional(1, ValueHint::DirPath),
        positional(2, ValueHint::Other),
    ];
    let out = command_for(&command("app", args));
    assert_eq!(
        out.completion.positional,
        vec![strings(&["$directories"]), Vec::new(), strings(&["$_os.Users"])]
    );
    assert!(out.completion.positionalany.is_empty());
}

#[test]
fn possible_values_follow_hint_actions() {
    let a = SourceArg {
        action: ArgAction::SetValue,
        value_hint: ValueHint::CommandName,
        possible_values: vec![
            SourceValue { name: "fast".to_string(), help: Some("quick mode".to_string()) },
            SourceValue { name: "slow".to_string(), help: None },
        ],
        ..flag("mode")
    };
    let out = command_for(&command("app", vec![a]));
    assert_eq!(
        out.completion.flag.get("mode"),
        Some(&strings(&["$_os.PathExecutables", "$files", "fast\tquick mode", "slow"]))
    );
}

#[test]
fn short_only_flag_completion_key() {
    let a = SourceArg { short: Some('o'), action: ArgAction::SetValue, value_hint: ValueHint::FilePath, ..arg() };
    let out = command_for(&command("app", vec![a]));
    assert_eq!(keys(&out.flags), strings(&["-o="]));
    assert_eq!(out.completion.flag.get("o"), Some(&strings(&["$files"])));
}

#[test]
fn value_hint_table() {
    assert!(action_for(ValueHint::Unknown).is_empty());
    assert!(action_for(ValueHint::Other).is_empty());
    assert!(action_for(ValueHint::Url).is_empty());
    assert!(action_for(ValueHint::EmailAddress).is_empty());
    assert_eq!(action_for(ValueHint::AnyPath), strings(&["$files"]));
    assert_eq!(action_for(ValueHint::FilePath), strings(&["$files"]));
    assert_eq!(action_for(ValueHint::ExecutablePath), strings(&["$files"]));
    assert_eq!(action_for(ValueHint::DirPath), strings(&["$directories"]));
    assert_eq!(action_for(ValueHint::CommandString), strings(&["$_os.PathExecutables", "$files"]));
    assert_eq!(action_for(ValueHint::Hostname), strings(&["$_net.Hosts"]));
    assert_eq!(action_for(ValueHint::Username), strings(&["$_os.Users"]));
    assert_eq!(action_for(ValueHint::CommandName), strings(&["$_os.PathExecutables", "$files"]));
    assert_eq!(action_for(ValueHint::CommandWithArguments).len(), 1);
}

#[test]
fn hidden_unbounded_positional_is_ignored() {
    let shown = positional(1, ValueHint::FilePath);
    let hidden = SourceArg { unbounded: true, hidden: true, ..positional(2, ValueHint::Hostname) };
    let out = command_for(&command("app", vec![shown, hidden]));
    assert!(out.completion.positionalany.is_empty());
    assert_eq!(out.completion.positional, vec![strings(&["$files"])]);
}

#[test]
fn completion_emptiness() {
    let empty = Completion {
        flag: IndexMap::new(),
        positional: Vec::new(),
        positionalany: Vec::new(),
        dash: Vec::new(),
        dashany: Vec::new(),
    };
    assert!(empty.is_empty());
    let with_slot = Completion { positional: vec![Vec::new()], ..empty };
    assert!(!with_slot.is_empty());
    let mut flag = IndexMap::new();
    flag.insert("f".to_string(), strings(&["$files"]));
    let with_flag = Completion { flag, positional: Vec::new(), positionalany: Vec::new(), dash: Vec::new(), dashany: Vec::new() };
    assert!(!with_flag.is_empty());
}

fn same(a: &Command, b: &Command) -> bool {
    a.name == b.name
        && a.aliases == b.aliases
        && a.description == b.description
        && a.flags == b.flags
        && a.persistentflags == b.persistentflags
        && a.completion.flag == b.completion.flag
        && a.completion.positional == b.completion.positional
        && a.completion.positionalany == b.completion.positionalany
        && a.commands.len() == b.commands.len()
        && a.commands.iter().zip(b.commands.iter()).all(|(x, y)| same(x, y))
}

#[test]
fn generating_twice_gives_the_same_output() {
    let mut cmd = command("app", vec![flag("b"), flag("a"), positional(1, ValueHint::FilePath)]);
    cmd.subcommands = vec![command("sub", vec![SourceArg { global: true, ..flag("g") }])];
    let spec = Spec;
    assert!(same(&spec.generate(&cmd), &spec.generate(&cmd)));
}

#[test]
fn spec_file_name() {
    assert_eq!(Spec.file_name("tool"), "tool.yaml");
}

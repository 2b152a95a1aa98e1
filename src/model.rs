use vstd::prelude::*;

verus! {

/// The semantic category of an argument's value, which decides how its values complete.
#[derive(Clone, Copy, Debug, PartialEq, Eq, Structural)]
pub enum ValueHint {
    Unknown,
    Other,
    AnyPath,
    FilePath,
    DirPath,
    ExecutablePath,
    CommandName,
    CommandString,
    CommandWithArguments,
    Username,
    Hostname,
    Url,
    EmailAddress,
}

/// What an argument does when it is met on a command line.
#[derive(Clone, Copy, Debug, PartialEq, Eq, Structural)]
pub enum ArgAction {
    SetValue,
    Append,
    SetTrue,
    SetFalse,
    Count,
    Help,
    HelpShort,
    HelpLong,
    Version,
}

impl ArgAction {
    pub open spec fn spec_takes_values(&self) -> bool {
        self is SetValue || self is Append
    }

    /// Whether the action consumes a value.
    #[verifier::when_used_as_spec(spec_takes_values)]
    pub fn takes_values(&self) -> (r: bool)
        ensures
            r == self.spec_takes_values(),
    {
        match self {
            ArgAction::SetValue | ArgAction::Append => true,
            _ => false,
        }
    }

    pub open spec fn spec_is_cumulative(&self) -> bool {
        self is Append || self is Count
    }

    /// Whether repeated uses accumulate (append values or count occurrences).
    #[verifier::when_used_as_spec(spec_is_cumulative)]
    pub fn is_cumulative(&self) -> (r: bool)
        ensures
            r == self.spec_is_cumulative(),
    {
        match self {
            ArgAction::Append | ArgAction::Count => true,
            _ => false,
        }
    }
}

/// One permitted literal value of an argument.
pub struct SourceValue {
    pub name: String,
    pub help: Option<String>,
}

/// One argument of a command, as the command-line description declares it.
pub struct SourceArg {
    pub long: Option<String>,
    pub short: Option<char>,
    pub help: Option<String>,
    pub positional: bool,
    pub hidden: bool,
    pub global: bool,
    pub require_equals: bool,
    pub action: ArgAction,
    pub value_hint: ValueHint,
    pub possible_values: Vec<SourceValue>,
    /// Declaration index among the positionals.
    pub index: usize,
    /// Whether the argument accepts an unlimited number of values.
    pub unbounded: bool,
}

/// One command of a command-line description, with its arguments and subcommands.
pub struct SourceCommand {
    pub name: String,
    pub aliases: Vec<String>,
    pub about: Option<String>,
    pub hidden: bool,
    pub args: Vec<SourceArg>,
    pub subcommands: Vec<SourceCommand>,
}

/// An optional text, with the empty text where it is absent.
pub open spec fn text_or_empty(o: Option<String>) -> Seq<char> {
    match o {
        Some(s) => s@,
        None => Seq::empty(),
    }
}

/// An optional character as a text of at most one character.
pub open spec fn char_or_empty(o: Option<char>) -> Seq<char> {
    match o {
        Some(c) => seq![c],
        None => Seq::empty(),
    }
}

impl SourceArg {
    /// The name a flag is known by: its long name, else its short name.
    pub open spec fn key(self) -> Seq<char> {
        match self.long {
            Some(l) => l@,
            None => char_or_empty(self.short),
        }
    }

    /// A visible argument that is not positional.
    pub open spec fn is_flag(self) -> bool {
        !self.positional && !self.hidden
    }

    /// A visible positional argument.
    pub open spec fn is_visible_positional(self) -> bool {
        self.positional && !self.hidden
    }
}

} // verus!

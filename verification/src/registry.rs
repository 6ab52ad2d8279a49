//! The command registry: the fixed set of commands the shell understands,
//! each with its name, its parameters, a description and a category.

use vstd::prelude::*;

verus! {

/// The group under which a command is listed.
#[derive(Clone, Copy, Debug, PartialEq, Eq, Structural)]
pub enum CommandCategory {
    General,
    Taxes,
}

impl Default for CommandCategory {
    fn default() -> (category: Self)
        ensures
            category == CommandCategory::General,
    {
        CommandCategory::General
    }
}

/// What an argument is converted to before a command runs.
#[derive(Clone, Copy, Debug, PartialEq, Eq, Structural)]
pub enum ParamKind {
    /// A decimal number.
    Number,
    /// The argument as it was typed.
    Text,
}

/// One positional parameter of a command.
#[derive(Debug, PartialEq, Eq)]
pub struct Parameter {
    pub name: String,
    pub kind: ParamKind,
}

/// A parameter, as contracts see it.
pub struct ParameterView {
    pub name: Seq<char>,
    pub kind: ParamKind,
}

impl View for Parameter {
    type V = ParameterView;

    open spec fn view(&self) -> ParameterView {
        ParameterView { name: self.name@, kind: self.kind }
    }
}

/// The descriptor of one command.
#[derive(Debug, PartialEq, Eq)]
pub struct CommandMeta {
    pub name: String,
    /// The parameters, in the order in which the arguments are expected.
    pub parameters: Vec<Parameter>,
    pub description: String,
    pub category: CommandCategory,
}

/// A command descriptor, as contracts see it.
pub struct CommandView {
    pub name: Seq<char>,
    pub parameters: Seq<ParameterView>,
    pub description: Seq<char>,
    pub category: CommandCategory,
}

impl View for CommandMeta {
    type V = CommandView;

    open spec fn view(&self) -> CommandView {
        CommandView {
            name: self.name@,
            parameters: parameter_views(self.parameters@),
            description: self.description@,
            category: self.category,
        }
    }
}

/// The views of `parameters`, in order.
pub open spec fn parameter_views(parameters: Seq<Parameter>) -> Seq<ParameterView> {
    parameters.map_values(|p: Parameter| p@)
}

/// The views of `commands`, in order.
pub open spec fn command_views(commands: Seq<CommandMeta>) -> Seq<CommandView> {
    commands.map_values(|c: CommandMeta| c@)
}

/// The names of `parameters`, in order.
pub open spec fn parameter_names(parameters: Seq<ParameterView>) -> Seq<Seq<char>> {
    parameters.map_values(|p: ParameterView| p.name)
}

/// The four commands of the shell, in the order in which they are listed.
pub open spec fn standard_commands() -> Seq<CommandView> {
    seq![
        CommandView {
            name: "help"@,
            parameters: Seq::empty(),
            description: "Display help menu."@,
            category: CommandCategory::General,
        },
        CommandView {
            name: "exit"@,
            parameters: Seq::empty(),
            description: "Exit the program."@,
            category: CommandCategory::General,
        },
        CommandView {
            name: "tax"@,
            parameters: Seq::empty(),
            description: "Get the current tax %."@,
            category: CommandCategory::Taxes,
        },
        CommandView {
            name: "taxset"@,
            parameters: seq![ParameterView { name: "percentage"@, kind: ParamKind::Number }],
            description: "Set the tax %."@,
            category: CommandCategory::Taxes,
        },
    ]
}

/// Whether no two of `commands` share a name.
pub open spec fn names_unique(commands: Seq<CommandView>) -> bool {
    forall|i: int, j: int|
        0 <= i < j < commands.len() ==> (#[trigger] commands[i]).name != (
        #[trigger] commands[j]).name
}

/// Whether the command at `i` is the first whose name occurs again behind
/// it.
pub open spec fn is_first_duplicate(commands: Seq<CommandView>, i: int) -> bool {
    &&& 0 <= i < commands.len()
    &&& exists|j: int| i < j < commands.len() && (#[trigger] commands[j]).name == commands[i].name
    &&& forall|a: int, b: int|
        0 <= a < i && a < b < commands.len() ==> (#[trigger] commands[a]).name != (
        #[trigger] commands[b]).name
}

/// The first of `commands` that is called `name`.
pub open spec fn find_command(commands: Seq<CommandView>, name: Seq<char>) -> Option<CommandView>
    decreases commands.len(),
{
    if commands.len() == 0 {
        None
    } else if commands[0].name == name {
        Some(commands[0])
    } else {
        find_command(commands.skip(1), name)
    }
}

/// A command without parameters.
fn plain_command(name: &str, description: &str, category: CommandCategory) -> (command:
    CommandMeta)
    ensures
        command@ == (CommandView {
            name: name@,
            parameters: Seq::empty(),
            description: description@,
            category,
        }),
{
    let command = CommandMeta {
        name: name.to_owned(),
        parameters: Vec::new(),
        description: description.to_owned(),
        category,
    };
    assert(command@.parameters =~= Seq::empty());
    command
}

/// The descriptors of the four commands of the shell.
pub fn get_commands_meta() -> (commands: Vec<CommandMeta>)
    ensures
        command_views(commands@) == standard_commands(),
{
    let mut parameters: Vec<Parameter> = Vec::new();
    parameters.push(Parameter { name: "percentage".to_owned(), kind: ParamKind::Number });
    let taxset = CommandMeta {
        name: "taxset".to_owned(),
        parameters,
        description: "Set the tax %.".to_owned(),
        category: CommandCategory::Taxes,
    };
    assert(taxset@.parameters =~= seq![
        ParameterView { name: "percentage"@, kind: ParamKind::Number },
    ]);
    let mut commands: Vec<CommandMeta> = Vec::new();
    commands.push(plain_command("help", "Display help menu.", CommandCategory::General));
    commands.push(plain_command("exit", "Exit the program.", CommandCategory::General));
    commands.push(plain_command("tax", "Get the current tax %.", CommandCategory::Taxes));
    commands.push(taxset);
    assert(command_views(commands@) =~= standard_commands());
    commands
}

/// A name that two commands share.
#[derive(Debug, PartialEq, Eq)]
pub struct DuplicateName {
    pub name: String,
}

/// A set of commands in which every name occurs once.
pub struct Registry {
    commands: Vec<CommandMeta>,
}

impl View for Registry {
    type V = Seq<CommandView>;

    closed spec fn view(&self) -> Seq<CommandView> {
        command_views(self.commands@)
    }
}

/// Whether one of `commands[from..]` is called `name`.
fn name_occurs(commands: &Vec<CommandMeta>, from: usize, name: &String) -> (occurs: bool)
    requires
        from <= commands.len(),
    ensures
        occurs == exists|j: int|
            from <= j < commands.len() && (#[trigger] command_views(commands@)[j]).name == name@,
{
    let mut j: usize = from;
    while j < commands.len()
        invariant
            from <= j <= commands.len(),
            forall|k: int|
                from <= k < j ==> (#[trigger] command_views(commands@)[k]).name != name@,
        decreases commands.len() - j,
    {
        if commands[j].name == *name {
            assert(command_views(commands@)[j as int].name == name@);
            return true;
        }
        j += 1;
    }
    false
}

impl Registry {
    #[verifier::type_invariant]
    spec fn well_formed(self) -> bool {
        names_unique(command_views(self.commands@))
    }

    /// The registry of `commands`. Where a name occurs twice there is none:
    /// the error holds the name of the first command whose name occurs
    /// again behind it.
    pub fn new(commands: Vec<CommandMeta>) -> (made: Result<Registry, DuplicateName>)
        ensures
            match made {
                Ok(registry) => names_unique(command_views(commands@)) && registry@
                    == command_views(commands@),
                Err(duplicate) => exists|i: int|
                    is_first_duplicate(command_views(commands@), i) && duplicate.name@
                        == command_views(commands@)[i].name,
            },
    {
        let mut i: usize = 0;
        while i < commands.len()
            invariant
                i <= commands.len(),
                forall|a: int, b: int|
                    0 <= a < i && a < b < commands.len() ==> (#[trigger] command_views(
                        commands@,
                    )[a]).name != (#[trigger] command_views(commands@)[b]).name,
            decreases commands.len() - i,
        {
            if name_occurs(&commands, i + 1, &commands[i].name) {
                let duplicate = DuplicateName { name: commands[i].name.clone() };
                assert(command_views(commands@)[i as int].name == duplicate.name@);
                assert(is_first_duplicate(command_views(commands@), i as int));
                return Err(duplicate);
            }
            assert(forall|b: int|
                i < b < commands.len() ==> (#[trigger] command_views(commands@)[b]).name
                    != command_views(commands@)[i as int].name);
            i += 1;
        }
        Ok(Registry { commands })
    }

    /// The registry of the four commands of the shell.
    pub fn standard() -> (registry: Registry)
        ensures
            registry@ == standard_commands(),
    {
        let commands = get_commands_meta();
        proof {
            lemma_standard_names_unique();
        }
        Registry { commands }
    }

    /// The command called `name`, if there is one.
    pub fn lookup(&self, name: &String) -> (found: Option<&CommandMeta>)
        ensures
            match found {
                Some(command) => find_command(self@, name@) == Some(command@),
                None => find_command(self@, name@) is None,
            },
    {
        let mut i: usize = 0;
        assert(self@.skip(0) =~= self@);
        while i < self.commands.len()
            invariant
                i <= self.commands.len(),
                find_command(self@, name@) == find_command(self@.skip(i as int), name@),
            decreases self.commands.len() - i,
        {
            assert(self@.skip(i as int)[0] == self.commands[i as int]@);
            if self.commands[i].name == *name {
                return Some(&self.commands[i]);
            }
            assert(self@.skip(i as int).skip(1) =~= self@.skip(i + 1));
            i += 1;
        }
        assert(self@.skip(i as int).len() == 0);
        None
    }

    /// All commands, in the order in which they were registered.
    pub fn all_commands(&self) -> (commands: &Vec<CommandMeta>)
        ensures
            command_views(commands@) == self@,
            names_unique(self@),
    {
        proof {
            use_type_invariant(self);
        }
        &self.commands
    }
}

/// The four commands of the shell have four different names.
pub proof fn lemma_standard_names_unique()
    ensures
        names_unique(standard_commands()),
{
    lemma_standard_names();
    let names = standard_commands().map_values(|c: CommandView| c.name);
    assert(names[0][0] != names[1][0]);
    assert(names[0][0] != names[2][0]);
    assert(names[0][0] != names[3][0]);
    assert(names[1][0] != names[2][0]);
    assert(names[1][0] != names[3][0]);
    assert(names[2].len() != names[3].len());
}

/// The names of the four commands of the shell, spelled out.
pub proof fn lemma_standard_names()
    ensures
        "help"@ == seq!['h', 'e', 'l', 'p'],
        "exit"@ == seq!['e', 'x', 'i', 't'],
        "tax"@ == seq!['t', 'a', 'x'],
        "taxset"@ == seq!['t', 'a', 'x', 's', 'e', 't'],
{
    reveal_strlit("help");
    reveal_strlit("exit");
    reveal_strlit("tax");
    reveal_strlit("taxset");
    assert("help"@ =~= seq!['h', 'e', 'l', 'p']);
    assert("exit"@ =~= seq!['e', 'x', 'i', 't']);
    assert("tax"@ =~= seq!['t', 'a', 'x']);
    assert("taxset"@ =~= seq!['t', 'a', 'x', 's', 'e', 't']);
}

/// What [`find_command`] finds is one of the commands and has the name asked
/// for; it finds nothing only where no command has that name.
pub proof fn lemma_find_command(commands: Seq<CommandView>, name: Seq<char>)
    ensures
        match find_command(commands, name) {
            Some(command) => command.name == name && commands.contains(command),
            None => forall|i: int| 0 <= i < commands.len() ==> (#[trigger] commands[i]).name != name,
        },
    decreases commands.len(),
{
    if commands.len() == 0 {
    } else if commands[0].name == name {
    } else {
        let rest = commands.skip(1);
        lemma_find_command(rest, name);
        match find_command(rest, name) {
            Some(command) => {
                let k = choose|k: int| 0 <= k < rest.len() && rest[k] == command;
                assert(commands[k + 1] == command);
            },
            None => {
                assert forall|i: int| 0 <= i < commands.len() implies (
                #[trigger] commands[i]).name != name by {
                    if i > 0 {
                        assert(rest[i - 1] == commands[i]);
                    }
                }
            },
        }
    }
}

/// Where names are unique, the command at index `i` is the one that its own
/// name finds.
pub proof fn lemma_find_command_unique(commands: Seq<CommandView>, i: int)
    requires
        names_unique(commands),
        0 <= i < commands.len(),
    ensures
        find_command(commands, commands[i].name) == Some(commands[i]),
    decreases commands.len(),
{
    if i > 0 {
        let rest = commands.skip(1);
        assert(commands[0].name != commands[i].name);
        assert forall|a: int, b: int| 0 <= a < b < rest.len() implies (#[trigger] rest[a]).name != (
        #[trigger] rest[b]).name by {
            assert(rest[a] == commands[a + 1]);
            assert(rest[b] == commands[b + 1]);
        }
        assert(rest[i - 1] == commands[i]);
        lemma_find_command_unique(rest, i - 1);
    }
}

} // verus!

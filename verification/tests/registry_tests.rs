use tax_shell::help::{describe, display_help, group_by_category, heading, HelpGroup};
use tax_shell::registry::{
    get_commands_meta, CommandCategory, CommandMeta, DuplicateName, ParamKind, Parameter, Registry,
};

fn command(name: &str, category: CommandCategory) -> CommandMeta {
    CommandMeta {
        name: name.to_string(),
        parameters: vec![],
        description: format!("Does {}.", name),
        category,
    }
}

#[test]
fn the_registry_holds_the_four_commands_in_order() {
    let commands = get_commands_meta();
    let names: Vec<&str> = commands.iter().map(|c| c.name.as_str()).collect();
    assert_eq!(names, vec!["help", "exit", "tax", "taxset"]);
    assert_eq!(commands[0].category, CommandCategory::General);
    assert_eq!(commands[1].category, CommandCategory::General);
    assert_eq!(commands[2].category, CommandCategory::Taxes);
    assert_eq!(commands[3].category, CommandCategory::Taxes);
    assert_eq!(commands[0].description, "Display help menu.");
    assert_eq!(commands[1].description, "Exit the program.");
    assert_eq!(commands[2].description, "Get the current tax %.");
    assert_eq!(commands[3].description, "Set the tax %.");
    assert!(commands[0].parameters.is_empty());
    assert!(commands[1].parameters.is_empty());
    assert!(commands[2].parameters.is_empty());
    assert_eq!(
        commands[3].parameters,
        vec![Parameter { name: "percentage".to_string(), kind: ParamKind::Number }]
    );
}

#[test]
fn the_default_category_is_general() {
    assert_eq!(CommandCategory::default(), CommandCategory::General);
}

#[test]
fn lookup_finds_each_command_by_its_name() {
    let registry = Registry::standard();
    for name in ["help", "exit", "tax", "taxset"] {
        let found = registry.lookup(&name.to_string()).unwrap();
        assert_eq!(found.name, name);
    }
    assert_eq!(registry.all_commands(), &get_commands_meta());
}

#[test]
fn lookup_finds_nothing_under_another_name() {
    let registry = Registry::standard();
    for name in ["", "taxes", "ta", "HELP", "quit", "help "] {
        assert!(registry.lookup(&name.to_string()).is_none(), "{:?}", name);
    }
}

#[test]
fn a_registry_refuses_a_name_that_occurs_twice() {
    let commands = vec![
        command("a", CommandCategory::General),
        command("b", CommandCategory::Taxes),
        command("c", CommandCategory::General),
        command("b", CommandCategory::General),
        command("a", CommandCategory::General),
    ];
    match Registry::new(commands) {
        Err(duplicate) => assert_eq!(duplicate, DuplicateName { name: "a".to_string() }),
        Ok(_) => panic!("a duplicate name was accepted"),
    }
}

#[test]
fn a_registry_accepts_names_that_differ() {
    let commands = vec![command("a", CommandCategory::Taxes), command("b", CommandCategory::General)];
    let registry = Registry::new(commands).ok().unwrap();
    assert_eq!(registry.all_commands().len(), 2);
    assert_eq!(registry.lookup(&"b".to_string()).unwrap().description, "Does b.");
    assert!(Registry::new(vec![]).is_ok());
}

#[test]
fn help_lists_all_four_commands_once_grouped_by_category() {
    let lines = display_help(&get_commands_meta());
    assert_eq!(
        lines,
        vec![
            "General:",
            "  help - Display help menu.",
            "  exit - Exit the program.",
            "Taxes:",
            "  tax - Get the current tax %.",
            "  taxset <percentage> - Set the tax %.",
        ]
    );
}

#[test]
fn groups_keep_every_member_of_a_repeated_category() {
    let groups = group_by_category(&get_commands_meta());
    assert_eq!(
        groups,
        vec![
            HelpGroup { category: CommandCategory::General, members: vec![0, 1] },
            HelpGroup { category: CommandCategory::Taxes, members: vec![2, 3] },
        ]
    );
}

#[test]
fn groups_come_in_the_order_of_their_first_command() {
    let commands = vec![
        command("t1", CommandCategory::Taxes),
        command("g1", CommandCategory::General),
        command("t2", CommandCategory::Taxes),
        command("g2", CommandCategory::General),
        command("t3", CommandCategory::Taxes),
    ];
    assert_eq!(
        group_by_category(&commands),
        vec![
            HelpGroup { category: CommandCategory::Taxes, members: vec![0, 2, 4] },
            HelpGroup { category: CommandCategory::General, members: vec![1, 3] },
        ]
    );
    assert_eq!(
        display_help(&commands),
        vec![
            "Taxes:",
            "  t1 - Does t1.",
            "  t2 - Does t2.",
            "  t3 - Does t3.",
            "General:",
            "  g1 - Does g1.",
            "  g2 - Does g2.",
        ]
    );
    assert_eq!(group_by_category(&vec![]), vec![]);
    assert_eq!(display_help(&vec![]), Vec::<String>::new());
}

#[test]
fn a_command_is_described_with_its_parameters() {
    let two = CommandMeta {
        name: "move".to_string(),
        parameters: vec![
            Parameter { name: "from".to_string(), kind: ParamKind::Text },
            Parameter { name: "to".to_string(), kind: ParamKind::Text },
        ],
        description: "Moves.".to_string(),
        category: CommandCategory::General,
    };
    assert_eq!(describe(&two), "  move <from> <to> - Moves.");
    assert_eq!(heading(CommandCategory::General), "General:");
    assert_eq!(heading(CommandCategory::Taxes), "Taxes:");
}

use neosurv::commands::{
    execute_command, parse_command, parse_i32_or, parse_u32_or, parse_usize_or, split_words, ChatCommand,
    CommandRegistry,
};
use neosurv::gameplay::inventory::ItemId;
use neosurv::gameplay::loot::ChestTier;
use neosurv::gameplay::player::PlayerRuntimeState;

fn chars(s: &str) -> Vec<char> {
    s.chars().collect()
}

fn run(input: &str, players: &mut Vec<PlayerRuntimeState>) -> (ChatCommand, Vec<String>, bool, bool) {
    let registry = CommandRegistry::new();
    let (cmd, outcome) = registry.execute(input, players);
    (cmd, outcome.lines, outcome.save_requested, outcome.load_requested)
}

#[test]
fn plain_text_is_said_in_local_chat() {
    let mut players = vec![PlayerRuntimeState::new_local()];
    let (cmd, lines, save, load) = run("  hello there ", &mut players);
    assert!(matches!(cmd, ChatCommand::Say { ref text } if text == "hello there"));
    assert_eq!(lines, vec!["LOCAL CHAT: hello there".to_string()]);
    assert!(!save && !load);
}

#[test]
fn help_lists_the_commands() {
    let mut players = Vec::new();
    let (_, lines, _, _) = run("/help", &mut players);
    assert_eq!(lines.len(), 3);
    assert_eq!(lines[0], "COMMANDS: /HELP /DAY /NIGHT /TIME SET <0..1>");
    assert_eq!(lines[2], "/SPAWN CHEST <COMMON|RARE|EPIC> /SAVE /LOAD");
}

#[test]
fn time_commands() {
    let mut players = Vec::new();
    let (cmd, lines, _, _) = run("/time set 0.75", &mut players);
    assert!(matches!(cmd, ChatCommand::SetTime { ref value } if value == "0.75"));
    assert!(lines.is_empty());
    let (cmd, lines, _, _) = run("/time set", &mut players);
    assert!(matches!(cmd, ChatCommand::TimeUsage));
    assert_eq!(lines, vec!["USAGE: /TIME SET <0..1>".to_string()]);
    let (_, lines, _, _) = run("/day", &mut players);
    assert_eq!(lines, vec!["TIME SET TO DAY".to_string()]);
    let (_, lines, _, _) = run("//night", &mut players);
    assert_eq!(lines, vec!["TIME SET TO NIGHT".to_string()]);
}

#[test]
fn give_fills_the_hotbar_and_reports_overflow() {
    let mut players = vec![PlayerRuntimeState::new_local()];
    let (cmd, lines, _, _) = run("/give grenade 7", &mut players);
    assert!(matches!(cmd, ChatCommand::Give { item: ItemId::Grenade, count: 7 }));
    // three held, stack size eight: five fit
    assert_eq!(lines, vec!["GAVE GRENADE X5".to_string(), "NO ROOM FOR 2 MORE".to_string()]);
    assert_eq!(players[0].inventory.slots[3].stack.unwrap().count, 8);

    let (_, lines, _, _) = run("/give medkit", &mut players);
    assert_eq!(lines, vec!["GAVE MEDKIT X1".to_string()]);
    assert_eq!(players[0].inventory.slots[2].stack.unwrap().count, 3);

    let (cmd, lines, _, _) = run("/give banana 2", &mut players);
    assert!(matches!(cmd, ChatCommand::GiveUsage));
    assert_eq!(lines, vec!["USAGE: /GIVE <SIDEARM|LAUNCHER|MEDKIT|GRENADE> <COUNT>".to_string()]);
}

#[test]
fn give_without_local_player_answers_nothing() {
    let mut other = PlayerRuntimeState::new_local();
    other.id = 2;
    let mut players = vec![other];
    let (_, lines, _, _) = run("/give grenade 1", &mut players);
    assert!(lines.is_empty());
    assert_eq!(players[0].inventory.slots[3].stack.unwrap().count, 3);
}

#[test]
fn heal_raises_health_up_to_the_maximum() {
    let mut player = PlayerRuntimeState::new_local();
    player.apply_damage(80);
    assert_eq!(player.health, 20);
    let mut players = vec![player];
    let (_, lines, _, _) = run("/heal", &mut players);
    assert_eq!(lines, vec!["HEALED TO 55".to_string()]);
    let (_, lines, _, _) = run("/heal 500", &mut players);
    assert_eq!(lines, vec!["HEALED TO 100".to_string()]);
    let (_, lines, _, _) = run("/heal -40", &mut players);
    assert_eq!(lines, vec!["HEALED TO 100".to_string()]);
    assert_eq!(players[0].health, 100);
}

#[test]
fn spawn_commands() {
    let mut players = Vec::new();
    let (cmd, lines, _, _) = run("/spawn enemy 3", &mut players);
    assert!(matches!(cmd, ChatCommand::SpawnEnemies { count: 3 }));
    assert_eq!(lines, vec!["SPAWNED 3 ENEMIES".to_string()]);
    let (cmd, _, _, _) = run("/spawn enemy lots", &mut players);
    assert!(matches!(cmd, ChatCommand::SpawnEnemies { count: 1 }));
    let (cmd, lines, _, _) = run("/spawn chest EpIc", &mut players);
    assert!(matches!(cmd, ChatCommand::SpawnChest { tier: ChestTier::Epic }));
    assert_eq!(lines, vec!["SPAWNED EPIC CHEST".to_string()]);
    let (_, lines, _, _) = run("/spawn chest golden", &mut players);
    assert_eq!(lines, vec!["USAGE: /SPAWN CHEST <COMMON|RARE|EPIC>".to_string()]);
    let (_, lines, _, _) = run("/spawn", &mut players);
    assert_eq!(lines, vec!["USAGE: /SPAWN ENEMY <COUNT> OR /SPAWN CHEST <TIER>".to_string()]);
}

#[test]
fn save_load_and_unknown() {
    let mut players = Vec::new();
    let (_, lines, save, load) = run("/save", &mut players);
    assert_eq!(lines, vec!["WORLD SAVE REQUESTED".to_string()]);
    assert!(save && !load);
    let (_, lines, save, load) = run("/load", &mut players);
    assert_eq!(lines, vec!["WORLD LOAD REQUESTED".to_string()]);
    assert!(!save && load);
    let (cmd, lines, _, _) = run("/Fly now", &mut players);
    assert!(matches!(cmd, ChatCommand::Unknown { ref name } if name == "Fly"));
    assert_eq!(lines, vec!["UNKNOWN COMMAND: /FLY".to_string()]);
}

#[test]
fn words_and_numbers() {
    let words = split_words(&chars("  a\tbc  d "));
    assert_eq!(words, vec![chars("a"), chars("bc"), chars("d")]);
    assert!(split_words(&chars("   ")).is_empty());
    assert_eq!(parse_u32_or(&chars("42"), 1), 42);
    assert_eq!(parse_u32_or(&chars("+42"), 1), 42);
    assert_eq!(parse_u32_or(&chars("-1"), 1), 1);
    assert_eq!(parse_u32_or(&chars("4294967295"), 1), u32::MAX);
    assert_eq!(parse_u32_or(&chars("4294967296"), 1), 1);
    assert_eq!(parse_u32_or(&chars(""), 9), 9);
    assert_eq!(parse_u32_or(&chars("1x"), 9), 9);
    assert_eq!(parse_i32_or(&chars("-2147483648"), 0), i32::MIN);
    assert_eq!(parse_i32_or(&chars("-2147483649"), 0), 0);
    assert_eq!(parse_i32_or(&chars("2147483647"), 0), i32::MAX);
    assert_eq!(parse_i32_or(&chars("-"), 7), 7);
    assert_eq!(parse_usize_or(&chars("12"), 1), 12);
}

#[test]
fn parsing_matches_standard_number_parsing() {
    for text in ["0", "007", "+5", "-5", "+", "", "12a", "99999999999", "4294967295", "-0"] {
        let expected_u32 = text.parse::<u32>().unwrap_or(77);
        assert_eq!(parse_u32_or(&chars(text), 77), expected_u32, "u32 {text}");
        let expected_i32 = text.parse::<i32>().unwrap_or(77);
        assert_eq!(parse_i32_or(&chars(text), 77), expected_i32, "i32 {text}");
    }
}

#[test]
fn execute_parsed_command_directly() {
    let mut players = vec![PlayerRuntimeState::new_local()];
    let cmd = parse_command("/give sidearm 1");
    let outcome = execute_command(&cmd, &mut players);
    // the sidearm slot is full already
    assert_eq!(outcome.lines, vec!["GAVE SIDEARM X0".to_string(), "NO ROOM FOR 1 MORE".to_string()]);
}

use quote_bot::config::{Config, Member};
use quote_bot::text::{join_slices, split_bounds, to_chars, trimmed};
use quote_bot::{Bot, Command};

fn fran_bot() -> Bot {
    let mut bot = Bot::new();
    bot.insert_member("fran", "Fran");
    bot.insert_command("add", Command::Add);
    bot
}

#[test]
fn parse_random_command_from_empty_tail() {
    let mut bot = Bot::new();
    bot.insert_member("fran", "Fran");
    bot.insert_command("add", Command::Add);
    bot.insert_command("", Command::Random);

    let message = "!quotes";
    if let Some(parsed_msg) = bot.parse_message(message) {
        assert_eq!(None, parsed_msg.author);
        assert_eq!(Command::Random, parsed_msg.command);
        assert_eq!(None, parsed_msg.args);
    } else {
        panic!();
    }
}

#[test]
fn parse_author_and_random_command_from_empty_tail() {
    let mut bot = Bot::new();
    bot.insert_member("fran", "Fran");
    bot.insert_command("add", Command::Add);
    bot.insert_command("", Command::Random);

    let message = "!quotes fran";
    if let Some(parsed_msg) = bot.parse_message(message) {
        assert_eq!("Fran", parsed_msg.author.unwrap());
        assert_eq!(Command::Random, parsed_msg.command);
        assert_eq!(None, parsed_msg.args);
    } else {
        panic!();
    }
}

#[test]
fn parse_author_command_and_quote_from_message() {
    let bot = fran_bot();

    let message = "!quotes fran add blah";
    if let Some(parsed_msg) = bot.parse_message(message) {
        assert_eq!("Fran", parsed_msg.author.unwrap());
        assert_eq!(Command::Add, parsed_msg.command);
        assert_eq!("blah", parsed_msg.args.unwrap());
    } else {
        panic!();
    }
}

#[test]
fn bot_ignore_message_without_parsable_command() {
    let bot = fran_bot();

    let message = "meow";
    if let Some(_parsed_msg) = bot.parse_message(message) {
        panic!();
    }
}

#[test]
fn strip_prefix_author_and_command_from_message() {
    let mut bot = Bot::new();
    bot.insert_member(&"fran".to_string(), &"Fran".to_string());
    bot.insert_command(&"add".to_string(), Command::Add);

    let message = "!quotes fran add blah".to_string();
    if let Some(parsed_msg) = bot.parse_message(&message) {
        assert_eq!("Fran", parsed_msg.author.unwrap());
        assert_eq!(Command::Add, parsed_msg.command);
        assert_eq!("blah", parsed_msg.args.unwrap());
    } else {
        panic!();
    }
}

#[test]
fn lib_ignore_message_without_parsable_command() {
    let mut bot = Bot::new();
    bot.insert_member(&"fran".to_string(), &"Fran".to_string());
    bot.insert_command(&"add".to_string(), Command::Add);

    let message = "meow".to_string();
    if let Some(_parsed_msg) = bot.parse_message(&message) {
        panic!();
    }
}

fn strip_author(args: &str) -> (String, String) {
    let chars = to_chars(args);
    let bounds = split_bounds(&chars, 0, chars.len(), ' ');
    assert!(bounds.len() > 1, "Args length greater than 1");
    let (from, to) = bounds[0];
    let author: String = chars[from..to].iter().collect();
    (author, join_slices(args, &bounds, 1))
}

#[test]
fn commands_author_stripped_from_args() {
    let (author, quote) = strip_author("fran meow meow");
    assert_eq!(author, "fran");
    assert_eq!(quote, "meow meow");
}

#[test]
fn quotes_author_stripped_from_args() {
    let (author, quote) = strip_author("fran meow meow");
    assert_eq!(author, "fran");
    assert_eq!(quote, "meow meow");
}

#[test]
fn commands_author_can_be_found() {
    let mut bot = Bot::new();
    bot.insert_member("fran", "Fran");
    if let Some(author_display_name) = bot.find_author("fran meow") {
        assert_eq!(author_display_name, "Fran");
    } else {
        panic!();
    }
}

#[test]
fn quotes_author_can_be_found() {
    let mut bot = Bot::new();
    bot.insert_member("fran", "Fran");
    if let Some(author_display_name) = bot.find_author("fran meow") {
        assert_eq!(author_display_name, "Fran");
    } else {
        panic!();
    }
}

#[test]
fn message_without_prefix_is_ignored() {
    let bot = fran_bot();
    assert!(bot.parse_message("").is_none());
    assert!(bot.parse_message("fran add blah").is_none());
    assert!(bot.parse_message(" !quotes fran add blah").is_none());
    assert!(bot.parse_message("!quote fran").is_none());
    assert!(bot.parse_message("!Quotes fran").is_none());
}

#[test]
fn bare_prefix_asks_for_random() {
    let bot = fran_bot();
    let parsed = bot.parse_message("!quotes").unwrap();
    assert_eq!(parsed.command, Command::Random);
    assert_eq!(parsed.author, None);
    assert_eq!(parsed.args, None);
    let padded = bot.parse_message("!quotes   ").unwrap();
    assert_eq!(padded.command, Command::Random);
    assert_eq!(padded.author, None);
    assert_eq!(padded.args, None);
}

#[test]
fn unknown_token_is_ignored() {
    let bot = fran_bot();
    assert!(bot.parse_message("!quotes varek").is_none());
    assert!(bot.parse_message("!quotes fran remove 3").is_none());
    assert!(bot.parse_message("!quotes fran varek").is_none());
}

#[test]
fn alias_and_keyword_ignore_ascii_case() {
    let mut bot = Bot::new();
    bot.insert_member("Fran", "Fran");
    bot.insert_command("ADD", Command::Add);
    let parsed = bot.parse_message("!quotes FRAN Add Blah blah").unwrap();
    assert_eq!(parsed.command, Command::Add);
    assert_eq!(parsed.author.unwrap(), "Fran");
    assert_eq!(parsed.args.unwrap(), "Blah blah");
}

#[test]
fn keyword_without_author() {
    let mut bot = fran_bot();
    bot.insert_command("length", Command::Length);
    let parsed = bot.parse_message("!quotes length").unwrap();
    assert_eq!(parsed.command, Command::Length);
    assert_eq!(parsed.author, None);
    assert_eq!(parsed.args.unwrap(), "");
}

#[test]
fn arguments_keep_inner_spaces_and_lose_outer_whitespace() {
    let bot = fran_bot();
    let parsed = bot.parse_message("!quotes \t fran add  a  b \n").unwrap();
    assert_eq!(parsed.command, Command::Add);
    assert_eq!(parsed.author.unwrap(), "Fran");
    assert_eq!(parsed.args.unwrap(), " a  b");
}

#[test]
fn second_space_after_prefix_gives_an_empty_token() {
    let mut bot = fran_bot();
    bot.insert_command("length", Command::Length);
    let parsed = bot.parse_message("!quotes fran  length").unwrap();
    assert_eq!(parsed.command, Command::Random);
    assert_eq!(parsed.author.unwrap(), "Fran");
    assert_eq!(parsed.args, None);
}

#[test]
fn keyword_bound_to_ignore_means_nothing() {
    let mut bot = fran_bot();
    bot.insert_command("hush", Command::IgnoreMsg);
    assert!(bot.parse_message("!quotes fran hush now").is_none());
}

#[test]
fn later_registration_replaces_earlier() {
    let mut bot = Bot::new();
    bot.insert_member("fran", "Fran");
    bot.insert_member("varek", "Varek");
    bot.insert_member("FRAN", "Francis");
    bot.insert_command("add", Command::Length);
    bot.insert_command("add", Command::Add);
    let parsed = bot.parse_message("!quotes fran add x").unwrap();
    assert_eq!(parsed.author.unwrap(), "Francis");
    assert_eq!(parsed.command, Command::Add);
    assert_eq!(bot.find_author("varek").unwrap(), "Varek");
    assert_eq!(bot.find_author("nobody"), None);
}

#[test]
fn configured_prefix() {
    let mut bot = Bot::with_prefix(">quotes");
    bot.insert_member("fran", "Fran");
    bot.insert_command("add", Command::Add);
    assert!(bot.parse_message("!quotes fran add blah").is_none());
    let parsed = bot.parse_message(">quotes fran add blah").unwrap();
    assert_eq!(parsed.command, Command::Add);
    assert_eq!(parsed.args.unwrap(), "blah");
}

#[test]
fn directory_and_registry_scenario() {
    let mut bot = Bot::new();
    bot.insert_member("fran", "Fran");
    bot.insert_command("add", Command::Add);
    bot.insert_command("", Command::Random);

    let added = bot.parse_message("!quotes fran add blah").unwrap();
    assert_eq!(added.command, Command::Add);
    assert_eq!(added.author, Some("Fran".to_string()));
    assert_eq!(added.args, Some("blah".to_string()));

    let random = bot.parse_message("!quotes fran").unwrap();
    assert_eq!(random.command, Command::Random);
    assert_eq!(random.author, Some("Fran".to_string()));
    assert_eq!(random.args, None);

    assert!(bot.parse_message("meow").is_none());
}

#[test]
fn roster_is_registered_in_order() {
    let config = Config {
        members: vec![
            Member { name: "fran".to_string(), display_name: "Fran".to_string() },
            Member { name: "varek".to_string(), display_name: "Varek".to_string() },
            Member { name: "Fran".to_string(), display_name: "Frances".to_string() },
        ],
    };
    let mut bot = Bot::new();
    bot.insert_roster(&config);
    assert_eq!(bot.find_author("fran").unwrap(), "Frances");
    assert_eq!(bot.find_author("VAREK").unwrap(), "Varek");
}

#[test]
fn trimming_takes_unicode_whitespace_off_both_ends() {
    assert_eq!(trimmed("  hi  "), "hi");
    assert_eq!(trimmed("\t\u{a0}hi there\u{2003}\n"), "hi there");
    assert_eq!(trimmed("   "), "");
    assert_eq!(trimmed(""), "");
    assert_eq!(trimmed("x"), "x");
}

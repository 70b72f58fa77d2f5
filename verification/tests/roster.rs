use quote_bot::{Bot, Config, Member};

fn member_from(value: &serde_json::Value) -> Member {
    Member {
        name: value["name"].as_str().unwrap().to_string(),
        display_name: value["display_name"].as_str().unwrap().to_string(),
    }
}

fn config_from(value: &serde_json::Value) -> Config {
    Config { members: value["members"].as_array().unwrap().iter().map(member_from).collect() }
}

const ONE_MEMBER: &str = r#"
            {
                "name": "fran",
                "display_name": "Fran"
            }"#;

const TWO_MEMBERS: &str = r#"
            {
                "members": [
                    {
                        "name": "fran",
                        "display_name": "Fran"
                    },
                    {
                        "name": "varek",
                        "display_name": "Varek"
                    }
                ]
            }"#;

#[test]
fn config_parse_member_from_json() {
    let value: serde_json::Value = serde_json::from_str(ONE_MEMBER).unwrap();
    let member = member_from(&value);
    assert_eq!(member.name, "fran");
    assert_eq!(member.display_name, "Fran");
}

#[test]
fn config_parse_member_list_from_json() {
    let value: serde_json::Value = serde_json::from_str(TWO_MEMBERS).unwrap();
    let config = config_from(&value);
    assert_eq!(config.members[0].name, "fran");
    assert_eq!(config.members[1].display_name, "Varek");
}

#[test]
fn lib_parse_member_from_json() {
    let value: serde_json::Value = serde_json::from_str(ONE_MEMBER).unwrap();
    let member = member_from(&value);
    assert_eq!(member.name, "fran".to_string());
    assert_eq!(member.display_name, "Fran".to_string());
}

#[test]
fn lib_parse_member_list_from_json() {
    let value: serde_json::Value = serde_json::from_str(TWO_MEMBERS).unwrap();
    let config = config_from(&value);
    assert_eq!(config.members[0].name, "fran".to_string());
    assert_eq!(config.members[1].display_name, "Varek".to_string());
}

#[test]
fn parse_member_list_from_json_into_bot() {
    let value: serde_json::Value = serde_json::from_str(TWO_MEMBERS).unwrap();
    let config = config_from(&value);
    let mut bot = Bot::new();
    for Member { name, display_name } in config.members {
        bot.insert_member(&name, &display_name);
    }
    assert_eq!(bot.find_author("fran").unwrap(), "Fran".to_string());
    assert_eq!(bot.find_author("varek").unwrap(), "Varek".to_string());
}

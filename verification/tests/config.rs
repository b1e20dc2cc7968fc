use nanobot::config::{
    copy_actions, to_toml, ActionConfig, AssetsConfig, Config, DatabaseConfig, InputConfig,
    LoggingConfig, LoggingLevel, NanobotConfig, TemplatesConfig, TomlConfig, ValveTomlConfig,
    DEFAULT_PORT,
};
use nanobot::serve::Params;

fn action() -> ActionConfig {
    ActionConfig {
        label: "Status".to_string(),
        inputs: Some(vec![InputConfig {
            name: "branch".to_string(),
            label: "Branch".to_string(),
            value: None,
            default: Some("main".to_string()),
            placeholder: None,
            test: Some("x".to_string()),
        }]),
        commands: vec![vec!["git".to_string(), "status".to_string()], vec![]],
    }
}

#[test]
fn defaults_of_the_tables() {
    assert_eq!(LoggingLevel::default(), LoggingLevel::WARN);
    assert_eq!(
        NanobotConfig::default(),
        NanobotConfig { config_version: 1, port: Some(3000) }
    );
    assert_eq!(DEFAULT_PORT, 3000);
    assert_eq!(LoggingConfig::default(), LoggingConfig { level: None });
    assert_eq!(
        DatabaseConfig::default(),
        DatabaseConfig { connection: Some(".nanobot.db".to_string()) }
    );
    assert_eq!(
        ValveTomlConfig::default(),
        ValveTomlConfig { path: Some("src/schema/table.tsv".to_string()) }
    );
    assert_eq!(AssetsConfig::default(), AssetsConfig { path: None });
    assert_eq!(TemplatesConfig::default(), TemplatesConfig { path: None });
    assert_eq!(
        ActionConfig::default(),
        ActionConfig { label: String::new(), inputs: None, commands: vec![] }
    );
    assert_eq!(
        InputConfig::default(),
        InputConfig {
            name: String::new(),
            label: String::new(),
            value: None,
            default: None,
            placeholder: None,
            test: None,
        }
    );
}

#[test]
fn settings_of_an_empty_file() {
    let config = Config::new(TomlConfig::default(), true, true);
    assert_eq!(
        config,
        Config {
            config_version: 1,
            port: 3000,
            logging_level: LoggingLevel::WARN,
            valve_path: "src/schema/table.tsv".to_string(),
            initial_load: false,
            create_only: false,
            connection: ".nanobot.db".to_string(),
            asset_path: None,
            template_path: None,
            actions: vec![],
        }
    );
}

#[test]
fn settings_of_a_full_file() {
    let user = TomlConfig {
        nanobot: NanobotConfig { config_version: 2, port: None },
        logging: Some(LoggingConfig { level: Some(LoggingLevel::DEBUG) }),
        database: Some(DatabaseConfig { connection: Some("my.db".to_string()) }),
        valve: Some(ValveTomlConfig { path: Some("table.tsv".to_string()) }),
        assets: Some(AssetsConfig { path: Some("assets".to_string()) }),
        templates: Some(TemplatesConfig { path: Some("templates".to_string()) }),
        actions: Some(vec![("status".to_string(), action())]),
    };
    let config = Config::new(user.clone(), true, false);
    assert_eq!(config.config_version, 2);
    assert_eq!(config.port, 3000);
    assert_eq!(config.logging_level, LoggingLevel::DEBUG);
    assert_eq!(config.connection, "my.db");
    assert_eq!(config.valve_path, "table.tsv");
    assert_eq!(config.asset_path, Some("assets".to_string()));
    assert_eq!(config.template_path, None);
    assert_eq!(config.actions, vec![("status".to_string(), action())]);
    let config = Config::new(user, false, true);
    assert_eq!(config.asset_path, None);
    assert_eq!(config.template_path, Some("templates".to_string()));
}

#[test]
fn tables_without_values_fall_back() {
    let user = TomlConfig {
        nanobot: NanobotConfig { config_version: 1, port: Some(8080) },
        logging: Some(LoggingConfig { level: None }),
        database: Some(DatabaseConfig { connection: None }),
        valve: Some(ValveTomlConfig { path: None }),
        assets: Some(AssetsConfig { path: None }),
        templates: None,
        actions: None,
    };
    let config = Config::new(user, true, true);
    assert_eq!(config.port, 8080);
    assert_eq!(config.logging_level, LoggingLevel::WARN);
    assert_eq!(config.connection, ".nanobot.db");
    assert_eq!(config.valve_path, "src/schema/table.tsv");
    assert_eq!(config.asset_path, None);
    assert_eq!(config.template_path, None);
}

#[test]
fn setters_change_one_field() {
    let mut config = Config::new(TomlConfig::default(), false, false);
    let before = config.clone();
    config.connection("other.db").create_only(true).initial_load(true);
    assert_eq!(config.connection, "other.db");
    assert!(config.create_only);
    assert!(config.initial_load);
    config.connection(".nanobot.db").create_only(false).initial_load(false);
    assert_eq!(config, before);
}

#[test]
fn file_form_holds_every_value() {
    let mut config = Config::new(TomlConfig::default(), false, false);
    config.asset_path = Some("assets".to_string());
    config.actions = vec![("status".to_string(), action())];
    config.logging_level = LoggingLevel::ERROR;
    let file = to_toml(&config);
    assert_eq!(
        file,
        TomlConfig {
            nanobot: NanobotConfig { config_version: 1, port: Some(3000) },
            logging: Some(LoggingConfig { level: Some(LoggingLevel::ERROR) }),
            database: Some(DatabaseConfig { connection: Some(".nanobot.db".to_string()) }),
            valve: Some(ValveTomlConfig { path: Some("src/schema/table.tsv".to_string()) }),
            assets: Some(AssetsConfig { path: Some("assets".to_string()) }),
            templates: Some(TemplatesConfig { path: None }),
            actions: Some(vec![("status".to_string(), action())]),
        }
    );
    assert_eq!(Config::new(file, true, true), config);
}

#[test]
fn copies_are_equal() {
    assert_eq!(action().copy(), action());
    let input = action().inputs.unwrap().remove(0);
    assert_eq!(input.copy(), input);
    let actions = vec![("a".to_string(), action()), ("b".to_string(), ActionConfig::default())];
    assert_eq!(copy_actions(&actions), actions);
}

#[test]
fn page_of_a_request() {
    let params = Params { limit: Some(20), offset: Some(40), table: None };
    let q = params.page_of("people");
    assert_eq!(q.table, "people");
    assert!(q.select.is_empty());
    assert!(q.filter.is_empty());
    assert!(q.order.is_empty());
    assert_eq!(q.limit, 20);
    assert_eq!(q.offset, 40);
    let q = Params { limit: None, offset: None, table: None }.page_of("people");
    assert_eq!(q.limit, 0);
    assert_eq!(q.offset, 0);
    let q = Params { limit: Some(1000), offset: None, table: None }.page_of("people");
    assert_eq!(q.limit, 100);
}

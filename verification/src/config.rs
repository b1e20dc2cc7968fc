//! The settings of the program: what a settings file may hold, the defaults
//! for what it leaves out, and the settings that result.

use vstd::prelude::*;
use crate::text::texts;

verus! {

/// How much is logged.
#[derive(Clone, Copy, Debug, PartialEq, Eq, Structural, PartialOrd, Ord)]
pub enum LoggingLevel {
    DEBUG,
    INFO,
    WARN,
    ERROR,
}

impl Default for LoggingLevel {
    fn default() -> (r: LoggingLevel)
        ensures
            r == LoggingLevel::WARN,
    {
        LoggingLevel::WARN
    }
}

/// The port that the server listens on where none is named.
pub const DEFAULT_PORT: u16 = 3000;

/// The `[nanobot]` table of a settings file.
#[derive(Clone, Debug, PartialEq, Eq)]
pub struct NanobotConfig {
    pub config_version: u16,
    pub port: Option<u16>,
}

impl Default for NanobotConfig {
    fn default() -> (r: NanobotConfig)
        ensures
            r.config_version == 1,
            r.port == Some(DEFAULT_PORT),
    {
        NanobotConfig { config_version: 1, port: Some(DEFAULT_PORT) }
    }
}

/// The `[logging]` table of a settings file.
#[derive(Clone, Debug, PartialEq, Eq)]
pub struct LoggingConfig {
    pub level: Option<LoggingLevel>,
}

impl Default for LoggingConfig {
    fn default() -> (r: LoggingConfig)
        ensures
            r.level is None,
    {
        LoggingConfig { level: None }
    }
}

/// The database that is opened where none is named.
pub open spec fn default_connection() -> Seq<char> {
    ".nanobot.db"@
}

/// The table of tables that is read where none is named.
pub open spec fn default_valve_path() -> Seq<char> {
    "src/schema/table.tsv"@
}

/// The `[database]` table of a settings file.
#[derive(Clone, Debug, PartialEq, Eq)]
pub struct DatabaseConfig {
    pub connection: Option<String>,
}

impl Default for DatabaseConfig {
    fn default() -> (r: DatabaseConfig)
        ensures
            r.connection matches Some(c) && c@ == default_connection(),
    {
        DatabaseConfig { connection: Some(String::from_str(".nanobot.db")) }
    }
}

/// The `[valve]` table of a settings file.
#[derive(Clone, Debug, PartialEq, Eq)]
pub struct ValveTomlConfig {
    pub path: Option<String>,
}

impl Default for ValveTomlConfig {
    fn default() -> (r: ValveTomlConfig)
        ensures
            r.path matches Some(p) && p@ == default_valve_path(),
    {
        ValveTomlConfig { path: Some(String::from_str("src/schema/table.tsv")) }
    }
}

/// The `[assets]` table of a settings file.
#[derive(Clone, Debug, PartialEq, Eq)]
pub struct AssetsConfig {
    pub path: Option<String>,
}

impl Default for AssetsConfig {
    fn default() -> (r: AssetsConfig)
        ensures
            r.path is None,
    {
        AssetsConfig { path: None }
    }
}

/// The `[templates]` table of a settings file.
#[derive(Clone, Debug, PartialEq, Eq)]
pub struct TemplatesConfig {
    pub path: Option<String>,
}

impl Default for TemplatesConfig {
    fn default() -> (r: TemplatesConfig)
        ensures
            r.path is None,
    {
        TemplatesConfig { path: None }
    }
}

/// One input of an action.
#[derive(Clone, Debug, PartialEq, Eq)]
pub struct InputConfig {
    pub name: String,
    pub label: String,
    pub value: Option<String>,
    pub default: Option<String>,
    pub placeholder: Option<String>,
    pub test: Option<String>,
}

impl Default for InputConfig {
    fn default() -> (r: InputConfig)
        ensures
            r.name@.len() == 0,
            r.label@.len() == 0,
            r.value is None,
            r.default is None,
            r.placeholder is None,
            r.test is None,
    {
        InputConfig {
            name: String::new(),
            label: String::new(),
            value: None,
            default: None,
            placeholder: None,
            test: None,
        }
    }
}

/// One action: its label, its inputs and the commands it runs.
#[derive(Clone, Debug, PartialEq, Eq)]
pub struct ActionConfig {
    pub label: String,
    pub inputs: Option<Vec<InputConfig>>,
    pub commands: Vec<Vec<String>>,
}

impl Default for ActionConfig {
    fn default() -> (r: ActionConfig)
        ensures
            r.label@.len() == 0,
            r.inputs is None,
            r.commands@.len() == 0,
    {
        ActionConfig { label: String::new(), inputs: None, commands: Vec::new() }
    }
}

/// What an `InputConfig` stands for.
pub struct InputModel {
    pub name: Seq<char>,
    pub label: Seq<char>,
    pub value: Option<Seq<char>>,
    pub default: Option<Seq<char>>,
    pub placeholder: Option<Seq<char>>,
    pub test: Option<Seq<char>>,
}

/// What an `ActionConfig` stands for.
pub struct ActionModel {
    pub label: Seq<char>,
    pub inputs: Option<Seq<InputModel>>,
    pub commands: Seq<Seq<Seq<char>>>,
}

/// The text that an optional string holds.
pub open spec fn text_option(s: Option<String>) -> Option<Seq<char>> {
    match s {
        Some(t) => Some(t@),
        None => None,
    }
}

pub open spec fn inputs_view(v: Seq<InputConfig>) -> Seq<InputModel> {
    Seq::new(v.len(), |i: int| v[i]@)
}

pub open spec fn commands_view(v: Seq<Vec<String>>) -> Seq<Seq<Seq<char>>> {
    Seq::new(v.len(), |i: int| texts(v[i]@))
}

pub open spec fn actions_view(v: Seq<(String, ActionConfig)>) -> Seq<(Seq<char>, ActionModel)> {
    Seq::new(v.len(), |i: int| (v[i].0@, v[i].1@))
}

impl View for InputConfig {
    type V = InputModel;

    open spec fn view(&self) -> InputModel {
        InputModel {
            name: self.name@,
            label: self.label@,
            value: text_option(self.value),
            default: text_option(self.default),
            placeholder: text_option(self.placeholder),
            test: text_option(self.test),
        }
    }
}

impl View for ActionConfig {
    type V = ActionModel;

    open spec fn view(&self) -> ActionModel {
        ActionModel {
            label: self.label@,
            inputs: match self.inputs {
                Some(v) => Some(inputs_view(v@)),
                None => None,
            },
            commands: commands_view(self.commands@),
        }
    }
}

/// A copy of an optional string.
fn copy_text_option(s: &Option<String>) -> (r: Option<String>)
    ensures
        text_option(r) == text_option(*s),
{
    match s {
        Some(t) => Some(t.clone()),
        None => None,
    }
}

/// A copy of a list of strings.
fn copy_texts(v: &Vec<String>) -> (r: Vec<String>)
    ensures
        texts(r@) == texts(v@),
{
    let mut r: Vec<String> = Vec::new();
    let mut i: usize = 0;
    while i < v.len()
        invariant
            0 <= i <= v.len(),
            r@.len() == i,
            forall|j: int| 0 <= j < i ==> r@[j]@ == v@[j]@,
        decreases v.len() - i,
    {
        r.push(v[i].clone());
        i = i + 1;
    }
    assert(texts(r@) =~= texts(v@));
    r
}

impl InputConfig {
    /// A copy of the input.
    pub fn copy(&self) -> (r: InputConfig)
        ensures
            r@ == self@,
    {
        InputConfig {
            name: self.name.clone(),
            label: self.label.clone(),
            value: copy_text_option(&self.value),
            default: copy_text_option(&self.default),
            placeholder: copy_text_option(&self.placeholder),
            test: copy_text_option(&self.test),
        }
    }
}

impl ActionConfig {
    /// A copy of the action.
    pub fn copy(&self) -> (r: ActionConfig)
        ensures
            r@ == self@,
    {
        let inputs = match &self.inputs {
            Some(v) => {
                let mut c: Vec<InputConfig> = Vec::new();
                let mut i: usize = 0;
                while i < v.len()
                    invariant
                        0 <= i <= v.len(),
                        c@.len() == i,
                        forall|j: int| 0 <= j < i ==> c@[j]@ == v@[j]@,
                    decreases v.len() - i,
                {
                    c.push(v[i].copy());
                    i = i + 1;
                }
                assert(inputs_view(c@) =~= inputs_view(v@));
                Some(c)
            },
            None => None,
        };
        let mut commands: Vec<Vec<String>> = Vec::new();
        let mut k: usize = 0;
        while k < self.commands.len()
            invariant
                0 <= k <= self.commands.len(),
                commands@.len() == k,
                forall|j: int| 0 <= j < k ==> texts(commands@[j]@) == texts(self.commands@[j]@),
            decreases self.commands.len() - k,
        {
            commands.push(copy_texts(&self.commands[k]));
            k = k + 1;
        }
        assert(commands_view(commands@) =~= commands_view(self.commands@));
        ActionConfig { label: self.label.clone(), inputs, commands }
    }
}

/// A copy of a list of actions under their names.
pub fn copy_actions(v: &Vec<(String, ActionConfig)>) -> (r: Vec<(String, ActionConfig)>)
    ensures
        actions_view(r@) == actions_view(v@),
{
    let mut r: Vec<(String, ActionConfig)> = Vec::new();
    let mut i: usize = 0;
    while i < v.len()
        invariant
            0 <= i <= v.len(),
            r@.len() == i,
            forall|j: int| 0 <= j < i ==> r@[j].0@ == v@[j].0@ && r@[j].1@ == v@[j].1@,
        decreases v.len() - i,
    {
        let a = &v[i];
        r.push((a.0.clone(), a.1.copy()));
        i = i + 1;
    }
    assert(actions_view(r@) =~= actions_view(v@));
    r
}

/// What a settings file holds: the `[nanobot]` table, and each other table
/// where the file has it. The actions stand in the order of the file.
#[derive(Clone, Debug, PartialEq, Eq)]
pub struct TomlConfig {
    pub nanobot: NanobotConfig,
    pub logging: Option<LoggingConfig>,
    pub database: Option<DatabaseConfig>,
    pub valve: Option<ValveTomlConfig>,
    pub assets: Option<AssetsConfig>,
    pub templates: Option<TemplatesConfig>,
    pub actions: Option<Vec<(String, ActionConfig)>>,
}

impl Default for TomlConfig {
    fn default() -> (r: TomlConfig)
        ensures
            r.nanobot.config_version == 1,
            r.nanobot.port == Some(DEFAULT_PORT),
            r.logging is None,
            r.database is None,
            r.valve is None,
            r.assets is None,
            r.templates is None,
            r.actions is None,
    {
        TomlConfig {
            nanobot: NanobotConfig::default(),
            logging: None,
            database: None,
            valve: None,
            assets: None,
            templates: None,
            actions: None,
        }
    }
}

/// The settings that the program runs with.
#[derive(Clone, Debug, PartialEq, Eq)]
pub struct Config {
    pub config_version: u16,
    pub port: u16,
    pub logging_level: LoggingLevel,
    pub valve_path: String,
    pub initial_load: bool,
    pub create_only: bool,
    pub connection: String,
    pub asset_path: Option<String>,
    pub template_path: Option<String>,
    pub actions: Vec<(String, ActionConfig)>,
}

/// The logging level that a settings file asks for, `WARN` where it names
/// none.
pub open spec fn level_of(user: TomlConfig) -> LoggingLevel {
    match user.logging {
        Some(LoggingConfig { level: Some(l) }) => l,
        _ => LoggingLevel::WARN,
    }
}

/// The database that a settings file names, the default where it names
/// none.
pub open spec fn connection_of(user: TomlConfig) -> Seq<char> {
    match user.database {
        Some(DatabaseConfig { connection: Some(c) }) => c@,
        _ => default_connection(),
    }
}

/// The table of tables that a settings file names, the default where it
/// names none.
pub open spec fn valve_path_of(user: TomlConfig) -> Seq<char> {
    match user.valve {
        Some(ValveTomlConfig { path: Some(p) }) => p@,
        _ => default_valve_path(),
    }
}

/// The directory of assets that a settings file names, where it names one.
pub open spec fn assets_of(user: TomlConfig) -> Option<Seq<char>> {
    match user.assets {
        Some(AssetsConfig { path: Some(p) }) => Some(p@),
        _ => None,
    }
}

/// The directory of templates that a settings file names, where it names
/// one.
pub open spec fn templates_of(user: TomlConfig) -> Option<Seq<char>> {
    match user.templates {
        Some(TemplatesConfig { path: Some(p) }) => Some(p@),
        _ => None,
    }
}

/// The actions that a settings file lists, none where it has no such table.
pub open spec fn actions_of(user: TomlConfig) -> Seq<(Seq<char>, ActionModel)> {
    match user.actions {
        Some(a) => actions_view(a@),
        None => Seq::empty(),
    }
}

impl Config {
    /// The settings that a settings file gives, with the defaults for what
    /// it leaves out. A directory of assets or of templates is taken only
    /// where the file names it and the caller found it.
    pub fn new(user: TomlConfig, assets_found: bool, templates_found: bool) -> (r: Config)
        ensures
            r.config_version == user.nanobot.config_version,
            r.port == match user.nanobot.port {
                Some(p) => p,
                None => DEFAULT_PORT,
            },
            r.logging_level == level_of(user),
            r.valve_path@ == valve_path_of(user),
            !r.initial_load,
            !r.create_only,
            r.connection@ == connection_of(user),
            text_option(r.asset_path) == if assets_found {
                assets_of(user)
            } else {
                None
            },
            text_option(r.template_path) == if templates_found {
                templates_of(user)
            } else {
                None
            },
            actions_view(r.actions@) == actions_of(user),
    {
        let port = match user.nanobot.port {
            Some(p) => p,
            None => DEFAULT_PORT,
        };
        let logging_level = match user.logging {
            Some(LoggingConfig { level: Some(l) }) => l,
            _ => LoggingLevel::WARN,
        };
        let connection = match user.database {
            Some(DatabaseConfig { connection: Some(c) }) => c,
            _ => String::from_str(".nanobot.db"),
        };
        let valve_path = match user.valve {
            Some(ValveTomlConfig { path: Some(p) }) => p,
            _ => String::from_str("src/schema/table.tsv"),
        };
        let asset_path = match user.assets {
            Some(AssetsConfig { path: Some(p) }) => if assets_found {
                Some(p)
            } else {
                None
            },
            _ => None,
        };
        let template_path = match user.templates {
            Some(TemplatesConfig { path: Some(p) }) => if templates_found {
                Some(p)
            } else {
                None
            },
            _ => None,
        };
        let actions = match user.actions {
            Some(a) => a,
            None => {
                let a: Vec<(String, ActionConfig)> = Vec::new();
                assert(actions_view(a@) =~= Seq::<(Seq<char>, ActionModel)>::empty());
                a
            },
        };
        Config {
            config_version: user.nanobot.config_version,
            port,
            logging_level,
            valve_path,
            initial_load: false,
            create_only: false,
            connection,
            asset_path,
            template_path,
            actions,
        }
    }

    /// Names another database.
    pub fn connection(&mut self, connection: &str) -> (r: &mut Config)
        ensures
            r.connection@ == connection@,
            *r == (Config { connection: r.connection, ..*old(self) }),
            *final(self) == *final(r),
    {
        self.connection = String::from_str(connection);
        self
    }

    /// Says whether tables are only to be created, not loaded.
    pub fn create_only(&mut self, value: bool) -> (r: &mut Config)
        ensures
            *r == (Config { create_only: value, ..*old(self) }),
            *final(self) == *final(r),
    {
        self.create_only = value;
        self
    }

    /// Says whether the tables are to be loaded for the first time.
    pub fn initial_load(&mut self, value: bool) -> (r: &mut Config)
        ensures
            *r == (Config { initial_load: value, ..*old(self) }),
            *final(self) == *final(r),
    {
        self.initial_load = value;
        self
    }
}

/// The settings as a settings file would hold them: every table is there,
/// and every value that the settings have.
pub fn to_toml(config: &Config) -> (r: TomlConfig)
    ensures
        r.nanobot.config_version == config.config_version,
        r.nanobot.port == Some(config.port),
        r.logging == Some(LoggingConfig { level: Some(config.logging_level) }),
        r.database matches Some(d) && text_option(d.connection) == Some(config.connection@),
        r.valve matches Some(v) && text_option(v.path) == Some(config.valve_path@),
        r.assets matches Some(a) && text_option(a.path) == text_option(config.asset_path),
        r.templates matches Some(t) && text_option(t.path) == text_option(config.template_path),
        r.actions matches Some(a) && actions_view(a@) == actions_view(config.actions@),
{
    TomlConfig {
        nanobot: NanobotConfig { config_version: config.config_version, port: Some(config.port) },
        logging: Some(LoggingConfig { level: Some(config.logging_level) }),
        database: Some(DatabaseConfig { connection: Some(config.connection.clone()) }),
        valve: Some(ValveTomlConfig { path: Some(config.valve_path.clone()) }),
        assets: Some(AssetsConfig { path: copy_text_option(&config.asset_path) }),
        templates: Some(TemplatesConfig { path: copy_text_option(&config.template_path) }),
        actions: Some(copy_actions(&config.actions)),
    }
}

} // verus!

//! The command resolver: a configuration and a type give the command to run.
//!
//! The configuration is a TOML document. Its tables are named after main
//! types and map a subtype, or `default`, to a command; the table `global`
//! holds the fallback under `default` and, under any other key, an alias: a
//! short name for a full command.

use vstd::prelude::*;
use vstd::string::*;

verus! {

/// `toml::Value`, a parsed TOML value. Nothing of its inside is visible here:
/// what it holds is read through `value_node`.
#[verifier::external_type_specification]
#[verifier::external_body]
pub struct ExValue(toml::Value);

/// `toml::map::Map`, the table inside a TOML value. What a table of values
/// holds is read through `table_nodes`.
#[verifier::external_type_specification]
#[verifier::external_body]
#[verifier::reject_recursive_types(K)]
#[verifier::reject_recursive_types(V)]
pub struct ExTable<K, V>(toml::map::Map<K, V>);

/// `toml::de::Error`, the parser's complaint. It is only ever dropped.
#[verifier::external_type_specification]
#[verifier::external_body]
pub struct ExParseError(toml::de::Error);

/// What the resolver reads of a configuration value: a string, a table of
/// further values by key, or anything else.
pub enum Node {
    Text(Seq<char>),
    Table(Map<Seq<char>, Node>),
    Other,
}

/// Why a configuration gives no command.
#[derive(Debug, Clone, Copy, PartialEq, Eq, Structural)]
pub enum ConfigError {
    /// The text is not a TOML document.
    Unparseable,
    /// The document, or its entry `global`, is not a table.
    NotATable,
    /// The document has no entry `global`.
    NoGlobal,
    /// The table `global` has no entry `default`.
    NoGlobalDefault,
    /// An entry that should name a command is not a string.
    NotAString,
}

/// What a TOML value holds: for a string its characters, for a table what
/// its entries hold, by key.
pub uninterp spec fn value_node(value: toml::Value) -> Node;

/// What a TOML table holds, by key.
pub uninterp spec fn table_nodes(table: toml::map::Map<String, toml::Value>) -> Map<
    Seq<char>,
    Node,
>;

/// What the TOML parser reads from `text`: what the document holds, or
/// nothing where `text` is no document.
pub uninterp spec fn parsed_document(text: Seq<char>) -> Option<Node>;

/// The key of the table of fallbacks and aliases.
pub open spec fn global_key() -> Seq<char> {
    "global"@
}

/// The key of a table's fallback entry.
pub open spec fn default_key() -> Seq<char> {
    "default"@
}

/// The entry of `table` under `key`.
pub open spec fn lookup(table: Map<Seq<char>, Node>, key: Seq<char>) -> Option<Node> {
    if table.contains_key(key) {
        Some(table[key])
    } else {
        None
    }
}

/// The entry of `node` under `key`; none where `node` is not a table.
pub open spec fn entry(node: Node, key: Seq<char>) -> Option<Node> {
    match node {
        Node::Table(table) => lookup(table, key),
        _ => None,
    }
}

/// The command that `node` names.
pub open spec fn command_text(node: Node) -> Result<Seq<char>, ConfigError> {
    match node {
        Node::Text(text) => Ok(text),
        _ => Err(ConfigError::NotAString),
    }
}

/// What the configuration says of the type itself: the entry of its main
/// type's table under the subtype, else the one under `default`.
pub open spec fn type_entry(root: Map<Seq<char>, Node>, main_type: Seq<char>, sub_type: Seq<char>) -> Option<Node> {
    match lookup(root, main_type) {
        Some(section) => match entry(section, sub_type) {
            Some(node) => Some(node),
            None => entry(section, default_key()),
        },
        None => None,
    }
}

/// One step of alias expansion: a name that is a key of `global` stands for
/// the entry there; any other name stands for itself.
pub open spec fn expand_alias(global: Map<Seq<char>, Node>, name: Seq<char>) -> Result<
    Seq<char>,
    ConfigError,
> {
    match lookup(global, name) {
        Some(node) => command_text(node),
        None => Ok(name),
    }
}

/// The command for a type, given the tables `root` and `global`: the type's
/// own entry if it has one, else the global fallback, expanded once.
pub open spec fn select(
    root: Map<Seq<char>, Node>,
    global: Map<Seq<char>, Node>,
    main_type: Seq<char>,
    sub_type: Seq<char>,
) -> Result<Seq<char>, ConfigError> {
    match lookup(global, default_key()) {
        None => Err(ConfigError::NoGlobalDefault),
        Some(fallback) => match command_text(fallback) {
            Err(e) => Err(e),
            Ok(fallback_name) => {
                let name = match type_entry(root, main_type, sub_type) {
                    Some(node) => command_text(node),
                    None => Ok(fallback_name),
                };
                match name {
                    Ok(name) => expand_alias(global, name),
                    Err(e) => Err(e),
                }
            },
        },
    }
}

/// The command that the configuration `cfg` gives for a type.
pub open spec fn resolve(cfg: Node, main_type: Seq<char>, sub_type: Seq<char>) -> Result<
    Seq<char>,
    ConfigError,
> {
    match cfg {
        Node::Table(root) => match lookup(root, global_key()) {
            None => Err(ConfigError::NoGlobal),
            Some(Node::Table(global)) => select(root, global, main_type, sub_type),
            Some(_) => Err(ConfigError::NotATable),
        },
        _ => Err(ConfigError::NotATable),
    }
}

/// The global fallback entry of `cfg`: its entry `default` under `global`.
pub open spec fn global_default(cfg: Node) -> Option<Node> {
    match entry(cfg, global_key()) {
        Some(global) => entry(global, default_key()),
        None => None,
    }
}

/// The command that the configuration text gives for a type.
pub open spec fn configured(text: Seq<char>, main_type: Seq<char>, sub_type: Seq<char>) -> Result<
    Seq<char>,
    ConfigError,
> {
    match parsed_document(text) {
        Some(cfg) => resolve(cfg, main_type, sub_type),
        None => Err(ConfigError::Unparseable),
    }
}

/// `command` is the outcome `expected`.
pub open spec fn is_outcome(command: Result<String, ConfigError>, expected: Result<Seq<char>, ConfigError>) -> bool {
    match command {
        Ok(c) => expected == Ok::<Seq<char>, ConfigError>(c@),
        Err(e) => expected == Err::<Seq<char>, ConfigError>(e),
    }
}

/// Calls `toml::from_str` for a `toml::Value`, which reads a whole TOML
/// document. Believed, not proved: the answer depends on the text alone, so
/// that `parsed_document` can name it; a value comes back for a text that is
/// a document and holds what the document holds, an error for any other
/// text. Which texts are documents is the parser's to say.
#[verifier::external_body]
fn parse_toml(text: &str) -> (parsed: Result<toml::Value, toml::de::Error>)
    ensures
        match parsed {
            Ok(value) => parsed_document(text@) == Some(value_node(value)),
            Err(_) => parsed_document(text@) is None,
        },
{
    toml::from_str::<toml::Value>(text)
}

/// Calls `toml::Value::as_table`. Believed, not proved: a table comes back
/// exactly when `value` is a table, and it holds what `value` holds.
#[verifier::external_body]
fn as_table<'a>(value: &'a toml::Value) -> (table: Option<&'a toml::map::Map<String, toml::Value>>)
    ensures
        match table {
            Some(t) => value_node(*value) == Node::Table(table_nodes(*t)),
            None => !(value_node(*value) is Table),
        },
{
    value.as_table()
}

/// Calls `toml::Value::as_str`. Believed, not proved: text comes back
/// exactly when `value` is a string, and it is that string.
#[verifier::external_body]
fn as_str<'a>(value: &'a toml::Value) -> (text: Option<&'a str>)
    ensures
        match text {
            Some(t) => value_node(*value) == Node::Text(t@),
            None => !(value_node(*value) is Text),
        },
{
    value.as_str()
}

/// Calls `toml::map::Map::get`. Believed, not proved: the value that `table`
/// holds under `key` comes back, and none where it holds none.
#[verifier::external_body]
fn table_get<'a>(table: &'a toml::map::Map<String, toml::Value>, key: &str) -> (found: Option<
    &'a toml::Value,
>)
    ensures
        match found {
            Some(v) => lookup(table_nodes(*table), key@) == Some(value_node(*v)),
            None => lookup(table_nodes(*table), key@) is None,
        },
{
    table.get(key)
}

/// Calls `toml::Value::get` with a string as index. Believed, not proved:
/// where `value` is a table, the value that it holds under `key` comes back;
/// none comes back where it holds none or is no table.
#[verifier::external_body]
fn value_get<'a>(value: &'a toml::Value, key: &str) -> (found: Option<&'a toml::Value>)
    ensures
        match found {
            Some(v) => entry(value_node(*value), key@) == Some(value_node(*v)),
            None => entry(value_node(*value), key@) is None,
        },
{
    value.get(key)
}

/// The string that `value` holds, as the name of a command.
fn command_of<'a>(value: &'a toml::Value) -> (name: Result<&'a str, ConfigError>)
    ensures
        match name {
            Ok(n) => command_text(value_node(*value)) == Ok::<Seq<char>, ConfigError>(n@),
            Err(e) => command_text(value_node(*value)) == Err::<Seq<char>, ConfigError>(e),
        },
{
    match as_str(value) {
        Some(text) => Ok(text),
        None => Err(ConfigError::NotAString),
    }
}

/// Parses the configuration text.
pub fn get_cfg(contents: &str) -> (cfg: Result<toml::Value, ConfigError>)
    ensures
        match cfg {
            Ok(value) => parsed_document(contents@) == Some(value_node(value)),
            Err(e) => e == ConfigError::Unparseable && parsed_document(contents@) is None,
        },
{
    match parse_toml(contents) {
        Ok(value) => Ok(value),
        Err(_) => Err(ConfigError::Unparseable),
    }
}

/// Resolves the command for a type: the entry for the subtype, else the main
/// type's `default`, else the global `default`; the name found is then
/// replaced by its entry in `global` if it has one, once.
pub fn get_cmd(cfg: &toml::Value, main_file_type: &str, sub_file_type: &str) -> (command: Result<
    String,
    ConfigError,
>)
    ensures
        is_outcome(command, resolve(value_node(*cfg), main_file_type@, sub_file_type@)),
        global_default(value_node(*cfg)) is None ==> command is Err,
{
    let root = match as_table(cfg) {
        Some(table) => table,
        None => return Err(ConfigError::NotATable),
    };
    let global_cfg = match table_get(root, "global") {
        Some(value) => match as_table(value) {
            Some(table) => table,
            None => return Err(ConfigError::NotATable),
        },
        None => return Err(ConfigError::NoGlobal),
    };
    let global_default_cmd = match table_get(global_cfg, "default") {
        Some(value) => match command_of(value) {
            Ok(name) => name,
            Err(e) => return Err(e),
        },
        None => return Err(ConfigError::NoGlobalDefault),
    };
    let own = match table_get(root, main_file_type) {
        Some(sub_cfg) => match value_get(sub_cfg, sub_file_type) {
            Some(value) => Some(value),
            None => value_get(sub_cfg, "default"),
        },
        None => None,
    };
    let cmd = match own {
        Some(value) => match command_of(value) {
            Ok(name) => name,
            Err(e) => return Err(e),
        },
        None => global_default_cmd,
    };
    match table_get(global_cfg, cmd) {
        Some(value) => match command_of(value) {
            Ok(full) => Ok(full.to_owned()),
            Err(e) => Err(e),
        },
        None => Ok(cmd.to_owned()),
    }
}

/// Resolves the command for a type from the configuration text.
pub fn resolve_command(contents: &str, main_file_type: &str, sub_file_type: &str) -> (command:
    Result<String, ConfigError>)
    ensures
        is_outcome(command, configured(contents@, main_file_type@, sub_file_type@)),
{
    match get_cfg(contents) {
        Ok(cfg) => get_cmd(&cfg, main_file_type, sub_file_type),
        Err(e) => Err(e),
    }
}

/// Without a global fallback there is no command: a configuration that has
/// no `default` under `global` gives an error for every type, whatever its
/// other entries are.
pub proof fn lemma_missing_global_default_fails(
    cfg: Node,
    main_type: Seq<char>,
    sub_type: Seq<char>,
)
    requires
        global_default(cfg) is None,
    ensures
        resolve(cfg, main_type, sub_type) is Err,
{
}

/// The entry for the subtype comes first: where the main type's table has
/// one, it names the command, whatever the two fallbacks say.
pub proof fn lemma_subtype_entry_first(
    root: Map<Seq<char>, Node>,
    global: Map<Seq<char>, Node>,
    main_type: Seq<char>,
    sub_type: Seq<char>,
    name: Seq<char>,
)
    requires
        lookup(root, global_key()) == Some(Node::Table(global)),
        lookup(global, default_key()) matches Some(Node::Text(_)),
        lookup(root, main_type) matches Some(section) && entry(section, sub_type) == Some(
            Node::Text(name),
        ),
    ensures
        resolve(Node::Table(root), main_type, sub_type) == expand_alias(global, name),
{
}

/// The main type's fallback comes second: where its table has no entry for
/// the subtype but one under `default`, that one names the command.
pub proof fn lemma_type_default_second(
    root: Map<Seq<char>, Node>,
    global: Map<Seq<char>, Node>,
    main_type: Seq<char>,
    sub_type: Seq<char>,
    name: Seq<char>,
)
    requires
        lookup(root, global_key()) == Some(Node::Table(global)),
        lookup(global, default_key()) matches Some(Node::Text(_)),
        lookup(root, main_type) matches Some(section) && entry(section, sub_type) is None && entry(
            section,
            default_key(),
        ) == Some(Node::Text(name)),
    ensures
        resolve(Node::Table(root), main_type, sub_type) == expand_alias(global, name),
{
}

/// The global fallback comes last: where the configuration says nothing of
/// the type itself, the `default` under `global` names the command.
pub proof fn lemma_global_default_last(
    root: Map<Seq<char>, Node>,
    global: Map<Seq<char>, Node>,
    main_type: Seq<char>,
    sub_type: Seq<char>,
    name: Seq<char>,
)
    requires
        lookup(root, global_key()) == Some(Node::Table(global)),
        lookup(global, default_key()) == Some(Node::Text(name)),
        type_entry(root, main_type, sub_type) is None,
    ensures
        resolve(Node::Table(root), main_type, sub_type) == expand_alias(global, name),
{
}

/// An alias is expanded once: the entry of `global` under the name is the
/// command, also where that entry is itself a key of `global`; a name that
/// is no key of `global` is the command as it stands.
pub proof fn lemma_alias_expands_once(global: Map<Seq<char>, Node>, name: Seq<char>)
    ensures
        lookup(global, name) matches Some(Node::Text(full)) ==> expand_alias(global, name) == Ok::<
            Seq<char>,
            ConfigError,
        >(full),
        lookup(global, name) is None ==> expand_alias(global, name) == Ok::<Seq<char>, ConfigError>(
            name,
        ),
{
}

} // verus!

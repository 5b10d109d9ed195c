//! Settings of the agent panel.

use vstd::prelude::*;

use crate::assoc::AssocMap;
use crate::events::{opt_text, AgentServerConfig};
use crate::text::{
    a_set_has_one_listing, blank, chars_of, copy_texts, insert_in_order, is_blank, is_listing, join,
    joined, texts, white_space,
};

verus! {

/// Top-level settings table of the agent panel. It names commands that the editor runs, so only
/// the user settings file may define it: a settings file of a workspace arrives with a cloned
/// repository and is not trusted.
pub const AGENT_SETTINGS_KEY: &'static str = "agent";

/// Declares a TOML table.
#[verifier::external_type_specification]
#[verifier::external_body]
#[verifier::reject_recursive_types(K)]
#[verifier::reject_recursive_types(V)]
pub struct ExTomlMap<K, V>(toml::map::Map<K, V>);

/// Declares a TOML value.
#[verifier::external_type_specification]
#[verifier::external_body]
pub struct ExTomlValue(toml::Value);

/// What a TOML table holds, in the order of its keys.
pub uninterp spec fn table_entries(table: toml::map::Map<String, toml::Value>) -> Seq<
    (Seq<char>, toml::Value),
>;

/// What `str::parse::<toml::Table>` makes of a text. `None` where the text is not valid TOML.
pub uninterp spec fn toml_parsed(text: Seq<char>) -> Option<Seq<(Seq<char>, toml::Value)>>;

/// What `toml::to_string` writes for a table with these entries. `None` where it cannot.
pub uninterp spec fn toml_written(entries: Seq<(Seq<char>, toml::Value)>) -> Option<Seq<char>>;

/// Calls `str::parse::<toml::Table>`, which reads the text of a TOML file.
#[verifier::external_body]
fn parse_table(text: &str) -> (r: Option<toml::map::Map<String, toml::Value>>)
    ensures
        match r {
            Some(table) => toml_parsed(text@) == Some(table_entries(table)),
            None => toml_parsed(text@) is None,
        },
{
    text.parse::<toml::Table>().ok()
}

/// Calls `len` of `toml::Table`, which counts the entries.
#[verifier::external_body]
fn table_len(table: &toml::map::Map<String, toml::Value>) -> (r: usize)
    ensures
        r == table_entries(*table).len(),
{
    table.len()
}

/// Calls `retain` of `toml::Table`, which keeps exactly the entries that the predicate keeps.
#[verifier::external_body]
fn drop_agent_entries(table: &mut toml::map::Map<String, toml::Value>)
    ensures
        table_entries(*final(table)) == without_agent(table_entries(*old(table))),
{
    table.retain(|key, _| keeps_key(key))
}

/// Calls `toml::to_string`, which writes a table as TOML. Every key of the table is written, so
/// that where the text can be read back, it has the keys of the table. That it can be read back
/// is not said: the parser refuses what is nested too deeply.
#[verifier::external_body]
fn write_table(table: &toml::map::Map<String, toml::Value>) -> (r: Option<String>)
    ensures
        match r {
            Some(text) => {
                &&& toml_written(table_entries(*table)) == Some(text@)
                &&& toml_parsed(text@) matches Some(back) ==> same_keys(back, table_entries(*table))
            },
            None => toml_written(table_entries(*table)) is None,
        },
{
    toml::to_string(table).ok()
}

/// Whether `entries` has an entry under `key`.
pub open spec fn has_key(entries: Seq<(Seq<char>, toml::Value)>, key: Seq<char>) -> bool {
    exists|i: int| 0 <= i < entries.len() && #[trigger] entries[i].0 == key
}

/// Whether the two have entries under the same keys.
pub open spec fn same_keys(
    a: Seq<(Seq<char>, toml::Value)>,
    b: Seq<(Seq<char>, toml::Value)>,
) -> bool {
    forall|key: Seq<char>| #[trigger] has_key(a, key) <==> has_key(b, key)
}

/// Whether two characters are the same but for the case of an ASCII letter.
pub open spec fn same_letter(a: char, b: char) -> bool {
    ||| a == b
    ||| 'A' <= a <= 'Z' && b as int == a as int + 32
    ||| 'A' <= b <= 'Z' && a as int == b as int + 32
}

/// Whether `key` is the agent table's, ignoring ASCII case.
pub open spec fn agent_key(key: Seq<char>) -> bool {
    &&& key.len() == AGENT_SETTINGS_KEY@.len()
    &&& forall|i: int|
        0 <= i < key.len() ==> same_letter(#[trigger] key[i], AGENT_SETTINGS_KEY@[i])
}

/// The entries without those of the agent.
pub open spec fn without_agent(entries: Seq<(Seq<char>, toml::Value)>) -> Seq<
    (Seq<char>, toml::Value),
>
    decreases entries.len(),
{
    if entries.len() == 0 {
        Seq::empty()
    } else if agent_key(entries.last().0) {
        without_agent(entries.drop_last())
    } else {
        without_agent(entries.drop_last()).push(entries.last())
    }
}

/// Whether two characters are the same but for the case of an ASCII letter.
fn is_same_letter(a: char, b: char) -> (r: bool)
    ensures
        r == same_letter(a, b),
{
    if a == b {
        true
    } else if 'A' <= a && a <= 'Z' {
        'a' <= b && b <= 'z' && a as u8 + 32 == b as u8
    } else if 'A' <= b && b <= 'Z' {
        'a' <= a && a <= 'z' && b as u8 + 32 == a as u8
    } else {
        false
    }
}

/// Whether the entry under `key` of a workspace settings file is kept: any but the agent's.
pub fn keeps_key(key: &str) -> (r: bool)
    ensures
        r == !agent_key(key@),
{
    let given = chars_of(key);
    let agent = chars_of(AGENT_SETTINGS_KEY);
    if given.len() != agent.len() {
        return true;
    }
    for i in 0..given.len()
        invariant
            given@ == key@,
            agent@ == AGENT_SETTINGS_KEY@,
            given@.len() == agent@.len(),
            forall|j: int| 0 <= j < i ==> same_letter(#[trigger] key@[j], AGENT_SETTINGS_KEY@[j]),
    {
        if !is_same_letter(given[i], agent[i]) {
            assert(!same_letter(key@[i as int], AGENT_SETTINGS_KEY@[i as int]));
            return true;
        }
    }
    false
}

/// What is left of the text of a workspace settings file that holds `entries`.
pub open spec fn stripped(text: Seq<char>, entries: Seq<(Seq<char>, toml::Value)>) -> Option<
    Seq<char>,
> {
    if without_agent(entries).len() == entries.len() {
        Some(text)
    } else {
        toml_written(without_agent(entries))
    }
}

/// No entry of the agent is left, and where none is gone, there was none.
proof fn lemma_without_agent(entries: Seq<(Seq<char>, toml::Value)>)
    ensures
        without_agent(entries).len() <= entries.len(),
        without_agent(entries).len() == entries.len() ==> without_agent(entries) == entries,
        forall|i: int|
            0 <= i < without_agent(entries).len() ==> !agent_key(
                (#[trigger] without_agent(entries)[i]).0,
            ),
    decreases entries.len(),
{
    if entries.len() > 0 {
        lemma_without_agent(entries.drop_last());
        if !agent_key(entries.last().0) && without_agent(entries).len() == entries.len() {
            assert(without_agent(entries) =~= entries);
        }
    }
}

/// Removes the agent table from a workspace settings file with this text, which holds `table`.
pub fn strip_table(text: &str, table: toml::map::Map<String, toml::Value>) -> (r: Option<String>)
    ensures
        opt_text(r) == stripped(text@, table_entries(table)),
        toml_parsed(text@) == Some(table_entries(table)) ==> (r matches Some(out) ==> (toml_parsed(
            out@,
        ) matches Some(back) ==> forall|key: Seq<char>| #[trigger]
            has_key(back, key) ==> !agent_key(key))),
{
    let mut table = table;
    let ghost entries = table_entries(table);
    let before = table_len(&table);
    drop_agent_entries(&mut table);
    proof {
        lemma_without_agent(entries);
    }
    if table_len(&table) == before {
        return Some(text.to_owned());
    }
    write_table(&table)
}

/// Removes the agent table from the text of a workspace settings file. Keys are matched ignoring
/// ASCII case. Returns `None` when the text is not valid TOML (the caller then skips the file).
/// Where the result can be read as TOML, no key of it is the agent table's.
pub fn strip_agent_settings(text: &str) -> (r: Option<String>)
    ensures
        opt_text(r) == match toml_parsed(text@) {
            Some(entries) => stripped(text@, entries),
            None => None,
        },
        r matches Some(out) ==> (toml_parsed(out@) matches Some(back) ==> forall|key: Seq<char>|
            #[trigger] has_key(back, key) ==> !agent_key(key)),
{
    match parse_table(text) {
        Some(table) => strip_table(text, table),
        None => None,
    }
}

/// Stripping again changes nothing, where the stripped text can be read: `entries` are what it
/// holds, none of them the agent's.
pub proof fn stripping_again_changes_nothing(
    text: Seq<char>,
    entries: Seq<(Seq<char>, toml::Value)>,
)
    requires
        forall|key: Seq<char>| #[trigger] has_key(entries, key) ==> !agent_key(key),
    ensures
        stripped(text, entries) == Some(text),
{
    lemma_all_kept(entries);
}

/// Where no entry is the agent's, all are kept.
proof fn lemma_all_kept(entries: Seq<(Seq<char>, toml::Value)>)
    requires
        forall|key: Seq<char>| #[trigger] has_key(entries, key) ==> !agent_key(key),
    ensures
        without_agent(entries).len() == entries.len(),
    decreases entries.len(),
{
    if entries.len() > 0 {
        let before = entries.drop_last();
        assert(entries[entries.len() - 1].0 == entries.last().0);
        assert(has_key(entries, entries.last().0));
        assert forall|key: Seq<char>| #[trigger] has_key(before, key) implies !agent_key(key) by {
            let i = choose|i: int| 0 <= i < before.len() && #[trigger] before[i].0 == key;
            assert(entries[i].0 == key);
            assert(has_key(entries, key));
        }
        lemma_all_kept(before);
    }
}

/// How to launch one agent server.
pub struct AgentServerSetting {
    /// Command that starts the agent.
    pub command: String,
    /// Arguments passed to the command.
    pub arguments: Vec<String>,
    /// Extra environment variables for the agent process.
    pub environment: AssocMap<String, String>,
}

/// Settings of the agent panel.
pub struct AgentConfig {
    /// Name of the agent server started from the agent panel.
    pub default_server: String,
    /// The configured servers, by name.
    pub servers: AssocMap<String, AgentServerSetting>,
}

/// The message that no server is configured under `name`, with those that are.
pub open spec fn unknown_server(name: Seq<char>, available: Seq<Seq<char>>) -> Seq<char> {
    "agent server '"@ + name + "' is not configured (available: "@ + joined(available, ", "@)
        + ")"@
}

/// The message that the server `name` has no command.
pub open spec fn empty_command(name: Seq<char>) -> Seq<char> {
    "agent server '"@ + name + "' has an empty command"@
}

/// Whether `r` is what the default server resolves to: a message where no server has that name or
/// its command is blank, and otherwise its launch config.
pub open spec fn launch_owed(config: AgentConfig, r: Result<AgentServerConfig, String>) -> bool {
    let name = config.default_server@;
    let servers = config.servers@;
    if !servers.contains_key(name) {
        r matches Err(message) && exists|available: Seq<Seq<char>>| #[trigger]
            is_listing(available, servers.dom()) && message@ == unknown_server(name, available)
    } else if blank(servers[name].command@) {
        r matches Err(message) && message@ == empty_command(name)
    } else {
        &&& r matches Ok(launch)
        &&& launch.command@ == servers[name].command@
        &&& texts(launch.args@) == texts(servers[name].arguments@)
        &&& launch.env@ == servers[name].environment@
    }
}

impl AgentConfig {
    /// The names of the configured servers, in order.
    fn names(&self) -> (r: Vec<String>)
        ensures
            is_listing(texts(r@), self.servers@.dom()),
    {
        let keys = self.servers.keys();
        let mut out: Vec<String> = Vec::new();
        let ghost mut members: Set<Seq<char>> = Set::empty();
        let mut i: usize = 0;
        while i < keys.len()
            invariant
                i <= keys@.len(),
                forall|j: int|
                    0 <= j < keys@.len() ==> self.servers@.contains_key(#[trigger] keys@[j]@),
                forall|x: int, y: int|
                    0 <= x < y < keys@.len() ==> #[trigger] keys@[x]@ != #[trigger] keys@[y]@,
                is_listing(texts(out@), members),
                forall|j: int| 0 <= j < i ==> members.contains(#[trigger] keys@[j]@),
                forall|name: Seq<char>|
                    members.contains(name) ==> exists|j: int|
                        0 <= j < i && #[trigger] keys@[j]@ == name,
            decreases keys@.len() - i,
        {
            let name = keys[i].clone();
            assert(!members.contains(name@));
            let ghost new = name@;
            insert_in_order(&mut out, name, Ghost(members));
            proof {
                let before = members;
                members = members.insert(new);
                assert forall|n: Seq<char>| members.contains(n) implies exists|j: int|
                    0 <= j < i + 1 && #[trigger] keys@[j]@ == n by {
                    if n == new {
                        assert(keys@[i as int]@ == n);
                    } else {
                        assert(before.contains(n));
                    }
                }
            }
            i = i + 1;
        }
        assert(members =~= self.servers@.dom());
        out
    }

    /// Resolves the default server into the launch config. Returns a user-facing message when the
    /// setting is unusable: a server of that name is missing, or its command is blank.
    pub fn resolve(&self) -> (r: Result<AgentServerConfig, String>)
        ensures
            launch_owed(*self, r),
    {
        let server = match self.servers.get(&self.default_server) {
            Some(server) => server,
            None => {
                let names = self.names();
                let message = "agent server '".to_owned().concat(
                    self.default_server.as_str(),
                ).concat("' is not configured (available: ").concat(
                    join(&names, ", ").as_str(),
                ).concat(")");
                assert(is_listing(texts(names@), self.servers@.dom()));
                return Err(message);
            },
        };
        if is_blank(server.command.as_str()) {
            let message = "agent server '".to_owned().concat(
                self.default_server.as_str(),
            ).concat("' has an empty command");
            return Err(message);
        }
        Ok(
            AgentServerConfig {
                command: server.command.clone(),
                args: copy_texts(&server.arguments),
                env: server.environment.copied(),
            },
        )
    }
}

/// The agent's key is the word `agent` in small or large letters, and no other.
pub proof fn the_agent_key_is_one_word(key: Seq<char>)
    ensures
        agent_key(key) <==> {
            &&& key.len() == 5
            &&& key[0] == 'a' || key[0] == 'A'
            &&& key[1] == 'g' || key[1] == 'G'
            &&& key[2] == 'e' || key[2] == 'E'
            &&& key[3] == 'n' || key[3] == 'N'
            &&& key[4] == 't' || key[4] == 'T'
        },
{
    reveal_strlit("agent");
    let word = AGENT_SETTINGS_KEY@;
    if agent_key(key) {
        assert(same_letter(key[0], word[0]));
        assert(same_letter(key[1], word[1]));
        assert(same_letter(key[2], word[2]));
        assert(same_letter(key[3], word[3]));
        assert(same_letter(key[4], word[4]));
    }
}

/// Entries are kept or dropped one by one, by their keys, and those kept stay as they are and in
/// order.
pub proof fn entries_are_kept_one_by_one(
    a: Seq<(Seq<char>, toml::Value)>,
    b: Seq<(Seq<char>, toml::Value)>,
    entry: (Seq<char>, toml::Value),
)
    ensures
        without_agent(a + b) == without_agent(a) + without_agent(b),
        agent_key(entry.0) ==> without_agent(seq![entry]).len() == 0,
        !agent_key(entry.0) ==> without_agent(seq![entry]) == seq![entry],
        without_agent(Seq::empty()).len() == 0,
    decreases b.len(),
{
    reveal_with_fuel(without_agent, 2);
    assert(seq![entry].drop_last() =~= Seq::<(Seq<char>, toml::Value)>::empty());
    assert(seq![entry].last() == entry);
    if !agent_key(entry.0) {
        assert(without_agent(seq![entry]) =~= seq![entry]);
    }
    if b.len() == 0 {
        assert(a + b =~= a);
        assert(without_agent(a) + without_agent(b) =~= without_agent(a));
    } else {
        entries_are_kept_one_by_one(a, b.drop_last(), entry);
        assert((a + b).drop_last() =~= a + b.drop_last());
        assert(without_agent(a + b) =~= without_agent(a) + without_agent(b));
    }
}

/// A file without an agent table is left as it is, to the character; of one with an agent table the
/// rest is written; and a text that cannot be read is given up.
pub proof fn only_the_agent_table_is_removed(text: &str, r: Option<String>)
    requires
        call_ensures(strip_agent_settings, (text,), r),
    ensures
        toml_parsed(text@) is None ==> r is None,
        toml_parsed(text@) matches Some(entries) ==> {
            &&& (forall|i: int|
                0 <= i < entries.len() ==> !agent_key((#[trigger] entries[i]).0)) ==> (r
                matches Some(out) && out@ == text@)
            &&& (exists|i: int| 0 <= i < entries.len() && agent_key((#[trigger] entries[i]).0))
                ==> opt_text(r) == toml_written(
                entries.filter(|entry: (Seq<char>, toml::Value)| !agent_key(entry.0)),
            )
        },
{
    if let Some(entries) = toml_parsed(text@) {
        lemma_without_agent(entries);
        lemma_filtered(entries);
        if forall|i: int| 0 <= i < entries.len() ==> !agent_key((#[trigger] entries[i]).0) {
            assert forall|key: Seq<char>| #[trigger] has_key(entries, key) implies !agent_key(
                key,
            ) by {
                let i = choose|i: int| 0 <= i < entries.len() && #[trigger] entries[i].0 == key;
                assert(!agent_key(entries[i].0));
            }
            lemma_all_kept(entries);
        }
        if exists|i: int| 0 <= i < entries.len() && agent_key((#[trigger] entries[i]).0) {
            let i = choose|i: int| 0 <= i < entries.len() && agent_key((#[trigger] entries[i]).0);
            if without_agent(entries).len() == entries.len() {
                assert(without_agent(entries)[i] == entries[i]);
            }
        }
    }
}

/// The entries that are kept are those that a filter by the key keeps.
proof fn lemma_filtered(entries: Seq<(Seq<char>, toml::Value)>)
    ensures
        without_agent(entries) == entries.filter(
            |entry: (Seq<char>, toml::Value)| !agent_key(entry.0),
        ),
    decreases entries.len(),
{
    reveal(Seq::filter);
    if entries.len() > 0 {
        lemma_filtered(entries.drop_last());
    }
}

/// A server is launched by the settings under its name: with its own command, arguments and
/// environment. No server is launched where none has the name or its command is blank.
pub proof fn a_server_is_launched_as_it_is_set(
    config: &AgentConfig,
    r: Result<AgentServerConfig, String>,
)
    requires
        call_ensures(AgentConfig::resolve, (config,), r),
    ensures
        ({
            let name = config.default_server@;
            let usable = config.servers@.contains_key(name) && exists|i: int|
                0 <= i < config.servers@[name].command@.len() && !white_space(
                    #[trigger] config.servers@[name].command@[i],
                );
            &&& r is Ok <==> usable
            &&& r matches Ok(launch) ==> {
                let server = config.servers@[name];
                &&& launch.command@ == server.command@
                &&& launch.args@.len() == server.arguments@.len()
                &&& forall|i: int|
                    0 <= i < launch.args@.len() ==> (#[trigger] launch.args@[i])@
                        == server.arguments@[i]@
                &&& launch.env@ == server.environment@
            }
        }),
{
    if let Ok(launch) = r {
        let server = config.servers@[config.default_server@];
        assert(texts(launch.args@).len() == texts(server.arguments@).len());
        assert forall|i: int| 0 <= i < launch.args@.len() implies (#[trigger] launch.args@[i])@
            == server.arguments@[i]@ by {
            assert(texts(launch.args@)[i] == texts(server.arguments@)[i]);
        }
    }
}

/// The message of a server that is not configured names it, and the configured ones in order; that
/// of a server without a command names it.
pub proof fn an_unusable_server_is_named(
    config: &AgentConfig,
    message: String,
    available: Seq<Seq<char>>,
)
    requires
        call_ensures(AgentConfig::resolve, (config,), Err(message)),
        is_listing(available, config.servers@.dom()),
    ensures
        ({
            let name = config.default_server@;
            &&& !config.servers@.contains_key(name) ==> message@ == "agent server '"@ + name
                + "' is not configured (available: "@ + joined(available, ", "@) + ")"@
            &&& config.servers@.contains_key(name) ==> message@ == "agent server '"@ + name
                + "' has an empty command"@
        }),
{
    if !config.servers@.contains_key(config.default_server@) {
        let other = choose|other: Seq<Seq<char>>| #[trigger]
            is_listing(other, config.servers@.dom()) && message@ == unknown_server(
                config.default_server@,
                other,
            );
        a_set_has_one_listing(available, other, config.servers@.dom());
    }
}

/// Of the keys of a settings file every one is kept but the agent's, in small or large letters.
pub proof fn every_other_key_is_kept(key: &str, r: bool)
    requires
        call_ensures(keeps_key, (key,), r),
    ensures
        !r <==> {
            &&& key@.len() == 5
            &&& key@[0] == 'a' || key@[0] == 'A'
            &&& key@[1] == 'g' || key@[1] == 'G'
            &&& key@[2] == 'e' || key@[2] == 'E'
            &&& key@[3] == 'n' || key@[3] == 'N'
            &&& key@[4] == 't' || key@[4] == 'T'
        },
{
    the_agent_key_is_one_word(key@);
}

} // verus!

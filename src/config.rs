use vstd::prelude::*;
use crate::error::{ConfigError, ConfigErrorView};
use crate::shortcut::{decode_spec, KeyboardShortcut};

verus! {

/// A command that a hook or a key binding runs.
#[derive(Debug)]
pub enum Command {
    /// A command line handed to `bash -c`.
    Bash(String),
}

/// What a [`Command`] means.
pub enum CommandView {
    Bash(Seq<char>),
}

impl View for Command {
    type V = CommandView;

    open spec fn view(&self) -> CommandView {
        match self {
            Command::Bash(s) => CommandView::Bash(s@),
        }
    }
}

impl Clone for Command {
    fn clone(&self) -> (r: Command)
        ensures
            r@ == self@,
    {
        match self {
            Command::Bash(s) => Command::Bash(s.clone()),
        }
    }
}

/// The prefix that introduces a shell command.
pub open spec fn bash_prefix() -> Seq<char> {
    seq!['b', 'a', 's', 'h', ' ']
}

/// What parsing the command text `s` gives: `bash `, then the command line verbatim.
pub open spec fn parse_command_spec(s: Seq<char>) -> Result<CommandView, ConfigErrorView> {
    if s.len() >= 5 && s.take(5) == bash_prefix() {
        Ok(CommandView::Bash(s.skip(5)))
    } else {
        Err(ConfigErrorView::UnknownCommandKind(s))
    }
}

/// The canonical text of a command.
pub open spec fn command_text(c: CommandView) -> Seq<char> {
    match c {
        CommandView::Bash(body) => bash_prefix() + body,
    }
}

impl Command {
    /// Reads a command from its text form `<kind> <body>`; the one kind is `bash`.
    pub fn parse(input: &str) -> (r: Result<Command, ConfigError>)
        ensures
            match r {
                Ok(c) => parse_command_spec(input@) == Ok::<CommandView, ConfigErrorView>(c@),
                Err(e) => parse_command_spec(input@) == Err::<CommandView, ConfigErrorView>(e@),
            },
    {
        let n = input.unicode_len();
        if n >= 5 && input.get_char(0) == 'b' && input.get_char(1) == 'a' && input.get_char(2)
            == 's' && input.get_char(3) == 'h' && input.get_char(4) == ' ' {
            assert(input@.take(5) =~= bash_prefix());
            let body = String::from_str(input.substring_char(5, n));
            assert(input@.subrange(5, n as int) =~= input@.skip(5));
            Ok(Command::Bash(body))
        } else {
            assert(n >= 5 ==> input@.take(5) != bash_prefix()) by {
                if n >= 5 && input@.take(5) == bash_prefix() {
                    assert(input@.take(5)[0] == 'b' && input@.take(5)[1] == 'a');
                    assert(input@.take(5)[2] == 's' && input@.take(5)[3] == 'h');
                    assert(input@.take(5)[4] == ' ');
                }
            }
            Err(ConfigError::UnknownCommandKind(String::from_str(input)))
        }
    }

    /// The canonical text of this command, which [`Command::parse`] reads back.
    pub fn encode(&self) -> (r: String)
        ensures
            r@ == command_text(self@),
    {
        match self {
            Command::Bash(body) => {
                let mut r = String::from_str("bash ");
                proof {
                    reveal_strlit("bash ");
                }
                assert("bash "@ =~= bash_prefix());
                r.append(body.as_str());
                r
            },
        }
    }
}

/// The meanings of a list of commands.
pub open spec fn command_views(cs: Seq<Command>) -> Seq<CommandView> {
    cs.map_values(|c: Command| c@)
}

/// What parsing each command text of `cs` in turn gives; the first failure stops it.
pub open spec fn parse_commands_spec(cs: Seq<String>) -> Result<Seq<CommandView>, ConfigErrorView>
    decreases cs.len(),
{
    if cs.len() == 0 {
        Ok(Seq::empty())
    } else {
        match parse_commands_spec(cs.drop_last()) {
            Err(e) => Err(e),
            Ok(done) => match parse_command_spec(cs.last()@) {
                Err(e) => Err(e),
                Ok(c) => Ok(done.push(c)),
            },
        }
    }
}

/// The table that `entries` define: where two entries have equal shortcuts, the later one
/// wins.
pub open spec fn table_of(entries: Seq<(KeyboardShortcut, Vec<Command>)>) -> Map<
    KeyboardShortcut,
    Seq<CommandView>,
>
    decreases entries.len(),
{
    if entries.len() == 0 {
        Map::empty()
    } else {
        table_of(entries.drop_last()).insert(
            entries.last().0,
            command_views(entries.last().1@),
        )
    }
}

/// What loading the raw bindings `raw` (shortcut text, command texts) gives, entry by entry
/// in order: the first shortcut or command that does not parse stops it, and a later entry
/// replaces an earlier one with an equal shortcut.
pub open spec fn load_spec(raw: Seq<(String, Vec<String>)>) -> Result<
    Map<KeyboardShortcut, Seq<CommandView>>,
    ConfigErrorView,
>
    decreases raw.len(),
{
    if raw.len() == 0 {
        Ok(Map::empty())
    } else {
        match load_spec(raw.drop_last()) {
            Err(e) => Err(e),
            Ok(table) => match decode_spec(raw.last().0@) {
                Err(e) => Err(e),
                Ok(k) => match parse_commands_spec(raw.last().1@) {
                    Err(e) => Err(e),
                    Ok(cs) => Ok(table.insert(k, cs)),
                },
            },
        }
    }
}

proof fn lemma_parse_err_sticks(cs: Seq<String>, i: int)
    requires
        0 <= i <= cs.len(),
        parse_commands_spec(cs.take(i)) is Err,
    ensures
        parse_commands_spec(cs) == parse_commands_spec(cs.take(i)),
    decreases cs.len() - i,
{
    if i < cs.len() {
        assert(cs.take(i + 1).drop_last() =~= cs.take(i));
        lemma_parse_err_sticks(cs, i + 1);
    } else {
        assert(cs.take(i) =~= cs);
    }
}

/// Parses each command text in turn.
pub fn parse_commands(cs: &Vec<String>) -> (r: Result<Vec<Command>, ConfigError>)
    ensures
        match r {
            Ok(v) => parse_commands_spec(cs@) == Ok::<Seq<CommandView>, ConfigErrorView>(
                command_views(v@),
            ),
            Err(e) => parse_commands_spec(cs@) == Err::<Seq<CommandView>, ConfigErrorView>(e@),
        },
{
    let mut out: Vec<Command> = Vec::new();
    let mut i: usize = 0;
    assert(cs@.take(0) =~= Seq::<String>::empty());
    assert(command_views(out@) =~= Seq::<CommandView>::empty());
    while i < cs.len()
        invariant
            i <= cs.len(),
            parse_commands_spec(cs@.take(i as int)) == Ok::<Seq<CommandView>, ConfigErrorView>(
                command_views(out@),
            ),
        decreases cs.len() - i,
    {
        proof {
            assert(cs@.take(i + 1).drop_last() =~= cs@.take(i as int));
        }
        match Command::parse(cs[i].as_str()) {
            Err(e) => {
                proof {
                    lemma_parse_err_sticks(cs@, i + 1);
                }
                return Err(e);
            },
            Ok(c) => {
                let ghost prev = out@;
                out.push(c);
                assert(command_views(out@) =~= command_views(prev).push(c@));
            },
        }
        i = i + 1;
    }
    assert(cs@.take(cs.len() as int) =~= cs@);
    Ok(out)
}

proof fn lemma_load_err_sticks(raw: Seq<(String, Vec<String>)>, i: int)
    requires
        0 <= i <= raw.len(),
        load_spec(raw.take(i)) is Err,
    ensures
        load_spec(raw) == load_spec(raw.take(i)),
    decreases raw.len() - i,
{
    if i < raw.len() {
        assert(raw.take(i + 1).drop_last() =~= raw.take(i));
        lemma_load_err_sticks(raw, i + 1);
    } else {
        assert(raw.take(i) =~= raw);
    }
}

/// The key bindings: from a shortcut to the commands that it runs.
pub struct Bindings {
    entries: Vec<(KeyboardShortcut, Vec<Command>)>,
}

impl View for Bindings {
    type V = Map<KeyboardShortcut, Seq<CommandView>>;

    closed spec fn view(&self) -> Map<KeyboardShortcut, Seq<CommandView>> {
        table_of(self.entries@)
    }
}

impl Bindings {
    /// A table with no bindings.
    pub fn new() -> (r: Bindings)
        ensures
            r@ == Map::<KeyboardShortcut, Seq<CommandView>>::empty(),
    {
        Bindings { entries: Vec::new() }
    }

    /// Builds the table from raw entries (shortcut text, command texts), in order; a later
    /// entry replaces an earlier one with an equal shortcut.
    pub fn load(raw: &Vec<(String, Vec<String>)>) -> (r: Result<Bindings, ConfigError>)
        ensures
            match r {
                Ok(b) => load_spec(raw@) == Ok::<
                    Map<KeyboardShortcut, Seq<CommandView>>,
                    ConfigErrorView,
                >(b@),
                Err(e) => load_spec(raw@) == Err::<
                    Map<KeyboardShortcut, Seq<CommandView>>,
                    ConfigErrorView,
                >(e@),
            },
    {
        let mut entries: Vec<(KeyboardShortcut, Vec<Command>)> = Vec::new();
        let mut i: usize = 0;
        assert(raw@.take(0) =~= Seq::<(String, Vec<String>)>::empty());
        while i < raw.len()
            invariant
                i <= raw.len(),
                load_spec(raw@.take(i as int)) == Ok::<
                    Map<KeyboardShortcut, Seq<CommandView>>,
                    ConfigErrorView,
                >(table_of(entries@)),
            decreases raw.len() - i,
        {
            proof {
                assert(raw@.take(i + 1).drop_last() =~= raw@.take(i as int));
                assert(raw@.take(i + 1).last() == raw@[i as int]);
            }
            let key = match KeyboardShortcut::decode(raw[i].0.as_str()) {
                Err(e) => {
                    proof {
                        lemma_load_err_sticks(raw@, i + 1);
                    }
                    return Err(e);
                },
                Ok(k) => k,
            };
            let commands = match parse_commands(&raw[i].1) {
                Err(e) => {
                    proof {
                        lemma_load_err_sticks(raw@, i + 1);
                    }
                    return Err(e);
                },
                Ok(cs) => cs,
            };
            let ghost prev = entries@;
            entries.push((key, commands));
            assert(entries@.drop_last() =~= prev);
            i = i + 1;
        }
        assert(raw@.take(raw.len() as int) =~= raw@);
        Ok(Bindings { entries })
    }

    /// The commands bound to `k`, if any.
    pub fn resolve(&self, k: &KeyboardShortcut) -> (r: Option<Vec<Command>>)
        ensures
            match r {
                Some(cs) => self@.contains_key(*k) && self@[*k] == command_views(cs@),
                None => !self@.contains_key(*k),
            },
    {
        let mut i: usize = self.entries.len();
        assert(self.entries@.take(i as int) =~= self.entries@);
        while i > 0
            invariant
                i <= self.entries.len(),
                forall|j: int| i <= j < self.entries.len() ==> self.entries@[j].0 != *k,
                table_of(self.entries@).contains_key(*k) == table_of(
                    self.entries@.take(i as int),
                ).contains_key(*k),
                table_of(self.entries@).contains_key(*k) ==> table_of(self.entries@)[*k]
                    == table_of(self.entries@.take(i as int))[*k],
            decreases i,
        {
            let ghost before = self.entries@.take(i as int);
            proof {
                assert(before.drop_last() =~= self.entries@.take(i - 1));
                assert(before.last() == self.entries@[i - 1]);
            }
            if self.entries[i - 1].0 == *k {
                let cs = clone_commands(&self.entries[i - 1].1);
                return Some(cs);
            }
            i = i - 1;
        }
        assert(self.entries@.take(0) =~= Seq::<(KeyboardShortcut, Vec<Command>)>::empty());
        None
    }
}

/// A copy of each command, in order.
fn clone_commands(cs: &Vec<Command>) -> (r: Vec<Command>)
    ensures
        command_views(r@) == command_views(cs@),
{
    let mut out: Vec<Command> = Vec::new();
    let mut i: usize = 0;
    while i < cs.len()
        invariant
            i <= cs.len(),
            command_views(out@) =~= command_views(cs@.take(i as int)),
        decreases cs.len() - i,
    {
        let c = cs[i].clone();
        let ghost prev = out@;
        out.push(c);
        proof {
            assert(cs@.take(i + 1) =~= cs@.take(i as int).push(cs@[i as int]));
            assert(command_views(out@) =~= command_views(prev).push(c@));
            assert(command_views(cs@.take(i + 1)) =~= command_views(cs@.take(i as int)).push(
                cs@[i as int]@,
            ));
        }
        i = i + 1;
    }
    assert(cs@.take(cs.len() as int) =~= cs@);
    out
}

/// The settings that the configuration file gives.
pub struct Config {
    /// A strftime-style pattern that names the day's journal file.
    pub output_file_template: Option<String>,
    /// Run once when the session starts.
    pub on_start: Option<Command>,
    /// Run once when the session ends.
    pub on_end: Option<Command>,
    pub bindings: Option<Bindings>,
}

/// The configuration file's fields as text, before any of them is parsed.
pub struct RawConfig {
    pub output_file_template: Option<String>,
    pub on_start: Option<String>,
    pub on_end: Option<String>,
    pub bindings: Option<Vec<(String, Vec<String>)>>,
}

/// The configuration used where there is no configuration file: nothing set.
pub fn default_config() -> (c: Config)
    ensures
        c.output_file_template is None,
        c.on_start is None,
        c.on_end is None,
        c.bindings is None,
{
    Config { output_file_template: None, on_start: None, on_end: None, bindings: None }
}

/// The pattern used to name the journal file where the configuration gives none.
pub open spec fn default_template() -> Seq<char> {
    seq!['n', 'i', 'g', 'h', 't', '-', '%', 'Y', '-', '%', 'm', '-', '%', 'd']
}

/// Parses an optional command.
fn parse_optional(s: &Option<String>) -> (r: Result<Option<Command>, ConfigError>)
    ensures
        match s {
            None => r is Ok && r->Ok_0 is None,
            Some(t) => match r {
                Ok(c) => c is Some && parse_command_spec(t@) == Ok::<CommandView, ConfigErrorView>(
                    c->Some_0@,
                ),
                Err(e) => parse_command_spec(t@) == Err::<CommandView, ConfigErrorView>(e@),
            },
        },
{
    match s {
        None => Ok(None),
        Some(t) => match Command::parse(t.as_str()) {
            Ok(c) => Ok(Some(c)),
            Err(e) => Err(e),
        },
    }
}

/// Whether an optional command text parses: an absent one does.
pub open spec fn optional_ok(s: Option<String>) -> bool {
    match s {
        None => true,
        Some(t) => parse_command_spec(t@) is Ok,
    }
}

/// The command that an optional command text gives.
pub open spec fn optional_view(s: Option<String>) -> Option<CommandView> {
    match s {
        None => None,
        Some(t) => Some(parse_command_spec(t@)->Ok_0),
    }
}

/// The meaning of an optional command.
pub open spec fn option_command_view(c: Option<Command>) -> Option<CommandView> {
    match c {
        None => None,
        Some(c) => Some(c@),
    }
}

/// Whether the raw bindings load: absent ones do.
pub open spec fn bindings_ok(b: Option<Vec<(String, Vec<String>)>>) -> bool {
    match b {
        None => true,
        Some(v) => load_spec(v@) is Ok,
    }
}

/// The first error among the raw fields, checked in the order `on_start`, `on_end`,
/// `bindings`.
pub open spec fn raw_config_error(raw: RawConfig) -> ConfigErrorView {
    if !optional_ok(raw.on_start) {
        parse_command_spec(raw.on_start->Some_0@)->Err_0
    } else if !optional_ok(raw.on_end) {
        parse_command_spec(raw.on_end->Some_0@)->Err_0
    } else {
        load_spec(raw.bindings->Some_0@)->Err_0
    }
}

impl Config {
    /// Parses the fields of a configuration file.
    pub fn from_raw(raw: RawConfig) -> (r: Result<Config, ConfigError>)
        ensures
            (r is Ok) == (optional_ok(raw.on_start) && optional_ok(raw.on_end) && bindings_ok(
                raw.bindings,
            )),
            r is Err ==> r->Err_0@ == raw_config_error(raw),
            r is Ok ==> ({
                let c = r->Ok_0;
                &&& c.output_file_template == raw.output_file_template
                &&& option_command_view(c.on_start) == optional_view(raw.on_start)
                &&& option_command_view(c.on_end) == optional_view(raw.on_end)
                &&& match raw.bindings {
                    None => c.bindings is None,
                    Some(v) => c.bindings is Some && c.bindings->Some_0@ == load_spec(v@)->Ok_0,
                }
            }),
    {
        let on_start = match parse_optional(&raw.on_start) {
            Ok(c) => c,
            Err(e) => {
                return Err(e);
            },
        };
        let on_end = match parse_optional(&raw.on_end) {
            Ok(c) => c,
            Err(e) => {
                return Err(e);
            },
        };
        let bindings = match &raw.bindings {
            None => None,
            Some(v) => match Bindings::load(v) {
                Ok(b) => Some(b),
                Err(e) => {
                    return Err(e);
                },
            },
        };
        Ok(Config { output_file_template: raw.output_file_template, on_start, on_end, bindings })
    }

    /// The pattern that names the journal file: the configured one, else
    /// `night-%Y-%m-%d`.
    pub fn output_template(&self) -> (r: String)
        ensures
            match &self.output_file_template {
                Some(t) => r@ == t@,
                None => r@ == default_template(),
            },
    {
        match &self.output_file_template {
            Some(t) => t.clone(),
            None => {
                let r = String::from_str("night-%Y-%m-%d");
                proof {
                    reveal_strlit("night-%Y-%m-%d");
                }
                assert(r@ =~= default_template());
                r
            },
        }
    }
}

} // verus!

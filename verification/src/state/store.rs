// Current host state and persisted run records.

use vstd::prelude::*;

use crate::config::types::{opt_view, views_of};
use crate::planning::action::{risk_str, Action, ActionView};
use crate::strmap::{StrMap, StrSet};
use crate::text::{decimal, push_char, push_decimal, push_str, string_from};

verus! {

/// What the planner reads of the host it runs on.
#[derive(Debug)]
pub struct CurrentState {
    pub hostname: Option<String>,
    pub timezone: Option<String>,
    pub locale: Option<String>,
    pub keymap: Option<String>,
    pub pacman_packages: StrSet,
    pub enabled_services: StrSet,
    pub managed_files: StrMap<String>,
}

pub struct CurrentView {
    pub hostname: Option<Seq<char>>,
    pub timezone: Option<Seq<char>>,
    pub locale: Option<Seq<char>>,
    pub keymap: Option<Seq<char>>,
    /// Installed pacman packages, in increasing order.
    pub pacman_packages: Seq<Seq<char>>,
    /// Enabled systemd units, in increasing order.
    pub enabled_services: Seq<Seq<char>>,
    /// Managed file contents by path, in path order.
    pub managed_files: Seq<(Seq<char>, Seq<char>)>,
}

impl View for CurrentState {
    type V = CurrentView;

    open spec fn view(&self) -> CurrentView {
        CurrentView {
            hostname: crate::config::types::opt_view(self.hostname),
            timezone: crate::config::types::opt_view(self.timezone),
            locale: crate::config::types::opt_view(self.locale),
            keymap: crate::config::types::opt_view(self.keymap),
            pacman_packages: self.pacman_packages@,
            enabled_services: self.enabled_services@,
            managed_files: crate::config::types::string_map_view(self.managed_files@),
        }
    }
}

impl CurrentState {
    pub open spec fn wf(&self) -> bool {
        &&& self.pacman_packages.wf()
        &&& self.enabled_services.wf()
        &&& self.managed_files.wf()
    }
}

impl Default for CurrentState {
    fn default() -> (s: Self)
        ensures
            s@ == CurrentState::default_view(),
            s.wf(),
    {
        let s = CurrentState {
            hostname: None,
            timezone: None,
            locale: None,
            keymap: None,
            pacman_packages: StrSet::new(),
            enabled_services: StrSet::new(),
            managed_files: StrMap::new(),
        };
        assert(crate::config::types::string_map_view(s.managed_files@) =~= seq![]);
        s
    }
}


/// Strings cloned from each `Option<String>` keep their view.
fn clone_opt(o: &Option<String>) -> (r: Option<String>)
    ensures
        opt_view(r) == opt_view(*o),
{
    match o {
        Some(s) => Some(s.clone()),
        None => None,
    }
}

impl CurrentState {
    /// A copy of the state.
    pub fn clone_state(&self) -> (s: Self)
        ensures
            s@ == self@,
            self.wf() ==> s.wf(),
    {
        let managed_files = self.managed_files.clone_map();
        assert(crate::config::types::string_map_view(managed_files@)
            =~= crate::config::types::string_map_view(self.managed_files@));
        CurrentState {
            hostname: clone_opt(&self.hostname),
            timezone: clone_opt(&self.timezone),
            locale: clone_opt(&self.locale),
            keymap: clone_opt(&self.keymap),
            pacman_packages: self.pacman_packages.clone_set(),
            enabled_services: self.enabled_services.clone_set(),
            managed_files,
        }
    }
}

/// A source of the current host state.
pub trait StateReader {
    fn read_current_state(&self) -> Result<CurrentState, String>;
}

/// A reader that hands out a state fixed in advance.
#[derive(Debug)]
pub struct MockStateReader {
    pub state: CurrentState,
}

impl StateReader for MockStateReader {
    fn read_current_state(&self) -> (r: Result<CurrentState, String>)
        ensures
            r matches Ok(s) && s@ == self.state@,
    {
        Ok(self.state.clone_state())
    }
}

impl Default for MockStateReader {
    fn default() -> (r: Self)
        ensures
            r.state@ == CurrentState::default_view(),
    {
        MockStateReader { state: CurrentState::default() }
    }
}

impl CurrentState {
    pub open spec fn default_view() -> CurrentView {
        CurrentView {
            hostname: None,
            timezone: None,
            locale: None,
            keymap: None,
            pacman_packages: seq![],
            enabled_services: seq![],
            managed_files: seq![],
        }
    }
}

/// The record of one dry-run or apply run.
#[derive(Debug)]
pub struct RunRecord {
    pub id: String,
    pub mode: String,
    pub config_path: String,
    pub schema_version: String,
    pub action_count: usize,
    pub actions: Vec<Action>,
    pub current_hostname: Option<String>,
    pub pacman_package_count: usize,
    pub enabled_service_count: usize,
}

/// A run id: `run-` and the milliseconds since the Unix epoch at which it was made.
pub open spec fn spec_run_id(millis: nat) -> Seq<char> {
    "run-"@ + decimal(millis)
}

/// A point in time by the system clock.
#[verifier::external_type_specification]
#[verifier::external_body]
pub struct ExSystemTime(std::time::SystemTime);

/// `SystemTime::now`: the system clock's current time. Nothing is promised of it.
#[verifier::external_body]
fn system_now() -> std::time::SystemTime {
    std::time::SystemTime::now()
}

/// `SystemTime::duration_since` the Unix epoch: the time elapsed since it, or `None` where
/// the clock reads earlier than the epoch (the error it returns then). Nothing is promised
/// of which: it depends on the clock.
#[verifier::external_body]
fn since_unix_epoch(t: &std::time::SystemTime) -> Option<core::time::Duration> {
    t.duration_since(std::time::UNIX_EPOCH).ok()
}

/// `Duration::as_millis`: the whole milliseconds of a duration. The duration is opaque
/// here, so its result is not tied to it by a clause.
#[verifier::external_body]
fn whole_millis(d: &core::time::Duration) -> u128 {
    d.as_millis()
}

/// Milliseconds since the Unix epoch by the system clock, or 0 when the clock reads
/// earlier than the epoch.
fn now_millis() -> u128 {
    let now = system_now();
    match since_unix_epoch(&now) {
        Some(d) => whole_millis(&d),
        None => 0,
    }
}

/// The run id for a run started at `millis`.
pub fn run_id_for(millis: u128) -> (id: String)
    ensures
        id@ == spec_run_id(millis as nat),
{
    let mut id = string_from("run-");
    push_decimal(&mut id, millis);
    id
}

impl RunRecord {
    pub fn dry_run(config_path: String, actions: Vec<Action>, current: &CurrentState) -> (r: Self)
        ensures
            r.mode@ == "dry-run"@,
            r.matches(config_path@, views_of(actions@), current@),
    {
        Self::new("dry-run", config_path, actions, current)
    }

    pub fn apply(config_path: String, actions: Vec<Action>, current: &CurrentState) -> (r: Self)
        ensures
            r.mode@ == "apply"@,
            r.matches(config_path@, views_of(actions@), current@),
    {
        Self::new("apply", config_path, actions, current)
    }

    /// The fields every record has: a run id, the schema version, the actions and their
    /// count, and a summary of the current state.
    pub open spec fn matches(&self, config_path: Seq<char>, actions: Seq<ActionView>, current: CurrentView) -> bool {
        &&& exists|t: nat| self.id@ == spec_run_id(t)
        &&& self.config_path@ == config_path
        &&& self.schema_version@ == "0"@
        &&& self.action_count == actions.len()
        &&& views_of(self.actions@) == actions
        &&& opt_view(self.current_hostname) == current.hostname
        &&& self.pacman_package_count == current.pacman_packages.len()
        &&& self.enabled_service_count == current.enabled_services.len()
    }

    fn new(mode: &str, config_path: String, actions: Vec<Action>, current: &CurrentState) -> (r: Self)
        ensures
            r.mode@ == mode@,
            r.matches(config_path@, views_of(actions@), current@),
    {
        let millis = now_millis();
        let id = run_id_for(millis);
        let action_count = actions.len();
        RunRecord {
            id,
            mode: string_from(mode),
            config_path,
            schema_version: string_from(crate::config::schema::SCHEMA_VERSION),
            action_count,
            actions,
            current_hostname: clone_opt(&current.hostname),
            pacman_package_count: current.pacman_packages.len(),
            enabled_service_count: current.enabled_services.len(),
        }
    }
}

/// A character as it stands inside a JSON string.
pub open spec fn json_escape_char(c: char) -> Seq<char> {
    if c == '"' {
        "\\\""@
    } else if c == '\\' {
        "\\\\"@
    } else if c == '\n' {
        "\\n"@
    } else if c == '\r' {
        "\\r"@
    } else if c == '\t' {
        "\\t"@
    } else {
        seq![c]
    }
}

pub open spec fn json_escape(s: Seq<char>) -> Seq<char>
    decreases s.len(),
{
    if s.len() == 0 {
        Seq::<char>::empty()
    } else {
        json_escape(s.drop_last()) + json_escape_char(s.last())
    }
}

/// Quotes, backslashes, newlines, carriage returns and tabs escaped for a JSON string.
pub fn escape_json(value: &str) -> (escaped: String)
    ensures
        escaped@ == json_escape(value@),
{
    let chars = crate::text::chars_of(value);
    let mut escaped = String::new();
    let mut i: usize = 0;
    assert(chars@.take(0) =~= Seq::<char>::empty());
    while i < chars.len()
        invariant
            i <= chars.len(),
            chars@ == value@,
            escaped@ == json_escape(chars@.take(i as int)),
        decreases chars.len() - i,
    {
        let ch = chars[i];
        assert(chars@.take(i + 1).drop_last() =~= chars@.take(i as int));
        assert(chars@.take(i + 1).last() == ch);
        let ghost before = escaped@;
        if ch == '"' {
            push_str(&mut escaped, "\\\"");
        } else if ch == '\\' {
            push_str(&mut escaped, "\\\\");
        } else if ch == '\n' {
            push_str(&mut escaped, "\\n");
        } else if ch == '\r' {
            push_str(&mut escaped, "\\r");
        } else if ch == '\t' {
            push_str(&mut escaped, "\\t");
        } else {
            push_char(&mut escaped, ch);
            assert(escaped@ =~= before + seq![ch]);
        }
        i += 1;
    }
    assert(chars@.take(chars.len() as int) =~= chars@);
    escaped
}

/// Two spaces per level.
pub open spec fn indent_spaces(n: nat) -> Seq<char>
    decreases n,
{
    if n == 0 {
        Seq::<char>::empty()
    } else {
        indent_spaces((n - 1) as nat) + "  "@
    }
}

/// `<indent>"<key>": "<escaped value>"`, a comma if asked, and a newline.
pub open spec fn json_field(indent: nat, key: Seq<char>, value: Seq<char>, comma: bool) -> Seq<char> {
    indent_spaces(indent) + "\""@ + key + "\": \""@ + json_escape(value) + "\""@ + (if comma {
        ","@
    } else {
        Seq::<char>::empty()
    }) + "\n"@
}

pub fn push_json_field(out: &mut String, indent: usize, key: &str, value: &str, comma: bool)
    ensures
        final(out)@ == old(out)@ + json_field(indent as nat, key@, value@, comma),
{
    let ghost o0 = out@;
    let mut level: usize = 0;
    while level < indent
        invariant
            level <= indent,
            out@ == o0 + indent_spaces(level as nat),
        decreases indent - level,
    {
        push_str(out, "  ");
        level += 1;
        assert(out@ =~= o0 + indent_spaces(level as nat));
    }
    let ghost o1 = out@;
    push_str(out, "\"");
    push_str(out, key);
    push_str(out, "\": \"");
    let escaped = escape_json(value);
    push_str(out, escaped.as_str());
    push_str(out, "\"");
    if comma {
        push_str(out, ",");
    }
    push_str(out, "\n");
    assert(out@ =~= o0 + json_field(indent as nat, key@, value@, comma));
}

pub open spec fn action_json(a: ActionView, last: bool) -> Seq<char> {
    "    {\n"@ + json_field(3, "id"@, a.id, true) + json_field(3, "domain"@, a.domain, true)
        + json_field(3, "risk"@, risk_str(a.risk), true) + json_field(
        3,
        "description"@,
        a.description,
        false,
    ) + "    }"@ + (if last {
        Seq::<char>::empty()
    } else {
        ","@
    }) + "\n"@
}

pub open spec fn actions_json(acts: Seq<ActionView>, n: nat) -> Seq<char>
    decreases n,
{
    if n == 0 || n > acts.len() {
        Seq::<char>::empty()
    } else {
        actions_json(acts, (n - 1) as nat) + action_json(acts[n - 1], n == acts.len())
    }
}

/// The JSON document a run record is stored as.
pub open spec fn spec_run_record_json(
    id: Seq<char>,
    mode: Seq<char>,
    config_path: Seq<char>,
    schema_version: Seq<char>,
    action_count: nat,
    acts: Seq<ActionView>,
    hostname: Option<Seq<char>>,
    pacman_package_count: nat,
    enabled_service_count: nat,
) -> Seq<char> {
    "{\n"@ + json_field(1, "id"@, id, true) + json_field(1, "mode"@, mode, true) + json_field(
        1,
        "config_path"@,
        config_path,
        true,
    ) + json_field(1, "schema_version"@, schema_version, true) + "  \"action_count\": "@
        + decimal(action_count) + ",\n"@ + "  \"actions\": [\n"@ + actions_json(acts, acts.len())
        + "  ],\n"@ + "  \"current_state\": {\n"@ + match hostname {
        Some(h) => json_field(2, "hostname"@, h, true),
        None => "    \"hostname\": null,\n"@,
    } + "    \"pacman_package_count\": "@ + decimal(pacman_package_count) + ",\n"@
        + "    \"enabled_service_count\": "@ + decimal(enabled_service_count) + "\n"@ + "  }\n"@
        + "}\n"@
}

fn push_action_json(out: &mut String, action: &Action, last: bool)
    ensures
        final(out)@ == old(out)@ + action_json(action@, last),
{
    let ghost o0 = out@;
    push_str(out, "    {\n");
    push_json_field(out, 3, "id", action.id.as_str(), true);
    push_json_field(out, 3, "domain", action.domain.as_str(), true);
    push_json_field(out, 3, "risk", action.risk.as_str(), true);
    push_json_field(out, 3, "description", action.description.as_str(), false);
    push_str(out, "    }");
    if !last {
        push_str(out, ",");
    }
    push_str(out, "\n");
    assert(out@ =~= o0 + action_json(action@, last));
}

/// The record as the JSON document stored for the run.
pub fn render_run_record_json(record: &RunRecord) -> (out: String)
    ensures
        out@ == spec_run_record_json(
            record.id@,
            record.mode@,
            record.config_path@,
            record.schema_version@,
            record.action_count as nat,
            views_of(record.actions@),
            opt_view(record.current_hostname),
            record.pacman_package_count as nat,
            record.enabled_service_count as nat,
        ),
{
    let mut out = String::new();
    push_str(&mut out, "{\n");
    push_json_field(&mut out, 1, "id", record.id.as_str(), true);
    push_json_field(&mut out, 1, "mode", record.mode.as_str(), true);
    push_json_field(&mut out, 1, "config_path", record.config_path.as_str(), true);
    push_json_field(&mut out, 1, "schema_version", record.schema_version.as_str(), true);
    push_str(&mut out, "  \"action_count\": ");
    push_decimal(&mut out, record.action_count as u128);
    push_str(&mut out, ",\n");
    push_str(&mut out, "  \"actions\": [\n");
    let ghost o1 = out@;
    let ghost acts = views_of(record.actions@);
    let mut i: usize = 0;
    assert(o1 + actions_json(acts, 0) =~= o1);
    while i < record.actions.len()
        invariant
            i <= record.actions.len(),
            acts == views_of(record.actions@),
            out@ == o1 + actions_json(acts, i as nat),
        decreases record.actions.len() - i,
    {
        let last = i + 1 == record.actions.len();
        assert(acts[i as int] == record.actions@[i as int]@);
        push_action_json(&mut out, &record.actions[i], last);
        assert(actions_json(acts, (i + 1) as nat) == actions_json(acts, i as nat) + action_json(
            acts[i as int],
            last,
        ));
        assert(out@ =~= o1 + actions_json(acts, (i + 1) as nat));
        i += 1;
    }
    let ghost o2 = out@;
    push_str(&mut out, "  ],\n");
    push_str(&mut out, "  \"current_state\": {\n");
    match &record.current_hostname {
        Some(hostname) => push_json_field(&mut out, 2, "hostname", hostname.as_str(), true),
        None => push_str(&mut out, "    \"hostname\": null,\n"),
    }
    push_str(&mut out, "    \"pacman_package_count\": ");
    push_decimal(&mut out, record.pacman_package_count as u128);
    push_str(&mut out, ",\n");
    push_str(&mut out, "    \"enabled_service_count\": ");
    push_decimal(&mut out, record.enabled_service_count as u128);
    push_str(&mut out, "\n");
    push_str(&mut out, "  }\n");
    push_str(&mut out, "}\n");
    assert(out@ =~= spec_run_record_json(
        record.id@,
        record.mode@,
        record.config_path@,
        record.schema_version@,
        record.action_count as nat,
        views_of(record.actions@),
        opt_view(record.current_hostname),
        record.pacman_package_count as nat,
        record.enabled_service_count as nat,
    ));
    out
}

} // verus!

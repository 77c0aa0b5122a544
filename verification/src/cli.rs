// Command-line parsing, the rebuild safety policy, and the doctor report.

use vstd::prelude::*;

use crate::apply::{
    spec_parse_package_mode, spec_parse_service_mode, PackageExecutorMode, ServiceExecutorMode,
};
use crate::config::types::{indexed_path, strings_view, views_of, BasaltConfig, ConfigView};
use crate::config::types::{item_path, PartitionView, StoragePartitionConfig};
use crate::config::validate::{all_digits, none_msgs, one_if};
use crate::text::{
    cat2, cat3, chars_of, is_ascii_digit, is_ascii_digit_char, push_str, str_eq, string_from,
};

verus! {

pub const INSTALLED_CONFIG_DIR: &'static str = "/etc/basalt/install-config";

pub const DEFAULT_STATE_DIR: &'static str = "./target/basalt-state";

/// A parsed command line.
#[derive(Debug)]
pub enum Command {
    Validate { config_dir: String },
    Diff { config_dir: String, root_dir: String },
    ApplyDryRun { config_dir: String, state_dir: String, rebuild: bool },
    ApplyCheck { config_dir: String, root_dir: String },
    Apply {
        config_dir: String,
        state_dir: String,
        root_dir: String,
        package_executor: PackageExecutorMode,
        service_executor: ServiceExecutorMode,
        rebuild: bool,
    },
    Schema,
    History { state_dir: String, limit: usize },
    InspectRun { state_dir: String, run_id: Option<String> },
    PackageHistory { state_dir: String, package: String, limit: usize },
    ServiceHistory { state_dir: String, service: String, limit: usize },
    Doctor,
    WorkspaceGenerate { config_dir: String, output_dir: String },
    WorkspaceCheck { manifest: String },
    Restore { backup_dir: String, root_dir: String, yes: bool },
    Help,
}

pub enum CommandView {
    Validate { config_dir: Seq<char> },
    Diff { config_dir: Seq<char>, root_dir: Seq<char> },
    ApplyDryRun { config_dir: Seq<char>, state_dir: Seq<char>, rebuild: bool },
    ApplyCheck { config_dir: Seq<char>, root_dir: Seq<char> },
    Apply {
        config_dir: Seq<char>,
        state_dir: Seq<char>,
        root_dir: Seq<char>,
        package_executor: PackageExecutorMode,
        service_executor: ServiceExecutorMode,
        rebuild: bool,
    },
    Schema,
    History { state_dir: Seq<char>, limit: nat },
    InspectRun { state_dir: Seq<char>, run_id: Option<Seq<char>> },
    PackageHistory { state_dir: Seq<char>, package: Seq<char>, limit: nat },
    ServiceHistory { state_dir: Seq<char>, service: Seq<char>, limit: nat },
    Doctor,
    WorkspaceGenerate { config_dir: Seq<char>, output_dir: Seq<char> },
    WorkspaceCheck { manifest: Seq<char> },
    Restore { backup_dir: Seq<char>, root_dir: Seq<char>, yes: bool },
    Help,
}

impl View for Command {
    type V = CommandView;

    open spec fn view(&self) -> CommandView {
        match self {
            Command::Validate { config_dir } => CommandView::Validate { config_dir: config_dir@ },
            Command::Diff { config_dir, root_dir } => CommandView::Diff {
                config_dir: config_dir@,
                root_dir: root_dir@,
            },
            Command::ApplyDryRun { config_dir, state_dir, rebuild } => CommandView::ApplyDryRun {
                config_dir: config_dir@,
                state_dir: state_dir@,
                rebuild: *rebuild,
            },
            Command::ApplyCheck { config_dir, root_dir } => CommandView::ApplyCheck {
                config_dir: config_dir@,
                root_dir: root_dir@,
            },
            Command::Apply {
                config_dir,
                state_dir,
                root_dir,
                package_executor,
                service_executor,
                rebuild,
            } => CommandView::Apply {
                config_dir: config_dir@,
                state_dir: state_dir@,
                root_dir: root_dir@,
                package_executor: *package_executor,
                service_executor: *service_executor,
                rebuild: *rebuild,
            },
            Command::Schema => CommandView::Schema,
            Command::History { state_dir, limit } => CommandView::History {
                state_dir: state_dir@,
                limit: *limit as nat,
            },
            Command::InspectRun { state_dir, run_id } => CommandView::InspectRun {
                state_dir: state_dir@,
                run_id: crate::config::types::opt_view(*run_id),
            },
            Command::PackageHistory { state_dir, package, limit } => CommandView::PackageHistory {
                state_dir: state_dir@,
                package: package@,
                limit: *limit as nat,
            },
            Command::ServiceHistory { state_dir, service, limit } => CommandView::ServiceHistory {
                state_dir: state_dir@,
                service: service@,
                limit: *limit as nat,
            },
            Command::Doctor => CommandView::Doctor,
            Command::WorkspaceGenerate { config_dir, output_dir } => CommandView::WorkspaceGenerate {
                config_dir: config_dir@,
                output_dir: output_dir@,
            },
            Command::WorkspaceCheck { manifest } => CommandView::WorkspaceCheck {
                manifest: manifest@,
            },
            Command::Restore { backup_dir, root_dir, yes } => CommandView::Restore {
                backup_dir: backup_dir@,
                root_dir: root_dir@,
                yes: *yes,
            },
            Command::Help => CommandView::Help,
        }
    }
}

// ---------------------------------------------------------------------------
// Unsigned integers as `str::parse::<usize>` reads them.

pub open spec fn digit_value(c: char) -> nat {
    (c as u32 - '0' as u32) as nat
}

pub open spec fn digits_value(d: Seq<char>) -> nat
    decreases d.len(),
{
    if d.len() == 0 {
        0
    } else {
        digits_value(d.drop_last()) * 10 + digit_value(d.last())
    }
}

/// The digits of an unsigned number: what follows an optional leading `+`.
pub open spec fn unsigned_digits(s: Seq<char>) -> Seq<char> {
    if s.len() > 0 && s[0] == '+' {
        s.drop_first()
    } else {
        s
    }
}

/// An optional `+` and then one or more decimal digits whose value fits in `usize`.
pub open spec fn spec_parse_usize(s: Seq<char>) -> Option<nat> {
    let d = unsigned_digits(s);
    if d.len() == 0 || !all_digits(d) {
        None
    } else if digits_value(d) > usize::MAX {
        None
    } else {
        Some(digits_value(d))
    }
}

proof fn lemma_digits_monotone(d: Seq<char>, n: int)
    requires
        0 <= n <= d.len(),
    ensures
        digits_value(d.take(n)) <= digits_value(d),
    decreases d.len() - n,
{
    if n < d.len() {
        lemma_digits_monotone(d, n + 1);
        assert(d.take(n + 1).drop_last() =~= d.take(n));
        assert(digits_value(d.take(n + 1)) == digits_value(d.take(n)) * 10 + digit_value(
            d.take(n + 1).last(),
        ));
        assert(digits_value(d.take(n)) <= digits_value(d.take(n)) * 10) by (nonlinear_arith);
    } else {
        assert(d.take(n) =~= d);
    }
}

/// Reads an unsigned integer as `str::parse::<usize>` does.
pub fn parse_usize(s: &str) -> (r: Option<usize>)
    ensures
        match spec_parse_usize(s@) {
            Some(n) => r == Some(n as usize),
            None => r is None,
        },
{
    let v = chars_of(s);
    let start: usize = if v.len() > 0 && v[0] == '+' {
        1
    } else {
        0
    };
    let ghost d = v@.skip(start as int);
    assert(d =~= unsigned_digits(s@));
    if v.len() == start {
        return None;
    }
    let mut value: usize = 0;
    let mut i: usize = start;
    while i < v.len()
        invariant
            start <= i <= v.len(),
            v@ == s@,
            d == v@.skip(start as int),
            value == digits_value(d.take(i - start)),
            forall|j: int| 0 <= j < i - start ==> is_ascii_digit(#[trigger] d[j]),
            d == unsigned_digits(s@),
            d.len() > 0,
        decreases v.len() - i,
    {
        let c = v[i];
        assert(d[i - start] == c);
        if !is_ascii_digit_char(c) {
            proof {
                let j = i - start;
                assert(!is_ascii_digit(d[j]));
                assert(!all_digits(d));
            }
            return None;
        }
        let digit = (c as u32 - '0' as u32) as usize;
        assert(d.take(i - start + 1).drop_last() =~= d.take(i - start));
        assert(d.take(i - start + 1).last() == c);
        assert(digit_value(c) == digit);
        assert(digits_value(d.take(i - start + 1)) == value * 10 + digit);
        match value.checked_mul(10) {
            Some(m) => match m.checked_add(digit) {
                Some(next) => {
                    value = next;
                },
                None => {
                    proof {
                        lemma_digits_monotone(d, i - start + 1);
                    }
                    return None;
                },
            },
            None => {
                proof {
                    lemma_digits_monotone(d, i - start + 1);
                    assert(digits_value(d.take(i - start + 1)) >= value * 10);
                }
                return None;
            },
        }
        i += 1;
    }
    assert(d.take(v.len() - start) =~= d);
    Some(value)
}

// ---------------------------------------------------------------------------
// Option scanning shared by the subcommands.

/// What an option takes.
#[derive(Clone, Copy, PartialEq, Eq, Structural)]
pub enum OptionKind {
    /// Nothing: its presence is the value.
    Flag,
    /// The next argument, as it stands.
    Value,
    /// The next argument, a package executor mode.
    PackageMode,
    /// The next argument, a service executor mode.
    ServiceMode,
    /// The next argument, a positive count.
    Limit,
}

/// One option a subcommand accepts: its name, what it takes, the message for a missing
/// value, and for a limit what the limit is of.
pub struct OptionSpec {
    pub name: &'static str,
    pub kind: OptionKind,
    pub missing: &'static str,
    pub what: &'static str,
}

pub struct OptionView {
    pub name: Seq<char>,
    pub kind: OptionKind,
    pub missing: Seq<char>,
    pub what: Seq<char>,
}

impl View for OptionSpec {
    type V = OptionView;

    open spec fn view(&self) -> OptionView {
        OptionView { name: self.name@, kind: self.kind, missing: self.missing@, what: self.what@ }
    }
}

/// What a scanned option was given.
pub enum OptValue {
    Present,
    Text(String),
    Package(PackageExecutorMode),
    Service(ServiceExecutorMode),
    Limit(usize),
}

pub enum SlotView {
    Present,
    Text(Seq<char>),
    Package(PackageExecutorMode),
    Service(ServiceExecutorMode),
    Limit(nat),
}

impl View for OptValue {
    type V = SlotView;

    open spec fn view(&self) -> SlotView {
        match self {
            OptValue::Present => SlotView::Present,
            OptValue::Text(s) => SlotView::Text(s@),
            OptValue::Package(m) => SlotView::Package(*m),
            OptValue::Service(m) => SlotView::Service(*m),
            OptValue::Limit(n) => SlotView::Limit(*n as nat),
        }
    }
}

pub open spec fn slots_view(s: Seq<Option<OptValue>>) -> Seq<Option<SlotView>> {
    s.map_values(|o: Option<OptValue>| match o {
        Some(v) => Some(v@),
        None => None,
    })
}

pub open spec fn opt(name: Seq<char>, kind: OptionKind, missing: Seq<char>) -> OptionView {
    OptionView { name, kind, missing, what: Seq::<char>::empty() }
}

/// The first option of the table named `a`.
pub open spec fn find_option(table: Seq<OptionView>, a: Seq<char>) -> Option<nat>
    decreases table.len(),
{
    if table.len() == 0 {
        None
    } else if table.last().name == a && find_option(table.drop_last(), a) is None {
        Some((table.len() - 1) as nat)
    } else {
        find_option(table.drop_last(), a)
    }
}

/// Scans `args` from position `i`: each argument must name an option of `table`; an
/// option that takes a value consumes the next argument. A later occurrence replaces an
/// earlier one. The first problem met ends the scan.
pub open spec fn scan(
    args: Seq<Seq<char>>,
    i: nat,
    table: Seq<OptionView>,
    slots: Seq<Option<SlotView>>,
) -> Result<Seq<Option<SlotView>>, Seq<char>>
    decreases args.len() - i,
{
    if i >= args.len() {
        Ok(slots)
    } else {
        let a = args[i as int];
        match find_option(table, a) {
            None => Err("unexpected argument `"@ + a + "`"@),
            Some(k) => {
                let o = table[k as int];
                if o.kind == OptionKind::Flag {
                    scan(args, i + 1, table, slots.update(k as int, Some(SlotView::Present)))
                } else if i + 1 >= args.len() {
                    Err(o.missing)
                } else {
                    let v = args[i + 1int];
                    match o.kind {
                        OptionKind::PackageMode => match spec_parse_package_mode(v) {
                            Ok(m) => scan(
                                args,
                                i + 2,
                                table,
                                slots.update(k as int, Some(SlotView::Package(m))),
                            ),
                            Err(e) => Err(e),
                        },
                        OptionKind::ServiceMode => match spec_parse_service_mode(v) {
                            Ok(m) => scan(
                                args,
                                i + 2,
                                table,
                                slots.update(k as int, Some(SlotView::Service(m))),
                            ),
                            Err(e) => Err(e),
                        },
                        OptionKind::Limit => match spec_parse_usize(v) {
                            None => Err("invalid "@ + o.what + " limit `"@ + v + "`"@),
                            Some(n) => if n == 0 {
                                Err(o.what + " limit must be greater than zero"@)
                            } else {
                                scan(args, i + 2, table, slots.update(k as int, Some(SlotView::Limit(n))))
                            },
                        },
                        _ => scan(args, i + 2, table, slots.update(k as int, Some(SlotView::Text(v)))),
                    }
                }
            },
        }
    }
}

pub open spec fn no_slots(n: nat) -> Seq<Option<SlotView>> {
    Seq::new(n, |i: int| None::<SlotView>)
}

pub open spec fn options_view(t: Seq<OptionSpec>) -> Seq<OptionView> {
    t.map_values(|o: OptionSpec| o@)
}

proof fn lemma_find_option(t: Seq<OptionView>, a: Seq<char>)
    ensures
        find_option(t, a) matches Some(k) ==> k < t.len() && t[k as int].name == a,
    decreases t.len(),
{
    if t.len() > 0 {
        lemma_find_option(t.drop_last(), a);
    }
}

fn find_option_exec(table: &Vec<OptionSpec>, a: &str) -> (r: Option<usize>)
    ensures
        r is None <==> find_option(options_view(table@), a@) is None,
        r matches Some(k) ==> find_option(options_view(table@), a@) == Some(k as nat) && k
            < table@.len(),
{
    let ghost tv = options_view(table@);
    proof {
        lemma_find_option(tv, a@);
    }
    let mut i: usize = 0;
    while i < table.len()
        invariant
            i <= table.len(),
            tv == options_view(table@),
            find_option(tv.take(i as int), a@) is None,
        decreases table.len() - i,
    {
        assert(tv.take(i + 1).drop_last() =~= tv.take(i as int));
        assert(tv.take(i + 1).last() == table@[i as int]@);
        if str_eq(table[i].name, a) {
            proof {
                lemma_find_prefix(tv, i as int + 1, i as nat);
            }
            return Some(i);
        }
        i += 1;
    }
    assert(tv.take(table.len() as int) =~= tv);
    None
}

proof fn lemma_find_prefix(t: Seq<OptionView>, n: int, k: nat)
    requires
        0 < n <= t.len(),
        k < n,
        find_option(t.take(n), t[k as int].name) == Some(k),
    ensures
        find_option(t, t[k as int].name) == Some(k),
    decreases t.len() - n,
{
    if n < t.len() {
        assert(t.take(n + 1).drop_last() =~= t.take(n));
        lemma_find_prefix(t, n + 1, k);
    } else {
        assert(t.take(n) =~= t);
    }
}

fn scan_options(args: &Vec<String>, start: usize, table: &Vec<OptionSpec>) -> (r: Result<
    Vec<Option<OptValue>>,
    String,
>)
    ensures
        match r {
            Ok(s) => scan(strings_view(args@), start as nat, options_view(table@), no_slots(table@.len()))
                == Ok::<Seq<Option<SlotView>>, Seq<char>>(slots_view(s@)),
            Err(e) => scan(strings_view(args@), start as nat, options_view(table@), no_slots(table@.len()))
                == Err::<Seq<Option<SlotView>>, Seq<char>>(e@),
        },
        r matches Ok(s) ==> s@.len() == table@.len(),
{
    let ghost av = strings_view(args@);
    let ghost tv = options_view(table@);
    let mut slots: Vec<Option<OptValue>> = Vec::new();
    let mut k: usize = 0;
    while k < table.len()
        invariant
            k <= table.len(),
            slots@.len() == k,
            forall|j: int| 0 <= j < k ==> #[trigger] slots@[j] is None,
        decreases table.len() - k,
    {
        slots.push(None);
        k += 1;
    }
    assert(slots_view(slots@) =~= no_slots(table@.len()));
    let ghost goal = scan(av, start as nat, tv, no_slots(table@.len()));
    let mut i: usize = start;
    while i < args.len()
        invariant
            av == strings_view(args@),
            tv == options_view(table@),
            slots@.len() == table@.len(),
            goal == scan(av, start as nat, tv, no_slots(table@.len())),
            goal == scan(av, i as nat, tv, slots_view(slots@)),
        decreases args.len() - i,
    {
        let a = args[i].as_str();
        assert(av[i as int] == a@);
        let k = match find_option_exec(table, a) {
            Some(k) => k,
            None => {
                return Err(cat3("unexpected argument `", a, "`"));
            },
        };
        let o = &table[k];
        assert(tv[k as int] == o@);
        let ghost s0 = slots_view(slots@);
        if o.kind == OptionKind::Flag {
            slots.set(k, Some(OptValue::Present));
            assert(slots_view(slots@) =~= s0.update(k as int, Some(SlotView::Present)));
            i += 1;
        } else {
            if i + 1 >= args.len() {
                assert(find_option(tv, av[i as int]) == Some(k as nat));
                assert(scan(av, i as nat, tv, s0) == Err::<Seq<Option<SlotView>>, Seq<char>>(
                    tv[k as int].missing,
                ));
                return Err(string_from(o.missing));
            }
            let v = args[i + 1].as_str();
            assert(av[i + 1] == v@);
            if o.kind == OptionKind::PackageMode {
                match PackageExecutorMode::parse(v) {
                    Ok(m) => {
                        slots.set(k, Some(OptValue::Package(m)));
                        assert(slots_view(slots@) =~= s0.update(k as int, Some(SlotView::Package(m))));
                    },
                    Err(e) => {
                        return Err(e);
                    },
                }
            } else if o.kind == OptionKind::ServiceMode {
                match ServiceExecutorMode::parse(v) {
                    Ok(m) => {
                        slots.set(k, Some(OptValue::Service(m)));
                        assert(slots_view(slots@) =~= s0.update(k as int, Some(SlotView::Service(m))));
                    },
                    Err(e) => {
                        return Err(e);
                    },
                }
            } else if o.kind == OptionKind::Limit {
                match parse_usize(v) {
                    None => {
                        let mut e = cat3("invalid ", o.what, " limit `");
                        push_str(&mut e, v);
                        push_str(&mut e, "`");
                        return Err(e);
                    },
                    Some(n) => {
                        if n == 0 {
                            return Err(cat2(o.what, " limit must be greater than zero"));
                        }
                        slots.set(k, Some(OptValue::Limit(n)));
                        assert(slots_view(slots@) =~= s0.update(
                            k as int,
                            Some(SlotView::Limit(n as nat)),
                        ));
                    },
                }
            } else {
                slots.set(k, Some(OptValue::Text(string_from(v))));
                assert(slots_view(slots@) =~= s0.update(k as int, Some(SlotView::Text(v@))));
            }
            i += 2;
        }
    }
    Ok(slots)
}

fn option(name: &'static str, kind: OptionKind, missing: &'static str) -> (o: OptionSpec)
    ensures
        o@ == opt(name@, kind, missing@),
{
    let o = OptionSpec { name, kind, missing, what: "" };
    proof {
        reveal_strlit("");
    }
    assert(o@.what =~= Seq::<char>::empty());
    o
}

fn limit_option(what: &'static str) -> (o: OptionSpec)
    ensures
        o@ == (OptionView {
            name: "--limit"@,
            kind: OptionKind::Limit,
            missing: "`--limit` requires a positive integer"@,
            what: what@,
        }),
{
    OptionSpec {
        name: "--limit",
        kind: OptionKind::Limit,
        missing: "`--limit` requires a positive integer",
        what,
    }
}

/// The text an option was given, if it was given.
pub open spec fn slot_text(s: Seq<Option<SlotView>>, k: int) -> Option<Seq<char>> {
    match s[k] {
        Some(SlotView::Text(t)) => Some(t),
        _ => None,
    }
}

pub open spec fn slot_set(s: Seq<Option<SlotView>>, k: int) -> bool {
    s[k] is Some
}

pub open spec fn or_text(o: Option<Seq<char>>, d: Seq<char>) -> Seq<char> {
    match o {
        Some(t) => t,
        None => d,
    }
}

fn text_of(slots: &Vec<Option<OptValue>>, k: usize) -> (r: Option<String>)
    requires
        k < slots@.len(),
    ensures
        crate::config::types::opt_view(r) == slot_text(slots_view(slots@), k as int),
{
    match &slots[k] {
        Some(OptValue::Text(t)) => Some(t.clone()),
        _ => None,
    }
}

fn text_or(slots: &Vec<Option<OptValue>>, k: usize, default: &str) -> (r: String)
    requires
        k < slots@.len(),
    ensures
        r@ == or_text(slot_text(slots_view(slots@), k as int), default@),
{
    match &slots[k] {
        Some(OptValue::Text(t)) => t.clone(),
        _ => string_from(default),
    }
}

fn is_set(slots: &Vec<Option<OptValue>>, k: usize) -> (b: bool)
    requires
        k < slots@.len(),
    ensures
        b == slot_set(slots_view(slots@), k as int),
{
    slots[k].is_some()
}

pub open spec fn slot_limit(s: Seq<Option<SlotView>>, k: int) -> nat {
    match s[k] {
        Some(SlotView::Limit(n)) => n,
        _ => 20,
    }
}

fn limit_of(slots: &Vec<Option<OptValue>>, k: usize) -> (n: usize)
    requires
        k < slots@.len(),
    ensures
        n == slot_limit(slots_view(slots@), k as int),
{
    match &slots[k] {
        Some(OptValue::Limit(n)) => *n,
        _ => 20,
    }
}

pub open spec fn slot_package(s: Seq<Option<SlotView>>, k: int, d: PackageExecutorMode) -> PackageExecutorMode {
    match s[k] {
        Some(SlotView::Package(m)) => m,
        _ => d,
    }
}

pub open spec fn slot_service(s: Seq<Option<SlotView>>, k: int, d: ServiceExecutorMode) -> ServiceExecutorMode {
    match s[k] {
        Some(SlotView::Service(m)) => m,
        _ => d,
    }
}

fn package_mode_of(slots: &Vec<Option<OptValue>>, k: usize, d: PackageExecutorMode) -> (m: PackageExecutorMode)
    requires
        k < slots@.len(),
    ensures
        m == slot_package(slots_view(slots@), k as int, d),
{
    match &slots[k] {
        Some(OptValue::Package(m)) => *m,
        _ => d,
    }
}

fn service_mode_of(slots: &Vec<Option<OptValue>>, k: usize, d: ServiceExecutorMode) -> (m: ServiceExecutorMode)
    requires
        k < slots@.len(),
    ensures
        m == slot_service(slots_view(slots@), k as int, d),
{
    match &slots[k] {
        Some(OptValue::Service(m)) => *m,
        _ => d,
    }
}


pub open spec fn result_view(r: Result<Command, String>) -> Result<CommandView, Seq<char>> {
    match r {
        Ok(c) => Ok(c@),
        Err(e) => Err(e@),
    }
}

pub open spec fn config_opt() -> OptionView {
    opt("--config"@, OptionKind::Value, "`--config` requires a directory path"@)
}

pub open spec fn root_opt() -> OptionView {
    opt("--root"@, OptionKind::Value, "`--root` requires a directory path"@)
}

pub open spec fn state_opt() -> OptionView {
    opt("--state-dir"@, OptionKind::Value, "`--state-dir` requires a directory path"@)
}

pub open spec fn service_executor_opt() -> OptionView {
    opt(
        "--service-executor"@,
        OptionKind::ServiceMode,
        "`--service-executor` requires `record` or `host`"@,
    )
}

pub open spec fn package_executor_opt() -> OptionView {
    opt(
        "--package-executor"@,
        OptionKind::PackageMode,
        "`--package-executor` requires `record` or `host`"@,
    )
}

pub open spec fn flag_opt(name: Seq<char>) -> OptionView {
    opt(name, OptionKind::Flag, Seq::<char>::empty())
}

pub open spec fn limit_opt(what: Seq<char>) -> OptionView {
    OptionView {
        name: "--limit"@,
        kind: OptionKind::Limit,
        missing: "`--limit` requires a positive integer"@,
        what,
    }
}

fn config_option() -> (o: OptionSpec)
    ensures
        o@ == config_opt(),
{
    option("--config", OptionKind::Value, "`--config` requires a directory path")
}

fn root_option() -> (o: OptionSpec)
    ensures
        o@ == root_opt(),
{
    option("--root", OptionKind::Value, "`--root` requires a directory path")
}

fn state_option() -> (o: OptionSpec)
    ensures
        o@ == state_opt(),
{
    option("--state-dir", OptionKind::Value, "`--state-dir` requires a directory path")
}

fn service_executor_option() -> (o: OptionSpec)
    ensures
        o@ == service_executor_opt(),
{
    option(
        "--service-executor",
        OptionKind::ServiceMode,
        "`--service-executor` requires `record` or `host`",
    )
}

fn package_executor_option() -> (o: OptionSpec)
    ensures
        o@ == package_executor_opt(),
{
    option(
        "--package-executor",
        OptionKind::PackageMode,
        "`--package-executor` requires `record` or `host`",
    )
}

fn flag_option(name: &'static str) -> (o: OptionSpec)
    ensures
        o@ == flag_opt(name@),
{
    let o = option(name, OptionKind::Flag, "");
    proof {
        reveal_strlit("");
        assert(""@ =~= Seq::<char>::empty());
    }
    o
}

// --- validate ---------------------------------------------------------------

pub open spec fn validate_options() -> Seq<OptionView> {
    seq![config_opt()]
}

pub open spec fn spec_parse_validate(args: Seq<Seq<char>>) -> Result<CommandView, Seq<char>> {
    match scan(args, 2, validate_options(), no_slots(1)) {
        Err(e) => Err(e),
        Ok(s) => match slot_text(s, 0) {
            None => Err("`validate` requires `--config <path>`"@),
            Some(c) => Ok(CommandView::Validate { config_dir: c }),
        },
    }
}

pub fn parse_validate(args: &Vec<String>) -> (r: Result<Command, String>)
    ensures
        result_view(r) == spec_parse_validate(strings_view(args@)),
{
    let table = vec![config_option()];
    assert(options_view(table@) =~= validate_options());
    let slots = scan_options(args, 2, &table)?;
    match text_of(&slots, 0) {
        None => Err(string_from("`validate` requires `--config <path>`")),
        Some(config_dir) => Ok(Command::Validate { config_dir }),
    }
}

// --- diff -------------------------------------------------------------------

pub open spec fn diff_options() -> Seq<OptionView> {
    seq![config_opt(), root_opt()]
}

pub open spec fn spec_parse_diff(args: Seq<Seq<char>>) -> Result<CommandView, Seq<char>> {
    match scan(args, 2, diff_options(), no_slots(2)) {
        Err(e) => Err(e),
        Ok(s) => match slot_text(s, 0) {
            None => Err("`diff` requires `--config <path>`"@),
            Some(c) => Ok(CommandView::Diff { config_dir: c, root_dir: or_text(slot_text(s, 1), "/"@) }),
        },
    }
}

pub fn parse_diff(args: &Vec<String>) -> (r: Result<Command, String>)
    ensures
        result_view(r) == spec_parse_diff(strings_view(args@)),
{
    let table = vec![config_option(), root_option()];
    assert(options_view(table@) =~= diff_options());
    let slots = scan_options(args, 2, &table)?;
    match text_of(&slots, 0) {
        None => Err(string_from("`diff` requires `--config <path>`")),
        Some(config_dir) => Ok(Command::Diff { config_dir, root_dir: text_or(&slots, 1, "/") }),
    }
}

// --- apply ------------------------------------------------------------------

pub open spec fn apply_options() -> Seq<OptionView> {
    seq![
        flag_opt("--dry-run"@),
        flag_opt("--check"@),
        flag_opt("--yes"@),
        config_opt(),
        state_opt(),
        root_opt(),
        service_executor_opt(),
        package_executor_opt(),
    ]
}

pub open spec fn count_true(a: bool, b: bool, c: bool) -> nat {
    (if a { 1nat } else { 0nat }) + (if b { 1nat } else { 0nat }) + (if c { 1nat } else { 0nat })
}

pub open spec fn spec_parse_apply(args: Seq<Seq<char>>) -> Result<CommandView, Seq<char>> {
    match scan(args, 2, apply_options(), no_slots(8)) {
        Err(e) => Err(e),
        Ok(s) => {
            let dry_run = slot_set(s, 0);
            let check = slot_set(s, 1);
            let yes = slot_set(s, 2);
            if count_true(dry_run, check, yes) > 1 {
                Err("use only one of `apply --dry-run`, `apply --check`, or `apply --yes`"@)
            } else if !dry_run && !check && !yes {
                Err("apply requires `--dry-run`, `--check`, or `--yes`"@)
            } else {
                match slot_text(s, 3) {
                    None => Err("`apply` requires `--config <path>`"@),
                    Some(c) => {
                        let state_dir = or_text(slot_text(s, 4), "./target/basalt-state"@);
                        let root_dir = or_text(slot_text(s, 5), "/"@);
                        if dry_run {
                            Ok(CommandView::ApplyDryRun { config_dir: c, state_dir, rebuild: false })
                        } else if check {
                            Ok(CommandView::ApplyCheck { config_dir: c, root_dir })
                        } else {
                            Ok(
                                CommandView::Apply {
                                    config_dir: c,
                                    state_dir,
                                    root_dir,
                                    package_executor: slot_package(s, 7, PackageExecutorMode::Record),
                                    service_executor: slot_service(s, 6, ServiceExecutorMode::Record),
                                    rebuild: false,
                                },
                            )
                        }
                    },
                }
            }
        },
    }
}

/// `apply --dry-run`, `apply --check` or `apply --yes`, with their options.
pub fn parse_apply(args: &Vec<String>) -> (r: Result<Command, String>)
    ensures
        result_view(r) == spec_parse_apply(strings_view(args@)),
{
    let table = vec![
        flag_option("--dry-run"),
        flag_option("--check"),
        flag_option("--yes"),
        config_option(),
        state_option(),
        root_option(),
        service_executor_option(),
        package_executor_option(),
    ];
    assert(options_view(table@) =~= apply_options());
    let slots = scan_options(args, 2, &table)?;
    let dry_run = is_set(&slots, 0);
    let check = is_set(&slots, 1);
    let yes = is_set(&slots, 2);
    let enabled: u8 = (if dry_run { 1u8 } else { 0u8 }) + (if check { 1u8 } else { 0u8 }) + (if yes {
        1u8
    } else {
        0u8
    });
    if enabled > 1 {
        return Err(string_from("use only one of `apply --dry-run`, `apply --check`, or `apply --yes`"));
    }
    if !dry_run && !check && !yes {
        return Err(string_from("apply requires `--dry-run`, `--check`, or `--yes`"));
    }
    let config_dir = match text_of(&slots, 3) {
        Some(c) => c,
        None => {
            return Err(string_from("`apply` requires `--config <path>`"));
        },
    };
    let state_dir = text_or(&slots, 4, DEFAULT_STATE_DIR);
    if dry_run {
        Ok(Command::ApplyDryRun { config_dir, state_dir, rebuild: false })
    } else if check {
        Ok(Command::ApplyCheck { config_dir, root_dir: text_or(&slots, 5, "/") })
    } else {
        Ok(
            Command::Apply {
                config_dir,
                state_dir,
                root_dir: text_or(&slots, 5, "/"),
                package_executor: package_mode_of(&slots, 7, PackageExecutorMode::Record),
                service_executor: service_mode_of(&slots, 6, ServiceExecutorMode::Record),
                rebuild: false,
            },
        )
    }
}

// --- rebuild ----------------------------------------------------------------

pub open spec fn rebuild_options() -> Seq<OptionView> {
    seq![
        flag_opt("--dry-run"@),
        config_opt(),
        state_opt(),
        root_opt(),
        service_executor_opt(),
        package_executor_opt(),
    ]
}

pub open spec fn spec_parse_rebuild_with_default(
    args: Seq<Seq<char>>,
    default_dir: Seq<char>,
    default_exists: bool,
) -> Result<CommandView, Seq<char>> {
    match scan(args, 2, rebuild_options(), no_slots(6)) {
        Err(e) => Err(e),
        Ok(s) => if slot_text(s, 1) is None && !default_exists {
            Err(
                "`rebuild` default config directory `"@ + default_dir
                    + "` does not exist; pass `--config <path>` to rebuild from another config"@,
            )
        } else {
            let config_dir = or_text(slot_text(s, 1), default_dir);
            let state_dir = or_text(slot_text(s, 2), "./target/basalt-state"@);
            if slot_set(s, 0) {
                Ok(CommandView::ApplyDryRun { config_dir, state_dir, rebuild: true })
            } else {
                Ok(
                    CommandView::Apply {
                        config_dir,
                        state_dir,
                        root_dir: or_text(slot_text(s, 3), "/"@),
                        package_executor: slot_package(s, 5, PackageExecutorMode::Host),
                        service_executor: slot_service(s, 4, ServiceExecutorMode::Host),
                        rebuild: true,
                    },
                )
            }
        },
    }
}

/// `rebuild`, reading its configuration from `default_config_dir` unless `--config` names
/// another; `default_exists` says whether that default directory exists.
pub fn parse_rebuild_with_default(args: &Vec<String>, default_config_dir: &str, default_exists: bool) -> (r:
    Result<Command, String>)
    ensures
        result_view(r) == spec_parse_rebuild_with_default(
            strings_view(args@),
            default_config_dir@,
            default_exists,
        ),
{
    let table = vec![
        flag_option("--dry-run"),
        config_option(),
        state_option(),
        root_option(),
        service_executor_option(),
        package_executor_option(),
    ];
    assert(options_view(table@) =~= rebuild_options());
    let slots = scan_options(args, 2, &table)?;
    let config_dir = match text_of(&slots, 1) {
        Some(c) => c,
        None => {
            if !default_exists {
                let mut e = cat3("`rebuild` default config directory `", default_config_dir, "");
                push_str(
                    &mut e,
                    "` does not exist; pass `--config <path>` to rebuild from another config",
                );
                proof {
                    reveal_strlit("");
                }
                return Err(e);
            }
            string_from(default_config_dir)
        },
    };
    let state_dir = text_or(&slots, 2, DEFAULT_STATE_DIR);
    if is_set(&slots, 0) {
        Ok(Command::ApplyDryRun { config_dir, state_dir, rebuild: true })
    } else {
        Ok(
            Command::Apply {
                config_dir,
                state_dir,
                root_dir: text_or(&slots, 3, "/"),
                package_executor: package_mode_of(&slots, 5, PackageExecutorMode::Host),
                service_executor: service_mode_of(&slots, 4, ServiceExecutorMode::Host),
                rebuild: true,
            },
        )
    }
}

/// `rebuild` from the installed configuration directory, whose existence the caller
/// reports.
pub fn parse_rebuild(args: &Vec<String>, installed_config_exists: bool) -> (r: Result<Command, String>)
    ensures
        result_view(r) == spec_parse_rebuild_with_default(
            strings_view(args@),
            INSTALLED_CONFIG_DIR@,
            installed_config_exists,
        ),
{
    parse_rebuild_with_default(args, INSTALLED_CONFIG_DIR, installed_config_exists)
}


// --- history and inspection ------------------------------------------------

pub open spec fn history_options() -> Seq<OptionView> {
    seq![state_opt(), limit_opt("history"@)]
}

pub open spec fn spec_parse_history(args: Seq<Seq<char>>) -> Result<CommandView, Seq<char>> {
    match scan(args, 2, history_options(), no_slots(2)) {
        Err(e) => Err(e),
        Ok(s) => Ok(
            CommandView::History {
                state_dir: or_text(slot_text(s, 0), "./target/basalt-state"@),
                limit: slot_limit(s, 1),
            },
        ),
    }
}

pub fn parse_history(args: &Vec<String>) -> (r: Result<Command, String>)
    ensures
        result_view(r) == spec_parse_history(strings_view(args@)),
{
    let table = vec![state_option(), limit_option("history")];
    assert(options_view(table@) =~= history_options());
    let slots = scan_options(args, 2, &table)?;
    Ok(Command::History { state_dir: text_or(&slots, 0, DEFAULT_STATE_DIR), limit: limit_of(&slots, 1) })
}

pub open spec fn inspect_run_options() -> Seq<OptionView> {
    seq![state_opt(), opt("--run"@, OptionKind::Value, "`--run` requires `latest` or a run id"@)]
}

pub open spec fn spec_parse_inspect_run(args: Seq<Seq<char>>) -> Result<CommandView, Seq<char>> {
    match scan(args, 2, inspect_run_options(), no_slots(2)) {
        Err(e) => Err(e),
        Ok(s) => Ok(
            CommandView::InspectRun {
                state_dir: or_text(slot_text(s, 0), "./target/basalt-state"@),
                run_id: slot_text(s, 1),
            },
        ),
    }
}

pub fn parse_inspect_run(args: &Vec<String>) -> (r: Result<Command, String>)
    ensures
        result_view(r) == spec_parse_inspect_run(strings_view(args@)),
{
    let table = vec![
        state_option(),
        option("--run", OptionKind::Value, "`--run` requires `latest` or a run id"),
    ];
    assert(options_view(table@) =~= inspect_run_options());
    let slots = scan_options(args, 2, &table)?;
    Ok(Command::InspectRun { state_dir: text_or(&slots, 0, DEFAULT_STATE_DIR), run_id: text_of(&slots, 1) })
}

pub open spec fn package_history_options() -> Seq<OptionView> {
    seq![
        state_opt(),
        opt("--package"@, OptionKind::Value, "`--package` requires a package name"@),
        limit_opt("package history"@),
    ]
}

pub open spec fn spec_parse_package_history(args: Seq<Seq<char>>) -> Result<CommandView, Seq<char>> {
    match scan(args, 2, package_history_options(), no_slots(3)) {
        Err(e) => Err(e),
        Ok(s) => match slot_text(s, 1) {
            None => Err("`package-history` requires `--package <name>`"@),
            Some(p) => Ok(
                CommandView::PackageHistory {
                    state_dir: or_text(slot_text(s, 0), "./target/basalt-state"@),
                    package: p,
                    limit: slot_limit(s, 2),
                },
            ),
        },
    }
}

pub fn parse_package_history(args: &Vec<String>) -> (r: Result<Command, String>)
    ensures
        result_view(r) == spec_parse_package_history(strings_view(args@)),
{
    let table = vec![
        state_option(),
        option("--package", OptionKind::Value, "`--package` requires a package name"),
        limit_option("package history"),
    ];
    assert(options_view(table@) =~= package_history_options());
    let slots = scan_options(args, 2, &table)?;
    match text_of(&slots, 1) {
        None => Err(string_from("`package-history` requires `--package <name>`")),
        Some(package) => Ok(
            Command::PackageHistory {
                state_dir: text_or(&slots, 0, DEFAULT_STATE_DIR),
                package,
                limit: limit_of(&slots, 2),
            },
        ),
    }
}

pub open spec fn service_history_options() -> Seq<OptionView> {
    seq![
        state_opt(),
        opt("--service"@, OptionKind::Value, "`--service` requires a service name"@),
        limit_opt("service history"@),
    ]
}

pub open spec fn spec_parse_service_history(args: Seq<Seq<char>>) -> Result<CommandView, Seq<char>> {
    match scan(args, 2, service_history_options(), no_slots(3)) {
        Err(e) => Err(e),
        Ok(s) => match slot_text(s, 1) {
            None => Err("`service-history` requires `--service <name>`"@),
            Some(v) => Ok(
                CommandView::ServiceHistory {
                    state_dir: or_text(slot_text(s, 0), "./target/basalt-state"@),
                    service: v,
                    limit: slot_limit(s, 2),
                },
            ),
        },
    }
}

pub fn parse_service_history(args: &Vec<String>) -> (r: Result<Command, String>)
    ensures
        result_view(r) == spec_parse_service_history(strings_view(args@)),
{
    let table = vec![
        state_option(),
        option("--service", OptionKind::Value, "`--service` requires a service name"),
        limit_option("service history"),
    ];
    assert(options_view(table@) =~= service_history_options());
    let slots = scan_options(args, 2, &table)?;
    match text_of(&slots, 1) {
        None => Err(string_from("`service-history` requires `--service <name>`")),
        Some(service) => Ok(
            Command::ServiceHistory {
                state_dir: text_or(&slots, 0, DEFAULT_STATE_DIR),
                service,
                limit: limit_of(&slots, 2),
            },
        ),
    }
}

pub open spec fn spec_parse_doctor(args: Seq<Seq<char>>) -> Result<CommandView, Seq<char>> {
    if args.len() > 2 {
        Err("unexpected argument `"@ + args[2] + "`"@)
    } else {
        Ok(CommandView::Doctor)
    }
}

pub fn parse_doctor(args: &Vec<String>) -> (r: Result<Command, String>)
    ensures
        result_view(r) == spec_parse_doctor(strings_view(args@)),
{
    if args.len() > 2 {
        return Err(cat3("unexpected argument `", args[2].as_str(), "`"));
    }
    Ok(Command::Doctor)
}

// --- workspace and restore --------------------------------------------------

pub open spec fn workspace_generate_options() -> Seq<OptionView> {
    seq![config_opt(), opt("--output"@, OptionKind::Value, "`--output` requires a directory path"@)]
}

pub open spec fn spec_parse_workspace_generate(args: Seq<Seq<char>>) -> Result<CommandView, Seq<char>> {
    match scan(args, 3, workspace_generate_options(), no_slots(2)) {
        Err(e) => Err(e),
        Ok(s) => match (slot_text(s, 0), slot_text(s, 1)) {
            (None, _) => Err("`workspace generate` requires `--config <path>`"@),
            (Some(_), None) => Err("`workspace generate` requires `--output <path>`"@),
            (Some(c), Some(o)) => Ok(CommandView::WorkspaceGenerate { config_dir: c, output_dir: o }),
        },
    }
}

pub fn parse_workspace_generate(args: &Vec<String>) -> (r: Result<Command, String>)
    ensures
        result_view(r) == spec_parse_workspace_generate(strings_view(args@)),
{
    let table = vec![
        config_option(),
        option("--output", OptionKind::Value, "`--output` requires a directory path"),
    ];
    assert(options_view(table@) =~= workspace_generate_options());
    let slots = scan_options(args, 3, &table)?;
    let config_dir = match text_of(&slots, 0) {
        Some(c) => c,
        None => {
            return Err(string_from("`workspace generate` requires `--config <path>`"));
        },
    };
    let output_dir = match text_of(&slots, 1) {
        Some(o) => o,
        None => {
            return Err(string_from("`workspace generate` requires `--output <path>`"));
        },
    };
    Ok(Command::WorkspaceGenerate { config_dir, output_dir })
}

pub open spec fn workspace_check_options() -> Seq<OptionView> {
    seq![opt("--manifest"@, OptionKind::Value, "`--manifest` requires a file path"@)]
}

pub open spec fn spec_parse_workspace_check(args: Seq<Seq<char>>) -> Result<CommandView, Seq<char>> {
    match scan(args, 3, workspace_check_options(), no_slots(1)) {
        Err(e) => Err(e),
        Ok(s) => match slot_text(s, 0) {
            None => Err("`workspace check` requires `--manifest <path>`"@),
            Some(m) => Ok(CommandView::WorkspaceCheck { manifest: m }),
        },
    }
}

pub fn parse_workspace_check(args: &Vec<String>) -> (r: Result<Command, String>)
    ensures
        result_view(r) == spec_parse_workspace_check(strings_view(args@)),
{
    let table = vec![option("--manifest", OptionKind::Value, "`--manifest` requires a file path")];
    assert(options_view(table@) =~= workspace_check_options());
    let slots = scan_options(args, 3, &table)?;
    match text_of(&slots, 0) {
        None => Err(string_from("`workspace check` requires `--manifest <path>`")),
        Some(manifest) => Ok(Command::WorkspaceCheck { manifest }),
    }
}

pub open spec fn spec_parse_workspace(args: Seq<Seq<char>>) -> Result<CommandView, Seq<char>> {
    if args.len() <= 2 {
        Err("workspace requires subcommand `generate`"@)
    } else if args[2] == "generate"@ {
        spec_parse_workspace_generate(args)
    } else if args[2] == "check"@ {
        spec_parse_workspace_check(args)
    } else {
        Err("unknown workspace subcommand `"@ + args[2] + "`"@)
    }
}

pub fn parse_workspace(args: &Vec<String>) -> (r: Result<Command, String>)
    ensures
        result_view(r) == spec_parse_workspace(strings_view(args@)),
{
    if args.len() <= 2 {
        return Err(string_from("workspace requires subcommand `generate`"));
    }
    let subcommand = args[2].as_str();
    if str_eq(subcommand, "generate") {
        parse_workspace_generate(args)
    } else if str_eq(subcommand, "check") {
        parse_workspace_check(args)
    } else {
        Err(cat3("unknown workspace subcommand `", subcommand, "`"))
    }
}

pub open spec fn restore_options() -> Seq<OptionView> {
    seq![
        opt("--backup"@, OptionKind::Value, "`--backup` requires a backup directory path"@),
        root_opt(),
        flag_opt("--yes"@),
    ]
}

pub open spec fn spec_parse_restore(args: Seq<Seq<char>>) -> Result<CommandView, Seq<char>> {
    match scan(args, 2, restore_options(), no_slots(3)) {
        Err(e) => Err(e),
        Ok(s) => match slot_text(s, 0) {
            None => Err("`restore` requires `--backup <path>`"@),
            Some(b) => Ok(
                CommandView::Restore {
                    backup_dir: b,
                    root_dir: or_text(slot_text(s, 1), "/"@),
                    yes: slot_set(s, 2),
                },
            ),
        },
    }
}

pub fn parse_restore(args: &Vec<String>) -> (r: Result<Command, String>)
    ensures
        result_view(r) == spec_parse_restore(strings_view(args@)),
{
    let table = vec![
        option("--backup", OptionKind::Value, "`--backup` requires a backup directory path"),
        root_option(),
        flag_option("--yes"),
    ];
    assert(options_view(table@) =~= restore_options());
    let slots = scan_options(args, 2, &table)?;
    match text_of(&slots, 0) {
        None => Err(string_from("`restore` requires `--backup <path>`")),
        Some(backup_dir) => Ok(
            Command::Restore { backup_dir, root_dir: text_or(&slots, 1, "/"), yes: is_set(&slots, 2) },
        ),
    }
}

// --- dispatch ---------------------------------------------------------------

pub open spec fn spec_parse_args(args: Seq<Seq<char>>, installed_config_exists: bool) -> Result<
    CommandView,
    Seq<char>,
> {
    if args.len() <= 1 {
        Ok(CommandView::Help)
    } else {
        let c = args[1];
        if c == "validate"@ {
            spec_parse_validate(args)
        } else if c == "diff"@ {
            spec_parse_diff(args)
        } else if c == "apply"@ {
            spec_parse_apply(args)
        } else if c == "rebuild"@ {
            spec_parse_rebuild_with_default(args, INSTALLED_CONFIG_DIR@, installed_config_exists)
        } else if c == "schema"@ {
            Ok(CommandView::Schema)
        } else if c == "history"@ {
            spec_parse_history(args)
        } else if c == "inspect-run"@ {
            spec_parse_inspect_run(args)
        } else if c == "package-history"@ {
            spec_parse_package_history(args)
        } else if c == "service-history"@ {
            spec_parse_service_history(args)
        } else if c == "doctor"@ {
            spec_parse_doctor(args)
        } else if c == "workspace"@ {
            spec_parse_workspace(args)
        } else if c == "restore"@ {
            spec_parse_restore(args)
        } else if c == "help"@ || c == "--help"@ || c == "-h"@ {
            Ok(CommandView::Help)
        } else {
            Err("unknown command `"@ + c + "`"@)
        }
    }
}

/// The command that `args` (program name first) asks for; `installed_config_exists` says
/// whether the installed configuration directory that `rebuild` defaults to exists.
pub fn parse_args(args: &Vec<String>, installed_config_exists: bool) -> (r: Result<Command, String>)
    ensures
        result_view(r) == spec_parse_args(strings_view(args@), installed_config_exists),
{
    if args.len() <= 1 {
        return Ok(Command::Help);
    }
    let command = args[1].as_str();
    assert(strings_view(args@)[1] == command@);
    if str_eq(command, "validate") {
        parse_validate(args)
    } else if str_eq(command, "diff") {
        parse_diff(args)
    } else if str_eq(command, "apply") {
        parse_apply(args)
    } else if str_eq(command, "rebuild") {
        parse_rebuild(args, installed_config_exists)
    } else if str_eq(command, "schema") {
        Ok(Command::Schema)
    } else if str_eq(command, "history") {
        parse_history(args)
    } else if str_eq(command, "inspect-run") {
        parse_inspect_run(args)
    } else if str_eq(command, "package-history") {
        parse_package_history(args)
    } else if str_eq(command, "service-history") {
        parse_service_history(args)
    } else if str_eq(command, "doctor") {
        parse_doctor(args)
    } else if str_eq(command, "workspace") {
        parse_workspace(args)
    } else if str_eq(command, "restore") {
        parse_restore(args)
    } else if str_eq(command, "help") || str_eq(command, "--help") || str_eq(command, "-h") {
        Ok(Command::Help)
    } else {
        Err(cat3("unknown command `", command, "`"))
    }
}


// --- rebuild safety policy ---------------------------------------------------

pub open spec fn partition_policy_errors(ps: Seq<PartitionView>) -> Seq<Seq<char>>
    decreases ps.len(),
{
    if ps.len() == 0 {
        none_msgs()
    } else {
        let path = item_path("storage.partitions"@, (ps.len() - 1) as nat);
        partition_policy_errors(ps.drop_last()) + seq![
            "`"@ + path
                + "` describes partitioning/remounting intent and is blocked during `basalt rebuild`"@,
        ] + one_if(
            ps.last().format,
            "`"@ + path
                + ".format = true` describes formatting intent and is blocked during `basalt rebuild`"@,
        )
    }
}

/// Every reason the configuration cannot be applied by `rebuild`: workspaces, and storage
/// that describes more than an installed system's history.
pub open spec fn rebuild_policy_errors(c: ConfigView) -> Seq<Seq<char>> {
    one_if(
        c.workspaces is Some,
        "`rebuild` supports system, packages, services, files, and installed storage history; run `basalt workspace generate` for workspace config"@,
    ) + match c.storage {
        None => none_msgs(),
        Some(st) => (if st.layout == "installed"@ {
            one_if(
                st.partitions.len() > 0 || st.disk is Some,
                "`storage.layout = \"installed\"` must not include disks or partitions"@,
            )
        } else {
            seq![
                "`storage.layout = \""@ + st.layout
                    + "\"` is install-only and cannot be used by `basalt rebuild`; use `storage.layout = \"installed\"` for installed-system history"@,
            ]
        }) + one_if(
            st.disk is Some,
            "`storage.disk` describes target-disk mutation and is blocked during `basalt rebuild`"@,
        ) + partition_policy_errors(st.partitions),
    }
}

fn push_policy_error(errors: &mut Vec<String>, e: String)
    ensures
        strings_view(final(errors)@) == strings_view(old(errors)@) + seq![e@],
{
    let ghost ev = e@;
    errors.push(e);
    assert(strings_view(errors@) =~= strings_view(old(errors)@) + seq![ev]);
}

fn push_partition_policy_errors(errors: &mut Vec<String>, partitions: &Vec<StoragePartitionConfig>)
    ensures
        strings_view(final(errors)@) == strings_view(old(errors)@) + partition_policy_errors(
            views_of(partitions@),
        ),
{
    let ghost e0 = strings_view(errors@);
    let ghost ps = views_of(partitions@);
    let mut i: usize = 0;
    assert(e0 + partition_policy_errors(ps.take(0)) =~= e0);
    while i < partitions.len()
        invariant
            i <= partitions.len(),
            ps == views_of(partitions@),
            strings_view(errors@) == e0 + partition_policy_errors(ps.take(i as int)),
        decreases partitions.len() - i,
    {
        assert(ps.take(i + 1).drop_last() =~= ps.take(i as int));
        assert(ps.take(i + 1).last() == partitions@[i as int]@);
        let path = indexed_path("storage.partitions", i);
        push_policy_error(
            errors,
            cat3(
                "`",
                path.as_str(),
                "` describes partitioning/remounting intent and is blocked during `basalt rebuild`",
            ),
        );
        if partitions[i].format {
            push_policy_error(
                errors,
                cat3(
                    "`",
                    path.as_str(),
                    ".format = true` describes formatting intent and is blocked during `basalt rebuild`",
                ),
            );
        }
        assert(strings_view(errors@) =~= e0 + partition_policy_errors(ps.take(i + 1)));
        i += 1;
    }
    assert(ps.take(partitions.len() as int) =~= ps);
}

/// Accepts a configuration only when `rebuild` may apply it to an installed system.
pub fn validate_rebuild_safety_policy(config: &BasaltConfig) -> (r: Result<(), Vec<String>>)
    ensures
        r is Ok <==> rebuild_policy_errors(config@).len() == 0,
        r matches Err(es) ==> strings_view(es@) == rebuild_policy_errors(config@),
{
    let mut errors: Vec<String> = Vec::new();
    assert(strings_view(errors@) =~= none_msgs());
    if config.workspaces.is_some() {
        push_policy_error(
            &mut errors,
            string_from(
                "`rebuild` supports system, packages, services, files, and installed storage history; run `basalt workspace generate` for workspace config",
            ),
        );
    }
    let ghost e1 = strings_view(errors@);
    if let Some(storage) = &config.storage {
        if str_eq(storage.layout.as_str(), "installed") {
            if storage.partitions.len() > 0 || storage.disk.is_some() {
                push_policy_error(
                    &mut errors,
                    string_from("`storage.layout = \"installed\"` must not include disks or partitions"),
                );
            }
        } else {
            push_policy_error(
                &mut errors,
                cat3(
                    "`storage.layout = \"",
                    storage.layout.as_str(),
                    "\"` is install-only and cannot be used by `basalt rebuild`; use `storage.layout = \"installed\"` for installed-system history",
                ),
            );
        }
        let ghost e2 = strings_view(errors@);
        if storage.disk.is_some() {
            push_policy_error(
                &mut errors,
                string_from(
                    "`storage.disk` describes target-disk mutation and is blocked during `basalt rebuild`",
                ),
            );
        }
        let ghost e3 = strings_view(errors@);
        push_partition_policy_errors(&mut errors, &storage.partitions);
        assert(strings_view(errors@) =~= e1 + (e2.skip(e1.len() as int) + e3.skip(e2.len() as int)
            + strings_view(errors@).skip(e3.len() as int)));
    }
    assert(strings_view(errors@) =~= rebuild_policy_errors(config@));
    if errors.len() == 0 {
        Ok(())
    } else {
        Err(errors)
    }
}

/// The rebuild policy, checked only for a rebuild.
pub fn validate_rebuild_safety_policy_if_needed(rebuild: bool, config: &BasaltConfig) -> (r: Result<
    (),
    Vec<String>,
>)
    ensures
        r is Ok <==> (!rebuild || rebuild_policy_errors(config@).len() == 0),
        r matches Err(es) ==> strings_view(es@) == rebuild_policy_errors(config@),
{
    if rebuild {
        validate_rebuild_safety_policy(config)
    } else {
        Ok(())
    }
}

// --- doctor -----------------------------------------------------------------

/// One tool the doctor looks for: whether it is required, whether it was found, and where
/// it was found or what it is for.
#[derive(Debug)]
pub struct DoctorCheck {
    pub name: &'static str,
    pub required: bool,
    pub present: bool,
    pub detail: String,
}

pub struct DoctorView {
    pub name: Seq<char>,
    pub required: bool,
    pub present: bool,
    pub detail: Seq<char>,
}

impl View for DoctorCheck {
    type V = DoctorView;

    open spec fn view(&self) -> DoctorView {
        DoctorView {
            name: self.name@,
            required: self.required,
            present: self.present,
            detail: self.detail@,
        }
    }
}

/// The tools the doctor looks for: name, whether required, and what it is for.
pub fn doctor_tools() -> (tools: Vec<(&'static str, bool, &'static str)>)
    ensures
        tools@.len() == 7,
        tools@[0] == ("cargo", true, "required for local Rust builds and tests"),
        tools@[1] == ("rustc", true, "required for local Rust builds and tests"),
        tools@[2] == ("git", true, "required for multi-repo development"),
        tools@[3] == ("pacman", false, "required for host package apply on Arch"),
        tools@[4] == ("systemctl", false, "required for host service apply"),
        tools@[5] == ("qemu-system-x86_64", false, "required for VM smoke tests"),
        tools@[6] == ("ssh", false, "required for VM smoke tests"),
{
    vec![
        ("cargo", true, "required for local Rust builds and tests"),
        ("rustc", true, "required for local Rust builds and tests"),
        ("git", true, "required for multi-repo development"),
        ("pacman", false, "required for host package apply on Arch"),
        ("systemctl", false, "required for host service apply"),
        ("qemu-system-x86_64", false, "required for VM smoke tests"),
        ("ssh", false, "required for VM smoke tests"),
    ]
}

/// The check for one tool, given where it was found on the search path, if anywhere.
pub fn doctor_check(name: &'static str, required: bool, detail: &str, found: Option<String>) -> (c:
    DoctorCheck)
    ensures
        c@ == (DoctorView {
            name: name@,
            required,
            present: found is Some,
            detail: match found {
                Some(p) => p@,
                None => detail@,
            },
        }),
{
    match found {
        Some(path) => DoctorCheck { name, required, present: true, detail: path },
        None => DoctorCheck { name, required, present: false, detail: string_from(detail) },
    }
}

/// The tools the doctor looks for, as views: name, whether required, and what it is for.
pub open spec fn doctor_tool_views() -> Seq<(Seq<char>, bool, Seq<char>)> {
    seq![
        ("cargo"@, true, "required for local Rust builds and tests"@),
        ("rustc"@, true, "required for local Rust builds and tests"@),
        ("git"@, true, "required for multi-repo development"@),
        ("pacman"@, false, "required for host package apply on Arch"@),
        ("systemctl"@, false, "required for host service apply"@),
        ("qemu-system-x86_64"@, false, "required for VM smoke tests"@),
        ("ssh"@, false, "required for VM smoke tests"@),
    ]
}

/// The doctor's check of tool `t`, found at `found` on the search path, if anywhere.
pub open spec fn spec_doctor_check(t: (Seq<char>, bool, Seq<char>), found: Option<Seq<char>>) -> DoctorView {
    DoctorView {
        name: t.0,
        required: t.1,
        present: found is Some,
        detail: match found {
            Some(p) => p,
            None => t.2,
        },
    }
}

/// The doctor's checks, one per tool in order, given where each tool was found on the
/// search path (`found[i]` for the `i`-th tool; a tool past the end of `found` was not
/// found).
pub fn doctor_checks(found: &Vec<Option<String>>) -> (cs: Vec<DoctorCheck>)
    ensures
        cs@.len() == doctor_tool_views().len(),
        forall|i: int|
            0 <= i < cs@.len() ==> #[trigger] cs@[i]@ == spec_doctor_check(
                doctor_tool_views()[i],
                if i < found@.len() {
                    crate::config::types::opt_view(found@[i])
                } else {
                    None
                },
            ),
{
    proof {
        reveal_strlit("cargo");
        reveal_strlit("rustc");
        reveal_strlit("git");
        reveal_strlit("pacman");
        reveal_strlit("systemctl");
        reveal_strlit("qemu-system-x86_64");
        reveal_strlit("ssh");
    }
    let tools = doctor_tools();
    let ghost tv = doctor_tool_views();
    assert forall|i: int| 0 <= i < 7 implies (#[trigger] tools@[i]).0@ == tv[i].0 && tools@[i].1 == tv[i].1
        && tools@[i].2@ == tv[i].2 by {}
    let mut cs: Vec<DoctorCheck> = Vec::new();
    let mut i: usize = 0;
    while i < tools.len()
        invariant
            i <= tools@.len() == 7 == tv.len(),
            tv == doctor_tool_views(),
            forall|j: int| 0 <= j < 7 ==> (#[trigger] tools@[j]).0@ == tv[j].0 && tools@[j].1 == tv[j].1
                && tools@[j].2@ == tv[j].2,
            cs@.len() == i,
            forall|j: int|
                0 <= j < i ==> #[trigger] cs@[j]@ == spec_doctor_check(
                    tv[j],
                    if j < found@.len() {
                        crate::config::types::opt_view(found@[j])
                    } else {
                        None
                    },
                ),
        decreases tools@.len() - i,
    {
        let (name, required, detail) = tools[i];
        let at: Option<String> = if i < found.len() {
            match &found[i] {
                Some(p) => Some(p.clone()),
                None => None,
            }
        } else {
            None
        };
        cs.push(doctor_check(name, required, detail, at));
        i += 1;
    }
    cs
}

pub open spec fn check_line(c: DoctorView) -> Seq<char> {
    "- "@ + c.name + (if c.present {
        ": ok ("@
    } else {
        ": missing ("@
    }) + c.detail + ")\n"@
}

pub open spec fn check_lines(cs: Seq<DoctorView>, required: bool) -> Seq<char>
    decreases cs.len(),
{
    if cs.len() == 0 {
        Seq::<char>::empty()
    } else {
        check_lines(cs.drop_last(), required) + if cs.last().required == required {
            check_line(cs.last())
        } else {
            Seq::<char>::empty()
        }
    }
}

pub open spec fn missing_required(cs: Seq<DoctorView>) -> bool {
    exists|i: int| 0 <= i < cs.len() && #[trigger] cs[i].required && !cs[i].present
}

pub open spec fn spec_render_doctor_report(cs: Seq<DoctorView>) -> Seq<char> {
    "Basalt doctor\n\nRequired tools:\n"@ + check_lines(cs, true) + "\nOptional tools:\n"@
        + check_lines(cs, false) + if missing_required(cs) {
        "\nStatus: missing required tools\n"@
    } else {
        "\nStatus: ok\n"@
    }
}

/// `- <name>: ok (<where>)` or `- <name>: missing (<what for>)`.
pub fn render_doctor_check(check: &DoctorCheck) -> (s: String)
    ensures
        s@ == check_line(check@),
{
    let mut s = cat2("- ", check.name);
    if check.present {
        push_str(&mut s, ": ok (");
    } else {
        push_str(&mut s, ": missing (");
    }
    push_str(&mut s, check.detail.as_str());
    push_str(&mut s, ")\n");
    assert(s@ =~= check_line(check@));
    s
}

fn push_check_lines(out: &mut String, checks: &[DoctorCheck], required: bool)
    ensures
        final(out)@ == old(out)@ + check_lines(views_of(checks@), required),
{
    let ghost o0 = out@;
    let ghost cs = views_of(checks@);
    let mut i: usize = 0;
    assert(o0 + check_lines(cs.take(0), required) =~= o0);
    while i < checks.len()
        invariant
            i <= checks.len(),
            cs == views_of(checks@),
            out@ == o0 + check_lines(cs.take(i as int), required),
        decreases checks.len() - i,
    {
        assert(cs.take(i + 1).drop_last() =~= cs.take(i as int));
        assert(cs.take(i + 1).last() == checks@[i as int]@);
        if checks[i].required == required {
            let line = render_doctor_check(&checks[i]);
            push_str(out, line.as_str());
        }
        assert(out@ =~= o0 + check_lines(cs.take(i + 1), required));
        i += 1;
    }
    assert(cs.take(checks.len() as int) =~= cs);
}

/// The doctor report: required tools, optional tools, and whether any required tool is
/// missing.
pub fn render_doctor_report(checks: &[DoctorCheck]) -> (s: String)
    ensures
        s@ == spec_render_doctor_report(views_of(checks@)),
{
    let ghost cs = views_of(checks@);
    let mut output = string_from("Basalt doctor\n\nRequired tools:\n");
    push_check_lines(&mut output, checks, true);
    push_str(&mut output, "\nOptional tools:\n");
    push_check_lines(&mut output, checks, false);
    let mut missing = false;
    let mut i: usize = 0;
    while i < checks.len()
        invariant
            i <= checks.len(),
            cs == views_of(checks@),
            missing <==> exists|j: int| 0 <= j < i && #[trigger] cs[j].required && !cs[j].present,
        decreases checks.len() - i,
    {
        assert(cs[i as int] == checks@[i as int]@);
        if checks[i].required && !checks[i].present {
            missing = true;
            assert(cs[i as int].required && !cs[i as int].present);
        } else {
            assert(!(cs[i as int].required && !cs[i as int].present));
        }
        i += 1;
    }
    if missing {
        push_str(&mut output, "\nStatus: missing required tools\n");
    } else {
        push_str(&mut output, "\nStatus: ok\n");
    }
    output
}

proof fn lemma_find_none(t: Seq<OptionView>, a: Seq<char>)
    requires
        forall|i: int| 0 <= i < t.len() ==> (#[trigger] t[i]).name != a,
    ensures
        find_option(t, a) is None,
    decreases t.len(),
{
    if t.len() > 0 {
        assert forall|i: int| 0 <= i < t.drop_last().len() implies (#[trigger] t.drop_last()[i]).name != a by {
            assert(t.drop_last()[i] == t[i]);
        }
        lemma_find_none(t.drop_last(), a);
    }
}

/// `--root` is the sixth of `apply`'s options.
proof fn lemma_find_root()
    ensures
        find_option(apply_options(), "--root"@) == Some(5nat),
        apply_options()[5] == root_opt(),
{
    reveal_strlit("--dry-run");
    reveal_strlit("--check");
    reveal_strlit("--yes");
    reveal_strlit("--config");
    reveal_strlit("--state-dir");
    reveal_strlit("--root");
    reveal_strlit("--service-executor");
    reveal_strlit("--package-executor");
    let t = apply_options();
    let a = "--root"@;
    let t6 = t.drop_last().drop_last();
    assert(t6 =~= t.take(6));
    assert(t6.drop_last() =~= t.take(5));
    assert forall|i: int| 0 <= i < t.take(5).len() implies (#[trigger] t.take(5)[i]).name != a by {
        assert(t.take(5)[i].name.len() != a.len());
    }
    lemma_find_none(t.take(5), a);
    assert(t6.last().name == a);
    assert(find_option(t6, a) == Some(5nat));
    assert(t.drop_last().last().name.len() != a.len());
    assert(find_option(t.drop_last(), a) == find_option(t6, a));
    assert(t.last().name.len() != a.len());
}

/// Scanning more arguments after a scan that succeeded goes on from where it stopped.
proof fn lemma_scan_append(
    args: Seq<Seq<char>>,
    ext: Seq<Seq<char>>,
    i: nat,
    table: Seq<OptionView>,
    slots: Seq<Option<SlotView>>,
)
    requires
        i <= args.len(),
        scan(args, i, table, slots) is Ok,
    ensures
        scan(args + ext, i, table, slots) == scan(args + ext, args.len(), table, scan(args, i, table, slots)->Ok_0),
    decreases args.len() - i,
{
    let all = args + ext;
    if i < args.len() {
        let a = args[i as int];
        assert(all[i as int] == a);
        match find_option(table, a) {
            None => {},
            Some(k) => {
                let o = table[k as int];
                if o.kind == OptionKind::Flag {
                    lemma_scan_append(args, ext, i + 1, table, slots.update(k as int, Some(SlotView::Present)));
                } else {
                    assert(i + 1 < args.len());
                    let v = args[i + 1int];
                    assert(all[i + 1int] == v);
                    match o.kind {
                        OptionKind::PackageMode => match spec_parse_package_mode(v) {
                            Ok(m) => lemma_scan_append(
                                args,
                                ext,
                                i + 2,
                                table,
                                slots.update(k as int, Some(SlotView::Package(m))),
                            ),
                            Err(e) => {},
                        },
                        OptionKind::ServiceMode => match spec_parse_service_mode(v) {
                            Ok(m) => lemma_scan_append(
                                args,
                                ext,
                                i + 2,
                                table,
                                slots.update(k as int, Some(SlotView::Service(m))),
                            ),
                            Err(e) => {},
                        },
                        OptionKind::Limit => match spec_parse_usize(v) {
                            None => {},
                            Some(n) => if n != 0 {
                                lemma_scan_append(args, ext, i + 2, table, slots.update(k as int, Some(SlotView::Limit(n))));
                            },
                        },
                        _ => lemma_scan_append(args, ext, i + 2, table, slots.update(k as int, Some(SlotView::Text(v)))),
                    }
                }
            },
        }
    }
}

/// Scanning keeps the number of slots.
proof fn lemma_scan_len(args: Seq<Seq<char>>, i: nat, table: Seq<OptionView>, slots: Seq<Option<SlotView>>)
    requires
        scan(args, i, table, slots) is Ok,
        slots.len() == table.len(),
    ensures
        (scan(args, i, table, slots)->Ok_0).len() == slots.len(),
    decreases args.len() - i,
{
    if i < args.len() {
        let a = args[i as int];
        lemma_find_option(table, a);
        match find_option(table, a) {
            None => {},
            Some(q) => {
                let o = table[q as int];
                if o.kind == OptionKind::Flag {
                    lemma_scan_len(args, i + 1, table, slots.update(q as int, Some(SlotView::Present)));
                } else if i + 1 < args.len() {
                    let v = args[i + 1int];
                    match o.kind {
                        OptionKind::PackageMode => match spec_parse_package_mode(v) {
                            Ok(m) => lemma_scan_len(args, i + 2, table, slots.update(q as int, Some(SlotView::Package(m)))),
                            Err(e) => {},
                        },
                        OptionKind::ServiceMode => match spec_parse_service_mode(v) {
                            Ok(m) => lemma_scan_len(args, i + 2, table, slots.update(q as int, Some(SlotView::Service(m)))),
                            Err(e) => {},
                        },
                        OptionKind::Limit => match spec_parse_usize(v) {
                            None => {},
                            Some(n) => if n != 0 {
                                lemma_scan_len(args, i + 2, table, slots.update(q as int, Some(SlotView::Limit(n))));
                            },
                        },
                        _ => lemma_scan_len(args, i + 2, table, slots.update(q as int, Some(SlotView::Text(v)))),
                    }
                }
            },
        }
    }
}

/// A slot no argument names stays as it was.
proof fn lemma_scan_keeps(args: Seq<Seq<char>>, i: nat, table: Seq<OptionView>, slots: Seq<Option<SlotView>>, k: int)
    requires
        scan(args, i, table, slots) is Ok,
        0 <= k < table.len(),
        slots.len() == table.len(),
        forall|j: int| i <= j < args.len() ==> #[trigger] args[j] != table[k].name,
    ensures
        (scan(args, i, table, slots)->Ok_0)[k] == slots[k],
        (scan(args, i, table, slots)->Ok_0).len() == slots.len(),
    decreases args.len() - i,
{
    if i < args.len() {
        let a = args[i as int];
        lemma_find_option(table, a);
        match find_option(table, a) {
            None => {},
            Some(q) => {
                assert(q != k);
                assert forall|x: Option<SlotView>| #[trigger] slots.update(q as int, x)[k] == slots[k] by {}
                let o = table[q as int];
                if o.kind == OptionKind::Flag {
                    lemma_scan_keeps(args, i + 1, table, slots.update(q as int, Some(SlotView::Present)), k);
                } else if i + 1 < args.len() {
                    let v = args[i + 1int];
                    match o.kind {
                        OptionKind::PackageMode => match spec_parse_package_mode(v) {
                            Ok(m) => lemma_scan_keeps(args, i + 2, table, slots.update(q as int, Some(SlotView::Package(m))), k),
                            Err(e) => {},
                        },
                        OptionKind::ServiceMode => match spec_parse_service_mode(v) {
                            Ok(m) => lemma_scan_keeps(args, i + 2, table, slots.update(q as int, Some(SlotView::Service(m))), k),
                            Err(e) => {},
                        },
                        OptionKind::Limit => match spec_parse_usize(v) {
                            None => {},
                            Some(n) => if n != 0 {
                                lemma_scan_keeps(args, i + 2, table, slots.update(q as int, Some(SlotView::Limit(n))), k);
                            },
                        },
                        _ => lemma_scan_keeps(args, i + 2, table, slots.update(q as int, Some(SlotView::Text(v))), k),
                    }
                }
            },
        }
    }
}

/// `apply --check` checks the root that `--root` names: adding `--root <r>` to a command
/// line that parses as `apply --check` gives the same check with root `r`, and a command
/// line with no `--root` option checks `/`.
pub proof fn law_apply_check_root(args: Seq<Seq<char>>, config_dir: Seq<char>, root_dir: Seq<char>, r: Seq<char>)
    requires
        args.len() >= 2,
        spec_parse_apply(args) == Ok::<CommandView, Seq<char>>(CommandView::ApplyCheck { config_dir, root_dir }),
    ensures
        spec_parse_apply(args + seq!["--root"@, r]) == Ok::<CommandView, Seq<char>>(
            CommandView::ApplyCheck { config_dir, root_dir: r },
        ),
        (forall|j: int| 2 <= j < args.len() ==> #[trigger] args[j] != "--root"@) ==> root_dir == "/"@,
{
    let t = apply_options();
    let s0 = no_slots(8);
    let s = scan(args, 2, t, s0)->Ok_0;
    let ext = seq!["--root"@, r];
    let all = args + ext;
    assert(t.len() == 8 && s0.len() == 8);
    lemma_scan_len(args, 2, t, s0);
    assert(s.len() == 8);
    lemma_scan_append(args, ext, 2, t, s0);
    lemma_find_root();
    let n = args.len();
    assert(all[n as int] == "--root"@);
    assert(all[n + 1int] == r);
    reveal_strlit("--root");
    assert(root_opt().kind == OptionKind::Value);
    let s2 = s.update(5, Some(SlotView::Text(r)));
    assert(scan(all, n + 2, t, s2) == Ok::<Seq<Option<SlotView>>, Seq<char>>(s2));
    assert(scan(all, n, t, s) == scan(all, n + 2, t, s2));
    assert(slot_set(s2, 0) == slot_set(s, 0));
    assert(slot_set(s2, 1) == slot_set(s, 1));
    assert(slot_set(s2, 2) == slot_set(s, 2));
    assert(slot_text(s2, 3) == slot_text(s, 3));
    assert(slot_text(s2, 4) == slot_text(s, 4));
    assert(slot_text(s2, 5) == Some(r));
    if forall|j: int| 2 <= j < args.len() ==> #[trigger] args[j] != "--root"@ {
        assert(t[5].name == "--root"@);
        lemma_scan_keeps(args, 2, t, s0, 5);
        assert(s0[5] is None);
    }
}

} // verus!

// The run history rows the state index returns, and their reports.

use vstd::prelude::*;

use crate::backends::pacman::{PackageBackend, PackageTransaction};
use crate::strmap::StrSet;
use crate::config::types::{strings_view, views_of};
use crate::text::{
    cat2, contains_str, decimal, ends_with, push_decimal, push_str, seq_ends_with, spec_words,
    string_from, trim, trim_str, words_of,
};

verus! {

/// What one run hands to the state index besides its record: where its files went,
/// what the configuration declared, and the host state around it.
#[derive(Debug)]
pub struct StateDbArtifacts {
    pub run_json_path: String,
    pub latest_json_path: String,
    pub package_intent: Vec<PackageIntent>,
    pub service_intent: Vec<ServiceIntent>,
    pub package_operations_path: Option<String>,
    pub service_operations_path: Option<String>,
    pub backup_dir: Option<String>,
    pub pacman_snapshot_before: Option<StrSet>,
    pub pacman_snapshot_after: Option<StrSet>,
    pub enabled_services_before: Option<StrSet>,
    pub enabled_services_after: Option<StrSet>,
    pub pacman_transaction: Option<PackageTransaction>,
    pub aur_transaction: Option<PackageTransaction>,
    pub nix_transaction: Option<PackageTransaction>,
}

impl StateDbArtifacts {
    /// The artifacts of a run that wrote its record to these two paths and nothing else.
    pub fn new(run_json_path: String, latest_json_path: String) -> (a: Self)
        ensures
            a.run_json_path@ == run_json_path@,
            a.latest_json_path@ == latest_json_path@,
            a.package_intent@.len() == 0,
            a.service_intent@.len() == 0,
            a.package_operations_path is None,
            a.service_operations_path is None,
            a.backup_dir is None,
            a.pacman_snapshot_before is None,
            a.pacman_snapshot_after is None,
            a.enabled_services_before is None,
            a.enabled_services_after is None,
            a.pacman_transaction is None,
            a.aur_transaction is None,
            a.nix_transaction is None,
    {
        StateDbArtifacts {
            run_json_path,
            latest_json_path,
            package_intent: Vec::new(),
            service_intent: Vec::new(),
            package_operations_path: None,
            service_operations_path: None,
            backup_dir: None,
            pacman_snapshot_before: None,
            pacman_snapshot_after: None,
            enabled_services_before: None,
            enabled_services_after: None,
            pacman_transaction: None,
            aur_transaction: None,
            nix_transaction: None,
        }
    }
}

/// A package the configuration declares, with its backend.
#[derive(Debug)]
pub struct PackageIntent {
    pub backend: PackageBackend,
    pub package: String,
}

/// A service the configuration asks to enable or disable.
#[derive(Debug)]
pub struct ServiceIntent {
    pub action: String,
    pub service: String,
}

/// One run as the history lists it.
#[derive(Debug)]
pub struct HistoryRow {
    pub id: String,
    pub mode: String,
    pub action_count: usize,
    pub config_path: String,
    pub created_at: String,
    pub package_operation_count: usize,
    pub service_operation_count: usize,
}

pub struct HistoryRowView {
    pub id: Seq<char>,
    pub mode: Seq<char>,
    pub action_count: nat,
    pub config_path: Seq<char>,
    pub created_at: Seq<char>,
    pub package_operation_count: nat,
    pub service_operation_count: nat,
}

impl View for HistoryRow {
    type V = HistoryRowView;

    open spec fn view(&self) -> HistoryRowView {
        HistoryRowView {
            id: self.id@,
            mode: self.mode@,
            action_count: self.action_count as nat,
            config_path: self.config_path@,
            created_at: self.created_at@,
            package_operation_count: self.package_operation_count as nat,
            service_operation_count: self.service_operation_count as nat,
        }
    }
}

/// What the index holds about one run.
#[derive(Debug)]
pub struct RunInspection {
    pub id: String,
    pub declared_packages: Vec<String>,
    pub declared_services: Vec<String>,
    pub package_transaction_statuses: Vec<String>,
    pub resolved_package_transactions: Vec<String>,
    pub requested_package_operations: Vec<String>,
    pub requested_service_operations: Vec<String>,
    pub package_snapshot_changes: Vec<String>,
    pub service_snapshot_changes: Vec<String>,
    pub package_result_audit: Vec<String>,
    pub service_result_audit: Vec<String>,
}

/// One run in the history of a package.
#[derive(Debug)]
pub struct PackageHistoryRow {
    pub run_id: String,
    pub mode: String,
    pub created_at: String,
    pub config_path: String,
    pub intent: Vec<String>,
    pub operations: Vec<String>,
    pub snapshot_changes: Vec<String>,
    pub audit: Vec<String>,
}

/// One run in the history of a service.
#[derive(Debug)]
pub struct ServiceHistoryRow {
    pub run_id: String,
    pub mode: String,
    pub created_at: String,
    pub config_path: String,
    pub intent: Vec<String>,
    pub operations: Vec<String>,
    pub snapshot_changes: Vec<String>,
    pub audit: Vec<String>,
}

/// The rows of one run of an item's history: header and the four lists.
pub struct ItemRunView {
    pub run_id: Seq<char>,
    pub mode: Seq<char>,
    pub created_at: Seq<char>,
    pub config_path: Seq<char>,
    pub intent: Seq<Seq<char>>,
    pub operations: Seq<Seq<char>>,
    pub snapshot_changes: Seq<Seq<char>>,
    pub audit: Seq<Seq<char>>,
}

impl View for PackageHistoryRow {
    type V = ItemRunView;

    open spec fn view(&self) -> ItemRunView {
        ItemRunView {
            run_id: self.run_id@,
            mode: self.mode@,
            created_at: self.created_at@,
            config_path: self.config_path@,
            intent: strings_view(self.intent@),
            operations: strings_view(self.operations@),
            snapshot_changes: strings_view(self.snapshot_changes@),
            audit: strings_view(self.audit@),
        }
    }
}

impl View for ServiceHistoryRow {
    type V = ItemRunView;

    open spec fn view(&self) -> ItemRunView {
        ItemRunView {
            run_id: self.run_id@,
            mode: self.mode@,
            created_at: self.created_at@,
            config_path: self.config_path@,
            intent: strings_view(self.intent@),
            operations: strings_view(self.operations@),
            snapshot_changes: strings_view(self.snapshot_changes@),
            audit: strings_view(self.audit@),
        }
    }
}

pub open spec fn history_line(r: HistoryRowView) -> Seq<char> {
    r.id + " | "@ + r.mode + " | "@ + decimal(r.action_count) + " | "@ + decimal(
        r.package_operation_count,
    ) + " | "@ + decimal(r.service_operation_count) + " | "@ + r.created_at + " | "@
        + r.config_path + "\n"@
}

pub open spec fn history_lines(rs: Seq<HistoryRowView>) -> Seq<char>
    decreases rs.len(),
{
    if rs.len() == 0 {
        Seq::<char>::empty()
    } else {
        history_lines(rs.drop_last()) + history_line(rs.last())
    }
}

pub open spec fn spec_render_history(rs: Seq<HistoryRowView>) -> Seq<char> {
    if rs.len() == 0 {
        "No runs recorded.\n"@
    } else {
        "Basalt run history\n\n"@ + "ID | Mode | Actions | Packages | Services | Created | Config\n"@
            + "---|------|---------|----------|----------|---------|-------\n"@ + history_lines(rs)
    }
}

/// The run history table, or that no run is recorded.
pub fn render_history(rows: &[HistoryRow]) -> (out: String)
    ensures
        out@ == spec_render_history(views_of(rows@)),
{
    if rows.len() == 0 {
        return string_from("No runs recorded.\n");
    }
    let ghost rs = views_of(rows@);
    let mut out = string_from("Basalt run history\n\n");
    push_str(&mut out, "ID | Mode | Actions | Packages | Services | Created | Config\n");
    push_str(&mut out, "---|------|---------|----------|----------|---------|-------\n");
    let ghost o0 = out@;
    let mut i: usize = 0;
    assert(o0 + history_lines(rs.take(0)) =~= o0);
    while i < rows.len()
        invariant
            i <= rows.len(),
            rs == views_of(rows@),
            out@ == o0 + history_lines(rs.take(i as int)),
        decreases rows.len() - i,
    {
        assert(rs.take(i + 1).drop_last() =~= rs.take(i as int));
        assert(rs.take(i + 1).last() == rows@[i as int]@);
        let row = &rows[i];
        push_str(&mut out, row.id.as_str());
        push_str(&mut out, " | ");
        push_str(&mut out, row.mode.as_str());
        push_str(&mut out, " | ");
        push_decimal(&mut out, row.action_count as u128);
        push_str(&mut out, " | ");
        push_decimal(&mut out, row.package_operation_count as u128);
        push_str(&mut out, " | ");
        push_decimal(&mut out, row.service_operation_count as u128);
        push_str(&mut out, " | ");
        push_str(&mut out, row.created_at.as_str());
        push_str(&mut out, " | ");
        push_str(&mut out, row.config_path.as_str());
        push_str(&mut out, "\n");
        assert(out@ =~= o0 + history_lines(rs.take(i + 1)));
        i += 1;
    }
    assert(rs.take(rows.len() as int) =~= rs);
    out
}

pub open spec fn item_lines(prefix: Seq<char>, items: Seq<Seq<char>>) -> Seq<char>
    decreases items.len(),
{
    if items.len() == 0 {
        Seq::<char>::empty()
    } else {
        item_lines(prefix, items.drop_last()) + prefix + items.last() + "\n"@
    }
}

/// `  <label>:` and its items, or `none`.
pub open spec fn indented_list(label: Seq<char>, items: Seq<Seq<char>>) -> Seq<char> {
    "  "@ + label + ":\n"@ + if items.len() == 0 {
        "    - none\n"@
    } else {
        item_lines("    - "@, items)
    }
}

fn push_items(out: &mut String, prefix: &str, items: &Vec<String>)
    ensures
        final(out)@ == old(out)@ + item_lines(prefix@, strings_view(items@)),
{
    let ghost o0 = out@;
    let ghost vs = strings_view(items@);
    let mut i: usize = 0;
    assert(o0 + item_lines(prefix@, vs.take(0)) =~= o0);
    while i < items.len()
        invariant
            i <= items.len(),
            vs == strings_view(items@),
            out@ == o0 + item_lines(prefix@, vs.take(i as int)),
        decreases items.len() - i,
    {
        assert(vs.take(i + 1).drop_last() =~= vs.take(i as int));
        assert(vs.take(i + 1).last() == items@[i as int]@);
        push_str(out, prefix);
        push_str(out, items[i].as_str());
        push_str(out, "\n");
        assert(out@ =~= o0 + item_lines(prefix@, vs.take(i + 1)));
        i += 1;
    }
    assert(vs.take(items.len() as int) =~= vs);
}

pub fn push_indented_list(out: &mut String, label: &str, items: &Vec<String>)
    ensures
        final(out)@ == old(out)@ + indented_list(label@, strings_view(items@)),
{
    let ghost o0 = out@;
    push_str(out, "  ");
    push_str(out, label);
    push_str(out, ":\n");
    if items.len() == 0 {
        push_str(out, "    - none\n");
    } else {
        push_items(out, "    - ", items);
    }
    assert(out@ =~= o0 + indented_list(label@, strings_view(items@)));
}

pub open spec fn item_run_block(r: ItemRunView) -> Seq<char> {
    r.run_id + " | "@ + r.mode + " | "@ + r.created_at + " | "@ + r.config_path + "\n"@
        + indented_list("intent"@, r.intent) + indented_list("operations"@, r.operations)
        + indented_list("snapshot"@, r.snapshot_changes) + indented_list("audit"@, r.audit) + "\n"@
}

pub open spec fn item_run_blocks(rs: Seq<ItemRunView>) -> Seq<char>
    decreases rs.len(),
{
    if rs.len() == 0 {
        Seq::<char>::empty()
    } else {
        item_run_blocks(rs.drop_last()) + item_run_block(rs.last())
    }
}

/// The history of one package or service, or that it has none: `none_prefix` and
/// `title_prefix` open the two forms.
pub open spec fn spec_item_history(
    none_prefix: Seq<char>,
    title_prefix: Seq<char>,
    item: Seq<char>,
    rs: Seq<ItemRunView>,
) -> Seq<char> {
    if rs.len() == 0 {
        none_prefix + trim(item) + "`.\n"@
    } else {
        title_prefix + trim(item) + "\n\n"@ + item_run_blocks(rs)
    }
}

fn push_item_run(out: &mut String, run_id: &String, mode: &String, created_at: &String, config_path: &String,
    intent: &Vec<String>, operations: &Vec<String>, snapshot: &Vec<String>, audit: &Vec<String>)
    ensures
        final(out)@ == old(out)@ + item_run_block(
            ItemRunView {
                run_id: run_id@,
                mode: mode@,
                created_at: created_at@,
                config_path: config_path@,
                intent: strings_view(intent@),
                operations: strings_view(operations@),
                snapshot_changes: strings_view(snapshot@),
                audit: strings_view(audit@),
            },
        ),
{
    let ghost o0 = out@;
    push_str(out, run_id.as_str());
    push_str(out, " | ");
    push_str(out, mode.as_str());
    push_str(out, " | ");
    push_str(out, created_at.as_str());
    push_str(out, " | ");
    push_str(out, config_path.as_str());
    push_str(out, "\n");
    let ghost o1 = out@;
    push_indented_list(out, "intent", intent);
    let ghost o2 = out@;
    push_indented_list(out, "operations", operations);
    let ghost o3 = out@;
    push_indented_list(out, "snapshot", snapshot);
    let ghost o4 = out@;
    push_indented_list(out, "audit", audit);
    push_str(out, "\n");
    assert(out@ =~= o0 + item_run_block(
        ItemRunView {
            run_id: run_id@,
            mode: mode@,
            created_at: created_at@,
            config_path: config_path@,
            intent: strings_view(intent@),
            operations: strings_view(operations@),
            snapshot_changes: strings_view(snapshot@),
            audit: strings_view(audit@),
        },
    ));
}

/// The history of one package.
pub fn render_package_history(package: &str, rows: &[PackageHistoryRow]) -> (out: String)
    ensures
        out@ == spec_item_history(
            "No package history for `"@,
            "Basalt package history: "@,
            package@,
            views_of(rows@),
        ),
{
    let name = trim_str(package);
    if rows.len() == 0 {
        let mut out = cat2("No package history for `", name.as_str());
        push_str(&mut out, "`.\n");
        return out;
    }
    let ghost rs = views_of(rows@);
    let mut out = cat2("Basalt package history: ", name.as_str());
    push_str(&mut out, "\n\n");
    let ghost o0 = out@;
    let mut i: usize = 0;
    assert(o0 + item_run_blocks(rs.take(0)) =~= o0);
    while i < rows.len()
        invariant
            i <= rows.len(),
            rs == views_of(rows@),
            out@ == o0 + item_run_blocks(rs.take(i as int)),
        decreases rows.len() - i,
    {
        assert(rs.take(i + 1).drop_last() =~= rs.take(i as int));
        assert(rs.take(i + 1).last() == rows@[i as int]@);
        let r = &rows[i];
        push_item_run(
            &mut out,
            &r.run_id,
            &r.mode,
            &r.created_at,
            &r.config_path,
            &r.intent,
            &r.operations,
            &r.snapshot_changes,
            &r.audit,
        );
        assert(out@ =~= o0 + item_run_blocks(rs.take(i + 1)));
        i += 1;
    }
    assert(rs.take(rows.len() as int) =~= rs);
    out
}

/// The history of one service.
pub fn render_service_history(service: &str, rows: &[ServiceHistoryRow]) -> (out: String)
    ensures
        out@ == spec_item_history(
            "No service history for `"@,
            "Basalt service history: "@,
            service@,
            views_of(rows@),
        ),
{
    let name = trim_str(service);
    if rows.len() == 0 {
        let mut out = cat2("No service history for `", name.as_str());
        push_str(&mut out, "`.\n");
        return out;
    }
    let ghost rs = views_of(rows@);
    let mut out = cat2("Basalt service history: ", name.as_str());
    push_str(&mut out, "\n\n");
    let ghost o0 = out@;
    let mut i: usize = 0;
    assert(o0 + item_run_blocks(rs.take(0)) =~= o0);
    while i < rows.len()
        invariant
            i <= rows.len(),
            rs == views_of(rows@),
            out@ == o0 + item_run_blocks(rs.take(i as int)),
        decreases rows.len() - i,
    {
        assert(rs.take(i + 1).drop_last() =~= rs.take(i as int));
        assert(rs.take(i + 1).last() == rows@[i as int]@);
        let r = &rows[i];
        push_item_run(
            &mut out,
            &r.run_id,
            &r.mode,
            &r.created_at,
            &r.config_path,
            &r.intent,
            &r.operations,
            &r.snapshot_changes,
            &r.audit,
        );
        assert(out@ =~= o0 + item_run_blocks(rs.take(i + 1)));
        i += 1;
    }
    assert(rs.take(rows.len() as int) =~= rs);
    out
}

/// `<heading>:` and its items, then a blank line; `- none` when there are none.
pub open spec fn heading_list(heading: Seq<char>, values: Seq<Seq<char>>) -> Seq<char> {
    heading + ":\n"@ + if values.len() == 0 {
        "- none\n\n"@
    } else {
        item_lines("- "@, values) + "\n"@
    }
}

pub fn push_list(out: &mut String, heading: &str, values: &Vec<String>)
    ensures
        final(out)@ == old(out)@ + heading_list(heading@, strings_view(values@)),
{
    let ghost o0 = out@;
    push_str(out, heading);
    push_str(out, ":\n");
    if values.len() == 0 {
        push_str(out, "- none\n\n");
    } else {
        push_items(out, "- ", values);
        push_str(out, "\n");
    }
    assert(out@ =~= o0 + heading_list(heading@, strings_view(values@)));
}

pub open spec fn spec_render_run_inspection(
    id: Seq<char>,
    lists: Seq<Seq<Seq<char>>>,
) -> Seq<char> {
    "Basalt run inspection\n\n"@ + "Run: "@ + id + "\n\n"@ + heading_list(
        "Declared package intent"@,
        lists[0],
    ) + heading_list("Declared service intent"@, lists[1]) + heading_list(
        "Package transaction resolution"@,
        lists[2],
    ) + heading_list("Resolved package transactions"@, lists[3]) + heading_list(
        "Requested package operations"@,
        lists[4],
    ) + heading_list("Requested service operations"@, lists[5]) + heading_list(
        "Actual package snapshot changes"@,
        lists[6],
    ) + heading_list("Actual service snapshot changes"@, lists[7]) + heading_list(
        "Package result audit"@,
        lists[8],
    ) + heading_list("Service result audit"@, lists[9])
}

pub open spec fn inspection_lists(i: RunInspection) -> Seq<Seq<Seq<char>>> {
    seq![
        strings_view(i.declared_packages@),
        strings_view(i.declared_services@),
        strings_view(i.package_transaction_statuses@),
        strings_view(i.resolved_package_transactions@),
        strings_view(i.requested_package_operations@),
        strings_view(i.requested_service_operations@),
        strings_view(i.package_snapshot_changes@),
        strings_view(i.service_snapshot_changes@),
        strings_view(i.package_result_audit@),
        strings_view(i.service_result_audit@),
    ]
}

/// Everything the index holds about one run, list by list.
pub fn render_run_inspection(inspection: &RunInspection) -> (out: String)
    ensures
        out@ == spec_render_run_inspection(inspection.id@, inspection_lists(*inspection)),
{
    let mut out = string_from("Basalt run inspection\n\n");
    push_str(&mut out, "Run: ");
    push_str(&mut out, inspection.id.as_str());
    push_str(&mut out, "\n\n");
    let ghost o = out@;
    push_list(&mut out, "Declared package intent", &inspection.declared_packages);
    let ghost o1 = out@;
    push_list(&mut out, "Declared service intent", &inspection.declared_services);
    let ghost o2 = out@;
    push_list(&mut out, "Package transaction resolution", &inspection.package_transaction_statuses);
    let ghost o3 = out@;
    push_list(&mut out, "Resolved package transactions", &inspection.resolved_package_transactions);
    let ghost o4 = out@;
    push_list(&mut out, "Requested package operations", &inspection.requested_package_operations);
    let ghost o5 = out@;
    push_list(&mut out, "Requested service operations", &inspection.requested_service_operations);
    let ghost o6 = out@;
    push_list(&mut out, "Actual package snapshot changes", &inspection.package_snapshot_changes);
    let ghost o7 = out@;
    push_list(&mut out, "Actual service snapshot changes", &inspection.service_snapshot_changes);
    let ghost o8 = out@;
    push_list(&mut out, "Package result audit", &inspection.package_result_audit);
    let ghost o9 = out@;
    push_list(&mut out, "Service result audit", &inspection.service_result_audit);
    assert(out@ =~= spec_render_run_inspection(inspection.id@, inspection_lists(*inspection)));
    out
}

/// The `.service` unit a service name stands for.
pub open spec fn spec_service_unit(service: Seq<char>) -> Seq<char> {
    if seq_ends_with(service, ".service"@) {
        service
    } else {
        service + ".service"@
    }
}

pub fn service_unit_alias(service: &str) -> (unit: String)
    ensures
        unit@ == spec_service_unit(service@),
{
    if ends_with(service, ".service") {
        string_from(service)
    } else {
        cat2(service, ".service")
    }
}

/// Whether one of the words of `row` is `package`.
pub fn row_mentions_package(row: &str, package: &str) -> (b: bool)
    ensures
        b == spec_words(row@).contains(package@),
{
    let words = words_of(row);
    contains_str(&words, package)
}

/// Whether one of the words of `row` is the service (trimmed) or its `.service` unit.
pub fn row_mentions_service(row: &str, service: &str) -> (b: bool)
    ensures
        b == (spec_words(row@).contains(trim(service@)) || spec_words(row@).contains(
            spec_service_unit(trim(service@)),
        )),
{
    let name = trim_str(service);
    let unit = service_unit_alias(name.as_str());
    let words = words_of(row);
    contains_str(&words, name.as_str()) || contains_str(&words, unit.as_str())
}

/// The rows, in order, that `mentions` keeps.
pub open spec fn kept_rows(rows: Seq<Seq<char>>, keep: spec_fn(Seq<char>) -> bool) -> Seq<Seq<char>>
    decreases rows.len(),
{
    if rows.len() == 0 {
        Seq::<Seq<char>>::empty()
    } else {
        kept_rows(rows.drop_last(), keep) + if keep(rows.last()) {
            seq![rows.last()]
        } else {
            Seq::<Seq<char>>::empty()
        }
    }
}

/// The rows that mention `package`.
pub fn rows_mentioning_package(rows: Vec<String>, package: &str) -> (kept: Vec<String>)
    ensures
        strings_view(kept@) == kept_rows(
            strings_view(rows@),
            |r: Seq<char>| spec_words(r).contains(package@),
        ),
{
    let ghost rs = strings_view(rows@);
    let ghost keep = |r: Seq<char>| spec_words(r).contains(package@);
    let mut kept: Vec<String> = Vec::new();
    let mut i: usize = 0;
    assert(rs.take(0) =~= Seq::<Seq<char>>::empty());
    while i < rows.len()
        invariant
            i <= rows.len(),
            rs == strings_view(rows@),
            keep == (|r: Seq<char>| spec_words(r).contains(package@)),
            strings_view(kept@) == kept_rows(rs.take(i as int), keep),
        decreases rows.len() - i,
    {
        assert(rs.take(i + 1).drop_last() =~= rs.take(i as int));
        assert(rs.take(i + 1).last() == rows@[i as int]@);
        let ghost k0 = kept@;
        if row_mentions_package(rows[i].as_str(), package) {
            let r = rows[i].clone();
            kept.push(r);
            assert(strings_view(kept@) =~= strings_view(k0).push(rows@[i as int]@));
        }
        assert(strings_view(kept@) =~= kept_rows(rs.take(i + 1), keep));
        i += 1;
    }
    assert(rs.take(rows.len() as int) =~= rs);
    kept
}

/// The rows that mention the service or its unit.
pub fn rows_mentioning_service(rows: Vec<String>, service: &str) -> (kept: Vec<String>)
    ensures
        strings_view(kept@) == kept_rows(
            strings_view(rows@),
            |r: Seq<char>|
                spec_words(r).contains(trim(service@)) || spec_words(r).contains(
                    spec_service_unit(trim(service@)),
                ),
        ),
{
    let ghost rs = strings_view(rows@);
    let ghost keep = |r: Seq<char>|
        spec_words(r).contains(trim(service@)) || spec_words(r).contains(
            spec_service_unit(trim(service@)),
        );
    let mut kept: Vec<String> = Vec::new();
    let mut i: usize = 0;
    assert(rs.take(0) =~= Seq::<Seq<char>>::empty());
    while i < rows.len()
        invariant
            i <= rows.len(),
            rs == strings_view(rows@),
            keep == (|r: Seq<char>|
                spec_words(r).contains(trim(service@)) || spec_words(r).contains(
                    spec_service_unit(trim(service@)),
                )),
            strings_view(kept@) == kept_rows(rs.take(i as int), keep),
        decreases rows.len() - i,
    {
        assert(rs.take(i + 1).drop_last() =~= rs.take(i as int));
        assert(rs.take(i + 1).last() == rows@[i as int]@);
        let ghost k0 = kept@;
        if row_mentions_service(rows[i].as_str(), service) {
            let r = rows[i].clone();
            kept.push(r);
            assert(strings_view(kept@) =~= strings_view(k0).push(rows@[i as int]@));
        }
        assert(strings_view(kept@) =~= kept_rows(rs.take(i + 1), keep));
        i += 1;
    }
    assert(rs.take(rows.len() as int) =~= rs);
    kept
}

/// A service name already ending in `.service` is its own unit, so naming the unit of a
/// unit changes nothing.
pub proof fn law_service_unit_idempotent(service: Seq<char>)
    ensures
        spec_service_unit(spec_service_unit(service)) == spec_service_unit(service),
        seq_ends_with(spec_service_unit(service), ".service"@),
{
    let suffix = ".service"@;
    if !seq_ends_with(service, suffix) {
        let u = service + suffix;
        assert(u.skip(u.len() - suffix.len()) =~= suffix);
    }
}

/// Whether a log line has an empty first field, which `splitn` then yields as `""`.
pub open spec fn blank_first_field(line: Seq<char>) -> bool {
    line.len() == 0 || line[0] == ' '
}

/// One line of the package operations log, as `backend action package` split at the first
/// two spaces: `None` for a line whose first field is empty, an error naming `display` for a
/// line with fewer than three fields.
pub fn parse_package_operation_line(display: &str, line: &str) -> (r: Result<Option<(String, String, String)>, String>)
    ensures
        blank_first_field(line@) ==> r matches Ok(None),
        r matches Ok(Some((backend, action, package))) ==> line@ == backend@ + " "@ + action@ + " "@
            + package@ && backend@.len() > 0 && !backend@.contains(' ') && !action@.contains(' '),
        r matches Err(e) ==> e@ == display@ + ": invalid package operation `"@ + line@ + "`"@,
        r is Err <==> (!blank_first_field(line@) && forall|a: Seq<char>, b: Seq<char>, p: Seq<char>|
            !(line@ == a + " "@ + b + " "@ + p && !a.contains(' ') && !b.contains(' '))),
{
    proof {
        reveal_strlit(" ");
    }
    let invalid = {
        let mut e = cat2(display, ": invalid package operation `");
        push_str(&mut e, line);
        push_str(&mut e, "`");
        e
    };
    if line.is_empty() || crate::text::starts_with_char(line, ' ') {
        return Ok(None);
    }
    match crate::text::split_once_char(line, ' ') {
        None => {
            proof {
                assert forall|a: Seq<char>, b: Seq<char>, p: Seq<char>|
                    !(line@ == a + " "@ + b + " "@ + p && !a.contains(' ') && !b.contains(' ')) by {
                    if line@ == a + " "@ + b + " "@ + p {
                        assert(line@[a.len() as int] == ' ');
                    }
                }
            }
            Err(invalid)
        },
        Some((backend, rest)) => {
            proof {
                if backend@.len() == 0 {
                    assert(line@[0] == ' ');
                }
            }
            match crate::text::split_once_char(rest.as_str(), ' ') {
                None => {
                    proof {
                        assert forall|a: Seq<char>, b: Seq<char>, p: Seq<char>|
                            !(line@ == a + " "@ + b + " "@ + p && !a.contains(' ') && !b.contains(' ')) by {
                            if line@ == a + " "@ + b + " "@ + p && !a.contains(' ') && !b.contains(' ') {
                                assert(" "@ =~= seq![' ']);
                                assert(line@ =~= a + seq![' '] + (b + " "@ + p));
                                lemma_first_split_unique(line@, a, b + " "@ + p, backend@, rest@);
                                assert(rest@ =~= b + " "@ + p);
                                assert(rest@[b.len() as int] == ' ');
                            }
                        }
                    }
                    Err(invalid)
                },
                Some((action, package)) => {
                    proof {
                        assert(line@ =~= backend@ + " "@ + action@ + " "@ + package@);
                    }
                    Ok(Some((backend, action, package)))
                },
            }
        },
    }
}

/// Two ways of splitting at a first space agree.
proof fn lemma_first_split_unique(line: Seq<char>, a: Seq<char>, b: Seq<char>, a2: Seq<char>, b2: Seq<char>)
    requires
        line == a + seq![' '] + b,
        line == a2 + seq![' '] + b2,
        !a.contains(' '),
        !a2.contains(' '),
    ensures
        a == a2,
        b == b2,
{
    if a.len() < a2.len() {
        assert(a2[a.len() as int] == line[a.len() as int]);
        assert(a2.contains(' '));
    } else if a2.len() < a.len() {
        assert(a[a2.len() as int] == line[a2.len() as int]);
        assert(a.contains(' '));
    }
    assert(a =~= line.take(a.len() as int));
    assert(a2 =~= line.take(a2.len() as int));
    assert(b =~= line.skip(a.len() as int + 1));
    assert(b2 =~= line.skip(a2.len() as int + 1));
}

/// One line of the service operations log, as `action service` split at the first space:
/// `None` for a line whose first field is empty, an error naming `display` for a line with
/// no space.
pub fn parse_service_operation_line(display: &str, line: &str) -> (r: Result<Option<(String, String)>, String>)
    ensures
        blank_first_field(line@) ==> r matches Ok(None),
        r matches Ok(Some((action, service))) ==> line@ == action@ + " "@ + service@ && action@.len() > 0
            && !action@.contains(' '),
        r matches Err(e) ==> e@ == display@ + ": invalid service operation `"@ + line@ + "`"@,
        r is Err <==> (!blank_first_field(line@) && !line@.contains(' ')),
{
    proof {
        reveal_strlit(" ");
    }
    if line.is_empty() || crate::text::starts_with_char(line, ' ') {
        return Ok(None);
    }
    match crate::text::split_once_char(line, ' ') {
        None => {
            let mut e = cat2(display, ": invalid service operation `");
            push_str(&mut e, line);
            push_str(&mut e, "`");
            Err(e)
        },
        Some((action, service)) => {
            proof {
                if action@.len() == 0 {
                    assert(line@[0] == ' ');
                }
                assert(line@ =~= action@ + " "@ + service@);
                assert(line@[action@.len() as int] == ' ');
            }
            Ok(Some((action, service)))
        },
    }
}

} // verus!

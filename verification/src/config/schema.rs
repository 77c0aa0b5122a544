// Schema version metadata and the generated schema reference.

use vstd::prelude::*;

use crate::text::push_str;

verus! {

pub const SCHEMA_VERSION: &'static str = "0";

pub struct FieldSchema {
    pub path: &'static str,
    pub required: bool,
    pub field_type: &'static str,
}

pub struct DomainSchema {
    pub name: &'static str,
    pub ownership: &'static str,
    pub fields: Vec<FieldSchema>,
}

pub struct FieldView {
    pub path: Seq<char>,
    pub required: bool,
    pub field_type: Seq<char>,
}

pub struct DomainView {
    pub name: Seq<char>,
    pub ownership: Seq<char>,
    pub fields: Seq<FieldView>,
}

impl View for FieldSchema {
    type V = FieldView;

    open spec fn view(&self) -> FieldView {
        FieldView { path: self.path@, required: self.required, field_type: self.field_type@ }
    }
}

impl View for DomainSchema {
    type V = DomainView;

    open spec fn view(&self) -> DomainView {
        DomainView {
            name: self.name@,
            ownership: self.ownership@,
            fields: self.fields@.map_values(|f: FieldSchema| f@),
        }
    }
}

pub open spec fn fv(path: Seq<char>, required: bool, field_type: Seq<char>) -> FieldView {
    FieldView { path, required, field_type }
}

/// The domains the schema documents, each with its fields.
pub open spec fn schema_domains() -> Seq<DomainView> {
    seq![
        DomainView {
            name: "system"@,
            ownership: "owns host identity intent"@,
            fields: seq![
                fv("system.hostname"@, true, "string"@),
                fv("system.timezone"@, false, "string"@),
                fv("system.locale"@, false, "string"@),
                fv("system.keymap"@, false, "string"@),
            ],
        },
        DomainView {
            name: "packages"@,
            ownership: "owns package desired state intent"@,
            fields: seq![
                fv("packages.pacman"@, false, "list<string>"@),
                fv("packages.aur"@, false, "list<string>"@),
                fv("packages.nix"@, false, "list<string>"@),
            ],
        },
        DomainView {
            name: "services"@,
            ownership: "owns service desired state intent"@,
            fields: seq![
                fv("services.enable"@, false, "list<string>"@),
                fv("services.disable"@, false, "list<string>"@),
            ],
        },
        DomainView {
            name: "storage"@,
            ownership: "owns guided installer storage intent"@,
            fields: seq![
                fv("storage.layout"@, false, "string"@),
                fv("storage.disk"@, false, "string"@),
                fv("storage.target"@, false, "string"@),
                fv("storage.efi_filesystem"@, false, "string"@),
                fv("storage.root_filesystem"@, false, "string"@),
                fv("storage.partitions"@, false, "list<table>"@),
                fv("storage.partitions[].disk"@, true, "string"@),
                fv("storage.partitions[].number"@, false, "integer|string"@),
                fv("storage.partitions[].label"@, false, "string"@),
                fv("storage.partitions[].mountpoint"@, false, "string"@),
                fv("storage.partitions[].filesystem"@, true, "string"@),
                fv("storage.partitions[].size"@, false, "string"@),
                fv("storage.partitions[].flags"@, false, "list<string>"@),
                fv("storage.partitions[].format"@, false, "boolean"@),
                fv("storage.partitions[].mount_options"@, false, "list<string>"@),
                fv("storage.partitions[].subvolumes"@, false, "list<table>"@),
                fv("storage.partitions[].subvolumes[].name"@, true, "string"@),
                fv("storage.partitions[].subvolumes[].mountpoint"@, true, "string"@),
                fv("storage.partitions[].subvolumes[].mount_options"@, false, "list<string>"@),
            ],
        },
        DomainView {
            name: "files"@,
            ownership: "owns managed file desired state intent"@,
            fields: seq![
                fv("files.managed"@, false, "list<table>"@),
                fv("files.managed[].path"@, true, "string"@),
                fv("files.managed[].content"@, true, "string"@),
                fv("files.managed[].mode"@, false, "string"@),
            ],
        },
        DomainView {
            name: "workspaces"@,
            ownership: "owns generated developer workspace environment intent"@,
            fields: seq![
                fv("workspaces.<name>.path"@, true, "string"@),
                fv("workspaces.<name>.backend"@, false, "string"@),
                fv("workspaces.<name>.languages"@, false, "table<boolean>"@),
                fv("workspaces.<name>.packages"@, false, "list<string>"@),
                fv("workspaces.<name>.services"@, false, "table<boolean>"@),
                fv("workspaces.<name>.tasks"@, false, "table<string>"@),
            ],
        },
    ]
}

fn field(path: &'static str, required: bool, field_type: &'static str) -> (f: FieldSchema)
    ensures
        f@ == fv(path@, required, field_type@),
{
    FieldSchema { path, required, field_type }
}

fn domain(name: &'static str, ownership: &'static str, fields: Vec<FieldSchema>) -> (d: DomainSchema)
    ensures
        d@ == (DomainView {
            name: name@,
            ownership: ownership@,
            fields: fields@.map_values(|f: FieldSchema| f@),
        }),
{
    DomainSchema { name, ownership, fields }
}

/// The schema's domains.
pub fn domains() -> (ds: Vec<DomainSchema>)
    ensures
        ds@.map_values(|d: DomainSchema| d@) == schema_domains(),
{
    let system = domain(
        "system",
        "owns host identity intent",
        vec![
            field("system.hostname", true, "string"),
            field("system.timezone", false, "string"),
            field("system.locale", false, "string"),
            field("system.keymap", false, "string"),
        ],
    );
    let packages = domain(
        "packages",
        "owns package desired state intent",
        vec![
            field("packages.pacman", false, "list<string>"),
            field("packages.aur", false, "list<string>"),
            field("packages.nix", false, "list<string>"),
        ],
    );
    let services = domain(
        "services",
        "owns service desired state intent",
        vec![
            field("services.enable", false, "list<string>"),
            field("services.disable", false, "list<string>"),
        ],
    );
    let storage = domain(
        "storage",
        "owns guided installer storage intent",
        vec![
            field("storage.layout", false, "string"),
            field("storage.disk", false, "string"),
            field("storage.target", false, "string"),
            field("storage.efi_filesystem", false, "string"),
            field("storage.root_filesystem", false, "string"),
            field("storage.partitions", false, "list<table>"),
            field("storage.partitions[].disk", true, "string"),
            field("storage.partitions[].number", false, "integer|string"),
            field("storage.partitions[].label", false, "string"),
            field("storage.partitions[].mountpoint", false, "string"),
            field("storage.partitions[].filesystem", true, "string"),
            field("storage.partitions[].size", false, "string"),
            field("storage.partitions[].flags", false, "list<string>"),
            field("storage.partitions[].format", false, "boolean"),
            field("storage.partitions[].mount_options", false, "list<string>"),
            field("storage.partitions[].subvolumes", false, "list<table>"),
            field("storage.partitions[].subvolumes[].name", true, "string"),
            field("storage.partitions[].subvolumes[].mountpoint", true, "string"),
            field("storage.partitions[].subvolumes[].mount_options", false, "list<string>"),
        ],
    );
    let files = domain(
        "files",
        "owns managed file desired state intent",
        vec![
            field("files.managed", false, "list<table>"),
            field("files.managed[].path", true, "string"),
            field("files.managed[].content", true, "string"),
            field("files.managed[].mode", false, "string"),
        ],
    );
    let workspaces = domain(
        "workspaces",
        "owns generated developer workspace environment intent",
        vec![
            field("workspaces.<name>.path", true, "string"),
            field("workspaces.<name>.backend", false, "string"),
            field("workspaces.<name>.languages", false, "table<boolean>"),
            field("workspaces.<name>.packages", false, "list<string>"),
            field("workspaces.<name>.services", false, "table<boolean>"),
            field("workspaces.<name>.tasks", false, "table<string>"),
        ],
    );
    let ghost sd = schema_domains();
    assert(system@.fields =~= sd[0].fields);
    assert(packages@.fields =~= sd[1].fields);
    assert(services@.fields =~= sd[2].fields);
    assert(storage@.fields =~= sd[3].fields);
    assert(files@.fields =~= sd[4].fields);
    assert(workspaces@.fields =~= sd[5].fields);
    let ds = vec![system, packages, services, storage, files, workspaces];
    assert(ds@.map_values(|d: DomainSchema| d@) =~= sd);
    ds
}

pub open spec fn bool_word(b: bool) -> Seq<char> {
    if b {
        "true"@
    } else {
        "false"@
    }
}

pub open spec fn comma_if(c: bool) -> Seq<char> {
    if c {
        ","@
    } else {
        Seq::<char>::empty()
    }
}

pub open spec fn field_json(f: FieldView, last: bool) -> Seq<char> {
    "        {\n"@ + "          \"path\": \""@ + f.path + "\",\n"@ + "          \"type\": \""@
        + f.field_type + "\",\n"@ + "          \"required\": "@ + bool_word(f.required) + "\n"@
        + "        }"@ + comma_if(!last) + "\n"@
}

/// The JSON of fields `fs[..n]` of a list of `total` fields.
pub open spec fn fields_json(fs: Seq<FieldView>, n: nat) -> Seq<char>
    decreases n,
{
    if n == 0 || n > fs.len() {
        Seq::<char>::empty()
    } else {
        fields_json(fs, (n - 1) as nat) + field_json(fs[n - 1], n == fs.len())
    }
}

pub open spec fn domain_json(d: DomainView, last: bool) -> Seq<char> {
    "    {\n"@ + "      \"name\": \""@ + d.name + "\",\n"@ + "      \"ownership\": \""@ + d.ownership
        + "\",\n"@ + "      \"fields\": [\n"@ + fields_json(d.fields, d.fields.len()) + "      ]\n"@
        + "    }"@ + comma_if(!last) + "\n"@
}

pub open spec fn domains_json(ds: Seq<DomainView>, n: nat) -> Seq<char>
    decreases n,
{
    if n == 0 || n > ds.len() {
        Seq::<char>::empty()
    } else {
        domains_json(ds, (n - 1) as nat) + domain_json(ds[n - 1], n == ds.len())
    }
}

pub open spec fn spec_render_json() -> Seq<char> {
    let ds = schema_domains();
    "{\n"@ + "  \"schema_version\": \""@ + "0"@ + "\",\n"@ + "  \"domains\": [\n"@ + domains_json(
        ds,
        ds.len(),
    ) + "  ]\n"@ + "}\n"@
}

fn push_bool(out: &mut String, b: bool)
    ensures
        final(out)@ == old(out)@ + bool_word(b),
{
    if b {
        push_str(out, "true");
    } else {
        push_str(out, "false");
    }
}

fn push_comma_if(out: &mut String, c: bool)
    ensures
        final(out)@ == old(out)@ + comma_if(c),
{
    if c {
        push_str(out, ",");
    } else {
        assert(out@ + comma_if(c) =~= out@);
    }
}

fn push_field_json(out: &mut String, f: &FieldSchema, last: bool)
    ensures
        final(out)@ == old(out)@ + field_json(f@, last),
{
    let ghost o0 = out@;
    push_str(out, "        {\n");
    push_str(out, "          \"path\": \"");
    push_str(out, f.path);
    push_str(out, "\",\n");
    push_str(out, "          \"type\": \"");
    push_str(out, f.field_type);
    push_str(out, "\",\n");
    push_str(out, "          \"required\": ");
    push_bool(out, f.required);
    push_str(out, "\n");
    push_str(out, "        }");
    push_comma_if(out, !last);
    push_str(out, "\n");
    assert(out@ =~= o0 + field_json(f@, last));
}

fn push_fields_json(out: &mut String, fields: &Vec<FieldSchema>)
    ensures
        final(out)@ == old(out)@ + fields_json(
            fields@.map_values(|f: FieldSchema| f@),
            fields@.len(),
        ),
{
    let ghost o0 = out@;
    let ghost fs = fields@.map_values(|f: FieldSchema| f@);
    let mut i: usize = 0;
    assert(o0 + fields_json(fs, 0) =~= o0);
    while i < fields.len()
        invariant
            i <= fields.len(),
            fs == fields@.map_values(|f: FieldSchema| f@),
            out@ == o0 + fields_json(fs, i as nat),
        decreases fields.len() - i,
    {
        let f = &fields[i];
        assert(fs[i as int] == f@);
        let last = i + 1 == fields.len();
        push_field_json(out, f, last);
        assert(fields_json(fs, (i + 1) as nat) == fields_json(fs, i as nat) + field_json(
            fs[i as int],
            last,
        ));
        assert(out@ =~= o0 + fields_json(fs, (i + 1) as nat));
        i += 1;
    }
}

fn push_domain_json(out: &mut String, d: &DomainSchema, last: bool)
    ensures
        final(out)@ == old(out)@ + domain_json(d@, last),
{
    let ghost o0 = out@;
    push_str(out, "    {\n");
    push_str(out, "      \"name\": \"");
    push_str(out, d.name);
    push_str(out, "\",\n");
    push_str(out, "      \"ownership\": \"");
    push_str(out, d.ownership);
    push_str(out, "\",\n");
    push_str(out, "      \"fields\": [\n");
    let ghost o1 = out@;
    push_fields_json(out, &d.fields);
    let ghost o2 = out@;
    push_str(out, "      ]\n");
    push_str(out, "    }");
    push_comma_if(out, !last);
    push_str(out, "\n");
    assert(out@ =~= o0 + domain_json(d@, last));
}

/// The machine-readable schema.
pub fn render_json() -> (out: String)
    ensures
        out@ == spec_render_json(),
{
    let ds = domains();
    let ghost dv = ds@.map_values(|d: DomainSchema| d@);
    let mut out = String::new();
    push_str(&mut out, "{\n");
    push_str(&mut out, "  \"schema_version\": \"");
    push_str(&mut out, SCHEMA_VERSION);
    push_str(&mut out, "\",\n");
    push_str(&mut out, "  \"domains\": [\n");
    let ghost o0 = out@;
    let mut i: usize = 0;
    assert(o0 + domains_json(dv, 0) =~= o0);
    while i < ds.len()
        invariant
            i <= ds.len(),
            dv == ds@.map_values(|d: DomainSchema| d@),
            out@ == o0 + domains_json(dv, i as nat),
        decreases ds.len() - i,
    {
        let d = &ds[i];
        assert(dv[i as int] == d@);
        let last = i + 1 == ds.len();
        push_domain_json(&mut out, d, last);
        assert(domains_json(dv, (i + 1) as nat) == domains_json(dv, i as nat) + domain_json(
            dv[i as int],
            last,
        ));
        assert(out@ =~= o0 + domains_json(dv, (i + 1) as nat));
        i += 1;
    }
    push_str(&mut out, "  ]\n");
    push_str(&mut out, "}\n");
    assert(out@ =~= spec_render_json());
    out
}

pub open spec fn yes_no(b: bool) -> Seq<char> {
    if b {
        "yes"@
    } else {
        "no"@
    }
}

pub open spec fn domain_bullets(ds: Seq<DomainView>) -> Seq<char>
    decreases ds.len(),
{
    if ds.len() == 0 {
        Seq::<char>::empty()
    } else {
        domain_bullets(ds.drop_last()) + "- `"@ + ds.last().name + "`: "@ + ds.last().ownership
            + "\n"@
    }
}

pub open spec fn field_rows(fs: Seq<FieldView>) -> Seq<char>
    decreases fs.len(),
{
    if fs.len() == 0 {
        Seq::<char>::empty()
    } else {
        field_rows(fs.drop_last()) + "| `"@ + fs.last().path + "` | `"@ + fs.last().field_type
            + "` | "@ + yes_no(fs.last().required) + " |\n"@
    }
}

pub open spec fn domain_rows(ds: Seq<DomainView>) -> Seq<char>
    decreases ds.len(),
{
    if ds.len() == 0 {
        Seq::<char>::empty()
    } else {
        domain_rows(ds.drop_last()) + field_rows(ds.last().fields)
    }
}

pub open spec fn ownership_notes(ds: Seq<DomainView>) -> Seq<char>
    decreases ds.len(),
{
    if ds.len() == 0 {
        Seq::<char>::empty()
    } else {
        ownership_notes(ds.drop_last()) + "- `"@ + ds.last().name + "` "@ + ds.last().ownership
            + ".\n"@
    }
}

pub open spec fn spec_render_markdown() -> Seq<char> {
    let ds = schema_domains();
    "# Basalt Config Schema v"@ + "0"@ + "\n\n"@ + "Generated from the Basalt implementation.\n\n"@
        + "## Supported Domains\n\n"@ + domain_bullets(ds) + "\n## Fields\n\n"@
        + "| Field | Type | Required |\n"@ + "|---|---|---|\n"@ + domain_rows(ds)
        + "\n## Ownership Notes\n\n"@ + ownership_notes(ds)
}

fn push_field_rows(out: &mut String, fields: &Vec<FieldSchema>)
    ensures
        final(out)@ == old(out)@ + field_rows(fields@.map_values(|f: FieldSchema| f@)),
{
    let ghost o0 = out@;
    let ghost fs = fields@.map_values(|f: FieldSchema| f@);
    let mut i: usize = 0;
    assert(o0 + field_rows(fs.take(0)) =~= o0);
    while i < fields.len()
        invariant
            i <= fields.len(),
            fs == fields@.map_values(|f: FieldSchema| f@),
            out@ == o0 + field_rows(fs.take(i as int)),
        decreases fields.len() - i,
    {
        let f = &fields[i];
        assert(fs.take(i + 1).drop_last() =~= fs.take(i as int));
        assert(fs.take(i + 1).last() == f@);
        push_str(out, "| `");
        push_str(out, f.path);
        push_str(out, "` | `");
        push_str(out, f.field_type);
        push_str(out, "` | ");
        if f.required {
            push_str(out, "yes");
        } else {
            push_str(out, "no");
        }
        push_str(out, " |\n");
        assert(out@ =~= o0 + field_rows(fs.take(i + 1)));
        i += 1;
    }
    assert(fs.take(fields.len() as int) =~= fs);
}

/// The human-readable schema reference.
pub fn render_markdown() -> (out: String)
    ensures
        out@ == spec_render_markdown(),
{
    let ds = domains();
    let ghost dv = ds@.map_values(|d: DomainSchema| d@);
    let mut out = String::new();
    push_str(&mut out, "# Basalt Config Schema v");
    push_str(&mut out, SCHEMA_VERSION);
    push_str(&mut out, "\n\n");
    push_str(&mut out, "Generated from the Basalt implementation.\n\n");
    push_str(&mut out, "## Supported Domains\n\n");
    let ghost o1 = out@;
    let mut i: usize = 0;
    assert(o1 + domain_bullets(dv.take(0)) =~= o1);
    while i < ds.len()
        invariant
            i <= ds.len(),
            dv == ds@.map_values(|d: DomainSchema| d@),
            out@ == o1 + domain_bullets(dv.take(i as int)),
        decreases ds.len() - i,
    {
        let d = &ds[i];
        assert(dv.take(i + 1).drop_last() =~= dv.take(i as int));
        assert(dv.take(i + 1).last() == d@);
        push_str(&mut out, "- `");
        push_str(&mut out, d.name);
        push_str(&mut out, "`: ");
        push_str(&mut out, d.ownership);
        push_str(&mut out, "\n");
        assert(out@ =~= o1 + domain_bullets(dv.take(i + 1)));
        i += 1;
    }
    assert(dv.take(ds.len() as int) =~= dv);
    push_str(&mut out, "\n## Fields\n\n");
    push_str(&mut out, "| Field | Type | Required |\n");
    push_str(&mut out, "|---|---|---|\n");
    let ghost o2 = out@;
    let mut i: usize = 0;
    assert(o2 + domain_rows(dv.take(0)) =~= o2);
    while i < ds.len()
        invariant
            i <= ds.len(),
            dv == ds@.map_values(|d: DomainSchema| d@),
            out@ == o2 + domain_rows(dv.take(i as int)),
        decreases ds.len() - i,
    {
        let d = &ds[i];
        assert(dv.take(i + 1).drop_last() =~= dv.take(i as int));
        assert(dv.take(i + 1).last() == d@);
        push_field_rows(&mut out, &d.fields);
        assert(out@ =~= o2 + domain_rows(dv.take(i + 1)));
        i += 1;
    }
    assert(dv.take(ds.len() as int) =~= dv);
    push_str(&mut out, "\n## Ownership Notes\n\n");
    let ghost o3 = out@;
    let mut i: usize = 0;
    assert(o3 + ownership_notes(dv.take(0)) =~= o3);
    while i < ds.len()
        invariant
            i <= ds.len(),
            dv == ds@.map_values(|d: DomainSchema| d@),
            out@ == o3 + ownership_notes(dv.take(i as int)),
        decreases ds.len() - i,
    {
        let d = &ds[i];
        assert(dv.take(i + 1).drop_last() =~= dv.take(i as int));
        assert(dv.take(i + 1).last() == d@);
        push_str(&mut out, "- `");
        push_str(&mut out, d.name);
        push_str(&mut out, "` ");
        push_str(&mut out, d.ownership);
        push_str(&mut out, ".\n");
        assert(out@ =~= o3 + ownership_notes(dv.take(i + 1)));
        i += 1;
    }
    assert(dv.take(ds.len() as int) =~= dv);
    assert(out@ =~= spec_render_markdown());
    out
}

} // verus!

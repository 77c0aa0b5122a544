// Development workspace artifacts: devenv files, the state manifest that records them, and
// the checks that read a manifest back.

use vstd::prelude::*;
use vstd::string::StringSliceAdditionalSpecFns;

use crate::config::types::{strings_view, views_of, WorkspaceConfig};
use crate::strmap::StrMap;
use crate::text::{
    all_ws, cat2, cat3, chars_of, decimal, hex_digits, int_error_text, is_blank, lines_of,
    push_char, push_decimal, push_hex_digits, push_str, seq_starts_with, spec_lines,
    spec_usize_from_str, split_on, split_str, starts_with, str_eq, string_from, strip_prefix,
    trim, trim_end_char, trim_end_matches, trim_str, usize_from_str,
};

verus! {

pub const WORKSPACE_STATE_FILE: &'static str = "workspace-state.json";

pub const WORKSPACE_STATE_SCHEMA_VERSION: &'static str = "basalt-workspace-state-v0";

pub const WORKSPACE_ARTIFACT_HASH_ALGORITHM: &'static str = "fnv1a64";

pub const WORKSPACE_BACKEND_DEVENV: &'static str = "devenv";

// --- Nix rendering ------------------------------------------------------------

/// A character inside a Nix double-quoted string.
pub open spec fn nix_escape_char(c: char) -> Seq<char> {
    if c == '\\' {
        "\\\\"@
    } else if c == '"' {
        "\\\""@
    } else {
        seq![c]
    }
}

pub open spec fn nix_escape(s: Seq<char>) -> Seq<char>
    decreases s.len(),
{
    if s.len() == 0 {
        Seq::<char>::empty()
    } else {
        nix_escape(s.drop_last()) + nix_escape_char(s.last())
    }
}

/// `"<value>"` with backslashes and quotes escaped.
pub open spec fn nix_quoted(s: Seq<char>) -> Seq<char> {
    "\""@ + nix_escape(s) + "\""@
}

fn push_nix_escaped(out: &mut String, value: &str)
    ensures
        final(out)@ == old(out)@ + nix_escape(value@),
{
    let v = chars_of(value);
    let ghost o0 = out@;
    let mut i: usize = 0;
    assert(o0 + nix_escape(v@.take(0)) =~= o0);
    while i < v.len()
        invariant
            i <= v.len(),
            v@ == value@,
            out@ == o0 + nix_escape(v@.take(i as int)),
        decreases v.len() - i,
    {
        let c = v[i];
        assert(v@.take(i + 1).drop_last() =~= v@.take(i as int));
        assert(v@.take(i + 1).last() == c);
        let ghost before = out@;
        if c == '\\' {
            push_str(out, "\\\\");
        } else if c == '"' {
            push_str(out, "\\\"");
        } else {
            push_char(out, c);
            assert(out@ =~= before + seq![c]);
        }
        assert(out@ =~= o0 + nix_escape(v@.take(i + 1)));
        i += 1;
    }
    assert(v@.take(v.len() as int) =~= v@);
}

/// A Nix attribute name, quoted.
pub fn nix_quoted_attr(value: &str) -> (s: String)
    ensures
        s@ == nix_quoted(value@),
{
    let mut s = string_from("\"");
    push_nix_escaped(&mut s, value);
    push_str(&mut s, "\"");
    s
}

/// A Nix string literal.
pub fn nix_string(value: &str) -> (s: String)
    ensures
        s@ == nix_quoted(value@),
{
    nix_quoted_attr(value)
}

/// The quoted attribute path after `root`: each dot-separated part quoted on its own, so
/// a dot closes one quoted part and opens the next.
pub open spec fn nix_attr_tail(s: Seq<char>) -> Seq<char>
    decreases s.len(),
{
    if s.len() == 0 {
        Seq::<char>::empty()
    } else {
        nix_attr_tail(s.drop_last()) + if s.last() == '.' {
            "\".\""@
        } else {
            nix_escape_char(s.last())
        }
    }
}

/// `<root>."<part>"."<part>"...` for the dot-separated parts of `value`.
pub open spec fn spec_nix_attr_path(root: Seq<char>, value: Seq<char>) -> Seq<char> {
    root + ".\""@ + nix_attr_tail(value) + "\""@
}

pub fn nix_attr_path(root: &str, value: &str) -> (s: String)
    ensures
        s@ == spec_nix_attr_path(root@, value@),
{
    let mut out = cat2(root, ".\"");
    let ghost o0 = out@;
    let v = chars_of(value);
    let mut i: usize = 0;
    assert(o0 + nix_attr_tail(v@.take(0)) =~= o0);
    while i < v.len()
        invariant
            i <= v.len(),
            v@ == value@,
            out@ == o0 + nix_attr_tail(v@.take(i as int)),
        decreases v.len() - i,
    {
        let c = v[i];
        assert(v@.take(i + 1).drop_last() =~= v@.take(i as int));
        assert(v@.take(i + 1).last() == c);
        let ghost before = out@;
        if c == '.' {
            push_str(&mut out, "\".\"");
        } else if c == '\\' {
            push_str(&mut out, "\\\\");
        } else if c == '"' {
            push_str(&mut out, "\\\"");
        } else {
            push_char(&mut out, c);
            assert(out@ =~= before + seq![c]);
        }
        assert(out@ =~= o0 + nix_attr_tail(v@.take(i + 1)));
        i += 1;
    }
    assert(v@.take(v.len() as int) =~= v@);
    push_str(&mut out, "\"");
    out
}

pub open spec fn bool_text(b: bool) -> Seq<char> {
    if b {
        "true"@
    } else {
        "false"@
    }
}

pub open spec fn package_lines(ps: Seq<Seq<char>>) -> Seq<char>
    decreases ps.len(),
{
    if ps.len() == 0 {
        Seq::<char>::empty()
    } else {
        package_lines(ps.drop_last()) + "    "@ + spec_nix_attr_path("pkgs"@, ps.last()) + "\n"@
    }
}

/// `  <kind>.<name>.enable = <bool>;` for each entry.
pub open spec fn enable_lines(kind: Seq<char>, es: Seq<(Seq<char>, bool)>) -> Seq<char>
    decreases es.len(),
{
    if es.len() == 0 {
        Seq::<char>::empty()
    } else {
        enable_lines(kind, es.drop_last()) + "  "@ + kind + "."@ + es.last().0 + ".enable = "@
            + bool_text(es.last().1) + ";\n"@
    }
}

pub open spec fn task_lines(ts: Seq<(Seq<char>, Seq<char>)>) -> Seq<char>
    decreases ts.len(),
{
    if ts.len() == 0 {
        Seq::<char>::empty()
    } else {
        task_lines(ts.drop_last()) + "  tasks."@ + nix_quoted(ts.last().0) + ".exec = "@ + nix_quoted(
            ts.last().1,
        ) + ";\n"@
    }
}

pub open spec fn blank_if(c: bool) -> Seq<char> {
    if c {
        "\n"@
    } else {
        Seq::<char>::empty()
    }
}

/// The `devenv.nix` of a workspace: packages, languages, services and tasks.
pub open spec fn spec_render_devenv_nix(w: crate::config::types::WorkspaceView) -> Seq<char> {
    "{ pkgs, ... }:\n"@ + "{\n"@ + (if w.packages.len() > 0 {
        "  packages = [\n"@ + package_lines(w.packages) + "  ];\n\n"@
    } else {
        Seq::<char>::empty()
    }) + enable_lines("languages"@, w.languages) + blank_if(w.languages.len() > 0) + enable_lines(
        "services"@,
        w.services,
    ) + blank_if(w.services.len() > 0) + task_lines(w.tasks) + "}\n"@
}

fn push_bool_text(out: &mut String, b: bool)
    ensures
        final(out)@ == old(out)@ + bool_text(b),
{
    if b {
        push_str(out, "true");
    } else {
        push_str(out, "false");
    }
}

fn push_enable_lines(out: &mut String, kind: &str, values: &StrMap<bool>)
    ensures
        final(out)@ == old(out)@ + enable_lines(kind@, values@),
{
    let ghost o0 = out@;
    let ghost es = values@;
    let mut i: usize = 0;
    assert(o0 + enable_lines(kind@, es.take(0)) =~= o0);
    while i < values.len()
        invariant
            i <= es.len(),
            es == values@,
            out@ == o0 + enable_lines(kind@, es.take(i as int)),
        decreases es.len() - i,
    {
        assert(es.take(i + 1).drop_last() =~= es.take(i as int));
        let name = values.key_at(i);
        let enabled = *values.value_at(i);
        assert(es.take(i + 1).last() == (name@, enabled));
        push_str(out, "  ");
        push_str(out, kind);
        push_str(out, ".");
        push_str(out, name.as_str());
        push_str(out, ".enable = ");
        push_bool_text(out, enabled);
        push_str(out, ";\n");
        assert(out@ =~= o0 + enable_lines(kind@, es.take(i + 1)));
        i += 1;
    }
    assert(es.take(es.len() as int) =~= es);
}

/// The devenv module for a workspace.
#[verifier::spinoff_prover]
#[verifier::rlimit(40)]
pub fn render_devenv_nix(workspace: &WorkspaceConfig) -> (out: String)
    ensures
        out@ == spec_render_devenv_nix(workspace@),
{
    let mut out = String::new();
    push_str(&mut out, "{ pkgs, ... }:\n");
    push_str(&mut out, "{\n");
    let ghost o1 = out@;
    if workspace.packages.len() > 0 {
        push_str(&mut out, "  packages = [\n");
        let ghost o = out@;
        let ghost ps = strings_view(workspace.packages@);
        let mut i: usize = 0;
        assert(o + package_lines(ps.take(0)) =~= o);
        while i < workspace.packages.len()
            invariant
                i <= workspace.packages.len(),
                ps == strings_view(workspace.packages@),
                out@ == o + package_lines(ps.take(i as int)),
            decreases workspace.packages.len() - i,
        {
            assert(ps.take(i + 1).drop_last() =~= ps.take(i as int));
            assert(ps.take(i + 1).last() == workspace.packages@[i as int]@);
            push_str(&mut out, "    ");
            let path = nix_attr_path("pkgs", workspace.packages[i].as_str());
            push_str(&mut out, path.as_str());
            push_str(&mut out, "\n");
            assert(out@ =~= o + package_lines(ps.take(i + 1)));
            i += 1;
        }
        assert(ps.take(workspace.packages.len() as int) =~= ps);
        push_str(&mut out, "  ];\n\n");
    }
    let ghost o2 = out@;
    push_enable_lines(&mut out, "languages", &workspace.languages);
    if workspace.languages.len() > 0 {
        push_str(&mut out, "\n");
    }
    let ghost o3 = out@;
    push_enable_lines(&mut out, "services", &workspace.services);
    if workspace.services.len() > 0 {
        push_str(&mut out, "\n");
    }
    let ghost o4 = out@;
    let ghost ts = crate::config::types::string_map_view(workspace.tasks@);
    let mut i: usize = 0;
    assert(o4 + task_lines(ts.take(0)) =~= o4);
    while i < workspace.tasks.len()
        invariant
            i <= ts.len(),
            ts == crate::config::types::string_map_view(workspace.tasks@),
            ts.len() == workspace.tasks@.len(),
            out@ == o4 + task_lines(ts.take(i as int)),
        decreases ts.len() - i,
    {
        assert(ts.take(i + 1).drop_last() =~= ts.take(i as int));
        let task = workspace.tasks.key_at(i);
        let command = workspace.tasks.value_at(i);
        assert(ts.take(i + 1).last() == (task@, command@));
        push_str(&mut out, "  tasks.");
        let quoted = nix_quoted_attr(task.as_str());
        push_str(&mut out, quoted.as_str());
        push_str(&mut out, ".exec = ");
        let literal = nix_string(command.as_str());
        push_str(&mut out, literal.as_str());
        push_str(&mut out, ";\n");
        assert(out@ =~= o4 + task_lines(ts.take(i + 1)));
        i += 1;
    }
    assert(ts.take(ts.len() as int) =~= ts);
    push_str(&mut out, "}\n");
    proof {
        reveal_strlit("\n");
    }
    assert(out@ =~= spec_render_devenv_nix(workspace@));
    out
}

// --- hashing --------------------------------------------------------------------

pub open spec fn fnv_offset() -> u64 {
    0xcbf29ce484222325u64
}

pub open spec fn fnv_prime() -> u64 {
    0x100000001b3u64
}

/// FNV-1a over `bytes`.
pub open spec fn fnv1a64(bytes: Seq<u8>) -> u64
    decreases bytes.len(),
{
    if bytes.len() == 0 {
        fnv_offset()
    } else {
        (fnv1a64(bytes.drop_last()) ^ (bytes.last() as u64)).wrapping_mul(fnv_prime())
    }
}

/// The FNV-1a hash of the UTF-8 bytes of `value`, as sixteen lowercase hex digits.
pub fn stable_hash_hex(value: &str) -> (s: String)
    ensures
        s@ == hex_digits(fnv1a64(value.spec_bytes()) as nat, 16),
{
    let bytes = value.as_bytes();
    let mut hash: u64 = 0xcbf29ce484222325u64;
    let mut i: usize = 0;
    assert(bytes@.take(0) =~= Seq::<u8>::empty());
    while i < bytes.len()
        invariant
            i <= bytes@.len(),
            bytes@ == value.spec_bytes(),
            hash == fnv1a64(bytes@.take(i as int)),
        decreases bytes@.len() - i,
    {
        assert(bytes@.take(i + 1).drop_last() =~= bytes@.take(i as int));
        assert(bytes@.take(i + 1).last() == bytes@[i as int]);
        hash = hash ^ (bytes[i] as u64);
        hash = hash.wrapping_mul(0x100000001b3u64);
        i += 1;
    }
    assert(bytes@.take(bytes@.len() as int) =~= bytes@);
    let mut s = String::new();
    push_hex_digits(&mut s, hash, 16);
    assert(s@ =~= hex_digits(hash as nat, 16));
    s
}

// --- JSON --------------------------------------------------------------------------

/// Unicode control characters (general category Cc).
pub open spec fn is_control(c: char) -> bool {
    (c as u32) <= 0x1f || (0x7f <= (c as u32) && (c as u32) <= 0x9f)
}

pub open spec fn json_char(c: char) -> Seq<char> {
    if c == '\\' {
        "\\\\"@
    } else if c == '"' {
        "\\\""@
    } else if c == '\n' {
        "\\n"@
    } else if c == '\r' {
        "\\r"@
    } else if c == '\t' {
        "\\t"@
    } else if is_control(c) {
        "\\u"@ + hex_digits((c as u32) as nat, 4)
    } else {
        seq![c]
    }
}

pub open spec fn json_chars(s: Seq<char>) -> Seq<char>
    decreases s.len(),
{
    if s.len() == 0 {
        Seq::<char>::empty()
    } else {
        json_chars(s.drop_last()) + json_char(s.last())
    }
}

/// A JSON string literal.
pub open spec fn spec_json_string(s: Seq<char>) -> Seq<char> {
    "\""@ + json_chars(s) + "\""@
}

pub fn json_string(value: &str) -> (out: String)
    ensures
        out@ == spec_json_string(value@),
{
    let mut out = string_from("\"");
    let ghost o0 = out@;
    let v = chars_of(value);
    let mut i: usize = 0;
    assert(o0 + json_chars(v@.take(0)) =~= o0);
    while i < v.len()
        invariant
            i <= v.len(),
            v@ == value@,
            out@ == o0 + json_chars(v@.take(i as int)),
        decreases v.len() - i,
    {
        let c = v[i];
        assert(v@.take(i + 1).drop_last() =~= v@.take(i as int));
        assert(v@.take(i + 1).last() == c);
        let ghost before = out@;
        let code = c as u32;
        if c == '\\' {
            push_str(&mut out, "\\\\");
        } else if c == '"' {
            push_str(&mut out, "\\\"");
        } else if c == '\n' {
            push_str(&mut out, "\\n");
        } else if c == '\r' {
            push_str(&mut out, "\\r");
        } else if c == '\t' {
            push_str(&mut out, "\\t");
        } else if code <= 0x1f || (0x7f <= code && code <= 0x9f) {
            push_str(&mut out, "\\u");
            push_hex_digits(&mut out, code as u64, 4);
            assert((code as u64) as nat == (c as u32) as nat);
        } else {
            push_char(&mut out, c);
            assert(out@ =~= before + seq![c]);
        }
        assert(out@ =~= o0 + json_chars(v@.take(i + 1)));
        i += 1;
    }
    assert(v@.take(v.len() as int) =~= v@);
    push_str(&mut out, "\"");
    out
}

pub open spec fn json_bool_entries(es: Seq<(Seq<char>, bool)>) -> Seq<char>
    decreases es.len(),
{
    if es.len() == 0 {
        Seq::<char>::empty()
    } else {
        json_bool_entries(es.drop_last()) + (if es.len() > 1 {
            ", "@
        } else {
            Seq::<char>::empty()
        }) + spec_json_string(es.last().0) + ": "@ + bool_text(es.last().1)
    }
}

pub open spec fn json_string_entries(es: Seq<(Seq<char>, Seq<char>)>) -> Seq<char>
    decreases es.len(),
{
    if es.len() == 0 {
        Seq::<char>::empty()
    } else {
        json_string_entries(es.drop_last()) + (if es.len() > 1 {
            ", "@
        } else {
            Seq::<char>::empty()
        }) + spec_json_string(es.last().0) + ": "@ + spec_json_string(es.last().1)
    }
}

pub open spec fn json_list_items(vs: Seq<Seq<char>>) -> Seq<char>
    decreases vs.len(),
{
    if vs.len() == 0 {
        Seq::<char>::empty()
    } else {
        json_list_items(vs.drop_last()) + (if vs.len() > 1 {
            ", "@
        } else {
            Seq::<char>::empty()
        }) + spec_json_string(vs.last())
    }
}

fn push_separator(out: &mut String, i: usize)
    ensures
        final(out)@ == old(out)@ + if i > 0 {
            ", "@
        } else {
            Seq::<char>::empty()
        },
{
    if i > 0 {
        push_str(out, ", ");
    } else {
        assert(out@ + Seq::<char>::empty() =~= out@);
    }
}

pub fn push_json_bool_map(out: &mut String, values: &StrMap<bool>)
    ensures
        final(out)@ == old(out)@ + "{"@ + json_bool_entries(values@) + "}"@,
{
    push_str(out, "{");
    let ghost o0 = out@;
    let ghost es = values@;
    let mut i: usize = 0;
    assert(o0 + json_bool_entries(es.take(0)) =~= o0);
    while i < values.len()
        invariant
            i <= es.len(),
            es == values@,
            out@ == o0 + json_bool_entries(es.take(i as int)),
        decreases es.len() - i,
    {
        assert(es.take(i + 1).drop_last() =~= es.take(i as int));
        let key = values.key_at(i);
        let value = *values.value_at(i);
        assert(es.take(i + 1).last() == (key@, value));
        push_separator(out, i);
        let k = json_string(key.as_str());
        push_str(out, k.as_str());
        push_str(out, ": ");
        push_bool_text(out, value);
        assert(out@ =~= o0 + json_bool_entries(es.take(i + 1)));
        i += 1;
    }
    assert(es.take(es.len() as int) =~= es);
    push_str(out, "}");
}

pub fn push_json_string_map(out: &mut String, values: &StrMap<String>)
    ensures
        final(out)@ == old(out)@ + "{"@ + json_string_entries(
            crate::config::types::string_map_view(values@),
        ) + "}"@,
{
    push_str(out, "{");
    let ghost o0 = out@;
    let ghost es = crate::config::types::string_map_view(values@);
    let mut i: usize = 0;
    assert(o0 + json_string_entries(es.take(0)) =~= o0);
    while i < values.len()
        invariant
            i <= es.len(),
            es == crate::config::types::string_map_view(values@),
            es.len() == values@.len(),
            out@ == o0 + json_string_entries(es.take(i as int)),
        decreases es.len() - i,
    {
        assert(es.take(i + 1).drop_last() =~= es.take(i as int));
        let key = values.key_at(i);
        let value = values.value_at(i);
        assert(es.take(i + 1).last() == (key@, value@));
        push_separator(out, i);
        let k = json_string(key.as_str());
        push_str(out, k.as_str());
        push_str(out, ": ");
        let v = json_string(value.as_str());
        push_str(out, v.as_str());
        assert(out@ =~= o0 + json_string_entries(es.take(i + 1)));
        i += 1;
    }
    assert(es.take(es.len() as int) =~= es);
    push_str(out, "}");
}

pub fn push_json_string_list(out: &mut String, values: &Vec<String>)
    ensures
        final(out)@ == old(out)@ + "["@ + json_list_items(strings_view(values@)) + "]"@,
{
    push_str(out, "[");
    let ghost o0 = out@;
    let ghost vs = strings_view(values@);
    let mut i: usize = 0;
    assert(o0 + json_list_items(vs.take(0)) =~= o0);
    while i < values.len()
        invariant
            i <= values.len(),
            vs == strings_view(values@),
            out@ == o0 + json_list_items(vs.take(i as int)),
        decreases values.len() - i,
    {
        assert(vs.take(i + 1).drop_last() =~= vs.take(i as int));
        assert(vs.take(i + 1).last() == values@[i as int]@);
        push_separator(out, i);
        let v = json_string(values[i].as_str());
        push_str(out, v.as_str());
        assert(out@ =~= o0 + json_list_items(vs.take(i + 1)));
        i += 1;
    }
    assert(vs.take(values.len() as int) =~= vs);
    push_str(out, "]");
}


// --- the state manifest ------------------------------------------------------------

/// One generated workspace artifact and what it was generated from.
#[derive(Debug)]
pub struct WorkspaceArtifact {
    pub name: String,
    pub workspace_path: String,
    pub backend: String,
    pub languages: StrMap<bool>,
    pub packages: Vec<String>,
    pub services: StrMap<bool>,
    pub tasks: StrMap<String>,
    pub devenv_nix: String,
    pub manifest_devenv_nix: String,
    pub config_size_bytes: usize,
    pub config_hash: String,
}

pub struct ArtifactView {
    pub name: Seq<char>,
    pub workspace_path: Seq<char>,
    pub backend: Seq<char>,
    pub languages: Seq<(Seq<char>, bool)>,
    pub packages: Seq<Seq<char>>,
    pub services: Seq<(Seq<char>, bool)>,
    pub tasks: Seq<(Seq<char>, Seq<char>)>,
    pub devenv_nix: Seq<char>,
    pub manifest_devenv_nix: Seq<char>,
    pub config_size_bytes: nat,
    pub config_hash: Seq<char>,
}

impl View for WorkspaceArtifact {
    type V = ArtifactView;

    open spec fn view(&self) -> ArtifactView {
        ArtifactView {
            name: self.name@,
            workspace_path: self.workspace_path@,
            backend: self.backend@,
            languages: self.languages@,
            packages: strings_view(self.packages@),
            services: self.services@,
            tasks: crate::config::types::string_map_view(self.tasks@),
            devenv_nix: self.devenv_nix@,
            manifest_devenv_nix: self.manifest_devenv_nix@,
            config_size_bytes: self.config_size_bytes as nat,
            config_hash: self.config_hash@,
        }
    }
}

/// The result of generating every workspace of a configuration.
#[derive(Debug)]
pub struct WorkspaceGenerationSummary {
    pub artifacts: Vec<WorkspaceArtifact>,
    pub state_manifest: String,
}

fn clone_strings(v: &Vec<String>) -> (c: Vec<String>)
    ensures
        strings_view(c@) == strings_view(v@),
{
    let mut c: Vec<String> = Vec::new();
    let mut i: usize = 0;
    while i < v.len()
        invariant
            i <= v.len(),
            strings_view(c@) == strings_view(v@.take(i as int)),
        decreases v.len() - i,
    {
        let ghost c0 = c@;
        let x = v[i].clone();
        assert(x@ == v@[i as int]@);
        c.push(x);
        assert(v@.take(i + 1) =~= v@.take(i as int).push(v@[i as int]));
        assert(strings_view(c@) =~= strings_view(c0).push(x@));
        assert(strings_view(v@.take(i + 1)) =~= strings_view(v@.take(i as int)).push(v@[i as int]@));
        i += 1;
    }
    assert(v@.take(v.len() as int) =~= v@);
    c
}

fn clone_bool_map(m: &StrMap<bool>) -> (c: StrMap<bool>)
    ensures
        c@ == m@,
{
    m.copy_map()
}

fn clone_string_map(m: &StrMap<String>) -> (c: StrMap<String>)
    ensures
        crate::config::types::string_map_view(c@) == crate::config::types::string_map_view(m@),
{
    let c = m.clone_map();
    assert(crate::config::types::string_map_view(c@) =~= crate::config::types::string_map_view(m@));
    c
}

/// The artifact planned for workspace `name` whose `devenv.nix` goes to `devenv_nix`: the
/// workspace's inputs, the artifact's path relative to the manifest, and the size in bytes
/// and the hash of the rendered file.
pub open spec fn spec_planned_artifact(
    name: Seq<char>,
    w: crate::config::types::WorkspaceView,
    devenv_nix: Seq<char>,
) -> ArtifactView {
    let bytes = vstd::utf8::encode_utf8(spec_render_devenv_nix(w));
    ArtifactView {
        name,
        workspace_path: w.path,
        backend: w.backend,
        languages: w.languages,
        packages: w.packages,
        services: w.services,
        tasks: w.tasks,
        devenv_nix,
        manifest_devenv_nix: "./"@ + name + "/devenv.nix"@,
        config_size_bytes: (bytes.len() as usize) as nat,
        config_hash: hex_digits(fnv1a64(bytes) as nat, 16),
    }
}

/// The artifact for workspace `name`: its `devenv.nix` text, where that file goes, and
/// the record the state manifest keeps of it (the file's size in bytes and its hash).
#[verifier::rlimit(30)]
pub fn plan_workspace_artifact(name: &str, workspace: &WorkspaceConfig, devenv_nix: String) -> (r: (
    WorkspaceArtifact,
    String,
))
    ensures
        r.1@ == spec_render_devenv_nix(workspace@),
        r.0@ == spec_planned_artifact(name@, workspace@, devenv_nix@),
{
    let rendered = render_devenv_nix(workspace);
    let languages = clone_bool_map(&workspace.languages);
    let services = clone_bool_map(&workspace.services);
    let tasks = clone_string_map(&workspace.tasks);
    let size = rendered.as_str().len();
    let hash = stable_hash_hex(rendered.as_str());
    let artifact = WorkspaceArtifact {
        name: string_from(name),
        workspace_path: workspace.path.clone(),
        backend: workspace.backend.clone(),
        languages,
        packages: clone_strings(&workspace.packages),
        services,
        tasks,
        devenv_nix,
        manifest_devenv_nix: cat3("./", name, "/devenv.nix"),
        config_size_bytes: size,
        config_hash: hash,
    };
    (artifact, rendered)
}

/// Where `workspace generate` puts the `devenv.nix` of workspace `name` under `output_dir`.
pub open spec fn devenv_path(output_dir: Seq<char>, name: Seq<char>) -> Seq<char> {
    crate::paths::spec_join(crate::paths::spec_join(output_dir, name), "devenv.nix"@)
}

/// The artifacts `workspace generate` plans for the workspaces `entries` (name and
/// workspace, in key order) under `output_dir`.
pub open spec fn spec_generated_artifacts(
    entries: Seq<(Seq<char>, crate::config::types::WorkspaceView)>,
    output_dir: Seq<char>,
) -> Seq<ArtifactView> {
    crate::workspace_manifest::planned_artifacts(
        entries.map_values(|e: (Seq<char>, crate::config::types::WorkspaceView)| e.0),
        entries.map_values(|e: (Seq<char>, crate::config::types::WorkspaceView)| e.1),
        entries.map_values(
            |e: (Seq<char>, crate::config::types::WorkspaceView)| devenv_path(output_dir, e.0),
        ),
    )
}

/// Every artifact `workspace generate` writes for `workspaces` under `output_dir`, in key
/// order, each with the `devenv.nix` text that goes to its path; the state manifest is
/// `render_workspace_state_manifest` of the artifacts.
pub fn plan_workspace_artifacts(workspaces: &crate::config::types::WorkspacesConfig, output_dir: &str) -> (r: (
    Vec<WorkspaceArtifact>,
    Vec<String>,
))
    ensures
        views_of(r.0@) == spec_generated_artifacts(workspaces@.entries, output_dir@),
        r.1@.len() == workspaces@.entries.len(),
        forall|i: int|
            0 <= i < r.1@.len() ==> #[trigger] r.1@[i]@ == spec_render_devenv_nix(workspaces@.entries[i].1),
{
    let ghost es = workspaces@.entries;
    let ghost target = spec_generated_artifacts(es, output_dir@);
    let mut artifacts: Vec<WorkspaceArtifact> = Vec::new();
    let mut texts: Vec<String> = Vec::new();
    let n = workspaces.entries.len();
    let mut i: usize = 0;
    while i < n
        invariant
            i <= n,
            n == es.len(),
            es == workspaces@.entries,
            target == spec_generated_artifacts(es, output_dir@),
            target.len() == n,
            views_of(artifacts@) == target.take(i as int),
            texts@.len() == i,
            forall|j: int| 0 <= j < i ==> #[trigger] texts@[j]@ == spec_render_devenv_nix(es[j].1),
        decreases n - i,
    {
        let name = workspaces.entries.key_at(i);
        let workspace = workspaces.entries.value_at(i);
        assert(es[i as int] == (name@, workspace@));
        let dir = crate::paths::join_path(output_dir, name.as_str());
        let path = crate::paths::join_path(dir.as_str(), "devenv.nix");
        let (artifact, rendered) = plan_workspace_artifact(name.as_str(), workspace, path);
        let ghost a0 = views_of(artifacts@);
        artifacts.push(artifact);
        texts.push(rendered);
        assert(views_of(artifacts@) =~= a0.push(target[i as int]));
        assert(target.take(i + 1) =~= target.take(i as int).push(target[i as int]));
        i += 1;
    }
    assert(target.take(n as int) =~= target);
    (artifacts, texts)
}

pub open spec fn artifact_head(a: ArtifactView) -> Seq<char> {
    "    {\n"@ + "      \"name\": "@ + spec_json_string(a.name) + ",\n"@ + "      \"backend\": "@
        + spec_json_string(a.backend) + ",\n"@ + "      \"workspace_path\": "@ + spec_json_string(
        a.workspace_path,
    ) + ",\n"@ + "      \"devenv_nix\": "@ + spec_json_string(a.manifest_devenv_nix) + ",\n"@
}

pub open spec fn artifact_inputs(a: ArtifactView) -> Seq<char> {
    "      \"inputs\": {\n"@ + "        \"languages\": "@ + "{"@ + json_bool_entries(a.languages)
        + "}"@ + ",\n"@ + "        \"packages\": "@ + "["@ + json_list_items(a.packages) + "]"@
        + ",\n"@ + "        \"services\": "@ + "{"@ + json_bool_entries(a.services) + "}"@ + ",\n"@
        + "        \"tasks\": "@ + "{"@ + json_string_entries(a.tasks) + "}"@ + "\n"@
        + "      },\n"@
}

pub open spec fn artifact_tail(a: ArtifactView, last: bool) -> Seq<char> {
    "      \"config_hash_algorithm\": "@ + spec_json_string("fnv1a64"@) + ",\n"@
        + "      \"config_size_bytes\": "@ + crate::text::decimal(a.config_size_bytes) + ",\n"@
        + "      \"config_hash\": "@ + spec_json_string(a.config_hash) + "\n"@ + "    }"@ + (if last {
        Seq::<char>::empty()
    } else {
        ","@
    }) + "\n"@
}

/// One workspace entry of the state manifest.
#[verifier::opaque]
pub open spec fn artifact_json(a: ArtifactView, last: bool) -> Seq<char> {
    artifact_head(a) + artifact_inputs(a) + artifact_tail(a, last)
}

pub open spec fn artifacts_json(arts: Seq<ArtifactView>, n: nat) -> Seq<char>
    decreases n,
{
    if n == 0 || n > arts.len() {
        Seq::<char>::empty()
    } else {
        artifacts_json(arts, (n - 1) as nat) + artifact_json(arts[n - 1], n == arts.len())
    }
}

/// The workspace state manifest that records the generated artifacts.
pub open spec fn spec_state_manifest(arts: Seq<ArtifactView>) -> Seq<char> {
    "{\n"@ + "  \"schema_version\": "@ + spec_json_string("basalt-workspace-state-v0"@) + ",\n"@
        + "  \"workspace_count\": "@ + crate::text::decimal(arts.len()) + ",\n"@
        + "  \"workspaces\": [\n"@ + artifacts_json(arts, arts.len()) + "  ]\n"@ + "}\n"@
}

fn push_artifact_head(out: &mut String, a: &WorkspaceArtifact)
    ensures
        final(out)@ == old(out)@ + artifact_head(a@),
{
    let ghost o0 = out@;
    push_str(out, "    {\n");
    push_str(out, "      \"name\": ");
    let j = json_string(a.name.as_str());
    push_str(out, j.as_str());
    push_str(out, ",\n");
    push_str(out, "      \"backend\": ");
    let j = json_string(a.backend.as_str());
    push_str(out, j.as_str());
    push_str(out, ",\n");
    push_str(out, "      \"workspace_path\": ");
    let j = json_string(a.workspace_path.as_str());
    push_str(out, j.as_str());
    push_str(out, ",\n");
    push_str(out, "      \"devenv_nix\": ");
    let j = json_string(a.manifest_devenv_nix.as_str());
    push_str(out, j.as_str());
    push_str(out, ",\n");
    assert(out@ =~= o0 + artifact_head(a@));
}

fn push_artifact_inputs(out: &mut String, a: &WorkspaceArtifact)
    ensures
        final(out)@ == old(out)@ + artifact_inputs(a@),
{
    let ghost o0 = out@;
    push_str(out, "      \"inputs\": {\n");
    push_str(out, "        \"languages\": ");
    push_json_bool_map(out, &a.languages);
    push_str(out, ",\n");
    push_str(out, "        \"packages\": ");
    push_json_string_list(out, &a.packages);
    push_str(out, ",\n");
    push_str(out, "        \"services\": ");
    push_json_bool_map(out, &a.services);
    push_str(out, ",\n");
    push_str(out, "        \"tasks\": ");
    push_json_string_map(out, &a.tasks);
    push_str(out, "\n");
    push_str(out, "      },\n");
    assert(out@ =~= o0 + artifact_inputs(a@));
}

fn push_artifact_tail(out: &mut String, a: &WorkspaceArtifact, last: bool)
    ensures
        final(out)@ == old(out)@ + artifact_tail(a@, last),
{
    let ghost o0 = out@;
    push_str(out, "      \"config_hash_algorithm\": ");
    let j = json_string(WORKSPACE_ARTIFACT_HASH_ALGORITHM);
    push_str(out, j.as_str());
    push_str(out, ",\n");
    push_str(out, "      \"config_size_bytes\": ");
    push_decimal(out, a.config_size_bytes as u128);
    push_str(out, ",\n");
    push_str(out, "      \"config_hash\": ");
    let j = json_string(a.config_hash.as_str());
    push_str(out, j.as_str());
    push_str(out, "\n");
    push_str(out, "    }");
    if !last {
        push_str(out, ",");
    }
    push_str(out, "\n");
    assert(out@ =~= o0 + artifact_tail(a@, last));
}

fn push_artifact_json(out: &mut String, a: &WorkspaceArtifact, last: bool)
    ensures
        final(out)@ == old(out)@ + artifact_json(a@, last),
{
    reveal(artifact_json);
    let ghost o0 = out@;
    push_artifact_head(out, a);
    let ghost o1 = out@;
    push_artifact_inputs(out, a);
    let ghost o2 = out@;
    push_artifact_tail(out, a, last);
    assert(out@ =~= o0 + (artifact_head(a@) + artifact_inputs(a@) + artifact_tail(a@, last)));
}

/// The state manifest for `artifacts`.
pub fn render_workspace_state_manifest(artifacts: &[WorkspaceArtifact]) -> (out: String)
    ensures
        out@ == spec_state_manifest(views_of(artifacts@)),
{
    let mut out = String::new();
    push_str(&mut out, "{\n");
    push_str(&mut out, "  \"schema_version\": ");
    let v = json_string(WORKSPACE_STATE_SCHEMA_VERSION);
    push_str(&mut out, v.as_str());
    push_str(&mut out, ",\n");
    push_str(&mut out, "  \"workspace_count\": ");
    push_decimal(&mut out, artifacts.len() as u128);
    push_str(&mut out, ",\n");
    push_str(&mut out, "  \"workspaces\": [\n");
    let ghost o0 = out@;
    let ghost arts = views_of(artifacts@);
    let mut i: usize = 0;
    assert(o0 + artifacts_json(arts, 0) =~= o0);
    while i < artifacts.len()
        invariant
            i <= artifacts.len(),
            arts == views_of(artifacts@),
            out@ == o0 + artifacts_json(arts, i as nat),
        decreases artifacts.len() - i,
    {
        let last = i + 1 == artifacts.len();
        assert(arts[i as int] == artifacts@[i as int]@);
        push_artifact_json(&mut out, &artifacts[i], last);
        assert(artifacts_json(arts, (i + 1) as nat) == artifacts_json(arts, i as nat)
            + artifact_json(arts[i as int], last));
        assert(out@ =~= o0 + artifacts_json(arts, (i + 1) as nat));
        i += 1;
    }
    push_str(&mut out, "  ]\n");
    push_str(&mut out, "}\n");
    assert(out@ =~= spec_state_manifest(views_of(artifacts@)));
    out
}

/// What checking a state manifest against the artifacts on disk found.
#[derive(Debug)]
pub struct WorkspaceManifestCheck {
    pub checked_artifacts: usize,
    pub checked_workspaces: Vec<String>,
    pub failures: Vec<String>,
}

impl WorkspaceManifestCheck {
    pub fn is_ok(&self) -> (b: bool)
        ensures
            b == (self.failures@.len() == 0),
    {
        self.failures.len() == 0
    }
}

pub open spec fn bullet_lines(vs: Seq<Seq<char>>) -> Seq<char>
    decreases vs.len(),
{
    if vs.len() == 0 {
        Seq::<char>::empty()
    } else {
        bullet_lines(vs.drop_last()) + "- "@ + vs.last() + "\n"@
    }
}

pub open spec fn spec_render_manifest_check(
    checked: nat,
    workspaces: Seq<Seq<char>>,
    failures: Seq<Seq<char>>,
) -> Seq<char> {
    "Basalt workspace manifest check\n\n"@ + "Checked artifacts: "@ + crate::text::decimal(checked)
        + "\n"@ + (if workspaces.len() == 0 {
        "Checked workspaces: none\n"@
    } else {
        "Checked workspaces:\n"@ + bullet_lines(workspaces)
    }) + if failures.len() == 0 {
        "Status: ok\n"@
    } else {
        "Status: failed\n"@ + bullet_lines(failures)
    }
}

fn push_bullets(out: &mut String, values: &Vec<String>)
    ensures
        final(out)@ == old(out)@ + bullet_lines(strings_view(values@)),
{
    let ghost o0 = out@;
    let ghost vs = strings_view(values@);
    let mut i: usize = 0;
    assert(o0 + bullet_lines(vs.take(0)) =~= o0);
    while i < values.len()
        invariant
            i <= values.len(),
            vs == strings_view(values@),
            out@ == o0 + bullet_lines(vs.take(i as int)),
        decreases values.len() - i,
    {
        assert(vs.take(i + 1).drop_last() =~= vs.take(i as int));
        assert(vs.take(i + 1).last() == values@[i as int]@);
        push_str(out, "- ");
        push_str(out, values[i].as_str());
        push_str(out, "\n");
        assert(out@ =~= o0 + bullet_lines(vs.take(i + 1)));
        i += 1;
    }
    assert(vs.take(values.len() as int) =~= vs);
}

/// The report of a manifest check.
pub fn render_workspace_manifest_check(check: &WorkspaceManifestCheck) -> (out: String)
    ensures
        out@ == spec_render_manifest_check(
            check.checked_artifacts as nat,
            strings_view(check.checked_workspaces@),
            strings_view(check.failures@),
        ),
{
    let mut out = string_from("Basalt workspace manifest check\n\n");
    push_str(&mut out, "Checked artifacts: ");
    push_decimal(&mut out, check.checked_artifacts as u128);
    push_str(&mut out, "\n");
    let ghost o1 = out@;
    if check.checked_workspaces.len() == 0 {
        push_str(&mut out, "Checked workspaces: none\n");
    } else {
        push_str(&mut out, "Checked workspaces:\n");
        push_bullets(&mut out, &check.checked_workspaces);
    }
    let ghost o2 = out@;
    if check.failures.len() == 0 {
        push_str(&mut out, "Status: ok\n");
    } else {
        push_str(&mut out, "Status: failed\n");
        push_bullets(&mut out, &check.failures);
    }
    assert(out@ =~= o1 + o2.skip(o1.len() as int) + out@.skip(o2.len() as int));
    out
}


// --- reading a manifest back ---------------------------------------------------------

/// `<line>` is `"<field>": <value>` with an optional trailing comma; the value text.
pub open spec fn field_value(line: Seq<char>, field: Seq<char>) -> Option<Seq<char>> {
    let prefix = "\""@ + field + "\":"@;
    if seq_starts_with(line, prefix) {
        Some(trim(trim_end_char(trim(line.skip(prefix.len() as int)), ',')))
    } else {
        None
    }
}

fn field_value_exec(line: &str, field: &str) -> (r: Option<String>)
    ensures
        crate::config::types::opt_view(r) == field_value(line@, field@),
{
    let prefix = cat3("\"", field, "\":");
    match strip_prefix(line, prefix.as_str()) {
        None => None,
        Some(rest) => {
            let t = trim_str(rest.as_str());
            let u = trim_end_matches(t.as_str(), ',');
            Some(trim_str(u.as_str()))
        },
    }
}

/// The text of a JSON string literal: `\\`, `\"`, `\n`, `\r` and `\t` unescaped, any other
/// escape refused.
pub open spec fn json_unescape(s: Seq<char>) -> Option<Seq<char>>
    decreases s.len(),
{
    if s.len() == 0 {
        Some(Seq::<char>::empty())
    } else if s[0] != '\\' {
        match json_unescape(s.drop_first()) {
            Some(r) => Some(seq![s[0]] + r),
            None => None,
        }
    } else if s.len() < 2 {
        None
    } else {
        let e = s[1];
        let c = if e == '\\' {
            '\\'
        } else if e == '"' {
            '"'
        } else if e == 'n' {
            '\n'
        } else if e == 'r' {
            '\r'
        } else {
            '\t'
        };
        if e == '\\' || e == '"' || e == 'n' || e == 'r' || e == 't' {
            match json_unescape(s.skip(2)) {
                Some(r) => Some(seq![c] + r),
                None => None,
            }
        } else {
            None
        }
    }
}

/// A JSON string literal between double quotes.
pub open spec fn spec_parse_json_string(value: Seq<char>) -> Option<Seq<char>> {
    if value.len() >= 2 && value[0] == '"' && value.last() == '"' {
        json_unescape(value.subrange(1, value.len() - 1))
    } else {
        None
    }
}

/// The text of a JSON string literal, or `None` when `value` is not one.
pub fn parse_json_string(value: &str) -> (r: Option<String>)
    ensures
        crate::config::types::opt_view(r) == spec_parse_json_string(value@),
{
    let v = chars_of(value);
    let n = v.len();
    if n < 2 || v[0] != '"' || v[n - 1] != '"' {
        return None;
    }
    let ghost body = v@.subrange(1, n - 1);
    let ghost goal = json_unescape(body);
    let mut out = String::new();
    let mut i: usize = 1;
    assert(body.skip(0) =~= body);
    assert(out@ + Seq::<char>::empty() =~= out@);
    while i < n - 1
        invariant
            1 <= i <= n - 1,
            n == v.len(),
            n >= 2,
            v@ == value@,
            v@[0] == '"' && v@[n - 1] == '"',
            body == v@.subrange(1, n - 1),
            goal == json_unescape(body),
            match json_unescape(body.skip(i - 1)) {
                Some(r) => goal == Some(out@ + r),
                None => goal is None,
            },
        decreases n - 1 - i,
    {
        let ghost rest = body.skip(i - 1);
        let c = v[i];
        assert(rest[0] == c);
        if c != '\\' {
            assert(rest.drop_first() =~= body.skip(i as int));
            let ghost o0 = out@;
            push_char(&mut out, c);
            proof {
                match json_unescape(body.skip(i as int)) {
                    Some(r) => {
                        assert(o0 + (seq![c] + r) =~= out@ + r);
                    },
                    None => {},
                }
            }
            i += 1;
        } else {
            if i + 1 >= n - 1 {
                assert(rest.len() < 2);
                assert(json_unescape(rest) is None);
                return None;
            }
            let e = v[i + 1];
            assert(rest[1] == e);
            assert(rest.skip(2) =~= body.skip(i + 1));
            if !(e == '\\' || e == '"' || e == 'n' || e == 'r' || e == 't') {
                assert(json_unescape(rest) is None);
                return None;
            }
            let decoded = if e == '\\' {
                '\\'
            } else if e == '"' {
                '"'
            } else if e == 'n' {
                '\n'
            } else if e == 'r' {
                '\r'
            } else {
                '\t'
            };
            let ghost o0 = out@;
            push_char(&mut out, decoded);
            proof {
                match json_unescape(body.skip(i + 1)) {
                    Some(r) => {
                        assert(o0 + (seq![decoded] + r) =~= out@ + r);
                    },
                    None => {},
                }
            }
            i += 2;
        }
    }
    assert(body.skip(i - 1) =~= Seq::<char>::empty());
    assert(out@ + Seq::<char>::empty() =~= out@);
    Some(out)
}

/// `"<field>": "<text>"` read from a line, or why it cannot be.
pub open spec fn spec_string_field(line: Seq<char>, field: Seq<char>) -> Result<Seq<char>, Seq<char>> {
    match field_value(line, field) {
        None => Err("workspace manifest line is not `"@ + field + "`"@),
        Some(v) => match spec_parse_json_string(v) {
            Some(t) => Ok(t),
            None => Err("workspace manifest `"@ + field + "` must be a string"@),
        },
    }
}

/// `"<field>": <count>` read from a line, or why it cannot be.
pub open spec fn spec_usize_field(line: Seq<char>, field: Seq<char>) -> Result<nat, Seq<char>> {
    match field_value(line, field) {
        None => Err("workspace manifest line is not `"@ + field + "`"@),
        Some(v) => match spec_usize_from_str(v) {
            Ok(n) => Ok(n),
            Err(k) => Err(
                "workspace manifest `"@ + field + "` must be a non-negative integer: "@
                    + int_error_text(k),
            ),
        },
    }
}

pub fn extract_json_string_field(line: &str, field: &str) -> (r: Result<String, String>)
    ensures
        match r {
            Ok(t) => spec_string_field(line@, field@) == Ok::<Seq<char>, Seq<char>>(t@),
            Err(e) => spec_string_field(line@, field@) == Err::<Seq<char>, Seq<char>>(e@),
        },
{
    match field_value_exec(line, field) {
        None => Err(cat3("workspace manifest line is not `", field, "`")),
        Some(v) => match parse_json_string(v.as_str()) {
            Some(t) => Ok(t),
            None => Err(cat3("workspace manifest `", field, "` must be a string")),
        },
    }
}

pub fn extract_json_usize_field(line: &str, field: &str) -> (r: Result<usize, String>)
    ensures
        match r {
            Ok(n) => spec_usize_field(line@, field@) == Ok::<nat, Seq<char>>(n as nat),
            Err(e) => spec_usize_field(line@, field@) == Err::<nat, Seq<char>>(e@),
        },
{
    match field_value_exec(line, field) {
        None => Err(cat3("workspace manifest line is not `", field, "`")),
        Some(v) => match usize_from_str(v.as_str()) {
            Ok(n) => Ok(n),
            Err(k) => {
                let mut e = cat3(
                    "workspace manifest `",
                    field,
                    "` must be a non-negative integer: ",
                );
                push_str(&mut e, k.message());
                Err(e)
            },
        },
    }
}


/// One workspace entry as a state manifest records it.
#[derive(Debug)]
pub struct ManifestArtifactEntry {
    pub name: String,
    pub backend: String,
    pub workspace_path: String,
    pub devenv_nix: String,
    pub config_hash_algorithm: String,
    pub config_size_bytes: usize,
    pub config_hash: String,
}

pub struct EntryView {
    pub name: Seq<char>,
    pub backend: Seq<char>,
    pub workspace_path: Seq<char>,
    pub devenv_nix: Seq<char>,
    pub config_hash_algorithm: Seq<char>,
    pub config_size_bytes: nat,
    pub config_hash: Seq<char>,
}

impl View for ManifestArtifactEntry {
    type V = EntryView;

    open spec fn view(&self) -> EntryView {
        EntryView {
            name: self.name@,
            backend: self.backend@,
            workspace_path: self.workspace_path@,
            devenv_nix: self.devenv_nix@,
            config_hash_algorithm: self.config_hash_algorithm@,
            config_size_bytes: self.config_size_bytes as nat,
            config_hash: self.config_hash@,
        }
    }
}

/// The fields read so far of the entry being read, and the entries completed.
pub struct ManifestScan {
    pub name: Option<Seq<char>>,
    pub backend: Option<Seq<char>>,
    pub workspace_path: Option<Seq<char>>,
    pub devenv_nix: Option<Seq<char>>,
    pub algorithm: Option<Seq<char>>,
    pub size: Option<nat>,
    pub entries: Seq<EntryView>,
}

pub open spec fn empty_scan() -> ManifestScan {
    ManifestScan {
        name: None,
        backend: None,
        workspace_path: None,
        devenv_nix: None,
        algorithm: None,
        size: None,
        entries: seq![],
    }
}

pub open spec fn before_msg(what: Seq<char>) -> Seq<char> {
    "workspace manifest has config_hash before "@ + what
}

/// A `config_hash` line ends an entry: every other field must have come before it.
pub open spec fn complete_entry(st: ManifestScan, hash: Seq<char>) -> Result<ManifestScan, Seq<char>> {
    match (st.name, st.backend, st.workspace_path, st.devenv_nix, st.algorithm, st.size) {
        (None, _, _, _, _, _) => Err(before_msg("workspace name"@)),
        (Some(_), None, _, _, _, _) => Err(before_msg("workspace backend"@)),
        (Some(_), Some(_), None, _, _, _) => Err(before_msg("workspace_path"@)),
        (Some(_), Some(_), Some(_), None, _, _) => Err(before_msg("devenv_nix"@)),
        (Some(_), Some(_), Some(_), Some(_), None, _) => Err(before_msg("config_hash_algorithm"@)),
        (Some(_), Some(_), Some(_), Some(_), Some(_), None) => Err(before_msg("config_size_bytes"@)),
        (Some(n), Some(b), Some(w), Some(d), Some(a), Some(z)) => Ok(
            ManifestScan {
                entries: st.entries.push(
                    EntryView {
                        name: n,
                        backend: b,
                        workspace_path: w,
                        devenv_nix: d,
                        config_hash_algorithm: a,
                        config_size_bytes: z,
                        config_hash: hash,
                    },
                ),
                ..empty_scan()
            },
        ),
    }
}

pub open spec fn key_prefix(field: Seq<char>) -> Seq<char> {
    "\""@ + field + "\":"@
}

/// One trimmed line of a manifest.
pub open spec fn manifest_line(st: ManifestScan, line: Seq<char>) -> Result<ManifestScan, Seq<char>> {
    if seq_starts_with(line, key_prefix("name"@)) {
        match spec_string_field(line, "name"@) {
            Ok(v) => Ok(ManifestScan { name: Some(v), ..st }),
            Err(e) => Err(e),
        }
    } else if seq_starts_with(line, key_prefix("backend"@)) {
        match spec_string_field(line, "backend"@) {
            Ok(v) => Ok(ManifestScan { backend: Some(v), ..st }),
            Err(e) => Err(e),
        }
    } else if seq_starts_with(line, key_prefix("workspace_path"@)) {
        match spec_string_field(line, "workspace_path"@) {
            Ok(v) => Ok(ManifestScan { workspace_path: Some(v), ..st }),
            Err(e) => Err(e),
        }
    } else if seq_starts_with(line, key_prefix("devenv_nix"@)) {
        match spec_string_field(line, "devenv_nix"@) {
            Ok(v) => Ok(ManifestScan { devenv_nix: Some(v), ..st }),
            Err(e) => Err(e),
        }
    } else if seq_starts_with(line, key_prefix("config_hash_algorithm"@)) {
        match spec_string_field(line, "config_hash_algorithm"@) {
            Ok(v) => Ok(ManifestScan { algorithm: Some(v), ..st }),
            Err(e) => Err(e),
        }
    } else if seq_starts_with(line, key_prefix("config_size_bytes"@)) {
        match spec_usize_field(line, "config_size_bytes"@) {
            Ok(v) => Ok(ManifestScan { size: Some(v), ..st }),
            Err(e) => Err(e),
        }
    } else if seq_starts_with(line, key_prefix("config_hash"@)) {
        match spec_string_field(line, "config_hash"@) {
            Ok(h) => complete_entry(st, h),
            Err(e) => Err(e),
        }
    } else {
        Ok(st)
    }
}

pub open spec fn manifest_lines(lines: Seq<Seq<char>>) -> Result<ManifestScan, Seq<char>>
    decreases lines.len(),
{
    if lines.len() == 0 {
        Ok(empty_scan())
    } else {
        match manifest_lines(lines.drop_last()) {
            Err(e) => Err(e),
            Ok(st) => manifest_line(st, trim(lines.last())),
        }
    }
}

pub open spec fn without_msg(what: Seq<char>) -> Seq<char> {
    "workspace manifest has "@ + what + " without config_hash"@
}

/// The entries a manifest records, or the first reason it cannot be read.
pub open spec fn spec_parse_manifest_entries(contents: Seq<char>) -> Result<Seq<EntryView>, Seq<char>> {
    match manifest_lines(spec_lines(contents)) {
        Err(e) => Err(e),
        Ok(st) => if st.name is Some {
            Err(without_msg("workspace name"@))
        } else if st.backend is Some {
            Err(without_msg("workspace backend"@))
        } else if st.workspace_path is Some {
            Err(without_msg("workspace_path"@))
        } else if st.devenv_nix is Some {
            Err(without_msg("devenv_nix"@))
        } else if st.algorithm is Some {
            Err(without_msg("config_hash_algorithm"@))
        } else if st.size is Some {
            Err(without_msg("config_size_bytes"@))
        } else {
            Ok(st.entries)
        },
    }
}

struct ScanState {
    name: Option<String>,
    backend: Option<String>,
    workspace_path: Option<String>,
    devenv_nix: Option<String>,
    algorithm: Option<String>,
    size: Option<usize>,
    entries: Vec<ManifestArtifactEntry>,
}

impl ScanState {
    spec fn view(&self) -> ManifestScan {
        ManifestScan {
            name: crate::config::types::opt_view(self.name),
            backend: crate::config::types::opt_view(self.backend),
            workspace_path: crate::config::types::opt_view(self.workspace_path),
            devenv_nix: crate::config::types::opt_view(self.devenv_nix),
            algorithm: crate::config::types::opt_view(self.algorithm),
            size: match self.size {
                Some(z) => Some(z as nat),
                None => None,
            },
            entries: views_of(self.entries@),
        }
    }
}

fn take_entry(st: &mut ScanState, hash: String) -> (r: Result<(), String>)
    ensures
        match r {
            Ok(()) => complete_entry(old(st).view(), hash@) == Ok::<ManifestScan, Seq<char>>(
                final(st).view(),
            ),
            Err(e) => complete_entry(old(st).view(), hash@) == Err::<ManifestScan, Seq<char>>(e@),
        },
{
    let name = match st.name.take() {
        Some(v) => v,
        None => {
            return Err(cat2("workspace manifest has config_hash before ", "workspace name"));
        },
    };
    let backend = match st.backend.take() {
        Some(v) => v,
        None => {
            return Err(cat2("workspace manifest has config_hash before ", "workspace backend"));
        },
    };
    let workspace_path = match st.workspace_path.take() {
        Some(v) => v,
        None => {
            return Err(cat2("workspace manifest has config_hash before ", "workspace_path"));
        },
    };
    let devenv_nix = match st.devenv_nix.take() {
        Some(v) => v,
        None => {
            return Err(cat2("workspace manifest has config_hash before ", "devenv_nix"));
        },
    };
    let config_hash_algorithm = match st.algorithm.take() {
        Some(v) => v,
        None => {
            return Err(cat2("workspace manifest has config_hash before ", "config_hash_algorithm"));
        },
    };
    let config_size_bytes = match st.size.take() {
        Some(v) => v,
        None => {
            return Err(cat2("workspace manifest has config_hash before ", "config_size_bytes"));
        },
    };
    let ghost e0 = views_of(st.entries@);
    let entry = ManifestArtifactEntry {
        name,
        backend,
        workspace_path,
        devenv_nix,
        config_hash_algorithm,
        config_size_bytes,
        config_hash: hash,
    };
    let ghost ev = entry@;
    st.entries.push(entry);
    assert(views_of(st.entries@) =~= e0.push(ev));
    Ok(())
}

fn scan_line(st: &mut ScanState, line: &str) -> (r: Result<(), String>)
    ensures
        match r {
            Ok(()) => manifest_line(old(st).view(), line@) == Ok::<ManifestScan, Seq<char>>(
                final(st).view(),
            ),
            Err(e) => manifest_line(old(st).view(), line@) == Err::<ManifestScan, Seq<char>>(e@),
        },
{
    proof {
        reveal_strlit("\"");
        reveal_strlit("\":");
        reveal_strlit("\"name\":");
        reveal_strlit("\"backend\":");
        reveal_strlit("\"workspace_path\":");
        reveal_strlit("\"devenv_nix\":");
        reveal_strlit("\"config_hash_algorithm\":");
        reveal_strlit("\"config_size_bytes\":");
        reveal_strlit("\"config_hash\":");
        reveal_strlit("name");
        reveal_strlit("backend");
        reveal_strlit("workspace_path");
        reveal_strlit("devenv_nix");
        reveal_strlit("config_hash_algorithm");
        reveal_strlit("config_size_bytes");
        reveal_strlit("config_hash");
        assert("\"name\":"@ =~= key_prefix("name"@));
        assert("\"backend\":"@ =~= key_prefix("backend"@));
        assert("\"workspace_path\":"@ =~= key_prefix("workspace_path"@));
        assert("\"devenv_nix\":"@ =~= key_prefix("devenv_nix"@));
        assert("\"config_hash_algorithm\":"@ =~= key_prefix("config_hash_algorithm"@));
        assert("\"config_size_bytes\":"@ =~= key_prefix("config_size_bytes"@));
        assert("\"config_hash\":"@ =~= key_prefix("config_hash"@));
    }
    if starts_with(line, "\"name\":") {
        match extract_json_string_field(line, "name") {
            Ok(v) => {
                st.name = Some(v);
            },
            Err(e) => {
                return Err(e);
            },
        }
    } else if starts_with(line, "\"backend\":") {
        match extract_json_string_field(line, "backend") {
            Ok(v) => {
                st.backend = Some(v);
            },
            Err(e) => {
                return Err(e);
            },
        }
    } else if starts_with(line, "\"workspace_path\":") {
        match extract_json_string_field(line, "workspace_path") {
            Ok(v) => {
                st.workspace_path = Some(v);
            },
            Err(e) => {
                return Err(e);
            },
        }
    } else if starts_with(line, "\"devenv_nix\":") {
        match extract_json_string_field(line, "devenv_nix") {
            Ok(v) => {
                st.devenv_nix = Some(v);
            },
            Err(e) => {
                return Err(e);
            },
        }
    } else if starts_with(line, "\"config_hash_algorithm\":") {
        match extract_json_string_field(line, "config_hash_algorithm") {
            Ok(v) => {
                st.algorithm = Some(v);
            },
            Err(e) => {
                return Err(e);
            },
        }
    } else if starts_with(line, "\"config_size_bytes\":") {
        match extract_json_usize_field(line, "config_size_bytes") {
            Ok(v) => {
                st.size = Some(v);
            },
            Err(e) => {
                return Err(e);
            },
        }
    } else if starts_with(line, "\"config_hash\":") {
        match extract_json_string_field(line, "config_hash") {
            Ok(hash) => {
                return take_entry(st, hash);
            },
            Err(e) => {
                return Err(e);
            },
        }
    }
    Ok(())
}

/// The entries a manifest records.
pub fn parse_manifest_artifact_entries(contents: &str) -> (r: Result<Vec<ManifestArtifactEntry>, String>)
    ensures
        match r {
            Ok(es) => spec_parse_manifest_entries(contents@) == Ok::<Seq<EntryView>, Seq<char>>(
                views_of(es@),
            ),
            Err(e) => spec_parse_manifest_entries(contents@) == Err::<Seq<EntryView>, Seq<char>>(e@),
        },
{
    let lines = lines_of(contents);
    let ghost ls = lines@.map_values(|x: String| x@);
    let mut st = ScanState {
        name: None,
        backend: None,
        workspace_path: None,
        devenv_nix: None,
        algorithm: None,
        size: None,
        entries: Vec::new(),
    };
    assert(st.view() == empty_scan()) by {
        assert(views_of(st.entries@) =~= Seq::<EntryView>::empty());
    }
    let mut i: usize = 0;
    assert(ls.take(0) =~= Seq::<Seq<char>>::empty());
    while i < lines.len()
        invariant
            i <= lines.len(),
            ls == lines@.map_values(|x: String| x@),
            ls == spec_lines(contents@),
            manifest_lines(ls.take(i as int)) == Ok::<ManifestScan, Seq<char>>(st.view()),
        decreases lines.len() - i,
    {
        assert(ls.take(i + 1).drop_last() =~= ls.take(i as int));
        assert(ls.take(i + 1).last() == lines@[i as int]@);
        let line = trim_str(lines[i].as_str());
        match scan_line(&mut st, line.as_str()) {
            Ok(()) => {},
            Err(e) => {
                proof {
                    lemma_manifest_err_sticky(ls, i as int + 1, e@);
                }
                return Err(e);
            },
        }
        i += 1;
    }
    assert(ls.take(lines.len() as int) =~= ls);
    if st.name.is_some() {
        return Err(cat3("workspace manifest has ", "workspace name", " without config_hash"));
    }
    if st.backend.is_some() {
        return Err(cat3("workspace manifest has ", "workspace backend", " without config_hash"));
    }
    if st.workspace_path.is_some() {
        return Err(cat3("workspace manifest has ", "workspace_path", " without config_hash"));
    }
    if st.devenv_nix.is_some() {
        return Err(cat3("workspace manifest has ", "devenv_nix", " without config_hash"));
    }
    if st.algorithm.is_some() {
        return Err(cat3("workspace manifest has ", "config_hash_algorithm", " without config_hash"));
    }
    if st.size.is_some() {
        return Err(cat3("workspace manifest has ", "config_size_bytes", " without config_hash"));
    }
    Ok(st.entries)
}

proof fn lemma_manifest_err_sticky(ls: Seq<Seq<char>>, n: int, e: Seq<char>)
    requires
        0 < n <= ls.len(),
        manifest_lines(ls.take(n)) == Err::<ManifestScan, Seq<char>>(e),
    ensures
        manifest_lines(ls) == Err::<ManifestScan, Seq<char>>(e),
    decreases ls.len() - n,
{
    if n < ls.len() {
        assert(ls.take(n + 1).drop_last() =~= ls.take(n));
        lemma_manifest_err_sticky(ls, n + 1, e);
    } else {
        assert(ls.take(n) =~= ls);
    }
}


// --- manifest validation ---------------------------------------------------------------

/// The first line that, trimmed, starts with `p`; trimmed.
pub open spec fn first_trimmed(ls: Seq<Seq<char>>, p: Seq<char>) -> Option<Seq<char>>
    decreases ls.len(),
{
    if ls.len() == 0 {
        None
    } else if seq_starts_with(trim(ls[0]), p) {
        Some(trim(ls[0]))
    } else {
        first_trimmed(ls.drop_first(), p)
    }
}

fn find_trimmed(lines: &Vec<String>, p: &str) -> (r: Option<String>)
    ensures
        crate::config::types::opt_view(r) == first_trimmed(lines@.map_values(|x: String| x@), p@),
{
    let ghost ls = lines@.map_values(|x: String| x@);
    let mut i: usize = 0;
    assert(ls.skip(0) =~= ls);
    while i < lines.len()
        invariant
            i <= lines.len(),
            ls == lines@.map_values(|x: String| x@),
            first_trimmed(ls, p@) == first_trimmed(ls.skip(i as int), p@),
        decreases lines.len() - i,
    {
        assert(ls.skip(i as int)[0] == lines@[i as int]@);
        let t = trim_str(lines[i].as_str());
        if starts_with(t.as_str(), p) {
            return Some(t);
        }
        assert(ls.skip(i as int).drop_first() =~= ls.skip(i + 1));
        i += 1;
    }
    None
}

fn validate_manifest_schema_version(lines: &Vec<String>) -> (r: Result<(), String>)
    ensures
        match r {
            Ok(()) => spec_check_schema_version_lines(lines@.map_values(|x: String| x@)) == Ok::<
                (),
                Seq<char>,
            >(()),
            Err(e) => spec_check_schema_version_lines(lines@.map_values(|x: String| x@)) == Err::<
                (),
                Seq<char>,
            >(e@),
        },
{
    proof {
        reveal_strlit("\"");
        reveal_strlit("\":");
        reveal_strlit("schema_version");
        reveal_strlit("\"schema_version\":");
        assert("\"schema_version\":"@ =~= key_prefix("schema_version"@));
    }
    match find_trimmed(lines, "\"schema_version\":") {
        None => Err(string_from("workspace manifest missing schema_version")),
        Some(line) => match extract_json_string_field(line.as_str(), "schema_version") {
            Err(e) => Err(e),
            Ok(v) => if str_eq(v.as_str(), WORKSPACE_STATE_SCHEMA_VERSION) {
                Ok(())
            } else {
                let mut e = cat3("workspace manifest schema_version `", v.as_str(), "` is unsupported; expected `");
                push_str(&mut e, WORKSPACE_STATE_SCHEMA_VERSION);
                push_str(&mut e, "`");
                proof {
                    reveal_strlit("basalt-workspace-state-v0");
                    reveal_strlit("` is unsupported; expected `");
                    reveal_strlit("`");
                    reveal_strlit("` is unsupported; expected `basalt-workspace-state-v0`");
                }
                assert(e@ =~= "workspace manifest schema_version `"@ + v@
                    + "` is unsupported; expected `basalt-workspace-state-v0`"@);
                Err(e)
            },
        },
    }
}

pub open spec fn spec_check_schema_version_lines(ls: Seq<Seq<char>>) -> Result<(), Seq<char>> {
    match first_trimmed(ls, key_prefix("schema_version"@)) {
        None => Err("workspace manifest missing schema_version"@),
        Some(l) => match spec_string_field(l, "schema_version"@) {
            Err(e) => Err(e),
            Ok(v) => if v == "basalt-workspace-state-v0"@ {
                Ok(())
            } else {
                Err(
                    "workspace manifest schema_version `"@ + v
                        + "` is unsupported; expected `basalt-workspace-state-v0`"@,
                )
            },
        },
    }
}

pub open spec fn spec_check_count_lines(ls: Seq<Seq<char>>, count: nat) -> Result<(), Seq<char>> {
    match first_trimmed(ls, key_prefix("workspace_count"@)) {
        None => Err("workspace manifest missing workspace_count"@),
        Some(l) => match spec_usize_field(l, "workspace_count"@) {
            Err(e) => Err(e),
            Ok(n) => if n == count {
                Ok(())
            } else {
                Err(
                    "workspace manifest workspace_count `"@ + decimal(n)
                        + "` does not match parsed workspace entries `"@ + decimal(count) + "`"@,
                )
            },
        },
    }
}

fn validate_manifest_workspace_count(lines: &Vec<String>, count: usize) -> (r: Result<(), String>)
    ensures
        match r {
            Ok(()) => spec_check_count_lines(lines@.map_values(|x: String| x@), count as nat)
                == Ok::<(), Seq<char>>(()),
            Err(e) => spec_check_count_lines(lines@.map_values(|x: String| x@), count as nat)
                == Err::<(), Seq<char>>(e@),
        },
{
    proof {
        reveal_strlit("\"");
        reveal_strlit("\":");
        reveal_strlit("workspace_count");
        reveal_strlit("\"workspace_count\":");
        assert("\"workspace_count\":"@ =~= key_prefix("workspace_count"@));
    }
    match find_trimmed(lines, "\"workspace_count\":") {
        None => Err(string_from("workspace manifest missing workspace_count")),
        Some(line) => match extract_json_usize_field(line.as_str(), "workspace_count") {
            Err(e) => Err(e),
            Ok(n) => if n == count {
                Ok(())
            } else {
                let mut e = string_from("workspace manifest workspace_count `");
                push_decimal(&mut e, n as u128);
                push_str(&mut e, "` does not match parsed workspace entries `");
                push_decimal(&mut e, count as u128);
                push_str(&mut e, "`");
                Err(e)
            },
        },
    }
}

/// 16 lowercase hexadecimal digits.
pub open spec fn valid_config_hash(h: Seq<char>) -> bool {
    h.len() == 16 && forall|i: int| 0 <= i < h.len() ==> ('0' <= #[trigger] h[i] <= '9' || 'a' <= h[i]
        <= 'f')
}

/// The last path component of the pieces of a path between `/`s, empty pieces and `.`
/// skipped.
pub open spec fn last_component(segs: Seq<Seq<char>>) -> Option<Seq<char>>
    decreases segs.len(),
{
    if segs.len() == 0 {
        None
    } else if segs.last().len() == 0 || segs.last() == "."@ {
        last_component(segs.drop_last())
    } else {
        Some(segs.last())
    }
}

/// An artifact path (a leading `./` aside) whose file name is `devenv.nix`.
pub open spec fn names_devenv_file(d: Seq<char>) -> bool {
    let relative = if seq_starts_with(d, "./"@) {
        d.skip(2)
    } else {
        d
    };
    last_component(split_on(relative, '/')) == Some("devenv.nix"@)
}

/// The first entry, from position `i` on, whose name or artifact path (as `paths` says)
/// repeats an earlier one.
pub open spec fn first_repeat(xs: Seq<Seq<char>>, i: nat) -> Option<Seq<char>>
    decreases xs.len() - i,
{
    if i >= xs.len() {
        None
    } else if xs.take(i as int).contains(xs[i as int]) {
        Some(xs[i as int])
    } else {
        first_repeat(xs, i + 1)
    }
}

/// The first entry, from position `i` on, that fails check `k` of the entry checks.
pub open spec fn first_failing(es: Seq<EntryView>, k: nat, i: nat) -> Option<EntryView>
    decreases es.len() - i,
{
    if i >= es.len() {
        None
    } else if entry_fails(es[i as int], k) {
        Some(es[i as int])
    } else {
        first_failing(es, k, i + 1)
    }
}

/// The per-entry checks, in the order they run: a non-blank name (0), a `devenv.nix`
/// artifact (1), the devenv backend (2), a non-blank workspace path (3), the FNV-1a
/// algorithm (4), and a well-formed hash (5).
pub open spec fn entry_fails(e: EntryView, k: nat) -> bool {
    if k == 0 {
        all_ws(e.name)
    } else if k == 1 {
        !names_devenv_file(e.devenv_nix)
    } else if k == 2 {
        e.backend != "devenv"@
    } else if k == 3 {
        all_ws(e.workspace_path)
    } else if k == 4 {
        e.config_hash_algorithm != "fnv1a64"@
    } else {
        !valid_config_hash(e.config_hash)
    }
}

pub open spec fn entry_failure_msg(e: EntryView, k: nat) -> Seq<char> {
    if k == 0 {
        "workspace manifest contains empty workspace name"@
    } else if k == 1 {
        "workspace manifest entry `"@ + e.name + "` has invalid devenv_nix `"@ + e.devenv_nix
            + "`; expected a devenv.nix artifact"@
    } else if k == 2 {
        "workspace manifest entry `"@ + e.name + "` has unsupported backend `"@ + e.backend
            + "`; expected `devenv`"@
    } else if k == 3 {
        "workspace manifest entry `"@ + e.name + "` has empty workspace_path"@
    } else if k == 4 {
        "workspace manifest entry `"@ + e.name + "` has unsupported config hash algorithm `"@
            + e.config_hash_algorithm + "`; expected `fnv1a64`"@
    } else {
        "workspace manifest entry `"@ + e.name + "` has invalid config_hash `"@ + e.config_hash
            + "`; expected 16 lowercase hex characters"@
    }
}

pub open spec fn names_of(es: Seq<EntryView>) -> Seq<Seq<char>> {
    es.map_values(|e: EntryView| e.name)
}

pub open spec fn paths_of(es: Seq<EntryView>) -> Seq<Seq<char>> {
    es.map_values(|e: EntryView| e.devenv_nix)
}

/// A manifest's entries when every check passes, else the first failure: the schema
/// version, the entries themselves, their count, non-blank and unique names, unique
/// artifact paths, then the per-entry checks.
pub open spec fn spec_check_manifest_contents(contents: Seq<char>) -> Result<Seq<EntryView>, Seq<char>> {
    let ls = spec_lines(contents);
    match spec_check_schema_version_lines(ls) {
        Err(e) => Err(e),
        Ok(()) => match spec_parse_manifest_entries(contents) {
            Err(e) => Err(e),
            Ok(es) => match spec_check_count_lines(ls, es.len()) {
                Err(e) => Err(e),
                Ok(()) => if first_failing(es, 0, 0) is Some {
                    Err(entry_failure_msg(first_failing(es, 0, 0)->0, 0))
                } else if first_repeat(names_of(es), 0) is Some {
                    Err(
                        "workspace manifest contains duplicate workspace name `"@ + first_repeat(
                            names_of(es),
                            0,
                        )->0 + "`"@,
                    )
                } else if first_repeat(paths_of(es), 0) is Some {
                    Err(
                        "workspace manifest contains duplicate artifact path `"@ + first_repeat(
                            paths_of(es),
                            0,
                        )->0 + "`"@,
                    )
                } else if first_failing(es, 1, 0) is Some {
                    Err(entry_failure_msg(first_failing(es, 1, 0)->0, 1))
                } else if first_failing(es, 2, 0) is Some {
                    Err(entry_failure_msg(first_failing(es, 2, 0)->0, 2))
                } else if first_failing(es, 3, 0) is Some {
                    Err(entry_failure_msg(first_failing(es, 3, 0)->0, 3))
                } else if first_failing(es, 4, 0) is Some {
                    Err(entry_failure_msg(first_failing(es, 4, 0)->0, 4))
                } else if first_failing(es, 5, 0) is Some {
                    Err(entry_failure_msg(first_failing(es, 5, 0)->0, 5))
                } else {
                    Ok(es)
                },
            },
        },
    }
}


fn is_valid_config_hash(h: &str) -> (b: bool)
    ensures
        b == valid_config_hash(h@),
{
    let v = chars_of(h);
    if v.len() != 16 {
        return false;
    }
    let mut i: usize = 0;
    while i < v.len()
        invariant
            i <= v.len(),
            v@ == h@,
            forall|j: int| 0 <= j < i ==> ('0' <= #[trigger] v@[j] <= '9' || 'a' <= v@[j] <= 'f'),
        decreases v.len() - i,
    {
        let c = v[i];
        if !(('0' <= c && c <= '9') || ('a' <= c && c <= 'f')) {
            return false;
        }
        i += 1;
    }
    true
}

fn last_component_exec(segs: &Vec<String>) -> (r: Option<String>)
    ensures
        crate::config::types::opt_view(r) == last_component(segs@.map_values(|x: String| x@)),
{
    let ghost sv = segs@.map_values(|x: String| x@);
    let mut n: usize = segs.len();
    assert(sv.take(n as int) =~= sv);
    while n > 0
        invariant
            n <= segs.len(),
            sv == segs@.map_values(|x: String| x@),
            last_component(sv) == last_component(sv.take(n as int)),
        decreases n,
    {
        let seg = segs[n - 1].as_str();
        assert(sv.take(n as int).last() == seg@);
        assert(sv.take(n as int).drop_last() =~= sv.take(n - 1));
        if !(seg.is_empty() || str_eq(seg, ".")) {
            return Some(string_from(seg));
        }
        n -= 1;
    }
    None
}

fn is_devenv_artifact(d: &str) -> (b: bool)
    ensures
        b == names_devenv_file(d@),
{
    proof {
        reveal_strlit("./");
    }
    let relative = match strip_prefix(d, "./") {
        Some(r) => r,
        None => string_from(d),
    };
    let segs = split_str(relative.as_str(), '/');
    match last_component_exec(&segs) {
        Some(name) => str_eq(name.as_str(), "devenv.nix"),
        None => false,
    }
}

fn entry_fails_exec(e: &ManifestArtifactEntry, k: usize) -> (b: bool)
    ensures
        b == entry_fails(e@, k as nat),
{
    if k == 0 {
        is_blank(e.name.as_str())
    } else if k == 1 {
        !is_devenv_artifact(e.devenv_nix.as_str())
    } else if k == 2 {
        !str_eq(e.backend.as_str(), WORKSPACE_BACKEND_DEVENV)
    } else if k == 3 {
        is_blank(e.workspace_path.as_str())
    } else if k == 4 {
        !str_eq(e.config_hash_algorithm.as_str(), WORKSPACE_ARTIFACT_HASH_ALGORITHM)
    } else {
        !is_valid_config_hash(e.config_hash.as_str())
    }
}

fn entry_failure_message(e: &ManifestArtifactEntry, k: usize) -> (m: String)
    ensures
        m@ == entry_failure_msg(e@, k as nat),
{
    let name = e.name.as_str();
    if k == 0 {
        string_from("workspace manifest contains empty workspace name")
    } else if k == 1 {
        let mut m = cat3("workspace manifest entry `", name, "` has invalid devenv_nix `");
        push_str(&mut m, e.devenv_nix.as_str());
        push_str(&mut m, "`; expected a devenv.nix artifact");
        m
    } else if k == 2 {
        let mut m = cat3("workspace manifest entry `", name, "` has unsupported backend `");
        push_str(&mut m, e.backend.as_str());
        push_str(&mut m, "`; expected `devenv`");
        m
    } else if k == 3 {
        cat3("workspace manifest entry `", name, "` has empty workspace_path")
    } else if k == 4 {
        let mut m = cat3(
            "workspace manifest entry `",
            name,
            "` has unsupported config hash algorithm `",
        );
        push_str(&mut m, e.config_hash_algorithm.as_str());
        push_str(&mut m, "`; expected `fnv1a64`");
        m
    } else {
        let mut m = cat3("workspace manifest entry `", name, "` has invalid config_hash `");
        push_str(&mut m, e.config_hash.as_str());
        push_str(&mut m, "`; expected 16 lowercase hex characters");
        m
    }
}

fn first_failing_exec(entries: &Vec<ManifestArtifactEntry>, k: usize) -> (r: Option<usize>)
    ensures
        match first_failing(views_of(entries@), k as nat, 0) {
            Some(e) => r matches Some(i) && i < entries@.len() && entries@[i as int]@ == e,
            None => r is None,
        },
{
    let ghost es = views_of(entries@);
    let mut i: usize = 0;
    while i < entries.len()
        invariant
            i <= entries.len(),
            es == views_of(entries@),
            first_failing(es, k as nat, 0) == first_failing(es, k as nat, i as nat),
        decreases entries.len() - i,
    {
        assert(es[i as int] == entries@[i as int]@);
        if entry_fails_exec(&entries[i], k) {
            return Some(i);
        }
        i += 1;
    }
    None
}

fn first_repeat_exec(xs: &Vec<String>) -> (r: Option<String>)
    ensures
        crate::config::types::opt_view(r) == first_repeat(strings_view(xs@), 0),
{
    let ghost sv = strings_view(xs@);
    let mut seen: Vec<String> = Vec::new();
    let mut i: usize = 0;
    while i < xs.len()
        invariant
            i <= xs.len(),
            sv == strings_view(xs@),
            strings_view(seen@) == sv.take(i as int),
            first_repeat(sv, 0) == first_repeat(sv, i as nat),
        decreases xs.len() - i,
    {
        let x = xs[i].as_str();
        assert(sv[i as int] == x@);
        if crate::config::validate::contains_string_pub(&seen, x) {
            return Some(string_from(x));
        }
        let ghost s0 = seen@;
        seen.push(string_from(x));
        assert(strings_view(seen@) =~= strings_view(s0).push(x@));
        assert(sv.take(i + 1) =~= sv.take(i as int).push(sv[i as int]));
        i += 1;
    }
    None
}

/// A manifest's entries when every check passes, else the first failure.
pub fn check_manifest_contents(contents: &str) -> (r: Result<Vec<ManifestArtifactEntry>, String>)
    ensures
        match r {
            Ok(es) => spec_check_manifest_contents(contents@) == Ok::<Seq<EntryView>, Seq<char>>(
                views_of(es@),
            ),
            Err(e) => spec_check_manifest_contents(contents@) == Err::<Seq<EntryView>, Seq<char>>(e@),
        },
{
    let lines = lines_of(contents);
    match validate_manifest_schema_version(&lines) {
        Err(e) => {
            return Err(e);
        },
        Ok(()) => {},
    }
    let entries = match parse_manifest_artifact_entries(contents) {
        Err(e) => {
            return Err(e);
        },
        Ok(es) => es,
    };
    let ghost es = views_of(entries@);
    match validate_manifest_workspace_count(&lines, entries.len()) {
        Err(e) => {
            return Err(e);
        },
        Ok(()) => {},
    }
    if let Some(i) = first_failing_exec(&entries, 0) {
        return Err(entry_failure_message(&entries[i], 0));
    }
    let mut names: Vec<String> = Vec::new();
    let mut paths: Vec<String> = Vec::new();
    let mut j: usize = 0;
    while j < entries.len()
        invariant
            j <= entries.len(),
            es == views_of(entries@),
            strings_view(names@) == names_of(es).take(j as int),
            strings_view(paths@) == paths_of(es).take(j as int),
        decreases entries.len() - j,
    {
        let ghost n0 = names@;
        let ghost p0 = paths@;
        let name = entries[j].name.clone();
        let path = entries[j].devenv_nix.clone();
        assert(es[j as int] == entries@[j as int]@);
        assert(name@ == es[j as int].name);
        assert(path@ == es[j as int].devenv_nix);
        names.push(name);
        paths.push(path);
        assert(strings_view(names@) =~= strings_view(n0).push(es[j as int].name));
        assert(strings_view(paths@) =~= strings_view(p0).push(es[j as int].devenv_nix));
        assert(names_of(es).take(j + 1) =~= names_of(es).take(j as int).push(es[j as int].name));
        assert(paths_of(es).take(j + 1) =~= paths_of(es).take(j as int).push(
            es[j as int].devenv_nix,
        ));
        j += 1;
    }
    assert(names_of(es).take(entries.len() as int) =~= names_of(es));
    assert(paths_of(es).take(entries.len() as int) =~= paths_of(es));
    if let Some(name) = first_repeat_exec(&names) {
        return Err(cat3("workspace manifest contains duplicate workspace name `", name.as_str(), "`"));
    }
    if let Some(path) = first_repeat_exec(&paths) {
        return Err(cat3("workspace manifest contains duplicate artifact path `", path.as_str(), "`"));
    }
    let ghost ls = lines@.map_values(|x: String| x@);
    let mut k: usize = 1;
    while k <= 5
        invariant
            1 <= k <= 6,
            es == views_of(entries@),
            ls == spec_lines(contents@),
            spec_check_schema_version_lines(ls) == Ok::<(), Seq<char>>(()),
            spec_parse_manifest_entries(contents@) == Ok::<Seq<EntryView>, Seq<char>>(es),
            spec_check_count_lines(ls, es.len()) == Ok::<(), Seq<char>>(()),
            first_failing(es, 0, 0) is None,
            first_repeat(names_of(es), 0) is None,
            first_repeat(paths_of(es), 0) is None,
            forall|m: nat| 1 <= m < k ==> #[trigger] first_failing(es, m, 0) is None,
        decreases 6 - k,
    {
        if let Some(i) = first_failing_exec(&entries, k) {
            assert(k == 1 || k == 2 || k == 3 || k == 4 || k == 5);
            assert(first_failing(es, 1, 0) is None || k == 1);
            return Err(entry_failure_message(&entries[i], k));
        }
        k += 1;
    }
    assert(first_failing(es, 1, 0) is None);
    assert(first_failing(es, 2, 0) is None);
    assert(first_failing(es, 3, 0) is None);
    assert(first_failing(es, 4, 0) is None);
    assert(first_failing(es, 5, 0) is None);
    Ok(entries)
}

/// The path below the manifest's directory that an artifact path names.
pub open spec fn spec_manifest_relative(value: Seq<char>) -> Result<Seq<char>, Seq<char>> {
    if value.len() > 0 && value[0] == '/' {
        Err("workspace manifest artifact path `"@ + value + "` must be relative"@)
    } else {
        let r = if seq_starts_with(value, "./"@) {
            value.skip(2)
        } else {
            value
        };
        let segs = split_on(r, '/');
        if (r.len() > 0 && r[0] == '/') || segs[0] == "."@ || segs.contains(".."@) {
            Err(
                "workspace manifest artifact path `"@ + value
                    + "` must stay inside the manifest directory"@,
            )
        } else {
            Ok(r)
        }
    }
}

/// The relative path of an artifact below the manifest's directory: refused when
/// absolute or when it could leave that directory.
pub fn manifest_artifact_relative(value: &str) -> (r: Result<String, String>)
    ensures
        match r {
            Ok(p) => spec_manifest_relative(value@) == Ok::<Seq<char>, Seq<char>>(p@),
            Err(e) => spec_manifest_relative(value@) == Err::<Seq<char>, Seq<char>>(e@),
        },
{
    if crate::text::starts_with_char(value, '/') {
        return Err(cat3("workspace manifest artifact path `", value, "` must be relative"));
    }
    let relative = match strip_prefix(value, "./") {
        Some(r) => r,
        None => string_from(value),
    };
    let segs = split_str(relative.as_str(), '/');
    let ghost sv = segs@.map_values(|x: String| x@);
    proof {
        reveal_strlit("./");
        assert(split_on(relative@, '/').len() > 0);
        assert(segs@.len() == sv.len());
    }
    let mut bad = crate::text::starts_with_char(relative.as_str(), '/') || str_eq(segs[0].as_str(), ".");
    let mut i: usize = 0;
    while i < segs.len()
        invariant
            i <= segs.len(),
            sv == segs@.map_values(|x: String| x@),
            sv.len() > 0,
            bad == (((relative@.len() > 0 && relative@[0] == '/') || sv[0] == "."@) || exists|j: int|
                0 <= j < i && #[trigger] sv[j] == ".."@),
        decreases segs.len() - i,
    {
        assert(sv[i as int] == segs@[i as int]@);
        if str_eq(segs[i].as_str(), "..") {
            bad = true;
        }
        i += 1;
    }
    if bad {
        return Err(cat3(
            "workspace manifest artifact path `",
            value,
            "` must stay inside the manifest directory",
        ));
    }
    Ok(relative)
}

/// What checking one artifact against its manifest entry finds, given the artifact's
/// path as shown and what reading it gave; `None` when it matches.
pub open spec fn spec_artifact_failure(
    display: Seq<char>,
    e: EntryView,
    contents: Result<Seq<char>, Seq<char>>,
) -> Option<Seq<char>> {
    match contents {
        Err(err) => Some(display + ": "@ + err),
        Ok(text) => {
            let size = (vstd::utf8::encode_utf8(text).len() as usize) as nat;
            let hash = hex_digits(fnv1a64(vstd::utf8::encode_utf8(text)) as nat, 16);
            if size != e.config_size_bytes {
                Some(
                    display + ": config size mismatch, expected "@ + decimal(e.config_size_bytes)
                        + ", observed "@ + decimal(size),
                )
            } else if hash != e.config_hash {
                Some(
                    display + ": config hash mismatch, expected "@ + e.config_hash
                        + ", observed "@ + hash,
                )
            } else {
                None
            }
        },
    }
}

pub fn artifact_failure(display: &str, entry: &ManifestArtifactEntry, contents: &Result<String, String>) -> (r:
    Option<String>)
    ensures
        crate::config::types::opt_view(r) == spec_artifact_failure(
            display@,
            entry@,
            match contents {
                Ok(t) => Ok::<Seq<char>, Seq<char>>(t@),
                Err(e) => Err::<Seq<char>, Seq<char>>(e@),
            },
        ),
{
    match contents {
        Err(err) => Some(cat3(display, ": ", err.as_str())),
        Ok(text) => {
            let observed_size = text.as_str().len();
            if observed_size != entry.config_size_bytes {
                let mut m = cat2(display, ": config size mismatch, expected ");
                push_decimal(&mut m, entry.config_size_bytes as u128);
                push_str(&mut m, ", observed ");
                push_decimal(&mut m, observed_size as u128);
                return Some(m);
            }
            let observed_hash = stable_hash_hex(text.as_str());
            if !str_eq(observed_hash.as_str(), entry.config_hash.as_str()) {
                let mut m = cat2(display, ": config hash mismatch, expected ");
                push_str(&mut m, entry.config_hash.as_str());
                push_str(&mut m, ", observed ");
                push_str(&mut m, observed_hash.as_str());
                return Some(m);
            }
            None
        },
    }
}

/// The check's summary: how many entries were checked, their names, and the failures.
pub fn manifest_check_summary(entries: &Vec<ManifestArtifactEntry>, failures: Vec<String>) -> (c:
    WorkspaceManifestCheck)
    ensures
        c.checked_artifacts == entries@.len(),
        strings_view(c.checked_workspaces@) == names_of(views_of(entries@)),
        c.failures@ == failures@,
{
    let mut names: Vec<String> = Vec::new();
    let mut i: usize = 0;
    while i < entries.len()
        invariant
            i <= entries.len(),
            strings_view(names@) == names_of(views_of(entries@)).take(i as int),
        decreases entries.len() - i,
    {
        let ghost n0 = names@;
        let ghost es = views_of(entries@);
        let name = entries[i].name.clone();
        assert(es[i as int] == entries@[i as int]@);
        names.push(name);
        assert(strings_view(names@) =~= strings_view(n0).push(es[i as int].name));
        assert(names_of(es).take(i + 1) =~= names_of(es).take(i as int).push(es[i as int].name));
        i += 1;
    }
    assert(names_of(views_of(entries@)).take(entries.len() as int) =~= names_of(views_of(entries@)));
    WorkspaceManifestCheck { checked_artifacts: entries.len(), checked_workspaces: names, failures }
}

proof fn lemma_hex_digits_valid(n: nat, width: nat)
    ensures
        hex_digits(n, width).len() == width,
        forall|i: int|
            0 <= i < width ==> ('0' <= #[trigger] hex_digits(n, width)[i] <= '9' || 'a' <= hex_digits(n, width)[i]
                <= 'f'),
    decreases width,
{
    if width > 0 {
        lemma_hex_digits_valid(n / 16, (width - 1) as nat);
    }
}

/// Every configuration hash the generator writes is one the manifest check accepts:
/// sixteen lowercase hexadecimal digits.
pub proof fn law_stable_hash_is_valid_config_hash(bytes: Seq<u8>)
    ensures
        valid_config_hash(hex_digits(fnv1a64(bytes) as nat, 16)),
{
    lemma_hex_digits_valid(fnv1a64(bytes) as nat, 16);
}

proof fn lemma_json_chars_cons(c: char, s: Seq<char>)
    ensures
        json_chars(seq![c] + s) == json_char(c) + json_chars(s),
    decreases s.len(),
{
    if s.len() == 0 {
        assert(seq![c] + s =~= seq![c]);
        assert(seq![c].drop_last() =~= Seq::<char>::empty());
        assert(json_chars(seq![c]) == json_chars(Seq::<char>::empty()) + json_char(c));
        assert(Seq::<char>::empty() + json_char(c) =~= json_char(c));
        assert(json_char(c) + json_chars(s) =~= json_char(c));
    } else {
        lemma_json_chars_cons(c, s.drop_last());
        assert((seq![c] + s).drop_last() =~= seq![c] + s.drop_last());
        assert((seq![c] + s).last() == s.last());
        assert(json_chars(seq![c] + s) == json_chars((seq![c] + s).drop_last()) + json_char((seq![c] + s).last()));
        assert(json_char(c) + json_chars(s.drop_last()) + json_char(s.last()) =~= json_char(c) + (json_chars(
            s.drop_last(),
        ) + json_char(s.last())));
    }
}

/// Characters that JSON string literals here carry unescaped or with a short escape.
pub open spec fn json_plain(c: char) -> bool {
    c == '\n' || c == '\r' || c == '\t' || !is_control(c)
}

proof fn lemma_json_unescape_chars(s: Seq<char>)
    requires
        forall|i: int| 0 <= i < s.len() ==> json_plain(#[trigger] s[i]),
    ensures
        json_unescape(json_chars(s)) == Some(s),
    decreases s.len(),
{
    if s.len() == 0 {
    } else {
        let c = s[0];
        let rest = s.drop_first();
        assert(s =~= seq![c] + rest);
        assert forall|i: int| 0 <= i < rest.len() implies json_plain(#[trigger] rest[i]) by {
            assert(rest[i] == s[i + 1]);
        }
        lemma_json_unescape_chars(rest);
        lemma_json_chars_cons(c, rest);
        let j = json_char(c);
        let t = json_chars(rest);
        reveal_strlit("\\\\");
        reveal_strlit("\\\"");
        reveal_strlit("\\n");
        reveal_strlit("\\r");
        reveal_strlit("\\t");
        assert(json_plain(c));
        if c == '\\' || c == '"' || c == '\n' || c == '\r' || c == '\t' {
            assert(j.len() == 2 && j[0] == '\\');
            assert((j + t).skip(2) =~= t);
            assert((j + t)[0] == '\\');
            assert((j + t)[1] == j[1]);
        } else {
            assert(j =~= seq![c]);
            assert((j + t).drop_first() =~= t);
            assert((j + t)[0] == c);
        }
        assert(seq![c] + rest =~= s);
    }
}

/// A string written as a JSON string literal reads back as itself, when it holds no
/// control character other than line feed, carriage return and tab.
pub proof fn law_json_string_roundtrip(s: Seq<char>)
    requires
        forall|i: int| 0 <= i < s.len() ==> json_plain(#[trigger] s[i]),
    ensures
        spec_parse_json_string(spec_json_string(s)) == Some(s),
{
    reveal_strlit("\"");
    let v = spec_json_string(s);
    assert(v.subrange(1, v.len() - 1) =~= json_chars(s));
    lemma_json_unescape_chars(s);
}

proof fn lemma_enable_line_in(kind: Seq<char>, es: Seq<(Seq<char>, bool)>, k: int)
    requires
        0 <= k < es.len(),
    ensures
        crate::text::has_infix(
            enable_lines(kind, es),
            "  "@ + kind + "."@ + es[k].0 + ".enable = "@ + (if es[k].1 {
                "true"@
            } else {
                "false"@
            }) + ";\n"@,
        ),
    decreases es.len(),
{
    let line = "  "@ + kind + "."@ + es[k].0 + ".enable = "@ + (if es[k].1 {
        "true"@
    } else {
        "false"@
    }) + ";\n"@;
    let head = enable_lines(kind, es.drop_last());
    if k == es.len() - 1 {
        assert(es.last() == es[k]);
        assert(enable_lines(kind, es) =~= head + line);
        crate::text::lemma_infix_self(line);
        crate::text::lemma_infix_extend(head, line, Seq::<char>::empty(), line);
    } else {
        assert(es.drop_last()[k] == es[k]);
        lemma_enable_line_in(kind, es.drop_last(), k);
        let tail = "  "@ + kind + "."@ + es.last().0 + ".enable = "@ + bool_text(es.last().1) + ";\n"@;
        assert(enable_lines(kind, es) =~= head + tail);
        crate::text::lemma_infix_extend(Seq::<char>::empty(), head, tail, line);
    }
}

spec fn devenv_pre(w: crate::config::types::WorkspaceView) -> Seq<char> {
    "{ pkgs, ... }:\n"@ + "{\n"@ + (if w.packages.len() > 0 {
        "  packages = [\n"@ + package_lines(w.packages) + "  ];\n\n"@
    } else {
        Seq::<char>::empty()
    })
}

spec fn devenv_post(w: crate::config::types::WorkspaceView) -> Seq<char> {
    blank_if(w.services.len() > 0) + task_lines(w.tasks) + "}\n"@
}

proof fn lemma_assoc_parts(
    pre: Seq<char>,
    l: Seq<char>,
    m: Seq<char>,
    sv: Seq<char>,
    n: Seq<char>,
    t: Seq<char>,
    e: Seq<char>,
)
    ensures
        pre + l + m + sv + n + t + e == pre + l + (m + sv + (n + t + e)),
        pre + l + m + sv + n + t + e == (pre + l + m) + sv + (n + t + e),
{
    assert(pre + l + m + sv + n + t + e =~= pre + l + (m + sv + (n + t + e)));
    assert(pre + l + m + sv + n + t + e =~= (pre + l + m) + sv + (n + t + e));
}

proof fn lemma_devenv_parts(w: crate::config::types::WorkspaceView)
    ensures
        spec_render_devenv_nix(w) == devenv_pre(w) + enable_lines("languages"@, w.languages) + (blank_if(
            w.languages.len() > 0,
        ) + enable_lines("services"@, w.services) + devenv_post(w)),
        spec_render_devenv_nix(w) == (devenv_pre(w) + enable_lines("languages"@, w.languages) + blank_if(
            w.languages.len() > 0,
        )) + enable_lines("services"@, w.services) + devenv_post(w),
{
    lemma_assoc_parts(
        devenv_pre(w),
        enable_lines("languages"@, w.languages),
        blank_if(w.languages.len() > 0),
        enable_lines("services"@, w.services),
        blank_if(w.services.len() > 0),
        task_lines(w.tasks),
        "}\n"@,
    );
}

/// The line `  <kind>.<name>.enable = <true|false>;` for entry `e`.
pub open spec fn enable_line(kind_dot: Seq<char>, e: (Seq<char>, bool)) -> Seq<char> {
    "  "@ + kind_dot + e.0 + ".enable = "@ + (if e.1 {
        "true"@
    } else {
        "false"@
    }) + ";\n"@
}

proof fn lemma_line_shape(kind: Seq<char>, e: (Seq<char>, bool))
    ensures
        "  "@ + kind + "."@ + e.0 + ".enable = "@ + (if e.1 {
            "true"@
        } else {
            "false"@
        }) + ";\n"@ == enable_line(kind + "."@, e),
{
    assert("  "@ + kind + "."@ + e.0 + ".enable = "@ + (if e.1 {
        "true"@
    } else {
        "false"@
    }) + ";\n"@ =~= enable_line(kind + "."@, e));
}

/// In a workspace's `devenv.nix`, every language and every service of the workspace has
/// its `enable` line, `  languages.<name>.enable = ` or `  services.<name>.enable = `,
/// ending in `true;` exactly when the workspace switches it on and in `false;` when it
/// switches it off.
pub proof fn law_devenv_enable_lines(w: crate::config::types::WorkspaceView)
    ensures
        forall|k: int|
            0 <= k < w.languages.len() ==> crate::text::has_infix(
                spec_render_devenv_nix(w),
                enable_line("languages."@, #[trigger] w.languages[k]),
            ),
        forall|k: int|
            0 <= k < w.services.len() ==> crate::text::has_infix(
                spec_render_devenv_nix(w),
                enable_line("services."@, #[trigger] w.services[k]),
            ),
{
    reveal_strlit(".");
    reveal_strlit("languages");
    reveal_strlit("services");
    reveal_strlit("languages.");
    reveal_strlit("services.");
    assert("languages"@ + "."@ =~= "languages."@);
    assert("services"@ + "."@ =~= "services."@);
    lemma_devenv_parts(w);
    let pre = devenv_pre(w);
    let langs = enable_lines("languages"@, w.languages);
    let svcs = enable_lines("services"@, w.services);
    let mid = blank_if(w.languages.len() > 0);
    let post = devenv_post(w);
    assert forall|k: int| 0 <= k < w.languages.len() implies crate::text::has_infix(
        spec_render_devenv_nix(w),
        enable_line("languages."@, #[trigger] w.languages[k]),
    ) by {
        lemma_enable_line_in("languages"@, w.languages, k);
        lemma_line_shape("languages"@, w.languages[k]);
        crate::text::lemma_infix_extend(pre, langs, mid + svcs + post, enable_line("languages."@, w.languages[k]));
    }
    assert forall|k: int| 0 <= k < w.services.len() implies crate::text::has_infix(
        spec_render_devenv_nix(w),
        enable_line("services."@, #[trigger] w.services[k]),
    ) by {
        lemma_enable_line_in("services"@, w.services, k);
        lemma_line_shape("services"@, w.services[k]);
        crate::text::lemma_infix_extend(pre + langs + mid, svcs, post, enable_line("services."@, w.services[k]));
    }
}

} // verus!

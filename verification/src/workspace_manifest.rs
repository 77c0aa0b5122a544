// What a written workspace state manifest reads back as.

use vstd::prelude::*;

use crate::text::{
    lemma_split_fold_plain, lemma_split_fold_sep,
    decimal, digit_char, hex_char, hex_digits, is_ws, lemma_lines_text_append, lines_text, trim, trim_end,
    trim_end_char, trim_start,
};
use crate::workspaces::{
    artifact_head, artifact_inputs, artifact_json, artifact_tail, artifacts_json, bool_text, is_control,
    json_bool_entries, json_char, json_chars, json_list_items, json_string_entries, spec_json_string,
    spec_state_manifest, field_value, key_prefix, manifest_line, ArtifactView, ManifestScan, json_plain,
    law_json_string_roundtrip, spec_string_field, spec_usize_field, complete_entry, empty_scan, EntryView,
    spec_parse_manifest_entries,
};

verus! {

/// The lines of one artifact's manifest entry, without their line feeds.
pub open spec fn entry_head_lines(a: ArtifactView) -> Seq<Seq<char>> {
    seq![
        "    {"@,
        "      "@ + "\"name\": "@ + spec_json_string(a.name) + ","@,
        "      "@ + "\"backend\": "@ + spec_json_string(a.backend) + ","@,
        "      "@ + "\"workspace_path\": "@ + spec_json_string(a.workspace_path) + ","@,
        "      "@ + "\"devenv_nix\": "@ + spec_json_string(a.manifest_devenv_nix) + ","@,
    ]
}

pub open spec fn entry_input_lines(a: ArtifactView) -> Seq<Seq<char>> {
    seq![
        "      \"inputs\": {"@,
        "        \"languages\": "@ + "{"@ + json_bool_entries(a.languages) + "}"@ + ","@,
        "        \"packages\": "@ + "["@ + json_list_items(a.packages) + "]"@ + ","@,
        "        \"services\": "@ + "{"@ + json_bool_entries(a.services) + "}"@ + ","@,
        "        \"tasks\": "@ + "{"@ + json_string_entries(a.tasks) + "}"@,
        "      },"@,
    ]
}

pub open spec fn entry_tail_lines(a: ArtifactView, last: bool) -> Seq<Seq<char>> {
    seq![
        "      "@ + "\"config_hash_algorithm\": "@ + spec_json_string("fnv1a64"@) + ","@,
        "      "@ + "\"config_size_bytes\": "@ + decimal(a.config_size_bytes) + ","@,
        "      "@ + "\"config_hash\": "@ + spec_json_string(a.config_hash),
        "    }"@ + (if last {
            Seq::<char>::empty()
        } else {
            ","@
        }),
    ]
}

pub open spec fn entry_lines(a: ArtifactView, last: bool) -> Seq<Seq<char>> {
    entry_head_lines(a) + entry_input_lines(a) + entry_tail_lines(a, last)
}

pub open spec fn entries_lines(arts: Seq<ArtifactView>, n: nat) -> Seq<Seq<char>>
    decreases n,
{
    if n == 0 || n > arts.len() {
        Seq::<Seq<char>>::empty()
    } else {
        entries_lines(arts, (n - 1) as nat) + entry_lines(arts[n - 1], n == arts.len())
    }
}

pub open spec fn header_lines(count: nat) -> Seq<Seq<char>> {
    seq![
        "{"@,
        "  "@ + "\"schema_version\": "@ + spec_json_string("basalt-workspace-state-v0"@) + ","@,
        "  "@ + "\"workspace_count\": "@ + decimal(count) + ","@,
        "  \"workspaces\": ["@,
    ]
}

pub open spec fn footer_lines() -> Seq<Seq<char>> {
    seq!["  ]"@, "}"@]
}

/// The lines of the manifest for `arts`.
pub open spec fn manifest_lines_of(arts: Seq<ArtifactView>) -> Seq<Seq<char>> {
    header_lines(arts.len()) + entries_lines(arts, arts.len()) + footer_lines()
}

#[verifier::spinoff_prover]
proof fn lemma_head_text(a: ArtifactView)
    ensures
        artifact_head(a) == lines_text(entry_head_lines(a)),
{
    reveal_with_fuel(lines_text, 6);
    reveal_strlit("    {\n");
    reveal_strlit("    {");
    reveal_strlit("      \"name\": ");
    reveal_strlit("      ");
    reveal_strlit("\"name\": ");
    reveal_strlit(",\n");
    reveal_strlit(",");
    reveal_strlit("\n");
    reveal_strlit("      \"backend\": ");
    reveal_strlit("\"backend\": ");
    reveal_strlit("      \"workspace_path\": ");
    reveal_strlit("\"workspace_path\": ");
    reveal_strlit("      \"devenv_nix\": ");
    reveal_strlit("\"devenv_nix\": ");
    let ls = entry_head_lines(a);
    assert(lines_text(ls) == lines_text(ls.drop_last()) + ls.last() + "\n"@);
    assert(ls.drop_last() =~= seq![ls[0], ls[1], ls[2], ls[3]]);
    assert(artifact_head(a) =~= lines_text(entry_head_lines(a)));
}

proof fn lemma_lines_text_push(ls: Seq<Seq<char>>, l: Seq<char>)
    ensures
        lines_text(ls.push(l)) == lines_text(ls) + l + "\n"@,
{
    assert(ls.push(l).drop_last() =~= ls);
}

#[verifier::spinoff_prover]
#[verifier::rlimit(60)]
#[verifier::spinoff_prover]
proof fn lemma_inputs_text(a: ArtifactView)
    ensures
        artifact_inputs(a) == lines_text(entry_input_lines(a)),
{
    reveal_strlit("      \"inputs\": {\n");
    reveal_strlit("      \"inputs\": {");
    reveal_strlit(",\n");
    reveal_strlit(",");
    reveal_strlit("\n");
    reveal_strlit("      },\n");
    reveal_strlit("      },");
    let ls = entry_input_lines(a);
    let e = Seq::<Seq<char>>::empty();
    lemma_lines_text_push(e, ls[0]);
    lemma_lines_text_push(e.push(ls[0]), ls[1]);
    lemma_lines_text_push(e.push(ls[0]).push(ls[1]), ls[2]);
    lemma_lines_text_push(e.push(ls[0]).push(ls[1]).push(ls[2]), ls[3]);
    lemma_lines_text_push(e.push(ls[0]).push(ls[1]).push(ls[2]).push(ls[3]), ls[4]);
    lemma_lines_text_push(e.push(ls[0]).push(ls[1]).push(ls[2]).push(ls[3]).push(ls[4]), ls[5]);
    assert(e.push(ls[0]).push(ls[1]).push(ls[2]).push(ls[3]).push(ls[4]).push(ls[5]) =~= ls);
    let t0 = "      \"inputs\": {\n"@;
    assert(t0 =~= lines_text(e) + ls[0] + "\n"@);
    let t1 = t0 + "        \"languages\": "@ + "{"@ + json_bool_entries(a.languages) + "}"@ + ",\n"@;
    assert(t1 =~= t0 + ls[1] + "\n"@);
    let t2 = t1 + "        \"packages\": "@ + "["@ + json_list_items(a.packages) + "]"@ + ",\n"@;
    assert(t2 =~= t1 + ls[2] + "\n"@);
    let t3 = t2 + "        \"services\": "@ + "{"@ + json_bool_entries(a.services) + "}"@ + ",\n"@;
    assert(t3 =~= t2 + ls[3] + "\n"@);
    let t4 = t3 + "        \"tasks\": "@ + "{"@ + json_string_entries(a.tasks) + "}"@ + "\n"@;
    assert(t4 =~= t3 + ls[4] + "\n"@);
    let t5 = t4 + "      },\n"@;
    assert(t5 =~= t4 + ls[5] + "\n"@);
    assert(artifact_inputs(a) == t5);
}

#[verifier::spinoff_prover]
proof fn lemma_tail_text(a: ArtifactView, last: bool)
    ensures
        artifact_tail(a, last) == lines_text(entry_tail_lines(a, last)),
{
    reveal_with_fuel(lines_text, 5);
    reveal_strlit("      \"config_hash_algorithm\": ");
    reveal_strlit("\"config_hash_algorithm\": ");
    reveal_strlit("      \"config_size_bytes\": ");
    reveal_strlit("\"config_size_bytes\": ");
    reveal_strlit("      \"config_hash\": ");
    reveal_strlit("\"config_hash\": ");
    reveal_strlit("      ");
    reveal_strlit(",\n");
    reveal_strlit(",");
    reveal_strlit("\n");
    let ls = entry_tail_lines(a, last);
    assert(ls.drop_last() =~= seq![ls[0], ls[1], ls[2]]);
    assert(artifact_tail(a, last) =~= lines_text(entry_tail_lines(a, last)));
}

proof fn lemma_entry_text(a: ArtifactView, last: bool)
    ensures
        artifact_json(a, last) == lines_text(entry_lines(a, last)),
{
    reveal(artifact_json);
    lemma_head_text(a);
    lemma_inputs_text(a);
    lemma_tail_text(a, last);
    lemma_lines_text_append(entry_head_lines(a), entry_input_lines(a));
    lemma_lines_text_append(entry_head_lines(a) + entry_input_lines(a), entry_tail_lines(a, last));
}

proof fn lemma_entries_text(arts: Seq<ArtifactView>, n: nat)
    ensures
        artifacts_json(arts, n) == lines_text(entries_lines(arts, n)),
    decreases n,
{
    if n > 0 && n <= arts.len() {
        lemma_entries_text(arts, (n - 1) as nat);
        lemma_entry_text(arts[n - 1], n == arts.len());
        lemma_lines_text_append(entries_lines(arts, (n - 1) as nat), entry_lines(arts[n - 1], n == arts.len()));
    }
}

pub open spec fn header_text(count: nat) -> Seq<char> {
    "{\n"@ + "  \"schema_version\": "@ + spec_json_string("basalt-workspace-state-v0"@) + ",\n"@
        + "  \"workspace_count\": "@ + decimal(count) + ",\n"@ + "  \"workspaces\": [\n"@
}

#[verifier::spinoff_prover]
#[verifier::rlimit(60)]
#[verifier::spinoff_prover]
proof fn lemma_header_text(count: nat)
    ensures
        header_text(count) == lines_text(header_lines(count)),
{
    reveal_strlit("{\n");
    reveal_strlit("{");
    reveal_strlit("  \"schema_version\": ");
    reveal_strlit("\"schema_version\": ");
    reveal_strlit("  ");
    reveal_strlit(",\n");
    reveal_strlit(",");
    reveal_strlit("\n");
    reveal_strlit("  \"workspace_count\": ");
    reveal_strlit("\"workspace_count\": ");
    reveal_strlit("  \"workspaces\": [\n");
    reveal_strlit("  \"workspaces\": [");
    let h = header_lines(count);
    let z = Seq::<Seq<char>>::empty();
    lemma_lines_text_push(z, h[0]);
    lemma_lines_text_push(z.push(h[0]), h[1]);
    lemma_lines_text_push(z.push(h[0]).push(h[1]), h[2]);
    lemma_lines_text_push(z.push(h[0]).push(h[1]).push(h[2]), h[3]);
    assert(z.push(h[0]).push(h[1]).push(h[2]).push(h[3]) =~= h);
    let t0 = "{\n"@;
    assert(t0 =~= lines_text(z) + h[0] + "\n"@);
    let t1 = t0 + "  \"schema_version\": "@ + spec_json_string("basalt-workspace-state-v0"@) + ",\n"@;
    assert(t1 =~= t0 + h[1] + "\n"@);
    let t2 = t1 + "  \"workspace_count\": "@ + decimal(count) + ",\n"@;
    assert(t2 =~= t1 + h[2] + "\n"@);
    let t3 = t2 + "  \"workspaces\": [\n"@;
    assert(t3 =~= t2 + h[3] + "\n"@);
}

proof fn lemma_footer_text()
    ensures
        "  ]\n"@ + "}\n"@ == lines_text(footer_lines()),
{
    reveal_strlit("  ]\n");
    reveal_strlit("  ]");
    reveal_strlit("}\n");
    reveal_strlit("}");
    reveal_strlit("\n");
    let f = footer_lines();
    let z = Seq::<Seq<char>>::empty();
    lemma_lines_text_push(z, f[0]);
    lemma_lines_text_push(z.push(f[0]), f[1]);
    assert(z.push(f[0]).push(f[1]) =~= f);
    assert("  ]\n"@ + "}\n"@ =~= lines_text(z) + f[0] + "\n"@ + f[1] + "\n"@);
}

/// The manifest text is its lines, each ended by a line feed.
proof fn lemma_manifest_text(arts: Seq<ArtifactView>)
    ensures
        spec_state_manifest(arts) == lines_text(manifest_lines_of(arts)),
{
    let h = header_lines(arts.len());
    let e = entries_lines(arts, arts.len());
    let f = footer_lines();
    lemma_entries_text(arts, arts.len());
    lemma_header_text(arts.len());
    lemma_footer_text();
    lemma_lines_text_append(h, e);
    lemma_lines_text_append(h + e, f);
    let aj = artifacts_json(arts, arts.len());
    assert(spec_state_manifest(arts) == header_text(arts.len()) + aj + "  ]\n"@ + "}\n"@);
    assert(spec_state_manifest(arts) =~= header_text(arts.len()) + aj + ("  ]\n"@ + "}\n"@));
}

/// Text without line feeds or carriage returns.
pub open spec fn single_line(s: Seq<char>) -> bool {
    !s.contains('\n') && !s.contains('\r')
}

proof fn lemma_single_concat(a: Seq<char>, b: Seq<char>)
    requires
        single_line(a),
        single_line(b),
    ensures
        single_line(a + b),
{
    assert forall|c: char| (c == '\n' || c == '\r') implies !(a + b).contains(c) by {
        if (a + b).contains(c) {
            let k = choose|k: int| 0 <= k < (a + b).len() && (a + b)[k] == c;
            if k < a.len() {
                assert(a[k] == c);
            } else {
                assert(b[k - a.len()] == c);
            }
        }
    }
}

proof fn lemma_single_char(c: char)
    requires
        c != '\n',
        c != '\r',
    ensures
        single_line(seq![c]),
{
}

proof fn lemma_hex_digits_single(n: nat, width: nat)
    ensures
        single_line(hex_digits(n, width)),
    decreases width,
{
    if width > 0 {
        lemma_hex_digits_single(n / 16, (width - 1) as nat);
        let d = n % 16;
        assert(hex_char(d) != '\n' && hex_char(d) != '\r');
        lemma_single_char(hex_char(d));
        lemma_single_concat(hex_digits(n / 16, (width - 1) as nat), seq![hex_char(d)]);
        assert(hex_digits(n / 16, (width - 1) as nat).push(hex_char(d)) =~= hex_digits(n / 16, (width - 1) as nat)
            + seq![hex_char(d)]);
    }
}

proof fn lemma_decimal_single(n: nat)
    ensures
        single_line(decimal(n)),
    decreases n,
{
    if n < 10 {
        lemma_single_char(digit_char(n));
    } else {
        lemma_decimal_single(n / 10);
        lemma_single_char(digit_char(n % 10));
        lemma_single_concat(decimal(n / 10), seq![digit_char(n % 10)]);
        assert(decimal(n / 10).push(digit_char(n % 10)) =~= decimal(n / 10) + seq![digit_char(n % 10)]);
    }
}

proof fn lemma_json_char_single(c: char)
    ensures
        single_line(json_char(c)),
{
    reveal_strlit("\\\\");
    reveal_strlit("\\\"");
    reveal_strlit("\\n");
    reveal_strlit("\\r");
    reveal_strlit("\\t");
    reveal_strlit("\\u");
    if c == '\\' || c == '"' || c == '\n' || c == '\r' || c == '\t' {
        let j = json_char(c);
        assert(j.len() == 2);
        assert(j[0] == '\\');
        assert(j[1] != '\n' && j[1] != '\r');
        assert(j =~= seq![j[0]] + seq![j[1]]);
        lemma_single_char(j[0]);
        lemma_single_char(j[1]);
        lemma_single_concat(seq![j[0]], seq![j[1]]);
    } else if is_control(c) {
        lemma_hex_digits_single((c as u32) as nat, 4);
        assert("\\u"@ =~= seq!['\\'] + seq!['u']);
        lemma_single_char('\\');
        lemma_single_char('u');
        lemma_single_concat(seq!['\\'], seq!['u']);
        lemma_single_concat("\\u"@, hex_digits((c as u32) as nat, 4));
    } else {
        assert((c as u32) != 10 && (c as u32) != 13);
        lemma_single_char(c);
    }
}

proof fn lemma_json_chars_single(s: Seq<char>)
    ensures
        single_line(json_chars(s)),
    decreases s.len(),
{
    if s.len() > 0 {
        lemma_json_chars_single(s.drop_last());
        lemma_json_char_single(s.last());
        lemma_single_concat(json_chars(s.drop_last()), json_char(s.last()));
    }
}

proof fn lemma_json_string_single(s: Seq<char>)
    ensures
        single_line(spec_json_string(s)),
        spec_json_string(s).len() >= 2,
        spec_json_string(s)[0] == '"',
        spec_json_string(s).last() == '"',
{
    reveal_strlit("\"");
    lemma_json_chars_single(s);
    lemma_single_char('"');
    assert("\""@ =~= seq!['"']);
    lemma_single_concat("\""@, json_chars(s));
    lemma_single_concat("\""@ + json_chars(s), "\""@);
}

proof fn lemma_single_chars(s: Seq<char>)
    requires
        forall|i: int| 0 <= i < s.len() ==> #[trigger] s[i] != '\n' && s[i] != '\r',
    ensures
        single_line(s),
{
}

proof fn lemma_bool_text_single(b: bool)
    ensures
        single_line(bool_text(b)),
{
    reveal_strlit("true");
    reveal_strlit("false");
    lemma_single_chars(bool_text(b));
}

proof fn lemma_separators_single()
    ensures
        single_line(", "@),
        single_line(": "@),
        single_line(Seq::<char>::empty()),
{
    reveal_strlit(", ");
    reveal_strlit(": ");
    lemma_single_chars(", "@);
    lemma_single_chars(": "@);
}

proof fn lemma_bool_entries_single(es: Seq<(Seq<char>, bool)>)
    ensures
        single_line(json_bool_entries(es)),
    decreases es.len(),
{
    if es.len() > 0 {
        lemma_bool_entries_single(es.drop_last());
        lemma_separators_single();
        lemma_json_string_single(es.last().0);
        lemma_bool_text_single(es.last().1);
        let sep = if es.len() > 1 {
            ", "@
        } else {
            Seq::<char>::empty()
        };
        lemma_single_concat(json_bool_entries(es.drop_last()), sep);
        lemma_single_concat(json_bool_entries(es.drop_last()) + sep, spec_json_string(es.last().0));
        lemma_single_concat(json_bool_entries(es.drop_last()) + sep + spec_json_string(es.last().0), ": "@);
        lemma_single_concat(
            json_bool_entries(es.drop_last()) + sep + spec_json_string(es.last().0) + ": "@,
            bool_text(es.last().1),
        );
    }
}

proof fn lemma_string_entries_single(es: Seq<(Seq<char>, Seq<char>)>)
    ensures
        single_line(json_string_entries(es)),
    decreases es.len(),
{
    if es.len() > 0 {
        lemma_string_entries_single(es.drop_last());
        lemma_separators_single();
        lemma_json_string_single(es.last().0);
        lemma_json_string_single(es.last().1);
        let sep = if es.len() > 1 {
            ", "@
        } else {
            Seq::<char>::empty()
        };
        lemma_single_concat(json_string_entries(es.drop_last()), sep);
        lemma_single_concat(json_string_entries(es.drop_last()) + sep, spec_json_string(es.last().0));
        lemma_single_concat(json_string_entries(es.drop_last()) + sep + spec_json_string(es.last().0), ": "@);
        lemma_single_concat(
            json_string_entries(es.drop_last()) + sep + spec_json_string(es.last().0) + ": "@,
            spec_json_string(es.last().1),
        );
    }
}

proof fn lemma_list_items_single(vs: Seq<Seq<char>>)
    ensures
        single_line(json_list_items(vs)),
    decreases vs.len(),
{
    if vs.len() > 0 {
        lemma_list_items_single(vs.drop_last());
        lemma_separators_single();
        lemma_json_string_single(vs.last());
        let sep = if vs.len() > 1 {
            ", "@
        } else {
            Seq::<char>::empty()
        };
        lemma_single_concat(json_list_items(vs.drop_last()), sep);
        lemma_single_concat(json_list_items(vs.drop_last()) + sep, spec_json_string(vs.last()));
    }
}

/// Every line is free of line feeds and carriage returns.
pub open spec fn all_single(ls: Seq<Seq<char>>) -> bool {
    forall|i: int| 0 <= i < ls.len() ==> single_line(#[trigger] ls[i])
}

proof fn lemma_all_single_concat(a: Seq<Seq<char>>, b: Seq<Seq<char>>)
    requires
        all_single(a),
        all_single(b),
    ensures
        all_single(a + b),
{
    assert forall|i: int| 0 <= i < (a + b).len() implies single_line(#[trigger] (a + b)[i]) by {
        if i < a.len() {
            assert((a + b)[i] == a[i]);
        } else {
            assert((a + b)[i] == b[i - a.len()]);
        }
    }
}

proof fn lemma_cat3_single(a: Seq<char>, b: Seq<char>, c: Seq<char>)
    requires
        single_line(a),
        single_line(b),
        single_line(c),
    ensures
        single_line(a + b + c),
{
    lemma_single_concat(a, b);
    lemma_single_concat(a + b, c);
}

proof fn lemma_cat4_single(a: Seq<char>, b: Seq<char>, c: Seq<char>, d: Seq<char>)
    requires
        single_line(a),
        single_line(b),
        single_line(c),
        single_line(d),
    ensures
        single_line(a + b + c + d),
{
    lemma_cat3_single(a, b, c);
    lemma_single_concat(a + b + c, d);
}

#[verifier::spinoff_prover]
proof fn lemma_entry_lines_single(a: ArtifactView, last: bool)
    ensures
        all_single(entry_lines(a, last)),
{
    reveal_strlit("    {");
    reveal_strlit("      ");
    reveal_strlit("\"name\": ");
    reveal_strlit("\"backend\": ");
    reveal_strlit("\"workspace_path\": ");
    reveal_strlit("\"devenv_nix\": ");
    reveal_strlit(",");
    reveal_strlit("      \"inputs\": {");
    reveal_strlit("        \"languages\": ");
    reveal_strlit("        \"packages\": ");
    reveal_strlit("        \"services\": ");
    reveal_strlit("        \"tasks\": ");
    reveal_strlit("{");
    reveal_strlit("}");
    reveal_strlit("[");
    reveal_strlit("]");
    reveal_strlit("      },");
    reveal_strlit("\"config_hash_algorithm\": ");
    reveal_strlit("\"config_size_bytes\": ");
    reveal_strlit("\"config_hash\": ");
    reveal_strlit("    }");
    lemma_single_chars("    {"@);
    lemma_single_chars("      "@);
    lemma_single_chars("\"name\": "@);
    lemma_single_chars("\"backend\": "@);
    lemma_single_chars("\"workspace_path\": "@);
    lemma_single_chars("\"devenv_nix\": "@);
    lemma_single_chars(","@);
    lemma_single_chars("      \"inputs\": {"@);
    lemma_single_chars("        \"languages\": "@);
    lemma_single_chars("        \"packages\": "@);
    lemma_single_chars("        \"services\": "@);
    lemma_single_chars("        \"tasks\": "@);
    lemma_single_chars("{"@);
    lemma_single_chars("}"@);
    lemma_single_chars("["@);
    lemma_single_chars("]"@);
    lemma_single_chars("      },"@);
    lemma_single_chars("\"config_hash_algorithm\": "@);
    lemma_single_chars("\"config_size_bytes\": "@);
    lemma_single_chars("\"config_hash\": "@);
    lemma_single_chars("    }"@);
    lemma_separators_single();
    lemma_json_string_single(a.name);
    lemma_json_string_single(a.backend);
    lemma_json_string_single(a.workspace_path);
    lemma_json_string_single(a.manifest_devenv_nix);
    lemma_json_string_single("fnv1a64"@);
    lemma_json_string_single(a.config_hash);
    lemma_decimal_single(a.config_size_bytes);
    lemma_bool_entries_single(a.languages);
    lemma_bool_entries_single(a.services);
    lemma_list_items_single(a.packages);
    lemma_string_entries_single(a.tasks);
    lemma_cat4_single("      "@, "\"name\": "@, spec_json_string(a.name), ","@);
    lemma_cat4_single("      "@, "\"backend\": "@, spec_json_string(a.backend), ","@);
    lemma_cat4_single("      "@, "\"workspace_path\": "@, spec_json_string(a.workspace_path), ","@);
    lemma_cat4_single("      "@, "\"devenv_nix\": "@, spec_json_string(a.manifest_devenv_nix), ","@);
    lemma_cat4_single("        \"languages\": "@, "{"@, json_bool_entries(a.languages), "}"@);
    lemma_single_concat("        \"languages\": "@ + "{"@ + json_bool_entries(a.languages) + "}"@, ","@);
    lemma_cat4_single("        \"packages\": "@, "["@, json_list_items(a.packages), "]"@);
    lemma_single_concat("        \"packages\": "@ + "["@ + json_list_items(a.packages) + "]"@, ","@);
    lemma_cat4_single("        \"services\": "@, "{"@, json_bool_entries(a.services), "}"@);
    lemma_single_concat("        \"services\": "@ + "{"@ + json_bool_entries(a.services) + "}"@, ","@);
    lemma_cat4_single("        \"tasks\": "@, "{"@, json_string_entries(a.tasks), "}"@);
    lemma_cat4_single("      "@, "\"config_hash_algorithm\": "@, spec_json_string("fnv1a64"@), ","@);
    lemma_cat4_single("      "@, "\"config_size_bytes\": "@, decimal(a.config_size_bytes), ","@);
    lemma_cat3_single("      "@, "\"config_hash\": "@, spec_json_string(a.config_hash));
    let close = if last {
        Seq::<char>::empty()
    } else {
        ","@
    };
    lemma_single_concat("    }"@, close);
    let h = entry_head_lines(a);
    let i = entry_input_lines(a);
    let t = entry_tail_lines(a, last);
    assert(all_single(h));
    assert(all_single(i));
    assert(all_single(t));
    lemma_all_single_concat(h, i);
    lemma_all_single_concat(h + i, t);
}

proof fn lemma_entries_lines_single(arts: Seq<ArtifactView>, n: nat)
    ensures
        all_single(entries_lines(arts, n)),
    decreases n,
{
    if n > 0 && n <= arts.len() {
        lemma_entries_lines_single(arts, (n - 1) as nat);
        lemma_entry_lines_single(arts[n - 1], n == arts.len());
        lemma_all_single_concat(entries_lines(arts, (n - 1) as nat), entry_lines(arts[n - 1], n == arts.len()));
    }
}

#[verifier::spinoff_prover]
proof fn lemma_manifest_lines_single(arts: Seq<ArtifactView>)
    ensures
        all_single(manifest_lines_of(arts)),
{
    reveal_strlit("{");
    reveal_strlit("  ");
    reveal_strlit("\"schema_version\": ");
    reveal_strlit("\"workspace_count\": ");
    reveal_strlit(",");
    reveal_strlit("  \"workspaces\": [");
    reveal_strlit("  ]");
    reveal_strlit("}");
    lemma_single_chars("{"@);
    lemma_single_chars("  "@);
    lemma_single_chars("\"schema_version\": "@);
    lemma_single_chars("\"workspace_count\": "@);
    lemma_single_chars(","@);
    lemma_single_chars("  \"workspaces\": ["@);
    lemma_single_chars("  ]"@);
    lemma_single_chars("}"@);
    lemma_json_string_single("basalt-workspace-state-v0"@);
    lemma_decimal_single(arts.len());
    lemma_cat4_single("  "@, "\"schema_version\": "@, spec_json_string("basalt-workspace-state-v0"@), ","@);
    lemma_cat4_single("  "@, "\"workspace_count\": "@, decimal(arts.len()), ","@);
    let h = header_lines(arts.len());
    let f = footer_lines();
    assert(all_single(h));
    assert(all_single(f));
    lemma_entries_lines_single(arts, arts.len());
    lemma_all_single_concat(h, entries_lines(arts, arts.len()));
    lemma_all_single_concat(h + entries_lines(arts, arts.len()), f);
}

/// The manifest's lines are exactly the lines it was written from.
proof fn lemma_manifest_read_lines(arts: Seq<ArtifactView>)
    ensures
        crate::text::spec_lines(spec_state_manifest(arts)) == manifest_lines_of(arts),
{
    lemma_manifest_text(arts);
    lemma_manifest_lines_single(arts);
    let ls = manifest_lines_of(arts);
    assert forall|i: int| 0 <= i < ls.len() implies !(#[trigger] ls[i]).contains('\n') by {
        assert(single_line(ls[i]));
    }
    assert forall|i: int| 0 <= i < ls.len() implies (#[trigger] ls[i]).len() == 0 || ls[i].last() != '\r' by {
        assert(single_line(ls[i]));
        if ls[i].len() > 0 {
            assert(ls[i][ls[i].len() - 1] == ls[i].last());
        }
    }
    crate::text::lemma_lines_text_lines(ls);
}

proof fn lemma_trim_start_plain(x: Seq<char>)
    requires
        x.len() > 0,
        !is_ws(x[0]),
    ensures
        trim_start(x) == x,
{
}

proof fn lemma_trim_end_plain(x: Seq<char>)
    requires
        x.len() > 0,
        !is_ws(x.last()),
    ensures
        trim_end(x) == x,
{
}

proof fn lemma_trim_start_skip(p: Seq<char>, x: Seq<char>)
    requires
        forall|i: int| 0 <= i < p.len() ==> is_ws(#[trigger] p[i]),
    ensures
        trim_start(p + x) == trim_start(x),
    decreases p.len(),
{
    if p.len() > 0 {
        assert((p + x)[0] == p[0]);
        assert((p + x).drop_first() =~= p.drop_first() + x);
        lemma_trim_start_skip(p.drop_first(), x);
    } else {
        assert(p + x =~= x);
    }
}

/// Leading whitespace dropped from a line whose text starts and ends with visible characters.
proof fn lemma_trim_indented(p: Seq<char>, x: Seq<char>)
    requires
        forall|i: int| 0 <= i < p.len() ==> is_ws(#[trigger] p[i]),
        x.len() > 0,
        !is_ws(x[0]),
        !is_ws(x.last()),
    ensures
        trim(p + x) == x,
{
    lemma_trim_start_skip(p, x);
    lemma_trim_start_plain(x);
    lemma_trim_end_plain(x);
}

/// The seven keys a manifest entry is read by, in the order they are tried.
pub open spec fn entry_key(k: int) -> Seq<char> {
    if k == 0 {
        "name"@
    } else if k == 1 {
        "backend"@
    } else if k == 2 {
        "workspace_path"@
    } else if k == 3 {
        "devenv_nix"@
    } else if k == 4 {
        "config_hash_algorithm"@
    } else if k == 5 {
        "config_size_bytes"@
    } else {
        "config_hash"@
    }
}

proof fn lemma_key_prefix_shape(field: Seq<char>)
    ensures
        key_prefix(field).len() == field.len() + 3,
        key_prefix(field)[0] == '"',
        forall|i: int| 0 <= i < field.len() ==> key_prefix(field)[i + 1] == field[i],
        key_prefix(field)[field.len() as int + 1] == '"',
        key_prefix(field)[field.len() as int + 2] == ':',
{
    reveal_strlit("\"");
    reveal_strlit("\":");
}

/// A trimmed line that differs from a key's prefix at position `i` does not start with it.
proof fn lemma_not_key(t: Seq<char>, field: Seq<char>, i: int)
    requires
        0 <= i < t.len(),
        0 <= i < key_prefix(field).len(),
        t[i] != key_prefix(field)[i],
    ensures
        !crate::text::seq_starts_with(t, key_prefix(field)),
{
    if crate::text::seq_starts_with(t, key_prefix(field)) {
        assert(t.take(key_prefix(field).len() as int)[i] == t[i]);
    }
}

proof fn lemma_keys_literal()
    ensures
        entry_key(0) =~= seq!['n', 'a', 'm', 'e'],
        entry_key(1) =~= seq!['b', 'a', 'c', 'k', 'e', 'n', 'd'],
        entry_key(2) =~= seq!['w', 'o', 'r', 'k', 's', 'p', 'a', 'c', 'e', '_', 'p', 'a', 't', 'h'],
        entry_key(3) =~= seq!['d', 'e', 'v', 'e', 'n', 'v', '_', 'n', 'i', 'x'],
        entry_key(4) =~= seq![
            'c', 'o', 'n', 'f', 'i', 'g', '_', 'h', 'a', 's', 'h', '_', 'a', 'l', 'g', 'o', 'r', 'i', 't', 'h', 'm'
        ],
        entry_key(5) =~= seq!['c', 'o', 'n', 'f', 'i', 'g', '_', 's', 'i', 'z', 'e', '_', 'b', 'y', 't', 'e', 's'],
        entry_key(6) =~= seq!['c', 'o', 'n', 'f', 'i', 'g', '_', 'h', 'a', 's', 'h'],
{
    reveal_strlit("name");
    reveal_strlit("backend");
    reveal_strlit("workspace_path");
    reveal_strlit("devenv_nix");
    reveal_strlit("config_hash_algorithm");
    reveal_strlit("config_size_bytes");
    reveal_strlit("config_hash");
}

/// A line that starts with none of the entry keys leaves the scan as it was.
proof fn lemma_neutral_line(st: ManifestScan, t: Seq<char>)
    requires
        forall|k: int| 0 <= k < 7 ==> !crate::text::seq_starts_with(t, #[trigger] key_prefix(entry_key(k))),
    ensures
        manifest_line(st, t) == Ok::<ManifestScan, Seq<char>>(st),
{
    assert(!crate::text::seq_starts_with(t, key_prefix(entry_key(0))));
    assert(!crate::text::seq_starts_with(t, key_prefix(entry_key(1))));
    assert(!crate::text::seq_starts_with(t, key_prefix(entry_key(2))));
    assert(!crate::text::seq_starts_with(t, key_prefix(entry_key(3))));
    assert(!crate::text::seq_starts_with(t, key_prefix(entry_key(4))));
    assert(!crate::text::seq_starts_with(t, key_prefix(entry_key(5))));
    assert(!crate::text::seq_starts_with(t, key_prefix(entry_key(6))));
}

/// A line whose first character is not a quote, or whose key starts with a letter no
/// entry key starts with, is neutral.
proof fn lemma_neutral_by_first(st: ManifestScan, t: Seq<char>)
    requires
        t.len() > 0,
        t[0] != '"' || (t.len() > 1 && t[1] != 'n' && t[1] != 'b' && t[1] != 'w' && t[1] != 'd' && t[1] != 'c'),
    ensures
        manifest_line(st, t) == Ok::<ManifestScan, Seq<char>>(st),
{
    lemma_keys_literal();
    assert forall|k: int| 0 <= k < 7 implies !crate::text::seq_starts_with(t, #[trigger] key_prefix(entry_key(k))) by {
        lemma_key_prefix_shape(entry_key(k));
        if t[0] != '"' {
            lemma_not_key(t, entry_key(k), 0);
        } else {
            assert(key_prefix(entry_key(k))[1] == entry_key(k)[0]);
            lemma_not_key(t, entry_key(k), 1);
        }
    }
    lemma_neutral_line(st, t);
}

/// A trimmed entry line: its key's prefix, a space, the value, and an optional comma.
pub open spec fn field_text(k: int, v: Seq<char>, tail: Seq<char>) -> Seq<char> {
    key_prefix(entry_key(k)) + " "@ + v + tail
}

/// A value as it stands in a line: not empty, no whitespace at either end, no trailing comma.
pub open spec fn bare_value(v: Seq<char>) -> bool {
    v.len() > 0 && !is_ws(v[0]) && !is_ws(v.last()) && v.last() != ','
}

pub open spec fn line_tail(tail: Seq<char>) -> bool {
    tail == ","@ || tail == Seq::<char>::empty()
}

proof fn lemma_field_value(k: int, v: Seq<char>, tail: Seq<char>)
    requires
        0 <= k < 7,
        bare_value(v),
        line_tail(tail),
    ensures
        field_value(field_text(k, v, tail), entry_key(k)) == Some(v),
        crate::text::seq_starts_with(field_text(k, v, tail), key_prefix(entry_key(k))),
{
    lemma_field_value_of(entry_key(k), v, tail);
}

/// `"<field>": <value>` with an optional comma yields the value.
proof fn lemma_field_value_of(field: Seq<char>, v: Seq<char>, tail: Seq<char>)
    requires
        bare_value(v),
        line_tail(tail),
    ensures
        field_value(key_prefix(field) + " "@ + v + tail, field) == Some(v),
        crate::text::seq_starts_with(key_prefix(field) + " "@ + v + tail, key_prefix(field)),
{
    reveal_strlit(" ");
    reveal_strlit(",");
    let p = key_prefix(field);
    let t = key_prefix(field) + " "@ + v + tail;
    assert(t.take(p.len() as int) =~= p);
    let rest = t.skip(p.len() as int);
    assert(rest =~= " "@ + (v + tail));
    lemma_trim_start_skip(" "@, v + tail);
    assert((v + tail)[0] == v[0]);
    lemma_trim_start_plain(v + tail);
    if tail.len() > 0 {
        assert((v + tail).last() == ',');
    } else {
        assert(v + tail =~= v);
    }
    lemma_trim_end_plain(v + tail);
    assert(trim(rest) == v + tail);
    assert(trim_end_char(v, ',') == v);
    if tail.len() > 0 {
        assert((v + tail).drop_last() =~= v);
        assert((v + tail).last() == ',');
        assert(trim_end_char(v + tail, ',') == trim_end_char((v + tail).drop_last(), ','));
    }
    assert(trim_end_char(v + tail, ',') == v);
    lemma_trim_start_plain(v);
    lemma_trim_end_plain(v);
}

proof fn lemma_key_letters()
    ensures
        entry_key(0)[0] == 'n',
        entry_key(1)[0] == 'b',
        entry_key(2)[0] == 'w',
        entry_key(3)[0] == 'd',
        entry_key(4)[0] == 'c',
        entry_key(5)[0] == 'c',
        entry_key(6)[0] == 'c',
        entry_key(4)[7] == 'h',
        entry_key(5)[7] == 's',
        entry_key(6)[7] == 'h',
        entry_key(4)[11] == '_',
        entry_key(2)[9] == '_',
        entry_key(2)[10] == 'p',
        entry_key(2).len() == 14,
        entry_key(4).len() == 21,
        entry_key(5).len() == 17,
        entry_key(6).len() == 11,
        forall|k: int| 0 <= k < 7 ==> (#[trigger] entry_key(k)).len() >= 4,
{
    lemma_keys_literal();
}

proof fn lemma_not_key_at(kt: Seq<char>, v: Seq<char>, tail: Seq<char>, other: Seq<char>, i: int)
    requires
        0 <= i < kt.len() + 3,
        i < other.len() + 3,
        key_prefix(kt)[i] != key_prefix(other)[i],
    ensures
        !crate::text::seq_starts_with(key_prefix(kt) + " "@ + v + tail, key_prefix(other)),
{
    let t = key_prefix(kt) + " "@ + v + tail;
    lemma_key_prefix_shape(kt);
    lemma_key_prefix_shape(other);
    assert(t[i] == key_prefix(kt)[i]);
    lemma_not_key(t, other, i);
}

/// An entry line is read by its own key: every key tried before it differs from it.
proof fn lemma_key_order(k: int, v: Seq<char>, tail: Seq<char>, j: int)
    requires
        0 <= j < k < 7,
    ensures
        !crate::text::seq_starts_with(field_text(k, v, tail), key_prefix(entry_key(j))),
{
    lemma_key_letters();
    let kt = entry_key(k);
    let jt = entry_key(j);
    lemma_key_prefix_shape(kt);
    lemma_key_prefix_shape(jt);
    if k <= 3 || j <= 3 {
        assert(key_prefix(kt)[1] == kt[0]);
        assert(key_prefix(jt)[1] == jt[0]);
        lemma_not_key_at(kt, v, tail, jt, 1);
    } else if k == 5 || j == 5 {
        assert(key_prefix(kt)[8] == kt[7]);
        assert(key_prefix(jt)[8] == jt[7]);
        lemma_not_key_at(kt, v, tail, jt, 8);
    } else {
        assert(k == 6 && j == 4);
        assert(key_prefix(kt)[12] == '"');
        assert(key_prefix(jt)[12] == jt[11]);
        lemma_not_key_at(kt, v, tail, jt, 12);
    }
}

/// Every character is one a JSON string literal here carries without a `\\u` escape.
pub open spec fn json_plain_text(s: Seq<char>) -> bool {
    forall|i: int| 0 <= i < s.len() ==> json_plain(#[trigger] s[i])
}

proof fn lemma_quoted_bare(x: Seq<char>)
    ensures
        bare_value(spec_json_string(x)),
{
    lemma_json_string_single(x);
}

proof fn lemma_string_field(k: int, x: Seq<char>, tail: Seq<char>)
    requires
        0 <= k < 7,
        json_plain_text(x),
        line_tail(tail),
    ensures
        spec_string_field(field_text(k, spec_json_string(x), tail), entry_key(k)) == Ok::<Seq<char>, Seq<char>>(x),
        crate::text::seq_starts_with(field_text(k, spec_json_string(x), tail), key_prefix(entry_key(k))),
{
    lemma_quoted_bare(x);
    lemma_field_value(k, spec_json_string(x), tail);
    law_json_string_roundtrip(x);
}

/// The literal that opens each entry line is its key's prefix and a space.
proof fn lemma_key_lits()
    ensures
        "\"name\": "@ == key_prefix(entry_key(0)) + " "@,
        "\"backend\": "@ == key_prefix(entry_key(1)) + " "@,
        "\"workspace_path\": "@ == key_prefix(entry_key(2)) + " "@,
        "\"devenv_nix\": "@ == key_prefix(entry_key(3)) + " "@,
        "\"config_hash_algorithm\": "@ == key_prefix(entry_key(4)) + " "@,
        "\"config_size_bytes\": "@ == key_prefix(entry_key(5)) + " "@,
        "\"config_hash\": "@ == key_prefix(entry_key(6)) + " "@,
{
    reveal_strlit("\"name\": ");
    reveal_strlit("\"backend\": ");
    reveal_strlit("\"workspace_path\": ");
    reveal_strlit("\"devenv_nix\": ");
    reveal_strlit("\"config_hash_algorithm\": ");
    reveal_strlit("\"config_size_bytes\": ");
    reveal_strlit("\"config_hash\": ");
    reveal_strlit("\"");
    reveal_strlit("\":");
    reveal_strlit(" ");
    lemma_keys_literal();
    assert("\"name\": "@ =~= key_prefix(entry_key(0)) + " "@);
    assert("\"backend\": "@ =~= key_prefix(entry_key(1)) + " "@);
    assert("\"workspace_path\": "@ =~= key_prefix(entry_key(2)) + " "@);
    assert("\"devenv_nix\": "@ =~= key_prefix(entry_key(3)) + " "@);
    assert("\"config_hash_algorithm\": "@ =~= key_prefix(entry_key(4)) + " "@);
    assert("\"config_size_bytes\": "@ =~= key_prefix(entry_key(5)) + " "@);
    assert("\"config_hash\": "@ =~= key_prefix(entry_key(6)) + " "@);
}

/// An indented entry line trims to its field text.
proof fn lemma_trim_field_line(k: int, v: Seq<char>, tail: Seq<char>)
    requires
        0 <= k < 7,
        bare_value(v),
        line_tail(tail),
    ensures
        trim("      "@ + (key_prefix(entry_key(k)) + " "@) + v + tail) == field_text(k, v, tail),
{
    reveal_strlit("      ");
    reveal_strlit(",");
    let t = field_text(k, v, tail);
    assert("      "@ + (key_prefix(entry_key(k)) + " "@) + v + tail =~= "      "@ + t);
    lemma_key_prefix_shape(entry_key(k));
    assert(t[0] == '"');
    if tail.len() > 0 {
        assert(t.last() == ',');
    } else {
        assert(t.last() == v.last());
    }
    lemma_trim_indented("      "@, t);
}

/// Reading lines one after another from scan state `st`.
pub open spec fn scan_lines(st: ManifestScan, ls: Seq<Seq<char>>) -> Result<ManifestScan, Seq<char>>
    decreases ls.len(),
{
    if ls.len() == 0 {
        Ok(st)
    } else {
        match scan_lines(st, ls.drop_last()) {
            Err(e) => Err(e),
            Ok(s2) => manifest_line(s2, trim(ls.last())),
        }
    }
}

proof fn lemma_scan_push(st: ManifestScan, ls: Seq<Seq<char>>, l: Seq<char>)
    ensures
        scan_lines(st, ls.push(l)) == match scan_lines(st, ls) {
            Err(e) => Err(e),
            Ok(s2) => manifest_line(s2, trim(l)),
        },
{
    assert(ls.push(l).drop_last() =~= ls);
}

proof fn lemma_scan_append(st: ManifestScan, a: Seq<Seq<char>>, b: Seq<Seq<char>>)
    ensures
        scan_lines(st, a + b) == match scan_lines(st, a) {
            Err(e) => Err(e),
            Ok(s2) => scan_lines(s2, b),
        },
    decreases b.len(),
{
    if b.len() == 0 {
        assert(a + b =~= a);
    } else {
        lemma_scan_append(st, a, b.drop_last());
        assert((a + b).drop_last() =~= a + b.drop_last());
        assert((a + b).last() == b.last());
    }
}

proof fn lemma_manifest_lines_scan(ls: Seq<Seq<char>>)
    ensures
        crate::workspaces::manifest_lines(ls) == scan_lines(empty_scan(), ls),
    decreases ls.len(),
{
    if ls.len() > 0 {
        lemma_manifest_lines_scan(ls.drop_last());
    }
}

pub open spec fn clean_scan(es: Seq<EntryView>) -> ManifestScan {
    ManifestScan {
        name: None,
        backend: None,
        workspace_path: None,
        devenv_nix: None,
        algorithm: None,
        size: None,
        entries: es,
    }
}

/// The manifest entry that records artifact `a`.
pub open spec fn entry_view(a: ArtifactView) -> EntryView {
    EntryView {
        name: a.name,
        backend: a.backend,
        workspace_path: a.workspace_path,
        devenv_nix: a.manifest_devenv_nix,
        config_hash_algorithm: "fnv1a64"@,
        config_size_bytes: a.config_size_bytes,
        config_hash: a.config_hash,
    }
}

/// An artifact whose manifest entry can be read back: its string fields need no `\\u`
/// escape and its size fits in `usize`.
pub open spec fn readable_artifact(a: ArtifactView) -> bool {
    &&& json_plain_text(a.name)
    &&& json_plain_text(a.backend)
    &&& json_plain_text(a.workspace_path)
    &&& json_plain_text(a.manifest_devenv_nix)
    &&& json_plain_text(a.config_hash)
    &&& a.config_size_bytes <= usize::MAX
}

#[verifier::spinoff_prover]
#[verifier::rlimit(40)]
proof fn lemma_head_scan(es: Seq<EntryView>, a: ArtifactView)
    requires
        readable_artifact(a),
    ensures
        scan_lines(clean_scan(es), entry_head_lines(a)) == Ok::<ManifestScan, Seq<char>>(
            ManifestScan {
                name: Some(a.name),
                backend: Some(a.backend),
                workspace_path: Some(a.workspace_path),
                devenv_nix: Some(a.manifest_devenv_nix),
                ..clean_scan(es)
            },
        ),
{
    reveal_strlit("    {");
    reveal_strlit("    ");
    reveal_strlit("{");
    reveal_strlit(",");
    lemma_key_lits();
    let ls = entry_head_lines(a);
    let z = Seq::<Seq<char>>::empty();
    let s0 = clean_scan(es);
    assert(ls =~= z.push(ls[0]).push(ls[1]).push(ls[2]).push(ls[3]).push(ls[4]));
    lemma_scan_push(s0, z, ls[0]);
    assert("    {"@ =~= "    "@ + "{"@);
    lemma_trim_indented("    "@, "{"@);
    lemma_neutral_by_first(s0, "{"@);
    let q0 = spec_json_string(a.name);
    let q1 = spec_json_string(a.backend);
    let q2 = spec_json_string(a.workspace_path);
    let q3 = spec_json_string(a.manifest_devenv_nix);
    lemma_quoted_bare(a.name);
    lemma_quoted_bare(a.backend);
    lemma_quoted_bare(a.workspace_path);
    lemma_quoted_bare(a.manifest_devenv_nix);
    lemma_trim_field_line(0, q0, ","@);
    lemma_trim_field_line(1, q1, ","@);
    lemma_trim_field_line(2, q2, ","@);
    lemma_trim_field_line(3, q3, ","@);
    lemma_string_field(0, a.name, ","@);
    lemma_string_field(1, a.backend, ","@);
    lemma_string_field(2, a.workspace_path, ","@);
    lemma_string_field(3, a.manifest_devenv_nix, ","@);
    lemma_key_order(1, q1, ","@, 0);
    lemma_key_order(2, q2, ","@, 0);
    lemma_key_order(2, q2, ","@, 1);
    lemma_key_order(3, q3, ","@, 0);
    lemma_key_order(3, q3, ","@, 1);
    lemma_key_order(3, q3, ","@, 2);
    let s1 = ManifestScan { name: Some(a.name), ..s0 };
    let s2 = ManifestScan { backend: Some(a.backend), ..s1 };
    let s3 = ManifestScan { workspace_path: Some(a.workspace_path), ..s2 };
    let s4 = ManifestScan { devenv_nix: Some(a.manifest_devenv_nix), ..s3 };
    lemma_scan_push(s0, z.push(ls[0]), ls[1]);
    assert(manifest_line(s0, trim(ls[1])) == Ok::<ManifestScan, Seq<char>>(s1));
    lemma_scan_push(s0, z.push(ls[0]).push(ls[1]), ls[2]);
    assert(manifest_line(s1, trim(ls[2])) == Ok::<ManifestScan, Seq<char>>(s2));
    lemma_scan_push(s0, z.push(ls[0]).push(ls[1]).push(ls[2]), ls[3]);
    assert(manifest_line(s2, trim(ls[3])) == Ok::<ManifestScan, Seq<char>>(s3));
    lemma_scan_push(s0, z.push(ls[0]).push(ls[1]).push(ls[2]).push(ls[3]), ls[4]);
    assert(manifest_line(s3, trim(ls[4])) == Ok::<ManifestScan, Seq<char>>(s4));
}

proof fn lemma_neutral_indented(st: ManifestScan, p: Seq<char>, x: Seq<char>)
    requires
        forall|i: int| 0 <= i < p.len() ==> is_ws(#[trigger] p[i]),
        x.len() > 0,
        !is_ws(x[0]),
        !is_ws(x.last()),
        x[0] != '"' || (x.len() > 1 && x[1] != 'n' && x[1] != 'b' && x[1] != 'w' && x[1] != 'd' && x[1] != 'c'),
    ensures
        manifest_line(st, trim(p + x)) == Ok::<ManifestScan, Seq<char>>(st),
{
    lemma_trim_indented(p, x);
    lemma_neutral_by_first(st, x);
}

proof fn lemma_input_line0(st: ManifestScan, a: ArtifactView)
    ensures
        manifest_line(st, trim(entry_input_lines(a)[0])) == Ok::<ManifestScan, Seq<char>>(st),
{
    reveal_strlit("      \"inputs\": {");
    reveal_strlit("      ");
    reveal_strlit("\"inputs\": {");
    assert(entry_input_lines(a)[0] =~= "      "@ + "\"inputs\": {"@);
    lemma_neutral_indented(st, "      "@, "\"inputs\": {"@);
}

proof fn lemma_input_line1(st: ManifestScan, a: ArtifactView)
    ensures
        manifest_line(st, trim(entry_input_lines(a)[1])) == Ok::<ManifestScan, Seq<char>>(st),
{
    reveal_strlit("        \"languages\": ");
    reveal_strlit("        ");
    reveal_strlit("\"languages\": ");
    reveal_strlit(",");
    let x = "\"languages\": "@ + "{"@ + json_bool_entries(a.languages) + "}"@ + ","@;
    assert(entry_input_lines(a)[1] =~= "        "@ + x);
    assert(x[0] == '"' && x[1] == 'l' && x.last() == ',');
    lemma_neutral_indented(st, "        "@, x);
}

proof fn lemma_input_line2(st: ManifestScan, a: ArtifactView)
    ensures
        manifest_line(st, trim(entry_input_lines(a)[2])) == Ok::<ManifestScan, Seq<char>>(st),
{
    reveal_strlit("        \"packages\": ");
    reveal_strlit("        ");
    reveal_strlit("\"packages\": ");
    reveal_strlit(",");
    let x = "\"packages\": "@ + "["@ + json_list_items(a.packages) + "]"@ + ","@;
    assert(entry_input_lines(a)[2] =~= "        "@ + x);
    assert(x[0] == '"' && x[1] == 'p' && x.last() == ',');
    lemma_neutral_indented(st, "        "@, x);
}

proof fn lemma_input_line3(st: ManifestScan, a: ArtifactView)
    ensures
        manifest_line(st, trim(entry_input_lines(a)[3])) == Ok::<ManifestScan, Seq<char>>(st),
{
    reveal_strlit("        \"services\": ");
    reveal_strlit("        ");
    reveal_strlit("\"services\": ");
    reveal_strlit(",");
    let x = "\"services\": "@ + "{"@ + json_bool_entries(a.services) + "}"@ + ","@;
    assert(entry_input_lines(a)[3] =~= "        "@ + x);
    assert(x[0] == '"' && x[1] == 's' && x.last() == ',');
    lemma_neutral_indented(st, "        "@, x);
}

proof fn lemma_input_line4(st: ManifestScan, a: ArtifactView)
    ensures
        manifest_line(st, trim(entry_input_lines(a)[4])) == Ok::<ManifestScan, Seq<char>>(st),
{
    reveal_strlit("        \"tasks\": ");
    reveal_strlit("        ");
    reveal_strlit("\"tasks\": ");
    reveal_strlit("}");
    let x = "\"tasks\": "@ + "{"@ + json_string_entries(a.tasks) + "}"@;
    assert(entry_input_lines(a)[4] =~= "        "@ + x);
    assert(x[0] == '"' && x[1] == 't' && x.last() == '}');
    lemma_neutral_indented(st, "        "@, x);
}

proof fn lemma_input_line5(st: ManifestScan, a: ArtifactView)
    ensures
        manifest_line(st, trim(entry_input_lines(a)[5])) == Ok::<ManifestScan, Seq<char>>(st),
{
    reveal_strlit("      },");
    reveal_strlit("      ");
    reveal_strlit("},");
    assert(entry_input_lines(a)[5] =~= "      "@ + "},"@);
    lemma_neutral_indented(st, "      "@, "},"@);
}

proof fn lemma_inputs_scan(st: ManifestScan, a: ArtifactView)
    ensures
        scan_lines(st, entry_input_lines(a)) == Ok::<ManifestScan, Seq<char>>(st),
{
    let ls = entry_input_lines(a);
    let z = Seq::<Seq<char>>::empty();
    assert(ls =~= z.push(ls[0]).push(ls[1]).push(ls[2]).push(ls[3]).push(ls[4]).push(ls[5]));
    lemma_input_line0(st, a);
    lemma_input_line1(st, a);
    lemma_input_line2(st, a);
    lemma_input_line3(st, a);
    lemma_input_line4(st, a);
    lemma_input_line5(st, a);
    lemma_scan_push(st, z, ls[0]);
    lemma_scan_push(st, z.push(ls[0]), ls[1]);
    lemma_scan_push(st, z.push(ls[0]).push(ls[1]), ls[2]);
    lemma_scan_push(st, z.push(ls[0]).push(ls[1]).push(ls[2]), ls[3]);
    lemma_scan_push(st, z.push(ls[0]).push(ls[1]).push(ls[2]).push(ls[3]), ls[4]);
    lemma_scan_push(st, z.push(ls[0]).push(ls[1]).push(ls[2]).push(ls[3]).push(ls[4]), ls[5]);
}

proof fn lemma_decimal_bare(n: nat)
    ensures
        bare_value(decimal(n)),
{
    crate::text::lemma_decimal_digits(n);
    let d = decimal(n);
    assert(crate::text::is_ascii_digit(d[0]));
    assert(crate::text::is_ascii_digit(d[d.len() - 1]));
}

proof fn lemma_algorithm_plain()
    ensures
        json_plain_text("fnv1a64"@),
{
    reveal_strlit("fnv1a64");
}

proof fn lemma_tail_line0(st: ManifestScan)
    ensures
        manifest_line(st, trim(entry_tail_lines_line0())) == Ok::<ManifestScan, Seq<char>>(
            ManifestScan { algorithm: Some("fnv1a64"@), ..st },
        ),
{
    lemma_key_lits();
    reveal_strlit(",");
    let q = spec_json_string("fnv1a64"@);
    lemma_quoted_bare("fnv1a64"@);
    lemma_algorithm_plain();
    lemma_trim_field_line(4, q, ","@);
    lemma_string_field(4, "fnv1a64"@, ","@);
    lemma_key_order(4, q, ","@, 0);
    lemma_key_order(4, q, ","@, 1);
    lemma_key_order(4, q, ","@, 2);
    lemma_key_order(4, q, ","@, 3);
}

pub open spec fn entry_tail_lines_line0() -> Seq<char> {
    "      "@ + "\"config_hash_algorithm\": "@ + spec_json_string("fnv1a64"@) + ","@
}

proof fn lemma_tail_line1(st: ManifestScan, n: nat)
    requires
        n <= usize::MAX,
    ensures
        manifest_line(st, trim("      "@ + "\"config_size_bytes\": "@ + decimal(n) + ","@)) == Ok::<
            ManifestScan,
            Seq<char>,
        >(ManifestScan { size: Some(n), ..st }),
{
    lemma_key_lits();
    reveal_strlit(",");
    lemma_decimal_bare(n);
    lemma_trim_field_line(5, decimal(n), ","@);
    lemma_field_value(5, decimal(n), ","@);
    crate::text::law_decimal_reads_back(n);
    lemma_key_order(5, decimal(n), ","@, 0);
    lemma_key_order(5, decimal(n), ","@, 1);
    lemma_key_order(5, decimal(n), ","@, 2);
    lemma_key_order(5, decimal(n), ","@, 3);
    lemma_key_order(5, decimal(n), ","@, 4);
    assert(spec_usize_field(field_text(5, decimal(n), ","@), entry_key(5)) == Ok::<nat, Seq<char>>(n));
}

proof fn lemma_tail_line2(st: ManifestScan, h: Seq<char>)
    requires
        json_plain_text(h),
    ensures
        manifest_line(st, trim("      "@ + "\"config_hash\": "@ + spec_json_string(h))) == complete_entry(st, h),
{
    lemma_key_lits();
    let q = spec_json_string(h);
    let e = Seq::<char>::empty();
    lemma_quoted_bare(h);
    assert("      "@ + "\"config_hash\": "@ + q =~= "      "@ + (key_prefix(entry_key(6)) + " "@) + q + e);
    lemma_trim_field_line(6, q, e);
    lemma_string_field(6, h, e);
    lemma_key_order(6, q, e, 0);
    lemma_key_order(6, q, e, 1);
    lemma_key_order(6, q, e, 2);
    lemma_key_order(6, q, e, 3);
    lemma_key_order(6, q, e, 4);
    lemma_key_order(6, q, e, 5);
}

proof fn lemma_tail_line3(st: ManifestScan, last: bool)
    ensures
        manifest_line(
            st,
            trim(
                "    }"@ + (if last {
                    Seq::<char>::empty()
                } else {
                    ","@
                }),
            ),
        ) == Ok::<ManifestScan, Seq<char>>(st),
{
    reveal_strlit("    }");
    reveal_strlit("    ");
    reveal_strlit("}");
    reveal_strlit(",");
    let close = if last {
        Seq::<char>::empty()
    } else {
        ","@
    };
    let x = "}"@ + close;
    assert("    }"@ + close =~= "    "@ + x);
    assert(x[0] == '}');
    lemma_neutral_indented(st, "    "@, x);
}

#[verifier::spinoff_prover]
proof fn lemma_tail_scan(es: Seq<EntryView>, a: ArtifactView, last: bool)
    requires
        readable_artifact(a),
    ensures
        scan_lines(
            ManifestScan {
                name: Some(a.name),
                backend: Some(a.backend),
                workspace_path: Some(a.workspace_path),
                devenv_nix: Some(a.manifest_devenv_nix),
                ..clean_scan(es)
            },
            entry_tail_lines(a, last),
        ) == Ok::<ManifestScan, Seq<char>>(clean_scan(es.push(entry_view(a)))),
{
    let s4 = ManifestScan {
        name: Some(a.name),
        backend: Some(a.backend),
        workspace_path: Some(a.workspace_path),
        devenv_nix: Some(a.manifest_devenv_nix),
        ..clean_scan(es)
    };
    let ls = entry_tail_lines(a, last);
    let z = Seq::<Seq<char>>::empty();
    assert(ls =~= z.push(ls[0]).push(ls[1]).push(ls[2]).push(ls[3]));
    lemma_tail_line0(s4);
    let s5 = ManifestScan { algorithm: Some("fnv1a64"@), ..s4 };
    lemma_tail_line1(s5, a.config_size_bytes);
    let s6 = ManifestScan { size: Some(a.config_size_bytes), ..s5 };
    lemma_tail_line2(s6, a.config_hash);
    assert(complete_entry(s6, a.config_hash) == Ok::<ManifestScan, Seq<char>>(clean_scan(es.push(entry_view(a)))));
    lemma_tail_line3(clean_scan(es.push(entry_view(a))), last);
    lemma_scan_push(s4, z, ls[0]);
    lemma_scan_push(s4, z.push(ls[0]), ls[1]);
    lemma_scan_push(s4, z.push(ls[0]).push(ls[1]), ls[2]);
    lemma_scan_push(s4, z.push(ls[0]).push(ls[1]).push(ls[2]), ls[3]);
}

#[verifier::spinoff_prover]
proof fn lemma_entry_scan(es: Seq<EntryView>, a: ArtifactView, last: bool)
    requires
        readable_artifact(a),
    ensures
        scan_lines(clean_scan(es), entry_lines(a, last)) == Ok::<ManifestScan, Seq<char>>(
            clean_scan(es.push(entry_view(a))),
        ),
{
    let s4 = ManifestScan {
        name: Some(a.name),
        backend: Some(a.backend),
        workspace_path: Some(a.workspace_path),
        devenv_nix: Some(a.manifest_devenv_nix),
        ..clean_scan(es)
    };
    lemma_head_scan(es, a);
    lemma_inputs_scan(s4, a);
    lemma_tail_scan(es, a, last);
    lemma_scan_append(clean_scan(es), entry_head_lines(a), entry_input_lines(a));
    lemma_scan_append(clean_scan(es), entry_head_lines(a) + entry_input_lines(a), entry_tail_lines(a, last));
}

pub open spec fn entry_views(arts: Seq<ArtifactView>) -> Seq<EntryView> {
    arts.map_values(|a: ArtifactView| entry_view(a))
}

proof fn lemma_entries_scan(arts: Seq<ArtifactView>, n: nat)
    requires
        n <= arts.len(),
        forall|i: int| 0 <= i < arts.len() ==> readable_artifact(#[trigger] arts[i]),
    ensures
        scan_lines(clean_scan(Seq::<EntryView>::empty()), entries_lines(arts, n)) == Ok::<ManifestScan, Seq<char>>(
            clean_scan(entry_views(arts.take(n as int))),
        ),
    decreases n,
{
    if n == 0 {
        assert(entry_views(arts.take(0)) =~= Seq::<EntryView>::empty());
    } else {
        lemma_entries_scan(arts, (n - 1) as nat);
        let a = arts[n - 1];
        assert(readable_artifact(a));
        lemma_entry_scan(entry_views(arts.take(n - 1)), a, n == arts.len());
        lemma_scan_append(
            clean_scan(Seq::<EntryView>::empty()),
            entries_lines(arts, (n - 1) as nat),
            entry_lines(a, n == arts.len()),
        );
        assert(entry_views(arts.take(n - 1)).push(entry_view(a)) =~= entry_views(arts.take(n as int)));
    }
}

#[verifier::spinoff_prover]
proof fn lemma_header_scan(count: nat)
    ensures
        scan_lines(clean_scan(Seq::<EntryView>::empty()), header_lines(count)) == Ok::<ManifestScan, Seq<char>>(
            clean_scan(Seq::<EntryView>::empty()),
        ),
{
    reveal_strlit("{");
    reveal_strlit("  ");
    reveal_strlit("\"schema_version\": ");
    reveal_strlit("\"workspace_count\": ");
    reveal_strlit(",");
    reveal_strlit("  \"workspaces\": [");
    reveal_strlit("\"workspaces\": [");
    let st = clean_scan(Seq::<EntryView>::empty());
    let ls = header_lines(count);
    let z = Seq::<Seq<char>>::empty();
    assert(ls =~= z.push(ls[0]).push(ls[1]).push(ls[2]).push(ls[3]));
    assert(ls[0] =~= Seq::<char>::empty() + "{"@);
    lemma_neutral_indented(st, Seq::<char>::empty(), "{"@);
    lemma_json_string_single("basalt-workspace-state-v0"@);
    let x1 = "\"schema_version\": "@ + spec_json_string("basalt-workspace-state-v0"@) + ","@;
    assert(ls[1] =~= "  "@ + x1);
    assert(x1[0] == '"' && x1[1] == 's' && x1.last() == ',');
    lemma_neutral_indented(st, "  "@, x1);
    let x2 = "\"workspace_count\": "@ + decimal(count) + ","@;
    assert(ls[2] =~= "  "@ + x2);
    lemma_count_line_neutral(st, count);
    let x3 = "\"workspaces\": ["@;
    assert(ls[3] =~= "  "@ + x3);
    lemma_workspaces_line_neutral(st);
    lemma_scan_push(st, z, ls[0]);
    lemma_scan_push(st, z.push(ls[0]), ls[1]);
    lemma_scan_push(st, z.push(ls[0]).push(ls[1]), ls[2]);
    lemma_scan_push(st, z.push(ls[0]).push(ls[1]).push(ls[2]), ls[3]);
}

proof fn lemma_count_line_neutral(st: ManifestScan, count: nat)
    ensures
        manifest_line(st, trim("  "@ + ("\"workspace_count\": "@ + decimal(count) + ","@))) == Ok::<
            ManifestScan,
            Seq<char>,
        >(st),
{
    reveal_strlit("  ");
    reveal_strlit("\"workspace_count\": ");
    reveal_strlit(",");
    lemma_keys_literal();
    let x = "\"workspace_count\": "@ + decimal(count) + ","@;
    assert(x[0] == '"' && x.last() == ',');
    lemma_trim_indented("  "@, x);
    assert forall|k: int| 0 <= k < 7 implies !crate::text::seq_starts_with(x, #[trigger] key_prefix(entry_key(k))) by {
        lemma_key_prefix_shape(entry_key(k));
        if k == 2 {
            assert(key_prefix(entry_key(k))[11] == entry_key(k)[10]);
            lemma_not_key(x, entry_key(k), 11);
        } else {
            assert(key_prefix(entry_key(k))[1] == entry_key(k)[0]);
            lemma_not_key(x, entry_key(k), 1);
        }
    }
    lemma_neutral_line(st, x);
}

proof fn lemma_workspaces_line_neutral(st: ManifestScan)
    ensures
        manifest_line(st, trim("  "@ + "\"workspaces\": ["@)) == Ok::<ManifestScan, Seq<char>>(st),
{
    reveal_strlit("  ");
    reveal_strlit("\"workspaces\": [");
    lemma_key_letters();
    let x = "\"workspaces\": ["@;
    assert(x[0] == '"' && x[1] == 'w' && x[10] == 's' && x.last() == '[');
    lemma_trim_indented("  "@, x);
    assert forall|k: int| 0 <= k < 7 implies !crate::text::seq_starts_with(x, #[trigger] key_prefix(entry_key(k))) by {
        lemma_key_prefix_shape(entry_key(k));
        if k == 2 {
            assert(key_prefix(entry_key(2))[10] == entry_key(2)[9]);
            lemma_not_key(x, entry_key(2), 10);
        } else {
            assert(key_prefix(entry_key(k))[1] == entry_key(k)[0]);
            lemma_not_key(x, entry_key(k), 1);
        }
    }
    lemma_neutral_line(st, x);
}

proof fn lemma_footer_scan(st: ManifestScan)
    ensures
        scan_lines(st, footer_lines()) == Ok::<ManifestScan, Seq<char>>(st),
{
    reveal_strlit("  ]");
    reveal_strlit("  ");
    reveal_strlit("]");
    reveal_strlit("}");
    let ls = footer_lines();
    let z = Seq::<Seq<char>>::empty();
    assert(ls =~= z.push(ls[0]).push(ls[1]));
    assert(ls[0] =~= "  "@ + "]"@);
    lemma_neutral_indented(st, "  "@, "]"@);
    assert(ls[1] =~= Seq::<char>::empty() + "}"@);
    lemma_neutral_indented(st, Seq::<char>::empty(), "}"@);
    lemma_scan_push(st, z, ls[0]);
    lemma_scan_push(st, z.push(ls[0]), ls[1]);
}


/// The lines of a written manifest read back as the entries of its artifacts.
proof fn lemma_parse_written(arts: Seq<ArtifactView>)
    requires
        forall|i: int| 0 <= i < arts.len() ==> readable_artifact(#[trigger] arts[i]),
    ensures
        spec_parse_manifest_entries(spec_state_manifest(arts)) == Ok::<Seq<EntryView>, Seq<char>>(
            entry_views(arts),
        ),
{
    lemma_manifest_read_lines(arts);
    let ls = manifest_lines_of(arts);
    let h = header_lines(arts.len());
    let m = entries_lines(arts, arts.len());
    lemma_manifest_lines_scan(ls);
    let e0 = clean_scan(Seq::<EntryView>::empty());
    assert(empty_scan() =~= e0);
    lemma_header_scan(arts.len());
    lemma_entries_scan(arts, arts.len());
    assert(arts.take(arts.len() as int) =~= arts);
    lemma_footer_scan(clean_scan(entry_views(arts)));
    lemma_scan_append(e0, h, m);
    lemma_scan_append(e0, h + m, footer_lines());
}

/// The first three lines of a manifest are its header's.
proof fn lemma_header_first(arts: Seq<ArtifactView>)
    ensures
        manifest_lines_of(arts).len() >= 4,
        manifest_lines_of(arts)[0] == header_lines(arts.len())[0],
        manifest_lines_of(arts)[1] == header_lines(arts.len())[1],
        manifest_lines_of(arts)[2] == header_lines(arts.len())[2],
{
    let h = header_lines(arts.len());
    let m = entries_lines(arts, arts.len());
    assert((h + m + footer_lines())[0] == h[0]);
    assert((h + m + footer_lines())[1] == h[1]);
    assert((h + m + footer_lines())[2] == h[2]);
}

proof fn lemma_schema_literal()
    ensures
        "\"schema_version\": "@ == key_prefix("schema_version"@) + " "@,
        "\"workspace_count\": "@ == key_prefix("workspace_count"@) + " "@,
        json_plain_text("basalt-workspace-state-v0"@),
        key_prefix("schema_version"@)[1] == 's',
        key_prefix("workspace_count"@)[1] == 'w',
        key_prefix("workspace_count"@).len() > 1,
{
    reveal_strlit("\"schema_version\": ");
    reveal_strlit("\"workspace_count\": ");
    reveal_strlit("schema_version");
    reveal_strlit("workspace_count");
    reveal_strlit("\"");
    reveal_strlit("\":");
    reveal_strlit(" ");
    reveal_strlit("basalt-workspace-state-v0");
    assert("\"schema_version\": "@ =~= key_prefix("schema_version"@) + " "@);
    assert("\"workspace_count\": "@ =~= key_prefix("workspace_count"@) + " "@);
}

/// The header lines, trimmed.
proof fn lemma_header_trims(n: nat)
    ensures
        trim(header_lines(n)[0]) == "{"@,
        trim(header_lines(n)[1]) == key_prefix("schema_version"@) + " "@ + spec_json_string(
            "basalt-workspace-state-v0"@,
        ) + ","@,
        trim(header_lines(n)[2]) == key_prefix("workspace_count"@) + " "@ + decimal(n) + ","@,
        trim(header_lines(n)[0]).len() == 1,
        trim(header_lines(n)[0])[0] == '{',
        trim(header_lines(n)[1]).len() > 1,
        trim(header_lines(n)[1])[1] == 's',
{
    reveal_strlit("{");
    reveal_strlit("  ");
    reveal_strlit(",");
    lemma_schema_literal();
    let ls = header_lines(n);
    let q = spec_json_string("basalt-workspace-state-v0"@);
    assert(ls[0] =~= Seq::<char>::empty() + "{"@);
    lemma_trim_indented(Seq::<char>::empty(), "{"@);
    lemma_quoted_bare("basalt-workspace-state-v0"@);
    let x1 = key_prefix("schema_version"@) + " "@ + q + ","@;
    assert(ls[1] =~= "  "@ + x1);
    lemma_key_prefix_shape("schema_version"@);
    assert(x1[0] == '"');
    assert(x1[1] == 's');
    assert(x1.last() == ',');
    lemma_trim_indented("  "@, x1);
    let x2 = key_prefix("workspace_count"@) + " "@ + decimal(n) + ","@;
    assert(ls[2] =~= "  "@ + x2);
    lemma_key_prefix_shape("workspace_count"@);
    assert(x2[0] == '"');
    assert(x2.last() == ',');
    lemma_trim_indented("  "@, x2);
}

proof fn lemma_first_trimmed_skip(ls: Seq<Seq<char>>, p: Seq<char>)
    requires
        ls.len() > 0,
        !crate::text::seq_starts_with(trim(ls[0]), p),
    ensures
        crate::workspaces::first_trimmed(ls, p) == crate::workspaces::first_trimmed(ls.drop_first(), p),
{
}

proof fn lemma_schema_field()
    ensures
        spec_string_field(
            key_prefix("schema_version"@) + " "@ + spec_json_string("basalt-workspace-state-v0"@) + ","@,
            "schema_version"@,
        ) == Ok::<Seq<char>, Seq<char>>("basalt-workspace-state-v0"@),
        crate::text::seq_starts_with(
            key_prefix("schema_version"@) + " "@ + spec_json_string("basalt-workspace-state-v0"@) + ","@,
            key_prefix("schema_version"@),
        ),
{
    reveal_strlit(",");
    lemma_schema_literal();
    lemma_quoted_bare("basalt-workspace-state-v0"@);
    lemma_field_value_of("schema_version"@, spec_json_string("basalt-workspace-state-v0"@), ","@);
    law_json_string_roundtrip("basalt-workspace-state-v0"@);
}

proof fn lemma_count_field(n: nat)
    requires
        n <= usize::MAX,
    ensures
        spec_usize_field(key_prefix("workspace_count"@) + " "@ + decimal(n) + ","@, "workspace_count"@) == Ok::<
            nat,
            Seq<char>,
        >(n),
        crate::text::seq_starts_with(
            key_prefix("workspace_count"@) + " "@ + decimal(n) + ","@,
            key_prefix("workspace_count"@),
        ),
{
    reveal_strlit(",");
    lemma_decimal_bare(n);
    lemma_field_value_of("workspace_count"@, decimal(n), ","@);
    crate::text::law_decimal_reads_back(n);
}

/// A written manifest names the schema version the check expects.
proof fn lemma_schema_written(arts: Seq<ArtifactView>)
    ensures
        crate::workspaces::spec_check_schema_version_lines(manifest_lines_of(arts)) == Ok::<(), Seq<char>>(()),
{
    lemma_header_first(arts);
    lemma_header_trims(arts.len());
    lemma_schema_field();
    let ls = manifest_lines_of(arts);
    let p = key_prefix("schema_version"@);
    lemma_key_prefix_shape("schema_version"@);
    assert(trim(ls[0])[0] == '{');
    lemma_not_key(trim(ls[0]), "schema_version"@, 0);
    lemma_first_trimmed_skip(ls, p);
    let l1 = ls.drop_first();
    assert(l1[0] == ls[1]);
    assert(crate::workspaces::first_trimmed(l1, p) == Some(trim(ls[1])));
}

/// A written manifest states the number of entries it holds.
proof fn lemma_count_written(arts: Seq<ArtifactView>)
    requires
        arts.len() <= usize::MAX,
    ensures
        crate::workspaces::spec_check_count_lines(manifest_lines_of(arts), arts.len()) == Ok::<(), Seq<char>>(()),
{
    lemma_header_first(arts);
    lemma_header_trims(arts.len());
    lemma_count_lines(manifest_lines_of(arts), arts.len());
}

proof fn lemma_count_first(ls: Seq<Seq<char>>, n: nat)
    requires
        ls.len() >= 3,
        trim(ls[0]).len() == 1,
        trim(ls[0])[0] == '{',
        trim(ls[1]).len() > 1,
        trim(ls[1])[1] == 's',
        trim(ls[2]) == key_prefix("workspace_count"@) + " "@ + decimal(n) + ","@,
    ensures
        crate::workspaces::first_trimmed(ls, key_prefix("workspace_count"@)) == Some(trim(ls[2])),
{
    let p = key_prefix("workspace_count"@);
    lemma_key_prefix_shape("workspace_count"@);
    reveal_strlit("workspace_count");
    assert(p[1] == 'w');
    lemma_not_key(trim(ls[0]), "workspace_count"@, 0);
    lemma_first_trimmed_skip(ls, p);
    let l1 = ls.drop_first();
    assert(l1[0] == ls[1]);
    lemma_not_key(trim(l1[0]), "workspace_count"@, 1);
    lemma_first_trimmed_skip(l1, p);
    let l2 = l1.drop_first();
    assert(l2[0] == ls[2]);
    reveal_strlit(",");
    lemma_decimal_bare(n);
    lemma_field_value_of("workspace_count"@, decimal(n), ","@);
}

proof fn lemma_count_lines(ls: Seq<Seq<char>>, n: nat)
    requires
        n <= usize::MAX,
        ls.len() >= 3,
        trim(ls[0]).len() == 1,
        trim(ls[0])[0] == '{',
        trim(ls[1]).len() > 1,
        trim(ls[1])[1] == 's',
        trim(ls[2]) == key_prefix("workspace_count"@) + " "@ + decimal(n) + ","@,
    ensures
        crate::workspaces::spec_check_count_lines(ls, n) == Ok::<(), Seq<char>>(()),
{
    lemma_count_first(ls, n);
    lemma_count_field(n);
}

proof fn lemma_no_failing(es: Seq<EntryView>, k: nat, i: nat)
    requires
        forall|j: int| 0 <= j < es.len() ==> !crate::workspaces::entry_fails(#[trigger] es[j], k),
    ensures
        crate::workspaces::first_failing(es, k, i) is None,
    decreases es.len() - i,
{
    if i < es.len() {
        lemma_no_failing(es, k, i + 1);
    }
}

proof fn lemma_no_repeat(xs: Seq<Seq<char>>, i: nat)
    requires
        forall|a: int, b: int| 0 <= a < b < xs.len() ==> xs[a] != xs[b],
    ensures
        crate::workspaces::first_repeat(xs, i) is None,
    decreases xs.len() - i,
{
    if i < xs.len() {
        if xs.take(i as int).contains(xs[i as int]) {
            let a = choose|a: int| 0 <= a < i && xs.take(i as int)[a] == xs[i as int];
            assert(xs[a] == xs[i as int]);
        }
        lemma_no_repeat(xs, i + 1);
    }
}

/// An artifact that passes every check the manifest check makes of an entry: a non-blank
/// name and workspace path, the devenv backend, a `devenv.nix` artifact path and a
/// well-formed hash.
pub open spec fn checked_artifact(a: ArtifactView) -> bool {
    &&& !crate::text::all_ws(a.name)
    &&& crate::workspaces::names_devenv_file(a.manifest_devenv_nix)
    &&& a.backend == "devenv"@
    &&& !crate::text::all_ws(a.workspace_path)
    &&& crate::workspaces::valid_config_hash(a.config_hash)
}

/// A written manifest reads back, line by line, as one entry per artifact, in the order
/// the artifacts were written: each with the artifact's name, backend, workspace path,
/// artifact path, size and hash, and the FNV-1a algorithm.
pub proof fn law_manifest_reads_back(arts: Seq<ArtifactView>)
    requires
        forall|i: int| 0 <= i < arts.len() ==> readable_artifact(#[trigger] arts[i]),
    ensures
        spec_parse_manifest_entries(spec_state_manifest(arts)) == Ok::<Seq<EntryView>, Seq<char>>(
            entry_views(arts),
        ),
{
    lemma_parse_written(arts);
}

/// The manifest check accepts a written manifest whose artifacts pass the entry checks and
/// have distinct names and distinct artifact paths, and hands back the entries written.
pub proof fn law_written_manifest_checks(arts: Seq<ArtifactView>)
    requires
        arts.len() <= usize::MAX,
        forall|i: int| 0 <= i < arts.len() ==> readable_artifact(#[trigger] arts[i]),
        forall|i: int| 0 <= i < arts.len() ==> checked_artifact(#[trigger] arts[i]),
        forall|i: int, j: int| 0 <= i < j < arts.len() ==> arts[i].name != arts[j].name,
        forall|i: int, j: int|
            0 <= i < j < arts.len() ==> arts[i].manifest_devenv_nix != arts[j].manifest_devenv_nix,
    ensures
        crate::workspaces::spec_check_manifest_contents(spec_state_manifest(arts)) == Ok::<
            Seq<EntryView>,
            Seq<char>,
        >(entry_views(arts)),
{
    reveal_strlit("fnv1a64");
    lemma_parse_written(arts);
    lemma_manifest_read_lines(arts);
    lemma_schema_written(arts);
    lemma_count_written(arts);
    let es = entry_views(arts);
    assert(es.len() == arts.len());
    assert forall|k: nat| k < 6 implies crate::workspaces::first_failing(es, k, 0) is None by {
        assert forall|j: int| 0 <= j < es.len() implies !crate::workspaces::entry_fails(#[trigger] es[j], k) by {
            assert(es[j] == entry_view(arts[j]));
            assert(checked_artifact(arts[j]));
        }
        lemma_no_failing(es, k, 0);
    }
    let ns = crate::workspaces::names_of(es);
    let ps = crate::workspaces::paths_of(es);
    assert forall|a: int, b: int| 0 <= a < b < ns.len() implies ns[a] != ns[b] by {
        assert(ns[a] == arts[a].name);
        assert(ns[b] == arts[b].name);
    }
    assert forall|a: int, b: int| 0 <= a < b < ps.len() implies ps[a] != ps[b] by {
        assert(ps[a] == arts[a].manifest_devenv_nix);
        assert(ps[b] == arts[b].manifest_devenv_nix);
    }
    lemma_no_repeat(ns, 0);
    lemma_no_repeat(ps, 0);
    assert(crate::workspaces::first_failing(es, 0, 0) is None);
    assert(crate::workspaces::first_failing(es, 1, 0) is None);
    assert(crate::workspaces::first_failing(es, 2, 0) is None);
    assert(crate::workspaces::first_failing(es, 3, 0) is None);
    assert(crate::workspaces::first_failing(es, 4, 0) is None);
    assert(crate::workspaces::first_failing(es, 5, 0) is None);
}

/// `./<name>/devenv.nix` names a `devenv.nix` file.
proof fn lemma_devenv_path(name: Seq<char>)
    ensures
        crate::workspaces::names_devenv_file("./"@ + name + "/devenv.nix"@),
{
    reveal_strlit("./");
    reveal_strlit("/devenv.nix");
    reveal_strlit("devenv.nix");
    reveal_strlit(".");
    let d = "./"@ + name + "/devenv.nix"@;
    assert(d.take(2) =~= "./"@);
    let rel = d.skip(2);
    let dn = "devenv.nix"@;
    assert(rel =~= name.push('/') + dn);
    assert forall|i: int| 0 <= i < dn.len() implies dn[i] != '/' by {}
    lemma_split_fold_plain(name.push('/'), dn, '/');
    lemma_split_fold_sep(name, '/');
    assert(Seq::<char>::empty() + dn =~= dn);
    assert(crate::text::split_on(rel, '/').last() == dn);
    assert(dn.len() != "."@.len());
}

/// Different names give different artifact paths.
proof fn lemma_devenv_path_distinct(a: Seq<char>, b: Seq<char>)
    requires
        a != b,
    ensures
        "./"@ + a + "/devenv.nix"@ != "./"@ + b + "/devenv.nix"@,
{
    reveal_strlit("./");
    let da = "./"@ + a + "/devenv.nix"@;
    let db = "./"@ + b + "/devenv.nix"@;
    assert(da.len() == 2 + a.len() + "/devenv.nix"@.len());
    assert(db.len() == 2 + b.len() + "/devenv.nix"@.len());
    if da == db {
        assert(a.len() == b.len());
        assert forall|k: int| 0 <= k < a.len() implies a[k] == b[k] by {
            assert(da[k + 2] == a[k]);
            assert(db[k + 2] == b[k]);
        }
        assert(a =~= b);
    }
}

proof fn lemma_plain_concat(a: Seq<char>, b: Seq<char>)
    requires
        json_plain_text(a),
        json_plain_text(b),
    ensures
        json_plain_text(a + b),
{
    assert forall|i: int| 0 <= i < (a + b).len() implies json_plain(#[trigger] (a + b)[i]) by {
        if i < a.len() {
            assert((a + b)[i] == a[i]);
        } else {
            assert((a + b)[i] == b[i - a.len()]);
        }
    }
}

/// The artifacts planned for workspaces `ws` named `names`, in order.
pub open spec fn planned_artifacts(
    names: Seq<Seq<char>>,
    ws: Seq<crate::config::types::WorkspaceView>,
    ds: Seq<Seq<char>>,
) -> Seq<ArtifactView> {
    Seq::new(ws.len(), |i: int| crate::workspaces::spec_planned_artifact(names[i], ws[i], ds[i]))
}

/// A planned artifact whose workspace has a non-blank name and path and the devenv backend
/// passes the entry checks, and one whose name and path need no `\\u` escape reads back.
proof fn lemma_planned_artifact(name: Seq<char>, w: crate::config::types::WorkspaceView, d: Seq<char>)
    requires
        !crate::text::all_ws(name),
        json_plain_text(name),
        w.backend == "devenv"@,
        !crate::text::all_ws(w.path),
        json_plain_text(w.path),
    ensures
        checked_artifact(crate::workspaces::spec_planned_artifact(name, w, d)),
        readable_artifact(crate::workspaces::spec_planned_artifact(name, w, d)),
{
    reveal_strlit("devenv");
    reveal_strlit("./");
    reveal_strlit("/devenv.nix");
    let a = crate::workspaces::spec_planned_artifact(name, w, d);
    let bytes = vstd::utf8::encode_utf8(crate::workspaces::spec_render_devenv_nix(w));
    lemma_devenv_path(name);
    crate::workspaces::law_stable_hash_is_valid_config_hash(bytes);
    assert(json_plain_text("devenv"@));
    assert(json_plain_text("./"@));
    assert(json_plain_text("/devenv.nix"@));
    lemma_plain_concat("./"@, name);
    lemma_plain_concat("./"@ + name, "/devenv.nix"@);
    assert(json_plain_text(a.config_hash));
}

/// What `workspace generate` writes passes `workspace check`: the manifest for the
/// workspaces of a configuration, with distinct, non-blank names, non-blank paths and the
/// devenv backend, whose names and paths need no `\\u` escape, is accepted and reads back
/// as one entry per workspace, in the order they were written.
pub proof fn law_generated_manifest_checks(
    names: Seq<Seq<char>>,
    ws: Seq<crate::config::types::WorkspaceView>,
    ds: Seq<Seq<char>>,
)
    requires
        names.len() == ws.len(),
        ds.len() == ws.len(),
        ws.len() <= usize::MAX,
        forall|i: int|
            0 <= i < names.len() ==> !crate::text::all_ws(#[trigger] names[i]) && json_plain_text(names[i]),
        forall|i: int|
            0 <= i < ws.len() ==> (#[trigger] ws[i]).backend == "devenv"@ && !crate::text::all_ws(ws[i].path)
                && json_plain_text(ws[i].path),
        forall|i: int, j: int| 0 <= i < j < names.len() ==> names[i] != names[j],
    ensures
        crate::workspaces::spec_check_manifest_contents(spec_state_manifest(planned_artifacts(names, ws, ds)))
            == Ok::<Seq<EntryView>, Seq<char>>(entry_views(planned_artifacts(names, ws, ds))),
{
    let arts = planned_artifacts(names, ws, ds);
    assert forall|i: int| 0 <= i < arts.len() implies readable_artifact(#[trigger] arts[i]) && checked_artifact(
        arts[i],
    ) by {
        assert(!crate::text::all_ws(names[i]));
        assert(ws[i].backend == "devenv"@);
        lemma_planned_artifact(names[i], ws[i], ds[i]);
    }
    assert forall|i: int, j: int| 0 <= i < j < arts.len() implies arts[i].name != arts[j].name by {
        assert(names[i] != names[j]);
    }
    assert forall|i: int, j: int|
        0 <= i < j < arts.len() implies arts[i].manifest_devenv_nix != arts[j].manifest_devenv_nix by {
        assert(names[i] != names[j]);
        lemma_devenv_path_distinct(names[i], names[j]);
    }
    law_written_manifest_checks(arts);
}

/// What `workspace generate` writes for a configuration's workspaces passes `workspace
/// check`: for workspaces kept in key order under distinct names, each name non-blank,
/// each workspace on the devenv backend with a non-blank path, and no name or path that
/// needs a `\\u` escape, the manifest of the generated artifacts is accepted and reads
/// back as one entry per workspace, in key order.
pub proof fn law_generated_workspaces_pass_check(
    entries: Seq<(Seq<char>, crate::config::types::WorkspaceView)>,
    output_dir: Seq<char>,
)
    requires
        crate::strmap::keys_sorted(entries),
        entries.len() <= usize::MAX,
        forall|i: int|
            0 <= i < entries.len() ==> !crate::text::all_ws((#[trigger] entries[i]).0) && json_plain_text(
                entries[i].0,
            ) && entries[i].1.backend == "devenv"@ && !crate::text::all_ws(entries[i].1.path)
                && json_plain_text(entries[i].1.path),
    ensures
        crate::workspaces::spec_check_manifest_contents(
            spec_state_manifest(crate::workspaces::spec_generated_artifacts(entries, output_dir)),
        ) == Ok::<Seq<EntryView>, Seq<char>>(
            entry_views(crate::workspaces::spec_generated_artifacts(entries, output_dir)),
        ),
{
    let names = entries.map_values(|e: (Seq<char>, crate::config::types::WorkspaceView)| e.0);
    let ws = entries.map_values(|e: (Seq<char>, crate::config::types::WorkspaceView)| e.1);
    let ds = entries.map_values(
        |e: (Seq<char>, crate::config::types::WorkspaceView)| crate::workspaces::devenv_path(output_dir, e.0),
    );
    assert forall|i: int| 0 <= i < names.len() implies !crate::text::all_ws(#[trigger] names[i]) && json_plain_text(
        names[i],
    ) by {
        assert(names[i] == entries[i].0);
    }
    assert forall|i: int| 0 <= i < ws.len() implies (#[trigger] ws[i]).backend == "devenv"@ && !crate::text::all_ws(
        ws[i].path,
    ) && json_plain_text(ws[i].path) by {
        assert(ws[i] == entries[i].1);
    }
    assert forall|i: int, j: int| 0 <= i < j < names.len() implies names[i] != names[j] by {
        assert(crate::strmap::seq_lt(entries[i].0, entries[j].0));
        crate::strmap::lemma_seq_lt_irreflexive(entries[i].0);
    }
    law_generated_manifest_checks(names, ws, ds);
}

} // verus!

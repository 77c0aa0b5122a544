// Cross-domain and field-level validation.

use vstd::prelude::*;

use super::types::{
    indexed_path, opt_v, opt_view, strings_view, FilesView, PackagesConfig, PackagesView,
    WorkspacesView, item_path, views_of, workspace_domain, BasaltConfig,
    ConfigView, ManagedFileConfig, ManagedFileView, PartitionView, StorageConfig,
    StoragePartitionConfig, StorageSubvolumeConfig, StorageView, SubvolumeView, WorkspaceConfig,
    WorkspaceView, WorkspacesConfig,
};
use crate::strmap::{keys_of, StrMap};
use crate::text::{
    all_ws, any_ws, cat2, cat3, chars_of, contains_char, has_whitespace, is_ascii_alnum, is_ascii_alnum_char,
    is_ascii_digit, is_ascii_digit_char, is_blank, push_str, seq_starts_with, starts_with,
    starts_with_char, str_eq, string_from, trim, trim_str,
};

verus! {

pub open spec fn none_msgs() -> Seq<Seq<char>> {
    Seq::<Seq<char>>::empty()
}

pub open spec fn one_if(c: bool, m: Seq<char>) -> Seq<Seq<char>> {
    if c {
        seq![m]
    } else {
        none_msgs()
    }
}

/// `` `<path><rest> ``
pub open spec fn bt(path: Seq<char>, rest: Seq<char>) -> Seq<char> {
    "`"@ + path + rest
}

/// `` `<path><mid><value><end> ``
pub open spec fn bt2(path: Seq<char>, mid: Seq<char>, value: Seq<char>, end: Seq<char>) -> Seq<char> {
    "`"@ + path + mid + value + end
}

pub open spec fn is_ident_char(c: char) -> bool {
    is_ascii_alnum(c) || c == '_' || c == '-'
}

/// Non-empty, letters, digits, `_` and `-` only.
pub open spec fn valid_identifier(s: Seq<char>) -> bool {
    s.len() > 0 && forall|i: int| 0 <= i < s.len() ==> is_ident_char(#[trigger] s[i])
}

pub open spec fn all_digits(s: Seq<char>) -> bool {
    forall|i: int| 0 <= i < s.len() ==> is_ascii_digit(#[trigger] s[i])
}

pub open spec fn is_subvolume_char(c: char) -> bool {
    is_ascii_alnum(c) || c == '_' || c == '-' || c == '.' || c == '@'
}

pub open spec fn all_subvolume_chars(s: Seq<char>) -> bool {
    forall|i: int| 0 <= i < s.len() ==> is_subvolume_char(#[trigger] s[i])
}

pub open spec fn is_octal_char(c: char) -> bool {
    '0' <= c <= '7'
}

/// Four octal digits, the first `0`.
pub open spec fn valid_mode(s: Seq<char>) -> bool {
    s.len() == 4 && s[0] == '0' && forall|i: int| 0 <= i < s.len() ==> is_octal_char(#[trigger] s[i])
}

/// Dot-separated segments, each non-empty and made of letters, digits, `_` and `-`.
pub open spec fn valid_attr_path(s: Seq<char>) -> bool {
    &&& s.len() > 0
    &&& s[0] != '.'
    &&& s.last() != '.'
    &&& forall|i: int| 0 <= i < s.len() ==> is_ident_char(#[trigger] s[i]) || s[i] == '.'
    &&& forall|i: int| 0 <= i < s.len() - 1 ==> !(#[trigger] s[i] == '.' && s[i + 1] == '.')
}

pub open spec fn supported_root_fs(fs: Seq<char>) -> bool {
    fs == "ext4"@ || fs == "btrfs"@ || fs == "xfs"@ || fs == "f2fs"@
}

pub open spec fn supported_partition_fs(fs: Seq<char>) -> bool {
    fs == "fat32"@ || fs == "ext4"@ || fs == "btrfs"@ || fs == "xfs"@ || fs == "f2fs"@ || fs
        == "swap"@
}

/// A mount option that is blank or holds whitespace.
pub open spec fn bad_mount_option(o: Seq<char>) -> bool {
    all_ws(o) || any_ws(o)
}

/// Errors for one declared package name.
pub open spec fn package_name_errors(path: Seq<char>, raw: Seq<char>) -> Seq<Seq<char>> {
    let p = trim(raw);
    if p.len() == 0 {
        seq![bt(path, "` package names cannot be empty"@)]
    } else {
        one_if(any_ws(p), bt2(path, "` package `"@, p, "` cannot contain whitespace"@)) + one_if(
            p.contains('=') || p.contains('<') || p.contains('>'),
            bt2(path, "` package `"@, p, "` uses unsupported version constraint syntax"@),
        )
    }
}

pub open spec fn package_errors(path: Seq<char>, pkgs: Seq<Seq<char>>) -> Seq<Seq<char>>
    decreases pkgs.len(),
{
    if pkgs.len() == 0 {
        none_msgs()
    } else {
        package_errors(path, pkgs.drop_last()) + package_name_errors(path, pkgs.last())
    }
}

/// Errors for one option list of a partition or subvolume.
pub open spec fn mount_option_errors(path: Seq<char>, opts: Seq<Seq<char>>) -> Seq<Seq<char>>
    decreases opts.len(),
{
    if opts.len() == 0 {
        none_msgs()
    } else {
        mount_option_errors(path, opts.drop_last()) + one_if(
            bad_mount_option(opts.last()),
            bt(path, ".mount_options` entries cannot be empty or contain whitespace"@),
        )
    }
}

pub open spec fn flag_errors(path: Seq<char>, flags: Seq<Seq<char>>) -> Seq<Seq<char>>
    decreases flags.len(),
{
    if flags.len() == 0 {
        none_msgs()
    } else {
        flag_errors(path, flags.drop_last()) + one_if(
            !valid_identifier(flags.last()),
            bt2(
                path,
                ".flags` entry `"@,
                flags.last(),
                "` must contain only letters, numbers, `_`, or `-`"@,
            ),
        )
    }
}

/// What partition checking carries from one partition to the next.
pub struct PartState {
    pub mountpoints: Seq<Seq<char>>,
    pub disk_numbers: Seq<(Seq<char>, Seq<char>)>,
    pub has_root: bool,
}

/// What subvolume checking carries from one subvolume to the next.
pub struct SubState {
    pub mountpoints: Seq<Seq<char>>,
    pub has_root: bool,
}

pub open spec fn subvolume_name_errors(sp: Seq<char>, name: Seq<char>) -> Seq<Seq<char>> {
    if all_ws(name) {
        seq![bt(sp, ".name` cannot be empty"@)]
    } else if (name.len() > 0 && name[0] == '/') || name.contains(':') {
        seq![bt(sp, ".name` must be a relative Btrfs subvolume name"@)]
    } else if !all_subvolume_chars(name) {
        seq![bt(sp, ".name` must contain only letters, numbers, `_`, `-`, `.`, or `@`"@)]
    } else {
        none_msgs()
    }
}

/// One subvolume: `part_mounts` are the partition mountpoints seen so far (this
/// partition's included), `part_mount` this partition's own mountpoint.
pub open spec fn subvolume_step(
    st: SubState,
    part_path: Seq<char>,
    index: nat,
    sv: SubvolumeView,
    part_mounts: Seq<Seq<char>>,
    part_mount: Option<Seq<char>>,
) -> (SubState, Seq<Seq<char>>) {
    let sp = item_path(part_path + ".subvolumes"@, index);
    let name_errs = subvolume_name_errors(sp, sv.name);
    let mp = sv.mountpoint;
    let (st2, mp_errs) = if all_ws(mp) {
        (st, seq![bt(sp, ".mountpoint` cannot be empty"@)])
    } else if !(mp.len() > 0 && mp[0] == '/') {
        (st, seq![bt(sp, ".mountpoint` must be an absolute path"@)])
    } else {
        let dup = bt2(sp, ".mountpoint` duplicates `"@, mp, "`"@);
        let seen = st.mountpoints.contains(mp);
        (
            SubState {
                mountpoints: if seen {
                    st.mountpoints
                } else {
                    st.mountpoints.push(mp)
                },
                has_root: st.has_root || mp == "/"@,
            },
            one_if(seen, dup) + one_if(part_mounts.contains(mp) && part_mount != Some(mp), dup),
        )
    };
    (st2, name_errs + mp_errs + mount_option_errors(sp, sv.mount_options))
}

pub open spec fn subvolumes_fold(
    st: SubState,
    part_path: Seq<char>,
    svs: Seq<SubvolumeView>,
    part_mounts: Seq<Seq<char>>,
    part_mount: Option<Seq<char>>,
) -> (SubState, Seq<Seq<char>>)
    decreases svs.len(),
{
    if svs.len() == 0 {
        (st, none_msgs())
    } else {
        let (s1, e1) = subvolumes_fold(st, part_path, svs.drop_last(), part_mounts, part_mount);
        let (s2, e2) = subvolume_step(
            s1,
            part_path,
            (svs.len() - 1) as nat,
            svs.last(),
            part_mounts,
            part_mount,
        );
        (s2, e1 + e2)
    }
}

pub open spec fn disk_errors(path: Seq<char>, disk: Seq<char>) -> Seq<Seq<char>> {
    if all_ws(disk) {
        seq![bt(path, ".disk` cannot be empty"@)]
    } else if !seq_starts_with(disk, "/dev/"@) {
        seq![bt(path, ".disk` must be an absolute /dev path"@)]
    } else {
        none_msgs()
    }
}

pub open spec fn number_step(st: PartState, path: Seq<char>, disk: Seq<char>, number: Option<Seq<char>>) -> (
    PartState,
    Seq<Seq<char>>,
) {
    match number {
        None => (st, none_msgs()),
        Some(n) => if all_ws(n) {
            (st, seq![bt(path, ".number` cannot be empty"@)])
        } else if !all_digits(n) {
            (st, seq![bt(path, ".number` must be a positive integer"@)])
        } else if n == "0"@ {
            (st, seq![bt(path, ".number` must be greater than zero"@)])
        } else if st.disk_numbers.contains((disk, n)) {
            (st, seq![bt2(path, ".number` duplicates partition "@, n, " on "@ + disk)])
        } else {
            (PartState { disk_numbers: st.disk_numbers.push((disk, n)), ..st }, none_msgs())
        },
    }
}

pub open spec fn mountpoint_step(st: PartState, path: Seq<char>, p: PartitionView) -> (
    PartState,
    Seq<Seq<char>>,
) {
    match p.mountpoint {
        Some(m) => if all_ws(m) {
            (st, seq![bt(path, ".mountpoint` cannot be empty"@)])
        } else if !(m.len() > 0 && m[0] == '/') {
            (st, seq![bt(path, ".mountpoint` must be an absolute path"@)])
        } else {
            let seen = st.mountpoints.contains(m);
            (
                PartState {
                    mountpoints: if seen {
                        st.mountpoints
                    } else {
                        st.mountpoints.push(m)
                    },
                    has_root: st.has_root || m == "/"@,
                    ..st
                },
                one_if(seen, bt2(path, ".mountpoint` duplicates `"@, m, "`"@)) + one_if(
                    p.filesystem == "swap"@,
                    bt(path, ".mountpoint` must be omitted for swap partitions"@),
                ),
            )
        },
        None => (
            st,
            one_if(
                p.filesystem != "swap"@,
                bt(path, ".mountpoint` is required unless filesystem is `swap`"@),
            ),
        ),
    }
}

/// One partition, in the order the checks run.
#[verifier::opaque]
pub open spec fn partition_step(st: PartState, index: nat, p: PartitionView) -> (
    PartState,
    Seq<Seq<char>>,
) {
    let path = item_path("storage.partitions"@, index);
    let e_disk = disk_errors(path, p.disk);
    let (s1, e_num) = number_step(st, path, p.disk, p.number);
    let e_fs = one_if(
        !supported_partition_fs(p.filesystem),
        bt2(path, ".filesystem` unsupported filesystem `"@, p.filesystem, "`"@),
    );
    let (s2, e_mp) = mountpoint_step(s1, path, p);
    let e_flags = flag_errors(path, p.flags);
    let e_opts = mount_option_errors(path, p.mount_options);
    let e_sv = one_if(
        p.subvolumes.len() > 0 && p.filesystem != "btrfs"@,
        bt(path, ".subvolumes` is only supported for Btrfs partitions"@),
    );
    let (ss, e_svs) = subvolumes_fold(
        SubState { mountpoints: seq![], has_root: s2.has_root },
        path,
        p.subvolumes,
        s2.mountpoints,
        p.mountpoint,
    );
    (
        PartState { has_root: ss.has_root, ..s2 },
        e_disk + e_num + e_fs + e_mp + e_flags + e_opts + e_sv + e_svs,
    )
}

pub open spec fn partitions_fold(parts: Seq<PartitionView>) -> (PartState, Seq<Seq<char>>)
    decreases parts.len(),
{
    if parts.len() == 0 {
        (PartState { mountpoints: seq![], disk_numbers: seq![], has_root: false }, none_msgs())
    } else {
        let (s1, e1) = partitions_fold(parts.drop_last());
        let (s2, e2) = partition_step(s1, (parts.len() - 1) as nat, parts.last());
        (s2, e1 + e2)
    }
}

pub open spec fn partition_errors(parts: Seq<PartitionView>) -> Seq<Seq<char>> {
    let (st, errs) = partitions_fold(parts);
    errs + one_if(!st.has_root, "`storage.partitions` must include a `/` mountpoint"@)
}

pub open spec fn unsupported_root_msgs(root: Option<Seq<char>>) -> Seq<Seq<char>> {
    match root {
        Some(r) => one_if(
            !supported_root_fs(r),
            "`storage.root_filesystem` unsupported filesystem `"@ + r + "`"@,
        ),
        None => none_msgs(),
    }
}

pub open spec fn storage_layout_errors(st: StorageView) -> Seq<Seq<char>> {
    let layout = st.layout;
    one_if(
        !(layout == "whole_disk"@ || layout == "manual"@ || layout == "installed"@),
        "`storage.layout` unsupported layout `"@ + layout + "`"@,
    )
}

/// For an installed system: what such a layout must not declare. Otherwise: the target.
pub open spec fn storage_target_errors(st: StorageView) -> Seq<Seq<char>> {
    if st.layout == "installed"@ {
        one_if(
            st.partitions.len() > 0,
            "`storage.partitions` is not supported for installed storage history"@,
        ) + match st.disk {
            Some(d) => one_if(
                !all_ws(d),
                "`storage.disk` is not supported for installed storage history"@,
            ),
            None => none_msgs(),
        } + unsupported_root_msgs(st.root_filesystem)
    } else if all_ws(st.target) {
        seq!["`storage.target` cannot be empty"@]
    } else if !(st.target.len() > 0 && st.target[0] == '/') {
        seq!["`storage.target` must be an absolute path"@]
    } else {
        none_msgs()
    }
}

/// A layout without partitions: the whole-disk fields.
pub open spec fn whole_disk_errors(st: StorageView) -> Seq<Seq<char>> {
    one_if(
        st.layout != "whole_disk"@,
        "`storage.partitions` is required for manual storage layouts"@,
    ) + match st.disk {
        Some(d) => if all_ws(d) {
            seq!["`storage.disk` cannot be empty"@]
        } else if !seq_starts_with(d, "/dev/"@) {
            seq!["`storage.disk` must be an absolute /dev path"@]
        } else {
            none_msgs()
        },
        None => seq!["`storage.disk` is required for whole-disk storage layouts"@],
    } + match st.efi_filesystem {
        Some(e) => one_if(
            e != "fat32"@,
            "`storage.efi_filesystem` unsupported filesystem `"@ + e + "`"@,
        ),
        None => none_msgs(),
    } + unsupported_root_msgs(st.root_filesystem)
}

#[verifier::opaque]
pub open spec fn storage_errors(st: StorageView) -> Seq<Seq<char>> {
    let installed = st.layout == "installed"@;
    storage_layout_errors(st) + storage_target_errors(st) + if !installed && st.partitions.len()
        == 0 {
        whole_disk_errors(st)
    } else if !installed {
        partition_errors(st.partitions)
    } else {
        none_msgs()
    }
}

pub open spec fn managed_file_errors(m: ManagedFileView) -> Seq<Seq<char>> {
    one_if(all_ws(m.path), "`files.managed[].path` cannot be empty"@) + one_if(
        m.content.contains('\0'),
        "`files.managed` content for `"@ + m.path + "` cannot contain NUL bytes"@,
    ) + match m.mode {
        Some(mode) => one_if(
            !valid_mode(mode),
            "`files.managed` mode for `"@ + m.path + "` must be an octal string like `0644`"@,
        ),
        None => none_msgs(),
    }
}

pub open spec fn files_errors(ms: Seq<ManagedFileView>) -> Seq<Seq<char>>
    decreases ms.len(),
{
    if ms.len() == 0 {
        none_msgs()
    } else {
        files_errors(ms.drop_last()) + managed_file_errors(ms.last())
    }
}

pub open spec fn key_errors(path: Seq<char>, keys: Seq<Seq<char>>) -> Seq<Seq<char>>
    decreases keys.len(),
{
    if keys.len() == 0 {
        none_msgs()
    } else {
        key_errors(path, keys.drop_last()) + one_if(
            !valid_identifier(keys.last()),
            bt2(
                path,
                "` key `"@,
                keys.last(),
                "` must contain only letters, numbers, `_`, or `-`"@,
            ),
        )
    }
}

pub open spec fn attr_errors(path: Seq<char>, pkgs: Seq<Seq<char>>) -> Seq<Seq<char>>
    decreases pkgs.len(),
{
    if pkgs.len() == 0 {
        none_msgs()
    } else {
        attr_errors(path, pkgs.drop_last()) + one_if(
            !valid_attr_path(pkgs.last()),
            bt2(
                path,
                "` package `"@,
                pkgs.last(),
                "` must be a Nix attr path using letters, numbers, `_`, `-`, or `.`"@,
            ),
        )
    }
}

pub open spec fn task_errors(prefix: Seq<char>, tasks: Seq<Seq<char>>) -> Seq<Seq<char>>
    decreases tasks.len(),
{
    if tasks.len() == 0 {
        none_msgs()
    } else {
        task_errors(prefix, tasks.drop_last()) + one_if(
            all_ws(tasks.last()),
            bt(prefix, ".tasks` task names cannot be empty"@),
        )
    }
}

pub open spec fn workspace_errors(name: Seq<char>, w: WorkspaceView) -> Seq<Seq<char>> {
    let d = workspace_domain(name);
    one_if(
        !valid_identifier(name),
        "`workspaces` name `"@ + name + "` must contain only letters, numbers, `_`, or `-`"@,
    ) + one_if(all_ws(w.path), bt(d, ".path` cannot be empty"@)) + one_if(
        w.backend != "devenv"@,
        bt2(d, ".backend` unsupported backend `"@, w.backend, "`"@),
    ) + key_errors(d + ".languages"@, keys_of(w.languages)) + key_errors(
        d + ".services"@,
        keys_of(w.services),
    ) + attr_errors(d + ".packages"@, w.packages) + task_errors(
        d,
        keys_of(w.tasks),
    )
}

pub open spec fn workspaces_errors(ws: Seq<(Seq<char>, WorkspaceView)>) -> Seq<Seq<char>>
    decreases ws.len(),
{
    if ws.len() == 0 {
        none_msgs()
    } else {
        workspaces_errors(ws.drop_last()) + workspace_errors(ws.last().0, ws.last().1)
    }
}

pub open spec fn packages_domain_errors(p: Option<PackagesView>) -> Seq<Seq<char>> {
    match p {
        Some(p) => package_errors("packages.pacman"@, p.pacman) + package_errors(
            "packages.aur"@,
            p.aur,
        ) + package_errors("packages.nix"@, p.nix),
        None => seq!["missing required top-level domain `packages`"@],
    }
}

pub open spec fn storage_domain_errors(s: Option<StorageView>) -> Seq<Seq<char>> {
    match s {
        Some(st) => storage_errors(st),
        None => none_msgs(),
    }
}

pub open spec fn files_domain_errors(f: Option<FilesView>) -> Seq<Seq<char>> {
    match f {
        Some(f) => files_errors(f.managed),
        None => none_msgs(),
    }
}

pub open spec fn workspaces_domain_errors(w: Option<WorkspacesView>) -> Seq<Seq<char>> {
    match w {
        Some(w) => workspaces_errors(w.entries),
        None => none_msgs(),
    }
}

/// Every validation error of a configuration, in the order they are reported.
pub open spec fn spec_validate(c: ConfigView) -> Seq<Seq<char>> {
    match c.system {
        None => seq!["missing required top-level domain `system`"@],
        Some(sys) => one_if(all_ws(sys.hostname), "`system.hostname` cannot be empty"@)
            + packages_domain_errors(c.packages) + one_if(
            c.services is None,
            "missing required top-level domain `services`"@,
        ) + storage_domain_errors(c.storage) + files_domain_errors(c.files)
            + workspaces_domain_errors(c.workspaces),
    }
}

// ---------------------------------------------------------------------------
// Executable checks, each appending exactly the messages its specification names.

fn push_msg(errors: &mut Vec<String>, m: String)
    ensures
        strings_view(final(errors)@) == strings_view(old(errors)@) + seq![m@],
{
    let ghost mv = m@;
    errors.push(m);
    assert(strings_view(errors@) =~= strings_view(old(errors)@) + seq![mv]);
}

fn push_if(errors: &mut Vec<String>, c: bool, m: String)
    ensures
        strings_view(final(errors)@) == strings_view(old(errors)@) + one_if(c, m@),
{
    if c {
        push_msg(errors, m);
    } else {
        assert(strings_view(errors@) + one_if(c, m@) =~= strings_view(errors@));
    }
}

fn bt_msg(path: &str, rest: &str) -> (s: String)
    ensures
        s@ == bt(path@, rest@),
{
    cat3("`", path, rest)
}

fn bt2_msg(path: &str, mid: &str, value: &str, end: &str) -> (s: String)
    ensures
        s@ == bt2(path@, mid@, value@, end@),
{
    let mut s = cat3("`", path, mid);
    push_str(&mut s, value);
    push_str(&mut s, end);
    s
}

fn is_ident_char_exec(c: char) -> (r: bool)
    ensures
        r == is_ident_char(c),
{
    is_ascii_alnum_char(c) || c == '_' || c == '-'
}

fn is_valid_identifier(value: &str) -> (r: bool)
    ensures
        r == valid_identifier(value@),
{
    let v = chars_of(value);
    if v.len() == 0 {
        return false;
    }
    let mut i: usize = 0;
    while i < v.len()
        invariant
            i <= v.len(),
            v@ == value@,
            forall|j: int| 0 <= j < i ==> is_ident_char(#[trigger] v@[j]),
        decreases v.len() - i,
    {
        if !is_ident_char_exec(v[i]) {
            return false;
        }
        i += 1;
    }
    true
}

fn all_digits_str(value: &str) -> (r: bool)
    ensures
        r == all_digits(value@),
{
    let v = chars_of(value);
    let mut i: usize = 0;
    while i < v.len()
        invariant
            i <= v.len(),
            v@ == value@,
            forall|j: int| 0 <= j < i ==> is_ascii_digit(#[trigger] v@[j]),
        decreases v.len() - i,
    {
        if !is_ascii_digit_char(v[i]) {
            return false;
        }
        i += 1;
    }
    true
}

fn all_subvolume_chars_str(value: &str) -> (r: bool)
    ensures
        r == all_subvolume_chars(value@),
{
    let v = chars_of(value);
    let mut i: usize = 0;
    while i < v.len()
        invariant
            i <= v.len(),
            v@ == value@,
            forall|j: int| 0 <= j < i ==> is_subvolume_char(#[trigger] v@[j]),
        decreases v.len() - i,
    {
        let c = v[i];
        if !(is_ascii_alnum_char(c) || c == '_' || c == '-' || c == '.' || c == '@') {
            return false;
        }
        i += 1;
    }
    true
}

fn is_valid_mode(mode: &str) -> (r: bool)
    ensures
        r == valid_mode(mode@),
{
    let v = chars_of(mode);
    if v.len() != 4 || v[0] != '0' {
        return false;
    }
    let mut i: usize = 0;
    while i < v.len()
        invariant
            i <= v.len(),
            v@ == mode@,
            forall|j: int| 0 <= j < i ==> is_octal_char(#[trigger] v@[j]),
        decreases v.len() - i,
    {
        if !('0' <= v[i] && v[i] <= '7') {
            return false;
        }
        i += 1;
    }
    true
}

fn is_valid_attr_path(value: &str) -> (r: bool)
    ensures
        r == valid_attr_path(value@),
{
    let v = chars_of(value);
    let n = v.len();
    if n == 0 || v[0] == '.' || v[n - 1] == '.' {
        return false;
    }
    let mut i: usize = 0;
    while i < n
        invariant
            i <= n,
            n == v.len(),
            v@ == value@,
            n > 0,
            forall|j: int| 0 <= j < i ==> is_ident_char(#[trigger] v@[j]) || v@[j] == '.',
            forall|j: int| 0 <= j < i && j + 1 < n ==> !(#[trigger] v@[j] == '.' && v@[j + 1] == '.'),
        decreases n - i,
    {
        let c = v[i];
        if !(is_ident_char_exec(c) || c == '.') {
            return false;
        }
        if i + 1 < n && c == '.' && v[i + 1] == '.' {
            return false;
        }
        i += 1;
    }
    true
}

fn is_supported_root_filesystem(filesystem: &str) -> (r: bool)
    ensures
        r == supported_root_fs(filesystem@),
{
    str_eq(filesystem, "ext4") || str_eq(filesystem, "btrfs") || str_eq(filesystem, "xfs")
        || str_eq(filesystem, "f2fs")
}

fn is_supported_partition_filesystem(filesystem: &str) -> (r: bool)
    ensures
        r == supported_partition_fs(filesystem@),
{
    str_eq(filesystem, "fat32") || str_eq(filesystem, "ext4") || str_eq(filesystem, "btrfs")
        || str_eq(filesystem, "xfs") || str_eq(filesystem, "f2fs") || str_eq(filesystem, "swap")
}

fn check_package_name(errors: &mut Vec<String>, path: &str, raw: &str)
    ensures
        strings_view(final(errors)@) == strings_view(old(errors)@) + package_name_errors(
            path@,
            raw@,
        ),
{
    let package = trim_str(raw);
    let p = package.as_str();
    if p.is_empty() {
        push_msg(errors, bt_msg(path, "` package names cannot be empty"));
    } else {
        let ghost e1 = strings_view(errors@);
        push_if(
            errors,
            has_whitespace(p),
            bt2_msg(path, "` package `", p, "` cannot contain whitespace"),
        );
        let ghost e2 = strings_view(errors@);
        push_if(
            errors,
            contains_char(p, '=') || contains_char(p, '<') || contains_char(p, '>'),
            bt2_msg(path, "` package `", p, "` uses unsupported version constraint syntax"),
        );
        assert(strings_view(errors@) =~= e1 + package_name_errors(path@, raw@));
    }
}

fn validate_package_names(errors: &mut Vec<String>, path: &str, packages: &Vec<String>)
    ensures
        strings_view(final(errors)@) == strings_view(old(errors)@) + package_errors(
            path@,
            strings_view(packages@),
        ),
{
    let ghost e0 = strings_view(errors@);
    let ghost ps = strings_view(packages@);
    let mut i: usize = 0;
    assert(ps.take(0) =~= Seq::<Seq<char>>::empty());
    assert(e0 + package_errors(path@, ps.take(0)) =~= e0);
    while i < packages.len()
        invariant
            i <= packages.len(),
            ps == strings_view(packages@),
            strings_view(errors@) == e0 + package_errors(path@, ps.take(i as int)),
        decreases packages.len() - i,
    {
        assert(ps.take(i + 1).drop_last() =~= ps.take(i as int));
        assert(ps.take(i + 1).last() == packages@[i as int]@);
        check_package_name(errors, path, packages[i].as_str());
        assert(strings_view(errors@) =~= e0 + package_errors(path@, ps.take(i + 1)));
        i += 1;
    }
    assert(ps.take(packages.len() as int) =~= ps);
}

fn check_mount_options(errors: &mut Vec<String>, path: &str, options: &Vec<String>)
    ensures
        strings_view(final(errors)@) == strings_view(old(errors)@) + mount_option_errors(
            path@,
            strings_view(options@),
        ),
{
    let ghost e0 = strings_view(errors@);
    let ghost os = strings_view(options@);
    let mut i: usize = 0;
    assert(e0 + mount_option_errors(path@, os.take(0)) =~= e0);
    while i < options.len()
        invariant
            i <= options.len(),
            os == strings_view(options@),
            strings_view(errors@) == e0 + mount_option_errors(path@, os.take(i as int)),
        decreases options.len() - i,
    {
        assert(os.take(i + 1).drop_last() =~= os.take(i as int));
        assert(os.take(i + 1).last() == options@[i as int]@);
        let o = options[i].as_str();
        push_if(
            errors,
            is_blank(o) || has_whitespace(o),
            bt_msg(path, ".mount_options` entries cannot be empty or contain whitespace"),
        );
        assert(strings_view(errors@) =~= e0 + mount_option_errors(path@, os.take(i + 1)));
        i += 1;
    }
    assert(os.take(options.len() as int) =~= os);
}

fn check_flags(errors: &mut Vec<String>, path: &str, flags: &Vec<String>)
    ensures
        strings_view(final(errors)@) == strings_view(old(errors)@) + flag_errors(
            path@,
            strings_view(flags@),
        ),
{
    let ghost e0 = strings_view(errors@);
    let ghost fs = strings_view(flags@);
    let mut i: usize = 0;
    assert(e0 + flag_errors(path@, fs.take(0)) =~= e0);
    while i < flags.len()
        invariant
            i <= flags.len(),
            fs == strings_view(flags@),
            strings_view(errors@) == e0 + flag_errors(path@, fs.take(i as int)),
        decreases flags.len() - i,
    {
        assert(fs.take(i + 1).drop_last() =~= fs.take(i as int));
        assert(fs.take(i + 1).last() == flags@[i as int]@);
        let f = flags[i].as_str();
        push_if(
            errors,
            !is_valid_identifier(f),
            bt2_msg(path, ".flags` entry `", f, "` must contain only letters, numbers, `_`, or `-`"),
        );
        assert(strings_view(errors@) =~= e0 + flag_errors(path@, fs.take(i + 1)));
        i += 1;
    }
    assert(fs.take(flags.len() as int) =~= fs);
}

pub fn contains_string_pub(v: &Vec<String>, s: &str) -> (r: bool)
    ensures
        r == strings_view(v@).contains(s@),
{
    let mut i: usize = 0;
    while i < v.len()
        invariant
            i <= v.len(),
            forall|j: int| 0 <= j < i ==> strings_view(v@)[j] != s@,
        decreases v.len() - i,
    {
        if str_eq(v[i].as_str(), s) {
            assert(strings_view(v@)[i as int] == s@);
            return true;
        }
        i += 1;
    }
    false
}

pub open spec fn pairs_view(v: Seq<(String, String)>) -> Seq<(Seq<char>, Seq<char>)> {
    v.map_values(|p: (String, String)| (p.0@, p.1@))
}

fn contains_pair(v: &Vec<(String, String)>, a: &str, b: &str) -> (r: bool)
    ensures
        r == pairs_view(v@).contains((a@, b@)),
{
    let mut i: usize = 0;
    while i < v.len()
        invariant
            i <= v.len(),
            forall|j: int| 0 <= j < i ==> pairs_view(v@)[j] != (a@, b@),
        decreases v.len() - i,
    {
        if str_eq(v[i].0.as_str(), a) && str_eq(v[i].1.as_str(), b) {
            assert(pairs_view(v@)[i as int] == (a@, b@));
            return true;
        }
        i += 1;
    }
    false
}

fn check_disk(errors: &mut Vec<String>, path: &str, disk: &str)
    ensures
        strings_view(final(errors)@) == strings_view(old(errors)@) + disk_errors(path@, disk@),
{
    if is_blank(disk) {
        push_msg(errors, bt_msg(path, ".disk` cannot be empty"));
    } else if !starts_with(disk, "/dev/") {
        push_msg(errors, bt_msg(path, ".disk` must be an absolute /dev path"));
    } else {
        assert(strings_view(errors@) + none_msgs() =~= strings_view(errors@));
    }
}

fn check_number(
    errors: &mut Vec<String>,
    disk_numbers: &mut Vec<(String, String)>,
    path: &str,
    disk: &String,
    number: &Option<String>,
    Ghost(st0): Ghost<PartState>,
)
    requires
        st0.disk_numbers == pairs_view(old(disk_numbers)@),
    ensures
        number_step(st0, path@, disk@, opt_view(*number)).0 == (PartState {
            disk_numbers: pairs_view(final(disk_numbers)@),
            ..st0
        }),
        strings_view(final(errors)@) == strings_view(old(errors)@) + number_step(
            st0,
            path@,
            disk@,
            opt_view(*number),
        ).1,
{
    match number {
        None => {
            assert(strings_view(errors@) + none_msgs() =~= strings_view(errors@));
        },
        Some(n) => {
            let ns = n.as_str();
            if is_blank(ns) {
                push_msg(errors, bt_msg(path, ".number` cannot be empty"));
            } else if !all_digits_str(ns) {
                push_msg(errors, bt_msg(path, ".number` must be a positive integer"));
            } else if str_eq(ns, "0") {
                push_msg(errors, bt_msg(path, ".number` must be greater than zero"));
            } else if contains_pair(disk_numbers, disk.as_str(), ns) {
                let tail = cat2(" on ", disk.as_str());
                push_msg(errors, bt2_msg(path, ".number` duplicates partition ", ns, tail.as_str()));
            } else {
                let ghost dn0 = disk_numbers@;
                disk_numbers.push((disk.clone(), n.clone()));
                assert(pairs_view(disk_numbers@) =~= pairs_view(dn0).push((disk@, n@)));
                assert(strings_view(errors@) + none_msgs() =~= strings_view(errors@));
            }
        },
    }
}


fn check_mountpoint(
    errors: &mut Vec<String>,
    mountpoints: &mut Vec<String>,
    has_root: &mut bool,
    path: &str,
    p: &StoragePartitionConfig,
    Ghost(st0): Ghost<PartState>,
)
    requires
        st0.mountpoints == strings_view(old(mountpoints)@),
        st0.has_root == *old(has_root),
    ensures
        mountpoint_step(st0, path@, p@).0 == (PartState {
            mountpoints: strings_view(final(mountpoints)@),
            has_root: *final(has_root),
            ..st0
        }),
        strings_view(final(errors)@) == strings_view(old(errors)@) + mountpoint_step(
            st0,
            path@,
            p@,
        ).1,
{
    let is_swap = str_eq(p.filesystem.as_str(), "swap");
    match &p.mountpoint {
        Some(m) => {
            let ms = m.as_str();
            if is_blank(ms) {
                push_msg(errors, bt_msg(path, ".mountpoint` cannot be empty"));
            } else if !starts_with_char(ms, '/') {
                push_msg(errors, bt_msg(path, ".mountpoint` must be an absolute path"));
            } else {
                if str_eq(ms, "/") {
                    *has_root = true;
                }
                let ghost e0 = strings_view(errors@);
                let seen = contains_string_pub(mountpoints, ms);
                if !seen {
                    let ghost m0 = mountpoints@;
                    mountpoints.push(m.clone());
                    assert(strings_view(mountpoints@) =~= strings_view(m0).push(m@));
                }
                push_if(errors, seen, bt2_msg(path, ".mountpoint` duplicates `", ms, "`"));
                push_if(
                    errors,
                    is_swap,
                    bt_msg(path, ".mountpoint` must be omitted for swap partitions"),
                );
                assert(strings_view(errors@) =~= e0 + mountpoint_step(st0, path@, p@).1);
            }
        },
        None => {
            push_if(
                errors,
                !is_swap,
                bt_msg(path, ".mountpoint` is required unless filesystem is `swap`"),
            );
        },
    }
}

fn check_subvolume_name(errors: &mut Vec<String>, sp: &str, name: &str)
    ensures
        strings_view(final(errors)@) == strings_view(old(errors)@) + subvolume_name_errors(
            sp@,
            name@,
        ),
{
    if is_blank(name) {
        push_msg(errors, bt_msg(sp, ".name` cannot be empty"));
    } else if starts_with_char(name, '/') || contains_char(name, ':') {
        push_msg(errors, bt_msg(sp, ".name` must be a relative Btrfs subvolume name"));
    } else if !all_subvolume_chars_str(name) {
        push_msg(
            errors,
            bt_msg(sp, ".name` must contain only letters, numbers, `_`, `-`, `.`, or `@`"),
        );
    } else {
        assert(strings_view(errors@) + none_msgs() =~= strings_view(errors@));
    }
}

fn check_subvolume(
    errors: &mut Vec<String>,
    sub_mounts: &mut Vec<String>,
    has_root: &mut bool,
    part_path: &str,
    index: usize,
    sv: &StorageSubvolumeConfig,
    part_mounts: &Vec<String>,
    part_mount: &Option<String>,
)
    requires
        index < usize::MAX,
    ensures
        subvolume_step(
            SubState { mountpoints: strings_view(old(sub_mounts)@), has_root: *old(has_root) },
            part_path@,
            index as nat,
            sv@,
            strings_view(part_mounts@),
            opt_view(*part_mount),
        ).0 == (SubState {
            mountpoints: strings_view(final(sub_mounts)@),
            has_root: *final(has_root),
        }),
        strings_view(final(errors)@) == strings_view(old(errors)@) + subvolume_step(
            SubState { mountpoints: strings_view(old(sub_mounts)@), has_root: *old(has_root) },
            part_path@,
            index as nat,
            sv@,
            strings_view(part_mounts@),
            opt_view(*part_mount),
        ).1,
{
    let ghost st = SubState {
        mountpoints: strings_view(sub_mounts@),
        has_root: *has_root,
    };
    let ghost e0 = strings_view(errors@);
    let base = cat2(part_path, ".subvolumes");
    let sp = indexed_path(base.as_str(), index);
    let spath = sp.as_str();
    check_subvolume_name(errors, spath, sv.name.as_str());
    let ghost e1 = strings_view(errors@);
    let mp = sv.mountpoint.as_str();
    if is_blank(mp) {
        push_msg(errors, bt_msg(spath, ".mountpoint` cannot be empty"));
    } else if !starts_with_char(mp, '/') {
        push_msg(errors, bt_msg(spath, ".mountpoint` must be an absolute path"));
    } else {
        if str_eq(mp, "/") {
            *has_root = true;
        }
        let seen = contains_string_pub(sub_mounts, mp);
        if !seen {
            let ghost m0 = sub_mounts@;
            sub_mounts.push(sv.mountpoint.clone());
            assert(strings_view(sub_mounts@) =~= strings_view(m0).push(mp@));
        }
        push_if(errors, seen, bt2_msg(spath, ".mountpoint` duplicates `", mp, "`"));
        let other_partition = match part_mount {
            Some(pm) => !str_eq(pm.as_str(), mp),
            None => true,
        };
        push_if(
            errors,
            contains_string_pub(part_mounts, mp) && other_partition,
            bt2_msg(spath, ".mountpoint` duplicates `", mp, "`"),
        );
    }
    let ghost e2 = strings_view(errors@);
    check_mount_options(errors, spath, &sv.mount_options);
    proof {
        let (st2, es) = subvolume_step(
            st,
            part_path@,
            index as nat,
            sv@,
            strings_view(part_mounts@),
            opt_view(*part_mount),
        );
        assert(sp@ == item_path(part_path@ + ".subvolumes"@, index as nat));
        assert(e2 =~= e1 + (e2.skip(e1.len() as int)));
        assert(strings_view(errors@) =~= e0 + es);
    }
}

fn check_subvolumes(
    errors: &mut Vec<String>,
    has_root: &mut bool,
    path: &str,
    subvolumes: &Vec<StorageSubvolumeConfig>,
    mountpoints: &Vec<String>,
    part_mount: &Option<String>,
)
    ensures
        subvolumes_fold(
            SubState { mountpoints: seq![], has_root: *old(has_root) },
            path@,
            views_of(subvolumes@),
            strings_view(mountpoints@),
            opt_view(*part_mount),
        ).0.has_root == *final(has_root),
        strings_view(final(errors)@) == strings_view(old(errors)@) + subvolumes_fold(
            SubState { mountpoints: seq![], has_root: *old(has_root) },
            path@,
            views_of(subvolumes@),
            strings_view(mountpoints@),
            opt_view(*part_mount),
        ).1,
{
    let ghost e0 = strings_view(errors@);
    let mut sub_mounts: Vec<String> = Vec::new();
    let ghost svs = views_of(subvolumes@);
    let ghost ss0 = SubState { mountpoints: seq![], has_root: *has_root };
    let ghost pm = strings_view(mountpoints@);
    let ghost pmo = opt_view(*part_mount);
    let mut i: usize = 0;
    assert(strings_view(sub_mounts@) =~= Seq::<Seq<char>>::empty());
    assert(svs.take(0) =~= Seq::<SubvolumeView>::empty());
    assert(e0 + subvolumes_fold(ss0, path@, svs.take(0), pm, pmo).1 =~= e0);
    while i < subvolumes.len()
        invariant
            i <= subvolumes.len(),
            svs == views_of(subvolumes@),
            pm == strings_view(mountpoints@),
            pmo == opt_view(*part_mount),
            subvolumes_fold(ss0, path@, svs.take(i as int), pm, pmo).0 == (SubState {
                mountpoints: strings_view(sub_mounts@),
                has_root: *has_root,
            }),
            strings_view(errors@) == e0 + subvolumes_fold(ss0, path@, svs.take(i as int), pm, pmo).1,
        decreases subvolumes.len() - i,
    {
        assert(svs.take(i + 1).drop_last() =~= svs.take(i as int));
        assert(svs.take(i + 1).last() == subvolumes@[i as int]@);
        check_subvolume(
            errors,
            &mut sub_mounts,
            has_root,
            path,
            i,
            &subvolumes[i],
            mountpoints,
            part_mount,
        );
        assert(strings_view(errors@) =~= e0 + subvolumes_fold(
            ss0,
            path@,
            svs.take(i + 1),
            pm,
            pmo,
        ).1);
        i += 1;
    }
    assert(svs.take(subvolumes.len() as int) =~= svs);
}

#[verifier::rlimit(40)]
fn check_partition(
    errors: &mut Vec<String>,
    mountpoints: &mut Vec<String>,
    disk_numbers: &mut Vec<(String, String)>,
    has_root: &mut bool,
    index: usize,
    p: &StoragePartitionConfig,
)
    requires
        index < usize::MAX,
    ensures
        partition_step(
            PartState {
                mountpoints: strings_view(old(mountpoints)@),
                disk_numbers: pairs_view(old(disk_numbers)@),
                has_root: *old(has_root),
            },
            index as nat,
            p@,
        ).0 == (PartState {
            mountpoints: strings_view(final(mountpoints)@),
            disk_numbers: pairs_view(final(disk_numbers)@),
            has_root: *final(has_root),
        }),
        strings_view(final(errors)@) == strings_view(old(errors)@) + partition_step(
            PartState {
                mountpoints: strings_view(old(mountpoints)@),
                disk_numbers: pairs_view(old(disk_numbers)@),
                has_root: *old(has_root),
            },
            index as nat,
            p@,
        ).1,
{
    let ghost st0 = PartState {
        mountpoints: strings_view(mountpoints@),
        disk_numbers: pairs_view(disk_numbers@),
        has_root: *has_root,
    };
    let ghost e0 = strings_view(errors@);
    let path_s = indexed_path("storage.partitions", index);
    let path = path_s.as_str();
    check_disk(errors, path, p.disk.as_str());
    let ghost e1 = strings_view(errors@);
    check_number(errors, disk_numbers, path, &p.disk, &p.number, Ghost(st0));
    let ghost s1 = PartState { disk_numbers: pairs_view(disk_numbers@), ..st0 };
    let ghost e2 = strings_view(errors@);
    push_if(
        errors,
        !is_supported_partition_filesystem(p.filesystem.as_str()),
        bt2_msg(path, ".filesystem` unsupported filesystem `", p.filesystem.as_str(), "`"),
    );
    let ghost e3 = strings_view(errors@);
    check_mountpoint(errors, mountpoints, has_root, path, p, Ghost(s1));
    let ghost s2 = PartState {
        mountpoints: strings_view(mountpoints@),
        has_root: *has_root,
        ..s1
    };
    let ghost e4 = strings_view(errors@);
    check_flags(errors, path, &p.flags);
    let ghost e5 = strings_view(errors@);
    check_mount_options(errors, path, &p.mount_options);
    let ghost e6 = strings_view(errors@);
    push_if(
        errors,
        p.subvolumes.len() > 0 && !str_eq(p.filesystem.as_str(), "btrfs"),
        bt_msg(path, ".subvolumes` is only supported for Btrfs partitions"),
    );
    let ghost e7 = strings_view(errors@);
    check_subvolumes(errors, has_root, path, &p.subvolumes, mountpoints, &p.mountpoint);
    proof {
        reveal(partition_step);
        let pv = p@;
        let pth = item_path("storage.partitions"@, index as nat);
        assert(path@ == pth);
        let e_disk = disk_errors(pth, pv.disk);
        let (s1x, e_num) = number_step(st0, pth, pv.disk, pv.number);
        assert(s1x == s1);
        let e_fs = one_if(
            !supported_partition_fs(pv.filesystem),
            bt2(pth, ".filesystem` unsupported filesystem `"@, pv.filesystem, "`"@),
        );
        let (s2x, e_mp) = mountpoint_step(s1x, pth, pv);
        assert(s2x == s2);
        let e_flags = flag_errors(pth, pv.flags);
        let e_opts = mount_option_errors(pth, pv.mount_options);
        let e_sv = one_if(
            pv.subvolumes.len() > 0 && pv.filesystem != "btrfs"@,
            bt(pth, ".subvolumes` is only supported for Btrfs partitions"@),
        );
        let (ss, e_svs) = subvolumes_fold(
            SubState { mountpoints: seq![], has_root: s2x.has_root },
            pth,
            pv.subvolumes,
            s2x.mountpoints,
            pv.mountpoint,
        );
        assert(e1 == e0 + e_disk);
        assert(e2 == e1 + e_num);
        assert(e3 == e2 + e_fs);
        assert(e4 == e3 + e_mp);
        assert(e5 == e4 + e_flags);
        assert(e6 == e5 + e_opts);
        assert(e7 == e6 + e_sv);
        assert(strings_view(errors@) == e7 + e_svs);
        assert(strings_view(errors@) =~= e0 + (e_disk + e_num + e_fs + e_mp + e_flags + e_opts
            + e_sv + e_svs));
    }
}


fn check_partitions(errors: &mut Vec<String>, partitions: &Vec<StoragePartitionConfig>)
    ensures
        strings_view(final(errors)@) == strings_view(old(errors)@) + partition_errors(
            views_of(partitions@),
        ),
{
    let ghost e0 = strings_view(errors@);
    let ghost ps = views_of(partitions@);
    let mut mountpoints: Vec<String> = Vec::new();
    let mut disk_numbers: Vec<(String, String)> = Vec::new();
    let mut has_root = false;
    let mut i: usize = 0;
    assert(ps.take(0) =~= Seq::<PartitionView>::empty());
    assert(strings_view(mountpoints@) =~= Seq::<Seq<char>>::empty());
    assert(pairs_view(disk_numbers@) =~= Seq::<(Seq<char>, Seq<char>)>::empty());
    assert(e0 + partitions_fold(ps.take(0)).1 =~= e0);
    while i < partitions.len()
        invariant
            i <= partitions.len(),
            ps == views_of(partitions@),
            partitions_fold(ps.take(i as int)).0 == (PartState {
                mountpoints: strings_view(mountpoints@),
                disk_numbers: pairs_view(disk_numbers@),
                has_root: has_root,
            }),
            strings_view(errors@) == e0 + partitions_fold(ps.take(i as int)).1,
        decreases partitions.len() - i,
    {
        assert(ps.take(i + 1).drop_last() =~= ps.take(i as int));
        assert(ps.take(i + 1).last() == partitions@[i as int]@);
        check_partition(
            errors,
            &mut mountpoints,
            &mut disk_numbers,
            &mut has_root,
            i,
            &partitions[i],
        );
        assert(strings_view(errors@) =~= e0 + partitions_fold(ps.take(i + 1)).1);
        i += 1;
    }
    assert(ps.take(partitions.len() as int) =~= ps);
    let ghost e1 = strings_view(errors@);
    push_if(
        errors,
        !has_root,
        string_from("`storage.partitions` must include a `/` mountpoint"),
    );
    assert(strings_view(errors@) =~= e0 + partition_errors(ps));
}

fn check_root_filesystem(errors: &mut Vec<String>, root: &Option<String>)
    ensures
        strings_view(final(errors)@) == strings_view(old(errors)@) + unsupported_root_msgs(
            opt_view(*root),
        ),
{
    match root {
        Some(r) => {
            push_if(
                errors,
                !is_supported_root_filesystem(r.as_str()),
                cat3("`storage.root_filesystem` unsupported filesystem `", r.as_str(), "`"),
            );
        },
        None => {
            assert(strings_view(errors@) + none_msgs() =~= strings_view(errors@));
        },
    }
}

fn check_whole_disk(errors: &mut Vec<String>, storage: &StorageConfig)
    ensures
        strings_view(final(errors)@) == strings_view(old(errors)@) + whole_disk_errors(storage@),
{
    let ghost e0 = strings_view(errors@);
    push_if(
        errors,
        !str_eq(storage.layout.as_str(), "whole_disk"),
        string_from("`storage.partitions` is required for manual storage layouts"),
    );
    let ghost e1 = strings_view(errors@);
    match &storage.disk {
        Some(d) => {
            if is_blank(d.as_str()) {
                push_msg(errors, string_from("`storage.disk` cannot be empty"));
            } else if !starts_with(d.as_str(), "/dev/") {
                push_msg(errors, string_from("`storage.disk` must be an absolute /dev path"));
            } else {
                assert(strings_view(errors@) + none_msgs() =~= strings_view(errors@));
            }
        },
        None => {
            push_msg(
                errors,
                string_from("`storage.disk` is required for whole-disk storage layouts"),
            );
        },
    }
    let ghost e2 = strings_view(errors@);
    match &storage.efi_filesystem {
        Some(e) => {
            push_if(
                errors,
                !str_eq(e.as_str(), "fat32"),
                cat3("`storage.efi_filesystem` unsupported filesystem `", e.as_str(), "`"),
            );
        },
        None => {
            assert(strings_view(errors@) + none_msgs() =~= strings_view(errors@));
        },
    }
    let ghost e3 = strings_view(errors@);
    check_root_filesystem(errors, &storage.root_filesystem);
    assert(strings_view(errors@) =~= e0 + (e1.skip(e0.len() as int) + e2.skip(e1.len() as int)
        + e3.skip(e2.len() as int) + strings_view(errors@).skip(e3.len() as int)));
}

fn check_storage_target(errors: &mut Vec<String>, storage: &StorageConfig)
    ensures
        strings_view(final(errors)@) == strings_view(old(errors)@) + storage_target_errors(
            storage@,
        ),
{
    if str_eq(storage.layout.as_str(), "installed") {
        let ghost e1 = strings_view(errors@);
        push_if(
            errors,
            storage.partitions.len() > 0,
            string_from("`storage.partitions` is not supported for installed storage history"),
        );
        let ghost e1a = strings_view(errors@);
        match &storage.disk {
            Some(d) => {
                push_if(
                    errors,
                    !is_blank(d.as_str()),
                    string_from("`storage.disk` is not supported for installed storage history"),
                );
            },
            None => {
                assert(strings_view(errors@) + none_msgs() =~= strings_view(errors@));
            },
        }
        let ghost e1b = strings_view(errors@);
        check_root_filesystem(errors, &storage.root_filesystem);
        assert(strings_view(errors@) =~= e1 + (e1a.skip(e1.len() as int) + e1b.skip(
            e1a.len() as int,
        ) + strings_view(errors@).skip(e1b.len() as int)));
    } else if is_blank(storage.target.as_str()) {
        push_msg(errors, string_from("`storage.target` cannot be empty"));
    } else if !starts_with_char(storage.target.as_str(), '/') {
        push_msg(errors, string_from("`storage.target` must be an absolute path"));
    } else {
        assert(strings_view(errors@) + none_msgs() =~= strings_view(errors@));
    }
}

fn validate_storage_partitions(errors: &mut Vec<String>, storage: &StorageConfig)
    ensures
        strings_view(final(errors)@) == strings_view(old(errors)@) + storage_errors(storage@),
{
    reveal(storage_errors);
    let ghost e0 = strings_view(errors@);
    let layout = storage.layout.as_str();
    let installed = str_eq(layout, "installed");
    push_if(
        errors,
        !(str_eq(layout, "whole_disk") || str_eq(layout, "manual") || installed),
        cat3("`storage.layout` unsupported layout `", layout, "`"),
    );
    let ghost e1 = strings_view(errors@);
    check_storage_target(errors, storage);
    let ghost e2 = strings_view(errors@);
    if !installed && storage.partitions.len() == 0 {
        check_whole_disk(errors, storage);
    } else if !installed {
        check_partitions(errors, &storage.partitions);
    } else {
        assert(strings_view(errors@) + none_msgs() =~= strings_view(errors@));
    }
    assert(strings_view(errors@) =~= e0 + (e1.skip(e0.len() as int) + e2.skip(e1.len() as int)
        + strings_view(errors@).skip(e2.len() as int)));
}

fn check_managed_file(errors: &mut Vec<String>, m: &ManagedFileConfig)
    ensures
        strings_view(final(errors)@) == strings_view(old(errors)@) + managed_file_errors(m@),
{
    let ghost e0 = strings_view(errors@);
    let path = m.path.as_str();
    push_if(errors, is_blank(path), string_from("`files.managed[].path` cannot be empty"));
    let ghost e1 = strings_view(errors@);
    push_if(
        errors,
        contains_char(m.content.as_str(), '\0'),
        cat3("`files.managed` content for `", path, "` cannot contain NUL bytes"),
    );
    let ghost e2 = strings_view(errors@);
    match &m.mode {
        Some(mode) => {
            push_if(
                errors,
                !is_valid_mode(mode.as_str()),
                cat3("`files.managed` mode for `", path, "` must be an octal string like `0644`"),
            );
        },
        None => {
            assert(strings_view(errors@) + none_msgs() =~= strings_view(errors@));
        },
    }
    assert(strings_view(errors@) =~= e0 + (e1.skip(e0.len() as int) + e2.skip(e1.len() as int)
        + strings_view(errors@).skip(e2.len() as int)));
}

fn check_files(errors: &mut Vec<String>, managed: &Vec<ManagedFileConfig>)
    ensures
        strings_view(final(errors)@) == strings_view(old(errors)@) + files_errors(
            views_of(managed@),
        ),
{
    let ghost e0 = strings_view(errors@);
    let ghost ms = views_of(managed@);
    let mut i: usize = 0;
    assert(e0 + files_errors(ms.take(0)) =~= e0);
    while i < managed.len()
        invariant
            i <= managed.len(),
            ms == views_of(managed@),
            strings_view(errors@) == e0 + files_errors(ms.take(i as int)),
        decreases managed.len() - i,
    {
        assert(ms.take(i + 1).drop_last() =~= ms.take(i as int));
        assert(ms.take(i + 1).last() == managed@[i as int]@);
        check_managed_file(errors, &managed[i]);
        assert(strings_view(errors@) =~= e0 + files_errors(ms.take(i + 1)));
        i += 1;
    }
    assert(ms.take(managed.len() as int) =~= ms);
}


fn validate_workspace_keys(errors: &mut Vec<String>, path: &str, values: &StrMap<bool>)
    ensures
        strings_view(final(errors)@) == strings_view(old(errors)@) + key_errors(
            path@,
            keys_of(values@),
        ),
{
    let ghost e0 = strings_view(errors@);
    let ghost ks = keys_of(values@);
    let mut i: usize = 0;
    assert(e0 + key_errors(path@, ks.take(0)) =~= e0);
    while i < values.len()
        invariant
            i <= values@.len(),
            ks == keys_of(values@),
            strings_view(errors@) == e0 + key_errors(path@, ks.take(i as int)),
        decreases values@.len() - i,
    {
        assert(ks.take(i + 1).drop_last() =~= ks.take(i as int));
        let key = values.key_at(i);
        assert(ks.take(i + 1).last() == key@);
        push_if(
            errors,
            !is_valid_identifier(key.as_str()),
            bt2_msg(path, "` key `", key.as_str(), "` must contain only letters, numbers, `_`, or `-`"),
        );
        assert(strings_view(errors@) =~= e0 + key_errors(path@, ks.take(i + 1)));
        i += 1;
    }
    assert(ks.take(values@.len() as int) =~= ks);
}

fn validate_workspace_package_attrs(errors: &mut Vec<String>, path: &str, packages: &Vec<String>)
    ensures
        strings_view(final(errors)@) == strings_view(old(errors)@) + attr_errors(
            path@,
            strings_view(packages@),
        ),
{
    let ghost e0 = strings_view(errors@);
    let ghost ps = strings_view(packages@);
    let mut i: usize = 0;
    assert(e0 + attr_errors(path@, ps.take(0)) =~= e0);
    while i < packages.len()
        invariant
            i <= packages.len(),
            ps == strings_view(packages@),
            strings_view(errors@) == e0 + attr_errors(path@, ps.take(i as int)),
        decreases packages.len() - i,
    {
        assert(ps.take(i + 1).drop_last() =~= ps.take(i as int));
        assert(ps.take(i + 1).last() == packages@[i as int]@);
        let package = packages[i].as_str();
        push_if(
            errors,
            !is_valid_attr_path(package),
            bt2_msg(
                path,
                "` package `",
                package,
                "` must be a Nix attr path using letters, numbers, `_`, `-`, or `.`",
            ),
        );
        assert(strings_view(errors@) =~= e0 + attr_errors(path@, ps.take(i + 1)));
        i += 1;
    }
    assert(ps.take(packages.len() as int) =~= ps);
}

fn check_tasks(errors: &mut Vec<String>, prefix: &str, tasks: &StrMap<String>)
    ensures
        strings_view(final(errors)@) == strings_view(old(errors)@) + task_errors(
            prefix@,
            keys_of(crate::config::types::string_map_view(tasks@)),
        ),
{
    let ghost e0 = strings_view(errors@);
    let ghost ks = keys_of(crate::config::types::string_map_view(tasks@));
    let mut i: usize = 0;
    assert(e0 + task_errors(prefix@, ks.take(0)) =~= e0);
    while i < tasks.len()
        invariant
            i <= tasks@.len(),
            ks == keys_of(crate::config::types::string_map_view(tasks@)),
            strings_view(errors@) == e0 + task_errors(prefix@, ks.take(i as int)),
        decreases tasks@.len() - i,
    {
        assert(ks.take(i + 1).drop_last() =~= ks.take(i as int));
        let key = tasks.key_at(i);
        assert(ks.take(i + 1).last() == key@);
        push_if(errors, is_blank(key.as_str()), bt_msg(prefix, ".tasks` task names cannot be empty"));
        assert(strings_view(errors@) =~= e0 + task_errors(prefix@, ks.take(i + 1)));
        i += 1;
    }
    assert(ks.take(tasks@.len() as int) =~= ks);
}

fn check_workspace(errors: &mut Vec<String>, name: &str, workspace: &WorkspaceConfig)
    ensures
        strings_view(final(errors)@) == strings_view(old(errors)@) + workspace_errors(
            name@,
            workspace@,
        ),
{
    let ghost e0 = strings_view(errors@);
    push_if(
        errors,
        !is_valid_identifier(name),
        cat3("`workspaces` name `", name, "` must contain only letters, numbers, `_`, or `-`"),
    );
    let ghost e1 = strings_view(errors@);
    let domain = cat2("workspaces.", name);
    let d = domain.as_str();
    push_if(errors, is_blank(workspace.path.as_str()), bt_msg(d, ".path` cannot be empty"));
    let ghost e2 = strings_view(errors@);
    push_if(
        errors,
        !str_eq(workspace.backend.as_str(), "devenv"),
        bt2_msg(d, ".backend` unsupported backend `", workspace.backend.as_str(), "`"),
    );
    let ghost e3 = strings_view(errors@);
    let languages = cat2(d, ".languages");
    validate_workspace_keys(errors, languages.as_str(), &workspace.languages);
    let ghost e4 = strings_view(errors@);
    let services = cat2(d, ".services");
    validate_workspace_keys(errors, services.as_str(), &workspace.services);
    let ghost e5 = strings_view(errors@);
    let packages = cat2(d, ".packages");
    validate_workspace_package_attrs(errors, packages.as_str(), &workspace.packages);
    let ghost e6 = strings_view(errors@);
    check_tasks(errors, d, &workspace.tasks);
    assert(d@ == workspace_domain(name@));
    assert(strings_view(errors@) =~= e0 + (e1.skip(e0.len() as int) + e2.skip(e1.len() as int)
        + e3.skip(e2.len() as int) + e4.skip(e3.len() as int) + e5.skip(e4.len() as int)
        + e6.skip(e5.len() as int) + strings_view(errors@).skip(e6.len() as int)));
}

fn check_workspaces(errors: &mut Vec<String>, workspaces: &WorkspacesConfig)
    ensures
        strings_view(final(errors)@) == strings_view(old(errors)@) + workspaces_errors(
            workspaces@.entries,
        ),
{
    let ghost e0 = strings_view(errors@);
    let ghost ws = workspaces@.entries;
    let mut i: usize = 0;
    assert(e0 + workspaces_errors(ws.take(0)) =~= e0);
    while i < workspaces.entries.len()
        invariant
            i <= workspaces.entries@.len(),
            ws == workspaces@.entries,
            ws.len() == workspaces.entries@.len(),
            strings_view(errors@) == e0 + workspaces_errors(ws.take(i as int)),
        decreases workspaces.entries@.len() - i,
    {
        assert(ws.take(i + 1).drop_last() =~= ws.take(i as int));
        let name = workspaces.entries.key_at(i);
        let workspace = workspaces.entries.value_at(i);
        assert(ws.take(i + 1).last() == (name@, workspace@));
        check_workspace(errors, name.as_str(), workspace);
        assert(strings_view(errors@) =~= e0 + workspaces_errors(ws.take(i + 1)));
        i += 1;
    }
    assert(ws.take(workspaces.entries@.len() as int) =~= ws);
}

fn check_packages_domain(errors: &mut Vec<String>, packages: &Option<PackagesConfig>)
    ensures
        strings_view(final(errors)@) == strings_view(old(errors)@) + packages_domain_errors(
            opt_v(*packages),
        ),
{
    match packages {
        Some(packages) => {
            let ghost e0 = strings_view(errors@);
            validate_package_names(errors, "packages.pacman", &packages.pacman);
            let ghost e1 = strings_view(errors@);
            validate_package_names(errors, "packages.aur", &packages.aur);
            let ghost e2 = strings_view(errors@);
            validate_package_names(errors, "packages.nix", &packages.nix);
            assert(strings_view(errors@) =~= e0 + (e1.skip(e0.len() as int) + e2.skip(
                e1.len() as int,
            ) + strings_view(errors@).skip(e2.len() as int)));
        },
        None => {
            push_msg(errors, string_from("missing required top-level domain `packages`"));
        },
    }
}

fn check_optional_domains(errors: &mut Vec<String>, config: &BasaltConfig)
    ensures
        strings_view(final(errors)@) == strings_view(old(errors)@) + (storage_domain_errors(
            config@.storage,
        ) + files_domain_errors(config@.files) + workspaces_domain_errors(config@.workspaces)),
{
    let ghost e0 = strings_view(errors@);
    match &config.storage {
        Some(storage) => validate_storage_partitions(errors, storage),
        None => {
            assert(strings_view(errors@) + none_msgs() =~= strings_view(errors@));
        },
    }
    let ghost e1 = strings_view(errors@);
    match &config.files {
        Some(files) => check_files(errors, &files.managed),
        None => {
            assert(strings_view(errors@) + none_msgs() =~= strings_view(errors@));
        },
    }
    let ghost e2 = strings_view(errors@);
    match &config.workspaces {
        Some(workspaces) => check_workspaces(errors, workspaces),
        None => {
            assert(strings_view(errors@) + none_msgs() =~= strings_view(errors@));
        },
    }
    assert(strings_view(errors@) =~= e0 + (e1.skip(e0.len() as int) + e2.skip(e1.len() as int)
        + strings_view(errors@).skip(e2.len() as int)));
}

/// Every field-level and cross-domain error of a configuration, in a fixed order; an
/// empty list means the configuration is valid.
#[verifier::spinoff_prover]
#[verifier::rlimit(50)]
pub fn validate(config: &BasaltConfig) -> (errors: Vec<String>)
    ensures
        strings_view(errors@) == spec_validate(config@),
{
    let mut errors: Vec<String> = Vec::new();
    assert(strings_view(errors@) =~= Seq::<Seq<char>>::empty());
    let system = match &config.system {
        Some(system) => system,
        None => {
            push_msg(&mut errors, string_from("missing required top-level domain `system`"));
            return errors;
        },
    };
    push_if(
        &mut errors,
        is_blank(system.hostname.as_str()),
        string_from("`system.hostname` cannot be empty"),
    );
    let ghost e1 = strings_view(errors@);
    check_packages_domain(&mut errors, &config.packages);
    let ghost e2 = strings_view(errors@);
    push_if(
        &mut errors,
        config.services.is_none(),
        string_from("missing required top-level domain `services`"),
    );
    let ghost e3 = strings_view(errors@);
    check_optional_domains(&mut errors, config);
    assert(strings_view(errors@) =~= e1 + (e2.skip(e1.len() as int) + e3.skip(e2.len() as int)
        + strings_view(errors@).skip(e3.len() as int)));
    errors
}

/// Configuration `c` with managed file `k` given no mode.
pub open spec fn without_mode(c: ConfigView, f: FilesView, k: int) -> ConfigView {
    ConfigView {
        files: Some(
            FilesView {
                managed: f.managed.update(
                    k,
                    ManagedFileView { path: f.managed[k].path, content: f.managed[k].content, mode: None },
                ),
            },
        ),
        ..c
    }
}

/// Four characters, the first `0`, each an octal digit `0` to `7`.
pub open spec fn octal_mode_text(m: Seq<char>) -> bool {
    m.len() == 4 && m[0] == '0' && forall|i: int| 0 <= i < 4 ==> '0' <= #[trigger] m[i] && m[i] <= '7'
}

proof fn lemma_files_errors_update(ms: Seq<ManagedFileView>, k: int, x: ManagedFileView) -> (ab: (
    Seq<Seq<char>>,
    Seq<Seq<char>>,
))
    requires
        0 <= k < ms.len(),
    ensures
        files_errors(ms) == ab.0 + managed_file_errors(ms[k]) + ab.1,
        files_errors(ms.update(k, x)) == ab.0 + managed_file_errors(x) + ab.1,
    decreases ms.len(),
{
    let u = ms.update(k, x);
    if k == ms.len() - 1 {
        assert(u.drop_last() =~= ms.drop_last());
        assert(u.last() == x);
        let a = files_errors(ms.drop_last());
        let e = none_msgs();
        assert(a + managed_file_errors(ms[k]) + e =~= a + managed_file_errors(ms[k]));
        assert(a + managed_file_errors(x) + e =~= a + managed_file_errors(x));
        (a, e)
    } else {
        let (a, b) = lemma_files_errors_update(ms.drop_last(), k, x);
        assert(u.drop_last() =~= ms.drop_last().update(k, x));
        assert(u.last() == ms.last());
        assert(ms.drop_last()[k] == ms[k]);
        let last = managed_file_errors(ms.last());
        assert(a + managed_file_errors(ms[k]) + b + last =~= a + managed_file_errors(ms[k]) + (b + last));
        assert(a + managed_file_errors(x) + b + last =~= a + managed_file_errors(x) + (b + last));
        (a, b + last)
    }
}

/// A managed file's mode is accepted exactly when it is four octal digits, the first `0`
/// (`0644`, `0755`, `0700`): validating with such a mode lists the same errors as
/// validating with no mode at all, and any other mode adds exactly one error, the mode
/// error for that file's path.
pub proof fn law_octal_mode_accepted(c: ConfigView, f: FilesView, k: int, mode: Seq<char>)
    requires
        c.files == Some(f),
        0 <= k < f.managed.len(),
        f.managed[k].mode == Some(mode),
    ensures
        octal_mode_text(mode) ==> spec_validate(c) == spec_validate(without_mode(c, f, k)),
        !octal_mode_text(mode) && c.system is Some ==> spec_validate(c).len() == spec_validate(
            without_mode(c, f, k),
        ).len() + 1 && spec_validate(c).contains(
            "`files.managed` mode for `"@ + f.managed[k].path + "` must be an octal string like `0644`"@,
        ),
{
    let m = f.managed[k];
    let x = ManagedFileView { path: m.path, content: m.content, mode: None };
    let (a, b) = lemma_files_errors_update(f.managed, k, x);
    let msg = "`files.managed` mode for `"@ + m.path + "` must be an octal string like `0644`"@;
    let base = one_if(all_ws(m.path), "`files.managed[].path` cannot be empty"@) + one_if(
        m.content.contains('\0'),
        "`files.managed` content for `"@ + m.path + "` cannot contain NUL bytes"@,
    );
    assert(managed_file_errors(x) =~= base);
    assert(managed_file_errors(m) == base + one_if(!valid_mode(mode), msg));
    assert(valid_mode(mode) == octal_mode_text(mode)) by {
        if valid_mode(mode) {
            assert forall|i: int| 0 <= i < 4 implies '0' <= #[trigger] mode[i] && mode[i] <= '7' by {
                assert(is_octal_char(mode[i]));
            }
        }
        if octal_mode_text(mode) {
            assert forall|i: int| 0 <= i < mode.len() implies is_octal_char(#[trigger] mode[i]) by {
                assert('0' <= mode[i] && mode[i] <= '7');
            }
        }
    }
    let c2 = without_mode(c, f, k);
    if let Some(sys) = c.system {
        let h = one_if(all_ws(sys.hostname), "`system.hostname` cannot be empty"@) + packages_domain_errors(
            c.packages,
        ) + one_if(c.services is None, "missing required top-level domain `services`"@) + storage_domain_errors(
            c.storage,
        );
        let w = workspaces_domain_errors(c.workspaces);
        assert(spec_validate(c) == h + files_errors(f.managed) + w);
        assert(spec_validate(c2) == h + files_errors(f.managed.update(k, x)) + w);
        if octal_mode_text(mode) {
            assert(base + one_if(!valid_mode(mode), msg) =~= base);
        } else {
            let mid = base + seq![msg];
            assert(managed_file_errors(m) == mid);
            assert(spec_validate(c) =~= h + a + base + seq![msg] + b + w);
            assert(spec_validate(c2) =~= h + a + base + b + w);
            let pos: int = (h.len() + a.len() + base.len()) as int;
            assert(spec_validate(c)[pos] == msg);
        }
    }
}

} // verus!

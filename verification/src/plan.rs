//! The upgrade transaction around one package, as data: the command lines
//! to run and the file operations of the backup snapshot and of the
//! restore after a failed install. The caller creates the snapshot
//! directory, performs the operations, and runs the commands; the library
//! only says exactly which.

use vstd::prelude::*;

verus! {

use crate::config::Config;
use crate::crateversion::{CrateVersion, CrateVersionView, PackageSource, SourceView};
use crate::text::{str_to_chars, chars_to_string, copy_range, join_seq, join_strings};

/// One planned file operation.
pub enum FileOp {
    /// Copy `src` to `dst`, leaving `src` in place.
    Copy { src: String, dst: String },
    /// Move `src` to `dst`.
    Rename { src: String, dst: String },
}

/// The mathematical value of a file operation.
pub ghost enum FileOpView {
    Copy { src: Seq<char>, dst: Seq<char> },
    Rename { src: Seq<char>, dst: Seq<char> },
}

impl View for FileOp {
    type V = FileOpView;

    open spec fn view(&self) -> FileOpView {
        match self {
            FileOp::Copy { src, dst } => FileOpView::Copy { src: src@, dst: dst@ },
            FileOp::Rename { src, dst } => FileOpView::Rename { src: src@, dst: dst@ },
        }
    }
}

/// The mathematical values of a list of file operations.
pub open spec fn ops_view(ops: Seq<FileOp>) -> Seq<FileOpView> {
    Seq::new(ops.len(), |k: int| ops[k]@)
}

/// The last component of a path: everything after the last separator.
pub open spec fn file_name(p: Seq<char>) -> Seq<char>
    decreases p.len(),
{
    if p.len() == 0 {
        p
    } else if p.last() == '/' {
        Seq::empty()
    } else {
        file_name(p.drop_last()).push(p.last())
    }
}

proof fn lemma_file_name_whole(p: Seq<char>)
    requires
        forall|j: int| 0 <= j < p.len() ==> p[j] != '/',
    ensures
        file_name(p) == p,
    decreases p.len(),
{
    if p.len() > 0 {
        lemma_file_name_whole(p.drop_last());
        assert(file_name(p) =~= p);
    } else {
        assert(file_name(p) =~= p);
    }
}

proof fn lemma_file_name_skip(p: Seq<char>, k: int)
    requires
        0 <= k < p.len(),
        p[k] == '/',
        forall|j: int| k < j < p.len() ==> p[j] != '/',
    ensures
        file_name(p) == p.skip(k + 1),
    decreases p.len(),
{
    if k == p.len() - 1 {
        assert(file_name(p) =~= p.skip(k + 1));
    } else {
        lemma_file_name_skip(p.drop_last(), k);
        assert(p.drop_last().skip(k + 1).push(p.last()) =~= p.skip(k + 1));
    }
}

/// The last component of a path.
pub fn file_name_exec(p: &Vec<char>) -> (r: Vec<char>)
    ensures
        r@ == file_name(p@),
{
    let mut k = p.len();
    while k > 0 && p[k - 1] != '/'
        invariant
            k <= p@.len(),
            forall|j: int| k <= j < p@.len() ==> p@[j] != '/',
        decreases k,
    {
        k = k - 1;
    }
    proof {
        if k == 0 {
            lemma_file_name_whole(p@);
            assert(p@.subrange(0, p@.len() as int) =~= p@);
        } else {
            lemma_file_name_skip(p@, k - 1);
            assert(p@.subrange(k as int, p@.len() as int) =~= p@.skip(k as int));
        }
    }
    copy_range(p, k, p.len())
}

/// The snapshot path of a binary: the snapshot's `bin` subdirectory and
/// the binary's file name.
pub open spec fn snap_bin_path(snap: Seq<char>, p: Seq<char>) -> Seq<char> {
    snap + "/bin/"@ + file_name(p)
}

fn snap_bin_path_exec(snap: &str, p: &str) -> (r: String)
    ensures
        r@ == snap_bin_path(snap@, p@),
{
    let chars = str_to_chars(p);
    let name = file_name_exec(&chars);
    let mut s = snap.to_owned();
    s.append("/bin/");
    let name_str = chars_to_string(&name);
    s.append(name_str.as_str());
    s
}

/// The backup operations for one binary: where a live binary cannot be
/// copied while it may be locked, it is renamed into the snapshot and
/// copied back to its place; elsewhere it is copied into the snapshot.
pub open spec fn bin_backup_ops(bins: Seq<Seq<char>>, snap: Seq<char>, rename_first: bool) -> Seq<
    FileOpView,
>
    decreases bins.len(),
{
    if bins.len() == 0 {
        Seq::empty()
    } else {
        let p = bins.first();
        let s = snap_bin_path(snap, p);
        let group = if rename_first {
            seq![FileOpView::Rename { src: p, dst: s }, FileOpView::Copy { src: s, dst: p }]
        } else {
            seq![FileOpView::Copy { src: p, dst: s }]
        };
        group + bin_backup_ops(bins.drop_first(), snap, rename_first)
    }
}

/// The restore operations for one binary: the snapshot copy goes back to
/// the original location, by rename where the backup renamed.
pub open spec fn bin_restore_ops(bins: Seq<Seq<char>>, snap: Seq<char>, rename_first: bool) -> Seq<
    FileOpView,
>
    decreases bins.len(),
{
    if bins.len() == 0 {
        Seq::empty()
    } else {
        let p = bins.first();
        let s = snap_bin_path(snap, p);
        let group = if rename_first {
            seq![FileOpView::Rename { src: s, dst: p }]
        } else {
            seq![FileOpView::Copy { src: s, dst: p }]
        };
        group + bin_restore_ops(bins.drop_first(), snap, rename_first)
    }
}

/// The two inventory metadata files, copied from under `from` to under
/// `to`.
pub open spec fn metadata_ops(from: Seq<char>, to: Seq<char>) -> Seq<FileOpView> {
    seq![
        FileOpView::Copy { src: from + "/.crates.toml"@, dst: to + "/.crates.toml"@ },
        FileOpView::Copy { src: from + "/.crates2.json"@, dst: to + "/.crates2.json"@ },
    ]
}

/// The whole backup plan: every binary into the snapshot, then both
/// metadata files.
pub open spec fn spec_backup_plan(
    v: CrateVersionView,
    root: Seq<char>,
    snap: Seq<char>,
    rename_first: bool,
) -> Seq<FileOpView> {
    bin_backup_ops(v.binaries, snap, rename_first) + metadata_ops(root, snap)
}

/// The whole restore plan: every binary back from the snapshot, then both
/// metadata files back.
pub open spec fn spec_restore_plan(
    v: CrateVersionView,
    root: Seq<char>,
    snap: Seq<char>,
    rename_first: bool,
) -> Seq<FileOpView> {
    bin_restore_ops(v.binaries, snap, rename_first) + metadata_ops(snap, root)
}

/// The argv of the uninstall command.
pub open spec fn spec_uninstall_args(name: Seq<char>) -> Seq<Seq<char>> {
    seq!["cargo"@, "uninstall"@, name]
}

/// The argv of the install command: by name from the registry, by url for
/// a git source, by path for a local one, the features appended
/// comma-joined when there are any.
pub open spec fn spec_install_args(v: CrateVersionView) -> Seq<Seq<char>> {
    let base = match v.source {
        SourceView::CratesIo => seq!["cargo"@, "install"@, v.name],
        SourceView::Git { url, .. } => seq!["cargo"@, "install"@, "--git"@, url],
        SourceView::Local { path } => seq!["cargo"@, "install"@, "--path"@, path],
    };
    if v.features.len() > 0 {
        base + seq!["--features"@, join_seq(v.features, ',')]
    } else {
        base
    }
}

impl CrateVersion {
    /// The argv that uninstalls this package.
    pub fn uninstall_args(&self) -> (r: Vec<String>)
        ensures
            r.deep_view() == spec_uninstall_args(self@.name),
    {
        let mut args: Vec<String> = Vec::new();
        args.push("cargo".to_owned());
        args.push("uninstall".to_owned());
        args.push(self.name.clone());
        proof {
            assert(args.deep_view() =~= spec_uninstall_args(self@.name));
        }
        args
    }

    /// The argv that installs this package from its source.
    pub fn install_args(&self) -> (r: Vec<String>)
        ensures
            r.deep_view() == spec_install_args(self@),
    {
        let mut args: Vec<String> = Vec::new();
        args.push("cargo".to_owned());
        args.push("install".to_owned());
        match &self.source {
            PackageSource::CratesIo => {
                args.push(self.name.clone());
            },
            PackageSource::Git { url, .. } => {
                args.push("--git".to_owned());
                args.push(url.clone());
            },
            PackageSource::Local { path } => {
                args.push("--path".to_owned());
                args.push(path.clone());
            },
        }
        if self.features.len() > 0 {
            args.push("--features".to_owned());
            args.push(join_strings(&self.features, ','));
        }
        proof {
            assert(args.deep_view() =~= spec_install_args(self@));
        }
        args
    }
}

fn bin_backup_from(
    bins: &Vec<String>,
    i: usize,
    snap: &str,
    rename_first: bool,
) -> (r: Vec<FileOp>)
    requires
        i <= bins@.len(),
    ensures
        ops_view(r@) == bin_backup_ops(bins.deep_view().skip(i as int), snap@, rename_first),
    decreases bins@.len() - i,
{
    proof {
        if i < bins@.len() {
            assert(bins.deep_view().skip(i as int).drop_first() =~= bins.deep_view().skip(i + 1));
            assert(bins.deep_view().skip(i as int).first() == bins@[i as int]@);
        }
    }
    if i == bins.len() {
        let r: Vec<FileOp> = Vec::new();
        proof {
            assert(ops_view(r@) =~= Seq::<FileOpView>::empty());
        }
        r
    } else {
        let rest = bin_backup_from(bins, i + 1, snap, rename_first);
        let p = bins[i].clone();
        let s = snap_bin_path_exec(snap, p.as_str());
        let ghost rest_snap = rest@;
        let mut out = rest;
        if rename_first {
            out.insert(0, FileOp::Copy { src: s.clone(), dst: p.clone() });
            out.insert(0, FileOp::Rename { src: p, dst: s });
        } else {
            out.insert(0, FileOp::Copy { src: p, dst: s });
        }
        proof {
            let target = bin_backup_ops(bins.deep_view().skip(i as int), snap@, rename_first);
            assert(ops_view(out@) =~= target);
        }
        out
    }
}

fn bin_restore_from(
    bins: &Vec<String>,
    i: usize,
    snap: &str,
    rename_first: bool,
) -> (r: Vec<FileOp>)
    requires
        i <= bins@.len(),
    ensures
        ops_view(r@) == bin_restore_ops(bins.deep_view().skip(i as int), snap@, rename_first),
    decreases bins@.len() - i,
{
    proof {
        if i < bins@.len() {
            assert(bins.deep_view().skip(i as int).drop_first() =~= bins.deep_view().skip(i + 1));
            assert(bins.deep_view().skip(i as int).first() == bins@[i as int]@);
        }
    }
    if i == bins.len() {
        let r: Vec<FileOp> = Vec::new();
        proof {
            assert(ops_view(r@) =~= Seq::<FileOpView>::empty());
        }
        r
    } else {
        let rest = bin_restore_from(bins, i + 1, snap, rename_first);
        let p = bins[i].clone();
        let s = snap_bin_path_exec(snap, p.as_str());
        let mut out = rest;
        if rename_first {
            out.insert(0, FileOp::Rename { src: s, dst: p });
        } else {
            out.insert(0, FileOp::Copy { src: s, dst: p });
        }
        proof {
            let target = bin_restore_ops(bins.deep_view().skip(i as int), snap@, rename_first);
            assert(ops_view(out@) =~= target);
        }
        out
    }
}

fn metadata_ops_exec(from: &str, to: &str) -> (r: Vec<FileOp>)
    ensures
        ops_view(r@) == metadata_ops(from@, to@),
{
    let mut from_toml = from.to_owned();
    from_toml.append("/.crates.toml");
    let mut to_toml = to.to_owned();
    to_toml.append("/.crates.toml");
    let mut from_json = from.to_owned();
    from_json.append("/.crates2.json");
    let mut to_json = to.to_owned();
    to_json.append("/.crates2.json");
    let mut r: Vec<FileOp> = Vec::new();
    r.push(FileOp::Copy { src: from_toml, dst: to_toml });
    r.push(FileOp::Copy { src: from_json, dst: to_json });
    proof {
        assert(ops_view(r@) =~= metadata_ops(from@, to@));
    }
    r
}

/// The whole transaction for one package, as data.
pub struct UpgradePlan {
    /// The snapshot operations, run first.
    pub backup: Vec<FileOp>,
    /// The argv of the uninstall command, run next, best-effort.
    pub uninstall_argv: Vec<String>,
    /// The argv of the install command, run next.
    pub install_argv: Vec<String>,
    /// The operations restoring the snapshot, run only where the install
    /// reported failure.
    pub restore: Vec<FileOp>,
}

impl CrateVersion {
    /// Plans the upgrade transaction, given the snapshot directory the
    /// caller created; nothing on a dry run.
    pub fn upgrade(&self, cfg: &Config, snap: &str, rename_first: bool) -> (r: Option<UpgradePlan>)
        ensures
            cfg.upgrade ==> (r matches Some(plan) && {
                &&& ops_view(plan.backup@) == spec_backup_plan(self@, cfg.cpath@, snap@, rename_first)
                &&& plan.uninstall_argv.deep_view() == spec_uninstall_args(self@.name)
                &&& plan.install_argv.deep_view() == spec_install_args(self@)
                &&& ops_view(plan.restore@) == spec_restore_plan(
                    self@,
                    cfg.cpath@,
                    snap@,
                    rename_first,
                )
            }),
            !cfg.upgrade ==> r is None,
    {
        if !cfg.upgrade {
            return None;
        }
        proof {
            assert(self.binaries.deep_view().skip(0) =~= self@.binaries);
        }
        let mut backup = bin_backup_from(&self.binaries, 0, snap, rename_first);
        let mut backup_meta = metadata_ops_exec(cfg.cpath.as_str(), snap);
        let ghost backup_snap = backup@;
        backup.append(&mut backup_meta);
        let mut restore = bin_restore_from(&self.binaries, 0, snap, rename_first);
        let mut restore_meta = metadata_ops_exec(snap, cfg.cpath.as_str());
        let ghost restore_snap = restore@;
        restore.append(&mut restore_meta);
        proof {
            assert(ops_view(backup@) =~= spec_backup_plan(self@, cfg.cpath@, snap@, rename_first));
            assert(ops_view(restore@) =~= spec_restore_plan(
                self@,
                cfg.cpath@,
                snap@,
                rename_first,
            ));
        }
        Some(
            UpgradePlan {
                backup,
                uninstall_argv: self.uninstall_args(),
                install_argv: self.install_args(),
                restore,
            },
        )
    }
}

/// How one operation changes a model of the file store, where each
/// existing path maps to its bytes. An operation whose source is missing
/// fails and changes nothing.
pub open spec fn apply_op(fs: Map<Seq<char>, Seq<u8>>, op: FileOpView) -> Map<Seq<char>, Seq<u8>> {
    match op {
        FileOpView::Copy { src, dst } => if fs.dom().contains(src) {
            fs.insert(dst, fs[src])
        } else {
            fs
        },
        FileOpView::Rename { src, dst } => if fs.dom().contains(src) {
            fs.insert(dst, fs[src]).remove(src)
        } else {
            fs
        },
    }
}

/// The operations applied in order.
pub open spec fn apply_ops(fs: Map<Seq<char>, Seq<u8>>, ops: Seq<FileOpView>) -> Map<
    Seq<char>,
    Seq<u8>,
>
    decreases ops.len(),
{
    if ops.len() == 0 {
        fs
    } else {
        apply_ops(apply_op(fs, ops.first()), ops.drop_first())
    }
}

pub proof fn lemma_apply_ops_append(
    fs: Map<Seq<char>, Seq<u8>>,
    a: Seq<FileOpView>,
    b: Seq<FileOpView>,
)
    ensures
        apply_ops(fs, a + b) == apply_ops(apply_ops(fs, a), b),
    decreases a.len(),
{
    if a.len() == 0 {
        assert(a + b =~= b);
    } else {
        assert((a + b).drop_first() =~= a.drop_first() + b);
        assert((a + b).first() == a.first());
        lemma_apply_ops_append(apply_op(fs, a.first()), a.drop_first(), b);
    }
}

proof fn lemma_apply_one(fs: Map<Seq<char>, Seq<u8>>, op1: FileOpView)
    ensures
        apply_ops(fs, seq![op1]) == apply_op(fs, op1),
{
    assert(seq![op1].len() == 1);
    assert(seq![op1].first() == op1);
    assert(seq![op1].drop_first() =~= Seq::<FileOpView>::empty());
    assert(apply_ops(fs, seq![op1]) == apply_ops(apply_op(fs, op1), seq![op1].drop_first()));
    assert(apply_ops(apply_op(fs, op1), seq![op1].drop_first()) == apply_op(fs, op1));
}

proof fn lemma_apply_two(fs: Map<Seq<char>, Seq<u8>>, op1: FileOpView, op2: FileOpView)
    ensures
        apply_ops(fs, seq![op1, op2]) == apply_op(apply_op(fs, op1), op2),
{
    assert(seq![op1, op2].drop_first() =~= seq![op2]);
    lemma_apply_one(apply_op(fs, op1), op2);
}

/// The two stores hold the same thing at the path: both lack it, or both
/// hold the same bytes.
pub open spec fn same_at(a: Map<Seq<char>, Seq<u8>>, b: Map<Seq<char>, Seq<u8>>, p: Seq<char>) -> bool {
    &&& a.dom().contains(p) == b.dom().contains(p)
    &&& (a.dom().contains(p) ==> a[p] == b[p])
}

/// The legacy metadata file under a directory.
pub open spec fn meta_toml(base: Seq<char>) -> Seq<char> {
    base + "/.crates.toml"@
}

/// The structured metadata file under a directory.
pub open spec fn meta_json(base: Seq<char>) -> Seq<char> {
    base + "/.crates2.json"@
}

/// The paths inside the snapshot.
pub open spec fn in_snapshot(bins: Seq<Seq<char>>, snap: Seq<char>, p: Seq<char>) -> bool {
    ||| (exists|i: int| 0 <= i < bins.len() && p == snap_bin_path(snap, #[trigger] bins[i]))
    ||| p == meta_toml(snap)
    ||| p == meta_json(snap)
}

/// The paths the binary backup and restore operations touch.
pub open spec fn bin_touched(bins: Seq<Seq<char>>, snap: Seq<char>, p: Seq<char>) -> bool {
    exists|i: int|
        0 <= i < bins.len() && (p == #[trigger] bins[i] || p == snap_bin_path(snap, bins[i]))
}

proof fn lemma_backup_ops_effect(
    bins: Seq<Seq<char>>,
    snap: Seq<char>,
    rf: bool,
    fs: Map<Seq<char>, Seq<u8>>,
)
    requires
        forall|i: int| 0 <= i < bins.len() ==> fs.dom().contains(#[trigger] bins[i]),
        forall|i: int, j: int|
            0 <= i < bins.len() && 0 <= j < bins.len() ==> snap_bin_path(snap, #[trigger] bins[i])
                != #[trigger] bins[j],
        forall|i: int, j: int|
            0 <= i < j < bins.len() ==> snap_bin_path(snap, #[trigger] bins[i]) != snap_bin_path(
                snap,
                #[trigger] bins[j],
            ),
        forall|i: int, j: int| 0 <= i < j < bins.len() ==> #[trigger] bins[i] != #[trigger] bins[j],
    ensures
        forall|p: Seq<char>|
            !bin_touched(bins, snap, p) ==> #[trigger] same_at(
                apply_ops(fs, bin_backup_ops(bins, snap, rf)),
                fs,
                p,
            ),
        forall|i: int|
            0 <= i < bins.len() ==> {
                &&& apply_ops(fs, bin_backup_ops(bins, snap, rf)).dom().contains(#[trigger] bins[i])
                &&& apply_ops(fs, bin_backup_ops(bins, snap, rf))[bins[i]] == fs[bins[i]]
            },
        forall|i: int|
            0 <= i < bins.len() ==> {
                &&& apply_ops(fs, bin_backup_ops(bins, snap, rf)).dom().contains(
                    snap_bin_path(snap, #[trigger] bins[i]),
                )
                &&& apply_ops(fs, bin_backup_ops(bins, snap, rf))[snap_bin_path(snap, bins[i])]
                    == fs[bins[i]]
            },
    decreases bins.len(),
{
    if bins.len() > 0 {
        let p0 = bins.first();
        let s0 = snap_bin_path(snap, p0);
        let group: Seq<FileOpView> = if rf {
            seq![
                FileOpView::Rename { src: p0, dst: s0 },
                FileOpView::Copy { src: s0, dst: p0 },
            ]
        } else {
            seq![FileOpView::Copy { src: p0, dst: s0 }]
        };
        let rest = bins.drop_first();
        lemma_apply_ops_append(fs, group, bin_backup_ops(rest, snap, rf));
        assert(group + bin_backup_ops(rest, snap, rf) =~= bin_backup_ops(bins, snap, rf));
        let g1 = apply_ops(fs, group);
        if rf {
            lemma_apply_two(
                fs,
                FileOpView::Rename { src: p0, dst: s0 },
                FileOpView::Copy { src: s0, dst: p0 },
            );
        } else {
            lemma_apply_one(fs, FileOpView::Copy { src: p0, dst: s0 });
        }
        assert(g1.dom().contains(p0) && g1[p0] == fs[p0]);
        assert(g1.dom().contains(s0) && g1[s0] == fs[p0]);
        assert(forall|p: Seq<char>| p != p0 && p != s0 ==> same_at(g1, fs, p));
        assert forall|i: int| 0 <= i < rest.len() implies g1.dom().contains(#[trigger] rest[i])
            && g1[rest[i]] == fs[rest[i]] by {
            assert(rest[i] == bins[i + 1]);
            assert(rest[i] != s0);
            assert(rest[i] != p0);
        }
        assert forall|i: int, j: int|
            0 <= i < rest.len() && 0 <= j < rest.len() implies snap_bin_path(
            snap,
            #[trigger] rest[i],
        ) != #[trigger] rest[j] by {
            assert(rest[i] == bins[i + 1] && rest[j] == bins[j + 1]);
        }
        assert forall|i: int, j: int|
            0 <= i < j < rest.len() implies snap_bin_path(snap, #[trigger] rest[i])
            != snap_bin_path(snap, #[trigger] rest[j]) by {
            assert(rest[i] == bins[i + 1] && rest[j] == bins[j + 1]);
        }
        assert forall|i: int, j: int| 0 <= i < j < rest.len() implies #[trigger] rest[i]
            != #[trigger] rest[j] by {
            assert(rest[i] == bins[i + 1] && rest[j] == bins[j + 1]);
        }
        lemma_backup_ops_effect(rest, snap, rf, g1);
        let fsr = apply_ops(g1, bin_backup_ops(rest, snap, rf));
        assert(!bin_touched(rest, snap, p0));
        assert(!bin_touched(rest, snap, s0));
        assert forall|i: int|
            0 <= i < bins.len() implies fsr.dom().contains(#[trigger] bins[i]) && fsr[bins[i]]
            == fs[bins[i]] by {
            if i > 0 {
                assert(bins[i] == rest[i - 1]);
            } else {
                assert(same_at(fsr, g1, p0));
            }
        }
        assert forall|i: int|
            0 <= i < bins.len() implies fsr.dom().contains(
            snap_bin_path(snap, #[trigger] bins[i]),
        ) && fsr[snap_bin_path(snap, bins[i])] == fs[bins[i]] by {
            if i > 0 {
                assert(bins[i] == rest[i - 1]);
                assert(fsr[snap_bin_path(snap, rest[i - 1])] == g1[rest[i - 1]]);
            } else {
                assert(same_at(fsr, g1, s0));
            }
        }
        assert forall|p: Seq<char>| !bin_touched(bins, snap, p) implies same_at(
            apply_ops(fs, bin_backup_ops(bins, snap, rf)),
            fs,
            p,
        ) by {
            assert(!bin_touched(rest, snap, p)) by {
                assert forall|i: int|
                    0 <= i < rest.len() implies !(p == #[trigger] rest[i] || p == snap_bin_path(
                    snap,
                    rest[i],
                )) by {
                    assert(rest[i] == bins[i + 1]);
                }
            }
            assert(p != p0 && p != s0);
            assert(same_at(fsr, g1, p));
        }
    }
}

proof fn lemma_restore_ops_effect(
    bins: Seq<Seq<char>>,
    snap: Seq<char>,
    rf: bool,
    fs: Map<Seq<char>, Seq<u8>>,
)
    requires
        forall|i: int|
            0 <= i < bins.len() ==> fs.dom().contains(snap_bin_path(snap, #[trigger] bins[i])),
        forall|i: int, j: int|
            0 <= i < bins.len() && 0 <= j < bins.len() ==> snap_bin_path(snap, #[trigger] bins[i])
                != #[trigger] bins[j],
        forall|i: int, j: int|
            0 <= i < j < bins.len() ==> snap_bin_path(snap, #[trigger] bins[i]) != snap_bin_path(
                snap,
                #[trigger] bins[j],
            ),
        forall|i: int, j: int| 0 <= i < j < bins.len() ==> #[trigger] bins[i] != #[trigger] bins[j],
    ensures
        forall|i: int|
            0 <= i < bins.len() ==> {
                &&& apply_ops(fs, bin_restore_ops(bins, snap, rf)).dom().contains(
                    #[trigger] bins[i],
                )
                &&& apply_ops(fs, bin_restore_ops(bins, snap, rf))[bins[i]] == fs[snap_bin_path(
                    snap,
                    bins[i],
                )]
            },
        forall|p: Seq<char>|
            !bin_touched(bins, snap, p) ==> #[trigger] same_at(
                apply_ops(fs, bin_restore_ops(bins, snap, rf)),
                fs,
                p,
            ),
    decreases bins.len(),
{
    if bins.len() > 0 {
        let p0 = bins.first();
        let s0 = snap_bin_path(snap, p0);
        let group: Seq<FileOpView> = if rf {
            seq![FileOpView::Rename { src: s0, dst: p0 }]
        } else {
            seq![FileOpView::Copy { src: s0, dst: p0 }]
        };
        let rest = bins.drop_first();
        lemma_apply_ops_append(fs, group, bin_restore_ops(rest, snap, rf));
        assert(group + bin_restore_ops(rest, snap, rf) =~= bin_restore_ops(bins, snap, rf));
        let g1 = apply_ops(fs, group);
        if rf {
            lemma_apply_one(fs, FileOpView::Rename { src: s0, dst: p0 });
        } else {
            lemma_apply_one(fs, FileOpView::Copy { src: s0, dst: p0 });
        }
        assert(g1.dom().contains(p0) && g1[p0] == fs[s0]);
        assert(forall|p: Seq<char>| p != p0 && p != s0 ==> same_at(g1, fs, p));
        assert forall|i: int|
            0 <= i < rest.len() implies g1.dom().contains(
            snap_bin_path(snap, #[trigger] rest[i]),
        ) && g1[snap_bin_path(snap, rest[i])] == fs[snap_bin_path(snap, rest[i])] by {
            assert(rest[i] == bins[i + 1]);
            assert(snap_bin_path(snap, rest[i]) != p0);
            assert(snap_bin_path(snap, rest[i]) != s0);
        }
        assert forall|i: int, j: int|
            0 <= i < rest.len() && 0 <= j < rest.len() implies snap_bin_path(
            snap,
            #[trigger] rest[i],
        ) != #[trigger] rest[j] by {
            assert(rest[i] == bins[i + 1] && rest[j] == bins[j + 1]);
        }
        assert forall|i: int, j: int|
            0 <= i < j < rest.len() implies snap_bin_path(snap, #[trigger] rest[i])
            != snap_bin_path(snap, #[trigger] rest[j]) by {
            assert(rest[i] == bins[i + 1] && rest[j] == bins[j + 1]);
        }
        assert forall|i: int, j: int| 0 <= i < j < rest.len() implies #[trigger] rest[i]
            != #[trigger] rest[j] by {
            assert(rest[i] == bins[i + 1] && rest[j] == bins[j + 1]);
        }
        lemma_restore_ops_effect(rest, snap, rf, g1);
        let fsr = apply_ops(g1, bin_restore_ops(rest, snap, rf));
        assert(!bin_touched(rest, snap, p0));
        assert forall|i: int|
            0 <= i < bins.len() implies fsr.dom().contains(#[trigger] bins[i]) && fsr[bins[i]]
            == fs[snap_bin_path(snap, bins[i])] by {
            if i > 0 {
                assert(bins[i] == rest[i - 1]);
                assert(fsr[rest[i - 1]] == g1[snap_bin_path(snap, rest[i - 1])]);
            } else {
                assert(same_at(fsr, g1, p0));
            }
        }
        assert forall|p: Seq<char>| !bin_touched(bins, snap, p) implies same_at(
            apply_ops(fs, bin_restore_ops(bins, snap, rf)),
            fs,
            p,
        ) by {
            assert(!bin_touched(rest, snap, p)) by {
                assert forall|i: int|
                    0 <= i < rest.len() implies !(p == #[trigger] rest[i] || p == snap_bin_path(
                    snap,
                    rest[i],
                )) by {
                    assert(rest[i] == bins[i + 1]);
                }
            }
            assert(p != p0 && p != s0);
            assert(same_at(fsr, g1, p));
        }
    }
}

/// Backing up and then restoring is a round trip: whatever a failed
/// install did in between to paths outside the snapshot, the restore puts
/// every binary and both metadata files back to their original bytes at
/// their original paths. `fs0` is the store before the backup and `fs2`
/// the store the restore runs on; the snapshot paths must have been left
/// alone in between, the binaries and metadata files must exist, be
/// pairwise distinct, and not collide with the snapshot's paths.
pub proof fn lemma_backup_restore_round_trip(
    v: CrateVersionView,
    root: Seq<char>,
    snap: Seq<char>,
    rf: bool,
    fs0: Map<Seq<char>, Seq<u8>>,
    fs2: Map<Seq<char>, Seq<u8>>,
)
    requires
        forall|i: int| 0 <= i < v.binaries.len() ==> fs0.dom().contains(#[trigger] v.binaries[i]),
        fs0.dom().contains(meta_toml(root)),
        fs0.dom().contains(meta_json(root)),
        forall|i: int, j: int|
            0 <= i < j < v.binaries.len() ==> #[trigger] v.binaries[i] != #[trigger] v.binaries[j],
        forall|i: int, j: int|
            0 <= i < v.binaries.len() && 0 <= j < v.binaries.len() ==> snap_bin_path(
                snap,
                #[trigger] v.binaries[i],
            ) != #[trigger] v.binaries[j],
        forall|i: int, j: int|
            0 <= i < j < v.binaries.len() ==> snap_bin_path(snap, #[trigger] v.binaries[i])
                != snap_bin_path(snap, #[trigger] v.binaries[j]),
        forall|i: int|
            0 <= i < v.binaries.len() ==> #[trigger] v.binaries[i] != meta_toml(root)
                && v.binaries[i] != meta_json(root) && v.binaries[i] != meta_toml(snap)
                && v.binaries[i] != meta_json(snap),
        forall|i: int|
            0 <= i < v.binaries.len() ==> snap_bin_path(snap, #[trigger] v.binaries[i])
                != meta_toml(root) && snap_bin_path(snap, v.binaries[i]) != meta_json(root)
                && snap_bin_path(snap, v.binaries[i]) != meta_toml(snap) && snap_bin_path(
                snap,
                v.binaries[i],
            ) != meta_json(snap),
        meta_toml(snap) != meta_toml(root),
        meta_toml(snap) != meta_json(root),
        meta_json(snap) != meta_toml(root),
        meta_json(snap) != meta_json(root),
        forall|p: Seq<char>|
            in_snapshot(v.binaries, snap, p) ==> #[trigger] same_at(
                fs2,
                apply_ops(fs0, spec_backup_plan(v, root, snap, rf)),
                p,
            ),
    ensures
        forall|i: int|
            0 <= i < v.binaries.len() ==> {
                &&& apply_ops(fs2, spec_restore_plan(v, root, snap, rf)).dom().contains(
                    #[trigger] v.binaries[i],
                )
                &&& apply_ops(fs2, spec_restore_plan(v, root, snap, rf))[v.binaries[i]]
                    == fs0[v.binaries[i]]
            },
        apply_ops(fs2, spec_restore_plan(v, root, snap, rf)).dom().contains(meta_toml(root)),
        apply_ops(fs2, spec_restore_plan(v, root, snap, rf))[meta_toml(root)] == fs0[meta_toml(
            root,
        )],
        apply_ops(fs2, spec_restore_plan(v, root, snap, rf)).dom().contains(meta_json(root)),
        apply_ops(fs2, spec_restore_plan(v, root, snap, rf))[meta_json(root)] == fs0[meta_json(
            root,
        )],
{
    let bins = v.binaries;
    reveal_strlit("/.crates.toml");
    reveal_strlit("/.crates2.json");
    assert(meta_toml(root) != meta_json(root)) by {
        assert(meta_toml(root).len() != meta_json(root).len());
    }
    assert(meta_toml(snap) != meta_json(snap)) by {
        assert(meta_toml(snap).len() != meta_json(snap).len());
    }
    // The backup: first the binaries, then the two metadata copies.
    lemma_backup_ops_effect(bins, snap, rf, fs0);
    let m0 = apply_ops(fs0, bin_backup_ops(bins, snap, rf));
    lemma_apply_ops_append(fs0, bin_backup_ops(bins, snap, rf), metadata_ops(root, snap));
    let fs1 = apply_ops(fs0, spec_backup_plan(v, root, snap, rf));
    assert(!bin_touched(bins, snap, meta_toml(root)));
    assert(!bin_touched(bins, snap, meta_json(root)));
    assert(!bin_touched(bins, snap, meta_toml(snap)));
    assert(!bin_touched(bins, snap, meta_json(snap)));
    assert(same_at(m0, fs0, meta_toml(root)));
    assert(same_at(m0, fs0, meta_json(root)));
    assert(fs1 == apply_ops(m0, metadata_ops(root, snap)));
    let cp_toml = FileOpView::Copy { src: meta_toml(root), dst: meta_toml(snap) };
    let cp_json = FileOpView::Copy { src: meta_json(root), dst: meta_json(snap) };
    assert(metadata_ops(root, snap) =~= seq![cp_toml, cp_json]);
    lemma_apply_two(m0, cp_toml, cp_json);
    let m1 = apply_op(m0, cp_toml);
    let m2 = apply_op(m1, cp_json);
    assert(fs1 == m2);
    assert(m2.dom().contains(meta_toml(snap)) && m2[meta_toml(snap)] == fs0[meta_toml(root)]);
    assert(m2.dom().contains(meta_json(snap)) && m2[meta_json(snap)] == fs0[meta_json(root)]);
    assert forall|i: int|
        0 <= i < bins.len() implies m2.dom().contains(snap_bin_path(snap, #[trigger] bins[i]))
        && m2[snap_bin_path(snap, bins[i])] == fs0[bins[i]] by {
        assert(m0.dom().contains(snap_bin_path(snap, bins[i])));
    }
    // The restore on whatever the failed install left: first the binaries
    // back, then the metadata back.
    assert forall|i: int|
        0 <= i < bins.len() implies fs2.dom().contains(
        snap_bin_path(snap, #[trigger] bins[i]),
    ) && fs2[snap_bin_path(snap, bins[i])] == fs0[bins[i]] by {
        assert(in_snapshot(bins, snap, snap_bin_path(snap, bins[i])));
        assert(same_at(fs2, fs1, snap_bin_path(snap, bins[i])));
    }
    assert(in_snapshot(bins, snap, meta_toml(snap)));
    assert(in_snapshot(bins, snap, meta_json(snap)));
    assert(same_at(fs2, fs1, meta_toml(snap)));
    assert(same_at(fs2, fs1, meta_json(snap)));
    lemma_restore_ops_effect(bins, snap, rf, fs2);
    let r0 = apply_ops(fs2, bin_restore_ops(bins, snap, rf));
    lemma_apply_ops_append(fs2, bin_restore_ops(bins, snap, rf), metadata_ops(snap, root));
    let fs3 = apply_ops(fs2, spec_restore_plan(v, root, snap, rf));
    assert(!bin_touched(bins, snap, meta_toml(snap)));
    assert(!bin_touched(bins, snap, meta_json(snap)));
    assert(same_at(r0, fs2, meta_toml(snap)));
    assert(same_at(r0, fs2, meta_json(snap)));
    assert(r0.dom().contains(meta_toml(snap)) && r0[meta_toml(snap)] == fs0[meta_toml(root)]);
    assert(r0.dom().contains(meta_json(snap)) && r0[meta_json(snap)] == fs0[meta_json(root)]);
    let rp_toml = FileOpView::Copy { src: meta_toml(snap), dst: meta_toml(root) };
    let rp_json = FileOpView::Copy { src: meta_json(snap), dst: meta_json(root) };
    assert(metadata_ops(snap, root) =~= seq![rp_toml, rp_json]);
    lemma_apply_two(r0, rp_toml, rp_json);
    let n1 = apply_op(r0, rp_toml);
    let n2 = apply_op(n1, rp_json);
    assert(fs3 == n2);
    assert(n2.dom().contains(meta_toml(root)) && n2[meta_toml(root)] == fs0[meta_toml(root)]);
    assert(n2.dom().contains(meta_json(root)) && n2[meta_json(root)] == fs0[meta_json(root)]);
    assert forall|i: int|
        0 <= i < bins.len() implies fs3.dom().contains(#[trigger] bins[i]) && fs3[bins[i]]
        == fs0[bins[i]] by {
        assert(r0.dom().contains(bins[i]) && r0[bins[i]] == fs2[snap_bin_path(snap, bins[i])]);
    }
}

} // verus!

//! The package record: where a package came from, which version is
//! installed, which version the remote offers, and what to do about it.

use vstd::prelude::*;

verus! {

use crate::version::{Version, VersionView, version_lt, spec_version_of};
use crate::error::UpgradeError;
use crate::text::{
    str_to_chars, chars_to_string, split_chars_vec, split_seq, lines_of, spec_lines, trim_spaces,
    trim_by, is_space_char, starts_with_chars,
};

/// Where a package was installed from.
pub enum PackageSource {
    /// The central package registry.
    CratesIo,
    /// A remote git repository, with the commit the install was built from
    /// and the commit found at the remote.
    Git { url: String, commit: String, remote_commit: String },
    /// A local directory.
    Local { path: String },
}

/// The mathematical value of a package source.
pub ghost enum SourceView {
    CratesIo,
    Git { url: Seq<char>, commit: Seq<char>, remote_commit: Seq<char> },
    Local { path: Seq<char> },
}

impl View for PackageSource {
    type V = SourceView;

    open spec fn view(&self) -> SourceView {
        match self {
            PackageSource::CratesIo => SourceView::CratesIo,
            PackageSource::Git { url, commit, remote_commit } => SourceView::Git {
                url: url@,
                commit: commit@,
                remote_commit: remote_commit@,
            },
            PackageSource::Local { path } => SourceView::Local { path: path@ },
        }
    }
}

/// Version information for one installed package.
pub struct CrateVersion {
    pub name: String,
    pub version: Version,
    pub remote_version: Version,
    pub source: PackageSource,
    pub binaries: Vec<String>,
    pub features: Vec<String>,
}

/// The mathematical value of a package record.
pub ghost struct CrateVersionView {
    pub name: Seq<char>,
    pub version: VersionView,
    pub remote_version: VersionView,
    pub source: SourceView,
    pub binaries: Seq<Seq<char>>,
    pub features: Seq<Seq<char>>,
}

impl View for CrateVersion {
    type V = CrateVersionView;

    open spec fn view(&self) -> CrateVersionView {
        CrateVersionView {
            name: self.name@,
            version: self.version@,
            remote_version: self.remote_version@,
            source: self.source@,
            binaries: self.binaries.deep_view(),
            features: self.features.deep_view(),
        }
    }
}

impl Clone for PackageSource {
    fn clone(&self) -> (res: Self)
        ensures
            res@ == self@,
    {
        match self {
            PackageSource::CratesIo => PackageSource::CratesIo,
            PackageSource::Git { url, commit, remote_commit } => PackageSource::Git {
                url: url.clone(),
                commit: commit.clone(),
                remote_commit: remote_commit.clone(),
            },
            PackageSource::Local { path } => PackageSource::Local { path: path.clone() },
        }
    }
}

fn clone_names(v: &Vec<String>) -> (res: Vec<String>)
    ensures
        res.deep_view() == v.deep_view(),
{
    let res = v.clone();
    proof {
        assert forall|i: int| 0 <= i < v@.len() implies res@[i]@ == v@[i]@ by {
            assert(vstd::pervasive::cloned::<String>(v[i], res[i]));
        }
        assert(res.deep_view() =~~= v.deep_view());
    }
    res
}

impl Clone for CrateVersion {
    fn clone(&self) -> (res: Self)
        ensures
            res@ == self@,
    {
        CrateVersion {
            name: self.name.clone(),
            version: self.version.clone(),
            remote_version: self.remote_version.clone(),
            source: self.source.clone(),
            binaries: clone_names(&self.binaries),
            features: clone_names(&self.features),
        }
    }
}

impl CrateVersion {
    /// A fresh record: the remote version starts out equal to the
    /// installed version, the source is the registry, and no binaries or
    /// features are known yet.
    pub fn new(name: &str, ver: Version) -> (r: CrateVersion)
        ensures
            r@.name == name@,
            r@.version == ver@,
            r@.remote_version == ver@,
            r@.source is CratesIo,
            r@.binaries == Seq::<Seq<char>>::empty(),
            r@.features == Seq::<Seq<char>>::empty(),
    {
        let r = CrateVersion {
            name: name.to_owned(),
            version: ver.clone(),
            remote_version: ver,
            source: PackageSource::CratesIo,
            binaries: Vec::new(),
            features: Vec::new(),
        };
        proof {
            assert(r@.binaries =~= Seq::<Seq<char>>::empty());
            assert(r@.features =~= Seq::<Seq<char>>::empty());
        }
        r
    }

    /// A fresh record from a version text; nothing where the text is not
    /// a well-formed version.
    pub fn new_fromstr(name: &str, ver: &str) -> (r: Option<CrateVersion>)
        ensures
            match r {
                Some(cv) => {
                    &&& spec_version_of(ver@) == Some(cv@.version)
                    &&& cv@.name == name@
                    &&& cv@.remote_version == cv@.version
                    &&& cv@.source is CratesIo
                    &&& cv@.binaries == Seq::<Seq<char>>::empty()
                    &&& cv@.features == Seq::<Seq<char>>::empty()
                },
                None => spec_version_of(ver@) is None,
            },
    {
        match Version::parse(ver) {
            Some(v) => Some(CrateVersion::new(name, v)),
            None => None,
        }
    }

    /// Makes a remote git repository the package source; the remote commit
    /// starts out equal to the local one.
    pub fn set_repo(&mut self, url: &str, co: &str)
        ensures
            final(self)@ == (CrateVersionView {
                source: SourceView::Git { url: url@, commit: co@, remote_commit: co@ },
                ..old(self)@
            }),
    {
        self.source = PackageSource::Git {
            url: url.to_owned(),
            commit: co.to_owned(),
            remote_commit: co.to_owned(),
        };
    }

    /// Makes a local directory the package source.
    pub fn set_path(&mut self, path: &str)
        ensures
            final(self)@ == (CrateVersionView {
                source: SourceView::Local { path: path@ },
                ..old(self)@
            }),
    {
        self.source = PackageSource::Local { path: path.to_owned() };
    }

    /// Appends the given binary paths.
    pub fn set_binaries(&mut self, bin: &Vec<String>)
        ensures
            final(self)@ == (CrateVersionView {
                binaries: old(self)@.binaries + bin.deep_view(),
                ..old(self)@
            }),
    {
        let mut i: usize = 0;
        while i < bin.len()
            invariant
                i <= bin@.len(),
                self.binaries@.len() == old(self).binaries@.len() + i,
                forall|j: int|
                    0 <= j < old(self).binaries@.len() ==> #[trigger] self.binaries@[j]
                        == old(self).binaries@[j],
                forall|j: int|
                    old(self).binaries@.len() <= j < self.binaries@.len()
                        ==> #[trigger] self.binaries@[j]@ == bin@[j - old(
                        self,
                    ).binaries@.len()]@,
                self.name == old(self).name,
                self.version == old(self).version,
                self.remote_version == old(self).remote_version,
                self.source == old(self).source,
                self.features == old(self).features,
            decreases bin@.len() - i,
        {
            self.binaries.push(bin[i].clone());
            i = i + 1;
        }
        proof {
            let target = old(self)@.binaries + bin.deep_view();
            assert forall|k: int| 0 <= k < self.binaries@.len() implies #[trigger] self.binaries.deep_view()[k]
                == target[k] by {
                assert(self.binaries.deep_view()[k] == self.binaries@[k]@);
                if k < old(self).binaries@.len() {
                    assert(self.binaries@[k] == old(self).binaries@[k]);
                } else {
                    assert(self.binaries@[k]@ == bin@[k - old(self).binaries@.len()]@);
                }
            }
            assert(self.binaries.deep_view() =~= target);
        }
    }

    /// Appends the given feature names.
    pub fn set_features(&mut self, feat: &Vec<String>)
        ensures
            final(self)@ == (CrateVersionView {
                features: old(self)@.features + feat.deep_view(),
                ..old(self)@
            }),
    {
        let mut i: usize = 0;
        while i < feat.len()
            invariant
                i <= feat@.len(),
                self.features@.len() == old(self).features@.len() + i,
                forall|j: int|
                    0 <= j < old(self).features@.len() ==> #[trigger] self.features@[j]
                        == old(self).features@[j],
                forall|j: int|
                    old(self).features@.len() <= j < self.features@.len()
                        ==> #[trigger] self.features@[j]@ == feat@[j - old(
                        self,
                    ).features@.len()]@,
                self.name == old(self).name,
                self.version == old(self).version,
                self.remote_version == old(self).remote_version,
                self.source == old(self).source,
                self.binaries == old(self).binaries,
            decreases feat@.len() - i,
        {
            self.features.push(feat[i].clone());
            i = i + 1;
        }
        proof {
            let target = old(self)@.features + feat.deep_view();
            assert forall|k: int| 0 <= k < self.features@.len() implies #[trigger] self.features.deep_view()[k]
                == target[k] by {
                assert(self.features.deep_view()[k] == self.features@[k]@);
                if k < old(self).features@.len() {
                    assert(self.features@[k] == old(self).features@[k]);
                } else {
                    assert(self.features@[k]@ == feat@[k - old(self).features@.len()]@);
                }
            }
            assert(self.features.deep_view() =~= target);
        }
    }

    /// True exactly when the package source is the registry.
    pub fn is_cratesio(&self) -> (r: bool)
        ensures
            r == (self@.source is CratesIo),
    {
        matches!(self.source, PackageSource::CratesIo)
    }

    /// True exactly when the remote offers a strictly newer version.
    pub fn new_remote_version(&self) -> (r: bool)
        ensures
            r == version_lt(self@.version, self@.remote_version),
    {
        self.version.lt(&self.remote_version)
    }
}

/// What the orchestrator does with one package.
#[derive(PartialEq, Eq, Structural, Clone, Copy, Debug)]
pub enum UpgradeAction {
    /// Run the upgrade transaction.
    Upgrade,
    /// Leave it alone and report that only force would reinstall it.
    SkipNeedsForce,
    /// Leave it alone and report it up to date.
    SkipUpToDate,
}

/// The decision matrix over (has newer version, force requested, registry
/// source): anything behind upstream is upgraded; a git or local package
/// that is not behind is upgraded only under force; a registry package
/// that is not behind is always up to date.
pub open spec fn spec_decide(has_update: bool, force: bool, is_registry: bool) -> UpgradeAction {
    if has_update {
        UpgradeAction::Upgrade
    } else if force && !is_registry {
        UpgradeAction::Upgrade
    } else if !force && !is_registry {
        UpgradeAction::SkipNeedsForce
    } else {
        UpgradeAction::SkipUpToDate
    }
}

/// Decides what to do with a package.
pub fn decide(has_update: bool, force: bool, is_registry: bool) -> (a: UpgradeAction)
    ensures
        a == spec_decide(has_update, force, is_registry),
{
    if has_update {
        UpgradeAction::Upgrade
    } else if force && !is_registry {
        UpgradeAction::Upgrade
    } else if !force && !is_registry {
        UpgradeAction::SkipNeedsForce
    } else {
        UpgradeAction::SkipUpToDate
    }
}

/// The decision matrix, row by row: every combination of the three inputs
/// maps to the action the design table gives it.
pub proof fn lemma_decision_matrix()
    ensures
        spec_decide(true, true, true) == UpgradeAction::Upgrade,
        spec_decide(true, true, false) == UpgradeAction::Upgrade,
        spec_decide(true, false, true) == UpgradeAction::Upgrade,
        spec_decide(true, false, false) == UpgradeAction::Upgrade,
        spec_decide(false, true, false) == UpgradeAction::Upgrade,
        spec_decide(false, false, false) == UpgradeAction::SkipNeedsForce,
        spec_decide(false, true, true) == UpgradeAction::SkipUpToDate,
        spec_decide(false, false, true) == UpgradeAction::SkipUpToDate,
{
}

/// The first line that begins with the prefix, if any.
pub open spec fn first_match(lines: Seq<Seq<char>>, prefix: Seq<char>) -> Option<Seq<char>>
    decreases lines.len(),
{
    if lines.len() == 0 {
        None
    } else if prefix.is_prefix_of(lines.first()) {
        Some(lines.first())
    } else {
        first_match(lines.drop_first(), prefix)
    }
}

/// The line of a registry search output that reports on the named
/// package: the first line starting with the name and a space.
pub open spec fn spec_cratesio_line(name: Seq<char>, out: Seq<char>) -> Option<Seq<char>> {
    first_match(spec_lines(out), name + seq![' '])
}

/// The version text in a registry search output: the text between the
/// first two quote characters of the package's line, trimmed, if the line
/// exists and holds a quote at all.
pub open spec fn spec_cratesio_version(name: Seq<char>, out: Seq<char>) -> Option<Seq<char>> {
    match spec_cratesio_line(name, out) {
        None => None,
        Some(line) => {
            let pieces = split_seq(line, '"');
            if pieces.len() >= 2 {
                Some(trim_by(pieces[1], |c: char| is_space_char(c)))
            } else {
                None
            }
        },
    }
}

fn find_match_from(lines: &Vec<Vec<char>>, prefix: &Vec<char>, i: usize) -> (r: Option<usize>)
    requires
        i <= lines@.len(),
    ensures
        match r {
            Some(k) => {
                &&& i <= k < lines@.len()
                &&& first_match(lines.deep_view().skip(i as int), prefix@) == Some(
                    lines.deep_view()[k as int],
                )
            },
            None => first_match(lines.deep_view().skip(i as int), prefix@) is None,
        },
    decreases lines@.len() - i,
{
    proof {
        assert(lines.deep_view().len() == lines@.len());
        if i < lines.len() {
            assert(lines.deep_view().skip(i as int).drop_first() =~= lines.deep_view().skip(i + 1));
            assert(lines.deep_view().skip(i as int).first() =~= lines@[i as int]@);
        }
    }
    if i == lines.len() {
        None
    } else if starts_with_chars(&lines[i], prefix) {
        Some(i)
    } else {
        find_match_from(lines, prefix, i + 1)
    }
}

/// Reads the version of a package out of a captured registry search
/// output. Fails with `NoCrate` when no line reports on the package, and
/// with `Parse` when that line carries no quoted version token.
pub fn parse_cratesio(cratename: &str, search_output: &str) -> (r: Result<String, UpgradeError>)
    ensures
        match r {
            Ok(v) => spec_cratesio_version(cratename@, search_output@) == Some(v@),
            Err(e) => {
                &&& spec_cratesio_version(cratename@, search_output@) is None
                &&& match e {
                    UpgradeError::NoCrate(n) => n@ == cratename@ && spec_cratesio_line(
                        cratename@,
                        search_output@,
                    ) is None,
                    UpgradeError::Parse(w) => w@ == "CratesIo"@ && spec_cratesio_line(
                        cratename@,
                        search_output@,
                    ) is Some,
                    _ => false,
                }
            },
        },
{
    let out_chars = str_to_chars(search_output);
    let lines = lines_of(&out_chars);
    let mut prefix = str_to_chars(cratename);
    prefix.push(' ');
    proof {
        assert(prefix@ =~= cratename@ + seq![' ']);
        assert(lines.deep_view().skip(0) =~= lines.deep_view());
    }
    match find_match_from(&lines, &prefix, 0) {
        None => Err(UpgradeError::NoCrate(cratename.to_owned())),
        Some(k) => {
            let pieces = split_chars_vec(&lines[k], '"');
            proof {
                assert(lines.deep_view()[k as int] =~= lines@[k as int]@);
                assert(pieces.deep_view().len() == pieces@.len());
            }
            if pieces.len() >= 2 {
                let trimmed = trim_spaces(&pieces[1]);
                proof {
                    assert(pieces.deep_view()[1] =~= pieces@[1]@);
                }
                Ok(chars_to_string(&trimmed))
            } else {
                Err(UpgradeError::Parse("CratesIo".to_owned()))
            }
        },
    }
}

/// The string value of a manifest's top-level field, where the manifest
/// text is an object holding that field as a string.
pub open spec fn spec_manifest_field(doc: Seq<char>, field: Seq<char>) -> Option<Seq<char>> {
    match crate::json::spec_document(doc) {
        Some(crate::json::JsonView::Obj(ms)) => match crate::json::spec_obj_get(ms, field) {
            Some(crate::json::JsonView::Str(v)) => Some(v),
            _ => None,
        },
        _ => None,
    }
}

/// Reads a string field out of a captured manifest document. Fails where
/// the document does not parse, is not an object, or the field is absent
/// or not a string.
pub fn manifest_field(doc: &str, field: &str) -> (r: Result<String, UpgradeError>)
    ensures
        match r {
            Ok(v) => spec_manifest_field(doc@, field@) == Some(v@),
            Err(e) => {
                &&& spec_manifest_field(doc@, field@) is None
                &&& e matches UpgradeError::Parse(m) && m@ == "Cargo.toml"@
            },
        },
{
    match crate::json::parse_json(doc) {
        None => Err(UpgradeError::Parse("Cargo.toml".to_owned())),
        Some(j) => match j.get(field) {
            Some(v) => match v {
                crate::json::Json::Str(s) => Ok(s.clone()),
                _ => Err(UpgradeError::Parse("Cargo.toml".to_owned())),
            },
            None => Err(UpgradeError::Parse("Cargo.toml".to_owned())),
        },
    }
}

/// What the caller observed of a package's origin: the captured registry
/// search output, or the captured manifest text of a clone or local
/// directory together with the remote-ref listing's first line of output,
/// each absent where the command or the read failed.
pub enum RemoteObservation {
    Registry { search_output: String },
    Git { manifest: Option<String>, head_output: Option<String> },
    Local { manifest: Option<String> },
}

/// The mathematical value of an observation.
pub ghost enum ObsView {
    Registry { search_output: Seq<char> },
    Git { manifest: Option<Seq<char>>, head_output: Option<Seq<char>> },
    Local { manifest: Option<Seq<char>> },
}

impl View for RemoteObservation {
    type V = ObsView;

    open spec fn view(&self) -> ObsView {
        match self {
            RemoteObservation::Registry { search_output } => ObsView::Registry {
                search_output: search_output@,
            },
            RemoteObservation::Git { manifest, head_output } => ObsView::Git {
                manifest: match manifest {
                    Some(m) => Some(m@),
                    None => None,
                },
                head_output: match head_output {
                    Some(h) => Some(h@),
                    None => None,
                },
            },
            RemoteObservation::Local { manifest } => ObsView::Local {
                manifest: match manifest {
                    Some(m) => Some(m@),
                    None => None,
                },
            },
        }
    }
}

/// The version a resolved text denotes, or the fallback where no text was
/// resolved or the text is not a version.
pub open spec fn resolved_version(t: Option<Seq<char>>, fallback: VersionView) -> VersionView {
    match t {
        Some(vt) => match spec_version_of(vt) {
            Some(v) => v,
            None => fallback,
        },
        None => fallback,
    }
}

/// The version text a manifest observation carries, if any.
pub open spec fn manifest_version_text(manifest: Option<Seq<char>>) -> Option<Seq<char>> {
    match manifest {
        Some(m) => spec_manifest_field(m, "version"@),
        None => None,
    }
}

/// How one resolution step changes a record: the remote version takes the
/// version the observation carries where one was resolved and parses,
/// else it keeps its value; for a git source the remote commit takes the
/// first forty characters of the remote-ref listing where the listing is
/// that long, else it keeps its value; everything else is untouched. An
/// observation of the wrong kind for the record's source changes nothing.
pub open spec fn spec_resolve(r: CrateVersionView, o: ObsView) -> CrateVersionView {
    match o {
        ObsView::Registry { search_output } => {
            if r.source is CratesIo {
                CrateVersionView {
                    remote_version: resolved_version(
                        spec_cratesio_version(r.name, search_output),
                        r.remote_version,
                    ),
                    ..r
                }
            } else {
                r
            }
        },
        ObsView::Git { manifest, head_output } => match r.source {
            SourceView::Git { url, commit, remote_commit } => CrateVersionView {
                remote_version: resolved_version(
                    manifest_version_text(manifest),
                    r.remote_version,
                ),
                source: SourceView::Git {
                    url: url,
                    commit: commit,
                    remote_commit: match head_output {
                        Some(h) => if h.len() >= 40 {
                            h.take(40)
                        } else {
                            remote_commit
                        },
                        None => remote_commit,
                    },
                },
                ..r
            },
            _ => r,
        },
        ObsView::Local { manifest } => {
            if r.source is Local {
                CrateVersionView {
                    remote_version: resolved_version(
                        manifest_version_text(manifest),
                        r.remote_version,
                    ),
                    ..r
                }
            } else {
                r
            }
        },
    }
}

impl CrateVersion {
    /// Applies what the caller observed of the package's origin to the
    /// record. Failed lookups leave the record as it was; nothing is ever
    /// raised to the caller.
    pub fn get_remote_version(&mut self, obs: &RemoteObservation)
        ensures
            final(self)@ == spec_resolve(old(self)@, obs@),
    {
        match obs {
            RemoteObservation::Registry { search_output } => {
                if self.is_cratesio() {
                    match parse_cratesio(self.name.as_str(), search_output.as_str()) {
                        Ok(vt) => {
                            match Version::parse(vt.as_str()) {
                                Some(v) => {
                                    self.remote_version = v;
                                },
                                None => {},
                            }
                        },
                        Err(_) => {},
                    }
                }
            },
            RemoteObservation::Git { manifest, head_output } => {
                let is_git = matches!(self.source, PackageSource::Git { .. });
                if is_git {
                    match manifest {
                        Some(m) => {
                            match manifest_field(m.as_str(), "version") {
                                Ok(vt) => {
                                    match Version::parse(vt.as_str()) {
                                        Some(v) => {
                                            self.remote_version = v;
                                        },
                                        None => {},
                                    }
                                },
                                Err(_) => {},
                            }
                        },
                        None => {},
                    }
                    match head_output {
                        Some(h) => {
                            let hc = str_to_chars(h.as_str());
                            if hc.len() >= 40 {
                                let first = crate::text::copy_range(&hc, 0, 40);
                                proof {
                                    assert(first@ =~= h@.take(40));
                                }
                                let commit_text = chars_to_string(&first);
                                match &mut self.source {
                                    PackageSource::Git { remote_commit, .. } => {
                                        *remote_commit = commit_text;
                                    },
                                    _ => {},
                                }
                            }
                        },
                        None => {},
                    }
                }
            },
            RemoteObservation::Local { manifest } => {
                let is_local = matches!(self.source, PackageSource::Local { .. });
                if is_local {
                    match manifest {
                        Some(m) => {
                            match manifest_field(m.as_str(), "version") {
                                Ok(vt) => {
                                    match Version::parse(vt.as_str()) {
                                        Some(v) => {
                                            self.remote_version = v;
                                        },
                                        None => {},
                                    }
                                },
                                Err(_) => {},
                            }
                        },
                        None => {},
                    }
                }
            },
        }
    }
}

/// A registry search output in which no line reports on the package
/// leaves the record exactly as it was.
pub proof fn lemma_unresolved_search_unchanged(r: CrateVersionView, out: Seq<char>)
    requires
        spec_cratesio_line(r.name, out) is None,
    ensures
        spec_resolve(r, ObsView::Registry { search_output: out }) == r,
{
}

/// The status line of a record: the name, the features joined by commas
/// in brackets, the installed and remote versions in parentheses, and for
/// a git source the two commits and the url, for a local source the path.
pub open spec fn spec_render_record(v: CrateVersionView) -> Seq<char> {
    let head = v.name + " ["@ + crate::text::join_seq(v.features, ',') + "] ("@
        + crate::version::spec_render(v.version);
    match v.source {
        SourceView::CratesIo => head + ") -> ("@ + crate::version::spec_render(v.remote_version)
            + ")"@,
        SourceView::Git { url, commit, remote_commit } => head + "):"@ + commit + " -> ("@
            + crate::version::spec_render(v.remote_version) + "):"@ + remote_commit + " "@ + url,
        SourceView::Local { path } => head + ") -> ("@ + crate::version::spec_render(
            v.remote_version,
        ) + ") "@ + path,
    }
}

impl CrateVersion {
    /// Writes the record's status line.
    pub fn render(&self) -> (r: String)
        ensures
            r@ == spec_render_record(self@),
    {
        let mut s = self.name.clone();
        s.append(" [");
        let feats = crate::text::join_strings(&self.features, ',');
        s.append(feats.as_str());
        s.append("] (");
        let v = self.version.render();
        s.append(v.as_str());
        let rv = self.remote_version.render();
        match &self.source {
            PackageSource::CratesIo => {
                s.append(") -> (");
                s.append(rv.as_str());
                s.append(")");
            },
            PackageSource::Git { url, commit, remote_commit } => {
                s.append("):");
                s.append(commit.as_str());
                s.append(" -> (");
                s.append(rv.as_str());
                s.append("):");
                s.append(remote_commit.as_str());
                s.append(" ");
                s.append(url.as_str());
            },
            PackageSource::Local { path } => {
                s.append(") -> (");
                s.append(rv.as_str());
                s.append(") ");
                s.append(path.as_str());
            },
        }
        proof {
            assert(s@ =~= spec_render_record(self@));
        }
        s
    }
}

} // verus!

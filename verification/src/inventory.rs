//! The inventory reader: turns the persisted install registry into
//! package records. Two historical document shapes are read: the
//! structured one, an object whose `installs` member maps entry strings to
//! details objects; and the legacy table, whose lines map quoted entry
//! strings to arrays of binary names. An entry string reads
//! `<name> <version> (<source-descriptor>)`.

use vstd::prelude::*;

verus! {

use crate::config::Config;
use crate::crateversion::{CrateVersion, CrateVersionView, PackageSource, SourceView};
use crate::error::UpgradeError;
use crate::json::{
    Json, JsonView, json_view, jsons_view, members_view, spec_document, spec_obj_get, parse_json,
    spec_value, value_exec, skip_ws, skip_ws_exec, lemma_members_view_len,
    lemma_members_view_index, lemma_jsons_view_len, lemma_jsons_view_index,
};
use crate::text::{
    str_to_chars, chars_to_string, str_eq_chars, split_chars_vec, split_seq, lines_of, spec_lines,
    trim_spaces, trim_parens, trim_by, is_space_char, is_paren_char, starts_with_chars, copy_range,
};
use crate::version::{Version, VersionView, spec_version_of};

/// A local path descriptor minus its `file://` scheme prefix — three
/// slashes consumed on Windows, two elsewhere.
pub open spec fn strip_file_prefix(s: Seq<char>, windows: bool) -> Seq<char> {
    let prefix = if windows {
        "file:///"@
    } else {
        "file://"@
    };
    if prefix.is_prefix_of(s) {
        s.skip(prefix.len() as int)
    } else {
        s
    }
}

/// What an entry string denotes: the package name, its installed version,
/// and its source. Nothing where the field count is not three, the
/// version text is not a version, the source tag is unknown, or a git
/// descriptor lacks its commit.
pub open spec fn spec_parse_entry(entry: Seq<char>, windows: bool) -> Option<
    (Seq<char>, VersionView, SourceView),
> {
    let parts = split_seq(entry, ' ');
    if parts.len() != 3 {
        None
    } else {
        match spec_version_of(parts[1]) {
            None => None,
            Some(ver) => {
                let desc = trim_by(parts[2], |c: char| is_paren_char(c));
                let addr = split_seq(desc, '+');
                if addr[0] == "registry"@ {
                    Some((parts[0], ver, SourceView::CratesIo))
                } else if addr[0] == "git"@ && addr.len() >= 2 {
                    let gp = split_seq(addr[1], '#');
                    if gp.len() >= 2 {
                        Some(
                            (
                                parts[0],
                                ver,
                                SourceView::Git { url: gp[0], commit: gp[1], remote_commit: gp[1] },
                            ),
                        )
                    } else {
                        None
                    }
                } else if addr[0] == "path"@ && addr.len() >= 2 {
                    Some(
                        (parts[0], ver, SourceView::Local {
                            path: strip_file_prefix(addr[1], windows),
                        }),
                    )
                } else {
                    None
                }
            },
        }
    }
}

fn strip_file_prefix_exec(s: &Vec<char>, windows: bool) -> (r: Vec<char>)
    ensures
        r@ == strip_file_prefix(s@, windows),
{
    let prefix: &str = if windows {
        "file:///"
    } else {
        "file://"
    };
    let prefix_chars = str_to_chars(prefix);
    if starts_with_chars(s, &prefix_chars) {
        copy_range(s, prefix_chars.len(), s.len())
    } else {
        proof {
            assert(s@.subrange(0, s@.len() as int) =~= s@);
        }
        copy_range(s, 0, s.len())
    }
}

/// Parses one entry string.
pub fn parse_entry(entry: &Vec<char>, windows: bool) -> (r: Option<(String, Version,
    PackageSource,
)>)
    ensures
        match r {
            Some(t) => {
                &&& spec_parse_entry(entry@, windows) matches Some(e)
                &&& e.0 == t.0@
                &&& e.1 == t.1@
                &&& e.2 == t.2@
            },
            None => spec_parse_entry(entry@, windows) is None,
        },
{
    let parts = split_chars_vec(entry, ' ');
    proof {
        assert(parts.deep_view().len() == parts@.len());
    }
    if parts.len() != 3 {
        return None;
    }
    proof {
        assert(parts.deep_view()[1] =~= parts@[1]@);
        assert(parts.deep_view()[0] =~= parts@[0]@);
        assert(parts.deep_view()[2] =~= parts@[2]@);
    }
    let ver_text = chars_to_string(&parts[1]);
    let ver = match Version::parse(ver_text.as_str()) {
        None => {
            return None;
        },
        Some(v) => v,
    };
    let name = chars_to_string(&parts[0]);
    let desc = trim_parens(&parts[2]);
    let addr = split_chars_vec(&desc, '+');
    proof {
        crate::text::lemma_split_seq_len(desc@, '+');
        assert(addr.deep_view().len() == addr@.len());
        assert(addr@.len() >= 1);
        assert(addr.deep_view()[0] =~= addr@[0]@);
        if addr@.len() >= 2 {
            assert(addr.deep_view()[1] =~= addr@[1]@);
        }
    }
    if str_eq_chars("registry", &addr[0]) {
        Some((name, ver, PackageSource::CratesIo))
    } else if str_eq_chars("git", &addr[0]) && addr.len() >= 2 {
        let gp = split_chars_vec(&addr[1], '#');
        proof {
            assert(gp.deep_view().len() == gp@.len());
            if gp@.len() >= 2 {
                assert(gp.deep_view()[0] =~= gp@[0]@);
                assert(gp.deep_view()[1] =~= gp@[1]@);
            }
        }
        if gp.len() >= 2 {
            let url = chars_to_string(&gp[0]);
            let commit = chars_to_string(&gp[1]);
            let remote_commit = commit.clone();
            Some((name, ver, PackageSource::Git { url, commit, remote_commit }))
        } else {
            None
        }
    } else if str_eq_chars("path", &addr[0]) && addr.len() >= 2 {
        let path_chars = strip_file_prefix_exec(&addr[1], windows);
        Some((name, ver, PackageSource::Local { path: chars_to_string(&path_chars) }))
    } else {
        None
    }
}

/// Why an inventory document was rejected.
pub ghost enum InventoryIssue {
    /// No document was handed in at all.
    Missing,
    /// The document does not follow its grammar.
    Unparsable,
    /// The structured document has no `installs` object.
    NoInstalls,
    /// An entry string or table line is malformed.
    BadEntry(Seq<char>),
    /// The details under an entry are not an object.
    BadDetails(Seq<char>),
}

/// The error value the reader reports for each kind of rejection.
pub open spec fn matches_issue(e: &UpgradeError, issue: InventoryIssue) -> bool {
    match issue {
        InventoryIssue::Missing => e matches UpgradeError::Gen(m) && m@ == "inventory not found"@,
        InventoryIssue::Unparsable => e matches UpgradeError::Parse(m) && m@ == "inventory"@,
        InventoryIssue::NoInstalls => e matches UpgradeError::Gen(m) && m@ == "json not valid"@,
        InventoryIssue::BadEntry(_) => e matches UpgradeError::Parse(m) && m@ == "entry"@,
        InventoryIssue::BadDetails(_) => e matches UpgradeError::Gen(m) && m@
            == "details-segment not valid"@,
    }
}

/// The absolute path of a binary: the install root, the `bin`
/// subdirectory, and the name.
pub open spec fn bin_path(root: Seq<char>, name: Seq<char>) -> Seq<char> {
    root + "/bin/"@ + name
}

/// The binary paths named by an array's string elements; anything else in
/// the array is passed over.
pub open spec fn joined_bins(items: Seq<JsonView>, root: Seq<char>) -> Seq<Seq<char>>
    decreases items.len(),
{
    if items.len() == 0 {
        Seq::empty()
    } else {
        let rest = joined_bins(items.drop_first(), root);
        match items.first() {
            JsonView::Str(s) => seq![bin_path(root, s)] + rest,
            _ => rest,
        }
    }
}

/// The feature names in an array's string elements; anything else is
/// passed over.
pub open spec fn feature_names(items: Seq<JsonView>) -> Seq<Seq<char>>
    decreases items.len(),
{
    if items.len() == 0 {
        Seq::empty()
    } else {
        let rest = feature_names(items.drop_first());
        match items.first() {
            JsonView::Str(s) => seq![s] + rest,
            _ => rest,
        }
    }
}

/// The binaries a details object names, or none where it names none.
pub open spec fn details_bins(details: Seq<(Seq<char>, JsonView)>, root: Seq<char>) -> Seq<
    Seq<char>,
> {
    match spec_obj_get(details, "bins"@) {
        Some(JsonView::Arr(items)) => joined_bins(items, root),
        _ => Seq::empty(),
    }
}

/// The features a details object names, or none where it names none.
pub open spec fn details_features(details: Seq<(Seq<char>, JsonView)>) -> Seq<Seq<char>> {
    match spec_obj_get(details, "features"@) {
        Some(JsonView::Arr(items)) => feature_names(items),
        _ => Seq::empty(),
    }
}

/// The record one member of the `installs` object denotes.
pub open spec fn spec_record_of_member(
    key: Seq<char>,
    details: JsonView,
    root: Seq<char>,
    windows: bool,
) -> Result<CrateVersionView, InventoryIssue> {
    match spec_parse_entry(key, windows) {
        None => Err(InventoryIssue::BadEntry(key)),
        Some((name, ver, src)) => match details {
            JsonView::Obj(dd) => Ok(
                CrateVersionView {
                    name: name,
                    version: ver,
                    remote_version: ver,
                    source: src,
                    binaries: details_bins(dd, root),
                    features: details_features(dd),
                },
            ),
            _ => Err(InventoryIssue::BadDetails(key)),
        },
    }
}

/// The records of the members of the `installs` object, in order; the
/// first malformed member rejects the whole document.
pub open spec fn spec_records_of_installs(
    ms: Seq<(Seq<char>, JsonView)>,
    root: Seq<char>,
    windows: bool,
) -> Result<Seq<CrateVersionView>, InventoryIssue>
    decreases ms.len(),
{
    if ms.len() == 0 {
        Ok(Seq::empty())
    } else {
        match spec_record_of_member(ms.first().0, ms.first().1, root, windows) {
            Err(issue) => Err(issue),
            Ok(rec) => match spec_records_of_installs(ms.drop_first(), root, windows) {
                Err(issue) => Err(issue),
                Ok(rest) => Ok(seq![rec] + rest),
            },
        }
    }
}

/// The records a structured document denotes: its `installs` object, one
/// record per member.
pub open spec fn spec_read_structured(
    doc: Seq<char>,
    root: Seq<char>,
    windows: bool,
) -> Result<Seq<CrateVersionView>, InventoryIssue> {
    match spec_document(doc) {
        None => Err(InventoryIssue::Unparsable),
        Some(v) => match v {
            JsonView::Obj(ms) => match spec_obj_get(ms, "installs"@) {
                Some(JsonView::Obj(installs)) => spec_records_of_installs(installs, root, windows),
                _ => Err(InventoryIssue::NoInstalls),
            },
            _ => Err(InventoryIssue::NoInstalls),
        },
    }
}

/// The mathematical values of a list of records.
pub open spec fn records_view(rs: Seq<CrateVersion>) -> Seq<CrateVersionView> {
    Seq::new(rs.len(), |k: int| rs[k]@)
}

fn bin_path_exec(root: &str, name: &str) -> (r: String)
    ensures
        r@ == bin_path(root@, name@),
{
    let mut p = root.to_owned();
    p.append("/bin/");
    p.append(name);
    p
}

fn joined_bins_from(items: &Vec<Json>, i: usize, root: &str) -> (r: Vec<String>)
    requires
        i <= items@.len(),
    ensures
        r.deep_view() == joined_bins(jsons_view(items@).skip(i as int), root@),
    decreases items@.len() - i,
{
    proof {
        lemma_jsons_view_len(items@);
        if i < items@.len() {
            assert(jsons_view(items@).skip(i as int).drop_first() =~= jsons_view(items@).skip(
                i + 1,
            ));
            lemma_jsons_view_index(items@, i as int);
        }
    }
    if i == items.len() {
        let r: Vec<String> = Vec::new();
        proof {
            assert(r.deep_view() =~= joined_bins(jsons_view(items@).skip(i as int), root@));
        }
        r
    } else {
        let rest = joined_bins_from(items, i + 1, root);
        let ghost rest_view = rest.deep_view();
        match &items[i] {
            Json::Str(s) => {
                let p = bin_path_exec(root, s.as_str());
                let mut out = rest;
                out.insert(0, p);
                proof {
                    let target = joined_bins(jsons_view(items@).skip(i as int), root@);
                    assert(out.deep_view().len() == target.len());
                    assert forall|k: int| 0 <= k < out@.len() implies #[trigger] out.deep_view()[k]
                        == target[k] by {
                        if k > 0 {
                            assert(out@[k] == rest@[k - 1]);
                            assert(rest.deep_view()[k - 1] == rest@[k - 1]@);
                        }
                    }
                    assert(out.deep_view() =~= target);
                }
                out
            },
            _ => rest,
        }
    }
}

fn feature_names_from(items: &Vec<Json>, i: usize) -> (r: Vec<String>)
    requires
        i <= items@.len(),
    ensures
        r.deep_view() == feature_names(jsons_view(items@).skip(i as int)),
    decreases items@.len() - i,
{
    proof {
        lemma_jsons_view_len(items@);
        if i < items@.len() {
            assert(jsons_view(items@).skip(i as int).drop_first() =~= jsons_view(items@).skip(
                i + 1,
            ));
            lemma_jsons_view_index(items@, i as int);
        }
    }
    if i == items.len() {
        let r: Vec<String> = Vec::new();
        proof {
            assert(r.deep_view() =~= feature_names(jsons_view(items@).skip(i as int)));
        }
        r
    } else {
        let rest = feature_names_from(items, i + 1);
        match &items[i] {
            Json::Str(s) => {
                let mut out = rest;
                out.insert(0, s.clone());
                proof {
                    let target = feature_names(jsons_view(items@).skip(i as int));
                    assert forall|k: int| 0 <= k < out@.len() implies #[trigger] out.deep_view()[k]
                        == target[k] by {
                        if k > 0 {
                            assert(out@[k] == out@.drop_first()[k - 1]);
                        }
                    }
                    assert(out.deep_view() =~= target);
                }
                out
            },
            _ => rest,
        }
    }
}

fn record_of_member(key: &String, details: &Json, root: &str, windows: bool) -> (r: Result<
    CrateVersion,
    UpgradeError,
>)
    ensures
        match r {
            Ok(cv) => spec_record_of_member(key@, json_view(*details), root@, windows) == Ok::<CrateVersionView, InventoryIssue>(cv@),
            Err(e) => {
                &&& spec_record_of_member(key@, json_view(*details), root@, windows) matches Err(
                    issue,
                )
                &&& matches_issue(&e, issue)
            },
        },
{
    let key_chars = str_to_chars(key.as_str());
    match parse_entry(&key_chars, windows) {
        None => Err(UpgradeError::Parse("entry".to_owned())),
        Some((name, ver, src)) => {
            match details {
                Json::Obj(_) => {
                    let binaries: Vec<String> = match details.get("bins") {
                        Some(b) => match b {
                            Json::Arr(items) => {
                                proof {
                                    assert(jsons_view(items@).skip(0) =~= jsons_view(items@));
                                }
                                joined_bins_from(items, 0, root)
                            },
                            _ => Vec::new(),
                        },
                        None => Vec::new(),
                    };
                    let features: Vec<String> = match details.get("features") {
                        Some(f) => match f {
                            Json::Arr(items) => {
                                proof {
                                    assert(jsons_view(items@).skip(0) =~= jsons_view(items@));
                                }
                                feature_names_from(items, 0)
                            },
                            _ => Vec::new(),
                        },
                        None => Vec::new(),
                    };
                    let remote_version = ver.clone();
                    let cv = CrateVersion {
                        name,
                        version: ver,
                        remote_version,
                        source: src,
                        binaries,
                        features,
                    };
                    proof {
                        let spec_r = spec_record_of_member(
                            key@,
                            json_view(*details),
                            root@,
                            windows,
                        );
                        assert(spec_r matches Ok(rv) && {
                            &&& cv@.binaries =~= rv.binaries
                            &&& cv@.features =~= rv.features
                        });
                    }
                    Ok(cv)
                },
                _ => Err(UpgradeError::Gen("details-segment not valid".to_owned())),
            }
        },
    }
}

fn records_from(installs: &Vec<(String, Json)>, i: usize, root: &str, windows: bool) -> (r: Result<
    Vec<CrateVersion>,
    UpgradeError,
>)
    requires
        i <= installs@.len(),
    ensures
        match r {
            Ok(v) => spec_records_of_installs(members_view(installs@).skip(i as int), root@, windows)
                == Ok::<Seq<CrateVersionView>, InventoryIssue>(records_view(v@)),
            Err(e) => {
                &&& spec_records_of_installs(
                    members_view(installs@).skip(i as int),
                    root@,
                    windows,
                ) matches Err(issue)
                &&& matches_issue(&e, issue)
            },
        },
    decreases installs@.len() - i,
{
    proof {
        lemma_members_view_len(installs@);
        if i < installs@.len() {
            assert(members_view(installs@).skip(i as int).drop_first() =~= members_view(
                installs@,
            ).skip(i + 1));
            lemma_members_view_index(installs@, i as int);
        }
    }
    if i == installs.len() {
        let r: Vec<CrateVersion> = Vec::new();
        proof {
            assert(records_view(r@) =~= Seq::<CrateVersionView>::empty());
        }
        Ok(r)
    } else {
        let (key, details) = &installs[i];
        match record_of_member(key, details, root, windows) {
            Err(e) => Err(e),
            Ok(cv) => {
                match records_from(installs, i + 1, root, windows) {
                    Err(e) => Err(e),
                    Ok(rest) => {
                        let ghost rest_snap = rest@;
                        let mut out = rest;
                        out.insert(0, cv);
                        proof {
                            assert(out@.drop_first() =~= rest_snap);
                            let target = seq![out@[0]@] + records_view(rest_snap);
                            assert forall|k: int| 0 <= k < out@.len() implies #[trigger] records_view(
                                out@,
                            )[k] == target[k] by {
                                if k > 0 {
                                    assert(out@[k] == rest_snap[k - 1]);
                                }
                            }
                            assert(records_view(out@) =~= target);
                        }
                        Ok(out)
                    },
                }
            },
        }
    }
}

/// Reads the records of a structured inventory document.
pub fn read_structured(doc: &str, root: &str, windows: bool) -> (r: Result<
    Vec<CrateVersion>,
    UpgradeError,
>)
    ensures
        match r {
            Ok(v) => spec_read_structured(doc@, root@, windows) == Ok::<Seq<CrateVersionView>, InventoryIssue>(records_view(v@)),
            Err(e) => {
                &&& spec_read_structured(doc@, root@, windows) matches Err(issue)
                &&& matches_issue(&e, issue)
            },
        },
{
    match parse_json(doc) {
        None => Err(UpgradeError::Parse("inventory".to_owned())),
        Some(j) => {
            match j.get("installs") {
                Some(inst) => match inst {
                    Json::Obj(installs) => {
                        proof {
                            assert(members_view(installs@).skip(0) =~= members_view(installs@));
                        }
                        records_from(installs, 0, root, windows)
                    },
                    _ => Err(UpgradeError::Gen("json not valid".to_owned())),
                },
                None => Err(UpgradeError::Gen("json not valid".to_owned())),
            }
        },
    }
}

/// The texts of a list of values that are all strings; nothing where any
/// of them is something else.
pub open spec fn all_strings(items: Seq<JsonView>) -> Option<Seq<Seq<char>>>
    decreases items.len(),
{
    if items.len() == 0 {
        Some(Seq::empty())
    } else {
        match items.first() {
            JsonView::Str(s) => match all_strings(items.drop_first()) {
                Some(rest) => Some(seq![s] + rest),
                None => None,
            },
            _ => None,
        }
    }
}

/// What one legacy table line denotes: a quoted entry string, `=`, and an
/// array of quoted binary names, nothing else on the line.
pub open spec fn spec_legacy_line(line: Seq<char>) -> Option<(Seq<char>, Seq<Seq<char>>)> {
    match spec_value(line, 0) {
        Some((JsonView::Str(key), j)) => {
            let k = skip_ws(line, j);
            if k < line.len() && line[k] == '=' {
                let m = skip_ws(line, k + 1);
                match spec_value(line, m) {
                    Some((JsonView::Arr(items), e)) => {
                        if skip_ws(line, e) == line.len() {
                            match all_strings(items) {
                                Some(bins) => Some((key, bins)),
                                None => None,
                            }
                        } else {
                            None
                        }
                    },
                    _ => None,
                }
            } else {
                None
            }
        },
        _ => None,
    }
}

/// The named binaries as absolute paths.
pub open spec fn joined_names(names: Seq<Seq<char>>, root: Seq<char>) -> Seq<Seq<char>> {
    names.map_values(|n: Seq<char>| bin_path(root, n))
}

/// The records of the lines of a legacy table document: blank lines and
/// table headers are passed over; any other line must be a table entry.
pub open spec fn spec_records_of_lines(
    ls: Seq<Seq<char>>,
    root: Seq<char>,
    windows: bool,
) -> Result<Seq<CrateVersionView>, InventoryIssue>
    decreases ls.len(),
{
    if ls.len() == 0 {
        Ok(Seq::empty())
    } else {
        let t = trim_by(ls.first(), |c: char| is_space_char(c));
        if t.len() == 0 || t[0] == '[' {
            spec_records_of_lines(ls.drop_first(), root, windows)
        } else {
            match spec_legacy_line(t) {
                None => Err(InventoryIssue::BadEntry(t)),
                Some((key, bins)) => match spec_parse_entry(key, windows) {
                    None => Err(InventoryIssue::BadEntry(key)),
                    Some((name, ver, src)) => match spec_records_of_lines(
                        ls.drop_first(),
                        root,
                        windows,
                    ) {
                        Err(issue) => Err(issue),
                        Ok(rest) => Ok(
                            seq![
                                CrateVersionView {
                                    name: name,
                                    version: ver,
                                    remote_version: ver,
                                    source: src,
                                    binaries: joined_names(bins, root),
                                    features: Seq::empty(),
                                },
                            ] + rest,
                        ),
                    },
                },
            }
        }
    }
}

/// The records a legacy table document denotes.
pub open spec fn spec_read_legacy(doc: Seq<char>, root: Seq<char>, windows: bool) -> Result<
    Seq<CrateVersionView>,
    InventoryIssue,
> {
    spec_records_of_lines(spec_lines(doc), root, windows)
}

fn all_strings_from(items: &Vec<Json>, i: usize) -> (r: Option<Vec<String>>)
    requires
        i <= items@.len(),
    ensures
        match r {
            Some(v) => all_strings(jsons_view(items@).skip(i as int)) == Some(v.deep_view()),
            None => all_strings(jsons_view(items@).skip(i as int)) is None,
        },
    decreases items@.len() - i,
{
    proof {
        lemma_jsons_view_len(items@);
        if i < items@.len() {
            assert(jsons_view(items@).skip(i as int).drop_first() =~= jsons_view(items@).skip(
                i + 1,
            ));
            lemma_jsons_view_index(items@, i as int);
        }
    }
    if i == items.len() {
        let r: Vec<String> = Vec::new();
        proof {
            assert(r.deep_view() =~= Seq::<Seq<char>>::empty());
        }
        Some(r)
    } else {
        match &items[i] {
            Json::Str(s) => {
                match all_strings_from(items, i + 1) {
                    None => None,
                    Some(rest) => {
                        let ghost rest_snap = rest.deep_view();
                        let mut out = rest;
                        out.insert(0, s.clone());
                        proof {
                            let target = seq![s@] + rest_snap;
                            assert forall|k: int| 0 <= k < out@.len() implies #[trigger] out.deep_view()[k]
                                == target[k] by {
                                if k > 0 {
                                    assert(out@[k] == out@.drop_first()[k - 1]);
                                }
                            }
                            assert(out.deep_view() =~= target);
                        }
                        Some(out)
                    },
                }
            },
            _ => None,
        }
    }
}

fn legacy_line_exec(line: &Vec<char>) -> (r: Option<(String, Vec<String>)>)
    ensures
        match r {
            Some(t) => spec_legacy_line(line@) == Some((t.0@, t.1.deep_view())),
            None => spec_legacy_line(line@) is None,
        },
{
    match value_exec(line, 0) {
        Some((Json::Str(key), j)) => {
            let k = skip_ws_exec(line, j);
            if k < line.len() && line[k] == '=' {
                let m = skip_ws_exec(line, k + 1);
                match value_exec(line, m) {
                    Some((Json::Arr(items), e)) => {
                        let after = skip_ws_exec(line, e);
                        if after == line.len() {
                            proof {
                                assert(jsons_view(items@).skip(0) =~= jsons_view(items@));
                            }
                            match all_strings_from(&items, 0) {
                                Some(bins) => Some((key, bins)),
                                None => None,
                            }
                        } else {
                            None
                        }
                    },
                    _ => None,
                }
            } else {
                None
            }
        },
        _ => None,
    }
}

fn legacy_records_from(ls: &Vec<Vec<char>>, i: usize, root: &str, windows: bool) -> (r: Result<
    Vec<CrateVersion>,
    UpgradeError,
>)
    requires
        i <= ls@.len(),
    ensures
        match r {
            Ok(v) => spec_records_of_lines(ls.deep_view().skip(i as int), root@, windows) == Ok::<
                Seq<CrateVersionView>,
                InventoryIssue,
            >(records_view(v@)),
            Err(e) => {
                &&& spec_records_of_lines(ls.deep_view().skip(i as int), root@, windows) matches Err(
                    issue,
                )
                &&& matches_issue(&e, issue)
            },
        },
    decreases ls@.len() - i,
{
    proof {
        assert(ls.deep_view().len() == ls@.len());
        if i < ls@.len() {
            assert(ls.deep_view().skip(i as int).drop_first() =~= ls.deep_view().skip(i + 1));
            assert(ls.deep_view().skip(i as int).first() =~= ls@[i as int]@);
        }
    }
    if i == ls.len() {
        let r: Vec<CrateVersion> = Vec::new();
        proof {
            assert(records_view(r@) =~= Seq::<CrateVersionView>::empty());
        }
        Ok(r)
    } else {
        let t = trim_spaces(&ls[i]);
        if t.len() == 0 || t[0] == '[' {
            legacy_records_from(ls, i + 1, root, windows)
        } else {
            match legacy_line_exec(&t) {
                None => Err(UpgradeError::Parse("entry".to_owned())),
                Some((key, bins)) => {
                    let key_chars = str_to_chars(key.as_str());
                    match parse_entry(&key_chars, windows) {
                        None => Err(UpgradeError::Parse("entry".to_owned())),
                        Some((name, ver, src)) => {
                            match legacy_records_from(ls, i + 1, root, windows) {
                                Err(e) => Err(e),
                                Ok(rest) => {
                                    let mut binaries: Vec<String> = Vec::new();
                                    let mut b: usize = 0;
                                    while b < bins.len()
                                        invariant
                                            b <= bins@.len(),
                                            binaries@.len() == b,
                                            forall|k: int|
                                                0 <= k < b ==> #[trigger] binaries@[k]@ == bin_path(
                                                    root@,
                                                    bins@[k]@,
                                                ),
                                        decreases bins@.len() - b,
                                    {
                                        binaries.push(bin_path_exec(root, bins[b].as_str()));
                                        b = b + 1;
                                    }
                                    proof {
                                        assert(binaries.deep_view() =~= joined_names(
                                            bins.deep_view(),
                                            root@,
                                        ));
                                    }
                                    let remote_version = ver.clone();
                                    let cv = CrateVersion {
                                        name,
                                        version: ver,
                                        remote_version,
                                        source: src,
                                        binaries,
                                        features: Vec::new(),
                                    };
                                    let ghost rest_snap = rest@;
                                    let mut out = rest;
                                    out.insert(0, cv);
                                    proof {
                                        assert(out@[0]@.features =~= Seq::<Seq<char>>::empty());
                                        let target = seq![out@[0]@] + records_view(rest_snap);
                                        assert forall|k: int|
                                            0 <= k < out@.len() implies #[trigger] records_view(
                                            out@,
                                        )[k] == target[k] by {
                                            if k > 0 {
                                                assert(out@[k] == rest_snap[k - 1]);
                                            }
                                        }
                                        assert(records_view(out@) =~= target);
                                    }
                                    Ok(out)
                                },
                            }
                        },
                    }
                },
            }
        }
    }
}

/// Reads the records of a legacy table document.
pub fn read_legacy(doc: &str, root: &str, windows: bool) -> (r: Result<
    Vec<CrateVersion>,
    UpgradeError,
>)
    ensures
        match r {
            Ok(v) => spec_read_legacy(doc@, root@, windows) == Ok::<
                Seq<CrateVersionView>,
                InventoryIssue,
            >(records_view(v@)),
            Err(e) => {
                &&& spec_read_legacy(doc@, root@, windows) matches Err(issue)
                &&& matches_issue(&e, issue)
            },
        },
{
    let chars = str_to_chars(doc);
    let ls = lines_of(&chars);
    proof {
        assert(ls.deep_view().skip(0) =~= ls.deep_view());
    }
    legacy_records_from(&ls, 0, root, windows)
}

/// What the whole inventory denotes, given whichever documents exist: the
/// structured document where it exists, else the legacy one, else nothing.
pub open spec fn spec_read_installed(
    root: Seq<char>,
    structured: Option<Seq<char>>,
    legacy: Option<Seq<char>>,
    windows: bool,
) -> Result<Seq<CrateVersionView>, InventoryIssue> {
    match structured {
        Some(doc) => spec_read_structured(doc, root, windows),
        None => match legacy {
            Some(doc) => spec_read_legacy(doc, root, windows),
            None => Err(InventoryIssue::Missing),
        },
    }
}

/// The view of an optional document.
pub open spec fn opt_text_view(o: Option<&str>) -> Option<Seq<char>> {
    match o {
        Some(s) => Some(s@),
        None => None,
    }
}

/// Reads the installed packages out of the inventory documents, preferring
/// the structured document where both exist. The caller reads the files
/// under the configured root and hands their contents in.
pub fn read_installed_packages(
    cfg: &Config,
    structured: Option<&str>,
    legacy: Option<&str>,
    windows: bool,
) -> (r: Result<Vec<CrateVersion>, UpgradeError>)
    ensures
        match r {
            Ok(v) => spec_read_installed(
                cfg.cpath@,
                opt_text_view(structured),
                opt_text_view(legacy),
                windows,
            ) == Ok::<Seq<CrateVersionView>, InventoryIssue>(records_view(v@)),
            Err(e) => {
                &&& spec_read_installed(
                    cfg.cpath@,
                    opt_text_view(structured),
                    opt_text_view(legacy),
                    windows,
                ) matches Err(issue)
                &&& matches_issue(&e, issue)
            },
        },
{
    match structured {
        Some(doc) => read_structured(doc, cfg.cpath.as_str(), windows),
        None => match legacy {
            Some(doc) => read_legacy(doc, cfg.cpath.as_str(), windows),
            None => Err(UpgradeError::Gen("inventory not found".to_owned())),
        },
    }
}

/// A record as the reader first builds it: the remote version equal to
/// the installed one and, for a git source, the remote commit equal to
/// the local one.
pub open spec fn fresh_record(r: CrateVersionView) -> bool {
    &&& r.remote_version == r.version
    &&& (r.source matches SourceView::Git { commit, remote_commit, .. } ==> remote_commit
        == commit)
}

proof fn lemma_fresh_entry(entry: Seq<char>, windows: bool)
    ensures
        spec_parse_entry(entry, windows) matches Some(e) ==> (e.2 matches SourceView::Git {
            commit,
            remote_commit,
            ..
        } ==> remote_commit == commit),
{
}

proof fn lemma_fresh_installs(ms: Seq<(Seq<char>, JsonView)>, root: Seq<char>, windows: bool)
    ensures
        spec_records_of_installs(ms, root, windows) matches Ok(recs) ==> forall|i: int|
            0 <= i < recs.len() ==> fresh_record(#[trigger] recs[i]),
    decreases ms.len(),
{
    if ms.len() > 0 {
        lemma_fresh_installs(ms.drop_first(), root, windows);
        lemma_fresh_entry(ms.first().0, windows);
        match spec_records_of_installs(ms, root, windows) {
            Err(_) => {},
            Ok(recs) => {
                assert forall|i: int| 0 <= i < recs.len() implies fresh_record(
                    #[trigger] recs[i],
                ) by {
                    let rest = spec_records_of_installs(ms.drop_first(), root, windows)->Ok_0;
                    if i > 0 {
                        assert(recs[i] == rest[i - 1]);
                    }
                }
            },
        }
    }
}

proof fn lemma_fresh_lines(ls: Seq<Seq<char>>, root: Seq<char>, windows: bool)
    ensures
        spec_records_of_lines(ls, root, windows) matches Ok(recs) ==> forall|i: int|
            0 <= i < recs.len() ==> fresh_record(#[trigger] recs[i]),
    decreases ls.len(),
{
    if ls.len() > 0 {
        lemma_fresh_lines(ls.drop_first(), root, windows);
        let t = trim_by(ls.first(), |c: char| is_space_char(c));
        if !(t.len() == 0 || t[0] == '[') {
            match spec_legacy_line(t) {
                None => {},
                Some((key, bins)) => {
                    lemma_fresh_entry(key, windows);
                },
            }
        }
        match spec_records_of_lines(ls, root, windows) {
            Err(_) => {},
            Ok(recs) => {
                assert forall|i: int| 0 <= i < recs.len() implies fresh_record(
                    #[trigger] recs[i],
                ) by {
                    let rest = spec_records_of_lines(ls.drop_first(), root, windows)->Ok_0;
                    if !(t.len() == 0 || t[0] == '[') && i > 0 {
                        assert(recs[i] == rest[i - 1]);
                    }
                }
            },
        }
    }
}

/// Every record the reader yields is fresh: its remote version equals its
/// installed version and, for a git source, its remote commit equals its
/// local commit.
pub proof fn lemma_fresh_records(
    root: Seq<char>,
    structured: Option<Seq<char>>,
    legacy: Option<Seq<char>>,
    windows: bool,
)
    ensures
        spec_read_installed(root, structured, legacy, windows) matches Ok(recs) ==> forall|i: int|
            0 <= i < recs.len() ==> fresh_record(#[trigger] recs[i]),
{
    match structured {
        Some(doc) => {
            match spec_document(doc) {
                Some(JsonView::Obj(ms)) => {
                    match spec_obj_get(ms, "installs"@) {
                        Some(JsonView::Obj(installs)) => {
                            lemma_fresh_installs(installs, root, windows);
                        },
                        _ => {},
                    }
                },
                _ => {},
            }
        },
        None => {
            match legacy {
                Some(doc) => {
                    lemma_fresh_lines(spec_lines(doc), root, windows);
                },
                None => {},
            }
        },
    }
}

} // verus!

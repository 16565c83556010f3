//! The run's package selection: which inventory records a run works on,
//! and which explicitly requested packages the inventory does not hold.

use vstd::prelude::*;

verus! {

use crate::config::PackageMode;
use crate::crateversion::{CrateVersion, CrateVersionView};
use crate::inventory::records_view;
use crate::text::str_eq_chars;

/// Whether a list of names holds the name.
pub open spec fn contains_name(names: Seq<Seq<char>>, n: Seq<char>) -> bool {
    exists|i: int| 0 <= i < names.len() && #[trigger] names[i] == n
}

/// Whether the mode selects a package of the given name.
pub open spec fn mode_selects(mode: PackageMode, name: Seq<char>) -> bool {
    match mode {
        PackageMode::All => true,
        PackageMode::Include(list) => contains_name(list.deep_view(), name),
        PackageMode::Exclude(list) => !contains_name(list.deep_view(), name),
    }
}

/// The records whose names the mode selects, in order.
pub open spec fn spec_retain(rs: Seq<CrateVersionView>, mode: PackageMode) -> Seq<CrateVersionView>
    decreases rs.len(),
{
    if rs.len() == 0 {
        Seq::empty()
    } else {
        let rest = spec_retain(rs.drop_first(), mode);
        if mode_selects(mode, rs.first().name) {
            seq![rs.first()] + rest
        } else {
            rest
        }
    }
}

fn name_listed(names: &Vec<String>, n: &str) -> (r: bool)
    ensures
        r == contains_name(names.deep_view(), n@),
{
    let n_chars = crate::text::str_to_chars(n);
    let mut i: usize = 0;
    while i < names.len()
        invariant
            i <= names@.len(),
            n_chars@ == n@,
            forall|j: int| 0 <= j < i ==> #[trigger] names.deep_view()[j] != n@,
        decreases names@.len() - i,
    {
        if str_eq_chars(names[i].as_str(), &n_chars) {
            proof {
                assert(names.deep_view()[i as int] == n@);
            }
            return true;
        }
        proof {
            assert(names.deep_view()[i as int] == names@[i as int]@);
        }
        i = i + 1;
    }
    false
}

/// Whether the mode selects the name.
pub fn mode_selects_exec(mode: &PackageMode, name: &str) -> (r: bool)
    ensures
        r == mode_selects(*mode, name@),
{
    match mode {
        PackageMode::All => true,
        PackageMode::Include(list) => name_listed(list, name),
        PackageMode::Exclude(list) => !name_listed(list, name),
    }
}

fn retain_from(installed: &Vec<CrateVersion>, i: usize, mode: &PackageMode) -> (r: Vec<CrateVersion>)
    requires
        i <= installed@.len(),
    ensures
        records_view(r@) == spec_retain(records_view(installed@).skip(i as int), *mode),
    decreases installed@.len() - i,
{
    proof {
        if i < installed@.len() {
            assert(records_view(installed@).skip(i as int).drop_first() =~= records_view(
                installed@,
            ).skip(i + 1));
            assert(records_view(installed@).skip(i as int).first() == installed@[i as int]@);
        }
    }
    if i == installed.len() {
        let r: Vec<CrateVersion> = Vec::new();
        proof {
            assert(records_view(r@) =~= Seq::<CrateVersionView>::empty());
        }
        r
    } else {
        let keep = mode_selects_exec(mode, installed[i].name.as_str());
        let rest = retain_from(installed, i + 1, mode);
        if keep {
            let ghost rest_snap = rest@;
            let mut out = rest;
            out.insert(0, installed[i].clone());
            proof {
                let target = seq![out@[0]@] + records_view(rest_snap);
                assert forall|k: int| 0 <= k < out@.len() implies #[trigger] records_view(out@)[k]
                    == target[k] by {
                    if k > 0 {
                        assert(out@[k] == rest_snap[k - 1]);
                    }
                }
                assert(records_view(out@) =~= target);
            }
            out
        } else {
            rest
        }
    }
}

/// Keeps the records the run works on: every record, only the named ones,
/// or every record but the named ones.
pub fn filter_packages(installed: Vec<CrateVersion>, mode: &PackageMode) -> (r: Vec<CrateVersion>)
    ensures
        records_view(r@) == spec_retain(records_view(installed@), *mode),
{
    proof {
        assert(records_view(installed@).skip(0) =~= records_view(installed@));
    }
    retain_from(&installed, 0, mode)
}

/// Whether any record carries the name.
pub open spec fn has_record_named(rs: Seq<CrateVersionView>, n: Seq<char>) -> bool {
    exists|i: int| 0 <= i < rs.len() && #[trigger] rs[i].name == n
}

/// The requested names that no record carries, in request order.
pub open spec fn spec_missing(names: Seq<Seq<char>>, rs: Seq<CrateVersionView>) -> Seq<Seq<char>>
    decreases names.len(),
{
    if names.len() == 0 {
        Seq::empty()
    } else {
        let rest = spec_missing(names.drop_first(), rs);
        if has_record_named(rs, names.first()) {
            rest
        } else {
            seq![names.first()] + rest
        }
    }
}

fn record_named(installed: &Vec<CrateVersion>, n: &str) -> (r: bool)
    ensures
        r == has_record_named(records_view(installed@), n@),
{
    let n_chars = crate::text::str_to_chars(n);
    let mut i: usize = 0;
    while i < installed.len()
        invariant
            i <= installed@.len(),
            n_chars@ == n@,
            forall|j: int| 0 <= j < i ==> #[trigger] records_view(installed@)[j].name != n@,
        decreases installed@.len() - i,
    {
        if str_eq_chars(installed[i].name.as_str(), &n_chars) {
            proof {
                assert(records_view(installed@)[i as int].name == n@);
            }
            return true;
        }
        proof {
            assert(records_view(installed@)[i as int].name == installed@[i as int]@.name);
        }
        i = i + 1;
    }
    false
}

fn missing_from(names: &Vec<String>, i: usize, installed: &Vec<CrateVersion>) -> (r: Vec<String>)
    requires
        i <= names@.len(),
    ensures
        r.deep_view() == spec_missing(names.deep_view().skip(i as int), records_view(installed@)),
    decreases names@.len() - i,
{
    proof {
        if i < names@.len() {
            assert(names.deep_view().skip(i as int).drop_first() =~= names.deep_view().skip(i + 1));
            assert(names.deep_view().skip(i as int).first() == names@[i as int]@);
        }
    }
    if i == names.len() {
        let r: Vec<String> = Vec::new();
        proof {
            assert(r.deep_view() =~= Seq::<Seq<char>>::empty());
        }
        r
    } else {
        let rest = missing_from(names, i + 1, installed);
        if record_named(installed, names[i].as_str()) {
            rest
        } else {
            let ghost rest_snap = rest.deep_view();
            let mut out = rest;
            out.insert(0, names[i].clone());
            proof {
                let target = seq![names@[i as int]@] + rest_snap;
                assert forall|k: int| 0 <= k < out@.len() implies #[trigger] out.deep_view()[k]
                    == target[k] by {
                    if k > 0 {
                        assert(out@[k] == out@.drop_first()[k - 1]);
                    }
                }
                assert(out.deep_view() =~= target);
            }
            out
        }
    }
}

/// The requested names that the inventory does not hold, reported at the
/// end of a run that named packages explicitly.
pub fn missing_packages(names: &Vec<String>, installed: &Vec<CrateVersion>) -> (r: Vec<String>)
    ensures
        r.deep_view() == spec_missing(names.deep_view(), records_view(installed@)),
{
    proof {
        assert(names.deep_view().skip(0) =~= names.deep_view());
    }
    missing_from(names, 0, installed)
}

} // verus!

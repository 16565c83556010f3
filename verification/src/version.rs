//! Semantic versions: the model type, parsing through the `semver` crate,
//! and verified precedence ordering.

use vstd::prelude::*;

verus! {

use crate::text::{
    str_to_chars, chars_to_string, chars_eq, split_chars, split_seq, dec_digits, u64_to_chars,
};

/// The mathematical value of a version: numeric components, the pre-release
/// identifiers (empty when the version is a release), and the raw build
/// metadata text.
pub ghost struct VersionView {
    pub major: int,
    pub minor: int,
    pub patch: int,
    pub pre: Seq<Seq<char>>,
    pub build: Seq<char>,
}

/// A semantic version. `pre` holds the dot-separated pre-release
/// identifiers; `build` holds the raw build metadata (never consulted by
/// the ordering).
pub struct Version {
    pub major: u64,
    pub minor: u64,
    pub patch: u64,
    pub pre: Vec<String>,
    pub build: String,
}

impl View for Version {
    type V = VersionView;

    open spec fn view(&self) -> VersionView {
        VersionView {
            major: self.major as int,
            minor: self.minor as int,
            patch: self.patch as int,
            pre: self.pre.deep_view(),
            build: self.build@,
        }
    }
}

impl Clone for Version {
    fn clone(&self) -> (res: Self)
        ensures
            res@ == self@,
    {
        let res = Version {
            major: self.major,
            minor: self.minor,
            patch: self.patch,
            pre: self.pre.clone(),
            build: self.build.clone(),
        };
        proof {
            assert forall|i: int| 0 <= i < self.pre@.len() implies res.pre@[i]@ == self.pre@[i]@
                by {
                assert(vstd::pervasive::cloned::<String>(self.pre[i], res.pre[i]));
            }
            assert(res.pre.deep_view() =~= self.pre.deep_view());
        }
        res
    }
}

/// What `semver::Version::parse` yields on a given text, or nothing where
/// it errors: major, minor and patch numbers, the raw pre-release text and
/// the raw build metadata text.
pub uninterp spec fn semver_parse(s: Seq<char>) -> Option<(u64, u64, u64, Seq<char>, Seq<char>)>;

/// Relies on `semver::Version::parse`: accepts exactly the SemVer grammar,
/// deterministically in the input text, and carries the numeric components
/// and the raw pre-release and build strings of the version.
#[verifier::external_body]
fn parse_semver_raw(s: &str) -> (r: Option<(u64, u64, u64, String, String)>)
    ensures
        match r {
            Some(t) => semver_parse(s@) == Some((t.0, t.1, t.2, t.3@, t.4@)),
            None => semver_parse(s@) is None,
        },
{
    match semver::Version::parse(s) {
        Ok(v) => Some((v.major, v.minor, v.patch, v.pre.as_str().to_owned(), v.build.as_str().to_owned())),
        Err(_) => None,
    }
}

/// The version denoted by a text, per the SemVer grammar: the pre-release
/// text is split on dots into identifiers, an absent pre-release giving
/// no identifiers at all.
pub open spec fn spec_version_of(s: Seq<char>) -> Option<VersionView> {
    match semver_parse(s) {
        None => None,
        Some(t) => Some(
            VersionView {
                major: t.0 as int,
                minor: t.1 as int,
                patch: t.2 as int,
                pre: if t.3.len() == 0 {
                    Seq::empty()
                } else {
                    split_seq(t.3, '.')
                },
                build: t.4,
            },
        ),
    }
}

/// A numeric identifier: digits only. (SemVer identifiers are never empty
/// and numeric ones carry no leading zero.)
pub open spec fn is_num_ident(s: Seq<char>) -> bool {
    forall|i: int| 0 <= i < s.len() ==> '0' <= #[trigger] s[i] <= '9'
}

/// Lexicographic order on character sequences, by character code, a proper
/// prefix ordering before anything it starts.
pub open spec fn lex_lt(a: Seq<char>, b: Seq<char>) -> bool
    decreases a.len(),
{
    if b.len() == 0 {
        false
    } else if a.len() == 0 {
        true
    } else if a.first() != b.first() {
        (a.first() as u32) < (b.first() as u32)
    } else {
        lex_lt(a.drop_first(), b.drop_first())
    }
}

/// SemVer order on two pre-release identifiers: numeric identifiers order
/// numerically (shorter digit strings first, then lexicographic, which is
/// the numeric order absent leading zeros), numeric before alphanumeric,
/// alphanumeric ones in ASCII order.
pub open spec fn ident_lt(a: Seq<char>, b: Seq<char>) -> bool {
    if is_num_ident(a) && is_num_ident(b) {
        a.len() < b.len() || (a.len() == b.len() && lex_lt(a, b))
    } else if is_num_ident(a) {
        true
    } else if is_num_ident(b) {
        false
    } else {
        lex_lt(a, b)
    }
}

/// SemVer order on two non-empty pre-release identifier lists: identifier
/// by identifier, a shorter list before any list it is a prefix of.
pub open spec fn idents_lt(a: Seq<Seq<char>>, b: Seq<Seq<char>>) -> bool
    decreases a.len(),
{
    if a.len() == 0 {
        b.len() > 0
    } else if b.len() == 0 {
        false
    } else if a.first() == b.first() {
        idents_lt(a.drop_first(), b.drop_first())
    } else {
        ident_lt(a.first(), b.first())
    }
}

/// SemVer precedence: numeric components first; a pre-release sorts before
/// the release it precedes; two pre-releases compare identifier-wise.
/// Build metadata never counts.
pub open spec fn version_lt(a: VersionView, b: VersionView) -> bool {
    if a.major != b.major {
        a.major < b.major
    } else if a.minor != b.minor {
        a.minor < b.minor
    } else if a.patch != b.patch {
        a.patch < b.patch
    } else if a.pre.len() > 0 && b.pre.len() == 0 {
        true
    } else if a.pre.len() == 0 {
        false
    } else {
        idents_lt(a.pre, b.pre)
    }
}

fn is_num_ident_exec(a: &Vec<char>) -> (r: bool)
    ensures
        r == is_num_ident(a@),
{
    let mut i: usize = 0;
    while i < a.len()
        invariant
            i <= a.len(),
            forall|j: int| 0 <= j < i ==> '0' <= #[trigger] a@[j] <= '9',
        decreases a.len() - i,
    {
        let c = a[i];
        if c < '0' || c > '9' {
            return false;
        }
        i = i + 1;
    }
    true
}

fn lex_lt_from(a: &Vec<char>, b: &Vec<char>, i: usize) -> (r: bool)
    requires
        i <= a.len(),
        i <= b.len(),
    ensures
        r == lex_lt(a@.skip(i as int), b@.skip(i as int)),
    decreases a.len() - i,
{
    proof {
        if i < a.len() {
            assert(a@.skip(i as int).drop_first() =~= a@.skip(i + 1));
        }
        if i < b.len() {
            assert(b@.skip(i as int).drop_first() =~= b@.skip(i + 1));
        }
    }
    if i == b.len() {
        false
    } else if i == a.len() {
        true
    } else if a[i] != b[i] {
        (a[i] as u32) < (b[i] as u32)
    } else {
        lex_lt_from(a, b, i + 1)
    }
}

fn ident_lt_exec(a: &Vec<char>, b: &Vec<char>) -> (r: bool)
    ensures
        r == ident_lt(a@, b@),
{
    proof {
        assert(a@.skip(0) =~= a@);
        assert(b@.skip(0) =~= b@);
    }
    let a_num = is_num_ident_exec(a);
    let b_num = is_num_ident_exec(b);
    if a_num && b_num {
        a.len() < b.len() || (a.len() == b.len() && lex_lt_from(a, b, 0))
    } else if a_num {
        true
    } else if b_num {
        false
    } else {
        lex_lt_from(a, b, 0)
    }
}

fn idents_lt_from(a: &Vec<Vec<char>>, b: &Vec<Vec<char>>, i: usize) -> (r: bool)
    requires
        i <= a.len(),
        i <= b.len(),
    ensures
        r == idents_lt(a.deep_view().skip(i as int), b.deep_view().skip(i as int)),
    decreases a.len() - i,
{
    proof {
        assert(a.deep_view().len() == a@.len());
        assert(b.deep_view().len() == b@.len());
        if i < a.len() {
            assert(a.deep_view().skip(i as int).drop_first() =~= a.deep_view().skip(i + 1));
            assert(a.deep_view().skip(i as int).first() == a@[i as int]@);
        }
        if i < b.len() {
            assert(b.deep_view().skip(i as int).drop_first() =~= b.deep_view().skip(i + 1));
            assert(b.deep_view().skip(i as int).first() == b@[i as int]@);
        }
    }
    if i == a.len() {
        i < b.len()
    } else if i == b.len() {
        false
    } else if chars_eq(&a[i], &b[i]) {
        idents_lt_from(a, b, i + 1)
    } else {
        ident_lt_exec(&a[i], &b[i])
    }
}

proof fn lemma_lex_lt_asym(a: Seq<char>, b: Seq<char>)
    ensures
        lex_lt(a, b) ==> !lex_lt(b, a),
    decreases a.len(),
{
    if a.len() > 0 && b.len() > 0 && a.first() == b.first() {
        lemma_lex_lt_asym(a.drop_first(), b.drop_first());
    }
}

proof fn lemma_ident_lt_asym(a: Seq<char>, b: Seq<char>)
    ensures
        ident_lt(a, b) ==> !ident_lt(b, a),
{
    lemma_lex_lt_asym(a, b);
}

proof fn lemma_idents_lt_irrefl(a: Seq<Seq<char>>)
    ensures
        !idents_lt(a, a),
    decreases a.len(),
{
    if a.len() > 0 {
        lemma_idents_lt_irrefl(a.drop_first());
    }
}

proof fn lemma_idents_lt_asym(a: Seq<Seq<char>>, b: Seq<Seq<char>>)
    ensures
        idents_lt(a, b) ==> !idents_lt(b, a),
    decreases a.len(),
{
    if a.len() > 0 && b.len() > 0 {
        if a.first() == b.first() {
            lemma_idents_lt_asym(a.drop_first(), b.drop_first());
        } else {
            lemma_ident_lt_asym(a.first(), b.first());
        }
    }
}

/// Precedence is a strict order: no version precedes itself, and where one
/// version precedes another the reverse never holds. So a remote version
/// equal to, or older than, the installed one never counts as an update.
pub proof fn lemma_version_lt_strict(a: VersionView, b: VersionView)
    ensures
        !version_lt(a, a),
        version_lt(a, b) ==> !version_lt(b, a),
{
    lemma_idents_lt_irrefl(a.pre);
    lemma_idents_lt_asym(a.pre, b.pre);
}

fn strings_to_charvecs(v: &Vec<String>) -> (r: Vec<Vec<char>>)
    ensures
        r.deep_view() == v.deep_view(),
{
    let mut r: Vec<Vec<char>> = Vec::new();
    let mut i: usize = 0;
    while i < v.len()
        invariant
            i <= v.len(),
            r@.len() == i,
            forall|j: int| 0 <= j < i ==> #[trigger] r@[j]@ == v@[j]@,
        decreases v.len() - i,
    {
        r.push(str_to_chars(v[i].as_str()));
        i = i + 1;
    }
    proof {
        assert(r.deep_view() =~~= v.deep_view());
    }
    r
}

impl Version {
    /// True when `self` strictly precedes `other` in SemVer precedence.
    pub fn lt(&self, other: &Version) -> (r: bool)
        ensures
            r == version_lt(self@, other@),
    {
        if self.major != other.major {
            self.major < other.major
        } else if self.minor != other.minor {
            self.minor < other.minor
        } else if self.patch != other.patch {
            self.patch < other.patch
        } else if self.pre.len() > 0 && other.pre.len() == 0 {
            true
        } else if self.pre.len() == 0 {
            false
        } else {
            let a = strings_to_charvecs(&self.pre);
            let b = strings_to_charvecs(&other.pre);
            proof {
                assert(a.deep_view().skip(0) =~= self@.pre);
                assert(b.deep_view().skip(0) =~= other@.pre);
            }
            idents_lt_from(&a, &b, 0)
        }
    }
}

/// The canonical text of a version: `major.minor.patch`, `-` and the
/// dot-joined pre-release identifiers when there are any, `+` and the
/// build metadata when there is any.
pub open spec fn spec_render(v: VersionView) -> Seq<char> {
    dec_digits(v.major as nat) + seq!['.'] + dec_digits(v.minor as nat) + seq!['.'] + dec_digits(
        v.patch as nat,
    ) + (if v.pre.len() > 0 {
        seq!['-'] + crate::text::join_seq(v.pre, '.')
    } else {
        Seq::<char>::empty()
    }) + (if v.build.len() > 0 {
        seq!['+'] + v.build
    } else {
        Seq::<char>::empty()
    })
}

impl Version {
    /// Writes the version out in its canonical text form.
    pub fn render(&self) -> (r: String)
        ensures
            r@ == spec_render(self@),
    {
        let mut cs = u64_to_chars(self.major);
        cs.push('.');
        let mut part = u64_to_chars(self.minor);
        cs.append(&mut part);
        cs.push('.');
        let mut part = u64_to_chars(self.patch);
        cs.append(&mut part);
        if self.pre.len() > 0 {
            cs.push('-');
            let joined = crate::text::join_strings(&self.pre, '.');
            let mut part = str_to_chars(joined.as_str());
            cs.append(&mut part);
        }
        let mut build_chars = str_to_chars(self.build.as_str());
        if build_chars.len() > 0 {
            cs.push('+');
            cs.append(&mut build_chars);
        }
        proof {
            assert(cs@ =~= spec_render(self@));
        }
        chars_to_string(&cs)
    }
}

impl Version {
    /// Parses a version text; yields nothing exactly where the SemVer
    /// grammar rejects it.
    pub fn parse(s: &str) -> (r: Option<Version>)
        ensures
            match r {
                Some(v) => spec_version_of(s@) == Some(v@),
                None => spec_version_of(s@) is None,
            },
    {
        match parse_semver_raw(s) {
            None => None,
            Some(t) => {
                let (major, minor, patch, pre, build) = t;
                let pre_ids: Vec<String> = if pre.as_str().unicode_len() == 0 {
                    Vec::new()
                } else {
                    let pre_chars = str_to_chars(pre.as_str());
                    split_chars(&pre_chars, '.')
                };
                let v = Version { major, minor, patch, pre: pre_ids, build };
                proof {
                    let expected = spec_version_of(s@)->Some_0;
                    if v.pre@.len() == 0 {
                        assert(v.pre.deep_view() =~= Seq::<Seq<char>>::empty());
                    }
                    assert(v@.pre =~= expected.pre);
                }
                Some(v)
            },
        }
    }
}

} // verus!

//! The structured-document reader behind the inventory and manifest
//! parsers. The grammar is given by the spec functions below: a document
//! is an object, array, string (with the usual single-character escapes),
//! number, boolean or null, with whitespace between tokens. Numbers are
//! kept as their raw text; nothing in the library reads their value.

use vstd::prelude::*;

verus! {

/// A parsed document value.
pub enum Json {
    Null,
    Bool(bool),
    /// A number, as the raw text it was written as.
    Num(String),
    Str(String),
    Arr(Vec<Json>),
    Obj(Vec<(String, Json)>),
}

/// The mathematical value of a parsed document.
pub ghost enum JsonView {
    Null,
    Bool(bool),
    Num(Seq<char>),
    Str(Seq<char>),
    Arr(Seq<JsonView>),
    Obj(Seq<(Seq<char>, JsonView)>),
}

/// The mathematical value of a list of document values.
pub open spec fn jsons_view(items: Seq<Json>) -> Seq<JsonView>
    decreases items,
{
    if items.len() == 0 {
        Seq::<JsonView>::empty()
    } else {
        seq![json_view(items.first())] + jsons_view(items.drop_first())
    }
}

/// The mathematical value of a list of object members.
pub open spec fn members_view(ms: Seq<(String, Json)>) -> Seq<(Seq<char>, JsonView)>
    decreases ms,
{
    if ms.len() == 0 {
        Seq::<(Seq<char>, JsonView)>::empty()
    } else {
        seq![(ms.first().0@, json_view(ms.first().1))] + members_view(ms.drop_first())
    }
}

/// The mathematical value of one document value.
pub open spec fn json_view(j: Json) -> JsonView
    decreases j,
{
    match j {
        Json::Null => JsonView::Null,
        Json::Bool(b) => JsonView::Bool(b),
        Json::Num(s) => JsonView::Num(s@),
        Json::Str(s) => JsonView::Str(s@),
        Json::Arr(items) => JsonView::Arr(jsons_view(items@)),
        Json::Obj(ms) => JsonView::Obj(members_view(ms@)),
    }
}

/// The whitespace accepted between tokens.
pub open spec fn is_ws(c: char) -> bool {
    c == ' ' || c == '\t' || c == '\n' || c == '\r'
}

/// The first position at or after `i` that holds no whitespace.
pub open spec fn skip_ws(s: Seq<char>, i: int) -> int
    decreases s.len() - i,
{
    if 0 <= i < s.len() && is_ws(s[i]) {
        skip_ws(s, i + 1)
    } else {
        i
    }
}

pub proof fn lemma_skip_ws(s: Seq<char>, i: int)
    requires
        0 <= i <= s.len(),
    ensures
        i <= skip_ws(s, i) <= s.len(),
        skip_ws(s, i) < s.len() ==> !is_ws(s[skip_ws(s, i)]),
    decreases s.len() - i,
{
    if i < s.len() && is_ws(s[i]) {
        lemma_skip_ws(s, i + 1);
    }
}

/// What a backslash escape stands for; the `u` form is not taken.
pub open spec fn escape_char(c: char) -> Option<char> {
    if c == '"' {
        Some('"')
    } else if c == '\\' {
        Some('\\')
    } else if c == '/' {
        Some('/')
    } else if c == 'b' {
        Some('\u{0008}')
    } else if c == 'f' {
        Some('\u{000c}')
    } else if c == 'n' {
        Some('\n')
    } else if c == 'r' {
        Some('\r')
    } else if c == 't' {
        Some('\t')
    } else {
        None
    }
}

/// The rest of a quoted string from position `i` (the opening quote
/// already behind): the decoded text and the position after the closing
/// quote.
pub open spec fn spec_string_rest(s: Seq<char>, i: int) -> Option<(Seq<char>, int)>
    decreases s.len() - i,
{
    if !(0 <= i < s.len()) {
        None
    } else if s[i] == '"' {
        Some((Seq::empty(), i + 1))
    } else if s[i] == '\\' {
        if i + 1 < s.len() {
            match escape_char(s[i + 1]) {
                None => None,
                Some(c) => match spec_string_rest(s, i + 2) {
                    None => None,
                    Some((t, j)) => Some((seq![c] + t, j)),
                },
            }
        } else {
            None
        }
    } else {
        match spec_string_rest(s, i + 1) {
            None => None,
            Some((t, j)) => Some((seq![s[i]] + t, j)),
        }
    }
}

pub proof fn lemma_string_rest_bounds(s: Seq<char>, i: int)
    requires
        0 <= i,
    ensures
        spec_string_rest(s, i) matches Some(r) ==> i < r.1 <= s.len(),
    decreases s.len() - i,
{
    if 0 <= i < s.len() {
        lemma_string_rest_bounds(s, i + 1);
        if i + 1 < s.len() {
            lemma_string_rest_bounds(s, i + 2);
        }
    }
}

pub proof fn lemma_skip_ws_all(s: Seq<char>)
    ensures
        forall|x: int| 0 <= x <= s.len() ==> x <= #[trigger] skip_ws(s, x) <= s.len(),
{
    assert forall|x: int| 0 <= x <= s.len() implies x <= #[trigger] skip_ws(s, x) <= s.len() by {
        lemma_skip_ws(s, x);
    }
}

pub proof fn lemma_string_rest_bounds_all(s: Seq<char>)
    ensures
        forall|x: int|
            0 <= x ==> (#[trigger] spec_string_rest(s, x) matches Some(r) ==> x < r.1 <= s.len()),
{
    assert forall|x: int|
        0 <= x implies (#[trigger] spec_string_rest(s, x) matches Some(r) ==> x < r.1
        <= s.len()) by {
        lemma_string_rest_bounds(s, x);
    }
}

/// The characters a number token is made of.
pub open spec fn is_num_char(c: char) -> bool {
    ('0' <= c <= '9') || c == '-' || c == '+' || c == '.' || c == 'e' || c == 'E'
}

/// The position after the number token starting at `i`.
pub open spec fn num_end(s: Seq<char>, i: int) -> int
    decreases s.len() - i,
{
    if 0 <= i < s.len() && is_num_char(s[i]) {
        num_end(s, i + 1)
    } else {
        i
    }
}

pub proof fn lemma_num_end(s: Seq<char>, i: int)
    requires
        0 <= i <= s.len(),
    ensures
        i <= num_end(s, i) <= s.len(),
    decreases s.len() - i,
{
    if i < s.len() && is_num_char(s[i]) {
        lemma_num_end(s, i + 1);
    }
}

/// The value starting exactly at position `i`, and the position after it.
pub open spec fn spec_value(s: Seq<char>, i: int) -> Option<(JsonView, int)>
    decreases s.len() - i, 0int,
    via spec_value_dec
{
    if !(0 <= i < s.len()) {
        None
    } else if s[i] == 'n' {
        if i + 4 <= s.len() && s[i + 1] == 'u' && s[i + 2] == 'l' && s[i + 3] == 'l' {
            Some((JsonView::Null, i + 4))
        } else {
            None
        }
    } else if s[i] == 't' {
        if i + 4 <= s.len() && s[i + 1] == 'r' && s[i + 2] == 'u' && s[i + 3] == 'e' {
            Some((JsonView::Bool(true), i + 4))
        } else {
            None
        }
    } else if s[i] == 'f' {
        if i + 5 <= s.len() && s[i + 1] == 'a' && s[i + 2] == 'l' && s[i + 3] == 's' && s[i + 4]
            == 'e' {
            Some((JsonView::Bool(false), i + 5))
        } else {
            None
        }
    } else if s[i] == '"' {
        match spec_string_rest(s, i + 1) {
            None => None,
            Some((t, j)) => Some((JsonView::Str(t), j)),
        }
    } else if s[i] == '[' {
        let k = skip_ws(s, i + 1);
        if k < s.len() && s[k] == ']' {
            Some((JsonView::Arr(Seq::empty()), k + 1))
        } else {
            match spec_elements(s, k) {
                None => None,
                Some((items, j)) => Some((JsonView::Arr(items), j)),
            }
        }
    } else if s[i] == '{' {
        let k = skip_ws(s, i + 1);
        if k < s.len() && s[k] == '}' {
            Some((JsonView::Obj(Seq::empty()), k + 1))
        } else {
            match spec_members(s, k) {
                None => None,
                Some((ms, j)) => Some((JsonView::Obj(ms), j)),
            }
        }
    } else if is_num_char(s[i]) {
        Some((JsonView::Num(s.subrange(i, num_end(s, i))), num_end(s, i)))
    } else {
        None
    }
}

/// One or more comma-separated values from position `i` (whitespace
/// already behind), up to and including the closing bracket.
pub open spec fn spec_elements(s: Seq<char>, i: int) -> Option<(Seq<JsonView>, int)>
    decreases s.len() - i, 1int,
    via spec_elements_dec
{
    if !(0 <= i < s.len()) {
        None
    } else {
        match spec_value(s, i) {
            None => None,
            Some((v, j)) => {
                if !(i < j <= s.len()) {
                    None
                } else {
                    let q = skip_ws(s, j);
                    if q < s.len() && s[q] == ',' {
                        let n = skip_ws(s, q + 1);
                        match spec_elements(s, n) {
                            None => None,
                            Some((rest, e)) => Some((seq![v] + rest, e)),
                        }
                    } else if q < s.len() && s[q] == ']' {
                        Some((seq![v], q + 1))
                    } else {
                        None
                    }
                }
            },
        }
    }
}

/// One or more `"key": value` members from position `i` (whitespace
/// already behind), up to and including the closing brace.
pub open spec fn spec_members(s: Seq<char>, i: int) -> Option<(Seq<(Seq<char>, JsonView)>, int)>
    decreases s.len() - i, 1int,
    via spec_members_dec
{
    if !(0 <= i < s.len() && s[i] == '"') {
        None
    } else {
        match spec_string_rest(s, i + 1) {
            None => None,
            Some((key, j)) => {
                let k = skip_ws(s, j);
                if !(k < s.len() && s[k] == ':') {
                    None
                } else {
                    let m = skip_ws(s, k + 1);
                    match spec_value(s, m) {
                        None => None,
                        Some((v, n)) => {
                            if !(m < n <= s.len()) {
                                None
                            } else {
                                let q = skip_ws(s, n);
                                if q < s.len() && s[q] == ',' {
                                    let r2 = skip_ws(s, q + 1);
                                    match spec_members(s, r2) {
                                        None => None,
                                        Some((rest, e)) => Some((seq![(key, v)] + rest, e)),
                                    }
                                } else if q < s.len() && s[q] == '}' {
                                    Some((seq![(key, v)], q + 1))
                                } else {
                                    None
                                }
                            }
                        },
                    }
                }
            },
        }
    }
}

#[via_fn]
proof fn spec_value_dec(s: Seq<char>, i: int) {
    lemma_skip_ws_all(s);
}

#[via_fn]
proof fn spec_elements_dec(s: Seq<char>, i: int) {
    lemma_skip_ws_all(s);
}

#[via_fn]
proof fn spec_members_dec(s: Seq<char>, i: int) {
    lemma_skip_ws_all(s);
    lemma_string_rest_bounds_all(s);
}

pub proof fn lemma_value_bounds(s: Seq<char>, i: int)
    ensures
        spec_value(s, i) matches Some(r) ==> i < r.1 <= s.len(),
    decreases s.len() - i, 0int,
{
    if 0 <= i < s.len() {
        if s[i] == '"' {
            lemma_string_rest_bounds(s, i + 1);
        } else if s[i] == '[' || s[i] == '{' {
            lemma_skip_ws(s, i + 1);
            let k = skip_ws(s, i + 1);
            lemma_elements_bounds(s, k);
            lemma_members_bounds(s, k);
        } else if is_num_char(s[i]) {
            lemma_num_end(s, i + 1);
        }
    }
}

pub proof fn lemma_elements_bounds(s: Seq<char>, i: int)
    ensures
        spec_elements(s, i) matches Some(r) ==> i < r.1 <= s.len(),
    decreases s.len() - i, 1int,
{
    if 0 <= i < s.len() {
        lemma_value_bounds(s, i);
        match spec_value(s, i) {
            None => {},
            Some((v, j)) => {
                if i < j <= s.len() {
                    lemma_skip_ws(s, j);
                    let q = skip_ws(s, j);
                    if q < s.len() && s[q] == ',' {
                        lemma_skip_ws(s, q + 1);
                        let n = skip_ws(s, q + 1);
                        lemma_elements_bounds(s, n);
                    }
                }
            },
        }
    }
}

pub proof fn lemma_members_bounds(s: Seq<char>, i: int)
    ensures
        spec_members(s, i) matches Some(r) ==> i < r.1 <= s.len(),
    decreases s.len() - i, 1int,
{
    if 0 <= i < s.len() && s[i] == '"' {
        lemma_string_rest_bounds(s, i + 1);
        match spec_string_rest(s, i + 1) {
            None => {},
            Some((key, j)) => {
                lemma_skip_ws(s, j);
                let k = skip_ws(s, j);
                if k < s.len() && s[k] == ':' {
                    lemma_skip_ws(s, k + 1);
                    let m = skip_ws(s, k + 1);
                    lemma_value_bounds(s, m);
                    match spec_value(s, m) {
                        None => {},
                        Some((v, n)) => {
                            if m < n <= s.len() {
                                lemma_skip_ws(s, n);
                                let q = skip_ws(s, n);
                                if q < s.len() && s[q] == ',' {
                                    lemma_skip_ws(s, q + 1);
                                    let r2 = skip_ws(s, q + 1);
                                    lemma_members_bounds(s, r2);
                                }
                            }
                        },
                    }
                }
            },
        }
    }
}

/// The value a whole text denotes: one value, nothing but whitespace
/// around it.
pub open spec fn spec_document(s: Seq<char>) -> Option<JsonView> {
    let i = skip_ws(s, 0);
    match spec_value(s, i) {
        None => None,
        Some((v, j)) => {
            if skip_ws(s, j) == s.len() {
                Some(v)
            } else {
                None
            }
        },
    }
}

fn is_ws_exec(c: char) -> (r: bool)
    ensures
        r == is_ws(c),
{
    c == ' ' || c == '\t' || c == '\n' || c == '\r'
}

fn is_num_char_exec(c: char) -> (r: bool)
    ensures
        r == is_num_char(c),
{
    ('0' <= c && c <= '9') || c == '-' || c == '+' || c == '.' || c == 'e' || c == 'E'
}

fn escape_exec(c: char) -> (r: Option<char>)
    ensures
        r == escape_char(c),
{
    if c == '"' {
        Some('"')
    } else if c == '\\' {
        Some('\\')
    } else if c == '/' {
        Some('/')
    } else if c == 'b' {
        Some('\u{0008}')
    } else if c == 'f' {
        Some('\u{000c}')
    } else if c == 'n' {
        Some('\n')
    } else if c == 'r' {
        Some('\r')
    } else if c == 't' {
        Some('\t')
    } else {
        None
    }
}

pub(crate) fn skip_ws_exec(s: &Vec<char>, i: usize) -> (r: usize)
    requires
        i <= s@.len(),
    ensures
        r as int == skip_ws(s@, i as int),
        i <= r <= s@.len(),
{
    let mut cur = i;
    while cur < s.len() && is_ws_exec(s[cur])
        invariant
            i <= cur <= s@.len(),
            skip_ws(s@, i as int) == skip_ws(s@, cur as int),
        decreases s@.len() - cur,
    {
        cur = cur + 1;
    }
    cur
}

fn num_end_exec(s: &Vec<char>, i: usize) -> (r: usize)
    requires
        i <= s@.len(),
    ensures
        r as int == num_end(s@, i as int),
        i <= r <= s@.len(),
{
    let mut cur = i;
    while cur < s.len() && is_num_char_exec(s[cur])
        invariant
            i <= cur <= s@.len(),
            num_end(s@, i as int) == num_end(s@, cur as int),
        decreases s@.len() - cur,
    {
        cur = cur + 1;
    }
    cur
}

fn string_rest_exec(s: &Vec<char>, i: usize) -> (r: Option<(Vec<char>, usize)>)
    requires
        i <= s@.len(),
    ensures
        match r {
            Some(p) => {
                &&& spec_string_rest(s@, i as int) == Some((p.0@, p.1 as int))
                &&& i < p.1 <= s@.len()
            },
            None => spec_string_rest(s@, i as int) is None,
        },
{
    let mut acc: Vec<char> = Vec::new();
    let mut cur = i;
    loop
        invariant
            i <= cur <= s@.len(),
            match spec_string_rest(s@, cur as int) {
                None => spec_string_rest(s@, i as int) is None,
                Some((t, j)) => spec_string_rest(s@, i as int) == Some((acc@ + t, j)),
            },
        decreases s@.len() - cur,
    {
        if cur == s.len() {
            return None;
        }
        let c = s[cur];
        if c == '"' {
            proof {
                assert(acc@ + Seq::<char>::empty() =~= acc@);
            }
            return Some((acc, cur + 1));
        } else if c == '\\' {
            if cur + 1 < s.len() {
                match escape_exec(s[cur + 1]) {
                    Some(e) => {
                        proof {
                            match spec_string_rest(s@, cur + 2) {
                                None => {},
                                Some((t, j)) => {
                                    assert(acc@ + (seq![e] + t) =~= (acc@ + seq![e]) + t);
                                    assert(acc@.push(e) =~= acc@ + seq![e]);
                                },
                            }
                        }
                        acc.push(e);
                        cur = cur + 2;
                    },
                    None => {
                        return None;
                    },
                }
            } else {
                return None;
            }
        } else {
            proof {
                match spec_string_rest(s@, cur + 1) {
                    None => {},
                    Some((t, j)) => {
                        assert(acc@ + (seq![c] + t) =~= (acc@ + seq![c]) + t);
                        assert(acc@.push(c) =~= acc@ + seq![c]);
                    },
                }
            }
            acc.push(c);
            cur = cur + 1;
        }
    }
}

pub(crate) fn value_exec(s: &Vec<char>, i: usize) -> (r: Option<(Json, usize)>)
    requires
        i <= s@.len(),
    ensures
        match r {
            Some(p) => {
                &&& spec_value(s@, i as int) == Some((json_view(p.0), p.1 as int))
                &&& i < p.1 <= s@.len()
            },
            None => spec_value(s@, i as int) is None,
        },
    decreases s@.len() - i, 0int,
{
    proof {
        lemma_value_bounds(s@, i as int);
    }
    if i == s.len() {
        return None;
    }
    let c = s[i];
    if c == 'n' {
        if s.len() - i >= 4 && s[i + 1] == 'u' && s[i + 2] == 'l' && s[i + 3] == 'l' {
            Some((Json::Null, i + 4))
        } else {
            None
        }
    } else if c == 't' {
        if s.len() - i >= 4 && s[i + 1] == 'r' && s[i + 2] == 'u' && s[i + 3] == 'e' {
            Some((Json::Bool(true), i + 4))
        } else {
            None
        }
    } else if c == 'f' {
        if s.len() - i >= 5 && s[i + 1] == 'a' && s[i + 2] == 'l' && s[i + 3] == 's' && s[i + 4]
            == 'e' {
            Some((Json::Bool(false), i + 5))
        } else {
            None
        }
    } else if c == '"' {
        match string_rest_exec(s, i + 1) {
            None => None,
            Some((t, j)) => Some((Json::Str(crate::text::chars_to_string(&t)), j)),
        }
    } else if c == '[' {
        let k = skip_ws_exec(s, i + 1);
        if k < s.len() && s[k] == ']' {
            let items: Vec<Json> = Vec::new();
            proof {
                assert(jsons_view(items@) =~= Seq::<JsonView>::empty());
            }
            Some((Json::Arr(items), k + 1))
        } else {
            match elements_exec(s, k) {
                None => None,
                Some((items, j)) => Some((Json::Arr(items), j)),
            }
        }
    } else if c == '{' {
        let k = skip_ws_exec(s, i + 1);
        if k < s.len() && s[k] == '}' {
            let ms: Vec<(String, Json)> = Vec::new();
            proof {
                assert(members_view(ms@) =~= Seq::<(Seq<char>, JsonView)>::empty());
            }
            Some((Json::Obj(ms), k + 1))
        } else {
            match members_exec(s, k) {
                None => None,
                Some((ms, j)) => Some((Json::Obj(ms), j)),
            }
        }
    } else if is_num_char_exec(c) {
        let e = num_end_exec(s, i);
        let t = crate::text::copy_range(s, i, e);
        Some((Json::Num(crate::text::chars_to_string(&t)), e))
    } else {
        None
    }
}

fn elements_exec(s: &Vec<char>, i: usize) -> (r: Option<(Vec<Json>, usize)>)
    requires
        i <= s@.len(),
    ensures
        match r {
            Some(p) => {
                &&& spec_elements(s@, i as int) == Some((jsons_view(p.0@), p.1 as int))
                &&& i < p.1 <= s@.len()
            },
            None => spec_elements(s@, i as int) is None,
        },
    decreases s@.len() - i, 1int,
{
    if i == s.len() {
        return None;
    }
    match value_exec(s, i) {
        None => None,
        Some((v, j)) => {
            let q = skip_ws_exec(s, j);
            if q < s.len() && s[q] == ',' {
                let n = skip_ws_exec(s, q + 1);
                match elements_exec(s, n) {
                    None => None,
                    Some((rest, e)) => {
                        let ghost old_rest = rest@;
                        let mut rest = rest;
                        rest.insert(0, v);
                        proof {
                            assert(rest@.drop_first() =~= old_rest);
                            assert(jsons_view(rest@) =~= seq![json_view(v)] + jsons_view(
                                old_rest,
                            ));
                        }
                        Some((rest, e))
                    },
                }
            } else if q < s.len() && s[q] == ']' {
                let mut items: Vec<Json> = Vec::new();
                items.push(v);
                proof {
                    assert(items@.drop_first() =~= Seq::<Json>::empty());
                    assert(jsons_view(Seq::<Json>::empty()) =~= Seq::<JsonView>::empty());
                    assert(jsons_view(items@) =~= seq![json_view(v)]);
                }
                Some((items, q + 1))
            } else {
                None
            }
        },
    }
}

fn members_exec(s: &Vec<char>, i: usize) -> (r: Option<(Vec<(String, Json)>, usize)>)
    requires
        i <= s@.len(),
    ensures
        match r {
            Some(p) => {
                &&& spec_members(s@, i as int) == Some((members_view(p.0@), p.1 as int))
                &&& i < p.1 <= s@.len()
            },
            None => spec_members(s@, i as int) is None,
        },
    decreases s@.len() - i, 1int,
{
    if i == s.len() {
        return None;
    }
    if s[i] != '"' {
        return None;
    }
    match string_rest_exec(s, i + 1) {
        None => None,
        Some((key, j)) => {
            let k = skip_ws_exec(s, j);
            if !(k < s.len() && s[k] == ':') {
                None
            } else {
                let m = skip_ws_exec(s, k + 1);
                match value_exec(s, m) {
                    None => None,
                    Some((v, n)) => {
                        let q = skip_ws_exec(s, n);
                        let key_str = crate::text::chars_to_string(&key);
                        if q < s.len() && s[q] == ',' {
                            let r2 = skip_ws_exec(s, q + 1);
                            match members_exec(s, r2) {
                                None => None,
                                Some((rest, e)) => {
                                    let ghost old_rest = rest@;
                                    let mut rest = rest;
                                    rest.insert(0, (key_str, v));
                                    proof {
                                        assert(rest@.drop_first() =~= old_rest);
                                        assert(members_view(rest@) =~= seq![
                                            (key@, json_view(v)),
                                        ] + members_view(old_rest));
                                    }
                                    Some((rest, e))
                                },
                            }
                        } else if q < s.len() && s[q] == '}' {
                            let mut ms: Vec<(String, Json)> = Vec::new();
                            ms.push((key_str, v));
                            proof {
                                assert(ms@.drop_first() =~= Seq::<(String, Json)>::empty());
                                assert(members_view(Seq::<(String, Json)>::empty())
                                    =~= Seq::<(Seq<char>, JsonView)>::empty());
                                assert(members_view(ms@) =~= seq![(key@, json_view(v))]);
                            }
                            Some((ms, q + 1))
                        } else {
                            None
                        }
                    },
                }
            }
        },
    }
}

/// Parses a whole text as one document value; nothing exactly where the
/// text does not follow the grammar.
pub fn parse_json(text: &str) -> (r: Option<Json>)
    ensures
        match r {
            Some(j) => spec_document(text@) == Some(json_view(j)),
            None => spec_document(text@) is None,
        },
{
    let s = crate::text::str_to_chars(text);
    let i = skip_ws_exec(&s, 0);
    match value_exec(&s, i) {
        None => None,
        Some((v, j)) => {
            let e = skip_ws_exec(&s, j);
            if e == s.len() {
                Some(v)
            } else {
                None
            }
        },
    }
}

/// The value under the first member with the given key, if any.
pub open spec fn spec_obj_get(ms: Seq<(Seq<char>, JsonView)>, key: Seq<char>) -> Option<JsonView>
    decreases ms.len(),
{
    if ms.len() == 0 {
        None
    } else if ms.first().0 == key {
        Some(ms.first().1)
    } else {
        spec_obj_get(ms.drop_first(), key)
    }
}

fn obj_get_from<'a>(ms: &'a Vec<(String, Json)>, key: &Vec<char>, i: usize) -> (r: Option<
    &'a Json,
>)
    requires
        i <= ms@.len(),
    ensures
        match r {
            Some(j) => spec_obj_get(members_view(ms@).skip(i as int), key@) == Some(json_view(*j)),
            None => spec_obj_get(members_view(ms@).skip(i as int), key@) is None,
        },
    decreases ms@.len() - i,
{
    proof {
        lemma_members_view_len(ms@);
        if i < ms@.len() {
            assert(members_view(ms@).skip(i as int).drop_first() =~= members_view(ms@).skip(i + 1));
            lemma_members_view_index(ms@, i as int);
        }
    }
    if i == ms.len() {
        None
    } else {
        let (k, v) = &ms[i];
        if crate::text::str_eq_chars(k.as_str(), key) {
            Some(v)
        } else {
            obj_get_from(ms, key, i + 1)
        }
    }
}

pub proof fn lemma_members_view_len(ms: Seq<(String, Json)>)
    ensures
        members_view(ms).len() == ms.len(),
    decreases ms.len(),
{
    if ms.len() > 0 {
        lemma_members_view_len(ms.drop_first());
    }
}

pub proof fn lemma_members_view_index(ms: Seq<(String, Json)>, i: int)
    requires
        0 <= i < ms.len(),
    ensures
        members_view(ms)[i] == (ms[i].0@, json_view(ms[i].1)),
    decreases ms.len(),
{
    lemma_members_view_len(ms);
    if i > 0 {
        lemma_members_view_index(ms.drop_first(), i - 1);
    } else {
        lemma_members_view_len(ms.drop_first());
    }
}

pub proof fn lemma_jsons_view_len(items: Seq<Json>)
    ensures
        jsons_view(items).len() == items.len(),
    decreases items.len(),
{
    if items.len() > 0 {
        lemma_jsons_view_len(items.drop_first());
    }
}

pub proof fn lemma_jsons_view_index(items: Seq<Json>, i: int)
    requires
        0 <= i < items.len(),
    ensures
        jsons_view(items)[i] == json_view(items[i]),
    decreases items.len(),
{
    lemma_jsons_view_len(items);
    if i > 0 {
        lemma_jsons_view_index(items.drop_first(), i - 1);
    } else {
        lemma_jsons_view_len(items.drop_first());
    }
}

impl Json {
    /// The value under the given key, where `self` is an object holding
    /// that key.
    pub fn get<'a>(&'a self, key: &str) -> (r: Option<&'a Json>)
        ensures
            match r {
                Some(j) => self@ matches JsonView::Obj(ms) && spec_obj_get(ms, key@) == Some(
                    json_view(*j),
                ),
                None => !(self@ matches JsonView::Obj(ms) && spec_obj_get(ms, key@) is Some),
            },
    {
        match self {
            Json::Obj(ms) => {
                let key_chars = crate::text::str_to_chars(key);
                proof {
                    assert(members_view(ms@).skip(0) =~= members_view(ms@));
                }
                obj_get_from(ms, &key_chars, 0)
            },
            _ => None,
        }
    }
}

impl View for Json {
    type V = JsonView;

    open spec fn view(&self) -> JsonView {
        json_view(*self)
    }
}

} // verus!

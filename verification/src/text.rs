//! Character-level text helpers shared by the parsers and formatters.

use vstd::prelude::*;

verus! {

use vstd::std_specs::iter::IteratorSpec;

/// Collects the characters of a string slice into a vector.
pub fn str_to_chars(s: &str) -> (r: Vec<char>)
    ensures
        r@ == s@,
{
    let mut it = s.chars();
    let mut v: Vec<char> = Vec::new();
    loop
        invariant
            it.obeys_prophetic_iter_laws(),
            it.decrease() is Some,
            v@ + it.remaining() == s@,
        ensures
            v@ + it.remaining() == s@,
            it.remaining().len() == 0,
        decreases it.decrease()->0,
    {
        match it.next() {
            Some(c) => {
                v.push(c);
            }
            None => {
                break;
            }
        }
    }
    proof {
        assert(v@ =~= s@);
    }
    v
}

/// Relies on `String::push`: appends one character to the string.
#[verifier::external_body]
fn string_push(s: &mut String, c: char)
    ensures
        final(s)@ == old(s)@ + seq![c],
{
    s.push(c);
}

/// Builds a string out of a sequence of characters.
pub fn chars_to_string(v: &Vec<char>) -> (r: String)
    ensures
        r@ == v@,
{
    let mut s = String::new();
    let mut i: usize = 0;
    while i < v.len()
        invariant
            i <= v.len(),
            s@ == v@.take(i as int),
        decreases v.len() - i,
    {
        string_push(&mut s, v[i]);
        proof {
            assert(v@.take(i as int) + seq![v@[i as int]] =~= v@.take(i + 1));
        }
        i = i + 1;
    }
    proof {
        assert(v@.take(v@.len() as int) =~= v@);
    }
    s
}

/// The pieces of `s` delimited by `sep`: always one more piece than there
/// are separators, so an empty input yields one empty piece.
pub open spec fn split_seq(s: Seq<char>, sep: char) -> Seq<Seq<char>>
    decreases s.len(),
{
    if s.len() == 0 {
        seq![Seq::<char>::empty()]
    } else {
        let rest = split_seq(s.drop_last(), sep);
        if s.last() == sep {
            rest.push(Seq::<char>::empty())
        } else {
            rest.update(rest.len() - 1, rest.last().push(s.last()))
        }
    }
}

pub proof fn lemma_split_seq_len(s: Seq<char>, sep: char)
    ensures
        split_seq(s, sep).len() >= 1,
    decreases s.len(),
{
    if s.len() > 0 {
        lemma_split_seq_len(s.drop_last(), sep);
    }
}

/// Splits a character vector on a separator character.
pub fn split_chars_vec(s: &Vec<char>, sep: char) -> (r: Vec<Vec<char>>)
    ensures
        r.deep_view() == split_seq(s@, sep),
{
    let mut out: Vec<Vec<char>> = Vec::new();
    let mut cur: Vec<char> = Vec::new();
    let mut i: usize = 0;
    while i < s.len()
        invariant
            i <= s.len(),
            out.deep_view().push(cur@) =~= split_seq(s@.take(i as int), sep),
        decreases s.len() - i,
    {
        let ghost prefix = s@.take(i as int);
        proof {
            assert(s@.take(i + 1).drop_last() =~= prefix);
            assert(s@.take(i + 1).last() == s@[i as int]);
            lemma_split_seq_len(prefix, sep);
        }
        let c = s[i];
        if c == sep {
            out.push(cur);
            cur = Vec::new();
            proof {
                assert(out.deep_view().push(cur@) =~~= split_seq(s@.take(i + 1), sep));
            }
        } else {
            cur.push(c);
            proof {
                let prev = split_seq(prefix, sep);
                assert(out.deep_view().push(cur@) =~= prev.update(
                    prev.len() - 1,
                    prev.last().push(c),
                ));
            }
        }
        i = i + 1;
    }
    proof {
        assert(s@.take(s@.len() as int) =~= s@);
    }
    out.push(cur);
    proof {
        assert(out.deep_view() =~~= split_seq(s@, sep));
    }
    out
}

/// Splits a character vector on a separator, yielding the pieces as strings.
pub fn split_chars(s: &Vec<char>, sep: char) -> (r: Vec<String>)
    ensures
        r.deep_view() == split_seq(s@, sep),
{
    let pieces = split_chars_vec(s, sep);
    let mut out: Vec<String> = Vec::new();
    let mut i: usize = 0;
    while i < pieces.len()
        invariant
            i <= pieces@.len(),
            out@.len() == i,
            pieces.deep_view() == split_seq(s@, sep),
            forall|j: int| 0 <= j < i ==> #[trigger] out@[j]@ == pieces@[j]@,
        decreases pieces@.len() - i,
    {
        out.push(chars_to_string(&pieces[i]));
        i = i + 1;
    }
    proof {
        assert(out.deep_view() =~~= pieces.deep_view());
    }
    out
}

/// True for the ASCII whitespace characters that the library trims.
pub open spec fn is_space_char(c: char) -> bool {
    c == ' ' || c == '\t' || c == '\r' || c == '\n'
}

/// True for the parentheses around a source descriptor.
pub open spec fn is_paren_char(c: char) -> bool {
    c == '(' || c == ')'
}

/// `s` without its longest prefix of characters satisfying `p`.
pub open spec fn trim_start_by(s: Seq<char>, p: spec_fn(char) -> bool) -> Seq<char>
    decreases s.len(),
{
    if s.len() > 0 && p(s.first()) {
        trim_start_by(s.drop_first(), p)
    } else {
        s
    }
}

/// `s` without its longest suffix of characters satisfying `p`.
pub open spec fn trim_end_by(s: Seq<char>, p: spec_fn(char) -> bool) -> Seq<char>
    decreases s.len(),
{
    if s.len() > 0 && p(s.last()) {
        trim_end_by(s.drop_last(), p)
    } else {
        s
    }
}

/// `s` trimmed of characters satisfying `p` at both ends.
pub open spec fn trim_by(s: Seq<char>, p: spec_fn(char) -> bool) -> Seq<char> {
    trim_end_by(trim_start_by(s, p), p)
}

pub proof fn lemma_trim_start_by_skip(s: Seq<char>, p: spec_fn(char) -> bool, k: int)
    requires
        0 <= k <= s.len(),
        forall|j: int| 0 <= j < k ==> p(#[trigger] s[j]),
    ensures
        trim_start_by(s, p) == trim_start_by(s.skip(k), p),
    decreases k,
{
    if k > 0 {
        lemma_trim_start_by_skip(s.drop_first(), p, k - 1);
        assert(s.drop_first().skip(k - 1) =~= s.skip(k));
    } else {
        assert(s.skip(0) =~= s);
    }
}

pub proof fn lemma_trim_end_by_take(s: Seq<char>, p: spec_fn(char) -> bool, k: int)
    requires
        0 <= k <= s.len(),
        forall|j: int| k <= j < s.len() ==> p(#[trigger] s[j]),
    ensures
        trim_end_by(s, p) == trim_end_by(s.take(k), p),
    decreases s.len() - k,
{
    if k < s.len() {
        lemma_trim_end_by_take(s.drop_last(), p, k);
        assert(s.drop_last().take(k) =~= s.take(k));
    } else {
        assert(s.take(s.len() as int) =~= s);
    }
}

/// Copies the characters of `s` between `lo` and `hi`.
pub fn copy_range(s: &Vec<char>, lo: usize, hi: usize) -> (r: Vec<char>)
    requires
        lo <= hi <= s@.len(),
    ensures
        r@ == s@.subrange(lo as int, hi as int),
{
    let mut r: Vec<char> = Vec::new();
    let mut i: usize = lo;
    while i < hi
        invariant
            lo <= i <= hi <= s@.len(),
            r@ =~= s@.subrange(lo as int, i as int),
        decreases hi - i,
    {
        r.push(s[i]);
        proof {
            assert(s@.subrange(lo as int, i as int).push(s@[i as int]) =~= s@.subrange(
                lo as int,
                i + 1,
            ));
        }
        i = i + 1;
    }
    r
}

fn is_space(c: char) -> (r: bool)
    ensures
        r == is_space_char(c),
{
    c == ' ' || c == '\t' || c == '\r' || c == '\n'
}

fn is_paren(c: char) -> (r: bool)
    ensures
        r == is_paren_char(c),
{
    c == '(' || c == ')'
}

/// Trims ASCII whitespace from both ends.
pub fn trim_spaces(s: &Vec<char>) -> (r: Vec<char>)
    ensures
        r@ == trim_by(s@, |c: char| is_space_char(c)),
{
    let mut lo: usize = 0;
    while lo < s.len() && is_space(s[lo])
        invariant
            lo <= s@.len(),
            forall|j: int| 0 <= j < lo ==> is_space_char(#[trigger] s@[j]),
        decreases s@.len() - lo,
    {
        lo = lo + 1;
    }
    let mut hi: usize = s.len();
    while hi > lo && is_space(s[hi - 1])
        invariant
            lo <= hi <= s@.len(),
            forall|j: int| hi <= j < s@.len() ==> is_space_char(#[trigger] s@[j]),
        decreases hi,
    {
        hi = hi - 1;
    }
    proof {
        let p = |c: char| is_space_char(c);
        lemma_trim_start_by_skip(s@, p, lo as int);
        let mid = s@.skip(lo as int);
        assert(forall|j: int| hi - lo <= j < mid.len() ==> p(#[trigger] mid[j]));
        lemma_trim_end_by_take(mid, p, hi - lo);
        assert(mid.take(hi - lo) =~= s@.subrange(lo as int, hi as int));
    }
    copy_range(s, lo, hi)
}

/// Trims parentheses from both ends.
pub fn trim_parens(s: &Vec<char>) -> (r: Vec<char>)
    ensures
        r@ == trim_by(s@, |c: char| is_paren_char(c)),
{
    let mut lo: usize = 0;
    while lo < s.len() && is_paren(s[lo])
        invariant
            lo <= s@.len(),
            forall|j: int| 0 <= j < lo ==> is_paren_char(#[trigger] s@[j]),
        decreases s@.len() - lo,
    {
        lo = lo + 1;
    }
    let mut hi: usize = s.len();
    while hi > lo && is_paren(s[hi - 1])
        invariant
            lo <= hi <= s@.len(),
            forall|j: int| hi <= j < s@.len() ==> is_paren_char(#[trigger] s@[j]),
        decreases hi,
    {
        hi = hi - 1;
    }
    proof {
        let p = |c: char| is_paren_char(c);
        lemma_trim_start_by_skip(s@, p, lo as int);
        let mid = s@.skip(lo as int);
        assert(forall|j: int| hi - lo <= j < mid.len() ==> p(#[trigger] mid[j]));
        lemma_trim_end_by_take(mid, p, hi - lo);
        assert(mid.take(hi - lo) =~= s@.subrange(lo as int, hi as int));
    }
    copy_range(s, lo, hi)
}

/// True when two character vectors hold the same text.
pub fn chars_eq(a: &Vec<char>, b: &Vec<char>) -> (r: bool)
    ensures
        r == (a@ == b@),
{
    if a.len() != b.len() {
        return false;
    }
    let mut i: usize = 0;
    while i < a.len()
        invariant
            i <= a.len(),
            a@.len() == b@.len(),
            forall|j: int| 0 <= j < i ==> a@[j] == b@[j],
        decreases a.len() - i,
    {
        if a[i] != b[i] {
            return false;
        }
        i = i + 1;
    }
    proof {
        assert(a@ =~= b@);
    }
    true
}

/// True when the string and the character vector hold the same text.
pub fn str_eq_chars(a: &str, b: &Vec<char>) -> (r: bool)
    ensures
        r == (a@ == b@),
{
    let ac = str_to_chars(a);
    chars_eq(&ac, b)
}

/// True when `prefix` begins `s`.
pub fn starts_with_chars(s: &Vec<char>, prefix: &Vec<char>) -> (r: bool)
    ensures
        r == prefix@.is_prefix_of(s@),
{
    if prefix.len() > s.len() {
        return false;
    }
    let mut i: usize = 0;
    while i < prefix.len()
        invariant
            i <= prefix@.len() <= s@.len(),
            forall|j: int| 0 <= j < i ==> prefix@[j] == s@[j],
        decreases prefix@.len() - i,
    {
        if prefix[i] != s[i] {
            return false;
        }
        i = i + 1;
    }
    proof {
        assert(prefix@ =~= s@.subrange(0, prefix@.len() as int));
    }
    true
}

/// A line with a trailing carriage return loses it.
pub open spec fn strip_cr(s: Seq<char>) -> Seq<char> {
    if s.len() > 0 && s.last() == '\r' {
        s.drop_last()
    } else {
        s
    }
}

/// The lines of a text: split on newlines, each line free of a trailing
/// carriage return.
pub open spec fn spec_lines(s: Seq<char>) -> Seq<Seq<char>> {
    split_seq(s, '\n').map_values(|l: Seq<char>| strip_cr(l))
}

/// Splits a text into its lines.
pub fn lines_of(s: &Vec<char>) -> (r: Vec<Vec<char>>)
    ensures
        r.deep_view() == spec_lines(s@),
{
    let pieces = split_chars_vec(s, '\n');
    let mut out: Vec<Vec<char>> = Vec::new();
    let mut i: usize = 0;
    while i < pieces.len()
        invariant
            i <= pieces@.len(),
            out@.len() == i,
            pieces.deep_view() == split_seq(s@, '\n'),
            forall|j: int| 0 <= j < i ==> #[trigger] out@[j]@ == strip_cr(pieces@[j]@),
        decreases pieces@.len() - i,
    {
        let mut piece = pieces[i].clone();
        proof {
            assert(piece@ =~= pieces@[i as int]@);
        }
        if piece.len() > 0 && piece[piece.len() - 1] == '\r' {
            piece.pop();
            proof {
                assert(piece@ =~= strip_cr(pieces@[i as int]@));
            }
        }
        out.push(piece);
        i = i + 1;
    }
    proof {
        assert forall|j: int| 0 <= j < pieces@.len() implies #[trigger] pieces.deep_view()[j]
            == pieces@[j]@ by {
            assert(pieces.deep_view()[j] =~= pieces@[j]@);
        }
        assert(out.deep_view() =~~= spec_lines(s@));
    }
    out
}

/// The pieces joined with `sep` between each pair: the inverse of
/// `split_seq` on piece lists that are free of the separator.
pub open spec fn join_seq(parts: Seq<Seq<char>>, sep: char) -> Seq<char>
    decreases parts.len(),
{
    if parts.len() == 0 {
        Seq::empty()
    } else if parts.len() == 1 {
        parts[0]
    } else {
        parts[0] + seq![sep] + join_seq(parts.drop_first(), sep)
    }
}

pub proof fn lemma_join_push(parts: Seq<Seq<char>>, x: Seq<char>, sep: char)
    ensures
        join_seq(parts.push(x), sep) == if parts.len() == 0 {
            x
        } else {
            join_seq(parts, sep) + seq![sep] + x
        },
    decreases parts.len(),
{
    if parts.len() == 0 {
        assert(parts.push(x)[0] =~= x);
        assert(join_seq(parts.push(x), sep) =~= x);
    } else {
        lemma_join_push(parts.drop_first(), x, sep);
        assert(parts.push(x).drop_first() =~= parts.drop_first().push(x));
        assert(parts.push(x)[0] == parts[0]);
        if parts.len() == 1 {
            assert(join_seq(parts, sep) == parts[0]);
            assert(join_seq(parts.push(x), sep) =~= join_seq(parts, sep) + seq![sep] + x);
        } else {
            assert(join_seq(parts.push(x), sep) =~= join_seq(parts, sep) + seq![sep] + x);
        }
    }
}

/// Joins the pieces with the separator between each pair.
pub fn join_strings(parts: &Vec<String>, sep: char) -> (r: String)
    ensures
        r@ == join_seq(parts.deep_view(), sep),
{
    let mut acc: Vec<char> = Vec::new();
    let mut i: usize = 0;
    while i < parts.len()
        invariant
            i <= parts.len(),
            acc@ == join_seq(parts.deep_view().take(i as int), sep),
        decreases parts.len() - i,
    {
        let ghost prefix = parts.deep_view().take(i as int);
        proof {
            assert(parts.deep_view().take(i + 1) =~= prefix.push(parts@[i as int]@));
            lemma_join_push(prefix, parts@[i as int]@, sep);
        }
        if i > 0 {
            acc.push(sep);
        }
        let cs = str_to_chars(parts[i].as_str());
        let mut j: usize = 0;
        while j < cs.len()
            invariant
                j <= cs.len(),
                acc@ == joined_before(parts.deep_view(), i as int, sep) + cs@.take(j as int),
                cs@ == parts.deep_view()[i as int],
                i < parts@.len(),
        decreases cs.len() - j,
        {
            acc.push(cs[j]);
            proof {
                assert(cs@.take(j as int).push(cs@[j as int]) =~= cs@.take(j + 1));
            }
            j = j + 1;
        }
        proof {
            assert(cs@.take(cs@.len() as int) =~= cs@);
        }
        i = i + 1;
    }
    proof {
        assert(parts.deep_view().take(parts.deep_view().len() as int) =~= parts.deep_view());
    }
    chars_to_string(&acc)
}

/// The joined text before piece `i` is appended, separator included when
/// `i` is not the first piece.
spec fn joined_before(parts: Seq<Seq<char>>, i: int, sep: char) -> Seq<char> {
    if i == 0 {
        Seq::empty()
    } else {
        join_seq(parts.take(i), sep) + seq![sep]
    }
}

/// The character for a single decimal digit.
pub open spec fn digit_char(d: nat) -> char {
    if d == 0 {
        '0'
    } else if d == 1 {
        '1'
    } else if d == 2 {
        '2'
    } else if d == 3 {
        '3'
    } else if d == 4 {
        '4'
    } else if d == 5 {
        '5'
    } else if d == 6 {
        '6'
    } else if d == 7 {
        '7'
    } else if d == 8 {
        '8'
    } else {
        '9'
    }
}

/// The decimal digits of `n`, most significant first, with no leading zeros.
pub open spec fn dec_digits(n: nat) -> Seq<char>
    decreases n,
{
    if n < 10 {
        seq![digit_char(n)]
    } else {
        dec_digits(n / 10).push(digit_char(n % 10))
    }
}

fn digit_to_char(d: u64) -> (c: char)
    requires
        d < 10,
    ensures
        c == digit_char(d as nat),
{
    if d == 0 {
        '0'
    } else if d == 1 {
        '1'
    } else if d == 2 {
        '2'
    } else if d == 3 {
        '3'
    } else if d == 4 {
        '4'
    } else if d == 5 {
        '5'
    } else if d == 6 {
        '6'
    } else if d == 7 {
        '7'
    } else if d == 8 {
        '8'
    } else {
        '9'
    }
}

/// Renders an unsigned number in decimal.
pub fn u64_to_chars(n: u64) -> (r: Vec<char>)
    ensures
        r@ == dec_digits(n as nat),
    decreases n,
{
    if n < 10 {
        let mut r: Vec<char> = Vec::new();
        r.push(digit_to_char(n));
        proof {
            assert(r@ =~= dec_digits(n as nat));
        }
        r
    } else {
        let mut r = u64_to_chars(n / 10);
        r.push(digit_to_char(n % 10));
        r
    }
}

} // verus!

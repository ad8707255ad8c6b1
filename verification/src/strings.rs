//! Verified string utilities.
//!
//! Equality, prefix and substring search, ASCII-whitespace splitting and
//! joining, trimming, decimal rendering, and a small string builder. All
//! operations are specified over `Seq<char>` views.

use vstd::prelude::*;
use vstd::string::StrSliceExecFns;
use vstd::string::StringExecFns;

verus! {

/// ASCII whitespace, the separator class used for class lists and trimming.
pub open spec fn is_space(c: char) -> bool {
    c == ' ' || c == '\t' || c == '\n' || c == '\r'
}

/// Executable test for `is_space`.
pub fn is_space_char(c: char) -> (r: bool)
    ensures
        r == is_space(c),
{
    c == ' ' || c == '\t' || c == '\n' || c == '\r'
}

/// Whether the views of `a` and `b` are the same character sequence.
pub fn str_eq(a: &str, b: &str) -> (r: bool)
    ensures
        r == (a@ == b@),
{
    let la = a.unicode_len();
    let lb = b.unicode_len();
    if la != lb {
        return false;
    }
    let mut i: usize = 0;
    while i < la
        invariant
            la == a@.len(),
            la == b@.len(),
            i <= la,
            forall|k: int| 0 <= k < i ==> a@[k] == b@[k],
        decreases la - i,
    {
        if a.get_char(i) != b.get_char(i) {
            return false;
        }
        i = i + 1;
    }
    proof {
        assert(a@ =~= b@);
    }
    true
}

/// Whether `p@` is a prefix of `s@`.
pub open spec fn spec_starts_with(s: Seq<char>, p: Seq<char>) -> bool {
    p.len() <= s.len() && s.subrange(0, p.len() as int) == p
}

/// Executable prefix test.
pub fn str_starts_with(s: &str, p: &str) -> (r: bool)
    ensures
        r == spec_starts_with(s@, p@),
{
    let ls = s.unicode_len();
    let lp = p.unicode_len();
    if lp > ls {
        return false;
    }
    let mut i: usize = 0;
    while i < lp
        invariant
            ls == s@.len(),
            lp == p@.len(),
            lp <= ls,
            i <= lp,
            forall|k: int| 0 <= k < i ==> s@[k] == p@[k],
        decreases lp - i,
    {
        if s.get_char(i) != p.get_char(i) {
            proof {
                if spec_starts_with(s@, p@) {
                    assert(s@.subrange(0, p@.len() as int)[i as int] == s@[i as int]);
                }
            }
            return false;
        }
        i = i + 1;
    }
    proof {
        assert(s@.subrange(0, p@.len() as int) =~= p@);
    }
    true
}

/// Whether `sub` occurs in `s` starting at index `i`.
pub open spec fn matches_at(s: Seq<char>, sub: Seq<char>, i: int) -> bool {
    0 <= i && i + sub.len() <= s.len() && s.subrange(i, i + sub.len()) == sub
}

/// Whether `sub` occurs somewhere in `s`.
pub open spec fn spec_contains(s: Seq<char>, sub: Seq<char>) -> bool {
    exists|i: int| matches_at(s, sub, i)
}

fn matches_at_exec(s: &str, sub: &str, i: usize) -> (r: bool)
    requires
        i + sub@.len() <= s@.len(),
    ensures
        r == matches_at(s@, sub@, i as int),
{
    let ls = s.unicode_len();
    let lsub = sub.unicode_len();
    let mut k: usize = 0;
    while k < lsub
        invariant
            ls == s@.len(),
            lsub == sub@.len(),
            i + lsub <= ls,
            k <= lsub,
            forall|m: int| 0 <= m < k ==> s@[i + m] == sub@[m],
        decreases lsub - k,
    {
        if s.get_char(i + k) != sub.get_char(k) {
            proof {
                if matches_at(s@, sub@, i as int) {
                    assert(s@.subrange(i as int, i + sub@.len())[k as int] == s@[i + k]);
                }
            }
            return false;
        }
        k = k + 1;
    }
    proof {
        assert(s@.subrange(i as int, i + sub@.len()) =~= sub@);
    }
    true
}

/// Index of the first occurrence of `sub` in `s`, if any.
pub fn str_find(s: &str, sub: &str) -> (r: Option<usize>)
    ensures
        match r {
            Some(i) => matches_at(s@, sub@, i as int) && forall|j: int|
                0 <= j < i ==> !matches_at(s@, sub@, j),
            None => !spec_contains(s@, sub@),
        },
{
    let ls = s.unicode_len();
    let lsub = sub.unicode_len();
    if lsub > ls {
        proof {
            assert(forall|i: int| !matches_at(s@, sub@, i));
        }
        return None;
    }
    if lsub == 0 {
        proof {
            assert(s@.subrange(0, 0) =~= sub@);
        }
        return Some(0);
    }
    let mut i: usize = 0;
    while i <= ls - lsub
        invariant
            ls == s@.len(),
            lsub == sub@.len(),
            1 <= lsub <= ls,
            i <= ls - lsub + 1,
            forall|j: int| 0 <= j < i ==> !matches_at(s@, sub@, j),
        decreases ls - i,
    {
        if matches_at_exec(s, sub, i) {
            return Some(i);
        }
        i = i + 1;
    }
    proof {
        assert(forall|j: int| matches_at(s@, sub@, j) ==> 0 <= j && j + sub@.len() <= s@.len());
        assert(forall|j: int| 0 <= j < i ==> !matches_at(s@, sub@, j));
    }
    None
}

/// Whether `sub` occurs in `s`.
pub fn str_contains(s: &str, sub: &str) -> (r: bool)
    ensures
        r == spec_contains(s@, sub@),
{
    match str_find(s, sub) {
        Some(_) => true,
        None => false,
    }
}

/// Number of leading ASCII-whitespace characters of `s` from index `i` on.
pub open spec fn ws_run(s: Seq<char>, i: int) -> int
    decreases s.len() - i when 0 <= i <= s.len()
{
    if i >= s.len() || !is_space(s[i]) {
        i
    } else {
        ws_run(s, i + 1)
    }
}

/// End of the word that starts at index `i`: the first index at or after `i`
/// that is past the end or holds whitespace.
pub open spec fn word_end(s: Seq<char>, i: int) -> int
    decreases s.len() - i when 0 <= i <= s.len()
{
    if i >= s.len() || is_space(s[i]) {
        i
    } else {
        word_end(s, i + 1)
    }
}

pub proof fn lemma_word_end_bounds(s: Seq<char>, i: int)
    requires
        0 <= i <= s.len(),
    ensures
        i <= word_end(s, i) <= s.len(),
        forall|k: int| i <= k < word_end(s, i) ==> !is_space(s[k]),
        word_end(s, i) == s.len() || is_space(s[word_end(s, i)]),
    decreases s.len() - i,
{
    if i < s.len() && !is_space(s[i]) {
        lemma_word_end_bounds(s, i + 1);
    }
}

pub proof fn lemma_word_end_unique(s: Seq<char>, i: int, j: int)
    requires
        0 <= i <= j <= s.len(),
        forall|k: int| i <= k < j ==> !is_space(s[k]),
        j == s.len() || is_space(s[j]),
    ensures
        word_end(s, i) == j,
    decreases j - i,
{
    if i < j {
        assert(!is_space(s[i]));
        lemma_word_end_unique(s, i + 1, j);
    }
}

/// The ASCII-whitespace-separated words of `s`, from index `i` on.
pub open spec fn split_ws_from(s: Seq<char>, i: int) -> Seq<Seq<char>>
    decreases s.len() - i when 0 <= i <= s.len()
    via split_ws_from_decreases
{
    if i >= s.len() {
        Seq::empty()
    } else if is_space(s[i]) {
        split_ws_from(s, i + 1)
    } else {
        seq![s.subrange(i, word_end(s, i))] + split_ws_from(s, word_end(s, i))
    }
}

#[via_fn]
proof fn split_ws_from_decreases(s: Seq<char>, i: int) {
    if 0 <= i <= s.len() && i < s.len() && !is_space(s[i]) {
        lemma_word_end_bounds(s, i);
        assert(word_end(s, i) >= i + 1) by {
            if word_end(s, i) == i {
            }
        }
    }
}

/// The ASCII-whitespace-separated words of `s`.
pub open spec fn split_ws(s: Seq<char>) -> Seq<Seq<char>> {
    split_ws_from(s, 0)
}

/// Splits `s` on runs of ASCII whitespace into its words.
pub fn split_whitespace_vec(s: &str) -> (r: Vec<String>)
    ensures
        r.deep_view() == split_ws(s@),
{
    let len = s.unicode_len();
    let mut out: Vec<String> = Vec::new();
    let mut i: usize = 0;
    while i < len
        invariant
            len == s@.len(),
            i <= len,
            out.deep_view() + split_ws_from(s@, i as int) == split_ws(s@),
        decreases len - i,
    {
        if is_space_char(s.get_char(i)) {
            i = i + 1;
        } else {
            let ghost start = i as int;
            let mut j: usize = i + 1;
            while j < len && !is_space_char(s.get_char(j))
                invariant
                    len == s@.len(),
                    start + 1 <= j <= len,
                    forall|k: int| start < k < j ==> !is_space(s@[k]),
                    !is_space(s@[start]),
                decreases len - j,
            {
                j = j + 1;
            }
            proof {
                lemma_word_end_unique(s@, start, j as int);
            }
            let word = s.substring_char(i, j);
            out.push(word.to_owned());
            proof {
                assert(out.deep_view() =~= out.deep_view().subrange(
                    0,
                    out.deep_view().len() - 1,
                ).push(s@.subrange(start, j as int)));
            }
            i = j;
        }
    }
    proof {
        assert(out.deep_view() =~= split_ws(s@));
    }
    out
}

/// Concatenation of a sequence of character sequences.
pub open spec fn concat_all(parts: Seq<Seq<char>>) -> Seq<char>
    decreases parts.len(),
{
    if parts.len() == 0 {
        Seq::empty()
    } else {
        concat_all(parts.drop_last()) + parts.last()
    }
}

/// The parts joined with the separator `sep` between neighbours.
pub open spec fn join_sep(parts: Seq<Seq<char>>, sep: Seq<char>) -> Seq<char>
    decreases parts.len(),
{
    if parts.len() == 0 {
        Seq::empty()
    } else if parts.len() == 1 {
        parts[0]
    } else {
        join_sep(parts.drop_last(), sep) + sep + parts.last()
    }
}

/// Joining splits apart again: with at least two parts, the joined sequence
/// is the first part, the separator, and the joined rest.
proof fn lemma_join_left(parts: Seq<Seq<char>>, sep: Seq<char>)
    requires
        parts.len() >= 2,
    ensures
        join_sep(parts, sep) == parts[0] + sep + join_sep(parts.drop_first(), sep),
    decreases parts.len(),
{
    if parts.len() == 2 {
        assert(parts.drop_last() =~= seq![parts[0]]);
        assert(parts.drop_first() =~= seq![parts[1]]);
        assert(join_sep(parts, sep) == join_sep(parts.drop_last(), sep) + sep + parts[1]);
    } else {
        let dl = parts.drop_last();
        lemma_join_left(dl, sep);
        assert(dl.drop_first() =~= parts.drop_first().drop_last());
        assert(parts.drop_first().last() == parts.last());
        assert(join_sep(parts, sep) == join_sep(dl, sep) + sep + parts.last());
        assert(join_sep(dl, sep) == dl[0] + sep + join_sep(dl.drop_first(), sep));
        assert(join_sep(parts.drop_first(), sep) == join_sep(parts.drop_first().drop_last(), sep)
            + sep + parts.drop_first().last());
        assert((parts[0] + sep + join_sep(dl.drop_first(), sep)) + sep + parts.last()
            =~= parts[0] + sep + (join_sep(dl.drop_first(), sep) + sep + parts.last()));
    }
}

/// A word of a class list: nonempty, with no whitespace inside.
pub open spec fn plain_word(w: Seq<char>) -> bool {
    w.len() > 0 && forall|j: int| 0 <= j < w.len() ==> !is_space(#[trigger] w[j])
}

proof fn lemma_split_of_render(s: Seq<char>, i: int, words: Seq<Seq<char>>)
    requires
        0 <= i <= s.len(),
        s.subrange(i, s.len() as int) == join_sep(words, seq![' ']),
        forall|k: int| 0 <= k < words.len() ==> plain_word(#[trigger] words[k]),
    ensures
        split_ws_from(s, i) == words,
    decreases words.len(),
{
    let suffix = s.subrange(i, s.len() as int);
    if words.len() == 0 {
        assert(suffix.len() == 0);
        assert(split_ws_from(s, i) =~= words);
    } else if words.len() == 1 {
        let w = words[0];
        assert(plain_word(w));
        assert(suffix =~= w);
        assert(forall|k: int| i <= k < s.len() ==> s[k] == suffix[k - i]);
        assert(forall|k: int| i <= k < s.len() ==> !is_space(s[k]));
        lemma_word_end_unique(s, i, s.len() as int);
        assert(s.subrange(i, s.len() as int) =~= w);
        assert(split_ws_from(s, i) == seq![w] + split_ws_from(s, s.len() as int));
        assert(split_ws_from(s, s.len() as int) =~= Seq::<Seq<char>>::empty());
        assert(split_ws_from(s, i) =~= words);
    } else {
        let w = words[0];
        let rest = words.drop_first();
        lemma_join_left(words, seq![' ']);
        assert(suffix == w + seq![' '] + join_sep(rest, seq![' ']));
        let e = i + w.len() as int;
        assert(forall|k: int| i <= k < e ==> s[k] == w[k - i]) by {
            assert(forall|k: int| i <= k < s.len() ==> s[k] == suffix[k - i]);
        }
        assert(forall|k: int| i <= k < e ==> !is_space(s[k]));
        assert(s[e] == ' ') by {
            assert(suffix[w.len() as int] == ' ');
        }
        lemma_word_end_unique(s, i, e);
        assert(!is_space(s[i]));
        assert(split_ws_from(s, i) == seq![s.subrange(i, e)] + split_ws_from(s, e));
        assert(s.subrange(i, e) =~= w);
        assert(is_space(s[e]));
        assert(split_ws_from(s, e) == split_ws_from(s, e + 1));
        assert(s.subrange(e + 1, s.len() as int) =~= join_sep(rest, seq![' '])) by {
            assert(forall|k: int|
                0 <= k < s.len() - e - 1 ==> #[trigger] s.subrange(e + 1, s.len() as int)[k]
                    == suffix[w.len() + 1 + k]);
        }
        lemma_split_of_render(s, e + 1, rest);
        assert(split_ws_from(s, i) =~= seq![w] + rest);
        assert(seq![w] + rest =~= words);
    }
}

/// Law: splitting the space-joined rendering of a class list yields the list
/// back, for lists of nonempty class names that hold no whitespace.
pub proof fn lemma_class_list_round_trip(words: Seq<Seq<char>>)
    requires
        forall|k: int| 0 <= k < words.len() ==> plain_word(#[trigger] words[k]),
    ensures
        split_ws(join_sep(words, seq![' '])) == words,
{
    let s = join_sep(words, seq![' ']);
    assert(s.subrange(0, s.len() as int) =~= s);
    lemma_split_of_render(s, 0, words);
}

/// Joins the parts with a single space between neighbours.
pub fn join_space(parts: &Vec<String>) -> (r: String)
    ensures
        r@ == join_sep(parts.deep_view(), " "@),
{
    proof {
        reveal_strlit(" ");
    }
    let mut out = String::new();
    let n = parts.len();
    let mut i: usize = 0;
    while i < n
        invariant
            n == parts@.len(),
            i <= n,
            out@ == join_sep(parts.deep_view().subrange(0, i as int), " "@),
        decreases n - i,
    {
        if i > 0 {
            out.append(" ");
        }
        out.append(parts[i].as_str());
        proof {
            let dv = parts.deep_view();
            assert(dv.subrange(0, i + 1).drop_last() =~= dv.subrange(0, i as int));
            assert(dv.subrange(0, i + 1).last() == dv[i as int]);
        }
        i = i + 1;
    }
    proof {
        assert(parts.deep_view().subrange(0, n as int) =~= parts.deep_view());
    }
    out
}

/// Index where the trimmed portion of `s` starts.
pub open spec fn trim_start_idx(s: Seq<char>) -> int {
    ws_run(s, 0)
}

/// Index one past where the trimmed portion of `s` ends; equals
/// `trim_start_idx(s)` when `s` is all whitespace.
pub open spec fn trim_end_idx(s: Seq<char>) -> int
    decreases s.len(),
{
    if s.len() == 0 {
        0
    } else if !is_space(s.last()) {
        s.len() as int
    } else {
        trim_end_idx(s.drop_last())
    }
}

/// `s` without leading and trailing ASCII whitespace.
pub open spec fn trim_spec(s: Seq<char>) -> Seq<char> {
    if trim_start_idx(s) >= trim_end_idx(s) {
        Seq::empty()
    } else {
        s.subrange(trim_start_idx(s), trim_end_idx(s))
    }
}

proof fn lemma_ws_run_bounds(s: Seq<char>, i: int)
    requires
        0 <= i <= s.len(),
    ensures
        i <= ws_run(s, i) <= s.len(),
        forall|k: int| i <= k < ws_run(s, i) ==> is_space(s[k]),
        ws_run(s, i) == s.len() || !is_space(s[ws_run(s, i)]),
    decreases s.len() - i,
{
    if i < s.len() && is_space(s[i]) {
        lemma_ws_run_bounds(s, i + 1);
    }
}

proof fn lemma_ws_run_unique(s: Seq<char>, i: int, j: int)
    requires
        0 <= i <= j <= s.len(),
        forall|k: int| i <= k < j ==> is_space(s[k]),
        j == s.len() || !is_space(s[j]),
    ensures
        ws_run(s, i) == j,
    decreases j - i,
{
    if i < j {
        assert(is_space(s[i]));
        lemma_ws_run_unique(s, i + 1, j);
    }
}

proof fn lemma_trim_end_bounds(s: Seq<char>)
    ensures
        0 <= trim_end_idx(s) <= s.len(),
        forall|k: int| trim_end_idx(s) <= k < s.len() ==> is_space(s[k]),
        trim_end_idx(s) == 0 || !is_space(s[trim_end_idx(s) - 1]),
    decreases s.len(),
{
    if s.len() > 0 && is_space(s.last()) {
        lemma_trim_end_bounds(s.drop_last());
        assert forall|k: int| trim_end_idx(s) <= k < s.len() implies is_space(s[k]) by {
            if k < s.len() - 1 {
                assert(s.drop_last()[k] == s[k]);
            }
        }
        if trim_end_idx(s) > 0 {
            assert(s.drop_last()[trim_end_idx(s.drop_last()) - 1] == s[trim_end_idx(s) - 1]);
        }
    }
}

proof fn lemma_trim_end_unique(s: Seq<char>, j: int)
    requires
        0 <= j <= s.len(),
        forall|k: int| j <= k < s.len() ==> is_space(s[k]),
        j == 0 || !is_space(s[j - 1]),
    ensures
        trim_end_idx(s) == j,
    decreases s.len(),
{
    if s.len() == 0 {
    } else if !is_space(s.last()) {
        assert(j == s.len()) by {
            if j < s.len() {
                assert(is_space(s[s.len() - 1]));
            }
        }
    } else {
        assert(j < s.len()) by {
            if j == s.len() {
                assert(!is_space(s[s.len() - 1]));
            }
        }
        assert forall|k: int| j <= k < s.drop_last().len() implies is_space(s.drop_last()[k]) by {
            assert(s.drop_last()[k] == s[k]);
        }
        if j > 0 {
            assert(s.drop_last()[j - 1] == s[j - 1]);
        }
        lemma_trim_end_unique(s.drop_last(), j);
    }
}

/// `s` without leading and trailing ASCII whitespace.
pub fn str_trim(s: &str) -> (r: String)
    ensures
        r@ == trim_spec(s@),
{
    let len = s.unicode_len();
    let mut a: usize = 0;
    while a < len && is_space_char(s.get_char(a))
        invariant
            len == s@.len(),
            a <= len,
            forall|k: int| 0 <= k < a ==> is_space(s@[k]),
        decreases len - a,
    {
        a = a + 1;
    }
    proof {
        lemma_ws_run_unique(s@, 0, a as int);
    }
    let mut b: usize = len;
    while b > a && is_space_char(s.get_char(b - 1))
        invariant
            len == s@.len(),
            a <= b <= len,
            forall|k: int| b <= k < len ==> is_space(s@[k]),
            forall|k: int| 0 <= k < a ==> is_space(s@[k]),
            a == trim_start_idx(s@),
        decreases b,
    {
        b = b - 1;
    }
    if b <= a {
        proof {
            // everything from b on is whitespace and everything before a is
            // whitespace, with b <= a: the string is all whitespace
            assert(forall|k: int| 0 <= k < s@.len() ==> is_space(s@[k]));
            lemma_trim_end_unique(s@, 0);
            lemma_ws_run_bounds(s@, 0);
        }
        String::new()
    } else {
        proof {
            lemma_trim_end_unique(s@, b as int);
        }
        let out = s.substring_char(a, b);
        out.to_owned()
    }
}

/// Whether `s` is empty or all ASCII whitespace.
pub fn str_is_blank(s: &str) -> (r: bool)
    ensures
        r == (trim_spec(s@).len() == 0),
{
    let t = str_trim(s);
    t.as_str().is_empty()
}

/// The decimal digit character for `d`.
pub open spec fn dec_digit(d: int) -> char {
    if d == 0 {
        '0'
    } else if d == 1 {
        '1'
    } else if d == 2 {
        '2'
    } else if d == 3 {
        '3'
    } else if d == 4 {
        '4'
    } else if d == 5 {
        '5'
    } else if d == 6 {
        '6'
    } else if d == 7 {
        '7'
    } else if d == 8 {
        '8'
    } else {
        '9'
    }
}

/// The decimal rendering of `n`, most significant digit first.
pub open spec fn dec_chars(n: int) -> Seq<char>
    decreases n,
{
    if n < 10 {
        seq![dec_digit(n)]
    } else {
        dec_chars(n / 10) + seq![dec_digit(n % 10)]
    }
}

fn digit_str(d: u64) -> (r: &'static str)
    requires
        d < 10,
    ensures
        r@ =~= seq![dec_digit(d as int)],
{
    proof {
        reveal_strlit("0");
        reveal_strlit("1");
        reveal_strlit("2");
        reveal_strlit("3");
        reveal_strlit("4");
        reveal_strlit("5");
        reveal_strlit("6");
        reveal_strlit("7");
        reveal_strlit("8");
        reveal_strlit("9");
    }
    if d == 0 {
        "0"
    } else if d == 1 {
        "1"
    } else if d == 2 {
        "2"
    } else if d == 3 {
        "3"
    } else if d == 4 {
        "4"
    } else if d == 5 {
        "5"
    } else if d == 6 {
        "6"
    } else if d == 7 {
        "7"
    } else if d == 8 {
        "8"
    } else {
        "9"
    }
}

/// The digit characters of `ds`, read last to first.
pub open spec fn rev_digit_chars(ds: Seq<u64>) -> Seq<char>
    decreases ds.len(),
{
    if ds.len() == 0 {
        Seq::empty()
    } else {
        seq![dec_digit(ds.last() as int)] + rev_digit_chars(ds.drop_last())
    }
}

/// Renders `n` in decimal.
pub fn u64_to_string(n: u64) -> (r: String)
    ensures
        r@ == dec_chars(n as int),
{
    if n == 0 {
        proof {
            reveal_strlit("0");
            assert("0"@ =~= dec_chars(0));
        }
        return "0".to_owned();
    }
    let mut digits: Vec<u64> = Vec::new();
    let mut m: u64 = n;
    proof {
        assert(rev_digit_chars(digits@) =~= Seq::<char>::empty());
        assert(dec_chars(n as int) + rev_digit_chars(digits@) =~= dec_chars(n as int));
    }
    while m > 0
        invariant
            m <= n,
            forall|k: int| 0 <= k < digits@.len() ==> digits@[k] < 10,
            m > 0 ==> dec_chars(n as int) == dec_chars(m as int) + rev_digit_chars(digits@),
            m == 0 ==> dec_chars(n as int) == rev_digit_chars(digits@) && digits@.len() > 0,
        decreases m,
    {
        let d = m % 10;
        let next = m / 10;
        proof {
            if next > 0 {
                assert(dec_chars(m as int) == dec_chars(next as int) + seq![
                    dec_digit(d as int),
                ]);
            } else {
                assert(dec_chars(m as int) == seq![dec_digit(d as int)]);
            }
            let pushed = digits@.push(d);
            assert(pushed.last() == d);
            assert(pushed.drop_last() =~= digits@);
            assert(rev_digit_chars(pushed) == seq![dec_digit(d as int)] + rev_digit_chars(
                digits@,
            ));
            if next > 0 {
                assert((dec_chars(next as int) + seq![dec_digit(d as int)]) + rev_digit_chars(
                    digits@,
                ) =~= dec_chars(next as int) + (seq![dec_digit(d as int)] + rev_digit_chars(
                    digits@,
                )));
            } else {
                assert(seq![dec_digit(d as int)] + rev_digit_chars(digits@) =~= rev_digit_chars(
                    pushed,
                ));
            }
        }
        digits.push(d);
        m = next;
    }
    let mut out = String::new();
    let mut i: usize = digits.len();
    proof {
        assert(digits@.subrange(0, digits@.len() as int) =~= digits@);
    }
    while i > 0
        invariant
            forall|k: int| 0 <= k < digits@.len() ==> digits@[k] < 10,
            i <= digits@.len(),
            out@ + rev_digit_chars(digits@.subrange(0, i as int)) == dec_chars(n as int),
        decreases i,
    {
        i = i - 1;
        proof {
            let pre = digits@.subrange(0, i + 1);
            assert(pre.last() == digits@[i as int]);
            assert(pre.drop_last() =~= digits@.subrange(0, i as int));
            assert(rev_digit_chars(pre) == seq![dec_digit(digits@[i as int] as int)]
                + rev_digit_chars(digits@.subrange(0, i as int)));
            assert(out@ + rev_digit_chars(pre) =~= (out@ + seq![
                dec_digit(digits@[i as int] as int),
            ]) + rev_digit_chars(digits@.subrange(0, i as int)));
        }
        out.append(digit_str(digits[i]));
    }
    proof {
        assert(digits@.subrange(0, digits@.len() as int) =~= digits@);
        assert(rev_digit_chars(digits@.subrange(0, 0)) =~= Seq::<char>::empty());
        assert(out@ =~= dec_chars(n as int));
    }
    out
}

/// Builds a string from parts, joined on demand.
pub struct StringBuilder {
    parts: Vec<String>,
}

impl View for StringBuilder {
    type V = Seq<Seq<char>>;

    closed spec fn view(&self) -> Seq<Seq<char>> {
        self.parts.deep_view()
    }
}

impl StringBuilder {
    /// An empty builder.
    pub fn new() -> (r: StringBuilder)
        ensures
            r@ == Seq::<Seq<char>>::empty(),
    {
        StringBuilder { parts: Vec::new() }
    }

    /// Appends one part.
    pub fn push(&mut self, s: &str)
        ensures
            final(self)@ == old(self)@.push(s@),
    {
        self.parts.push(s.to_owned());
        proof {
            assert(self.parts.deep_view() =~= old(self)@.push(s@));
        }
    }

    /// Appends `separator` (when the builder is not empty) and then `s`.
    pub fn push_with_separator(&mut self, separator: &str, s: &str)
        ensures
            final(self)@ == if old(self)@.len() == 0 {
                old(self)@.push(s@)
            } else {
                old(self)@.push(separator@).push(s@)
            },
    {
        if self.parts.len() > 0 {
            self.push(separator);
        }
        self.push(s);
    }

    /// Concatenates all parts.
    pub fn build(self) -> (r: String)
        ensures
            r@ == concat_all(self@),
    {
        let mut out = String::new();
        let n = self.parts.len();
        let mut i: usize = 0;
        while i < n
            invariant
                n == self.parts@.len(),
                i <= n,
                out@ == concat_all(self.parts.deep_view().subrange(0, i as int)),
            decreases n - i,
        {
            out.append(self.parts[i].as_str());
            proof {
                let dv = self.parts.deep_view();
                assert(dv.subrange(0, i + 1).drop_last() =~= dv.subrange(0, i as int));
                assert(dv.subrange(0, i + 1).last() == dv[i as int]);
            }
            i = i + 1;
        }
        proof {
            assert(self.parts.deep_view().subrange(0, n as int) =~= self.parts.deep_view());
        }
        out
    }

    /// Joins all parts with `separator` between neighbours.
    pub fn build_with_separator(self, separator: &str) -> (r: String)
        ensures
            r@ == join_sep(self@, separator@),
    {
        let mut out = String::new();
        let n = self.parts.len();
        let mut i: usize = 0;
        while i < n
            invariant
                n == self.parts@.len(),
                i <= n,
                out@ == join_sep(self.parts.deep_view().subrange(0, i as int), separator@),
            decreases n - i,
        {
            if i > 0 {
                out.append(separator);
            }
            out.append(self.parts[i].as_str());
            proof {
                let dv = self.parts.deep_view();
                assert(dv.subrange(0, i + 1).drop_last() =~= dv.subrange(0, i as int));
                assert(dv.subrange(0, i + 1).last() == dv[i as int]);
            }
            i = i + 1;
        }
        proof {
            assert(self.parts.deep_view().subrange(0, n as int) =~= self.parts.deep_view());
        }
        out
    }
}

impl Default for StringBuilder {
    /// The default builder is empty, like `new`.
    fn default() -> (r: StringBuilder)
        ensures
            r@ == Seq::<Seq<char>>::empty(),
    {
        StringBuilder::new()
    }
}

} // verus!

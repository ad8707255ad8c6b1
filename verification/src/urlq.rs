//! URL query-string parsing.
//!
//! A query is a `&`-separated list of `key=value` segments; keys and values
//! are percent-decoded, falling back to the raw text when decoding fails, and
//! later segments override earlier ones with the same key.

use vstd::prelude::*;
use vstd::string::StrSliceExecFns;

use crate::assoc::{lemma_smap_dom, skeys_unique, smap_of, sset};

verus! {

/// What urlencoding's percent-decoder returns: a function of the input
/// characters alone, absent when the decoded bytes are not valid UTF-8.
pub uninterp spec fn url_decoded(s: Seq<char>) -> Option<Seq<char>>;

/// What urlencoding's percent-encoder returns: a function of the input
/// characters alone.
pub uninterp spec fn url_encoded(s: Seq<char>) -> Seq<char>;

/// Relies on urlencoding::decode: the result depends on the input characters
/// alone, and decoding fails exactly when the decoded bytes are not valid
/// UTF-8.
#[verifier::external_body]
fn url_decode(s: &str) -> (r: Option<String>)
    ensures
        r is Some <==> url_decoded(s@) is Some,
        r is Some ==> Some(r->0@) == url_decoded(s@),
{
    match urlencoding::decode(s) {
        Ok(cow) => Some(cow.into_owned()),
        Err(_) => None,
    }
}

/// Relies on urlencoding::encode: percent-encodes every byte except
/// alphanumerics and `-`, `_`, `.`, `~`; the result depends on the input
/// characters alone.
#[verifier::external_body]
pub fn url_encode(s: &str) -> (r: String)
    ensures
        r@ == url_encoded(s@),
{
    urlencoding::encode(s).into_owned()
}

/// The decoding of one key or value: the percent-decoded text, or the raw
/// text when decoding fails.
pub open spec fn decoded_or_raw(s: Seq<char>) -> Seq<char> {
    match url_decoded(s) {
        Some(d) => d,
        None => s,
    }
}

/// End of the segment that starts at `i`: the first index at or after `i`
/// that is past the end or holds `sep`.
pub open spec fn seg_end(s: Seq<char>, i: int, sep: char) -> int
    decreases s.len() - i when 0 <= i <= s.len()
{
    if i >= s.len() || s[i] == sep {
        i
    } else {
        seg_end(s, i + 1, sep)
    }
}

pub proof fn lemma_seg_end_bounds(s: Seq<char>, i: int, sep: char)
    requires
        0 <= i <= s.len(),
    ensures
        i <= seg_end(s, i, sep) <= s.len(),
        forall|k: int| i <= k < seg_end(s, i, sep) ==> s[k] != sep,
        seg_end(s, i, sep) == s.len() || s[seg_end(s, i, sep)] == sep,
    decreases s.len() - i,
{
    if i < s.len() && s[i] != sep {
        lemma_seg_end_bounds(s, i + 1, sep);
    }
}

pub proof fn lemma_seg_end_unique(s: Seq<char>, i: int, j: int, sep: char)
    requires
        0 <= i <= j <= s.len(),
        forall|k: int| i <= k < j ==> s[k] != sep,
        j == s.len() || s[j] == sep,
    ensures
        seg_end(s, i, sep) == j,
    decreases j - i,
{
    if i < j {
        assert(s[i] != sep);
        lemma_seg_end_unique(s, i + 1, j, sep);
    }
}

/// The map a single `key=value` segment adds: nothing without a `=`,
/// otherwise the decoded key mapped to the decoded value, split at the first
/// `=`.
pub open spec fn segment_insert(m: Map<Seq<char>, Seq<char>>, seg: Seq<char>) -> Map<
    Seq<char>,
    Seq<char>,
> {
    let p = seg_end(seg, 0, '=');
    if p == seg.len() {
        m
    } else {
        m.insert(
            decoded_or_raw(seg.subrange(0, p)),
            decoded_or_raw(seg.subrange(p + 1, seg.len() as int)),
        )
    }
}

/// The parameter map accumulated from the segments of `s` from index `i` on,
/// starting from `acc`.
pub open spec fn params_from(s: Seq<char>, i: int, acc: Map<Seq<char>, Seq<char>>) -> Map<
    Seq<char>,
    Seq<char>,
>
    decreases s.len() - i when 0 <= i <= s.len()
    via params_from_decreases
{
    let e = seg_end(s, i, '&');
    let acc2 = segment_insert(acc, s.subrange(i, e));
    if e >= s.len() {
        acc2
    } else {
        params_from(s, e + 1, acc2)
    }
}

#[via_fn]
proof fn params_from_decreases(s: Seq<char>, i: int, acc: Map<Seq<char>, Seq<char>>) {
    if 0 <= i <= s.len() {
        lemma_seg_end_bounds(s, i, '&');
    }
}

/// The parameter map of a whole query string.
pub open spec fn query_params(s: Seq<char>) -> Map<Seq<char>, Seq<char>> {
    params_from(s, 0, Map::empty())
}

/// A string-valued map, seen by the characters of its values.
pub open spec fn viewed(m: Map<Seq<char>, String>) -> Map<Seq<char>, Seq<char>> {
    Map::new(|k: Seq<char>| m.contains_key(k), |k: Seq<char>| m[k]@)
}

/// Parses a query string into its parameter map: `&`-separated segments,
/// each split at its first `=` (segments without one are dropped), keys and
/// values percent-decoded with the raw text as the fallback, later segments
/// overriding earlier ones.
pub fn parse_query_params(query: &str) -> (r: Vec<(String, String)>)
    ensures
        skeys_unique(r@),
        viewed(smap_of(r@)) == query_params(query@),
{
    let len = query.unicode_len();
    let mut out: Vec<(String, String)> = Vec::new();
    let mut i: usize = 0;
    let mut done = len == 0;
    proof {
        assert(viewed(smap_of(out@)) =~= Map::<Seq<char>, Seq<char>>::empty());
        if len == 0 {
            lemma_seg_end_bounds(query@, 0, '&');
            assert(seg_end(query@.subrange(0, 0), 0, '=') == 0);
            assert(segment_insert(viewed(smap_of(out@)), query@.subrange(0, 0)) =~= viewed(
                smap_of(out@),
            ));
        }
    }
    while !done
        invariant
            len == query@.len(),
            skeys_unique(out@),
            !done ==> i <= len && query_params(query@) == params_from(
                query@,
                i as int,
                viewed(smap_of(out@)),
            ),
            done ==> viewed(smap_of(out@)) == query_params(query@),
        decreases len - i, (if done { 0int } else { 1int }),
    {
        // find the end of this segment
        let mut e: usize = i;
        while e < len && query.get_char(e) != '&'
            invariant
                len == query@.len(),
                i <= e <= len,
                forall|k: int| i <= k < e ==> query@[k] != '&',
            decreases len - e,
        {
            e = e + 1;
        }
        proof {
            lemma_seg_end_unique(query@, i as int, e as int, '&');
        }
        let ghost seg = query@.subrange(i as int, e as int);
        // find the first separator of key and value within the segment
        let mut p: usize = i;
        while p < e && query.get_char(p) != '='
            invariant
                len == query@.len(),
                i <= p <= e <= len,
                forall|k: int| i <= k < p ==> query@[k] != '=',
            decreases e - p,
        {
            p = p + 1;
        }
        proof {
            assert(forall|k: int| 0 <= k < p - i ==> seg[k] == query@[i + k]);
            if p < e {
                assert(seg[p - i] == query@[p as int]);
            }
            lemma_seg_end_unique(seg, 0, p - i, '=');
        }
        if p < e {
            let raw_key = query.substring_char(i, p);
            let raw_value = query.substring_char(p + 1, e);
            proof {
                assert(raw_key@ =~= seg.subrange(0, p - i));
                assert(raw_value@ =~= seg.subrange(p - i + 1, seg.len() as int));
            }
            let key = match url_decode(raw_key) {
                Some(d) => d,
                None => raw_key.to_owned(),
            };
            let value = match url_decode(raw_value) {
                Some(d) => d,
                None => raw_value.to_owned(),
            };
            let ghost pre = viewed(smap_of(out@));
            proof {
                assert(key@ == decoded_or_raw(seg.subrange(0, p - i)));
                assert(value@ == decoded_or_raw(seg.subrange(p - i + 1, seg.len() as int)));
            }
            sset(&mut out, key, value);
            proof {
                assert(viewed(smap_of(out@)) =~= segment_insert(pre, seg));
            }
        } else {
            proof {
                assert(seg_end(seg, 0, '=') == seg.len());
                assert(segment_insert(viewed(smap_of(out@)), seg) =~= viewed(smap_of(out@)));
            }
        }
        if e >= len {
            done = true;
        } else {
            i = e + 1;
        }
    }
    out
}

/// Builds a query string from a parameter list: each pair percent-encoded
/// and written `key=value`, the pairs joined with `&` in list order.
pub fn build_query_params(params: &Vec<(String, String)>) -> (r: String)
    ensures
        r@ == crate::strings::join_sep(
            Seq::new(
                params@.len(),
                |k: int| url_encoded(params@[k].0@) + seq!['='] + url_encoded(params@[k].1@),
            ),
            seq!['&'],
        ),
{
    let ghost pairs = Seq::new(
        params@.len(),
        |k: int| url_encoded(params@[k].0@) + seq!['='] + url_encoded(params@[k].1@),
    );
    let mut out = String::new();
    let n = params.len();
    let mut i: usize = 0;
    proof {
        reveal_strlit("&");
        reveal_strlit("=");
    }
    while i < n
        invariant
            n == params@.len(),
            i <= n,
            pairs == Seq::new(
                params@.len(),
                |k: int| url_encoded(params@[k].0@) + seq!['='] + url_encoded(params@[k].1@),
            ),
            out@ == crate::strings::join_sep(pairs.subrange(0, i as int), seq!['&']),
        decreases n - i,
    {
        if i > 0 {
            out.append("&");
        }
        out.append(url_encode(params[i].0.as_str()).as_str());
        out.append("=");
        out.append(url_encode(params[i].1.as_str()).as_str());
        proof {
            reveal_strlit("&");
            reveal_strlit("=");
            assert("&"@ =~= seq!['&']);
            assert("="@ =~= seq!['=']);
            assert(pairs.subrange(0, i + 1).drop_last() =~= pairs.subrange(0, i as int));
            assert(pairs.subrange(0, i + 1).last() == pairs[i as int]);
            assert(out@ =~= crate::strings::join_sep(pairs.subrange(0, i + 1), seq!['&']));
        }
        i = i + 1;
    }
    proof {
        assert(pairs.subrange(0, n as int) =~= pairs);
    }
    out
}

} // verus!

//! Date handling for release metadata: RFC 2822 parsing with the tolerance
//! rules some third-party repositories need (a literal `UTC` zone marker and
//! single-digit hour fields), and the freshness comparisons built on it.
use vstd::prelude::*;

use crate::chars::{
    chars_of, chars_vec, concat_chars, fields_of, join_chars, parse_u64, parseable_u64,
    parsed_u64, replace_chars, spec_fields, spec_join, spec_replace, split_once_char, string_of,
    views_of,
};

verus! {

/// The position of the first occurrence of `c` in `s` (the length of `s`
/// when `c` does not occur).
pub open spec fn first_index(s: Seq<char>, c: char) -> int
    decreases s.len(),
{
    if s.len() == 0 {
        0
    } else if s[0] == c {
        0
    } else {
        1 + first_index(s.drop_first(), c)
    }
}

pub proof fn lemma_first_index_is(s: Seq<char>, c: char, i: int)
    requires
        0 <= i < s.len(),
        s[i] == c,
        forall|j: int| 0 <= j < i ==> s[j] != c,
    ensures
        first_index(s, c) == i,
    decreases i,
{
    if i == 0 {
    } else {
        assert(s[0] != c);
        assert(s.drop_first()[i - 1] == c);
        assert(forall|j: int| 0 <= j < i - 1 ==> s.drop_first()[j] != c);
        lemma_first_index_is(s.drop_first(), c, i - 1);
    }
}

/// Zero-pad a time piece: a lone digit whose value parses at most nine
/// gains a leading zero; anything else is untouched.
pub open spec fn spec_pad_piece(t: Seq<char>) -> Seq<char> {
    if parseable_u64(t) && parsed_u64(t) <= 9 && t.len() == 1 {
        seq!['0'] + t
    } else {
        t
    }
}

/// Normalize one whitespace-separated token of a date string: when it holds
/// a colon, the part before the first colon is zero-padded, and the part
/// after it is zero-padded too when the first part was numeric.
pub open spec fn spec_fix_token(t: Seq<char>) -> Seq<char> {
    if !t.contains(':') {
        t
    } else {
        let i = first_index(t, ':');
        let h = t.take(i);
        let rest = t.skip(i + 1);
        let r2 = if parseable_u64(h) {
            spec_pad_piece(rest)
        } else {
            rest
        };
        spec_pad_piece(h) + seq![':'] + r2
    }
}

/// The full date normalization: tokenize on ASCII whitespace, fix each
/// token, rejoin with single spaces, and replace the non-standard `UTC`
/// zone marker with `+0000`.
pub open spec fn spec_date_hack(s: Seq<char>) -> Seq<char> {
    spec_replace(
        spec_join(spec_fields(s).map_values(|t: Seq<char>| spec_fix_token(t)), seq![' ']),
        seq!['U', 'T', 'C'],
        seq!['+', '0', '0', '0', '0'],
    )
}

fn pad_piece(t: &[char]) -> (r: Vec<char>)
    ensures
        r@ == spec_pad_piece(t@),
{
    match parse_u64(t) {
        Some(v) => {
            if v <= 9 && t.len() == 1 {
                let mut r: Vec<char> = Vec::new();
                r.push('0');
                r.push(t[0]);
                assert(r@ =~= seq!['0'] + t@);
                r
            } else {
                chars_vec(t)
            }
        },
        None => chars_vec(t),
    }
}

fn fix_token(t: &[char]) -> (r: Vec<char>)
    ensures
        r@ == spec_fix_token(t@),
{
    match split_once_char(t, ':') {
        None => chars_vec(t),
        Some((h, rest)) => {
            proof {
                let i = choose|i: int|
                    0 <= i < t@.len() && t@[i] == ':' && (forall|j: int|
                        0 <= j < i ==> t@[j] != ':') && h@ == t@.take(i) && rest@ == t@.skip(
                        i + 1,
                    );
                lemma_first_index_is(t@, ':', i);
            }
            let h2 = pad_piece(h.as_slice());
            let r2 = if parse_u64(h.as_slice()).is_some() {
                pad_piece(rest.as_slice())
            } else {
                chars_vec(rest.as_slice())
            };
            let mut out = h2;
            out.push(':');
            let r = concat_chars(out.as_slice(), r2.as_slice());
            assert(r@ =~= spec_pad_piece(h@) + seq![':'] + r2@);
            r
        },
    }
}

/// Normalize a date string so a strict RFC 2822 parser accepts the common
/// deviations: the `UTC` zone marker becomes `+0000`, and single-digit
/// hour fields are zero-padded.
pub fn date_hack(date: &str) -> (r: String)
    ensures
        r@ == spec_date_hack(date@),
{
    let cs = chars_of(date);
    let toks = fields_of(cs.as_slice());
    let ghost all = views_of(toks@);
    let mut fixed: Vec<Vec<char>> = Vec::new();
    let mut i: usize = 0;
    proof {
        assert(views_of(fixed@) =~~= all.take(0).map_values(|t: Seq<char>| spec_fix_token(t)));
    }
    while i < toks.len()
        invariant
            0 <= i <= toks@.len(),
            all == views_of(toks@),
            all.len() == toks@.len(),
            views_of(fixed@) == all.take(i as int).map_values(|t: Seq<char>| spec_fix_token(t)),
        decreases toks@.len() - i,
    {
        let f = fix_token(toks[i].as_slice());
        proof {
            assert(views_of(fixed@.push(f)) =~~= views_of(fixed@).push(f@));
            assert(all.take(i + 1).map_values(|t: Seq<char>| spec_fix_token(t)) =~~= all.take(
                i as int,
            ).map_values(|t: Seq<char>| spec_fix_token(t)).push(spec_fix_token(all[i as int])));
        }
        fixed.push(f);
        i += 1;
    }
    proof {
        assert(all.take(toks@.len() as int) =~~= all);
    }
    let sep: [char; 1] = [' '];
    let joined = join_chars(&fixed, sep.as_slice());
    assert(sep@ =~= seq![' ']);
    let pat: [char; 3] = ['U', 'T', 'C'];
    let rep: [char; 5] = ['+', '0', '0', '0', '0'];
    assert(pat@ =~= seq!['U', 'T', 'C']);
    assert(rep@ =~= seq!['+', '0', '0', '0', '0']);
    let out = replace_chars(joined.as_slice(), pat.as_slice(), rep.as_slice());
    string_of(out.as_slice())
}

/// The instant (a Unix timestamp, seconds) an RFC 2822 date string denotes,
/// or nothing when the string does not parse.
pub uninterp spec fn rfc2822_of(s: Seq<char>) -> Option<i64>;

/// Relies on chrono's `DateTime::parse_from_rfc2822`: the parse result
/// depends on the characters alone, and a parsed date denotes one instant,
/// reported here as its Unix timestamp in seconds.
#[verifier::external_body]
pub fn parse_rfc2822(s: &str) -> (r: Option<i64>)
    ensures
        r == rfc2822_of(s@),
{
    match chrono::DateTime::parse_from_rfc2822(s) {
        Ok(d) => Some(d.timestamp()),
        Err(_) => None,
    }
}

/// Relies on chrono's `Utc::now`: the current wall-clock instant as a Unix
/// timestamp in seconds.  Nothing is promised of the value.
#[verifier::external_body]
pub fn unix_now() -> (r: i64) {
    chrono::Utc::now().timestamp()
}

/// Parse a release date: normalize with the tolerance rules, then parse
/// strictly as RFC 2822.
pub fn parse_date(date: &str) -> (r: Option<i64>)
    ensures
        r == rfc2822_of(spec_date_hack(date@)),
{
    let hack = date_hack(date);
    parse_rfc2822(hack.as_str())
}

} // verus!

//! The canonical on-disk name of a URL, and percent-decoding for `file:`
//! sources.
//!
//! Index files live in one flat directory; the name of each is derived from
//! its source URL by stripping the scheme, percent-encoding the characters
//! that would collide with the separator replacement (`%` and `_`), and
//! turning every `/` into `_`.  Because `%` and `_` are encoded first, the
//! mapping is reversible: two distinct scheme-stripped URLs never share a
//! filename.  (The scheme itself is dropped, so URLs that differ only in
//! scheme do map to the same name.)
use vstd::prelude::*;

use crate::chars::{chars_of, find_sub, has_sub, is_first_sub_at, slice_eq, string_of};

verus! {

/// The encoding of one URL character in a filename.
pub open spec fn esc_char(c: char) -> Seq<char> {
    if c == '/' {
        seq!['_']
    } else if c == '%' {
        seq!['%', '2', '5']
    } else if c == '_' {
        seq!['%', '5', 'f']
    } else {
        seq![c]
    }
}

/// The filename encoding of a scheme-stripped URL.
pub open spec fn spec_escape_part(s: Seq<char>) -> Seq<char>
    decreases s.len(),
{
    if s.len() == 0 {
        Seq::<char>::empty()
    } else {
        esc_char(s[0]) + spec_escape_part(s.drop_first())
    }
}

/// The decoding of a filename back to the scheme-stripped URL.
pub open spec fn spec_unescape_part(s: Seq<char>) -> Seq<char>
    decreases s.len(),
{
    if s.len() == 0 {
        Seq::<char>::empty()
    } else if s[0] == '_' {
        seq!['/'] + spec_unescape_part(s.drop_first())
    } else if s[0] == '%' && s.len() >= 3 && s[1] == '2' && s[2] == '5' {
        seq!['%'] + spec_unescape_part(s.skip(3))
    } else if s[0] == '%' && s.len() >= 3 && s[1] == '5' && s[2] == 'f' {
        seq!['_'] + spec_unescape_part(s.skip(3))
    } else {
        seq![s[0]] + spec_unescape_part(s.drop_first())
    }
}

proof fn lemma_escape_append(a: Seq<char>, b: Seq<char>)
    ensures
        spec_escape_part(a + b) == spec_escape_part(a) + spec_escape_part(b),
    decreases a.len(),
{
    if a.len() == 0 {
        assert(a + b =~= b);
        assert(spec_escape_part(a) + spec_escape_part(b) =~= spec_escape_part(b));
    } else {
        assert((a + b).drop_first() =~= a.drop_first() + b);
        assert((a + b)[0] == a[0]);
        lemma_escape_append(a.drop_first(), b);
        assert(esc_char(a[0]) + (spec_escape_part(a.drop_first()) + spec_escape_part(b))
            =~= (esc_char(a[0]) + spec_escape_part(a.drop_first())) + spec_escape_part(b));
    }
}

/// Escape round-trip: decoding inverts encoding, for every URL part.
pub proof fn lemma_escape_round_trip(s: Seq<char>)
    ensures
        spec_unescape_part(spec_escape_part(s)) == s,
    decreases s.len(),
{
    if s.len() == 0 {
    } else {
        let c = s[0];
        let e = esc_char(c);
        let rest = spec_escape_part(s.drop_first());
        lemma_escape_round_trip(s.drop_first());
        if c == '/' {
            assert((e + rest)[0] == '_');
            assert((e + rest).drop_first() =~= rest);
            assert(spec_unescape_part(e + rest) =~= seq!['/'] + s.drop_first());
            assert(seq!['/'] + s.drop_first() =~= s);
        } else if c == '%' {
            assert((e + rest)[0] == '%');
            assert((e + rest)[1] == '2');
            assert((e + rest)[2] == '5');
            assert((e + rest).skip(3) =~= rest);
            assert(spec_unescape_part(e + rest) =~= seq!['%'] + s.drop_first());
            assert(seq!['%'] + s.drop_first() =~= s);
        } else if c == '_' {
            assert((e + rest)[0] == '%');
            assert((e + rest)[1] == '5');
            assert((e + rest)[2] == 'f');
            assert((e + rest).skip(3) =~= rest);
            assert(spec_unescape_part(e + rest) =~= seq!['_'] + s.drop_first());
            assert(seq!['_'] + s.drop_first() =~= s);
        } else {
            assert((e + rest)[0] == c);
            assert((e + rest).drop_first() =~= rest);
            assert(spec_unescape_part(e + rest) =~= seq![c] + s.drop_first());
            assert(seq![c] + s.drop_first() =~= s);
        }
    }
}

/// Escape injectivity: two distinct scheme-stripped URLs never share a
/// filename.
pub proof fn lemma_escape_injective(a: Seq<char>, b: Seq<char>)
    requires
        spec_escape_part(a) == spec_escape_part(b),
    ensures
        a == b,
{
    lemma_escape_round_trip(a);
    lemma_escape_round_trip(b);
}

/// Escaped names hold no path separator.
pub proof fn lemma_escape_no_separator(s: Seq<char>)
    ensures
        forall|i: int|
            0 <= i < spec_escape_part(s).len() ==> #[trigger] spec_escape_part(s)[i] != '/',
    decreases s.len(),
{
    if s.len() == 0 {
    } else {
        lemma_escape_no_separator(s.drop_first());
        let e = esc_char(s[0]);
        let rest = spec_escape_part(s.drop_first());
        assert(e[0] != '/');
        assert(e.len() == 3 ==> e[1] != '/' && e[2] != '/');
        assert(spec_escape_part(s) == e + rest);
        assert forall|i: int| 0 <= i < spec_escape_part(s).len() implies #[trigger]
            spec_escape_part(s)[i] != '/' by {
            if i < e.len() {
                assert(spec_escape_part(s)[i] == e[i]);
            } else {
                assert(spec_escape_part(s)[i] == rest[i - e.len()]);
            }
        }
    }
}

/// The canonical filename of a full URL: everything after the first `://`,
/// escaped; nothing when the URL has no scheme separator.
pub open spec fn spec_database_filename(u: Seq<char>) -> Option<Seq<char>> {
    if exists|i: int| is_first_sub_at(u, seq![':', '/', '/'], i) {
        let i = choose|i: int| is_first_sub_at(u, seq![':', '/', '/'], i);
        Some(spec_escape_part(u.skip(i + 3)))
    } else {
        None
    }
}

proof fn lemma_first_sub_at_unique(s: Seq<char>, sub: Seq<char>, i: int, j: int)
    requires
        is_first_sub_at(s, sub, i),
        is_first_sub_at(s, sub, j),
    ensures
        i == j,
{
    if i < j {
        assert(s.subrange(i, i + sub.len()) == sub);
    } else if j < i {
        assert(s.subrange(j, j + sub.len()) == sub);
    }
}

/// Filename injectivity at the URL level: two URLs with the same scheme
/// part and the same on-disk name are the same URL.  (URLs differing only
/// in scheme do share a name, since the scheme is dropped.)
pub proof fn lemma_database_filename_injective(u1: Seq<char>, u2: Seq<char>, i1: int, i2: int)
    requires
        is_first_sub_at(u1, seq![':', '/', '/'], i1),
        is_first_sub_at(u2, seq![':', '/', '/'], i2),
        u1.take(i1) == u2.take(i2),
        spec_database_filename(u1) == spec_database_filename(u2),
    ensures
        u1 == u2,
{
    let sep = seq![':', '/', '/'];
    let j1 = choose|j: int| is_first_sub_at(u1, sep, j);
    let j2 = choose|j: int| is_first_sub_at(u2, sep, j);
    lemma_first_sub_at_unique(u1, sep, i1, j1);
    lemma_first_sub_at_unique(u2, sep, i2, j2);
    assert(spec_database_filename(u1) == Some(spec_escape_part(u1.skip(i1 + 3))));
    assert(spec_database_filename(u2) == Some(spec_escape_part(u2.skip(i2 + 3))));
    lemma_escape_injective(u1.skip(i1 + 3), u2.skip(i2 + 3));
    assert(u1.take(i1).len() == i1);
    assert(u2.take(i2).len() == i2);
    assert(i1 == i2);
    assert(u1.subrange(i1, i1 + 3) == sep);
    assert(u2.subrange(i2, i2 + 3) == sep);
    assert(u1 =~= u1.take(i1) + u1.subrange(i1, i1 + 3) + u1.skip(i1 + 3));
    assert(u2 =~= u2.take(i2) + u2.subrange(i2, i2 + 3) + u2.skip(i2 + 3));
}

/// Escape one scheme-stripped URL part.
fn escape_part(s: &[char]) -> (r: Vec<char>)
    ensures
        r@ == spec_escape_part(s@),
{
    let mut out: Vec<char> = Vec::new();
    let mut i: usize = 0;
    proof {
        assert(s@.take(0) =~= Seq::<char>::empty());
    }
    while i < s.len()
        invariant
            0 <= i <= s@.len(),
            out@ == spec_escape_part(s@.take(i as int)),
        decreases s@.len() - i,
    {
        let c = s[i];
        proof {
            assert(s@.take(i + 1) =~= s@.take(i as int) + seq![s@[i as int]]);
            lemma_escape_append(s@.take(i as int), seq![s@[i as int]]);
            assert(seq![s@[i as int]].drop_first() =~= Seq::<char>::empty());
            assert(seq![s@[i as int]][0] == s@[i as int]);
            assert(spec_escape_part(Seq::<char>::empty()) =~= Seq::<char>::empty());
            assert(esc_char(s@[i as int]) + Seq::<char>::empty() =~= esc_char(s@[i as int]));
            assert(spec_escape_part(seq![s@[i as int]]) == esc_char(seq![s@[i as int]][0])
                + spec_escape_part(seq![s@[i as int]].drop_first()));
            assert(spec_escape_part(seq![s@[i as int]]) =~= esc_char(s@[i as int]));
        }
        if c == '/' {
            out.push('_');
            assert(out@ =~= spec_escape_part(s@.take(i as int)) + esc_char(c));
        } else if c == '%' {
            out.push('%');
            out.push('2');
            out.push('5');
            assert(out@ =~= spec_escape_part(s@.take(i as int)) + esc_char(c));
        } else if c == '_' {
            out.push('%');
            out.push('5');
            out.push('f');
            assert(out@ =~= spec_escape_part(s@.take(i as int)) + esc_char(c));
        } else {
            out.push(c);
            assert(out@ =~= spec_escape_part(s@.take(i as int)) + esc_char(c));
        }
        i += 1;
    }
    proof {
        assert(s@.take(s@.len() as int) =~= s@);
    }
    out
}

/// The on-disk name for a URL: scheme stripped, escaped; `None` when the
/// URL has no `://` separator.
pub fn database_filename(url: &str) -> (r: Option<String>)
    ensures
        match r {
            Some(f) => spec_database_filename(url@) == Some(f@),
            None => spec_database_filename(url@) is None,
        },
{
    let cs = chars_of(url);
    let sep: [char; 3] = [':', '/', '/'];
    assert(sep@ =~= seq![':', '/', '/']);
    match find_sub(cs.as_slice(), sep.as_slice()) {
        Some(i) => {
            let n: usize = cs.len();
            assert(i + 3 <= n);
            let mut rest: Vec<char> = Vec::new();
            let mut k: usize = i + 3;
            proof {
                assert(rest@ =~= cs@.subrange(i + 3, i + 3));
            }
            while k < cs.len()
                invariant
                    i + 3 <= k <= cs@.len(),
                    rest@ == cs@.subrange(i + 3, k as int),
                decreases cs@.len() - k,
            {
                rest.push(cs[k]);
                assert(rest@ =~= cs@.subrange(i + 3, k + 1));
                k += 1;
            }
            assert(rest@ =~= cs@.skip(i + 3));
            let esc = escape_part(rest.as_slice());
            proof {
                let j = choose|j: int| is_first_sub_at(url@, seq![':', '/', '/'], j);
                lemma_first_sub_at_unique(url@, seq![':', '/', '/'], i as int, j);
            }
            Some(string_of(esc.as_slice()))
        },
        None => {
            assert(forall|i: int| !is_first_sub_at(url@, seq![':', '/', '/'], i));
            None
        },
    }
}

/// Whether `c` is an ASCII hexadecimal digit.
pub open spec fn is_hex_char(c: char) -> bool {
    ('0' <= c && c <= '9') || ('a' <= c && c <= 'f') || ('A' <= c && c <= 'F')
}

/// The value of a hexadecimal digit.
pub open spec fn hex_val(c: char) -> int {
    if '0' <= c && c <= '9' {
        c as int - '0' as int
    } else if 'a' <= c && c <= 'f' {
        c as int - 'a' as int + 10
    } else {
        c as int - 'A' as int + 10
    }
}

/// One pass of percent-decoding: each `%XX` with two hexadecimal digits
/// becomes the character with that code; everything else is copied.
pub open spec fn spec_percent_decode_once(s: Seq<char>) -> Seq<char>
    decreases s.len(),
{
    if s.len() == 0 {
        Seq::<char>::empty()
    } else if s[0] == '%' && s.len() >= 3 && is_hex_char(s[1]) && is_hex_char(s[2]) {
        seq![((hex_val(s[1]) * 16 + hex_val(s[2])) as u8) as char] + spec_percent_decode_once(
            s.skip(3),
        )
    } else {
        seq![s[0]] + spec_percent_decode_once(s.drop_first())
    }
}

/// The percent-decode fixed point of `s`, reached within `fuel` passes;
/// nothing when the string does not stabilize in time.
pub open spec fn spec_decode_fixed_point(s: Seq<char>, fuel: nat) -> Option<Seq<char>>
    decreases fuel,
{
    if spec_percent_decode_once(s) == s {
        Some(s)
    } else if fuel == 0 {
        None
    } else {
        spec_decode_fixed_point(spec_percent_decode_once(s), (fuel - 1) as nat)
    }
}

fn hex_char_val(c: char) -> (r: Option<u8>)
    ensures
        match r {
            Some(v) => is_hex_char(c) && v == hex_val(c),
            None => !is_hex_char(c),
        },
{
    if '0' <= c && c <= '9' {
        Some((c as u32 as u8) - ('0' as u32 as u8))
    } else if 'a' <= c && c <= 'f' {
        Some((c as u32 as u8) - ('a' as u32 as u8) + 10)
    } else if 'A' <= c && c <= 'F' {
        Some((c as u32 as u8) - ('A' as u32 as u8) + 10)
    } else {
        None
    }
}

fn percent_decode_once(s: &[char]) -> (r: Vec<char>)
    ensures
        r@ == spec_percent_decode_once(s@),
{
    let mut out: Vec<char> = Vec::new();
    let mut i: usize = 0;
    let n: usize = s.len();
    proof {
        assert(s@.skip(0) =~= s@);
    }
    while i < n
        invariant
            0 <= i <= n,
            n == s@.len(),
            spec_percent_decode_once(s@) == out@ + spec_percent_decode_once(s@.skip(i as int)),
        decreases n - i,
    {
        proof {
            assert(s@.skip(i as int)[0] == s@[i as int]);
            assert(s@.skip(i as int).drop_first() =~= s@.skip(i + 1));
        }
        let c = s[i];
        if c == '%' && n - i >= 3 {
            proof {
                assert(s@.skip(i as int)[1] == s@[i + 1]);
                assert(s@.skip(i as int)[2] == s@[i + 2]);
                assert(s@.skip(i as int).skip(3) =~= s@.skip(i + 3));
            }
            let h1 = hex_char_val(s[i + 1]);
            let h2 = hex_char_val(s[i + 2]);
            match (h1, h2) {
                (Some(v1), Some(v2)) => {
                    let code: u8 = v1 * 16 + v2;
                    let dc: char = code as char;
                    out.push(dc);
                    i += 3;
                },
                _ => {
                    out.push(c);
                    i += 1;
                },
            }
        } else {
            out.push(c);
            i += 1;
        }
    }
    proof {
        assert(s@.skip(n as int) =~= Seq::<char>::empty());
        assert(out@ =~= out@ + Seq::<char>::empty());
    }
    out
}

/// Resolve percent-escapes in a `file:` URL path by decoding until the
/// string is stable, giving up after eight passes so that pathological
/// inputs terminate.
pub fn url_no_escape(s: &str) -> (r: Option<String>)
    ensures
        match r {
            Some(t) => spec_decode_fixed_point(s@, 8) == Some(t@),
            None => spec_decode_fixed_point(s@, 8) is None,
        },
{
    let mut cur: Vec<char> = chars_of(s);
    let mut fuel: usize = 8;
    loop
        invariant
            fuel <= 8,
            spec_decode_fixed_point(s@, 8) == spec_decode_fixed_point(cur@, fuel as nat),
        decreases fuel,
    {
        let next = percent_decode_once(cur.as_slice());
        if slice_eq(next.as_slice(), cur.as_slice()) {
            return Some(string_of(cur.as_slice()));
        }
        if fuel == 0 {
            return None;
        }
        fuel -= 1;
        cur = next;
    }
}

} // verus!

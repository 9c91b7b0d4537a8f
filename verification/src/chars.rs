//! Character-sequence utilities: the executable ground floor for all of the
//! text processing in this crate.  Strings are modelled as `Seq<char>`, and
//! most logic works on `Vec<char>` / `&[char]` so that every step is checked.
use vstd::prelude::*;

verus! {

/// Whether `pre` is a prefix of `s`.
pub open spec fn has_prefix(s: Seq<char>, pre: Seq<char>) -> bool {
    pre.len() <= s.len() && s.take(pre.len() as int) == pre
}

/// Whether `suf` is a suffix of `s`.
pub open spec fn has_suffix(s: Seq<char>, suf: Seq<char>) -> bool {
    suf.len() <= s.len() && s.skip(s.len() - suf.len()) == suf
}

/// Whether `sub` occurs contiguously anywhere inside `s`.
pub open spec fn has_sub(s: Seq<char>, sub: Seq<char>) -> bool {
    exists|i: int|
        0 <= i && i + sub.len() <= s.len() && #[trigger] s.subrange(i, i + sub.len()) == sub
}

/// Equality of two character slices.
pub fn slice_eq(a: &[char], b: &[char]) -> (r: bool)
    ensures
        r == (a@ == b@),
{
    if a.len() != b.len() {
        assert(a@.len() != b@.len());
        return false;
    }
    let mut i: usize = 0;
    while i < a.len()
        invariant
            0 <= i <= a@.len(),
            a@.len() == b@.len(),
            forall|j: int| 0 <= j < i ==> a@[j] == b@[j],
        decreases a@.len() - i,
    {
        if a[i] != b[i] {
            return false;
        }
        i += 1;
    }
    assert(a@ =~= b@);
    true
}

/// Whether `s` matches `sub` starting at position `at`.
pub fn matches_at(s: &[char], at: usize, sub: &[char]) -> (r: bool)
    requires
        at + sub@.len() <= s@.len(),
    ensures
        r == (s@.subrange(at as int, at + sub@.len()) == sub@),
{
    let n: usize = s.len();
    let mut i: usize = 0;
    while i < sub.len()
        invariant
            0 <= i <= sub@.len(),
            n == s@.len(),
            at + sub@.len() <= n,
            forall|j: int| 0 <= j < i ==> s@[at + j] == sub@[j],
        decreases sub@.len() - i,
    {
        if s[at + i] != sub[i] {
            assert(s@.subrange(at as int, at + sub@.len())[i as int] != sub@[i as int]);
            return false;
        }
        i += 1;
    }
    assert(s@.subrange(at as int, at + sub@.len()) =~= sub@);
    true
}

/// Whether `s` starts with `pre`.
pub fn starts_with_chars(s: &[char], pre: &[char]) -> (r: bool)
    ensures
        r == has_prefix(s@, pre@),
{
    if s.len() < pre.len() {
        return false;
    }
    let r = matches_at(s, 0, pre);
    assert(s@.subrange(0, pre@.len() as int) == s@.take(pre@.len() as int));
    r
}

/// Whether `s` ends with `suf`.
pub fn ends_with_chars(s: &[char], suf: &[char]) -> (r: bool)
    ensures
        r == has_suffix(s@, suf@),
{
    if s.len() < suf.len() {
        return false;
    }
    let at: usize = s.len() - suf.len();
    let r = matches_at(s, at, suf);
    assert(s@.subrange(at as int, at + suf@.len()) == s@.skip(s@.len() - suf@.len()));
    r
}

/// Whether `sub` occurs anywhere in `s`, by scanning every offset.
pub fn contains_sub(s: &[char], sub: &[char]) -> (r: bool)
    ensures
        r == has_sub(s@, sub@),
{
    if sub.len() > s.len() {
        assert(!has_sub(s@, sub@));
        return false;
    }
    let mut i: usize = 0;
    let last: usize = s.len() - sub.len();
    loop
        invariant
            0 <= i <= last,
            last == s@.len() - sub@.len(),
            forall|k: int|
                0 <= k < i ==> #[trigger] s@.subrange(k, k + sub@.len()) != sub@,
        decreases last - i,
    {
        if matches_at(s, i, sub) {
            return true;
        }
        if i == last {
            assert(forall|k: int|
                0 <= k && k + sub@.len() <= s@.len() ==> #[trigger] s@.subrange(
                    k,
                    k + sub@.len(),
                ) != sub@);
            return false;
        }
        i += 1;
    }
}

/// Whether `sub` occurs in `s` first at position `i`: it matches there and
/// nowhere earlier.
pub open spec fn is_first_sub_at(s: Seq<char>, sub: Seq<char>, i: int) -> bool {
    &&& 0 <= i
    &&& i + sub.len() <= s.len()
    &&& s.subrange(i, i + sub.len()) == sub
    &&& forall|k: int| 0 <= k < i ==> #[trigger] s.subrange(k, k + sub.len()) != sub
}

/// The first position where `sub` occurs in `s`, if any.
pub fn find_sub(s: &[char], sub: &[char]) -> (r: Option<usize>)
    ensures
        match r {
            Some(i) => is_first_sub_at(s@, sub@, i as int),
            None => !has_sub(s@, sub@),
        },
{
    if sub.len() > s.len() {
        assert(!has_sub(s@, sub@));
        return None;
    }
    let mut i: usize = 0;
    let last: usize = s.len() - sub.len();
    loop
        invariant
            0 <= i <= last,
            last == s@.len() - sub@.len(),
            forall|k: int|
                0 <= k < i ==> #[trigger] s@.subrange(k, k + sub@.len()) != sub@,
        decreases last - i,
    {
        if matches_at(s, i, sub) {
            return Some(i);
        }
        if i == last {
            assert(forall|k: int|
                0 <= k && k + sub@.len() <= s@.len() ==> #[trigger] s@.subrange(
                    k,
                    k + sub@.len(),
                ) != sub@);
            return None;
        }
        i += 1;
    }
}

/// First position of `c` in `s`, if any.
pub fn find_char(s: &[char], c: char) -> (r: Option<usize>)
    ensures
        match r {
            Some(i) => i < s@.len() && s@[i as int] == c && forall|j: int|
                0 <= j < i ==> s@[j] != c,
            None => !s@.contains(c),
        },
{
    let mut i: usize = 0;
    while i < s.len()
        invariant
            0 <= i <= s@.len(),
            forall|j: int| 0 <= j < i ==> s@[j] != c,
        decreases s@.len() - i,
    {
        if s[i] == c {
            return Some(i);
        }
        i += 1;
    }
    None
}

/// The characters of a string slice, one `char` at a time.
pub fn chars_of(s: &str) -> (r: Vec<char>)
    ensures
        r@ == s@,
{
    let n = s.unicode_len();
    let mut r: Vec<char> = Vec::new();
    let mut i: usize = 0;
    while i < n
        invariant
            0 <= i <= n,
            n == s@.len(),
            r@ == s@.take(i as int),
        decreases n - i,
    {
        let c = s.get_char(i);
        r.push(c);
        assert(r@ =~= s@.take(i + 1));
        i += 1;
    }
    assert(r@ =~= s@);
    r
}

/// Relies on `String::push`: appends exactly one character.
#[verifier::external_body]
fn push_char(s: &mut String, c: char)
    ensures
        final(s)@ == old(s)@.push(c),
{
    s.push(c);
}

/// A `String` with exactly the given characters.
pub fn string_of(cs: &[char]) -> (r: String)
    ensures
        r@ == cs@,
{
    let mut r = String::new();
    let mut i: usize = 0;
    while i < cs.len()
        invariant
            0 <= i <= cs@.len(),
            r@ == cs@.take(i as int),
        decreases cs@.len() - i,
    {
        push_char(&mut r, cs[i]);
        assert(r@ =~= cs@.take(i + 1));
        i += 1;
    }
    assert(r@ =~= cs@);
    r
}

/// A copy of a character slice as a vector.
pub fn chars_vec(cs: &[char]) -> (r: Vec<char>)
    ensures
        r@ == cs@,
{
    let mut r: Vec<char> = Vec::new();
    let mut i: usize = 0;
    while i < cs.len()
        invariant
            0 <= i <= cs@.len(),
            r@ == cs@.take(i as int),
        decreases cs@.len() - i,
    {
        r.push(cs[i]);
        assert(r@ =~= cs@.take(i + 1));
        i += 1;
    }
    assert(r@ =~= cs@);
    r
}

/// The concatenation of two character vectors.
pub fn concat_chars(a: &[char], b: &[char]) -> (r: Vec<char>)
    ensures
        r@ == a@ + b@,
{
    let mut r = chars_vec(a);
    let mut i: usize = 0;
    while i < b.len()
        invariant
            0 <= i <= b@.len(),
            r@ == a@ + b@.take(i as int),
        decreases b@.len() - i,
    {
        r.push(b[i]);
        assert(r@ =~= a@ + b@.take(i + 1));
        i += 1;
    }
    assert(r@ =~= a@ + b@);
    r
}

/// The views of a sequence of character vectors.
pub open spec fn views_of(vs: Seq<Vec<char>>) -> Seq<Seq<char>> {
    vs.map_values(|v: Vec<char>| v@)
}

/// A delimiter for splitting: one character, or any ASCII whitespace.
#[derive(Clone, Copy)]
pub enum Delim {
    Char(char),
    AsciiWs,
}

/// Whether `c` is ASCII whitespace (space, tab, newline, carriage return,
/// form feed), as `char::is_ascii_whitespace` defines it.
pub open spec fn is_ascii_ws(c: char) -> bool {
    c == ' ' || c == '\t' || c == '\n' || c == '\r' || c == '\u{0C}'
}

impl Delim {
    /// Whether `c` is a delimiter under `self`.
    pub open spec fn matches_spec(self, c: char) -> bool {
        match self {
            Delim::Char(d) => c == d,
            Delim::AsciiWs => is_ascii_ws(c),
        }
    }

    /// Executable delimiter test.
    pub fn matches(&self, c: char) -> (r: bool)
        ensures
            r == self.matches_spec(c),
    {
        match self {
            Delim::Char(d) => *d == c,
            Delim::AsciiWs => c == ' ' || c == '\t' || c == '\n' || c == '\r' || c == '\u{0C}',
        }
    }
}

/// The pieces of `s` between delimiter occurrences.  Splitting the empty
/// sequence gives one empty piece, as `str::split` does.
pub open spec fn spec_split_d(s: Seq<char>, d: Delim) -> Seq<Seq<char>>
    decreases s.len(),
{
    if s.len() == 0 {
        seq![Seq::<char>::empty()]
    } else if d.matches_spec(s[0]) {
        seq![Seq::<char>::empty()] + spec_split_d(s.drop_first(), d)
    } else {
        let rest = spec_split_d(s.drop_first(), d);
        seq![seq![s[0]] + rest[0]] + rest.skip(1)
    }
}

/// The pieces of `s` between occurrences of the character `c`.
pub open spec fn spec_split(s: Seq<char>, c: char) -> Seq<Seq<char>> {
    spec_split_d(s, Delim::Char(c))
}

pub proof fn lemma_split_d_len(s: Seq<char>, d: Delim)
    ensures
        spec_split_d(s, d).len() >= 1,
    decreases s.len(),
{
    if s.len() == 0 {
    } else if d.matches_spec(s[0]) {
        lemma_split_d_len(s.drop_first(), d);
    } else {
        lemma_split_d_len(s.drop_first(), d);
    }
}

/// `ss` with `p` prepended to its first piece.
pub open spec fn prepend_first(p: Seq<char>, ss: Seq<Seq<char>>) -> Seq<Seq<char>>
    recommends
        ss.len() >= 1,
{
    seq![p + ss[0]] + ss.skip(1)
}

/// Split `s` at every delimiter occurrence.
pub fn split_delim(s: &[char], d: Delim) -> (r: Vec<Vec<char>>)
    ensures
        views_of(r@) == spec_split_d(s@, d),
{
    let mut done: Vec<Vec<char>> = Vec::new();
    let mut cur: Vec<char> = Vec::new();
    let mut i: usize = 0;
    proof {
        assert(s@.skip(0) =~= s@);
    }
    while i < s.len()
        invariant
            0 <= i <= s@.len(),
            spec_split_d(s@, d) =~~= views_of(done@) + prepend_first(
                cur@,
                spec_split_d(s@.skip(i as int), d),
            ),
        decreases s@.len() - i,
    {
        proof {
            assert(s@.skip(i as int).drop_first() =~= s@.skip(i + 1));
            assert(s@.skip(i as int)[0] == s@[i as int]);
            lemma_split_d_len(s@.skip(i + 1), d);
        }
        let ghost rest = spec_split_d(s@.skip(i + 1), d);
        if d.matches(s[i]) {
            proof {
                assert(spec_split_d(s@.skip(i as int), d) =~~= seq![Seq::<char>::empty()]
                    + rest);
                assert(prepend_first(cur@, seq![Seq::<char>::empty()] + rest) =~~= seq![cur@]
                    + rest);
                assert(prepend_first(Seq::<char>::empty(), rest) =~~= rest);
                assert(views_of(done@.push(cur)) =~~= views_of(done@).push(cur@));
                assert(views_of(done@).push(cur@) + rest =~~= views_of(done@) + seq![cur@]
                    + rest);
            }
            done.push(cur);
            cur = Vec::new();
        } else {
            proof {
                assert(spec_split_d(s@.skip(i as int), d) =~~= seq![seq![s@[i as int]] + rest[0]]
                    + rest.skip(1));
                assert(cur@ + (seq![s@[i as int]] + rest[0]) =~= cur@.push(s@[i as int])
                    + rest[0]);
                assert(prepend_first(cur@, spec_split_d(s@.skip(i as int), d)) =~~= prepend_first(
                    cur@.push(s@[i as int]),
                    rest,
                ));
            }
            cur.push(s[i]);
        }
        i += 1;
    }
    proof {
        assert(s@.skip(s@.len() as int) =~= Seq::<char>::empty());
        assert(spec_split_d(Seq::<char>::empty(), d) =~~= seq![Seq::<char>::empty()]);
        assert(prepend_first(cur@, seq![Seq::<char>::empty()]) =~~= seq![cur@]);
        assert(views_of(done@.push(cur)) =~~= views_of(done@) + seq![cur@]);
    }
    done.push(cur);
    done
}

/// Split `s` at every occurrence of the character `c`.
pub fn split_char(s: &[char], c: char) -> (r: Vec<Vec<char>>)
    ensures
        views_of(r@) == spec_split(s@, c),
{
    split_delim(s, Delim::Char(c))
}

/// Split `s` at the first occurrence of `c`, if there is one.
pub fn split_once_char(s: &[char], c: char) -> (r: Option<(Vec<char>, Vec<char>)>)
    ensures
        match r {
            Some(p) => {
                &&& s@.contains(c)
                &&& exists|i: int|
                    0 <= i < s@.len() && s@[i] == c && (forall|j: int| 0 <= j < i ==> s@[j] != c)
                        && p.0@ == s@.take(i) && p.1@ == s@.skip(i + 1)
            },
            None => !s@.contains(c),
        },
{
    let n: usize = s.len();
    match find_char(s, c) {
        Some(i) => {
            assert(i < n);
            let mut left: Vec<char> = Vec::new();
            let mut k: usize = 0;
            while k < i
                invariant
                    0 <= k <= i < s@.len(),
                    left@ == s@.take(k as int),
                decreases i - k,
            {
                left.push(s[k]);
                assert(left@ =~= s@.take(k + 1));
                k += 1;
            }
            let mut right: Vec<char> = Vec::new();
            let mut m: usize = i + 1;
            while m < s.len()
                invariant
                    i + 1 <= m <= s@.len(),
                    right@ == s@.subrange(i + 1, m as int),
                decreases s@.len() - m,
            {
                right.push(s[m]);
                assert(right@ =~= s@.subrange(i + 1, m + 1));
                m += 1;
            }
            assert(right@ =~= s@.skip(i + 1));
            Some((left, right))
        },
        None => None,
    }
}

/// The whitespace-separated words of `s`: split on ASCII whitespace, with
/// empty pieces dropped, as `str::split_ascii_whitespace` does.
pub open spec fn spec_fields(s: Seq<char>) -> Seq<Seq<char>> {
    spec_split_d(s, Delim::AsciiWs).filter(|t: Seq<char>| t.len() > 0)
}

/// The whitespace-separated words of `s`.
pub fn fields_of(s: &[char]) -> (r: Vec<Vec<char>>)
    ensures
        views_of(r@) == spec_fields(s@),
{
    let pieces = split_delim(s, Delim::AsciiWs);
    let ghost all = views_of(pieces@);
    let mut r: Vec<Vec<char>> = Vec::new();
    let mut i: usize = 0;
    proof {
        assert(all.take(0) =~~= Seq::<Seq<char>>::empty());
        reveal_with_fuel(Seq::<_>::filter, 2);
    }
    while i < pieces.len()
        invariant
            0 <= i <= pieces@.len(),
            all == views_of(pieces@),
            all.len() == pieces@.len(),
            views_of(r@) == all.take(i as int).filter(|t: Seq<char>| t.len() > 0),
        decreases pieces@.len() - i,
    {
        proof {
            assert(all.take(i + 1).drop_last() =~~= all.take(i as int));
            assert(all.take(i + 1).last() == pieces@[i as int]@);
            reveal(Seq::<_>::filter);
        }
        if pieces[i].len() > 0 {
            let piece = chars_vec(pieces[i].as_slice());
            proof {
                assert(views_of(r@.push(piece)) =~~= views_of(r@).push(piece@));
            }
            r.push(piece);
        }
        i += 1;
    }
    proof {
        assert(all.take(pieces@.len() as int) =~~= all);
    }
    r
}

/// The pieces of `ss` glued together with `sep` between neighbours.
pub open spec fn spec_join(ss: Seq<Seq<char>>, sep: Seq<char>) -> Seq<char>
    decreases ss.len(),
{
    if ss.len() == 0 {
        Seq::<char>::empty()
    } else if ss.len() == 1 {
        ss[0]
    } else {
        ss[0] + sep + spec_join(ss.skip(1), sep)
    }
}

proof fn lemma_join_step(ss: Seq<Seq<char>>, sep: Seq<char>, i: int)
    requires
        1 <= i < ss.len(),
    ensures
        spec_join(ss.take(i + 1), sep) == spec_join(ss.take(i), sep) + sep + ss[i],
    decreases i,
{
    if i == 1 {
        let t2 = ss.take(2);
        assert(t2.len() == 2);
        assert(t2[0] == ss[0]);
        assert(t2.skip(1) =~~= seq![ss[1]]);
        assert(spec_join(seq![ss[1]], sep) == ss[1]);
        assert(spec_join(t2, sep) == t2[0] + sep + spec_join(t2.skip(1), sep));
        assert(ss.take(1) =~~= seq![ss[0]]);
        assert(spec_join(ss.take(1), sep) == ss[0]);
    } else {
        lemma_join_step(ss.skip(1), sep, i - 1);
        assert(ss.skip(1).take(i) =~~= ss.take(i + 1).skip(1));
        assert(ss.skip(1).take(i - 1) =~~= ss.take(i).skip(1));
        assert(ss.skip(1)[i - 1] == ss[i]);
        assert(spec_join(ss.take(i + 1), sep) == ss[0] + sep + spec_join(ss.take(i + 1).skip(1), sep));
        assert(spec_join(ss.take(i), sep) == ss[0] + sep + spec_join(ss.take(i).skip(1), sep));
        assert((ss[0] + sep + (spec_join(ss.take(i).skip(1), sep) + sep + ss[i])) =~= (ss[0] + sep
            + spec_join(ss.take(i).skip(1), sep)) + sep + ss[i]);
    }
}

/// Glue the pieces together with `sep` between neighbours.
pub fn join_chars(ss: &Vec<Vec<char>>, sep: &[char]) -> (r: Vec<char>)
    ensures
        r@ == spec_join(views_of(ss@), sep@),
{
    let ghost all = views_of(ss@);
    let mut r: Vec<char> = Vec::new();
    let mut i: usize = 0;
    while i < ss.len()
        invariant
            0 <= i <= ss@.len(),
            all == views_of(ss@),
            all.len() == ss@.len(),
            i == 0 ==> r@ == Seq::<char>::empty(),
            i >= 1 ==> r@ == spec_join(all.take(i as int), sep@),
        decreases ss@.len() - i,
    {
        if i > 0 {
            let mut k: usize = 0;
            while k < sep.len()
                invariant
                    0 <= k <= sep@.len(),
                    r@ == spec_join(all.take(i as int), sep@) + sep@.take(k as int),
                decreases sep@.len() - k,
            {
                r.push(sep[k]);
                assert(r@ =~= spec_join(all.take(i as int), sep@) + sep@.take(k + 1));
                k += 1;
            }
            assert(r@ =~= spec_join(all.take(i as int), sep@) + sep@);
        }
        let piece = &ss[i];
        let mut k: usize = 0;
        let ghost base = r@;
        while k < piece.len()
            invariant
                0 <= k <= piece@.len(),
                piece@ == ss@[i as int]@,
                r@ == base + piece@.take(k as int),
            decreases piece@.len() - k,
        {
            r.push(piece[k]);
            assert(r@ =~= base + piece@.take(k + 1));
            k += 1;
        }
        assert(r@ =~= base + all[i as int]);
        proof {
            if i == 0 {
                assert(all.take(1) =~~= seq![all[0]]);
                assert(r@ =~= all[0]);
            } else {
                lemma_join_step(all, sep@, i as int);
            }
        }
        i += 1;
    }
    proof {
        if ss@.len() == 0 {
        } else {
            assert(all.take(ss@.len() as int) =~~= all);
        }
    }
    r
}

/// A join is at least as long as its first piece, and a separator longer
/// when there are two or more pieces.
pub proof fn lemma_join_first_len(ss: Seq<Seq<char>>, sep: Seq<char>)
    requires
        ss.len() >= 1,
    ensures
        spec_join(ss, sep).len() >= ss[0].len(),
        ss.len() >= 2 ==> spec_join(ss, sep).len() >= ss[0].len() + sep.len(),
{
    if ss.len() == 1 {
    } else {
        assert(spec_join(ss, sep) == ss[0] + sep + spec_join(ss.skip(1), sep));
    }
}

/// `s` with every occurrence of `pat` replaced by `rep`, scanning left to
/// right without overlap, as `str::replace` does.  With an empty pattern the
/// input is returned unchanged.
pub open spec fn spec_replace(s: Seq<char>, pat: Seq<char>, rep: Seq<char>) -> Seq<char>
    decreases s.len(),
{
    if pat.len() == 0 || s.len() < pat.len() {
        s
    } else if s.take(pat.len() as int) == pat {
        rep + spec_replace(s.skip(pat.len() as int), pat, rep)
    } else {
        seq![s[0]] + spec_replace(s.skip(1), pat, rep)
    }
}

/// Replace every occurrence of `pat` in `s` by `rep`.
pub fn replace_chars(s: &[char], pat: &[char], rep: &[char]) -> (r: Vec<char>)
    ensures
        r@ == spec_replace(s@, pat@, rep@),
{
    if pat.len() == 0 {
        return chars_vec(s);
    }
    let mut out: Vec<char> = Vec::new();
    let mut i: usize = 0;
    proof {
        assert(s@.skip(0) =~= s@);
    }
    while i < s.len()
        invariant
            0 <= i <= s@.len(),
            pat@.len() > 0,
            spec_replace(s@, pat@, rep@) == out@ + spec_replace(s@.skip(i as int), pat@, rep@),
        decreases s@.len() - i,
    {
        let remaining: usize = s.len() - i;
        if remaining >= pat.len() && matches_at(s, i, pat) {
            proof {
                assert(s@.skip(i as int).take(pat@.len() as int) =~= s@.subrange(
                    i as int,
                    i + pat@.len(),
                ));
                assert(s@.skip(i as int).skip(pat@.len() as int) =~= s@.skip(i + pat@.len()));
            }
            let mut k: usize = 0;
            let ghost base = out@;
            while k < rep.len()
                invariant
                    0 <= k <= rep@.len(),
                    out@ == base + rep@.take(k as int),
                decreases rep@.len() - k,
            {
                out.push(rep[k]);
                assert(out@ =~= base + rep@.take(k + 1));
                k += 1;
            }
            assert(out@ =~= base + rep@);
            i += pat.len();
        } else {
            proof {
                if remaining >= pat.len() {
                    assert(s@.skip(i as int).take(pat@.len() as int) =~= s@.subrange(
                        i as int,
                        i + pat@.len(),
                    ));
                }
                assert(s@.skip(i as int)[0] == s@[i as int]);
                assert(s@.skip(i as int).skip(1) =~= s@.skip(i + 1));
                assert(out@ + (seq![s@[i as int]] + spec_replace(s@.skip(i + 1), pat@, rep@))
                    =~= out@.push(s@[i as int]) + spec_replace(s@.skip(i + 1), pat@, rep@));
            }
            out.push(s[i]);
            i += 1;
        }
    }
    proof {
        assert(s@.skip(s@.len() as int) =~= Seq::<char>::empty());
    }
    out
}

/// Whether `c` is an ASCII decimal digit.
pub open spec fn is_digit_char(c: char) -> bool {
    '0' <= c && c <= '9'
}

/// The numeric value of a digit character.
pub open spec fn digit_val(c: char) -> int {
    c as int - '0' as int
}

/// The value of a digit string read in base ten.
pub open spec fn digits_val(s: Seq<char>) -> int
    decreases s.len(),
{
    if s.len() == 0 {
        0
    } else {
        digits_val(s.drop_last()) * 10 + digit_val(s.last())
    }
}

/// The digit part of a decimal literal: the characters after an optional
/// leading plus sign.
pub open spec fn decimal_digits(s: Seq<char>) -> Seq<char> {
    if s.len() >= 1 && s[0] == '+' {
        s.skip(1)
    } else {
        s
    }
}

/// Whether `s` parses as a `u64` the way `str::parse::<u64>` reads it:
/// an optional leading plus sign, then one or more digits, value in range.
pub open spec fn parseable_u64(s: Seq<char>) -> bool {
    let d = decimal_digits(s);
    d.len() >= 1 && (forall|i: int| 0 <= i < d.len() ==> is_digit_char(#[trigger] d[i]))
        && digits_val(d) <= u64::MAX
}

/// The value `s` parses to.
pub open spec fn parsed_u64(s: Seq<char>) -> int {
    digits_val(decimal_digits(s))
}

proof fn lemma_digits_val_nonneg(s: Seq<char>)
    requires
        forall|i: int| 0 <= i < s.len() ==> is_digit_char(#[trigger] s[i]),
    ensures
        digits_val(s) >= 0,
    decreases s.len(),
{
    if s.len() > 0 {
        assert(forall|i: int|
            0 <= i < s.drop_last().len() ==> is_digit_char(#[trigger] s.drop_last()[i]));
        lemma_digits_val_nonneg(s.drop_last());
    }
}

proof fn lemma_digits_val_take_step(s: Seq<char>, i: int)
    requires
        0 <= i < s.len(),
    ensures
        digits_val(s.take(i + 1)) == digits_val(s.take(i)) * 10 + digit_val(s[i]),
{
    assert(s.take(i + 1).drop_last() =~= s.take(i));
    assert(s.take(i + 1).last() == s[i]);
}

proof fn lemma_digits_val_grows(s: Seq<char>, i: int)
    requires
        forall|k: int| 0 <= k < s.len() ==> is_digit_char(#[trigger] s[k]),
        0 <= i <= s.len(),
    ensures
        digits_val(s) >= digits_val(s.take(i)),
    decreases s.len() - i,
{
    if i == s.len() {
        assert(s.take(i) =~= s);
    } else {
        lemma_digits_val_take_step(s, i);
        assert(forall|k: int| 0 <= k < s.take(i).len() ==> is_digit_char(#[trigger] s.take(i)[k]));
        lemma_digits_val_nonneg(s.take(i));
        lemma_digits_val_grows(s, i + 1);
    }
}

/// Parse a `u64` from characters, as `str::parse::<u64>` would.
pub fn parse_u64(s: &[char]) -> (r: Option<u64>)
    ensures
        match r {
            Some(v) => parseable_u64(s@) && v == parsed_u64(s@),
            None => !parseable_u64(s@),
        },
{
    let start: usize = if s.len() >= 1 && s[0] == '+' {
        1
    } else {
        0
    };
    let ghost d = decimal_digits(s@);
    proof {
        assert(d =~= s@.skip(start as int));
    }
    if s.len() == start {
        return None;
    }
    let mut acc: u64 = 0;
    let mut i: usize = start;
    proof {
        assert(d.take(0) =~= Seq::<char>::empty());
    }
    while i < s.len()
        invariant
            start <= i <= s@.len(),
            d == decimal_digits(s@),
            d == s@.skip(start as int),
            d.len() == s@.len() - start,
            forall|k: int| 0 <= k < i - start ==> is_digit_char(#[trigger] d[k]),
            acc == digits_val(d.take(i - start)),
        decreases s@.len() - i,
    {
        let c = s[i];
        if !('0' <= c && c <= '9') {
            assert(!is_digit_char(d[i - start]));
            return None;
        }
        let dv: u64 = (c as u32 as u64) - ('0' as u32 as u64);
        assert(dv == digit_val(c));
        assert(d[i - start] == c);
        proof {
            lemma_digits_val_take_step(d, i - start);
        }
        if acc > (u64::MAX - dv) / 10 {
            proof {
                let m = u64::MAX as int - dv;
                assert(m == (m / 10) * 10 + m % 10);
                assert(acc * 10 + dv > u64::MAX);
                assert(digits_val(d.take(i - start + 1)) > u64::MAX);
                if parseable_u64(s@) {
                    lemma_digits_val_grows(d, i - start + 1);
                    assert(false);
                }
            }
            return None;
        }
        acc = acc * 10 + dv;
        i += 1;
    }
    proof {
        assert(d.take(d.len() as int) =~= d);
        assert(forall|k: int| 0 <= k < d.len() ==> is_digit_char(#[trigger] d[k]));
    }
    Some(acc)
}

} // verus!

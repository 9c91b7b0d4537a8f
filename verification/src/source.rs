//! Normalization of configured repository entries: transport detection,
//! flat-layout detection, the distribution path, the release-file URL, and
//! the `signed-by` / `trusted` options.
use vstd::prelude::*;

use crate::chars::{
    chars_of, concat_chars, fields_of, has_prefix, spec_fields, starts_with_chars, string_of,
};
use crate::inrelease::strs_view;
use crate::refresh::RefreshError;

verus! {

/// The transport a source entry uses.
#[derive(PartialEq, Eq, Structural, Debug, Clone, Copy)]
pub enum OmaSourceEntryFrom {
    Http,
    Local,
}

/// A configured source entry as read from the sources list: plain values
/// only.
pub struct SourceEntryData {
    pub url: String,
    pub suite: String,
    pub components: Vec<String>,
    pub options: Option<String>,
}

/// A normalized source entry.
pub struct OmaSourceEntry {
    pub from: OmaSourceEntryFrom,
    pub components: Vec<String>,
    pub url: String,
    pub suite: String,
    pub inrelease_path: String,
    pub dist_path: String,
    pub is_flat: bool,
    pub signed_by: Option<String>,
    pub trusted: bool,
}

/// Whether a URL names an HTTP transport.
pub open spec fn spec_is_http(u: Seq<char>) -> bool {
    has_prefix(u, "http://"@) || has_prefix(u, "https://"@)
}

/// Whether a URL names a local-file transport.
pub open spec fn spec_is_local(u: Seq<char>) -> bool {
    has_prefix(u, "file://"@)
}

/// The first `signed-by=` value among the whitespace-separated option
/// words.
pub open spec fn spec_signed_by(words: Seq<Seq<char>>) -> Option<Seq<char>>
    decreases words.len(),
{
    if words.len() == 0 {
        None
    } else if has_prefix(words[0], "signed-by="@) {
        Some(words[0].skip("signed-by="@.len() as int))
    } else {
        spec_signed_by(words.drop_first())
    }
}

/// Whether the option words mark the entry as trusted.
pub open spec fn spec_trusted(words: Seq<Seq<char>>) -> bool {
    words.contains("trusted=yes"@)
}

/// The view of an optional string.
pub open spec fn opt_str_view(o: Option<String>) -> Option<Seq<char>> {
    match o {
        Some(s) => Some(s@),
        None => None,
    }
}

/// The option words of an entry.
pub open spec fn spec_option_words(data: &SourceEntryData) -> Seq<Seq<char>> {
    match data.options {
        Some(ref o) => spec_fields(o@),
        None => Seq::empty(),
    }
}

/// Whether an entry was rejected rightly: its URL names no supported
/// transport, or it has neither components nor the flat marker.
pub open spec fn spec_entry_rejected(data: &SourceEntryData) -> bool {
    ||| !(spec_is_http(data.url@) || spec_is_local(data.url@))
    ||| (data.components@.len() == 0 && data.suite@ != "/"@)
}

/// Whether a normalized entry is the right one for its configuration.
pub open spec fn spec_entry_wf(e: &OmaSourceEntry, data: &SourceEntryData) -> bool {
    &&& e.url@ == data.url@
    &&& e.suite@ == data.suite@
    &&& strs_view(e.components@) == strs_view(data.components@)
    &&& e.is_flat == (data.components@.len() == 0 && data.suite@ == "/"@)
    &&& e.from == (if spec_is_http(data.url@) {
        OmaSourceEntryFrom::Http
    } else {
        OmaSourceEntryFrom::Local
    })
    &&& (spec_is_http(data.url@) || spec_is_local(data.url@))
    &&& e.dist_path@ == (if e.is_flat {
        data.url@
    } else {
        data.url@ + "/dists/"@ + data.suite@
    })
    &&& e.inrelease_path@ == (if e.is_flat {
        data.url@ + "/Release"@
    } else {
        data.url@ + "/dists/"@ + data.suite@ + "/InRelease"@
    })
    &&& opt_str_view(e.signed_by) == spec_signed_by(spec_option_words(data))
    &&& e.trusted == spec_trusted(spec_option_words(data))
}

impl OmaSourceEntry {
    /// Normalize one configured entry; entries with an unsupported
    /// transport, or with neither components nor the flat `/` suite, are
    /// rejected.
    pub fn new(v: &SourceEntryData) -> (r: Result<OmaSourceEntry, RefreshError>)
        ensures
            match r {
                Ok(e) => spec_entry_wf(&e, v) && !spec_entry_rejected(v),
                Err(_) => spec_entry_rejected(v),
            },
    {
        let url_c = chars_of(v.url.as_str());
        let http = chars_of("http://");
        let https = chars_of("https://");
        let file = chars_of("file://");
        let is_http = starts_with_chars(url_c.as_slice(), http.as_slice()) || starts_with_chars(
            url_c.as_slice(),
            https.as_slice(),
        );
        let is_local = starts_with_chars(url_c.as_slice(), file.as_slice());
        if !is_http && !is_local {
            return Err(RefreshError::UnsupportedProtocol(string_of(url_c.as_slice())));
        }
        let from = if is_http {
            OmaSourceEntryFrom::Http
        } else {
            OmaSourceEntryFrom::Local
        };
        let suite_c = chars_of(v.suite.as_str());
        let slash = chars_of("/");
        let is_flat = v.components.len() == 0 && crate::chars::slice_eq(
            suite_c.as_slice(),
            slash.as_slice(),
        );
        if !is_flat && v.components.len() == 0 {
            return Err(RefreshError::UnsupportedProtocol(string_of(url_c.as_slice())));
        }
        let dist_path: String = if is_flat {
            string_of(url_c.as_slice())
        } else {
            let dists = chars_of("/dists/");
            let a = concat_chars(url_c.as_slice(), dists.as_slice());
            let b = concat_chars(a.as_slice(), suite_c.as_slice());
            string_of(b.as_slice())
        };
        let inrelease_path: String = if is_flat {
            let tail = chars_of("/Release");
            let a = concat_chars(url_c.as_slice(), tail.as_slice());
            string_of(a.as_slice())
        } else {
            let dp = chars_of(dist_path.as_str());
            let tail = chars_of("/InRelease");
            let a = concat_chars(dp.as_slice(), tail.as_slice());
            string_of(a.as_slice())
        };

        // options: signed-by=PATH and trusted=yes
        let mut signed_by: Option<String> = None;
        let mut trusted: bool = false;
        let ghost words = spec_option_words(v);
        match v.options {
            Some(ref opts) => {
                let oc = chars_of(opts.as_str());
                let toks = fields_of(oc.as_slice());
                let prefix = chars_of("signed-by=");
                let trusted_lit = chars_of("trusted=yes");
                let mut i: usize = 0;
                proof {
                    reveal_strlit("signed-by=");
                    assert(words.skip(0) =~~= words);
                }
                while i < toks.len()
                    invariant
                        0 <= i <= toks@.len(),
                        words == spec_option_words(v),
                        crate::chars::views_of(toks@) == words,
                        words.len() == toks@.len(),
                        prefix@ == "signed-by="@,
                        prefix@.len() == 10,
                        trusted_lit@ == "trusted=yes"@,
                        spec_signed_by(words) == (match opt_str_view(signed_by) {
                            Some(s) => Some(s),
                            None => spec_signed_by(words.skip(i as int)),
                        }),
                        trusted == words.take(i as int).contains("trusted=yes"@),
                    decreases toks@.len() - i,
                {
                    proof {
                        assert(words.skip(i as int)[0] == words[i as int]);
                        assert(words.skip(i as int).drop_first() =~~= words.skip(i + 1));
                    }
                    let tok = toks[i].as_slice();
                    assert(tok@ == words[i as int]);
                    if signed_by.is_none() && starts_with_chars(tok, prefix.as_slice()) {
                        let mut val: Vec<char> = Vec::new();
                        let mut m: usize = 10;
                        while m < tok.len()
                            invariant
                                10 <= m <= tok@.len(),
                                tok@.len() >= 10,
                                tok@ == words[i as int],
                                val@ == tok@.subrange(10, m as int),
                            decreases tok@.len() - m,
                        {
                            val.push(tok[m]);
                            assert(val@ =~= tok@.subrange(10, m + 1));
                            m += 1;
                        }
                        proof {
                            assert(val@ =~= words[i as int].skip(10));
                            assert(spec_signed_by(words.skip(i as int)) == Some(
                                words[i as int].skip(10),
                            ));
                        }
                        signed_by = Some(string_of(val.as_slice()));
                    }
                    let is_trusted_tok = crate::chars::slice_eq(tok, trusted_lit.as_slice());
                    proof {
                        let lit = "trusted=yes"@;
                        if trusted {
                            let k = choose|k: int|
                                0 <= k < words.take(i as int).len() && words.take(i as int)[k]
                                    == lit;
                            assert(words.take(i + 1)[k] == lit);
                            assert(words.take(i + 1).contains(lit));
                        } else if is_trusted_tok {
                            assert(words.take(i + 1)[i as int] == lit);
                            assert(words.take(i + 1).contains(lit));
                        } else {
                            assert forall|k: int|
                                0 <= k < i + 1 implies #[trigger] words.take(i + 1)[k] != lit by {
                                if k < i {
                                    assert(words.take(i as int)[k] == words.take(i + 1)[k]);
                                    assert(!words.take(i as int).contains(lit));
                                }
                            }
                            assert(!words.take(i + 1).contains(lit));
                        }
                    }
                    if is_trusted_tok {
                        trusted = true;
                    }
                    i += 1;
                }
                proof {
                    assert(words.skip(words.len() as int) =~~= Seq::<Seq<char>>::empty());
                    assert(words.take(words.len() as int) =~~= words);
                }
            },
            None => {
                proof {
                    assert(words =~~= Seq::<Seq<char>>::empty());
                }
            },
        }

        let mut components: Vec<String> = Vec::new();
        let mut k: usize = 0;
        while k < v.components.len()
            invariant
                0 <= k <= v.components@.len(),
                strs_view(components@) == strs_view(v.components@).take(k as int),
            decreases v.components@.len() - k,
        {
            let c = crate::control::copy_string(&v.components[k]);
            proof {
                assert(strs_view(components@.push(c)) =~~= strs_view(components@).push(c@));
                assert(strs_view(v.components@).take(k + 1) =~~= strs_view(
                    v.components@,
                ).take(k as int).push(strs_view(v.components@)[k as int]));
            }
            components.push(c);
            k += 1;
        }
        proof {
            assert(strs_view(v.components@).take(v.components@.len() as int) =~~= strs_view(
                v.components@,
            ));
        }

        Ok(OmaSourceEntry {
            from,
            components,
            url: string_of(url_c.as_slice()),
            suite: string_of(suite_c.as_slice()),
            inrelease_path,
            dist_path,
            is_flat,
            signed_by,
            trusted,
        })
    }
}

/// The index of the first word at or after `i` that ends with a closing
/// bracket.
pub open spec fn spec_find_close(words: Seq<Seq<char>>, i: int) -> Option<int>
    decreases words.len() - i,
{
    if i < 0 || i >= words.len() {
        None
    } else if words[i].len() > 0 && words[i].last() == ']' {
        Some(i)
    } else {
        spec_find_close(words, i + 1)
    }
}

proof fn lemma_find_close_props(words: Seq<Seq<char>>, i: int, j: int)
    requires
        spec_find_close(words, i) == Some(j),
    ensures
        i <= j < words.len(),
        words[j].len() > 0 && words[j].last() == ']',
    decreases words.len() - i,
{
    if i < 0 || i >= words.len() {
    } else if words[i].len() > 0 && words[i].last() == ']' {
    } else {
        lemma_find_close_props(words, i + 1, j);
    }
}

/// Find the first word at or after `i` that ends with a closing bracket.
fn find_close_from(words: &Vec<Vec<char>>, i: usize) -> (r: Option<usize>)
    ensures
        match r {
            Some(j) => i <= j < words@.len() && spec_find_close(
                crate::chars::views_of(words@),
                i as int,
            ) == Some(j as int),
            None => spec_find_close(crate::chars::views_of(words@), i as int) is None,
        },
    decreases words@.len() - i,
{
    if i >= words.len() {
        return None;
    }
    let w = words[i].as_slice();
    proof {
        assert(crate::chars::views_of(words@)[i as int] == words@[i as int]@);
    }
    if w.len() > 0 && w[w.len() - 1] == ']' {
        assert(crate::chars::views_of(words@)[i as int].last() == ']');
        Some(i)
    } else {
        assert(!(crate::chars::views_of(words@)[i as int].len() > 0 && crate::chars::views_of(
            words@,
        )[i as int].last() == ']'));
        find_close_from(words, i + 1)
    }
}

/// A configured line, parsed: URL, suite, components, and the option text
/// between brackets.
pub open spec fn spec_parse_source_line(l: Seq<char>) -> Option<
    (Seq<char>, Seq<char>, Seq<Seq<char>>, Option<Seq<char>>),
> {
    let words = spec_fields(l);
    if words.len() == 0 || (words[0].len() > 0 && words[0][0] == '#') {
        None
    } else if words[0] != "deb"@ {
        None
    } else if words.len() >= 2 && words[1].len() > 0 && words[1][0] == '[' {
        match spec_find_close(words, 1) {
            None => None,
            Some(j) => if words.len() >= j + 3 {
                let opt_text = crate::chars::spec_join(words.subrange(1, j + 1), seq![' ']);
                Some(
                    (
                        words[j + 1],
                        words[j + 2],
                        words.skip(j + 3),
                        Some(opt_text.subrange(1, opt_text.len() - 1)),
                    ),
                )
            } else {
                None
            },
        }
    } else if words.len() >= 3 {
        Some((words[1], words[2], words.skip(3), None))
    } else {
        None
    }
}

/// Parse one line of a sources list: `deb [options] url suite components`.
/// Comments, blank lines, lines of another type and malformed lines give
/// nothing.
pub fn parse_source_line(line: &str) -> (r: Option<SourceEntryData>)
    ensures
        match r {
            Some(d) => spec_parse_source_line(line@) matches Some(p) && d.url@ == p.0
                && d.suite@ == p.1 && strs_view(d.components@) == p.2 && opt_str_view(d.options)
                == p.3,
            None => spec_parse_source_line(line@) is None,
        },
{
    let lc = chars_of(line);
    let words = fields_of(lc.as_slice());
    let ghost wv = spec_fields(line@);
    proof {
        assert(crate::chars::views_of(words@) == wv);
    }
    if words.len() == 0 {
        return None;
    }
    if words[0].len() > 0 && words[0][0] == '#' {
        assert(wv[0][0] == '#');
        return None;
    }
    let deb = chars_of("deb");
    proof {
        reveal_strlit("deb");
        assert(wv[0] == words@[0]@);
    }
    if !crate::chars::slice_eq(words[0].as_slice(), deb.as_slice()) {
        return None;
    }
    assert(wv[0] == "deb"@);
    assert(wv[0][0] != '#');
    let bracketed = words.len() >= 2 && words[1].len() > 0 && words[1][0] == '[';
    proof {
        if words@.len() >= 2 {
            assert(wv[1] == words@[1]@);
        }
    }
    let start: usize;
    let options: Option<String>;
    if bracketed {
        // find the closing bracket
        let j: usize = match find_close_from(&words, 1) {
            Some(j) => j,
            None => {
                return None;
            },
        };
        let wl: usize = words.len();
        assert(j < wl);
        if wl < 3 || j > wl - 3 {
            assert(wv.len() < j + 3);
            return None;
        }
        assert(wv.len() >= j + 3);
        // join the bracketed words and strip the brackets
        let mut opt_words: Vec<Vec<char>> = Vec::new();
        let mut m: usize = 1;
        proof {
            assert(crate::chars::views_of(opt_words@) =~~= wv.subrange(1, 1));
        }
        while m <= j
            invariant
                1 <= m <= j + 1,
                j + 1 <= wv.len(),
                j < wl,
                wl == words@.len(),
                wv == spec_fields(line@),
                crate::chars::views_of(words@) == wv,
                wv.len() == words@.len(),
                crate::chars::views_of(opt_words@) == wv.subrange(1, m as int),
            decreases j + 1 - m,
        {
            let w = crate::chars::chars_vec(words[m].as_slice());
            proof {
                assert(crate::chars::views_of(opt_words@.push(w)) =~~= crate::chars::views_of(
                    opt_words@,
                ).push(wv[m as int]));
                assert(wv.subrange(1, m as int).push(wv[m as int]) =~~= wv.subrange(1, m + 1));
            }
            opt_words.push(w);
            m += 1;
        }
        let sep: [char; 1] = [' '];
        assert(sep@ =~= seq![' ']);
        let joined = crate::chars::join_chars(&opt_words, sep.as_slice());
        let ghost opt_text = crate::chars::spec_join(wv.subrange(1, j + 1), seq![' ']);
        proof {
            assert(joined@ == opt_text);
        }
        // the first word starts with '[' and the last ends with ']', so the
        // joined text has at least two characters
        proof {
            let sub = wv.subrange(1, j + 1);
            assert(sub[0] == wv[1]);
            assert(sub.len() == j as int);
            crate::chars::lemma_join_first_len(sub, seq![' ']);
            assert(wv[1].len() > 0 && wv[1][0] == '[');
            if j == 1 {
                assert(sub =~~= seq![wv[1]]);
                assert(opt_text == wv[1]);
                lemma_find_close_props(wv, 1, 1);
                assert(wv[1].last() == ']');
                assert(wv[1].len() >= 2) by {
                    if wv[1].len() == 1 {
                        assert(wv[1].last() == wv[1][0]);
                    }
                }
            } else {
                assert(opt_text.len() >= wv[1].len() + 1);
            }
            assert(opt_text.len() >= 2);
        }
        let mut inner: Vec<char> = Vec::new();
        let mut t: usize = 1;
        let jl: usize = joined.len();
        assert(jl >= 2);
        while t < jl - 1
            invariant
                1 <= t <= jl - 1,
                jl == joined@.len(),
                jl >= 2,
                inner@ == joined@.subrange(1, t as int),
            decreases jl - 1 - t,
        {
            inner.push(joined[t]);
            assert(inner@ =~= joined@.subrange(1, t + 1));
            t += 1;
        }
        proof {
            assert(inner@ =~= opt_text.subrange(1, opt_text.len() - 1));
        }
        options = Some(string_of(inner.as_slice()));
        start = j + 1;
    } else {
        if words.len() < 3 {
            return None;
        }
        options = None;
        start = 1;
    }
    let url = string_of(words[start].as_slice());
    let suite = string_of(words[start + 1].as_slice());
    let mut components: Vec<String> = Vec::new();
    let mut k: usize = start + 2;
    proof {
        assert(strs_view(components@) =~~= wv.subrange(start + 2, start + 2));
    }
    while k < words.len()
        invariant
            start + 2 <= k <= words@.len(),
            wv == spec_fields(line@),
            crate::chars::views_of(words@) == wv,
            wv.len() == words@.len(),
            strs_view(components@) == wv.subrange(start + 2, k as int),
        decreases words@.len() - k,
    {
        let c = string_of(words[k].as_slice());
        proof {
            assert(strs_view(components@.push(c)) =~~= strs_view(components@).push(
                wv[k as int],
            ));
            assert(wv.subrange(start + 2, k as int).push(wv[k as int]) =~~= wv.subrange(
                start + 2,
                k + 1,
            ));
        }
        components.push(c);
        k += 1;
    }
    proof {
        assert(wv.subrange(start + 2, wv.len() as int) =~~= wv.skip(start + 2));
    }
    Some(SourceEntryData { url, suite, components, options })
}

/// Normalize a whole list of entries, stopping at the first rejected one.
pub fn hr_sources(sources: &[SourceEntryData]) -> (r: Result<Vec<OmaSourceEntry>, RefreshError>)
    ensures
        match r {
            Ok(es) => es@.len() == sources@.len() && forall|i: int|
                0 <= i < es@.len() ==> spec_entry_wf(&es@[i], &sources@[i]),
            Err(_) => exists|i: int| 0 <= i < sources@.len() && spec_entry_rejected(&sources@[i]),
        },
{
    let mut res: Vec<OmaSourceEntry> = Vec::new();
    let mut i: usize = 0;
    while i < sources.len()
        invariant
            0 <= i <= sources@.len(),
            res@.len() == i,
            forall|k: int| 0 <= k < i ==> spec_entry_wf(&res@[k], &sources@[k]),
        decreases sources@.len() - i,
    {
        match OmaSourceEntry::new(&sources[i]) {
            Ok(e) => {
                res.push(e);
            },
            Err(e) => {
                return Err(e);
            },
        }
        i += 1;
    }
    Ok(res)
}

} // verus!

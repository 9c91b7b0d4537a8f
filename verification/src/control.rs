//! Parser for the RFC 822-style control format of release documents:
//! paragraphs separated by blank lines, `Field-Name: value` lines, and
//! continuation lines indented by one whitespace character.  A multi-line
//! field's value is the newline-joined concatenation of its continuation
//! lines; a single-line value is trimmed.
use vstd::prelude::*;

use crate::chars::{chars_of, chars_vec, is_ascii_ws, spec_split, split_char, string_of};
use crate::date::first_index;

verus! {

/// One `Name: value` field of a paragraph.
pub struct Field {
    pub name: String,
    pub value: String,
}

impl View for Field {
    type V = (Seq<char>, Seq<char>);

    open spec fn view(&self) -> (Seq<char>, Seq<char>) {
        (self.name@, self.value@)
    }
}

/// The views of a sequence of fields.
pub open spec fn fields_view(fs: Seq<Field>) -> Seq<(Seq<char>, Seq<char>)> {
    fs.map_values(|f: Field| f@)
}

/// One paragraph: its fields in order.
pub struct Paragraph {
    pub fields: Vec<Field>,
}

impl View for Paragraph {
    type V = Seq<(Seq<char>, Seq<char>)>;

    open spec fn view(&self) -> Seq<(Seq<char>, Seq<char>)> {
        fields_view(self.fields@)
    }
}

/// The views of a sequence of paragraphs.
pub open spec fn paras_view(ps: Seq<Paragraph>) -> Seq<Seq<(Seq<char>, Seq<char>)>> {
    ps.map_values(|p: Paragraph| p@)
}

/// `s` without leading ASCII whitespace.
pub open spec fn spec_trim_start(s: Seq<char>) -> Seq<char>
    decreases s.len(),
{
    if s.len() > 0 && is_ascii_ws(s[0]) {
        spec_trim_start(s.drop_first())
    } else {
        s
    }
}

/// `s` without trailing ASCII whitespace.
pub open spec fn spec_trim_end(s: Seq<char>) -> Seq<char>
    decreases s.len(),
{
    if s.len() > 0 && is_ascii_ws(s.last()) {
        spec_trim_end(s.drop_last())
    } else {
        s
    }
}

/// `s` without surrounding ASCII whitespace.
pub open spec fn spec_trim(s: Seq<char>) -> Seq<char> {
    spec_trim_end(spec_trim_start(s))
}

/// Trim surrounding ASCII whitespace.
pub fn trim_chars(s: &[char]) -> (r: Vec<char>)
    ensures
        r@ == spec_trim(s@),
{
    let n: usize = s.len();
    let mut start: usize = 0;
    proof {
        assert(s@.skip(0) =~= s@);
    }
    while start < n && (s[start] == ' ' || s[start] == '\t' || s[start] == '\n' || s[start]
        == '\r' || s[start] == '\u{0C}')
        invariant
            0 <= start <= n,
            n == s@.len(),
            spec_trim_start(s@) == spec_trim_start(s@.skip(start as int)),
        decreases n - start,
    {
        proof {
            assert(s@.skip(start as int)[0] == s@[start as int]);
            assert(s@.skip(start as int).drop_first() =~= s@.skip(start + 1));
        }
        start += 1;
    }
    let ghost t = s@.skip(start as int);
    proof {
        if start < n {
            assert(t[0] == s@[start as int]);
            assert(!is_ascii_ws(t[0]));
        }
        assert(spec_trim_start(t) == t);
    }
    let mut end: usize = n;
    proof {
        assert(t.take(n - start) =~= t);
    }
    while end > start && (s[end - 1] == ' ' || s[end - 1] == '\t' || s[end - 1] == '\n' || s[end
        - 1] == '\r' || s[end - 1] == '\u{0C}')
        invariant
            start <= end <= n,
            n == s@.len(),
            t == s@.skip(start as int),
            spec_trim_end(t) == spec_trim_end(t.take(end - start)),
        decreases end,
    {
        proof {
            let k = end - start;
            assert(t.take(k).last() == s@[end - 1]);
            assert(t.take(k).drop_last() =~= t.take(k - 1));
        }
        end -= 1;
    }
    proof {
        let k = end - start;
        if end > start {
            assert(t.take(k).last() == s@[end - 1]);
            assert(!is_ascii_ws(t.take(k).last()));
        }
        assert(spec_trim_end(t.take(k)) == t.take(k));
    }
    let mut r: Vec<char> = Vec::new();
    let mut i: usize = start;
    while i < end
        invariant
            start <= i <= end <= n,
            n == s@.len(),
            r@ == s@.subrange(start as int, i as int),
        decreases end - i,
    {
        r.push(s[i]);
        assert(r@ =~= s@.subrange(start as int, i + 1));
        i += 1;
    }
    proof {
        assert(s@.subrange(start as int, end as int) =~= t.take(end - start));
    }
    r
}

/// A line with one trailing carriage return removed, so that CRLF input
/// parses like LF input.
pub open spec fn strip_cr(l: Seq<char>) -> Seq<char> {
    if l.len() > 0 && l.last() == '\r' {
        l.drop_last()
    } else {
        l
    }
}

/// The logical lines of a document: split on newlines, each stripped of a
/// trailing carriage return.
pub open spec fn spec_lines(s: Seq<char>) -> Seq<Seq<char>> {
    spec_split(s, '\n').map_values(|l: Seq<char>| strip_cr(l))
}

/// Group lines into paragraphs: blank lines separate groups, and groups
/// without any line are dropped.
pub open spec fn spec_group(
    lines: Seq<Seq<char>>,
    cur: Seq<Seq<char>>,
    acc: Seq<Seq<Seq<char>>>,
) -> Seq<Seq<Seq<char>>>
    decreases lines.len(),
{
    if lines.len() == 0 {
        if cur.len() > 0 {
            acc.push(cur)
        } else {
            acc
        }
    } else if lines[0].len() == 0 {
        spec_group(lines.drop_first(), Seq::empty(), if cur.len() > 0 {
            acc.push(cur)
        } else {
            acc
        })
    } else {
        spec_group(lines.drop_first(), cur.push(lines[0]), acc)
    }
}

/// Fold the lines of one paragraph into fields.  A line starting with
/// whitespace continues the previous field, its value gaining a newline
/// and the line with that one whitespace character removed; any other
/// line must hold a colon and starts a new field, name and value trimmed.
/// `None` when a continuation has nothing to continue or a line has no
/// colon.
pub open spec fn spec_para_fields(
    lines: Seq<Seq<char>>,
    acc: Seq<(Seq<char>, Seq<char>)>,
) -> Option<Seq<(Seq<char>, Seq<char>)>>
    decreases lines.len(),
{
    if lines.len() == 0 {
        Some(acc)
    } else {
        let l = lines[0];
        if l.len() > 0 && is_ascii_ws(l[0]) {
            if acc.len() == 0 {
                None
            } else {
                let last = acc.last();
                let updated = acc.update(
                    acc.len() - 1,
                    (last.0, last.1 + seq!['\n'] + l.skip(1)),
                );
                spec_para_fields(lines.drop_first(), updated)
            }
        } else if l.contains(':') {
            let i = first_index(l, ':');
            let name = spec_trim(l.take(i));
            let value = spec_trim(l.skip(i + 1));
            spec_para_fields(lines.drop_first(), acc.push((name, value)))
        } else {
            None
        }
    }
}

/// Fold every paragraph group, failing when any group fails.
pub open spec fn spec_paras(
    groups: Seq<Seq<Seq<char>>>,
    acc: Seq<Seq<(Seq<char>, Seq<char>)>>,
) -> Option<Seq<Seq<(Seq<char>, Seq<char>)>>>
    decreases groups.len(),
{
    if groups.len() == 0 {
        Some(acc)
    } else {
        match spec_para_fields(groups[0], Seq::empty()) {
            Some(f) => spec_paras(groups.drop_first(), acc.push(f)),
            None => None,
        }
    }
}

/// The parse of a whole control document.
pub open spec fn spec_parse_control(s: Seq<char>) -> Option<Seq<Seq<(Seq<char>, Seq<char>)>>> {
    spec_paras(spec_group(spec_lines(s), Seq::empty(), Seq::empty()), Seq::empty())
}

/// The logical lines of a document.
pub fn lines_of(s: &[char]) -> (r: Vec<Vec<char>>)
    ensures
        r@.map_values(|l: Vec<char>| l@) == spec_lines(s@),
{
    let raw = split_char(s, '\n');
    let ghost all = crate::chars::views_of(raw@);
    let mut r: Vec<Vec<char>> = Vec::new();
    let mut i: usize = 0;
    proof {
        assert(r@.map_values(|l: Vec<char>| l@) =~~= all.take(0).map_values(
            |l: Seq<char>| strip_cr(l),
        ));
    }
    while i < raw.len()
        invariant
            0 <= i <= raw@.len(),
            all == crate::chars::views_of(raw@),
            all.len() == raw@.len(),
            r@.map_values(|l: Vec<char>| l@) == all.take(i as int).map_values(
                |l: Seq<char>| strip_cr(l),
            ),
        decreases raw@.len() - i,
    {
        let line = &raw[i];
        let mut stripped: Vec<char>;
        if line.len() > 0 && line[line.len() - 1] == '\r' {
            let mut copy = chars_vec(line.as_slice());
            copy.pop();
            proof {
                assert(copy@ =~= strip_cr(all[i as int]));
            }
            stripped = copy;
        } else {
            stripped = chars_vec(line.as_slice());
            proof {
                assert(stripped@ =~= strip_cr(all[i as int]));
            }
        }
        proof {
            assert(r@.push(stripped).map_values(|l: Vec<char>| l@) =~~= r@.map_values(
                |l: Vec<char>| l@,
            ).push(stripped@));
            assert(all.take(i + 1).map_values(|l: Seq<char>| strip_cr(l)) =~~= all.take(
                i as int,
            ).map_values(|l: Seq<char>| strip_cr(l)).push(strip_cr(all[i as int])));
        }
        r.push(stripped);
        i += 1;
    }
    proof {
        assert(all.take(raw@.len() as int) =~~= all);
    }
    r
}

/// Parse a control document into paragraphs.  `None` marks a syntax error:
/// a continuation line with no field before it, or a line without a colon.
pub fn parse_control(s: &str) -> (r: Option<Vec<Paragraph>>)
    ensures
        match r {
            Some(ps) => spec_parse_control(s@) == Some(paras_view(ps@)),
            None => spec_parse_control(s@) is None,
        },
{
    let cs = chars_of(s);
    let lines = lines_of(cs.as_slice());
    let ghost lv = spec_lines(cs@);

    // group into paragraphs
    let mut groups: Vec<Vec<Vec<char>>> = Vec::new();
    let mut cur: Vec<Vec<char>> = Vec::new();
    let mut i: usize = 0;
    proof {
        assert(lv.skip(0) =~~= lv);
        assert(cur@.map_values(|l: Vec<char>| l@) =~~= Seq::<Seq<char>>::empty());
        assert(groups@.map_values(|g: Vec<Vec<char>>| g@.map_values(|l: Vec<char>| l@))
            =~~= Seq::<Seq<Seq<char>>>::empty());
    }
    while i < lines.len()
        invariant
            0 <= i <= lines@.len(),
            lv == spec_lines(cs@),
            lines@.map_values(|l: Vec<char>| l@) == lv,
            lv.len() == lines@.len(),
            spec_group(lv, Seq::empty(), Seq::empty()) == spec_group(
                lv.skip(i as int),
                cur@.map_values(|l: Vec<char>| l@),
                groups@.map_values(|g: Vec<Vec<char>>| g@.map_values(|l: Vec<char>| l@)),
            ),
        decreases lines@.len() - i,
    {
        proof {
            assert(lv.skip(i as int)[0] == lv[i as int]);
            assert(lv.skip(i as int).drop_first() =~~= lv.skip(i + 1));
        }
        let ghost gv = groups@.map_values(|g: Vec<Vec<char>>| g@.map_values(|l: Vec<char>| l@));
        let ghost cv = cur@.map_values(|l: Vec<char>| l@);
        if lines[i].len() == 0 {
            if cur.len() > 0 {
                proof {
                    assert(groups@.push(cur).map_values(
                        |g: Vec<Vec<char>>| g@.map_values(|l: Vec<char>| l@),
                    ) =~~= gv.push(cv));
                }
                groups.push(cur);
                cur = Vec::new();
                proof {
                    assert(cur@.map_values(|l: Vec<char>| l@) =~~= Seq::<Seq<char>>::empty());
                }
            } else {
                proof {
                    assert(cv.len() == 0);
                }
                cur = Vec::new();
                proof {
                    assert(cur@.map_values(|l: Vec<char>| l@) =~~= Seq::<Seq<char>>::empty());
                }
            }
        } else {
            let line = chars_vec(lines[i].as_slice());
            proof {
                assert(cur@.push(line).map_values(|l: Vec<char>| l@) =~~= cv.push(lv[i as int]));
            }
            cur.push(line);
        }
        i += 1;
    }
    proof {
        assert(lv.skip(lv.len() as int) =~~= Seq::<Seq<char>>::empty());
    }
    if cur.len() > 0 {
        let ghost gv = groups@.map_values(|g: Vec<Vec<char>>| g@.map_values(|l: Vec<char>| l@));
        let ghost cv = cur@.map_values(|l: Vec<char>| l@);
        proof {
            assert(groups@.push(cur).map_values(
                |g: Vec<Vec<char>>| g@.map_values(|l: Vec<char>| l@),
            ) =~~= gv.push(cv));
        }
        groups.push(cur);
    }
    let ghost gs = spec_group(lv, Seq::empty(), Seq::empty());
    proof {
        assert(groups@.map_values(|g: Vec<Vec<char>>| g@.map_values(|l: Vec<char>| l@)) =~~= gs);
    }

    // fold each group into a paragraph
    let mut out: Vec<Paragraph> = Vec::new();
    let mut g: usize = 0;
    proof {
        assert(gs.skip(0) =~~= gs);
        assert(paras_view(out@) =~~= Seq::<Seq<(Seq<char>, Seq<char>)>>::empty());
    }
    while g < groups.len()
        invariant
            0 <= g <= groups@.len(),
            gs == spec_group(spec_lines(s@), Seq::empty(), Seq::empty()),
            groups@.map_values(|gg: Vec<Vec<char>>| gg@.map_values(|l: Vec<char>| l@)) == gs,
            gs.len() == groups@.len(),
            spec_paras(gs, Seq::empty()) == spec_paras(gs.skip(g as int), paras_view(out@)),
        decreases groups@.len() - g,
    {
        proof {
            assert(gs.skip(g as int)[0] == gs[g as int]);
            assert(gs.skip(g as int).drop_first() =~~= gs.skip(g + 1));
        }
        match para_fields(&groups[g]) {
            Some(p) => {
                proof {
                    assert(paras_view(out@.push(p)) =~~= paras_view(out@).push(p@));
                }
                out.push(p);
            },
            None => {
                proof {
                    assert(groups@.map_values(
                        |gg: Vec<Vec<char>>| gg@.map_values(|l: Vec<char>| l@),
                    )[g as int] == gs[g as int]);
                    assert(spec_para_fields(gs[g as int], Seq::empty()) is None);
                    assert(spec_paras(gs.skip(g as int), paras_view(out@)) is None);
                }
                return None;
            },
        }
        g += 1;
    }
    proof {
        assert(gs.skip(gs.len() as int) =~~= Seq::<Seq<Seq<char>>>::empty());
    }
    Some(out)
}

/// Fold the lines of one paragraph into fields.
fn para_fields(lines: &Vec<Vec<char>>) -> (r: Option<Paragraph>)
    ensures
        match r {
            Some(p) => spec_para_fields(
                lines@.map_values(|l: Vec<char>| l@),
                Seq::empty(),
            ) == Some(p@),
            None => spec_para_fields(lines@.map_values(|l: Vec<char>| l@), Seq::empty()) is None,
        },
{
    let ghost lv = lines@.map_values(|l: Vec<char>| l@);
    let mut fields: Vec<Field> = Vec::new();
    let mut i: usize = 0;
    proof {
        assert(lv.skip(0) =~~= lv);
        assert(fields_view(fields@) =~~= Seq::<(Seq<char>, Seq<char>)>::empty());
    }
    while i < lines.len()
        invariant
            0 <= i <= lines@.len(),
            lv == lines@.map_values(|l: Vec<char>| l@),
            lv.len() == lines@.len(),
            spec_para_fields(lv, Seq::empty()) == spec_para_fields(
                lv.skip(i as int),
                fields_view(fields@),
            ),
        decreases lines@.len() - i,
    {
        proof {
            assert(lv.skip(i as int)[0] == lv[i as int]);
            assert(lv.skip(i as int).drop_first() =~~= lv.skip(i + 1));
        }
        let line = lines[i].as_slice();
        let first_ws: bool = if line.len() > 0 {
            let c = line[0];
            c == ' ' || c == '\t' || c == '\n' || c == '\r' || c == '\u{0C}'
        } else {
            false
        };
        if first_ws {
            if fields.len() == 0 {
                return None;
            }
            let k: usize = fields.len() - 1;
            let ghost old_fields = fields@;
            let last_value = chars_of(fields[k].value.as_str());
            let mut appended = last_value;
            appended.push('\n');
            let mut m: usize = 1;
            while m < line.len()
                invariant
                    1 <= m <= line@.len(),
                    line@ == lv[i as int],
                    appended@ == old_fields[k as int]@.1 + seq!['\n'] + line@.subrange(
                        1,
                        m as int,
                    ),
                decreases line@.len() - m,
            {
                appended.push(line[m]);
                assert(appended@ =~= old_fields[k as int]@.1 + seq!['\n'] + line@.subrange(
                    1,
                    m + 1,
                ));
                m += 1;
            }
            proof {
                assert(line@.subrange(1, line@.len() as int) =~= line@.skip(1));
                if line@.len() == 1 {
                    assert(appended@ =~= old_fields[k as int]@.1 + seq!['\n'] + line@.skip(1));
                }
            }
            let new_value = string_of(appended.as_slice());
            let name_copy = copy_string(&fields[k].name);
            let new_field = Field { name: name_copy, value: new_value };
            fields.set(k, new_field);
            proof {
                let lastf = fields_view(old_fields).last();
                assert(fields_view(fields@) =~~= fields_view(old_fields).update(
                    fields_view(old_fields).len() - 1,
                    (lastf.0, lastf.1 + seq!['\n'] + lv[i as int].skip(1)),
                ));
            }
        } else {
            match crate::chars::find_char(line, ':') {
                Some(ci) => {
                    proof {
                        crate::date::lemma_first_index_is(lv[i as int], ':', ci as int);
                    }
                    let mut name_part: Vec<char> = Vec::new();
                    let mut m: usize = 0;
                    while m < ci
                        invariant
                            0 <= m <= ci < line@.len(),
                            line@ == lv[i as int],
                            name_part@ == line@.take(m as int),
                        decreases ci - m,
                    {
                        name_part.push(line[m]);
                        assert(name_part@ =~= line@.take(m + 1));
                        m += 1;
                    }
                    let mut value_part: Vec<char> = Vec::new();
                    let mut v: usize = ci + 1;
                    while v < line.len()
                        invariant
                            ci + 1 <= v <= line@.len(),
                            line@ == lv[i as int],
                            value_part@ == line@.subrange(ci + 1, v as int),
                        decreases line@.len() - v,
                    {
                        value_part.push(line[v]);
                        assert(value_part@ =~= line@.subrange(ci + 1, v + 1));
                        v += 1;
                    }
                    proof {
                        assert(value_part@ =~= line@.skip(ci + 1));
                    }
                    let name = trim_chars(name_part.as_slice());
                    let value = trim_chars(value_part.as_slice());
                    let f = Field {
                        name: string_of(name.as_slice()),
                        value: string_of(value.as_slice()),
                    };
                    proof {
                        assert(fields_view(fields@.push(f)) =~~= fields_view(fields@).push(f@));
                    }
                    fields.push(f);
                },
                None => {
                    return None;
                },
            }
        }
        i += 1;
    }
    proof {
        assert(lv.skip(lv.len() as int) =~~= Seq::<Seq<char>>::empty());
    }
    Some(Paragraph { fields })
}

/// A copy of a string, character for character.
pub fn copy_string(s: &String) -> (r: String)
    ensures
        r@ == s@,
{
    let cs = chars_of(s.as_str());
    string_of(cs.as_slice())
}

/// The value of the first field named `key` in the paragraph, if any.
pub open spec fn spec_get_field(p: Seq<(Seq<char>, Seq<char>)>, key: Seq<char>) -> Option<
    Seq<char>,
>
    decreases p.len(),
{
    if p.len() == 0 {
        None
    } else if p[0].0 == key {
        Some(p[0].1)
    } else {
        spec_get_field(p.drop_first(), key)
    }
}

impl Paragraph {
    /// Look up the first field with the given name.
    pub fn get(&self, key: &str) -> (r: Option<String>)
        ensures
            match r {
                Some(v) => spec_get_field(self@, key@) == Some(v@),
                None => spec_get_field(self@, key@) is None,
            },
    {
        let kc = chars_of(key);
        let mut i: usize = 0;
        proof {
            assert(self@.skip(0) =~~= self@);
        }
        while i < self.fields.len()
            invariant
                0 <= i <= self.fields@.len(),
                kc@ == key@,
                self@.len() == self.fields@.len(),
                spec_get_field(self@, key@) == spec_get_field(self@.skip(i as int), key@),
            decreases self.fields@.len() - i,
        {
            proof {
                assert(self@.skip(i as int)[0] == self@[i as int]);
                assert(self@.skip(i as int).drop_first() =~~= self@.skip(i + 1));
            }
            let nc = chars_of(self.fields[i].name.as_str());
            if crate::chars::slice_eq(nc.as_slice(), kc.as_slice()) {
                let vc = chars_of(self.fields[i].value.as_str());
                return Some(string_of(vc.as_slice()));
            }
            i += 1;
        }
        proof {
            assert(self@.skip(self@.len() as int) =~~= Seq::<(Seq<char>, Seq<char>)>::empty());
        }
        None
    }
}

} // verus!

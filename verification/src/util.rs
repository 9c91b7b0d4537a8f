//! Small shared helpers: human-readable byte counts, the dpkg selection
//! logic, and the checks the command layer asks the library for.
use vstd::prelude::*;

use crate::chars::{
    chars_of, fields_of, spec_fields, spec_split, split_char, string_of, views_of,
};

verus! {

/// A dpkg interaction failure.
#[derive(Debug)]
pub enum DpkgError {
    IOError(String),
    DpkgRunError(i32),
    Utf8Error(String),
    FailedToQueryDpkgDatabase,
}

/// A failure to take the session lock.
#[derive(Debug)]
pub struct LockError {
    pub source: String,
}

impl LockError {
    /// The fixed description a lock failure shows.
    pub fn description(&self) -> (r: String)
        ensures
            r@ == "Failed to lock oma"@,
    {
        let cs = chars_of("Failed to lock oma");
        string_of(cs.as_slice())
    }
}

/// One decimal digit character.
pub open spec fn dec_digit(v: int) -> char {
    crate::checksum::hex_digit(v as u8)
}

/// The decimal rendering of a number.
pub open spec fn spec_dec(n: int) -> Seq<char>
    decreases n,
{
    if n < 10 {
        seq![dec_digit(if n < 0 {
            0
        } else {
            n
        })]
    } else {
        spec_dec(n / 10) + seq![dec_digit(n % 10)]
    }
}

/// Render a number in decimal.
pub fn dec_chars(n: u64) -> (r: Vec<char>)
    ensures
        r@ == spec_dec(n as int),
    decreases n,
{
    if n < 10 {
        let mut r: Vec<char> = Vec::new();
        r.push(crate::checksum::hex_digit_exec(n as u8));
        assert(r@ =~= seq![dec_digit(n as int)]);
        r
    } else {
        let mut r = dec_chars(n / 10);
        r.push(crate::checksum::hex_digit_exec((n % 10) as u8));
        assert(r@ =~= spec_dec(n as int / 10) + seq![dec_digit(n as int % 10)]);
        r
    }
}

/// The binary prefix letter for each power of 1024, from kibi to exbi.
pub open spec fn binary_prefix(k: int) -> Seq<char> {
    if k == 1 {
        seq!['K', 'i']
    } else if k == 2 {
        seq!['M', 'i']
    } else if k == 3 {
        seq!['G', 'i']
    } else if k == 4 {
        seq!['T', 'i']
    } else if k == 5 {
        seq!['P', 'i']
    } else {
        seq!['E', 'i']
    }
}

/// A byte count rendered for human readability with binary prefixes.
/// Below 1024 the count is shown as bytes; above, with two (truncated)
/// fraction digits and the fitting prefix.
#[derive(Debug)]
pub struct HumanBytes(pub u64);

/// The rendering of a byte count: `{n}B` below 1024, else
/// `{q}.{ff} {P}B` where `q` and `ff` come from the value scaled by the
/// fitting power of 1024, the fraction truncated to two digits.
pub open spec fn spec_human_bytes(n: int, unit: int, k: int) -> Seq<char>
    recommends
        unit > 0,
{
    if n < 1024 {
        spec_dec(n) + seq!['B']
    } else {
        let scaled = n * 100 / unit;
        spec_dec(scaled / 100) + seq!['.'] + seq![
            dec_digit(scaled % 100 / 10),
            dec_digit(scaled % 10),
        ] + seq![' '] + binary_prefix(k) + seq!['B']
    }
}

impl HumanBytes {
    /// Render the count.
    pub fn render(&self) -> (r: String)
        ensures
            self.0 < 1024 ==> r@ == spec_dec(self.0 as int) + seq!['B'],
            self.0 >= 1024 ==> exists|k: int|
                1 <= k <= 6 && self.0 >= #[trigger] spec_unit(k) && (k == 6 || self.0
                    < spec_unit(k + 1)) && r@ == spec_human_bytes(
                    self.0 as int,
                    spec_unit(k),
                    k,
                ),
    {
        let n = self.0;
        proof {
            assert(spec_unit(1) == 1024);
            assert(spec_unit(2) == 1024 * 1024);
            assert(spec_unit(3) == 1024 * 1024 * 1024);
            assert(spec_unit(4) == 1024 * 1024 * 1024 * 1024);
            assert(spec_unit(5) == 1024 * 1024 * 1024 * 1024 * 1024);
            assert(spec_unit(6) == 1024 * 1024 * 1024 * 1024 * 1024 * 1024);
        }
        if n < 1024 {
            let mut cs = dec_chars(n);
            cs.push('B');
            proof {
                assert(cs@ =~= spec_dec(n as int) + seq!['B']);
            }
            return string_of(cs.as_slice());
        }
        let u1: u64 = 1024;
        let u2: u64 = u1 * 1024;
        let u3: u64 = u2 * 1024;
        let u4: u64 = u3 * 1024;
        let u5: u64 = u4 * 1024;
        let u6: u64 = u5 * 1024;
        let unit: u64;
        let k: usize;
        if n < u2 {
            unit = u1;
            k = 1;
        } else if n < u3 {
            unit = u2;
            k = 2;
        } else if n < u4 {
            unit = u3;
            k = 3;
        } else if n < u5 {
            unit = u4;
            k = 4;
        } else if n < u6 {
            unit = u5;
            k = 5;
        } else {
            unit = u6;
            k = 6;
        }
        proof {
            let m = n as int;
            let u = unit as int;
            assert((m * 100) / u <= (m * 100) / 1024) by (nonlinear_arith)
                requires
                    u >= 1024,
                    m >= 0,
            ;
            assert(m * 100 <= u64::MAX * 1024) by (nonlinear_arith)
                requires
                    m <= u64::MAX,
            ;
            assert((m * 100) / 1024 <= u64::MAX);
        }
        let scaled128: u128 = (n as u128) * 100 / (unit as u128);
        let scaled: u64 = scaled128 as u64;
        assert(scaled == n as int * 100 / (unit as int));
        let whole: u64 = scaled / 100;
        let f1: u64 = scaled % 100 / 10;
        let f2: u64 = scaled % 10;
        let mut cs = dec_chars(whole);
        cs.push('.');
        cs.push(crate::checksum::hex_digit_exec(f1 as u8));
        cs.push(crate::checksum::hex_digit_exec(f2 as u8));
        cs.push(' ');
        let prefix: [char; 2] = if k == 1 {
            ['K', 'i']
        } else if k == 2 {
            ['M', 'i']
        } else if k == 3 {
            ['G', 'i']
        } else if k == 4 {
            ['T', 'i']
        } else if k == 5 {
            ['P', 'i']
        } else {
            ['E', 'i']
        };
        cs.push(prefix[0]);
        cs.push(prefix[1]);
        cs.push('B');
        proof {
            let m = n as int;
            let u = unit as int;
            let sc = m * 100 / u;
            assert(cs@ =~= spec_dec(sc / 100) + seq!['.'] + seq![
                dec_digit(sc % 100 / 10),
                dec_digit(sc % 10),
            ] + seq![' '] + binary_prefix(k as int) + seq!['B']);
        }
        string_of(cs.as_slice())
    }
}

/// The `k`-th power of 1024.
pub open spec fn spec_unit(k: int) -> int
    decreases k,
{
    if k <= 1 {
        1024
    } else {
        spec_unit(k - 1) * 1024
    }
}

/// Whether there is nothing for a commit to do: no package to install and
/// none to remove.
pub fn is_nothing_to_do(install: usize, remove: usize, fix_broken: bool) -> (r: bool)
    ensures
        r == (install == 0 && remove == 0),
{
    let _ = fix_broken;
    install == 0 && remove == 0
}

/// The characters a search statement may hold.
pub open spec fn spec_stmt_char_ok(c: char) -> bool {
    ('a' <= c && c <= 'z') || ('A' <= c && c <= 'Z') || ('0' <= c && c <= '9') || c == '-' || c
        == '.' || c == ':'
}

/// Whether a search statement holds only expected characters; a statement
/// with anything else deserves a warning.
pub fn check_unsupported_stmt(s: &str) -> (r: bool)
    ensures
        r == (forall|i: int| 0 <= i < s@.len() ==> spec_stmt_char_ok(#[trigger] s@[i])),
{
    let cs = chars_of(s);
    let mut i: usize = 0;
    while i < cs.len()
        invariant
            0 <= i <= cs@.len(),
            cs@ == s@,
            forall|k: int| 0 <= k < i ==> spec_stmt_char_ok(#[trigger] s@[k]),
        decreases cs@.len() - i,
    {
        let c = cs[i];
        if !(('a' <= c && c <= 'z') || ('A' <= c && c <= 'Z') || ('0' <= c && c <= '9') || c
            == '-' || c == '.' || c == ':') {
            assert(!spec_stmt_char_ok(s@[i as int]));
            return false;
        }
        i += 1;
    }
    true
}

/// The number of rows a selection list may take on a terminal of the
/// given height: one row on tiny terminals, the height less the fixed
/// chrome up to a cap of twenty.  A zero height has no sensible answer
/// and is excluded.
pub fn tui_select_list_size(height: u16) -> (r: u16)
    requires
        height > 0,
    ensures
        r == (if height <= 6 {
            1u16
        } else if height <= 25 {
            (height - 6) as u16
        } else {
            20u16
        }),
{
    if height <= 6 {
        1
    } else if height <= 25 {
        height - 6
    } else {
        20
    }
}

/// The warning shown when the dbus check is skipped.
pub fn no_check_dbus_warn() -> (r: String)
    ensures
        r@ == "Will not check dbus: your operation may be interrupted by a suspend or shutdown."@,
{
    let cs = chars_of(
        "Will not check dbus: your operation may be interrupted by a suspend or shutdown.",
    );
    string_of(cs.as_slice())
}

/// One line of `dpkg --get-selections`: a package and its state.
pub open spec fn spec_selection_of_line(l: Seq<char>) -> Option<(Seq<char>, Seq<char>)> {
    let words = spec_fields(l);
    if words.len() >= 2 {
        Some((words[0], words[1]))
    } else {
        None
    }
}

/// Parse the selections table, the trailing line dropped; `None` when a
/// line lacks its two columns.
pub open spec fn spec_selections(lines: Seq<Seq<char>>, acc: Seq<(Seq<char>, Seq<char>)>)
    -> Option<Seq<(Seq<char>, Seq<char>)>>
    decreases lines.len(),
{
    if lines.len() == 0 {
        Some(acc)
    } else {
        match spec_selection_of_line(lines[0]) {
            Some(p) => spec_selections(lines.drop_first(), acc.push(p)),
            None => None,
        }
    }
}

/// Parse the output of `dpkg --get-selections`: one package and state per
/// line, the last (empty) piece after the trailing newline dropped.
pub fn parse_selections(output: &str) -> (r: Option<Vec<(String, String)>>)
    ensures
        match r {
            Some(list) => spec_selections(
                spec_split(output@, '\n').drop_last(),
                Seq::empty(),
            ) == Some(list@.map_values(|p: (String, String)| (p.0@, p.1@))),
            None => spec_selections(spec_split(output@, '\n').drop_last(), Seq::empty())
                is None,
        },
{
    let oc = chars_of(output);
    let pieces = split_char(oc.as_slice(), '\n');
    proof {
        crate::chars::lemma_split_d_len(output@, crate::chars::Delim::Char('\n'));
    }
    let ghost lv = views_of(pieces@).drop_last();
    let n: usize = pieces.len() - 1;
    let mut list: Vec<(String, String)> = Vec::new();
    let mut i: usize = 0;
    proof {
        assert(lv =~~= spec_split(output@, '\n').drop_last());
        assert(lv.skip(0) =~~= lv);
        assert(list@.map_values(|p: (String, String)| (p.0@, p.1@)) =~~= Seq::<
            (Seq<char>, Seq<char>),
        >::empty());
    }
    while i < n
        invariant
            0 <= i <= n,
            n == pieces@.len() - 1,
            lv == spec_split(output@, '\n').drop_last(),
            lv == views_of(pieces@).drop_last(),
            lv.len() == n,
            spec_selections(lv, Seq::empty()) == spec_selections(
                lv.skip(i as int),
                list@.map_values(|p: (String, String)| (p.0@, p.1@)),
            ),
        decreases n - i,
    {
        proof {
            assert(lv.skip(i as int)[0] == lv[i as int]);
            assert(lv[i as int] == views_of(pieces@)[i as int]);
            assert(lv.skip(i as int).drop_first() =~~= lv.skip(i + 1));
        }
        let words = fields_of(pieces[i].as_slice());
        if words.len() < 2 {
            assert(spec_selection_of_line(lv[i as int]) is None);
            return None;
        }
        let name = string_of(words[0].as_slice());
        let status = string_of(words[1].as_slice());
        let p = (name, status);
        proof {
            assert(spec_selection_of_line(lv[i as int]) == Some((p.0@, p.1@)));
            assert(list@.push(p).map_values(|q: (String, String)| (q.0@, q.1@)) =~~= list@
                .map_values(|q: (String, String)| (q.0@, q.1@)).push((p.0@, p.1@)));
        }
        list.push(p);
        i += 1;
    }
    proof {
        assert(lv.skip(lv.len() as int) =~~= Seq::<Seq<char>>::empty());
    }
    Some(list)
}

/// Whether the selections table already records `pkg` in the wanted state
/// (`hold`, or `install` when unholding).
pub open spec fn spec_already_set(
    list: Seq<(Seq<char>, Seq<char>)>,
    pkg: Seq<char>,
    hold: bool,
) -> bool {
    exists|i: int|
        0 <= i < list.len() && (#[trigger] list[i]).0 == pkg && list[i].1 == (if hold {
            "hold"@
        } else {
            "install"@
        })
}

/// Whether a package's selection must change: it is not already in the
/// wanted state.
pub fn needs_selection_change(
    list: &Vec<(String, String)>,
    pkg: &str,
    hold: bool,
) -> (r: bool)
    ensures
        r == !spec_already_set(
            list@.map_values(|p: (String, String)| (p.0@, p.1@)),
            pkg@,
            hold,
        ),
{
    let ghost lv = list@.map_values(|p: (String, String)| (p.0@, p.1@));
    let pc = chars_of(pkg);
    let want = if hold {
        chars_of("hold")
    } else {
        chars_of("install")
    };
    proof {
        assert(want@ == (if hold {
            "hold"@
        } else {
            "install"@
        }));
    }
    let mut i: usize = 0;
    while i < list.len()
        invariant
            0 <= i <= list@.len(),
            lv == list@.map_values(|p: (String, String)| (p.0@, p.1@)),
            lv.len() == list@.len(),
            pc@ == pkg@,
            want@ == (if hold {
                "hold"@
            } else {
                "install"@
            }),
            forall|k: int|
                0 <= k < i ==> !((#[trigger] lv[k]).0 == pkg@ && lv[k].1 == (if hold {
                    "hold"@
                } else {
                    "install"@
                })),
        decreases list@.len() - i,
    {
        let nc = chars_of(list[i].0.as_str());
        let sc = chars_of(list[i].1.as_str());
        if crate::chars::slice_eq(nc.as_slice(), pc.as_slice()) && crate::chars::slice_eq(
            sc.as_slice(),
            want.as_slice(),
        ) {
            assert(lv[i as int].0 == pkg@ && lv[i as int].1 == (if hold {
                "hold"@
            } else {
                "install"@
            }));
            return false;
        }
        i += 1;
    }
    true
}

} // verus!

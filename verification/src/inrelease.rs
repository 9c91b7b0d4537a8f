//! The release-document parser: extract the checksum table from a verified
//! release payload, filter it by component and architecture, classify each
//! entry, and enforce the freshness policy on the document's dates.
use vstd::prelude::*;

use crate::chars::{
    chars_of, contains_sub, find_char, has_prefix, has_sub, parse_u64, parseable_u64,
    parsed_u64, slice_eq, spec_fields, spec_join, spec_split, split_char, starts_with_chars,
    string_of, views_of,
};
use crate::codec::{compress_kind, spec_compress_kind, CompressKind};
use crate::control::{parse_control, spec_get_field, spec_parse_control, Paragraph};
use crate::date::{parse_date, rfc2822_of, spec_date_hack};

verus! {

/// The classified kind of one checksum-table entry.  A compressed kind
/// carries its codec suffix (`gz`, `xz` or `bz2`).
#[derive(Debug, Clone, PartialEq, Eq)]
pub enum DistFileType {
    BinaryContents,
    Contents,
    CompressContents(String),
    PackageList,
    CompressPackageList(String),
    Release,
}

/// Specification mirror of `DistFileType`.
pub enum DistFileTypeV {
    BinaryContents,
    Contents,
    CompressContents(Seq<char>),
    PackageList,
    CompressPackageList(Seq<char>),
    Release,
}

impl View for DistFileType {
    type V = DistFileTypeV;

    open spec fn view(&self) -> DistFileTypeV {
        match self {
            DistFileType::BinaryContents => DistFileTypeV::BinaryContents,
            DistFileType::Contents => DistFileTypeV::Contents,
            DistFileType::CompressContents(s) => DistFileTypeV::CompressContents(s@),
            DistFileType::PackageList => DistFileTypeV::PackageList,
            DistFileType::CompressPackageList(s) => DistFileTypeV::CompressPackageList(s@),
            DistFileType::Release => DistFileTypeV::Release,
        }
    }
}

/// One entry of the checksum table: a path, its size, its digest, and its
/// classified kind.
#[derive(Debug, Clone)]
pub struct ChecksumItem {
    pub name: String,
    pub size: u64,
    pub checksum: String,
    pub file_type: DistFileType,
}

/// Specification mirror of `ChecksumItem`.
pub struct ChecksumItemV {
    pub name: Seq<char>,
    pub size: u64,
    pub checksum: Seq<char>,
    pub file_type: DistFileTypeV,
}

impl View for ChecksumItem {
    type V = ChecksumItemV;

    open spec fn view(&self) -> ChecksumItemV {
        ChecksumItemV {
            name: self.name@,
            size: self.size,
            checksum: self.checksum@,
            file_type: self.file_type@,
        }
    }
}

/// The views of a sequence of checksum items.
pub open spec fn items_view(items: Seq<ChecksumItem>) -> Seq<ChecksumItemV> {
    items.map_values(|it: ChecksumItem| it@)
}

/// Why a release document was rejected.
#[derive(Debug)]
pub enum InReleaseParserError {
    NoSignature,
    BadInReleaseData,
    BadInReleaseVaildUntil,
    EarlierSignature(String),
    ExpiredSignature(String),
    BadSha256Value(String),
    BadChecksumEntry(String),
    InReleaseSyntaxError,
    UnsupportFileType,
    ParseIntError(String),
}

/// Specification mirror of `InReleaseParserError`.
pub enum InReleaseErrorV {
    NoSignature,
    BadInReleaseData,
    BadInReleaseVaildUntil,
    EarlierSignature(Seq<char>),
    ExpiredSignature(Seq<char>),
    BadSha256Value(Seq<char>),
    BadChecksumEntry(Seq<char>),
    InReleaseSyntaxError,
    UnsupportFileType,
    ParseIntError(Seq<char>),
}

impl View for InReleaseParserError {
    type V = InReleaseErrorV;

    open spec fn view(&self) -> InReleaseErrorV {
        match self {
            InReleaseParserError::NoSignature => InReleaseErrorV::NoSignature,
            InReleaseParserError::BadInReleaseData => InReleaseErrorV::BadInReleaseData,
            InReleaseParserError::BadInReleaseVaildUntil => InReleaseErrorV::BadInReleaseVaildUntil,
            InReleaseParserError::EarlierSignature(s) => InReleaseErrorV::EarlierSignature(s@),
            InReleaseParserError::ExpiredSignature(s) => InReleaseErrorV::ExpiredSignature(s@),
            InReleaseParserError::BadSha256Value(s) => InReleaseErrorV::BadSha256Value(s@),
            InReleaseParserError::BadChecksumEntry(s) => InReleaseErrorV::BadChecksumEntry(s@),
            InReleaseParserError::InReleaseSyntaxError => InReleaseErrorV::InReleaseSyntaxError,
            InReleaseParserError::UnsupportFileType => InReleaseErrorV::UnsupportFileType,
            InReleaseParserError::ParseIntError(s) => InReleaseErrorV::ParseIntError(s@),
        }
    }
}

/// Whether an index name carries a recognized compression suffix.
pub open spec fn spec_file_is_compress(name: Seq<char>) -> bool {
    spec_compress_kind(name) is Some
}

/// Whether an index file name carries a recognized compression suffix
/// (`.gz`, `.bz2` or `.xz`).
pub fn file_is_compress(name: &str) -> (r: bool)
    ensures
        r == spec_file_is_compress(name@),
{
    let cs = chars_of(name);
    compress_kind(cs.as_slice()).is_some()
}

/// The codec suffix of a compressed name, as the two- or three-letter
/// string stored in a classified entry.
pub open spec fn spec_algo_chars(k: CompressKind) -> Seq<char> {
    match k {
        CompressKind::Gz => seq!['g', 'z'],
        CompressKind::Xz => seq!['x', 'z'],
        CompressKind::Bz2 => seq!['b', 'z', '2'],
    }
}

/// The classification of one checksum-table path, by substring and suffix;
/// nothing for paths of no interest.
pub open spec fn spec_classify(name: Seq<char>) -> Option<DistFileTypeV> {
    if has_sub(name, "BinContents"@) {
        Some(DistFileTypeV::BinaryContents)
    } else if has_sub(name, "Contents-"@) && spec_file_is_compress(name) && !has_sub(
        name,
        "udeb"@,
    ) {
        Some(DistFileTypeV::CompressContents(spec_algo_chars(spec_compress_kind(name)->0)))
    } else if has_sub(name, "Contents-"@) && !name.contains('.') && !has_sub(name, "udeb"@) {
        Some(DistFileTypeV::Contents)
    } else if has_sub(name, "Packages"@) && !name.contains('.') {
        Some(DistFileTypeV::PackageList)
    } else if has_sub(name, "Packages"@) && spec_file_is_compress(name) {
        Some(DistFileTypeV::CompressPackageList(spec_algo_chars(spec_compress_kind(name)->0)))
    } else if has_sub(name, "Release"@) {
        Some(DistFileTypeV::Release)
    } else {
        None
    }
}

/// Classify one checksum-table path.
pub fn classify(name: &[char]) -> (r: Option<DistFileType>)
    ensures
        match r {
            Some(t) => spec_classify(name@) == Some(t@),
            None => spec_classify(name@) is None,
        },
{
    let bin_contents = chars_of("BinContents");
    let contents_dash = chars_of("Contents-");
    let udeb = chars_of("udeb");
    let packages = chars_of("Packages");
    let release = chars_of("Release");
    let algo: Option<CompressKind> = compress_kind(name);
    let algo_string: Option<String> = match algo {
        Some(CompressKind::Gz) => Some(string_of(chars_of("gz").as_slice())),
        Some(CompressKind::Xz) => Some(string_of(chars_of("xz").as_slice())),
        Some(CompressKind::Bz2) => Some(string_of(chars_of("bz2").as_slice())),
        None => None,
    };
    proof {
        reveal_strlit("gz");
        reveal_strlit("xz");
        reveal_strlit("bz2");
        if algo is Some {
            assert(algo_string->0@ == spec_algo_chars(spec_compress_kind(name@)->0));
        }
    }
    if contains_sub(name, bin_contents.as_slice()) {
        Some(DistFileType::BinaryContents)
    } else if contains_sub(name, contents_dash.as_slice()) && algo_string.is_some()
        && !contains_sub(name, udeb.as_slice()) {
        Some(DistFileType::CompressContents(algo_string.unwrap()))
    } else if contains_sub(name, contents_dash.as_slice()) && find_char(name, '.').is_none()
        && !contains_sub(name, udeb.as_slice()) {
        Some(DistFileType::Contents)
    } else if contains_sub(name, packages.as_slice()) && find_char(name, '.').is_none() {
        Some(DistFileType::PackageList)
    } else if contains_sub(name, packages.as_slice()) && algo_string.is_some() {
        Some(DistFileType::CompressPackageList(algo_string.unwrap()))
    } else if contains_sub(name, release.as_slice()) {
        Some(DistFileType::Release)
    } else {
        None
    }
}

/// The views of a list of strings.
pub open spec fn strs_view(ss: Seq<String>) -> Seq<Seq<char>> {
    ss.map_values(|s: String| s@)
}

/// Whether a checksum-table path survives the component/architecture
/// filter: its first path component must be configured (when the path has
/// one), the path must mention the architecture or `all`, and
/// `debian-installer` sub-trees are dropped.
pub open spec fn spec_entry_passes(
    name: Seq<char>,
    components: Seq<Seq<char>>,
    arch: Seq<char>,
) -> bool {
    let pieces = spec_split(name, '/');
    let component = pieces[0];
    let is_debian_installer = pieces.len() >= 2 && pieces[1] == "debian-installer"@;
    let arch_ok = has_sub(name, "all"@) || has_sub(name, arch);
    if component != name {
        components.contains(component) && arch_ok && !is_debian_installer
    } else {
        arch_ok
    }
}

/// Whether a checksum-table path survives the component/architecture
/// filter.
pub fn entry_passes(name: &[char], components: &[String], arch: &[char]) -> (r: bool)
    ensures
        r == spec_entry_passes(name@, strs_view(components@), arch@),
{
    let pieces = split_char(name, '/');
    proof {
        crate::chars::lemma_split_d_len(name@, crate::chars::Delim::Char('/'));
        assert(views_of(pieces@)[0] == spec_split(name@, '/')[0]);
    }
    let component = pieces[0].as_slice();
    let di = chars_of("debian-installer");
    let is_debian_installer = pieces.len() >= 2 && slice_eq(pieces[1].as_slice(), di.as_slice());
    proof {
        if pieces@.len() >= 2 {
            assert(views_of(pieces@)[1] == spec_split(name@, '/')[1]);
        }
        assert(is_debian_installer == (spec_split(name@, '/').len() >= 2 && spec_split(
            name@,
            '/',
        )[1] == "debian-installer"@));
    }
    let all_lit = chars_of("all");
    let arch_ok = contains_sub(name, all_lit.as_slice()) || contains_sub(name, arch);
    assert(arch_ok == (has_sub(name@, "all"@) || has_sub(name@, arch@)));
    if !slice_eq(component, name) {
        if !(arch_ok && !is_debian_installer) {
            return false;
        }
        let mut i: usize = 0;
        while i < components.len()
            invariant
                0 <= i <= components@.len(),
                component@ == spec_split(name@, '/')[0],
                component@ != name@,
                arch_ok == (has_sub(name@, "all"@) || has_sub(name@, arch@)),
                arch_ok,
                !(spec_split(name@, '/').len() >= 2 && spec_split(name@, '/')[1]
                    == "debian-installer"@),
                forall|k: int| 0 <= k < i ==> strs_view(components@)[k] != component@,
            decreases components@.len() - i,
        {
            let cc = chars_of(components[i].as_str());
            if slice_eq(cc.as_slice(), component) {
                assert(strs_view(components@)[i as int] == component@);
                assert(strs_view(components@).contains(component@));
                return true;
            }
            i += 1;
        }
        assert(forall|k: int|
            0 <= k < strs_view(components@).len() ==> strs_view(components@)[k] != component@);
        assert(!strs_view(components@).contains(component@));
        false
    } else {
        arch_ok
    }
}

/// One parsed checksum line: `(path, size text, digest)` from the first
/// three whitespace-separated words; nothing when a line has fewer.
pub open spec fn spec_parse_entry(line: Seq<char>) -> Option<(Seq<char>, Seq<char>, Seq<char>)> {
    let words = spec_fields(line);
    if words.len() >= 3 {
        Some((words[2], words[1], words[0]))
    } else {
        None
    }
}

/// Parse the checksum lines, stopping at the first malformed one.
pub open spec fn spec_entries(
    lines: Seq<Seq<char>>,
    acc: Seq<(Seq<char>, Seq<char>, Seq<char>)>,
) -> Result<Seq<(Seq<char>, Seq<char>, Seq<char>)>, Seq<char>>
    decreases lines.len(),
{
    if lines.len() == 0 {
        Ok(acc)
    } else {
        match spec_parse_entry(lines[0]) {
            Some(e) => spec_entries(lines.drop_first(), acc.push(e)),
            None => Err(lines[0]),
        }
    }
}

/// Classify the surviving entries and read their sizes, skipping paths of
/// no interest; a size that does not parse as `u64` stops everything.
pub open spec fn spec_items(
    entries: Seq<(Seq<char>, Seq<char>, Seq<char>)>,
    acc: Seq<ChecksumItemV>,
) -> Result<Seq<ChecksumItemV>, InReleaseErrorV>
    decreases entries.len(),
{
    if entries.len() == 0 {
        Ok(acc)
    } else {
        let e = entries[0];
        match spec_classify(e.0) {
            Some(t) => if parseable_u64(e.1) {
                spec_items(
                    entries.drop_first(),
                    acc.push(
                        ChecksumItemV {
                            name: e.0,
                            size: parsed_u64(e.1) as u64,
                            checksum: e.2,
                            file_type: t,
                        },
                    ),
                )
            } else {
                Err(InReleaseErrorV::ParseIntError(e.1))
            },
            None => spec_items(entries.drop_first(), acc),
        }
    }
}

/// The checksum table of a release document: the lines of the `SHA256`
/// field (the first, empty piece dropped), parsed, filtered by component
/// and architecture — with the unfiltered table as fallback when the
/// filter leaves nothing — then classified.
pub open spec fn spec_checksum_table(
    value: Seq<char>,
    components: Seq<Seq<char>>,
    arch: Seq<char>,
) -> Result<Seq<ChecksumItemV>, InReleaseErrorV> {
    let lines = spec_split(value, '\n').drop_first();
    match spec_entries(lines, Seq::empty()) {
        Err(l) => Err(InReleaseErrorV::BadChecksumEntry(l)),
        Ok(entries) => {
            let filtered = entries.filter(
                |e: (Seq<char>, Seq<char>, Seq<char>)| spec_entry_passes(e.0, components, arch),
            );
            let chosen = if filtered.len() == 0 {
                entries
            } else {
                filtered
            };
            spec_items(chosen, Seq::empty())
        },
    }
}

/// Build the checksum table from the `SHA256` field value.
pub fn checksum_table(value: &str, components: &[String], arch: &str) -> (r: Result<
    Vec<ChecksumItem>,
    InReleaseParserError,
>)
    ensures
        match r {
            Ok(items) => spec_checksum_table(value@, strs_view(components@), arch@) == Ok::<
                Seq<ChecksumItemV>,
                InReleaseErrorV,
            >(items_view(items@)),
            Err(e) => spec_checksum_table(value@, strs_view(components@), arch@) == Err::<
                Seq<ChecksumItemV>,
                InReleaseErrorV,
            >(e@),
        },
{
    let vc = chars_of(value);
    let arch_c = chars_of(arch);
    let all_lines = split_char(vc.as_slice(), '\n');
    let ghost lv = views_of(all_lines@).drop_first();
    proof {
        crate::chars::lemma_split_d_len(value@, crate::chars::Delim::Char('\n'));
    }

    // parse each line (the first piece is the empty text before the first
    // newline of the field value)
    let mut entries: Vec<(Vec<char>, Vec<char>, Vec<char>)> = Vec::new();
    let ghost entries_view = Seq::<(Seq<char>, Seq<char>, Seq<char>)>::empty();
    let mut i: usize = 1;
    proof {
        assert(lv.skip(0) =~~= lv);
        assert(entry_views(entries@) =~~= entries_view);
    }
    while i < all_lines.len()
        invariant
            1 <= i <= all_lines@.len(),
            all_lines@.len() >= 1,
            lv == views_of(all_lines@).drop_first(),
            lv == spec_split(value@, '\n').drop_first(),
            lv.len() == all_lines@.len() - 1,
            entries_view == entry_views(entries@),
            spec_entries(lv, Seq::empty()) == spec_entries(lv.skip(i - 1), entries_view),
        decreases all_lines@.len() - i,
    {
        proof {
            assert(lv.skip(i - 1)[0] == lv[i - 1]);
            assert(lv[i - 1] == views_of(all_lines@)[i as int]);
            assert(lv.skip(i - 1).drop_first() =~~= lv.skip(i as int));
        }
        let line = all_lines[i].as_slice();
        let words = crate::chars::fields_of(line);
        if words.len() < 3 {
            proof {
                assert(spec_parse_entry(lv[i - 1]) is None);
                assert(spec_entries(lv.skip(i - 1), entries_view) == Err::<
                    Seq<(Seq<char>, Seq<char>, Seq<char>)>,
                    Seq<char>,
                >(lv[i - 1]));
                assert(spec_checksum_table(value@, strs_view(components@), arch@) == Err::<
                    Seq<ChecksumItemV>,
                    InReleaseErrorV,
                >(InReleaseErrorV::BadChecksumEntry(lv[i - 1])));
            }
            return Err(InReleaseParserError::BadChecksumEntry(string_of(line)));
        }
        let name = crate::chars::chars_vec(words[2].as_slice());
        let size = crate::chars::chars_vec(words[1].as_slice());
        let digest = crate::chars::chars_vec(words[0].as_slice());
        let e = (name, size, digest);
        proof {
            assert(spec_parse_entry(lv[i - 1]) == Some(
                (e.0@, e.1@, e.2@),
            ));
            assert(entry_views(entries@.push(e)) =~~= entry_views(entries@).push(
                (e.0@, e.1@, e.2@),
            ));
        }
        entries.push(e);
        proof {
            entries_view = entry_views(entries@);
        }
        i += 1;
    }
    proof {
        assert(lv.skip(lv.len() as int) =~~= Seq::<Seq<char>>::empty());
    }
    let ghost parsed = entry_views(entries@);

    // filter by component and architecture
    let ghost pass = |e: (Seq<char>, Seq<char>, Seq<char>)|
        spec_entry_passes(e.0, strs_view(components@), arch@);
    let mut filtered: Vec<(Vec<char>, Vec<char>, Vec<char>)> = Vec::new();
    let mut k: usize = 0;
    proof {
        assert(parsed.take(0) =~~= Seq::<(Seq<char>, Seq<char>, Seq<char>)>::empty());
        reveal_with_fuel(Seq::<_>::filter, 2);
    }
    while k < entries.len()
        invariant
            0 <= k <= entries@.len(),
            parsed == entry_views(entries@),
            parsed.len() == entries@.len(),
            arch_c@ == arch@,
            pass == (|e: (Seq<char>, Seq<char>, Seq<char>)|
                spec_entry_passes(e.0, strs_view(components@), arch@)),
            entry_views(filtered@) == parsed.take(k as int).filter(pass),
        decreases entries@.len() - k,
    {
        proof {
            assert(parsed.take(k + 1).drop_last() =~~= parsed.take(k as int));
            assert(parsed.take(k + 1).last() == parsed[k as int]);
            reveal(Seq::<_>::filter);
        }
        if entry_passes(entries[k].0.as_slice(), components, arch_c.as_slice()) {
            let copy = (
                crate::chars::chars_vec(entries[k].0.as_slice()),
                crate::chars::chars_vec(entries[k].1.as_slice()),
                crate::chars::chars_vec(entries[k].2.as_slice()),
            );
            proof {
                assert(entry_views(filtered@.push(copy)) =~~= entry_views(filtered@).push(
                    parsed[k as int],
                ));
            }
            filtered.push(copy);
        }
        k += 1;
    }
    proof {
        assert(parsed.take(parsed.len() as int) =~~= parsed);
    }

    let use_filtered: bool = filtered.len() > 0;
    let chosen: &Vec<(Vec<char>, Vec<char>, Vec<char>)> = if use_filtered {
        &filtered
    } else {
        &entries
    };
    let ghost chosen_view = if entry_views(filtered@).len() == 0 {
        parsed
    } else {
        entry_views(filtered@)
    };
    let ghost table_spec = spec_checksum_table(value@, strs_view(components@), arch@);
    proof {
        assert(entry_views(chosen@) == chosen_view);
        assert(spec_entries(spec_split(value@, '\n').drop_first(), Seq::empty())
            == Ok::<Seq<(Seq<char>, Seq<char>, Seq<char>)>, Seq<char>>(parsed));
        assert(table_spec == spec_items(chosen_view, Seq::empty()));
    }

    // classify and read sizes
    let mut items: Vec<ChecksumItem> = Vec::new();
    let mut m: usize = 0;
    proof {
        assert(chosen_view.skip(0) =~~= chosen_view);
        assert(items_view(items@) =~~= Seq::<ChecksumItemV>::empty());
    }
    while m < chosen.len()
        invariant
            0 <= m <= chosen@.len(),
            chosen_view == entry_views(chosen@),
            chosen_view.len() == chosen@.len(),
            table_spec == spec_checksum_table(value@, strs_view(components@), arch@),
            table_spec == spec_items(chosen_view.skip(m as int), items_view(items@)),
        decreases chosen@.len() - m,
    {
        proof {
            assert(chosen_view.skip(m as int)[0] == chosen_view[m as int]);
            assert(chosen_view.skip(m as int).drop_first() =~~= chosen_view.skip(m + 1));
        }
        let name = chosen[m].0.as_slice();
        match classify(name) {
            Some(t) => {
                match parse_u64(chosen[m].1.as_slice()) {
                    Some(size) => {
                        let item = ChecksumItem {
                            name: string_of(name),
                            size,
                            checksum: string_of(chosen[m].2.as_slice()),
                            file_type: t,
                        };
                        proof {
                            assert(items_view(items@.push(item)) =~~= items_view(items@).push(
                                item@,
                            ));
                        }
                        items.push(item);
                    },
                    None => {
                        return Err(InReleaseParserError::ParseIntError(string_of(
                            chosen[m].1.as_slice(),
                        )));
                    },
                }
            },
            None => {
            },
        }
        m += 1;
    }
    proof {
        assert(chosen_view.skip(chosen_view.len() as int) =~~= Seq::<(
            Seq<char>,
            Seq<char>,
            Seq<char>,
        )>::empty());
    }
    Ok(items)
}

/// The views of parsed entry triples.
pub open spec fn entry_views(es: Seq<(Vec<char>, Vec<char>, Vec<char>)>) -> Seq<
    (Seq<char>, Seq<char>, Seq<char>),
> {
    es.map_values(|e: (Vec<char>, Vec<char>, Vec<char>)| (e.0@, e.1@, e.2@))
}

/// A continuation line of a clear-signed payload with its dash escape
/// removed.
pub open spec fn dash_unescape(l: Seq<char>) -> Seq<char> {
    if has_prefix(l, seq!['-', ' ']) {
        l.skip(2)
    } else {
        l
    }
}

/// The lines after the clear-sign header block: everything past the first
/// blank line; nothing when no blank line follows.
pub open spec fn spec_after_headers(lines: Seq<Seq<char>>) -> Option<Seq<Seq<char>>>
    decreases lines.len(),
{
    if lines.len() == 0 {
        None
    } else if lines[0].len() == 0 {
        Some(lines.drop_first())
    } else {
        spec_after_headers(lines.drop_first())
    }
}

/// The payload lines before the signature marker, dash-unescaped; nothing
/// when the marker never comes.
pub open spec fn spec_payload_lines(
    lines: Seq<Seq<char>>,
    acc: Seq<Seq<char>>,
) -> Option<Seq<Seq<char>>>
    decreases lines.len(),
{
    if lines.len() == 0 {
        None
    } else if lines[0] == "-----BEGIN PGP SIGNATURE-----"@ {
        Some(acc)
    } else {
        spec_payload_lines(lines.drop_first(), acc.push(dash_unescape(lines[0])))
    }
}

/// The payload text of a clear-signed document: the lines between the
/// header block and the signature marker, newline-joined.
pub open spec fn spec_clearsign_payload(doc: Seq<char>) -> Option<Seq<char>> {
    let lines = crate::control::spec_lines(doc);
    if lines.len() > 0 && lines[0] == "-----BEGIN PGP SIGNED MESSAGE-----"@ {
        match spec_after_headers(lines.drop_first()) {
            Some(rest) => match spec_payload_lines(rest, Seq::empty()) {
                Some(pl) => Some(spec_join(pl, seq!['\n'])),
                None => None,
            },
            None => None,
        }
    } else {
        None
    }
}

/// Extract the payload of a clear-signed document.
pub fn clearsign_payload(doc: &[char]) -> (r: Option<Vec<char>>)
    ensures
        match r {
            Some(p) => spec_clearsign_payload(doc@) == Some(p@),
            None => spec_clearsign_payload(doc@) is None,
        },
{
    let lines = crate::control::lines_of(doc);
    let ghost lv = crate::control::spec_lines(doc@);
    let header = chars_of("-----BEGIN PGP SIGNED MESSAGE-----");
    let sig = chars_of("-----BEGIN PGP SIGNATURE-----");
    if lines.len() == 0 {
        return None;
    }
    if !slice_eq(lines[0].as_slice(), header.as_slice()) {
        return None;
    }
    let mut i: usize = 1;
    proof {
        assert(lv.drop_first() =~~= lv.skip(1));
    }
    while i < lines.len() && lines[i].len() > 0
        invariant
            1 <= i <= lines@.len(),
            lv == crate::control::spec_lines(doc@),
            lines@.map_values(|l: Vec<char>| l@) == lv,
            lv.len() == lines@.len(),
            lv.len() > 0 && lv[0] == "-----BEGIN PGP SIGNED MESSAGE-----"@,
            spec_after_headers(lv.drop_first()) == spec_after_headers(lv.skip(i as int)),
        decreases lines@.len() - i,
    {
        proof {
            assert(lv.skip(i as int)[0] == lv[i as int]);
            assert(lv.skip(i as int).drop_first() =~~= lv.skip(i + 1));
        }
        i += 1;
    }
    if i == lines.len() {
        proof {
            assert(lv.skip(i as int) =~~= Seq::<Seq<char>>::empty());
        }
        return None;
    }
    proof {
        assert(lv.skip(i as int)[0] == lv[i as int]);
        assert(lv[i as int].len() == 0);
        assert(lv.skip(i as int).drop_first() =~~= lv.skip(i + 1));
        assert(spec_after_headers(lv.drop_first()) == Some(lv.skip(i + 1)));
    }
    let ghost rest = lv.skip(i + 1);
    let mut acc: Vec<Vec<char>> = Vec::new();
    let mut j: usize = i + 1;
    proof {
        assert(rest.skip(0) =~~= rest);
        assert(views_of(acc@) =~~= Seq::<Seq<char>>::empty());
    }
    loop
        invariant
            i + 1 <= j <= lines@.len(),
            lv == crate::control::spec_lines(doc@),
            lines@.map_values(|l: Vec<char>| l@) == lv,
            lv.len() == lines@.len(),
            lv.len() > 0 && lv[0] == "-----BEGIN PGP SIGNED MESSAGE-----"@,
            spec_after_headers(lv.drop_first()) == Some(rest),
            rest == lv.skip(i + 1),
            sig@ == "-----BEGIN PGP SIGNATURE-----"@,
            spec_payload_lines(rest, Seq::empty()) == spec_payload_lines(
                rest.skip(j - i - 1),
                views_of(acc@),
            ),
        decreases lines@.len() - j,
    {
        if j == lines.len() {
            proof {
                assert(rest.skip(j - i - 1) =~~= Seq::<Seq<char>>::empty());
            }
            return None;
        }
        proof {
            assert(rest.skip(j - i - 1)[0] == rest[j - i - 1]);
            assert(rest[j - i - 1] == lv[j as int]);
            assert(rest.skip(j - i - 1).drop_first() =~~= rest.skip(j - i));
        }
        if slice_eq(lines[j].as_slice(), sig.as_slice()) {
            let joined = crate::chars::join_chars(&acc, ['\n'].as_slice());
            proof {
                assert(['\n']@ =~= seq!['\n']);
            }
            return Some(joined);
        }
        let line = lines[j].as_slice();
        let dash: [char; 2] = ['-', ' '];
        assert(dash@ =~= seq!['-', ' ']);
        let unescaped: Vec<char> = if starts_with_chars(line, dash.as_slice()) {
            let mut u: Vec<char> = Vec::new();
            let mut m: usize = 2;
            while m < line.len()
                invariant
                    2 <= m <= line@.len(),
                    line@.len() >= 2,
                    u@ == line@.subrange(2, m as int),
                decreases line@.len() - m,
            {
                u.push(line[m]);
                assert(u@ =~= line@.subrange(2, m + 1));
                m += 1;
            }
            proof {
                assert(u@ =~= line@.skip(2));
            }
            u
        } else {
            crate::chars::chars_vec(line)
        };
        proof {
            assert(unescaped@ == dash_unescape(lv[j as int]));
            assert(views_of(acc@.push(unescaped)) =~~= views_of(acc@).push(unescaped@));
        }
        acc.push(unescaped);
        j += 1;
    }
}

/// The payload a document yields before parsing: the clear-signed payload
/// when the document announces one (a broken framing is `NoSignature`),
/// or the document itself.
pub open spec fn spec_payload(doc: Seq<char>) -> Result<Seq<char>, InReleaseErrorV> {
    if has_prefix(doc, "-----BEGIN PGP SIGNED MESSAGE-----"@) {
        match spec_clearsign_payload(doc) {
            Some(p) => Ok(p),
            None => Err(InReleaseErrorV::NoSignature),
        }
    } else {
        Ok(doc)
    }
}

/// The freshness verdict of the first paragraph at instant `now`: the
/// `Date` field must parse and not lie in the future, and a `Valid-Until`
/// field, when present, must parse and not lie in the past.
pub open spec fn spec_freshness(
    first: Option<Seq<(Seq<char>, Seq<char>)>>,
    p: Seq<char>,
    now: i64,
) -> Result<(), InReleaseErrorV> {
    match first {
        None => Err(InReleaseErrorV::BadInReleaseData),
        Some(f) => match spec_get_field(f, "Date"@) {
            None => Err(InReleaseErrorV::BadInReleaseData),
            Some(ds) => match rfc2822_of(spec_date_hack(ds)) {
                None => Err(InReleaseErrorV::BadInReleaseData),
                Some(date) => if now < date {
                    Err(InReleaseErrorV::EarlierSignature(p))
                } else {
                    match spec_get_field(f, "Valid-Until"@) {
                        None => Ok(()),
                        Some(vs) => match rfc2822_of(spec_date_hack(vs)) {
                            None => Err(InReleaseErrorV::BadInReleaseVaildUntil),
                            Some(vu) => if now > vu {
                                Err(InReleaseErrorV::ExpiredSignature(p))
                            } else {
                                Ok(())
                            },
                        },
                    }
                },
            },
        },
    }
}

/// The checksum table of the first paragraph.
pub open spec fn spec_sha_table(
    first: Option<Seq<(Seq<char>, Seq<char>)>>,
    components: Seq<Seq<char>>,
    arch: Seq<char>,
    p: Seq<char>,
) -> Result<Seq<ChecksumItemV>, InReleaseErrorV> {
    match first {
        None => Err(InReleaseErrorV::BadSha256Value(p)),
        Some(f) => match spec_get_field(f, "SHA256"@) {
            None => Err(InReleaseErrorV::BadSha256Value(p)),
            Some(v) => spec_checksum_table(v, components, arch),
        },
    }
}

/// The complete parse of a release document: payload extraction, control
/// parsing, the freshness policy (skipped for flat repositories), and the
/// checksum table of the first paragraph.
pub open spec fn spec_inrelease_parse(
    doc: Seq<char>,
    is_flat: bool,
    components: Seq<Seq<char>>,
    arch: Seq<char>,
    p: Seq<char>,
    now: i64,
) -> Result<Seq<ChecksumItemV>, InReleaseErrorV> {
    match spec_payload(doc) {
        Err(e) => Err(e),
        Ok(payload) => match spec_parse_control(payload) {
            None => Err(InReleaseErrorV::InReleaseSyntaxError),
            Some(paras) => {
                let first = if paras.len() > 0 {
                    Some(paras[0])
                } else {
                    None
                };
                if !is_flat {
                    match spec_freshness(first, p, now) {
                        Err(e) => Err(e),
                        Ok(_) => spec_sha_table(first, components, arch, p),
                    }
                } else {
                    spec_sha_table(first, components, arch, p)
                }
            },
        },
    }
}

/// The parsed release document handed to the parser, with the context the
/// checks need.
pub struct InRelease<'a> {
    pub inrelease: &'a str,
    pub trust_files: Option<&'a str>,
    pub mirror: &'a str,
    pub arch: &'a str,
    pub is_flat: bool,
    pub p: &'a str,
    pub rootfs: &'a str,
    pub components: &'a [String],
}

/// The parsed and validated release document: its paragraphs, and the
/// filtered, classified checksum table.
pub struct InReleaseParser {
    pub source: Vec<Paragraph>,
    pub checksums: Vec<ChecksumItem>,
}

impl InReleaseParser {
    /// Parse and validate a release document at instant `now`.
    ///
    /// The cryptographic verification of a clear-signed document is the
    /// caller's step; this function extracts the signed payload by its
    /// framing and enforces everything else: syntax, freshness for
    /// non-flat repositories, and the checksum table.
    pub fn new(in_release: InRelease<'_>, now: i64) -> (r: Result<
        InReleaseParser,
        InReleaseParserError,
    >)
        ensures
            match r {
                Ok(parser) => spec_inrelease_parse(
                    in_release.inrelease@,
                    in_release.is_flat,
                    strs_view(in_release.components@),
                    in_release.arch@,
                    in_release.p@,
                    now,
                ) == Ok::<Seq<ChecksumItemV>, InReleaseErrorV>(items_view(parser.checksums@)),
                Err(e) => spec_inrelease_parse(
                    in_release.inrelease@,
                    in_release.is_flat,
                    strs_view(in_release.components@),
                    in_release.arch@,
                    in_release.p@,
                    now,
                ) == Err::<Seq<ChecksumItemV>, InReleaseErrorV>(e@),
            },
    {
        let doc_chars = chars_of(in_release.inrelease);
        let header = chars_of("-----BEGIN PGP SIGNED MESSAGE-----");
        let payload: String = if starts_with_chars(doc_chars.as_slice(), header.as_slice()) {
            match clearsign_payload(doc_chars.as_slice()) {
                Some(p) => string_of(p.as_slice()),
                None => {
                    return Err(InReleaseParserError::NoSignature);
                },
            }
        } else {
            string_of(doc_chars.as_slice())
        };
        let paras = match parse_control(payload.as_str()) {
            Some(ps) => ps,
            None => {
                return Err(InReleaseParserError::InReleaseSyntaxError);
            },
        };
        let ghost paras_v = crate::control::paras_view(paras@);
        let ghost first_v = if paras_v.len() > 0 {
            Some(paras_v[0])
        } else {
            None
        };
        if !in_release.is_flat {
            if paras.len() == 0 {
                return Err(InReleaseParserError::BadInReleaseData);
            }
            proof {
                assert(paras_v[0] == paras@[0]@);
            }
            let date_str = match paras[0].get("Date") {
                Some(d) => d,
                None => {
                    return Err(InReleaseParserError::BadInReleaseData);
                },
            };
            let date = match parse_date(date_str.as_str()) {
                Some(d) => d,
                None => {
                    return Err(InReleaseParserError::BadInReleaseData);
                },
            };
            if now < date {
                return Err(InReleaseParserError::EarlierSignature(crate::control::copy_string(
                    &string_of(chars_of(in_release.p).as_slice()),
                )));
            }
            match paras[0].get("Valid-Until") {
                None => {
                },
                Some(vs) => {
                    let vu = match parse_date(vs.as_str()) {
                        Some(v) => v,
                        None => {
                            return Err(InReleaseParserError::BadInReleaseVaildUntil);
                        },
                    };
                    if now > vu {
                        return Err(InReleaseParserError::ExpiredSignature(string_of(
                            chars_of(in_release.p).as_slice(),
                        )));
                    }
                },
            }
        }
        if paras.len() == 0 {
            return Err(InReleaseParserError::BadSha256Value(string_of(
                chars_of(in_release.p).as_slice(),
            )));
        }
        proof {
            assert(paras_v[0] == paras@[0]@);
        }
        let sha = match paras[0].get("SHA256") {
            Some(v) => v,
            None => {
                return Err(InReleaseParserError::BadSha256Value(string_of(
                    chars_of(in_release.p).as_slice(),
                )));
            },
        };
        let checksums = match checksum_table(
            sha.as_str(),
            in_release.components,
            in_release.arch,
        ) {
            Ok(items) => items,
            Err(e) => {
                return Err(e);
            },
        };
        Ok(InReleaseParser { source: paras, checksums })
    }
}

/// Freshness is a clock-free question for flat repositories: a flat parse
/// does not consult `now` at all, so a stale or future-dated release that
/// otherwise parses is accepted there.
pub proof fn lemma_flat_ignores_clock(
    doc: Seq<char>,
    components: Seq<Seq<char>>,
    arch: Seq<char>,
    p: Seq<char>,
    now1: i64,
    now2: i64,
)
    ensures
        spec_inrelease_parse(doc, true, components, arch, p, now1) == spec_inrelease_parse(
            doc,
            true,
            components,
            arch,
            p,
            now2,
        ),
{
}

/// Freshness: a non-flat release whose `Date` lies in the future is
/// rejected as `EarlierSignature`.
pub proof fn lemma_future_date_rejected(
    doc: Seq<char>,
    components: Seq<Seq<char>>,
    arch: Seq<char>,
    p: Seq<char>,
    now: i64,
)
    requires
        spec_payload(doc) is Ok,
        spec_parse_control(spec_payload(doc)->Ok_0) is Some,
        spec_parse_control(spec_payload(doc)->Ok_0)->0.len() > 0,
        spec_get_field(spec_parse_control(spec_payload(doc)->Ok_0)->0[0], "Date"@) is Some,
        rfc2822_of(
            spec_date_hack(
                spec_get_field(spec_parse_control(spec_payload(doc)->Ok_0)->0[0], "Date"@)->0,
            ),
        ) is Some,
        now < rfc2822_of(
            spec_date_hack(
                spec_get_field(spec_parse_control(spec_payload(doc)->Ok_0)->0[0], "Date"@)->0,
            ),
        )->0,
    ensures
        spec_inrelease_parse(doc, false, components, arch, p, now) == Err::<
            Seq<ChecksumItemV>,
            InReleaseErrorV,
        >(InReleaseErrorV::EarlierSignature(p)),
{
}

/// Freshness: a non-flat release whose `Valid-Until` lies in the past is
/// rejected as `ExpiredSignature`.
pub proof fn lemma_expired_rejected(
    doc: Seq<char>,
    components: Seq<Seq<char>>,
    arch: Seq<char>,
    p: Seq<char>,
    now: i64,
)
    requires
        spec_payload(doc) is Ok,
        spec_parse_control(spec_payload(doc)->Ok_0) is Some,
        spec_parse_control(spec_payload(doc)->Ok_0)->0.len() > 0,
        spec_get_field(spec_parse_control(spec_payload(doc)->Ok_0)->0[0], "Date"@) is Some,
        rfc2822_of(
            spec_date_hack(
                spec_get_field(spec_parse_control(spec_payload(doc)->Ok_0)->0[0], "Date"@)->0,
            ),
        ) is Some,
        now >= rfc2822_of(
            spec_date_hack(
                spec_get_field(spec_parse_control(spec_payload(doc)->Ok_0)->0[0], "Date"@)->0,
            ),
        )->0,
        spec_get_field(spec_parse_control(spec_payload(doc)->Ok_0)->0[0], "Valid-Until"@)
            is Some,
        rfc2822_of(
            spec_date_hack(
                spec_get_field(
                    spec_parse_control(spec_payload(doc)->Ok_0)->0[0],
                    "Valid-Until"@,
                )->0,
            ),
        ) is Some,
        now > rfc2822_of(
            spec_date_hack(
                spec_get_field(
                    spec_parse_control(spec_payload(doc)->Ok_0)->0[0],
                    "Valid-Until"@,
                )->0,
            ),
        )->0,
    ensures
        spec_inrelease_parse(doc, false, components, arch, p, now) == Err::<
            Seq<ChecksumItemV>,
            InReleaseErrorV,
        >(InReleaseErrorV::ExpiredSignature(p)),
{
}

} // verus!

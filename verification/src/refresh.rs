//! The refresh orchestration decisions: building the release-file fetch
//! plans, absorbing closed-topic 404s, selecting the index files a parsed
//! release calls for, and building their fetch plans.  A driver performs
//! the fetches; every choice of what to fetch, under what name, and with
//! what checks is made here, under contract.
use vstd::prelude::*;

use crate::chars::{chars_of, concat_chars, slice_eq, spec_split, split_char, string_of};
use crate::escape::{database_filename, spec_database_filename};
use crate::fetch::{DownloadEntry, DownloadSource, DownloadSourceType};
use crate::inrelease::{
    items_view, strs_view, ChecksumItem, ChecksumItemV, DistFileType, DistFileTypeV,
};
use crate::source::{OmaSourceEntry, OmaSourceEntryFrom};

verus! {

/// Why a refresh failed.
#[derive(Debug)]
pub enum RefreshError {
    InvaildUrl(String),
    ScanSourceError(String),
    UnsupportedProtocol(String),
    NoInReleaseFile(String),
}

/// What a refresh reports to its caller while it runs.
pub enum Event {
    Info(String),
}

/// The fetcher transport of a source entry.
pub open spec fn spec_transport(f: OmaSourceEntryFrom) -> DownloadSourceType {
    match f {
        OmaSourceEntryFrom::Http => DownloadSourceType::Http,
        OmaSourceEntryFrom::Local => DownloadSourceType::Local,
    }
}

/// Build the release-file fetch plan of one entry: its release URL, the
/// canonical escaped filename, no expected checksum, no resume.
pub fn release_fetch_plan(entry: &OmaSourceEntry, dir: &str) -> (r: Result<
    DownloadEntry,
    RefreshError,
>)
    ensures
        match r {
            Ok(p) => {
                &&& spec_database_filename(entry.inrelease_path@) == Some(p.filename@)
                &&& p.source@.len() == 1
                &&& p.source@[0].url@ == entry.inrelease_path@
                &&& p.source@[0].source_type == spec_transport(entry.from)
                &&& p.dir@ == dir@
                &&& p.hash is None
                &&& p.allow_resume == false
                &&& p.extract == false
            },
            Err(_) => spec_database_filename(entry.inrelease_path@) is None,
        },
{
    let filename = match database_filename(entry.inrelease_path.as_str()) {
        Some(f) => f,
        None => {
            return Err(RefreshError::InvaildUrl(crate::control::copy_string(
                &entry.inrelease_path,
            )));
        },
    };
    let url = crate::control::copy_string(&entry.inrelease_path);
    let typ = match entry.from {
        OmaSourceEntryFrom::Http => DownloadSourceType::Http,
        OmaSourceEntryFrom::Local => DownloadSourceType::Local,
    };
    let dir_s = string_of(chars_of(dir).as_slice());
    Ok(DownloadEntry::new(url, filename, dir_s, None, false, typ))
}

/// The suite a release URL belongs to: the next-to-last path segment.
pub open spec fn spec_url_suite(url: Seq<char>) -> Option<Seq<char>> {
    let pieces = spec_split(url, '/');
    if pieces.len() >= 2 {
        Some(pieces[pieces.len() - 2])
    } else {
        None
    }
}

/// Decide what a 404 on a release file means: when the URL's suite is a
/// closed topic it is absorbed and the entry silently dropped (`Ok`);
/// otherwise the refresh fails with `NoInReleaseFile`; a URL too short to
/// name a suite is invalid.
pub fn check_closed_topic(url: &str, removed_suites: &[String]) -> (r: Result<(), RefreshError>)
    ensures
        match r {
            Ok(_) => spec_url_suite(url@) matches Some(s) && strs_view(removed_suites@).contains(
                s,
            ),
            Err(_) => spec_url_suite(url@) is None || (spec_url_suite(url@) matches Some(s)
                && !strs_view(removed_suites@).contains(s)),
        },
{
    let uc = chars_of(url);
    let pieces = split_char(uc.as_slice(), '/');
    proof {
        crate::chars::lemma_split_d_len(url@, crate::chars::Delim::Char('/'));
    }
    if pieces.len() < 2 {
        return Err(RefreshError::InvaildUrl(string_of(uc.as_slice())));
    }
    let suite = pieces[pieces.len() - 2].as_slice();
    proof {
        assert(crate::chars::views_of(pieces@)[pieces@.len() - 2] == spec_split(
            url@,
            '/',
        )[pieces@.len() - 2]);
    }
    let mut i: usize = 0;
    while i < removed_suites.len()
        invariant
            0 <= i <= removed_suites@.len(),
            suite@ == spec_url_suite(url@)->0,
            spec_url_suite(url@) is Some,
            forall|k: int| 0 <= k < i ==> strs_view(removed_suites@)[k] != suite@,
        decreases removed_suites@.len() - i,
    {
        let rc = chars_of(removed_suites[i].as_str());
        if slice_eq(rc.as_slice(), suite) {
            assert(strs_view(removed_suites@)[i as int] == suite@);
            assert(strs_view(removed_suites@).contains(suite@));
            return Ok(());
        }
        i += 1;
    }
    proof {
        assert(forall|k: int|
            0 <= k < strs_view(removed_suites@).len() ==> strs_view(removed_suites@)[k]
                != suite@);
        assert(!strs_view(removed_suites@).contains(suite@));
    }
    Err(RefreshError::NoInReleaseFile(string_of(uc.as_slice())))
}

/// Whether a classified entry is selected for stage two: a flat
/// repository takes its plain package lists; a dist repository takes
/// binary-contents always, and either the compressed or the uncompressed
/// package lists and contents, by the `download_compress` toggle.
pub open spec fn spec_selected(t: DistFileTypeV, is_flat: bool, download_compress: bool) -> bool {
    if is_flat {
        t is PackageList
    } else {
        match t {
            DistFileTypeV::BinaryContents => true,
            DistFileTypeV::Contents => !download_compress,
            DistFileTypeV::PackageList => !download_compress,
            DistFileTypeV::CompressContents(_) => download_compress,
            DistFileTypeV::CompressPackageList(_) => download_compress,
            DistFileTypeV::Release => false,
        }
    }
}

/// Select the stage-two index files of one parsed release.
pub fn select_stage2(
    checksums: &Vec<ChecksumItem>,
    is_flat: bool,
    download_compress: bool,
) -> (r: Vec<ChecksumItem>)
    ensures
        items_view(r@) == items_view(checksums@).filter(
            |it: ChecksumItemV| spec_selected(it.file_type, is_flat, download_compress),
        ),
{
    let ghost all = items_view(checksums@);
    let ghost pred = |it: ChecksumItemV| spec_selected(it.file_type, is_flat, download_compress);
    let mut r: Vec<ChecksumItem> = Vec::new();
    let mut i: usize = 0;
    proof {
        assert(all.take(0) =~~= Seq::<ChecksumItemV>::empty());
        reveal_with_fuel(Seq::<_>::filter, 2);
    }
    while i < checksums.len()
        invariant
            0 <= i <= checksums@.len(),
            all == items_view(checksums@),
            all.len() == checksums@.len(),
            pred == (|it: ChecksumItemV| spec_selected(it.file_type, is_flat, download_compress)),
            items_view(r@) == all.take(i as int).filter(pred),
        decreases checksums@.len() - i,
    {
        proof {
            assert(all.take(i + 1).drop_last() =~~= all.take(i as int));
            assert(all.take(i + 1).last() == all[i as int]);
            reveal(Seq::<_>::filter);
        }
        let it = &checksums[i];
        let selected: bool = if is_flat {
            match it.file_type {
                DistFileType::PackageList => true,
                _ => false,
            }
        } else {
            match it.file_type {
                DistFileType::BinaryContents => true,
                DistFileType::Contents => !download_compress,
                DistFileType::PackageList => !download_compress,
                DistFileType::CompressContents(_) => download_compress,
                DistFileType::CompressPackageList(_) => download_compress,
                DistFileType::Release => false,
            }
        };
        assert(selected == pred(all[i as int]));
        if selected {
            let copy = copy_item(it);
            proof {
                assert(items_view(r@.push(copy)) =~~= items_view(r@).push(all[i as int]));
            }
            r.push(copy);
        }
        i += 1;
    }
    proof {
        assert(all.take(checksums@.len() as int) =~~= all);
    }
    r
}

/// A copy of one checksum item.
fn copy_item(it: &ChecksumItem) -> (r: ChecksumItem)
    ensures
        r@ == it@,
{
    let file_type = match &it.file_type {
        DistFileType::BinaryContents => DistFileType::BinaryContents,
        DistFileType::Contents => DistFileType::Contents,
        DistFileType::CompressContents(s) => DistFileType::CompressContents(
            crate::control::copy_string(s),
        ),
        DistFileType::PackageList => DistFileType::PackageList,
        DistFileType::CompressPackageList(s) => DistFileType::CompressPackageList(
            crate::control::copy_string(s),
        ),
        DistFileType::Release => DistFileType::Release,
    };
    ChecksumItem {
        name: crate::control::copy_string(&it.name),
        size: it.size,
        checksum: crate::control::copy_string(&it.checksum),
        file_type,
    }
}

/// The sum of the sizes of the selected entries.
pub open spec fn spec_total_size(items: Seq<ChecksumItemV>) -> int
    decreases items.len(),
{
    if items.len() == 0 {
        0
    } else {
        spec_total_size(items.drop_last()) + items.last().size
    }
}

/// Add the selected sizes up; nothing when the total leaves `u64`.
pub fn total_size(items: &Vec<ChecksumItem>) -> (r: Option<u64>)
    ensures
        match r {
            Some(t) => t == spec_total_size(items_view(items@)),
            None => spec_total_size(items_view(items@)) > u64::MAX,
        },
{
    let ghost all = items_view(items@);
    let mut total: u64 = 0;
    let mut i: usize = 0;
    proof {
        assert(all.take(0) =~~= Seq::<ChecksumItemV>::empty());
    }
    while i < items.len()
        invariant
            0 <= i <= items@.len(),
            all == items_view(items@),
            all.len() == items@.len(),
            total == spec_total_size(all.take(i as int)),
        decreases items@.len() - i,
    {
        proof {
            assert(all.take(i + 1).drop_last() =~~= all.take(i as int));
            assert(all.take(i + 1).last() == all[i as int]);
        }
        let s = items[i].size;
        if total > u64::MAX - s {
            proof {
                lemma_total_size_grows(all, i + 1);
            }
            return None;
        }
        total = total + s;
        i += 1;
    }
    proof {
        assert(all.take(all.len() as int) =~~= all);
    }
    Some(total)
}

proof fn lemma_total_size_grows(items: Seq<ChecksumItemV>, i: int)
    requires
        0 <= i <= items.len(),
    ensures
        spec_total_size(items) >= spec_total_size(items.take(i)),
    decreases items.len() - i,
{
    if i == items.len() {
        assert(items.take(i) =~~= items);
    } else {
        assert(items.take(i + 1).drop_last() =~~= items.take(i));
        assert(items.take(i + 1).last() == items[i]);
        lemma_total_size_grows(items, i + 1);
    }
}

/// The position of the last occurrence of `c` in `s`, or `-1`.
pub open spec fn last_index_of(s: Seq<char>, c: char) -> int
    decreases s.len(),
{
    if s.len() == 0 {
        -1
    } else if s.last() == c {
        s.len() - 1
    } else {
        last_index_of(s.drop_last(), c)
    }
}

/// A path with the extension of its last segment removed, the way
/// `Path::set_extension("")` does it: everything from the last dot on
/// goes, unless that dot starts the segment.
pub open spec fn spec_strip_extension(s: Seq<char>) -> Seq<char> {
    let d = last_index_of(s, '.');
    let sl = last_index_of(s, '/');
    if d >= 0 && d != sl + 1 {
        s.take(d)
    } else {
        s
    }
}

proof fn lemma_last_index_at(s: Seq<char>, c: char, i: int)
    requires
        0 <= i < s.len(),
        s[i] == c,
        forall|j: int| i < j < s.len() ==> s[j] != c,
    ensures
        last_index_of(s, c) == i,
    decreases s.len(),
{
    if i == s.len() - 1 {
    } else {
        assert(s.last() != c);
        assert(s.drop_last()[i] == c);
        assert(forall|j: int| i < j < s.drop_last().len() ==> s.drop_last()[j] != c);
        lemma_last_index_at(s.drop_last(), c, i);
    }
}

proof fn lemma_last_index_none(s: Seq<char>, c: char)
    requires
        forall|j: int| 0 <= j < s.len() ==> s[j] != c,
    ensures
        last_index_of(s, c) == -1,
    decreases s.len(),
{
    if s.len() > 0 {
        assert(forall|j: int| 0 <= j < s.drop_last().len() ==> s.drop_last()[j] != c);
        lemma_last_index_none(s.drop_last(), c);
    }
}

/// Find the last position of `c`, scanning from the end.
fn rfind_char(s: &[char], c: char) -> (r: Option<usize>)
    ensures
        match r {
            Some(i) => i < s@.len() && last_index_of(s@, c) == i,
            None => last_index_of(s@, c) == -1,
        },
{
    let mut i: usize = s.len();
    while i > 0
        invariant
            0 <= i <= s@.len(),
            forall|j: int| i <= j < s@.len() ==> s@[j] != c,
        decreases i,
    {
        i -= 1;
        if s[i] == c {
            proof {
                lemma_last_index_at(s@, c, i as int);
            }
            return Some(i);
        }
    }
    proof {
        lemma_last_index_none(s@, c);
    }
    None
}

/// Strip the extension of a path's last segment.
pub fn strip_extension(s: &[char]) -> (r: Vec<char>)
    ensures
        r@ == spec_strip_extension(s@),
{
    let n: usize = s.len();
    let d = rfind_char(s, '.');
    let sl = rfind_char(s, '/');
    let cut: Option<usize> = match (d, sl) {
        (Some(di), Some(si)) => if di == si + 1 {
            None
        } else {
            Some(di)
        },
        (Some(di), None) => if di == 0 {
            None
        } else {
            Some(di)
        },
        (None, _) => None,
    };
    match cut {
        Some(di) => {
            let mut r: Vec<char> = Vec::new();
            let mut k: usize = 0;
            while k < di
                invariant
                    0 <= k <= di < s@.len(),
                    r@ == s@.take(k as int),
                decreases di - k,
            {
                r.push(s[k]);
                assert(r@ =~= s@.take(k + 1));
                k += 1;
            }
            r
        },
        None => crate::chars::chars_vec(s),
    }
}

/// Build the stage-two fetch plan of one selected index entry: its URL
/// under the entry's distribution path, the canonical escaped name of the
/// uncompressed file, the table's checksum, resume allowed, and
/// on-the-fly extraction for compressed entries.
pub fn build_index_plan(entry: &OmaSourceEntry, item: &ChecksumItem, dir: &str) -> (r: Result<
    DownloadEntry,
    RefreshError,
>)
    ensures
        match r {
            Ok(p) => {
                &&& p.source@.len() == 1
                &&& p.source@[0].url@ == entry.dist_path@ + "/"@ + item.name@
                &&& p.source@[0].source_type == spec_transport(entry.from)
                &&& spec_database_filename(
                    entry.dist_path@ + "/"@ + spec_strip_extension(item.name@),
                ) == Some(p.filename@)
                &&& p.dir@ == dir@
                &&& p.hash matches Some(h) && h@ == item.checksum@
                &&& p.allow_resume == true
                &&& p.extract == (item.file_type@ is CompressContents
                    || item.file_type@ is CompressPackageList)
            },
            Err(_) => spec_database_filename(
                entry.dist_path@ + "/"@ + spec_strip_extension(item.name@),
            ) is None,
        },
{
    let dp = chars_of(entry.dist_path.as_str());
    let slash = chars_of("/");
    let name_c = chars_of(item.name.as_str());
    let a = concat_chars(dp.as_slice(), slash.as_slice());
    let url_c = concat_chars(a.as_slice(), name_c.as_slice());
    let stripped = strip_extension(name_c.as_slice());
    let b = concat_chars(a.as_slice(), stripped.as_slice());
    let plain_url = string_of(b.as_slice());
    let filename = match database_filename(plain_url.as_str()) {
        Some(f) => f,
        None => {
            return Err(RefreshError::InvaildUrl(plain_url));
        },
    };
    let typ = match entry.from {
        OmaSourceEntryFrom::Http => DownloadSourceType::Http,
        OmaSourceEntryFrom::Local => DownloadSourceType::Local,
    };
    let extract = match &item.file_type {
        DistFileType::CompressContents(_) => true,
        DistFileType::CompressPackageList(_) => true,
        _ => false,
    };
    let mut source: Vec<DownloadSource> = Vec::new();
    source.push(DownloadSource { url: string_of(url_c.as_slice()), source_type: typ });
    Ok(DownloadEntry {
        source,
        filename,
        dir: string_of(chars_of(dir).as_slice()),
        hash: Some(crate::control::copy_string(&item.checksum)),
        allow_resume: true,
        extract,
    })
}

} // verus!

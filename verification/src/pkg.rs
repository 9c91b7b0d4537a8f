//! Per-package download planning: find a package's paragraph in the
//! parsed package lists, read its archive path and digest, and derive the
//! candidate mirror URLs from the configured sources.
use vstd::prelude::*;

use crate::chars::{chars_of, concat_chars, slice_eq, spec_split, split_char, string_of};
use crate::control::{spec_get_field, Paragraph};
use crate::inrelease::strs_view;
use crate::source::OmaSourceEntry;

verus! {

/// Why a package cannot be planned for download.
#[derive(Debug)]
pub enum PkgError {
    NoPackage(String),
    NoField(String),
    BadFilename(String),
}

/// The first paragraph whose `Package` field names `pkg`.
pub open spec fn spec_find_package(
    paras: Seq<Seq<(Seq<char>, Seq<char>)>>,
    pkg: Seq<char>,
) -> Option<int>
    decreases paras.len(),
{
    if paras.len() == 0 {
        None
    } else if spec_get_field(paras[0], "Package"@) == Some(pkg) {
        Some(0)
    } else {
        match spec_find_package(paras.drop_first(), pkg) {
            Some(i) => Some(i + 1),
            None => None,
        }
    }
}

/// Find the first paragraph describing `pkg`.
pub fn find_package(apt: &Vec<Paragraph>, pkg: &str) -> (r: Option<usize>)
    ensures
        match r {
            Some(i) => i < apt@.len() && spec_find_package(
                crate::control::paras_view(apt@),
                pkg@,
            ) == Some(i as int),
            None => spec_find_package(crate::control::paras_view(apt@), pkg@) is None,
        },
    decreases apt@.len(),
{
    proof {
        assert(crate::control::paras_view(apt@).skip(0) =~~= crate::control::paras_view(apt@));
    }
    find_package_from(apt, pkg, 0)
}

fn find_package_from(apt: &Vec<Paragraph>, pkg: &str, i: usize) -> (r: Option<usize>)
    requires
        i <= apt@.len(),
    ensures
        match r {
            Some(j) => i <= j < apt@.len() && spec_find_package(
                crate::control::paras_view(apt@).skip(i as int),
                pkg@,
            ) == Some(j - i),
            None => spec_find_package(crate::control::paras_view(apt@).skip(i as int), pkg@)
                is None,
        },
    decreases apt@.len() - i,
{
    let ghost pv = crate::control::paras_view(apt@);
    if i == apt.len() {
        proof {
            assert(pv.skip(i as int) =~~= Seq::<Seq<(Seq<char>, Seq<char>)>>::empty());
        }
        return None;
    }
    proof {
        assert(pv.skip(i as int)[0] == pv[i as int]);
        assert(pv[i as int] == apt@[i as int]@);
        assert(pv.skip(i as int).drop_first() =~~= pv.skip(i + 1));
    }
    match apt[i].get(pkg_key().as_str()) {
        Some(v) => {
            let pc = chars_of(pkg);
            let vc = chars_of(v.as_str());
            if slice_eq(vc.as_slice(), pc.as_slice()) {
                return Some(i);
            }
        },
        None => {
        },
    }
    match find_package_from(apt, pkg, i + 1) {
        Some(j) => Some(j),
        None => None,
    }
}

fn pkg_key() -> (r: String)
    ensures
        r@ == "Package"@,
{
    string_of(chars_of("Package").as_slice())
}

/// The suite and component an archive path places a package in: its
/// second and third path segments, as `branch/component`.
pub open spec fn spec_get_from(filename: Seq<char>) -> Option<Seq<char>> {
    let pieces = spec_split(filename, '/');
    if pieces.len() >= 3 {
        Some(pieces[1] + seq!['/'] + pieces[2])
    } else {
        None
    }
}

/// Read the `branch/component` a package's archive path places it in.
pub fn get_from(filename: &str) -> (r: Option<String>)
    ensures
        match r {
            Some(s) => spec_get_from(filename@) == Some(s@),
            None => spec_get_from(filename@) is None,
        },
{
    let fc = chars_of(filename);
    let pieces = split_char(fc.as_slice(), '/');
    if pieces.len() < 3 {
        return None;
    }
    proof {
        assert(crate::chars::views_of(pieces@)[1] == spec_split(filename@, '/')[1]);
        assert(crate::chars::views_of(pieces@)[2] == spec_split(filename@, '/')[2]);
    }
    let slash: [char; 1] = ['/'];
    assert(slash@ =~= seq!['/']);
    let a = concat_chars(pieces[1].as_slice(), slash.as_slice());
    let b = concat_chars(a.as_slice(), pieces[2].as_slice());
    Some(string_of(b.as_slice()))
}

/// Whether one configured source can serve a package filed under the
/// given branch and component.
pub open spec fn spec_source_serves(
    e: &OmaSourceEntry,
    branch: Seq<char>,
    component: Seq<char>,
) -> bool {
    strs_view(e.components@).contains(component) && e.suite@ == branch
}

/// The candidate URLs, in configured order: one per source that serves
/// the package's branch and component.
pub open spec fn spec_candidates(
    sources: Seq<OmaSourceEntry>,
    filename: Seq<char>,
    branch: Seq<char>,
    component: Seq<char>,
    acc: Seq<Seq<char>>,
) -> Seq<Seq<char>>
    decreases sources.len(),
{
    if sources.len() == 0 {
        acc
    } else {
        let acc2 = if spec_source_serves(&sources[0], branch, component) {
            acc.push(sources[0].url@ + seq!['/'] + filename)
        } else {
            acc
        };
        spec_candidates(sources.drop_first(), filename, branch, component, acc2)
    }
}

fn source_serves(e: &OmaSourceEntry, branch: &[char], component: &[char]) -> (r: bool)
    ensures
        r == spec_source_serves(e, branch@, component@),
{
    let sc = chars_of(e.suite.as_str());
    if !slice_eq(sc.as_slice(), branch) {
        return false;
    }
    let mut i: usize = 0;
    while i < e.components.len()
        invariant
            0 <= i <= e.components@.len(),
            e.suite@ == branch@,
            forall|k: int| 0 <= k < i ==> strs_view(e.components@)[k] != component@,
        decreases e.components@.len() - i,
    {
        let cc = chars_of(e.components[i].as_str());
        if slice_eq(cc.as_slice(), component) {
            assert(strs_view(e.components@)[i as int] == component@);
            assert(strs_view(e.components@).contains(component@));
            return true;
        }
        i += 1;
    }
    proof {
        assert(forall|k: int|
            0 <= k < strs_view(e.components@).len() ==> strs_view(e.components@)[k]
                != component@);
        assert(!strs_view(e.components@).contains(component@));
    }
    false
}

/// Plan the download of one package: its paragraph's archive path and
/// digest, and one candidate URL per source that serves its branch and
/// component, in configured order.
pub fn package_download_candidates(
    pkg: &str,
    apt: &Vec<Paragraph>,
    sources: &Vec<OmaSourceEntry>,
) -> (r: Result<(Vec<String>, String), PkgError>)
    ensures
        ({
            let pv = crate::control::paras_view(apt@);
            match r {
                Ok(p) => {
                    &&& spec_find_package(pv, pkg@) matches Some(i) && {
                        let para = pv[i];
                        &&& spec_get_field(para, "Filename"@) matches Some(f) && {
                            &&& spec_get_from(f) is Some
                            &&& p.0@.map_values(|u: String| u@) == spec_candidates(
                                sources@,
                                f,
                                spec_split(f, '/')[1],
                                spec_split(f, '/')[2],
                                Seq::empty(),
                            )
                        }
                        &&& spec_get_field(para, "SHA256"@) == Some(p.1@)
                    }
                },
                Err(PkgError::NoPackage(_)) => spec_find_package(pv, pkg@) is None,
                Err(PkgError::NoField(_)) => spec_find_package(pv, pkg@) matches Some(i)
                    && (spec_get_field(pv[i], "Filename"@) is None || spec_get_field(
                    pv[i],
                    "SHA256"@,
                ) is None),
                Err(PkgError::BadFilename(_)) => spec_find_package(pv, pkg@) matches Some(i)
                    && spec_get_field(pv[i], "Filename"@) matches Some(f) && spec_get_field(
                    pv[i],
                    "SHA256"@,
                ) is Some && spec_get_from(f) is None,
            }
        }),
{
    let ghost pv = crate::control::paras_view(apt@);
    let idx = match find_package(apt, pkg) {
        Some(i) => i,
        None => {
            return Err(PkgError::NoPackage(string_of(chars_of(pkg).as_slice())));
        },
    };
    proof {
        assert(pv[idx as int] == apt@[idx as int]@);
    }
    let filename = match apt[idx].get("Filename") {
        Some(f) => f,
        None => {
            return Err(PkgError::NoField(string_of(chars_of(pkg).as_slice())));
        },
    };
    let checksum = match apt[idx].get("SHA256") {
        Some(c) => c,
        None => {
            return Err(PkgError::NoField(string_of(chars_of(pkg).as_slice())));
        },
    };
    let fc = chars_of(filename.as_str());
    let pieces = split_char(fc.as_slice(), '/');
    if pieces.len() < 3 {
        return Err(PkgError::BadFilename(filename));
    }
    proof {
        assert(crate::chars::views_of(pieces@)[1] == spec_split(filename@, '/')[1]);
        assert(crate::chars::views_of(pieces@)[2] == spec_split(filename@, '/')[2]);
    }
    let branch = pieces[1].as_slice();
    let component = pieces[2].as_slice();
    let ghost bv = spec_split(filename@, '/')[1];
    let ghost cv = spec_split(filename@, '/')[2];
    let slash: [char; 1] = ['/'];
    assert(slash@ =~= seq!['/']);

    let mut urls: Vec<String> = Vec::new();
    let mut i: usize = 0;
    proof {
        assert(sources@.skip(0) =~~= sources@);
        assert(urls@.map_values(|u: String| u@) =~~= Seq::<Seq<char>>::empty());
    }
    while i < sources.len()
        invariant
            0 <= i <= sources@.len(),
            branch@ == bv,
            component@ == cv,
            fc@ == filename@,
            slash@ == seq!['/'],
            spec_candidates(sources@, filename@, bv, cv, Seq::empty()) == spec_candidates(
                sources@.skip(i as int),
                filename@,
                bv,
                cv,
                urls@.map_values(|u: String| u@),
            ),
        decreases sources@.len() - i,
    {
        proof {
            assert(sources@.skip(i as int)[0] == sources@[i as int]);
            assert(sources@.skip(i as int).drop_first() =~~= sources@.skip(i + 1));
        }
        if source_serves(&sources[i], branch, component) {
            let uc = chars_of(sources[i].url.as_str());
            let a = concat_chars(uc.as_slice(), slash.as_slice());
            let b = concat_chars(a.as_slice(), fc.as_slice());
            let u = string_of(b.as_slice());
            proof {
                assert(u@ == sources@[i as int].url@ + seq!['/'] + filename@);
                assert(urls@.push(u).map_values(|x: String| x@) =~~= urls@.map_values(
                    |x: String| x@,
                ).push(u@));
            }
            urls.push(u);
        }
        i += 1;
    }
    proof {
        assert(sources@.skip(sources@.len() as int) =~~= Seq::<OmaSourceEntry>::empty());
    }
    Ok((urls, checksum))
}

} // verus!

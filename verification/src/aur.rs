//! The remote metadata service: where to ask, and how to read the dependency
//! manifest of a package.

use vstd::prelude::*;
use vstd::string::StringExecFns;
use crate::error::{AurorusError, ProtocolFault};
use crate::text::{
    find_char, find_from, from_chars, has_prefix, join, line_ranges, lines, to_chars, trim,
    trim_range,
};
use crate::types::AurResponse;

verus! {

/// The dependency that one line of a manifest declares: the line, without the
/// white space around it, begins with `depends =`, and the dependency is what
/// follows the first `=`, without the white space around it. A version
/// constraint written behind the name stays part of it.
pub open spec fn dependency_of(line: Seq<char>) -> Option<Seq<char>> {
    let entry = trim(line);
    if "depends ="@.is_prefix_of(entry) {
        Some(trim(entry.skip(find_from(entry, '=', 0) + 1)))
    } else {
        None
    }
}

/// The dependencies that a manifest declares, in the order of its lines and
/// as often as it declares them.
pub open spec fn dependencies(manifest: Seq<char>) -> Seq<Seq<char>> {
    lines(manifest).filter_map(|line: Seq<char>| dependency_of(line))
}

/// The address of a search for `query`.
pub open spec fn search_address(query: Seq<char>) -> Seq<char> {
    "https://aur.archlinux.org/rpc/?v=5&type=search&arg="@ + query
}

/// The address of an info query for the packages `names`.
pub open spec fn info_address(names: Seq<Seq<char>>) -> Seq<char> {
    "https://aur.archlinux.org/rpc/?v=5&type=info&arg[]="@ + join(names, "&arg[]="@)
}

/// The address of the manifest of `package`.
pub open spec fn manifest_address(package: Seq<char>) -> Seq<char> {
    "https://aur.archlinux.org/cgit/aur.git/plain/.SRCINFO?h="@ + package
}

/// The address of the source repository of `package`.
pub open spec fn repository_address(package: Seq<char>) -> Seq<char> {
    "https://aur.archlinux.org/"@ + package + ".git"@
}

/// The directory in which the sources of packages are kept for `user`.
pub open spec fn cache_path(user: Seq<char>) -> Seq<char> {
    "/home/"@ + user + "/.cache/aurorus"@
}

/// The directory of the sources of `package` under `cache_dir`.
pub open spec fn checkout_path(cache_dir: Seq<char>, package: Seq<char>) -> Seq<char> {
    cache_dir + "/"@ + package
}

/// Reads the dependency out of `s[from..to]`, one line of a manifest.
fn dependency_in(s: &[char], from: usize, to: usize, key: &[char]) -> (r: Option<String>)
    requires
        from <= to <= s.len(),
        key@ == "depends ="@,
    ensures
        r.deep_view() == dependency_of(s@.subrange(from as int, to as int)),
{
    let (lo, hi) = trim_range(s, from, to);
    let ghost entry = s@.subrange(lo as int, hi as int);
    if !has_prefix(s, lo, hi, key) {
        return None;
    }
    let eq = find_char(s, lo, hi, '=');
    proof {
        reveal_strlit("depends =");
        assert(key@.len() == 9 && key@[8] == '=');
        assert(entry.subrange(0, 9)[8] == '=');
        assert(s@[lo + 8] == '=');
        assert(entry.skip(eq - lo + 1) =~= s@.subrange(eq + 1, hi as int));
    }
    let (a, b) = trim_range(s, eq + 1, hi);
    Some(from_chars(s, a, b))
}

/// Lists the dependencies that a manifest declares. A manifest that declares
/// none yields an empty list.
pub fn parse_dependencies(srcinfo: &str) -> (r: Vec<String>)
    ensures
        r.deep_view() == dependencies(srcinfo@),
{
    let text = to_chars(srcinfo);
    let key = to_chars("depends =");
    let ranges = line_ranges(text.as_slice());
    let ghost all = lines(text@);
    let ghost f = |line: Seq<char>| dependency_of(line);
    let mut out: Vec<String> = Vec::new();
    let mut k: usize = 0;
    assert(all.take(0) =~= Seq::empty());
    assert(out.deep_view() =~= Seq::empty());
    while k < ranges.len()
        invariant
            k <= ranges.len(),
            key@ == "depends ="@,
            all == lines(text@),
            f == |line: Seq<char>| dependency_of(line),
            ranges@.len() == all.len(),
            forall|j: int|
                0 <= j < ranges@.len() ==> (#[trigger] ranges@[j]).0 <= ranges@[j].1 <= text@.len()
                    && text@.subrange(ranges@[j].0 as int, ranges@[j].1 as int) == all[j],
            out.deep_view() == all.take(k as int).filter_map(f),
        decreases ranges.len() - k,
    {
        let ghost before = out.deep_view();
        let (a, b) = ranges[k];
        proof {
            all.lemma_filter_map_take_succ(f, k as int);
        }
        match dependency_in(text.as_slice(), a, b, key.as_slice()) {
            Some(d) => {
                out.push(d);
                assert(out.deep_view() =~= before + seq![d@]);
            },
            None => {
                assert(before + Seq::<Seq<char>>::empty() =~= before);
            },
        }
        k += 1;
    }
    assert(all.take(ranges.len() as int) =~= all);
    out
}

/// The address to ask for a search for `query`.
pub fn search_url(query: &str) -> (r: String)
    ensures
        r@ == search_address(query@),
{
    let mut url = "https://aur.archlinux.org/rpc/?v=5&type=search&arg=".to_owned();
    url.append(query);
    url
}

/// The address to ask for the manifest of `package`.
pub fn srcinfo_url(package: &str) -> (r: String)
    ensures
        r@ == manifest_address(package@),
{
    let mut url = "https://aur.archlinux.org/cgit/aur.git/plain/.SRCINFO?h=".to_owned();
    url.append(package);
    url
}

/// The address of the source repository of `package`.
pub fn repo_url(package: &str) -> (r: String)
    ensures
        r@ == repository_address(package@),
{
    let mut url = "https://aur.archlinux.org/".to_owned();
    url.append(package);
    url.append(".git");
    url
}

/// The address to ask for the records of the packages `names`.
pub fn info_url(names: &Vec<String>) -> (r: String)
    ensures
        r@ == info_address(names.deep_view()),
{
    let ghost parts = names.deep_view();
    let mut list = String::new();
    let mut k: usize = 0;
    assert(parts.take(0) =~= Seq::empty());
    while k < names.len()
        invariant
            k <= names.len(),
            parts == names.deep_view(),
            list@ == join(parts.take(k as int), "&arg[]="@),
        decreases names.len() - k,
    {
        proof {
            let next = parts.take(k + 1);
            assert(next.drop_last() =~= parts.take(k as int));
            assert(next.last() == names[k as int]@);
            if k == 0 {
                assert(list@ + names[0]@ =~= names[0]@);
            } else {
                assert(list@ + "&arg[]="@ + names[k as int]@ =~= join(next, "&arg[]="@));
            }
        }
        if k > 0 {
            list.append("&arg[]=");
        }
        list.append(names[k].as_str());
        k += 1;
    }
    assert(parts.take(names.len() as int) =~= parts);
    let mut url = "https://aur.archlinux.org/rpc/?v=5&type=info&arg[]=".to_owned();
    url.append(list.as_str());
    url
}

/// The directory in which the sources of packages are kept for `user`.
pub fn cache_dir(user: &str) -> (r: String)
    ensures
        r@ == cache_path(user@),
{
    let mut path = "/home/".to_owned();
    path.append(user);
    path.append("/.cache/aurorus");
    path
}

/// The directory of the sources of `package` under `cache_dir`.
pub fn checkout_dir(cache_dir: &str, package: &str) -> (r: String)
    ensures
        r@ == checkout_path(cache_dir@, package@),
{
    let mut path = cache_dir.to_owned();
    path.append("/");
    path.append(package);
    path
}

/// Accepts a reply to a search or info query once its status is known to be
/// a success: the payload must have been read into a response.
pub fn accept_reply(payload: Option<AurResponse>) -> (r: Result<AurResponse, AurorusError>)
    ensures
        r == match payload {
            Some(response) => Ok::<AurResponse, AurorusError>(response),
            None => Err::<AurResponse, AurorusError>(
                AurorusError::Protocol(ProtocolFault::Payload),
            ),
        },
{
    match payload {
        Some(response) => Ok(response),
        None => Err(AurorusError::Protocol(ProtocolFault::Payload)),
    }
}

} // verus!

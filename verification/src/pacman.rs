//! Reading what the local package manager prints.

use vstd::prelude::*;
use crate::text::{after_last, after_last_range, from_chars, line_ranges, lines, to_chars, word_ranges, words};
use crate::update::{InstalledModel, InstalledPackage};

verus! {

/// The installed package that one line of the list of foreign packages
/// names: the first word is its name, the second its version. A line of fewer
/// than two words names none.
pub open spec fn installed_of(line: Seq<char>) -> Option<InstalledModel> {
    let w = words(line);
    if w.len() >= 2 {
        Some(InstalledModel { name: w[0], installed_version: w[1] })
    } else {
        None
    }
}

/// The installed packages that the list of foreign packages names, in order.
pub open spec fn installed_packages(listing: Seq<char>) -> Seq<InstalledModel> {
    lines(listing).filter_map(|line: Seq<char>| installed_of(line))
}

/// The name of a package without the repository that may stand before it,
/// as in `core/zlib`.
pub open spec fn unqualified(name: Seq<char>) -> Seq<char> {
    after_last(name, '/')
}

/// Splits what the local search printed into its lines.
pub fn split_lines(output: &str) -> (r: Vec<String>)
    ensures
        r.deep_view() == lines(output@),
{
    let text = to_chars(output);
    let ranges = line_ranges(text.as_slice());
    let mut out: Vec<String> = Vec::new();
    let mut k: usize = 0;
    while k < ranges.len()
        invariant
            k <= ranges.len(),
            ranges@.len() == lines(text@).len(),
            forall|j: int|
                0 <= j < ranges@.len() ==> (#[trigger] ranges@[j]).0 <= ranges@[j].1 <= text@.len()
                    && text@.subrange(ranges@[j].0 as int, ranges@[j].1 as int) == lines(
                    text@,
                )[j],
            out.len() == k,
            forall|j: int| 0 <= j < k ==> (#[trigger] out[j])@ == lines(text@)[j],
        decreases ranges.len() - k,
    {
        let (a, b) = ranges[k];
        out.push(from_chars(text.as_slice(), a, b));
        k += 1;
    }
    assert(out.deep_view() =~= lines(output@));
    out
}

/// Reads the list of foreign packages that the local package manager prints,
/// one package and its version to a line.
pub fn parse_installed(listing: &str) -> (r: Vec<InstalledPackage>)
    ensures
        r.deep_view() == installed_packages(listing@),
{
    let text = to_chars(listing);
    let ranges = line_ranges(text.as_slice());
    let ghost all = lines(text@);
    let ghost f = |line: Seq<char>| installed_of(line);
    let mut out: Vec<InstalledPackage> = Vec::new();
    let mut k: usize = 0;
    assert(all.take(0) =~= Seq::empty());
    assert(out.deep_view() =~= Seq::empty());
    while k < ranges.len()
        invariant
            k <= ranges.len(),
            all == lines(text@),
            f == |line: Seq<char>| installed_of(line),
            ranges@.len() == all.len(),
            forall|j: int|
                0 <= j < ranges@.len() ==> (#[trigger] ranges@[j]).0 <= ranges@[j].1 <= text@.len()
                    && text@.subrange(ranges@[j].0 as int, ranges@[j].1 as int) == all[j],
            out.deep_view() == all.take(k as int).filter_map(f),
        decreases ranges.len() - k,
    {
        let ghost before = out.deep_view();
        let (a, b) = ranges[k];
        proof {
            all.lemma_filter_map_take_succ(f, k as int);
        }
        let w = word_ranges(text.as_slice(), a, b);
        if w.len() >= 2 {
            let package = InstalledPackage {
                name: from_chars(text.as_slice(), w[0].0, w[0].1),
                installed_version: from_chars(text.as_slice(), w[1].0, w[1].1),
            };
            out.push(package);
            assert(out.deep_view() =~= before + seq![package@]);
        } else {
            assert(before + Seq::<InstalledModel>::empty() =~= before);
        }
        k += 1;
    }
    assert(all.take(ranges.len() as int) =~= all);
    out
}

/// The name under which the local package manager knows a package that a
/// search lists as `name`: `name` without the repository before it.
pub fn bare_name(name: &str) -> (r: String)
    ensures
        r@ == unqualified(name@),
{
    let text = to_chars(name);
    let from = after_last_range(text.as_slice(), 0, text.len(), '/');
    assert(text@.subrange(0, text.len() as int) =~= text@);
    from_chars(text.as_slice(), from, text.len())
}

} // verus!

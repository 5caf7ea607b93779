//! Update check: batching the installed packages for the remote service and
//! finding those whose remote version is newer.

use vstd::prelude::*;
use crate::text::{
    eq_ignore_case, matches_ignore_case, parse_number, parse_usize, to_chars, trim, trim_range,
    word_ranges, words,
};
use crate::types::{AurPackage, AurPackageModel};
use crate::version::{compare, spec_compare, VersionOrder};

verus! {

/// The most names that the remote service takes in one request.
pub const CHUNK_SIZE: usize = 50;

/// The most requests that may be in flight at one time.
pub const MAX_IN_FLIGHT: usize = 4;

/// A package that is installed from outside the repositories.
#[derive(Debug, Clone)]
pub struct InstalledPackage {
    pub name: String,
    pub installed_version: String,
}

/// The model of an [`InstalledPackage`].
pub struct InstalledModel {
    pub name: Seq<char>,
    pub installed_version: Seq<char>,
}

impl View for InstalledPackage {
    type V = InstalledModel;

    open spec fn view(&self) -> InstalledModel {
        InstalledModel { name: self.name@, installed_version: self.installed_version@ }
    }
}

impl DeepView for InstalledPackage {
    type V = InstalledModel;

    open spec fn deep_view(&self) -> InstalledModel {
        self@
    }
}

/// An installed package of which the remote service has a newer version.
#[derive(Debug, Clone)]
pub struct UpdateCandidate {
    pub name: String,
    pub installed_version: String,
    pub remote_version: String,
}

/// The model of an [`UpdateCandidate`].
pub struct CandidateModel {
    pub name: Seq<char>,
    pub installed_version: Seq<char>,
    pub remote_version: Seq<char>,
}

impl View for UpdateCandidate {
    type V = CandidateModel;

    open spec fn view(&self) -> CandidateModel {
        CandidateModel {
            name: self.name@,
            installed_version: self.installed_version@,
            remote_version: self.remote_version@,
        }
    }
}

impl DeepView for UpdateCandidate {
    type V = CandidateModel;

    open spec fn deep_view(&self) -> CandidateModel {
        self@
    }
}

/// What one update check found.
#[derive(Debug)]
pub struct UpdateReport {
    /// The candidates, chunk by chunk in the order the chunks were handed in.
    pub candidates: Vec<UpdateCandidate>,
    /// How many chunk queries failed.
    pub failed_chunks: usize,
}

/// `s` cut into consecutive pieces of `size` items; the last piece may be shorter.
pub open spec fn chunks<T>(s: Seq<T>, size: nat) -> Seq<Seq<T>>
    decreases s.len(),
{
    if s.len() == 0 || size == 0 {
        Seq::empty()
    } else if s.len() <= size {
        seq![s]
    } else {
        seq![s.take(size as int)] + chunks(s.skip(size as int), size)
    }
}

/// The names of the installed packages, in order.
pub open spec fn names_of(installed: Seq<InstalledModel>) -> Seq<Seq<char>> {
    installed.map_values(|p: InstalledModel| p.name)
}

/// Position of the first package called `name` at or after `i`, or
/// `installed.len()` if there is none.
pub open spec fn position_from(installed: Seq<InstalledModel>, name: Seq<char>, i: int) -> int
    decreases installed.len() - i,
{
    if 0 <= i < installed.len() && installed[i].name != name {
        position_from(installed, name, i + 1)
    } else {
        i
    }
}

/// The candidate that a comparison outcome yields: one only where the remote
/// version is the greater.
pub open spec fn candidate_of(
    local: InstalledModel,
    pkg: AurPackageModel,
    order: VersionOrder,
) -> Option<CandidateModel> {
    if order == VersionOrder::Greater {
        Some(
            CandidateModel {
                name: pkg.name,
                installed_version: local.installed_version,
                remote_version: pkg.version,
            },
        )
    } else {
        None
    }
}

/// The candidate that the remote record `pkg` yields against the installed
/// packages: the record is matched by name with the first installed package of
/// that name, and counts only if its version compares greater.
pub open spec fn candidate_for(installed: Seq<InstalledModel>, pkg: AurPackageModel) -> Option<
    CandidateModel,
> {
    let k = position_from(installed, pkg.name, 0);
    if k < installed.len() {
        candidate_of(
            installed[k],
            pkg,
            spec_compare(pkg.version, installed[k].installed_version),
        )
    } else {
        None
    }
}

/// The candidates among the records of one reply, in the reply's order.
pub open spec fn chunk_candidates(
    installed: Seq<InstalledModel>,
    records: Seq<AurPackageModel>,
) -> Seq<CandidateModel>
    decreases records.len(),
{
    if records.len() == 0 {
        Seq::empty()
    } else {
        let rest = chunk_candidates(installed, records.drop_last());
        match candidate_for(installed, records.last()) {
            Some(c) => rest.push(c),
            None => rest,
        }
    }
}

/// The candidates of one chunk's outcome: none where the query failed.
pub open spec fn outcome_candidates(
    installed: Seq<InstalledModel>,
    outcome: Option<Seq<AurPackageModel>>,
) -> Seq<CandidateModel> {
    match outcome {
        Some(records) => chunk_candidates(installed, records),
        None => Seq::empty(),
    }
}

/// The candidates of all outcomes, in the order of the outcomes.
pub open spec fn all_candidates(
    installed: Seq<InstalledModel>,
    outcomes: Seq<Option<Seq<AurPackageModel>>>,
) -> Seq<CandidateModel>
    decreases outcomes.len(),
{
    if outcomes.len() == 0 {
        Seq::empty()
    } else {
        all_candidates(installed, outcomes.drop_last()) + outcome_candidates(
            installed,
            outcomes.last(),
        )
    }
}

/// How many of the outcomes are failures.
pub open spec fn failures(outcomes: Seq<Option<Seq<AurPackageModel>>>) -> nat
    decreases outcomes.len(),
{
    if outcomes.len() == 0 {
        0
    } else {
        failures(outcomes.drop_last()) + if outcomes.last() is None {
            1nat
        } else {
            0nat
        }
    }
}

/// The position that the word `word` picks among `count` candidates: the
/// number it writes, less one, if that number is between 1 and `count`.
pub open spec fn picked(word: Seq<char>, count: nat) -> Option<usize> {
    match parse_number(word) {
        Some(n) => if 1 <= n <= count && n <= usize::MAX {
            Some((n - 1) as usize)
        } else {
            None
        },
        None => None,
    }
}

/// The positions of the candidates that a line of input picks out of `count`
/// candidates. The word `back`, in any case, picks nothing and steps back; an
/// empty line picks every candidate; any other line picks the candidates
/// whose numbers it lists, in the order and as often as it lists them, and
/// passes over words that are no number from 1 to `count`.
pub open spec fn picked_positions(input: Seq<char>, count: nat) -> Option<Seq<usize>> {
    let line = trim(input);
    if eq_ignore_case(line, "back"@) {
        None
    } else if line.len() == 0 {
        Some(Seq::new(count, |i: int| i as usize))
    } else {
        Some(words(line).filter_map(|word: Seq<char>| picked(word, count)))
    }
}

/// Cuts the names of the installed packages into the batches to query: in
/// order, [`CHUNK_SIZE`] names each, the last batch with what is left.
pub fn chunk_names(installed: &Vec<InstalledPackage>) -> (r: Vec<Vec<String>>)
    ensures
        r.deep_view() == chunks(names_of(installed.deep_view()), CHUNK_SIZE as nat),
{
    let ghost names = names_of(installed.deep_view());
    let n = installed.len();
    let mut out: Vec<Vec<String>> = Vec::new();
    let mut cur: Vec<String> = Vec::new();
    let mut i: usize = 0;
    assert(names.skip(0) =~= names);
    assert(out.deep_view() =~= Seq::<Seq<Seq<char>>>::empty());
    assert(Seq::<Seq<Seq<char>>>::empty() + chunks(names, 50) =~= chunks(names, 50));
    while i < n
        invariant
            n == installed.len(),
            names == names_of(installed.deep_view()),
            names.len() == n,
            0 <= i - cur.len() <= i <= n,
            cur.len() <= 50,
            cur.len() == 0 ==> i == 0 || i == n,
            cur.deep_view() == names.subrange(i - cur.len(), i as int),
            out.deep_view() + chunks(names.skip(i - cur.len()), 50) == chunks(names, 50),
        decreases n - i,
    {
        if cur.len() == CHUNK_SIZE {
            proof {
                let base = i - cur.len();
                let rest = names.skip(base);
                assert(rest.take(50) =~= cur.deep_view());
                assert(rest.skip(50) =~= names.skip(i as int));
                assert(out.deep_view().push(cur.deep_view()) + chunks(names.skip(i as int), 50)
                    =~= out.deep_view() + (seq![rest.take(50)] + chunks(rest.skip(50), 50)));
            }
            let ghost before = out.deep_view();
            let ghost full = cur.deep_view();
            out.push(cur);
            cur = Vec::new();
            assert(out.deep_view() =~= before.push(full));
            assert(cur.deep_view() =~= names.subrange(i as int, i as int));
        }
        let ghost before = cur.deep_view();
        cur.push(installed[i].name.clone());
        assert(cur.deep_view() =~= before.push(names[i as int]));
        assert(cur.deep_view() =~= names.subrange(i + 1 - cur.len(), i + 1));
        i += 1;
    }
    if cur.len() > 0 {
        proof {
            let base = n - cur.len();
            assert(names.skip(base) =~= cur.deep_view());
            assert(out.deep_view().push(cur.deep_view()) =~= out.deep_view() + seq![
                names.skip(base),
            ]);
        }
        let ghost before = out.deep_view();
        let ghost last = cur.deep_view();
        out.push(cur);
        assert(out.deep_view() =~= before.push(last));
    } else {
        assert(out.deep_view() + Seq::<Seq<Seq<char>>>::empty() =~= out.deep_view());
    }
    out
}

/// Finds the first installed package called `name`.
pub fn find_installed(installed: &Vec<InstalledPackage>, name: &String) -> (r: Option<usize>)
    ensures
        match r {
            Some(k) => k < installed.len() && k == position_from(
                installed.deep_view(),
                name@,
                0,
            ),
            None => position_from(installed.deep_view(), name@, 0) == installed.len(),
        },
{
    let ghost models = installed.deep_view();
    let mut k: usize = 0;
    while k < installed.len()
        invariant
            k <= installed.len(),
            models == installed.deep_view(),
            position_from(models, name@, 0) == position_from(models, name@, k as int),
        decreases installed.len() - k,
    {
        if installed[k].name == *name {
            return Some(k);
        }
        k += 1;
    }
    None
}

/// Makes the update candidate that the outcome `order` of comparing the remote
/// version of `pkg` with the installed version of `local` calls for.
pub fn candidate_from(local: &InstalledPackage, pkg: &AurPackage, order: VersionOrder) -> (r:
    Option<UpdateCandidate>)
    ensures
        r.deep_view() == candidate_of(local@, pkg@, order),
{
    if order.is_newer() {
        Some(
            UpdateCandidate {
                name: pkg.name.clone(),
                installed_version: local.installed_version.clone(),
                remote_version: pkg.version.clone(),
            },
        )
    } else {
        None
    }
}

/// The update candidate that one remote record yields, if any.
pub fn check_record(installed: &Vec<InstalledPackage>, pkg: &AurPackage) -> (r: Option<
    UpdateCandidate,
>)
    ensures
        r.deep_view() == candidate_for(installed.deep_view(), pkg@),
{
    match find_installed(installed, &pkg.name) {
        Some(k) => {
            let local = &installed[k];
            let order = compare(pkg.version.as_str(), local.installed_version.as_str());
            candidate_from(local, pkg, order)
        },
        None => None,
    }
}

/// Gathers the update candidates from the outcomes of the chunk queries. An
/// outcome is the records of a reply, or `None` where the query failed; a
/// failed query adds no candidate and is counted.
pub fn collect_updates(
    installed: &Vec<InstalledPackage>,
    outcomes: &Vec<Option<Vec<AurPackage>>>,
) -> (r: UpdateReport)
    ensures
        r.candidates.deep_view() == all_candidates(installed.deep_view(), outcomes.deep_view()),
        r.failed_chunks == failures(outcomes.deep_view()),
{
    let ghost inst = installed.deep_view();
    let ghost outs = outcomes.deep_view();
    let mut candidates: Vec<UpdateCandidate> = Vec::new();
    let mut failed: usize = 0;
    let mut i: usize = 0;
    assert(outs.take(0) =~= Seq::empty());
    assert(candidates.deep_view() =~= Seq::empty());
    while i < outcomes.len()
        invariant
            i <= outcomes.len(),
            inst == installed.deep_view(),
            outs == outcomes.deep_view(),
            candidates.deep_view() == all_candidates(inst, outs.take(i as int)),
            failed == failures(outs.take(i as int)),
            failed <= i,
        decreases outcomes.len() - i,
    {
        let ghost before = candidates.deep_view();
        assert(outs.take(i + 1).drop_last() =~= outs.take(i as int));
        assert(outs.take(i + 1).last() == outs[i as int]);
        match &outcomes[i] {
            None => {
                failed += 1;
                assert(before + Seq::<CandidateModel>::empty() =~= before);
            },
            Some(records) => {
                let ghost recs = records.deep_view();
                assert(recs == outs[i as int]->0);
                let mut j: usize = 0;
                assert(recs.take(0) =~= Seq::empty());
                assert(before + Seq::<CandidateModel>::empty() =~= before);
                while j < records.len()
                    invariant
                        j <= records.len(),
                        inst == installed.deep_view(),
                        recs == records.deep_view(),
                        candidates.deep_view() == before + chunk_candidates(
                            inst,
                            recs.take(j as int),
                        ),
                    decreases records.len() - j,
                {
                    let ghost sofar = candidates.deep_view();
                    assert(recs.take(j + 1).drop_last() =~= recs.take(j as int));
                    assert(recs.take(j + 1).last() == records[j as int]@);
                    match check_record(installed, &records[j]) {
                        Some(c) => {
                            candidates.push(c);
                            assert(candidates.deep_view() =~= sofar.push(c@));
                            assert(sofar.push(c@) =~= before + chunk_candidates(
                                inst,
                                recs.take(j as int),
                            ).push(c@));
                        },
                        None => {},
                    }
                    j += 1;
                }
                assert(recs.take(records.len() as int) =~= recs);
            },
        }
        i += 1;
    }
    assert(outs.take(outcomes.len() as int) =~= outs);
    UpdateReport { candidates, failed_chunks: failed }
}

/// Reads which of `count` update candidates a line of input picks: their
/// positions in the list of candidates, or `None` where the line steps back.
pub fn select_updates(input: &str, count: usize) -> (r: Option<Vec<usize>>)
    ensures
        r.deep_view() == picked_positions(input@, count as nat),
{
    let chars = to_chars(input);
    let (lo, hi) = trim_range(chars.as_slice(), 0, chars.len());
    assert(chars@.subrange(0, chars.len() as int) =~= chars@);
    let ghost line = chars@.subrange(lo as int, hi as int);
    let back = to_chars("back");
    if matches_ignore_case(chars.as_slice(), lo, hi, back.as_slice()) {
        return None;
    }
    let mut out: Vec<usize> = Vec::new();
    if lo == hi {
        let mut i: usize = 0;
        while i < count
            invariant
                i <= count,
                out.len() == i,
                forall|j: int| 0 <= j < i ==> out[j] == j,
            decreases count - i,
        {
            out.push(i);
            i += 1;
        }
        assert(out.deep_view() =~= Seq::new(count as nat, |i: int| i as usize));
        return Some(out);
    }
    let ranges = word_ranges(chars.as_slice(), lo, hi);
    let ghost all = words(line);
    let ghost f = |word: Seq<char>| picked(word, count as nat);
    let mut k: usize = 0;
    assert(all.take(0) =~= Seq::empty());
    assert(out.deep_view() =~= Seq::empty());
    while k < ranges.len()
        invariant
            k <= ranges.len(),
            lo <= hi <= chars.len(),
            all == words(chars@.subrange(lo as int, hi as int)),
            f == |word: Seq<char>| picked(word, count as nat),
            ranges@.len() == all.len(),
            forall|j: int|
                0 <= j < ranges@.len() ==> lo <= (#[trigger] ranges@[j]).0 < ranges@[j].1 <= hi
                    && chars@.subrange(ranges@[j].0 as int, ranges@[j].1 as int) == all[j],
            out.deep_view() == all.take(k as int).filter_map(f),
        decreases ranges.len() - k,
    {
        let ghost before = out.deep_view();
        let (a, b) = ranges[k];
        proof {
            all.lemma_filter_map_take_succ(f, k as int);
        }
        let mut pick: Option<usize> = None;
        match parse_usize(chars.as_slice(), a, b) {
            Some(n) => {
                if 1 <= n && n <= count {
                    pick = Some(n - 1);
                }
            },
            None => {},
        }
        assert(pick == picked(all[k as int], count as nat));
        match pick {
            Some(position) => {
                out.push(position);
                assert(out.deep_view() =~= before + seq![position]);
            },
            None => {
                assert(before + Seq::<usize>::empty() =~= before);
            },
        }
        k += 1;
    }
    assert(all.take(ranges.len() as int) =~= all);
    Some(out)
}

/// The shape of a batching: every batch holds between one and `size` items,
/// every batch but the last holds `size`, and the batches laid end to end are
/// the input. For 120 items and batches of 50 this gives batches of 50, 50
/// and 20.
pub proof fn lemma_chunks_shape<T>(s: Seq<T>, size: nat)
    requires
        size > 0,
    ensures
        chunks(s, size).flatten() == s,
        chunks(s, size).len() == (s.len() + size - 1) / size as int,
        forall|k: int|
            0 <= k < chunks(s, size).len() ==> 0 < (#[trigger] chunks(s, size)[k]).len() <= size,
        forall|k: int|
            0 <= k < chunks(s, size).len() - 1 ==> (#[trigger] chunks(s, size)[k]).len() == size,
    decreases s.len(),
{
    let c = chunks(s, size);
    if s.len() == 0 {
        assert(c.flatten() =~= s);
        assert((0 + size - 1) / size as int == 0) by (nonlinear_arith)
            requires
                size > 0,
        ;
    } else if s.len() <= size {
        assert(c =~= seq![s]);
        assert(c.drop_first() =~= Seq::<Seq<T>>::empty());
        assert(c.drop_first().flatten() =~= Seq::<T>::empty());
        assert(c.flatten() =~= s);
        let n = s.len();
        assert((n + size - 1) / size as int == 1) by (nonlinear_arith)
            requires
                0 < n <= size,
        ;
    } else {
        let rest = s.skip(size as int);
        let tail = chunks(rest, size);
        lemma_chunks_shape(rest, size);
        assert(c.drop_first() =~= tail);
        assert(c.flatten() =~= s.take(size as int) + tail.flatten());
        assert(s.take(size as int) + rest =~= s);
        let n = s.len();
        assert((n + size - 1) / size as int == (n - size + size - 1) / size as int + 1)
            by (nonlinear_arith)
            requires
                n > size > 0,
        ;
        assert forall|k: int| 0 <= k < c.len() implies 0 < (#[trigger] c[k]).len() <= size by {
            if k > 0 {
                assert(c[k] == tail[k - 1]);
            }
        }
        assert forall|k: int| 0 <= k < c.len() - 1 implies (#[trigger] c[k]).len() == size by {
            if k > 0 {
                assert(c[k] == tail[k - 1]);
            }
        }
    }
}

/// The candidates of several outcomes are those of each outcome laid end to
/// end: what one chunk yields does not depend on any other chunk.
pub proof fn lemma_candidates_concat(
    installed: Seq<InstalledModel>,
    a: Seq<Option<Seq<AurPackageModel>>>,
    b: Seq<Option<Seq<AurPackageModel>>>,
)
    ensures
        all_candidates(installed, a + b) == all_candidates(installed, a) + all_candidates(
            installed,
            b,
        ),
        failures(a + b) == failures(a) + failures(b),
    decreases b.len(),
{
    if b.len() == 0 {
        assert(a + b =~= a);
        assert(all_candidates(installed, a) + Seq::<CandidateModel>::empty() =~= all_candidates(
            installed,
            a,
        ));
    } else {
        lemma_candidates_concat(installed, a, b.drop_last());
        assert((a + b).drop_last() =~= a + b.drop_last());
        assert((a + b).last() == b.last());
        assert((all_candidates(installed, a) + all_candidates(installed, b.drop_last()))
            + outcome_candidates(installed, b.last()) =~= all_candidates(installed, a) + (
        all_candidates(installed, b.drop_last()) + outcome_candidates(installed, b.last())));
    }
}

/// A failed chunk is isolated: if the query of chunk `k` fails, the report
/// holds exactly the candidates of the chunks before and after it, and one
/// failure more than those chunks had.
pub proof fn lemma_chunk_isolation(
    installed: Seq<InstalledModel>,
    outcomes: Seq<Option<Seq<AurPackageModel>>>,
    k: int,
)
    requires
        0 <= k < outcomes.len(),
    ensures
        all_candidates(installed, outcomes.update(k, None)) == all_candidates(
            installed,
            outcomes.take(k),
        ) + all_candidates(installed, outcomes.skip(k + 1)),
        failures(outcomes.update(k, None)) == failures(outcomes.take(k)) + 1 + failures(
            outcomes.skip(k + 1),
        ),
{
    let failed: Seq<Option<Seq<AurPackageModel>>> = seq![None];
    let before = outcomes.take(k);
    let after = outcomes.skip(k + 1);
    assert(outcomes.update(k, None) =~= (before + failed) + after);
    lemma_candidates_concat(installed, before + failed, after);
    lemma_candidates_concat(installed, before, failed);
    assert(failed.drop_last() =~= Seq::empty());
    assert(failed.last() is None);
    assert(all_candidates(installed, failed.drop_last()) =~= Seq::empty());
    assert(failures(failed.drop_last()) == 0);
    assert(all_candidates(installed, failed) =~= Seq::empty());
    assert(failures(failed) == 1);
    assert(all_candidates(installed, before) + Seq::<CandidateModel>::empty() =~= all_candidates(
        installed,
        before,
    ));
}

} // verus!

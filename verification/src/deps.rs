//! Dependencies of a package: which of them are installed, which are missing.

use vstd::prelude::*;
use crate::text::{eq_ignore_case, matches_ignore_case, to_chars, trim, trim_range};

verus! {

/// A dependency together with the answer to whether it is installed.
#[derive(Debug, Clone)]
pub struct Probed {
    pub name: String,
    pub installed: bool,
}

/// The model of a [`Probed`] dependency.
pub struct ProbedModel {
    pub name: Seq<char>,
    pub installed: bool,
}

impl View for Probed {
    type V = ProbedModel;

    open spec fn view(&self) -> ProbedModel {
        ProbedModel { name: self.name@, installed: self.installed }
    }
}

impl DeepView for Probed {
    type V = ProbedModel;

    open spec fn deep_view(&self) -> ProbedModel {
        self@
    }
}

/// The dependencies of a package, sorted by whether they are installed.
#[derive(Debug)]
pub struct DependencyReport {
    /// The dependencies that are installed, in the order of the manifest.
    pub installed: Vec<String>,
    /// The dependencies that are missing, in the order of the manifest.
    pub missing: Vec<String>,
}

/// The names of the dependencies whose answer is `installed`, in order.
pub open spec fn names_with(probed: Seq<ProbedModel>, installed: bool) -> Seq<Seq<char>> {
    probed.filter_map(
        |p: ProbedModel|
            if p.installed == installed {
                Some(p.name)
            } else {
                None
            },
    )
}

/// Whether `probed` holds the dependencies `deps`, in order, each with an
/// answer that `is_installed` may give for it.
pub open spec fn answered_by<F: Fn(&String) -> bool>(
    probed: Seq<Probed>,
    deps: Seq<String>,
    is_installed: F,
) -> bool {
    &&& probed.len() == deps.len()
    &&& forall|i: int|
        0 <= i < deps.len() ==> (#[trigger] probed[i]).name == deps[i] && call_ensures(
            is_installed,
            (&deps[i],),
            probed[i].installed,
        )
}

/// Whether a line of input says yes: the letter `y` in either case, with any
/// white space around it.
pub open spec fn says_yes(input: Seq<char>) -> bool {
    eq_ignore_case(trim(input), "y"@)
}

/// Asks `is_installed` about each dependency, once and in order.
pub fn probe<F: Fn(&String) -> bool>(deps: Vec<String>, is_installed: F) -> (r: Vec<Probed>)
    requires
        forall|i: int| 0 <= i < deps.len() ==> call_requires(is_installed, (&deps[i],)),
    ensures
        answered_by(r@, deps@, is_installed),
{
    let ghost items = deps@;
    let mut out: Vec<Probed> = Vec::new();
    for dep in it: deps
        invariant
            it.seq() == items,
            forall|i: int| 0 <= i < items.len() ==> call_requires(is_installed, (&items[i],)),
            out.len() == it.index(),
            forall|i: int|
                0 <= i < it.index() ==> (#[trigger] out[i]).name == items[i] && call_ensures(
                    is_installed,
                    (&items[i],),
                    out[i].installed,
                ),
    {
        let installed = is_installed(&dep);
        out.push(Probed { name: dep, installed });
    }
    out
}

/// Sorts probed dependencies into those installed and those missing. Both
/// lists keep the order of the input, and a dependency listed twice is kept
/// twice.
pub fn classify_probed(probed: Vec<Probed>) -> (r: DependencyReport)
    ensures
        r.installed.deep_view() == names_with(probed.deep_view(), true),
        r.missing.deep_view() == names_with(probed.deep_view(), false),
{
    let ghost all = probed.deep_view();
    let ghost items = probed@;
    let ghost yes = |p: ProbedModel|
        if p.installed == true {
            Some(p.name)
        } else {
            None
        };
    let ghost no = |p: ProbedModel|
        if p.installed == false {
            Some(p.name)
        } else {
            None
        };
    let mut installed: Vec<String> = Vec::new();
    let mut missing: Vec<String> = Vec::new();
    assert(all.take(0) =~= Seq::empty());
    assert(installed.deep_view() =~= Seq::empty());
    assert(missing.deep_view() =~= Seq::empty());
    for p in it: probed
        invariant
            it.seq() == items,
            all.len() == items.len(),
            forall|i: int| 0 <= i < items.len() ==> all[i] == (#[trigger] items[i])@,
            yes == |p: ProbedModel|
                if p.installed == true {
                    Some(p.name)
                } else {
                    None
                },
            no == |p: ProbedModel|
                if p.installed == false {
                    Some(p.name)
                } else {
                    None
                },
            installed.deep_view() == all.take(it.index() as int).filter_map(yes),
            missing.deep_view() == all.take(it.index() as int).filter_map(no),
    {
        let ghost had = installed.deep_view();
        let ghost lacked = missing.deep_view();
        proof {
            all.lemma_filter_map_take_succ(yes, it.index() as int);
            all.lemma_filter_map_take_succ(no, it.index() as int);
        }
        if p.installed {
            installed.push(p.name);
            assert(installed.deep_view() =~= had + seq![p@.name]);
            assert(lacked + Seq::<Seq<char>>::empty() =~= lacked);
        } else {
            missing.push(p.name);
            assert(missing.deep_view() =~= lacked + seq![p@.name]);
            assert(had + Seq::<Seq<char>>::empty() =~= had);
        }
    }
    assert(all.take(items.len() as int) =~= all);
    DependencyReport { installed, missing }
}

/// Sorts the dependencies `deps` into those that `is_installed` reports as
/// installed and those that it reports as missing.
pub fn classify<F: Fn(&String) -> bool>(deps: Vec<String>, is_installed: F) -> (r:
    DependencyReport)
    requires
        forall|i: int| 0 <= i < deps.len() ==> call_requires(is_installed, (&deps[i],)),
    ensures
        exists|probed: Seq<Probed>|
            #![trigger answered_by(probed, deps@, is_installed)]
            answered_by(probed, deps@, is_installed) && r.installed.deep_view() == names_with(
                probed.map_values(|p: Probed| p@),
                true,
            ) && r.missing.deep_view() == names_with(probed.map_values(|p: Probed| p@), false),
{
    let probed = probe(deps, is_installed);
    assert(probed.deep_view() =~= probed@.map_values(|p: Probed| p@));
    assert(answered_by(probed@, deps@, is_installed));
    classify_probed(probed)
}

/// Whether a line of input agrees to the question asked.
pub fn is_yes(input: &str) -> (r: bool)
    ensures
        r == says_yes(input@),
{
    let chars = to_chars(input);
    let (lo, hi) = trim_range(chars.as_slice(), 0, chars.len());
    assert(chars@.subrange(0, chars.len() as int) =~= chars@);
    let yes = to_chars("y");
    matches_ignore_case(chars.as_slice(), lo, hi, yes.as_slice())
}

} // verus!

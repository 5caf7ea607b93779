//! The catalog: remote and local search results merged into one numbered,
//! selectable list.

use vstd::prelude::*;
use crate::error::{AurorusError, SelectionFault};
use crate::text::{
    eq_ignore_case, find_char, find_from, from_chars, is_indented, is_whitespace,
    matches_ignore_case, parse_number, parse_usize, to_chars, trim, trim_range, word_ranges,
    words,
};
use crate::types::{opt_text, AurPackage, AurPackageModel};

verus! {

/// Where a record comes from.
#[derive(Clone, Copy, Debug, PartialEq, Eq, Structural)]
pub enum Source {
    Remote,
    Local,
}

/// One package of a search result.
#[derive(Debug, Clone)]
pub struct PackageRecord {
    pub name: String,
    pub version: String,
    pub source: Source,
    pub popularity: Option<u32>,
    pub description: Option<String>,
    pub homepage: Option<String>,
}

/// The model of a [`PackageRecord`].
pub struct RecordModel {
    pub name: Seq<char>,
    pub version: Seq<char>,
    pub source: Source,
    pub popularity: Option<u32>,
    pub description: Option<Seq<char>>,
    pub homepage: Option<Seq<char>>,
}

impl View for PackageRecord {
    type V = RecordModel;

    open spec fn view(&self) -> RecordModel {
        RecordModel {
            name: self.name@,
            version: self.version@,
            source: self.source,
            popularity: self.popularity,
            description: opt_text(self.description),
            homepage: opt_text(self.homepage),
        }
    }
}

impl DeepView for PackageRecord {
    type V = RecordModel;

    open spec fn deep_view(&self) -> RecordModel {
        self@
    }
}

/// A record with the index under which it can be selected.
#[derive(Debug, Clone)]
pub struct CatalogEntry {
    pub index: usize,
    pub record: PackageRecord,
}

/// The model of a [`CatalogEntry`].
pub struct EntryModel {
    pub index: nat,
    pub record: RecordModel,
}

impl View for CatalogEntry {
    type V = EntryModel;

    open spec fn view(&self) -> EntryModel {
        EntryModel { index: self.index as nat, record: self.record@ }
    }
}

impl DeepView for CatalogEntry {
    type V = EntryModel;

    open spec fn deep_view(&self) -> EntryModel {
        self@
    }
}

/// The merged, numbered view over the results of one query.
#[derive(Debug)]
pub struct Catalog {
    entries: Vec<CatalogEntry>,
}

/// What a line of input asks of a catalog.
#[derive(Debug)]
pub enum Selection<'a> {
    /// The user steps back without selecting.
    Back,
    /// The user selects this entry.
    Entry(&'a CatalogEntry),
}

/// The record that a package of the remote service stands for.
pub open spec fn remote_record(p: AurPackageModel) -> RecordModel {
    RecordModel {
        name: p.name,
        version: p.version,
        source: Source::Remote,
        popularity: p.num_votes,
        description: p.description,
        homepage: p.url,
    }
}

/// The record that a header line of the local search stands for.
pub open spec fn local_record(
    name: Seq<char>,
    version: Seq<char>,
    description: Option<Seq<char>>,
) -> RecordModel {
    RecordModel {
        name,
        version,
        source: Source::Local,
        popularity: None,
        description,
        homepage: None,
    }
}

/// The rank by which records are ordered: the popularity, and below every
/// popularity the lack of one.
pub open spec fn popularity_key(r: RecordModel) -> int {
    match r.popularity {
        Some(v) => v as int,
        None => -1,
    }
}

/// `s` with `r` put behind the last record that does not rank above it, for
/// `s` in ascending order.
pub open spec fn insert_sorted(s: Seq<RecordModel>, r: RecordModel) -> Seq<RecordModel>
    decreases s.len(),
{
    if s.len() > 0 && popularity_key(s.last()) > popularity_key(r) {
        insert_sorted(s.drop_last(), r).push(s.last())
    } else {
        s.push(r)
    }
}

/// The records of `s` in ascending order of popularity; records of equal
/// popularity keep the order they have in `s`.
pub open spec fn sort_by_popularity(s: Seq<RecordModel>) -> Seq<RecordModel>
    decreases s.len(),
{
    if s.len() == 0 {
        Seq::empty()
    } else {
        insert_sorted(sort_by_popularity(s.drop_last()), s.last())
    }
}

/// The name and version in a header line of the local search: a line that is
/// not indented and holds a `[`, with at least one word before the first `[`.
/// The name is the first word before the `[`, the version the second, or
/// empty if there is none.
pub open spec fn header_of(line: Seq<char>) -> Option<(Seq<char>, Seq<char>)> {
    let bracket = find_from(line, '[', 0);
    let before = words(line.subrange(0, bracket));
    if !is_indented(line) && bracket < line.len() && before.len() > 0 {
        Some(
            (
                before[0],
                if before.len() > 1 {
                    before[1]
                } else {
                    Seq::empty()
                },
            ),
        )
    } else {
        None
    }
}

/// The records in `lines[i..]`. A header line starts a record; an indented
/// line right after it is the record's description, without the white space
/// around it. Any other line is passed over.
pub open spec fn local_scan(lines: Seq<Seq<char>>, i: int) -> Seq<RecordModel>
    decreases lines.len() - i,
{
    if i < 0 || i >= lines.len() {
        Seq::empty()
    } else {
        match header_of(lines[i]) {
            Some((name, version)) => {
                if i + 1 < lines.len() && is_indented(lines[i + 1]) {
                    seq![local_record(name, version, Some(trim(lines[i + 1])))] + local_scan(
                        lines,
                        i + 2,
                    )
                } else {
                    seq![local_record(name, version, None)] + local_scan(lines, i + 1)
                }
            },
            None => local_scan(lines, i + 1),
        }
    }
}

/// The records that the lines of a local search hold.
pub open spec fn local_records(lines: Seq<Seq<char>>) -> Seq<RecordModel> {
    local_scan(lines, 0)
}

/// The records numbered downwards: the first gets the number of records, the
/// last gets 1.
pub open spec fn numbered(records: Seq<RecordModel>) -> Seq<EntryModel> {
    Seq::new(
        records.len(),
        |k: int| EntryModel { index: (records.len() - k) as nat, record: records[k] },
    )
}

/// The catalog of one query: the remote records in ascending order of
/// popularity, then the local records, numbered downwards.
pub open spec fn merged(remote: Seq<RecordModel>, lines: Seq<Seq<char>>) -> Seq<EntryModel> {
    numbered(sort_by_popularity(remote) + local_records(lines))
}

/// Whether the indices of `entries` run from its length down to 1.
pub open spec fn counts_down(entries: Seq<EntryModel>) -> bool {
    forall|k: int| 0 <= k < entries.len() ==> (#[trigger] entries[k]).index == entries.len() - k
}

/// Position of the first entry with index `index` at or after `i`, or
/// `entries.len()` if there is none.
pub open spec fn position_from(entries: Seq<EntryModel>, index: nat, i: int) -> int
    decreases entries.len() - i,
{
    if 0 <= i < entries.len() && entries[i].index != index {
        position_from(entries, index, i + 1)
    } else {
        i
    }
}

/// Position of the entry with index `index`, or `entries.len()` if no entry has it.
pub open spec fn position_of(entries: Seq<EntryModel>, index: nat) -> int {
    position_from(entries, index, 0)
}

/// What the input line `input` selects in `entries`: nothing for the word
/// `back` in any case, the entry with the index that the line writes, or the
/// fault that the line commits.
pub open spec fn selected(entries: Seq<EntryModel>, input: Seq<char>) -> Result<
    Option<EntryModel>,
    AurorusError,
> {
    let line = trim(input);
    if eq_ignore_case(line, "back"@) {
        Ok(None)
    } else {
        match parse_number(line) {
            Some(n) => {
                if n > usize::MAX {
                    Err(AurorusError::Selection(SelectionFault::NotANumber))
                } else if position_of(entries, n) < entries.len() {
                    Ok(Some(entries[position_of(entries, n)]))
                } else {
                    Err(AurorusError::Selection(SelectionFault::OutOfRange(n as usize)))
                }
            },
            None => Err(AurorusError::Selection(SelectionFault::NotANumber)),
        }
    }
}

impl AurPackage {
    /// The record that this package stands for in a catalog.
    pub fn into_record(self) -> (r: PackageRecord)
        ensures
            r@ == remote_record(self@),
    {
        PackageRecord {
            name: self.name,
            version: self.version,
            source: Source::Remote,
            popularity: self.num_votes,
            description: self.description,
            homepage: self.url,
        }
    }
}

/// The rank of a popularity, as [`popularity_key`] gives it.
fn rank(popularity: Option<u32>) -> (r: i64)
    ensures
        r == match popularity {
            Some(v) => v as int,
            None => -1,
        },
{
    match popularity {
        Some(v) => v as i64,
        None => -1,
    }
}

/// Where [`insert_sorted`] puts a record: at the position `p` from which on
/// every record ranks above it, and before which the nearest does not.
proof fn lemma_insert_position(s: Seq<RecordModel>, r: RecordModel, p: int)
    requires
        0 <= p <= s.len(),
        forall|j: int| p <= j < s.len() ==> popularity_key(s[j]) > popularity_key(r),
        p > 0 ==> popularity_key(s[p - 1]) <= popularity_key(r),
    ensures
        insert_sorted(s, r) == s.insert(p, r),
    decreases s.len(),
{
    if p == s.len() {
        assert(s.insert(p, r) =~= s.push(r));
    } else {
        lemma_insert_position(s.drop_last(), r, p);
        assert(s.drop_last().insert(p, r).push(s.last()) =~= s.insert(p, r));
    }
}

/// Puts the records in ascending order of popularity. A record without a
/// popularity comes before all that have one; records of equal popularity
/// keep their order.
pub fn sort_records(records: Vec<PackageRecord>) -> (r: Vec<PackageRecord>)
    ensures
        r.deep_view() == sort_by_popularity(records.deep_view()),
{
    let ghost input = records.deep_view();
    let ghost items = records@;
    let mut out: Vec<PackageRecord> = Vec::new();
    assert(input.take(0) =~= Seq::empty());
    assert(out.deep_view() =~= Seq::empty());
    for record in it: records
        invariant
            it.seq() == items,
            input.len() == items.len(),
            forall|k: int| 0 <= k < items.len() ==> input[k] == (#[trigger] items[k])@,
            out.deep_view() == sort_by_popularity(input.take(it.index() as int)),
    {
        let ghost before = out.deep_view();
        let key = rank(record.popularity);
        let mut p: usize = out.len();
        while p > 0 && rank(out[p - 1].popularity) > key
            invariant
                p <= out.len(),
                before == out.deep_view(),
                key == popularity_key(record@),
                forall|j: int| p <= j < before.len() ==> popularity_key(before[j]) > key,
            decreases p,
        {
            p -= 1;
        }
        proof {
            lemma_insert_position(before, record@, p as int);
            let next = input.take(it.index() + 1);
            assert(next.drop_last() =~= input.take(it.index() as int));
            assert(next.last() == record@);
        }
        out.insert(p, record);
        assert(out.deep_view() =~= before.insert(p as int, record@));
    }
    assert(input.take(items.len() as int) =~= input);
    out
}

/// Reads a header line of the local search.
pub fn parse_header(line: &[char]) -> (r: Option<(String, String)>)
    ensures
        r.deep_view() == header_of(line@),
{
    let n = line.len();
    if n > 0 && is_whitespace(line[0]) {
        return None;
    }
    let bracket = find_char(line, 0, n, '[');
    assert(line@.subrange(0, n as int) =~= line@);
    if bracket == n {
        return None;
    }
    let before = word_ranges(line, 0, bracket);
    if before.len() == 0 {
        return None;
    }
    let name = from_chars(line, before[0].0, before[0].1);
    let version = if before.len() > 1 {
        from_chars(line, before[1].0, before[1].1)
    } else {
        String::new()
    };
    Some((name, version))
}

/// Reads the records out of the lines of a local search.
pub fn parse_local(lines: &Vec<String>) -> (r: Vec<PackageRecord>)
    ensures
        r.deep_view() == local_records(lines.deep_view()),
{
    let ghost texts = lines.deep_view();
    let n = lines.len();
    let mut out: Vec<PackageRecord> = Vec::new();
    let mut i: usize = 0;
    assert(out.deep_view() + local_scan(texts, 0) =~= local_records(texts));
    while i < n
        invariant
            i <= n,
            n == lines.len(),
            texts == lines.deep_view(),
            out.deep_view() + local_scan(texts, i as int) == local_records(texts),
        decreases n - i,
    {
        let ghost before = out.deep_view();
        let line = to_chars(lines[i].as_str());
        match parse_header(line.as_slice()) {
            Some((name, version)) => {
                let mut description: Option<String> = None;
                let mut step: usize = 1;
                if i + 1 < n {
                    let next = to_chars(lines[i + 1].as_str());
                    if next.len() > 0 && is_whitespace(next[0]) {
                        let (lo, hi) = trim_range(next.as_slice(), 0, next.len());
                        assert(next@.subrange(0, next.len() as int) =~= next@);
                        description = Some(from_chars(next.as_slice(), lo, hi));
                        step = 2;
                    }
                }
                let record = PackageRecord {
                    name,
                    version,
                    source: Source::Local,
                    popularity: None,
                    description,
                    homepage: None,
                };
                proof {
                    assert(before + (seq![record@] + local_scan(texts, i + step)) =~= before.push(
                        record@,
                    ) + local_scan(texts, i + step));
                }
                out.push(record);
                assert(out.deep_view() =~= before.push(record@));
                i += step;
            },
            None => {
                i += 1;
            },
        }
    }
    assert(out.deep_view() + Seq::<RecordModel>::empty() =~= out.deep_view());
    out
}

/// Merges the records of the remote search with the lines of the local one
/// into a catalog. The remote records come first, in ascending order of
/// popularity, then the local records in the order of their lines. The first
/// entry gets the number of entries as its index, each further entry one
/// less, the last entry 1.
pub fn merge(remote: Vec<PackageRecord>, local_lines: &Vec<String>) -> (c: Catalog)
    ensures
        c.wf(),
        c@ == merged(remote.deep_view(), local_lines.deep_view()),
        c@.len() == remote.len() + local_records(local_lines.deep_view()).len(),
{
    proof {
        lemma_sort_is_stable(remote.deep_view(), 0);
    }
    let mut all = sort_records(remote);
    let mut local = parse_local(local_lines);
    let ghost records = all.deep_view() + local.deep_view();
    all.append(&mut local);
    assert(all.deep_view() =~= records);
    let total = all.len();
    let ghost items = all@;
    let mut entries: Vec<CatalogEntry> = Vec::new();
    for record in it: all
        invariant
            it.seq() == items,
            total == items.len(),
            records.len() == total,
            forall|k: int| 0 <= k < total ==> records[k] == (#[trigger] items[k])@,
            entries.len() == it.index(),
            forall|k: int|
                0 <= k < it.index() ==> (#[trigger] entries[k])@ == numbered(records)[k],
    {
        entries.push(CatalogEntry { index: total - entries.len(), record });
    }
    let c = Catalog { entries };
    assert(c@ =~= numbered(records));
    c
}

impl Catalog {
    /// The entries in the order of the catalog, each with its index.
    pub closed spec fn view(&self) -> Seq<EntryModel> {
        self.entries.deep_view()
    }

    /// The invariant of a catalog: its indices run from its size down to 1.
    pub open spec fn wf(&self) -> bool {
        counts_down(self@)
    }

    /// A catalog without entries.
    pub fn new() -> (c: Catalog)
        ensures
            c.wf(),
            c@ == Seq::<EntryModel>::empty(),
    {
        let c = Catalog { entries: Vec::new() };
        assert(c@ =~= Seq::<EntryModel>::empty());
        c
    }

    /// The number of entries.
    pub fn len(&self) -> (n: usize)
        ensures
            n == self@.len(),
    {
        self.entries.len()
    }

    /// Whether the catalog has no entry, so that there is nothing to select.
    pub fn is_empty(&self) -> (b: bool)
        ensures
            b == (self@.len() == 0),
    {
        self.entries.len() == 0
    }

    /// The entries in the order of the catalog.
    pub fn entries(&self) -> (r: &Vec<CatalogEntry>)
        ensures
            r.deep_view() == self@,
    {
        &self.entries
    }

    /// Finds the entry with the index `index` in the table of the catalog.
    pub fn lookup(&self, index: usize) -> (r: Option<&CatalogEntry>)
        ensures
            match r {
                Some(e) => position_of(self@, index as nat) < self@.len() && e@ == self@[position_of(
                    self@,
                    index as nat,
                )] && e@.index == index,
                None => position_of(self@, index as nat) == self@.len(),
            },
            self.wf() ==> (r is Some <==> 1 <= index <= self@.len()),
    {
        proof {
            if self.wf() {
                if 1 <= index <= self@.len() {
                    lemma_position_from(self@, index as nat, 0, self@.len() - index);
                } else {
                    lemma_position_from(self@, index as nat, 0, self@.len() as int);
                }
            }
        }
        let mut k: usize = 0;
        while k < self.entries.len()
            invariant
                k <= self.entries.len(),
                position_of(self@, index as nat) == position_from(self@, index as nat, k as int),
                self.wf() ==> (position_of(self@, index as nat) < self@.len() <==> 1 <= index
                    <= self@.len()),
            decreases self.entries.len() - k,
        {
            if self.entries[k].index == index {
                return Some(&self.entries[k]);
            }
            k += 1;
        }
        None
    }

    /// Resolves a line of input against the catalog.
    pub fn select(&self, input: &str) -> (r: Result<Selection<'_>, AurorusError>)
        ensures
            match r {
                Ok(Selection::Back) => selected(self@, input@) == Ok::<
                    Option<EntryModel>,
                    AurorusError,
                >(None),
                Ok(Selection::Entry(e)) => selected(self@, input@) == Ok::<
                    Option<EntryModel>,
                    AurorusError,
                >(Some(e@)),
                Err(e) => selected(self@, input@) == Err::<Option<EntryModel>, AurorusError>(e),
            },
    {
        let chars = to_chars(input);
        let (lo, hi) = trim_range(chars.as_slice(), 0, chars.len());
        assert(chars@.subrange(0, chars.len() as int) =~= chars@);
        let back = to_chars("back");
        if matches_ignore_case(chars.as_slice(), lo, hi, back.as_slice()) {
            return Ok(Selection::Back);
        }
        match parse_usize(chars.as_slice(), lo, hi) {
            Some(n) => match self.lookup(n) {
                Some(e) => Ok(Selection::Entry(e)),
                None => Err(AurorusError::Selection(SelectionFault::OutOfRange(n))),
            },
            None => Err(AurorusError::Selection(SelectionFault::NotANumber)),
        }
    }
}

/// Where the scan for an index ends: at `target`, if no entry from `j` up to
/// `target` has the index and the entry at `target`, where there is one, has it.
proof fn lemma_position_from(entries: Seq<EntryModel>, index: nat, j: int, target: int)
    requires
        0 <= j <= target <= entries.len(),
        forall|k: int| j <= k < target ==> entries[k].index != index,
        target < entries.len() ==> entries[target].index == index,
    ensures
        position_from(entries, index, j) == target,
    decreases target - j,
{
    if j < target {
        lemma_position_from(entries, index, j + 1, target);
    }
}

/// Index to position and back: in a catalog of `N` entries every index `i`
/// from 1 to `N` is found, at position `N - i`, and the entry found there
/// carries the index `i` again.
pub proof fn lemma_index_round_trip(c: Catalog, i: nat)
    requires
        c.wf(),
        1 <= i <= c@.len(),
    ensures
        position_of(c@, i) == c@.len() - i,
        c@[position_of(c@, i)].index == i,
{
    lemma_position_from(c@, i, 0, c@.len() - i);
}

/// Position to index and back: the index that stands at position `k` of a
/// catalog leads back to position `k`, so no two entries share an index.
pub proof fn lemma_position_round_trip(c: Catalog, k: int)
    requires
        c.wf(),
        0 <= k < c@.len(),
    ensures
        1 <= c@[k].index <= c@.len(),
        position_of(c@, c@[k].index) == k,
{
    lemma_position_from(c@, c@[k].index, 0, k);
}

/// No entry of a catalog of `N` entries has an index outside 1 to `N`.
pub proof fn lemma_index_out_of_range(c: Catalog, i: nat)
    requires
        c.wf(),
        i == 0 || i > c@.len(),
    ensures
        position_of(c@, i) == c@.len(),
{
    lemma_position_from(c@, i, 0, c@.len() as int);
}

/// The numbering of [`numbered`] counts down from the number of records to 1.
pub proof fn lemma_numbered_counts_down(records: Seq<RecordModel>)
    ensures
        counts_down(numbered(records)),
        numbered(records).len() == records.len(),
{
}

/// Whether the records stand in ascending order of popularity.
pub open spec fn ascending(s: Seq<RecordModel>) -> bool {
    forall|i: int, j: int|
        0 <= i <= j < s.len() ==> popularity_key(#[trigger] s[i]) <= popularity_key(
            #[trigger] s[j],
        )
}

/// The records of `s` that have the rank `rank`, in the order of `s`.
pub open spec fn of_rank(s: Seq<RecordModel>, rank: int) -> Seq<RecordModel> {
    s.filter(|r: RecordModel| popularity_key(r) == rank)
}

/// The position at which [`insert_sorted`] puts `r` into `s`.
pub open spec fn insert_point(s: Seq<RecordModel>, r: RecordModel) -> int
    decreases s.len(),
{
    if s.len() > 0 && popularity_key(s.last()) > popularity_key(r) {
        insert_point(s.drop_last(), r)
    } else {
        s.len() as int
    }
}

/// [`insert_sorted`] puts `r` at [`insert_point`]: behind it every record
/// ranks above `r`, and the record before it does not.
proof fn lemma_insert_point(s: Seq<RecordModel>, r: RecordModel)
    ensures
        0 <= insert_point(s, r) <= s.len(),
        forall|j: int|
            insert_point(s, r) <= j < s.len() ==> popularity_key(s[j]) > popularity_key(r),
        insert_point(s, r) > 0 ==> popularity_key(s[insert_point(s, r) - 1]) <= popularity_key(
            r,
        ),
        insert_sorted(s, r) == s.insert(insert_point(s, r), r),
    decreases s.len(),
{
    if s.len() > 0 && popularity_key(s.last()) > popularity_key(r) {
        lemma_insert_point(s.drop_last(), r);
        assert forall|j: int| insert_point(s, r) <= j < s.len() implies popularity_key(s[j])
            > popularity_key(r) by {
            if j < s.len() - 1 {
                assert(s[j] == s.drop_last()[j]);
            }
        }
        assert(insert_point(s, r) > 0 ==> s[insert_point(s, r) - 1] == s.drop_last()[insert_point(
            s,
            r,
        ) - 1]);
    }
    lemma_insert_position(s, r, insert_point(s, r));
}

/// Inserting keeps the order, adds the one record, and puts it behind the
/// records of its own rank.
proof fn lemma_insert_sorted(s: Seq<RecordModel>, r: RecordModel, rank: int)
    requires
        ascending(s),
    ensures
        ascending(insert_sorted(s, r)),
        insert_sorted(s, r).len() == s.len() + 1,
        insert_sorted(s, r).to_multiset() == s.to_multiset().insert(r),
        of_rank(insert_sorted(s, r), rank) == if popularity_key(r) == rank {
            of_rank(s, rank).push(r)
        } else {
            of_rank(s, rank)
        },
{
    let p = insert_point(s, r);
    let pred = |x: RecordModel| popularity_key(x) == rank;
    lemma_insert_point(s, r);
    let t = s.insert(p, r);
    assert forall|i: int, j: int| 0 <= i <= j < t.len() implies popularity_key(#[trigger] t[i])
        <= popularity_key(#[trigger] t[j]) by {
        if i < p && j > p {
            assert(popularity_key(s[i]) <= popularity_key(s[p - 1]));
        }
        if i < p && j < p {
            assert(t[i] == s[i] && t[j] == s[j]);
        }
        if i > p && j > p {
            assert(t[i] == s[i - 1] && t[j] == s[j - 1]);
        }
    }
    vstd::seq_lib::to_multiset_insert(s, p, r);
    let head = s.take(p);
    let tail = s.skip(p);
    assert(t =~= head.push(r) + tail);
    assert(s =~= head + tail);
    Seq::filter_distributes_over_add(head.push(r), tail, pred);
    Seq::filter_distributes_over_add(head, tail, pred);
    head.lemma_filter_push(r, pred);
    if popularity_key(r) == rank {
        assert forall|i: int| 0 <= i < tail.len() implies !pred(tail[i]) by {
            assert(tail[i] == s[p + i]);
        }
        tail.lemma_all_neg_filter_empty(pred);
        assert(tail.filter(pred) =~= Seq::<RecordModel>::empty());
        assert(head.filter(pred).push(r) + Seq::<RecordModel>::empty() =~= head.filter(
            pred,
        ).push(r));
        assert(head.filter(pred) + Seq::<RecordModel>::empty() =~= head.filter(pred));
    }
}

/// What the ordering by popularity is: the same records, in ascending order
/// of popularity, those of one popularity in the order in which they came.
pub proof fn lemma_sort_is_stable(s: Seq<RecordModel>, rank: int)
    ensures
        ascending(sort_by_popularity(s)),
        sort_by_popularity(s).to_multiset() == s.to_multiset(),
        sort_by_popularity(s).len() == s.len(),
        of_rank(sort_by_popularity(s), rank) == of_rank(s, rank),
    decreases s.len(),
{
    broadcast use vstd::seq_lib::to_multiset_len;

    let pred = |x: RecordModel| popularity_key(x) == rank;
    if s.len() == 0 {
        assert(sort_by_popularity(s) =~= s);
    } else {
        let rest = s.drop_last();
        lemma_sort_is_stable(rest, rank);
        lemma_insert_sorted(sort_by_popularity(rest), s.last(), rank);
        vstd::seq_lib::to_multiset_build(rest, s.last());
        assert(rest.push(s.last()) =~= s);
        rest.lemma_filter_push(s.last(), pred);
    }
}

} // verus!

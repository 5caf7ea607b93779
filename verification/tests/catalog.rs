use aurorus::catalog::{
    merge, parse_header, parse_local, sort_records, Catalog, PackageRecord, Selection, Source,
};
use aurorus::error::{AurorusError, SelectionFault};
use aurorus::text::to_chars;
use aurorus::types::AurPackage;

fn record(name: &str, popularity: Option<u32>) -> PackageRecord {
    PackageRecord {
        name: name.to_string(),
        version: "1".to_string(),
        source: Source::Remote,
        popularity,
        description: None,
        homepage: None,
    }
}

fn lines(list: &[&str]) -> Vec<String> {
    list.iter().map(|s| s.to_string()).collect()
}

fn names(records: &[PackageRecord]) -> Vec<&str> {
    records.iter().map(|r| r.name.as_str()).collect()
}

fn header(line: &str) -> Option<(String, String)> {
    parse_header(&to_chars(line))
}

fn name_at(catalog: &Catalog, index: usize) -> Option<&str> {
    catalog.lookup(index).map(|e| e.record.name.as_str())
}

#[test]
fn merge_numbers_remote_then_local_downwards() {
    let remote = vec![record("x", Some(5)), record("y", Some(1))];
    let catalog = merge(remote, &lines(&["z 1.0 [core]"]));
    assert_eq!(catalog.len(), 3);
    assert_eq!(name_at(&catalog, 3), Some("y"));
    assert_eq!(name_at(&catalog, 2), Some("x"));
    assert_eq!(name_at(&catalog, 1), Some("z"));
    let z = catalog.lookup(1).unwrap();
    assert_eq!(z.record.source, Source::Local);
    assert_eq!(z.record.version, "1.0");
    assert_eq!(catalog.lookup(3).unwrap().record.source, Source::Remote);
}

#[test]
fn merge_lists_entries_from_highest_index() {
    let remote = vec![record("b", Some(2)), record("a", Some(1)), record("c", Some(3))];
    let catalog = merge(remote, &lines(&["l1 1 [x]", "l2 2 [y]"]));
    let listed: Vec<(usize, &str)> =
        catalog.entries().iter().map(|e| (e.index, e.record.name.as_str())).collect();
    assert_eq!(listed, vec![(5, "a"), (4, "b"), (3, "c"), (2, "l1"), (1, "l2")]);
}

#[test]
fn merge_of_nothing_is_empty() {
    let catalog = merge(Vec::new(), &Vec::new());
    assert_eq!(catalog.len(), 0);
    assert!(catalog.is_empty());
    assert!(catalog.lookup(0).is_none());
    assert!(catalog.lookup(1).is_none());
    assert!(Catalog::new().is_empty());
}

#[test]
fn every_index_leads_to_its_own_entry() {
    let remote: Vec<PackageRecord> =
        (0..7u32).map(|i| record(&format!("r{}", i), Some((i * 5) % 7))).collect();
    let catalog = merge(remote, &lines(&["a 1 [x]", "  about a", "b 2 [x]", "c 3 [x]"]));
    let n = catalog.len();
    assert_eq!(n, 10);
    for i in 1..=n {
        let entry = catalog.lookup(i).unwrap();
        assert_eq!(entry.index, i);
        assert_eq!(catalog.entries()[n - i].record.name, entry.record.name);
    }
    for (k, entry) in catalog.entries().iter().enumerate() {
        assert_eq!(entry.index, n - k);
    }
    assert!(catalog.lookup(0).is_none());
    assert!(catalog.lookup(n + 1).is_none());
    assert!(catalog.lookup(usize::MAX).is_none());
}

#[test]
fn sort_is_ascending_and_stable() {
    let sorted = sort_records(vec![
        record("a", Some(3)),
        record("b", Some(1)),
        record("c", Some(3)),
        record("d", None),
        record("e", Some(1)),
        record("f", Some(0)),
        record("g", None),
    ]);
    assert_eq!(names(&sorted), vec!["d", "g", "f", "b", "e", "a", "c"]);
}

#[test]
fn sort_agrees_with_std_stable_sort() {
    let mut seed: u32 = 12345;
    let mut input = Vec::new();
    for i in 0..200 {
        seed = seed.wrapping_mul(1664525).wrapping_add(1013904223);
        let votes = if seed % 7 == 0 { None } else { Some((seed >> 8) % 10) };
        input.push(record(&format!("p{}", i), votes));
    }
    let mut expected = input.clone();
    expected.sort_by(|a, b| a.popularity.cmp(&b.popularity));
    let sorted = sort_records(input);
    assert_eq!(names(&sorted), names(&expected));
}

#[test]
fn header_gives_name_and_version_before_the_bracket() {
    assert_eq!(header("z 1.0 [core]"), Some(("z".to_string(), "1.0".to_string())));
    assert_eq!(
        header("core/zlib 1:1.3.1-2 (base) [installed]"),
        Some(("core/zlib".to_string(), "1:1.3.1-2".to_string()))
    );
    assert_eq!(header("solo [x]"), Some(("solo".to_string(), "".to_string())));
    assert_eq!(header("a b[c] [d]"), Some(("a".to_string(), "b".to_string())));
    assert_eq!(header("name["), Some(("name".to_string(), "".to_string())));
}

#[test]
fn lines_that_are_no_header() {
    assert_eq!(header(""), None);
    assert_eq!(header("extra/foo 1.0-1"), None);
    assert_eq!(header("  indented 1.0 [core]"), None);
    assert_eq!(header("\tindented [core]"), None);
    assert_eq!(header("[core]"), None);
    assert_eq!(header("foo 1.0 ]"), None);
}

#[test]
fn description_is_the_indented_line_after_a_header() {
    let records = parse_local(&lines(&[
        "core/a 1.0 [installed]",
        "    First package  ",
        "core/b 2.0 [installed]",
        "core/c 3.0 [installed]",
        "\tThird package",
    ]));
    assert_eq!(names(&records), vec!["core/a", "core/b", "core/c"]);
    assert_eq!(records[0].description.as_deref(), Some("First package"));
    assert_eq!(records[1].description, None);
    assert_eq!(records[2].description.as_deref(), Some("Third package"));
    for r in &records {
        assert_eq!(r.source, Source::Local);
        assert_eq!(r.popularity, None);
        assert_eq!(r.homepage, None);
    }
}

#[test]
fn stray_lines_are_ignored() {
    let records = parse_local(&lines(&[
        "    orphan description [x]",
        "extra/plain 1.0-1",
        "    its description",
        "",
        "core/a 1.0 [installed]",
        "    about a",
        "    more about a [y]",
        "core/b 2.0 [installed]",
    ]));
    assert_eq!(names(&records), vec!["core/a", "core/b"]);
    assert_eq!(records[0].description.as_deref(), Some("about a"));
    assert_eq!(records[1].description, None);
    assert!(parse_local(&Vec::new()).is_empty());
}

#[test]
fn remote_package_becomes_remote_record() {
    let pkg = AurPackage {
        name: "yay".to_string(),
        version: "12.3-1".to_string(),
        description: Some("helper".to_string()),
        url: Some("https://example.org".to_string()),
        num_votes: Some(2000),
    };
    let r = pkg.into_record();
    assert_eq!(r.name, "yay");
    assert_eq!(r.version, "12.3-1");
    assert_eq!(r.source, Source::Remote);
    assert_eq!(r.popularity, Some(2000));
    assert_eq!(r.description.as_deref(), Some("helper"));
    assert_eq!(r.homepage.as_deref(), Some("https://example.org"));
}

#[test]
fn selection_by_number() {
    let catalog = merge(vec![record("x", Some(5)), record("y", Some(1))], &lines(&["z 1.0 [core]"]));
    match catalog.select(" 2\n") {
        Ok(Selection::Entry(e)) => {
            assert_eq!(e.index, 2);
            assert_eq!(e.record.name, "x");
        }
        other => panic!("unexpected {:?}", other),
    }
    match catalog.select("+3") {
        Ok(Selection::Entry(e)) => assert_eq!(e.record.name, "y"),
        other => panic!("unexpected {:?}", other),
    }
    match catalog.select("001") {
        Ok(Selection::Entry(e)) => assert_eq!(e.record.name, "z"),
        other => panic!("unexpected {:?}", other),
    }
}

#[test]
fn selection_back_steps_back() {
    let catalog = merge(vec![record("x", None)], &Vec::new());
    assert!(matches!(catalog.select("back"), Ok(Selection::Back)));
    assert!(matches!(catalog.select("  BACK \n"), Ok(Selection::Back)));
}

#[test]
fn selection_outside_the_catalog_is_refused() {
    let catalog = merge(vec![record("x", None), record("y", None)], &Vec::new());
    for (input, n) in [("0", 0usize), ("3", 3), ("100", 100)] {
        match catalog.select(input) {
            Err(e) => assert_eq!(e, AurorusError::Selection(SelectionFault::OutOfRange(n))),
            other => panic!("unexpected {:?}", other),
        }
    }
    match Catalog::new().select("1") {
        Err(e) => assert_eq!(e, AurorusError::Selection(SelectionFault::OutOfRange(1))),
        other => panic!("unexpected {:?}", other),
    }
}

#[test]
fn selection_that_is_no_number_is_refused() {
    let catalog = merge(vec![record("x", None)], &Vec::new());
    for input in ["", "one", "1 2", "-1", "1.0", "backwards", "99999999999999999999999999"] {
        match catalog.select(input) {
            Err(e) => assert_eq!(e, AurorusError::Selection(SelectionFault::NotANumber)),
            other => panic!("unexpected {:?} for {:?}", other, input),
        }
    }
}

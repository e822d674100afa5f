use nbib::groupby::GroupByItr;
use nbib::nbib_to_csl_items;
use nbib::tags::process_tag;
use nbib::transforms::{medline_to_csl, merge_multiline_items, reduce_authors};
use nbib::types::{CSLItem, CSLValue, DateParts, NameParts};
use nbib::NbibError;

fn lines(v: &[&str]) -> Vec<String> {
    v.iter().map(|s| s.to_string()).collect()
}

#[test]
fn merge_is_idempotent_on_merged_output() {
    let rec = lines(&[
        "PMID- 12345",
        "AB  - First line",
        "      second line.",
        "FAU - Blachly, James S",
    ]);
    let merged = merge_multiline_items(rec).unwrap();
    let remerged = merge_multiline_items(merged.clone()).unwrap();
    assert_eq!(merged, remerged);
}

#[test]
fn grouping_concatenation_reproduces_input() {
    let range = lines(&["x", "x", "y", "x", "z", "z"]);
    let mut grouped = range.clone().group_by(|a: &String, b: &String| a == b);
    let groups = grouped.collect_groups();
    let flattened: Vec<String> = groups.into_iter().flatten().collect();
    assert_eq!(flattened, range);
}

#[test]
fn grouping_of_empty_input_is_empty() {
    let range: Vec<String> = Vec::new();
    let mut grouped = range.group_by(|a: &String, b: &String| a == b);
    let groups = grouped.collect_groups();
    assert_eq!(groups.len(), 0);
}

#[test]
fn dedup_keeps_full_name() {
    let a = process_tag("FAU".into(), "Smith, John".into()).unwrap();
    let b = process_tag("AU".into(), "Smith J".into()).unwrap();
    let reduced = reduce_authors(vec![a, b]);
    assert_eq!(reduced.len(), 1);
    assert_eq!(reduced[0].key().unwrap(), "author");
    assert_eq!(reduced[0].np().unwrap().family, Some("Smith".to_string()));
    assert_eq!(reduced[0].np().unwrap().given, Some("John".to_string()));
}

#[test]
fn identifier_is_deterministic() {
    let build = || {
        let merged = merge_multiline_items(lines(&[
            "PMID- 12345",
            "FAU - Blachly, James S",
        ]))
        .unwrap();
        let reduced = reduce_authors(medline_to_csl(merged).unwrap());
        let mut item = CSLItem::new();
        for v in reduced {
            match v {
                CSLValue::Ignored => {}
                CSLValue::CSLOrdinaryField(x) => item.fields.push(x),
                CSLValue::CSLNameField(x) => item.names.push(x),
                CSLValue::CSLDateField(x) => item.dates.push(x),
            }
        }
        item
    };
    let a = build();
    let b = build();
    assert_eq!(a.calculate_id(), b.calculate_id());
}

#[test]
fn identifier_of_empty_record() {
    let item = CSLItem::new();
    assert_eq!(item.calculate_id(), 15658283292545789879u64);
}

#[test]
fn short_line_is_malformed_line() {
    let r = merge_multiline_items(lines(&["AB"]));
    assert_eq!(r, Err(NbibError::MalformedLine));
    let r = merge_multiline_items(lines(&["PMID- 12345", "AB"]));
    assert_eq!(r, Err(NbibError::MalformedLine));
}

#[test]
fn continuation_without_field_is_invalid_state() {
    let r = merge_multiline_items(lines(&["      stray continuation"]));
    assert_eq!(r, Err(NbibError::InvalidState));
}

#[test]
fn merged_line_without_separator_is_malformed_record() {
    let r = medline_to_csl(lines(&["ABCDEF"]));
    assert_eq!(r, Err(NbibError::MalformedRecord));
    let r = medline_to_csl(lines(&["ABCD x y"]));
    assert_eq!(r, Err(NbibError::MalformedRecord));
}

#[test]
fn empty_tag_is_malformed_record() {
    assert_eq!(
        process_tag("".into(), "val".into()),
        Err(NbibError::MalformedRecord)
    );
}

#[test]
fn end_to_end_single_block() {
    let input = "PMID- 12345\n\
                 AB  - This is the abstract's first line\n\
                 \u{20}     and this is its second line; with conclusion.\n\
                 FAU - Blachly, James S\n\
                 FAU - Gregory, Charles Thomas";
    let items = nbib_to_csl_items(input).unwrap();
    assert_eq!(items.len(), 1);
    let item = &items[0];
    assert_eq!(item.fields.len(), 2);
    assert_eq!(item.fields[0].key, "note");
    assert_eq!(item.fields[0].value, "PMID: 12345");
    assert_eq!(item.fields[1].key, "abstract");
    assert_eq!(
        item.fields[1].value,
        "This is the abstract's first line and this is its second line; with conclusion."
    );
    assert_eq!(item.names.len(), 2);
    assert_eq!(item.names[0].key, "author");
    assert_eq!(item.names[0].np.family, Some("Blachly".to_string()));
    assert_eq!(item.names[0].np.given, Some("James S".to_string()));
    assert_eq!(item.names[1].np.family, Some("Gregory".to_string()));
    assert_eq!(item.names[1].np.given, Some("Charles Thomas".to_string()));
    assert_eq!(item.dates.len(), 0);
}

#[test]
fn reduction_collapses_four_names_to_two() {
    let input = "FAU - Blachly, James S\n\
                 AU  - Blachly JS\n\
                 FAU - Gregory, Charles Thomas\n\
                 AU  - Gregory CT";
    let items = nbib_to_csl_items(input).unwrap();
    assert_eq!(items.len(), 1);
    assert_eq!(items[0].names.len(), 2);
    assert_eq!(items[0].names[0].np.family, Some("Blachly".to_string()));
    assert_eq!(items[0].names[1].np.family, Some("Gregory".to_string()));
}

#[test]
fn two_blocks_give_two_records() {
    let input = "PMID- 1\n\nPMID- 2";
    let items = nbib_to_csl_items(input).unwrap();
    assert_eq!(items.len(), 2);
    assert_eq!(items[0].fields[0].value, "PMID: 1");
    assert_eq!(items[1].fields[0].value, "PMID: 2");
}

#[test]
fn publication_type_mapping() {
    assert_eq!(
        process_tag("PT".into(), "Journal Article".into()).unwrap(),
        CSLValue::CSLOrdinaryField(nbib::types::CSLOrdinaryField {
            key: "type".into(),
            value: "article-journal".into(),
        })
    );
    assert_eq!(
        process_tag("PT".into(), "Letter".into()).unwrap(),
        CSLValue::Ignored
    );
}

#[test]
fn doi_suffix_stripping() {
    assert_eq!(
        process_tag("AID".into(), "10.1000/xyz123 [doi]".into()).unwrap(),
        CSLValue::CSLOrdinaryField(nbib::types::CSLOrdinaryField {
            key: "DOI".into(),
            value: "10.1000/xyz123 ".into(),
        })
    );
    assert_eq!(
        process_tag("AID".into(), "S1234-5678 [pii]".into()).unwrap(),
        CSLValue::Ignored
    );
}

#[test]
fn date_tag_keeps_raw_value() {
    let v = process_tag("DP".into(), "2020 Jan 15".into()).unwrap();
    match v {
        CSLValue::CSLDateField(d) => {
            assert_eq!(d.key, "issued");
            let expected = DateParts {
                raw: Some("2020 Jan 15".to_string()),
                ..DateParts::default()
            };
            assert_eq!(d.dp, expected);
        }
        _ => panic!("expected a date field"),
    }
}

#[test]
fn name_with_many_commas_degrades_to_family() {
    let np: NameParts;
    match process_tag("FAU".into(), "Smith, John, Jr.".into()).unwrap() {
        CSLValue::CSLNameField(f) => {
            assert!(!f.full);
            np = f.np;
        }
        _ => panic!("expected a name field"),
    }
    assert_eq!(np.family, Some("Smith, John, Jr.".to_string()));
    assert_eq!(np.given, None);
}

#[test]
fn merge_trims_whitespace() {
    let merged = merge_multiline_items(lines(&["TI  - A title   "])).unwrap();
    assert_eq!(merged, vec!["TI  - A title".to_string()]);
}

#[test]
fn pmc_maps_to_note() {
    assert_eq!(
        process_tag("PMC".into(), "PMC999".into()).unwrap(),
        CSLValue::CSLOrdinaryField(nbib::types::CSLOrdinaryField {
            key: "note".into(),
            value: "PMCID: PMC999".into(),
        })
    );
}

#[test]
fn name_types_are_sorted_and_unique() {
    let input = "FED - Editor, Ed\nFAU - Author, Ann\nFAU - Writer, Wes";
    let items = nbib::nbib_to_csl_items(input).unwrap();
    let types = items[0].name_types();
    assert_eq!(types, vec!["author".to_string(), "editor".to_string()]);
    let authors = items[0].names_with_key("author");
    assert_eq!(authors.len(), 2);
    assert_eq!(authors[0].family, Some("Author".to_string()));
    assert_eq!(authors[1].family, Some("Writer".to_string()));
    let editors = items[0].names_with_key("editor");
    assert_eq!(editors.len(), 1);
    assert_eq!(editors[0].family, Some("Editor".to_string()));
}

#[test]
fn identifier_string_has_prefix_and_decimal() {
    let item = CSLItem::new();
    assert_eq!(item.id_string(), "nbib-15658283292545789879");
}

#[test]
fn crlf_line_endings_are_handled() {
    let items = nbib_to_csl_items("PMID- 1\r\nTI  - A title\r\n").unwrap();
    assert_eq!(items.len(), 1);
    assert_eq!(items[0].fields.len(), 2);
    assert_eq!(items[0].fields[1].key, "title");
    assert_eq!(items[0].fields[1].value, "A title");
}

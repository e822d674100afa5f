use nbib::groupby::GroupByItr;
use nbib::tags::process_tag;
use nbib::transforms::{medline_to_csl, merge_multiline_items, reduce_authors};
use nbib::types::{CSLNameField, CSLOrdinaryField, CSLValue};

#[test]
fn test_groupby() {
    let range = vec![
        String::from("test"),
        String::from("test"),
        String::from("test2"),
        String::from("a"),
        String::from("b"),
        String::from("c"),
        String::from("c"),
        String::from("d"),
        String::from("e"),
    ];

    let mut grouped = range.clone().group_by(|a: &String, b: &String| a == b);
    let val: Vec<Vec<String>> = grouped.collect_groups();
    let correct = vec![
        vec![String::from("test"), String::from("test")],
        vec![String::from("test2")],
        vec![String::from("a")],
        vec![String::from("b")],
        vec![String::from("c"), String::from("c")],
        vec![String::from("d")],
        vec![String::from("e")],
    ];
    assert_eq!(val, correct);

    let mut grouped = range.group_by(|a: &String, b: &String| a == b);
    let val: Vec<String> = grouped
        .collect_groups()
        .into_iter()
        .map(|x| x.into_iter().nth(0).unwrap())
        .collect();
    let correct = vec![
        String::from("test"),
        String::from("test2"),
        String::from("a"),
        String::from("b"),
        String::from("c"),
        String::from("d"),
        String::from("e"),
    ];
    assert_eq!(val, correct);
}

#[test]
fn test_badtag() {
    assert!(process_tag("XYZZY".into(), "val".into()).is_err());
}

#[test]
fn test_unrecognized() {
    assert_eq!(
        process_tag("XYZ".into(), "val".into()).unwrap(),
        CSLValue::Ignored,
    );
}

#[test]
fn test_abstract() {
    let res = CSLOrdinaryField {
        key: "abstract".into(),
        value: "This is the abstract".into(),
    };
    assert_eq!(
        process_tag("AB".into(), "This is the abstract".into()).unwrap(),
        CSLValue::CSLOrdinaryField(res)
    );
}

#[test]
fn test_pmid() {
    let res = CSLOrdinaryField {
        key: "note".into(),
        value: "PMID: 12345".into(),
    };
    assert_eq!(
        process_tag("PMID".into(), "12345".into()).unwrap(),
        CSLValue::CSLOrdinaryField(res)
    );
}

#[test]
fn test_author() {
    let res = CSLNameField::with_name("author".into(), "Blachly, James S".into());
    assert_eq!(
        process_tag("FAU".into(), "Blachly, James S".into()).unwrap(),
        CSLValue::CSLNameField(res)
    );
}

#[test]
fn test_merge() {
    let rec: Vec<String> = vec![
        "PMID- 12345",
        "XY  - Unused field",
        "AB  - This is the abstract's first line",
        "      and this is its second line;",
        "      with conclusion.",
        "FAU - Blachly, James S",
        "AU  - Blachly JS",
        "FAU - Gregory, Charles Thomas",
        "AU  - Gregory CT",
    ]
    .into_iter()
    .map(String::from)
    .collect();

    let merged_rec: Vec<String> = merge_multiline_items(rec.clone()).unwrap();

    assert_eq!(merged_rec.len(), 7);
    assert_eq!(
        merged_rec[2],
        "AB  - This is the abstract's first line and this is its second line; with conclusion."
    );

    let csl: Vec<CSLValue> = medline_to_csl(merged_rec).unwrap();
    let names: Vec<CSLValue> = csl.into_iter().filter(|x| x.is_name()).collect();
    assert_eq!(names.len(), 4);

    let merged_rec = merge_multiline_items(rec).unwrap();

    let reduced = reduce_authors(medline_to_csl(merged_rec).unwrap());
    let names: Vec<CSLValue> = reduced.into_iter().filter(|x| x.is_name()).collect();

    assert_eq!(names.len(), 2);
    assert_eq!(names[0].key().unwrap(), "author");
    assert_eq!(names[0].np().unwrap().family, Some(String::from("Blachly")));
    assert_eq!(names[0].np().unwrap().given, Some(String::from("James S")));
    assert_eq!(names[1].key().unwrap(), "author");
    assert_eq!(names[1].np().unwrap().family, Some(String::from("Gregory")));
    assert_eq!(
        names[1].np().unwrap().given,
        Some(String::from("Charles Thomas"))
    );
}

use file_recovery::error::CarveError;
use file_recovery::filter::{
    active_signatures, choice_label, lets_through, parse_types, TypeFilter,
};
use file_recovery::signatures::database;

#[test]
fn type_lists_are_read_in_any_case_and_spacing() {
    let f = parse_types(" JPG,png , Pdf,jpg").unwrap();
    assert!(f.contains("jpg") && f.contains("png") && f.contains("pdf"));
    assert!(!f.contains("gif") && !f.contains("JPG"));
    assert_eq!(choice_label(&Some(f)), "jpg,pdf,png");
    assert_eq!(choice_label(&None), "all");
}

#[test]
fn unknown_types_are_all_named() {
    match parse_types("jpg,foo,,Bar") {
        Err(e) => {
            assert!(matches!(&e, CarveError::UnknownTypes(names) if names == "foo, , bar"));
            assert_eq!(
                e.message(),
                "unknown file type(s): foo, , bar — run with --list-types to see supported types"
            );
        }
        Ok(_) => panic!("unknown types were accepted"),
    }
}

#[test]
fn empty_type_list_is_refused() {
    assert!(matches!(parse_types(""), Err(CarveError::UnknownTypes(names)) if names.is_empty()));
}

#[test]
fn filters_let_through_what_they_hold() {
    let f = Some(TypeFilter::new().with("mov".to_string()));
    assert!(lets_through(&f, "mov"));
    assert!(!lets_through(&f, "mp4"));
    assert!(lets_through(&None, "anything"));
}

#[test]
fn shared_signatures_are_scanned_for_each_of_their_types() {
    let db = database();
    let names = |list: &str| -> Vec<&str> {
        let f = Some(parse_types(list).unwrap());
        active_signatures(db, &f).iter().map(|&i| db[i].name).collect()
    };
    assert_eq!(names("docx"), vec!["zip"]);
    assert_eq!(names("pptx,zip"), vec!["zip"]);
    assert_eq!(names("mov"), vec!["ftyp"]);
    assert_eq!(names("gif,jpg"), vec!["jpg", "gif", "gif"]);
    let all: Vec<usize> = (0..db.len()).collect();
    assert_eq!(active_signatures(db, &None), all);
}

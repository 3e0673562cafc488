use pdxindoorsoccer_ical::casing::{fc_to_uppercase, fix_case};

#[test]
fn fc_to_uppercase_at_start() {
    let s = "fc is at the start";
    let expected = "FC is at the start";
    assert_eq!(expected, fc_to_uppercase(s.into()));

    let s = "nrfc is at the start";
    let expected = "NRFC is at the start";
    assert_eq!(expected, fc_to_uppercase(s.into()));

    let s = "fcnr is at the start";
    let expected = s.to_string();
    assert_eq!(expected, fc_to_uppercase(s.into()));
}

#[test]
fn fc_to_uppercase_at_end() {
    let s = "At the end is fc";
    let expected = "At the end is FC";
    assert_eq!(expected, fc_to_uppercase(s.into()));

    let s = "At the end is nrfc";
    let expected = "At the end is NRFC";
    assert_eq!(expected, fc_to_uppercase(s.into()));

    let s = "At the end is fcnr";
    let expected = s.to_string();
    assert_eq!(expected, fc_to_uppercase(s.into()));
}

#[test]
fn fc_to_uppercase_in_middle() {
    let s = "We have fc in the middle";
    let expected = "We have FC in the middle";
    assert_eq!(expected, fc_to_uppercase(s.into()));

    let s = "We have nrfc in the middle";
    let expected = "We have NRFC in the middle";
    assert_eq!(expected, fc_to_uppercase(s.into()));

    let s = "We have fcnr in the middle";
    let expected = s.to_string();
    assert_eq!(expected, fc_to_uppercase(s.into()));
}

#[test]
fn fc_to_uppercase_twice_is_once() {
    let once = fc_to_uppercase("real portland fc".into());
    let twice = fc_to_uppercase(once.clone());
    assert_eq!(once, twice);
    assert_eq!("real portland FC", once);
}

#[test]
fn fix_case_title_cases_and_fixes_fc() {
    assert_eq!("Real Portland FC", fix_case("real portland fc"));
    assert_eq!("Hyventus", fix_case("HYVENTUS"));
    assert_eq!("Friend Hotel", fix_case("FRIEND hotel"));
}

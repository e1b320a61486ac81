//! Variable resolution: every scalar name reaches its field, every list
//! name its list, literals pass through verbatim, and anything else is
//! rejected.

use yaml_cv::error::Error;
use yaml_cv::record::{handle_history_value, handle_value, Entry, Record};

fn entry(year: &str, month: u8, value: &str) -> Entry {
    Entry { year: Some(year.to_string()), month: Some(month), value: value.to_string() }
}

fn sample_record() -> Record {
    Record {
        date: "date-v".to_string(),
        name_kana: "name_kana-v".to_string(),
        name: "name-v".to_string(),
        birth_day: "birth_day-v".to_string(),
        gender: "gender-v".to_string(),
        cell_phone: "cell_phone-v".to_string(),
        email: "email-v".to_string(),
        photo: "photo.jpg".to_string(),
        address_kana: "address_kana-v".to_string(),
        address: "address-v".to_string(),
        address_zip: "address_zip-v".to_string(),
        tel: "tel-v".to_string(),
        fax: "fax-v".to_string(),
        address_kana2: "address_kana2-v".to_string(),
        address2: "address2-v".to_string(),
        address_zip2: "address_zip2-v".to_string(),
        tel2: "tel2-v".to_string(),
        fax2: "fax2-v".to_string(),
        degree: "degree-v".to_string(),
        degree_year: "degree_year-v".to_string(),
        degree_affiliation: "degree_affiliation-v".to_string(),
        thesis_title: "thesis_title-v".to_string(),
        education: vec![entry("2015", 4, "enrolled")],
        experience: vec![entry("2019", 4, "hired")],
        licences: vec![entry("2020", 10, "licence")],
        awards: vec![entry("2021", 1, "award")],
        teaching: "teaching-v".to_string(),
        affiliated_society: "affiliated_society-v".to_string(),
        notices: "notices-v".to_string(),
        commuting_time: "commuting_time-v".to_string(),
        dependents: "dependents-v".to_string(),
        spouse: "spouse-v".to_string(),
        supporting_spouse: "supporting_spouse-v".to_string(),
        hobby: "hobby-v".to_string(),
        motivation: "motivation-v".to_string(),
        request: "request-v".to_string(),
    }
}

#[test]
fn every_scalar_name_resolves_to_its_field() {
    let rec = sample_record();
    let cases: Vec<(&str, &str)> = vec![
        ("$date", "date-v"),
        ("$name_kana", "name_kana-v"),
        ("$name", "name-v"),
        ("$birth_day", "birth_day-v"),
        ("$gender", "gender-v"),
        ("$cell_phone", "cell_phone-v"),
        ("$email", "email-v"),
        ("$address_kana", "address_kana-v"),
        ("$address", "address-v"),
        ("$address_zip", "address_zip-v"),
        ("$tel", "tel-v"),
        ("$fax", "fax-v"),
        ("$address_kana2", "address_kana2-v"),
        ("$address2", "address2-v"),
        ("$address_zip2", "address_zip2-v"),
        ("$tel2", "tel2-v"),
        ("$fax2", "fax2-v"),
        ("$commuting_time", "commuting_time-v"),
        ("$dependents", "dependents-v"),
        ("$spouse", "spouse-v"),
        ("$supporting_spouse", "supporting_spouse-v"),
        ("$hobby", "hobby-v"),
        ("$motivation", "motivation-v"),
        ("$request", "request-v"),
        ("$degree", "degree-v"),
        ("$degree_year", "degree_year-v"),
        ("$degree_affiliation", "degree_affiliation-v"),
        ("$thesis_title", "thesis_title-v"),
    ];
    for (name, expected) in cases {
        let value = name.to_string();
        assert_eq!(handle_value(&value, &rec).unwrap(), expected, "for {}", name);
    }
}

#[test]
fn literal_text_passes_through_verbatim() {
    let rec = sample_record();
    let value = "just text, no sigil".to_string();
    assert_eq!(handle_value(&value, &rec).unwrap(), &value);
}

#[test]
fn unknown_scalar_variable_is_rejected() {
    let rec = sample_record();
    let value = "$bogus".to_string();
    assert_eq!(
        handle_value(&value, &rec).unwrap_err(),
        Error::UnknownVariable { name: "$bogus".to_string() }
    );
}

#[test]
fn list_name_in_scalar_position_is_rejected() {
    let rec = sample_record();
    let value = "$education".to_string();
    assert!(matches!(
        handle_value(&value, &rec),
        Err(Error::UnknownVariable { .. })
    ));
}

#[test]
fn every_list_name_resolves_to_its_list() {
    let rec = sample_record();
    let awards = "$awards".to_string();
    assert_eq!(handle_history_value(&awards, &rec).unwrap(), &rec.awards);
    let education = "$education".to_string();
    assert_eq!(handle_history_value(&education, &rec).unwrap(), &rec.education);
    let experience = "$experience".to_string();
    assert_eq!(handle_history_value(&experience, &rec).unwrap(), &rec.experience);
    let licences = "$licences".to_string();
    assert_eq!(handle_history_value(&licences, &rec).unwrap(), &rec.licences);
}

#[test]
fn scalar_name_in_list_position_is_rejected() {
    let rec = sample_record();
    let value = "$name".to_string();
    assert_eq!(
        handle_history_value(&value, &rec).unwrap_err(),
        Error::UnknownVariable { name: "$name".to_string() }
    );
}

use products_merger::policy::{is_master_variant, should_compare_key};
use products_merger::record::Record;

fn record_with(key: &str, value: &str) -> Record {
    let mut r = Record::new();
    r.set(key, String::from(value));
    r
}

#[test]
fn test_should_compare_key() {
    assert_eq!(should_compare_key("bla"), false);
    assert_eq!(should_compare_key("Bla"), true);
    assert_eq!(should_compare_key("ContentDescription"), false);
    assert_eq!(should_compare_key(""), false);
}

#[test]
fn test_is_master() {
    assert_eq!(is_master_variant(&record_with("_published", "true")), true);
    assert_eq!(is_master_variant(&record_with("_published", "false")), true);
    assert_eq!(is_master_variant(&record_with("_published", "")), false);
    assert_eq!(is_master_variant(&record_with("hello", "")), false);
}

#[test]
fn denylisted_keys_are_not_compared() {
    assert!(!should_compare_key("ConsiderForSearch"));
    assert!(!should_compare_key("PartnerProduct"));
    assert!(!should_compare_key("PartnerShop"));
    assert!(!should_compare_key("PartnerShops"));
    assert!(!should_compare_key("QAValidation"));
    assert!(!should_compare_key("QAValidationMessage"));
    assert!(!should_compare_key("RedaktionellerContent"));
    assert!(!should_compare_key("Validation"));
    assert!(!should_compare_key("ValidationMessage"));
    assert!(!should_compare_key("ValidationException"));
}

#[test]
fn localized_keys_are_not_custom_attributes() {
    assert!(!should_compare_key("name.de"));
    assert!(!should_compare_key("description.de"));
    assert!(!should_compare_key("_published"));
    assert!(!should_compare_key("sku"));
}

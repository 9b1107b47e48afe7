use products_merger::errors::MergeError;
use products_merger::table::run_batch;

fn test_run(master_data: &str, partner_data: &str, expected: &str) {
    let result = run_batch(master_data.as_bytes(), partner_data.as_bytes()).unwrap();
    let data = String::from_utf8(result).unwrap();
    assert_eq!(data, expected);
}

#[test]
fn master_data_is_copied() {
    let master_data = "\
_published,sku,Att1
true,1,hello
,2,bye
false,3,name
,4,name
";
    test_run(master_data, "", master_data);
}

#[test]
fn do_nothing_if_no_master_data() {
    let master_data = "_published,sku,Att1\n";
    test_run(master_data, "", master_data);
}

#[test]
fn master_data_is_changed_and_copied() {
    let master_data = "\
_published,sku,Att1
true,1,hello
,2,bye
false,3,name
,4,name
";
    let partner_data = "\
msku,Att1
2,bye2
";
    let expected_data = "\
_published,sku,Att1
true,1,bye2
,2,bye2
false,3,name
,4,name
";
    test_run(master_data, partner_data, expected_data);
}

#[test]
fn compare_partner_description() {
    let master_data = "\
_published,sku,PartnerDescription.de
true,1,hello
,2,bye
false,3,name
,4,name
";
    let partner_data = "\
msku,PartnerDescription.de
2,bye2
";
    let expected_data = "\
_published,sku,PartnerDescription.de
true,1,bye2
,2,bye2
false,3,name
,4,name
";
    test_run(master_data, partner_data, expected_data);
}

#[test]
fn handle_missing_column() {
    let master_data = "\
_published,sku,Att1,Att2
true,1,hello,abc
,2,bye,def
false,3,name,ghi
,4,name,klm
";
    let partner_data = "\
msku,Att1
2,bye2
";
    // a missing column is ignored
    let expected_data = "\
_published,sku,Att1,Att2
true,1,bye2,abc
,2,bye2,def
false,3,name,ghi
,4,name,klm
";
    test_run(master_data, partner_data, expected_data);
}

#[test]
fn handle_product_with_only_master_variant() {
    let master_data = "\
_published,sku,Att1
true,1,hello
false,3,name
,4,name
";
    let partner_data = "\
msku,Att1
4,bye2
";
    let expected_data = "\
_published,sku,Att1
true,1,hello
false,3,bye2
,4,bye2
";
    test_run(master_data, partner_data, expected_data);
}

#[test]
fn update_product_name() {
    let master_data = "\
_published,sku,name.de
true,1,v1
,2,
false,3,v2
,4,
";
    let partner_data = "\
msku,name.de
2,v1b
";
    let expected_data = "\
_published,sku,name.de
true,1,v1b
,2,
false,3,v2
,4,
";
    test_run(master_data, partner_data, expected_data);
}

#[test]
fn update_product_description() {
    let master_data = "\
_published,sku,description.de
true,1,v1
,2,
false,3,v2
,4,
";
    let partner_data = "\
msku,description.de
2,v1b
";
    let expected_data = "\
_published,sku,description.de
true,1,v1b
,2,
false,3,v2
,4,
";
    test_run(master_data, partner_data, expected_data);
}

#[test]
fn parents_without_children_flush_once() {
    // two parent-only groups, no partner match anywhere: each parent is
    // written exactly once, in order
    let master_data = "\
_published,sku,Att1
true,1,a
true,2,b
";
    let partner_data = "\
msku,Att1
9,zzz
";
    test_run(master_data, partner_data, master_data);
}

#[test]
fn conflict_against_missing_child_field_reads_empty() {
    // the child row is shorter than the header: Att1 is absent and reads as
    // empty for the comparison, so the partner's value wins in batch mode
    let master_data = "\
_published,sku,Att1
true,1,hello
,2
";
    let partner_data = "\
msku,Att1
2,filled
";
    let expected_data = "\
_published,sku,Att1
true,1,filled
,2,filled
";
    test_run(master_data, partner_data, expected_data);
}

#[test]
fn duplicate_partner_sku_last_wins() {
    let master_data = "\
_published,sku,Att1
true,1,hello
,2,bye
";
    let partner_data = "\
msku,Att1
2,first
2,second
";
    let expected_data = "\
_published,sku,Att1
true,1,second
,2,second
";
    test_run(master_data, partner_data, expected_data);
}

#[test]
fn missing_msku_is_fatal() {
    let master_data = "_published,sku,Att1\ntrue,1,hello\n";
    let partner_data = "sku,Att1\n2,bye2\n";
    let result = run_batch(master_data.as_bytes(), partner_data.as_bytes());
    assert_eq!(result.unwrap_err(), MergeError::MissingMsku);
}

#[test]
fn empty_master_is_fatal() {
    // a master source with not even a header row cannot be reconciled
    let partner_data = "msku,Att1\n2,bye2\n";
    let result = run_batch(b"", partner_data.as_bytes());
    assert_eq!(result.unwrap_err(), MergeError::MasterUnparsable);
}

#[test]
fn unreadable_partner_is_fatal() {
    // the second partner row is not valid text
    let master_data = "_published,sku,Att1\ntrue,1,hello\n";
    let partner_data: &[u8] = b"msku,Att1\n\xff\xff,2\n";
    let result = run_batch(master_data.as_bytes(), partner_data);
    assert_eq!(result.unwrap_err(), MergeError::PartnerUnparsable);
}

#[test]
fn unreadable_master_is_fatal() {
    // the master row is not valid text
    let master_data: &[u8] = b"_published,sku,Att1\n\xff\xff,1,x\n";
    let partner_data = "msku,Att1\n2,bye2\n";
    let result = run_batch(master_data, partner_data.as_bytes());
    assert_eq!(result.unwrap_err(), MergeError::MasterUnparsable);
}

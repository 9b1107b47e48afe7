//! The key eligibility policy: which field names take part in the
//! custom-attribute comparison, which are the always-on localized fields,
//! and which rows count as master variants (parents of a product group).

use vstd::prelude::*;
use crate::record::{alist_get, Record};
use crate::strutil::str_eq;

verus! {

/// Whether a character outside the ASCII range has the Unicode `Uppercase`
/// property.  Named, not stated: it depends on the character alone.
pub uninterp spec fn unicode_uppercase(c: char) -> bool;

/// Whether a character is uppercase.  Within ASCII these are exactly the
/// letters `A` to `Z`.
pub open spec fn spec_uppercase(c: char) -> bool {
    if c as u32 <= 127 {
        'A' as u32 <= c as u32 && c as u32 <= 'Z' as u32
    } else {
        unicode_uppercase(c)
    }
}

/// Relies on char::is_uppercase: true exactly for characters with the
/// Unicode `Uppercase` property, which within ASCII are the letters
/// `A` to `Z`.
#[verifier::external_body]
fn char_is_uppercase(c: char) -> (r: bool)
    ensures
        r == spec_uppercase(c),
        c as u32 > 127 ==> r == unicode_uppercase(c),
{
    c.is_uppercase()
}

/// The administrative and custom fields that are never compared, even though
/// their names start with an uppercase letter.
pub open spec fn spec_denylisted(k: Seq<char>) -> bool {
    ||| k == "ConsiderForSearch"@
    ||| k == "ContentDescription"@
    ||| k == "PartnerProduct"@
    ||| k == "PartnerShop"@
    ||| k == "PartnerShops"@
    ||| k == "QAValidation"@
    ||| k == "QAValidationMessage"@
    ||| k == "RedaktionellerContent"@
    ||| k == "Validation"@
    ||| k == "ValidationMessage"@
    ||| k == "ValidationException"@
}

/// A field takes part in the custom-attribute comparison exactly when its
/// name starts with an uppercase letter and is not denylisted.
pub open spec fn spec_should_compare(k: Seq<char>) -> bool {
    k.len() > 0 && spec_uppercase(k[0]) && !spec_denylisted(k)
}

/// The eligibility gate of the comparison policy.
pub fn should_compare_key(key: &str) -> (r: bool)
    ensures
        r == spec_should_compare(key@),
{
    if key.unicode_len() == 0 {
        return false;
    }
    if !char_is_uppercase(key.get_char(0)) {
        return false;
    }
    if str_eq(key, "ConsiderForSearch") || str_eq(key, "ContentDescription") || str_eq(
        key,
        "PartnerProduct",
    ) || str_eq(key, "PartnerShop") || str_eq(key, "PartnerShops") || str_eq(key, "QAValidation")
        || str_eq(key, "QAValidationMessage") || str_eq(key, "RedaktionellerContent") || str_eq(
        key,
        "Validation",
    ) || str_eq(key, "ValidationMessage") || str_eq(key, "ValidationException") {
        return false;
    }
    true
}

/// The two localized product-identity fields that are always compared,
/// independent of the custom-attribute rule.
pub open spec fn spec_localized(k: Seq<char>) -> bool {
    k == "name.de"@ || k == "description.de"@
}

/// Whether a field name is one of the always-on localized fields.
pub fn is_localized_key(key: &str) -> (r: bool)
    ensures
        r == spec_localized(key@),
{
    str_eq(key, "name.de") || str_eq(key, "description.de")
}

/// A row is a master variant (the parent of its product group) exactly when
/// it has a non-empty `_published` field.
pub open spec fn spec_is_master(m: Seq<(Seq<char>, Seq<char>)>) -> bool {
    match alist_get(m, "_published"@) {
        Some(v) => v.len() > 0,
        None => false,
    }
}

/// Whether a master row opens a new product group.
pub fn is_master_variant(r: &Record) -> (b: bool)
    requires
        r.wf(),
    ensures
        b == spec_is_master(r@),
{
    match r.get("_published") {
        Some(v) => v.as_str().unicode_len() > 0,
        None => false,
    }
}

} // verus!

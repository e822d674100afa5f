use vstd::prelude::*;
use vstd::string::*;

use crate::strutil::str_eq;
use crate::types::{
    CSLDateField, CSLDateFieldView, CSLNameField, CSLOrdinaryField, CSLOrdinaryFieldView,
    CSLValue, CSLValueView, DatePartsView, spec_with_name,
};
use crate::{res_view, NbibError};

verus! {

/// The model of a flat key/value field.
pub open spec fn ord_v(key: Seq<char>, value: Seq<char>) -> CSLValueView {
    CSLValueView::Ordinary(CSLOrdinaryFieldView { key: key, value: value })
}

/// The fixed mapping from a recognized MEDLINE/Pubmed tag and its value to a
/// typed citation field.  A tag that is empty or longer than four characters
/// is structurally malformed; an unrecognized tag maps to `Ignored`.
pub open spec fn spec_process_tag(tag: Seq<char>, value: Seq<char>) -> Result<
    CSLValueView,
    NbibError,
> {
    if tag.len() == 0 || tag.len() > 4 {
        Err(NbibError::MalformedRecord)
    } else if tag == "AB"@ {
        Ok(ord_v("abstract"@, value))
    } else if tag == "PMID"@ {
        Ok(ord_v("note"@, "PMID: "@ + value))
    } else if tag == "PMC"@ {
        Ok(ord_v("note"@, "PMCID: "@ + value))
    } else if tag == "TI"@ {
        Ok(ord_v("title"@, value))
    } else if tag == "VI"@ {
        Ok(ord_v("volume"@, value))
    } else if tag == "IP"@ {
        Ok(ord_v("issue"@, value))
    } else if tag == "PG"@ {
        Ok(ord_v("page"@, value))
    } else if tag == "DP"@ {
        Ok(
            CSLValueView::Date(
                CSLDateFieldView { key: "issued"@, dp: DatePartsView::only_raw(value) },
            ),
        )
    } else if tag == "FAU"@ {
        Ok(CSLValueView::Name(spec_with_name("author"@, value)))
    } else if tag == "AU"@ {
        Ok(CSLValueView::Name(spec_with_name("author"@, value)))
    } else if tag == "FED"@ {
        Ok(CSLValueView::Name(spec_with_name("editor"@, value)))
    } else if tag == "ED"@ {
        Ok(CSLValueView::Name(spec_with_name("editor"@, value)))
    } else if tag == "AUID"@ {
        Ok(CSLValueView::Ignored)
    } else if tag == "LA"@ {
        Ok(ord_v("language"@, value))
    } else if tag == "SI"@ {
        Ok(ord_v("note"@, value))
    } else if tag == "PT"@ {
        if value == "Journal Article"@ {
            Ok(ord_v("type"@, "article-journal"@))
        } else {
            Ok(CSLValueView::Ignored)
        }
    } else if tag == "TA"@ {
        Ok(ord_v("container-title-short"@, value))
    } else if tag == "JT"@ {
        Ok(ord_v("container-title"@, value))
    } else if tag == "AID"@ {
        if value.len() >= 5 && value.skip(value.len() - 5) == "[doi]"@ {
            Ok(ord_v("DOI"@, value.take(value.len() - 5)))
        } else {
            Ok(CSLValueView::Ignored)
        }
    } else {
        Ok(CSLValueView::Ignored)
    }
}

/// A flat key/value field with the given key.
fn ord(key: &str, value: String) -> (r: CSLValue)
    ensures
        r@ == ord_v(key@, value@),
{
    CSLValue::CSLOrdinaryField(CSLOrdinaryField { key: key.to_owned(), value })
}

/// A name field with the given key, split by the comma rule.
fn name(key: &str, value: String) -> (r: CSLValue)
    ensures
        r@ == CSLValueView::Name(spec_with_name(key@, value@)),
{
    CSLValue::CSLNameField(CSLNameField::with_name(key.to_owned(), value))
}

/// Maps one (tag, value) pair to its typed citation field, or to `Ignored`
/// for an unrecognized tag, or to `MalformedRecord` for a tag that is empty
/// or longer than four characters.
pub fn process_tag(tag: String, value: String) -> (r: Result<CSLValue, NbibError>)
    ensures
        res_view(r) == spec_process_tag(tag@, value@),
{
    let tlen = tag.as_str().unicode_len();
    if tlen == 0 || tlen > 4 {
        return Err(NbibError::MalformedRecord);
    }
    let t = tag.as_str();
    if str_eq(t, "AB") {
        Ok(ord("abstract", value))
    } else if str_eq(t, "PMID") {
        Ok(ord("note", "PMID: ".to_owned().concat(value.as_str())))
    } else if str_eq(t, "PMC") {
        Ok(ord("note", "PMCID: ".to_owned().concat(value.as_str())))
    } else if str_eq(t, "TI") {
        Ok(ord("title", value))
    } else if str_eq(t, "VI") {
        Ok(ord("volume", value))
    } else if str_eq(t, "IP") {
        Ok(ord("issue", value))
    } else if str_eq(t, "PG") {
        Ok(ord("page", value))
    } else if str_eq(t, "DP") {
        Ok(CSLValue::CSLDateField(CSLDateField::with_raw("issued".to_owned(), value)))
    } else if str_eq(t, "FAU") {
        Ok(name("author", value))
    } else if str_eq(t, "AU") {
        Ok(name("author", value))
    } else if str_eq(t, "FED") {
        Ok(name("editor", value))
    } else if str_eq(t, "ED") {
        Ok(name("editor", value))
    } else if str_eq(t, "AUID") {
        Ok(CSLValue::Ignored)
    } else if str_eq(t, "LA") {
        Ok(ord("language", value))
    } else if str_eq(t, "SI") {
        Ok(ord("note", value))
    } else if str_eq(t, "PT") {
        if str_eq(value.as_str(), "Journal Article") {
            Ok(ord("type", "article-journal".to_owned()))
        } else {
            Ok(CSLValue::Ignored)
        }
    } else if str_eq(t, "TA") {
        Ok(ord("container-title-short", value))
    } else if str_eq(t, "JT") {
        Ok(ord("container-title", value))
    } else if str_eq(t, "AID") {
        let n = value.as_str().unicode_len();
        if n >= 5 && str_eq(value.as_str().substring_char(n - 5, n), "[doi]") {
            let stripped = value.as_str().substring_char(0, n - 5).to_owned();
            proof {
                assert(value@.subrange(0, n - 5) =~= value@.take(n - 5));
                assert(value@.subrange(n - 5, n as int) =~= value@.skip(n - 5));
            }
            Ok(ord("DOI", stripped))
        } else {
            Ok(CSLValue::Ignored)
        }
    } else {
        Ok(CSLValue::Ignored)
    }
}

} // verus!

use vstd::prelude::*;

verus! {

/// The name that the standard data dictionary gives to a field, and the
/// empty text for a field that it does not know. The dictionary is a fixed
/// table, so the name depends on group and element alone.
pub uninterp spec fn standard_alias(group: u16, element: u16) -> Seq<char>;

/// Looks a field up by `StandardDataDictionary::by_tag` of the `dicom`
/// crate and takes the alias of the entry found. Trusted: the result is the
/// dictionary's name for the field, empty where it has none; this crate does
/// not say which name that is.
#[verifier::external_body]
pub(crate) fn dictionary_alias(group: u16, element: u16) -> (name: String)
    ensures
        name@ == standard_alias(group, element),
{
    let tag = ::dicom::core::Tag(group, element);
    ::dicom::core::dictionary::DataDictionary::by_tag(
        &::dicom::dictionary_std::StandardDataDictionary,
        tag,
    ).map(|entry| entry.alias.to_string()).unwrap_or_default()
}

} // verus!

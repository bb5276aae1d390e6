use dicom::dictionary_std::StandardDataDictionary;
use dicom::object::{FileDicomObject, InMemDicomObject};
use vstd::prelude::*;

verus! {

/// A decoded file: the file meta table and the data set behind it.
#[verifier::external_type_specification]
#[verifier::external_body]
#[verifier::reject_recursive_types(O)]
pub struct ExFileDicomObject<O>(FileDicomObject<O>);

/// A data set held in memory: an ordered map from tag to data element.
#[verifier::external_type_specification]
#[verifier::external_body]
#[verifier::reject_recursive_types(D)]
pub struct ExInMemDicomObject<D>(InMemDicomObject<D>);

/// The standard attribute dictionary, a unit type.
#[verifier::external_type_specification]
#[verifier::external_body]
pub struct ExStandardDataDictionary(StandardDataDictionary);

/// The value representation of a data element. The library never looks inside one:
/// it takes it from an element and hands it to the element that replaces it.
#[verifier::external_type_specification]
#[verifier::external_body]
pub struct ExVR(dicom::core::VR);

/// A data element: its tag, its value representation and its value, whatever that is.
#[verifier::external_type_specification]
#[verifier::external_body]
#[verifier::reject_recursive_types(I)]
#[verifier::reject_recursive_types(P)]
pub struct ExDataElement<I, P>(dicom::core::DataElement<I, P>);

/// The file meta table of a decoded file.
#[verifier::external_type_specification]
#[verifier::external_body]
pub struct ExFileMetaTable(dicom::object::FileMetaTable);

/// What this library reads of one data element.
pub struct Attribute {
    /// The element's value representation.
    pub vr: dicom::core::VR,
    /// The element's value as clean text; `None` where the value is not primitive
    /// (a sequence of items or of pixel fragments).
    pub text: Option<Seq<char>>,
}

/// The data elements of a decoded object's data set, by (group, element).
pub uninterp spec fn attributes(
    obj: FileDicomObject<InMemDicomObject<StandardDataDictionary>>,
) -> Map<(u16, u16), Attribute>;

/// The data elements of a decoded object's data set as they are, by (group, element):
/// the element map itself. `attributes` is what the library reads of each of them.
pub uninterp spec fn elements(
    obj: FileDicomObject<InMemDicomObject<StandardDataDictionary>>,
) -> Map<(u16, u16), dicom::core::DataElement<InMemDicomObject<StandardDataDictionary>, Vec<u8>>>;

/// The file meta table of a decoded object.
pub uninterp spec fn file_meta(
    obj: FileDicomObject<InMemDicomObject<StandardDataDictionary>>,
) -> dicom::object::FileMetaTable;

/// A text without the spaces and NUL characters at its end: the padding that the codec
/// strips when it reads a textual value.
pub open spec fn clean_text(s: Seq<char>) -> Seq<char>
    decreases s.len(),
{
    if s.len() > 0 && (s.last() == ' ' || s.last() == '\0') {
        clean_text(s.drop_last())
    } else {
        s
    }
}

/// Whether a data set holds an element under the tag whose value reads as text.
pub open spec fn has_text(elements: Map<(u16, u16), Attribute>, tag: (u16, u16)) -> bool {
    elements.contains_key(tag) && elements[tag].text is Some
}

/// `InMemDicomObject::element`, then `DataElement::to_str`, reached through the file
/// object's `Deref`. Trusted: `element` looks the tag up in the element map and fails
/// only when it is absent; `to_str` gives the text of a primitive value and fails on
/// any other. The result is that text, and `None` where either call fails.
#[verifier::external_body]
pub(crate) fn element_text(
    obj: &FileDicomObject<InMemDicomObject<StandardDataDictionary>>,
    group: u16,
    element: u16,
) -> (r: Option<String>)
    ensures
        r is Some <==> has_text(attributes(*obj), (group, element)),
        r matches Some(s) ==> Some(s@) == attributes(*obj)[(group, element)].text,
{
    match obj.element(dicom::core::Tag(group, element)) {
        Ok(e) => match e.to_str() {
            Ok(s) => Some(s.into_owned()),
            Err(_) => None,
        },
        Err(_) => None,
    }
}

/// `InMemDicomObject::element`, then `DataElement::vr`. Trusted: the result is the
/// value representation of the element under the tag, and `None` exactly when the
/// element map holds no element under it.
#[verifier::external_body]
pub(crate) fn element_vr(
    obj: &FileDicomObject<InMemDicomObject<StandardDataDictionary>>,
    group: u16,
    element: u16,
) -> (r: Option<dicom::core::VR>)
    ensures
        r is Some <==> attributes(*obj).contains_key((group, element)),
        r is Some <==> elements(*obj).contains_key((group, element)),
        r matches Some(vr) ==> vr == attributes(*obj)[(group, element)].vr,
{
    match obj.element(dicom::core::Tag(group, element)) {
        Ok(e) => Some(e.vr()),
        Err(_) => None,
    }
}

/// A textual element as it reads back: the codec strips the padding at the end.
pub open spec fn text_attribute(vr: dicom::core::VR, text: Seq<char>) -> Attribute {
    Attribute { vr, text: Some(clean_text(text)) }
}

/// `DataElement::new` with a one-string textual value, then `InMemDicomObject::put`.
/// Trusted: `put` inserts the element into the element map under its tag, replacing
/// what was there and touching no other entry and not the file meta table; the new
/// element has the given value representation, and its value reads back as the text
/// without the padding at its end.
#[verifier::external_body]
pub(crate) fn put_text(
    obj: &mut FileDicomObject<InMemDicomObject<StandardDataDictionary>>,
    group: u16,
    element: u16,
    vr: dicom::core::VR,
    text: &str,
)
    ensures
        attributes(*final(obj)) == attributes(*old(obj)).insert(
            (group, element),
            text_attribute(vr, text@)
        ),
        elements(*final(obj)).dom() == elements(*old(obj)).dom().insert((group, element)),
        forall|tag: (u16, u16)|
            tag != (group, element) && elements(*old(obj)).contains_key(tag)
                ==> #[trigger] elements(*final(obj))[tag] == elements(*old(obj))[tag],
        file_meta(*final(obj)) == file_meta(*old(obj)),
{
    let strings = dicom::core::value::C::from_vec(vec![text.to_owned()]);
    let value = dicom::core::value::PrimitiveValue::Strs(strings);
    obj.put(dicom::core::DataElement::new(dicom::core::Tag(group, element), vr, value));
}

} // verus!

//! Trusted access to the minidom XML parser.
//!
//! The LX decoder hands the deciphered document text to minidom and reads
//! the parse tree through the wrappers below. What a `minidom::Element`
//! holds is opaque to verification, but every accessor's result is a
//! function of its arguments alone — minidom builds and walks its tree
//! deterministically — so each result carries a name: an uninterpreted
//! spec function that the wrappers' contracts apply. The verified decoding
//! logic is then pinned, success and error alike, to those names.

use vstd::prelude::*;

verus! {

#[verifier::external_type_specification]
#[verifier::external_body]
pub struct ExElement(minidom::Element);

#[verifier::external_type_specification]
#[verifier::external_body]
pub struct ExXmlError(minidom::Error);

/// Does minidom parse this text as an XML document?
pub uninterp spec fn xml_parses(s: Seq<char>) -> bool;

/// The root element of the document `s`, when it parses.
pub uninterp spec fn root_of(s: Seq<char>) -> minidom::Element;

/// The element's local name.
pub uninterp spec fn name_of(e: minidom::Element) -> Seq<char>;

/// The value of the element's non-namespaced attribute of that name, if
/// present.
pub uninterp spec fn attr_of(e: minidom::Element, name: Seq<char>) -> Option<Seq<char>>;

/// How many direct child elements the element has.
pub uninterp spec fn child_count_of(e: minidom::Element) -> nat;

/// The element's direct child elements, in document order.
pub uninterp spec fn child_of(e: minidom::Element, i: int) -> minidom::Element;

/// The element's concatenated text content, entities unescaped.
pub uninterp spec fn text_of(e: minidom::Element) -> Seq<char>;

/// The text of the first direct child element of that name (in any
/// namespace), if such a child exists.
pub uninterp spec fn child_text_of(e: minidom::Element, name: Seq<char>) -> Option<Seq<char>>;

/// Relies on minidom's `FromStr` for `Element`: parses the text as an XML
/// document and returns its root element, or the parse error. Parsing is a
/// deterministic function of the text, and empty input reaches the end of
/// the document before any root element, so it always fails.
#[verifier::external_body]
pub fn parse_element(s: &str) -> (r: Result<minidom::Element, minidom::Error>)
    ensures
        r is Ok <==> xml_parses(s@),
        r is Ok ==> r->Ok_0 == root_of(s@),
        s@.len() == 0 ==> r is Err,
{
    s.parse()
}

/// Relies on minidom's `Element::name`: the element's local name.
#[verifier::external_body]
pub fn element_name(e: &minidom::Element) -> (r: String)
    ensures
        r@ == name_of(*e),
{
    e.name().to_owned()
}

/// Relies on minidom's `Element::attr`: the value of the non-namespaced
/// attribute of that name, if present.
#[verifier::external_body]
pub fn element_attr(e: &minidom::Element, name: &str) -> (r: Option<String>)
    ensures
        r is Some <==> attr_of(*e, name@) is Some,
        r is Some ==> (r->0)@ == attr_of(*e, name@)->0,
{
    e.attr(name).map(|v| v.to_owned())
}

/// Relies on minidom's `Element::children`: every direct child element, in
/// document order.
#[verifier::external_body]
pub fn element_children<'a>(e: &'a minidom::Element) -> (r: Vec<&'a minidom::Element>)
    ensures
        r@.len() == child_count_of(*e),
        forall|i: int| 0 <= i < r@.len() ==> *(#[trigger] r@[i]) == child_of(*e, i),
{
    e.children().collect()
}

/// Relies on minidom's `Element::get_child` with `NSChoice::Any`: the
/// first direct child element of that name, in any namespace. Its text is
/// what [`child_text_of`] names.
#[verifier::external_body]
pub fn element_child<'a>(e: &'a minidom::Element, name: &str) -> (r: Option<
    &'a minidom::Element,
>)
    ensures
        r is Some <==> child_text_of(*e, name@) is Some,
        r is Some ==> text_of(*(r->0)) == child_text_of(*e, name@)->0,
{
    e.get_child(name, minidom::NSChoice::Any)
}

/// Relies on minidom's `Element::text`: the element's concatenated text
/// content, entities unescaped.
#[verifier::external_body]
pub fn element_text(e: &minidom::Element) -> (r: String)
    ensures
        r@ == text_of(*e),
{
    e.text()
}

} // verus!

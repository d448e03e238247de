//! Documents for the pretty printer: what a document holds, and the calls
//! that make documents.
//!
//! A document is a value of the `pretty` crate. What is known of it here is
//! its items in the order of layout: texts, spaces and line breaks, with the
//! bounds of groups and of nested parts. The calls into the crate are taken
//! on trust, each with what the crate's source shows of the items of the
//! document it returns.
use pretty::{BoxDoc, Doc};
use vstd::prelude::*;

verus! {

/// The document type of the `pretty` crate, opaque here.
#[verifier::external_type_specification]
#[verifier::external_body]
#[verifier::reject_recursive_types(B)]
pub struct ExDoc<'a, B>(Doc<'a, B>);

/// The crate's owning pointer to a document, opaque here.
#[verifier::external_type_specification]
#[verifier::external_body]
pub struct ExBoxDoc<'a>(BoxDoc<'a>);

/// A document that owns its texts.
pub type Document = Doc<'static, BoxDoc<'static>>;

/// One item of a document.
pub enum DocItem {
    /// A text, laid out as it is.
    Text(Seq<char>),
    /// A space, or a line break where the group it is in does not fit the
    /// line.
    Space,
    /// A line break.
    Newline,
    /// The start of a group: what is laid out on one line if it fits.
    GroupOpen,
    /// The end of a group.
    GroupClose,
    /// The start of a part indented by that many columns more.
    NestOpen(usize),
    /// The end of an indented part.
    NestClose,
}

/// The items of a document, in the order of layout: the empty document has
/// none, a text, a space and a line break are one item each, an appended
/// document has the items of its parts one after the other, and a group or a
/// nested part has the items of what it holds between its two bounds.
pub uninterp spec fn doc_items(doc: Doc<'static, BoxDoc<'static>>) -> Seq<DocItem>;

/// Whether the text holds a line feed or a carriage return.
pub open spec fn has_line_break(text: Seq<char>) -> bool {
    text.contains('\n') || text.contains('\r')
}

/// The items of the first `n` of `docs`, one document after the other.
pub open spec fn items_of(docs: Seq<Document>, n: nat) -> Seq<DocItem>
    decreases n,
{
    if n == 0 || n > docs.len() {
        Seq::empty()
    } else {
        items_of(docs, (n - 1) as nat) + doc_items(docs[n - 1])
    }
}

/// The items of the first `n` of `docs`, with `separator` between every two
/// documents.
pub open spec fn items_between(docs: Seq<Document>, separator: Seq<DocItem>, n: nat) -> Seq<DocItem>
    decreases n,
{
    if n == 0 || n > docs.len() {
        Seq::empty()
    } else if n == 1 {
        doc_items(docs[0])
    } else {
        items_between(docs, separator, (n - 1) as nat) + separator + doc_items(docs[n - 1])
    }
}

/// `Doc::text`: the document of one text. The crate asks for a text without
/// line breaks, and asserts it in builds that keep assertions.
#[verifier::external_body]
pub(crate) fn doc_text(text: String) -> (r: Document)
    requires
        !has_line_break(text@),
    ensures
        doc_items(r) == seq![DocItem::Text(text@)],
{
    Doc::text(text)
}

/// `Doc::space`: the document of one space.
#[verifier::external_body]
pub(crate) fn doc_space() -> (r: Document)
    ensures
        doc_items(r) == seq![DocItem::Space],
{
    Doc::space()
}

/// `Doc::newline`: the document of one line break.
#[verifier::external_body]
pub(crate) fn doc_newline() -> (r: Document)
    ensures
        doc_items(r) == seq![DocItem::Newline],
{
    Doc::newline()
}

/// `Doc::append`: the first document and then the second. Where one of the
/// two is empty the crate returns the other, which has the same items.
#[verifier::external_body]
pub(crate) fn doc_append(first: Document, second: Document) -> (r: Document)
    ensures
        doc_items(r) == doc_items(first) + doc_items(second),
{
    first.append(second)
}

/// `Doc::group`: the document as a group.
#[verifier::external_body]
pub(crate) fn doc_group(doc: Document) -> (r: Document)
    ensures
        doc_items(r) == seq![DocItem::GroupOpen] + doc_items(doc) + seq![DocItem::GroupClose],
{
    doc.group()
}

/// `Doc::nest`: the document indented by `offset` columns more. With an
/// offset of 0 the crate returns the document as it is.
#[verifier::external_body]
pub(crate) fn doc_nest(doc: Document, offset: usize) -> (r: Document)
    ensures
        doc_items(r) == if offset == 0 {
            doc_items(doc)
        } else {
            seq![DocItem::NestOpen(offset)] + doc_items(doc) + seq![DocItem::NestClose]
        },
{
    doc.nest(offset)
}

/// `Doc::concat`: the documents one after the other, appended to the empty
/// document from first to last.
#[verifier::external_body]
pub(crate) fn doc_concat(docs: Vec<Document>) -> (r: Document)
    ensures
        doc_items(r) == items_of(docs@, docs@.len()),
{
    Doc::concat(docs)
}

/// `Doc::intersperse`: the documents one after the other with a copy of the
/// separator between every two.
#[verifier::external_body]
pub(crate) fn doc_intersperse(docs: Vec<Document>, separator: Document) -> (r: Document)
    ensures
        doc_items(r) == items_between(docs@, doc_items(separator), docs@.len()),
{
    Doc::intersperse(docs, separator)
}

/// Whether the text holds a line break.
pub fn holds_line_break(text: &str) -> (r: bool)
    ensures
        r == has_line_break(text@),
{
    let n = text.unicode_len();
    let mut i: usize = 0;
    while i < n
        invariant
            i <= n,
            n == text@.len(),
            forall|k: int| 0 <= k < i ==> text@[k] != '\n' && text@[k] != '\r',
        decreases n - i,
    {
        let c = text.get_char(i);
        if c == '\n' || c == '\r' {
            assert(text@.contains(c));
            return true;
        }
        i = i + 1;
    }
    false
}

/// The document of one text, or `None` where the text holds a line break,
/// which no document may hold.
pub fn text_doc(text: String) -> (r: Option<Document>)
    ensures
        r is Some <==> !has_line_break(text@),
        r matches Some(doc) ==> doc_items(doc) == seq![DocItem::Text(text@)],
{
    if holds_line_break(text.as_str()) {
        None
    } else {
        Some(doc_text(text))
    }
}

/// A value that can be laid out as a document.
pub trait ToDoc {
    /// The items of the value's document, or `None` where one of its texts
    /// holds a line break.
    spec fn doc(&self) -> Option<Seq<DocItem>>;

    /// The value as a document. There is none where one of the texts to lay
    /// out holds a line break.
    fn to_doc(&self) -> (r: Option<Document>)
        ensures
            r is Some <==> self.doc() is Some,
            r matches Some(doc) ==> Some(doc_items(doc)) == self.doc(),
    ;
}

} // verus!

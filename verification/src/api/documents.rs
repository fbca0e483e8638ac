//! The student-document listings: the raw upstream shapes, their clean
//! domain copies, and the conversions between them.

use vstd::prelude::*;
use vstd::string::{StrSliceExecFns, StringExecFns};
use vstd::std_specs::convert::FromSpec;
use crate::numeric::eq_ic;
use crate::text::{push_all, str_to_chars, chars_to_string};

verus! {

/// A document listing entry.
pub struct Document {
    pub name: String,
    pub file_name: String,
    pub date: String,
    pub gu: String,
}

/// One downloaded document.
pub struct DocumentData {
    pub file_name: String,
    pub file_data: Vec<u8>,
}

// The raw upstream shapes, reduced to what the conversions read.

pub struct StudentDocuments {
    pub student_gu: String,
    pub student_ssy: String,
    pub student_document_datas: StudentDocumentDatas,
}

pub struct StudentDocumentDatas {
    pub student_document_data: Vec<StudentDocumentData>,
}

pub struct StudentDocumentData {
    pub document_gu: String,
    pub document_file_name: String,
    pub document_date: String,
    pub document_type: String,
    pub student_gu: String,
    pub document_comment: String,
}

pub struct StudentAttachedDocumentData {
    pub document_datas: DocumentDatas,
}

pub struct DocumentDatas {
    pub document_data: DocumentData_,
}

pub struct DocumentData_ {
    pub document_gu: String,
    pub student_gu: String,
    pub doc_date: String,
    pub file_name: String,
    pub category: String,
    pub notes: String,
    pub doc_type: String,
    pub data: Vec<u8>,
}

impl From<StudentDocumentData> for Document {
    fn from(value: StudentDocumentData) -> (r: Document) {
        Document {
            name: value.document_comment,
            file_name: value.document_file_name,
            date: value.document_date,
            gu: value.document_gu,
        }
    }
}

impl vstd::std_specs::convert::FromSpecImpl<StudentDocumentData> for Document {
    open spec fn obeys_from_spec() -> bool {
        true
    }

    open spec fn from_spec(t: StudentDocumentData) -> Document {
        Document {
            name: t.document_comment,
            file_name: t.document_file_name,
            date: t.document_date,
            gu: t.document_gu,
        }
    }
}

impl From<DocumentData_> for DocumentData {
    fn from(value: DocumentData_) -> (r: DocumentData) {
        DocumentData { file_name: value.file_name, file_data: value.data }
    }
}

impl vstd::std_specs::convert::FromSpecImpl<DocumentData_> for DocumentData {
    open spec fn obeys_from_spec() -> bool {
        true
    }

    open spec fn from_spec(t: DocumentData_) -> DocumentData {
        DocumentData { file_name: t.file_name, file_data: t.data }
    }
}

/// The listing entries, each converted to its domain copy in order.
pub fn documents_from(docs: StudentDocuments) -> (r: Vec<Document>)
    ensures
        r@.len() == docs.student_document_datas.student_document_data@.len(),
        forall|i: int|
            0 <= i < r@.len() ==> r@[i] == Document::from_spec(
                #[trigger] docs.student_document_datas.student_document_data@[i],
            ),
{
    let ghost orig = docs.student_document_datas.student_document_data@;
    let mut src = docs.student_document_datas.student_document_data;
    let mut out: Vec<Document> = Vec::new();
    while src.len() > 0
        invariant
            orig.len() == out@.len() + src@.len(),
            src@ =~= orig.skip(out@.len() as int),
            forall|i: int|
                0 <= i < out@.len() ==> out@[i] == Document::from_spec(#[trigger] orig[i]),
        decreases src@.len(),
    {
        let x = src.remove(0);
        assert(x == orig[out@.len() as int]);
        out.push(Document::from(x));
        assert(src@ =~= orig.skip(out@.len() as int));
    }
    out
}

/// The downloaded document's domain copy.
pub fn document_from(docs: StudentAttachedDocumentData) -> (r: DocumentData)
    ensures
        r == DocumentData::from_spec(docs.document_datas.document_data),
{
    DocumentData::from(docs.document_datas.document_data)
}

/// The parameter fragment selecting one document by its identifier.
pub fn document_params(gu: &String) -> (r: String)
    ensures
        r@ == "<DocumentGU>"@ + gu@ + "</DocumentGU>"@,
{
    let mut s = String::from_str("<DocumentGU>");
    s.append(gu.as_str());
    s.append("</DocumentGU>");
    s
}

/// Whether a file name names a PDF, compared without ASCII case; such a
/// document is served inline rather than as an attachment.
pub fn is_pdf_file_name(name: &String) -> (r: bool)
    ensures
        r == (name@.len() >= 4 && eq_ic(name@.skip(name@.len() - 4), ".pdf"@)),
{
    let chars = str_to_chars(name.as_str());
    let n = chars.len();
    if n < 4 {
        proof {
            reveal_strlit(".pdf");
        }
        return false;
    }
    let tail: Vec<char> = vstd::slice::slice_to_vec(
        vstd::slice::slice_subrange(chars.as_slice(), n - 4, n),
    );
    assert(tail@ =~= name@.skip(name@.len() - 4));
    crate::numeric::eq_ignore_case(&tail, &str_to_chars(".pdf"))
}

} // verus!

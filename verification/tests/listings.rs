//! The document, school and student listings: conversions to the clean
//! domain copies.

use svue::api::documents::{
    document_from, document_params, documents_from, is_pdf_file_name, Document, DocumentData_,
    DocumentDatas, StudentAttachedDocumentData, StudentDocumentData, StudentDocumentDatas,
    StudentDocuments,
};
use svue::api::school_info::{SchoolInfo, StaffList, StaffLists, StudentSchoolInfoListing};
use svue::api::student_info::{
    split_student_info, Dentist, EmergencyContact, EmergencyContacts, Physician, StudentInfo,
    StudentInfo_,
};

fn doc_entry(n: u8) -> StudentDocumentData {
    StudentDocumentData {
        document_gu: format!("gu-{n}"),
        document_file_name: format!("file-{n}.pdf"),
        document_date: "01/02/2026".to_string(),
        document_type: "Report Card".to_string(),
        student_gu: "sgu".to_string(),
        document_comment: format!("Report {n}"),
    }
}

#[test]
fn document_listing_converts_in_order() {
    let docs = StudentDocuments {
        student_gu: "sgu".to_string(),
        student_ssy: "2026".to_string(),
        student_document_datas: StudentDocumentDatas {
            student_document_data: vec![doc_entry(1), doc_entry(2)],
        },
    };
    let out = documents_from(docs);
    assert_eq!(out.len(), 2);
    assert_eq!(out[0].name, "Report 1");
    assert_eq!(out[0].file_name, "file-1.pdf");
    assert_eq!(out[0].gu, "gu-1");
    assert_eq!(out[1].gu, "gu-2");
}

#[test]
fn single_document_converts() {
    let raw = StudentAttachedDocumentData {
        document_datas: DocumentDatas {
            document_data: DocumentData_ {
                document_gu: "g".to_string(),
                student_gu: "s".to_string(),
                doc_date: "d".to_string(),
                file_name: "card.pdf".to_string(),
                category: "c".to_string(),
                notes: "n".to_string(),
                doc_type: "t".to_string(),
                data: vec![1, 2, 3],
            },
        },
    };
    let d = document_from(raw);
    assert_eq!(d.file_name, "card.pdf");
    assert_eq!(d.file_data, vec![1, 2, 3]);
}

#[test]
fn from_impl_matches_fields() {
    let d = Document::from(doc_entry(7));
    assert_eq!(d.name, "Report 7");
    assert_eq!(d.date, "01/02/2026");
}

#[test]
fn document_request_params() {
    assert_eq!(document_params(&"abc-def".to_string()), "<DocumentGU>abc-def</DocumentGU>");
}

#[test]
fn pdf_names_are_detected_without_case() {
    assert!(is_pdf_file_name(&"report.pdf".to_string()));
    assert!(is_pdf_file_name(&"REPORT.PDF".to_string()));
    assert!(is_pdf_file_name(&"x.PdF".to_string()));
    assert!(!is_pdf_file_name(&"report.txt".to_string()));
    assert!(!is_pdf_file_name(&"pdf".to_string()));
}

#[test]
fn school_listing_converts() {
    let listing = StudentSchoolInfoListing {
        school: "Central High".to_string(),
        principal: "P. Principal".to_string(),
        school_address: "1 Main St".to_string(),
        school_city: "Rockville".to_string(),
        school_state: "MD".to_string(),
        school_zip: "20850".to_string(),
        phone: "555-0100".to_string(),
        url: "https://example.edu".to_string(),
        principal_email: "p@example.edu".to_string(),
        staff_lists: StaffLists {
            staff_list: vec![
                StaffList {
                    name: "A. Adams".to_string(),
                    email: "a@example.edu".to_string(),
                    title: "Counselor".to_string(),
                    phone: String::new(),
                    extn: String::new(),
                    staff_gu: "g1".to_string(),
                },
            ],
        },
    };
    let s = SchoolInfo::from_listing(listing);
    assert_eq!(s.name, "Central High");
    assert_eq!(s.zip_code, "20850");
    assert_eq!(s.website, "https://example.edu");
    assert_eq!(s.staff.len(), 1);
    assert_eq!(s.staff[0].job_title, "Counselor");
}

fn raw_student() -> StudentInfo_ {
    StudentInfo_ {
        formatted_name: "Jo Student".to_string(),
        perm_id: "12345".to_string(),
        gender: "X".to_string(),
        grade: "11".to_string(),
        address: "1 Main St<br>Rockville, MD".to_string(),
        birth_date: "1/2/2009".to_string(),
        email: "jo@example.edu".to_string(),
        phone: "555-0101".to_string(),
        current_school: "Central High".to_string(),
        photo: vec![9, 9, 9],
        emergency_contacts: EmergencyContacts {
            emergency_contact: vec![EmergencyContact {
                name: "Pat Parent".to_string(),
                relationship: "Parent".to_string(),
                home_phone: "555-1".to_string(),
                work_phone: String::new(),
                other_phone: String::new(),
                mobile_phone: "555-2".to_string(),
            }],
        },
        physician: Physician {
            name: "Dr. P".to_string(),
            hospital: "Clinic".to_string(),
            phone: "555-3".to_string(),
            extn: String::new(),
        },
        dentist: Dentist {
            name: "Dr. D".to_string(),
            office: "Office".to_string(),
            phone: "555-4".to_string(),
            extn: String::new(),
        },
    }
}

#[test]
fn student_info_converts_and_restores_line_breaks() {
    let s = StudentInfo::from_raw(raw_student());
    assert_eq!(s.name, "Jo Student");
    assert_eq!(s.address, "1 Main St\nRockville, MD");
    assert_eq!(s.physician.workplace, "Clinic");
    assert_eq!(s.dentist.workplace, "Office");
    let c = &s.emergency_contacts[0];
    assert_eq!(c.relation, "Parent");
    // Mobile first, then home; empty numbers dropped.
    assert_eq!(c.phone_numbers, vec!["555-2".to_string(), "555-1".to_string()]);
}

#[test]
fn photo_splits_off() {
    let (info, photo) = split_student_info(raw_student());
    assert_eq!(photo, vec![9, 9, 9]);
    assert_eq!(info.id, "12345");
}

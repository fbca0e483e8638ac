//! The student-information payload: the raw upstream shape, its clean
//! domain copy with the student photo split off, and the conversions.

use vstd::prelude::*;
use vstd::std_specs::convert::FromSpec;
use crate::text::{replace_all, replace_all_spec, str_to_chars, chars_to_string};

verus! {

/// The student as clients see them.
pub struct StudentInfo {
    pub name: String,
    pub id: String,
    pub gender: String,
    pub grade: String,
    pub address: String,
    pub birth_date: String,
    pub email: String,
    pub phone_number: String,
    pub emergency_contacts: Vec<Contact>,
    pub physician: Doctor,
    pub dentist: Doctor,
    pub school: String,
}

/// One emergency contact, with only the nonempty phone numbers kept.
pub struct Contact {
    pub name: String,
    pub relation: String,
    pub phone_numbers: Vec<String>,
}

/// A physician or dentist.
pub struct Doctor {
    pub name: String,
    pub workplace: String,
    pub phone_number: String,
}

// The raw upstream shapes, reduced to what the conversions read.

pub struct StudentInfo_ {
    pub formatted_name: String,
    pub perm_id: String,
    pub gender: String,
    pub grade: String,
    pub address: String,
    pub birth_date: String,
    pub email: String,
    pub phone: String,
    pub current_school: String,
    pub photo: Vec<u8>,
    pub emergency_contacts: EmergencyContacts,
    pub physician: Physician,
    pub dentist: Dentist,
}

pub struct LockerInfoRecords {
    pub student_locker_info_record: Option<StudentLockerInfoRecord>,
}

pub struct StudentLockerInfoRecord {
    pub locker_gu: String,
    pub locker_number: String,
    pub current_combination: String,
    pub location: String,
}

pub struct LastNameGoesBy {
}

pub struct HomeLanguage {
}

pub struct Track {
}

pub struct EmergencyContacts {
    pub emergency_contact: Vec<EmergencyContact>,
}

pub struct EmergencyContact {
    pub name: String,
    pub relationship: String,
    pub home_phone: String,
    pub work_phone: String,
    pub other_phone: String,
    pub mobile_phone: String,
}

pub struct Physician {
    pub name: String,
    pub hospital: String,
    pub phone: String,
    pub extn: String,
}

pub struct Dentist {
    pub name: String,
    pub office: String,
    pub phone: String,
    pub extn: String,
}

pub struct UserDefinedGroupBoxes {
    pub user_defined_group_box: Vec<UserDefinedGroupBox>,
}

pub struct UserDefinedGroupBox {
    pub group_box_label: String,
    pub user_defined_items: Vec<UserDefinedItems>,
}

pub struct UserDefinedItems {
    pub user_defined_item: Vec<UserDefinedItem>,
}

pub struct UserDefinedItem {
    pub item_label: String,
    pub item_type: String,
    pub source_object: String,
    pub source_element: String,
    pub vcid: String,
    pub value: String,
}

pub struct StudentBusAssignments {
}

impl From<Physician> for Doctor {
    fn from(value: Physician) -> (r: Doctor) {
        Doctor { name: value.name, workplace: value.hospital, phone_number: value.phone }
    }
}

impl vstd::std_specs::convert::FromSpecImpl<Physician> for Doctor {
    open spec fn obeys_from_spec() -> bool {
        true
    }

    open spec fn from_spec(t: Physician) -> Doctor {
        Doctor { name: t.name, workplace: t.hospital, phone_number: t.phone }
    }
}

impl From<Dentist> for Doctor {
    fn from(value: Dentist) -> (r: Doctor) {
        Doctor { name: value.name, workplace: value.office, phone_number: value.phone }
    }
}

impl vstd::std_specs::convert::FromSpecImpl<Dentist> for Doctor {
    open spec fn obeys_from_spec() -> bool {
        true
    }

    open spec fn from_spec(t: Dentist) -> Doctor {
        Doctor { name: t.name, workplace: t.office, phone_number: t.phone }
    }
}

/// The phone numbers a contact keeps, in the fixed order mobile, home,
/// work, other, empty ones dropped.
pub open spec fn contact_numbers(e: EmergencyContact) -> Seq<Seq<char>> {
    (if e.mobile_phone@.len() > 0 {
        seq![e.mobile_phone@]
    } else {
        Seq::<Seq<char>>::empty()
    }) + (if e.home_phone@.len() > 0 {
        seq![e.home_phone@]
    } else {
        Seq::<Seq<char>>::empty()
    }) + (if e.work_phone@.len() > 0 {
        seq![e.work_phone@]
    } else {
        Seq::<Seq<char>>::empty()
    }) + (if e.other_phone@.len() > 0 {
        seq![e.other_phone@]
    } else {
        Seq::<Seq<char>>::empty()
    })
}

/// How a converted contact relates to its raw entry.
pub open spec fn contact_rel(e: EmergencyContact, c: Contact) -> bool {
    &&& c.name == e.name
    &&& c.relation == e.relationship
    &&& c.phone_numbers@.map_values(|s: String| s@) == contact_numbers(e)
}

impl Contact {
    /// One raw contact converted: the nonempty phone numbers collected in
    /// the fixed order.
    pub fn from_emergency(value: EmergencyContact) -> (r: Contact)
        ensures
            contact_rel(value, r),
    {
        let mut numbers: Vec<String> = Vec::new();
        if !value.mobile_phone.as_str().is_empty() {
            numbers.push(value.mobile_phone);
        }
        if !value.home_phone.as_str().is_empty() {
            numbers.push(value.home_phone);
        }
        if !value.work_phone.as_str().is_empty() {
            numbers.push(value.work_phone);
        }
        if !value.other_phone.as_str().is_empty() {
            numbers.push(value.other_phone);
        }
        let r = Contact {
            name: value.name,
            relation: value.relationship,
            phone_numbers: numbers,
        };
        assert(r.phone_numbers@.map_values(|s: String| s@) =~= contact_numbers(value));
        r
    }
}

impl StudentInfo {
    /// The raw payload's domain copy: plain fields carried over, address
    /// line breaks restored, contacts and doctors converted in order. The
    /// photo is left aside for `split_student_info`.
    pub fn from_raw(value: StudentInfo_) -> (r: StudentInfo)
        ensures
            r.name == value.formatted_name,
            r.id == value.perm_id,
            r.gender == value.gender,
            r.grade == value.grade,
            r.address@ == replace_all_spec(value.address@, "<br>"@, "\n"@),
            r.birth_date == value.birth_date,
            r.email == value.email,
            r.phone_number == value.phone,
            r.school == value.current_school,
            r.physician == Doctor::from_spec(value.physician),
            r.dentist == Doctor::from_spec(value.dentist),
            r.emergency_contacts@.len() == value.emergency_contacts.emergency_contact@.len(),
            forall|i: int|
                0 <= i < r.emergency_contacts@.len() ==> contact_rel(
                    #[trigger] value.emergency_contacts.emergency_contact@[i],
                    r.emergency_contacts@[i],
                ),
    {
        proof {
            reveal_strlit("<br>");
        }
        let address = chars_to_string(
            &replace_all(
                &str_to_chars(value.address.as_str()),
                &str_to_chars("<br>"),
                &str_to_chars("\n"),
            ),
        );
        let ghost orig = value.emergency_contacts.emergency_contact@;
        let mut src = value.emergency_contacts.emergency_contact;
        let mut contacts: Vec<Contact> = Vec::new();
        while src.len() > 0
            invariant
                orig.len() == contacts@.len() + src@.len(),
                src@ =~= orig.skip(contacts@.len() as int),
                forall|i: int|
                    0 <= i < contacts@.len() ==> contact_rel(
                        #[trigger] orig[i],
                        contacts@[i],
                    ),
            decreases src@.len(),
        {
            let x = src.remove(0);
            assert(x == orig[contacts@.len() as int]);
            contacts.push(Contact::from_emergency(x));
            assert(src@ =~= orig.skip(contacts@.len() as int));
        }
        StudentInfo {
            name: value.formatted_name,
            id: value.perm_id,
            gender: value.gender,
            grade: value.grade,
            address,
            birth_date: value.birth_date,
            email: value.email,
            phone_number: value.phone,
            emergency_contacts: contacts,
            physician: Doctor::from(value.physician),
            dentist: Doctor::from(value.dentist),
            school: value.current_school,
        }
    }
}

/// Splits the raw payload into the student's domain copy and the photo
/// bytes, which two endpoints serve separately.
pub fn split_student_info(si: StudentInfo_) -> (r: (StudentInfo, Vec<u8>))
    ensures
        r.1@ == si.photo@,
        r.0.name == si.formatted_name,
        r.0.id == si.perm_id,
        r.0.gender == si.gender,
        r.0.grade == si.grade,
        r.0.address@ == replace_all_spec(si.address@, "<br>"@, "\n"@),
        r.0.birth_date == si.birth_date,
        r.0.email == si.email,
        r.0.phone_number == si.phone,
        r.0.school == si.current_school,
        r.0.physician == Doctor::from_spec(si.physician),
        r.0.dentist == Doctor::from_spec(si.dentist),
        r.0.emergency_contacts@.len() == si.emergency_contacts.emergency_contact@.len(),
        forall|i: int|
            0 <= i < r.0.emergency_contacts@.len() ==> contact_rel(
                #[trigger] si.emergency_contacts.emergency_contact@[i],
                r.0.emergency_contacts@[i],
            ),
{
    let photo = si.photo.clone();
    let info = StudentInfo::from_raw(si);
    (info, photo)
}

} // verus!

//! The school-information listing: the raw upstream shape, its clean
//! domain copy, and the conversion between them.

use vstd::prelude::*;
use vstd::std_specs::convert::FromSpec;

verus! {

/// The school and its staff, as clients see them.
pub struct SchoolInfo {
    pub name: String,
    pub principal: String,
    pub principal_email: String,
    pub address: String,
    pub city: String,
    pub state: String,
    pub zip_code: String,
    pub phone_number: String,
    pub website: String,
    pub staff: Vec<StaffInfo>,
}

/// One staff member.
pub struct StaffInfo {
    pub name: String,
    pub job_title: String,
    pub email: String,
}

// The raw upstream shapes, reduced to what the conversion reads.

pub struct StudentSchoolInfoListing {
    pub school: String,
    pub principal: String,
    pub school_address: String,
    pub school_city: String,
    pub school_state: String,
    pub school_zip: String,
    pub phone: String,
    pub url: String,
    pub principal_email: String,
    pub staff_lists: StaffLists,
}

pub struct StaffLists {
    pub staff_list: Vec<StaffList>,
}

pub struct StaffList {
    pub name: String,
    pub email: String,
    pub title: String,
    pub phone: String,
    pub extn: String,
    pub staff_gu: String,
}

impl From<StaffList> for StaffInfo {
    fn from(value: StaffList) -> (r: StaffInfo) {
        StaffInfo { name: value.name, job_title: value.title, email: value.email }
    }
}

impl vstd::std_specs::convert::FromSpecImpl<StaffList> for StaffInfo {
    open spec fn obeys_from_spec() -> bool {
        true
    }

    open spec fn from_spec(t: StaffList) -> StaffInfo {
        StaffInfo { name: t.name, job_title: t.title, email: t.email }
    }
}

impl SchoolInfo {
    /// The listing's domain copy: the plain fields carried over, and every
    /// staff entry converted in order.
    pub fn from_listing(value: StudentSchoolInfoListing) -> (r: SchoolInfo)
        ensures
            r.name == value.school,
            r.principal == value.principal,
            r.principal_email == value.principal_email,
            r.address == value.school_address,
            r.city == value.school_city,
            r.state == value.school_state,
            r.zip_code == value.school_zip,
            r.phone_number == value.phone,
            r.website == value.url,
            r.staff@.len() == value.staff_lists.staff_list@.len(),
            forall|i: int|
                0 <= i < r.staff@.len() ==> r.staff@[i] == StaffInfo::from_spec(
                    #[trigger] value.staff_lists.staff_list@[i],
                ),
    {
        let ghost orig = value.staff_lists.staff_list@;
        let mut src = value.staff_lists.staff_list;
        let mut staff: Vec<StaffInfo> = Vec::new();
        while src.len() > 0
            invariant
                orig.len() == staff@.len() + src@.len(),
                src@ =~= orig.skip(staff@.len() as int),
                forall|i: int|
                    0 <= i < staff@.len() ==> staff@[i] == StaffInfo::from_spec(
                        #[trigger] orig[i],
                    ),
            decreases src@.len(),
        {
            let x = src.remove(0);
            assert(x == orig[staff@.len() as int]);
            staff.push(StaffInfo::from(x));
            assert(src@ =~= orig.skip(staff@.len() as int));
        }
        SchoolInfo {
            name: value.school,
            principal: value.principal,
            principal_email: value.principal_email,
            address: value.school_address,
            city: value.school_city,
            state: value.school_state,
            zip_code: value.school_zip,
            phone_number: value.phone,
            website: value.url,
            staff,
        }
    }
}

} // verus!

use vstd::prelude::*;

use crate::locations::LocationCache;
use crate::model::{Company, Header, Record};
use crate::parsing::{
    co_run_end, company_list_prefix, header_ok, hdr_end, hdr_j3, parse_company_file,
    parse_delivery_file, parse_timetable_file, record_list_prefix, record_wf, records_run_end,
    spec_header_matches, uint_val, TimeTable,
};
use crate::util::all_ascii;
use crate::validity::{
    fnr_list_prefix, fnr_run_end, parse_footnote_file, text_window_days, validity_map,
    DayValidityFootnote, RideValidity,
};

verus! {

/// What reading a named member out of a zip archive held in memory
/// yields; it depends on the archive bytes and the member name alone.
pub uninterp spec fn zip_member_of(archive: Seq<u8>, name: Seq<char>) -> Option<Seq<u8>>;

/// Relies on zip::ZipArchive (new, by_name) and Read::read_to_end: the
/// bytes of a named member of an in-memory archive are a function of the
/// archive bytes and the name; any failure to open, find or inflate is
/// collapsed into absence.
#[verifier::external_body]
fn zip_member(archive: &[u8], name: &str) -> (r: Option<Vec<u8>>)
    ensures
        (match r {
            Some(v) => zip_member_of(archive@, name@) == Some(v@),
            None => zip_member_of(archive@, name@) is None,
        }),
{
    let cursor = std::io::Cursor::new(archive);
    let mut za = match zip::ZipArchive::new(cursor) {
        Ok(z) => z,
        Err(_) => return None,
    };
    let mut file = match za.by_name(name) {
        Ok(f) => f,
        Err(_) => return None,
    };
    let mut buf = Vec::new();
    match std::io::Read::read_to_end(&mut file, &mut buf) {
        Ok(_) => Some(buf),
        Err(_) => None,
    }
}

/// The version field of the archive's delivery member, when the member
/// exists and parses as a delivery file.
pub open spec fn delivery_version(archive: Seq<u8>) -> Option<int> {
    match zip_member_of(archive, "delivery.dat"@) {
        Some(b) => if all_ascii(b) && header_ok(b, 0) && hdr_end(b, 0) == b.len() {
            Some(uint_val(b, hdr_j3(b, 0) + 1))
        } else {
            None
        },
        None => None,
    }
}

/// The parsed content of a timetable archive: timetable, validity,
/// companies, delivery header, and the interner its codes live in.
pub struct Iff {
    timetable: TimeTable,
    validity: RideValidity,
    companies: Vec<Company>,
    header: Header,
    pub locations: LocationCache,
}

impl Iff {
    /// Everything the parse guarantees: a well-formed validity engine and
    /// records whose handles the interner resolves.
    pub closed spec fn spec_locations(&self) -> &LocationCache {
        &self.locations
    }

    pub open spec fn wf(&self) -> bool {
        &&& self.spec_locations().wf()
        &&& self.spec_validity().wf()
        &&& forall|q: int|
            0 <= q < self.spec_timetable().rides@.len() ==> record_wf(
                #[trigger] self.spec_timetable().rides@[q],
                self.spec_locations()@.len() as int,
            )
    }

    pub closed spec fn spec_timetable(&self) -> &TimeTable {
        &self.timetable
    }

    pub closed spec fn spec_validity(&self) -> &RideValidity {
        &self.validity
    }

    pub closed spec fn spec_header(&self) -> &Header {
        &self.header
    }

    pub closed spec fn spec_companies(&self) -> &Vec<Company> {
        &self.companies
    }

    /// Parses the four members of the archive and assembles them. It
    /// fails exactly when a member is absent or breaks its grammar, or
    /// the interner runs out of handles on a huge timetable member.
    pub fn new_from_archive(data: &[u8]) -> (r: Result<Self, String>)
        ensures
            (match r {
                Ok(iff) => {
                    &&& iff.wf()
                    &&& (match zip_member_of(data@, "timetbls.dat"@) {
                        Some(b) => {
                            &&& all_ascii(b)
                            &&& header_ok(b, 0)
                            &&& spec_header_matches(b, 0, iff.spec_timetable().header)
                            &&& records_run_end(b, hdr_end(b, 0)) == b.len()
                            &&& record_list_prefix(
                                b,
                                hdr_end(b, 0),
                                iff.spec_timetable().rides@,
                                iff.spec_locations()@,
                            ) == Some(b.len() as int)
                        },
                        None => false,
                    })
                    &&& (match zip_member_of(data@, "footnote.dat"@) {
                        Some(b) => {
                            &&& all_ascii(b)
                            &&& header_ok(b, 0)
                            &&& spec_header_matches(b, 0, iff.spec_validity().spec_header())
                            &&& fnr_run_end(b, hdr_end(b, 0)) == b.len()
                            &&& exists|entries: Seq<DayValidityFootnote>|
                                #[trigger] fnr_list_prefix(b, hdr_end(b, 0), entries) == Some(
                                    b.len() as int,
                                ) && iff.spec_validity().spec_validities() == validity_map(
                                    entries,
                                )
                        },
                        None => false,
                    })
                    &&& (match zip_member_of(data@, "company.dat"@) {
                        Some(b) => {
                            &&& all_ascii(b)
                            &&& header_ok(b, 0)
                            &&& co_run_end(b, hdr_end(b, 0)) == b.len()
                            &&& company_list_prefix(b, hdr_end(b, 0), iff.spec_companies()@)
                                == Some(b.len() as int)
                        },
                        None => false,
                    })
                    &&& (match zip_member_of(data@, "delivery.dat"@) {
                        Some(b) => all_ascii(b) && header_ok(b, 0) && spec_header_matches(
                            b,
                            0,
                            *iff.spec_header(),
                        ) && hdr_end(b, 0) == b.len(),
                        None => false,
                    })
                    &&& delivery_version(data@) == Some(iff.spec_header().version as int)
                },
                Err(_) => {
                    ||| (match zip_member_of(data@, "timetbls.dat"@) {
                        Some(b) => !(all_ascii(b) && header_ok(b, 0) && records_run_end(
                            b,
                            hdr_end(b, 0),
                        ) == b.len()) || b.len() >= 65536,
                        None => true,
                    })
                    ||| (match zip_member_of(data@, "footnote.dat"@) {
                        Some(b) => !(all_ascii(b) && header_ok(b, 0) && fnr_run_end(
                            b,
                            hdr_end(b, 0),
                        ) == b.len()) || exists|entries: Seq<DayValidityFootnote>|
                            #[trigger] fnr_list_prefix(b, hdr_end(b, 0), entries) == Some(
                                b.len() as int,
                            ) && exists|q: int|
                                0 <= q < entries.len() && (
                                #[trigger] entries[q]).validity@.len() != text_window_days(b),
                        None => true,
                    })
                    ||| (match zip_member_of(data@, "company.dat"@) {
                        Some(b) => !(all_ascii(b) && header_ok(b, 0) && co_run_end(
                            b,
                            hdr_end(b, 0),
                        ) == b.len()),
                        None => true,
                    })
                    ||| delivery_version(data@) is None
                },
            }),
    {
        let timetable_bytes = match zip_member(data, "timetbls.dat") {
            Some(b) => b,
            None => {
                return Err("Error getting file from archive".to_owned());
            },
        };
        let (timetable, locations) = match parse_timetable_file(timetable_bytes.as_slice()) {
            Ok(v) => v,
            Err(_) => {
                return Err("Error parsing timetable file".to_owned());
            },
        };
        let footnote_bytes = match zip_member(data, "footnote.dat") {
            Some(b) => b,
            None => {
                return Err("Error getting file from archive".to_owned());
            },
        };
        let validity = match parse_footnote_file(footnote_bytes.as_slice()) {
            Ok(v) => v,
            Err(_) => {
                return Err("Error parsing footnote file".to_owned());
            },
        };
        let company_bytes = match zip_member(data, "company.dat") {
            Some(b) => b,
            None => {
                return Err("Error getting file from archive".to_owned());
            },
        };
        let companies = match parse_company_file(company_bytes.as_slice()) {
            Ok(cf) => cf.companies,
            Err(_) => {
                return Err("Error parsing company file".to_owned());
            },
        };
        let delivery_bytes = match zip_member(data, "delivery.dat") {
            Some(b) => b,
            None => {
                return Err("Error getting file from archive".to_owned());
            },
        };
        let header = match parse_delivery_file(delivery_bytes.as_slice()) {
            Ok(h) => h,
            Err(_) => {
                return Err("Error parsing delivery file".to_owned());
            },
        };
        Ok(Iff { timetable, validity, companies, header, locations })
    }

    /// Reads only the delivery member and returns its version field.
    pub fn parse_version_only(data: &[u8]) -> (r: Result<u64, String>)
        ensures
            (match r {
                Ok(v) => delivery_version(data@) == Some(v as int),
                Err(_) => delivery_version(data@) is None,
            }),
    {
        let delivery_bytes = match zip_member(data, "delivery.dat") {
            Some(b) => b,
            None => {
                return Err("Error getting file from archive".to_owned());
            },
        };
        match parse_delivery_file(delivery_bytes.as_slice()) {
            Ok(h) => Ok(h.version),
            Err(_) => Err("Error parsing delivery file".to_owned()),
        }
    }

    pub fn timetable(&self) -> (r: &TimeTable)
        ensures
            r == self.spec_timetable(),
    {
        &self.timetable
    }

    /// Takes the archive apart into its five parsed pieces.
    pub fn into_parts(self) -> (r: (TimeTable, RideValidity, Vec<Company>, Header, LocationCache))
        ensures
            r.0 == self.spec_timetable(),
            r.1 == self.spec_validity(),
            r.2 == self.spec_companies(),
            r.3 == self.spec_header(),
            r.4 == self.spec_locations(),
    {
        (self.timetable, self.validity, self.companies, self.header, self.locations)
    }

    pub fn validity(&self) -> (r: &RideValidity)
        ensures
            r == self.spec_validity(),
    {
        &self.validity
    }

    pub fn companies(&self) -> (r: &Vec<Company>)
        ensures
            r == self.spec_companies(),
    {
        &self.companies
    }

    pub fn header(&self) -> (r: &Header)
        ensures
            r == self.spec_header(),
    {
        &self.header
    }
}

/// Whether a freshly fetched archive supersedes the existing one: true
/// exactly when both delivery versions parse and the new one is larger.
pub fn is_update_required(old_data: &[u8], new_data: &[u8]) -> (r: Result<bool, String>)
    ensures
        (match r {
            Ok(b) => delivery_version(old_data@) is Some && delivery_version(new_data@) is Some
                && b == (delivery_version(old_data@).unwrap() < delivery_version(
                new_data@,
            ).unwrap()),
            Err(_) => delivery_version(old_data@) is None || delivery_version(new_data@) is None,
        }),
{
    let old_version = match Iff::parse_version_only(old_data) {
        Ok(v) => v,
        Err(e) => {
            return Err(e);
        },
    };
    let new_version = match Iff::parse_version_only(new_data) {
        Ok(v) => v,
        Err(e) => {
            return Err(e);
        },
    };
    Ok(old_version < new_version)
}

} // verus!

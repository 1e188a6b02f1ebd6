//! Lookups in a repository index: a document whose `entries` map each chart
//! name to its version records, newest first.
use vstd::prelude::*;
use crate::error::Error;
use crate::yaml::{entry_lookup, field, text_field, Yaml};

verus! {

/// The version records that `index` lists for `chart`, in the index's order.
pub open spec fn version_list(index: Yaml, chart: Seq<char>) -> Result<Seq<Yaml>, Error> {
    match field(index, "entries"@) {
        Some(Yaml::Mapping(charts)) => match entry_lookup(charts@, chart) {
            None => Err(Error::ChartNotFound),
            Some(Yaml::Sequence(records)) => Ok(records@),
            Some(_) => Err(Error::IndexShapeInvalid),
        },
        _ => Err(Error::IndexShapeInvalid),
    }
}

/// The record that the index lists first for `chart`: the latest, as the
/// index declares it.
pub open spec fn latest_of(index: Yaml, chart: Seq<char>) -> Result<Yaml, Error> {
    match version_list(index, chart) {
        Err(e) => Err(e),
        Ok(records) => if records.len() == 0 {
            Err(Error::ChartNotFound)
        } else {
            Ok(records[0])
        },
    }
}

/// The version that a record states.
pub open spec fn record_version(record: Yaml) -> Option<Seq<char>> {
    text_field(record, "version"@)
}

/// Record `i` is the first of `records` whose version is `version`.
pub open spec fn first_version_at(records: Seq<Yaml>, version: Seq<char>, i: int) -> bool {
    &&& 0 <= i < records.len()
    &&& record_version(records[i]) == Some(version)
    &&& forall|j: int| 0 <= j < i ==> record_version(#[trigger] records[j]) != Some(version)
}

/// The record of `chart` whose version is exactly `version`.
pub open spec fn record_for(index: Yaml, chart: Seq<char>, version: Seq<char>) -> Result<Yaml, Error> {
    match version_list(index, chart) {
        Err(e) => Err(e),
        Ok(records) => if exists|i: int| first_version_at(records, version, i) {
            Ok(records[choose|i: int| first_version_at(records, version, i)])
        } else {
            Err(Error::VersionNotFound)
        },
    }
}

/// The version records that `index` lists for `chart`.
pub fn chart_versions<'a>(index: &'a Yaml, chart: &str) -> (r: Result<&'a Vec<Yaml>, Error>)
    ensures
        r is Ok <==> version_list(*index, chart@) is Ok,
        r matches Ok(records) ==> version_list(*index, chart@) == Ok::<Seq<Yaml>, Error>(records@),
        r matches Err(e) ==> version_list(*index, chart@) == Err::<Seq<Yaml>, Error>(e),
{
    let charts = match index.get("entries") {
        Some(section) => match section.as_map() {
            Some(charts) => charts,
            None => return Err(Error::IndexShapeInvalid),
        },
        None => return Err(Error::IndexShapeInvalid),
    };
    match crate::yaml::lookup_entry(charts, chart) {
        None => Err(Error::ChartNotFound),
        Some(list) => match list.as_seq() {
            Some(records) => Ok(records),
            None => Err(Error::IndexShapeInvalid),
        },
    }
}

/// The latest record of `chart`: the first that the index lists, whatever
/// the versions of the others.
pub fn latest_version<'a>(index: &'a Yaml, chart: &str) -> (r: Result<&'a Yaml, Error>)
    ensures
        r is Ok <==> latest_of(*index, chart@) is Ok,
        r matches Ok(record) ==> latest_of(*index, chart@) == Ok::<Yaml, Error>(*record),
        r matches Err(e) ==> latest_of(*index, chart@) == Err::<Yaml, Error>(e),
        r matches Ok(record) ==> version_list(*index, chart@) matches Ok(records) && records.len() > 0
            && *record == records[0],
{
    let records = chart_versions(index, chart)?;
    if records.len() == 0 {
        Err(Error::ChartNotFound)
    } else {
        Ok(&records[0])
    }
}

/// The record of `chart` whose version equals `version` exactly; the first
/// such when the index lists several.
pub fn version_record<'a>(index: &'a Yaml, chart: &str, version: &str) -> (r: Result<&'a Yaml, Error>)
    ensures
        r is Ok <==> record_for(*index, chart@, version@) is Ok,
        r matches Ok(record) ==> record_for(*index, chart@, version@) == Ok::<Yaml, Error>(*record),
        r matches Err(e) ==> record_for(*index, chart@, version@) == Err::<Yaml, Error>(e),
        r matches Ok(record) ==> record_version(*record) == Some(version@),
        version_list(*index, chart@) matches Ok(records) ==> (r == Err::<&Yaml, Error>(Error::VersionNotFound)
            <==> forall|i: int| 0 <= i < records.len() ==> record_version(#[trigger] records[i]) != Some(version@)),
{
    let records = chart_versions(index, chart)?;
    let wanted = String::from_str(version);
    let mut i: usize = 0;
    while i < records.len()
        invariant
            version_list(*index, chart@) == Ok::<Seq<Yaml>, Error>(records@),
            wanted@ == version@,
            0 <= i <= records@.len(),
            forall|j: int| 0 <= j < i ==> record_version(#[trigger] records@[j]) != Some(version@),
        decreases records@.len() - i,
    {
        let found = match records[i].text_at("version") {
            Some(v) => *v == wanted,
            None => false,
        };
        if found {
            proof {
                assert(first_version_at(records@, version@, i as int));
                let k = choose|k: int| first_version_at(records@, version@, k);
                if k < i {
                    assert(record_version(records@[k]) != Some(version@));
                } else if i < k {
                    assert(record_version(records@[i as int]) != Some(version@));
                }
            }
            return Ok(&records[i]);
        }
        i = i + 1;
    }
    proof {
        assert forall|k: int| !first_version_at(records@, version@, k) by {
            if 0 <= k < records@.len() {
                assert(record_version(records@[k]) != Some(version@));
            }
        }
    }
    Err(Error::VersionNotFound)
}

/// The version that a record states; a record without one is malformed.
pub fn version_of(record: &Yaml) -> (r: Result<&String, Error>)
    ensures
        r is Ok <==> record_version(*record) is Some,
        r matches Ok(v) ==> record_version(*record) == Some(v@),
        r matches Err(e) ==> e == Error::IndexShapeInvalid,
{
    match record.text_at("version") {
        Some(v) => Ok(v),
        None => Err(Error::IndexShapeInvalid),
    }
}

} // verus!

//! Where a chart version's archive lives, and where its default
//! configuration lies once the archive is unpacked.
use vstd::prelude::*;
use crate::error::Error;
use crate::support::{join_path, join_url, parse_url, path_join_text, url_join_text, url_parse_text};
use crate::yaml::{field, text_field, text_of, Yaml};

verus! {

/// The default configuration file inside a chart's directory.
pub const DEFAULT_CONFIG_FILE: &'static str = "values.yaml";

/// The archive URL of a version record: its first URL, as an absolute URL
/// when it parses as one, else resolved against the repository's base URL.
pub open spec fn archive_url_of(record: Yaml, base: Seq<char>) -> Result<Seq<char>, Error> {
    match field(record, "urls"@) {
        Some(Yaml::Sequence(urls)) => if urls@.len() == 0 {
            Err(Error::ArchiveUrlInvalid)
        } else {
            match text_of(urls@[0]) {
                None => Err(Error::ArchiveUrlInvalid),
                Some(first) => match url_parse_text(first) {
                    Some(absolute) => Ok(absolute),
                    None => match url_join_text(base, first) {
                        Some(joined) => Ok(joined),
                        None => Err(Error::ArchiveUrlInvalid),
                    },
                },
            }
        },
        _ => Err(Error::ArchiveUrlInvalid),
    }
}

/// The path of the default configuration of the record's chart, once its
/// archive is unpacked into `extracted`: `<extracted>/<name>/values.yaml`.
pub open spec fn default_config_of(extracted: Seq<char>, record: Yaml) -> Result<Seq<char>, Error> {
    match text_field(record, "name"@) {
        None => Err(Error::IndexShapeInvalid),
        Some(name) => Ok(path_join_text(extracted, name.push('/') + DEFAULT_CONFIG_FILE@)),
    }
}

/// The archive URL of a version record, given the repository's base URL.
pub fn archive_url(record: &Yaml, base: &str) -> (r: Result<String, Error>)
    ensures
        r is Ok <==> archive_url_of(*record, base@) is Ok,
        r matches Ok(u) ==> archive_url_of(*record, base@) == Ok::<Seq<char>, Error>(u@),
        r matches Err(e) ==> archive_url_of(*record, base@) == Err::<Seq<char>, Error>(e),
{
    let urls = match record.get("urls") {
        Some(list) => match list.as_seq() {
            Some(urls) => urls,
            None => return Err(Error::ArchiveUrlInvalid),
        },
        None => return Err(Error::ArchiveUrlInvalid),
    };
    if urls.len() == 0 {
        return Err(Error::ArchiveUrlInvalid);
    }
    let first = match urls[0].as_text() {
        Some(t) => t,
        None => return Err(Error::ArchiveUrlInvalid),
    };
    match parse_url(first.as_str()) {
        Some(absolute) => Ok(absolute),
        None => match join_url(base, first.as_str()) {
            Some(joined) => Ok(joined),
            None => Err(Error::ArchiveUrlInvalid),
        },
    }
}

/// Where the default configuration of the record's chart lies once its
/// archive is unpacked into `extracted`.
pub fn default_config_path(extracted: &str, record: &Yaml) -> (r: Result<String, Error>)
    ensures
        r is Ok <==> default_config_of(extracted@, *record) is Ok,
        r matches Ok(p) ==> default_config_of(extracted@, *record) == Ok::<Seq<char>, Error>(p@),
        r matches Err(e) ==> default_config_of(extracted@, *record) == Err::<Seq<char>, Error>(e),
{
    let name = match record.text_at("name") {
        Some(n) => n,
        None => return Err(Error::IndexShapeInvalid),
    };
    let mut rel = name.clone();
    rel.append("/");
    rel.append(DEFAULT_CONFIG_FILE);
    proof {
        reveal_strlit("/");
        assert(rel@ =~= name@.push('/') + DEFAULT_CONFIG_FILE@);
    }
    Ok(join_path(extracted, rel.as_str()))
}

} // verus!

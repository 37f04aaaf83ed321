//! What the registry is asked, and what its answer says.

use crate::json::{Json, json_parse, JsonValue, parse_json};
use crate::package_name::PackageName;
use crate::workspace::{get_member, member_of};
use vstd::prelude::*;

verus! {

/// The address under which the registry describes a package.
pub open spec fn metadata_url(package: Seq<char>) -> Seq<char> {
    "https://registry.npmjs.org/"@ + package
}

/// The address under which the registry describes `package`.
pub fn registry_url(package: &PackageName) -> (r: String)
    ensures
        r@ == metadata_url(package@),
{
    let mut url = "https://registry.npmjs.org/".to_owned();
    url.append(package.as_str());
    url
}

/// The version that a description of a package tags as the latest: the
/// string under `latest` in the object under `dist-tags`.
pub open spec fn latest_of(metadata: Json) -> Option<Seq<char>> {
    match member_of(metadata, "dist-tags"@) {
        Some(tags) => match member_of(tags, "latest"@) {
            Some(Json::Text(version)) => Some(version),
            _ => None,
        },
        None => None,
    }
}

/// The version that the text of a description tags as the latest.
pub open spec fn latest_in(body: Seq<char>) -> Option<Seq<char>> {
    match json_parse(body) {
        Some(metadata) => latest_of(metadata),
        None => None,
    }
}

/// The version that a description of a package tags as the latest.
pub fn latest_version(metadata: &JsonValue) -> (r: Option<String>)
    ensures
        match r {
            Some(version) => latest_of(metadata@) == Some(version@),
            None => latest_of(metadata@) is None,
        },
{
    match get_member(metadata, "dist-tags") {
        Some(tags) => match get_member(tags, "latest") {
            Some(JsonValue::Text(version)) => Some(version.clone()),
            _ => None,
        },
        None => None,
    }
}

/// The version that the registry's answer tags as the latest. `None` where
/// the answer is no JSON or names no latest version. The answer is read by
/// `serde_json`, so a key that it holds twice counts once, with its last
/// value.
pub fn read_latest_version(body: &str) -> (r: Option<String>)
    ensures
        match r {
            Some(version) => latest_in(body@) == Some(version@),
            None => latest_in(body@) is None,
        },
{
    match parse_json(body) {
        Ok(metadata) => latest_version(&metadata),
        Err(_) => None,
    }
}

} // verus!

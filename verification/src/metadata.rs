//! The metadata of a sub-scene: a JSON object that may list, under a fixed
//! member, the auxiliary assets of the blueprint as one string.
use vstd::prelude::*;

verus! {

/// The error type of `serde_json`, carried through and never looked into.
#[verifier::external_type_specification]
#[verifier::external_body]
pub struct ExJsonError(serde_json::Error);

/// How a template can fail to meet the format.
#[derive(Clone, Copy, Debug, PartialEq, Eq, Structural)]
pub enum TemplateFormatError {
    /// The scene asset exposes no named sub-scene.
    NoNamedScene,
    /// The metadata is no JSON object, or its asset list is no string.
    MalformedMetadata,
}

/// The member of the metadata object that holds the auxiliary asset list.
pub const BLUEPRINT_ASSETS_KEY: &'static str = "BlueprintAssets";

/// A member of a JSON object as the library reads it: its name, and its value
/// where that is a string.
pub type Member = (String, Option<String>);

/// What the contracts read of a [`Member`].
pub type MemberView = (Seq<char>, Option<Seq<char>>);

pub open spec fn member_view(member: Member) -> MemberView {
    (
        member.0@,
        match member.1 {
            Some(text) => Some(text@),
            None => None,
        },
    )
}

/// The views of a sequence of members, in order.
pub open spec fn member_views(members: Seq<Member>) -> Seq<MemberView> {
    members.map_values(|m: Member| member_view(m))
}

/// No two members share a name.
pub open spec fn distinct_names(members: Seq<MemberView>) -> bool {
    forall|i: int, j: int|
        0 <= i < members.len() && 0 <= j < members.len() && i != j ==> (#[trigger] members[i]).0
            != (#[trigger] members[j]).0
}

/// What `serde_json` makes of `text` when asked for an object: nothing when
/// `text` is no JSON object, else the members of the object, each with its
/// value where that is a string.
pub uninterp spec fn json_object_members(text: Seq<char>) -> Option<Seq<MemberView>>;

/// Calls `serde_json::from_str` for a `serde_json::Map<String, Value>` and
/// hands out the members of the map. The contract claims that the outcome is a
/// function of the text, that the call fails exactly when the text has no such
/// outcome, and that no two members of a parsed object share a name.
#[verifier::external_body]
fn parse_object(text: &str) -> (parsed: Result<Vec<Member>, serde_json::Error>)
    ensures
        match parsed {
            Ok(members) => json_object_members(text@) == Some(member_views(members@))
                && distinct_names(member_views(members@)),
            Err(_) => json_object_members(text@).is_none(),
        },
{
    let object = serde_json::from_str::<serde_json::Map<String, serde_json::Value>>(text)?;
    Ok(
        object.into_iter().map(
            |(name, value)|
                (
                    name,
                    match value {
                        serde_json::Value::String(text) => Some(text),
                        _ => None,
                    },
                ),
        ).collect(),
    )
}

/// The first member of `members` with the name `key`, if there is one.
pub open spec fn member_named(members: Seq<MemberView>, key: Seq<char>) -> Option<MemberView>
    decreases members.len(),
{
    if members.len() == 0 {
        None
    } else if members.first().0 == key {
        Some(members.first())
    } else {
        member_named(members.drop_first(), key)
    }
}

/// The auxiliary asset list that an object with these members declares: none
/// when no member has the fixed name, the member's string when it is one, and
/// a format error when the member is not a string.
pub open spec fn declared_asset_list(members: Seq<MemberView>) -> Result<
    Option<Seq<char>>,
    TemplateFormatError,
> {
    match member_named(members, BLUEPRINT_ASSETS_KEY@) {
        None => Ok(None),
        Some(member) => match member.1 {
            Some(text) => Ok(Some(text)),
            None => Err(TemplateFormatError::MalformedMetadata),
        },
    }
}

/// The auxiliary asset list that the metadata `extras` declares.
pub open spec fn asset_list_of(extras: Seq<char>) -> Result<
    Option<Seq<char>>,
    TemplateFormatError,
> {
    match json_object_members(extras) {
        None => Err(TemplateFormatError::MalformedMetadata),
        Some(members) => declared_asset_list(members),
    }
}

/// `found` says the same as `wanted`, the text taken by its characters.
pub open spec fn same_asset_list(
    found: Result<Option<String>, TemplateFormatError>,
    wanted: Result<Option<Seq<char>>, TemplateFormatError>,
) -> bool {
    match found {
        Ok(Some(text)) => wanted == Ok::<Option<Seq<char>>, TemplateFormatError>(Some(text@)),
        Ok(None) => wanted == Ok::<Option<Seq<char>>, TemplateFormatError>(None),
        Err(e) => wanted == Err::<Option<Seq<char>>, TemplateFormatError>(e),
    }
}

/// Reads the auxiliary asset list out of the members of a metadata object.
pub fn asset_list_in(members: &Vec<Member>) -> (found: Result<Option<String>, TemplateFormatError>)
    ensures
        same_asset_list(found, declared_asset_list(member_views(members@))),
{
    let ghost all = member_views(members@);
    let key = BLUEPRINT_ASSETS_KEY.to_owned();
    proof {
        assert(all.skip(0) =~= all);
    }
    for i in 0..members.len()
        invariant
            all == member_views(members@),
            key@ == BLUEPRINT_ASSETS_KEY@,
            member_named(all, key@) == member_named(all.skip(i as int), key@),
    {
        proof {
            assert(all.skip(i as int).first() == member_view(members@[i as int]));
            assert(all.skip(i as int).drop_first() =~= all.skip(i + 1));
        }
        if members[i].0 == key {
            return match &members[i].1 {
                Some(text) => Ok(Some(text.clone())),
                None => Err(TemplateFormatError::MalformedMetadata),
            };
        }
    }
    Ok(None)
}

/// Reads the auxiliary asset list out of the metadata of a sub-scene.
///
/// The list is the string under [`BLUEPRINT_ASSETS_KEY`]. Metadata without
/// that member declares no auxiliary assets. Metadata that is no JSON object,
/// or whose member is not a string, is a format error.
pub fn blueprint_assets_text(extras: &str) -> (found: Result<Option<String>, TemplateFormatError>)
    ensures
        same_asset_list(found, asset_list_of(extras@)),
{
    match parse_object(extras) {
        Ok(members) => asset_list_in(&members),
        Err(_) => Err(TemplateFormatError::MalformedMetadata),
    }
}

/// What the metadata of a sub-scene gives: the auxiliary asset list, and what
/// is wrong with the metadata where the list could not be read.
#[derive(Debug)]
pub struct MetadataReading {
    pub asset_list: Option<String>,
    pub diagnostic: Option<TemplateFormatError>,
}

/// `reading` is what `wanted` comes to when malformed metadata is not fatal:
/// the list where there is one, else no list, with the error as a diagnostic.
pub open spec fn lenient(
    reading: MetadataReading,
    wanted: Result<Option<Seq<char>>, TemplateFormatError>,
) -> bool {
    match wanted {
        Ok(Some(text)) => reading.diagnostic.is_none() && reading.asset_list.is_some()
            && reading.asset_list.unwrap()@ == text,
        Ok(None) => reading.diagnostic.is_none() && reading.asset_list.is_none(),
        Err(e) => reading.diagnostic == Some(e) && reading.asset_list.is_none(),
    }
}

/// Reads the metadata of a sub-scene without giving up on the instance: a
/// sub-scene without metadata, or with metadata that is malformed, declares
/// no auxiliary assets, and the latter is reported.
pub fn read_metadata(extras: Option<&str>) -> (reading: MetadataReading)
    ensures
        match extras {
            Some(text) => lenient(reading, asset_list_of(text@)),
            None => reading.asset_list.is_none() && reading.diagnostic.is_none(),
        },
{
    match extras {
        Some(text) => match blueprint_assets_text(text) {
            Ok(asset_list) => MetadataReading { asset_list, diagnostic: None },
            Err(e) => MetadataReading { asset_list: None, diagnostic: Some(e) },
        },
        None => MetadataReading { asset_list: None, diagnostic: None },
    }
}

} // verus!

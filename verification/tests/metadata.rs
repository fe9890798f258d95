use blueprints::metadata::{
    asset_list_in, blueprint_assets_text, read_metadata, TemplateFormatError,
    BLUEPRINT_ASSETS_KEY,
};

#[test]
fn the_key_of_the_asset_list() {
    assert_eq!(BLUEPRINT_ASSETS_KEY, "BlueprintAssets");
}

#[test]
fn metadata_with_an_asset_list() {
    let extras = r#"{"BlueprintAssets": "(assets: [(name: \"tex\", path: \"tex.png\")])", "other": 3}"#;
    assert_eq!(
        blueprint_assets_text(extras),
        Ok(Some("(assets: [(name: \"tex\", path: \"tex.png\")])".to_string()))
    );
}

#[test]
fn the_text_is_the_parsed_string_not_the_input() {
    let extras = r#"{"BlueprintAssets": "a\nb"}"#;
    assert_eq!(blueprint_assets_text(extras), Ok(Some("a\nb".to_string())));
}

#[test]
fn metadata_without_an_asset_list() {
    assert_eq!(blueprint_assets_text(r#"{"other": "x"}"#), Ok(None));
    assert_eq!(blueprint_assets_text("{}"), Ok(None));
}

#[test]
fn the_key_is_matched_exactly() {
    assert_eq!(blueprint_assets_text(r#"{"blueprintassets": "x"}"#), Ok(None));
    assert_eq!(blueprint_assets_text(r#"{"BlueprintAssets ": "x"}"#), Ok(None));
}

#[test]
fn metadata_that_is_no_json() {
    assert_eq!(blueprint_assets_text("not json"), Err(TemplateFormatError::MalformedMetadata));
    assert_eq!(blueprint_assets_text(""), Err(TemplateFormatError::MalformedMetadata));
    assert_eq!(
        blueprint_assets_text(r#"{"BlueprintAssets": "x""#),
        Err(TemplateFormatError::MalformedMetadata)
    );
}

#[test]
fn metadata_that_is_no_object() {
    assert_eq!(blueprint_assets_text("[1, 2]"), Err(TemplateFormatError::MalformedMetadata));
    assert_eq!(blueprint_assets_text("\"text\""), Err(TemplateFormatError::MalformedMetadata));
    assert_eq!(blueprint_assets_text("null"), Err(TemplateFormatError::MalformedMetadata));
}

#[test]
fn an_asset_list_that_is_no_string() {
    assert_eq!(
        blueprint_assets_text(r#"{"BlueprintAssets": 3}"#),
        Err(TemplateFormatError::MalformedMetadata)
    );
    assert_eq!(
        blueprint_assets_text(r#"{"BlueprintAssets": ["a"]}"#),
        Err(TemplateFormatError::MalformedMetadata)
    );
    assert_eq!(
        blueprint_assets_text(r#"{"BlueprintAssets": null}"#),
        Err(TemplateFormatError::MalformedMetadata)
    );
}

#[test]
fn asset_list_in_takes_the_named_member() {
    let members = vec![
        ("Alpha".to_string(), Some("a".to_string())),
        ("BlueprintAssets".to_string(), Some("list".to_string())),
        ("Zeta".to_string(), None),
    ];
    assert_eq!(asset_list_in(&members), Ok(Some("list".to_string())));
}

#[test]
fn asset_list_in_without_the_member() {
    let members = vec![("Alpha".to_string(), Some("a".to_string())), ("Zeta".to_string(), None)];
    assert_eq!(asset_list_in(&members), Ok(None));
    assert_eq!(asset_list_in(&Vec::new()), Ok(None));
}

#[test]
fn asset_list_in_with_a_member_that_is_no_string() {
    let members = vec![("BlueprintAssets".to_string(), None)];
    assert_eq!(asset_list_in(&members), Err(TemplateFormatError::MalformedMetadata));
}

#[test]
fn reading_metadata_with_an_asset_list() {
    let reading = read_metadata(Some(r#"{"BlueprintAssets": "(assets: [])"}"#));
    assert_eq!(reading.asset_list, Some("(assets: [])".to_string()));
    assert_eq!(reading.diagnostic, None);
}

#[test]
fn reading_metadata_without_an_asset_list() {
    let reading = read_metadata(Some(r#"{"other": 1}"#));
    assert_eq!(reading.asset_list, None);
    assert_eq!(reading.diagnostic, None);
}

#[test]
fn a_scene_without_metadata_declares_nothing() {
    let reading = read_metadata(None);
    assert_eq!(reading.asset_list, None);
    assert_eq!(reading.diagnostic, None);
}

#[test]
fn malformed_metadata_is_reported_and_declares_nothing() {
    let reading = read_metadata(Some("{"));
    assert_eq!(reading.asset_list, None);
    assert_eq!(reading.diagnostic, Some(TemplateFormatError::MalformedMetadata));
    let reading = read_metadata(Some(r#"{"BlueprintAssets": 1}"#));
    assert_eq!(reading.asset_list, None);
    assert_eq!(reading.diagnostic, Some(TemplateFormatError::MalformedMetadata));
}

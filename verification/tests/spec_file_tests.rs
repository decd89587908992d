//! Tests of spec-file parsing and of the merging of a parsed spec with
//! command-line overrides.

use rjrssync::behaviour::AllDestructiveBehaviour;
use rjrssync::behaviour::DeployBehaviour;
use rjrssync::behaviour::DestEntryNeedsDeletingBehaviour;
use rjrssync::behaviour::DestFileUpdateBehaviour;
use rjrssync::behaviour::DestRootNeedsDeletingBehaviour;
use rjrssync::config::CliOptions;
use rjrssync::config::Spec;
use rjrssync::config::SyncSpec;
use rjrssync::config::resolve_spec;
use rjrssync::prompt::TestPromptResponses;
use rjrssync::prompt::build_prompt_items;
use rjrssync::spec_file::parse_spec_text;

#[test]
fn test_parse_spec_file_empty() {
    assert!(parse_spec_text("")
        .unwrap_err()
        .contains("Expected at least one YAML document"));
}

#[test]
fn test_parse_spec_file_invalid_syntax() {
    assert!(parse_spec_text("!!\n")
        .unwrap_err()
        .contains("did not find expected tag"));
}

#[test]
fn test_parse_spec_file_all_fields() {
    let text = r#"
            src_hostname: "computer1"
            src_username: "user1"
            dest_hostname: "computer2"
            dest_username: "user2"
            deploy_behaviour: ok
            syncs:
            - src: T:\Source1
              dest: T:\Dest1
              filters: [ "-exclude1", "-exclude2" ]
              dest_file_newer_behaviour: error
              dest_file_older_behaviour: skip
              files_same_time_behaviour: overwrite
              dest_entry_needs_deleting_behaviour: prompt
              dest_root_needs_deleting_behaviour: delete
            - src: T:\Source2
              dest: T:\Dest2
              filters: [ "-exclude3", "-exclude4" ]
              dest_file_newer_behaviour: prompt
              dest_file_older_behaviour: overwrite
              files_same_time_behaviour: error
              dest_entry_needs_deleting_behaviour: error
              dest_root_needs_deleting_behaviour: skip
        "#;

    let expected_result = Spec {
        src_hostname: "computer1".to_string(),
        src_username: "user1".to_string(),
        dest_hostname: "computer2".to_string(),
        dest_username: "user2".to_string(),
        deploy_behaviour: DeployBehaviour::Okay,
        syncs: vec![
            SyncSpec {
                src: "T:\\Source1".to_string(),
                dest: "T:\\Dest1".to_string(),
                filters: vec!["-exclude1".to_string(), "-exclude2".to_string()],
                dest_file_newer_behaviour: DestFileUpdateBehaviour::Error,
                dest_file_older_behaviour: DestFileUpdateBehaviour::Skip,
                files_same_time_behaviour: DestFileUpdateBehaviour::Overwrite,
                dest_entry_needs_deleting_behaviour: DestEntryNeedsDeletingBehaviour::Prompt,
                dest_root_needs_deleting_behaviour: DestRootNeedsDeletingBehaviour::Delete,
            },
            SyncSpec {
                src: "T:\\Source2".to_string(),
                dest: "T:\\Dest2".to_string(),
                filters: vec!["-exclude3".to_string(), "-exclude4".to_string()],
                dest_file_newer_behaviour: DestFileUpdateBehaviour::Prompt,
                dest_file_older_behaviour: DestFileUpdateBehaviour::Overwrite,
                files_same_time_behaviour: DestFileUpdateBehaviour::Error,
                dest_entry_needs_deleting_behaviour: DestEntryNeedsDeletingBehaviour::Error,
                dest_root_needs_deleting_behaviour: DestRootNeedsDeletingBehaviour::Skip,
            },
        ],
    };

    assert_eq!(parse_spec_text(text), Ok(expected_result));
}

/// Checks that parsing allows some fields to be omitted, with sensible defaults.
#[test]
fn test_parse_spec_file_default_fields() {
    let text = r#"
            syncs:
            - src: T:\Source1
              dest: T:\Dest1
        "#;

    let expected_result = Spec {
        src_hostname: "".to_string(), // Default - not specified in the YAML
        src_username: "".to_string(), // Default - not specified in the YAML
        dest_hostname: "".to_string(), // Default - not specified in the YAML
        dest_username: "".to_string(), // Default - not specified in the YAML
        deploy_behaviour: DeployBehaviour::Prompt, // Default - not specified in the YAML
        syncs: vec![SyncSpec {
            src: "T:\\Source1".to_string(),
            dest: "T:\\Dest1".to_string(),
            filters: vec![], // Default - not specified in the YAML
            ..Default::default()
        }],
    };

    assert_eq!(parse_spec_text(text), Ok(expected_result));
}

/// Checks that parsing errors if required fields are omitted.
#[test]
fn test_parse_spec_file_missing_required_src() {
    let text = r#"
            syncs:
            - src: T:\Source1
        "#;
    assert!(parse_spec_text(text)
        .unwrap_err()
        .contains("dest must be provided and non-empty"));
}

/// Checks that parsing errors if required fields are omitted.
#[test]
fn test_parse_spec_file_missing_required_dest() {
    let text = r#"
            syncs:
            - dest: T:\Dest1
        "#;
    assert!(parse_spec_text(text)
        .unwrap_err()
        .contains("src must be provided and non-empty"));
}

#[test]
fn test_parse_spec_file_invalid_root() {
    assert!(parse_spec_text("123")
        .unwrap_err()
        .contains("Document root must be a dictionary"));
}

#[test]
fn test_parse_spec_file_invalid_string_field() {
    assert!(parse_spec_text("dest_hostname: [ 341 ]")
        .unwrap_err()
        .contains("Unexpected value for 'dest_hostname'"));
}

#[test]
fn test_parse_spec_file_invalid_field_name() {
    assert!(parse_spec_text("this-isnt-valid: 0")
        .unwrap_err()
        .contains("Unexpected key in root dictionary"));
}

#[test]
fn test_parse_spec_file_invalid_syncs_field() {
    assert!(parse_spec_text("syncs: 0")
        .unwrap_err()
        .contains("Unexpected value for 'syncs'"));
}

#[test]
fn test_parse_spec_file_invalid_sync_spec_type() {
    let text = r#"
            syncs:
            - not-a-dict
        "#;
    assert!(parse_spec_text(text)
        .unwrap_err()
        .contains("Sync value must be a dictionary"));
}

#[test]
fn test_parse_spec_file_invalid_sync_spec_field() {
    let text = r#"
            syncs:
            - unexpected-field: 0
        "#;
    assert!(parse_spec_text(text)
        .unwrap_err()
        .contains("Unexpected key in 'syncs' entry"));
}

#[test]
fn test_parse_spec_file_invalid_filters_type() {
    let text = r#"
            syncs:
            - filters: 0
        "#;
    assert!(parse_spec_text(text)
        .unwrap_err()
        .contains("Unexpected value for 'filters'"));
}

#[test]
fn test_parse_spec_file_invalid_filters_element() {
    let text = r#"
            syncs:
            - filters: [ 9 ]
        "#;
    assert!(parse_spec_text(text)
        .unwrap_err()
        .contains("Unexpected value in 'filters' array"));
}

/// Checks that an invalid enum value for dest_file_newer_behaviour is rejected.
/// We don't bother to test all the different behaviours in the same way, just this one.
#[test]
fn test_parse_spec_file_invalid_behaviour_value() {
    let text = r#"
            syncs:
            - dest_file_newer_behaviour: notallowed
        "#;
    assert!(parse_spec_text(text)
        .unwrap_err()
        .contains("invalid variant: notallowed"));
}

/// Tests that command-line args can be used to override things set in the spec file.
#[test]
fn resolve_spec_overrides() {
    let text = r#"
            deploy_behaviour: error
            syncs:
            - src: a
              dest: b
              filters: [ +hello ]
              dest_file_newer_behaviour: skip
              dest_root_needs_deleting_behaviour: error
            - src: c
              dest: d

        "#;
    let from_file = parse_spec_text(text).unwrap();

    let args = CliOptions {
        filter: vec!["-meow".to_string()],
        dest_file_newer: Some(DestFileUpdateBehaviour::Error),
        deploy: Some(DeployBehaviour::Okay),
        ..Default::default()
    };
    let spec = resolve_spec(&args, Some(from_file));
    assert_eq!(
        spec,
        Spec {
            deploy_behaviour: DeployBehaviour::Okay, // Overriden by command-line args
            syncs: vec![
                SyncSpec {
                    src: "a".to_string(),
                    dest: "b".to_string(),
                    filters: vec!["-meow".into()], // Overriden by command-line args
                    dest_file_newer_behaviour: DestFileUpdateBehaviour::Error, // Overriden by command-line args
                    dest_root_needs_deleting_behaviour: DestRootNeedsDeletingBehaviour::Error, // From the spec file, not overriden by command-line args
                    ..Default::default()
                },
                SyncSpec {
                    src: "c".to_string(),
                    dest: "d".to_string(),
                    filters: vec!["-meow".into()], // Set by command-line args
                    dest_file_newer_behaviour: DestFileUpdateBehaviour::Error, // Set by command-line args
                    ..Default::default()
                }
            ],
            ..Default::default()
        }
    );
}

/// Tests that the blanket destructive behaviour overrides things set in the
/// spec file, but can itself be overridden by individual behaviours set on
/// the command-line.
#[test]
fn all_destructive_behaviour_override() {
    let text = r#"
            syncs:
            - src: a
              dest: b
              dest_file_newer_behaviour: skip
              dest_root_needs_deleting_behaviour: prompt
              files_same_time_behaviour: overwrite
            - src: c
              dest: d
        "#;
    let from_file = parse_spec_text(text).unwrap();

    let args = CliOptions {
        all_destructive_behaviour: Some(AllDestructiveBehaviour::Error),
        dest_file_older: Some(DestFileUpdateBehaviour::Overwrite),
        ..Default::default()
    };
    let spec = resolve_spec(&args, Some(from_file));
    assert_eq!(
        spec,
        Spec {
            syncs: vec![
                SyncSpec {
                    src: "a".to_string(),
                    dest: "b".to_string(),
                    // Specified as skip in the spec file, so the blanket override does not change it as it's not overwriting
                    dest_file_newer_behaviour: DestFileUpdateBehaviour::Skip,
                    // Specified on the command-line, which always takes priority
                    dest_file_older_behaviour: DestFileUpdateBehaviour::Overwrite,
                    // Specified as overwrite in the spec file, but the blanket override overrides this to Error
                    files_same_time_behaviour: DestFileUpdateBehaviour::Error,
                    // Not specified anywhere, and the default behaviour is to delete, so the blanket override overrides this to Error
                    dest_entry_needs_deleting_behaviour: DestEntryNeedsDeletingBehaviour::Error,
                    // Specified as prompt in the spec file, so the blanket override overrides this to Error
                    dest_root_needs_deleting_behaviour: DestRootNeedsDeletingBehaviour::Error,
                    ..Default::default()
                },
                SyncSpec {
                    src: "c".to_string(),
                    dest: "d".to_string(),
                    // Default is prompt, so the blanket override overrides this to Error
                    dest_file_newer_behaviour: DestFileUpdateBehaviour::Error,
                    // Specified on the command-line, which always takes priority
                    dest_file_older_behaviour: DestFileUpdateBehaviour::Overwrite,
                    // Default is skip, so the blanket override doesn't affect this
                    files_same_time_behaviour: DestFileUpdateBehaviour::Skip,
                    // Not specified anywhere, and the default behaviour is to delete, so the blanket override overrides this to Error
                    dest_entry_needs_deleting_behaviour: DestEntryNeedsDeletingBehaviour::Error,
                    // Default is to prompt, so the blanket override overrides this to Error
                    dest_root_needs_deleting_behaviour: DestRootNeedsDeletingBehaviour::Error,
                    ..Default::default()
                }
            ],
            ..Default::default()
        }
    );
}

/// The prompt item list offers each option in both one-shot and remembered
/// forms, with a final cancel item.
#[test]
fn prompt_items_offer_once_and_always() {
    let options = vec![("Overwrite".to_string(), 1u32), ("Skip".to_string(), 2u32)];
    let items = build_prompt_items(&options, true, 0u32);
    assert_eq!(items.len(), 5);
    assert_eq!(items[0].0, "Overwrite (just this occurence)");
    assert_eq!(items[0].1.immediate_behaviour, 1);
    assert_eq!(items[0].1.remembered_behaviour, None);
    assert_eq!(items[1].0, "Overwrite (all occurences)");
    assert_eq!(items[1].1.remembered_behaviour, Some(1));
    assert_eq!(items[4].0, "Cancel sync");
    assert_eq!(items[4].1.immediate_behaviour, 0);
}

/// Scripted prompt responses answer matching prompts until their budget
/// runs out.
#[test]
fn scripted_prompt_responses_respect_budget() {
    let mut responses = TestPromptResponses::none();
    responses
        .add(2, "delete .*".to_string(), "Skip".to_string())
        .unwrap();
    assert_eq!(responses.get_response("delete foo?"), Some("Skip".to_string()));
    assert_eq!(responses.get_response("delete bar?"), Some("Skip".to_string()));
    assert_eq!(responses.get_response("delete baz?"), None);
    assert_eq!(responses.get_response("overwrite foo?"), None);
}

use codex_core::ai::AiError;
use codex_core::ai::GeminiCandidate;
use codex_core::ai::GeminiContentResponse;
use codex_core::ai::GeminiError;
use codex_core::ai::GeminiPartResponse;
use codex_core::ai::GeminiResponse;
use codex_core::ai::build_prompt;
use codex_core::ai::extract_response_text;
use codex_core::common::error_response;
use codex_core::common::ok_response;
use codex_core::config::AppConfig;
use codex_core::config::AppConfigSaveDto;
use codex_core::config::GeminiModel;
use codex_core::config::VectorSettings;
use codex_core::document::SearchResult;
use codex_core::document::ensure_storage;
use codex_core::document::merge_search_results;
use codex_core::health::assemble_health;
use codex_core::note;
use codex_core::paths::SaveMode;
use codex_core::paths::create_codex_directory;
use codex_core::paths::get_directory_path;
use codex_core::paths::should_write;
use codex_core::paths::validate_path;
use codex_core::shortcuts::AppShortcuts;

fn result(id: &str, match_type: &str) -> SearchResult {
    SearchResult {
        id: id.to_string(),
        title: None,
        tags: None,
        status: 0,
        match_type: match_type.to_string(),
        match_snippet: None,
        similarity_score_milli: None,
    }
}

#[test]
fn merged_search_keeps_text_rows_and_appends_new_vector_rows() {
    let sql = vec![result("d1", "title"), result("d2", "content")];
    let vector = vec![result("d2", "similar"), result("d3", "similar"), result("d3", "similar")];
    let merged = merge_search_results(sql, vector);
    let ids: Vec<&str> = merged.iter().map(|r| r.id.as_str()).collect();
    assert_eq!(ids, vec!["d1", "d2", "d3"]);
    assert_eq!(merged[1].match_type.as_str(), "content");
    assert_eq!(merged[2].match_type.as_str(), "similar");
}

#[test]
fn prompt_embeds_title_and_content() {
    let p = build_prompt("My Title", "Body text");
    let expected = format!(
        "Generate 3-5 relevant tags for the following document.\n\
         Return ONLY the tags as a comma-separated list, nothing else.\n\
         Tags should be lowercase, single words or short phrases (2-3 words max).\n\
         Do not include hashtags or any other formatting.\n\n\
         Title: {}\n\nContent:\n{}\n\nTags:",
        "My Title", "Body text"
    );
    assert_eq!(p, expected);
}

#[test]
fn response_extraction_prefers_the_service_error() {
    let resp = GeminiResponse {
        candidates: Some(vec![GeminiCandidate {
            content: GeminiContentResponse {
                parts: vec![GeminiPartResponse { text: "tags".to_string() }],
            },
        }]),
        error: Some(GeminiError { message: "quota exhausted".to_string() }),
    };
    match extract_response_text(resp) {
        Err(AiError::ApiError(m)) => assert_eq!(m, "quota exhausted"),
        _ => panic!("the in-band error must win"),
    }
}

#[test]
fn response_extraction_takes_the_first_part_of_the_first_candidate() {
    let resp = GeminiResponse {
        candidates: Some(vec![GeminiCandidate {
            content: GeminiContentResponse {
                parts: vec![
                    GeminiPartResponse { text: "alpha, beta".to_string() },
                    GeminiPartResponse { text: "ignored".to_string() },
                ],
            },
        }]),
        error: None,
    };
    assert_eq!(extract_response_text(resp).unwrap(), "alpha, beta");
}

#[test]
fn response_extraction_rejects_empty_answers() {
    let resp = GeminiResponse { candidates: None, error: None };
    match extract_response_text(resp) {
        Err(AiError::ResponseParseFailed(m)) => assert_eq!(m, "No response text found"),
        _ => panic!("an empty answer cannot be parsed"),
    }
    let resp = GeminiResponse { candidates: Some(Vec::new()), error: None };
    assert!(matches!(extract_response_text(resp), Err(AiError::ResponseParseFailed(_))));
}

#[test]
fn config_merge_applies_the_three_layer_rule() {
    let base = AppConfig::default();
    let dto = AppConfigSaveDto {
        storage_path: Some(Some("/tmp/codex".to_string())),
        is_database_initialized: Some(Some(true)),
        tabs: None,
        vector_settings: Some(Some(VectorSettings { similarity_threshold_milli: 700 })),
        graph_settings: Some(None),
        gemini_api_key: None,
        gemini_model: Some(Some(GeminiModel::Gemini15Pro)),
    };
    let merged = base.merge(&dto);
    assert_eq!(merged.storage_path.as_deref(), Some("/tmp/codex"));
    assert!(merged.is_database_initialized);
    assert!(merged.tabs.is_empty());
    assert_eq!(merged.vector_settings.similarity_threshold_milli, 700);
    assert_eq!(merged.graph_settings.multi_hop_level, 1);
    assert_eq!(merged.gemini_model, GeminiModel::Gemini15Pro);

    // An inner absence resets to the default; an outer absence keeps.
    let reset = AppConfigSaveDto {
        storage_path: Some(None),
        is_database_initialized: None,
        tabs: None,
        vector_settings: Some(None),
        graph_settings: None,
        gemini_api_key: None,
        gemini_model: None,
    };
    let back = merged.merge(&reset);
    assert!(back.storage_path.is_none());
    assert!(back.is_database_initialized);
    assert_eq!(back.vector_settings.similarity_threshold_milli, 500);
    assert_eq!(back.gemini_model, GeminiModel::Gemini15Pro);
}

#[test]
fn model_names_match_the_wire_protocol() {
    assert_eq!(GeminiModel::Gemini25Flash.as_str(), "gemini-2.5-flash");
    assert_eq!(GeminiModel::Gemini20Flash.as_str(), "gemini-2.0-flash");
    assert_eq!(GeminiModel::Gemini20FlashLite.as_str(), "gemini-2.0-flash-lite");
    assert_eq!(GeminiModel::Gemini15Flash.as_str(), "gemini-1.5-flash");
    assert_eq!(GeminiModel::Gemini15Pro.as_str(), "gemini-1.5-pro");
    assert_eq!(AppConfig::default().gemini_model, GeminiModel::Gemini20Flash);
}

#[test]
fn health_interpretation_is_exact() {
    let h = assemble_health(true, Some("wal".to_string()), Some(1), Some(true));
    assert!(h.connected && h.wal_mode && h.foreign_keys_enabled && h.sqlite_vec_loaded);
    let h = assemble_health(true, Some("delete".to_string()), Some(0), None);
    assert!(h.connected && !h.wal_mode && !h.foreign_keys_enabled && !h.sqlite_vec_loaded);
    let h = assemble_health(false, None, None, Some(false));
    assert!(!h.connected && !h.wal_mode && !h.foreign_keys_enabled && !h.sqlite_vec_loaded);
}

#[test]
fn path_checks_report_the_failing_condition() {
    assert!(validate_path("/srv/data", true, true).is_ok());
    assert_eq!(
        validate_path("/srv/data", false, false).unwrap_err(),
        "Path does not exist: /srv/data"
    );
    assert_eq!(
        validate_path("/srv/data", true, false).unwrap_err(),
        "Path is not a directory: /srv/data"
    );
    assert_eq!(create_codex_directory("/srv/data", true, true).unwrap(), "/srv/data/codex");
    assert!(create_codex_directory("/srv/data", false, true).is_err());
    assert_eq!(get_directory_path("/srv/data", true).unwrap(), "/srv/data");
    assert!(get_directory_path("/srv/data", false).is_err());
}

#[test]
fn storage_preparation_composes_the_directory() {
    assert_eq!(ensure_storage("/base", "codex", true, true).unwrap(), "/base/codex");
    assert!(ensure_storage("/base", "codex", false, true).is_err());
    assert!(ensure_storage("/base", "codex", true, false).is_err());
    assert!(note::ensure_storage("/base", true, true).is_ok());
    assert!(note::ensure_storage("/base", false, true).is_err());
}

#[test]
fn save_mode_controls_overwrites() {
    assert!(should_write(&SaveMode::Overwrite, true));
    assert!(should_write(&SaveMode::Overwrite, false));
    assert!(!should_write(&SaveMode::NoOverwrite, true));
    assert!(should_write(&SaveMode::NoOverwrite, false));
}

#[test]
fn command_envelopes_carry_the_outcome() {
    let ok: codex_core::common::CommandResponse<u32> =
        ok_response("done".to_string(), Some(7));
    assert!(ok.success);
    assert_eq!(ok.code, 200);
    assert_eq!(ok.data, Some(7));
    let err: codex_core::common::CommandResponse<u32> = error_response("broken".to_string());
    assert!(!err.success);
    assert_eq!(err.code, 500);
    assert!(err.data.is_none());
}

#[test]
fn menu_layout_matches_the_shortcut_table() {
    let fixed = AppShortcuts::fixed_menu_entries();
    assert_eq!(fixed.len(), 6);
    assert_eq!(fixed[0].id.as_str(), "new-note");
    assert_eq!(fixed[0].accelerator.as_str(), "CmdOrCtrl+T");
    assert_eq!(fixed[2].menu.as_str(), "file");
    assert_eq!(fixed[5].id.as_str(), "toggle-graph");
    let tab3 = AppShortcuts::tab_menu_entry(3);
    assert_eq!(tab3.id.as_str(), "goto-tab-3");
    assert_eq!(tab3.label.as_str(), "Go to Tab 3");
    assert_eq!(tab3.accelerator.as_str(), "CmdOrCtrl+3");
    assert_eq!(tab3.menu.as_str(), "view");
}

use std::path::PathBuf;

use video2document::cli::CliArgs;
use video2document::config::{
    load_settings_from_paths, ConfigPatch, ConfigSource, KimiSettingsPatch, PathSettingsPatch,
    RuntimeSettingsPatch, VideoSettingsPatch,
};
use video2document::indexer::build_indexes;
use video2document::models::{ConceptItem, CourseDocument, SourceVideo, TaskState, Timestamp, UploadMode};
use video2document::scanner::{plan_videos, ScannedFile};
use video2document::config::PathSettings;
use video2document::state_store::StateStore;
use video2document::writer::{render_course_document, validate_section_order};

fn document(relative: &str, path: &str, title: &str, summary: &str, keywords: Vec<String>, now: Timestamp) -> CourseDocument {
    CourseDocument {
        relative_path: relative.to_string(),
        document_path: path.to_string(),
        title: title.to_string(),
        document_markdown: String::new(),
        directory_summary: summary.to_string(),
        keywords,
        review_flags: Vec::new(),
        generated_at: now,
        objectives: Vec::new(),
        knowledge_mainline: Vec::new(),
        core_concepts: Vec::new(),
        formulas: Vec::new(),
        examples: Vec::new(),
        teacher_emphasis: Vec::new(),
        glossary: Vec::new(),
        questions_and_quiz: Vec::new(),
    }
}

fn epoch() -> Timestamp {
    Timestamp::from_parts(0, 0).expect("the epoch is a valid date-time")
}

fn empty_patch() -> ConfigPatch {
    ConfigPatch {
        paths: PathSettingsPatch { input_dir: None, output_dir: None, working_dir: None },
        video: VideoSettingsPatch {
            segment_seconds: None,
            max_resolution_width: None,
            max_resolution_height: None,
            preferred_upload_mode: None,
        },
        kimi: KimiSettingsPatch { model: None, base_url: None, max_retries: None, retry_backoff_seconds: None },
        runtime: RuntimeSettingsPatch { preprocess_concurrency: None, request_concurrency: None, log_filter: None },
    }
}

#[test]
fn cli_overrides_local_and_base_config() {
    let mut base = empty_patch();
    base.paths.input_dir = Some("./base-video".to_string());
    base.paths.output_dir = Some("./base-output".to_string());
    base.paths.working_dir = Some("./base-working".to_string());
    base.video.segment_seconds = Some(600);
    base.video.preferred_upload_mode = Some(UploadMode::File);
    let mut local = empty_patch();
    local.paths.output_dir = Some("./local-output".to_string());
    local.video.segment_seconds = Some(120);

    let args = CliArgs {
        config: Some("config.toml".to_string()),
        input_dir: Some("./cli-video".to_string()),
        output_dir: None,
        working_dir: Some("./cli-working".to_string()),
        segment_seconds: Some(30),
        retry_count: Some(5),
        upload_mode: Some(UploadMode::Base64),
        only_index: true,
        force: true,
    };

    let resolved = match load_settings_from_paths(
        Some(ConfigSource::Loaded(base)),
        Some(ConfigSource::Loaded(local)),
        &args,
        true,
    ) {
        Ok(r) => r,
        Err(e) => panic!("failed to resolve config: {}", e.message()),
    };

    assert_eq!(resolved.settings.paths.input_dir, "./cli-video");
    assert_eq!(resolved.settings.paths.output_dir, "./local-output");
    assert_eq!(resolved.settings.paths.working_dir, "./cli-working");
    assert_eq!(resolved.settings.video.segment_seconds, 30);
    assert_eq!(resolved.settings.kimi.max_retries, 5);
    assert_eq!(resolved.settings.video.preferred_upload_mode, UploadMode::Base64);
    assert!(resolved.only_index);
    assert!(resolved.force);
}

#[test]
fn explicit_missing_config_returns_error() {
    let args = CliArgs {
        config: Some("missing.toml".to_string()),
        input_dir: None,
        output_dir: None,
        working_dir: None,
        segment_seconds: None,
        retry_count: None,
        upload_mode: None,
        only_index: false,
        force: false,
    };

    let error = match load_settings_from_paths(
        Some(ConfigSource::Missing { path: "missing.toml".to_string() }),
        None,
        &args,
        true,
    ) {
        Ok(_) => panic!("expected explicit missing config to fail"),
        Err(e) => e,
    };
    assert!(error.message().contains("config file not found"));
}

#[test]
fn index_lists_only_direct_children_and_metadata() {
    let now = Timestamp::from_parts(1_700_000_000, 0).expect("valid");
    let documents = vec![
        document("CourseA/01_绪论.md", "Document/CourseA/01_绪论.md", "01_绪论", "课程A摘要", vec!["A".to_string()], now),
        document("CourseA/Sub/02_进阶.md", "Document/CourseA/Sub/02_进阶.md", "02_进阶", "课程A子目录摘要", vec!["Sub".to_string()], now),
    ];

    let indexes = build_indexes("Document", &documents);
    let root = indexes
        .iter()
        .find(|index| index.directory_path.is_empty())
        .expect("missing root index");
    let course_a = indexes
        .iter()
        .find(|index| index.directory_path == "CourseA")
        .expect("missing CourseA index");

    assert_eq!(root.child_directories.len(), 1);
    assert_eq!(root.child_documents.len(), 0);
    assert_eq!(root.document_count, 2);
    assert_eq!(course_a.child_documents.len(), 1);
    assert_eq!(course_a.child_directories.len(), 1);
    assert_eq!(course_a.child_documents[0].link, "01_绪论.md");
}

#[test]
fn rendered_markdown_preserves_required_section_order() {
    let mut document = document(
        "CourseA/01_绪论.md",
        "Document/CourseA/01_绪论.md",
        "01_绪论",
        "摘要",
        vec!["语法".to_string()],
        Timestamp::from_parts(1_700_000_000, 0).expect("valid"),
    );
    document.objectives = vec!["理解课程目标".to_string()];
    document.knowledge_mainline = vec!["框架 -> 细节".to_string()];
    document.core_concepts = vec![ConceptItem {
        term: "句子成分".to_string(),
        note: "句子的基础结构".to_string(),
    }];
    document.teacher_emphasis = vec!["先学框架".to_string()];
    document.glossary = vec![ConceptItem {
        term: "时态".to_string(),
        note: "表示时间关系".to_string(),
    }];
    document.questions_and_quiz = vec!["什么是句子成分？".to_string()];

    document.document_markdown = render_course_document(&document);
    assert!(validate_section_order(&document.document_markdown));
    assert!(document.document_markdown.contains("## 问答与自测"));
    assert!(document.document_markdown.ends_with("1. 什么是句子成分？\n\n"));
}

#[test]
fn output_mapping_replaces_video_extension_only() {
    let input = PathBuf::from("Video/CourseA/01_绪论.mp4");
    let output = PathBuf::from("Document")
        .join(input.strip_prefix("Video").expect("missing prefix"))
        .with_extension("md");
    assert_eq!(output, PathBuf::from("Document/CourseA/01_绪论.md"));
}

#[test]
fn index_generation_scales_linearly_for_fixture_sized_inputs() {
    let mut documents = Vec::new();
    for course in 0..10 {
        for lecture in 0..30 {
            documents.push(document(
                &format!("Course{course}/Lesson{lecture}.md"),
                &format!("Document/Course{course}/Lesson{lecture}.md"),
                &format!("Lesson{lecture}"),
                &format!("summary {course}-{lecture}"),
                Vec::new(),
                Timestamp::from_parts(1_700_000_000, 0).expect("valid"),
            ));
        }
    }

    let start = std::time::Instant::now();
    let indexes = build_indexes("Document", &documents);
    assert!(start.elapsed() < std::time::Duration::from_secs(1));

    let root = indexes
        .iter()
        .find(|index| index.directory_path.is_empty())
        .expect("missing root index");
    assert_eq!(root.child_directories.len(), 10);
    assert_eq!(root.document_count, 300);
}

fn paths() -> PathSettings {
    PathSettings {
        input_dir: "/tmp/t/Video".to_string(),
        output_dir: "/tmp/t/Document".to_string(),
        working_dir: "/tmp/t/Working".to_string(),
    }
}

fn scanned(path: &str) -> ScannedFile {
    ScannedFile { path: path.to_string(), size_bytes: 5, source_mtime_ms: 1 }
}

#[test]
fn scanner_filters_hidden_temp_and_non_video_files() {
    let files = vec![
        scanned("/tmp/t/Video/CourseA/01_绪论.mp4"),
        scanned("/tmp/t/Video/CourseA/readme.txt"),
        scanned("/tmp/t/Video/CourseA/~$temp.mp4"),
    ];
    let videos = match plan_videos(&files, "/tmp/t/Video", &paths()) {
        Ok(v) => v,
        Err(e) => panic!("failed to scan videos: {}", e.message()),
    };
    assert_eq!(videos.len(), 1);
    assert_eq!(videos[0].relative_path, "CourseA/01_绪论.mp4");
}

#[test]
fn scanner_detects_output_collisions() {
    let files = vec![
        scanned("/tmp/t/Video/CourseA/01_绪论.mp4"),
        scanned("/tmp/t/Video/CourseA/01_绪论.mov"),
    ];
    let error = match plan_videos(&files, "/tmp/t/Video", &paths()) {
        Ok(_) => panic!("expected collision detection to fail"),
        Err(e) => e,
    };
    assert!(error.message().contains("output collision"));
}

#[test]
fn cache_validation_respects_mtime_and_fingerprint() {
    let video = SourceVideo {
        source_path: "Video/CourseA/01_绪论.mp4".to_string(),
        relative_path: "CourseA/01_绪论.mp4".to_string(),
        stem_path: "CourseA/01_绪论".to_string(),
        output_markdown_path: "Document/CourseA/01_绪论.md".to_string(),
        working_path: "Working/CourseA/01_绪论".to_string(),
        file_name: "01_绪论.mp4".to_string(),
        extension: "mp4".to_string(),
        size_bytes: 10,
        source_mtime_ms: 42,
        duration_seconds: None,
        width: None,
        height: None,
    };
    let store = StateStore::new("Working".to_string());
    let status = Some(store.update_state(&video, "fingerprint-a", TaskState::DocumentWritten, 1, Vec::new(), epoch()));
    // The Markdown file exists; no document bundle was stored.
    assert!(!store.is_video_complete_and_valid(&status, &video, "fingerprint-a", true, false));
    assert!(!store.is_video_complete_and_valid(&status, &video, "fingerprint-b", true, false));
}

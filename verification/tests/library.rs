use video2document::config::{
    fingerprint_of_payload, AppSettings, ConfigError, ConfigSource, KimiSettings, PathSettings,
    RuntimeSettings, VideoSettings, load_settings, config_paths,
};
use video2document::cli::CliArgs;
use video2document::indexer::{build_indexes, document_from_markdown, is_document_markdown};
use video2document::kimi::client::{
    chat_completions_url, clip_transport, data_url, extract_content_text, extract_json_object,
    file_reference, files_url, finalize_analysis, json_candidate, normalize_base_url,
    ClipTransport, ContentValue,
};
use video2document::kimi::document_aggregator::{aggregate_document, unique_concepts, unique_strings};
use video2document::kimi::segment_analyzer::{analysis_width, may_reuse_segment, order_by_index};
use video2document::metadata::{build_segments, format_hms, format_time_range, frame_size, ProbeStream};
use video2document::models::{
    ConceptItem, CourseDocument, RunSummary, SegmentAnalysis, SourceVideo, TaskState, Timestamp,
    UploadMode, VideoMetadata,
};
use video2document::paths::{extension, file_name, file_stem, join, parent, with_extension};
use video2document::run::{
    attach_markdown, enrich_video, exit_report, next_attempt, only_index_report, pick_metadata,
    reuses_video, tally, VideoOutcome,
};
use video2document::scanner::{
    is_hidden_or_temporary, is_supported_video, plan_videos, ScanError, ScannedFile,
};
use video2document::state_store::{sort_documents, StateStore};
use video2document::writer::{render_index, validate_section_order};

use video2document::scanner::find_collision;
use video2document::config::digest_fingerprint;
use video2document::kimi::document_aggregator::{unique_examples, unique_formulas};
use video2document::models::{ExampleItem, FormulaItem};
use video2document::clipper::{clip_command_args, keep_existing_clip};
use video2document::metadata::ffprobe_args;
use video2document::kimi::client::{build_segment_prompt, chat_messages};
use video2document::kimi::types::{ContentPart, MessageContent};
use video2document::scanner::map_document_to_video_roots;

fn video() -> SourceVideo {
    SourceVideo {
        source_path: "Video/CourseA/01_绪论.mp4".to_string(),
        relative_path: "CourseA/01_绪论.mp4".to_string(),
        stem_path: "CourseA/01_绪论".to_string(),
        output_markdown_path: "Document/CourseA/01_绪论.md".to_string(),
        working_path: "Working/CourseA/01_绪论".to_string(),
        file_name: "01_绪论.mp4".to_string(),
        extension: "mp4".to_string(),
        size_bytes: 10,
        source_mtime_ms: 42,
        duration_seconds: None,
        width: None,
        height: None,
    }
}

fn settings() -> AppSettings {
    AppSettings {
        paths: PathSettings {
            input_dir: "./Video".to_string(),
            output_dir: "./Document".to_string(),
            working_dir: "./Working".to_string(),
        },
        video: VideoSettings {
            segment_seconds: 600,
            max_resolution_width: 2048,
            max_resolution_height: 1080,
            preferred_upload_mode: UploadMode::Auto,
        },
        kimi: KimiSettings {
            model: "kimi-k2.6".to_string(),
            base_url: "https://api.moonshot.cn/v1".to_string(),
            max_retries: 3,
            retry_backoff_seconds: 5,
        },
        runtime: RuntimeSettings {
            preprocess_concurrency: 2,
            request_concurrency: 2,
            log_filter: "info".to_string(),
        },
    }
}

fn no_args() -> CliArgs {
    CliArgs {
        config: None,
        input_dir: None,
        output_dir: None,
        working_dir: None,
        segment_seconds: None,
        retry_count: None,
        upload_mode: None,
        only_index: false,
        force: false,
    }
}

fn analysis(course: &str, topic: &str, summary: &str, time_range: &str) -> SegmentAnalysis {
    SegmentAnalysis {
        course: course.to_string(),
        relative_path: String::new(),
        segment_id: String::new(),
        time_range: time_range.to_string(),
        topic: topic.to_string(),
        summary: summary.to_string(),
        key_concepts: Vec::new(),
        formulas: Vec::new(),
        teacher_emphasis: Vec::new(),
        examples: Vec::new(),
        confusions: Vec::new(),
        questions: Vec::new(),
        tags: Vec::new(),
        low_confidence: Vec::new(),
    }
}

fn epoch() -> Timestamp {
    Timestamp::from_parts(0, 0).expect("the epoch is a valid date-time")
}

#[test]
fn default_settings_match_the_documented_defaults() {
    let s = AppSettings::default();
    assert_eq!(s.paths.input_dir, "./Video");
    assert_eq!(s.paths.output_dir, "./Document");
    assert_eq!(s.paths.working_dir, "./Working");
    assert_eq!(s.video.segment_seconds, 600);
    assert_eq!(s.kimi.model, "kimi-k2.6");
    assert_eq!(s.kimi.max_retries, 3);
    assert_eq!(s.runtime.request_concurrency, 2);
}

#[test]
fn each_settings_error_has_its_input() {
    let mut s = settings();
    s.video.segment_seconds = 0;
    assert!(matches!(s.validate(), Err(ConfigError::ZeroSegmentSeconds)));
    let mut s = settings();
    s.runtime.request_concurrency = 0;
    assert!(matches!(s.validate(), Err(ConfigError::ZeroConcurrency)));
    let mut s = settings();
    s.kimi.model = "  ".to_string();
    assert!(matches!(s.validate(), Err(ConfigError::EmptyModel)));
    assert!(settings().validate().is_ok());

    let unreadable = load_settings(
        &no_args(),
        ConfigSource::Unreadable { path: "config.toml".to_string(), reason: "denied".to_string() },
        ConfigSource::Missing { path: "config.local.toml".to_string() },
    );
    match unreadable {
        Err(e) => assert_eq!(e.message(), "failed to read config file config.toml: denied"),
        Ok(_) => panic!("an unreadable file must fail"),
    }
    let malformed = load_settings(
        &no_args(),
        ConfigSource::Missing { path: "config.toml".to_string() },
        ConfigSource::Malformed { path: "config.local.toml".to_string(), reason: "bad".to_string() },
    );
    match malformed {
        Err(e) => assert_eq!(e.message(), "failed to parse TOML config config.local.toml: bad"),
        Ok(_) => panic!("a malformed file must fail"),
    }
    // A missing base file that was not named is no error.
    let fine = load_settings(
        &no_args(),
        ConfigSource::Missing { path: "config.toml".to_string() },
        ConfigSource::Missing { path: "config.local.toml".to_string() },
    );
    assert!(fine.is_ok());
}

#[test]
fn config_files_sit_beside_the_named_base_file() {
    let (base, local) = config_paths(&no_args());
    assert_eq!(base, "config.toml");
    assert_eq!(local, "config.local.toml");
    let mut args = no_args();
    args.config = Some("conf/app.toml".to_string());
    let (base, local) = config_paths(&args);
    assert_eq!(base, "conf/app.toml");
    assert_eq!(local, "conf/config.local.toml");
}

#[test]
fn fingerprint_is_the_sha256_hex_of_the_payload() {
    assert_eq!(
        fingerprint_of_payload(b""),
        "e3b0c44298fc1c149afbf4c8996fb92427ae41e4649b934ca495991b7852b855"
    );
    assert_eq!(
        fingerprint_of_payload(b"abc"),
        "ba7816bf8f01cfea414140de5dae2223b00361a396177a9cb410ff61f20015ad"
    );
}

#[test]
fn path_helpers_follow_std_paths() {
    assert_eq!(file_name("CourseA/01.mp4"), Some("01.mp4".to_string()));
    assert_eq!(parent("CourseA/01.mp4"), Some("CourseA".to_string()));
    assert_eq!(parent("01.mp4"), Some(String::new()));
    assert_eq!(extension("CourseA/01.mp4"), Some("mp4".to_string()));
    assert_eq!(extension("CourseA/.hidden"), None);
    assert_eq!(file_stem("CourseA/01.tar.gz"), Some("01.tar".to_string()));
    assert_eq!(with_extension("CourseA/01.mp4", "md"), "CourseA/01.md");
    assert_eq!(with_extension("CourseA/01.mp4", ""), "CourseA/01");
    assert_eq!(join("Document", "CourseA/01.md"), "Document/CourseA/01.md");
    assert_eq!(join("Document", "/abs"), "/abs");
}

#[test]
fn supported_videos_and_hidden_files() {
    assert!(is_supported_video("a/b.MP4"));
    assert!(is_supported_video("a/b.webm"));
    assert!(!is_supported_video("a/b.txt"));
    assert!(!is_supported_video("a/mp4"));
    assert!(is_hidden_or_temporary("/in/.git/x.mp4", "/in"));
    assert!(is_hidden_or_temporary("/in/a/~$x.mp4", "/in"));
    assert!(is_hidden_or_temporary("/in/a/x.mp4.part", "/in"));
    assert!(is_hidden_or_temporary("/in/a/x.tmp", "/in"));
    assert!(!is_hidden_or_temporary("/in/a/x.mp4", "/in"));
}

#[test]
fn planned_videos_are_sorted_and_mapped() {
    let paths = PathSettings {
        input_dir: "/v".to_string(),
        output_dir: "/d".to_string(),
        working_dir: "/w".to_string(),
    };
    let files = vec![
        ScannedFile { path: "/v/B/2.mkv".to_string(), size_bytes: 7, source_mtime_ms: 9 },
        ScannedFile { path: "/v/A/1.MP4".to_string(), size_bytes: 3, source_mtime_ms: 4 },
    ];
    let videos = match plan_videos(&files, "/v", &paths) {
        Ok(v) => v,
        Err(e) => panic!("{}", e.message()),
    };
    assert_eq!(videos.len(), 2);
    assert_eq!(videos[0].relative_path, "A/1.MP4");
    assert_eq!(videos[0].stem_path, "A/1");
    assert_eq!(videos[0].output_markdown_path, "/d/A/1.md");
    assert_eq!(videos[0].working_path, "/w/A/1");
    assert_eq!(videos[0].file_name, "1.MP4");
    assert_eq!(videos[0].extension, "mp4");
    assert_eq!(videos[0].size_bytes, 3);
    assert_eq!(videos[1].relative_path, "B/2.mkv");
}

#[test]
fn collisions_ignore_case_and_outside_files_are_refused() {
    let paths = PathSettings {
        input_dir: "/v".to_string(),
        output_dir: "/d".to_string(),
        working_dir: "/w".to_string(),
    };
    let files = vec![
        ScannedFile { path: "/v/A/Intro.mp4".to_string(), size_bytes: 1, source_mtime_ms: 1 },
        ScannedFile { path: "/v/A/intro.mov".to_string(), size_bytes: 1, source_mtime_ms: 1 },
    ];
    match plan_videos(&files, "/v", &paths) {
        Err(ScanError::OutputCollision { previous, current }) => {
            assert_eq!(previous, "A/Intro.mp4");
            assert_eq!(current, "A/intro.mov");
        }
        _ => panic!("expected a collision"),
    }
    let outside = vec![ScannedFile { path: "/x/a.mp4".to_string(), size_bytes: 1, source_mtime_ms: 1 }];
    match plan_videos(&outside, "/v", &paths) {
        Err(e) => {
            assert!(matches!(e, ScanError::OutsideRoot { .. }));
            assert_eq!(e.message(), "path is outside the input directory: /x/a.mp4");
        }
        Ok(_) => panic!("expected a refusal"),
    }
}

#[test]
fn time_formats() {
    assert_eq!(format_hms(0), "00:00:00");
    assert_eq!(format_hms(3661), "01:01:01");
    assert_eq!(format_hms(360000), "100:00:00");
}

#[test]
fn segments_cover_the_video() {
    let metadata = VideoMetadata { duration_seconds: 1500, width: 4096, height: 720 };
    let segments = build_segments(&video(), &metadata, &settings().video);
    assert_eq!(segments.len(), 3);
    assert_eq!(segments[0].segment_id, "clip_001");
    assert_eq!(segments[0].start_seconds, 0);
    assert_eq!(segments[0].end_seconds, 600);
    assert_eq!(segments[1].start_seconds, 600);
    assert_eq!(segments[2].end_seconds, 1500);
    assert_eq!(segments[2].clip_path, "Working/CourseA/01_绪论/clips/clip_003.mp4");
    assert!(segments[0].resized);
    assert_eq!(format_time_range(&segments[1]), "00:10:00-00:20:00");
    let short = build_segments(&video(), &VideoMetadata { duration_seconds: 0, width: 1, height: 1 }, &settings().video);
    assert_eq!(short.len(), 1);
    assert_eq!(short[0].end_seconds, 1);
    assert!(!short[0].resized);
}

#[test]
fn frame_size_takes_the_first_known_sizes() {
    let streams = vec![
        ProbeStream { width: None, height: Some(480) },
        ProbeStream { width: Some(640), height: Some(360) },
    ];
    assert_eq!(frame_size(&streams), (640, 480));
    assert_eq!(frame_size(&[]), (0, 0));
}

#[test]
fn clip_transport_by_mode_and_size() {
    assert_eq!(clip_transport(UploadMode::Base64, u64::MAX), ClipTransport::Inline);
    assert_eq!(clip_transport(UploadMode::File, 0), ClipTransport::Upload);
    assert_eq!(clip_transport(UploadMode::Auto, 25165824), ClipTransport::Inline);
    assert_eq!(clip_transport(UploadMode::Auto, 25165825), ClipTransport::Upload);
}

#[test]
fn urls_and_references() {
    assert_eq!(data_url(b"abc"), "data:video/mp4;base64,YWJj");
    assert_eq!(data_url(b"ab"), "data:video/mp4;base64,YWI=");
    assert_eq!(file_reference("file_123"), "ms://file_123");
    assert_eq!(normalize_base_url("https://x/v1//"), "https://x/v1");
    assert_eq!(chat_completions_url("https://x/v1"), "https://x/v1/chat/completions");
    assert_eq!(files_url("https://x/v1"), "https://x/v1/files");
}

#[test]
fn json_object_is_cut_from_the_answer() {
    assert_eq!(extract_json_object("note {\"a\": {\"b\": 1}} end"), Some("{\"a\": {\"b\": 1}}".to_string()));
    assert_eq!(extract_json_object("no braces"), None);
    assert_eq!(extract_json_object("} then {"), None);
    assert_eq!(extract_json_object("}{"), Some(String::new()));
    assert_eq!(json_candidate("plain"), "plain");
    assert_eq!(
        extract_content_text(ContentValue::Parts(vec![Some("a".to_string()), None, Some("b".to_string())])),
        "a\nb"
    );
    assert_eq!(extract_content_text(ContentValue::Text("t".to_string())), "t");
}

#[test]
fn blank_course_falls_back_to_the_directory_name() {
    let segments = build_segments(&video(), &VideoMetadata { duration_seconds: 700, width: 1, height: 1 }, &settings().video);
    let a = finalize_analysis(analysis("  ", "topic", "sum", "x"), &video(), &segments[1]);
    assert_eq!(a.course, "CourseA");
    assert_eq!(a.relative_path, "CourseA/01_绪论.mp4");
    assert_eq!(a.segment_id, "clip_002");
    assert_eq!(a.time_range, "00:10:00-00:11:40");
    assert_eq!(a.topic, "topic");
    let mut top = video();
    top.relative_path = "01.mp4".to_string();
    let b = finalize_analysis(analysis("", "t", "s", "x"), &top, &segments[0]);
    assert_eq!(b.course, "未命名课程");
    let c = finalize_analysis(analysis("Math", "t", "s", "x"), &top, &segments[0]);
    assert_eq!(c.course, "Math");
}

#[test]
fn merging_trims_and_drops_repeats() {
    let r = unique_strings(vec![" a ".to_string(), "a".to_string(), "".to_string(), "b".to_string(), "  ".to_string()]);
    assert_eq!(r, vec!["a".to_string(), "b".to_string()]);
    let c = unique_concepts(vec![
        ConceptItem { term: " x ".to_string(), note: "n".to_string() },
        ConceptItem { term: "x".to_string(), note: " n".to_string() },
        ConceptItem { term: " ".to_string(), note: "n".to_string() },
        ConceptItem { term: "x".to_string(), note: "m".to_string() },
    ]);
    assert_eq!(c.len(), 2);
    assert_eq!(c[0].term, "x");
    assert_eq!(c[1].note, "m");
}

#[test]
fn aggregated_document_merges_segments() {
    let mut a = analysis("C", " 主题 ", " 摘要一 ", "00:00:00-00:10:00");
    a.tags = vec!["t1".to_string(), "t1".to_string()];
    a.questions = vec!["q".to_string()];
    a.confusions = vec!["c".to_string()];
    for i in 0..10 {
        a.key_concepts.push(ConceptItem { term: format!("k{i}"), note: "n".to_string() });
    }
    let b = analysis("C", "主题", "摘要二", "00:10:00-00:20:00");
    let doc = aggregate_document(&video(), &[a, b], epoch());
    assert_eq!(doc.title, "01_绪论");
    assert_eq!(doc.relative_path, "CourseA/01_绪论.md");
    assert_eq!(doc.document_path, "Document/CourseA/01_绪论.md");
    assert_eq!(doc.objectives, vec!["理解 主题".to_string()]);
    assert_eq!(doc.knowledge_mainline.len(), 2);
    assert_eq!(doc.directory_summary, "00:00:00-00:10:00: 摘要一");
    assert_eq!(doc.glossary.len(), 8);
    assert_eq!(doc.core_concepts.len(), 10);
    assert_eq!(doc.keywords.len(), 11);
    assert_eq!(doc.keywords[0], "t1");
    assert_eq!(doc.questions_and_quiz, vec!["q".to_string(), "待核对：c".to_string()]);
    assert!(doc.document_markdown.is_empty());
    let doc = attach_markdown(doc);
    assert!(doc.document_markdown.starts_with("# 01_绪论\n\n## 本讲目标\n\n- 理解 主题\n\n"));
    assert!(validate_section_order(&doc.document_markdown));
    assert!(doc.has_required_sections());
}

#[test]
fn empty_aggregation_uses_placeholders() {
    let doc = attach_markdown(aggregate_document(&video(), &[], epoch()));
    assert_eq!(doc.directory_summary, "暂无摘要");
    assert!(doc.document_markdown.contains("## 公式与结论\n\n- 暂无明确提炼。\n\n"));
    assert!(doc.document_markdown.ends_with("## 问答与自测\n\n1. 暂无明确提炼。\n\n"));
}

#[test]
fn section_check_refuses_wrong_order() {
    assert!(!validate_section_order("## 知识主线\n## 本讲目标\n"));
    assert!(!validate_section_order(""));
}

#[test]
fn timestamps_render_as_rfc3339() {
    assert_eq!(epoch().to_rfc3339(), "1970-01-01T00:00:00+00:00");
    let t = Timestamp::from_parts(86400, 500).expect("valid");
    assert_eq!(t.seconds(), 86400);
    assert!(epoch().is_before(&t));
    assert!(Timestamp::from_parts(i64::MAX, 0).is_none());
}

#[test]
fn index_markdown_lists_children_and_documents() {
    let doc = document_from_markdown(
        "A/x.md".to_string(),
        "/d/A/x.md".to_string(),
        "# 标题\n- - 第一\n- 第二\n".to_string(),
        epoch(),
    );
    let indexes = build_indexes("/d", &[doc]);
    assert_eq!(indexes.len(), 2);
    assert_eq!(indexes[0].directory_path, "");
    assert_eq!(indexes[0].index_path, "/d/index.md");
    assert_eq!(indexes[1].directory_path, "A");
    assert_eq!(indexes[1].summary, "第一");
    let root = render_index(&indexes[0]);
    assert_eq!(
        root,
        "# 目录索引\n\n- 文档总数: 1\n- 最近生成: 1970-01-01T00:00:00+00:00\n- 摘要: 第一\n\n## 子目录\n\n- [A](A/index.md) | 文档数: 1 | 最近生成: 1970-01-01T00:00:00+00:00 | 摘要: 第一\n\n## 课程文档\n\n- 当前目录下无课程文档。\n"
    );
    let course = render_index(&indexes[1]);
    assert!(course.ends_with("## 课程文档\n\n- [标题](x.md) | 最近生成: 1970-01-01T00:00:00+00:00 | 摘要: 第一\n"));
    let store = StateStore::new("/w".to_string());
    assert_eq!(store.index_cache_path(&indexes[0]), "/w/index_cache.json");
    assert_eq!(store.index_cache_path(&indexes[1]), "/w/A/index_cache.json");
}

#[test]
fn markdown_read_back_from_the_output_directory() {
    assert!(is_document_markdown("/d/A/x.md"));
    assert!(!is_document_markdown("/d/A/index.md"));
    assert!(!is_document_markdown("/d/A/x.txt"));
    let doc = document_from_markdown("A/lesson.md".to_string(), "/d/A/lesson.md".to_string(), "text\r\n- \r\n".to_string(), epoch());
    assert_eq!(doc.title, "lesson");
    assert_eq!(doc.directory_summary, "");
    let doc = document_from_markdown("A/lesson.md".to_string(), "/d/A/lesson.md".to_string(), "#nospace\n# 真标题\r\n".to_string(), epoch());
    assert_eq!(doc.title, "真标题");
}

#[test]
fn stored_documents_are_sorted_by_path() {
    let mk = |p: &str| document_from_markdown(p.to_string(), p.to_string(), String::new(), epoch());
    let sorted = sort_documents(vec![mk("b/1.md"), mk("a/2.md"), mk("a/1.md"), mk("a.b/1.md")]);
    let order: Vec<String> = sorted.iter().map(|d| d.relative_path.clone()).collect();
    assert_eq!(order, vec!["a/1.md", "a/2.md", "a.b/1.md", "b/1.md"]);
}

#[test]
fn state_paths_under_the_working_directory() {
    let store = StateStore::new("/w".to_string());
    assert_eq!(store.status_path(&video()), "/w/CourseA/01_绪论/status.json");
    assert_eq!(store.metadata_path(&video()), "/w/CourseA/01_绪论/metadata.json");
    assert_eq!(
        store.segment_analysis_path(&video(), "clip_001"),
        "/w/CourseA/01_绪论/kimi_segment_outputs/clip_001.json"
    );
    assert_eq!(
        store.final_document_path(&video()),
        "/w/CourseA/01_绪论/kimi_final_outputs/document.json"
    );
}

#[test]
fn reuse_needs_fresh_complete_output_and_no_force() {
    let v = video();
    let store = StateStore::new("/w".to_string());
    let done = Some(store.update_state(&v, "fp", TaskState::DocumentWritten, 3, Vec::new(), epoch()));
    assert!(reuses_video(&store, false, &done, &v, "fp", true, true));
    assert!(!reuses_video(&store, true, &done, &v, "fp", true, true));
    assert!(!reuses_video(&store, false, &done, &v, "fp", false, true));
    assert!(!reuses_video(&store, false, &done, &v, "fp", true, false));
    let early = Some(store.update_state(&v, "fp", TaskState::KimiDocumentDone, 3, Vec::new(), epoch()));
    assert!(!reuses_video(&store, false, &early, &v, "fp", true, true));
    let mut moved = video();
    moved.source_mtime_ms = 43;
    assert!(!reuses_video(&store, false, &done, &moved, "fp", true, true));
    assert!(!reuses_video(&store, false, &None, &v, "fp", true, true));
    let failed = Some(store.record_failure(&v, "fp", "boom".to_string(), epoch()));
    assert!(may_reuse_segment(false, &failed, &v, "fp"));
    assert!(!may_reuse_segment(true, &failed, &v, "fp"));
    assert!(!may_reuse_segment(false, &failed, &v, "other"));
    assert_eq!(failed.as_ref().map(|s| s.errors.clone()), Some(vec!["boom".to_string()]));
    assert!(TaskState::KimiDocumentDone.precedes(&TaskState::DocumentWritten));
}

#[test]
fn run_counts_and_exit_codes() {
    let s = tally(&[VideoOutcome::Reused, VideoOutcome::Processed, VideoOutcome::Failed, VideoOutcome::Processed]);
    assert_eq!(s, RunSummary { discovered: 4, processed: 2, reused: 1, failed: 1 });
    assert_eq!(exit_report(s).code, 2);
    let ok = tally(&[VideoOutcome::Processed]);
    assert_eq!(exit_report(ok).code, 0);
    assert_eq!(exit_report(tally(&[])).summary, RunSummary::default());
    let only = only_index_report(7);
    assert_eq!(only.code, 0);
    assert_eq!(only.summary, RunSummary { discovered: 7, processed: 0, reused: 7, failed: 0 });
}

#[test]
fn retries_stop_after_the_limit() {
    let mut attempts = 1;
    let mut attempt = 0;
    while let Some(next) = next_attempt(attempt, 3) {
        attempt = next;
        attempts += 1;
    }
    assert_eq!(attempts, 4);
    assert_eq!(next_attempt(0, 0), None);
}

#[test]
fn metadata_choice_and_enrichment() {
    let stored = VideoMetadata { duration_seconds: 10, width: 1, height: 2 };
    let probed = VideoMetadata { duration_seconds: 20, width: 3, height: 4 };
    assert_eq!(pick_metadata(false, Some(stored), probed), stored);
    assert_eq!(pick_metadata(true, Some(stored), probed), probed);
    assert_eq!(pick_metadata(false, None, probed), probed);
    let v = enrich_video(&video(), &probed);
    assert_eq!(v.duration_seconds, Some(20));
    assert_eq!(v.width, Some(3));
    assert_eq!(v.height, Some(4));
    assert_eq!(v.relative_path, "CourseA/01_绪论.mp4");
}

#[test]
fn segment_results_are_put_in_segment_order() {
    let r = order_by_index(vec![(2, "c"), (0, "a"), (1, "b")]);
    assert_eq!(r, Some(vec!["a", "b", "c"]));
    assert_eq!(order_by_index(vec![(0, "a"), (0, "b")]), None);
    assert_eq!(order_by_index(vec![(1, "a")]), None);
    assert_eq!(order_by_index::<u8>(vec![]), Some(vec![]));
    let mut s = settings();
    s.runtime.preprocess_concurrency = 5;
    assert_eq!(analysis_width(&s), 5);
}

#[test]
fn markdown_without_title_or_path_uses_default_title() {
    let d: CourseDocument = document_from_markdown(String::new(), String::new(), String::new(), epoch());
    assert_eq!(d.title, "课程文档");
}

#[test]
fn collision_lookup_finds_the_first_equal_key() {
    let keys: Vec<Vec<char>> = vec!["a".chars().collect(), "b".chars().collect(), "b".chars().collect()];
    assert_eq!(find_collision(&keys, &"b".chars().collect()), Some(1));
    assert_eq!(find_collision(&keys, &"c".chars().collect()), None);
}

#[test]
fn digest_fingerprint_is_lower_hex() {
    assert_eq!(digest_fingerprint(&vec![0x00, 0x0f, 0xab, 0xff]), "000fabff");
    assert_eq!(digest_fingerprint(&vec![]), "");
}

#[test]
fn formulas_and_examples_are_merged_by_both_parts() {
    let f = unique_formulas(vec![
        FormulaItem { expression: " E=mc^2".to_string(), description: "energy ".to_string() },
        FormulaItem { expression: "E=mc^2".to_string(), description: "energy".to_string() },
        FormulaItem { expression: "E=mc^2".to_string(), description: "mass".to_string() },
        FormulaItem { expression: "".to_string(), description: "nothing".to_string() },
    ]);
    assert_eq!(f.len(), 2);
    assert_eq!(f[0].description, "energy");
    let e = unique_examples(vec![
        ExampleItem { title: "t".to_string(), summary: "s".to_string() },
        ExampleItem { title: " t ".to_string(), summary: " s ".to_string() },
    ]);
    assert_eq!(e.len(), 1);
    assert_eq!(e[0].title, "t");
}

#[test]
fn ffmpeg_and_ffprobe_arguments() {
    let segments = build_segments(&video(), &VideoMetadata { duration_seconds: 700, width: 4000, height: 100 }, &settings().video);
    let args = clip_command_args("in.mp4", &segments[1], &VideoMetadata { duration_seconds: 700, width: 4000, height: 100 }, &settings().video);
    assert_eq!(
        args,
        vec![
            "-y", "-ss", "600", "-i", "in.mp4", "-t", "100", "-vf",
            "scale='min(2048,iw)':'min(1080,ih)':force_original_aspect_ratio=decrease",
            "-c:v", "libx264", "-preset", "veryfast", "-crf", "28", "-pix_fmt", "yuv420p",
            "-c:a", "aac", "-movflags", "+faststart",
            "Working/CourseA/01_绪论/clips/clip_002.mp4",
        ]
    );
    let small = clip_command_args("in.mp4", &segments[0], &VideoMetadata { duration_seconds: 700, width: 10, height: 10 }, &settings().video);
    assert_eq!(small.len(), 20);
    assert_eq!(
        ffprobe_args("v.mp4"),
        vec!["-v", "error", "-show_entries", "format=duration:stream=width,height", "-of", "json", "v.mp4"]
    );
}

#[test]
fn segment_request_messages() {
    let segments = build_segments(&video(), &VideoMetadata { duration_seconds: 60, width: 1, height: 1 }, &settings().video);
    let prompt = build_segment_prompt(&video(), &segments[0]);
    assert!(prompt.starts_with("请根据视频片段整理中文课程笔记，返回一个 JSON 对象，字段必须完整：\n{\n  \"course\": \"\",\n  \"relative_path\": \"CourseA/01_绪论.mp4\",\n  \"segment_id\": \"clip_001\",\n  \"time_range\": \"00:00:00-00:01:00\","));
    assert!(prompt.ends_with("视频文件：01_绪论.mp4\n时间范围：00:00:00-00:01:00"));
    let messages = chat_messages(prompt.clone(), "ms://f".to_string());
    assert_eq!(messages.len(), 2);
    assert_eq!(messages[0].role, "system");
    assert_eq!(messages[1].role, "user");
    match &messages[1].content {
        MessageContent::Parts(parts) => {
            assert_eq!(parts.len(), 2);
            assert!(matches!(&parts[0], ContentPart::Text { text } if *text == prompt));
            assert!(matches!(&parts[1], ContentPart::VideoUrl { video_url } if video_url.url == "ms://f"));
        }
        MessageContent::Text(_) => panic!("the user message has parts"),
    }
    match &messages[0].content {
        MessageContent::Text(t) => assert_eq!(t, "你是一名课程整理助手。只输出 JSON 对象，不要输出 Markdown、解释或代码块。"),
        MessageContent::Parts(_) => panic!("the system message is text"),
    }
}

#[test]
fn document_maps_back_to_its_video_paths() {
    let doc = document_from_markdown("CourseA/01.md".to_string(), "Document/CourseA/01.md".to_string(), String::new(), epoch());
    let paths = PathSettings {
        input_dir: "Video".to_string(),
        output_dir: "Document".to_string(),
        working_dir: "Working".to_string(),
    };
    let v = map_document_to_video_roots(&doc, &paths).expect("always mapped");
    assert_eq!(v.source_path, "Video/CourseA/01.md");
    assert_eq!(v.stem_path, "CourseA/01");
    assert_eq!(v.output_markdown_path, "Document/CourseA/01.md");
    assert_eq!(v.working_path, "Working/CourseA/01");
    assert_eq!(v.file_name, "01.md");
    let store = StateStore::new("/w".to_string());
    assert_eq!(store.status_path_for_relative("A/b"), "/w/A/b/status.json");
}

#[test]
fn force_recuts_existing_clips() {
    assert!(keep_existing_clip(false, Some(10)));
    assert!(!keep_existing_clip(true, Some(10)));
    assert!(!keep_existing_clip(false, Some(0)));
    assert!(!keep_existing_clip(false, None));
}

#[test]
fn status_records_carry_the_given_time() {
    let store = StateStore::new("/w".to_string());
    let t = Timestamp::from_parts(1_700_000_000, 5).expect("valid");
    let s = store.update_state(&video(), "fp", TaskState::Clipped, 2, vec!["e".to_string()], t);
    assert_eq!(s.updated_at, t);
    assert_eq!(s.segment_count, 2);
    assert_eq!(s.config_fingerprint, "fp");
    assert_eq!(s.relative_path, "CourseA/01_绪论.mp4");
    let f = store.record_failure(&video(), "fp", "boom".to_string(), t);
    assert_eq!(f.updated_at, t);
    assert_eq!(f.state, TaskState::Failed);
    assert_eq!(f.errors, vec!["boom".to_string()]);
    let doc = aggregate_document(&video(), &[], t);
    assert_eq!(doc.generated_at, t);
}

#[test]
fn fingerprint_is_lower_hex_of_fixed_length() {
    let f = fingerprint_of_payload(b"{\"video\":1}");
    assert_eq!(f.len(), 64);
    assert!(f.chars().all(|c| c.is_ascii_digit() || ('a'..='f').contains(&c)));
    assert_eq!(f, fingerprint_of_payload(b"{\"video\":1}"));
    assert_ne!(f, fingerprint_of_payload(b"{\"video\":2}"));
}

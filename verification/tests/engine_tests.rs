use arknights_story_reader::index::{
    build_index_row, entry_type_display, flatten_segments, format_category_label,
    needs_migration,
};
use arknights_story_reader::models::{StoryEntry, StorySegment, VersionInfo};
use arknights_story_reader::normalize::normalize;
use arknights_story_reader::numeric::{compare_story_group_ids, extract_numeric_parts};
use arknights_story_reader::query::build_fts_query_advanced;
use arknights_story_reader::search::{CorpusStory, DataService};
use arknights_story_reader::snippet::extract_context;
use arknights_story_reader::tokenize::{build_tokenized_content, tokenize_for_fts};
use arknights_story_reader::version::format_timestamp;
use std::cmp::Ordering;

fn entry(id: &str, name: &str) -> StoryEntry {
    StoryEntry {
        story_id: id.to_string(),
        story_name: name.to_string(),
        story_code: None,
        story_group: "main_0".to_string(),
        story_sort: 0,
        avg_tag: None,
        story_txt: format!("{}.txt", id),
        story_info: None,
        story_review_type: "AVG".to_string(),
        unlock_type: "DIRECT".to_string(),
        story_dependence: None,
        story_can_show: None,
        story_can_enter: None,
        stage_count: None,
        required_stages: None,
        cost_item_type: None,
        cost_item_id: None,
        cost_item_count: None,
    }
}

fn corpus_story(id: &str, name: &str, content: Option<&str>) -> CorpusStory {
    CorpusStory {
        category_name: "测试".to_string(),
        entry_type: "MAINLINE".to_string(),
        story: entry(id, name),
        content: content.map(|s| s.to_string()),
    }
}

#[test]
fn normalize_folds_case_and_compatibility_forms() {
    // Fullwidth letters decompose under NFKC, uppercase folds to lowercase.
    assert_eq!(normalize("Ｆｕｌｌ"), "full");
    assert_eq!(normalize("ABC"), "abc");
    // A combining mark with no precomposed form is stripped.
    assert_eq!(normalize("q\u{0301}"), "q");
    // CJK text passes through unchanged.
    assert_eq!(normalize("苦艾"), "苦艾");
}

#[test]
fn normalize_is_idempotent_on_samples() {
    for s in ["Ｆｕｌｌ Ｗidth", "CAFÉ du ②", "苦艾酒……", "q\u{0301}x"] {
        let once = normalize(s);
        let twice = normalize(&once);
        assert_eq!(once, twice);
    }
}

#[test]
fn tokenizer_splits_ascii_runs_and_cjk_chars() {
    let toks = tokenize_for_fts("Dr. Kal'tsit 凯尔希 2nd");
    assert_eq!(toks, vec!["dr", "kal", "tsit", "凯", "尔", "希", "2nd"]);
    assert_eq!(build_tokenized_content("凯尔希 abc"), "凯 尔 希 abc");
}

#[test]
fn tokenizer_reconstructs_normalized_text() {
    // Concatenating the tokens gives back every searchable character of
    // the normalized input, in order.
    let input = "Ｄr. 凯尔希！ok";
    let joined: String = tokenize_for_fts(input).concat();
    let kept: String = normalize(input)
        .chars()
        .filter(|c| !c.is_whitespace() && !is_common_punct(*c))
        .collect();
    assert_eq!(joined, kept);
}

fn is_common_punct(c: char) -> bool {
    c.is_ascii_punctuation()
        || "，、。！？：；（）【】「」『』《》〈〉—～…·﹑﹔﹗﹖﹐﹒﹕︰".contains(c)
}

#[test]
fn query_compiler_expands_cjk_and_ascii() {
    assert_eq!(build_fts_query_advanced("苦艾").as_deref(), Some("\"苦 艾\""));
    assert_eq!(build_fts_query_advanced("abc").as_deref(), Some("abc*"));
    assert_eq!(
        build_fts_query_advanced("凯尔希 abc").as_deref(),
        Some("\"凯 尔 希\" AND abc*")
    );
    assert_eq!(
        build_fts_query_advanced("凯尔希 or abc").as_deref(),
        Some("\"凯 尔 希\" OR abc*")
    );
    assert_eq!(
        build_fts_query_advanced("-abc def").as_deref(),
        Some("NOT abc* AND def*")
    );
    assert_eq!(
        build_fts_query_advanced("\"kal tsit\"").as_deref(),
        Some("\"kal tsit\"")
    );
    assert_eq!(build_fts_query_advanced("   "), None);
    // Punctuation still forms a literal term after normalization.
    assert_eq!(
        build_fts_query_advanced("……！").as_deref(),
        Some("\"......!\"")
    );
    // Lone dashes and a dangling `or` yield no terms at all.
    assert_eq!(build_fts_query_advanced("- -"), None);
    assert_eq!(build_fts_query_advanced("or"), None);
}

#[test]
fn humanizes_speaker_identifiers() {
    let content = r#"[Dialog(head="char_356_broca")]test line content"#;
    let parsed = arknights_story_reader::parser::parse_story_text(content);
    match &parsed.segments[0] {
        StorySegment::Dialogue { character_name, .. } => {
            assert_eq!(character_name, "Broca");
        }
        _ => panic!("Expected dialogue"),
    }
}

#[test]
fn drops_command_lines_without_payload() {
    // No remainder and no text attribute: no segment at all.
    let parsed = arknights_story_reader::parser::parse_story_text("[name=\"X\"]");
    assert_eq!(parsed.segments.len(), 0);
    // Short pure-punctuation payloads fail the meaningful-content filter.
    let parsed = arknights_story_reader::parser::parse_story_text("[Narration] .)");
    assert_eq!(parsed.segments.len(), 0);
}

#[test]
fn attribute_pairs_are_case_insensitive_and_ordered() {
    let body: Vec<char> = "Name=\"杜宾\" dialogHead = \"$avatar_sys\"".chars().collect();
    let pairs = arknights_story_reader::parser::parse_attributes(&body);
    assert_eq!(pairs.len(), 2);
    assert_eq!(pairs[0].0, "name");
    assert_eq!(pairs[0].1, "杜宾");
    assert_eq!(pairs[1].0, "dialoghead");
    assert_eq!(pairs[1].1, "$avatar_sys");
}

#[test]
fn flatten_joins_segments() {
    let segments = vec![
        StorySegment::Dialogue {
            character_name: "杜宾".to_string(),
            text: "可恶......".to_string(),
        },
        StorySegment::Decision {
            options: vec!["A".to_string(), "B".to_string()],
        },
        StorySegment::Header {
            title: "第一章".to_string(),
        },
    ];
    assert_eq!(flatten_segments(&segments), "杜宾：可恶......\nA / B\n第一章");
}

#[test]
fn category_labels() {
    assert_eq!(entry_type_display("MAINLINE"), "主线");
    assert_eq!(entry_type_display("RUNE"), "危机合约");
    assert_eq!(entry_type_display("OTHER"), "OTHER");
    assert_eq!(format_category_label("MAINLINE", "怒号光明"), "主线 | 怒号光明");
    assert_eq!(format_category_label("MAINLINE", "  "), "主线");
    assert_eq!(format_category_label("MAINLINE", "主线"), "主线");
}

#[test]
fn index_row_contains_tokenized_content() {
    let e = entry("main_0", "怒号光明");
    let row = build_index_row(&e, "主线 | 序章", "[name=\"杜宾\"] 可恶......")
        .expect("row expected");
    assert_eq!(row.story_id, "main_0");
    assert_eq!(row.story_name, "怒号光明");
    assert_eq!(row.category, "主线 | 序章");
    assert_eq!(row.raw_content, "怒号光明\n杜宾：可恶......");
    assert_eq!(row.tokenized_content, "怒 号 光 明 杜 宾 可 恶");
    // A story with no extractable text yields no row.
    assert!(build_index_row(&entry("e", "·"), "主线", "......").is_none());
}

#[test]
fn index_migration_rule() {
    assert!(needs_migration(None));
    assert!(needs_migration(Some(0)));
    assert!(needs_migration(Some(1)));
    assert!(!needs_migration(Some(2)));
    assert!(!needs_migration(Some(3)));
}

#[test]
fn snippet_wraps_context_window() {
    let content = "前文。这里有苦艾酒的记载。后文。";
    let snip = extract_context(content, "苦艾");
    assert!(snip.starts_with("..."));
    assert!(snip.ends_with("..."));
    assert!(snip.contains("苦艾酒"));
    assert_eq!(extract_context(content, "不存在的词"), "");
    // A multi-token query falls back to its first token found.
    let snip = extract_context(content, "不存在 记载");
    assert!(snip.contains("记载"));
}

#[test]
fn search_not_installed_is_distinguishable() {
    let service = DataService::new(false, Vec::new());
    assert!(!service.is_installed());
    assert_eq!(service.build_index_rows().unwrap_err(), "NOT_INSTALLED");
    assert_eq!(
        service.search_stories("苦艾", None).unwrap_err(),
        "NOT_INSTALLED"
    );
    assert_eq!(
        service.search_stories_fallback("苦艾").unwrap_err(),
        "NOT_INSTALLED"
    );
    // An empty query short-circuits before the guard.
    assert_eq!(service.search_stories("   ", None).unwrap().len(), 0);
}

#[test]
fn search_finds_by_name_and_content() {
    let corpus = vec![
        corpus_story("a", "苦艾的故事", Some("some text")),
        corpus_story("b", "其他", Some("[name=\"x\"] 这里提到了苦艾酒")),
        corpus_story("c", "无关", None),
    ];
    let service = DataService::new(true, corpus);
    let results = service.search_stories("苦艾", None).unwrap();
    assert_eq!(results.len(), 2);
    assert_eq!(results[0].story_id, "a");
    assert_eq!(results[0].matched_text, "苦艾的故事");
    assert_eq!(results[1].story_id, "b");
    assert!(results[1].matched_text.contains("苦艾酒"));
}

#[test]
fn hybrid_merge_deduplicates_by_story_id() {
    let corpus = vec![
        corpus_story("a", "苦艾的故事", None),
        corpus_story("b", "苦艾再临", None),
    ];
    let service = DataService::new(true, corpus);
    // The index path already returned story `b`, ranked first.
    let index_hit = vec![arknights_story_reader::models::SearchResult {
        story_id: "b".to_string(),
        story_name: "苦艾再临".to_string(),
        matched_text: "索引片段".to_string(),
        category: "主线".to_string(),
    }];
    let results = service.search_stories("苦艾", Some(index_hit)).unwrap();
    assert_eq!(results.len(), 2);
    // Index rank wins: `b` stays first with its index snippet.
    assert_eq!(results[0].story_id, "b");
    assert_eq!(results[0].matched_text, "索引片段");
    assert_eq!(results[1].story_id, "a");
}

#[test]
fn cap_is_enforced_at_five_hundred() {
    let mut corpus = Vec::new();
    for i in 0..620 {
        corpus.push(corpus_story(
            &format!("story_{}", i),
            &format!("苦艾编年史第{}卷", i),
            None,
        ));
    }
    let service = DataService::new(true, corpus);
    let results = service.search_stories("苦艾", None).unwrap();
    assert_eq!(results.len(), 500);
}

#[test]
fn debug_search_reports_and_matches_plain_search() {
    let corpus = vec![
        corpus_story("a", "苦艾的故事", None),
        corpus_story("b", "其他", Some("提到苦艾")),
    ];
    let service = DataService::new(true, corpus);
    let plain = service.search_stories("苦艾", None).unwrap();
    let debug = service.search_stories_with_debug("苦艾", None).unwrap();
    assert_eq!(debug.results.len(), plain.len());
    for (a, b) in debug.results.iter().zip(plain.iter()) {
        assert_eq!(a.story_id, b.story_id);
        assert_eq!(a.matched_text, b.matched_text);
    }
    assert!(debug.logs.iter().any(|l| l.contains("开始搜索")));
    assert!(debug.logs.iter().any(|l| l.contains("FTS 查询")));
    let empty = service.search_stories_with_debug("  ", None).unwrap();
    assert_eq!(empty.results.len(), 0);
    assert_eq!(empty.logs, vec!["查询为空，直接返回".to_string()]);
}

#[test]
fn story_entry_lookup() {
    let corpus = vec![corpus_story("a", "第一话", None)];
    let service = DataService::new(true, corpus);
    let e = service.get_story_entry("a").unwrap();
    assert_eq!(e.story_name, "第一话");
    let err = service.get_story_entry("zzz").unwrap_err();
    assert_eq!(err, "Story zzz 不存在");
}

#[test]
fn index_status_from_metadata() {
    let built = "1700000000".to_string();
    let status = DataService::get_story_index_status(3, Some(&built));
    assert!(status.ready);
    assert_eq!(status.total, 3);
    assert_eq!(status.last_built_at, Some(1700000000));
    let status = DataService::get_story_index_status(0, None);
    assert!(!status.ready);
    assert_eq!(status.total, 0);
    assert_eq!(status.last_built_at, None);
    let status = DataService::get_story_index_status(-2, Some(&"oops".to_string()));
    assert!(!status.ready);
    assert_eq!(status.total, 0);
    assert_eq!(status.last_built_at, None);
}

#[test]
fn version_labels() {
    let now = 1_700_000_000i64;
    assert_eq!(format_timestamp(now - 30, now), "1分钟前");
    assert_eq!(format_timestamp(now - 300, now), "5分钟前");
    assert_eq!(format_timestamp(now - 7200, now), "2小时前");
    assert_eq!(format_timestamp(now - 3 * 86400, now), "3天前");
    assert_eq!(format_timestamp(now - 40 * 86400, now), "较早前");
    assert_eq!(format_timestamp(now + 50, now), "较早前");

    let info = VersionInfo {
        commit: "0123456789abcdef".to_string(),
        fetched_at: now - 7200,
    };
    assert_eq!(
        DataService::get_current_version(Some(&info), now),
        "0123456 (2小时前)"
    );
    assert_eq!(DataService::get_current_version(None, now), "未安装");
    assert_eq!(
        DataService::get_remote_version(Some(&"abcdef0123".to_string())),
        "abcdef0"
    );
    assert_eq!(DataService::get_remote_version(Some(&"abc".to_string())), "abc");
    assert_eq!(DataService::get_remote_version(None), "未知");
    assert!(DataService::check_update(None, None));
    assert!(DataService::check_update(Some(&info), None));
    assert!(DataService::check_update(
        Some(&info),
        Some(&"fffffff".to_string())
    ));
    assert!(!DataService::check_update(
        Some(&info),
        Some(&"0123456789abcdef".to_string())
    ));
}

#[test]
fn numeric_group_ordering() {
    assert_eq!(extract_numeric_parts("act12side_3"), vec![12, 3]);
    assert_eq!(extract_numeric_parts("no digits"), Vec::<i32>::new());
    // A run too large for i32 is skipped, like a failed parse.
    assert_eq!(extract_numeric_parts("a99999999999999999999b7"), vec![7]);
    assert_eq!(compare_story_group_ids("act2", "act10"), Ordering::Less);
    assert_eq!(compare_story_group_ids("act10", "act2"), Ordering::Greater);
    assert_eq!(compare_story_group_ids("act1_2", "act1_10"), Ordering::Less);
    assert_eq!(compare_story_group_ids("abc", "abd"), Ordering::Less);
    assert_eq!(compare_story_group_ids("same", "same"), Ordering::Equal);
}

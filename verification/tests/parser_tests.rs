use arknights_story_reader::models::StorySegment;
use arknights_story_reader::parser::parse_story_text;

#[test]
fn test_parse_dialogue() {
    let content = r#"[name="杜宾"]  可恶......
[name="杜宾"]  这里，究竟怎么了？"#;

    let result = parse_story_text(content);
    assert_eq!(result.segments.len(), 2);

    match &result.segments[0] {
        StorySegment::Dialogue {
            character_name,
            text,
        } => {
            assert_eq!(character_name, "杜宾");
            assert_eq!(text, "可恶......");
        }
        _ => panic!("Expected dialogue segment"),
    }
}

#[test]
fn test_parse_decision_variants() {
    let content = r#"[Decision(options="早就该交给我了！;......;简单，我会轻松解决的。", values="1;2;3")]
[Decision(option1="选项A", value1="1", option2="选项B", value2="2")]"#;

    let result = parse_story_text(content);
    assert_eq!(result.segments.len(), 2);

    match &result.segments[0] {
        StorySegment::Decision { options } => {
            assert_eq!(options.len(), 3);
            assert_eq!(options[0], "早就该交给我了！");
            assert_eq!(options[1], "......");
            assert_eq!(options[2], "简单，我会轻松解决的。");
        }
        _ => panic!("Expected decision segment"),
    }

    match &result.segments[1] {
        StorySegment::Decision { options } => {
            assert_eq!(options, &vec!["选项A".to_string(), "选项B".to_string()]);
        }
        _ => panic!("Expected decision segment"),
    }
}

#[test]
fn test_parse_subtitle_and_system() {
    let content = r#"[Subtitle(text="“让所有人都站起来。”", alignment="center")]
[PopupDialog(dialogHead="$avatar_sys")] 请尽可能多地与其他组织建立良好关系"#;

    let result = parse_story_text(content);
    assert_eq!(result.segments.len(), 2);

    match &result.segments[0] {
        StorySegment::Subtitle { text, alignment } => {
            assert_eq!(text, "“让所有人都站起来。”");
            assert_eq!(alignment.as_deref(), Some("center"));
        }
        _ => panic!("Expected subtitle segment"),
    }

    match &result.segments[1] {
        StorySegment::System { speaker, text } => {
            assert_eq!(speaker.as_deref(), Some("Sys"));
            assert_eq!(text, "请尽可能多地与其他组织建立良好关系");
        }
        _ => panic!("Expected system segment"),
    }
}

#[test]
fn test_parse_dialog_like_commands() {
    let content = r#"[Dialog(head="char_356_broca", delay=1)]橘子酱通心粉，我有点印象。
[VoiceWithin(head="npc_1028_texas2_1",delay=1)]把饭钱也给老板了，去别处走走吧。
[Narration]身处宪兵队的审讯室中，他的神情却出奇地平静。
[AnimText(id="at1")]<p=1>罗德岛医疗部</><p=2>1099年1月27日 11:38 A.M.</>
[Title] MAIN_LOG_102_1
[Div] Part.02
[avatarId="", isAvatarRight="FALSE"]警告：PRTS系统权限读写中......"#;

    let result = parse_story_text(content);
    assert_eq!(result.segments.len(), 7);

    match &result.segments[0] {
        StorySegment::Dialogue {
            character_name,
            text,
        } => {
            assert_eq!(character_name, "Broca");
            assert_eq!(text, "橘子酱通心粉，我有点印象。");
        }
        _ => panic!("Expected dialogue segment"),
    }

    match &result.segments[1] {
        StorySegment::Dialogue {
            character_name,
            text,
        } => {
            assert_eq!(character_name, "Texas2");
            assert!(text.contains("把饭钱也给老板了"));
        }
        _ => panic!("Expected dialogue segment"),
    }

    match &result.segments[2] {
        StorySegment::Narration { text } => {
            assert!(text.starts_with("身处宪兵队的审讯室"));
        }
        _ => panic!("Expected narration segment"),
    }

    match &result.segments[3] {
        StorySegment::Sticker { text, .. } => {
            assert!(text.contains("罗德岛医疗部"));
            assert!(text.contains("1099年1月27日"));
            assert!(text.contains("\n"));
        }
        _ => panic!("Expected sticker segment"),
    }

    match &result.segments[4] {
        StorySegment::Header { title } => {
            assert_eq!(title, "MAIN_LOG_102_1");
        }
        _ => panic!("Expected header segment"),
    }

    match &result.segments[5] {
        StorySegment::Subtitle { text, .. } => {
            assert_eq!(text, "Part.02");
        }
        _ => panic!("Expected subtitle segment"),
    }

    match &result.segments[6] {
        StorySegment::System { text, .. } => {
            assert!(text.contains("PRTS系统权限读写中"));
        }
        _ => panic!("Expected system segment"),
    }
}

#[test]
fn test_parse_header_and_narration() {
    let content = r#"[HEADER(key="title", is_skippable=true)] 节标题
这一段是旁白。"#;

    let result = parse_story_text(content);
    assert_eq!(result.segments.len(), 2);

    match &result.segments[0] {
        StorySegment::Header { title } => {
            assert_eq!(title, "节标题");
        }
        _ => panic!("Expected header segment"),
    }

    match &result.segments[1] {
        StorySegment::Narration { text } => {
            assert_eq!(text, "这一段是旁白。");
        }
        _ => panic!("Expected narration segment"),
    }
}

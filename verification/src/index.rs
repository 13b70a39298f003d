//! Index builder: flattens parsed segments back into plain text and turns
//! each story into one row of the full-text index. A row is produced only
//! when the tokenized content is non-empty, so entries with no extractable
//! text are never indexed. The schema generation number drives destructive
//! migration: a stored number below the current one means the index table
//! must be dropped and rebuilt before any insert.

use vstd::prelude::*;

use crate::models::{SegModel, StoryEntry, StorySegment};
use crate::normalize::{normalize, normalize_spec};
use crate::strutil::{
    chars_vec, join_chars_str, join_with_str, str_eq, str_owned, string_from_chars, trim_chars,
    trim_spec,
};
use crate::tokenize::{build_tokenized_content, join_tokens, tokens_of};

verus! {

/// The current schema generation of the full-text index.
pub const INDEX_VERSION: i32 = 2;

/// Whether a stored schema generation requires the destructive rebuild of
/// the index table: any stored value below the current generation does,
/// and so does an absent or unreadable one.
pub open spec fn needs_migration_spec(stored: Option<i32>) -> bool {
    match stored {
        Some(v) => v < INDEX_VERSION,
        None => true,
    }
}

pub fn needs_migration(stored: Option<i32>) -> (r: bool)
    ensures
        r == needs_migration_spec(stored),
{
    match stored {
        Some(v) => v < INDEX_VERSION,
        None => true,
    }
}

/// The plain text of one segment: dialogue as `speaker：text`, decision
/// options joined with ` / `, every other variant its own text.
pub open spec fn seg_text(m: SegModel) -> Seq<char> {
    match m {
        SegModel::Dialogue { character_name, text } => character_name + seq!['：'] + text,
        SegModel::Narration { text } => text,
        SegModel::System { speaker, text } => text,
        SegModel::Subtitle { text, alignment } => text,
        SegModel::Sticker { text, alignment } => text,
        SegModel::Decision { options } => join_with_str(options, " / "@),
        SegModel::Header { title } => title,
    }
}

/// What `flatten_segments` computes: the segment texts joined by newlines.
pub open spec fn flatten_spec(ms: Seq<SegModel>) -> Seq<char> {
    join_with_str(ms.map_values(|m: SegModel| seg_text(m)), seq!['\n'])
}

/// Converts an ordered sequence of segments back into one plain-text blob
/// for indexing and snippet extraction.
pub fn flatten_segments(segments: &Vec<StorySegment>) -> (r: String)
    ensures
        r@ == flatten_spec(segments@.map_values(|s: StorySegment| s@)),
{
    let ghost ms = segments@.map_values(|s: StorySegment| s@);
    let sep = chars_vec(" / ");
    proof {
        reveal_strlit(" / ");
    }
    let mut parts: Vec<Vec<char>> = Vec::new();
    let mut k: usize = 0;
    proof {
        assert(ms.take(0) =~= Seq::<SegModel>::empty());
        assert(parts@.map_values(|p: Vec<char>| p@) =~= ms.take(0).map_values(
            |m: SegModel| seg_text(m),
        ));
    }
    while k < segments.len()
        invariant
            0 <= k <= segments@.len(),
            ms == segments@.map_values(|s: StorySegment| s@),
            sep@ == " / "@,
            parts@.map_values(|p: Vec<char>| p@) == ms.take(k as int).map_values(
                |m: SegModel| seg_text(m),
            ),
        decreases segments.len() - k,
    {
        let ghost old_parts = parts@;
        let piece: Vec<char> = match &segments[k] {
            StorySegment::Dialogue { character_name, text } => {
                let mut p = chars_vec(character_name.as_str());
                p.push('：');
                let tc = chars_vec(text.as_str());
                crate::strutil::push_all(&mut p, &tc);
                p
            },
            StorySegment::Narration { text } => chars_vec(text.as_str()),
            StorySegment::System { speaker, text } => chars_vec(text.as_str()),
            StorySegment::Subtitle { text, alignment } => chars_vec(text.as_str()),
            StorySegment::Sticker { text, alignment } => chars_vec(text.as_str()),
            StorySegment::Decision { options } => {
                let mut ovs: Vec<Vec<char>> = Vec::new();
                let mut j: usize = 0;
                proof {
                    assert(options@.map_values(|t: String| t@).take(0) =~= Seq::<
                        Seq<char>,
                    >::empty());
                    assert(ovs@.map_values(|p: Vec<char>| p@) =~= Seq::<Seq<char>>::empty());
                }
                while j < options.len()
                    invariant
                        0 <= j <= options@.len(),
                        ovs@.map_values(|p: Vec<char>| p@) == options@.map_values(
                            |t: String| t@,
                        ).take(j as int),
                    decreases options.len() - j,
                {
                    let ghost old_ovs = ovs@;
                    let ov = chars_vec(options[j].as_str());
                    ovs.push(ov);
                    proof {
                        assert(ovs@.map_values(|p: Vec<char>| p@) =~= old_ovs.map_values(
                            |p: Vec<char>| p@,
                        ) + seq![options@[j as int]@]);
                        assert(old_ovs.map_values(|p: Vec<char>| p@) + seq![options@[j as int]@]
                            =~= options@.map_values(|t: String| t@).take(j + 1));
                    }
                    j = j + 1;
                }
                proof {
                    assert(options@.map_values(|t: String| t@).take(options@.len() as int)
                        =~= options@.map_values(|t: String| t@));
                }
                join_chars_str(&ovs, &sep)
            },
            StorySegment::Header { title } => chars_vec(title.as_str()),
        };
        proof {
            assert(piece@ == seg_text(ms[k as int]));
        }
        parts.push(piece);
        proof {
            assert(parts@.map_values(|p: Vec<char>| p@) =~= old_parts.map_values(
                |p: Vec<char>| p@,
            ) + seq![seg_text(ms[k as int])]);
            assert(ms.take(k + 1).map_values(|m: SegModel| seg_text(m)) =~= ms.take(
                k as int,
            ).map_values(|m: SegModel| seg_text(m)) + seq![seg_text(ms[k as int])]);
        }
        k = k + 1;
    }
    proof {
        assert(ms.take(ms.len() as int) =~= ms);
    }
    let nl: Vec<char> = {
        let mut v: Vec<char> = Vec::new();
        v.push('\n');
        v
    };
    proof {
        assert(nl@ =~= seq!['\n']);
    }
    let joined = join_chars_str(&parts, &nl);
    string_from_chars(&joined)
}

/// The display name of an entry type.
pub open spec fn entry_type_display_spec(et: Seq<char>) -> Seq<char> {
    if et == "MAINLINE"@ {
        "主线"@
    } else if et == "ACTIVITY"@ || et == "MINI_ACTIVITY"@ {
        "活动"@
    } else if et == "ROGUELIKE"@ {
        "肉鸽"@
    } else if et == "SIDESTORY"@ {
        "支线"@
    } else if et == "NONE"@ {
        "干员密录"@
    } else if et == "RECORD"@ {
        "主线笔记"@
    } else if et == "RUNE"@ {
        "危机合约"@
    } else {
        et
    }
}

pub fn entry_type_display(entry_type: &str) -> (r: String)
    ensures
        r@ == entry_type_display_spec(entry_type@),
{
    if str_eq(entry_type, "MAINLINE") {
        str_owned("主线")
    } else if str_eq(entry_type, "ACTIVITY") || str_eq(entry_type, "MINI_ACTIVITY") {
        str_owned("活动")
    } else if str_eq(entry_type, "ROGUELIKE") {
        str_owned("肉鸽")
    } else if str_eq(entry_type, "SIDESTORY") {
        str_owned("支线")
    } else if str_eq(entry_type, "NONE") {
        str_owned("干员密录")
    } else if str_eq(entry_type, "RECORD") {
        str_owned("主线笔记")
    } else if str_eq(entry_type, "RUNE") {
        str_owned("危机合约")
    } else {
        str_owned(entry_type)
    }
}

/// The category label shown with a search result: the entry type's display
/// name, joined with the category name unless it is blank or repeats it.
pub open spec fn category_label_spec(et: Seq<char>, category_name: Seq<char>) -> Seq<char> {
    let prefix = entry_type_display_spec(et);
    let name = trim_spec(category_name);
    if name.len() == 0 || name == prefix {
        prefix
    } else {
        prefix + " | "@ + name
    }
}

pub fn format_category_label(entry_type: &str, category_name: &str) -> (r: String)
    ensures
        r@ == category_label_spec(entry_type@, category_name@),
{
    let prefix = entry_type_display(entry_type);
    let cn = chars_vec(category_name);
    let name = trim_chars(&cn);
    let prefix_chars = chars_vec(prefix.as_str());
    if name.len() == 0 || crate::strutil::chars_eq(&name, &prefix_chars) {
        prefix
    } else {
        let mut out = chars_vec(prefix.as_str());
        let mid = chars_vec(" | ");
        crate::strutil::push_all(&mut out, &mid);
        crate::strutil::push_all(&mut out, &name);
        proof {
            assert(out@ =~= entry_type_display_spec(entry_type@) + " | "@ + trim_spec(
                category_name@,
            ));
        }
        string_from_chars(&out)
    }
}

/// One persisted row of the full-text index.
#[derive(Debug, Clone)]
pub struct IndexRow {
    pub story_id: String,
    pub story_name: String,
    pub category: String,
    pub tokenized_content: String,
    pub story_code: String,
    pub raw_content: String,
}

/// The raw text indexed for a story: its name, with the flattened parsed
/// content below it when that is not blank.
pub open spec fn combined_raw_spec(name: Seq<char>, content: Seq<char>) -> Seq<char> {
    let flattened = flatten_spec(crate::parser::parse_spec(content));
    if trim_spec(flattened).len() == 0 {
        name
    } else {
        name + seq!['\n'] + flattened
    }
}

/// The searchable token string of a story's combined raw text.
pub open spec fn tokenized_of(name: Seq<char>, content: Seq<char>) -> Seq<char> {
    join_tokens(tokens_of(combined_raw_spec(name, content)))
}

/// Builds the index row for one story, given its script text; none when
/// the tokenized content is blank (no extractable text).
pub fn build_index_row(
    story: &StoryEntry,
    category_label: &str,
    content: &str,
) -> (r: Option<IndexRow>)
    ensures
        trim_spec(tokenized_of(story.story_name@, content@)).len() == 0 <==> r is None,
        match r {
            Some(row) => {
                &&& row.story_id@ == story.story_id@
                &&& row.story_name@ == story.story_name@
                &&& row.category@ == category_label@
                &&& row.tokenized_content@ == tokenized_of(story.story_name@, content@)
                &&& row.story_code@ == match story.story_code {
                    Some(ref c) => normalize_spec(c@),
                    None => Seq::<char>::empty(),
                }
                &&& row.raw_content@ == combined_raw_spec(story.story_name@, content@)
            },
            None => true,
        },
{
    let parsed = crate::parser::parse_story_text(content);
    let flattened = flatten_segments(&parsed.segments);
    let fc = chars_vec(flattened.as_str());
    let ft = trim_chars(&fc);
    let combined: Vec<char> = if ft.len() == 0 {
        chars_vec(story.story_name.as_str())
    } else {
        let mut c = chars_vec(story.story_name.as_str());
        c.push('\n');
        crate::strutil::push_all(&mut c, &fc);
        proof {
            assert(c@ =~= story.story_name@ + seq!['\n'] + flatten_spec(
                crate::parser::parse_spec(content@),
            ));
        }
        c
    };
    let combined_s = string_from_chars(&combined);
    let tokenized = build_tokenized_content(combined_s.as_str());
    let tc = chars_vec(tokenized.as_str());
    let tt = trim_chars(&tc);
    if tt.len() == 0 {
        return None;
    }
    let code = match &story.story_code {
        Some(c) => normalize(c.as_str()),
        None => String::new(),
    };
    proof {
        match story.story_code {
            Some(ref c) => {},
            None => {
                assert(code@ =~= Seq::<char>::empty());
            },
        }
    }
    Some(
        IndexRow {
            story_id: str_owned(story.story_id.as_str()),
            story_name: str_owned(story.story_name.as_str()),
            category: str_owned(category_label),
            tokenized_content: tokenized,
            story_code: code,
            raw_content: combined_s,
        },
    )
}

} // verus!
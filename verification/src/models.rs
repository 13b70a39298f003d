//! Data model: narrative segments, story metadata records, search results,
//! and the view-model records the application projects per entity.

use vstd::prelude::*;

verus! {

/// One structured unit of parsed narrative content. Order within a parsed
/// document is reading order and is preserved.
#[derive(Debug, Clone)]
pub enum StorySegment {
    Dialogue { character_name: String, text: String },
    Narration { text: String },
    Decision { options: Vec<String> },
    System { speaker: Option<String>, text: String },
    Subtitle { text: String, alignment: Option<String> },
    Sticker { text: String, alignment: Option<String> },
    Header { title: String },
}

/// The mathematical model of a segment: the same shape over `Seq<char>`.
pub enum SegModel {
    Dialogue { character_name: Seq<char>, text: Seq<char> },
    Narration { text: Seq<char> },
    Decision { options: Seq<Seq<char>> },
    System { speaker: Option<Seq<char>>, text: Seq<char> },
    Subtitle { text: Seq<char>, alignment: Option<Seq<char>> },
    Sticker { text: Seq<char>, alignment: Option<Seq<char>> },
    Header { title: Seq<char> },
}

pub open spec fn opt_view(o: Option<String>) -> Option<Seq<char>> {
    match o {
        Some(s) => Some(s@),
        None => None,
    }
}

impl View for StorySegment {
    type V = SegModel;

    open spec fn view(&self) -> SegModel {
        match self {
            StorySegment::Dialogue { character_name, text } => SegModel::Dialogue {
                character_name: character_name@,
                text: text@,
            },
            StorySegment::Narration { text } => SegModel::Narration { text: text@ },
            StorySegment::Decision { options } => SegModel::Decision {
                options: options@.map_values(|t: String| t@),
            },
            StorySegment::System { speaker, text } => SegModel::System {
                speaker: opt_view(*speaker),
                text: text@,
            },
            StorySegment::Subtitle { text, alignment } => SegModel::Subtitle {
                text: text@,
                alignment: opt_view(*alignment),
            },
            StorySegment::Sticker { text, alignment } => SegModel::Sticker {
                text: text@,
                alignment: opt_view(*alignment),
            },
            StorySegment::Header { title } => SegModel::Header { title: title@ },
        }
    }
}

/// An ordered sequence of segments, owned by the parse call.
#[derive(Debug, Clone)]
pub struct ParsedStoryContent {
    pub segments: Vec<StorySegment>,
}

impl View for ParsedStoryContent {
    type V = Seq<SegModel>;

    open spec fn view(&self) -> Seq<SegModel> {
        self.segments@.map_values(|s: StorySegment| s@)
    }
}

/// Metadata record for one story.
#[derive(Debug, Clone)]
pub struct StoryEntry {
    pub story_id: String,
    pub story_name: String,
    pub story_code: Option<String>,
    pub story_group: String,
    pub story_sort: i32,
    pub avg_tag: Option<String>,
    pub story_txt: String,
    pub story_info: Option<String>,
    pub story_review_type: String,
    pub unlock_type: String,
    pub story_dependence: Option<String>,
    pub story_can_show: Option<i32>,
    pub story_can_enter: Option<i32>,
    pub stage_count: Option<i32>,
    pub required_stages: Option<Vec<RequiredStage>>,
    pub cost_item_type: Option<String>,
    pub cost_item_id: Option<String>,
    pub cost_item_count: Option<i32>,
}

#[derive(Debug, Clone)]
pub struct RequiredStage {
    pub stage_id: String,
    pub min_state: String,
    pub max_state: String,
}

#[derive(Debug, Clone)]
pub struct Chapter {
    pub chapter_id: String,
    pub chapter_name: String,
    pub chapter_name2: String,
    pub chapter_index: i32,
    pub preposed_chapter_id: Option<String>,
    pub start_zone_id: String,
    pub end_zone_id: String,
    pub chapter_end_stage_id: String,
}

#[derive(Debug, Clone)]
pub struct Activity {
    pub id: String,
    pub name: String,
    pub entry_type: String,
    pub act_type: String,
    pub start_time: i64,
    pub end_time: i64,
    pub info_unlock_datas: Vec<StoryEntry>,
}

#[derive(Debug, Clone)]
pub struct StoryCategory {
    pub id: String,
    pub name: String,
    pub category_type: String,
    pub stories: Vec<StoryEntry>,
}

/// One ranked search hit; produced transiently per query, not persisted.
#[derive(Debug, Clone)]
pub struct SearchResult {
    pub story_id: String,
    pub story_name: String,
    pub matched_text: String,
    pub category: String,
}

#[derive(Debug, Clone)]
pub struct SearchDebugResponse {
    pub results: Vec<SearchResult>,
    pub logs: Vec<String>,
}

#[derive(Debug, Clone)]
pub struct StoryIndexStatus {
    pub ready: bool,
    pub total: usize,
    pub last_built_at: Option<i64>,
}

/// One incremental notification during a fallback scan.
#[derive(Debug, Clone)]
pub struct SearchProgress {
    pub phase: String,
    pub current: usize,
    pub total: usize,
    pub message: String,
}

/// The locally recorded content version: a commit id and when it was fetched.
#[derive(Debug, Clone)]
pub struct VersionInfo {
    pub commit: String,
    pub fetched_at: i64,
}

/// The unit the index builder consumes: a story entry together with the
/// category it is displayed under.
#[derive(Debug, Clone)]
pub struct IndexedStory {
    pub category_name: String,
    pub entry_type: String,
    pub story: StoryEntry,
}

#[derive(Debug, Clone)]
pub struct CharacterHandbook {
    pub char_id: String,
    pub char_name: String,
    pub rarity: i32,
    pub profession: String,
    pub sub_profession: Option<String>,
    pub story_sections: Vec<HandbookStorySection>,
}

#[derive(Debug, Clone)]
pub struct HandbookStorySection {
    pub story_title: String,
    pub stories: Vec<HandbookStory>,
}

#[derive(Debug, Clone)]
pub struct HandbookStory {
    pub story_text: String,
    pub unlock_type: String,
    pub unlock_param: String,
}

#[derive(Debug, Clone)]
pub struct CharacterVoice {
    pub char_id: String,
    pub char_name: String,
    pub voices: Vec<VoiceLine>,
}

#[derive(Debug, Clone)]
pub struct VoiceLine {
    pub voice_id: String,
    pub voice_title: String,
    pub voice_text: String,
    pub voice_index: i32,
    pub unlock_type: String,
}

#[derive(Debug, Clone)]
pub struct CharacterBasicInfo {
    pub char_id: String,
    pub name: String,
    pub appellation: String,
    pub rarity: i32,
    pub profession: String,
    pub sub_profession_id: String,
    pub sub_profession_name: Option<String>,
    pub position: String,
    pub nation_id: Option<String>,
    pub group_id: Option<String>,
    pub team_id: Option<String>,
    pub item_desc: Option<String>,
    pub item_usage: Option<String>,
    pub description: Option<String>,
    pub tag_list: Vec<String>,
}

#[derive(Debug, Clone)]
pub struct CharacterEquipment {
    pub char_id: String,
    pub char_name: String,
    pub equipments: Vec<EquipmentInfo>,
}

#[derive(Debug, Clone)]
pub struct EquipmentInfo {
    pub equip_id: String,
    pub equip_name: String,
    pub equip_desc: String,
    pub equip_shining_color: Option<String>,
    pub equip_type_name: String,
}

#[derive(Debug, Clone)]
pub struct CharacterPotentialToken {
    pub char_id: String,
    pub char_name: String,
    pub item_id: String,
    pub token_name: String,
    pub token_desc: String,
    pub token_usage: String,
    pub rarity: String,
    pub obtain_approach: String,
}

#[derive(Debug, Clone)]
pub struct CharacterTalents {
    pub char_id: String,
    pub char_name: String,
    pub talents: Vec<TalentInfo>,
}

#[derive(Debug, Clone)]
pub struct TalentInfo {
    pub talent_index: i32,
    pub candidates: Vec<TalentCandidate>,
}

#[derive(Debug, Clone)]
pub struct TalentCandidate {
    pub unlock_condition: TalentUnlockCondition,
    pub name: String,
    pub description: Option<String>,
    pub range_description: Option<String>,
}

#[derive(Debug, Clone)]
pub struct TalentUnlockCondition {
    pub phase: String,
    pub level: i32,
}

#[derive(Debug, Clone)]
pub struct CharacterTrait {
    pub char_id: String,
    pub char_name: String,
    pub trait_info: Option<TraitInfo>,
}

#[derive(Debug, Clone)]
pub struct TraitInfo {
    pub candidates: Vec<TraitCandidate>,
}

#[derive(Debug, Clone)]
pub struct TraitCandidate {
    pub unlock_condition: TraitUnlockCondition,
    pub override_descripton: Option<String>,
}

#[derive(Debug, Clone)]
pub struct TraitUnlockCondition {
    pub phase: String,
    pub level: i32,
}

#[derive(Debug, Clone)]
pub struct CharacterPotentialRanks {
    pub char_id: String,
    pub char_name: String,
    pub potential_ranks: Vec<PotentialRank>,
}

#[derive(Debug, Clone)]
pub struct PotentialRank {
    pub rank: i32,
    pub description: String,
}

#[derive(Debug, Clone)]
pub struct SkillSPData {
    pub sp_type: String,
    pub sp_cost: i32,
    pub init_sp: i32,
}

#[derive(Debug, Clone)]
pub struct CharacterSkins {
    pub char_id: String,
    pub char_name: String,
    pub skins: Vec<SkinInfo>,
}

#[derive(Debug, Clone)]
pub struct SkinInfo {
    pub skin_id: String,
    pub skin_name: Option<String>,
    pub illust_id: Option<String>,
    pub avatar_id: String,
    pub portrait_id: Option<String>,
    pub is_buy_skin: bool,
    pub skin_group_name: Option<String>,
    pub content: Option<String>,
    pub dialog: Option<String>,
    pub usage: Option<String>,
    pub description: Option<String>,
    pub obtain_approach: Option<String>,
    pub drawer_list: Vec<String>,
}

#[derive(Debug, Clone)]
pub struct SubProfessionInfo {
    pub sub_profession_id: String,
    pub sub_profession_name: String,
    pub sub_profession_catagory: i32,
}

#[derive(Debug, Clone)]
pub struct TeamPowerInfo {
    pub power_id: String,
    pub power_name: String,
    pub power_code: String,
    pub color: String,
    pub is_limited: bool,
}

#[derive(Debug, Clone)]
pub struct CharacterBuildingSkills {
    pub char_id: String,
    pub char_name: String,
    pub building_skills: Vec<BuildingSkillInfo>,
}

#[derive(Debug, Clone)]
pub struct BuildingSkillInfo {
    pub buff_id: String,
    pub buff_name: String,
    pub description: String,
    pub room_type: String,
    pub unlock_condition: BuildingSkillUnlockCondition,
}

#[derive(Debug, Clone)]
pub struct BuildingSkillUnlockCondition {
    pub phase: String,
    pub level: i32,
}

} // verus!

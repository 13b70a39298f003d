//! Search orchestration. The service holds what the enclosing application
//! read from disk: whether content is installed and the corpus of stories
//! with their script texts. The index path runs outside (the compiled
//! query is executed by the full-text engine); its ranked results are
//! handed in and merged here with the always-run linear fallback scan:
//! index order first, de-duplicated by story id, capped at the result
//! limit.

use vstd::prelude::*;

use crate::index::category_label_spec;
use crate::models::{SearchDebugResponse, SearchResult, StoryEntry, StoryIndexStatus};
use crate::normalize::{normalize, normalize_spec};
use crate::snippet::{extract_context, extract_context_spec, find_sub, find_subseq};
use crate::strutil::{
    chars_vec, dec_spec, parse_i64, parse_i64_spec, push_all, str_owned, string_from_chars,
    trim_chars, trim_spec, u64_to_chars,
};

verus! {

/// The most results a query may return.
pub const SEARCH_RESULT_LIMIT: usize = 500;

/// One story as the search engine sees it: its metadata, the category it
/// is displayed under, and its script text (`None` when reading failed;
/// such a story can still match by name).
pub struct CorpusStory {
    pub category_name: String,
    pub entry_type: String,
    pub story: StoryEntry,
    pub content: Option<String>,
}

/// The mathematical model of a search result.
pub struct SRModel {
    pub story_id: Seq<char>,
    pub story_name: Seq<char>,
    pub matched_text: Seq<char>,
    pub category: Seq<char>,
}

pub open spec fn sr_model(r: SearchResult) -> SRModel {
    SRModel {
        story_id: r.story_id@,
        story_name: r.story_name@,
        matched_text: r.matched_text@,
        category: r.category@,
    }
}

pub open spec fn srs_model(rs: Seq<SearchResult>) -> Seq<SRModel> {
    rs.map_values(|r: SearchResult| sr_model(r))
}

/// How one story matches a normalized query in the fallback scan: by its
/// normalized name (the match text is the name itself), else by its
/// normalized content (the match text is the context snippet).
pub open spec fn match_story_spec(c: CorpusStory, qn: Seq<char>) -> Option<SRModel> {
    let label = category_label_spec(c.entry_type@, c.category_name@);
    if find_sub(normalize_spec(c.story.story_name@), qn) is Some {
        Some(
            SRModel {
                story_id: c.story.story_id@,
                story_name: c.story.story_name@,
                matched_text: c.story.story_name@,
                category: label,
            },
        )
    } else {
        match c.content {
            Some(ct) => if find_sub(normalize_spec(ct@), qn) is Some {
                Some(
                    SRModel {
                        story_id: c.story.story_id@,
                        story_name: c.story.story_name@,
                        matched_text: extract_context_spec(ct@, qn),
                        category: label,
                    },
                )
            } else {
                None
            },
            None => None,
        }
    }
}

/// Matches one story of the corpus against an already-normalized query.
pub fn match_story(c: &CorpusStory, query_norm: &str) -> (r: Option<SearchResult>)
    ensures
        match r {
            Some(sr) => match_story_spec(*c, query_norm@) == Some(sr_model(sr)),
            None => match_story_spec(*c, query_norm@) is None,
        },
{
    let label = crate::index::format_category_label(
        c.entry_type.as_str(),
        c.category_name.as_str(),
    );
    let qn = chars_vec(query_norm);
    let name_norm = normalize(c.story.story_name.as_str());
    let nn = chars_vec(name_norm.as_str());
    if find_subseq(&nn, &qn).is_some() {
        return Some(
            SearchResult {
                story_id: str_owned(c.story.story_id.as_str()),
                story_name: str_owned(c.story.story_name.as_str()),
                matched_text: str_owned(c.story.story_name.as_str()),
                category: label,
            },
        );
    }
    match &c.content {
        Some(ct) => {
            let cn = normalize(ct.as_str());
            let cc = chars_vec(cn.as_str());
            if find_subseq(&cc, &qn).is_some() {
                let snip = extract_context(ct.as_str(), query_norm);
                Some(
                    SearchResult {
                        story_id: str_owned(c.story.story_id.as_str()),
                        story_name: str_owned(c.story.story_name.as_str()),
                        matched_text: snip,
                        category: label,
                    },
                )
            } else {
                None
            }
        },
        None => None,
    }
}

/// The fallback scan over the corpus in order, stopping once `room`
/// results have been produced.
pub open spec fn fallback_spec(cs: Seq<CorpusStory>, qn: Seq<char>, room: int) -> Seq<SRModel>
    decreases cs.len(),
{
    if cs.len() == 0 || room <= 0 {
        Seq::empty()
    } else {
        match match_story_spec(cs[0], qn) {
            Some(r) => seq![r] + fallback_spec(cs.drop_first(), qn, room - 1),
            None => fallback_spec(cs.drop_first(), qn, room),
        }
    }
}

/// Whether some result in the list carries this story id.
pub open spec fn has_id(rs: Seq<SRModel>, id: Seq<char>) -> bool {
    exists|i: int| 0 <= i < rs.len() && (#[trigger] rs[i]).story_id == id
}

/// Appends `fb` to `acc` in order, skipping ids already present and
/// stopping at the cap.
pub open spec fn merge_spec(acc: Seq<SRModel>, fb: Seq<SRModel>, cap: int) -> Seq<SRModel>
    decreases fb.len(),
{
    if fb.len() == 0 || acc.len() >= cap {
        acc
    } else if has_id(acc, fb[0].story_id) {
        merge_spec(acc, fb.drop_first(), cap)
    } else {
        merge_spec(acc.push(fb[0]), fb.drop_first(), cap)
    }
}

/// The merged result list: index results first (in rank order,
/// de-duplicated), then unseen fallback results, capped.
pub open spec fn merged_results_spec(idx: Seq<SRModel>, fb: Seq<SRModel>, cap: int) -> Seq<
    SRModel,
> {
    merge_spec(merge_spec(Seq::empty(), idx, cap), fb, cap)
}

fn contains_id(out: &Vec<SearchResult>, id: &String) -> (r: bool)
    ensures
        r == has_id(srs_model(out@), id@),
{
    let mut k: usize = 0;
    while k < out.len()
        invariant
            0 <= k <= out@.len(),
            forall|j: int| 0 <= j < k ==> (#[trigger] srs_model(out@)[j]).story_id != id@,
        decreases out.len() - k,
    {
        if out[k].story_id == *id {
            proof {
                assert(srs_model(out@)[k as int].story_id == id@);
            }
            return true;
        }
        proof {
            assert(srs_model(out@)[k as int].story_id != id@);
        }
        k = k + 1;
    }
    false
}

fn clone_result(r: &SearchResult) -> (c: SearchResult)
    ensures
        sr_model(c) == sr_model(*r),
{
    SearchResult {
        story_id: str_owned(r.story_id.as_str()),
        story_name: str_owned(r.story_name.as_str()),
        matched_text: str_owned(r.matched_text.as_str()),
        category: str_owned(r.category.as_str()),
    }
}

/// Appends the unseen results of `src` to `out`, up to the cap.
fn append_unique(out: &mut Vec<SearchResult>, src: &Vec<SearchResult>)
    ensures
        srs_model(final(out)@) == merge_spec(
            srs_model(old(out)@),
            srs_model(src@),
            SEARCH_RESULT_LIMIT as int,
        ),
{
    let ghost sm = srs_model(src@);
    let mut j: usize = 0;
    proof {
        assert(sm.skip(0) =~= sm);
    }
    while j < src.len()
        invariant
            0 <= j <= src@.len(),
            sm == srs_model(src@),
            merge_spec(srs_model(old(out)@), sm, SEARCH_RESULT_LIMIT as int) == merge_spec(
                srs_model(out@),
                sm.skip(j as int),
                SEARCH_RESULT_LIMIT as int,
            ),
        decreases src.len() - j,
    {
        let ghost old_model = srs_model(out@);
        proof {
            assert(sm.skip(j as int)[0] == sm[j as int]);
            assert(sm.skip(j as int).drop_first() =~= sm.skip(j + 1));
        }
        if out.len() >= SEARCH_RESULT_LIMIT {
            proof {
                assert(merge_spec(srs_model(out@), sm.skip(j as int), SEARCH_RESULT_LIMIT as int)
                    == srs_model(out@));
                assert(merge_spec(srs_model(out@), sm.skip(src@.len() as int),
                SEARCH_RESULT_LIMIT as int) == srs_model(out@));
            }
            j = src.len();
        } else {
            if !contains_id(out, &src[j].story_id) {
                let copied = clone_result(&src[j]);
                let ghost cm = sr_model(copied);
                out.push(copied);
                proof {
                    assert(srs_model(out@) =~= old_model.push(cm));
                    assert(cm == sm[j as int]);
                }
            }
            j = j + 1;
        }
    }
    proof {
        assert(sm.skip(src@.len() as int) =~= Seq::<SRModel>::empty());
    }
}

/// Merges ranked index results with fallback-scan results: index rank is
/// preferred, each story id appears once, and the list is capped.
pub fn merge_results(idx: &Vec<SearchResult>, fb: &Vec<SearchResult>) -> (r: Vec<SearchResult>)
    ensures
        srs_model(r@) == merged_results_spec(
            srs_model(idx@),
            srs_model(fb@),
            SEARCH_RESULT_LIMIT as int,
        ),
{
    let mut out: Vec<SearchResult> = Vec::new();
    proof {
        assert(srs_model(out@) =~= Seq::<SRModel>::empty());
    }
    append_unique(&mut out, idx);
    append_unique(&mut out, fb);
    out
}

/// The verified core of the story search service. The application reads
/// the content directory and the index database; the service decides.
pub struct DataService {
    pub installed: bool,
    pub corpus: Vec<CorpusStory>,
}

/// The first corpus index carrying this story id, if any.
pub open spec fn find_story(cs: Seq<CorpusStory>, id: Seq<char>) -> Option<int>
    decreases cs.len(),
{
    if cs.len() == 0 {
        None
    } else if cs[0].story.story_id@ == id {
        Some(0int)
    } else {
        match find_story(cs.drop_first(), id) {
            Some(i) => Some(i + 1),
            None => None,
        }
    }
}

impl DataService {
    /// A service over what the application loaded.
    pub fn new(installed: bool, corpus: Vec<CorpusStory>) -> (r: DataService)
        ensures
            r.installed == installed,
            r.corpus@ == corpus@,
    {
        DataService { installed, corpus }
    }

    /// Whether the content the service needs has been installed.
    pub fn is_installed(&self) -> (r: bool)
        ensures
            r == self.installed,
    {
        self.installed
    }

    /// The linear fallback scan: a guaranteed-correct substring search
    /// over every story, stopping at the result cap. Requires installed
    /// content; the not-installed condition is its own error, never a
    /// generic failure.
    pub fn search_stories_fallback(&self, query: &str) -> (r: Result<Vec<SearchResult>, String>)
        ensures
            match r {
                Ok(rs) => self.installed && srs_model(rs@) == fallback_spec(
                    self.corpus@,
                    normalize_spec(query@),
                    SEARCH_RESULT_LIMIT as int,
                ),
                Err(e) => !self.installed && e@ == "NOT_INSTALLED"@,
            },
    {
        if !self.installed {
            return Err(str_owned("NOT_INSTALLED"));
        }
        let qn = normalize(query);
        let n = self.corpus.len();
        let mut results: Vec<SearchResult> = Vec::new();
        let mut i: usize = 0;
        let ghost q = normalize_spec(query@);
        proof {
            assert(self.corpus@.skip(0) =~= self.corpus@);
            assert(srs_model(results@) =~= Seq::<SRModel>::empty());
            assert(srs_model(results@) + fallback_spec(
                self.corpus@,
                q,
                SEARCH_RESULT_LIMIT as int,
            ) =~= fallback_spec(self.corpus@, q, SEARCH_RESULT_LIMIT as int));
        }
        while i < n && results.len() < SEARCH_RESULT_LIMIT
            invariant
                0 <= i <= n,
                n == self.corpus@.len(),
                qn@ == q,
                q == normalize_spec(query@),
                results@.len() <= SEARCH_RESULT_LIMIT,
                fallback_spec(self.corpus@, q, SEARCH_RESULT_LIMIT as int) == srs_model(
                    results@,
                ) + fallback_spec(
                    self.corpus@.skip(i as int),
                    q,
                    SEARCH_RESULT_LIMIT - results@.len(),
                ),
            decreases n - i,
        {
            let ghost old_model = srs_model(results@);
            proof {
                assert(self.corpus@.skip(i as int)[0] == self.corpus@[i as int]);
                assert(self.corpus@.skip(i as int).drop_first() =~= self.corpus@.skip(i + 1));
            }
            match match_story(&self.corpus[i], qn.as_str()) {
                Some(sr) => {
                    let ghost srm = sr_model(sr);
                    results.push(sr);
                    proof {
                        assert(srs_model(results@) =~= old_model.push(srm));
                        assert(old_model.push(srm) =~= old_model + seq![srm]);
                        assert(old_model + (seq![srm] + fallback_spec(
                            self.corpus@.skip(i + 1),
                            q,
                            SEARCH_RESULT_LIMIT - results@.len(),
                        )) =~= srs_model(results@) + fallback_spec(
                            self.corpus@.skip(i + 1),
                            q,
                            SEARCH_RESULT_LIMIT - results@.len(),
                        ));
                    }
                },
                None => {},
            }
            i = i + 1;
        }
        proof {
            if i == n {
                assert(self.corpus@.skip(n as int) =~= Seq::<CorpusStory>::empty());
            }
            assert(srs_model(results@) + Seq::<SRModel>::empty() =~= srs_model(results@));
        }
        Ok(results)
    }

    /// Hybrid search: the ranked index-path results (if the index was
    /// available) merged with the fallback scan, de-duplicated by story
    /// id with index rank preferred, capped. An empty query returns an
    /// empty list; a query over uninstalled content reports not-installed.
    pub fn search_stories(
        &self,
        query: &str,
        index_results: Option<Vec<SearchResult>>,
    ) -> (r: Result<Vec<SearchResult>, String>)
        ensures
            match r {
                Ok(rs) => {
                    if trim_spec(query@).len() == 0 {
                        srs_model(rs@) == Seq::<SRModel>::empty()
                    } else {
                        self.installed && srs_model(rs@) == merged_results_spec(
                            match index_results {
                                Some(ref v) => srs_model(v@),
                                None => Seq::empty(),
                            },
                            fallback_spec(
                                self.corpus@,
                                normalize_spec(trim_spec(query@)),
                                SEARCH_RESULT_LIMIT as int,
                            ),
                            SEARCH_RESULT_LIMIT as int,
                        )
                    }
                },
                Err(e) => trim_spec(query@).len() > 0 && !self.installed && e@
                    == "NOT_INSTALLED"@,
            },
    {
        let qc = chars_vec(query);
        let trimmed = trim_chars(&qc);
        if trimmed.len() == 0 {
            let empty: Vec<SearchResult> = Vec::new();
            proof {
                assert(srs_model(empty@) =~= Seq::<SRModel>::empty());
            }
            return Ok(empty);
        }
        let ts = string_from_chars(&trimmed);
        let ghost idxm: Seq<SRModel> = match index_results {
            Some(ref v) => srs_model(v@),
            None => Seq::empty(),
        };
        let base: Vec<SearchResult> = match index_results {
            Some(v) => v,
            None => Vec::new(),
        };
        proof {
            assert(srs_model(base@) =~= idxm);
        }
        let fb = match self.search_stories_fallback(ts.as_str()) {
            Ok(rs) => rs,
            Err(e) => {
                return Err(e);
            },
        };
        Ok(merge_results(&base, &fb))
    }

    /// The first corpus entry with this story id.
    pub fn get_story_entry(&self, story_id: &str) -> (r: Result<StoryEntry, String>)
        ensures
            match r {
                Ok(e) => {
                    &&& self.installed
                    &&& find_story(self.corpus@, story_id@) is Some
                    &&& e.story_id@ == story_id@
                    &&& exists|i: int|
                        0 <= i < self.corpus@.len() && find_story(self.corpus@, story_id@)
                            == Some(i) && se_eq(e, (#[trigger] self.corpus@[i]).story)
                },
                Err(e) => {
                    if !self.installed {
                        e@ == "NOT_INSTALLED"@
                    } else {
                        find_story(self.corpus@, story_id@) is None && e@ == "Story "@
                            + story_id@ + " 不存在"@
                    }
                },
            },
    {
        if !self.installed {
            return Err(str_owned("NOT_INSTALLED"));
        }
        let n = self.corpus.len();
        let mut i: usize = 0;
        proof {
            assert(self.corpus@.skip(0) =~= self.corpus@);
        }
        while i < n
            invariant
                0 <= i <= n,
                n == self.corpus@.len(),
                self.installed,
                find_story(self.corpus@, story_id@) == match find_story(
                    self.corpus@.skip(i as int),
                    story_id@,
                ) {
                    Some(m) => Some(m + i),
                    None => None::<int>,
                },
                forall|j: int|
                    0 <= j < i ==> (#[trigger] self.corpus@[j]).story.story_id@ != story_id@,
            decreases n - i,
        {
            proof {
                assert(self.corpus@.skip(i as int)[0] == self.corpus@[i as int]);
                assert(self.corpus@.skip(i as int).drop_first() =~= self.corpus@.skip(i + 1));
            }
            if crate::strutil::str_eq(self.corpus[i].story.story_id.as_str(), story_id) {
                let e = clone_entry(&self.corpus[i].story);
                proof {
                    assert(find_story(self.corpus@.skip(i as int), story_id@) == Some(0int));
                    assert(find_story(self.corpus@, story_id@) == Some(i as int));
                    assert(se_eq(e, (self.corpus@[i as int]).story));
                    assert(exists|j: int|
                        0 <= j < self.corpus@.len() && find_story(self.corpus@, story_id@)
                            == Some(j) && se_eq(e, (#[trigger] self.corpus@[j]).story));
                }
                return Ok(e);
            }
            i = i + 1;
        }
        proof {
            assert(self.corpus@.skip(n as int) =~= Seq::<CorpusStory>::empty());
        }
        let mut msg = chars_vec("Story ");
        let idc = chars_vec(story_id);
        push_all(&mut msg, &idc);
        let tail = chars_vec(" 不存在");
        push_all(&mut msg, &tail);
        proof {
            assert(msg@ =~= "Story "@ + story_id@ + " 不存在"@);
        }
        Err(string_from_chars(&msg))
    }

    /// The index status derived from the stored row count and metadata:
    /// ready once any row exists; the build timestamp parsed from its
    /// stored text form.
    pub fn get_story_index_status(total: i64, last_built_at: Option<&String>) -> (r:
        StoryIndexStatus)
        ensures
            r.ready == (total > 0),
            r.total as int == if total <= 0 {
                0
            } else if total <= usize::MAX {
                total as int
            } else {
                usize::MAX as int
            },
            match last_built_at {
                Some(s) => match parse_i64_spec(s@) {
                    Some(v) => r.last_built_at == Some(v as i64),
                    None => r.last_built_at is None,
                },
                None => r.last_built_at is None,
            },
    {
        let parsed: Option<i64> = match last_built_at {
            Some(s) => {
                let sc = chars_vec(s.as_str());
                parse_i64(&sc)
            },
            None => None,
        };
        let tot: usize = if total > 0 {
            if (total as u64) <= (usize::MAX as u64) {
                total as u64 as usize
            } else {
                usize::MAX
            }
        } else {
            0
        };
        StoryIndexStatus { ready: total > 0, total: tot, last_built_at: parsed }
    }
}

/// No story id occurs twice in the list.
pub open spec fn unique_ids(rs: Seq<SRModel>) -> bool {
    forall|i: int, j: int|
        0 <= i < j < rs.len() ==> (#[trigger] rs[i]).story_id != (#[trigger] rs[j]).story_id
}

proof fn lemma_merge_prefix(acc: Seq<SRModel>, fb: Seq<SRModel>, cap: int)
    ensures
        merge_spec(acc, fb, cap).len() >= acc.len(),
        merge_spec(acc, fb, cap).take(acc.len() as int) == acc,
    decreases fb.len(),
{
    if fb.len() == 0 || acc.len() >= cap {
        assert(merge_spec(acc, fb, cap).take(acc.len() as int) =~= acc);
    } else if has_id(acc, fb[0].story_id) {
        lemma_merge_prefix(acc, fb.drop_first(), cap);
    } else {
        lemma_merge_prefix(acc.push(fb[0]), fb.drop_first(), cap);
        let m = merge_spec(acc.push(fb[0]), fb.drop_first(), cap);
        assert(m.take(acc.len() as int + 1) == acc.push(fb[0]));
        assert(m.take(acc.len() as int) =~= m.take(acc.len() as int + 1).take(acc.len() as int));
        assert(acc.push(fb[0]).take(acc.len() as int) =~= acc);
    }
}

/// Law: hybrid de-duplication. Merging fallback results into a result
/// list that carries no duplicate story ids yields a list that still
/// carries no duplicates, and keeps the original list as its prefix: a
/// story id matched by both paths appears exactly once, at its
/// index-path rank.
pub proof fn lemma_merge_dedup(acc: Seq<SRModel>, fb: Seq<SRModel>, cap: int)
    requires
        unique_ids(acc),
    ensures
        unique_ids(merge_spec(acc, fb, cap)),
        merge_spec(acc, fb, cap).take(acc.len() as int) == acc,
    decreases fb.len(),
{
    lemma_merge_prefix(acc, fb, cap);
    if fb.len() == 0 || acc.len() >= cap {
    } else if has_id(acc, fb[0].story_id) {
        lemma_merge_dedup(acc, fb.drop_first(), cap);
    } else {
        assert(forall|i: int|
            0 <= i < acc.len() ==> (#[trigger] acc[i]).story_id != fb[0].story_id);
        assert(forall|i: int|
            0 <= i < acc.len() ==> (#[trigger] acc.push(fb[0])[i]) == acc[i]);
        assert(unique_ids(acc.push(fb[0])));
        lemma_merge_dedup(acc.push(fb[0]), fb.drop_first(), cap);
    }
}

proof fn lemma_merge_keeps_members(acc: Seq<SRModel>, fb: Seq<SRModel>, cap: int, id: Seq<char>)
    requires
        has_id(acc, id),
    ensures
        has_id(merge_spec(acc, fb, cap), id),
    decreases fb.len(),
{
    if fb.len() == 0 || acc.len() >= cap {
    } else if has_id(acc, fb[0].story_id) {
        lemma_merge_keeps_members(acc, fb.drop_first(), cap, id);
    } else {
        let w = choose|i: int| 0 <= i < acc.len() && (#[trigger] acc[i]).story_id == id;
        assert(acc.push(fb[0])[w] == acc[w]);
        assert(has_id(acc.push(fb[0]), id));
        lemma_merge_keeps_members(acc.push(fb[0]), fb.drop_first(), cap, id);
    }
}

/// Law: cap enforcement. Merging never exceeds the cap; and the merged
/// list falls short of the cap only when every fallback story id made it
/// in — so when more matches are available than the cap admits, the
/// result holds exactly the cap.
pub proof fn lemma_merge_cap(acc: Seq<SRModel>, fb: Seq<SRModel>, cap: int)
    requires
        acc.len() <= cap,
    ensures
        merge_spec(acc, fb, cap).len() <= cap,
        merge_spec(acc, fb, cap).len() < cap ==> forall|i: int|
            0 <= i < fb.len() ==> has_id(merge_spec(acc, fb, cap), (#[trigger] fb[i]).story_id),
    decreases fb.len(),
{
    let m = merge_spec(acc, fb, cap);
    if fb.len() == 0 || acc.len() >= cap {
    } else if has_id(acc, fb[0].story_id) {
        lemma_merge_cap(acc, fb.drop_first(), cap);
        if m.len() < cap {
            lemma_merge_keeps_members(acc, fb.drop_first(), cap, fb[0].story_id);
            assert forall|i: int| 0 <= i < fb.len() implies has_id(
                m,
                (#[trigger] fb[i]).story_id,
            ) by {
                if i > 0 {
                    assert(fb.drop_first()[i - 1] == fb[i]);
                }
            }
        }
    } else {
        lemma_merge_cap(acc.push(fb[0]), fb.drop_first(), cap);
        if m.len() < cap {
            assert(acc.push(fb[0])[acc.len() as int] == fb[0]);
            assert(has_id(acc.push(fb[0]), fb[0].story_id));
            lemma_merge_keeps_members(acc.push(fb[0]), fb.drop_first(), cap, fb[0].story_id);
            assert forall|i: int| 0 <= i < fb.len() implies has_id(
                m,
                (#[trigger] fb[i]).story_id,
            ) by {
                if i > 0 {
                    assert(fb.drop_first()[i - 1] == fb[i]);
                }
            }
        }
    }
}

/// The model of one index row.
pub struct IRModel {
    pub story_id: Seq<char>,
    pub story_name: Seq<char>,
    pub category: Seq<char>,
    pub tokenized_content: Seq<char>,
    pub story_code: Seq<char>,
    pub raw_content: Seq<char>,
}

pub open spec fn ir_model(r: crate::index::IndexRow) -> IRModel {
    IRModel {
        story_id: r.story_id@,
        story_name: r.story_name@,
        category: r.category@,
        tokenized_content: r.tokenized_content@,
        story_code: r.story_code@,
        raw_content: r.raw_content@,
    }
}

/// The row one corpus story contributes to the index, if any: none when
/// its text could not be read or its tokenized content is blank.
pub open spec fn row_opt_spec(c: CorpusStory) -> Option<IRModel> {
    match c.content {
        None => None,
        Some(ct) => if trim_spec(
            crate::index::tokenized_of(c.story.story_name@, ct@),
        ).len() == 0 {
            None
        } else {
            Some(
                IRModel {
                    story_id: c.story.story_id@,
                    story_name: c.story.story_name@,
                    category: category_label_spec(c.entry_type@, c.category_name@),
                    tokenized_content: crate::index::tokenized_of(c.story.story_name@, ct@),
                    story_code: match c.story.story_code {
                        Some(code) => normalize_spec(code@),
                        None => Seq::empty(),
                    },
                    raw_content: crate::index::combined_raw_spec(c.story.story_name@, ct@),
                },
            )
        },
    }
}

/// The rows of a full index rebuild, in corpus order.
pub open spec fn rows_spec(cs: Seq<CorpusStory>) -> Seq<IRModel>
    decreases cs.len(),
{
    if cs.len() == 0 {
        Seq::empty()
    } else {
        rows_spec(cs.drop_last()) + match row_opt_spec(cs.last()) {
            Some(r) => seq![r],
            None => Seq::empty(),
        }
    }
}

impl DataService {
    /// Computes every row of a full index rebuild. Before content exists
    /// this is the not-installed condition, never a generic failure.
    pub fn build_index_rows(&self) -> (r: Result<Vec<crate::index::IndexRow>, String>)
        ensures
            match r {
                Ok(rows) => self.installed && rows@.map_values(
                    |x: crate::index::IndexRow| ir_model(x),
                ) == rows_spec(self.corpus@),
                Err(e) => !self.installed && e@ == "NOT_INSTALLED"@,
            },
    {
        if !self.installed {
            return Err(str_owned("NOT_INSTALLED"));
        }
        let n = self.corpus.len();
        let mut rows: Vec<crate::index::IndexRow> = Vec::new();
        let mut i: usize = 0;
        proof {
            assert(self.corpus@.take(0) =~= Seq::<CorpusStory>::empty());
            assert(rows@.map_values(|x: crate::index::IndexRow| ir_model(x)) =~= Seq::<
                IRModel,
            >::empty());
        }
        while i < n
            invariant
                0 <= i <= n,
                n == self.corpus@.len(),
                self.installed,
                rows@.map_values(|x: crate::index::IndexRow| ir_model(x)) == rows_spec(
                    self.corpus@.take(i as int),
                ),
            decreases n - i,
        {
            let ghost old_rows = rows@;
            proof {
                assert(self.corpus@.take(i + 1).drop_last() =~= self.corpus@.take(i as int));
                assert(self.corpus@.take(i + 1).last() == self.corpus@[i as int]);
            }
            let c = &self.corpus[i];
            match &c.content {
                Some(ct) => {
                    let label = crate::index::format_category_label(
                        c.entry_type.as_str(),
                        c.category_name.as_str(),
                    );
                    match crate::index::build_index_row(&c.story, label.as_str(), ct.as_str()) {
                        Some(row) => {
                            let ghost rm = ir_model(row);
                            rows.push(row);
                            proof {
                                assert(rows@.map_values(
                                    |x: crate::index::IndexRow| ir_model(x),
                                ) =~= old_rows.map_values(
                                    |x: crate::index::IndexRow| ir_model(x),
                                ) + seq![rm]);
                                assert(row_opt_spec(self.corpus@[i as int]) == Some(rm));
                            }
                        },
                        None => {
                            proof {
                                assert(row_opt_spec(self.corpus@[i as int]) is None);
                                assert(rows@.map_values(|x: crate::index::IndexRow| ir_model(x))
                                    + Seq::<IRModel>::empty() =~= rows@.map_values(
                                    |x: crate::index::IndexRow| ir_model(x),
                                ));
                            }
                        },
                    }
                },
                None => {
                    proof {
                        assert(row_opt_spec(self.corpus@[i as int]) is None);
                        assert(rows@.map_values(|x: crate::index::IndexRow| ir_model(x)) + Seq::<
                            IRModel,
                        >::empty() =~= rows@.map_values(
                            |x: crate::index::IndexRow| ir_model(x),
                        ));
                    }
                },
            }
            i = i + 1;
        }
        proof {
            assert(self.corpus@.take(n as int) =~= self.corpus@);
        }
        Ok(rows)
    }

    /// The locally installed content version as shown to the user: the
    /// short commit id and how long ago it was fetched; a fixed label
    /// when nothing is recorded.
    pub fn get_current_version(info: Option<&crate::models::VersionInfo>, now: i64) -> (r:
        String)
        ensures
            r@ == match info {
                Some(v) => short_commit_spec(v.commit@) + " ("@ + crate::version::format_timestamp_spec(
                    v.fetched_at as int,
                    now as int,
                ) + ")"@,
                None => "未安装"@,
            },
    {
        match info {
            Some(v) => {
                let cc = chars_vec(v.commit.as_str());
                let mut out = if cc.len() >= 7 {
                    crate::strutil::subvec(&cc, 0, 7)
                } else {
                    crate::strutil::subvec(&cc, 0, cc.len())
                };
                proof {
                    if cc@.len() < 7 {
                        assert(out@ =~= v.commit@);
                    }
                }
                let open = chars_vec(" (");
                push_all(&mut out, &open);
                let ts = crate::version::format_timestamp(v.fetched_at, now);
                let tc = chars_vec(ts.as_str());
                push_all(&mut out, &tc);
                let close = chars_vec(")");
                push_all(&mut out, &close);
                proof {
                    assert(out@ =~= short_commit_spec(v.commit@) + " ("@
                        + crate::version::format_timestamp_spec(v.fetched_at as int, now as int)
                        + ")"@);
                }
                string_from_chars(&out)
            },
            None => str_owned("未安装"),
        }
    }

    /// The short form of a remotely fetched commit id; a fixed label when
    /// the fetch did not yield one.
    pub fn get_remote_version(fetched: Option<&String>) -> (r: String)
        ensures
            r@ == match fetched {
                Some(c) => short_commit_spec(c@),
                None => "未知"@,
            },
    {
        match fetched {
            Some(c) => {
                let cc = chars_vec(c.as_str());
                let short = if cc.len() >= 7 {
                    crate::strutil::subvec(&cc, 0, 7)
                } else {
                    crate::strutil::subvec(&cc, 0, cc.len())
                };
                proof {
                    if cc@.len() < 7 {
                        assert(short@ =~= c@);
                    }
                }
                string_from_chars(&short)
            },
            None => str_owned("未知"),
        }
    }

    /// Whether an update is due: always when no version is recorded or
    /// the remote commit could not be fetched, else when the commits
    /// differ.
    pub fn check_update(
        current: Option<&crate::models::VersionInfo>,
        remote: Option<&String>,
    ) -> (r: bool)
        ensures
            r == match current {
                None => true,
                Some(v) => match remote {
                    Some(c) => v.commit@ != c@,
                    None => true,
                },
            },
    {
        match current {
            None => true,
            Some(v) => match remote {
                Some(c) => !crate::strutil::str_eq(v.commit.as_str(), c.as_str()),
                None => true,
            },
        }
    }
}

/// The trace lines the debug search reports: the query as received and
/// normalized, the compiled expression, what each path contributed, and
/// whether the cap was reached. Advisory only; the result list is the
/// same as the plain search's.
pub open spec fn debug_logs_spec(
    corpus: Seq<CorpusStory>,
    idxm: Option<Seq<SRModel>>,
    t: Seq<char>,
) -> Seq<Seq<char>> {
    let qn = normalize_spec(t);
    let fb = fallback_spec(corpus, qn, SEARCH_RESULT_LIMIT as int);
    let base = match idxm {
        Some(rs) => rs,
        None => Seq::empty(),
    };
    let based = merge_spec(Seq::empty(), base, SEARCH_RESULT_LIMIT as int);
    let merged = merge_spec(based, fb, SEARCH_RESULT_LIMIT as int);
    let added = merged.len() - based.len();
    seq![
        "开始搜索: \""@ + t + "\""@,
        "规范化后的查询: \""@ + qn + "\""@,
        match crate::query::compile_spec(t) {
            Some(e) => "FTS 查询: "@ + e,
            None => "FTS 查询为空（可能仅包含标点或无效字符）"@,
        },
        match idxm {
            Some(rs) => "全文索引查询完成，结果 "@ + dec_spec(rs.len()) + " 条"@,
            None => "全文索引不可用或未建立"@,
        },
        "线性扫描完成，结果 "@ + dec_spec(fb.len()) + " 条"@,
    ] + (if fb.len() >= SEARCH_RESULT_LIMIT {
        seq!["结果数量达到上限 500 条，建议缩小检索范围"@]
    } else {
        Seq::empty()
    }) + (if added > 0 {
        seq!["线性扫描补全 "@ + dec_spec(added as nat) + " 条结果"@]
    } else {
        Seq::empty()
    })
}

impl DataService {
    /// The hybrid search together with its human-readable trace: the same
    /// merged, de-duplicated, capped results as `search_stories`, plus the
    /// rationale lines.
    pub fn search_stories_with_debug(
        &self,
        query: &str,
        index_results: Option<Vec<SearchResult>>,
    ) -> (r: Result<SearchDebugResponse, String>)
        ensures
            match r {
                Ok(resp) => {
                    if trim_spec(query@).len() == 0 {
                        srs_model(resp.results@) == Seq::<SRModel>::empty()
                            && resp.logs@.map_values(|l: String| l@) == seq![
                            "查询为空，直接返回"@,
                        ]
                    } else {
                        &&& self.installed
                        &&& srs_model(resp.results@) == merged_results_spec(
                            match index_results {
                                Some(ref v) => srs_model(v@),
                                None => Seq::empty(),
                            },
                            fallback_spec(
                                self.corpus@,
                                normalize_spec(trim_spec(query@)),
                                SEARCH_RESULT_LIMIT as int,
                            ),
                            SEARCH_RESULT_LIMIT as int,
                        )
                        &&& resp.logs@.map_values(|l: String| l@) == debug_logs_spec(
                            self.corpus@,
                            match index_results {
                                Some(ref v) => Some(srs_model(v@)),
                                None => None,
                            },
                            trim_spec(query@),
                        )
                    }
                },
                Err(e) => trim_spec(query@).len() > 0 && !self.installed && e@
                    == "NOT_INSTALLED"@,
            },
    {
        let qc = chars_vec(query);
        let trimmed = trim_chars(&qc);
        if trimmed.len() == 0 {
            let mut logs: Vec<String> = Vec::new();
            logs.push(str_owned("查询为空，直接返回"));
            let empty: Vec<SearchResult> = Vec::new();
            proof {
                assert(srs_model(empty@) =~= Seq::<SRModel>::empty());
                assert(logs@.map_values(|l: String| l@) =~= seq!["查询为空，直接返回"@]);
            }
            return Ok(SearchDebugResponse { results: empty, logs });
        }
        if !self.installed {
            return Err(str_owned("NOT_INSTALLED"));
        }
        let ts = string_from_chars(&trimmed);
        let ghost idxm: Option<Seq<SRModel>> = match index_results {
            Some(ref v) => Some(srs_model(v@)),
            None => None,
        };
        let ghost t = trim_spec(query@);

        let mut logs: Vec<String> = Vec::new();

        let mut l1 = chars_vec("开始搜索: \"");
        push_all(&mut l1, &trimmed);
        let quote = chars_vec("\"");
        push_all(&mut l1, &quote);
        logs.push(string_from_chars(&l1));

        let qn = normalize(ts.as_str());
        let qnc = chars_vec(qn.as_str());
        let mut l2 = chars_vec("规范化后的查询: \"");
        push_all(&mut l2, &qnc);
        push_all(&mut l2, &quote);
        logs.push(string_from_chars(&l2));

        let l3: String = match crate::query::build_fts_query_advanced(ts.as_str()) {
            Some(expr) => {
                let mut l = chars_vec("FTS 查询: ");
                let ec = chars_vec(expr.as_str());
                push_all(&mut l, &ec);
                string_from_chars(&l)
            },
            None => str_owned("FTS 查询为空（可能仅包含标点或无效字符）"),
        };
        logs.push(l3);

        let (base, l4): (Vec<SearchResult>, String) = match index_results {
            Some(v) => {
                let mut l = chars_vec("全文索引查询完成，结果 ");
                let nchars = u64_to_chars(v.len() as u64);
                push_all(&mut l, &nchars);
                let tail = chars_vec(" 条");
                push_all(&mut l, &tail);
                (v, string_from_chars(&l))
            },
            None => (Vec::new(), str_owned("全文索引不可用或未建立")),
        };
        logs.push(l4);
        proof {
            match idxm {
                Some(rs) => {},
                None => {
                    assert(srs_model(base@) =~= Seq::<SRModel>::empty());
                },
            }
        }

        let fb = match self.search_stories_fallback(ts.as_str()) {
            Ok(rs) => rs,
            Err(e) => {
                return Err(e);
            },
        };
        let mut l5 = chars_vec("线性扫描完成，结果 ");
        let fbn = u64_to_chars(fb.len() as u64);
        push_all(&mut l5, &fbn);
        let tail5 = chars_vec(" 条");
        push_all(&mut l5, &tail5);
        logs.push(string_from_chars(&l5));

        if fb.len() >= SEARCH_RESULT_LIMIT {
            logs.push(str_owned("结果数量达到上限 500 条，建议缩小检索范围"));
        }

        let mut merged: Vec<SearchResult> = Vec::new();
        proof {
            assert(srs_model(merged@) =~= Seq::<SRModel>::empty());
        }
        append_unique(&mut merged, &base);
        let based_len = merged.len();
        let ghost based_model = srs_model(merged@);
        append_unique(&mut merged, &fb);
        proof {
            lemma_merge_prefix(based_model, srs_model(fb@), SEARCH_RESULT_LIMIT as int);
        }
        let added = merged.len() - based_len;
        if added > 0 {
            let mut l6 = chars_vec("线性扫描补全 ");
            let ac = u64_to_chars(added as u64);
            push_all(&mut l6, &ac);
            let tail6 = chars_vec(" 条结果");
            push_all(&mut l6, &tail6);
            logs.push(string_from_chars(&l6));
        }
        proof {
            let expected = debug_logs_spec(self.corpus@, idxm, t);
            assert(logs@.map_values(|l: String| l@) =~= expected);
        }
        Ok(SearchDebugResponse { results: merged, logs })
    }
}

/// The first seven characters of a commit id, or all of it if shorter.
pub open spec fn short_commit_spec(c: Seq<char>) -> Seq<char> {
    if c.len() >= 7 {
        c.take(7)
    } else {
        c
    }
}

/// Field-for-field equality of story entries, over their views.
pub open spec fn se_eq(a: StoryEntry, b: StoryEntry) -> bool {
    &&& a.story_id@ == b.story_id@
    &&& a.story_name@ == b.story_name@
    &&& opt_seq(a.story_code) == opt_seq(b.story_code)
    &&& a.story_group@ == b.story_group@
    &&& a.story_sort == b.story_sort
    &&& opt_seq(a.avg_tag) == opt_seq(b.avg_tag)
    &&& a.story_txt@ == b.story_txt@
    &&& opt_seq(a.story_info) == opt_seq(b.story_info)
    &&& a.story_review_type@ == b.story_review_type@
    &&& a.unlock_type@ == b.unlock_type@
    &&& opt_seq(a.story_dependence) == opt_seq(b.story_dependence)
    &&& a.story_can_show == b.story_can_show
    &&& a.story_can_enter == b.story_can_enter
    &&& a.stage_count == b.stage_count
    &&& rs_eq(a.required_stages, b.required_stages)
    &&& opt_seq(a.cost_item_type) == opt_seq(b.cost_item_type)
    &&& opt_seq(a.cost_item_id) == opt_seq(b.cost_item_id)
    &&& a.cost_item_count == b.cost_item_count
}

pub open spec fn opt_seq(o: Option<String>) -> Option<Seq<char>> {
    match o {
        Some(s) => Some(s@),
        None => None,
    }
}

pub open spec fn rs_model(r: crate::models::RequiredStage) -> (Seq<char>, Seq<char>, Seq<char>) {
    (r.stage_id@, r.min_state@, r.max_state@)
}

pub open spec fn rs_eq(
    a: Option<Vec<crate::models::RequiredStage>>,
    b: Option<Vec<crate::models::RequiredStage>>,
) -> bool {
    match (a, b) {
        (Some(x), Some(y)) => x@.map_values(|r: crate::models::RequiredStage| rs_model(r))
            == y@.map_values(|r: crate::models::RequiredStage| rs_model(r)),
        (None, None) => true,
        _ => false,
    }
}

fn clone_opt_string(o: &Option<String>) -> (r: Option<String>)
    ensures
        opt_seq(r) == opt_seq(*o),
{
    match o {
        Some(s) => Some(str_owned(s.as_str())),
        None => None,
    }
}

fn clone_required_stages(o: &Option<Vec<crate::models::RequiredStage>>) -> (r: Option<
    Vec<crate::models::RequiredStage>,
>)
    ensures
        rs_eq(r, *o),
{
    match o {
        Some(v) => {
            let mut out: Vec<crate::models::RequiredStage> = Vec::new();
            let mut k: usize = 0;
            proof {
                assert(out@.map_values(|r: crate::models::RequiredStage| rs_model(r))
                    =~= v@.map_values(|r: crate::models::RequiredStage| rs_model(r)).take(0));
            }
            while k < v.len()
                invariant
                    0 <= k <= v@.len(),
                    out@.map_values(|r: crate::models::RequiredStage| rs_model(r))
                        == v@.map_values(|r: crate::models::RequiredStage| rs_model(r)).take(
                        k as int,
                    ),
                decreases v.len() - k,
            {
                let ghost old_out = out@;
                let s = crate::models::RequiredStage {
                    stage_id: str_owned(v[k].stage_id.as_str()),
                    min_state: str_owned(v[k].min_state.as_str()),
                    max_state: str_owned(v[k].max_state.as_str()),
                };
                let ghost smodel = rs_model(s);
                out.push(s);
                proof {
                    assert(out@.map_values(|r: crate::models::RequiredStage| rs_model(r))
                        =~= old_out.map_values(|r: crate::models::RequiredStage| rs_model(r))
                        + seq![smodel]);
                    assert(old_out.map_values(|r: crate::models::RequiredStage| rs_model(r))
                        + seq![smodel] =~= v@.map_values(
                        |r: crate::models::RequiredStage| rs_model(r),
                    ).take(k + 1));
                }
                k = k + 1;
            }
            proof {
                assert(v@.map_values(|r: crate::models::RequiredStage| rs_model(r)).take(
                    v@.len() as int,
                ) =~= v@.map_values(|r: crate::models::RequiredStage| rs_model(r)));
            }
            Some(out)
        },
        None => None,
    }
}

/// A field-for-field copy of a story entry.
pub fn clone_entry(e: &StoryEntry) -> (r: StoryEntry)
    ensures
        se_eq(r, *e),
{
    StoryEntry {
        story_id: str_owned(e.story_id.as_str()),
        story_name: str_owned(e.story_name.as_str()),
        story_code: clone_opt_string(&e.story_code),
        story_group: str_owned(e.story_group.as_str()),
        story_sort: e.story_sort,
        avg_tag: clone_opt_string(&e.avg_tag),
        story_txt: str_owned(e.story_txt.as_str()),
        story_info: clone_opt_string(&e.story_info),
        story_review_type: str_owned(e.story_review_type.as_str()),
        unlock_type: str_owned(e.unlock_type.as_str()),
        story_dependence: clone_opt_string(&e.story_dependence),
        story_can_show: e.story_can_show,
        story_can_enter: e.story_can_enter,
        stage_count: e.stage_count,
        required_stages: clone_required_stages(&e.required_stages),
        cost_item_type: clone_opt_string(&e.cost_item_type),
        cost_item_id: clone_opt_string(&e.cost_item_id),
        cost_item_count: e.cost_item_count,
    }
}

} // verus!
//! Markup parser: converts one script file's raw lines into an ordered
//! sequence of typed narrative segments.
//!
//! The dialect is line oriented: a line whose trimmed form starts with `[`
//! is a command line (`[name="X"] text`), anything else non-blank is
//! narration. Malformed command syntax never raises: the line is skipped.

use vstd::prelude::*;

use crate::models::{ParsedStoryContent, SegModel, StorySegment};
use crate::strutil::{
    chars_eq, chars_eq_str, chars_vec, find2, find_char2, is_ws, lemma_find2_props, push_all,
    split_by_chars, split2_spec, string_from_chars, subvec, trim_chars, trim_end_spec,
    trim_spec, trim_start_spec,
};

verus! {

/// `s` with every occurrence of `pat` (scanned left to right, without
/// overlap) replaced by `rep`.
pub open spec fn replace_all_spec(s: Seq<char>, pat: Seq<char>, rep: Seq<char>) -> Seq<char>
    decreases s.len(),
    when pat.len() > 0
{
    if s.len() == 0 {
        s
    } else if pat.len() <= s.len() && s.take(pat.len() as int) == pat {
        rep + replace_all_spec(s.skip(pat.len() as int), pat, rep)
    } else {
        seq![s[0]] + replace_all_spec(s.drop_first(), pat, rep)
    }
}

/// Whether `pat` occurs in `s` at position `i`.
pub(crate) fn matches_at(s: &Vec<char>, i: usize, pat: &Vec<char>) -> (r: bool)
    requires
        i <= s@.len(),
    ensures
        r == (i + pat@.len() <= s@.len() && s@.skip(i as int).take(pat@.len() as int) == pat@),
{
    if pat.len() > s.len() - i {
        proof {
            assert(i + pat@.len() > s@.len());
        }
        return false;
    }
    let n = s.len();
    let mut k: usize = 0;
    while k < pat.len()
        invariant
            0 <= k <= pat@.len(),
            i + pat@.len() <= s@.len(),
            n == s@.len() <= usize::MAX,
            forall|j: int| 0 <= j < k ==> s@[i + j] == pat@[j],
        decreases pat.len() - k,
    {
        if s[i + k] != pat[k] {
            proof {
                assert(s@.skip(i as int).take(pat@.len() as int)[k as int] == s@[i + k]);
            }
            return false;
        }
        k = k + 1;
    }
    proof {
        assert(s@.skip(i as int).take(pat@.len() as int) =~= pat@);
    }
    true
}

/// Replaces every occurrence of `pat` with `rep`, scanning left to right.
pub fn replace_all(s: &Vec<char>, pat: &Vec<char>, rep: &Vec<char>) -> (r: Vec<char>)
    requires
        pat@.len() > 0,
    ensures
        r@ == replace_all_spec(s@, pat@, rep@),
{
    let n = s.len();
    let mut out: Vec<char> = Vec::new();
    let mut i: usize = 0;
    proof {
        assert(s@.skip(0) =~= s@);
        assert(out@ + replace_all_spec(s@, pat@, rep@) =~= replace_all_spec(s@, pat@, rep@));
    }
    while i < n
        invariant
            0 <= i <= n,
            n == s@.len() <= usize::MAX,
            pat@.len() > 0,
            replace_all_spec(s@, pat@, rep@) == out@ + replace_all_spec(
                s@.skip(i as int),
                pat@,
                rep@,
            ),
        decreases n - i,
    {
        let ghost old_out = out@;
        if matches_at(s, i, pat) {
            push_all(&mut out, rep);
            proof {
                assert(s@.skip(i as int).skip(pat@.len() as int) =~= s@.skip(
                    i + pat@.len(),
                ));
                assert(old_out + (rep@ + replace_all_spec(
                    s@.skip(i + pat@.len()),
                    pat@,
                    rep@,
                )) =~= out@ + replace_all_spec(s@.skip(i + pat@.len()), pat@, rep@));
            }
            i = i + pat.len();
        } else {
            out.push(s[i]);
            proof {
                assert(s@.skip(i as int)[0] == s@[i as int]);
                assert(s@.skip(i as int).drop_first() =~= s@.skip(i + 1));
                assert(old_out + (seq![s@[i as int]] + replace_all_spec(
                    s@.skip(i + 1),
                    pat@,
                    rep@,
                )) =~= out@ + replace_all_spec(s@.skip(i + 1), pat@, rep@));
            }
            i = i + 1;
        }
    }
    proof {
        assert(s@.skip(n as int) =~= Seq::<char>::empty());
        assert(out@ + Seq::<char>::empty() =~= out@);
    }
    out
}

/// Paragraph-like sub-tags (`<p`...`>`, tag name matched case-insensitively)
/// replaced by newlines.
pub open spec fn strip_para_spec(s: Seq<char>) -> Seq<char>
    decreases s.len(),
    via strip_para_spec_dec
{
    if s.len() == 0 {
        s
    } else if s[0] == '<' && s.len() >= 2 && (s[1] == 'p' || s[1] == 'P') && find2(
        s.skip(2),
        '>',
        '>',
    ) is Some {
        match find2(s.skip(2), '>', '>') {
            Some(q) => seq!['\n'] + strip_para_spec(s.skip(q as int + 3)),
            None => s,
        }
    } else {
        seq![s[0]] + strip_para_spec(s.drop_first())
    }
}

#[via_fn]
proof fn strip_para_spec_dec(s: Seq<char>) {
    if s.len() >= 2 {
        lemma_find2_props(s.skip(2), '>', '>');
    }
}

/// All other angle-bracket tags (`<`, at least one non-`>` character, `>`)
/// removed.
pub open spec fn strip_tags_spec(s: Seq<char>) -> Seq<char>
    decreases s.len(),
    via strip_tags_spec_dec
{
    if s.len() == 0 {
        s
    } else if s[0] == '<' && find2(s.skip(1), '>', '>') is Some && find2(
        s.skip(1),
        '>',
        '>',
    ) != Some(0 as nat) {
        match find2(s.skip(1), '>', '>') {
            Some(q) => strip_tags_spec(s.skip(q as int + 2)),
            None => s,
        }
    } else {
        seq![s[0]] + strip_tags_spec(s.drop_first())
    }
}

#[via_fn]
proof fn strip_tags_spec_dec(s: Seq<char>) {
    if s.len() >= 1 {
        lemma_find2_props(s.skip(1), '>', '>');
    }
}

/// Replaces `<p...>` tags by newlines.
pub fn strip_paragraph_tags(s: &Vec<char>) -> (r: Vec<char>)
    ensures
        r@ == strip_para_spec(s@),
{
    let n = s.len();
    let mut out: Vec<char> = Vec::new();
    let mut i: usize = 0;
    proof {
        assert(s@.skip(0) =~= s@);
        assert(out@ + strip_para_spec(s@) =~= strip_para_spec(s@));
    }
    while i < n
        invariant
            0 <= i <= n,
            n == s@.len() <= usize::MAX,
            strip_para_spec(s@) == out@ + strip_para_spec(s@.skip(i as int)),
        decreases n - i,
    {
        let ghost old_out = out@;
        proof {
            assert(s@.skip(i as int)[0] == s@[i as int]);
            assert(s@.skip(i as int).drop_first() =~= s@.skip(i + 1));
        }
        let mut tag_done = false;
        if s[i] == '<' && i + 1 < n && (s[i + 1] == 'p' || s[i + 1] == 'P') {
            proof {
                assert(s@.skip(i as int).skip(2) =~= s@.skip(i + 2));
                assert(s@.skip(i as int).len() >= 2);
                assert(s@.skip(i as int)[1] == s@[i + 1]);
            }
            match find_char2(s, i + 2, '>', '>') {
                Some(j) => {
                    out.push('\n');
                    proof {
                        assert(s@.skip(i as int).skip((j - i - 2) + 3) =~= s@.skip(j + 1));
                        assert(old_out + (seq!['\n'] + strip_para_spec(s@.skip(j + 1)))
                            =~= out@ + strip_para_spec(s@.skip(j + 1)));
                    }
                    i = j + 1;
                    tag_done = true;
                },
                None => {
                },
            }
        }
        if !tag_done {
            out.push(s[i]);
            proof {
                assert(old_out + (seq![s@[i as int]] + strip_para_spec(s@.skip(i + 1))) =~= out@
                    + strip_para_spec(s@.skip(i + 1)));
            }
            i = i + 1;
        }
    }
    proof {
        assert(s@.skip(n as int) =~= Seq::<char>::empty());
        assert(out@ + Seq::<char>::empty() =~= out@);
    }
    out
}

/// Removes remaining `<...>` tags.
pub fn strip_other_tags(s: &Vec<char>) -> (r: Vec<char>)
    ensures
        r@ == strip_tags_spec(s@),
{
    let n = s.len();
    let mut out: Vec<char> = Vec::new();
    let mut i: usize = 0;
    proof {
        assert(s@.skip(0) =~= s@);
        assert(out@ + strip_tags_spec(s@) =~= strip_tags_spec(s@));
    }
    while i < n
        invariant
            0 <= i <= n,
            n == s@.len() <= usize::MAX,
            strip_tags_spec(s@) == out@ + strip_tags_spec(s@.skip(i as int)),
        decreases n - i,
    {
        let ghost old_out = out@;
        proof {
            assert(s@.skip(i as int)[0] == s@[i as int]);
            assert(s@.skip(i as int).drop_first() =~= s@.skip(i + 1));
            assert(s@.skip(i as int).skip(1) =~= s@.skip(i + 1));
        }
        let mut tag_done = false;
        if s[i] == '<' {
            match find_char2(s, i + 1, '>', '>') {
                Some(j) => {
                    if j > i + 1 {
                        proof {
                            assert(s@.skip(i as int).skip((j - i - 1) + 2) =~= s@.skip(j + 1));
                        }
                        i = j + 1;
                        tag_done = true;
                    }
                },
                None => {
                },
            }
        }
        if !tag_done {
            out.push(s[i]);
            proof {
                assert(old_out + (seq![s@[i as int]] + strip_tags_spec(s@.skip(i + 1))) =~= out@
                    + strip_tags_spec(s@.skip(i + 1)));
            }
            i = i + 1;
        }
    }
    proof {
        assert(s@.skip(n as int) =~= Seq::<char>::empty());
        assert(out@ + Seq::<char>::empty() =~= out@);
    }
    out
}

/// Whether `c` occurs in `s`.
pub open spec fn contains_char(s: Seq<char>, c: char) -> bool {
    find2(s, c, c) is Some
}

fn has_char(s: &Vec<char>, c: char) -> (r: bool)
    ensures
        r == contains_char(s@, c),
{
    proof {
        assert(s@.skip(0) =~= s@);
    }
    match find_char2(s, 0, c, c) {
        Some(_) => true,
        None => false,
    }
}

/// The non-blank lines of `s`, each trimmed, in order.
pub open spec fn kept_lines(ls: Seq<Seq<char>>) -> Seq<Seq<char>>
    decreases ls.len(),
{
    if ls.len() == 0 {
        Seq::empty()
    } else {
        kept_lines(ls.drop_last()) + if trim_spec(ls.last()).len() > 0 {
            seq![trim_spec(ls.last())]
        } else {
            Seq::empty()
        }
    }
}

/// What `clean_text` computes. Escaped and literal line-break forms become
/// newlines, fullwidth and no-break spaces become ASCII spaces, `<p...>`
/// tags become newlines, other angle-bracket tags are removed, the nickname
/// placeholder becomes the fixed default label, and the result is trimmed;
/// if newlines remain, blank sub-lines are dropped and the rest re-joined.
pub open spec fn clean_text_spec(s: Seq<char>) -> Seq<char> {
    let a = replace_all_spec(s, seq!['\\', 'r', '\\', 'n'], seq!['\n']);
    let b = replace_all_spec(a, seq!['\\', 'n'], seq!['\n']);
    let c = replace_all_spec(b, seq!['\r'], seq!['\n']);
    let d = replace_all_spec(c, seq!['\u{3000}'], seq![' ']);
    let e = replace_all_spec(d, seq!['\u{00A0}'], seq![' ']);
    let f = strip_tags_spec(strip_para_spec(e));
    let g = replace_all_spec(
        f,
        seq!['{', '@', 'n', 'i', 'c', 'k', 'n', 'a', 'm', 'e', '}'],
        seq!['博', '士'],
    );
    let t = trim_spec(g);
    if contains_char(t, '\n') {
        crate::strutil::join_with(kept_lines(split2_spec(t, '\n', '\n')), '\n')
    } else {
        t
    }
}

/// Normalizes line breaks and spaces, resolves sub-tags and the nickname
/// placeholder, trims, and drops blank sub-lines.
pub fn clean_text(text: &Vec<char>) -> (r: Vec<char>)
    ensures
        r@ == clean_text_spec(text@),
{
    let pat_ern = chars_vec("\\r\\n");
    let pat_en = chars_vec("\\n");
    let pat_cr = chars_vec("\r");
    let pat_fw = chars_vec("\u{3000}");
    let pat_nb = chars_vec("\u{00A0}");
    let pat_nick = chars_vec("{@nickname}");
    let rep_nl = chars_vec("\n");
    let rep_sp = chars_vec(" ");
    let rep_doc = chars_vec("博士");
    proof {
        reveal_strlit("\\r\\n");
        reveal_strlit("\\n");
        reveal_strlit("\r");
        reveal_strlit("\u{3000}");
        reveal_strlit("\u{00A0}");
        reveal_strlit("{@nickname}");
        reveal_strlit("\n");
        reveal_strlit(" ");
        reveal_strlit("博士");
        assert(pat_ern@ =~= seq!['\\', 'r', '\\', 'n']);
        assert(pat_en@ =~= seq!['\\', 'n']);
        assert(pat_cr@ =~= seq!['\r']);
        assert(pat_fw@ =~= seq!['\u{3000}']);
        assert(pat_nb@ =~= seq!['\u{00A0}']);
        assert(pat_nick@ =~= seq!['{', '@', 'n', 'i', 'c', 'k', 'n', 'a', 'm', 'e', '}']);
        assert(rep_nl@ =~= seq!['\n']);
        assert(rep_sp@ =~= seq![' ']);
        assert(rep_doc@ =~= seq!['博', '士']);
    }
    let a = replace_all(text, &pat_ern, &rep_nl);
    let b = replace_all(&a, &pat_en, &rep_nl);
    let c = replace_all(&b, &pat_cr, &rep_nl);
    let d = replace_all(&c, &pat_fw, &rep_sp);
    let e = replace_all(&d, &pat_nb, &rep_sp);
    let f0 = strip_paragraph_tags(&e);
    let f = strip_other_tags(&f0);
    let g = replace_all(&f, &pat_nick, &rep_doc);
    let t = trim_chars(&g);
    if has_char(&t, '\n') {
        let lines = split_by_chars(&t, '\n', '\n');
        let ghost ls = lines@.map_values(|p: Vec<char>| p@);
        let mut kept: Vec<Vec<char>> = Vec::new();
        let mut k: usize = 0;
        proof {
            assert(ls.take(0) =~= Seq::<Seq<char>>::empty());
        }
        while k < lines.len()
            invariant
                0 <= k <= lines@.len(),
                ls == lines@.map_values(|p: Vec<char>| p@),
                kept@.map_values(|p: Vec<char>| p@) == kept_lines(ls.take(k as int)),
            decreases lines.len() - k,
        {
            let ghost old_kept = kept@;
            let lt = trim_chars(&lines[k]);
            proof {
                assert(ls.take(k + 1).drop_last() =~= ls.take(k as int));
                assert(ls.take(k + 1).last() == ls[k as int]);
            }
            if lt.len() > 0 {
                kept.push(lt);
                proof {
                    assert(kept@.map_values(|p: Vec<char>| p@) =~= old_kept.map_values(
                        |p: Vec<char>| p@,
                    ) + seq![trim_spec(ls[k as int])]);
                }
            } else {
                proof {
                    assert(kept@.map_values(|p: Vec<char>| p@) + Seq::<Seq<char>>::empty()
                        =~= kept@.map_values(|p: Vec<char>| p@));
                }
            }
            k = k + 1;
        }
        proof {
            assert(ls.take(ls.len() as int) =~= ls);
        }
        let joined = crate::strutil::join_chars(&kept, '\n');
        joined
    } else {
        t
    }
}

/// The meaningful-content filter: trimmed text is meaningful unless it is
/// empty, or no longer than three characters and all ASCII punctuation.
pub open spec fn meaningful_spec(s: Seq<char>) -> bool {
    let t = trim_spec(s);
    t.len() > 0 && !(t.len() <= 3 && forall|i: int|
        0 <= i < t.len() ==> crate::tokenize::is_ascii_punct(#[trigger] t[i]))
}

pub fn has_meaningful_content(text: &Vec<char>) -> (r: bool)
    ensures
        r == meaningful_spec(text@),
{
    let t = trim_chars(text);
    if t.len() == 0 {
        return false;
    }
    if t.len() <= 3 {
        let mut all_punct = true;
        let mut i: usize = 0;
        while i < t.len()
            invariant
                0 <= i <= t@.len(),
                all_punct == forall|j: int|
                    0 <= j < i ==> crate::tokenize::is_ascii_punct(#[trigger] t@[j]),
            decreases t.len() - i,
        {
            let c = t[i];
            let p = (('!' <= c && c <= '/') || (':' <= c && c <= '@') || ('[' <= c && c <= '`')
                || ('{' <= c && c <= '~'));
            proof {
                assert(p == crate::tokenize::is_ascii_punct(t@[i as int]));
            }
            all_punct = all_punct && p;
            i = i + 1;
        }
        !all_punct
    } else {
        true
    }
}

/// ASCII letters, digits and underscore: the characters an attribute key is
/// made of.
pub open spec fn is_word_char(c: char) -> bool {
    ('a' <= c && c <= 'z') || ('A' <= c && c <= 'Z') || ('0' <= c && c <= '9') || c == '_'
}

fn is_word_char_exec(c: char) -> (r: bool)
    ensures
        r == is_word_char(c),
{
    ('a' <= c && c <= 'z') || ('A' <= c && c <= 'Z') || ('0' <= c && c <= '9') || c == '_'
}

/// ASCII uppercase letters mapped to lowercase; everything else unchanged.
pub open spec fn ascii_lower(c: char) -> char {
    if 'A' <= c && c <= 'Z' {
        (((c as u32) + 32) as char)
    } else {
        c
    }
}

pub open spec fn lower_ascii_seq(s: Seq<char>) -> Seq<char> {
    s.map_values(|c: char| ascii_lower(c))
}

fn ascii_lower_exec(c: char) -> (r: char)
    ensures
        r == ascii_lower(c),
{
    match c {
        'A' => 'a',
        'B' => 'b',
        'C' => 'c',
        'D' => 'd',
        'E' => 'e',
        'F' => 'f',
        'G' => 'g',
        'H' => 'h',
        'I' => 'i',
        'J' => 'j',
        'K' => 'k',
        'L' => 'l',
        'M' => 'm',
        'N' => 'n',
        'O' => 'o',
        'P' => 'p',
        'Q' => 'q',
        'R' => 'r',
        'S' => 's',
        'T' => 't',
        'U' => 'u',
        'V' => 'v',
        'W' => 'w',
        'X' => 'x',
        'Y' => 'y',
        'Z' => 'z',
        _ => c,
    }
}

fn lower_ascii_chars(s: &Vec<char>) -> (r: Vec<char>)
    ensures
        r@ == lower_ascii_seq(s@),
{
    let mut out: Vec<char> = Vec::new();
    let mut i: usize = 0;
    while i < s.len()
        invariant
            0 <= i <= s@.len(),
            out@ == lower_ascii_seq(s@.take(i as int)),
        decreases s.len() - i,
    {
        let l = ascii_lower_exec(s[i]);
        out.push(l);
        proof {
            assert(out@ =~= lower_ascii_seq(s@.take(i + 1)));
        }
        i = i + 1;
    }
    proof {
        assert(s@.take(s@.len() as int) =~= s@);
    }
    out
}

/// How many leading characters of `s` satisfy `is_word_char`.
pub open spec fn count_word(s: Seq<char>) -> nat
    decreases s.len(),
{
    if s.len() == 0 || !is_word_char(s[0]) {
        0
    } else {
        1 + count_word(s.drop_first())
    }
}

/// How many leading characters of `s` are whitespace.
pub open spec fn count_ws(s: Seq<char>) -> nat
    decreases s.len(),
{
    if s.len() == 0 || !is_ws(s[0]) {
        0
    } else {
        1 + count_ws(s.drop_first())
    }
}

/// How many leading characters of `s` are ASCII digits.
pub open spec fn count_digits(s: Seq<char>) -> nat
    decreases s.len(),
{
    if s.len() == 0 || !('0' <= s[0] && s[0] <= '9') {
        0
    } else {
        1 + count_digits(s.drop_first())
    }
}

proof fn lemma_count_word_scan(s: Seq<char>, m: int)
    requires
        0 <= m <= s.len(),
        forall|j: int| 0 <= j < m ==> is_word_char(s[j]),
        m < s.len() ==> !is_word_char(s[m]),
    ensures
        count_word(s) == m,
    decreases s.len(),
{
    if s.len() > 0 && is_word_char(s[0]) {
        assert(m > 0);
        assert(forall|j: int| 0 <= j < m - 1 ==> s.drop_first()[j] == s[j + 1]);
        lemma_count_word_scan(s.drop_first(), m - 1);
    }
}

proof fn lemma_count_ws_scan(s: Seq<char>, m: int)
    requires
        0 <= m <= s.len(),
        forall|j: int| 0 <= j < m ==> is_ws(s[j]),
        m < s.len() ==> !is_ws(s[m]),
    ensures
        count_ws(s) == m,
    decreases s.len(),
{
    if s.len() > 0 && is_ws(s[0]) {
        assert(m > 0);
        assert(forall|j: int| 0 <= j < m - 1 ==> s.drop_first()[j] == s[j + 1]);
        lemma_count_ws_scan(s.drop_first(), m - 1);
    }
}

pub proof fn lemma_count_digits_scan(s: Seq<char>, m: int)
    requires
        0 <= m <= s.len(),
        forall|j: int| 0 <= j < m ==> '0' <= s[j] && s[j] <= '9',
        m < s.len() ==> !('0' <= s[m] && s[m] <= '9'),
    ensures
        count_digits(s) == m,
    decreases s.len(),
{
    if s.len() > 0 && '0' <= s[0] && s[0] <= '9' {
        assert(m > 0);
        assert(forall|j: int| 0 <= j < m - 1 ==> s.drop_first()[j] == s[j + 1]);
        lemma_count_digits_scan(s.drop_first(), m - 1);
    }
}

proof fn lemma_count_word_le(s: Seq<char>)
    ensures
        count_word(s) <= s.len(),
    decreases s.len(),
{
    if s.len() > 0 && is_word_char(s[0]) {
        lemma_count_word_le(s.drop_first());
    }
}

proof fn lemma_count_ws_le(s: Seq<char>)
    ensures
        count_ws(s) <= s.len(),
    decreases s.len(),
{
    if s.len() > 0 && is_ws(s[0]) {
        lemma_count_ws_le(s.drop_first());
    }
}

pub proof fn lemma_count_digits_le(s: Seq<char>)
    ensures
        count_digits(s) <= s.len(),
    decreases s.len(),
{
    if s.len() > 0 && '0' <= s[0] && s[0] <= '9' {
        lemma_count_digits_le(s.drop_first());
    }
}

/// An attribute match at the start of `t`: a run of key characters,
/// optional whitespace, `=`, optional whitespace, then a double-quoted
/// value. Yields the lowercased key, the value, and the offset just past
/// the closing quote.
pub open spec fn attr_match(t: Seq<char>) -> Option<(Seq<char>, Seq<char>, nat)> {
    let k = count_word(t);
    if k == 0 {
        None
    } else {
        let a = k + count_ws(t.skip(k as int));
        if a < t.len() && t[a as int] == '=' {
            let b = a + 1 + count_ws(t.skip(a as int + 1));
            if b < t.len() && t[b as int] == '"' {
                match find2(t.skip(b as int + 1), '"', '"') {
                    Some(q) => Some(
                        (
                            lower_ascii_seq(t.take(k as int)),
                            t.subrange(b as int + 1, b as int + 1 + q),
                            (b + 2 + q) as nat,
                        ),
                    ),
                    None => None,
                }
            } else {
                None
            }
        } else {
            None
        }
    }
}

proof fn lemma_attr_match_bounds(t: Seq<char>)
    ensures
        match attr_match(t) {
            Some(m) => 0 < m.2 <= t.len(),
            None => true,
        },
{
    lemma_count_word_le(t);
    let k = count_word(t);
    if k > 0 {
        lemma_count_ws_le(t.skip(k as int));
        let a = k + count_ws(t.skip(k as int));
        if a < t.len() && t[a as int] == '=' {
            lemma_count_ws_le(t.skip(a as int + 1));
            let b = a + 1 + count_ws(t.skip(a as int + 1));
            if b < t.len() && t[b as int] == '"' {
                lemma_find2_props(t.skip(b as int + 1), '"', '"');
            }
        }
    }
}

/// All `key="value"` pairs of `t`, scanned left to right without overlap,
/// keys lowercased.
pub open spec fn attr_pairs(t: Seq<char>) -> Seq<(Seq<char>, Seq<char>)>
    decreases t.len(),
    via attr_pairs_dec
{
    if t.len() == 0 {
        Seq::empty()
    } else {
        match attr_match(t) {
            Some(m) => seq![(m.0, m.1)] + attr_pairs(t.skip(m.2 as int)),
            None => attr_pairs(t.drop_first()),
        }
    }
}

#[via_fn]
proof fn attr_pairs_dec(t: Seq<char>) {
    lemma_attr_match_bounds(t);
}

/// The value of the last pair with the given key, if any: a later
/// occurrence of a key overrides an earlier one.
pub open spec fn lookup_pairs(ps: Seq<(Seq<char>, Seq<char>)>, key: Seq<char>) -> Option<
    Seq<char>,
>
    decreases ps.len(),
{
    if ps.len() == 0 {
        None
    } else {
        match lookup_pairs(ps.drop_first(), key) {
            Some(v) => Some(v),
            None => if ps[0].0 == key {
                Some(ps[0].1)
            } else {
                None
            },
        }
    }
}

/// The attribute value under `key` (lowercase) in command body `t`.
pub open spec fn attr_value(t: Seq<char>, key: Seq<char>) -> Option<Seq<char>> {
    lookup_pairs(attr_pairs(t), key)
}

/// Tries to recognize an attribute pair starting exactly at `i`; on success
/// returns the lowercased key, the value, and the index past the closing
/// quote.
fn attr_try_match(s: &Vec<char>, i: usize) -> (r: Option<(Vec<char>, Vec<char>, usize)>)
    requires
        i < s@.len(),
    ensures
        match r {
            Some(m) => {
                &&& attr_match(s@.skip(i as int)) == Some((m.0@, m.1@, (m.2 - i) as nat))
                &&& i < m.2 <= s@.len()
            },
            None => attr_match(s@.skip(i as int)) is None,
        },
{
    let ghost t = s@.skip(i as int);
    let n = s.len();
    // key run
    let mut ke: usize = i;
    while ke < n && is_word_char_exec(s[ke])
        invariant
            i <= ke <= n,
            n == s@.len(),
            forall|j: int| i <= j < ke ==> is_word_char(s@[j]),
        decreases n - ke,
    {
        ke = ke + 1;
    }
    proof {
        assert(forall|j: int| 0 <= j < ke - i ==> #[trigger] t[j] == s@[i + j]);
        lemma_count_word_scan(t, ke - i);
    }
    if ke == i {
        return None;
    }
    // whitespace, then '='
    let mut ae: usize = ke;
    while ae < n && crate::strutil::is_whitespace_char(s[ae])
        invariant
            ke <= ae <= n,
            n == s@.len(),
            forall|j: int| ke <= j < ae ==> is_ws(s@[j]),
        decreases n - ae,
    {
        ae = ae + 1;
    }
    proof {
        assert(t.skip(ke - i) =~= s@.skip(ke as int));
        assert(forall|j: int| 0 <= j < ae - ke ==> #[trigger] t.skip(ke - i)[j] == s@[ke + j]);
        lemma_count_ws_scan(t.skip(ke - i), ae - ke);
    }
    if ae == n || s[ae] != '=' {
        return None;
    }
    // whitespace, then '"'
    let mut be: usize = ae + 1;
    while be < n && crate::strutil::is_whitespace_char(s[be])
        invariant
            ae + 1 <= be <= n,
            n == s@.len(),
            forall|j: int| ae + 1 <= j < be ==> is_ws(s@[j]),
        decreases n - be,
    {
        be = be + 1;
    }
    proof {
        assert(t.skip(ae - i + 1) =~= s@.skip(ae as int + 1));
        assert(forall|j: int| 0 <= j < be - ae - 1 ==> #[trigger] t.skip(ae - i + 1)[j] == s@[ae + 1 + j]);
        lemma_count_ws_scan(t.skip(ae - i + 1), be - ae - 1);
    }
    if be == n || s[be] != '"' {
        return None;
    }
    proof {
        assert(t.skip(be - i + 1) =~= s@.skip(be as int + 1));
    }
    match find_char2(s, be + 1, '"', '"') {
        Some(qa) => {
            let key_raw = subvec(s, i, ke);
            let key = lower_ascii_chars(&key_raw);
            let val = subvec(s, be + 1, qa);
            proof {
                assert(t.take(ke - i) =~= s@.subrange(i as int, ke as int));
                assert(t.subrange(be - i + 1, be - i + 1 + (qa - be - 1)) =~= s@.subrange(
                    be as int + 1,
                    qa as int,
                ));
            }
            Some((key, val, qa + 1))
        },
        None => None,
    }
}

/// Extracts every `key="value"` pair of a command body, in scan order,
/// keys lowercased. A later pair with the same key overrides an earlier
/// one when looked up.
pub fn parse_attributes(source: &Vec<char>) -> (r: Vec<(String, String)>)
    ensures
        r@.map_values(|p: (String, String)| (p.0@, p.1@)) == attr_pairs(source@),
{
    let n = source.len();
    let mut pairs: Vec<(String, String)> = Vec::new();
    let mut i: usize = 0;
    proof {
        assert(source@.skip(0) =~= source@);
        assert(pairs@.map_values(|p: (String, String)| (p.0@, p.1@)) + attr_pairs(source@)
            =~= attr_pairs(source@));
    }
    while i < n
        invariant
            0 <= i <= n,
            n == source@.len() <= usize::MAX,
            attr_pairs(source@) == pairs@.map_values(|p: (String, String)| (p.0@, p.1@))
                + attr_pairs(source@.skip(i as int)),
        decreases n - i,
    {
        let ghost old_pairs = pairs@;
        let ghost t = source@.skip(i as int);
        match attr_try_match(source, i) {
            Some(m) => {
                let (kv, vv, nx) = m;
                let ghost pm = (kv@, vv@);
                proof {
                    assert(t.skip((nx - i) as int) =~= source@.skip(nx as int));
                    assert(attr_pairs(t) == seq![(kv@, vv@)] + attr_pairs(
                        source@.skip(nx as int),
                    ));
                }
                pairs.push((string_from_chars(&kv), string_from_chars(&vv)));
                proof {
                    assert(pairs@.map_values(|p: (String, String)| (p.0@, p.1@))
                        =~= old_pairs.map_values(|p: (String, String)| (p.0@, p.1@))
                        + seq![pm]);
                    assert(old_pairs.map_values(|p: (String, String)| (p.0@, p.1@)) + (seq![pm]
                        + attr_pairs(source@.skip(nx as int))) =~= pairs@.map_values(
                        |p: (String, String)| (p.0@, p.1@),
                    ) + attr_pairs(source@.skip(nx as int)));
                }
                i = nx;
            },
            None => {
                proof {
                    assert(t.len() > 0);
                    assert(t.drop_first() =~= source@.skip(i + 1));
                    assert(attr_pairs(t) == attr_pairs(source@.skip(i + 1)));
                }
                i = i + 1;
            },
        }
    }
    proof {
        assert(source@.skip(n as int) =~= Seq::<char>::empty());
        assert(pairs@.map_values(|p: (String, String)| (p.0@, p.1@)) + Seq::<(
            Seq<char>,
            Seq<char>,
        )>::empty() =~= pairs@.map_values(|p: (String, String)| (p.0@, p.1@)));
    }
    pairs
}

/// Looks up an attribute by its lowercase key; the last occurrence wins.
pub fn get_attr(body: &Vec<char>, key: &str) -> (r: Option<Vec<char>>)
    ensures
        match r {
            Some(v) => attr_value(body@, key@) == Some(v@),
            None => attr_value(body@, key@) is None,
        },
{
    let keyv = chars_vec(key);
    let n = body.len();
    let mut cur: Option<Vec<char>> = None;
    let mut i: usize = 0;
    proof {
        assert(body@.skip(0) =~= body@);
    }
    while i < n
        invariant
            0 <= i <= n,
            n == body@.len() <= usize::MAX,
            keyv@ == key@,
            attr_value(body@, key@) == match lookup_pairs(
                attr_pairs(body@.skip(i as int)),
                key@,
            ) {
                Some(v) => Some(v),
                None => match cur {
                    Some(ref cv) => Some(cv@),
                    None => None::<Seq<char>>,
                },
            },
        decreases n - i,
    {
        let ghost t = body@.skip(i as int);
        match attr_try_match(body, i) {
            Some(m) => {
                let (kv, vv, nx) = m;
                proof {
                    assert(t.skip((nx - i) as int) =~= body@.skip(nx as int));
                    assert(attr_pairs(t) == seq![(kv@, vv@)] + attr_pairs(body@.skip(nx as int)));
                    assert((seq![(kv@, vv@)] + attr_pairs(body@.skip(nx as int))).drop_first()
                        =~= attr_pairs(body@.skip(nx as int)));
                    assert((seq![(kv@, vv@)] + attr_pairs(body@.skip(nx as int)))[0] == (
                    kv@,
                    vv@,
                ));
                }
                if chars_eq(&kv, &keyv) {
                    cur = Some(vv);
                } else {
                }
                i = nx;
            },
            None => {
                proof {
                    assert(t.len() > 0);
                    assert(t.drop_first() =~= body@.skip(i + 1));
                    assert(attr_pairs(t) == attr_pairs(body@.skip(i + 1)));
                }
                i = i + 1;
            },
        }
    }
    proof {
        assert(body@.skip(n as int) =~= Seq::<char>::empty());
        assert(attr_pairs(Seq::<char>::empty()) =~= Seq::<(Seq<char>, Seq<char>)>::empty());
    }
    cur
}

/// The Unicode uppercase mapping of one character, as computed by
/// `char::to_uppercase` (possibly more than one character long).
pub uninterp spec fn upper_char_of(c: char) -> Seq<char>;

/// Relies on `char::to_uppercase`: yields the Unicode uppercase mapping of
/// the character, a pure function of the character.
#[verifier::external_body]
fn upper_char(c: char) -> (r: Vec<char>)
    ensures
        r@ == upper_char_of(c),
{
    c.to_uppercase().collect()
}

pub open spec fn trim_cstart(s: Seq<char>, c: char) -> Seq<char>
    decreases s.len(),
{
    if s.len() > 0 && s[0] == c {
        trim_cstart(s.drop_first(), c)
    } else {
        s
    }
}

pub open spec fn trim_cend(s: Seq<char>, c: char) -> Seq<char>
    decreases s.len(),
{
    if s.len() > 0 && s.last() == c {
        trim_cend(s.drop_last(), c)
    } else {
        s
    }
}

proof fn lemma_trim_cstart_scan(s: Seq<char>, c: char, m: int)
    requires
        0 <= m <= s.len(),
        forall|j: int| 0 <= j < m ==> s[j] == c,
        m < s.len() ==> s[m] != c,
    ensures
        trim_cstart(s, c) == s.skip(m),
    decreases s.len(),
{
    if s.len() > 0 && s[0] == c {
        assert(m > 0);
        assert(forall|j: int| 0 <= j < m - 1 ==> s.drop_first()[j] == s[j + 1]);
        lemma_trim_cstart_scan(s.drop_first(), c, m - 1);
        assert(s.drop_first().skip(m - 1) =~= s.skip(m));
    } else {
        assert(s.skip(0) =~= s);
        assert(m == 0);
    }
}

proof fn lemma_trim_cend_scan(s: Seq<char>, c: char, m: int)
    requires
        0 <= m <= s.len(),
        forall|j: int| m <= j < s.len() ==> s[j] == c,
        m > 0 ==> s[m - 1] != c,
    ensures
        trim_cend(s, c) == s.take(m),
    decreases s.len(),
{
    if s.len() > 0 && s.last() == c {
        assert(m < s.len());
        lemma_trim_cend_scan(s.drop_last(), c, m);
        assert(s.drop_last().take(m) =~= s.take(m));
    } else {
        assert(s.take(s.len() as int) =~= s);
        assert(m == s.len());
    }
}

/// Removes every leading occurrence of `c`.
pub fn strip_char_start(s: &Vec<char>, c: char) -> (r: Vec<char>)
    ensures
        r@ == trim_cstart(s@, c),
{
    let n = s.len();
    let mut i: usize = 0;
    while i < n && s[i] == c
        invariant
            0 <= i <= n,
            n == s@.len(),
            forall|j: int| 0 <= j < i ==> s@[j] == c,
        decreases n - i,
    {
        i = i + 1;
    }
    proof {
        lemma_trim_cstart_scan(s@, c, i as int);
    }
    subvec(s, i, n)
}

/// Removes every trailing occurrence of `c`.
pub fn strip_char_end(s: &Vec<char>, c: char) -> (r: Vec<char>)
    ensures
        r@ == trim_cend(s@, c),
{
    let n = s.len();
    let mut e: usize = n;
    while e > 0 && s[e - 1] == c
        invariant
            0 <= e <= n,
            n == s@.len(),
            forall|j: int| e <= j < n ==> s@[j] == c,
        decreases e,
    {
        e = e - 1;
    }
    proof {
        lemma_trim_cend_scan(s@, c, e as int);
    }
    subvec(s, 0, e)
}

/// The well-known identifier prefixes stripped before humanization; only
/// the first match is removed.
pub open spec fn starts_with(s: Seq<char>, p: Seq<char>) -> bool {
    p.len() <= s.len() && s.take(p.len() as int) == p
}

pub open spec fn strip_known_prefix(s: Seq<char>) -> Seq<char> {
    if starts_with(s, "char_"@) {
        s.skip(5)
    } else if starts_with(s, "npc_"@) {
        s.skip(4)
    } else if starts_with(s, "avg_"@) {
        s.skip(4)
    } else if starts_with(s, "avatar_"@) {
        s.skip(7)
    } else if starts_with(s, "trap_"@) {
        s.skip(5)
    } else if starts_with(s, "voice_"@) {
        s.skip(6)
    } else if starts_with(s, "item_"@) {
        s.skip(5)
    } else if starts_with(s, "act_"@) {
        s.skip(4)
    } else if starts_with(s, "story_"@) {
        s.skip(6)
    } else {
        s
    }
}

fn strip_known_prefix_exec(s: &Vec<char>) -> (r: Vec<char>)
    ensures
        r@ == strip_known_prefix(s@),
{
    let prefixes = ["char_", "npc_", "avg_", "avatar_", "trap_", "voice_", "item_", "act_",
        "story_"];
    proof {
        reveal_strlit("char_");
        reveal_strlit("npc_");
        reveal_strlit("avg_");
        reveal_strlit("avatar_");
        reveal_strlit("trap_");
        reveal_strlit("voice_");
        reveal_strlit("item_");
        reveal_strlit("act_");
        reveal_strlit("story_");
    }
    let mut k: usize = 0;
    while k < 9
        invariant
            0 <= k <= 9,
            prefixes@.len() == 9,
            prefixes@[0]@ == "char_"@ && prefixes@[1]@ == "npc_"@ && prefixes@[2]@ == "avg_"@
                && prefixes@[3]@ == "avatar_"@ && prefixes@[4]@ == "trap_"@ && prefixes@[5]@
                == "voice_"@ && prefixes@[6]@ == "item_"@ && prefixes@[7]@ == "act_"@
                && prefixes@[8]@ == "story_"@,
            forall|j: int| 0 <= j < k ==> !starts_with(s@, prefixes@[j]@),
        decreases 9 - k,
    {
        let p = chars_vec(prefixes[k]);
        proof {
            reveal_strlit("char_");
            reveal_strlit("npc_");
            reveal_strlit("avg_");
            reveal_strlit("avatar_");
            reveal_strlit("trap_");
            reveal_strlit("voice_");
            reveal_strlit("item_");
            reveal_strlit("act_");
            reveal_strlit("story_");
            assert(s@.skip(0) =~= s@);
        }
        if matches_at(s, 0, &p) {
            let r = subvec(s, p.len(), s.len());
            proof {
                assert(r@ =~= s@.skip(p@.len() as int));
            }
            return r;
        }
        k = k + 1;
    }
    subvec(s, 0, s.len())
}

/// Whether a split part is kept: non-blank and not purely numeric.
pub open spec fn keep_part(p: Seq<char>) -> bool {
    trim_spec(p).len() > 0 && !(forall|i: int| 0 <= i < p.len() ==> '0' <= #[trigger] p[i] && p[i]
        <= '9')
}

/// The first character replaced by its Unicode uppercase mapping.
pub open spec fn title_spec(p: Seq<char>) -> Seq<char> {
    if p.len() == 0 {
        Seq::empty()
    } else {
        upper_char_of(p[0]) + p.drop_first()
    }
}

/// The kept parts, title-cased, in order.
pub open spec fn humanize_parts(ps: Seq<Seq<char>>) -> Seq<Seq<char>>
    decreases ps.len(),
{
    if ps.len() == 0 {
        Seq::empty()
    } else {
        humanize_parts(ps.drop_last()) + if keep_part(ps.last()) {
            seq![title_spec(ps.last())]
        } else {
            Seq::empty()
        }
    }
}

/// Consecutive duplicates collapsed to one.
pub open spec fn dedup_spec(ps: Seq<Seq<char>>) -> Seq<Seq<char>>
    decreases ps.len(),
{
    if ps.len() <= 1 {
        ps
    } else {
        dedup_spec(ps.drop_last()) + if ps.last() == ps[ps.len() - 2] {
            Seq::empty()
        } else {
            seq![ps.last()]
        }
    }
}

/// What `humanize_identifier` computes: trim, strip surrounding quotes and
/// leading `$`, strip one well-known prefix, split on `_`/`#`, drop blank
/// and purely numeric parts, title-case each part, collapse consecutive
/// duplicates, and join with spaces; if nothing is kept, the trimmed raw
/// identifier is returned unchanged.
pub open spec fn humanize_spec(raw: Seq<char>) -> Seq<char> {
    let v1 = trim_cend(trim_cstart(trim_spec(raw), '"'), '"');
    let v2 = trim_cstart(v1, '$');
    let v3 = strip_known_prefix(v2);
    let kept = humanize_parts(split2_spec(v3, '_', '#'));
    if kept.len() == 0 {
        trim_spec(raw)
    } else {
        crate::strutil::join_with(dedup_spec(kept), ' ')
    }
}

/// Turns an internal identifier (`char_356_broca`) into a readable speaker
/// name (`Broca`).
pub fn humanize_identifier(raw: &Vec<char>) -> (r: Vec<char>)
    ensures
        r@ == humanize_spec(raw@),
{
    let t = trim_chars(raw);
    let v1a = strip_char_start(&t, '"');
    let v1 = strip_char_end(&v1a, '"');
    let v2 = strip_char_start(&v1, '$');
    let v3 = strip_known_prefix_exec(&v2);
    let parts = split_by_chars(&v3, '_', '#');
    let ghost ps = parts@.map_values(|p: Vec<char>| p@);
    let mut kept: Vec<Vec<char>> = Vec::new();
    let mut k: usize = 0;
    proof {
        assert(ps.take(0) =~= Seq::<Seq<char>>::empty());
    }
    while k < parts.len()
        invariant
            0 <= k <= parts@.len(),
            ps == parts@.map_values(|p: Vec<char>| p@),
            kept@.map_values(|p: Vec<char>| p@) == humanize_parts(ps.take(k as int)),
        decreases parts.len() - k,
    {
        let ghost old_kept = kept@;
        let part = &parts[k];
        proof {
            assert(ps.take(k + 1).drop_last() =~= ps.take(k as int));
            assert(ps.take(k + 1).last() == ps[k as int]);
        }
        let pt = trim_chars(part);
        let mut all_digits = true;
        let mut j: usize = 0;
        while j < part.len()
            invariant
                0 <= j <= part@.len(),
                all_digits == forall|x: int|
                    0 <= x < j ==> '0' <= #[trigger] part@[x] && part@[x] <= '9',
            decreases part.len() - j,
        {
            let c = part[j];
            all_digits = all_digits && ('0' <= c && c <= '9');
            j = j + 1;
        }
        if pt.len() > 0 && !all_digits {
            proof {
                assert(part@.len() > 0);
            }
            let mut titled: Vec<char> = upper_char(part[0]);
            let rest = subvec(part, 1, part.len());
            push_all(&mut titled, &rest);
            proof {
                assert(part@.len() > 0);
                assert(rest@ =~= part@.drop_first());
                assert(titled@ =~= title_spec(ps[k as int]));
            }
            kept.push(titled);
            proof {
                assert(kept@.map_values(|p: Vec<char>| p@) =~= old_kept.map_values(
                    |p: Vec<char>| p@,
                ) + seq![title_spec(ps[k as int])]);
            }
        } else {
            proof {
                assert(!keep_part(ps[k as int]));
                assert(kept@.map_values(|p: Vec<char>| p@) + Seq::<Seq<char>>::empty()
                    =~= kept@.map_values(|p: Vec<char>| p@));
            }
        }
        k = k + 1;
    }
    proof {
        assert(ps.take(ps.len() as int) =~= ps);
    }
    if kept.len() == 0 {
        return t;
    }
    let ghost km = kept@.map_values(|p: Vec<char>| p@);
    let mut deduped: Vec<Vec<char>> = Vec::new();
    let mut d: usize = 0;
    proof {
        assert(km.take(0) =~= Seq::<Seq<char>>::empty());
    }
    while d < kept.len()
        invariant
            0 <= d <= kept@.len(),
            km == kept@.map_values(|p: Vec<char>| p@),
            deduped@.map_values(|p: Vec<char>| p@) == dedup_spec(km.take(d as int)),
        decreases kept.len() - d,
    {
        let ghost old_dd = deduped@;
        proof {
            assert(km.take(d + 1).drop_last() =~= km.take(d as int));
            assert(km.take(d + 1).last() == km[d as int]);
            if d > 0 {
                assert(km.take(d + 1)[d - 1] == km[d - 1]);
            }
        }
        let mut skip_it = false;
        if d > 0 {
            if chars_eq(&kept[d], &kept[d - 1]) {
                skip_it = true;
            }
        }
        if skip_it {
            proof {
                assert(deduped@.map_values(|p: Vec<char>| p@) + Seq::<Seq<char>>::empty()
                    =~= deduped@.map_values(|p: Vec<char>| p@));
            }
        } else {
            let kd_len = kept[d].len();
            let copy = subvec(&kept[d], 0, kd_len);
            proof {
                assert(copy@ =~= km[d as int]);
            }
            deduped.push(copy);
            proof {
                assert(deduped@.map_values(|p: Vec<char>| p@) =~= old_dd.map_values(
                    |p: Vec<char>| p@,
                ) + seq![km[d as int]]);
            }
        }
        d = d + 1;
    }
    proof {
        assert(km.take(km.len() as int) =~= km);
    }
    crate::strutil::join_chars(&deduped, ' ')
}

/// The first command separator: `(`, ASCII space, or `=`.
pub open spec fn find_cmd_sep(s: Seq<char>) -> Option<nat>
    decreases s.len(),
{
    if s.len() == 0 {
        None
    } else if s[0] == '(' || s[0] == ' ' || s[0] == '=' {
        Some(0 as nat)
    } else {
        match find_cmd_sep(s.drop_first()) {
            Some(m) => Some((m + 1) as nat),
            None => None,
        }
    }
}

proof fn lemma_find_cmd_sep_scan(s: Seq<char>, m: int)
    requires
        0 <= m <= s.len(),
        forall|j: int| 0 <= j < m ==> s[j] != '(' && s[j] != ' ' && s[j] != '=',
        m < s.len() ==> (s[m] == '(' || s[m] == ' ' || s[m] == '='),
    ensures
        m < s.len() ==> find_cmd_sep(s) == Some(m as nat),
        m == s.len() ==> find_cmd_sep(s) is None,
    decreases s.len(),
{
    if s.len() > 0 && !(s[0] == '(' || s[0] == ' ' || s[0] == '=') {
        assert(m != 0);
        assert(forall|j: int| 0 <= j < m - 1 ==> s.drop_first()[j] == s[j + 1]);
        lemma_find_cmd_sep_scan(s.drop_first(), m - 1);
    }
}

/// Splits a trimmed command body into the command name and the optional
/// attribute source (the rest from the first separator on, trimmed).
pub open spec fn split_cmd_spec(inside: Seq<char>) -> (Seq<char>, Option<Seq<char>>) {
    let t = trim_spec(inside);
    if t.len() == 0 {
        (Seq::empty(), None)
    } else {
        match find_cmd_sep(t) {
            None => (t, None),
            Some(m) => (t.take(m as int), Some(trim_spec(t.skip(m as int)))),
        }
    }
}

/// Splits the command body into its name and attribute source.
pub fn split_command_and_attrs(inside: &Vec<char>) -> (r: (Vec<char>, Option<Vec<char>>))
    ensures
        r.0@ == split_cmd_spec(inside@).0,
        match r.1 {
            Some(a) => split_cmd_spec(inside@).1 == Some(a@),
            None => split_cmd_spec(inside@).1 is None,
        },
{
    let t = trim_chars(inside);
    if t.len() == 0 {
        let empty: Vec<char> = Vec::new();
        proof {
            assert(empty@ =~= Seq::<char>::empty());
        }
        return (empty, None);
    }
    let n = t.len();
    let mut i: usize = 0;
    while i < n && !(t[i] == '(' || t[i] == ' ' || t[i] == '=')
        invariant
            0 <= i <= n,
            n == t@.len(),
            forall|j: int| 0 <= j < i ==> t@[j] != '(' && t@[j] != ' ' && t@[j] != '=',
        decreases n - i,
    {
        i = i + 1;
    }
    proof {
        lemma_find_cmd_sep_scan(t@, i as int);
    }
    if i == n {
        let whole = subvec(&t, 0, n);
        proof {
            assert(whole@ =~= t@);
        }
        (whole, None)
    } else {
        let cmd = subvec(&t, 0, i);
        let rest = subvec(&t, i, n);
        let rest_t = trim_chars(&rest);
        proof {
            assert(rest@ =~= t@.skip(i as int));
        }
        (cmd, Some(rest_t))
    }
}

/// Resolves a speaker from the command body: the `name` attribute cleaned,
/// else the `head` attribute humanized, else the `avatarid` attribute
/// humanized; each only if meaningful.
pub open spec fn resolve_speaker_spec(body: Seq<char>) -> Option<Seq<char>> {
    let by_head = match attr_value(body, "head"@) {
        Some(h) => if meaningful_spec(humanize_spec(h)) {
            Some(humanize_spec(h))
        } else {
            match attr_value(body, "avatarid"@) {
                Some(a) => if meaningful_spec(humanize_spec(a)) {
                    Some(humanize_spec(a))
                } else {
                    None
                },
                None => None,
            }
        },
        None => match attr_value(body, "avatarid"@) {
            Some(a) => if meaningful_spec(humanize_spec(a)) {
                Some(humanize_spec(a))
            } else {
                None
            },
            None => None,
        },
    };
    match attr_value(body, "name"@) {
        Some(nm) => if meaningful_spec(clean_text_spec(nm)) {
            Some(clean_text_spec(nm))
        } else {
            by_head
        },
        None => by_head,
    }
}

pub fn resolve_speaker(body: &Vec<char>) -> (r: Option<Vec<char>>)
    ensures
        match r {
            Some(v) => resolve_speaker_spec(body@) == Some(v@),
            None => resolve_speaker_spec(body@) is None,
        },
{
    match get_attr(body, "name") {
        Some(nm) => {
            let cleaned = clean_text(&nm);
            if has_meaningful_content(&cleaned) {
                return Some(cleaned);
            }
        },
        None => {},
    }
    match get_attr(body, "head") {
        Some(h) => {
            let hh = humanize_identifier(&h);
            if has_meaningful_content(&hh) {
                return Some(hh);
            }
        },
        None => {},
    }
    match get_attr(body, "avatarid") {
        Some(a) => {
            let ha = humanize_identifier(&a);
            if has_meaningful_content(&ha) {
                return Some(ha);
            }
        },
        None => {},
    }
    None
}

/// The humanized form of a `dialogHead` attribute, or empty if blank.
pub open spec fn clean_dialog_head_spec(raw: Seq<char>) -> Seq<char> {
    if trim_spec(raw).len() == 0 {
        Seq::empty()
    } else {
        humanize_spec(trim_spec(raw))
    }
}

pub fn clean_dialog_head(raw: &Vec<char>) -> (r: Vec<char>)
    ensures
        r@ == clean_dialog_head_spec(raw@),
{
    let t = trim_chars(raw);
    if t.len() == 0 {
        let empty: Vec<char> = Vec::new();
        proof {
            assert(empty@ =~= Seq::<char>::empty());
        }
        empty
    } else {
        humanize_identifier(&t)
    }
}

/// A numbered decision capture at the start of `t`: `option`, digits, `="`,
/// a non-empty value, `"`. Yields the value and the offset past it.
pub open spec fn numbered_match(t: Seq<char>) -> Option<(Seq<char>, nat)> {
    if t.len() >= 6 && lower_ascii_seq(t.take(6)) == seq!['o', 'p', 't', 'i', 'o', 'n'] {
        let d = count_digits(t.skip(6));
        if d >= 1 {
            let e = 6 + d;
            if e + 1 < t.len() && t[e as int] == '=' && t[e as int + 1] == '"' {
                match find2(t.skip(e as int + 2), '"', '"') {
                    Some(q) => if q >= 1 {
                        Some((t.subrange(e as int + 2, e as int + 2 + q), (e + 3 + q) as nat))
                    } else {
                        None
                    },
                    None => None,
                }
            } else {
                None
            }
        } else {
            None
        }
    } else {
        None
    }
}

proof fn lemma_numbered_match_bounds(t: Seq<char>)
    ensures
        match numbered_match(t) {
            Some(m) => 0 < m.1 <= t.len(),
            None => true,
        },
{
    if t.len() >= 6 {
        lemma_count_digits_le(t.skip(6));
        let d = count_digits(t.skip(6));
        let e = 6 + d;
        if d >= 1 && e + 1 < t.len() && t[e as int] == '=' && t[e as int + 1] == '"' {
            lemma_find2_props(t.skip(e as int + 2), '"', '"');
        }
    }
}

/// All numbered decision captures of `t`, in order.
pub open spec fn numbered_caps(t: Seq<char>) -> Seq<Seq<char>>
    decreases t.len(),
    via numbered_caps_dec
{
    if t.len() == 0 {
        Seq::empty()
    } else {
        match numbered_match(t) {
            Some(m) => seq![m.0] + numbered_caps(t.skip(m.1 as int)),
            None => numbered_caps(t.drop_first()),
        }
    }
}

#[via_fn]
proof fn numbered_caps_dec(t: Seq<char>) {
    lemma_numbered_match_bounds(t);
}

/// Tries to recognize a numbered decision capture starting exactly at `i`.
fn numbered_try_match(s: &Vec<char>, i: usize) -> (r: Option<(Vec<char>, usize)>)
    requires
        i < s@.len(),
    ensures
        match r {
            Some(m) => {
                &&& numbered_match(s@.skip(i as int)) == Some((m.0@, (m.1 - i) as nat))
                &&& i < m.1 <= s@.len()
            },
            None => numbered_match(s@.skip(i as int)) is None,
        },
{
    let ghost t = s@.skip(i as int);
    let n = s.len();
    if n - i < 6 {
        return None;
    }
    let head_raw = subvec(s, i, i + 6);
    let head = lower_ascii_chars(&head_raw);
    proof {
        assert(head_raw@ =~= t.take(6));
    }
    if !chars_eq_str(&head, "option") {
        proof {
            reveal_strlit("option");
            assert("option"@ =~= seq!['o', 'p', 't', 'i', 'o', 'n']);
        }
        return None;
    }
    proof {
        reveal_strlit("option");
        assert("option"@ =~= seq!['o', 'p', 't', 'i', 'o', 'n']);
    }
    // digit run
    let mut de: usize = i + 6;
    while de < n && ('0' <= s[de] && s[de] <= '9')
        invariant
            i + 6 <= de <= n,
            n == s@.len(),
            forall|j: int| i + 6 <= j < de ==> '0' <= s@[j] && s@[j] <= '9',
        decreases n - de,
    {
        de = de + 1;
    }
    proof {
        assert(t.skip(6) =~= s@.skip(i + 6));
        assert(forall|j: int| 0 <= j < de - i - 6 ==> #[trigger] t.skip(6)[j] == s@[i + 6 + j]);
        lemma_count_digits_scan(t.skip(6), de - i - 6);
    }
    if de == i + 6 {
        return None;
    }
    if n - de < 2 || s[de] != '=' || s[de + 1] != '"' {
        return None;
    }
    proof {
        assert(t.skip((de - i) as int + 2) =~= s@.skip(de as int + 2));
    }
    match find_char2(s, de + 2, '"', '"') {
        Some(qa) => {
            if qa > de + 2 {
                let val = subvec(s, de + 2, qa);
                proof {
                    assert(t.subrange((de - i) as int + 2, (de - i) as int + 2 + (qa - de - 2))
                        =~= s@.subrange(de as int + 2, qa as int));
                }
                Some((val, qa + 1))
            } else {
                None
            }
        },
        None => None,
    }
}

/// Collects the numbered decision captures of `src`, in order.
pub fn numbered_options(src: &Vec<char>) -> (r: Vec<Vec<char>>)
    ensures
        r@.map_values(|p: Vec<char>| p@) == numbered_caps(src@),
{
    let n = src.len();
    let mut caps: Vec<Vec<char>> = Vec::new();
    let mut i: usize = 0;
    proof {
        assert(src@.skip(0) =~= src@);
        assert(caps@.map_values(|p: Vec<char>| p@) + numbered_caps(src@) =~= numbered_caps(
            src@,
        ));
    }
    while i < n
        invariant
            0 <= i <= n,
            n == src@.len() <= usize::MAX,
            numbered_caps(src@) == caps@.map_values(|p: Vec<char>| p@) + numbered_caps(
                src@.skip(i as int),
            ),
        decreases n - i,
    {
        let ghost old_caps = caps@;
        let ghost t = src@.skip(i as int);
        match numbered_try_match(src, i) {
            Some(m) => {
                let (vv, nx) = m;
                proof {
                    assert(t.skip((nx - i) as int) =~= src@.skip(nx as int));
                    assert(numbered_caps(t) == seq![vv@] + numbered_caps(src@.skip(nx as int)));
                }
                caps.push(vv);
                proof {
                    assert(caps@.map_values(|p: Vec<char>| p@) =~= old_caps.map_values(
                        |p: Vec<char>| p@,
                    ) + seq![vv@]);
                    assert(old_caps.map_values(|p: Vec<char>| p@) + (seq![vv@] + numbered_caps(
                        src@.skip(nx as int),
                    )) =~= caps@.map_values(|p: Vec<char>| p@) + numbered_caps(
                        src@.skip(nx as int),
                    ));
                }
                i = nx;
            },
            None => {
                proof {
                    assert(t.drop_first() =~= src@.skip(i + 1));
                    assert(numbered_caps(t) == numbered_caps(src@.skip(i + 1)));
                }
                i = i + 1;
            },
        }
    }
    proof {
        assert(src@.skip(n as int) =~= Seq::<char>::empty());
        assert(caps@.map_values(|p: Vec<char>| p@) + Seq::<Seq<char>>::empty()
            =~= caps@.map_values(|p: Vec<char>| p@));
    }
    caps
}

/// Each piece cleaned; empty results dropped.
pub open spec fn cleaned_nonempty(ls: Seq<Seq<char>>) -> Seq<Seq<char>>
    decreases ls.len(),
{
    if ls.len() == 0 {
        Seq::empty()
    } else {
        cleaned_nonempty(ls.drop_last()) + if clean_text_spec(ls.last()).len() > 0 {
            seq![clean_text_spec(ls.last())]
        } else {
            Seq::empty()
        }
    }
}

fn clean_parts(parts: &Vec<Vec<char>>) -> (r: Vec<Vec<char>>)
    ensures
        r@.map_values(|p: Vec<char>| p@) == cleaned_nonempty(
            parts@.map_values(|p: Vec<char>| p@),
        ),
{
    let ghost ps = parts@.map_values(|p: Vec<char>| p@);
    let mut out: Vec<Vec<char>> = Vec::new();
    let mut k: usize = 0;
    proof {
        assert(ps.take(0) =~= Seq::<Seq<char>>::empty());
    }
    while k < parts.len()
        invariant
            0 <= k <= parts@.len(),
            ps == parts@.map_values(|p: Vec<char>| p@),
            out@.map_values(|p: Vec<char>| p@) == cleaned_nonempty(ps.take(k as int)),
        decreases parts.len() - k,
    {
        let ghost old_out = out@;
        proof {
            assert(ps.take(k + 1).drop_last() =~= ps.take(k as int));
            assert(ps.take(k + 1).last() == ps[k as int]);
        }
        let cleaned = clean_text(&parts[k]);
        if cleaned.len() > 0 {
            out.push(cleaned);
            proof {
                assert(out@.map_values(|p: Vec<char>| p@) =~= old_out.map_values(
                    |p: Vec<char>| p@,
                ) + seq![clean_text_spec(ps[k as int])]);
            }
        } else {
            proof {
                assert(out@.map_values(|p: Vec<char>| p@) + Seq::<Seq<char>>::empty()
                    =~= out@.map_values(|p: Vec<char>| p@));
            }
        }
        k = k + 1;
    }
    proof {
        assert(ps.take(ps.len() as int) =~= ps);
    }
    out
}

fn strings_from_parts(parts: Vec<Vec<char>>) -> (r: Vec<String>)
    ensures
        r@.map_values(|t: String| t@) == parts@.map_values(|p: Vec<char>| p@),
{
    let mut out: Vec<String> = Vec::new();
    let mut k: usize = 0;
    proof {
        assert(out@.map_values(|t: String| t@) =~= parts@.map_values(|p: Vec<char>| p@).take(
            0,
        ));
    }
    while k < parts.len()
        invariant
            0 <= k <= parts@.len(),
            out@.map_values(|t: String| t@) == parts@.map_values(|p: Vec<char>| p@).take(
                k as int,
            ),
        decreases parts.len() - k,
    {
        let ghost old_out = out@;
        let s = string_from_chars(&parts[k]);
        out.push(s);
        proof {
            assert(out@.map_values(|t: String| t@) =~= old_out.map_values(|t: String| t@)
                + seq![s@]);
            assert(old_out.map_values(|t: String| t@) + seq![s@] =~= parts@.map_values(
                |p: Vec<char>| p@,
            ).take(k + 1));
        }
        k = k + 1;
    }
    proof {
        assert(parts@.map_values(|p: Vec<char>| p@).take(parts@.len() as int)
            =~= parts@.map_values(|p: Vec<char>| p@));
    }
    out
}

/// A `dialog`-like command: text from the remainder (or the `text`
/// attribute), dropped unless meaningful; a dialogue if a speaker resolves,
/// else a narration.
pub open spec fn dialog_like_spec(body: Seq<char>, remainder: Seq<char>) -> Option<SegModel> {
    let text = if remainder.len() == 0 {
        match attr_value(body, "text"@) {
            Some(t) => clean_text_spec(t),
            None => Seq::empty(),
        }
    } else {
        clean_text_spec(remainder)
    };
    if !meaningful_spec(text) {
        None
    } else {
        match resolve_speaker_spec(body) {
            Some(nm) => Some(SegModel::Dialogue { character_name: nm, text }),
            None => Some(SegModel::Narration { text }),
        }
    }
}

pub fn parse_dialog_like(body: &Vec<char>, remainder: &Vec<char>) -> (r: Option<StorySegment>)
    ensures
        match r {
            Some(seg) => dialog_like_spec(body@, remainder@) == Some(seg@),
            None => dialog_like_spec(body@, remainder@) is None,
        },
{
    let text = if remainder.len() == 0 {
        match get_attr(body, "text") {
            Some(t) => clean_text(&t),
            None => Vec::new(),
        }
    } else {
        clean_text(remainder)
    };
    if !has_meaningful_content(&text) {
        return None;
    }
    match resolve_speaker(body) {
        Some(nm) => Some(
            StorySegment::Dialogue {
                character_name: string_from_chars(&nm),
                text: string_from_chars(&text),
            },
        ),
        None => Some(StorySegment::Narration { text: string_from_chars(&text) }),
    }
}

/// What one command line parses to, if anything. The command body is the
/// text between the opening `[` and the first `]`; the remainder is the
/// trimmed text after it. Unknown commands with meaningful remainder text
/// degrade to narration; commands with no meaningful payload are dropped.
pub open spec fn parse_command_spec(line: Seq<char>) -> Option<SegModel> {
    match find2(line, ']', ']') {
        None => None,
        Some(end) => if end < 1 {
            None
        } else {
            let inside = line.subrange(1, end as int);
            let remainder = trim_spec(line.skip(end as int + 1));
            let cmd = lower_ascii_seq(split_cmd_spec(inside).0);
            if cmd == "name"@ || cmd == "multiline"@ {
                match attr_value(inside, "name"@) {
                    Some(nm) => {
                        let text = clean_text_spec(remainder);
                        if text.len() == 0 {
                            None
                        } else {
                            Some(
                                SegModel::Dialogue { character_name: trim_spec(nm), text },
                            )
                        }
                    },
                    None => None,
                }
            } else if cmd == "decision"@ {
                let opts = match attr_value(inside, "options"@) {
                    Some(raw) => cleaned_nonempty(split2_spec(raw, ';', ';')),
                    None => {
                        let src = match split_cmd_spec(inside).1 {
                            Some(a) => a,
                            None => inside,
                        };
                        cleaned_nonempty(numbered_caps(src))
                    },
                };
                if opts.len() == 0 {
                    None
                } else {
                    Some(SegModel::Decision { options: opts })
                }
            } else if cmd == "popupdialog"@ || cmd == "tutorial"@ {
                let text = clean_text_spec(remainder);
                if text.len() == 0 {
                    None
                } else {
                    let speaker = match attr_value(inside, "dialoghead"@) {
                        Some(h) => if clean_dialog_head_spec(h).len() > 0 {
                            Some(clean_dialog_head_spec(h))
                        } else {
                            None
                        },
                        None => None,
                    };
                    Some(SegModel::System { speaker, text })
                }
            } else if cmd == "subtitle"@ || cmd == "sticker"@ {
                match attr_value(inside, "text"@) {
                    Some(t) => {
                        let ct = clean_text_spec(t);
                        if ct.len() == 0 {
                            None
                        } else {
                            let alignment = match attr_value(inside, "alignment"@) {
                                Some(al) => Some(trim_spec(al)),
                                None => None,
                            };
                            if cmd == "subtitle"@ {
                                Some(SegModel::Subtitle { text: ct, alignment })
                            } else {
                                Some(SegModel::Sticker { text: ct, alignment })
                            }
                        }
                    },
                    None => None,
                }
            } else if cmd == "header"@ {
                let title = clean_text_spec(remainder);
                if title.len() == 0 {
                    None
                } else {
                    Some(SegModel::Header { title })
                }
            } else if cmd == "dialog"@ || cmd == "voicewithin"@ {
                dialog_like_spec(inside, remainder)
            } else if cmd == "narration"@ {
                let text = if remainder.len() == 0 {
                    match attr_value(inside, "text"@) {
                        Some(t) => clean_text_spec(t),
                        None => Seq::empty(),
                    }
                } else {
                    clean_text_spec(remainder)
                };
                if !meaningful_spec(text) {
                    None
                } else {
                    Some(SegModel::Narration { text })
                }
            } else if cmd == "animtext"@ {
                let t0 = clean_text_spec(remainder);
                let text = if t0.len() == 0 {
                    match attr_value(inside, "text"@) {
                        Some(t) => clean_text_spec(t),
                        None => Seq::empty(),
                    }
                } else {
                    t0
                };
                if !meaningful_spec(text) {
                    None
                } else {
                    Some(SegModel::Sticker { text, alignment: None })
                }
            } else if cmd == "title"@ {
                let title = clean_text_spec(remainder);
                if !meaningful_spec(title) {
                    None
                } else {
                    Some(SegModel::Header { title })
                }
            } else if cmd == "div"@ {
                let text = clean_text_spec(remainder);
                if !meaningful_spec(text) {
                    None
                } else {
                    Some(SegModel::Subtitle { text, alignment: None })
                }
            } else if cmd == "avatarid"@ || cmd == "isavatarright"@ {
                let text = clean_text_spec(remainder);
                if !meaningful_spec(text) {
                    None
                } else {
                    Some(SegModel::System { speaker: resolve_speaker_spec(inside), text })
                }
            } else {
                let text = clean_text_spec(remainder);
                if !meaningful_spec(text) {
                    None
                } else {
                    Some(SegModel::Narration { text })
                }
            }
        },
    }
}

/// Parses one command line; a line whose command produces no meaningful
/// payload yields nothing.
pub fn parse_command_line(line: &Vec<char>) -> (r: Option<StorySegment>)
    ensures
        match r {
            Some(seg) => parse_command_spec(line@) == Some(seg@),
            None => parse_command_spec(line@) is None,
        },
{
    proof {
        assert(line@.skip(0) =~= line@);
    }
    let end = match find_char2(line, 0, ']', ']') {
        Some(e) => e,
        None => {
            return None;
        },
    };
    if end < 1 {
        return None;
    }
    let n = line.len();
    let inside = subvec(line, 1, end);
    let rem_raw = subvec(line, end + 1, n);
    let remainder = trim_chars(&rem_raw);
    proof {
        assert(rem_raw@ =~= line@.skip(end as int + 1));
    }
    let sc = split_command_and_attrs(&inside);
    let cmd = lower_ascii_chars(&sc.0);
    let attr_src = sc.1;
    if chars_eq_str(&cmd, "name") || chars_eq_str(&cmd, "multiline") {
        match get_attr(&inside, "name") {
            Some(nm) => {
                let text = clean_text(&remainder);
                if text.len() == 0 {
                    None
                } else {
                    let nm_t = trim_chars(&nm);
                    Some(
                        StorySegment::Dialogue {
                            character_name: string_from_chars(&nm_t),
                            text: string_from_chars(&text),
                        },
                    )
                }
            },
            None => None,
        }
    } else if chars_eq_str(&cmd, "decision") {
        let opts = match get_attr(&inside, "options") {
            Some(raw) => {
                let parts = split_by_chars(&raw, ';', ';');
                clean_parts(&parts)
            },
            None => {
                let caps = match attr_src {
                    Some(ref a) => numbered_options(a),
                    None => numbered_options(&inside),
                };
                clean_parts(&caps)
            },
        };
        if opts.len() == 0 {
            None
        } else {
            Some(StorySegment::Decision { options: strings_from_parts(opts) })
        }
    } else if chars_eq_str(&cmd, "popupdialog") || chars_eq_str(&cmd, "tutorial") {
        let text = clean_text(&remainder);
        if text.len() == 0 {
            None
        } else {
            let speaker = match get_attr(&inside, "dialoghead") {
                Some(h) => {
                    let ch = clean_dialog_head(&h);
                    if ch.len() > 0 {
                        Some(string_from_chars(&ch))
                    } else {
                        None
                    }
                },
                None => None,
            };
            Some(StorySegment::System { speaker, text: string_from_chars(&text) })
        }
    } else if chars_eq_str(&cmd, "subtitle") || chars_eq_str(&cmd, "sticker") {
        match get_attr(&inside, "text") {
            Some(t) => {
                let ct = clean_text(&t);
                if ct.len() == 0 {
                    None
                } else {
                    let alignment = match get_attr(&inside, "alignment") {
                        Some(al) => {
                            let alt = trim_chars(&al);
                            Some(string_from_chars(&alt))
                        },
                        None => None,
                    };
                    if chars_eq_str(&cmd, "subtitle") {
                        Some(
                            StorySegment::Subtitle { text: string_from_chars(&ct), alignment },
                        )
                    } else {
                        Some(StorySegment::Sticker { text: string_from_chars(&ct), alignment })
                    }
                }
            },
            None => None,
        }
    } else if chars_eq_str(&cmd, "header") {
        let title = clean_text(&remainder);
        if title.len() == 0 {
            None
        } else {
            Some(StorySegment::Header { title: string_from_chars(&title) })
        }
    } else if chars_eq_str(&cmd, "dialog") || chars_eq_str(&cmd, "voicewithin") {
        parse_dialog_like(&inside, &remainder)
    } else if chars_eq_str(&cmd, "narration") {
        let text = if remainder.len() == 0 {
            match get_attr(&inside, "text") {
                Some(t) => clean_text(&t),
                None => Vec::new(),
            }
        } else {
            clean_text(&remainder)
        };
        if !has_meaningful_content(&text) {
            None
        } else {
            Some(StorySegment::Narration { text: string_from_chars(&text) })
        }
    } else if chars_eq_str(&cmd, "animtext") {
        let t0 = clean_text(&remainder);
        let text = if t0.len() == 0 {
            match get_attr(&inside, "text") {
                Some(t) => clean_text(&t),
                None => Vec::new(),
            }
        } else {
            t0
        };
        if !has_meaningful_content(&text) {
            None
        } else {
            Some(StorySegment::Sticker { text: string_from_chars(&text), alignment: None })
        }
    } else if chars_eq_str(&cmd, "title") {
        let title = clean_text(&remainder);
        if !has_meaningful_content(&title) {
            None
        } else {
            Some(StorySegment::Header { title: string_from_chars(&title) })
        }
    } else if chars_eq_str(&cmd, "div") {
        let text = clean_text(&remainder);
        if !has_meaningful_content(&text) {
            None
        } else {
            Some(StorySegment::Subtitle { text: string_from_chars(&text), alignment: None })
        }
    } else if chars_eq_str(&cmd, "avatarid") || chars_eq_str(&cmd, "isavatarright") {
        let text = clean_text(&remainder);
        if !has_meaningful_content(&text) {
            None
        } else {
            let speaker = match resolve_speaker(&inside) {
                Some(nm) => Some(string_from_chars(&nm)),
                None => None,
            };
            Some(StorySegment::System { speaker, text: string_from_chars(&text) })
        }
    } else {
        let text = clean_text(&remainder);
        if !has_meaningful_content(&text) {
            None
        } else {
            Some(StorySegment::Narration { text: string_from_chars(&text) })
        }
    }
}

/// The payload a segment carries: its text, title, or option count.
pub open spec fn seg_payload_len(m: SegModel) -> int {
    match m {
        SegModel::Dialogue { character_name, text } => text.len() as int,
        SegModel::Narration { text } => text.len() as int,
        SegModel::Decision { options } => options.len() as int,
        SegModel::System { speaker, text } => text.len() as int,
        SegModel::Subtitle { text, alignment } => text.len() as int,
        SegModel::Sticker { text, alignment } => text.len() as int,
        SegModel::Header { title } => title.len() as int,
    }
}

proof fn lemma_trim_start_len(s: Seq<char>)
    ensures
        trim_start_spec(s).len() <= s.len(),
    decreases s.len(),
{
    if s.len() > 0 && is_ws(s[0]) {
        lemma_trim_start_len(s.drop_first());
    }
}

proof fn lemma_trim_end_len(s: Seq<char>)
    ensures
        trim_end_spec(s).len() <= s.len(),
    decreases s.len(),
{
    if s.len() > 0 && is_ws(s.last()) {
        lemma_trim_end_len(s.drop_last());
    }
}

proof fn lemma_meaningful_nonempty(s: Seq<char>)
    requires
        meaningful_spec(s),
    ensures
        s.len() > 0,
{
    lemma_trim_end_len(s);
    lemma_trim_start_len(trim_end_spec(s));
}

/// Law: the parser's drop rule. A command line never yields a segment
/// with an empty payload: whenever its resolved text is empty, or fails
/// the meaningful-content filter, no segment is produced at all; any
/// segment that is produced carries non-empty text, a non-empty title, or
/// at least one option.
pub proof fn lemma_parser_drop_rule(line: Seq<char>)
    ensures
        match parse_command_spec(line) {
            Some(m) => seg_payload_len(m) > 0,
            None => true,
        },
{
    match find2(line, ']', ']') {
        None => {},
        Some(end) => {
            if end >= 1 {
                let inside = line.subrange(1, end as int);
                let remainder = trim_spec(line.skip(end as int + 1));
                let cmd = lower_ascii_seq(split_cmd_spec(inside).0);
                if cmd == "name"@ || cmd == "multiline"@ {
                } else if cmd == "decision"@ {
                } else if cmd == "popupdialog"@ || cmd == "tutorial"@ {
                } else if cmd == "subtitle"@ || cmd == "sticker"@ {
                } else if cmd == "header"@ {
                } else if cmd == "dialog"@ || cmd == "voicewithin"@ {
                    match dialog_like_spec(inside, remainder) {
                        Some(m) => {
                            let text = if remainder.len() == 0 {
                                match attr_value(inside, "text"@) {
                                    Some(t) => clean_text_spec(t),
                                    None => Seq::<char>::empty(),
                                }
                            } else {
                                clean_text_spec(remainder)
                            };
                            lemma_meaningful_nonempty(text);
                        },
                        None => {},
                    }
                } else if cmd == "narration"@ {
                    let text = if remainder.len() == 0 {
                        match attr_value(inside, "text"@) {
                            Some(t) => clean_text_spec(t),
                            None => Seq::<char>::empty(),
                        }
                    } else {
                        clean_text_spec(remainder)
                    };
                    if meaningful_spec(text) {
                        lemma_meaningful_nonempty(text);
                    }
                } else if cmd == "animtext"@ {
                    let t0 = clean_text_spec(remainder);
                    let text = if t0.len() == 0 {
                        match attr_value(inside, "text"@) {
                            Some(t) => clean_text_spec(t),
                            None => Seq::<char>::empty(),
                        }
                    } else {
                        t0
                    };
                    if meaningful_spec(text) {
                        lemma_meaningful_nonempty(text);
                    }
                } else {
                    if meaningful_spec(clean_text_spec(remainder)) {
                        lemma_meaningful_nonempty(clean_text_spec(remainder));
                    }
                }
            }
        },
    }
}

/// The segments one raw line contributes: nothing for a blank line, the
/// parsed command for a `[` line, else a narration if cleaning leaves text.
pub open spec fn seg_of_line(raw: Seq<char>) -> Seq<SegModel> {
    let line = trim_spec(raw);
    if line.len() == 0 {
        Seq::empty()
    } else if line[0] == '[' {
        match parse_command_spec(line) {
            Some(m) => seq![m],
            None => Seq::empty(),
        }
    } else {
        let t = clean_text_spec(line);
        if t.len() > 0 {
            seq![SegModel::Narration { text: t }]
        } else {
            Seq::empty()
        }
    }
}

pub open spec fn parse_lines(ls: Seq<Seq<char>>) -> Seq<SegModel>
    decreases ls.len(),
{
    if ls.len() == 0 {
        Seq::empty()
    } else {
        parse_lines(ls.drop_last()) + seg_of_line(ls.last())
    }
}

/// What `parse_story_text` computes: the lines of the input, in order,
/// each contributing its segments.
pub open spec fn parse_spec(content: Seq<char>) -> Seq<SegModel> {
    parse_lines(split2_spec(content, '\n', '\n'))
}

/// Converts one script file's raw text into its ordered narrative segments.
/// Parsing never fails: malformed command lines are skipped.
pub fn parse_story_text(content: &str) -> (r: ParsedStoryContent)
    ensures
        r@ == parse_spec(content@),
{
    let cs = chars_vec(content);
    let lines = split_by_chars(&cs, '\n', '\n');
    let ghost ls = lines@.map_values(|p: Vec<char>| p@);
    let mut segments: Vec<StorySegment> = Vec::new();
    let mut k: usize = 0;
    proof {
        assert(ls.take(0) =~= Seq::<Seq<char>>::empty());
        assert(segments@.map_values(|s: StorySegment| s@) =~= Seq::<SegModel>::empty());
    }
    while k < lines.len()
        invariant
            0 <= k <= lines@.len(),
            ls == lines@.map_values(|p: Vec<char>| p@),
            segments@.map_values(|s: StorySegment| s@) == parse_lines(ls.take(k as int)),
        decreases lines.len() - k,
    {
        let ghost old_segs = segments@;
        proof {
            assert(ls.take(k + 1).drop_last() =~= ls.take(k as int));
            assert(ls.take(k + 1).last() == ls[k as int]);
        }
        let line = trim_chars(&lines[k]);
        if line.len() == 0 {
            proof {
                assert(old_segs.map_values(|s: StorySegment| s@) + Seq::<SegModel>::empty()
                    =~= old_segs.map_values(|s: StorySegment| s@));
            }
        } else if line[0] == '[' {
            match parse_command_line(&line) {
                Some(seg) => {
                    let ghost segm = seg@;
                    segments.push(seg);
                    proof {
                        assert(segments@.map_values(|s: StorySegment| s@) =~= old_segs.map_values(
                            |s: StorySegment| s@,
                        ) + seq![segm]);
                    }
                },
                None => {
                    proof {
                        assert(old_segs.map_values(|s: StorySegment| s@)
                            + Seq::<SegModel>::empty() =~= old_segs.map_values(
                            |s: StorySegment| s@,
                        ));
                    }
                },
            }
        } else {
            let text = clean_text(&line);
            if text.len() > 0 {
                let seg = StorySegment::Narration { text: string_from_chars(&text) };
                let ghost segm = seg@;
                segments.push(seg);
                proof {
                    assert(segments@.map_values(|s: StorySegment| s@) =~= old_segs.map_values(
                        |s: StorySegment| s@,
                    ) + seq![segm]);
                }
            } else {
                proof {
                    assert(old_segs.map_values(|s: StorySegment| s@) + Seq::<SegModel>::empty()
                        =~= old_segs.map_values(|s: StorySegment| s@));
                }
            }
        }
        k = k + 1;
    }
    proof {
        assert(ls.take(ls.len() as int) =~= ls);
    }
    ParsedStoryContent { segments }
}

} // verus!

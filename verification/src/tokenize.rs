//! Search tokenizer. Normalized text is split into tokens: runs of ASCII
//! alphanumerics form one token, whitespace separates, common ASCII and
//! CJK/fullwidth punctuation is dropped, and every other character (notably
//! each CJK ideograph) is its own single-character token. The space-joined
//! token string is what the full-text index stores, so each CJK character
//! is an independently matchable unit.

use vstd::prelude::*;

use crate::normalize::{normalize, normalize_spec};
use crate::strutil::{chars_vec, is_ws, string_from_chars};

verus! {

pub open spec fn is_ascii_alnum(c: char) -> bool {
    ('0' <= c && c <= '9') || ('a' <= c && c <= 'z') || ('A' <= c && c <= 'Z')
}

/// The ASCII punctuation characters, as `char::is_ascii_punctuation`
/// defines them.
pub open spec fn is_ascii_punct(c: char) -> bool {
    ('!' <= c && c <= '/') || (':' <= c && c <= '@') || ('[' <= c && c <= '`') || ('{' <= c && c
        <= '~')
}

/// Punctuation dropped by the tokenizer: ASCII punctuation plus a fixed set
/// of CJK and fullwidth marks.
pub open spec fn is_common_punct(c: char) -> bool {
    is_ascii_punct(c) || c == '，' || c == '、' || c == '。' || c == '！' || c == '？' || c == '：'
        || c == '；' || c == '（' || c == '）' || c == '【' || c == '】' || c == '「' || c == '」'
        || c == '『' || c == '』' || c == '《' || c == '》' || c == '〈' || c == '〉' || c == '—'
        || c == '～' || c == '…' || c == '·' || c == '﹑' || c == '﹔' || c == '﹗' || c == '﹖'
        || c == '﹐' || c == '﹒' || c == '﹕' || c == '︰'
}

/// The CJK Unified Ideograph blocks (basic block and extensions A through F).
pub open spec fn is_cjk_char(c: char) -> bool {
    ('\u{4E00}' <= c && c <= '\u{9FFF}') || ('\u{3400}' <= c && c <= '\u{4DBF}') || (
    '\u{20000}' <= c && c <= '\u{2A6DF}') || ('\u{2A700}' <= c && c <= '\u{2B73F}') || (
    '\u{2B740}' <= c && c <= '\u{2B81F}') || ('\u{2B820}' <= c && c <= '\u{2CEAF}')
}

pub fn is_common_punctuation(c: char) -> (r: bool)
    ensures
        r == is_common_punct(c),
{
    (('!' <= c && c <= '/') || (':' <= c && c <= '@') || ('[' <= c && c <= '`') || ('{' <= c && c
        <= '~')) || c == '，' || c == '、' || c == '。' || c == '！' || c == '？' || c == '：'
        || c == '；' || c == '（' || c == '）' || c == '【' || c == '】' || c == '「' || c == '」'
        || c == '『' || c == '』' || c == '《' || c == '》' || c == '〈' || c == '〉' || c == '—'
        || c == '～' || c == '…' || c == '·' || c == '﹑' || c == '﹔' || c == '﹗' || c == '﹖'
        || c == '﹐' || c == '﹒' || c == '﹕' || c == '︰'
}

pub fn is_cjk(c: char) -> (r: bool)
    ensures
        r == is_cjk_char(c),
{
    ('\u{4E00}' <= c && c <= '\u{9FFF}') || ('\u{3400}' <= c && c <= '\u{4DBF}') || (
    '\u{20000}' <= c && c <= '\u{2A6DF}') || ('\u{2A700}' <= c && c <= '\u{2B73F}') || (
    '\u{2B740}' <= c && c <= '\u{2B81F}') || ('\u{2B820}' <= c && c <= '\u{2CEAF}')
}

fn is_ascii_alnum_exec(c: char) -> (r: bool)
    ensures
        r == is_ascii_alnum(c),
{
    ('0' <= c && c <= '9') || ('a' <= c && c <= 'z') || ('A' <= c && c <= 'Z')
}

/// The token sequence of an already-normalized character sequence, scanned
/// with `acc` as the pending run of ASCII alphanumerics.
pub open spec fn tok_spec(s: Seq<char>, acc: Seq<char>) -> Seq<Seq<char>>
    decreases s.len(),
{
    if s.len() == 0 {
        if acc.len() > 0 {
            seq![acc]
        } else {
            Seq::empty()
        }
    } else {
        let c = s[0];
        let flushed: Seq<Seq<char>> = if acc.len() > 0 {
            seq![acc]
        } else {
            Seq::empty()
        };
        if is_ascii_alnum(c) {
            tok_spec(s.drop_first(), acc.push(c))
        } else if is_ws(c) || is_common_punct(c) {
            flushed + tok_spec(s.drop_first(), Seq::empty())
        } else {
            flushed + seq![seq![c]] + tok_spec(s.drop_first(), Seq::empty())
        }
    }
}

/// The tokens of a text: normalize, then scan.
pub open spec fn tokens_of(s: Seq<char>) -> Seq<Seq<char>> {
    tok_spec(normalize_spec(s), Seq::empty())
}

/// Splits text into search tokens; order-preserving, not deduplicated.
pub fn tokenize_for_fts(text: &str) -> (r: Vec<String>)
    ensures
        r@.map_values(|t: String| t@) == tokens_of(text@),
{
    let n = normalize(text);
    let nc = chars_vec(n.as_str());
    let mut toks: Vec<String> = Vec::new();
    let mut buf: Vec<char> = Vec::new();
    let mut i: usize = 0;
    proof {
        assert(nc@.skip(0) =~= nc@);
        assert(toks@.map_values(|t: String| t@) + tok_spec(nc@, Seq::<char>::empty())
            =~= tok_spec(nc@, Seq::<char>::empty()));
    }
    while i < nc.len()
        invariant
            0 <= i <= nc.len(),
            nc@ == normalize_spec(text@),
            toks@.map_values(|t: String| t@) + tok_spec(nc@.skip(i as int), buf@) == tok_spec(
                nc@,
                Seq::<char>::empty(),
            ),
        decreases nc.len() - i,
    {
        let c = nc[i];
        proof {
            assert(nc@.skip(i as int)[0] == nc@[i as int]);
            assert(nc@.skip(i as int).drop_first() =~= nc@.skip(i + 1));
        }
        if is_ascii_alnum_exec(c) {
            let ghost old_buf = buf@;
            buf.push(c);
            proof {
                assert(tok_spec(nc@.skip(i as int), old_buf) == tok_spec(
                    nc@.skip(i + 1),
                    old_buf.push(nc@[i as int]),
                ));
                assert(buf@ == old_buf.push(nc@[i as int]));
            }
        } else {
            let ghost old_toks = toks@;
            let ghost old_buf = buf@;
            if buf.len() > 0 {
                let t = string_from_chars(&buf);
                toks.push(t);
                buf = Vec::new();
                proof {
                    assert(toks@.map_values(|t: String| t@) =~= old_toks.map_values(
                        |t: String| t@,
                    ).push(old_buf));
                    assert(old_toks.map_values(|t: String| t@).push(old_buf) =~= old_toks.map_values(
                        |t: String| t@,
                    ) + seq![old_buf]);
                }
            }
            if is_whitespace_or_punct(c) {
                proof {
                    assert(tok_spec(nc@.skip(i as int), old_buf) == (if old_buf.len() > 0 {
                        seq![old_buf]
                    } else {
                        Seq::<Seq<char>>::empty()
                    }) + tok_spec(nc@.skip(i + 1), Seq::<char>::empty()));
                    if old_buf.len() > 0 {
                        assert(old_toks.map_values(|t: String| t@) + (seq![old_buf] + tok_spec(
                            nc@.skip(i + 1),
                            Seq::<char>::empty(),
                        )) =~= (old_toks.map_values(|t: String| t@) + seq![old_buf]) + tok_spec(
                            nc@.skip(i + 1),
                            Seq::<char>::empty(),
                        ));
                    } else {
                        assert(Seq::<Seq<char>>::empty() + tok_spec(
                            nc@.skip(i + 1),
                            Seq::<char>::empty(),
                        ) =~= tok_spec(nc@.skip(i + 1), Seq::<char>::empty()));
                    }
                    assert(buf@ =~= Seq::<char>::empty());
                    assert(toks@.map_values(|t: String| t@) + tok_spec(
                        nc@.skip(i + 1),
                        buf@,
                    ) == tok_spec(nc@, Seq::<char>::empty()));
                }
            } else {
                let mut single: Vec<char> = Vec::new();
                single.push(c);
                let t = string_from_chars(&single);
                toks.push(t);
                proof {
                    let f = |t: String| t@;
                    let flushed: Seq<Seq<char>> = if old_buf.len() > 0 {
                        seq![old_buf]
                    } else {
                        Seq::empty()
                    };
                    assert(single@ =~= seq![c]);
                    assert(toks@.map_values(f) =~= (old_toks.map_values(f) + flushed).push(
                        seq![c],
                    ));
                    assert((old_toks.map_values(f) + flushed).push(seq![c]) + tok_spec(
                        nc@.skip(i + 1),
                        Seq::<char>::empty(),
                    ) =~= old_toks.map_values(f) + (flushed + seq![seq![c]] + tok_spec(
                        nc@.skip(i + 1),
                        Seq::<char>::empty(),
                    )));
                    assert(tok_spec(nc@.skip(i as int), old_buf) == flushed + seq![seq![c]]
                        + tok_spec(nc@.skip(i + 1), Seq::<char>::empty()));
                    assert(buf@ =~= Seq::<char>::empty());
                    assert(toks@.map_values(f) + tok_spec(nc@.skip(i + 1), buf@) == tok_spec(
                        nc@,
                        Seq::<char>::empty(),
                    ));
                }
            }
        }
        i = i + 1;
    }
    proof {
        assert(nc@.skip(nc@.len() as int) =~= Seq::<char>::empty());
    }
    if buf.len() > 0 {
        let ghost old_toks = toks@;
        let t = string_from_chars(&buf);
        toks.push(t);
        proof {
            assert(toks@.map_values(|t: String| t@) =~= old_toks.map_values(|t: String| t@)
                + seq![buf@]);
        }
    } else {
        proof {
            assert(toks@.map_values(|t: String| t@) + Seq::<Seq<char>>::empty() =~= toks@.map_values(
                |t: String| t@,
            ));
        }
    }
    toks
}

fn is_whitespace_or_punct(c: char) -> (r: bool)
    ensures
        r == (is_ws(c) || is_common_punct(c)),
{
    crate::strutil::is_whitespace_char(c) || is_common_punctuation(c)
}

/// The tokens joined with single spaces.
pub open spec fn join_tokens(ts: Seq<Seq<char>>) -> Seq<char>
    decreases ts.len(),
{
    if ts.len() == 0 {
        Seq::empty()
    } else if ts.len() == 1 {
        ts[0]
    } else {
        ts[0] + seq![' '] + join_tokens(ts.drop_first())
    }
}

proof fn lemma_join_take(ts: Seq<Seq<char>>, k: int)
    requires
        0 <= k < ts.len(),
    ensures
        join_tokens(ts.take(k + 1)) == if k == 0 {
            ts[0]
        } else {
            join_tokens(ts.take(k)) + seq![' '] + ts[k]
        },
    decreases k,
{
    if k == 0 {
        assert(ts.take(1).len() == 1);
        assert(ts.take(1)[0] == ts[0]);
    } else {
        assert(ts.take(k + 1)[0] == ts[0]);
        assert(ts.take(k + 1).drop_first() =~= ts.drop_first().take(k));
        assert(ts.take(k)[0] == ts[0]);
        assert(ts.take(k).drop_first() =~= ts.drop_first().take(k - 1));
        lemma_join_take(ts.drop_first(), k - 1);
        if k == 1 {
            assert(join_tokens(ts.take(2)) == ts[0] + seq![' '] + join_tokens(
                ts.drop_first().take(1),
            ));
            assert(ts.drop_first().take(1)[0] == ts[1]);
            assert(join_tokens(ts.take(1)) == ts[0]);
        } else {
            assert((ts[0] + seq![' '] + (join_tokens(ts.drop_first().take(k - 1)) + seq![' ']
                + ts.drop_first()[k - 1])) =~= ((ts[0] + seq![' '] + join_tokens(
                ts.drop_first().take(k - 1),
            )) + seq![' '] + ts[k]));
        }
    }
}

/// Tokenizes and joins with single spaces: the unit stored in the index's
/// searchable content column.
pub fn build_tokenized_content(text: &str) -> (r: String)
    ensures
        r@ == join_tokens(tokens_of(text@)),
{
    let toks = tokenize_for_fts(text);
    let ghost ts = toks@.map_values(|t: String| t@);
    let mut out: Vec<char> = Vec::new();
    let mut k: usize = 0;
    while k < toks.len()
        invariant
            0 <= k <= toks.len(),
            ts == toks@.map_values(|t: String| t@),
            ts == tokens_of(text@),
            out@ == join_tokens(ts.take(k as int)),
        decreases toks.len() - k,
    {
        let ghost old_out = out@;
        if k > 0 {
            out.push(' ');
        }
        let tc = chars_vec(toks[k].as_str());
        let mut j: usize = 0;
        while j < tc.len()
            invariant
                0 <= j <= tc.len(),
                tc@ == ts[k as int],
                k < toks.len(),
                ts == toks@.map_values(|t: String| t@),
                out@ == if k == 0 {
                    tc@.take(j as int)
                } else {
                    old_out + seq![' '] + tc@.take(j as int)
                },
            decreases tc.len() - j,
        {
            out.push(tc[j]);
            proof {
                assert(tc@.take(j + 1) =~= tc@.take(j as int).push(tc@[j as int]));
                if k != 0 {
                    assert((old_out + seq![' '] + tc@.take(j as int)).push(tc@[j as int]) =~= old_out
                        + seq![' '] + tc@.take(j + 1));
                }
            }
            j = j + 1;
        }
        proof {
            assert(tc@.take(tc@.len() as int) =~= tc@);
            lemma_join_take(ts, k as int);
        }
        k = k + 1;
    }
    proof {
        assert(ts.take(ts.len() as int) =~= ts);
    }
    string_from_chars(&out)
}

/// The characters of a normalized text that survive tokenization: everything
/// that is neither whitespace nor dropped punctuation, in order.
pub open spec fn searchable_chars(s: Seq<char>) -> Seq<char>
    decreases s.len(),
{
    if s.len() == 0 {
        Seq::empty()
    } else if is_ws(s[0]) || is_common_punct(s[0]) {
        searchable_chars(s.drop_first())
    } else {
        seq![s[0]] + searchable_chars(s.drop_first())
    }
}

/// The concatenation of a token sequence, without separators.
pub open spec fn concat_tokens(ts: Seq<Seq<char>>) -> Seq<char>
    decreases ts.len(),
{
    if ts.len() == 0 {
        Seq::empty()
    } else {
        ts[0] + concat_tokens(ts.drop_first())
    }
}

proof fn lemma_concat_cons(t: Seq<char>, ts: Seq<Seq<char>>)
    ensures
        concat_tokens(seq![t] + ts) == t + concat_tokens(ts),
{
    assert((seq![t] + ts)[0] == t);
    assert((seq![t] + ts).drop_first() =~= ts);
}

proof fn lemma_tok_cover(s: Seq<char>, acc: Seq<char>)
    ensures
        concat_tokens(tok_spec(s, acc)) == acc + searchable_chars(s),
    decreases s.len(),
{
    if s.len() == 0 {
        if acc.len() > 0 {
            assert(seq![acc].drop_first() =~= Seq::<Seq<char>>::empty());
            assert(concat_tokens(Seq::<Seq<char>>::empty()) == Seq::<char>::empty());
            assert(concat_tokens(seq![acc]) =~= acc);
            assert(acc + searchable_chars(s) =~= acc);
        } else {
            assert(acc + searchable_chars(s) =~= Seq::<char>::empty());
        }
    } else {
        let c = s[0];
        let flushed: Seq<Seq<char>> = if acc.len() > 0 {
            seq![acc]
        } else {
            Seq::empty()
        };
        lemma_tok_cover(s.drop_first(), Seq::empty());
        if is_ascii_alnum(c) {
            lemma_tok_cover(s.drop_first(), acc.push(c));
            assert(acc.push(c) + searchable_chars(s.drop_first()) =~= acc + (seq![c]
                + searchable_chars(s.drop_first())));
        } else if is_ws(c) || is_common_punct(c) {
            if acc.len() > 0 {
                lemma_concat_cons(acc, tok_spec(s.drop_first(), Seq::empty()));
                assert(acc + (Seq::<char>::empty() + searchable_chars(s.drop_first())) =~= acc
                    + searchable_chars(s));
            } else {
                assert(flushed + tok_spec(s.drop_first(), Seq::empty()) =~= tok_spec(
                    s.drop_first(),
                    Seq::empty(),
                ));
                assert(Seq::<char>::empty() + searchable_chars(s.drop_first()) =~= acc
                    + searchable_chars(s));
            }
        } else {
            assert(flushed + seq![seq![c]] + tok_spec(s.drop_first(), Seq::empty()) =~= flushed + (
            seq![seq![c]] + tok_spec(s.drop_first(), Seq::empty())));
            lemma_concat_cons(seq![c], tok_spec(s.drop_first(), Seq::empty()));
            if acc.len() > 0 {
                lemma_concat_cons(acc, seq![seq![c]] + tok_spec(s.drop_first(), Seq::empty()));
                assert(acc + (seq![c] + (Seq::<char>::empty() + searchable_chars(s.drop_first())))
                    =~= acc + searchable_chars(s));
            } else {
                assert(acc + (seq![c] + (Seq::<char>::empty() + searchable_chars(s.drop_first())))
                    =~= acc + searchable_chars(s));
                assert(flushed + (seq![seq![c]] + tok_spec(s.drop_first(), Seq::empty())) =~= seq![
                    seq![c],
                ] + tok_spec(s.drop_first(), Seq::empty()));
            }
        }
    }
}

/// Law: tokenizer total coverage. Concatenating the tokens of a text, in
/// order and without the join separators, reconstructs exactly the
/// non-whitespace, non-punctuation characters of the normalized input.
pub proof fn lemma_tokens_cover(s: Seq<char>)
    ensures
        concat_tokens(tokens_of(s)) == searchable_chars(normalize_spec(s)),
{
    lemma_tok_cover(normalize_spec(s), Seq::empty());
    assert(Seq::<char>::empty() + searchable_chars(normalize_spec(s)) =~= searchable_chars(
        normalize_spec(s),
    ));
}

} // verus!

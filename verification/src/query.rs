//! Query compiler: translates a free-form user query into a boolean
//! full-text query expression. Terms default to AND; a standalone `or`
//! flips the next connective; a `-` prefix negates; double-quoted spans are
//! one literal term. All-CJK terms expand to a quoted phrase of their
//! single characters (the index stores one token per CJK character);
//! all-ASCII-alphanumeric terms get a trailing `*` for prefix match;
//! anything else is quoted verbatim.

use vstd::prelude::*;

use crate::normalize::{normalize, normalize_spec};
use crate::strutil::{chars_eq_str, chars_vec, is_ws, string_from_chars, trim_chars, trim_spec};
use crate::parser::trim_cstart;
use crate::tokenize::{is_ascii_alnum, is_cjk_char};

verus! {

/// One extracted query term: its text, whether it is negated, and whether
/// an `or` stood before it.
pub struct QTerm {
    pub text: Seq<char>,
    pub neg: bool,
    pub or_before: bool,
}

struct TermBuf {
    text: Vec<char>,
    neg: bool,
    or_before: bool,
}

spec fn tb_model(tb: TermBuf) -> QTerm {
    QTerm { text: tb.text@, neg: tb.neg, or_before: tb.or_before }
}

spec fn tbs_model(s: Seq<TermBuf>) -> Seq<QTerm> {
    s.map_values(|tb: TermBuf| tb_model(tb))
}

/// What flushing a word buffer contributes: a standalone `or` flips the
/// connective; otherwise leading `-` marks negation and is stripped; an
/// all-dash word contributes nothing.
pub open spec fn word_term(t: Seq<char>, prev_or: bool) -> (Seq<QTerm>, bool) {
    if t == "or"@ {
        (Seq::empty(), true)
    } else {
        let neg = t.len() > 0 && t[0] == '-';
        let content = trim_cstart(t, '-');
        if content.len() > 0 {
            (seq![QTerm { text: content, neg, or_before: prev_or }], false)
        } else {
            (Seq::empty(), prev_or)
        }
    }
}

/// The terms extracted from the normalized query `s`, scanning with word
/// buffer `buf`, inside-quotes flag `in_q`, and pending-`or` flag
/// `prev_or`.
pub open spec fn qterms(s: Seq<char>, buf: Seq<char>, in_q: bool, prev_or: bool) -> Seq<QTerm>
    decreases s.len(),
{
    if s.len() == 0 {
        if buf.len() > 0 {
            word_term(buf, prev_or).0
        } else {
            Seq::empty()
        }
    } else {
        let c = s[0];
        if c == '"' {
            if in_q {
                if buf.len() > 0 {
                    seq![QTerm { text: buf, neg: false, or_before: prev_or }] + qterms(
                        s.drop_first(),
                        Seq::empty(),
                        false,
                        false,
                    )
                } else {
                    qterms(s.drop_first(), Seq::empty(), false, prev_or)
                }
            } else {
                if trim_spec(buf).len() > 0 {
                    word_term(buf, prev_or).0 + qterms(
                        s.drop_first(),
                        Seq::empty(),
                        true,
                        word_term(buf, prev_or).1,
                    )
                } else {
                    qterms(s.drop_first(), buf, true, prev_or)
                }
            }
        } else if is_ws(c) && !in_q {
            if buf.len() > 0 {
                word_term(buf, prev_or).0 + qterms(
                    s.drop_first(),
                    Seq::empty(),
                    false,
                    word_term(buf, prev_or).1,
                )
            } else {
                qterms(s.drop_first(), Seq::empty(), false, prev_or)
            }
        } else {
            qterms(s.drop_first(), buf.push(c), in_q, prev_or)
        }
    }
}

/// The term's characters kept for a CJK phrase: whitespace dropped, quote
/// characters turned into spaces.
pub open spec fn phrase_chars(t: Seq<char>) -> Seq<char>
    decreases t.len(),
{
    if t.len() == 0 {
        Seq::empty()
    } else {
        phrase_chars(t.drop_last()) + if is_ws(t.last()) {
            Seq::empty()
        } else if t.last() == '"' {
            seq![' ']
        } else {
            seq![t.last()]
        }
    }
}

/// The characters separated by single spaces.
pub open spec fn spaced_chars(cs: Seq<char>) -> Seq<char>
    decreases cs.len(),
{
    if cs.len() == 0 {
        Seq::empty()
    } else if cs.len() == 1 {
        seq![cs[0]]
    } else {
        spaced_chars(cs.drop_last()) + seq![' '] + seq![cs.last()]
    }
}

pub open spec fn remove_quotes(t: Seq<char>) -> Seq<char>
    decreases t.len(),
{
    if t.len() == 0 {
        Seq::empty()
    } else {
        remove_quotes(t.drop_last()) + if t.last() == '"' {
            Seq::empty()
        } else {
            seq![t.last()]
        }
    }
}

/// How one term renders: an all-CJK term as a quoted phrase of its spaced
/// single characters, an all-ASCII-alphanumeric term with a trailing
/// wildcard, anything else quoted with internal quotes stripped.
pub open spec fn classify_term(t: Seq<char>) -> Seq<char> {
    let has_cjk = exists|i: int| 0 <= i < t.len() && is_cjk_char(#[trigger] t[i]);
    let all_cjk = forall|i: int|
        0 <= i < t.len() ==> is_cjk_char(#[trigger] t[i]) || is_ws(t[i]);
    if has_cjk && all_cjk {
        seq!['"'] + spaced_chars(phrase_chars(t)) + seq!['"']
    } else if forall|i: int| 0 <= i < t.len() ==> is_ascii_alnum(#[trigger] t[i]) {
        t + seq!['*']
    } else {
        seq!['"'] + remove_quotes(t) + seq!['"']
    }
}

pub open spec fn render_one(t: QTerm) -> Seq<char> {
    if t.neg {
        "NOT "@ + classify_term(t.text)
    } else {
        classify_term(t.text)
    }
}

/// The rendered expression: terms joined by their connectives, `AND` by
/// default and `OR` where requested.
pub open spec fn render_terms(ts: Seq<QTerm>) -> Seq<char>
    decreases ts.len(),
{
    if ts.len() == 0 {
        Seq::empty()
    } else if ts.len() == 1 {
        render_one(ts[0])
    } else {
        render_terms(ts.drop_last()) + seq![' '] + (if ts.last().or_before {
            "OR"@
        } else {
            "AND"@
        }) + seq![' '] + render_one(ts.last())
    }
}

/// What `build_fts_query_advanced` computes: none when the trimmed query
/// normalizes to empty or yields no terms, else the rendered expression.
pub open spec fn compile_spec(raw: Seq<char>) -> Option<Seq<char>> {
    let q = normalize_spec(trim_spec(raw));
    if q.len() == 0 {
        None
    } else {
        let ts = qterms(q, Seq::empty(), false, false);
        if ts.len() == 0 {
            None
        } else {
            Some(render_terms(ts))
        }
    }
}

fn classify_exec(t: &Vec<char>) -> (r: Vec<char>)
    ensures
        r@ == classify_term(t@),
{
    let n = t.len();
    let mut has_cjk = false;
    let mut all_cjk = true;
    let mut all_alnum = true;
    let mut i: usize = 0;
    while i < n
        invariant
            0 <= i <= n,
            n == t@.len(),
            has_cjk == exists|j: int| 0 <= j < i && is_cjk_char(#[trigger] t@[j]),
            all_cjk == forall|j: int|
                0 <= j < i ==> is_cjk_char(#[trigger] t@[j]) || is_ws(t@[j]),
            all_alnum == forall|j: int| 0 <= j < i ==> is_ascii_alnum(#[trigger] t@[j]),
        decreases n - i,
    {
        let c = t[i];
        let cjk = crate::tokenize::is_cjk(c);
        let ws = crate::strutil::is_whitespace_char(c);
        let alnum = ('0' <= c && c <= '9') || ('a' <= c && c <= 'z') || ('A' <= c && c <= 'Z');
        proof {
            assert(alnum == is_ascii_alnum(t@[i as int]));
        }
        has_cjk = has_cjk || cjk;
        all_cjk = all_cjk && (cjk || ws);
        all_alnum = all_alnum && alnum;
        i = i + 1;
    }
    if has_cjk && all_cjk {
        let mut kept: Vec<char> = Vec::new();
        let mut k: usize = 0;
        proof {
            assert(t@.take(0) =~= Seq::<char>::empty());
        }
        while k < n
            invariant
                0 <= k <= n,
                n == t@.len(),
                kept@ == phrase_chars(t@.take(k as int)),
            decreases n - k,
        {
            let c = t[k];
            proof {
                assert(t@.take(k + 1).drop_last() =~= t@.take(k as int));
                assert(t@.take(k + 1).last() == t@[k as int]);
            }
            if crate::strutil::is_whitespace_char(c) {
                proof {
                    assert(kept@ + Seq::<char>::empty() =~= kept@);
                }
            } else if c == '"' {
                kept.push(' ');
                proof {
                    assert(kept@ =~= phrase_chars(t@.take(k as int)) + seq![' ']);
                }
            } else {
                kept.push(c);
                proof {
                    assert(kept@ =~= phrase_chars(t@.take(k as int)) + seq![t@[k as int]]);
                }
            }
            k = k + 1;
        }
        proof {
            assert(t@.take(n as int) =~= t@);
        }
        let mut out: Vec<char> = Vec::new();
        out.push('"');
        let m = kept.len();
        let mut j: usize = 0;
        proof {
            assert(kept@.take(0) =~= Seq::<char>::empty());
            assert(out@ =~= seq!['"'] + spaced_chars(kept@.take(0)));
        }
        while j < m
            invariant
                0 <= j <= m,
                m == kept@.len(),
                out@ == seq!['"'] + spaced_chars(kept@.take(j as int)),
            decreases m - j,
        {
            proof {
                assert(kept@.take(j + 1).drop_last() =~= kept@.take(j as int));
                assert(kept@.take(j + 1).last() == kept@[j as int]);
            }
            if j > 0 {
                out.push(' ');
            }
            out.push(kept[j]);
            proof {
                if j == 0 {
                    assert(kept@.take(1).len() == 1);
                    assert(kept@.take(1)[0] == kept@[0]);
                    assert(out@ =~= seq!['"'] + spaced_chars(kept@.take(1)));
                } else {
                    assert(out@ =~= seq!['"'] + (spaced_chars(kept@.take(j as int)) + seq![' ']
                        + seq![kept@[j as int]]));
                }
            }
            j = j + 1;
        }
        proof {
            assert(kept@.take(m as int) =~= kept@);
        }
        out.push('"');
        proof {
            assert(out@ =~= seq!['"'] + spaced_chars(phrase_chars(t@)) + seq!['"']);
        }
        out
    } else if all_alnum {
        let mut out = crate::strutil::subvec(t, 0, n);
        out.push('*');
        proof {
            assert(t@.subrange(0, n as int) =~= t@);
            assert(out@ =~= t@ + seq!['*']);
        }
        out
    } else {
        let mut out: Vec<char> = Vec::new();
        out.push('"');
        let mut k: usize = 0;
        proof {
            assert(t@.take(0) =~= Seq::<char>::empty());
            assert(out@ =~= seq!['"'] + remove_quotes(t@.take(0)));
        }
        while k < n
            invariant
                0 <= k <= n,
                n == t@.len(),
                out@ == seq!['"'] + remove_quotes(t@.take(k as int)),
            decreases n - k,
        {
            let c = t[k];
            proof {
                assert(t@.take(k + 1).drop_last() =~= t@.take(k as int));
                assert(t@.take(k + 1).last() == t@[k as int]);
            }
            if c != '"' {
                out.push(c);
                proof {
                    assert(out@ =~= seq!['"'] + (remove_quotes(t@.take(k as int)) + seq![
                        t@[k as int],
                    ]));
                }
            } else {
                proof {
                    assert(remove_quotes(t@.take(k + 1)) =~= remove_quotes(t@.take(k as int)));
                }
            }
            k = k + 1;
        }
        proof {
            assert(t@.take(n as int) =~= t@);
        }
        out.push('"');
        proof {
            assert(out@ =~= seq!['"'] + remove_quotes(t@) + seq!['"']);
        }
        out
    }
}

/// Flushes the word buffer into the term list, mirroring `word_term`.
fn flush_word(terms: &mut Vec<TermBuf>, buf: Vec<char>, prev_or: bool) -> (r: bool)
    requires
        buf@.len() > 0,
    ensures
        tbs_model(final(terms)@) == tbs_model(old(terms)@) + word_term(buf@, prev_or).0,
        r == word_term(buf@, prev_or).1,
{
    if chars_eq_str(&buf, "or") {
        proof {
            assert(tbs_model(old(terms)@) + Seq::<QTerm>::empty() =~= tbs_model(old(terms)@));
        }
        return true;
    }
    let neg = buf[0] == '-';
    let content = crate::parser::strip_char_start(&buf, '-');
    if content.len() > 0 {
        let tb = TermBuf { text: content, neg, or_before: prev_or };
        let ghost tbm = tb_model(tb);
        terms.push(tb);
        proof {
            assert(tbs_model(terms@) =~= tbs_model(old(terms)@) + seq![tbm]);
        }
        false
    } else {
        proof {
            assert(tbs_model(terms@) + Seq::<QTerm>::empty() =~= tbs_model(terms@));
        }
        prev_or
    }
}

/// Compiles a user query into a full-text boolean expression; none when the
/// query normalizes to nothing or yields no terms.
pub fn build_fts_query_advanced(raw_query: &str) -> (r: Option<String>)
    ensures
        match r {
            Some(s) => compile_spec(raw_query@) == Some(s@),
            None => compile_spec(raw_query@) is None,
        },
{
    let rawc = chars_vec(raw_query);
    let trimmed = trim_chars(&rawc);
    let ts = string_from_chars(&trimmed);
    let qn = normalize(ts.as_str());
    let q = chars_vec(qn.as_str());
    if q.len() == 0 {
        return None;
    }
    let n = q.len();
    let mut terms: Vec<TermBuf> = Vec::new();
    let mut buf: Vec<char> = Vec::new();
    let mut in_q = false;
    let mut prev_or = false;
    let mut i: usize = 0;
    let ghost goal = qterms(q@, Seq::empty(), false, false);
    proof {
        assert(q@.skip(0) =~= q@);
        assert(tbs_model(terms@) + qterms(q@, buf@, in_q, prev_or) =~= qterms(
            q@,
            Seq::empty(),
            false,
            false,
        ));
    }
    while i < n
        invariant
            0 <= i <= n,
            n == q@.len() <= usize::MAX,
            goal == qterms(q@, Seq::empty(), false, false),
            goal == tbs_model(terms@) + qterms(q@.skip(i as int), buf@, in_q, prev_or),
        decreases n - i,
    {
        let ghost old_terms = terms@;
        let ghost old_buf = buf@;
        let ghost old_in_q = in_q;
        let ghost old_prev_or = prev_or;
        let c = q[i];
        proof {
            assert(q@.skip(i as int)[0] == q@[i as int]);
            assert(q@.skip(i as int).drop_first() =~= q@.skip(i + 1));
        }
        if c == '"' {
            if in_q {
                if buf.len() > 0 {
                    let tb = TermBuf { text: buf, neg: false, or_before: prev_or };
                    let ghost tbm = tb_model(tb);
                    terms.push(tb);
                    buf = Vec::new();
                    prev_or = false;
                    proof {
                        assert(tbs_model(terms@) =~= tbs_model(old_terms) + seq![tbm]);
                        assert(tbs_model(old_terms) + (seq![tbm] + qterms(
                            q@.skip(i + 1),
                            Seq::empty(),
                            false,
                            false,
                        )) =~= tbs_model(terms@) + qterms(
                            q@.skip(i + 1),
                            Seq::empty(),
                            false,
                            false,
                        ));
                    }
                } else {
                    proof {
                        assert(buf@ =~= Seq::<char>::empty());
                    }
                }
                in_q = false;
            } else {
                let bt = trim_chars(&buf);
                if bt.len() > 0 {
                    let po = flush_word(&mut terms, buf, prev_or);
                    buf = Vec::new();
                    prev_or = po;
                    proof {
                        assert(tbs_model(old_terms) + (word_term(old_buf, old_prev_or).0
                            + qterms(
                            q@.skip(i + 1),
                            Seq::empty(),
                            true,
                            word_term(old_buf, old_prev_or).1,
                        )) =~= tbs_model(terms@) + qterms(
                            q@.skip(i + 1),
                            Seq::empty(),
                            true,
                            word_term(old_buf, old_prev_or).1,
                        ));
                    }
                } else {
                }
                in_q = true;
            }
        } else if crate::strutil::is_whitespace_char(c) && !in_q {
            if buf.len() > 0 {
                let po = flush_word(&mut terms, buf, prev_or);
                buf = Vec::new();
                prev_or = po;
                proof {
                    assert(tbs_model(old_terms) + (word_term(old_buf, old_prev_or).0 + qterms(
                        q@.skip(i + 1),
                        Seq::empty(),
                        false,
                        word_term(old_buf, old_prev_or).1,
                    )) =~= tbs_model(terms@) + qterms(
                        q@.skip(i + 1),
                        Seq::empty(),
                        false,
                        word_term(old_buf, old_prev_or).1,
                    ));
                }
            } else {
                proof {
                    assert(buf@ =~= Seq::<char>::empty());
                }
            }
        } else {
            buf.push(c);
        }
        i = i + 1;
    }
    proof {
        assert(q@.skip(n as int) =~= Seq::<char>::empty());
    }
    if buf.len() > 0 {
        let _po = flush_word(&mut terms, buf, prev_or);
    } else {
        proof {
            assert(tbs_model(terms@) + Seq::<QTerm>::empty() =~= tbs_model(terms@));
        }
    }
    if terms.len() == 0 {
        proof {
            assert(goal.len() == 0);
        }
        return None;
    }
    let ghost tsm = tbs_model(terms@);
    let mut out: Vec<char> = Vec::new();
    let mut k: usize = 0;
    let and_lit = chars_vec("AND");
    let or_lit = chars_vec("OR");
    let not_lit = chars_vec("NOT ");
    proof {
        assert(tsm.take(0) =~= Seq::<QTerm>::empty());
    }
    while k < terms.len()
        invariant
            0 <= k <= terms@.len(),
            tsm == tbs_model(terms@),
            and_lit@ == "AND"@,
            or_lit@ == "OR"@,
            not_lit@ == "NOT "@,
            out@ == render_terms(tsm.take(k as int)),
        decreases terms.len() - k,
    {
        let ghost old_out = out@;
        proof {
            assert(tsm.take(k + 1).drop_last() =~= tsm.take(k as int));
            assert(tsm.take(k + 1).last() == tsm[k as int]);
        }
        if k > 0 {
            out.push(' ');
            if terms[k].or_before {
                crate::strutil::push_all(&mut out, &or_lit);
            } else {
                crate::strutil::push_all(&mut out, &and_lit);
            }
            out.push(' ');
        }
        let ghost mid_out = out@;
        if terms[k].neg {
            crate::strutil::push_all(&mut out, &not_lit);
        }
        let piece = classify_exec(&terms[k].text);
        crate::strutil::push_all(&mut out, &piece);
        proof {
            if terms@[k as int].neg {
                assert(out@ =~= mid_out + ("NOT "@ + classify_term(tsm[k as int].text)));
            }
            assert(out@ =~= mid_out + render_one(tsm[k as int]));
            if k == 0 {
                assert(tsm.take(1).len() == 1);
                assert(tsm.take(1)[0] == tsm[0]);
                assert(out@ =~= render_one(tsm[0]));
            } else {
                if tsm[k as int].or_before {
                    assert(out@ =~= render_terms(tsm.take(k as int)) + seq![' '] + "OR"@ + seq![
                        ' ',
                    ] + render_one(tsm[k as int]));
                } else {
                    assert(out@ =~= render_terms(tsm.take(k as int)) + seq![' '] + "AND"@ + seq![
                        ' ',
                    ] + render_one(tsm[k as int]));
                }
            }
        }
        k = k + 1;
    }
    proof {
        assert(tsm.take(tsm.len() as int) =~= tsm);
    }
    Some(string_from_chars(&out))
}

} // verus!
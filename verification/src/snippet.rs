//! Context-snippet extraction: given a text and a normalized query, finds
//! the first match in the normalized form of the text and returns a bounded
//! window of the original text around it, wrapped in ellipses.
//!
//! The match position is a character index into the *normalized* text, but
//! the window is cut from the *unnormalized* text at that same character
//! index. Normalization can change the character count, so the index is a
//! deliberate approximation of the true position; the window bounds are
//! clamped, so the cut is always well defined.

use vstd::prelude::*;

use crate::normalize::{normalize_chars, normalize_spec};
use crate::strutil::{is_ws, string_from_chars, subvec, trim_chars, trim_spec};

verus! {

/// The least index at which `nd` occurs in `h`; `Some(0)` for an empty
/// needle.
pub open spec fn find_sub(h: Seq<char>, nd: Seq<char>) -> Option<int>
    decreases h.len(),
{
    if nd.len() > h.len() {
        None
    } else if h.take(nd.len() as int) == nd {
        Some(0int)
    } else if h.len() == 0 {
        None
    } else {
        match find_sub(h.drop_first(), nd) {
            Some(p) => Some(p + 1),
            None => None,
        }
    }
}

/// Whether `nd` occurs in `h` at position `j`.
pub open spec fn occurs_at(h: Seq<char>, nd: Seq<char>, j: int) -> bool {
    0 <= j && j + nd.len() <= h.len() && h.subrange(j, j + nd.len() as int) == nd
}

pub proof fn lemma_find_sub_scan(h: Seq<char>, nd: Seq<char>, m: int)
    requires
        0 <= m <= h.len() - nd.len() + 1,
        forall|j: int| 0 <= j < m ==> !#[trigger] occurs_at(h, nd, j),
        m <= h.len() - nd.len() ==> occurs_at(h, nd, m),
    ensures
        m <= h.len() - nd.len() ==> find_sub(h, nd) == Some(m),
        m == h.len() - nd.len() + 1 ==> find_sub(h, nd) is None,
    decreases h.len(),
{
    if nd.len() <= h.len() && h.take(nd.len() as int) != nd {
        assert(h.take(nd.len() as int) =~= h.subrange(0, 0 + nd.len() as int));
        assert(!occurs_at(h, nd, 0));
        assert(m != 0);
        if h.len() == 0 {
            assert(h.take(nd.len() as int) =~= nd);
        }
        assert(h.len() > 0);
        assert forall|j: int| 0 <= j < m - 1 implies !#[trigger] occurs_at(
            h.drop_first(),
            nd,
            j,
        ) by {
            if j + nd.len() <= h.drop_first().len() {
                assert(h.drop_first().subrange(j, j + nd.len() as int) =~= h.subrange(
                    j + 1,
                    j + 1 + nd.len() as int,
                ));
                assert(!occurs_at(h, nd, j + 1));
            }
        }
        if m - 1 <= h.drop_first().len() - nd.len() {
            assert(occurs_at(h, nd, m));
            assert(h.drop_first().subrange(m - 1, m - 1 + nd.len() as int) =~= h.subrange(
                m,
                m + nd.len() as int,
            ));
            assert(occurs_at(h.drop_first(), nd, m - 1));
        }
        lemma_find_sub_scan(h.drop_first(), nd, m - 1);
    } else if nd.len() <= h.len() {
        assert(h.take(nd.len() as int) =~= h.subrange(0, 0 + nd.len() as int));
        assert(occurs_at(h, nd, 0));
        assert(m == 0);
    }
}

/// The first occurrence of `needle` in `hay`.
pub fn find_subseq(hay: &Vec<char>, needle: &Vec<char>) -> (r: Option<usize>)
    ensures
        match r {
            Some(p) => find_sub(hay@, needle@) == Some(p as int) && p + needle@.len()
                <= hay@.len(),
            None => find_sub(hay@, needle@) is None,
        },
{
    let n = hay.len();
    let m = needle.len();
    if m > n {
        return None;
    }
    if m == 0 {
        proof {
            assert(hay@.take(0) =~= needle@);
        }
        return Some(0);
    }
    let mut i: usize = 0;
    while i <= n - m
        invariant
            0 <= i <= n - m + 1,
            0 < m <= n,
            n == hay@.len(),
            m == needle@.len(),
            forall|j: int| 0 <= j < i ==> !#[trigger] occurs_at(hay@, needle@, j),
        decreases n - m - i + 1,
    {
        if crate::parser::matches_at(hay, i, needle) {
            proof {
                assert(hay@.skip(i as int).take(m as int) =~= hay@.subrange(
                    i as int,
                    i + m,
                ));
                assert(occurs_at(hay@, needle@, i as int));
                lemma_find_sub_scan(hay@, needle@, i as int);
            }
            return Some(i);
        }
        proof {
            assert(hay@.skip(i as int).take(m as int) =~= hay@.subrange(i as int, i + m));
            assert(!occurs_at(hay@, needle@, i as int));
        }
        i = i + 1;
    }
    proof {
        lemma_find_sub_scan(hay@, needle@, n - m + 1);
    }
    None
}

/// The window of `content` around a match at character index `start` of
/// length `mlen`: 50 characters of context each side, clamped to the text,
/// trimmed, and wrapped in ellipses; empty if the window is empty.
pub open spec fn snippet_window(content: Seq<char>, start: int, mlen: int) -> Seq<char> {
    let s0 = if start > 50 {
        start - 50
    } else {
        0
    };
    let s0c = if s0 > content.len() {
        content.len() as int
    } else {
        s0
    };
    let e0 = if start + mlen + 50 < content.len() {
        start + mlen + 50
    } else {
        content.len() as int
    };
    let snip = content.subrange(s0c, e0);
    if snip.len() == 0 {
        Seq::empty()
    } else {
        "..."@ + trim_spec(snip) + "..."@
    }
}

/// Cuts the context window around a match position.
pub fn build_context_snippet(content: &Vec<char>, start: usize, mlen: usize) -> (r: Vec<char>)
    ensures
        r@ == snippet_window(content@, start as int, mlen as int),
{
    let n = content.len();
    let s0 = if start > 50 {
        start - 50
    } else {
        0
    };
    let s0c = if s0 > n {
        n
    } else {
        s0
    };
    let e0 = if n > 50 && n - 50 > mlen && start < n - 50 - mlen {
        start + mlen + 50
    } else {
        n
    };
    proof {
        if start + mlen + 50 < n {
            assert(e0 == start + mlen + 50);
        } else {
            assert(e0 == n);
        }
    }
    let snip = subvec(content, s0c, e0);
    if snip.len() == 0 {
        let empty: Vec<char> = Vec::new();
        proof {
            assert(empty@ =~= Seq::<char>::empty());
        }
        return empty;
    }
    let tr = trim_chars(&snip);
    let dots = crate::strutil::chars_vec("...");
    let mut out = subvec(&dots, 0, dots.len());
    crate::strutil::push_all(&mut out, &tr);
    crate::strutil::push_all(&mut out, &dots);
    proof {
        assert(dots@.subrange(0, dots@.len() as int) =~= dots@);
        assert(out@ =~= "..."@ + trim_spec(snip@) + "..."@);
    }
    out
}

/// The whitespace-separated pieces of `s`, in order.
pub open spec fn ws_pieces(s: Seq<char>, cur: Seq<char>) -> Seq<Seq<char>>
    decreases s.len(),
{
    if s.len() == 0 {
        if cur.len() > 0 {
            seq![cur]
        } else {
            Seq::empty()
        }
    } else if is_ws(s[0]) {
        (if cur.len() > 0 {
            seq![cur]
        } else {
            Seq::empty()
        }) + ws_pieces(s.drop_first(), Seq::empty())
    } else {
        ws_pieces(s.drop_first(), cur.push(s[0]))
    }
}

/// The snippet of the first query token that occurs in the normalized
/// content; empty if none does.
pub open spec fn first_token_snippet(
    content: Seq<char>,
    cl: Seq<char>,
    toks: Seq<Seq<char>>,
) -> Seq<char>
    decreases toks.len(),
{
    if toks.len() == 0 {
        Seq::empty()
    } else {
        match find_sub(cl, toks[0]) {
            Some(p) => snippet_window(content, p, toks[0].len() as int),
            None => first_token_snippet(content, cl, toks.drop_first()),
        }
    }
}

/// What `extract_context` computes: the window around the first occurrence
/// of the whole query in the normalized content; failing that, around the
/// first occurrence of any whitespace-separated query token; else empty.
pub open spec fn extract_context_spec(content: Seq<char>, query: Seq<char>) -> Seq<char> {
    if content.len() == 0 || query.len() == 0 {
        Seq::empty()
    } else {
        let cl = normalize_spec(content);
        match find_sub(cl, query) {
            Some(p) => snippet_window(content, p, query.len() as int),
            None => first_token_snippet(content, cl, ws_pieces(query, Seq::empty())),
        }
    }
}

fn split_ws(q: &Vec<char>) -> (r: Vec<Vec<char>>)
    ensures
        r@.map_values(|p: Vec<char>| p@) == ws_pieces(q@, Seq::empty()),
{
    let n = q.len();
    let mut parts: Vec<Vec<char>> = Vec::new();
    let mut cur: Vec<char> = Vec::new();
    let mut i: usize = 0;
    proof {
        assert(q@.skip(0) =~= q@);
        assert(parts@.map_values(|p: Vec<char>| p@) + ws_pieces(q@, Seq::empty()) =~= ws_pieces(
            q@,
            Seq::empty(),
        ));
    }
    while i < n
        invariant
            0 <= i <= n,
            n == q@.len() <= usize::MAX,
            ws_pieces(q@, Seq::empty()) == parts@.map_values(|p: Vec<char>| p@) + ws_pieces(
                q@.skip(i as int),
                cur@,
            ),
        decreases n - i,
    {
        let ghost old_parts = parts@;
        let ghost old_cur = cur@;
        let c = q[i];
        proof {
            assert(q@.skip(i as int)[0] == q@[i as int]);
            assert(q@.skip(i as int).drop_first() =~= q@.skip(i + 1));
        }
        if crate::strutil::is_whitespace_char(c) {
            if cur.len() > 0 {
                parts.push(cur);
                cur = Vec::new();
                proof {
                    assert(parts@.map_values(|p: Vec<char>| p@) =~= old_parts.map_values(
                        |p: Vec<char>| p@,
                    ) + seq![old_cur]);
                    assert(old_parts.map_values(|p: Vec<char>| p@) + (seq![old_cur] + ws_pieces(
                        q@.skip(i + 1),
                        Seq::empty(),
                    )) =~= parts@.map_values(|p: Vec<char>| p@) + ws_pieces(
                        q@.skip(i + 1),
                        Seq::empty(),
                    ));
                    assert(cur@ =~= Seq::<char>::empty());
                }
            } else {
                proof {
                    assert(cur@ =~= Seq::<char>::empty());
                    assert(Seq::<Seq<char>>::empty() + ws_pieces(q@.skip(i + 1), Seq::empty())
                        =~= ws_pieces(q@.skip(i + 1), Seq::empty()));
                }
            }
        } else {
            cur.push(c);
        }
        i = i + 1;
    }
    proof {
        assert(q@.skip(n as int) =~= Seq::<char>::empty());
    }
    if cur.len() > 0 {
        let ghost old_parts = parts@;
        let ghost old_cur = cur@;
        parts.push(cur);
        proof {
            assert(parts@.map_values(|p: Vec<char>| p@) =~= old_parts.map_values(
                |p: Vec<char>| p@,
            ) + seq![old_cur]);
        }
    } else {
        proof {
            assert(parts@.map_values(|p: Vec<char>| p@) + Seq::<Seq<char>>::empty()
                =~= parts@.map_values(|p: Vec<char>| p@));
        }
    }
    parts
}

/// Extracts a human-readable snippet of `content` around the first match
/// of the already-normalized query; empty when nothing matches.
pub fn extract_context(content: &str, query: &str) -> (r: String)
    ensures
        r@ == extract_context_spec(content@, query@),
{
    let cc = crate::strutil::chars_vec(content);
    let qc = crate::strutil::chars_vec(query);
    if cc.len() == 0 || qc.len() == 0 {
        let empty: Vec<char> = Vec::new();
        proof {
            assert(empty@ =~= Seq::<char>::empty());
        }
        return string_from_chars(&empty);
    }
    let cl = normalize_chars(&cc);
    match find_subseq(&cl, &qc) {
        Some(p) => {
            let w = build_context_snippet(&cc, p, qc.len());
            string_from_chars(&w)
        },
        None => {
            let toks = split_ws(&qc);
            let ghost tm = toks@.map_values(|p: Vec<char>| p@);
            let mut k: usize = 0;
            let mut res: Vec<char> = Vec::new();
            let mut found = false;
            proof {
                assert(tm.skip(0) =~= tm);
            }
            while k < toks.len() && !found
                invariant
                    0 <= k <= toks@.len(),
                    tm == toks@.map_values(|p: Vec<char>| p@),
                    cl@ == normalize_spec(cc@),
                    !found ==> res@ == Seq::<char>::empty() && first_token_snippet(
                        cc@,
                        cl@,
                        tm,
                    ) == first_token_snippet(cc@, cl@, tm.skip(k as int)),
                    found ==> res@ == first_token_snippet(cc@, cl@, tm),
                decreases toks.len() - k,
            {
                proof {
                    assert(tm.skip(k as int)[0] == tm[k as int]);
                    assert(tm.skip(k as int).drop_first() =~= tm.skip(k + 1));
                }
                match find_subseq(&cl, &toks[k]) {
                    Some(p) => {
                        let w = build_context_snippet(&cc, p, toks[k].len());
                        res = w;
                        found = true;
                    },
                    None => {},
                }
                k = k + 1;
            }
            proof {
                if !found {
                    assert(tm.skip(tm.len() as int) =~= Seq::<Seq<char>>::empty());
                }
            }
            string_from_chars(&res)
        },
    }
}

} // verus!
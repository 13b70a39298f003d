//! Text canonicalization used before any comparison: Unicode compatibility
//! normalization (NFKC), per-character lowercasing, and removal of combining
//! marks. The tokenizer, the query compiler and the fallback substring scan
//! all normalize both sides with the same function, so matches line up.

use vstd::prelude::*;

use crate::strutil::{chars_vec, string_from_chars};

verus! {

/// The NFKC normalization of a character sequence, as computed by the
/// `unicode-normalization` crate. The mapping is a pure function of the
/// input characters, fixed by the Unicode character database.
pub uninterp spec fn nfkc_of(s: Seq<char>) -> Seq<char>;

/// The Unicode lowercase mapping of one character, as computed by
/// `char::to_lowercase` (possibly more than one character long).
pub uninterp spec fn lower_char_of(c: char) -> Seq<char>;

/// The Unicode canonical combining class of one character, as computed by
/// `unicode_normalization::char::canonical_combining_class`.
pub uninterp spec fn combining_class_of(c: char) -> u8;

/// Relies on `UnicodeNormalization::nfkc` (unicode-normalization): yields the
/// input in Unicode Normalization Form KC, a pure function of the characters.
#[verifier::external_body]
fn nfkc_chars(s: &str) -> (r: Vec<char>)
    ensures
        r@ == nfkc_of(s@),
{
    unicode_normalization::UnicodeNormalization::nfkc(s).collect()
}

/// Relies on `char::to_lowercase`: yields the Unicode lowercase mapping of
/// the character, a pure function of the character.
#[verifier::external_body]
fn lower_char(c: char) -> (r: Vec<char>)
    ensures
        r@ == lower_char_of(c),
{
    c.to_lowercase().collect()
}

/// Relies on `unicode_normalization::char::canonical_combining_class`: a
/// table lookup, a pure function of the character.
#[verifier::external_body]
fn combining_class(c: char) -> (r: u8)
    ensures
        r == combining_class_of(c),
{
    unicode_normalization::char::canonical_combining_class(c)
}

/// Each character replaced by its Unicode lowercase mapping.
pub open spec fn lower_seq(s: Seq<char>) -> Seq<char>
    decreases s.len(),
{
    if s.len() == 0 {
        Seq::empty()
    } else {
        lower_char_of(s[0]) + lower_seq(s.drop_first())
    }
}

/// The characters whose canonical combining class is zero, in order:
/// combining marks (diacritics) are dropped.
pub open spec fn strip_marks(s: Seq<char>) -> Seq<char>
    decreases s.len(),
{
    if s.len() == 0 {
        Seq::empty()
    } else if combining_class_of(s[0]) == 0 {
        seq![s[0]] + strip_marks(s.drop_first())
    } else {
        strip_marks(s.drop_first())
    }
}

/// What `normalize` computes: NFKC, then lowercasing, then mark stripping.
pub open spec fn normalize_spec(s: Seq<char>) -> Seq<char> {
    strip_marks(lower_seq(nfkc_of(s)))
}

proof fn lemma_lower_seq_push(s: Seq<char>, c: char)
    ensures
        lower_seq(s.push(c)) == lower_seq(s) + lower_char_of(c),
    decreases s.len(),
{
    if s.len() == 0 {
        assert(s.push(c)[0] == c);
        assert(s.push(c).drop_first() =~= Seq::<char>::empty());
        assert(lower_seq(Seq::<char>::empty()) == Seq::<char>::empty());
        assert(lower_char_of(c) + Seq::<char>::empty() =~= lower_char_of(c));
        assert(lower_seq(s.push(c)) =~= lower_char_of(c));
        assert(lower_seq(s) + lower_char_of(c) =~= lower_char_of(c));
    } else {
        assert(s.push(c)[0] == s[0]);
        assert(s.push(c).drop_first() =~= s.drop_first().push(c));
        lemma_lower_seq_push(s.drop_first(), c);
        assert(lower_char_of(s[0]) + (lower_seq(s.drop_first()) + lower_char_of(c)) =~= (
        lower_char_of(s[0]) + lower_seq(s.drop_first())) + lower_char_of(c));
    }
}

proof fn lemma_strip_marks_add(a: Seq<char>, b: Seq<char>)
    ensures
        strip_marks(a + b) == strip_marks(a) + strip_marks(b),
    decreases a.len(),
{
    if a.len() == 0 {
        assert(a + b =~= b);
        assert(strip_marks(a) + strip_marks(b) =~= strip_marks(b));
    } else {
        assert((a + b)[0] == a[0]);
        assert((a + b).drop_first() =~= a.drop_first() + b);
        lemma_strip_marks_add(a.drop_first(), b);
        if combining_class_of(a[0]) == 0 {
            assert(seq![a[0]] + (strip_marks(a.drop_first()) + strip_marks(b)) =~= (seq![a[0]]
                + strip_marks(a.drop_first())) + strip_marks(b));
        }
    }
}

/// Canonicalizes text for comparison: NFKC compatibility normalization,
/// per-character lowercasing, then removal of every character whose
/// canonical combining class is not zero. Total; never fails.
pub fn normalize(text: &str) -> (r: String)
    ensures
        r@ == normalize_spec(text@),
{
    let nk = nfkc_chars(text);
    let mut out: Vec<char> = Vec::new();
    let mut i: usize = 0;
    while i < nk.len()
        invariant
            0 <= i <= nk.len(),
            nk@ == nfkc_of(text@),
            out@ == strip_marks(lower_seq(nk@.take(i as int))),
        decreases nk.len() - i,
    {
        let low = lower_char(nk[i]);
        let mut j: usize = 0;
        while j < low.len()
            invariant
                0 <= j <= low.len(),
                low@ == lower_char_of(nk@[i as int]),
                i < nk.len(),
                nk@ == nfkc_of(text@),
                out@ == strip_marks(lower_seq(nk@.take(i as int)))
                    + strip_marks(low@.take(j as int)),
            decreases low.len() - j,
        {
            let c = low[j];
            proof {
                assert(low@.take(j + 1).drop_last() =~= low@.take(j as int));
                assert(low@.take(j + 1).last() == c);
                assert(low@.take(j + 1) =~= low@.take(j as int).push(c));
                lemma_strip_marks_add(low@.take(j as int), seq![c]);
                assert(low@.take(j as int) + seq![c] =~= low@.take(j + 1));
                let one = seq![c];
                assert(one.len() == 1 && one[0] == c);
                assert(one.drop_first() =~= Seq::<char>::empty());
                assert(strip_marks(Seq::<char>::empty()) == Seq::<char>::empty());
                if combining_class_of(c) == 0 {
                    assert(strip_marks(one) =~= one);
                } else {
                    assert(strip_marks(one) =~= Seq::<char>::empty());
                }
            }
            if combining_class(c) == 0 {
                out.push(c);
            }
            j = j + 1;
        }
        proof {
            assert(low@.take(low@.len() as int) =~= low@);
            assert(nk@.take(i + 1) =~= nk@.take(i as int).push(nk@[i as int]));
            lemma_lower_seq_push(nk@.take(i as int), nk@[i as int]);
            lemma_strip_marks_add(lower_seq(nk@.take(i as int)), lower_char_of(nk@[i as int]));
        }
        i = i + 1;
    }
    proof {
        assert(nk@.take(nk@.len() as int) =~= nk@);
    }
    string_from_chars(&out)
}

/// A convenience form of `normalize` for already-collected characters.
pub fn normalize_chars(text: &Vec<char>) -> (r: Vec<char>)
    ensures
        r@ == normalize_spec(text@),
{
    let s = string_from_chars(text);
    let n = normalize(s.as_str());
    chars_vec(n.as_str())
}

proof fn lemma_strip_marks_all_kept(s: Seq<char>)
    requires
        forall|i: int| 0 <= i < s.len() ==> combining_class_of(#[trigger] s[i]) == 0,
    ensures
        strip_marks(s) == s,
    decreases s.len(),
{
    if s.len() > 0 {
        lemma_strip_marks_all_kept(s.drop_first());
        assert(seq![s[0]] + s.drop_first() =~= s);
    }
}

proof fn lemma_strip_marks_classes(s: Seq<char>)
    ensures
        forall|i: int|
            0 <= i < strip_marks(s).len() ==> combining_class_of(#[trigger] strip_marks(s)[i])
                == 0,
    decreases s.len(),
{
    if s.len() > 0 {
        lemma_strip_marks_classes(s.drop_first());
        if combining_class_of(s[0]) == 0 {
            assert(forall|i: int|
                0 <= i < strip_marks(s).len() ==> #[trigger] strip_marks(s)[i] == (seq![s[0]]
                    + strip_marks(s.drop_first()))[i]);
        }
    }
}

proof fn lemma_lower_seq_identity(s: Seq<char>)
    requires
        forall|i: int| 0 <= i < s.len() ==> lower_char_of(#[trigger] s[i]) == seq![s[i]],
    ensures
        lower_seq(s) == s,
    decreases s.len(),
{
    if s.len() > 0 {
        lemma_lower_seq_identity(s.drop_first());
        assert(lower_seq(s) == lower_char_of(s[0]) + lower_seq(s.drop_first()));
        assert(seq![s[0]] + s.drop_first() =~= s);
    }
}

/// Law: normalization is idempotent, `normalize(normalize(x)) == normalize(x)`.
///
/// The proof needs two stability facts about the already-normalized text,
/// taken here as hypotheses because the Unicode data alone fixes them per
/// input: re-running NFKC on it gives it back, and each of its characters
/// is its own lowercase mapping. Inputs for which either fails (none is
/// documented to exist, but the Unicode standard does not rule them out
/// for arbitrary input) are outside this lemma. Mark stripping needs no
/// hypothesis: it is shown idempotent outright.
pub proof fn lemma_normalize_idempotent(s: Seq<char>)
    requires
        nfkc_of(normalize_spec(s)) == normalize_spec(s),
        forall|i: int|
            0 <= i < normalize_spec(s).len() ==> lower_char_of(#[trigger] normalize_spec(s)[i])
                == seq![normalize_spec(s)[i]],
    ensures
        normalize_spec(normalize_spec(s)) == normalize_spec(s),
{
    let n = normalize_spec(s);
    lemma_lower_seq_identity(n);
    lemma_strip_marks_classes(lower_seq(nfkc_of(s)));
    lemma_strip_marks_all_kept(n);
}

} // verus!

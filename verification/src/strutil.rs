//! Character-level utilities shared by the parser, tokenizer and search code.
//!
//! All text processing in this crate works on `Vec<char>` so that every
//! transformation can be specified over `Seq<char>`. The only trusted
//! bridges to `std` are the conversions between `&str`/`String` and
//! character vectors, and string equality.

use vstd::prelude::*;

verus! {

/// Relies on `str::chars` and `Iterator::collect`: the iterator yields
/// exactly the characters of the string, in order.
#[verifier::external_body]
pub fn chars_vec(s: &str) -> (r: Vec<char>)
    ensures
        r@ == s@,
{
    s.chars().collect()
}

/// Relies on `String::from_iter` over `char`: the collected string holds
/// exactly the given characters, in order.
#[verifier::external_body]
pub fn string_from_chars(v: &Vec<char>) -> (r: String)
    ensures
        r@ == v@,
{
    v.iter().collect()
}

/// Relies on `str::eq`: two string slices compare equal exactly when their
/// character sequences are equal.
#[verifier::external_body]
pub fn str_eq(a: &str, b: &str) -> (r: bool)
    ensures
        r == (a@ == b@),
{
    a == b
}

/// The Unicode `White_Space` characters, the set `char::is_whitespace`
/// recognizes.
pub open spec fn is_ws(c: char) -> bool {
    c == ' ' || c == '\t' || c == '\n' || c == '\u{0B}' || c == '\u{0C}' || c == '\r'
        || c == '\u{85}' || c == '\u{A0}' || c == '\u{1680}'
        || ('\u{2000}' <= c && c <= '\u{200A}')
        || c == '\u{2028}' || c == '\u{2029}' || c == '\u{202F}' || c == '\u{205F}'
        || c == '\u{3000}'
}

pub fn is_whitespace_char(c: char) -> (r: bool)
    ensures
        r == is_ws(c),
{
    c == ' ' || c == '\t' || c == '\n' || c == '\u{0B}' || c == '\u{0C}' || c == '\r'
        || c == '\u{85}' || c == '\u{A0}' || c == '\u{1680}'
        || ('\u{2000}' <= c && c <= '\u{200A}')
        || c == '\u{2028}' || c == '\u{2029}' || c == '\u{202F}' || c == '\u{205F}'
        || c == '\u{3000}'
}

/// `s` with leading and trailing whitespace removed.
pub open spec fn trim_spec(s: Seq<char>) -> Seq<char> {
    trim_start_spec(trim_end_spec(s))
}

pub open spec fn trim_start_spec(s: Seq<char>) -> Seq<char>
    decreases s.len(),
{
    if s.len() == 0 {
        s
    } else if is_ws(s[0]) {
        trim_start_spec(s.drop_first())
    } else {
        s
    }
}

pub open spec fn trim_end_spec(s: Seq<char>) -> Seq<char>
    decreases s.len(),
{
    if s.len() == 0 {
        s
    } else if is_ws(s.last()) {
        trim_end_spec(s.drop_last())
    } else {
        s
    }
}

proof fn lemma_trim_start_prefix(s: Seq<char>, i: int)
    requires
        0 <= i <= s.len(),
        forall|j: int| 0 <= j < i ==> is_ws(s[j]),
    ensures
        trim_start_spec(s) == trim_start_spec(s.skip(i)),
    decreases i,
{
    if i > 0 {
        assert(is_ws(s[0]));
        assert(s.drop_first() =~= s.skip(1));
        lemma_trim_start_prefix(s.skip(1), i - 1);
        assert(s.skip(1).skip(i - 1) =~= s.skip(i));
    } else {
        assert(s.skip(0) =~= s);
    }
}

proof fn lemma_trim_end_suffix(s: Seq<char>, i: int)
    requires
        0 <= i <= s.len(),
        forall|j: int| i <= j < s.len() ==> is_ws(s[j]),
    ensures
        trim_end_spec(s) == trim_end_spec(s.take(i)),
    decreases s.len() - i,
{
    if i < s.len() {
        assert(is_ws(s.last()));
        assert(s.drop_last() =~= s.take(s.len() - 1));
        lemma_trim_end_suffix(s.take(s.len() - 1), i);
        assert(s.take(s.len() - 1).take(i) =~= s.take(i));
    } else {
        assert(s.take(i) =~= s);
    }
}

/// Removes leading and trailing whitespace.
pub fn trim_chars(s: &Vec<char>) -> (r: Vec<char>)
    ensures
        r@ == trim_spec(s@),
{
    let mut start: usize = 0;
    while start < s.len() && is_whitespace_char(s[start])
        invariant
            0 <= start <= s.len(),
            forall|j: int| 0 <= j < start ==> is_ws(s@[j]),
        decreases s.len() - start,
    {
        start = start + 1;
    }
    let mut end: usize = s.len();
    while end > start && is_whitespace_char(s[end - 1])
        invariant
            start <= end <= s.len(),
            forall|j: int| 0 <= j < start ==> is_ws(s@[j]),
            forall|j: int| end <= j < s.len() ==> is_ws(s@[j]),
        decreases end,
    {
        end = end - 1;
    }
    let mut r: Vec<char> = Vec::new();
    let mut i: usize = start;
    while i < end
        invariant
            start <= i <= end <= s.len(),
            r@ == s@.subrange(start as int, i as int),
        decreases end - i,
    {
        r.push(s[i]);
        assert(r@ =~= s@.subrange(start as int, i + 1));
        i = i + 1;
    }
    proof {
        if start == end {
            assert(forall|j: int| 0 <= j < s@.len() ==> is_ws(s@[j]));
            lemma_trim_end_suffix(s@, 0);
            assert(s@.take(0) =~= Seq::<char>::empty());
            assert(trim_end_spec(s@) == Seq::<char>::empty());
            assert(trim_spec(s@) == Seq::<char>::empty());
            assert(r@ =~= Seq::<char>::empty());
        } else {
            let t = s@.take(end as int);
            lemma_trim_end_suffix(s@, end as int);
            assert(t.last() == s@[end - 1]);
            assert(trim_end_spec(t) == t);
            lemma_trim_start_prefix(t, start as int);
            assert(t.skip(start as int) =~= s@.subrange(start as int, end as int));
            assert(!is_ws(s@[start as int]));
            assert(trim_start_spec(t.skip(start as int)) == t.skip(start as int));
            assert(r@ =~= s@.subrange(start as int, end as int));
        }
    }
    r
}

/// The first index of `s` holding `a` or `b` (pass the same character twice
/// to search for one).
pub open spec fn find2(s: Seq<char>, a: char, b: char) -> Option<nat>
    decreases s.len(),
{
    if s.len() == 0 {
        None
    } else if s[0] == a || s[0] == b {
        Some(0 as nat)
    } else {
        match find2(s.drop_first(), a, b) {
            Some(m) => Some((m + 1) as nat),
            None => None,
        }
    }
}

pub proof fn lemma_find2_from_scan(s: Seq<char>, a: char, b: char, m: int)
    requires
        0 <= m <= s.len(),
        forall|j: int| 0 <= j < m ==> s[j] != a && s[j] != b,
        m < s.len() ==> (s[m] == a || s[m] == b),
    ensures
        m < s.len() ==> find2(s, a, b) == Some(m as nat),
        m == s.len() ==> find2(s, a, b) is None,
    decreases s.len(),
{
    if s.len() > 0 && !(s[0] == a || s[0] == b) {
        assert(s[0] != a && s[0] != b);
        assert(m != 0);
        assert(forall|j: int|
            0 <= j < m - 1 ==> s.drop_first()[j] == s[j + 1] && s[j + 1] != a && s[j + 1] != b);
        lemma_find2_from_scan(s.drop_first(), a, b, m - 1);
    }
}

pub proof fn lemma_find2_props(s: Seq<char>, a: char, b: char)
    ensures
        match find2(s, a, b) {
            Some(m) => 0 <= m < s.len() && (s[m as int] == a || s[m as int] == b) && forall|j: int|
                0 <= j < m ==> s[j] != a && s[j] != b,
            None => forall|j: int| 0 <= j < s.len() ==> s[j] != a && s[j] != b,
        },
    decreases s.len(),
{
    if s.len() > 0 && !(s[0] == a || s[0] == b) {
        lemma_find2_props(s.drop_first(), a, b);
        match find2(s.drop_first(), a, b) {
            Some(m) => {
                assert(forall|j: int| 1 <= j < m + 1 ==> s[j] == s.drop_first()[j - 1]);
            },
            None => {
                assert(forall|j: int| 1 <= j < s.len() ==> s[j] == s.drop_first()[j - 1]);
            },
        }
    }
}

/// The first index at or after `from` holding `a` or `b`.
pub fn find_char2(s: &Vec<char>, from: usize, a: char, b: char) -> (r: Option<usize>)
    requires
        from <= s@.len(),
    ensures
        match r {
            Some(i) => from <= i < s@.len() && (s@[i as int] == a || s@[i as int] == b) && find2(
                s@.skip(from as int),
                a,
                b,
            ) == Some((i - from) as nat),
            None => find2(s@.skip(from as int), a, b) is None,
        },
{
    let mut i: usize = from;
    while i < s.len()
        invariant
            from <= i <= s@.len(),
            forall|j: int| from <= j < i ==> s@[j] != a && s@[j] != b,
        decreases s.len() - i,
    {
        if s[i] == a || s[i] == b {
            proof {
                lemma_find2_from_scan(s@.skip(from as int), a, b, i - from);
            }
            return Some(i);
        }
        i = i + 1;
    }
    proof {
        lemma_find2_from_scan(s@.skip(from as int), a, b, s@.len() - from);
    }
    None
}

/// A copy of `s[from..to]`.
pub fn subvec(s: &Vec<char>, from: usize, to: usize) -> (r: Vec<char>)
    requires
        from <= to <= s@.len(),
    ensures
        r@ == s@.subrange(from as int, to as int),
{
    let mut r: Vec<char> = Vec::new();
    let mut i: usize = from;
    while i < to
        invariant
            from <= i <= to <= s@.len(),
            r@ == s@.subrange(from as int, i as int),
        decreases to - i,
    {
        r.push(s[i]);
        assert(r@ =~= s@.subrange(from as int, i + 1));
        i = i + 1;
    }
    r
}

/// Appends all of `xs` to `out`.
pub fn push_all(out: &mut Vec<char>, xs: &Vec<char>)
    ensures
        final(out)@ == old(out)@ + xs@,
{
    let mut i: usize = 0;
    while i < xs.len()
        invariant
            0 <= i <= xs@.len(),
            out@ == old(out)@ + xs@.take(i as int),
        decreases xs.len() - i,
    {
        out.push(xs[i]);
        assert(out@ =~= old(out)@ + xs@.take(i + 1));
        i = i + 1;
    }
    assert(out@ =~= old(out)@ + xs@);
}

pub fn chars_eq(a: &Vec<char>, b: &Vec<char>) -> (r: bool)
    ensures
        r == (a@ == b@),
{
    if a.len() != b.len() {
        return false;
    }
    let mut i: usize = 0;
    while i < a.len()
        invariant
            a@.len() == b@.len(),
            0 <= i <= a@.len(),
            forall|j: int| 0 <= j < i ==> a@[j] == b@[j],
        decreases a.len() - i,
    {
        if a[i] != b[i] {
            return false;
        }
        i = i + 1;
    }
    proof {
        assert(a@ =~= b@);
    }
    true
}

/// Whether the characters of `v` are exactly those of `lit`.
pub fn chars_eq_str(v: &Vec<char>, lit: &str) -> (r: bool)
    ensures
        r == (v@ == lit@),
{
    let l = chars_vec(lit);
    chars_eq(v, &l)
}

/// Splits on the separator characters `a` and `b`, keeping empty pieces.
pub open spec fn split2_spec(s: Seq<char>, a: char, b: char) -> Seq<Seq<char>>
    decreases s.len(),
    via split2_spec_dec
{
    match find2(s, a, b) {
        None => seq![s],
        Some(m) => seq![s.take(m as int)] + split2_spec(s.skip(m as int + 1), a, b),
    }
}

#[via_fn]
proof fn split2_spec_dec(s: Seq<char>, a: char, b: char) {
    lemma_find2_props(s, a, b);
}

pub fn split_by_chars(s: &Vec<char>, a: char, b: char) -> (r: Vec<Vec<char>>)
    ensures
        r@.map_values(|p: Vec<char>| p@) == split2_spec(s@, a, b),
{
    let mut parts: Vec<Vec<char>> = Vec::new();
    let n = s.len();
    let mut j: usize = 0;
    proof {
        assert(s@.len() == n as int);
        assert(s@.skip(0) =~= s@);
        assert(parts@.map_values(|p: Vec<char>| p@) + split2_spec(s@, a, b) =~= split2_spec(
            s@,
            a,
            b,
        ));
    }
    loop
        invariant
            0 <= j <= s@.len() <= usize::MAX,
            split2_spec(s@, a, b) == parts@.map_values(|p: Vec<char>| p@) + split2_spec(
                s@.skip(j as int),
                a,
                b,
            ),
        decreases s@.len() - j + 1,
    {
        let ghost old_parts = parts@;
        proof {
            lemma_find2_props(s@.skip(j as int), a, b);
        }
        match find_char2(s, j, a, b) {
            Some(i) => {
                let piece = subvec(s, j, i);
                parts.push(piece);
                proof {
                    assert(s@.skip(j as int).take(i - j) =~= s@.subrange(j as int, i as int));
                    assert(s@.skip(j as int).skip(i - j + 1) =~= s@.skip(i + 1));
                    assert(parts@.map_values(|p: Vec<char>| p@) =~= old_parts.map_values(
                        |p: Vec<char>| p@,
                    ) + seq![s@.subrange(j as int, i as int)]);
                    assert(old_parts.map_values(|p: Vec<char>| p@) + (seq![
                        s@.subrange(j as int, i as int),
                    ] + split2_spec(s@.skip(i + 1), a, b)) =~= parts@.map_values(
                        |p: Vec<char>| p@,
                    ) + split2_spec(s@.skip(i + 1), a, b));
                }
                j = i + 1;
            },
            None => {
                let piece = subvec(s, j, s.len());
                parts.push(piece);
                proof {
                    assert(s@.skip(j as int) =~= s@.subrange(j as int, s@.len() as int));
                    assert(parts@.map_values(|p: Vec<char>| p@) =~= old_parts.map_values(
                        |p: Vec<char>| p@,
                    ) + seq![s@.skip(j as int)]);
                }
                return parts;
            },
        }
    }
}

/// The pieces joined with the separator character between them.
pub open spec fn join_with(ls: Seq<Seq<char>>, sep: char) -> Seq<char>
    decreases ls.len(),
{
    if ls.len() == 0 {
        Seq::empty()
    } else if ls.len() == 1 {
        ls[0]
    } else {
        join_with(ls.drop_last(), sep) + seq![sep] + ls.last()
    }
}

/// Joins character-vector pieces with a separator character.
pub fn join_chars(parts: &Vec<Vec<char>>, sep: char) -> (r: Vec<char>)
    ensures
        r@ == join_with(parts@.map_values(|p: Vec<char>| p@), sep),
{
    let ghost ls = parts@.map_values(|p: Vec<char>| p@);
    let mut out: Vec<char> = Vec::new();
    let mut k: usize = 0;
    proof {
        assert(ls.take(0) =~= Seq::<Seq<char>>::empty());
    }
    while k < parts.len()
        invariant
            0 <= k <= parts@.len(),
            ls == parts@.map_values(|p: Vec<char>| p@),
            out@ == join_with(ls.take(k as int), sep),
        decreases parts.len() - k,
    {
        let ghost old_out = out@;
        if k > 0 {
            out.push(sep);
        }
        push_all(&mut out, &parts[k]);
        proof {
            assert(ls.take(k + 1).drop_last() =~= ls.take(k as int));
            assert(ls.take(k + 1).last() == ls[k as int]);
            if k == 0 {
                assert(ls.take(1).len() == 1);
                assert(out@ =~= ls[0]);
            } else {
                assert(ls.take(k + 1).len() >= 2);
                assert(out@ =~= join_with(ls.take(k as int), sep) + seq![sep] + ls[k as int]);
            }
        }
        k = k + 1;
    }
    proof {
        assert(ls.take(ls.len() as int) =~= ls);
    }
    out
}

/// The pieces joined with a separator string between them.
pub open spec fn join_with_str(ls: Seq<Seq<char>>, sep: Seq<char>) -> Seq<char>
    decreases ls.len(),
{
    if ls.len() == 0 {
        Seq::empty()
    } else if ls.len() == 1 {
        ls[0]
    } else {
        join_with_str(ls.drop_last(), sep) + sep + ls.last()
    }
}

/// Joins character-vector pieces with a separator string.
pub fn join_chars_str(parts: &Vec<Vec<char>>, sep: &Vec<char>) -> (r: Vec<char>)
    ensures
        r@ == join_with_str(parts@.map_values(|p: Vec<char>| p@), sep@),
{
    let ghost ls = parts@.map_values(|p: Vec<char>| p@);
    let mut out: Vec<char> = Vec::new();
    let mut k: usize = 0;
    proof {
        assert(ls.take(0) =~= Seq::<Seq<char>>::empty());
    }
    while k < parts.len()
        invariant
            0 <= k <= parts@.len(),
            ls == parts@.map_values(|p: Vec<char>| p@),
            out@ == join_with_str(ls.take(k as int), sep@),
        decreases parts.len() - k,
    {
        if k > 0 {
            push_all(&mut out, sep);
        }
        push_all(&mut out, &parts[k]);
        proof {
            assert(ls.take(k + 1).drop_last() =~= ls.take(k as int));
            assert(ls.take(k + 1).last() == ls[k as int]);
            if k == 0 {
                assert(ls.take(1).len() == 1);
                assert(out@ =~= ls[0]);
            } else {
                assert(out@ =~= join_with_str(ls.take(k as int), sep@) + sep@ + ls[k as int]);
            }
        }
        k = k + 1;
    }
    proof {
        assert(ls.take(ls.len() as int) =~= ls);
    }
    out
}

/// An owned copy of a string slice.
pub fn str_owned(s: &str) -> (r: String)
    ensures
        r@ == s@,
{
    let v = chars_vec(s);
    string_from_chars(&v)
}

pub open spec fn digit_char(d: int) -> char {
    if d == 0 {
        '0'
    } else if d == 1 {
        '1'
    } else if d == 2 {
        '2'
    } else if d == 3 {
        '3'
    } else if d == 4 {
        '4'
    } else if d == 5 {
        '5'
    } else if d == 6 {
        '6'
    } else if d == 7 {
        '7'
    } else if d == 8 {
        '8'
    } else {
        '9'
    }
}

/// The decimal representation of a number.
pub open spec fn dec_spec(n: nat) -> Seq<char>
    decreases n,
{
    if n < 10 {
        seq![digit_char(n as int)]
    } else {
        dec_spec(n / 10) + seq![digit_char((n % 10) as int)]
    }
}

fn digit_char_exec(d: u64) -> (r: char)
    requires
        d < 10,
    ensures
        r == digit_char(d as int),
{
    if d == 0 {
        '0'
    } else if d == 1 {
        '1'
    } else if d == 2 {
        '2'
    } else if d == 3 {
        '3'
    } else if d == 4 {
        '4'
    } else if d == 5 {
        '5'
    } else if d == 6 {
        '6'
    } else if d == 7 {
        '7'
    } else if d == 8 {
        '8'
    } else {
        '9'
    }
}

/// The decimal digits of `n`.
pub fn u64_to_chars(n: u64) -> (r: Vec<char>)
    ensures
        r@ == dec_spec(n as nat),
    decreases n,
{
    if n < 10 {
        let mut out: Vec<char> = Vec::new();
        out.push(digit_char_exec(n));
        proof {
            assert(out@ =~= seq![digit_char(n as int)]);
        }
        out
    } else {
        let mut out = u64_to_chars(n / 10);
        out.push(digit_char_exec(n % 10));
        proof {
            assert(out@ =~= dec_spec((n / 10) as nat) + seq![digit_char((n % 10) as int)]);
        }
        out
    }
}

pub open spec fn is_digit(c: char) -> bool {
    '0' <= c && c <= '9'
}

pub open spec fn digit_val(c: char) -> int {
    c as u32 - 48
}

/// The value of a digit string, most significant digit first.
pub open spec fn digits_val(ds: Seq<char>) -> int
    decreases ds.len(),
{
    if ds.len() == 0 {
        0
    } else {
        digits_val(ds.drop_last()) * 10 + digit_val(ds.last())
    }
}

pub proof fn lemma_digits_val_nonneg(ds: Seq<char>)
    requires
        forall|i: int| 0 <= i < ds.len() ==> is_digit(#[trigger] ds[i]),
    ensures
        digits_val(ds) >= 0,
    decreases ds.len(),
{
    if ds.len() > 0 {
        lemma_digits_val_nonneg(ds.drop_last());
        assert(is_digit(ds.last()));
        assert(digit_val(ds.last()) >= 0);
    }
}

/// Accumulates the value of a digit run, reporting `None` when the value
/// exceeds `limit`.
pub fn digits_value_capped(ds: &Vec<char>, limit: u64) -> (r: Option<u64>)
    requires
        forall|i: int| 0 <= i < ds@.len() ==> is_digit(#[trigger] ds@[i]),
    ensures
        match r {
            Some(v) => v == digits_val(ds@) && v <= limit,
            None => digits_val(ds@) > limit,
        },
{
    let mut acc: u128 = 0;
    let mut over = false;
    let mut j: usize = 0;
    proof {
        assert(ds@.take(0) =~= Seq::<char>::empty());
    }
    while j < ds.len()
        invariant
            0 <= j <= ds@.len(),
            forall|i: int| 0 <= i < ds@.len() ==> is_digit(#[trigger] ds@[i]),
            limit <= u64::MAX,
            !over ==> acc == digits_val(ds@.take(j as int)) && acc <= limit,
            over ==> digits_val(ds@.take(j as int)) > limit,
        decreases ds.len() - j,
    {
        let c = ds[j];
        let d: u128 = if c == '0' {
            0
        } else if c == '1' {
            1
        } else if c == '2' {
            2
        } else if c == '3' {
            3
        } else if c == '4' {
            4
        } else if c == '5' {
            5
        } else if c == '6' {
            6
        } else if c == '7' {
            7
        } else if c == '8' {
            8
        } else {
            9
        };
        proof {
            assert(is_digit(ds@[j as int]));
            assert(d == digit_val(ds@[j as int]));
            assert(ds@.take(j + 1).drop_last() =~= ds@.take(j as int));
            assert(ds@.take(j + 1).last() == ds@[j as int]);
            lemma_digits_val_nonneg(ds@.take(j as int));
        }
        if !over {
            let next: u128 = acc * 10 + d;
            if next > limit as u128 {
                over = true;
                proof {
                    assert(digits_val(ds@.take(j + 1)) == digits_val(ds@.take(j as int)) * 10
                        + digit_val(ds@[j as int]));
                }
            } else {
                acc = next;
            }
        } else {
            proof {
                assert(digits_val(ds@.take(j as int)) > limit);
                assert(digits_val(ds@.take(j + 1)) > limit);
            }
        }
        j = j + 1;
    }
    proof {
        assert(ds@.take(ds@.len() as int) =~= ds@);
    }
    if over {
        None
    } else {
        Some(acc as u64)
    }
}

pub open spec fn all_digits(ds: Seq<char>) -> bool {
    forall|i: int| 0 <= i < ds.len() ==> is_digit(#[trigger] ds[i])
}

/// What parsing a signed 64-bit integer from text yields: an optional sign,
/// then at least one digit and nothing else, with the value in range.
pub open spec fn parse_i64_spec(s: Seq<char>) -> Option<int> {
    if s.len() == 0 {
        None
    } else {
        let neg = s[0] == '-';
        let ds = if s[0] == '-' || s[0] == '+' {
            s.drop_first()
        } else {
            s
        };
        if ds.len() == 0 || !all_digits(ds) {
            None
        } else {
            let v = digits_val(ds);
            if neg {
                if v <= 0x8000_0000_0000_0000 {
                    Some(-v)
                } else {
                    None
                }
            } else {
                if v <= i64::MAX {
                    Some(v)
                } else {
                    None
                }
            }
        }
    }
}

/// Parses a signed decimal 64-bit integer, as `str::parse::<i64>` does.
pub fn parse_i64(s: &Vec<char>) -> (r: Option<i64>)
    ensures
        match r {
            Some(v) => parse_i64_spec(s@) == Some(v as int),
            None => parse_i64_spec(s@) is None,
        },
{
    if s.len() == 0 {
        return None;
    }
    let c0 = s[0];
    let neg = c0 == '-';
    let start: usize = if c0 == '-' || c0 == '+' {
        1
    } else {
        0
    };
    let ds = subvec(s, start, s.len());
    proof {
        if start == 1 {
            assert(ds@ =~= s@.drop_first());
        } else {
            assert(ds@ =~= s@);
        }
    }
    if ds.len() == 0 {
        return None;
    }
    let mut j: usize = 0;
    while j < ds.len()
        invariant
            0 <= j <= ds@.len(),
            s@.len() > 0,
            ds@.len() > 0,
            ds@ == if s@[0] == '-' || s@[0] == '+' {
                s@.drop_first()
            } else {
                s@
            },
            forall|i: int| 0 <= i < j ==> is_digit(#[trigger] ds@[i]),
        decreases ds.len() - j,
    {
        let c = ds[j];
        if !('0' <= c && c <= '9') {
            proof {
                let dsp = if s@[0] == '-' || s@[0] == '+' {
                    s@.drop_first()
                } else {
                    s@
                };
                assert(!is_digit(dsp[j as int]));
                assert(!all_digits(dsp));
            }
            return None;
        }
        j = j + 1;
    }
    if neg {
        match digits_value_capped(&ds, 0x8000_0000_0000_0000u64) {
            Some(v) => {
                if v == 0x8000_0000_0000_0000u64 {
                    Some(i64::MIN)
                } else {
                    let pos = v as i64;
                    Some(0i64 - pos)
                }
            },
            None => None,
        }
    } else {
        match digits_value_capped(&ds, 0x7FFF_FFFF_FFFF_FFFFu64) {
            Some(v) => Some(v as i64),
            None => None,
        }
    }
}

} // verus!

//! Ordering of story group identifiers: the embedded numbers compare
//! numerically (shorter lists padded with zeros), ties fall back to plain
//! lexicographic text order.

use vstd::prelude::*;

use core::cmp::Ordering;

use crate::parser::count_digits;
use crate::strutil::{chars_vec, digits_val, is_digit, lemma_digits_val_nonneg};

verus! {

/// The values of the maximal digit runs of `s`, in order; a run whose value
/// does not fit an `i32` is skipped.
pub open spec fn numeric_parts_spec(s: Seq<char>) -> Seq<int>
    decreases s.len(),
    via numeric_parts_dec
{
    if s.len() == 0 {
        Seq::empty()
    } else if !is_digit(s[0]) {
        numeric_parts_spec(s.drop_first())
    } else {
        let d = count_digits(s);
        (if digits_val(s.take(d as int)) <= i32::MAX {
            seq![digits_val(s.take(d as int))]
        } else {
            Seq::empty()
        }) + numeric_parts_spec(s.skip(d as int))
    }
}

#[via_fn]
proof fn numeric_parts_dec(s: Seq<char>) {
    if s.len() > 0 && is_digit(s[0]) {
        crate::parser::lemma_count_digits_le(s);
        assert(count_digits(s) >= 1);
    }
}

/// Collects the embedded numbers of a text, skipping any too large for an
/// `i32`.
pub fn extract_numeric_parts(text: &str) -> (r: Vec<i32>)
    ensures
        r@.map_values(|v: i32| v as int) == numeric_parts_spec(text@),
{
    let s = chars_vec(text);
    let n = s.len();
    let mut out: Vec<i32> = Vec::new();
    let mut i: usize = 0;
    proof {
        assert(s@.skip(0) =~= s@);
        assert(out@.map_values(|v: i32| v as int) + numeric_parts_spec(s@)
            =~= numeric_parts_spec(s@));
    }
    while i < n
        invariant
            0 <= i <= n,
            n == s@.len() <= usize::MAX,
            s@ == text@,
            numeric_parts_spec(text@) == out@.map_values(|v: i32| v as int)
                + numeric_parts_spec(s@.skip(i as int)),
        decreases n - i,
    {
        let ghost old_out = out@;
        let c = s[i];
        proof {
            assert(s@.skip(i as int)[0] == s@[i as int]);
            assert(s@.skip(i as int).drop_first() =~= s@.skip(i + 1));
        }
        if !('0' <= c && c <= '9') {
            i = i + 1;
        } else {
            let mut e: usize = i;
            while e < n && ('0' <= s[e] && s[e] <= '9')
                invariant
                    i <= e <= n,
                    n == s@.len(),
                    forall|j: int| i <= j < e ==> is_digit(#[trigger] s@[j]),
                decreases n - e,
            {
                e = e + 1;
            }
            let ghost t = s@.skip(i as int);
            proof {
                assert(forall|j: int| 0 <= j < e - i ==> #[trigger] t[j] == s@[i + j]);
                crate::parser::lemma_count_digits_scan(t, e - i);
            }
            let run = crate::strutil::subvec(&s, i, e);
            proof {
                assert(run@ =~= t.take(e - i));
                assert(forall|j: int| 0 <= j < run@.len() ==> is_digit(#[trigger] run@[j]));
            }
            match crate::strutil::digits_value_capped(&run, 0x7FFF_FFFFu64) {
                Some(v) => {
                    out.push(v as i32);
                    proof {
                        assert(out@.map_values(|x: i32| x as int) =~= old_out.map_values(
                            |x: i32| x as int,
                        ) + seq![digits_val(run@)]);
                        assert(t.skip((e - i) as int) =~= s@.skip(e as int));
                        assert(old_out.map_values(|x: i32| x as int) + (seq![digits_val(run@)]
                            + numeric_parts_spec(s@.skip(e as int))) =~= out@.map_values(
                            |x: i32| x as int,
                        ) + numeric_parts_spec(s@.skip(e as int)));
                    }
                },
                None => {
                    proof {
                        assert(t.skip((e - i) as int) =~= s@.skip(e as int));
                        assert(Seq::<int>::empty() + numeric_parts_spec(s@.skip(e as int))
                            =~= numeric_parts_spec(s@.skip(e as int)));
                    }
                },
            }
            i = e;
        }
    }
    proof {
        assert(s@.skip(n as int) =~= Seq::<char>::empty());
        assert(out@.map_values(|v: i32| v as int) + Seq::<int>::empty() =~= out@.map_values(
            |v: i32| v as int,
        ));
    }
    out
}

/// Lexicographic order on equal-length integer lists.
pub open spec fn cmp_int_seqs(x: Seq<int>, y: Seq<int>) -> Ordering
    decreases x.len(),
{
    if x.len() == 0 || y.len() == 0 {
        Ordering::Equal
    } else if x[0] < y[0] {
        Ordering::Less
    } else if x[0] > y[0] {
        Ordering::Greater
    } else {
        cmp_int_seqs(x.drop_first(), y.drop_first())
    }
}

/// Plain lexicographic order on text, by code point.
pub open spec fn cmp_chars(a: Seq<char>, b: Seq<char>) -> Ordering
    decreases a.len(),
{
    if a.len() == 0 && b.len() == 0 {
        Ordering::Equal
    } else if a.len() == 0 {
        Ordering::Less
    } else if b.len() == 0 {
        Ordering::Greater
    } else if (a[0] as u32) < (b[0] as u32) {
        Ordering::Less
    } else if (a[0] as u32) > (b[0] as u32) {
        Ordering::Greater
    } else {
        cmp_chars(a.drop_first(), b.drop_first())
    }
}

/// A list padded with zeros up to length `l`.
pub open spec fn pad_zero(x: Seq<int>, l: int) -> Seq<int> {
    Seq::new(l as nat, |i: int| if i < x.len() { x[i] } else { 0 })
}

/// What `compare_story_group_ids` computes: numeric parts compared first
/// (padded to equal length with zeros), text order breaking ties.
pub open spec fn compare_groups_spec(a: Seq<char>, b: Seq<char>) -> Ordering {
    let pa = numeric_parts_spec(a);
    let pb = numeric_parts_spec(b);
    if pa.len() > 0 || pb.len() > 0 {
        let l = if pa.len() >= pb.len() {
            pa.len() as int
        } else {
            pb.len() as int
        };
        match cmp_int_seqs(pad_zero(pa, l), pad_zero(pb, l)) {
            Ordering::Equal => cmp_chars(a, b),
            o => o,
        }
    } else {
        cmp_chars(a, b)
    }
}

/// Orders two story group identifiers: by their embedded numbers first,
/// then by plain text.
pub fn compare_story_group_ids(a: &str, b: &str) -> (r: Ordering)
    ensures
        r == compare_groups_spec(a@, b@),
{
    let pa = extract_numeric_parts(a);
    let pb = extract_numeric_parts(b);
    let ghost pam = pa@.map_values(|v: i32| v as int);
    let ghost pbm = pb@.map_values(|v: i32| v as int);
    let mut num_cmp = Ordering::Equal;
    if pa.len() > 0 || pb.len() > 0 {
        let l = if pa.len() >= pb.len() {
            pa.len()
        } else {
            pb.len()
        };
        let mut k: usize = 0;
        let ghost xa = pad_zero(pam, l as int);
        let ghost xb = pad_zero(pbm, l as int);
        let mut decided = false;
        proof {
            assert(xa.skip(0) =~= xa);
            assert(xb.skip(0) =~= xb);
        }
        while k < l && !decided
            invariant
                0 <= k <= l,
                l as int == if pam.len() >= pbm.len() {
                    pam.len() as int
                } else {
                    pbm.len() as int
                },
                pam == pa@.map_values(|v: i32| v as int),
                pbm == pb@.map_values(|v: i32| v as int),
                xa == pad_zero(pam, l as int),
                xb == pad_zero(pbm, l as int),
                !decided ==> num_cmp == Ordering::Equal && cmp_int_seqs(xa, xb) == cmp_int_seqs(
                    xa.skip(k as int),
                    xb.skip(k as int),
                ),
                decided ==> num_cmp == cmp_int_seqs(xa, xb) && num_cmp != Ordering::Equal,
            decreases l - k,
        {
            let va: i32 = if k < pa.len() {
                pa[k]
            } else {
                0
            };
            let vb: i32 = if k < pb.len() {
                pb[k]
            } else {
                0
            };
            proof {
                assert(xa.skip(k as int)[0] == xa[k as int]);
                assert(xb.skip(k as int)[0] == xb[k as int]);
                assert(xa[k as int] == va as int);
                assert(xb[k as int] == vb as int);
                assert(xa.skip(k as int).drop_first() =~= xa.skip(k + 1));
                assert(xb.skip(k as int).drop_first() =~= xb.skip(k + 1));
                assert(xa.skip(k as int).len() == l - k);
                assert(xb.skip(k as int).len() == l - k);
            }
            if va < vb {
                num_cmp = Ordering::Less;
                decided = true;
            } else if va > vb {
                num_cmp = Ordering::Greater;
                decided = true;
            }
            k = k + 1;
        }
        proof {
            if !decided {
                assert(xa.skip(l as int).len() == 0);
                assert(cmp_int_seqs(xa.skip(l as int), xb.skip(l as int)) == Ordering::Equal);
            }
        }
        match num_cmp {
            Ordering::Equal => {},
            _ => {
                return num_cmp;
            },
        }
    }
    cmp_chars_exec(a, b)
}

fn cmp_chars_exec(a: &str, b: &str) -> (r: Ordering)
    ensures
        r == cmp_chars(a@, b@),
{
    let av = chars_vec(a);
    let bv = chars_vec(b);
    let mut k: usize = 0;
    proof {
        assert(av@.skip(0) =~= av@);
        assert(bv@.skip(0) =~= bv@);
    }
    while k < av.len() && k < bv.len()
        invariant
            0 <= k <= av@.len(),
            0 <= k <= bv@.len(),
            av@ == a@,
            bv@ == b@,
            cmp_chars(a@, b@) == cmp_chars(av@.skip(k as int), bv@.skip(k as int)),
        decreases av.len() - k,
    {
        let ca = av[k];
        let cb = bv[k];
        proof {
            assert(av@.skip(k as int)[0] == av@[k as int]);
            assert(bv@.skip(k as int)[0] == bv@[k as int]);
            assert(av@.skip(k as int).drop_first() =~= av@.skip(k + 1));
            assert(bv@.skip(k as int).drop_first() =~= bv@.skip(k + 1));
        }
        if (ca as u32) < (cb as u32) {
            return Ordering::Less;
        } else if (ca as u32) > (cb as u32) {
            return Ordering::Greater;
        }
        k = k + 1;
    }
    proof {
        assert(av@.skip(k as int).len() == av@.len() - k);
        assert(bv@.skip(k as int).len() == bv@.len() - k);
    }
    if av.len() == bv.len() {
        Ordering::Equal
    } else if av.len() < bv.len() {
        Ordering::Less
    } else {
        Ordering::Greater
    }
}

} // verus!
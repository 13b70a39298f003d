//! Human-readable age of a content snapshot, computed from two plain
//! timestamps (seconds since the epoch): the recorded fetch time and the
//! current time, which the caller supplies.

use vstd::prelude::*;

use crate::strutil::{chars_vec, dec_spec, push_all, str_owned, string_from_chars, u64_to_chars};

verus! {

/// What `format_timestamp` computes. A timestamp in the future or before
/// the epoch, or one at least thirty days old, reads as "较早前"; fresher
/// ones as whole days, hours, or minutes (at least one minute).
pub open spec fn format_timestamp_spec(timestamp: int, now: int) -> Seq<char> {
    if timestamp < 0 || now < timestamp {
        "较早前"@
    } else {
        let elapsed = now - timestamp;
        let days = elapsed / 86400;
        if days == 0 {
            let hours = elapsed / 3600;
            if hours == 0 {
                let mins = elapsed / 60;
                dec_spec((if mins >= 1 {
                    mins
                } else {
                    1
                }) as nat) + "分钟前"@
            } else {
                dec_spec(hours as nat) + "小时前"@
            }
        } else if days < 30 {
            dec_spec(days as nat) + "天前"@
        } else {
            "较早前"@
        }
    }
}

/// Renders how long ago a timestamp lies, given the current time.
pub fn format_timestamp(timestamp: i64, now: i64) -> (r: String)
    ensures
        r@ == format_timestamp_spec(timestamp as int, now as int),
{
    if timestamp < 0 || now < timestamp {
        return str_owned("较早前");
    }
    let elapsed: u64 = (now - timestamp) as u64;
    let days = elapsed / 86400;
    if days == 0 {
        let hours = elapsed / 3600;
        if hours == 0 {
            let mins = elapsed / 60;
            let shown = if mins >= 1 {
                mins
            } else {
                1
            };
            let mut out = u64_to_chars(shown);
            let suffix = chars_vec("分钟前");
            push_all(&mut out, &suffix);
            proof {
                assert(out@ =~= dec_spec(shown as nat) + "分钟前"@);
            }
            string_from_chars(&out)
        } else {
            let mut out = u64_to_chars(hours);
            let suffix = chars_vec("小时前");
            push_all(&mut out, &suffix);
            proof {
                assert(out@ =~= dec_spec(hours as nat) + "小时前"@);
            }
            string_from_chars(&out)
        }
    } else if days < 30 {
        let mut out = u64_to_chars(days);
        let suffix = chars_vec("天前");
        push_all(&mut out, &suffix);
        proof {
            assert(out@ =~= dec_spec(days as nat) + "天前"@);
        }
        string_from_chars(&out)
    } else {
        str_owned("较早前")
    }
}

} // verus!
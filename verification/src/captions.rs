use vstd::prelude::*;

use crate::recorder::{format_label_of, OutputFormat};
use crate::text::{
    chars_of, decimal, decimal_chars, push_all, push_range, utf8_len,
    utf8_width_of,
};

verus! {

/// `n` in decimal, padded with a zero to two digits (`{:02}`).
pub open spec fn pad2(n: nat) -> Seq<char> {
    if n < 10 {
        "0"@ + decimal(n)
    } else {
        decimal(n)
    }
}

pub(crate) fn push_pad2(s: &mut String, n: u64)
    ensures
        final(s)@ == old(s)@ + pad2(n as nat),
{
    if n < 10 {
        s.append("0");
    }
    let d = decimal_chars(n);
    push_all(s, &d);
}

/// The recording time shown, `MM:SS`, for `secs` seconds.
pub open spec fn timer_text_of(secs: nat) -> Seq<char> {
    pad2(secs / 60) + ":"@ + pad2(secs % 60)
}

pub fn timer_text(secs: u64) -> (r: String)
    ensures
        r@ == timer_text_of(secs as nat),
{
    let mut s = String::new();
    push_pad2(&mut s, secs / 60);
    s.append(":");
    push_pad2(&mut s, secs % 60);
    s
}

/// The subtitle of the settings window: format and frame rate.
pub open spec fn subtitle_of(format: OutputFormat, framerate: u32) -> Seq<char> {
    format_label_of(format) + " • "@ + decimal(framerate as nat) + "FPS"@
}

pub fn subtitle(format: OutputFormat, framerate: u32) -> (r: String)
    ensures
        r@ == subtitle_of(format, framerate),
{
    let mut s = format.label();
    s.append(" • ");
    let d = decimal_chars(framerate as u64);
    push_all(&mut s, &d);
    s.append("FPS");
    s
}

/// The caption of a frame-rate button.
pub open spec fn fps_label_of(fps: u32) -> Seq<char> {
    decimal(fps as nat) + " fps"@
}

pub fn fps_label(fps: u32) -> (r: String)
    ensures
        r@ == fps_label_of(fps),
{
    let mut s = String::new();
    let d = decimal_chars(fps as u64);
    push_all(&mut s, &d);
    s.append(" fps");
    s
}

/// The seconds left in the countdown.
pub fn countdown_text(n: u8) -> (r: String)
    ensures
        r@ == decimal(n as nat),
{
    let mut s = String::new();
    let d = decimal_chars(n as u64);
    push_all(&mut s, &d);
    s
}

/// Byte offset `b` of `t`'s UTF-8 encoding falls between two characters.
pub open spec fn is_byte_boundary(t: Seq<char>, b: int) -> bool {
    exists|k: int| 0 <= k <= t.len() && utf8_len(t.take(k)) == b
}

/// The characters of `t` from byte offset `b` on.
pub open spec fn from_byte(t: Seq<char>, b: int) -> Seq<char> {
    t.skip(choose|k: int| 0 <= k <= t.len() && utf8_len(t.take(k)) == b)
}

/// The save folder as shown: a path longer than 22 bytes is cut to `...`
/// and its last 19 bytes.
pub open spec fn folder_label_of(t: Seq<char>) -> Seq<char> {
    if utf8_len(t) > 22 {
        "..."@ + from_byte(t, utf8_len(t) - 19)
    } else {
        t
    }
}

proof fn lemma_utf8_len_take_increasing(t: Seq<char>, i: int, j: int)
    requires
        0 <= i < j <= t.len(),
    ensures
        utf8_len(t.take(i)) < utf8_len(t.take(j)),
    decreases j - i,
{
    assert(t.take(j).drop_last() == t.take(j - 1));
    if i < j - 1 {
        lemma_utf8_len_take_increasing(t, i, j - 1);
    }
}

/// The save folder as shown (the path's text); the cut must fall between
/// two characters.
pub fn folder_label(text: &str) -> (r: String)
    requires
        utf8_len(text@) > 22 ==> is_byte_boundary(text@, utf8_len(text@) - 19),
    ensures
        r@ == folder_label_of(text@),
{
    let v = chars_of(text);
    // byte lengths of the prefixes, summed in u128 so that nothing overflows
    let mut total: u128 = 0;
    let mut i: usize = 0;
    while i < v.len()
        invariant
            i <= v.len(),
            v@ == text@,
            total == utf8_len(v@.take(i as int)),
            total <= 4 * i,
        decreases v.len() - i,
    {
        assert(v@.take(i + 1).drop_last() == v@.take(i as int));
        let w = utf8_width_of(v[i]);
        total = total + w as u128;
        i += 1;
    }
    assert(v@.take(v.len() as int) == v@);
    if total <= 22 {
        let mut s = String::new();
        push_all(&mut s, &v);
        return s;
    }
    let target = total - 19;
    let mut k: usize = 0;
    let mut sum: u128 = 0;
    assert(v@.take(0).len() == 0);
    while sum < target
        invariant
            k <= v.len(),
            v@ == text@,
            total == utf8_len(v@),
            target == total - 19,
            sum == utf8_len(v@.take(k as int)),
            sum <= target,
            is_byte_boundary(v@, target as int),
        decreases v.len() - k,
    {
        let ghost kk = choose|kk: int| 0 <= kk <= v@.len() && utf8_len(v@.take(kk)) == target;
        proof {
            if k >= kk {
                if k > kk {
                    lemma_utf8_len_take_increasing(v@, kk, k as int);
                }
                assert(false);
            }
        }
        assert(v@.take(k + 1).drop_last() == v@.take(k as int));
        let w = utf8_width_of(v[k]);
        sum = sum + w as u128;
        k += 1;
        if sum > target {
            proof {
                if kk > k {
                    lemma_utf8_len_take_increasing(v@, k as int, kk);
                }
                if kk < k {
                    lemma_utf8_len_take_increasing(v@, kk, k - 1);
                    assert(false);
                }
            }
        }
    }
    proof {
        let kk = choose|kk: int| 0 <= kk <= v@.len() && utf8_len(v@.take(kk)) == target;
        if kk < k {
            lemma_utf8_len_take_increasing(v@, kk, k as int);
        } else if kk > k {
            lemma_utf8_len_take_increasing(v@, k as int, kk);
        }
        assert(kk == k);
    }
    let mut s = String::from_str("...");
    push_range(&mut s, &v, k, v.len());
    assert(v@.subrange(k as int, v.len() as int) == v@.skip(k as int));
    s
}

} // verus!

//! Clock-style time display: whole seconds as `MM:SS`, or `HH:MM:SS` once a
//! full hour is reached, each field padded to two digits.

use vstd::prelude::*;
use vstd::utf8::is_ascii_chars;
use crate::text::{ascii_bytes_of, ascii_to_string};

verus! {

/// The digit character for one decimal digit.
pub open spec fn digit_char(d: nat) -> char {
    ((48 + d) as u8) as char
}

/// The decimal digits of a number, most significant first.
pub open spec fn spec_dec_chars(n: nat) -> Seq<char>
    decreases n,
{
    if n < 10 {
        seq![digit_char(n)]
    } else {
        spec_dec_chars(n / 10).push(digit_char(n % 10))
    }
}

/// The decimal digits, padded on the left to at least two.
pub open spec fn spec_two_pad(n: nat) -> Seq<char> {
    if n < 10 {
        seq!['0'].push(digit_char(n))
    } else {
        spec_dec_chars(n)
    }
}

/// The display form of a whole-second count: `MM:SS` under an hour,
/// `HH:MM:SS` from one hour on, every field two digits or more.
pub open spec fn spec_format_time(secs: nat) -> Seq<char> {
    let h = secs / 3600;
    let m = (secs % 3600) / 60;
    let s = secs % 60;
    if h > 0 {
        spec_two_pad(h) + seq![':'] + spec_two_pad(m) + seq![':'] + spec_two_pad(s)
    } else {
        spec_two_pad(m) + seq![':'] + spec_two_pad(s)
    }
}

/// Decimal digits are ASCII.
pub proof fn lemma_dec_chars_ascii(n: nat)
    ensures
        is_ascii_chars(spec_dec_chars(n)),
    decreases n,
{
    if n >= 10 {
        lemma_dec_chars_ascii(n / 10);
    }
}

proof fn lemma_two_pad_ascii(n: nat)
    ensures
        is_ascii_chars(spec_two_pad(n)),
{
    lemma_dec_chars_ascii(n);
}

// Text is assembled as ASCII byte values: 48 is the digit zero, 58 the
// colon, and 84, 97, 98, 32 spell the word before a tab's number.
fn push_dec(buf: &mut Vec<u8>, n: u64)
    ensures
        final(buf)@ == old(buf)@ + ascii_bytes_of(spec_dec_chars(n as nat)),
    decreases n,
{
    if n < 10 {
        buf.push(48 + n as u8);
        proof {
            assert(buf@ =~= old(buf)@ + ascii_bytes_of(spec_dec_chars(n as nat)));
        }
    } else {
        push_dec(buf, n / 10);
        buf.push(48 + (n % 10) as u8);
        proof {
            assert(buf@ =~= old(buf)@ + ascii_bytes_of(spec_dec_chars(n as nat)));
        }
    }
}

fn push_two_pad(buf: &mut Vec<u8>, n: u64)
    ensures
        final(buf)@ == old(buf)@ + ascii_bytes_of(spec_two_pad(n as nat)),
{
    if n < 10 {
        buf.push(48);
        buf.push(48 + n as u8);
        proof {
            assert(buf@ =~= old(buf)@ + ascii_bytes_of(spec_two_pad(n as nat)));
        }
    } else {
        push_dec(buf, n);
    }
}

/// Formats a whole-second count for display, exactly as `spec_format_time`
/// says: `MM:SS`, or `HH:MM:SS` from one hour on.
pub fn format_time(secs: u64) -> (r: String)
    ensures
        r@ == spec_format_time(secs as nat),
{
    let h = secs / 3600;
    let m = (secs % 3600) / 60;
    let s = secs % 60;
    let mut buf: Vec<u8> = Vec::new();
    if h > 0 {
        push_two_pad(&mut buf, h);
        buf.push(58);
        push_two_pad(&mut buf, m);
        buf.push(58);
        push_two_pad(&mut buf, s);
    } else {
        push_two_pad(&mut buf, m);
        buf.push(58);
        push_two_pad(&mut buf, s);
    }
    proof {
        lemma_two_pad_ascii(h as nat);
        lemma_two_pad_ascii(m as nat);
        lemma_two_pad_ascii(s as nat);
        assert(buf@ =~= ascii_bytes_of(spec_format_time(secs as nat)));
    }
    ascii_to_string(buf, Ghost(spec_format_time(secs as nat)))
}

/// The default name of the `n`-th tab.
pub open spec fn spec_tab_name(n: nat) -> Seq<char> {
    seq!['T', 'a', 'b', ' '] + spec_dec_chars(n)
}

/// Builds the default name of the `n`-th tab.
pub fn default_tab_name(n: u64) -> (r: String)
    ensures
        r@ == spec_tab_name(n as nat),
{
    let mut buf: Vec<u8> = Vec::new();
    buf.push(84);
    buf.push(97);
    buf.push(98);
    buf.push(32);
    push_dec(&mut buf, n);
    proof {
        lemma_dec_chars_ascii(n as nat);
        assert(buf@ =~= ascii_bytes_of(spec_tab_name(n as nat)));
    }
    ascii_to_string(buf, Ghost(spec_tab_name(n as nat)))
}

} // verus!

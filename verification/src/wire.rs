//! The binary wire format of the persisted model, as mathematical functions on
//! byte sequences.
//!
//! Every scalar is little-endian and fixed-width; sequences and strings are
//! length-prefixed with a 64-bit count; strings are UTF-8 byte runs. Each
//! `enc_*` function gives the exact encoding of a value, each `dec_*` function
//! reads one value off the front of a byte sequence and returns it with the
//! unread rest, and the `lemma_dec_enc_*` family proves that decoding inverts
//! encoding.

use vstd::prelude::*;
use vstd::utf8::{
    decode_utf8, encode_utf8, encode_utf8_decode_utf8, encode_utf8_valid_utf8, valid_utf8,
};
use crate::color::{lemma_color_pack_unpack, spec_pack_color, spec_unpack_color};
use crate::model::{ButtonView, ClipView, ModelView, TabView};

verus! {

/// One byte.
pub open spec fn enc_u8(v: u8) -> Seq<u8> {
    seq![v]
}

/// Four little-endian bytes.
pub open spec fn enc_u32(v: u32) -> Seq<u8> {
    seq![
        (v & 0xFF) as u8,
        ((v >> 8) & 0xFF) as u8,
        ((v >> 16) & 0xFF) as u8,
        ((v >> 24) & 0xFF) as u8,
    ]
}

/// Eight little-endian bytes.
pub open spec fn enc_u64(v: u64) -> Seq<u8> {
    seq![
        (v & 0xFF) as u8,
        ((v >> 8) & 0xFF) as u8,
        ((v >> 16) & 0xFF) as u8,
        ((v >> 24) & 0xFF) as u8,
        ((v >> 32) & 0xFF) as u8,
        ((v >> 40) & 0xFF) as u8,
        ((v >> 48) & 0xFF) as u8,
        ((v >> 56) & 0xFF) as u8,
    ]
}

/// The value of four little-endian bytes.
pub open spec fn u32_le(b0: u8, b1: u8, b2: u8, b3: u8) -> u32 {
    (b0 as u32) | ((b1 as u32) << 8) | ((b2 as u32) << 16) | ((b3 as u32) << 24)
}

/// The value of eight little-endian bytes.
pub open spec fn u64_le(b0: u8, b1: u8, b2: u8, b3: u8, b4: u8, b5: u8, b6: u8, b7: u8) -> u64 {
    (b0 as u64) | ((b1 as u64) << 8) | ((b2 as u64) << 16) | ((b3 as u64) << 24)
        | ((b4 as u64) << 32) | ((b5 as u64) << 40) | ((b6 as u64) << 48) | ((b7 as u64) << 56)
}

/// Reads one byte.
pub open spec fn dec_u8(s: Seq<u8>) -> Option<(u8, Seq<u8>)> {
    if s.len() >= 1 {
        Some((s[0], s.skip(1)))
    } else {
        None
    }
}

/// Reads a 32-bit little-endian value.
pub open spec fn dec_u32(s: Seq<u8>) -> Option<(u32, Seq<u8>)> {
    if s.len() >= 4 {
        Some((u32_le(s[0], s[1], s[2], s[3]), s.skip(4)))
    } else {
        None
    }
}

/// Reads a 64-bit little-endian value.
pub open spec fn dec_u64(s: Seq<u8>) -> Option<(u64, Seq<u8>)> {
    if s.len() >= 8 {
        Some((u64_le(s[0], s[1], s[2], s[3], s[4], s[5], s[6], s[7]), s.skip(8)))
    } else {
        None
    }
}

pub proof fn lemma_dec_enc_u8(v: u8, rest: Seq<u8>)
    ensures
        dec_u8(enc_u8(v) + rest) == Some((v, rest)),
{
    assert((enc_u8(v) + rest).skip(1) =~= rest);
}

pub proof fn lemma_dec_enc_u32(v: u32, rest: Seq<u8>)
    ensures
        dec_u32(enc_u32(v) + rest) == Some((v, rest)),
{
    let s = enc_u32(v) + rest;
    assert(s.skip(4) =~= rest);
    assert(u32_le((v & 0xFF) as u8, ((v >> 8) & 0xFF) as u8, ((v >> 16) & 0xFF) as u8,
        ((v >> 24) & 0xFF) as u8) == v) by (bit_vector);
}

pub proof fn lemma_dec_enc_u64(v: u64, rest: Seq<u8>)
    ensures
        dec_u64(enc_u64(v) + rest) == Some((v, rest)),
{
    let s = enc_u64(v) + rest;
    assert(s.skip(8) =~= rest);
    assert(u64_le((v & 0xFF) as u8, ((v >> 8) & 0xFF) as u8, ((v >> 16) & 0xFF) as u8,
        ((v >> 24) & 0xFF) as u8, ((v >> 32) & 0xFF) as u8, ((v >> 40) & 0xFF) as u8,
        ((v >> 48) & 0xFF) as u8, ((v >> 56) & 0xFF) as u8) == v) by (bit_vector);
}

/// A string's UTF-8 bytes, prefixed with their 64-bit count.
pub open spec fn enc_str(s: Seq<char>) -> Seq<u8> {
    enc_u64(encode_utf8(s).len() as u64) + encode_utf8(s)
}

/// A string fits on the wire when its UTF-8 byte count fits the length prefix.
pub open spec fn str_fits(s: Seq<char>) -> bool {
    encode_utf8(s).len() <= u64::MAX
}

/// Reads a length-prefixed UTF-8 string.
pub open spec fn dec_str(s: Seq<u8>) -> Option<(Seq<char>, Seq<u8>)> {
    match dec_u64(s) {
        None => None,
        Some((n, r)) => {
            if r.len() >= n {
                let b = r.take(n as int);
                if valid_utf8(b) {
                    Some((decode_utf8(b), r.skip(n as int)))
                } else {
                    None
                }
            } else {
                None
            }
        },
    }
}

pub proof fn lemma_dec_enc_str(s: Seq<char>, rest: Seq<u8>)
    requires
        str_fits(s),
    ensures
        dec_str(enc_str(s) + rest) == Some((s, rest)),
{
    let b = encode_utf8(s);
    let n = b.len() as u64;
    assert(enc_str(s) + rest =~= enc_u64(n) + (b + rest));
    lemma_dec_enc_u64(n, b + rest);
    assert((b + rest).take(n as int) =~= b);
    assert((b + rest).skip(n as int) =~= rest);
    encode_utf8_valid_utf8(s);
    encode_utf8_decode_utf8(s);
}

/// A decoded string leaves at least its 8-byte length prefix behind.
pub proof fn lemma_dec_str_len(s: Seq<u8>)
    ensures
        dec_str(s) matches Some((v, r)) ==> r.len() + 8 <= s.len(),
{
}

/// The bytes of each value in turn, first value first.
pub open spec fn concat_u32s(vs: Seq<u32>) -> Seq<u8>
    decreases vs.len(),
{
    if vs.len() == 0 {
        Seq::empty()
    } else {
        enc_u32(vs[0]) + concat_u32s(vs.skip(1))
    }
}

/// A sequence of 32-bit values, prefixed with its 64-bit count.
pub open spec fn enc_u32_seq(vs: Seq<u32>) -> Seq<u8> {
    enc_u64(vs.len() as u64) + concat_u32s(vs)
}

/// Reads `n` consecutive 32-bit values.
pub open spec fn dec_u32s_n(s: Seq<u8>, n: nat) -> Option<(Seq<u32>, Seq<u8>)>
    decreases n,
{
    if n == 0 {
        Some((Seq::empty(), s))
    } else {
        match dec_u32(s) {
            None => None,
            Some((v, r)) => match dec_u32s_n(r, (n - 1) as nat) {
                None => None,
                Some((vs, r2)) => Some((seq![v] + vs, r2)),
            },
        }
    }
}

/// Reads a count-prefixed sequence of 32-bit values.
pub open spec fn dec_u32_seq(s: Seq<u8>) -> Option<(Seq<u32>, Seq<u8>)> {
    match dec_u64(s) {
        None => None,
        Some((n, r)) => dec_u32s_n(r, n as nat),
    }
}

pub proof fn lemma_dec_enc_concat_u32s(vs: Seq<u32>, rest: Seq<u8>)
    ensures
        dec_u32s_n(concat_u32s(vs) + rest, vs.len()) == Some((vs, rest)),
    decreases vs.len(),
{
    if vs.len() == 0 {
        assert(concat_u32s(vs) + rest =~= rest);
        assert(vs =~= Seq::<u32>::empty());
    } else {
        let tail = vs.skip(1);
        assert(concat_u32s(vs) + rest =~= enc_u32(vs[0]) + (concat_u32s(tail) + rest));
        lemma_dec_enc_u32(vs[0], concat_u32s(tail) + rest);
        lemma_dec_enc_concat_u32s(tail, rest);
        assert(seq![vs[0]] + tail =~= vs);
    }
}

pub proof fn lemma_dec_enc_u32_seq(vs: Seq<u32>, rest: Seq<u8>)
    requires
        vs.len() <= u64::MAX,
    ensures
        dec_u32_seq(enc_u32_seq(vs) + rest) == Some((vs, rest)),
{
    let n = vs.len() as u64;
    assert(enc_u32_seq(vs) + rest =~= enc_u64(n) + (concat_u32s(vs) + rest));
    lemma_dec_enc_u64(n, concat_u32s(vs) + rest);
    lemma_dec_enc_concat_u32s(vs, rest);
}

/// Each of `n` decoded 32-bit values consumes at least one byte.
pub proof fn lemma_dec_u32s_n_len(s: Seq<u8>, n: nat)
    ensures
        dec_u32s_n(s, n) matches Some((vs, r)) ==> n + r.len() <= s.len() && vs.len() == n,
    decreases n,
{
    if n > 0 {
        match dec_u32(s) {
            None => {},
            Some((v, r)) => {
                lemma_dec_u32s_n_len(r, (n - 1) as nat);
            },
        }
    }
}

/// A decoded 32-bit sequence never grows the rest.
pub proof fn lemma_dec_u32_seq_len(s: Seq<u8>)
    ensures
        dec_u32_seq(s) matches Some((vs, r)) ==> r.len() + 8 <= s.len(),
{
    match dec_u64(s) {
        None => {},
        Some((n, r)) => {
            lemma_dec_u32s_n_len(r, n as nat);
        },
    }
}

/// A clip: name, source path, envelope, duration bit pattern.
pub open spec fn enc_clip(c: ClipView) -> Seq<u8> {
    enc_str(c.name) + enc_str(c.path) + enc_u32_seq(c.envelope) + enc_u32(c.duration_bits)
}

/// Reads a clip.
pub open spec fn dec_clip(s: Seq<u8>) -> Option<(ClipView, Seq<u8>)> {
    match dec_str(s) {
        None => None,
        Some((name, s1)) => match dec_str(s1) {
            None => None,
            Some((path, s2)) => match dec_u32_seq(s2) {
                None => None,
                Some((envelope, s3)) => match dec_u32(s3) {
                    None => None,
                    Some((duration_bits, s4)) => Some(
                        (ClipView { name, path, envelope, duration_bits }, s4),
                    ),
                },
            },
        },
    }
}

pub proof fn lemma_dec_enc_clip(c: ClipView, rest: Seq<u8>)
    requires
        c.wf(),
    ensures
        dec_clip(enc_clip(c) + rest) == Some((c, rest)),
{
    let r3 = enc_u32(c.duration_bits) + rest;
    let r2 = enc_u32_seq(c.envelope) + r3;
    let r1 = enc_str(c.path) + r2;
    assert(enc_clip(c) + rest =~= enc_str(c.name) + r1);
    lemma_dec_enc_str(c.name, r1);
    lemma_dec_enc_str(c.path, r2);
    lemma_dec_enc_u32_seq(c.envelope, r3);
    lemma_dec_enc_u32(c.duration_bits, rest);
}

/// A decoded clip consumes at least one byte.
pub proof fn lemma_dec_clip_len(s: Seq<u8>)
    ensures
        dec_clip(s) matches Some((c, r)) ==> r.len() + 8 <= s.len(),
{
    lemma_dec_str_len(s);
    match dec_str(s) {
        None => {},
        Some((name, s1)) => {
            lemma_dec_str_len(s1);
            match dec_str(s1) {
                None => {},
                Some((path, s2)) => {
                    lemma_dec_u32_seq_len(s2);
                },
            }
        },
    }
}

/// An absent clip is one zero byte; a present one is a one byte then the clip.
pub open spec fn enc_opt_clip(oc: Option<ClipView>) -> Seq<u8> {
    match oc {
        None => enc_u8(0),
        Some(c) => enc_u8(1) + enc_clip(c),
    }
}

/// Reads an optional clip; any tag byte other than 0 or 1 is malformed.
pub open spec fn dec_opt_clip(s: Seq<u8>) -> Option<(Option<ClipView>, Seq<u8>)> {
    match dec_u8(s) {
        None => None,
        Some((tag, r)) => {
            if tag == 0 {
                Some((None, r))
            } else if tag == 1 {
                match dec_clip(r) {
                    None => None,
                    Some((c, r2)) => Some((Some(c), r2)),
                }
            } else {
                None
            }
        },
    }
}

pub proof fn lemma_dec_enc_opt_clip(oc: Option<ClipView>, rest: Seq<u8>)
    requires
        oc matches Some(c) ==> c.wf(),
    ensures
        dec_opt_clip(enc_opt_clip(oc) + rest) == Some((oc, rest)),
{
    match oc {
        None => {
            lemma_dec_enc_u8(0, rest);
        },
        Some(c) => {
            assert(enc_opt_clip(oc) + rest =~= enc_u8(1) + (enc_clip(c) + rest));
            lemma_dec_enc_u8(1, enc_clip(c) + rest);
            lemma_dec_enc_clip(c, rest);
        },
    }
}

/// A decoded optional clip consumes at least its tag byte.
pub proof fn lemma_dec_opt_clip_len(s: Seq<u8>)
    ensures
        dec_opt_clip(s) matches Some((oc, r)) ==> r.len() + 1 <= s.len(),
{
    match dec_u8(s) {
        None => {},
        Some((tag, r)) => {
            lemma_dec_clip_len(r);
        },
    }
}

/// A button: label, two position bit patterns, packed colour, optional clip.
pub open spec fn enc_button(b: ButtonView) -> Seq<u8> {
    enc_str(b.label) + enc_u32(b.pos_x_bits) + enc_u32(b.pos_y_bits)
        + enc_u32(spec_pack_color(b.color)) + enc_opt_clip(b.clip)
}

/// Reads a button.
pub open spec fn dec_button(s: Seq<u8>) -> Option<(ButtonView, Seq<u8>)> {
    match dec_str(s) {
        None => None,
        Some((label, s1)) => match dec_u32(s1) {
            None => None,
            Some((pos_x_bits, s2)) => match dec_u32(s2) {
                None => None,
                Some((pos_y_bits, s3)) => match dec_u32(s3) {
                    None => None,
                    Some((packed, s4)) => match dec_opt_clip(s4) {
                        None => None,
                        Some((clip, s5)) => Some(
                            (
                                ButtonView {
                                    label,
                                    pos_x_bits,
                                    pos_y_bits,
                                    color: spec_unpack_color(packed),
                                    clip,
                                },
                                s5,
                            ),
                        ),
                    },
                },
            },
        },
    }
}

pub proof fn lemma_dec_enc_button(b: ButtonView, rest: Seq<u8>)
    requires
        b.wf(),
    ensures
        dec_button(enc_button(b) + rest) == Some((b, rest)),
{
    let r4 = enc_opt_clip(b.clip) + rest;
    let r3 = enc_u32(spec_pack_color(b.color)) + r4;
    let r2 = enc_u32(b.pos_y_bits) + r3;
    let r1 = enc_u32(b.pos_x_bits) + r2;
    assert(enc_button(b) + rest =~= enc_str(b.label) + r1);
    lemma_dec_enc_str(b.label, r1);
    lemma_dec_enc_u32(b.pos_x_bits, r2);
    lemma_dec_enc_u32(b.pos_y_bits, r3);
    lemma_dec_enc_u32(spec_pack_color(b.color), r4);
    lemma_dec_enc_opt_clip(b.clip, rest);
    lemma_color_pack_unpack(b.color);
}

/// A decoded button consumes at least one byte.
pub proof fn lemma_dec_button_len(s: Seq<u8>)
    ensures
        dec_button(s) matches Some((b, r)) ==> r.len() + 1 <= s.len(),
{
    lemma_dec_str_len(s);
    match dec_str(s) {
        None => {},
        Some((label, s1)) => match dec_u32(s1) {
            None => {},
            Some((x, s2)) => match dec_u32(s2) {
                None => {},
                Some((y, s3)) => match dec_u32(s3) {
                    None => {},
                    Some((packed, s4)) => {
                        lemma_dec_opt_clip_len(s4);
                    },
                },
            },
        },
    }
}

/// The bytes of each button in turn, first button first.
pub open spec fn concat_buttons(bs: Seq<ButtonView>) -> Seq<u8>
    decreases bs.len(),
{
    if bs.len() == 0 {
        Seq::empty()
    } else {
        enc_button(bs[0]) + concat_buttons(bs.skip(1))
    }
}

/// Reads `n` consecutive buttons.
pub open spec fn dec_buttons_n(s: Seq<u8>, n: nat) -> Option<(Seq<ButtonView>, Seq<u8>)>
    decreases n,
{
    if n == 0 {
        Some((Seq::empty(), s))
    } else {
        match dec_button(s) {
            None => None,
            Some((b, r)) => match dec_buttons_n(r, (n - 1) as nat) {
                None => None,
                Some((bs, r2)) => Some((seq![b] + bs, r2)),
            },
        }
    }
}

pub proof fn lemma_dec_enc_concat_buttons(bs: Seq<ButtonView>, rest: Seq<u8>)
    requires
        forall|i: int| 0 <= i < bs.len() ==> (#[trigger] bs[i]).wf(),
    ensures
        dec_buttons_n(concat_buttons(bs) + rest, bs.len()) == Some((bs, rest)),
    decreases bs.len(),
{
    if bs.len() == 0 {
        assert(concat_buttons(bs) + rest =~= rest);
        assert(bs =~= Seq::<ButtonView>::empty());
    } else {
        let tail = bs.skip(1);
        assert(concat_buttons(bs) + rest =~= enc_button(bs[0]) + (concat_buttons(tail) + rest));
        lemma_dec_enc_button(bs[0], concat_buttons(tail) + rest);
        assert(forall|i: int| 0 <= i < tail.len() ==> (#[trigger] tail[i]).wf());
        lemma_dec_enc_concat_buttons(tail, rest);
        assert(seq![bs[0]] + tail =~= bs);
    }
}

/// Each of `n` decoded buttons consumes at least one byte.
pub proof fn lemma_dec_buttons_n_len(s: Seq<u8>, n: nat)
    ensures
        dec_buttons_n(s, n) matches Some((bs, r)) ==> n + r.len() <= s.len() && bs.len() == n,
    decreases n,
{
    if n > 0 {
        lemma_dec_button_len(s);
        match dec_button(s) {
            None => {},
            Some((b, r)) => {
                lemma_dec_buttons_n_len(r, (n - 1) as nat);
            },
        }
    }
}

/// A tab: name, then its count-prefixed buttons.
pub open spec fn enc_tab(t: TabView) -> Seq<u8> {
    enc_str(t.name) + enc_u64(t.buttons.len() as u64) + concat_buttons(t.buttons)
}

/// Reads a tab.
pub open spec fn dec_tab(s: Seq<u8>) -> Option<(TabView, Seq<u8>)> {
    match dec_str(s) {
        None => None,
        Some((name, s1)) => match dec_u64(s1) {
            None => None,
            Some((n, s2)) => match dec_buttons_n(s2, n as nat) {
                None => None,
                Some((buttons, s3)) => Some((TabView { name, buttons }, s3)),
            },
        },
    }
}

pub proof fn lemma_dec_enc_tab(t: TabView, rest: Seq<u8>)
    requires
        t.wf(),
    ensures
        dec_tab(enc_tab(t) + rest) == Some((t, rest)),
{
    let n = t.buttons.len() as u64;
    let r2 = concat_buttons(t.buttons) + rest;
    let r1 = enc_u64(n) + r2;
    assert(enc_tab(t) + rest =~= enc_str(t.name) + r1);
    lemma_dec_enc_str(t.name, r1);
    lemma_dec_enc_u64(n, r2);
    lemma_dec_enc_concat_buttons(t.buttons, rest);
}

/// A decoded tab consumes at least one byte.
pub proof fn lemma_dec_tab_len(s: Seq<u8>)
    ensures
        dec_tab(s) matches Some((t, r)) ==> r.len() + 1 <= s.len(),
{
    lemma_dec_str_len(s);
    match dec_str(s) {
        None => {},
        Some((name, s1)) => match dec_u64(s1) {
            None => {},
            Some((n, s2)) => {
                lemma_dec_buttons_n_len(s2, n as nat);
            },
        },
    }
}

/// The bytes of each tab in turn, first tab first.
pub open spec fn concat_tabs(ts: Seq<TabView>) -> Seq<u8>
    decreases ts.len(),
{
    if ts.len() == 0 {
        Seq::empty()
    } else {
        enc_tab(ts[0]) + concat_tabs(ts.skip(1))
    }
}

/// Reads `n` consecutive tabs.
pub open spec fn dec_tabs_n(s: Seq<u8>, n: nat) -> Option<(Seq<TabView>, Seq<u8>)>
    decreases n,
{
    if n == 0 {
        Some((Seq::empty(), s))
    } else {
        match dec_tab(s) {
            None => None,
            Some((t, r)) => match dec_tabs_n(r, (n - 1) as nat) {
                None => None,
                Some((ts, r2)) => Some((seq![t] + ts, r2)),
            },
        }
    }
}

#[verifier::rlimit(100)]
pub proof fn lemma_dec_enc_concat_tabs(ts: Seq<TabView>, rest: Seq<u8>)
    requires
        forall|i: int| 0 <= i < ts.len() ==> (#[trigger] ts[i]).wf(),
    ensures
        dec_tabs_n(concat_tabs(ts) + rest, ts.len()) == Some((ts, rest)),
    decreases ts.len(),
{
    if ts.len() == 0 {
        assert(concat_tabs(ts) + rest =~= rest);
        assert(ts =~= Seq::<TabView>::empty());
    } else {
        let tail = ts.skip(1);
        vstd::seq_lib::lemma_concat_associative(enc_tab(ts[0]), concat_tabs(tail), rest);
        lemma_dec_enc_tab(ts[0], concat_tabs(tail) + rest);
        assert(forall|i: int| 0 <= i < tail.len() ==> (#[trigger] tail[i]).wf());
        lemma_dec_enc_concat_tabs(tail, rest);
        assert(seq![ts[0]] + tail =~= ts);
    }
}

/// Each of `n` decoded tabs consumes at least one byte.
pub proof fn lemma_dec_tabs_n_len(s: Seq<u8>, n: nat)
    ensures
        dec_tabs_n(s, n) matches Some((ts, r)) ==> n + r.len() <= s.len() && ts.len() == n,
    decreases n,
{
    if n > 0 {
        lemma_dec_tab_len(s);
        match dec_tab(s) {
            None => {},
            Some((t, r)) => {
                lemma_dec_tabs_n_len(r, (n - 1) as nat);
            },
        }
    }
}

/// The whole model: count-prefixed tabs, then the active tab index.
/// The playback engine is deliberately absent from the persisted form.
pub open spec fn enc_model(v: ModelView) -> Seq<u8> {
    enc_u64(v.tabs.len() as u64) + concat_tabs(v.tabs) + enc_u64(v.active_tab as u64)
}

/// Reads a model. Bytes naming no tab at all, or an active index out of
/// range, are malformed: every decoded model satisfies the model invariant.
pub open spec fn dec_model(s: Seq<u8>) -> Option<(ModelView, Seq<u8>)> {
    match dec_u64(s) {
        None => None,
        Some((n, s1)) => {
            if n == 0 {
                None
            } else {
                match dec_tabs_n(s1, n as nat) {
                    None => None,
                    Some((tabs, s2)) => match dec_u64(s2) {
                        None => None,
                        Some((active, s3)) => {
                            if active < n {
                                Some((ModelView { tabs, active_tab: active as int }, s3))
                            } else {
                                None
                            }
                        },
                    },
                }
            }
        },
    }
}

/// A byte sequence is a well-formed persisted model exactly when it is one
/// encoded model with nothing after it.
pub open spec fn dec_model_full(s: Seq<u8>) -> Option<ModelView> {
    match dec_model(s) {
        None => None,
        Some((v, rest)) => {
            if rest.len() == 0 {
                Some(v)
            } else {
                None
            }
        },
    }
}

pub proof fn lemma_dec_enc_model(v: ModelView, rest: Seq<u8>)
    requires
        v.wf(),
    ensures
        dec_model(enc_model(v) + rest) == Some((v, rest)),
{
    let n = v.tabs.len() as u64;
    let r2 = enc_u64(v.active_tab as u64) + rest;
    let r1 = concat_tabs(v.tabs) + r2;
    assert(enc_model(v) + rest =~= enc_u64(n) + r1);
    lemma_dec_enc_u64(n, r1);
    lemma_dec_enc_concat_tabs(v.tabs, r2);
    lemma_dec_enc_u64(v.active_tab as u64, rest);
}

/// Decoding inverts encoding: the persisted bytes of any well-formed model
/// deserialize to exactly that model.
pub proof fn lemma_codec_roundtrip(v: ModelView)
    requires
        v.wf(),
    ensures
        dec_model_full(enc_model(v)) == Some(v),
{
    assert(enc_model(v) + Seq::<u8>::empty() =~= enc_model(v));
    lemma_dec_enc_model(v, Seq::<u8>::empty());
}

} // verus!

//! The executable persistence codec: `serialize` writes exactly the wire
//! format of `crate::wire`, and `deserialize` accepts exactly the byte
//! sequences that format produces, all-or-nothing.

use vstd::prelude::*;
use vstd::utf8::{encode_utf8, encode_utf8_decode_utf8, encode_utf8_valid_utf8, valid_utf8};
use crate::color::Color;
use crate::model::{Button, Clip, Model, Tab};
use crate::text::utf8_to_string;
use crate::wire::{
    concat_buttons, concat_tabs, concat_u32s, dec_button, dec_buttons_n, dec_clip,
    dec_model_full, dec_opt_clip, dec_str, dec_tab, dec_tabs_n, dec_u32, dec_u32_seq, dec_u32s_n,
    dec_u64, dec_u8, enc_button, enc_clip, enc_model, enc_opt_clip, enc_str, enc_tab, enc_u32,
    enc_u32_seq, enc_u64, enc_u8, lemma_dec_buttons_n_len, lemma_dec_tabs_n_len,
    lemma_dec_u32s_n_len,
};

verus! {

/// The bytes offered to `deserialize` were not a whole encoded model.
#[derive(Clone, Copy, Debug, PartialEq, Eq, Structural)]
pub struct DecodeError;

fn write_u8(out: &mut Vec<u8>, v: u8)
    ensures
        final(out)@ == old(out)@ + enc_u8(v),
{
    out.push(v);
    proof {
        assert(out@ =~= old(out)@ + enc_u8(v));
    }
}

fn write_u32(out: &mut Vec<u8>, v: u32)
    ensures
        final(out)@ == old(out)@ + enc_u32(v),
{
    out.push((v & 0xFF) as u8);
    out.push(((v >> 8) & 0xFF) as u8);
    out.push(((v >> 16) & 0xFF) as u8);
    out.push(((v >> 24) & 0xFF) as u8);
    proof {
        assert(out@ =~= old(out)@ + enc_u32(v));
    }
}

fn write_u64(out: &mut Vec<u8>, v: u64)
    ensures
        final(out)@ == old(out)@ + enc_u64(v),
{
    out.push((v & 0xFF) as u8);
    out.push(((v >> 8) & 0xFF) as u8);
    out.push(((v >> 16) & 0xFF) as u8);
    out.push(((v >> 24) & 0xFF) as u8);
    out.push(((v >> 32) & 0xFF) as u8);
    out.push(((v >> 40) & 0xFF) as u8);
    out.push(((v >> 48) & 0xFF) as u8);
    out.push(((v >> 56) & 0xFF) as u8);
    proof {
        assert(out@ =~= old(out)@ + enc_u64(v));
    }
}

fn write_str(out: &mut Vec<u8>, s: &str)
    ensures
        final(out)@ == old(out)@ + enc_str(s@),
{
    let b = s.as_bytes();
    write_u64(out, b.len() as u64);
    let ghost mid = out@;
    let mut i: usize = 0;
    while i < b.len()
        invariant
            i <= b@.len(),
            b@ == encode_utf8(s@),
            out@ == mid + b@.take(i as int),
        decreases b@.len() - i,
    {
        out.push(b[i]);
        i = i + 1;
        proof {
            assert(out@ =~= mid + b@.take(i as int));
        }
    }
    proof {
        assert(b@.take(b@.len() as int) =~= b@);
        assert(out@ =~= old(out)@ + enc_str(s@));
    }
}

fn write_u32_seq(out: &mut Vec<u8>, vs: &Vec<u32>)
    ensures
        final(out)@ == old(out)@ + enc_u32_seq(vs@),
{
    write_u64(out, vs.len() as u64);
    let ghost mid = out@;
    proof {
        assert(vs@.skip(0) =~= vs@);
    }
    let mut i: usize = 0;
    while i < vs.len()
        invariant
            i <= vs@.len(),
            out@ + concat_u32s(vs@.skip(i as int)) == mid + concat_u32s(vs@),
        decreases vs@.len() - i,
    {
        proof {
            assert(vs@.skip(i as int)[0] == vs@[i as int]);
            assert(vs@.skip(i as int).skip(1) =~= vs@.skip(i as int + 1));
        }
        let ghost pre = out@;
        write_u32(out, vs[i]);
        i = i + 1;
        proof {
            assert(out@ + concat_u32s(vs@.skip(i as int)) =~= pre + concat_u32s(
                vs@.skip(i as int - 1)));
        }
    }
    proof {
        assert(concat_u32s(vs@.skip(vs@.len() as int)) =~= Seq::<u8>::empty());
        assert(out@ =~= out@ + Seq::<u8>::empty());
        assert(out@ =~= old(out)@ + enc_u32_seq(vs@));
    }
}

fn write_clip(out: &mut Vec<u8>, c: &Clip)
    ensures
        final(out)@ == old(out)@ + enc_clip(c@),
{
    write_str(out, c.name.as_str());
    write_str(out, c.path.as_str());
    write_u32_seq(out, &c.envelope);
    write_u32(out, c.duration_bits);
    proof {
        assert(out@ =~= old(out)@ + enc_clip(c@));
    }
}

fn write_opt_clip(out: &mut Vec<u8>, oc: &Option<Clip>)
    ensures
        final(out)@ == old(out)@ + enc_opt_clip(match oc {
            Some(c) => Some(c@),
            None => None,
        }),
{
    match oc {
        None => {
            write_u8(out, 0);
        },
        Some(c) => {
            write_u8(out, 1);
            write_clip(out, c);
            proof {
                assert(out@ =~= old(out)@ + (enc_u8(1) + enc_clip(c@)));
            }
        },
    }
}

fn write_button(out: &mut Vec<u8>, b: &Button)
    ensures
        final(out)@ == old(out)@ + enc_button(b@),
{
    write_str(out, b.label.as_str());
    write_u32(out, b.pos_x_bits);
    write_u32(out, b.pos_y_bits);
    write_u32(out, b.color.pack());
    write_opt_clip(out, &b.clip);
    proof {
        assert(out@ =~= old(out)@ + enc_button(b@));
    }
}

fn write_tab(out: &mut Vec<u8>, t: &Tab)
    ensures
        final(out)@ == old(out)@ + enc_tab(t@),
{
    write_str(out, t.name.as_str());
    write_u64(out, t.buttons.len() as u64);
    let ghost bviews = t@.buttons;
    let ghost mid = out@;
    proof {
        assert(bviews.skip(0) =~= bviews);
    }
    let mut i: usize = 0;
    while i < t.buttons.len()
        invariant
            i <= bviews.len(),
            bviews == t@.buttons,
            t.buttons@.len() == bviews.len(),
            forall|j: int| 0 <= j < bviews.len() ==> bviews[j] == (#[trigger] t.buttons@[j])@,
            out@ + concat_buttons(bviews.skip(i as int)) == mid + concat_buttons(bviews),
        decreases bviews.len() - i,
    {
        proof {
            assert(bviews.skip(i as int)[0] == bviews[i as int]);
            assert(bviews.skip(i as int).skip(1) =~= bviews.skip(i as int + 1));
        }
        let ghost pre = out@;
        write_button(out, &t.buttons[i]);
        i = i + 1;
        proof {
            assert(out@ + concat_buttons(bviews.skip(i as int)) =~= pre + concat_buttons(
                bviews.skip(i as int - 1)));
        }
    }
    proof {
        assert(concat_buttons(bviews.skip(bviews.len() as int)) =~= Seq::<u8>::empty());
        assert(out@ =~= out@ + Seq::<u8>::empty());
        assert(out@ =~= old(out)@ + enc_tab(t@));
    }
}

/// Turns a model into its persisted byte form: exactly `enc_model` of its
/// view. The playback engine holds no place in it.
pub fn serialize(m: &Model) -> (out: Vec<u8>)
    ensures
        out@ == enc_model(m@),
{
    let mut out: Vec<u8> = Vec::new();
    write_u64(&mut out, m.tabs.len() as u64);
    let ghost tviews = m@.tabs;
    let ghost mid = out@;
    proof {
        assert(tviews.skip(0) =~= tviews);
    }
    let mut i: usize = 0;
    while i < m.tabs.len()
        invariant
            i <= tviews.len(),
            tviews == m@.tabs,
            m.tabs@.len() == tviews.len(),
            forall|j: int| 0 <= j < tviews.len() ==> tviews[j] == (#[trigger] m.tabs@[j])@,
            out@ + concat_tabs(tviews.skip(i as int)) == mid + concat_tabs(tviews),
        decreases tviews.len() - i,
    {
        proof {
            assert(tviews.skip(i as int)[0] == tviews[i as int]);
            assert(tviews.skip(i as int).skip(1) =~= tviews.skip(i as int + 1));
        }
        let ghost pre = out@;
        write_tab(&mut out, &m.tabs[i]);
        i = i + 1;
        proof {
            assert(out@ + concat_tabs(tviews.skip(i as int)) =~= pre + concat_tabs(
                tviews.skip(i as int - 1)));
        }
    }
    proof {
        assert(concat_tabs(tviews.skip(tviews.len() as int)) =~= Seq::<u8>::empty());
        assert(out@ =~= out@ + Seq::<u8>::empty());
    }
    write_u64(&mut out, m.active_tab as u64);
    proof {
        assert(out@ =~= enc_model(m@));
    }
    out
}

fn parse_u8(bytes: &Vec<u8>, pos: usize) -> (r: Option<(u8, usize)>)
    requires
        pos <= bytes@.len(),
    ensures
        match r {
            Some(vp) => pos <= vp.1 <= bytes@.len() && dec_u8(bytes@.skip(pos as int)) == Some(
                (vp.0, bytes@.skip(vp.1 as int)),
            ),
            None => dec_u8(bytes@.skip(pos as int)) is None,
        },
{
    if bytes.len() - pos >= 1 {
        let v = bytes[pos];
        proof {
            assert(bytes@.skip(pos as int).skip(1) =~= bytes@.skip(pos as int + 1));
        }
        Some((v, pos + 1))
    } else {
        None
    }
}

fn parse_u32(bytes: &Vec<u8>, pos: usize) -> (r: Option<(u32, usize)>)
    requires
        pos <= bytes@.len(),
    ensures
        match r {
            Some(vp) => pos <= vp.1 <= bytes@.len() && dec_u32(bytes@.skip(pos as int)) == Some(
                (vp.0, bytes@.skip(vp.1 as int)),
            ),
            None => dec_u32(bytes@.skip(pos as int)) is None,
        },
{
    if bytes.len() - pos >= 4 {
        let v = (bytes[pos] as u32) | ((bytes[pos + 1] as u32) << 8) | ((bytes[pos + 2] as u32)
            << 16) | ((bytes[pos + 3] as u32) << 24);
        proof {
            assert(bytes@.skip(pos as int).skip(4) =~= bytes@.skip(pos as int + 4));
        }
        Some((v, pos + 4))
    } else {
        None
    }
}

fn parse_u64(bytes: &Vec<u8>, pos: usize) -> (r: Option<(u64, usize)>)
    requires
        pos <= bytes@.len(),
    ensures
        match r {
            Some(vp) => pos <= vp.1 <= bytes@.len() && dec_u64(bytes@.skip(pos as int)) == Some(
                (vp.0, bytes@.skip(vp.1 as int)),
            ),
            None => dec_u64(bytes@.skip(pos as int)) is None,
        },
{
    if bytes.len() - pos >= 8 {
        let v = (bytes[pos] as u64) | ((bytes[pos + 1] as u64) << 8) | ((bytes[pos + 2] as u64)
            << 16) | ((bytes[pos + 3] as u64) << 24) | ((bytes[pos + 4] as u64) << 32) | ((
        bytes[pos + 5] as u64) << 40) | ((bytes[pos + 6] as u64) << 48) | ((bytes[pos + 7] as u64)
            << 56);
        proof {
            assert(bytes@.skip(pos as int).skip(8) =~= bytes@.skip(pos as int + 8));
        }
        Some((v, pos + 8))
    } else {
        None
    }
}

fn parse_str(bytes: &Vec<u8>, pos: usize) -> (r: Option<(String, usize)>)
    requires
        pos <= bytes@.len(),
    ensures
        match r {
            Some(vp) => pos <= vp.1 <= bytes@.len() && crate::model::str_wf(vp.0@) && dec_str(
                bytes@.skip(pos as int),
            ) == Some((vp.0@, bytes@.skip(vp.1 as int))),
            None => dec_str(bytes@.skip(pos as int)) is None,
        },
{
    match parse_u64(bytes, pos) {
        None => None,
        Some((n, p1)) => {
            if n > (bytes.len() - p1) as u64 {
                None
            } else {
                let m = n as usize;
                let mut buf: Vec<u8> = Vec::new();
                let mut i: usize = 0;
                while i < m
                    invariant
                        i <= m,
                        p1 + m <= bytes@.len() <= usize::MAX,
                        buf@ == bytes@.subrange(p1 as int, p1 as int + i as int),
                    decreases m - i,
                {
                    buf.push(bytes[p1 + i]);
                    i = i + 1;
                    proof {
                        assert(buf@ =~= bytes@.subrange(p1 as int, p1 as int + i as int));
                    }
                }
                proof {
                    assert(buf@ =~= bytes@.skip(p1 as int).take(n as int));
                }
                match utf8_to_string(buf) {
                    None => None,
                    Some(s) => {
                        proof {
                            encode_utf8_valid_utf8(s@);
                            encode_utf8_decode_utf8(s@);
                            assert(bytes@.skip(p1 as int).skip(n as int) =~= bytes@.skip(
                                p1 as int + m as int));
                        }
                        Some((s, p1 + m))
                    },
                }
            }
        },
    }
}

fn parse_u32_seq(bytes: &Vec<u8>, pos: usize) -> (r: Option<(Vec<u32>, usize)>)
    requires
        pos <= bytes@.len(),
    ensures
        match r {
            Some(vp) => pos <= vp.1 <= bytes@.len() && vp.0@.len() <= u64::MAX && dec_u32_seq(
                bytes@.skip(pos as int),
            ) == Some((vp.0@, bytes@.skip(vp.1 as int))),
            None => dec_u32_seq(bytes@.skip(pos as int)) is None,
        },
{
    match parse_u64(bytes, pos) {
        None => None,
        Some((n, p1)) => {
            if n > (bytes.len() - p1) as u64 {
                proof {
                    lemma_dec_u32s_n_len(bytes@.skip(p1 as int), n as nat);
                }
                None
            } else {
                let mut acc: Vec<u32> = Vec::new();
                let mut p = p1;
                let mut k: u64 = 0;
                proof {
                    assert(acc@ + Seq::<u32>::empty() =~= acc@);
                }
                while k < n
                    invariant
                        k <= n,
                        pos <= p <= bytes@.len(),
                        acc@.len() == k,
                        dec_u64(bytes@.skip(pos as int)) == Some((n, bytes@.skip(p1 as int))),
                        dec_u32s_n(bytes@.skip(p1 as int), n as nat) == (match dec_u32s_n(
                            bytes@.skip(p as int),
                            (n - k) as nat,
                        ) {
                            None => None::<(Seq<u32>, Seq<u8>)>,
                            Some((vs, rr)) => Some((acc@ + vs, rr)),
                        }),
                    decreases n - k,
                {
                    let ghost pre = acc@;
                    match parse_u32(bytes, p) {
                        None => {
                            return None;
                        },
                        Some((v, p2)) => {
                            proof {
                                let nxt = bytes@.skip(p2 as int);
                                match dec_u32s_n(nxt, (n - k - 1) as nat) {
                                    None => {},
                                    Some((vs, rr)) => {
                                        assert(pre + (seq![v] + vs) =~= pre.push(v) + vs);
                                    },
                                }
                            }
                            acc.push(v);
                            p = p2;
                            k = k + 1;
                        },
                    }
                }
                proof {
                    assert(acc@ + Seq::<u32>::empty() =~= acc@);
                }
                Some((acc, p))
            }
        },
    }
}

fn parse_clip(bytes: &Vec<u8>, pos: usize) -> (r: Option<(Clip, usize)>)
    requires
        pos <= bytes@.len(),
    ensures
        match r {
            Some(vp) => pos <= vp.1 <= bytes@.len() && vp.0@.wf() && dec_clip(
                bytes@.skip(pos as int),
            ) == Some((vp.0@, bytes@.skip(vp.1 as int))),
            None => dec_clip(bytes@.skip(pos as int)) is None,
        },
{
    match parse_str(bytes, pos) {
        None => None,
        Some((name, p1)) => match parse_str(bytes, p1) {
            None => None,
            Some((path, p2)) => match parse_u32_seq(bytes, p2) {
                None => None,
                Some((envelope, p3)) => match parse_u32(bytes, p3) {
                    None => None,
                    Some((duration_bits, p4)) => Some(
                        (Clip { name, path, envelope, duration_bits }, p4),
                    ),
                },
            },
        },
    }
}

fn parse_opt_clip(bytes: &Vec<u8>, pos: usize) -> (r: Option<(Option<Clip>, usize)>)
    requires
        pos <= bytes@.len(),
    ensures
        match r {
            Some(vp) => pos <= vp.1 <= bytes@.len() && (vp.0 matches Some(c) ==> c@.wf())
                && dec_opt_clip(bytes@.skip(pos as int)) == Some(
                (
                    match vp.0 {
                        Some(c) => Some(c@),
                        None => None,
                    },
                    bytes@.skip(vp.1 as int),
                ),
            ),
            None => dec_opt_clip(bytes@.skip(pos as int)) is None,
        },
{
    match parse_u8(bytes, pos) {
        None => None,
        Some((tag, p1)) => {
            if tag == 0 {
                Some((None, p1))
            } else if tag == 1 {
                match parse_clip(bytes, p1) {
                    None => None,
                    Some((c, p2)) => Some((Some(c), p2)),
                }
            } else {
                None
            }
        },
    }
}

fn parse_button(bytes: &Vec<u8>, pos: usize) -> (r: Option<(Button, usize)>)
    requires
        pos <= bytes@.len(),
    ensures
        match r {
            Some(vp) => pos <= vp.1 <= bytes@.len() && vp.0@.wf() && dec_button(
                bytes@.skip(pos as int),
            ) == Some((vp.0@, bytes@.skip(vp.1 as int))),
            None => dec_button(bytes@.skip(pos as int)) is None,
        },
{
    match parse_str(bytes, pos) {
        None => None,
        Some((label, p1)) => match parse_u32(bytes, p1) {
            None => None,
            Some((pos_x_bits, p2)) => match parse_u32(bytes, p2) {
                None => None,
                Some((pos_y_bits, p3)) => match parse_u32(bytes, p3) {
                    None => None,
                    Some((packed, p4)) => match parse_opt_clip(bytes, p4) {
                        None => None,
                        Some((clip, p5)) => {
                            let color = Color::unpack(packed);
                            Some((Button { label, pos_x_bits, pos_y_bits, color, clip }, p5))
                        },
                    },
                },
            },
        },
    }
}

fn parse_buttons_n(bytes: &Vec<u8>, pos: usize, n: u64) -> (r: Option<(Vec<Button>, usize)>)
    requires
        pos <= bytes@.len(),
    ensures
        match r {
            Some(vp) => {
                &&& pos <= vp.1 <= bytes@.len()
                &&& forall|i: int| 0 <= i < vp.0@.len() ==> (#[trigger] vp.0@[i])@.wf()
                &&& dec_buttons_n(bytes@.skip(pos as int), n as nat) == Some(
                    (vp.0@.map_values(|b: Button| b@), bytes@.skip(vp.1 as int)),
                )
            },
            None => dec_buttons_n(bytes@.skip(pos as int), n as nat) is None,
        },
{
    if n > (bytes.len() - pos) as u64 {
        proof {
            lemma_dec_buttons_n_len(bytes@.skip(pos as int), n as nat);
        }
        return None;
    }
    let mut acc: Vec<Button> = Vec::new();
    let mut p = pos;
    let mut k: u64 = 0;
    proof {
        assert(acc@.map_values(|b: Button| b@) + Seq::<crate::model::ButtonView>::empty()
            =~= acc@.map_values(|b: Button| b@));
    }
    while k < n
        invariant
            k <= n,
            pos <= p <= bytes@.len(),
            acc@.len() == k,
            forall|i: int| 0 <= i < acc@.len() ==> (#[trigger] acc@[i])@.wf(),
            dec_buttons_n(bytes@.skip(pos as int), n as nat) == (match dec_buttons_n(
                bytes@.skip(p as int),
                (n - k) as nat,
            ) {
                None => None::<(Seq<crate::model::ButtonView>, Seq<u8>)>,
                Some((vs, rr)) => Some((acc@.map_values(|b: Button| b@) + vs, rr)),
            }),
        decreases n - k,
    {
        let ghost pre = acc@.map_values(|b: Button| b@);
        match parse_button(bytes, p) {
            None => {
                return None;
            },
            Some((b, p2)) => {
                proof {
                    let nxt = bytes@.skip(p2 as int);
                    assert(acc@.push(b).map_values(|bb: Button| bb@) =~= pre.push(b@));
                    match dec_buttons_n(nxt, (n - k - 1) as nat) {
                        None => {},
                        Some((vs, rr)) => {
                            assert(pre + (seq![b@] + vs) =~= pre.push(b@) + vs);
                        },
                    }
                }
                acc.push(b);
                p = p2;
                k = k + 1;
            },
        }
    }
    proof {
        assert(acc@.map_values(|b: Button| b@) + Seq::<crate::model::ButtonView>::empty()
            =~= acc@.map_values(|b: Button| b@));
    }
    Some((acc, p))
}

fn parse_tab(bytes: &Vec<u8>, pos: usize) -> (r: Option<(Tab, usize)>)
    requires
        pos <= bytes@.len(),
    ensures
        match r {
            Some(vp) => pos <= vp.1 <= bytes@.len() && vp.0@.wf() && dec_tab(
                bytes@.skip(pos as int),
            ) == Some((vp.0@, bytes@.skip(vp.1 as int))),
            None => dec_tab(bytes@.skip(pos as int)) is None,
        },
{
    match parse_str(bytes, pos) {
        None => None,
        Some((name, p1)) => match parse_u64(bytes, p1) {
            None => None,
            Some((n, p2)) => match parse_buttons_n(bytes, p2, n) {
                None => None,
                Some((buttons, p3)) => {
                    proof {
                        lemma_dec_buttons_n_len(bytes@.skip(p2 as int), n as nat);
                    }
                    Some((Tab { name, buttons }, p3))
                },
            },
        },
    }
}

fn parse_tabs_n(bytes: &Vec<u8>, pos: usize, n: u64) -> (r: Option<(Vec<Tab>, usize)>)
    requires
        pos <= bytes@.len(),
    ensures
        match r {
            Some(vp) => {
                &&& pos <= vp.1 <= bytes@.len()
                &&& vp.0@.len() == n
                &&& forall|i: int| 0 <= i < vp.0@.len() ==> (#[trigger] vp.0@[i])@.wf()
                &&& dec_tabs_n(bytes@.skip(pos as int), n as nat) == Some(
                    (vp.0@.map_values(|t: Tab| t@), bytes@.skip(vp.1 as int)),
                )
            },
            None => dec_tabs_n(bytes@.skip(pos as int), n as nat) is None,
        },
{
    if n > (bytes.len() - pos) as u64 {
        proof {
            lemma_dec_tabs_n_len(bytes@.skip(pos as int), n as nat);
        }
        return None;
    }
    let mut acc: Vec<Tab> = Vec::new();
    let mut p = pos;
    let mut k: u64 = 0;
    proof {
        assert(acc@.map_values(|t: Tab| t@) + Seq::<crate::model::TabView>::empty()
            =~= acc@.map_values(|t: Tab| t@));
    }
    while k < n
        invariant
            k <= n,
            pos <= p <= bytes@.len(),
            acc@.len() == k,
            forall|i: int| 0 <= i < acc@.len() ==> (#[trigger] acc@[i])@.wf(),
            dec_tabs_n(bytes@.skip(pos as int), n as nat) == (match dec_tabs_n(
                bytes@.skip(p as int),
                (n - k) as nat,
            ) {
                None => None::<(Seq<crate::model::TabView>, Seq<u8>)>,
                Some((vs, rr)) => Some((acc@.map_values(|t: Tab| t@) + vs, rr)),
            }),
        decreases n - k,
    {
        let ghost pre = acc@.map_values(|t: Tab| t@);
        match parse_tab(bytes, p) {
            None => {
                return None;
            },
            Some((t, p2)) => {
                proof {
                    let nxt = bytes@.skip(p2 as int);
                    assert(acc@.push(t).map_values(|tt: Tab| tt@) =~= pre.push(t@));
                    match dec_tabs_n(nxt, (n - k - 1) as nat) {
                        None => {},
                        Some((vs, rr)) => {
                            assert(pre + (seq![t@] + vs) =~= pre.push(t@) + vs);
                        },
                    }
                }
                acc.push(t);
                p = p2;
                k = k + 1;
            },
        }
    }
    proof {
        assert(acc@.map_values(|t: Tab| t@) + Seq::<crate::model::TabView>::empty()
            =~= acc@.map_values(|t: Tab| t@));
    }
    Some((acc, p))
}

/// Reads a model back from its persisted byte form. Returns `Ok` exactly when
/// the bytes are one whole encoded model (`dec_model_full`); every model
/// returned satisfies the model invariant, so a load either yields a valid
/// model or changes nothing.
pub fn deserialize(bytes: &Vec<u8>) -> (r: Result<Model, DecodeError>)
    ensures
        match r {
            Ok(m) => m@.wf() && dec_model_full(bytes@) == Some(m@),
            Err(e) => dec_model_full(bytes@) is None,
        },
{
    proof {
        assert(bytes@.skip(0) =~= bytes@);
    }
    match parse_u64(bytes, 0) {
        None => Err(DecodeError),
        Some((n, p1)) => {
            if n == 0 {
                Err(DecodeError)
            } else {
                match parse_tabs_n(bytes, p1, n) {
                    None => Err(DecodeError),
                    Some((tabs, p2)) => match parse_u64(bytes, p2) {
                        None => Err(DecodeError),
                        Some((active, p3)) => {
                            if active >= n {
                                Err(DecodeError)
                            } else if p3 != bytes.len() {
                                Err(DecodeError)
                            } else {
                                let nt = tabs.len();
                                proof {
                                    assert(tabs@.len() == n as nat);
                                    assert(n == nt as u64);
                                    assert(active < nt as u64);
                                }
                                let m = Model { tabs, active_tab: active as usize };
                                Ok(m)
                            }
                        },
                    },
                }
            }
        },
    }
}

impl Model {
    /// Replaces this model with the one the bytes hold, all-or-nothing: on
    /// malformed or truncated bytes the previously loaded model is left
    /// untouched. The playback engine is no part of the persisted state;
    /// after a successful load the caller constructs a fresh idle engine.
    pub fn load_from_bytes(&mut self, bytes: &Vec<u8>) -> (r: Result<(), DecodeError>)
        ensures
            match r {
                Ok(u) => final(self)@.wf() && dec_model_full(bytes@) == Some(final(self)@),
                Err(e) => *final(self) == *old(self) && dec_model_full(bytes@) is None,
            },
    {
        match deserialize(bytes) {
            Ok(loaded) => {
                *self = loaded;
                Ok(())
            },
            Err(e) => Err(e),
        }
    }
}

} // verus!

//! The button/tab data model of the soundboard and its invariant-preserving
//! operations.
//!
//! Floating-point scalars (envelope peaks, durations, 2D positions) are held
//! as the bit patterns of 32-bit floats, so that the codec and the model logic
//! are exact; collaborators convert at the boundary.

use vstd::prelude::*;
use vstd::utf8::encode_utf8;
use crate::color::Color;
use crate::timefmt::{default_tab_name, spec_tab_name};

verus! {

/// An imported audio clip: its display name, where it came from, its peak
/// envelope (bit patterns of 32-bit floats), and its duration in seconds
/// (bit pattern of a 32-bit float; the all-zero pattern, 0.0, means unknown).
#[derive(Clone, Debug, PartialEq)]
pub struct Clip {
    pub name: String,
    pub path: String,
    pub envelope: Vec<u32>,
    pub duration_bits: u32,
}

/// A grid button: a label, a free-placement position (bit patterns of two
/// 32-bit floats; reserved, unused by the grid layout), a colour, and the
/// clip bound to it, if any. A button with no clip is an empty slot.
#[derive(Clone, Debug, PartialEq)]
pub struct Button {
    pub label: String,
    pub pos_x_bits: u32,
    pub pos_y_bits: u32,
    pub color: Color,
    pub clip: Option<Clip>,
}

/// A named tab holding an ordered row of buttons; grid position is index.
#[derive(Clone, Debug, PartialEq)]
pub struct Tab {
    pub name: String,
    pub buttons: Vec<Button>,
}

/// The whole persisted state: at least one tab, and which tab is active.
#[derive(Clone, Debug, PartialEq)]
pub struct Model {
    pub tabs: Vec<Tab>,
    pub active_tab: usize,
}

pub ghost struct ClipView {
    pub name: Seq<char>,
    pub path: Seq<char>,
    pub envelope: Seq<u32>,
    pub duration_bits: u32,
}

pub ghost struct ButtonView {
    pub label: Seq<char>,
    pub pos_x_bits: u32,
    pub pos_y_bits: u32,
    pub color: Color,
    pub clip: Option<ClipView>,
}

pub ghost struct TabView {
    pub name: Seq<char>,
    pub buttons: Seq<ButtonView>,
}

pub ghost struct ModelView {
    pub tabs: Seq<TabView>,
    pub active_tab: int,
}

impl View for Clip {
    type V = ClipView;

    open spec fn view(&self) -> ClipView {
        ClipView {
            name: self.name@,
            path: self.path@,
            envelope: self.envelope@,
            duration_bits: self.duration_bits,
        }
    }
}

impl View for Button {
    type V = ButtonView;

    open spec fn view(&self) -> ButtonView {
        ButtonView {
            label: self.label@,
            pos_x_bits: self.pos_x_bits,
            pos_y_bits: self.pos_y_bits,
            color: self.color,
            clip: match self.clip {
                Some(c) => Some(c@),
                None => None,
            },
        }
    }
}

impl View for Tab {
    type V = TabView;

    open spec fn view(&self) -> TabView {
        TabView { name: self.name@, buttons: self.buttons@.map_values(|b: Button| b@) }
    }
}

impl View for Model {
    type V = ModelView;

    open spec fn view(&self) -> ModelView {
        ModelView {
            tabs: self.tabs@.map_values(|t: Tab| t@),
            active_tab: self.active_tab as int,
        }
    }
}

/// A string fits the wire format's 64-bit length prefix.
pub open spec fn str_wf(s: Seq<char>) -> bool {
    encode_utf8(s).len() <= u64::MAX
}

impl ClipView {
    pub open spec fn wf(self) -> bool {
        &&& str_wf(self.name)
        &&& str_wf(self.path)
        &&& self.envelope.len() <= u64::MAX
    }
}

impl ButtonView {
    pub open spec fn wf(self) -> bool {
        &&& str_wf(self.label)
        &&& match self.clip {
            Some(c) => c.wf(),
            None => true,
        }
    }
}

impl TabView {
    pub open spec fn wf(self) -> bool {
        &&& str_wf(self.name)
        &&& self.buttons.len() <= u64::MAX
        &&& forall|i: int| 0 <= i < self.buttons.len() ==> (#[trigger] self.buttons[i]).wf()
    }
}

impl ModelView {
    /// The model invariant: at least one tab, the active index in range, and
    /// every part small enough for the wire format's length prefixes.
    pub open spec fn wf(self) -> bool {
        &&& 1 <= self.tabs.len() <= u64::MAX
        &&& 0 <= self.active_tab < self.tabs.len()
        &&& forall|i: int| 0 <= i < self.tabs.len() ==> (#[trigger] self.tabs[i]).wf()
    }
}

/// Measures a string's UTF-8 byte count, which shows it fits the wire
/// format's length prefix.
fn utf8_len(s: &String) -> (n: usize)
    ensures
        n == encode_utf8(s@).len(),
        str_wf(s@),
{
    s.as_str().as_bytes().len()
}

/// The colour every freshly created button starts with.
pub open spec fn spec_default_color() -> Color {
    Color { r: 100, g: 100, b: 255, a: 255 }
}

/// An unpopulated slot: empty label, origin position, default colour, no
/// clip.
pub open spec fn spec_empty_button() -> ButtonView {
    ButtonView {
        label: Seq::empty(),
        pos_x_bits: 0,
        pos_y_bits: 0,
        color: spec_default_color(),
        clip: None,
    }
}

fn empty_button() -> (b: Button)
    ensures
        b@ == spec_empty_button(),
        b@.wf(),
{
    let b = Button {
        label: String::new(),
        pos_x_bits: 0,
        pos_y_bits: 0,
        color: Color { r: 100, g: 100, b: 255, a: 255 },
        clip: None,
    };
    let _n: usize = utf8_len(&b.label);
    b
}

/// A deferred import request, resolved once per interface cycle after the
/// file picker returns: nothing pending, a clip for a (possibly not yet
/// created) slot, or a new clip for an existing button.
#[derive(Clone, Copy, PartialEq, Eq, Structural, Debug)]
pub enum SlotRequest {
    NoRequest,
    AddToSlot(usize),
    ReplaceClipOf(usize),
}

/// What placing an imported clip into a slot of the active tab does: the
/// button row grows with empty slots as far as needed, the slot gets a fresh
/// button carrying the clip, under the clip's name, at the default colour,
/// and nothing else moves.
pub open spec fn spec_placed(m0: ModelView, m1: ModelView, slot: int, c: ClipView) -> bool {
    &&& m1.active_tab == m0.active_tab
    &&& m1.tabs.len() == m0.tabs.len()
    &&& forall|i: int|
        0 <= i < m0.tabs.len() && i != m0.active_tab ==> m1.tabs[i] == #[trigger] m0.tabs[i]
    &&& ({
        let t0 = m0.tabs[m0.active_tab];
        let t1 = m1.tabs[m0.active_tab];
        &&& t1.name == t0.name
        &&& t1.buttons.len() == (if t0.buttons.len() <= slot {
            slot + 1
        } else {
            t0.buttons.len() as int
        })
        &&& t1.buttons[slot] == (ButtonView {
            label: c.name,
            pos_x_bits: 0,
            pos_y_bits: 0,
            color: spec_default_color(),
            clip: Some(c),
        })
        &&& forall|j: int|
            0 <= j < t0.buttons.len() && j != slot ==> t1.buttons[j] == #[trigger] t0.buttons[j]
        &&& forall|j: int|
            t0.buttons.len() <= j < t1.buttons.len() && j != slot ==> #[trigger] t1.buttons[j]
                == spec_empty_button()
    })
}

/// What giving an existing button a new clip does: label and clip change
/// together, position and colour stay, and nothing else moves.
pub open spec fn spec_replaced(m0: ModelView, m1: ModelView, idx: int, c: ClipView) -> bool {
    &&& m1.active_tab == m0.active_tab
    &&& m1.tabs.len() == m0.tabs.len()
    &&& forall|i: int|
        0 <= i < m0.tabs.len() && i != m0.active_tab ==> m1.tabs[i] == #[trigger] m0.tabs[i]
    &&& ({
        let t0 = m0.tabs[m0.active_tab];
        let t1 = m1.tabs[m0.active_tab];
        &&& t1.name == t0.name
        &&& t1.buttons.len() == t0.buttons.len()
        &&& t1.buttons[idx] == (ButtonView {
            label: c.name,
            pos_x_bits: t0.buttons[idx].pos_x_bits,
            pos_y_bits: t0.buttons[idx].pos_y_bits,
            color: t0.buttons[idx].color,
            clip: Some(c),
        })
        &&& forall|j: int|
            0 <= j < t0.buttons.len() && j != idx ==> t1.buttons[j] == #[trigger] t0.buttons[j]
    })
}

impl Model {
    /// A fresh model: one empty tab under the default first name, active.
    pub fn new() -> (m: Model)
        ensures
            m@.wf(),
            m@.active_tab == 0,
            m@.tabs.len() == 1,
            m@.tabs[0].buttons.len() == 0,
            m@.tabs[0].name == spec_tab_name(1),
    {
        let name = default_tab_name(1);
        let _n: usize = utf8_len(&name);
        let mut tabs: Vec<Tab> = Vec::new();
        tabs.push(Tab { name, buttons: Vec::new() });
        let m = Model { tabs, active_tab: 0 };
        proof {
            assert(m@.tabs.len() == 1);
            assert(m@.tabs[0].buttons =~= Seq::<ButtonView>::empty());
        }
        m
    }

    /// Places a freshly imported clip into `slot` of the active tab, growing
    /// the button row with empty slots if the slot does not exist yet, as
    /// `spec_placed` says.
    pub fn place_clip(
        &mut self,
        slot: usize,
        label: String,
        path: String,
        envelope: Vec<u32>,
        duration_bits: u32,
    )
        requires
            old(self)@.wf(),
            slot < usize::MAX,
        ensures
            final(self)@.wf(),
            spec_placed(
                old(self)@,
                final(self)@,
                slot as int,
                (ClipView { name: label@, path: path@, envelope: envelope@, duration_bits }),
            ),
    {
        let _n1: usize = utf8_len(&label);
        let _n2: usize = utf8_len(&path);
        let _n3: usize = envelope.len();
        let ghost c = ClipView { name: label@, path: path@, envelope: envelope@, duration_bits };
        let at = self.active_tab;
        let t = &mut self.tabs[at];
        let ghost ob = t.buttons@;
        let ghost name0 = t.name@;
        while t.buttons.len() <= slot
            invariant
                slot < usize::MAX,
                t.name@ == name0,
                ob.len() <= t.buttons@.len(),
                t.buttons@.len() <= slot + 1 || t.buttons@ == ob,
                forall|j: int| 0 <= j < ob.len() ==> t.buttons@[j] == ob[j],
                forall|j: int|
                    ob.len() <= j < t.buttons@.len() ==> (#[trigger] t.buttons@[j])@
                        == spec_empty_button(),
            decreases slot + 1 - t.buttons@.len(),
        {
            t.buttons.push(empty_button());
        }
        proof {
            if ob.len() > slot {
                assert(t.buttons@ =~= ob);
            }
        }
        let cname = label.clone();
        let b = Button {
            label,
            pos_x_bits: 0,
            pos_y_bits: 0,
            color: Color { r: 100, g: 100, b: 255, a: 255 },
            clip: Some(Clip { name: cname, path, envelope, duration_bits }),
        };
        t.buttons[slot] = b;
        proof {
            let m0 = old(self)@;
            let m1 = self@;
            assert(m1.tabs =~= m0.tabs.update(at as int, self.tabs@[at as int]@));
            assert(spec_placed(m0, m1, slot as int, c));
            let t0 = m0.tabs[at as int];
            let t1 = m1.tabs[at as int];
            assert forall|j: int| 0 <= j < t1.buttons.len() implies (
            #[trigger] t1.buttons[j]).wf() by {
                if j == slot {
                } else if j < t0.buttons.len() {
                    assert(t0.buttons[j].wf());
                } else {
                    assert(t1.buttons[j] == spec_empty_button());
                    assert(encode_utf8(Seq::<char>::empty()).len() == 0);
                }
            }
            assert forall|i: int| 0 <= i < m1.tabs.len() implies (#[trigger] m1.tabs[i]).wf() by {
                if i != at as int {
                    assert(m1.tabs[i] == m0.tabs[i]);
                }
            }
        }
    }

    /// Gives the button at `idx` of the active tab a new clip, keeping its
    /// position and colour, as `spec_replaced` says; with no button there,
    /// changes nothing.
    pub fn replace_clip(
        &mut self,
        idx: usize,
        label: String,
        path: String,
        envelope: Vec<u32>,
        duration_bits: u32,
    ) -> (ok: bool)
        requires
            old(self)@.wf(),
        ensures
            final(self)@.wf(),
            ok <==> idx < old(self)@.tabs[old(self)@.active_tab].buttons.len(),
            ok ==> spec_replaced(
                old(self)@,
                final(self)@,
                idx as int,
                (ClipView { name: label@, path: path@, envelope: envelope@, duration_bits }),
            ),
            !ok ==> *final(self) == *old(self),
    {
        let at = self.active_tab;
        if idx >= self.tabs[at].buttons.len() {
            return false;
        }
        let _n1: usize = utf8_len(&label);
        let _n2: usize = utf8_len(&path);
        let _n3: usize = envelope.len();
        let ghost c = ClipView { name: label@, path: path@, envelope: envelope@, duration_bits };
        let t = &mut self.tabs[at];
        let pos_x_bits = t.buttons[idx].pos_x_bits;
        let pos_y_bits = t.buttons[idx].pos_y_bits;
        let color = t.buttons[idx].color;
        let cname = label.clone();
        let b = Button {
            label,
            pos_x_bits,
            pos_y_bits,
            color,
            clip: Some(Clip { name: cname, path, envelope, duration_bits }),
        };
        t.buttons[idx] = b;
        proof {
            let m0 = old(self)@;
            let m1 = self@;
            assert(m1.tabs =~= m0.tabs.update(at as int, self.tabs@[at as int]@));
            assert(spec_replaced(m0, m1, idx as int, c));
            let t0 = m0.tabs[at as int];
            let t1 = m1.tabs[at as int];
            assert forall|j: int| 0 <= j < t1.buttons.len() implies (
            #[trigger] t1.buttons[j]).wf() by {
                if j != idx {
                    assert(t1.buttons[j] == t0.buttons[j]);
                    assert(t0.buttons[j].wf());
                }
            }
            assert forall|i: int| 0 <= i < m1.tabs.len() implies (#[trigger] m1.tabs[i]).wf() by {
                if i != at as int {
                    assert(m1.tabs[i] == m0.tabs[i]);
                }
            }
        }
        true
    }

    /// Resolves one deferred import request with the clip the extractor
    /// produced: placing into a slot, replacing an existing button's clip,
    /// or nothing. Says whether the model changed.
    pub fn apply_import(
        &mut self,
        req: SlotRequest,
        label: String,
        path: String,
        envelope: Vec<u32>,
        duration_bits: u32,
    ) -> (changed: bool)
        requires
            old(self)@.wf(),
            req matches SlotRequest::AddToSlot(s) ==> s < usize::MAX,
        ensures
            final(self)@.wf(),
            match req {
                SlotRequest::NoRequest => !changed && *final(self) == *old(self),
                SlotRequest::AddToSlot(s) => changed && spec_placed(
                    old(self)@,
                    final(self)@,
                    s as int,
                    (ClipView { name: label@, path: path@, envelope: envelope@, duration_bits }),
                ),
                SlotRequest::ReplaceClipOf(i) => {
                    &&& (changed <==> i < old(self)@.tabs[old(self)@.active_tab].buttons.len())
                    &&& (changed ==> spec_replaced(
                        old(self)@,
                        final(self)@,
                        i as int,
                        (ClipView {
                            name: label@,
                            path: path@,
                            envelope: envelope@,
                            duration_bits,
                        }),
                    ))
                    &&& (!changed ==> *final(self) == *old(self))
                },
            },
    {
        match req {
            SlotRequest::NoRequest => false,
            SlotRequest::AddToSlot(s) => {
                self.place_clip(s, label, path, envelope, duration_bits);
                true
            },
            SlotRequest::ReplaceClipOf(i) => self.replace_clip(
                i,
                label,
                path,
                envelope,
                duration_bits,
            ),
        }
    }

    /// Appends a fresh empty tab under the next default name and makes it
    /// active.
    pub fn add_tab(&mut self)
        requires
            old(self)@.wf(),
            old(self)@.tabs.len() < usize::MAX,
        ensures
            final(self)@.wf(),
            final(self)@.tabs.len() == old(self)@.tabs.len() + 1,
            forall|i: int|
                0 <= i < old(self)@.tabs.len() ==> final(self)@.tabs[i] == #[trigger] old(
                    self,
                )@.tabs[i],
            final(self)@.tabs[old(self)@.tabs.len() as int].name == spec_tab_name(
                old(self)@.tabs.len() + 1,
            ),
            final(self)@.tabs[old(self)@.tabs.len() as int].buttons.len() == 0,
            final(self)@.active_tab == old(self)@.tabs.len(),
    {
        let n = self.tabs.len();
        let name = default_tab_name((n as u64) + 1);
        let _m: usize = utf8_len(&name);
        self.tabs.push(Tab { name, buttons: Vec::new() });
        self.active_tab = n;
        proof {
            let m0 = old(self)@;
            let m1 = self@;
            assert(m1.tabs =~= m0.tabs.push(self.tabs@[n as int]@));
            assert(m1.tabs[n as int].buttons =~= Seq::<ButtonView>::empty());
            assert forall|i: int| 0 <= i < m1.tabs.len() implies (#[trigger] m1.tabs[i]).wf() by {
                if i < n as int {
                    assert(m1.tabs[i] == m0.tabs[i]);
                }
            }
        }
    }

    /// Makes tab `i` active; with no such tab, changes nothing.
    pub fn select_tab(&mut self, i: usize) -> (ok: bool)
        requires
            old(self)@.wf(),
        ensures
            final(self)@.wf(),
            ok <==> i < old(self)@.tabs.len(),
            ok ==> final(self)@.tabs == old(self)@.tabs && final(self)@.active_tab == i,
            !ok ==> *final(self) == *old(self),
    {
        if i < self.tabs.len() {
            self.active_tab = i;
            true
        } else {
            false
        }
    }
}

} // verus!

//! Windows on the desktop, the places they are put and the keys that are sent to them.

use vstd::prelude::*;

use crate::text;

verus! {

// ---------------------------------------------------------------------------------------------
// Finding windows
// ---------------------------------------------------------------------------------------------
/// A window at the top level of the desktop.
pub struct WindowInfo {
    /// Whether it is shown.
    pub visible: bool,
    /// Its title.
    pub title: String,
}

/// The window is shown and its title holds this text.
pub open spec fn shows(w: WindowInfo, substr: Seq<char>) -> bool {
    w.visible && text::has_text(w.title@, substr)
}

/// The place of the first window that is shown and whose title holds this text.
pub fn find_visible_window_by_title(windows: &Vec<WindowInfo>, substr: &str) -> (r: Option<usize>)
    ensures
        match r {
            Some(i) => {
                &&& i < windows@.len()
                &&& shows(windows@[i as int], substr@)
                &&& forall|j: int| 0 <= j < i ==> !#[trigger] shows(windows@[j], substr@)
            },
            None => forall|j: int|
                0 <= j < windows@.len() ==> !#[trigger] shows(windows@[j], substr@),
        },
{
    let mut i: usize = 0;
    while i < windows.len()
        invariant
            i <= windows@.len(),
            forall|j: int| 0 <= j < i ==> !#[trigger] shows(windows@[j], substr@),
        decreases windows@.len() - i,
    {
        if windows[i].visible && text::contains(windows[i].title.as_str(), substr) {
            return Some(i);
        }
        i = i + 1;
    }
    None
}

/// The places of the texts that hold this part, in order.
pub open spec fn places_with(list: Seq<Seq<char>>, part: Seq<char>) -> Seq<usize>
    decreases list.len(),
{
    if list.len() == 0 {
        Seq::empty()
    } else {
        let rest = places_with(list.drop_last(), part);
        if text::has_text(list.last(), part) {
            rest.push((list.len() - 1) as usize)
        } else {
            rest
        }
    }
}

/// The places of the child windows in which web content is rendered, told by the names of their
/// classes.
pub fn render_host_children(classes: &Vec<String>) -> (r: Vec<usize>)
    ensures
        r@ == places_with(text::texts(classes@), "RenderWidgetHost"@),
{
    let ghost all = text::texts(classes@);
    let mut out: Vec<usize> = Vec::new();
    let mut i: usize = 0;
    assert(all.take(0) =~= Seq::<Seq<char>>::empty());
    while i < classes.len()
        invariant
            i <= classes@.len(),
            all == text::texts(classes@),
            out@ == places_with(all.take(i as int), "RenderWidgetHost"@),
        decreases classes@.len() - i,
    {
        assert(all.take(i + 1).drop_last() =~= all.take(i as int));
        assert(all.take(i + 1).last() == classes@[i as int]@);
        if text::contains(classes[i].as_str(), "RenderWidgetHost") {
            out.push(i);
        }
        i = i + 1;
    }
    assert(all.take(all.len() as int) =~= all);
    out
}

// ---------------------------------------------------------------------------------------------
// Places on the screen
// ---------------------------------------------------------------------------------------------
/// A rectangle of the screen.
#[derive(Clone, Copy)]
pub struct Area {
    /// Its left edge.
    pub x: i32,
    /// Its upper edge.
    pub y: i32,
    /// Its width.
    pub w: i32,
    /// Its height.
    pub h: i32,
}

/// The number is one of those that coordinates can be.
pub open spec fn fits(n: int) -> bool {
    i32::MIN <= n <= i32::MAX
}

impl Area {
    /// The far edges of the rectangle have coordinates.
    pub open spec fn valid(self) -> bool {
        fits(self.x + self.w) && fits(self.y + self.h)
    }
}

/// The rectangle between these edges.
pub fn work_area(left: i32, top: i32, right: i32, bottom: i32) -> (r: Area)
    requires
        fits(right - left),
        fits(bottom - top),
    ensures
        r == (Area { x: left, y: top, w: (right - left) as i32, h: (bottom - top) as i32 }),
        r.valid(),
{
    Area { x: left, y: top, w: right - left, h: bottom - top }
}

/// The smaller of two numbers.
pub open spec fn least(a: int, b: int) -> int {
    if a < b {
        a
    } else {
        b
    }
}

/// The rectangle of this size, or as large as there is room, in the lower right corner of the
/// area.
pub open spec fn docked(area: Area, w: int, h: int) -> Area {
    Area {
        x: (area.x + area.w - least(w, area.w as int)) as i32,
        y: (area.y + area.h - least(h, area.h as int)) as i32,
        w: least(w, area.w as int) as i32,
        h: least(h, area.h as int) as i32,
    }
}

/// The rectangle of this size, or as large as there is room, in the lower right corner of the
/// area: it ends where the area ends, and begins no earlier.
pub fn dock(area: Area, w: i32, h: i32) -> (r: Area)
    requires
        area.valid(),
        0 <= w,
        0 <= h,
    ensures
        r == docked(area, w as int, h as int),
        r.x + r.w == area.x + area.w,
        r.y + r.h == area.y + area.h,
        area.x <= r.x,
        area.y <= r.y,
{
    let w: i32 = if w < area.w { w } else { area.w };
    let h: i32 = if h < area.h { h } else { area.h };
    Area { x: area.x + area.w - w, y: area.y + area.h - h, w, h }
}

/// Half of a number, towards zero.
pub open spec fn half(n: int) -> int {
    if n >= 0 {
        n / 2
    } else {
        -((-n) / 2)
    }
}

fn half_of(n: i32) -> (r: i32)
    ensures
        r == half(n as int),
{
    let m: i64 = n as i64;
    if m >= 0 {
        (m / 2) as i32
    } else {
        (-((-m) / 2)) as i32
    }
}

/// The point in the middle between these edges.
pub fn centre(left: i32, top: i32, right: i32, bottom: i32) -> (r: (i32, i32))
    requires
        fits(left + right),
        fits(top + bottom),
    ensures
        r.0 == half(left + right),
        r.1 == half(top + bottom),
{
    (half_of(left + right), half_of(top + bottom))
}

// ---------------------------------------------------------------------------------------------
// Text as the system takes it
// ---------------------------------------------------------------------------------------------
/// The units by which a character is written: one, or two for a character beyond the first 65536.
pub open spec fn units_of(c: char) -> Seq<u16> {
    let n = c as u32 as int;
    if n < 0x10000 {
        seq![n as u16]
    } else {
        seq![(0xD800 + (n - 0x10000) / 0x400) as u16, (0xDC00 + (n - 0x10000) % 0x400) as u16]
    }
}

/// The units by which a text is written.
pub open spec fn utf16(s: Seq<char>) -> Seq<u16>
    decreases s.len(),
{
    if s.len() == 0 {
        Seq::empty()
    } else {
        utf16(s.drop_last()) + units_of(s.last())
    }
}

/// The units by which a text is written.
pub fn utf16_units(s: &str) -> (r: Vec<u16>)
    ensures
        r@ == utf16(s@),
{
    let cs: Vec<char> = text::to_chars(s);
    let mut out: Vec<u16> = Vec::new();
    let mut i: usize = 0;
    assert(cs@.take(0) =~= Seq::<char>::empty());
    while i < cs.len()
        invariant
            i <= cs@.len(),
            out@ == utf16(cs@.take(i as int)),
        decreases cs@.len() - i,
    {
        let ghost was = out@;
        let c: char = cs[i];
        let n: u32 = c as u32;
        if n < 0x10000 {
            out.push(n as u16);
        } else {
            out.push((0xD800 + (n - 0x10000) / 0x400) as u16);
            out.push((0xDC00 + (n - 0x10000) % 0x400) as u16);
        }
        proof {
            assert(cs@.take(i + 1).drop_last() =~= cs@.take(i as int));
            assert(out@ =~= was + units_of(c));
        }
        i = i + 1;
    }
    assert(cs@.take(cs@.len() as int) =~= cs@);
    out
}

/// The text that units stand for: two units that belong together are read as one character.
pub open spec fn utf16_read(u: Seq<u16>) -> Seq<char>
    decreases u.len(),
{
    if u.len() == 0 {
        Seq::empty()
    } else if u.len() >= 2 && 0xDC00 <= u.last() <= 0xDFFF && 0xD800 <= u[u.len() - 2] <= 0xDBFF {
        utf16_read(u.take(u.len() - 2)).push(
            (0x10000 + (u[u.len() - 2] - 0xD800) * 0x400 + (u.last() - 0xDC00)) as char,
        )
    } else {
        utf16_read(u.drop_last()).push(u.last() as char)
    }
}

proof fn lemma_units_of(c: char)
    ensures
        (c as u32) < 0x10000 ==> units_of(c) == seq![(c as u32) as u16] && !(0xDC00 <= units_of(c)[0]
            <= 0xDFFF) && units_of(c)[0] as char == c,
        (c as u32) >= 0x10000 ==> {
            let u = units_of(c);
            &&& u.len() == 2
            &&& 0xD800 <= u[0] <= 0xDBFF
            &&& 0xDC00 <= u[1] <= 0xDFFF
            &&& (0x10000 + (u[0] - 0xD800) * 0x400 + (u[1] - 0xDC00)) as char == c
        },
{
    let n = c as u32;
    assert(n <= 0x10FFFF && !(0xD800 <= n <= 0xDFFF));
}

/// A text survives being written as units: it is read back as it was.
pub proof fn law_utf16_survives(s: Seq<char>)
    ensures
        utf16_read(utf16(s)) == s,
    decreases s.len(),
{
    if s.len() > 0 {
        let front = s.drop_last();
        let c = s.last();
        let n = c as u32 as int;
        let u = utf16(s);
        law_utf16_survives(front);
        lemma_units_of(c);
        if n < 0x10000 {
            assert(u.drop_last() =~= utf16(front));
            assert(!(0xDC00 <= u.last() <= 0xDFFF));
        } else {
            assert(u.take(u.len() - 2) =~= utf16(front));
        }
        assert(s =~= front.push(c));
    } else {
        assert(utf16_read(utf16(s)) =~= s);
    }
}

/// What to put on the clipboard: the units of the text, and a zero behind them.
pub fn clipboard_units(s: &str) -> (r: Vec<u16>)
    ensures
        r@ == utf16(s@).push(0),
{
    let mut out: Vec<u16> = utf16_units(s);
    out.push(0);
    out
}

// ---------------------------------------------------------------------------------------------
// Keys
// ---------------------------------------------------------------------------------------------
/// The number of the control key.
pub const VK_CONTROL: u16 = 0x11;

/// The number of the enter key.
pub const VK_RETURN: u16 = 0x0D;

/// The number of the key `A`.
pub const VK_A: u16 = 0x41;

/// The number of the key `V`.
pub const VK_V: u16 = 0x56;

/// The number of units that are typed at once.
pub const BURST: usize = 24;

/// A key.
#[derive(Clone, Copy)]
pub enum Key {
    /// The one that enters this unit of text.
    Unit(u16),
    /// The one with this number.
    Virtual(u16),
}

/// A key goes down, or up.
#[derive(Clone, Copy)]
pub struct KeyEvent {
    /// The key.
    pub key: Key,
    /// Whether it goes up.
    pub up: bool,
}

/// Each unit is entered by its key going down and up.
pub open spec fn presses(units: Seq<u16>) -> Seq<KeyEvent> {
    Seq::new(
        (2 * units.len()) as nat,
        |i: int| (KeyEvent { key: Key::Unit(units[i / 2]), up: i % 2 == 1 }),
    )
}

/// The units in the portions in which they are typed.
pub open spec fn bursts(units: Seq<u16>) -> Seq<Seq<KeyEvent>>
    decreases units.len(),
{
    if units.len() == 0 {
        Seq::empty()
    } else if units.len() <= BURST {
        seq![presses(units)]
    } else {
        seq![presses(units.take(BURST as int))] + bursts(units.skip(BURST as int))
    }
}

/// What is seen of portions of key events.
pub open spec fn burst_views(v: Seq<Vec<KeyEvent>>) -> Seq<Seq<KeyEvent>> {
    Seq::new(v.len(), |i: int| v[i]@)
}

fn press_all(units: &Vec<u16>, from: usize, to: usize) -> (r: Vec<KeyEvent>)
    requires
        from <= to <= units@.len(),
    ensures
        r@ == presses(units@.subrange(from as int, to as int)),
{
    let mut out: Vec<KeyEvent> = Vec::new();
    let mut i: usize = from;
    while i < to
        invariant
            from <= i <= to <= units@.len(),
            out@ =~= presses(units@.subrange(from as int, i as int)),
        decreases to - i,
    {
        out.push(KeyEvent { key: Key::Unit(units[i]), up: false });
        out.push(KeyEvent { key: Key::Unit(units[i]), up: true });
        i = i + 1;
    }
    out
}

/// The keys that type a text into whatever has the focus, in portions between which to pause.
pub fn type_unicode(s: &str) -> (r: Vec<Vec<KeyEvent>>)
    ensures
        burst_views(r@) == bursts(utf16(s@)),
{
    let units: Vec<u16> = utf16_units(s);
    let n: usize = units.len();
    let mut out: Vec<Vec<KeyEvent>> = Vec::new();
    let mut i: usize = 0;
    assert(units@.skip(0) =~= units@);
    assert(burst_views(out@) + bursts(units@) =~= bursts(units@));
    while i < n
        invariant
            i <= n == units@.len(),
            burst_views(out@) + bursts(units@.skip(i as int)) == bursts(units@),
        decreases n - i,
    {
        let ghost was = out@;
        let ghost rest = units@.skip(i as int);
        let to: usize = if n - i <= BURST { n } else { i + BURST };
        out.push(press_all(&units, i, to));
        proof {
            let first = presses(units@.subrange(i as int, to as int));
            assert(burst_views(out@) =~= burst_views(was).push(first));
            if n - i <= BURST {
                assert(units@.subrange(i as int, to as int) =~= rest);
                assert(units@.skip(to as int) =~= Seq::<u16>::empty());
                assert(bursts(rest) =~= seq![first] + bursts(units@.skip(to as int)));
            } else {
                assert(units@.subrange(i as int, to as int) =~= rest.take(BURST as int));
                assert(units@.skip(to as int) =~= rest.skip(BURST as int));
            }
            assert(burst_views(out@) + bursts(units@.skip(to as int)) =~= burst_views(was) + (seq![
                first,
            ] + bursts(units@.skip(to as int))));
        }
        i = to;
    }
    assert(units@.skip(n as int) =~= Seq::<u16>::empty());
    assert(burst_views(out@) =~= burst_views(out@) + bursts(Seq::<u16>::empty()));
    out
}

/// All portions, one after another.
pub open spec fn flattened_bursts(b: Seq<Seq<KeyEvent>>) -> Seq<KeyEvent>
    decreases b.len(),
{
    if b.len() == 0 {
        Seq::empty()
    } else {
        b[0] + flattened_bursts(b.skip(1))
    }
}

/// Nothing is lost and nothing is doubled by typing in portions: together they press and release
/// the key of each unit in turn. No portion is longer than it may be.
pub proof fn law_bursts_type_everything(units: Seq<u16>)
    ensures
        flattened_bursts(bursts(units)) == presses(units),
        forall|i: int|
            0 <= i < bursts(units).len() ==> 0 < (#[trigger] bursts(units)[i]).len() <= 2 * BURST,
    decreases units.len(),
{
    reveal_with_fuel(flattened_bursts, 2);
    if units.len() == 0 {
        assert(presses(units) =~= Seq::<KeyEvent>::empty());
    } else if units.len() <= BURST {
        assert(bursts(units).skip(1) =~= Seq::<Seq<KeyEvent>>::empty());
        assert(flattened_bursts(bursts(units)) =~= presses(units));
    } else {
        let rest = units.skip(BURST as int);
        law_bursts_type_everything(rest);
        assert(bursts(units).skip(1) =~= bursts(rest));
        assert(presses(units) =~= presses(units.take(BURST as int)) + presses(rest));
        assert forall|i: int| 0 <= i < bursts(units).len() implies 0 < (#[trigger] bursts(
            units,
        )[i]).len() <= 2 * BURST by {
            if i > 0 {
                assert(bursts(units)[i] == bursts(rest)[i - 1]);
            }
        }
    }
}

/// A key goes down while the control key is held.
pub open spec fn chord(vk: u16) -> Seq<KeyEvent> {
    seq![
        KeyEvent { key: Key::Virtual(VK_CONTROL), up: false },
        KeyEvent { key: Key::Virtual(vk), up: false },
        KeyEvent { key: Key::Virtual(vk), up: true },
        KeyEvent { key: Key::Virtual(VK_CONTROL), up: true },
    ]
}

fn press_chord(vk: u16) -> (r: Vec<KeyEvent>)
    ensures
        r@ == chord(vk),
{
    let mut out: Vec<KeyEvent> = Vec::new();
    out.push(KeyEvent { key: Key::Virtual(VK_CONTROL), up: false });
    out.push(KeyEvent { key: Key::Virtual(vk), up: false });
    out.push(KeyEvent { key: Key::Virtual(vk), up: true });
    out.push(KeyEvent { key: Key::Virtual(VK_CONTROL), up: true });
    assert(out@ =~= chord(vk));
    out
}

/// The keys that paste what is on the clipboard.
pub fn paste() -> (r: Vec<KeyEvent>)
    ensures
        r@ == chord(VK_V),
        r@ == chord(0x56),
{
    press_chord(VK_V)
}

/// The keys that select the whole text of an input box.
pub fn select_all() -> (r: Vec<KeyEvent>)
    ensures
        r@ == chord(VK_A),
        r@ == chord(0x41),
{
    press_chord(VK_A)
}

/// The enter key, going down and then up. It is to be held for a moment in between.
pub fn press_enter() -> (r: (KeyEvent, KeyEvent))
    ensures
        r.0 == (KeyEvent { key: Key::Virtual(VK_RETURN), up: false }),
        r.1 == (KeyEvent { key: Key::Virtual(VK_RETURN), up: true }),
        r.0.key == Key::Virtual(0x0D),
        r.1.key == Key::Virtual(0x0D),
{
    (
        KeyEvent { key: Key::Virtual(VK_RETURN), up: false },
        KeyEvent { key: Key::Virtual(VK_RETURN), up: true },
    )
}

/// The key that goes down here goes up later on, and does not go down again before that.
pub open spec fn is_released(events: Seq<KeyEvent>, i: int) -> bool {
    exists|j: int|
        {
            &&& i < j < events.len()
            &&& #[trigger] events[j] == (KeyEvent { key: events[i].key, up: true })
            &&& forall|k: int| i < k < j ==> (#[trigger] events[k]).key != events[i].key
        }
}

/// No key stays down: each one that a typed text, a paste or a selection presses is released.
pub proof fn law_keys_are_released(units: Seq<u16>, vk: u16, i: int)
    requires
        vk != VK_CONTROL,
    ensures
        0 <= i < presses(units).len() && !presses(units)[i].up ==> is_released(presses(units), i),
        0 <= i < chord(vk).len() && !chord(vk)[i].up ==> is_released(chord(vk), i),
{
    let p = presses(units);
    if 0 <= i < p.len() && !p[i].up {
        assert(i % 2 == 0);
        assert(p[i + 1] == (KeyEvent { key: p[i].key, up: true }));
    }
    let c = chord(vk);
    if i == 0 {
        assert(c[3] == (KeyEvent { key: c[0].key, up: true }));
    } else if i == 1 {
        assert(c[2] == (KeyEvent { key: c[1].key, up: true }));
    }
}

// ---------------------------------------------------------------------------------------------
// What is found, placed and pressed, told by numbers and texts alone
// ---------------------------------------------------------------------------------------------
/// A window counts just where it is shown and its title holds the text. Every child window whose
/// class names the part is one that renders web content, in order, and no other one is.
pub proof fn law_windows_are_found(w: WindowInfo, part: Seq<char>, list: Seq<Seq<char>>, i: int)
    requires
        list.len() <= usize::MAX,
    ensures
        shows(w, part) <==> w.visible && text::has_text(w.title@, part),
        0 <= i < list.len() ==> (text::has_text(list[i], part) <==> places_with(list, part).contains(
            i as usize,
        )),
        forall|k: int|
            0 <= k < places_with(list, part).len() ==> (#[trigger] places_with(list, part)[k])
                < list.len(),
        forall|k: int, m: int|
            0 <= k < m < places_with(list, part).len() ==> (#[trigger] places_with(list, part)[k])
                < (#[trigger] places_with(list, part)[m]),
    decreases list.len(),
{
    let all = places_with(list, part);
    if list.len() > 0 {
        let front = list.drop_last();
        let rest = places_with(front, part);
        law_windows_are_found(w, part, front, i);
        if 0 <= i < front.len() {
            assert(front[i] == list[i]);
            if rest.contains(i as usize) {
                let k = choose|k: int| 0 <= k < rest.len() && rest[k] == i as usize;
                assert(all[k] == i as usize);
            }
            if all.contains(i as usize) {
                let k = choose|k: int| 0 <= k < all.len() && all[k] == i as usize;
                if k >= rest.len() {
                    assert(all[k] == (list.len() - 1) as usize);
                }
                assert(rest[k] == i as usize);
            }
        } else if i == front.len() {
            if text::has_text(list[i], part) {
                assert(all[rest.len() as int] == i as usize);
            } else if all.contains(i as usize) {
                let k = choose|k: int| 0 <= k < all.len() && all[k] == i as usize;
                assert(rest[k] < front.len());
            }
        }
        assert forall|k: int| 0 <= k < all.len() implies (#[trigger] all[k]) < list.len() by {
            if k < rest.len() {
                assert(all[k] == rest[k]);
            }
        }
        assert forall|k: int, m: int| 0 <= k < m < all.len() implies (#[trigger] all[k])
            < (#[trigger] all[m]) by {
            assert(all[k] == rest[k]);
            if m < rest.len() {
                assert(all[m] == rest[m]);
            }
        }
    }
}

/// A docked window has the size that is asked for, as far as there is room, and its far corner is
/// that of the area.
pub proof fn law_window_is_docked(area: Area, w: int, h: int)
    requires
        area.valid(),
        0 <= w <= i32::MAX,
        0 <= h <= i32::MAX,
    ensures
        ({
            let d = docked(area, w, h);
            &&& d.w == if w < area.w {
                w
            } else {
                area.w as int
            }
            &&& d.h == if h < area.h {
                h
            } else {
                area.h as int
            }
            &&& d.x + d.w == area.x + area.w
            &&& d.y + d.h == area.y + area.h
        }),
{
}

/// Half of a number leaves a rest of less than two, on the side of zero.
pub proof fn law_half_is_half(n: int)
    ensures
        n >= 0 ==> 0 <= n - 2 * half(n) <= 1,
        n <= 0 ==> -1 <= n - 2 * half(n) <= 0,
{
}

/// A text is written character by character: one among the first 65536 is its own unit, and any
/// other one takes two units, the first of which tells its upper ten bits and the second its lower
/// ten.
pub proof fn law_characters_are_written(s: Seq<char>, c: char)
    ensures
        utf16(Seq::<char>::empty()) == Seq::<u16>::empty(),
        (c as u32) < 0x10000 ==> utf16(s.push(c)) == utf16(s).push((c as u32) as u16),
        (c as u32) >= 0x10000 ==> {
            let u = utf16(s.push(c));
            let n = utf16(s).len() as int;
            &&& u.len() == n + 2
            &&& u.take(n) == utf16(s)
            &&& 0xD800 <= u[n] < 0xDC00
            &&& 0xDC00 <= u[n + 1] < 0xE000
            &&& 0x400 * (u[n] - 0xD800) + (u[n + 1] - 0xDC00) + 0x10000 == c as u32
        },
{
    let all = s.push(c);
    assert(all.drop_last() =~= s);
    lemma_units_of(c);
    let n = c as u32 as int;
    if n < 0x10000 {
        assert(utf16(all) =~= utf16(s).push((c as u32) as u16));
    } else {
        assert(n <= 0x10FFFF);
        assert(utf16(all).take(utf16(s).len() as int) =~= utf16(s));
    }
}

/// To type units is to press and release the key of each in turn. A key with the control key is
/// pressed and released while that one is held.
pub proof fn law_keys_are_pressed_in_turn(units: Seq<u16>, vk: u16, i: int)
    requires
        0 <= i < units.len(),
    ensures
        presses(units).len() == 2 * units.len(),
        presses(units)[2 * i] == (KeyEvent { key: Key::Unit(units[i]), up: false }),
        presses(units)[2 * i + 1] == (KeyEvent { key: Key::Unit(units[i]), up: true }),
        chord(vk).len() == 4,
        chord(vk)[0] == (KeyEvent { key: Key::Virtual(0x11), up: false }),
        chord(vk)[1] == (KeyEvent { key: Key::Virtual(vk), up: false }),
        chord(vk)[2] == (KeyEvent { key: Key::Virtual(vk), up: true }),
        chord(vk)[3] == (KeyEvent { key: Key::Virtual(0x11), up: true }),
{
}

/// Text is typed in portions of twenty-four units: the first portion types the first twenty-four,
/// and the others type the rest. The last one may be smaller, and without units there is none.
pub proof fn law_text_is_typed_in_portions(front: Seq<u16>, rest: Seq<u16>)
    requires
        0 < front.len() <= 24,
        rest.len() > 0 ==> front.len() == 24,
    ensures
        bursts(front + rest) == seq![presses(front)] + bursts(rest),
        bursts(Seq::<u16>::empty()).len() == 0,
        bursts(front) == seq![presses(front)],
{
    let units = front + rest;
    if rest.len() == 0 {
        assert(units =~= front);
        assert(seq![presses(front)] + bursts(rest) =~= seq![presses(front)]);
    } else {
        assert(units.take(24) =~= front);
        assert(units.skip(24) =~= rest);
    }
}

/// What is seen of portions of key events is each of them, in its place.
pub proof fn law_portions_are_seen(v: Seq<Vec<KeyEvent>>, i: int)
    ensures
        burst_views(v).len() == v.len(),
        0 <= i < v.len() ==> burst_views(v)[i] == v[i]@,
{
}

} // verus!

//! Notification toasts, system-tray items, and the rows of the live models.

use vstd::prelude::*;

use crate::text;

verus! {

// ---------------------------------------------------------------------------
// Toasts
// ---------------------------------------------------------------------------

/// The most toasts on screen.
pub const MAX_TOASTS: usize = 5;

/// How long a toast stays when its sender leaves that open, in milliseconds.
pub const DEFAULT_TIMEOUT_MS: u64 = 5000;

/// The first id of the toasts that come from the shell itself, well above those
/// of the notification daemon.
pub const FIRST_INTERNAL_ID: u32 = 1_000_000;

/// A live on-screen notification toast.
#[derive(Debug, PartialEq, Eq)]
pub struct ToastState {
    pub id: u32,
    pub app: String,
    pub summary: String,
    pub body: String,
    /// When to auto-remove it, in milliseconds; `None` = sticky.
    pub deadline: Option<u64>,
}

/// What reaches the toasts.
#[derive(Debug, PartialEq, Eq)]
pub enum NotifyEvent {
    /// Show a toast. A timeout of 0 keeps it until it is dismissed, and a
    /// negative one leaves the choice to the shell.
    Add { id: u32, app_name: String, summary: String, body: String, timeout_ms: i32 },
    Close { id: u32 },
}

/// When a toast with a timeout is to be removed.
pub open spec fn deadline_of(now: u64, timeout_ms: i32) -> Option<u64> {
    if timeout_ms == 0 {
        None
    } else if timeout_ms < 0 {
        Some((now + DEFAULT_TIMEOUT_MS) as u64)
    } else {
        Some((now + timeout_ms) as u64)
    }
}

/// The toasts without the one with the id.
pub open spec fn without_id(s: Seq<ToastState>, id: u32) -> Seq<ToastState>
    decreases s.len(),
{
    if s.len() == 0 {
        Seq::empty()
    } else {
        let before = without_id(s.drop_last(), id);
        if s.last().id == id {
            before
        } else {
            before.push(s.last())
        }
    }
}

/// The last [`MAX_TOASTS`] toasts.
pub open spec fn bounded(s: Seq<ToastState>) -> Seq<ToastState> {
    if s.len() > MAX_TOASTS {
        s.skip(s.len() - MAX_TOASTS)
    } else {
        s
    }
}

/// Whether a toast stays at the given time.
pub open spec fn stays(t: ToastState, now: u64) -> bool {
    match t.deadline {
        Some(d) => d > now,
        None => true,
    }
}

/// The toasts that stay at the given time.
pub open spec fn unexpired(s: Seq<ToastState>, now: u64) -> Seq<ToastState>
    decreases s.len(),
{
    if s.len() == 0 {
        Seq::empty()
    } else {
        let before = unexpired(s.drop_last(), now);
        if stays(s.last(), now) {
            before.push(s.last())
        } else {
            before
        }
    }
}

/// The toasts after an event. A toast replaces an earlier one with its id and
/// goes to the end; the oldest ones make room.
pub open spec fn notified(s: Seq<ToastState>, e: NotifyEvent, now: u64) -> Seq<ToastState> {
    match e {
        NotifyEvent::Add { id, app_name, summary, body, timeout_ms } => bounded(
            without_id(s, id).push(
                ToastState {
                    id,
                    app: app_name,
                    summary,
                    body,
                    deadline: deadline_of(now, timeout_ms),
                },
            ),
        ),
        NotifyEvent::Close { id } => without_id(s, id),
    }
}

/// At most one toast has an id.
pub open spec fn ids_distinct(s: Seq<ToastState>) -> bool {
    forall|i: int, j: int| 0 <= i < j < s.len() ==> (#[trigger] s[i]).id != (#[trigger] s[j]).id
}

/// The toasts on screen, oldest first.
#[derive(Debug, PartialEq, Eq)]
pub struct Toasts {
    items: Vec<ToastState>,
}

impl View for Toasts {
    type V = Seq<ToastState>;

    closed spec fn view(&self) -> Seq<ToastState> {
        self.items@
    }
}

impl Default for Toasts {
    fn default() -> (r: Self)
        ensures
            r@ == Seq::<ToastState>::empty(),
    {
        Toasts { items: Vec::new() }
    }
}

/// The place of the first toast that stays without the id.
proof fn lemma_without_id(s: Seq<ToastState>, id: u32)
    ensures
        without_id(s, id).len() <= s.len(),
        forall|i: int| 0 <= i < without_id(s, id).len() ==> (#[trigger] without_id(s, id)[i]).id != id,
        forall|i: int|
            0 <= i < without_id(s, id).len() ==> s.contains(#[trigger] without_id(s, id)[i]),
        ids_distinct(s) ==> ids_distinct(without_id(s, id)),
    decreases s.len(),
{
    if s.len() > 0 {
        let front = s.drop_last();
        let b = without_id(front, id);
        lemma_without_id(front, id);
        let r = without_id(s, id);
        assert forall|i: int| 0 <= i < r.len() implies (#[trigger] r[i]).id != id && s.contains(
            r[i],
        ) by {
            if i < b.len() {
                assert(r[i] == b[i]);
                assert(front.contains(b[i]));
                let j = choose|j: int| 0 <= j < front.len() && front[j] == b[i];
                assert(s[j] == r[i]);
            } else {
                assert(s[s.len() - 1] == r[i]);
            }
        }
        if ids_distinct(s) {
            assert forall|i: int, j: int| 0 <= i < j < front.len() implies (#[trigger] front[i]).id
                != (#[trigger] front[j]).id by {
                assert(s[i].id != s[j].id);
            }
            assert(ids_distinct(b));
            assert forall|i: int, j: int| 0 <= i < j < r.len() implies (#[trigger] r[i]).id != (
            #[trigger] r[j]).id by {
                if j < b.len() {
                    assert(r[i] == b[i] && r[j] == b[j]);
                } else {
                    assert(r[j] == s[s.len() - 1]);
                    assert(r[i] == b[i]);
                    assert(front.contains(b[i]));
                    let k = choose|k: int| 0 <= k < front.len() && front[k] == b[i];
                    assert(s[k].id != s[s.len() - 1].id);
                }
            }
        }
    }
}

/// What stays was there.
proof fn lemma_unexpired(s: Seq<ToastState>, now: u64)
    ensures
        unexpired(s, now).len() <= s.len(),
        forall|i: int|
            0 <= i < unexpired(s, now).len() ==> stays(#[trigger] unexpired(s, now)[i], now)
                && s.contains(unexpired(s, now)[i]),
        ids_distinct(s) ==> ids_distinct(unexpired(s, now)),
        unexpired(s, now).len() == s.len() ==> unexpired(s, now) == s,
    decreases s.len(),
{
    if s.len() > 0 {
        let front = s.drop_last();
        let b = unexpired(front, now);
        lemma_unexpired(front, now);
        let r = unexpired(s, now);
        assert forall|i: int| 0 <= i < r.len() implies stays(#[trigger] r[i], now) && s.contains(
            r[i],
        ) by {
            if i < b.len() {
                assert(r[i] == b[i]);
                assert(front.contains(b[i]));
                let j = choose|j: int| 0 <= j < front.len() && front[j] == b[i];
                assert(s[j] == r[i]);
            } else {
                assert(s[s.len() - 1] == r[i]);
            }
        }
        if ids_distinct(s) {
            assert forall|i: int, j: int| 0 <= i < j < front.len() implies (#[trigger] front[i]).id
                != (#[trigger] front[j]).id by {
                assert(s[i].id != s[j].id);
            }
            assert forall|i: int, j: int| 0 <= i < j < r.len() implies (#[trigger] r[i]).id != (
            #[trigger] r[j]).id by {
                if j < b.len() {
                    assert(r[i] == b[i] && r[j] == b[j]);
                } else {
                    assert(r[j] == s[s.len() - 1]);
                    assert(r[i] == b[i]);
                    assert(front.contains(b[i]));
                    let k = choose|k: int| 0 <= k < front.len() && front[k] == b[i];
                    assert(s[k].id != s[s.len() - 1].id);
                }
            }
        }
        if r.len() == s.len() {
            assert(b == front);
            assert(r =~= s);
        }
    }
}

impl Toasts {
    /// The toasts, oldest first.
    pub fn items(&self) -> (r: &Vec<ToastState>)
        ensures
            r@ == self@,
    {
        &self.items
    }

    /// Remove the toast with an id.
    pub fn close(&mut self, id: u32)
        ensures
            final(self)@ == without_id(old(self)@, id),
    {
        let ghost all = self.items@;
        let mut i: usize = 0;
        let mut seen: Ghost<int> = Ghost(0);
        assert(all.take(0) =~= Seq::<ToastState>::empty());
        assert(self.items@ =~= without_id(all.take(0), id) + all.skip(0));
        while i < self.items.len()
            invariant
                0 <= seen@ <= all.len(),
                i == without_id(all.take(seen@), id).len(),
                self.items@ == without_id(all.take(seen@), id) + all.skip(seen@),
            decreases self.items@.len() - i,
        {
            let ghost k = seen@;
            proof {
                assert(all.skip(k).len() > 0);
                assert(self.items@[i as int] == all.skip(k)[0]);
                assert(all.skip(k)[0] == all[k]);
                assert(all.take(k + 1).drop_last() =~= all.take(k));
                assert(all.take(k + 1).last() == all[k]);
            }
            if self.items[i].id == id {
                self.items.remove(i);
                assert(self.items@ =~= without_id(all.take(k + 1), id) + all.skip(k + 1));
            } else {
                i += 1;
                assert(self.items@ =~= without_id(all.take(k + 1), id) + all.skip(k + 1));
            }
            proof {
                seen@ = k + 1;
            }
        }
        proof {
            assert(all.skip(seen@).len() == 0);
            assert(all.take(seen@) =~= all);
            assert(self.items@ =~= without_id(all, id));
        }
    }

    /// Takes in an event at the given time, in milliseconds.
    pub fn notify(&mut self, event: NotifyEvent, now: u64)
        requires
            now + DEFAULT_TIMEOUT_MS <= u64::MAX,
            now + i32::MAX <= u64::MAX,
        ensures
            final(self)@ == notified(old(self)@, event, now),
            ids_distinct(old(self)@) ==> ids_distinct(final(self)@),
    {
        let ghost before = self@;
        match event {
            NotifyEvent::Close { id } => {
                self.close(id);
                proof {
                    lemma_without_id(before, id);
                }
            },
            NotifyEvent::Add { id, app_name, summary, body, timeout_ms } => {
                let deadline = if timeout_ms == 0 {
                    None
                } else if timeout_ms < 0 {
                    Some(now + DEFAULT_TIMEOUT_MS)
                } else {
                    Some(now + timeout_ms as u64)
                };
                self.close(id);
                self.items.push(ToastState { id, app: app_name, summary, body, deadline });
                let ghost full = self.items@;
                while self.items.len() > MAX_TOASTS
                    invariant
                        self.items@.len() <= full.len(),
                        self.items@ == full.skip(full.len() - self.items@.len()),
                        bounded(full) == bounded(self.items@),
                    decreases self.items@.len(),
                {
                    let ghost prev = self.items@;
                    self.items.remove(0);
                    assert(self.items@ =~= full.skip(full.len() - self.items@.len()));
                    assert(bounded(prev) =~= bounded(self.items@));
                }
                proof {
                    lemma_without_id(before, id);
                }
            },
        }
    }

    /// Remove what has expired. Returns whether anything was removed.
    pub fn expire(&mut self, now: u64) -> (r: bool)
        ensures
            final(self)@ == unexpired(old(self)@, now),
            r == (final(self)@.len() != old(self)@.len()),
            ids_distinct(old(self)@) ==> ids_distinct(final(self)@),
    {
        let ghost all = self.items@;
        let count: usize = self.items.len();
        let mut i: usize = 0;
        let mut seen: Ghost<int> = Ghost(0);
        assert(all.take(0) =~= Seq::<ToastState>::empty());
        assert(self.items@ =~= unexpired(all.take(0), now) + all.skip(0));
        while i < self.items.len()
            invariant
                0 <= seen@ <= all.len(),
                i == unexpired(all.take(seen@), now).len(),
                self.items@ == unexpired(all.take(seen@), now) + all.skip(seen@),
            decreases self.items@.len() - i,
        {
            let ghost k = seen@;
            proof {
                assert(all.skip(k).len() > 0);
                assert(self.items@[i as int] == all.skip(k)[0]);
                assert(all.skip(k)[0] == all[k]);
                assert(all.take(k + 1).drop_last() =~= all.take(k));
                assert(all.take(k + 1).last() == all[k]);
            }
            let keep: bool = match self.items[i].deadline {
                Some(d) => d > now,
                None => true,
            };
            if keep {
                i += 1;
            } else {
                self.items.remove(i);
            }
            assert(self.items@ =~= unexpired(all.take(k + 1), now) + all.skip(k + 1));
            proof {
                seen@ = k + 1;
            }
        }
        proof {
            assert(all.skip(seen@).len() == 0);
            assert(all.take(seen@) =~= all);
            assert(self.items@ =~= unexpired(all, now));
            lemma_unexpired(all, now);
        }
        self.items.len() != count
    }
}

/// Hands out the ids of the shell's own toasts.
#[derive(Debug, Clone, Copy, PartialEq, Eq)]
pub struct InternalIds {
    pub next: u32,
}

impl Default for InternalIds {
    fn default() -> (r: Self)
        ensures
            r.next == FIRST_INTERNAL_ID,
            r.next == 1_000_000,
    {
        InternalIds { next: FIRST_INTERNAL_ID }
    }
}

impl InternalIds {
    /// The event for a toast of the shell itself. Ids wrap round at the end.
    pub fn toast(&mut self, app: &str, summary: &str, body: &str) -> (r: NotifyEvent)
        ensures
            match r {
                NotifyEvent::Add { id, app_name, summary: s, body: b, timeout_ms } => id == old(
                    self,
                ).next && app_name@ == app@ && s@ == summary@ && b@ == body@ && timeout_ms == 5000,
                NotifyEvent::Close { .. } => false,
            },
            final(self).next == if old(self).next == u32::MAX {
                0
            } else {
                old(self).next + 1
            },
    {
        let id: u32 = self.next;
        self.next = self.next.wrapping_add(1);
        NotifyEvent::Add {
            id,
            app_name: text::copy_text(app),
            summary: text::copy_text(summary),
            body: text::copy_text(body),
            timeout_ms: 5000,
        }
    }
}

// ---------------------------------------------------------------------------
// Tray
// ---------------------------------------------------------------------------

/// An icon as tightly-packed RGBA8.
#[derive(Debug, PartialEq, Eq)]
pub struct Pixmap {
    pub width: u32,
    pub height: u32,
    pub rgba: Vec<u8>,
}

/// An item of the system tray.
#[derive(Debug, PartialEq, Eq)]
pub struct TrayItem {
    pub id: String,
    pub title: String,
    pub icon: Option<Pixmap>,
}

/// The position of the first item with the id, or the number of items.
pub open spec fn tray_index(s: Seq<TrayItem>, id: Seq<char>) -> int
    decreases s.len(),
{
    if s.len() == 0 || s[0].id@ == id {
        0
    } else {
        1 + tray_index(s.drop_first(), id)
    }
}

/// The items with one added, in the place of an earlier one with its id.
pub open spec fn upserted(s: Seq<TrayItem>, item: TrayItem) -> Seq<TrayItem> {
    let k = tray_index(s, item.id@);
    if k < s.len() {
        s.update(k, item)
    } else {
        s.push(item)
    }
}

/// The items without those with the id.
pub open spec fn without_item(s: Seq<TrayItem>, id: Seq<char>) -> Seq<TrayItem>
    decreases s.len(),
{
    if s.len() == 0 {
        Seq::empty()
    } else {
        let before = without_item(s.drop_last(), id);
        if s.last().id@ == id {
            before
        } else {
            before.push(s.last())
        }
    }
}

/// Add an item to the tray, or replace the one with its id.
pub fn tray_add(items: &mut Vec<TrayItem>, item: TrayItem)
    ensures
        final(items)@ == upserted(old(items)@, item),
{
    let ghost all = items@;
    let mut i: usize = 0;
    assert(all.skip(0) =~= all);
    while i < items.len()
        invariant
            i <= items@.len(),
            items@ == all,
            all == old(items)@,
            tray_index(all, item.id@) == i + tray_index(all.skip(i as int), item.id@),
        decreases items@.len() - i,
    {
        assert(all.skip(i as int)[0] == all[i as int]);
        if text::same_text(&items[i].id, &item.id) {
            items.set(i, item);
            return;
        }
        assert(all.skip(i as int).drop_first() =~= all.skip(i as int + 1));
        i += 1;
    }
    items.push(item);
}

/// Remove an item from the tray.
pub fn tray_remove(items: &mut Vec<TrayItem>, id: &str)
    ensures
        final(items)@ == without_item(old(items)@, id@),
{
    let ghost all = items@;
    let mut i: usize = 0;
    let mut seen: Ghost<int> = Ghost(0);
    assert(items@ =~= without_item(all.take(0), id@) + all.skip(0));
    while i < items.len()
        invariant
            0 <= seen@ <= all.len(),
            i == without_item(all.take(seen@), id@).len(),
            items@ == without_item(all.take(seen@), id@) + all.skip(seen@),
        decreases items@.len() - i,
    {
        let ghost k = seen@;
        proof {
            assert(all.skip(k).len() > 0);
            assert(items@[i as int] == all.skip(k)[0]);
            assert(all.skip(k)[0] == all[k]);
            assert(all.take(k + 1).drop_last() =~= all.take(k));
            assert(all.take(k + 1).last() == all[k]);
        }
        if text::same_text(&items[i].id, id) {
            items.remove(i);
        } else {
            i += 1;
        }
        assert(items@ =~= without_item(all.take(k + 1), id@) + all.skip(k + 1));
        proof {
            seen@ = k + 1;
        }
    }
    proof {
        assert(all.skip(seen@).len() == 0);
        assert(all.take(seen@) =~= all);
        assert(items@ =~= without_item(all, id@));
    }
}

/// The pixels of an image of `size` bytes: as many as are given, then zeros.
pub open spec fn padded(rgba: Seq<u8>, size: int) -> Seq<u8> {
    Seq::new(
        size as nat,
        |i: int|
            if i < rgba.len() {
                rgba[i]
            } else {
                0u8
            },
    )
}

/// The pixels for a `w` by `h` image, whatever the length of what was sent.
pub fn image_pixels(w: u32, h: u32, rgba: &Vec<u8>) -> (r: Vec<u8>)
    requires
        w * h * 4 <= isize::MAX,
    ensures
        r@ == padded(rgba@, w * h * 4),
{
    proof {
        assert(w * h <= w * h * 4) by (nonlinear_arith)
            requires
                0 <= w,
                0 <= h,
        ;
        assert(0 <= w * h) by (nonlinear_arith)
            requires
                0 <= w,
                0 <= h,
        ;
        assert(h > 0 ==> w <= w * h) by (nonlinear_arith)
            requires
                0 <= w,
                0 <= h,
        ;
        assert(w > 0 ==> h <= w * h) by (nonlinear_arith)
            requires
                0 <= w,
                0 <= h,
        ;
    }
    let size: usize = if w == 0 || h == 0 {
        assert(w * h == 0) by (nonlinear_arith)
            requires
                w == 0 || h == 0,
        ;
        0
    } else {
        (w as usize) * (h as usize) * 4
    };
    let mut out: Vec<u8> = Vec::new();
    let mut i: usize = 0;
    while i < size
        invariant
            i <= size,
            out@ == padded(rgba@, i as int),
        decreases size - i,
    {
        out.push(if i < rgba.len() { rgba[i] } else { 0 });
        i += 1;
        assert(out@ =~= padded(rgba@, i as int));
    }
    out
}

// ---------------------------------------------------------------------------
// Rows
// ---------------------------------------------------------------------------

/// The ids of a live model, in the order of its rows. Each id has one row.
#[derive(Debug, PartialEq, Eq)]
pub struct Rows {
    ids: Vec<u64>,
}

impl View for Rows {
    type V = Seq<u64>;

    closed spec fn view(&self) -> Seq<u64> {
        self.ids@
    }
}

/// What a row is updated for.
#[derive(Debug, Clone, Copy, PartialEq, Eq)]
pub enum RowUpdate {
    /// The id has this row already.
    Existing(usize),
    /// This row was added at the end.
    Added(usize),
}

impl Default for Rows {
    fn default() -> (r: Self)
        ensures
            r@ == Seq::<u64>::empty(),
            r@.no_duplicates(),
    {
        Rows { ids: Vec::new() }
    }
}

impl Rows {
    /// The row of an id.
    pub fn row(&self, id: u64) -> (r: Option<usize>)
        ensures
            match r {
                Some(k) => k < self@.len() && self@[k as int] == id && forall|j: int|
                    0 <= j < k ==> self@[j] != id,
                None => !self@.contains(id),
            },
    {
        let mut i: usize = 0;
        while i < self.ids.len()
            invariant
                i <= self.ids@.len(),
                forall|j: int| 0 <= j < i ==> self.ids@[j] != id,
            decreases self.ids@.len() - i,
        {
            if self.ids[i] == id {
                return Some(i);
            }
            i += 1;
        }
        None
    }

    /// The row to update for an id; a new one is added at the end.
    pub fn upsert(&mut self, id: u64) -> (r: RowUpdate)
        ensures
            match r {
                RowUpdate::Existing(k) => final(self)@ == old(self)@ && k < old(self)@.len() && old(
                    self,
                )@[k as int] == id,
                RowUpdate::Added(k) => !old(self)@.contains(id) && final(self)@ == old(self)@.push(id)
                    && k == old(self)@.len(),
            },
            old(self)@.no_duplicates() ==> final(self)@.no_duplicates(),
    {
        match self.row(id) {
            Some(k) => RowUpdate::Existing(k),
            None => {
                let k: usize = self.ids.len();
                self.ids.push(id);
                RowUpdate::Added(k)
            },
        }
    }

    /// Remove the row of an id; the rows behind it move up. Returns the row that
    /// it had.
    pub fn remove(&mut self, id: u64) -> (r: Option<usize>)
        ensures
            match r {
                Some(k) => k < old(self)@.len() && old(self)@[k as int] == id && final(self)@ == old(
                    self,
                )@.remove(k as int),
                None => !old(self)@.contains(id) && final(self)@ == old(self)@,
            },
            old(self)@.no_duplicates() ==> final(self)@.no_duplicates(),
    {
        match self.row(id) {
            Some(k) => {
                self.ids.remove(k);
                Some(k)
            },
            None => None,
        }
    }

    /// The rows of a rebuilt model.
    pub fn rebuild(ids: Vec<u64>) -> (r: Rows)
        ensures
            r@ == ids@,
    {
        Rows { ids }
    }
}

/// The model that a surface is shown in.
#[derive(Debug, Clone, Copy, PartialEq, Eq)]
pub enum Tile {
    Window(usize),
    Popup(usize),
    Layer(usize),
}

/// The row that a texture belongs to: that of a window, else of a popup, else of
/// a layer.
pub fn place_texture(windows: &Rows, popups: &Rows, layers: &Rows, id: u64) -> (r: Option<Tile>)
    ensures
        match r {
            Some(Tile::Window(k)) => k < windows@.len() && windows@[k as int] == id,
            Some(Tile::Popup(k)) => !windows@.contains(id) && k < popups@.len() && popups@[k as int]
                == id,
            Some(Tile::Layer(k)) => !windows@.contains(id) && !popups@.contains(id) && k
                < layers@.len() && layers@[k as int] == id,
            None => !windows@.contains(id) && !popups@.contains(id) && !layers@.contains(id),
        },
{
    if let Some(k) = windows.row(id) {
        return Some(Tile::Window(k));
    }
    if let Some(k) = popups.row(id) {
        return Some(Tile::Popup(k));
    }
    if let Some(k) = layers.row(id) {
        return Some(Tile::Layer(k));
    }
    None
}

// ---------------------------------------------------------------------------
// Laws
// ---------------------------------------------------------------------------

/// However many toasts arrive, only a handful are on screen, and the newest is
/// among them.
pub proof fn law_toasts_are_bounded(s: Seq<ToastState>, e: NotifyEvent, now: u64)
    requires
        e is Add,
    ensures
        0 < notified(s, e, now).len() <= MAX_TOASTS,
        notified(s, e, now).last().id == e->Add_id,
{
}

/// A sticky toast does not expire.
pub proof fn law_sticky_toasts_stay(s: Seq<ToastState>, now: u64, k: int)
    requires
        0 <= k < s.len(),
        s[k].deadline is None,
    ensures
        unexpired(s, now).contains(s[k]),
    decreases s.len(),
{
    let front = s.drop_last();
    let b = unexpired(front, now);
    let r = unexpired(s, now);
    if k == s.len() - 1 {
        assert(r[b.len() as int] == s[k]);
    } else {
        assert(front[k] == s[k]);
        law_sticky_toasts_stay(front, now, k);
        let j = choose|j: int| 0 <= j < b.len() && b[j] == front[k];
        assert(r[j] == s[k]);
    }
}

/// Removing a tray item after adding it leaves no item with its id.
pub proof fn law_removed_item_is_gone(s: Seq<TrayItem>, id: Seq<char>, k: int)
    requires
        0 <= k < without_item(s, id).len(),
    ensures
        without_item(s, id)[k].id@ != id,
    decreases s.len(),
{
    let b = without_item(s.drop_last(), id);
    if k < b.len() {
        law_removed_item_is_gone(s.drop_last(), id, k);
    }
}

proof fn lemma_without_id_is_filter(s: Seq<ToastState>, id: u32)
    ensures
        without_id(s, id) == s.filter(|t: ToastState| t.id != id),
    decreases s.len(),
{
    reveal(Seq::filter);
    if s.len() > 0 {
        lemma_without_id_is_filter(s.drop_last(), id);
    }
}

/// A toast replaces the one with its id and comes last; the others keep their
/// order, and the oldest go where there are more than five.
pub proof fn law_new_toast_comes_last(
    s: Seq<ToastState>,
    id: u32,
    app_name: String,
    summary: String,
    body: String,
    timeout_ms: i32,
    now: u64,
)
    requires
        now + i32::MAX <= u64::MAX,
    ensures
        ({
            let r = notified(
                s,
                NotifyEvent::Add { id, app_name, summary, body, timeout_ms },
                now,
            );
            let others = s.filter(|t: ToastState| t.id != id);
            let t = r.last();
            &&& t.id == id
            &&& t.app == app_name
            &&& t.summary == summary
            &&& t.body == body
            &&& timeout_ms == 0 <==> t.deadline is None
            &&& timeout_ms > 0 ==> t.deadline == Some((now + timeout_ms) as u64)
            &&& timeout_ms < 0 ==> t.deadline == Some((now + 5000) as u64)
            &&& others.len() < 5 ==> r.drop_last() == others
            &&& others.len() >= 5 ==> r.drop_last() == others.skip(others.len() - 4)
        }),
{
    lemma_without_id_is_filter(s, id);
    let r = notified(s, NotifyEvent::Add { id, app_name, summary, body, timeout_ms }, now);
    let others = s.filter(|t: ToastState| t.id != id);
    if others.len() < 5 {
        assert(r.drop_last() =~= others);
    } else {
        assert(r.drop_last() =~= others.skip(others.len() - 4));
    }
}

/// Closing takes the toasts with the id away and leaves the others in order.
pub proof fn law_closing_takes_one_id_away(s: Seq<ToastState>, id: u32, now: u64)
    ensures
        notified(s, NotifyEvent::Close { id }, now) == s.filter(|t: ToastState| t.id != id),
        without_id(s, id) == s.filter(|t: ToastState| t.id != id),
{
    lemma_without_id_is_filter(s, id);
}

/// A toast is gone from its deadline on, and not before; one without a deadline
/// stays. The others keep their order.
pub proof fn law_toasts_last_until_their_deadline(s: Seq<ToastState>, now: u64)
    ensures
        unexpired(s, now) == s.filter(
            |t: ToastState| t.deadline is None || now < t.deadline->0,
        ),
    decreases s.len(),
{
    reveal(Seq::filter);
    if s.len() > 0 {
        law_toasts_last_until_their_deadline(s.drop_last(), now);
    }
}

/// An item of the tray is replaced in its place where its id is known, and
/// otherwise comes last; the others stay.
pub proof fn law_tray_items_keep_their_place(s: Seq<TrayItem>, item: TrayItem, k: int)
    requires
        0 <= k <= s.len(),
        k < s.len() ==> s[k].id@ == item.id@,
        forall|j: int| 0 <= j < k ==> (#[trigger] s[j]).id@ != item.id@,
    ensures
        k < s.len() ==> upserted(s, item) == s.update(k, item),
        k == s.len() ==> upserted(s, item) == s.push(item),
{
    lemma_tray_index_is(s, item.id@, k);
}

proof fn lemma_tray_index_is(s: Seq<TrayItem>, id: Seq<char>, k: int)
    requires
        0 <= k <= s.len(),
        k < s.len() ==> s[k].id@ == id,
        forall|j: int| 0 <= j < k ==> (#[trigger] s[j]).id@ != id,
    ensures
        tray_index(s, id) == k,
    decreases s.len(),
{
    if k > 0 {
        let d = s.drop_first();
        assert(s[0].id@ != id);
        assert forall|j: int| 0 <= j < k - 1 implies (#[trigger] d[j]).id@ != id by {
            assert(d[j] == s[j + 1]);
        }
        lemma_tray_index_is(d, id, k - 1);
    }
}

/// Removing an item leaves the others in order.
pub proof fn law_tray_removal_keeps_the_others(s: Seq<TrayItem>, id: Seq<char>)
    ensures
        without_item(s, id) == s.filter(|t: TrayItem| t.id@ != id),
    decreases s.len(),
{
    reveal(Seq::filter);
    if s.len() > 0 {
        law_tray_removal_keeps_the_others(s.drop_last(), id);
    }
}

/// An icon's bytes fill an image of exactly its size: missing ones are zero,
/// further ones are left out.
pub proof fn law_icon_fills_its_size(rgba: Seq<u8>, size: nat)
    ensures
        padded(rgba, size as int).len() == size,
        rgba.len() == size ==> padded(rgba, size as int) == rgba,
        rgba.len() >= size ==> padded(rgba, size as int) == rgba.take(size as int),
        rgba.len() < size ==> padded(rgba, size as int) == rgba + Seq::new(
            (size - rgba.len()) as nat,
            |i: int| 0u8,
        ),
{
    if rgba.len() >= size {
        assert(padded(rgba, size as int) =~= rgba.take(size as int));
        assert(rgba.take(rgba.len() as int) =~= rgba);
    } else {
        assert(padded(rgba, size as int) =~= rgba + Seq::new(
            (size - rgba.len()) as nat,
            |i: int| 0u8,
        ));
    }
}

} // verus!

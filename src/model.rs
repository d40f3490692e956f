//! The application state: streams, selection, scrolling, polling interval and
//! the screen state machine that input events drive.

use crate::event::{Event, Key, MouseButton};
use crate::stream::{StreamWrapper, recorded};
use crate::viewport::{
    ScrollAnchor, lemma_scroll_reveals_target, scroll_to, scrolled, valid_position, visible_span,
};
use vstd::prelude::*;

verus! {

/// The screens of the application.
#[derive(PartialEq, Eq, Structural, Clone, Copy, Debug, Hash)]
pub enum Screen {
    Main,
    Streams,
}

/// A polling interval preset: its length in milliseconds and the spacing of
/// the ticks drawn along the time axis.
#[derive(PartialEq, Eq, Structural, Clone, Copy, Debug)]
pub struct Interval {
    pub milliseconds: u64,
    pub tick_spacing: usize,
}

impl Interval {
    pub fn new(milliseconds: u64, tick_spacing: usize) -> (r: Self)
        ensures
            r.milliseconds == milliseconds,
            r.tick_spacing == tick_spacing,
    {
        Interval { milliseconds, tick_spacing }
    }
}

/// A hint shown in the menu bar: the keys to press and what they do.
#[derive(Clone, Debug)]
pub struct MenuItem {
    pub keys: String,
    pub label: String,
}

impl View for MenuItem {
    type V = (Seq<char>, Seq<char>);

    open spec fn view(&self) -> (Seq<char>, Seq<char>) {
        (self.keys@, self.label@)
    }
}

impl MenuItem {
    pub fn new(keys: &str, label: &str) -> (r: Self)
        ensures
            r@ == (keys@, label@),
    {
        MenuItem { keys: keys.to_string(), label: label.to_string() }
    }
}

/// The (keys, label) pairs of `items`.
pub open spec fn menu_view(items: Seq<MenuItem>) -> Seq<(Seq<char>, Seq<char>)> {
    items.map_values(|m: MenuItem| m@)
}

/// The left- and right-aligned hints of each screen.
pub open spec fn menu_of(screen: Screen) -> (Seq<(Seq<char>, Seq<char>)>, Seq<(Seq<char>, Seq<char>)>) {
    match screen {
        Screen::Main => (
            seq![
                ("\u{1F805}\u{1F807}"@, "Select"@),
                ("Space"@, "Expand"@),
                ("S"@, "Streams"@),
                ("+-"@, "Interval"@),
            ],
            seq![("Q"@, "Quit"@)],
        ),
        Screen::Streams => (
            seq![("\u{1F805}\u{1F807}"@, "Select"@), ("Space"@, "Toggle"@), ("+-"@, "Reorder"@)],
            seq![("Esc"@, "Done"@)],
        ),
    }
}

/// The hints shown on `screen`, left-aligned ones first.
pub fn menu_for(screen: Screen) -> (r: (Vec<MenuItem>, Vec<MenuItem>))
    ensures
        (menu_view(r.0@), menu_view(r.1@)) == menu_of(screen),
{
    let r = match screen {
        Screen::Main => (
            vec![
                MenuItem::new("\u{1F805}\u{1F807}", "Select"),
                MenuItem::new("Space", "Expand"),
                MenuItem::new("S", "Streams"),
                MenuItem::new("+-", "Interval"),
            ],
            vec![MenuItem::new("Q", "Quit")],
        ),
        Screen::Streams => (
            vec![
                MenuItem::new("\u{1F805}\u{1F807}", "Select"),
                MenuItem::new("Space", "Toggle"),
                MenuItem::new("+-", "Reorder"),
            ],
            vec![MenuItem::new("Esc", "Done")],
        ),
    };
    assert(menu_view(r.0@) =~= menu_of(screen).0);
    assert(menu_view(r.1@) =~= menu_of(screen).1);
    r
}

/// Number of polling interval presets.
pub const INTERVAL_COUNT: usize = 11;

/// Index of the preset selected at start-up (one second).
pub const DEFAULT_INTERVAL_INDEX: usize = 3;

/// The polling interval presets, shortest first.
pub open spec fn interval_presets() -> Seq<Interval> {
    seq![
        Interval { milliseconds: 100, tick_spacing: 10 },
        Interval { milliseconds: 200, tick_spacing: 10 },
        Interval { milliseconds: 500, tick_spacing: 10 },
        Interval { milliseconds: 1_000, tick_spacing: 10 },
        Interval { milliseconds: 2_000, tick_spacing: 15 },
        Interval { milliseconds: 3_000, tick_spacing: 10 },
        Interval { milliseconds: 5_000, tick_spacing: 12 },
        Interval { milliseconds: 10_000, tick_spacing: 12 },
        Interval { milliseconds: 30_000, tick_spacing: 10 },
        Interval { milliseconds: 60_000, tick_spacing: 10 },
        Interval { milliseconds: 300_000, tick_spacing: 12 },
    ]
}

/// The polling interval presets, shortest first.
pub fn intervals() -> (r: Vec<Interval>)
    ensures
        r@ == interval_presets(),
        r@.len() == INTERVAL_COUNT,
{
    let r = vec![
        Interval::new(100, 10),
        Interval::new(200, 10),
        Interval::new(500, 10),
        Interval::new(1_000, 10),
        Interval::new(2_000, 15),
        Interval::new(3_000, 10),
        Interval::new(5_000, 12),
        Interval::new(10_000, 12),
        Interval::new(30_000, 10),
        Interval::new(60_000, 10),
        Interval::new(300_000, 12),
    ];
    assert(r@ =~= interval_presets());
    r
}

/// The entries of `s` that are active, in order.
pub open spec fn active_of<S, T>(s: Seq<StreamWrapper<S, T>>) -> Seq<StreamWrapper<S, T>>
    decreases s.len(),
{
    if s.len() == 0 {
        Seq::empty()
    } else {
        let rest = active_of(s.drop_last());
        if s.last().active {
            rest.push(s.last())
        } else {
            rest
        }
    }
}

/// Display heights of the active entries of `s`, in order.
pub open spec fn heights_of<S, T>(s: Seq<StreamWrapper<S, T>>) -> Seq<usize> {
    active_of(s).map_values(|e: StreamWrapper<S, T>| e.spec_height())
}

/// Rows left for the list once the border and the menu bar are drawn.
pub open spec fn usable_height(height: usize) -> int {
    if height >= 2 {
        height - 2
    } else {
        0
    }
}

/// Entry `k` of `s` is the `n`-th active one (counting from zero).
pub open spec fn is_nth_active<S, T>(s: Seq<StreamWrapper<S, T>>, k: int, n: int) -> bool {
    &&& 0 <= k < s.len()
    &&& s[k].active
    &&& active_of(s.subrange(0, k)).len() == n
}

/// Two lists of entries with the same flags, entry by entry.
pub open spec fn same_flags<S, T>(a: Seq<StreamWrapper<S, T>>, b: Seq<StreamWrapper<S, T>>) -> bool {
    &&& a.len() == b.len()
    &&& forall|i: int| 0 <= i < a.len() ==> a[i].active == b[i].active && a[i].expanded == b[i].expanded
}

proof fn lemma_active_prefix<S, T>(s: Seq<StreamWrapper<S, T>>, i: int)
    requires
        0 <= i < s.len(),
    ensures
        active_of(s.subrange(0, i + 1)) == if s[i].active {
            active_of(s.subrange(0, i)).push(s[i])
        } else {
            active_of(s.subrange(0, i))
        },
{
    assert(s.subrange(0, i + 1).drop_last() =~= s.subrange(0, i));
}

proof fn lemma_heights_push<S, T>(s: Seq<StreamWrapper<S, T>>, e: StreamWrapper<S, T>)
    ensures
        heights_of(s.push(e)) == if e.active {
            heights_of(s).push(e.spec_height())
        } else {
            heights_of(s)
        },
{
    assert(s.push(e).drop_last() =~= s);
    let f = |x: StreamWrapper<S, T>| x.spec_height();
    assert(active_of(s).push(e).map_values(f) =~= active_of(s).map_values(f).push(f(e)));
}

/// Entries with the same flags have the same active count, and the same
/// active heights.
proof fn lemma_same_flags<S, T>(a: Seq<StreamWrapper<S, T>>, b: Seq<StreamWrapper<S, T>>)
    requires
        same_flags(a, b),
    ensures
        active_of(a).len() == active_of(b).len(),
        heights_of(a) == heights_of(b),
    decreases a.len(),
{
    if a.len() > 0 {
        let (a0, b0) = (a.drop_last(), b.drop_last());
        assert(same_flags(a0, b0)) by {
            assert forall|i: int| 0 <= i < a0.len() implies a0[i].active == b0[i].active
                && a0[i].expanded == b0[i].expanded by {
                assert(a0[i] == a[i] && b0[i] == b[i]);
            }
        }
        lemma_same_flags(a0, b0);
        assert(a0.push(a.last()) =~= a);
        assert(b0.push(b.last()) =~= b);
        lemma_heights_push(a0, a.last());
        lemma_heights_push(b0, b.last());
    }
}

proof fn lemma_active_prefix_monotone<S, T>(s: Seq<StreamWrapper<S, T>>, i: int, j: int)
    requires
        0 <= i <= j <= s.len(),
    ensures
        active_of(s.subrange(0, i)).len() <= active_of(s.subrange(0, j)).len(),
    decreases j - i,
{
    if i < j {
        lemma_active_prefix_monotone(s, i, j - 1);
        lemma_active_prefix(s, j - 1);
    }
}

/// At most one entry is the `n`-th active one, so `expanded_toggled` names a
/// single entry.
pub proof fn lemma_nth_active_unique<S, T>(s: Seq<StreamWrapper<S, T>>, k1: int, k2: int, n: int)
    requires
        is_nth_active(s, k1, n),
        is_nth_active(s, k2, n),
    ensures
        k1 == k2,
{
    if k1 < k2 {
        lemma_active_prefix(s, k1);
        lemma_active_prefix_monotone(s, k1 + 1, k2);
    } else if k2 < k1 {
        lemma_active_prefix(s, k2);
        lemma_active_prefix_monotone(s, k2 + 1, k1);
    }
}

/// Changing one entry without changing whether it is active keeps the active
/// count.
proof fn lemma_active_len_update<S, T>(s: Seq<StreamWrapper<S, T>>, k: int, e: StreamWrapper<S, T>)
    requires
        0 <= k < s.len(),
        e.active == s[k].active,
    ensures
        active_of(s.update(k, e)).len() == active_of(s).len(),
    decreases s.len(),
{
    let u = s.update(k, e);
    assert(u.drop_last().len() == s.drop_last().len());
    if k == s.len() - 1 {
        assert(u.drop_last() =~= s.drop_last());
    } else {
        assert(u.drop_last() =~= s.drop_last().update(k, e));
        lemma_active_len_update(s.drop_last(), k, e);
    }
}

/// When every entry is active, all of them are listed.
proof fn lemma_all_active<S, T>(s: Seq<StreamWrapper<S, T>>)
    requires
        forall|i: int| 0 <= i < s.len() ==> s[i].active,
    ensures
        active_of(s) == s,
    decreases s.len(),
{
    if s.len() > 0 {
        lemma_all_active(s.drop_last());
        assert(s.drop_last().push(s.last()) =~= s);
    }
}

/// What an input event asks for.
#[derive(PartialEq, Eq, Structural, Clone, Copy, Debug)]
pub enum Action {
    SelectPrevious,
    SelectNext,
    ToggleExpanded,
    OpenStreams,
    CloseStreams,
    LongerInterval,
    ShorterInterval,
    Quit,
    Ignore,
}

/// The handling table of each screen. The mouse wheel scrolls the list the
/// other way round: turning it up selects the next entry.
pub open spec fn command_of(screen: Screen, event: Event) -> Action {
    match screen {
        Screen::Main => match event {
            Event::Key(Key::Up) => Action::SelectPrevious,
            Event::Key(Key::Down) => Action::SelectNext,
            Event::Key(Key::Char(' ')) => Action::ToggleExpanded,
            Event::Key(Key::Char('s')) => Action::OpenStreams,
            Event::Key(Key::Char('+')) => Action::LongerInterval,
            Event::Key(Key::Char('-')) => Action::ShorterInterval,
            Event::Key(Key::Char('q')) => Action::Quit,
            Event::MousePress(MouseButton::WheelUp) => Action::SelectNext,
            Event::MousePress(MouseButton::WheelDown) => Action::SelectPrevious,
            _ => Action::Ignore,
        },
        Screen::Streams => match event {
            Event::Key(Key::Esc) => Action::CloseStreams,
            _ => Action::Ignore,
        },
    }
}

/// Looks `event` up in the handling table of `screen`.
pub fn command(screen: Screen, event: &Event) -> (r: Action)
    ensures
        r == command_of(screen, *event),
{
    match screen {
        Screen::Main => match event {
            Event::Key(Key::Up) => Action::SelectPrevious,
            Event::Key(Key::Down) => Action::SelectNext,
            Event::Key(Key::Char(' ')) => Action::ToggleExpanded,
            Event::Key(Key::Char('s')) => Action::OpenStreams,
            Event::Key(Key::Char('+')) => Action::LongerInterval,
            Event::Key(Key::Char('-')) => Action::ShorterInterval,
            Event::Key(Key::Char('q')) => Action::Quit,
            Event::MousePress(MouseButton::WheelUp) => Action::SelectNext,
            Event::MousePress(MouseButton::WheelDown) => Action::SelectPrevious,
            _ => Action::Ignore,
        },
        Screen::Streams => match event {
            Event::Key(Key::Esc) => Action::CloseStreams,
            _ => Action::Ignore,
        },
    }
}

/// The interval cursor after one step towards longer intervals, stopping at
/// the last preset.
pub open spec fn longer(i: int) -> int {
    if i + 1 < INTERVAL_COUNT {
        i + 1
    } else {
        i
    }
}

/// The interval cursor after one step towards shorter intervals, stopping at
/// the first preset.
pub open spec fn shorter(i: int) -> int {
    if i > 0 {
        i - 1
    } else {
        i
    }
}

/// The interval cursor after `k` steps towards longer intervals.
pub open spec fn longer_times(i: int, k: nat) -> int
    decreases k,
{
    if k == 0 {
        i
    } else {
        longer(longer_times(i, (k - 1) as nat))
    }
}

/// The interval cursor after `k` steps towards shorter intervals.
pub open spec fn shorter_times(i: int, k: nat) -> int
    decreases k,
{
    if k == 0 {
        i
    } else {
        shorter(shorter_times(i, (k - 1) as nat))
    }
}

/// However often the interval is lengthened or shortened, the cursor moves
/// one preset per step and stops at the last, or the first, preset.
pub proof fn lemma_interval_steps_saturate(i: int, k: nat)
    requires
        0 <= i < INTERVAL_COUNT,
    ensures
        longer_times(i, k) == if i + k < INTERVAL_COUNT {
            i + k
        } else {
            INTERVAL_COUNT - 1
        },
        shorter_times(i, k) == if i - k > 0 {
            i - k
        } else {
            0
        },
    decreases k,
{
    if k > 0 {
        lemma_interval_steps_saturate(i, (k - 1) as nat);
    }
}

/// `e` with its expanded flag flipped.
pub open spec fn toggled<S, T>(e: StreamWrapper<S, T>) -> StreamWrapper<S, T> {
    StreamWrapper { expanded: !e.expanded, ..e }
}

/// `post` is `pre` with the expanded flag of the `n`-th active entry flipped.
pub open spec fn expanded_toggled<S, T>(
    pre: Seq<StreamWrapper<S, T>>,
    post: Seq<StreamWrapper<S, T>>,
    n: int,
) -> bool {
    exists|k: int| is_nth_active(pre, k, n) && post == pre.update(k, toggled(pre[k]))
}

/// The whole state of the monitor. `S` is a metric source, `T` a sample.
pub struct Application<S, T> {
    pub running: bool,
    pub width: usize,
    pub height: usize,
    pub screen: Screen,
    pub streams: Vec<StreamWrapper<S, T>>,
    /// Index into the active streams, not into `streams`.
    pub selection_index: usize,
    /// Index into the active streams of the first (`Top`) or last (`Bottom`)
    /// fully visible one.
    pub scroll_index: usize,
    pub scroll_anchor: ScrollAnchor,
    /// Index into `intervals()`.
    pub interval_index: usize,
}

impl<S, T> Application<S, T> {
    /// The state is consistent: interval cursor in range, histories bounded,
    /// selection and scroll position valid, and the selection fully visible.
    pub open spec fn wf(&self) -> bool {
        &&& self.interval_index < INTERVAL_COUNT
        &&& forall|i: int| 0 <= i < self.streams@.len() ==> #[trigger] self.streams@[i].wf()
        &&& self.view_consistent()
    }

    pub open spec fn view_consistent(&self) -> bool {
        let hs = heights_of(self.streams@);
        if hs.len() == 0 {
            self.selection_index == 0 && self.scroll_index == 0
        } else {
            &&& valid_position(hs, self.selection_index as int)
            &&& valid_position(hs, self.scroll_index as int)
            &&& self.selection_visible()
        }
    }

    /// The selected entry lies between the first and last fully visible ones.
    pub open spec fn selection_visible(&self) -> bool {
        let (top, bottom) = visible_span(
            heights_of(self.streams@),
            self.scroll_index as int,
            self.scroll_anchor,
            usable_height(self.height),
        );
        top <= self.selection_index <= bottom
    }

    pub open spec fn active_count(&self) -> nat {
        active_of(self.streams@).len()
    }

    /// This state with the viewport moved, as little as possible, to show
    /// active entry `target`.
    pub open spec fn scrolled_to(self, target: usize) -> Self {
        let (s, a) = scrolled(
            heights_of(self.streams@),
            self.scroll_index as int,
            self.scroll_anchor,
            usable_height(self.height),
            target as int,
        );
        Application { scroll_index: s as usize, scroll_anchor: a, ..self }
    }

    /// This state with active entry `target` selected and brought into view.
    pub open spec fn focused(self, target: usize) -> Self {
        Application { selection_index: target, ..self }.scrolled_to(target)
    }

    /// A monitor of `streams`, all active and collapsed, on the main screen,
    /// polling every second.
    pub fn new(width: usize, height: usize, streams: Vec<S>) -> (r: Self)
        ensures
            r.wf(),
            r.running,
            r.width == width,
            r.height == height,
            r.screen == Screen::Main,
            r.selection_index == 0,
            r.scroll_index == 0,
            r.scroll_anchor == ScrollAnchor::Top,
            r.interval_index == DEFAULT_INTERVAL_INDEX,
            r.streams@.len() == streams@.len(),
            forall|i: int|
                0 <= i < streams@.len() ==> {
                    let e = #[trigger] r.streams@[i];
                    &&& e.stream == streams@[i]
                    &&& e.values@.len() == 0
                    &&& e.active
                    &&& !e.expanded
                },
    {
        let ghost input = streams@;
        let mut rest = streams;
        let mut wrapped: Vec<StreamWrapper<S, T>> = Vec::new();
        while rest.len() > 0
            invariant
                wrapped@.len() + rest@.len() == input.len(),
                rest@ == input.subrange(wrapped@.len() as int, input.len() as int),
                forall|i: int|
                    0 <= i < wrapped@.len() ==> {
                        let e = #[trigger] wrapped@[i];
                        &&& e.stream == input[i]
                        &&& e.values@.len() == 0
                        &&& e.active
                        &&& !e.expanded
                    },
            decreases rest@.len(),
        {
            let s = rest.remove(0);
            wrapped.push(StreamWrapper::new(s));
        }
        let r = Application {
            running: true,
            width,
            height,
            screen: Screen::Main,
            streams: wrapped,
            selection_index: 0,
            scroll_index: 0,
            scroll_anchor: ScrollAnchor::Top,
            interval_index: DEFAULT_INTERVAL_INDEX,
        };
        proof {
            lemma_all_active(r.streams@);
        }
        r
    }

    /// Heights of the active entries, in order.
    fn active_heights(&self) -> (r: Vec<usize>)
        ensures
            r@ == heights_of(self.streams@),
    {
        let mut r: Vec<usize> = Vec::new();
        let mut i: usize = 0;
        while i < self.streams.len()
            invariant
                i <= self.streams@.len(),
                r@ == heights_of(self.streams@.subrange(0, i as int)),
            decreases self.streams@.len() - i,
        {
            proof {
                assert(self.streams@.subrange(0, i as int + 1) =~= self.streams@.subrange(0, i as int).push(self.streams@[i as int]));
                lemma_heights_push(self.streams@.subrange(0, i as int), self.streams@[i as int]);
            }
            if self.streams[i].active {
                r.push(self.streams[i].height());
            }
            i = i + 1;
        }
        assert(self.streams@.subrange(0, self.streams@.len() as int) =~= self.streams@);
        r
    }

    /// Moves the viewport, as little as possible, so that active entry
    /// `index` is fully visible.
    fn scroll_to_stream(&mut self, index: usize)
        requires
            heights_of(old(self).streams@).len() > 0 ==> valid_position(heights_of(old(self).streams@), old(self).scroll_index as int)
                && valid_position(heights_of(old(self).streams@), index as int),
        ensures
            *final(self) == old(self).scrolled_to(index),
    {
        let hs = self.active_heights();
        let available: usize = if self.height >= 2 { self.height - 2 } else { 0 };
        let (s, a) = scroll_to(&hs, self.scroll_index, self.scroll_anchor, available, index);
        self.scroll_index = s;
        self.scroll_anchor = a;
    }

    /// The preset currently used for polling.
    pub fn interval(&self) -> (r: Interval)
        requires
            self.wf(),
        ensures
            r == interval_presets()[self.interval_index as int],
    {
        let presets = intervals();
        presets[self.interval_index]
    }

    /// The menu hints of the current screen, left-aligned ones first.
    pub fn menu(&self) -> (r: (Vec<MenuItem>, Vec<MenuItem>))
        ensures
            (menu_view(r.0@), menu_view(r.1@)) == menu_of(self.screen),
    {
        menu_for(self.screen)
    }

    /// The active entries, in display order.
    pub fn active_streams(&self) -> (r: Vec<&StreamWrapper<S, T>>)
        ensures
            r@.len() == active_of(self.streams@).len(),
            forall|i: int| 0 <= i < r@.len() ==> *r@[i] == active_of(self.streams@)[i],
    {
        let mut r: Vec<&StreamWrapper<S, T>> = Vec::new();
        let mut i: usize = 0;
        while i < self.streams.len()
            invariant
                i <= self.streams@.len(),
                r@.len() == active_of(self.streams@.subrange(0, i as int)).len(),
                forall|j: int| 0 <= j < r@.len() ==> *r@[j] == active_of(self.streams@.subrange(0, i as int))[j],
            decreases self.streams@.len() - i,
        {
            proof {
                lemma_active_prefix(self.streams@, i as int);
            }
            if self.streams[i].active {
                r.push(&self.streams[i]);
            }
            i = i + 1;
        }
        assert(self.streams@.subrange(0, self.streams@.len() as int) =~= self.streams@);
        r
    }

    /// Flips the expanded flag of the selected active entry.
    fn toggle_selected(&mut self)
        requires
            old(self).wf(),
            old(self).active_count() > 0,
        ensures
            expanded_toggled(old(self).streams@, final(self).streams@, old(self).selection_index as int),
            final(self).active_count() == old(self).active_count(),
            forall|i: int| 0 <= i < final(self).streams@.len() ==> #[trigger] final(self).streams@[i].wf(),
            *final(self) == (Application { streams: final(self).streams, ..*old(self) }),
    {
        let ghost pre = self.streams@;
        let n: usize = self.streams.len();
        let sel = self.selection_index;
        let mut i: usize = 0;
        let mut seen: usize = 0;
        let mut found = false;
        while i < n && !found
            invariant
                n == pre.len(),
                self.streams@ == pre,
                sel == self.selection_index,
                sel < active_of(pre).len(),
                i <= n,
                seen == active_of(pre.subrange(0, i as int)).len(),
                seen <= sel,
                found ==> is_nth_active(pre, i as int, sel as int),
            decreases n - i + (if found { 0int } else { 1int }),
        {
            proof {
                lemma_active_prefix(pre, i as int);
            }
            if self.streams[i].active {
                if seen == sel {
                    found = true;
                } else {
                    seen = seen + 1;
                    i = i + 1;
                }
            } else {
                i = i + 1;
            }
        }
        proof {
            if !found {
                assert(pre.subrange(0, n as int) =~= pre);
            }
        }
        let e = &mut self.streams[i];
        e.expanded = !e.expanded;
        proof {
            assert(self.streams@ == pre.update(i as int, toggled(pre[i as int])));
            lemma_active_len_update(pre, i as int, toggled(pre[i as int]));
            assert forall|j: int| 0 <= j < self.streams@.len() implies #[trigger] self.streams@[j].wf() by {
                assert(pre[j].wf());
            }
        }
    }

    /// Reacts to one input event; tells whether anything changed, that is
    /// whether the screen must be redrawn.
    pub fn handle(&mut self, event: &Event) -> (r: bool)
        requires
            old(self).wf(),
        ensures
            final(self).wf(),
            match command_of(old(self).screen, *event) {
                Action::SelectPrevious => if old(self).selection_index > 0 {
                    r && *final(self) == old(self).focused((old(self).selection_index - 1) as usize)
                } else {
                    !r && *final(self) == *old(self)
                },
                Action::SelectNext => if old(self).selection_index + 1 < old(self).active_count() {
                    r && *final(self) == old(self).focused((old(self).selection_index + 1) as usize)
                } else {
                    !r && *final(self) == *old(self)
                },
                Action::ToggleExpanded => if old(self).active_count() > 0 {
                    &&& r
                    &&& expanded_toggled(
                        old(self).streams@,
                        final(self).streams@,
                        old(self).selection_index as int,
                    )
                    &&& *final(self) == (Application { streams: final(self).streams, ..*old(self) }).scrolled_to(
                        old(self).selection_index,
                    )
                } else {
                    !r && *final(self) == *old(self)
                },
                Action::OpenStreams => r && *final(self) == (Application { screen: Screen::Streams, ..*old(self) }),
                Action::CloseStreams => r && *final(self) == (Application { screen: Screen::Main, ..*old(self) }),
                Action::LongerInterval => {
                    &&& r == (old(self).interval_index + 1 < INTERVAL_COUNT)
                    &&& *final(self) == (Application {
                        interval_index: longer(old(self).interval_index as int) as usize,
                        ..*old(self)
                    })
                },
                Action::ShorterInterval => {
                    &&& r == (old(self).interval_index > 0)
                    &&& *final(self) == (Application {
                        interval_index: shorter(old(self).interval_index as int) as usize,
                        ..*old(self)
                    })
                },
                Action::Quit => r == old(self).running && *final(self) == (Application { running: false, ..*old(self) }),
                Action::Ignore => !r && *final(self) == *old(self),
            },
    {
        let ghost hs = heights_of(self.streams@);
        let ghost avail = usable_height(self.height);
        match command(self.screen, event) {
            Action::SelectPrevious => {
                if self.selection_index > 0 {
                    self.selection_index = self.selection_index - 1;
                    self.scroll_to_stream(self.selection_index);
                    proof {
                        lemma_scroll_reveals_target(hs, old(self).scroll_index as int, old(self).scroll_anchor, avail, self.selection_index as int);
                    }
                    true
                } else {
                    false
                }
            },
            Action::SelectNext => {
                let count = self.active_count_exec();
                if self.selection_index + 1 < count {
                    self.selection_index = self.selection_index + 1;
                    self.scroll_to_stream(self.selection_index);
                    proof {
                        lemma_scroll_reveals_target(hs, old(self).scroll_index as int, old(self).scroll_anchor, avail, self.selection_index as int);
                    }
                    true
                } else {
                    false
                }
            },
            Action::ToggleExpanded => {
                let count = self.active_count_exec();
                if count > 0 {
                    self.toggle_selected();
                    proof {
                        lemma_heights_len(self.streams@);
                        lemma_heights_len(old(self).streams@);
                    }
                    self.scroll_to_stream(self.selection_index);
                    proof {
                        lemma_scroll_reveals_target(
                            heights_of(self.streams@),
                            old(self).scroll_index as int,
                            old(self).scroll_anchor,
                            avail,
                            self.selection_index as int,
                        );
                    }
                    true
                } else {
                    false
                }
            },
            Action::OpenStreams => {
                self.screen = Screen::Streams;
                true
            },
            Action::CloseStreams => {
                self.screen = Screen::Main;
                true
            },
            Action::LongerInterval => {
                if self.interval_index + 1 < INTERVAL_COUNT {
                    self.interval_index = self.interval_index + 1;
                    true
                } else {
                    false
                }
            },
            Action::ShorterInterval => {
                if self.interval_index > 0 {
                    self.interval_index = self.interval_index - 1;
                    true
                } else {
                    false
                }
            },
            Action::Quit => {
                let was_running = self.running;
                self.running = false;
                was_running
            },
            Action::Ignore => false,
        }
    }

    /// Takes the terminal's new size and scrolls, if needed, so that the
    /// selection stays fully visible.
    pub fn resize(&mut self, width: usize, height: usize)
        requires
            old(self).wf(),
        ensures
            final(self).wf(),
            *final(self) == (Application { width, height, ..*old(self) }).scrolled_to(old(self).selection_index),
    {
        self.width = width;
        self.height = height;
        self.scroll_to_stream(self.selection_index);
        proof {
            let hs = heights_of(self.streams@);
            if hs.len() > 0 {
                lemma_scroll_reveals_target(
                    hs,
                    old(self).scroll_index as int,
                    old(self).scroll_anchor,
                    usable_height(height),
                    self.selection_index as int,
                );
            }
        }
    }

    /// Records one polling round: `samples[i]` is what entry `i` produced.
    /// Active entries append their sample to their history; inactive ones
    /// keep theirs as it is.
    pub fn update_streams(&mut self, samples: Vec<Option<T>>)
        requires
            old(self).wf(),
            samples@.len() == old(self).streams@.len(),
        ensures
            final(self).wf(),
            *final(self) == (Application { streams: final(self).streams, ..*old(self) }),
            final(self).streams@.len() == old(self).streams@.len(),
            forall|i: int|
                0 <= i < old(self).streams@.len() ==> {
                    let (a, b) = (old(self).streams@[i], #[trigger] final(self).streams@[i]);
                    &&& b.stream == a.stream
                    &&& b.active == a.active
                    &&& b.expanded == a.expanded
                    &&& b.values@ == if a.active {
                        recorded(a.values@, samples@[i])
                    } else {
                        a.values@
                    }
                },
    {
        let ghost pre = self.streams@;
        let ghost input = samples@;
        let mut samples = samples;
        let mut i: usize = self.streams.len();
        while i > 0
            invariant
                i <= pre.len(),
                self.streams@.len() == pre.len(),
                samples@ == input.subrange(0, i as int),
                input.len() == pre.len(),
                *self == (Application { streams: self.streams, ..*old(self) }),
                forall|j: int| 0 <= j < i ==> #[trigger] self.streams@[j] == pre[j],
                forall|j: int| 0 <= j < pre.len() ==> #[trigger] self.streams@[j].wf(),
                forall|j: int|
                    i <= j < pre.len() ==> {
                        let (a, b) = (pre[j], #[trigger] self.streams@[j]);
                        &&& b.stream == a.stream
                        &&& b.active == a.active
                        &&& b.expanded == a.expanded
                        &&& b.values@ == if a.active {
                            recorded(a.values@, input[j])
                        } else {
                            a.values@
                        }
                    },
            decreases i,
        {
            i = i - 1;
            let sample = samples.pop().unwrap();
            assert(sample == input[i as int]);
            if self.streams[i].active {
                let e = &mut self.streams[i];
                e.record(sample);
            }
            assert(samples@ =~= input.subrange(0, i as int));
        }
        proof {
            assert(same_flags(pre, self.streams@));
            lemma_same_flags(pre, self.streams@);
        }
    }

    /// Forgets the history of every entry.
    pub fn reset_streams(&mut self)
        requires
            old(self).wf(),
        ensures
            final(self).wf(),
            *final(self) == (Application { streams: final(self).streams, ..*old(self) }),
            final(self).streams@.len() == old(self).streams@.len(),
            forall|i: int|
                0 <= i < old(self).streams@.len() ==> {
                    let (a, b) = (old(self).streams@[i], #[trigger] final(self).streams@[i]);
                    &&& b.stream == a.stream
                    &&& b.active == a.active
                    &&& b.expanded == a.expanded
                    &&& b.values@.len() == 0
                },
    {
        let ghost pre = self.streams@;
        let n: usize = self.streams.len();
        let mut i: usize = 0;
        while i < n
            invariant
                n == pre.len(),
                i <= n,
                self.streams@.len() == n,
                *self == (Application { streams: self.streams, ..*old(self) }),
                forall|j: int| i <= j < n ==> #[trigger] self.streams@[j] == pre[j],
                forall|j: int|
                    0 <= j < i ==> {
                        let (a, b) = (pre[j], #[trigger] self.streams@[j]);
                        &&& b.stream == a.stream
                        &&& b.active == a.active
                        &&& b.expanded == a.expanded
                        &&& b.values@.len() == 0
                    },
            decreases n - i,
        {
            let e = &mut self.streams[i];
            e.clear();
            i = i + 1;
        }
        proof {
            assert(same_flags(pre, self.streams@));
            lemma_same_flags(pre, self.streams@);
        }
    }

    /// Number of active entries.
    fn active_count_exec(&self) -> (r: usize)
        ensures
            r == self.active_count(),
    {
        let hs = self.active_heights();
        proof {
            lemma_heights_len(self.streams@);
        }
        hs.len()
    }
}

proof fn lemma_heights_len<S, T>(s: Seq<StreamWrapper<S, T>>)
    ensures
        heights_of(s).len() == active_of(s).len(),
{
}

} // verus!
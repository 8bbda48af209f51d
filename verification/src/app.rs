//! The lock screen as a state and what each event makes of it. The windows
//! themselves live elsewhere: here each is a number and the background that was
//! last scaled for it.
use vstd::prelude::*;

use crate::clock::{local_now, Moment};
use crate::cover::{
    background_is_the_middle, can_cover, full_size, is_cover, resized, scale_cover, Picture,
};
use crate::paint::{on_screen, place};
use crate::reading::clock_showed;
use crate::screen::{render_default, Overlay};
use crate::text::is_control_code;

verus! {

/// A background scaled to a window's size.
pub struct Scaled {
    /// The window's size.
    pub width: u32,
    pub height: u32,
    pub pixels: Vec<u32>,
}

/// What is known of a window.
pub struct WindowState {
    pub id: u64,
    /// The background, kept for the window's current size.
    pub scaled_bg: Option<Scaled>,
}

/// The lock screen.
pub struct App {
    /// The unlock code.
    pub code: String,
    /// The background; without one the built-in screen is shown.
    pub image: Option<Picture>,
    pub windows: Vec<WindowState>,
    /// The characters typed last, at most as many as the code has.
    pub typed: String,
    /// The control key is held.
    pub control: bool,
    /// The windows are gone and the process stops on the next tick of the timer.
    pub pending_suspend: bool,
}

/// An `App` as a mathematical value.
pub ghost struct AppView {
    pub code: Seq<char>,
    pub image: Option<Picture>,
    pub windows: Seq<WindowState>,
    pub typed: Seq<char>,
    pub control: bool,
    pub pending_suspend: bool,
}

impl View for App {
    type V = AppView;

    open spec fn view(&self) -> AppView {
        AppView {
            code: self.code@,
            image: self.image,
            windows: self.windows@,
            typed: self.typed@,
            control: self.control,
            pending_suspend: self.pending_suspend,
        }
    }
}

/// A key that goes down or comes up.
pub struct KeyPress {
    /// It goes down.
    pub pressed: bool,
    /// The character it stands for, where it stands for one.
    pub character: Option<String>,
    /// The text it enters, where it enters any.
    pub text: Option<String>,
}

/// A `KeyPress` as a mathematical value.
pub ghost struct KeyView {
    pub pressed: bool,
    pub character: Option<Seq<char>>,
    pub text: Option<Seq<char>>,
}

/// A string as a mathematical value, where there is one.
pub open spec fn text_view(s: Option<String>) -> Option<Seq<char>> {
    match s {
        Some(text) => Some(text@),
        None => None,
    }
}

impl View for KeyPress {
    type V = KeyView;

    open spec fn view(&self) -> KeyView {
        KeyView {
            pressed: self.pressed,
            character: text_view(self.character),
            text: text_view(self.text),
        }
    }
}

/// What an event asks for.
#[derive(Clone, Copy, PartialEq, Eq, Structural, Debug)]
pub enum Action {
    Nothing,
    /// Leave: the code has been typed.
    Exit,
    /// Take every window down.
    Suspend,
    /// Ask for this window to be drawn again.
    Redraw(u64),
    /// Draw this window.
    Draw(u64),
}

/// `text` without its control codes.
pub open spec fn printable(text: Seq<char>) -> Seq<char> {
    text.filter(|c: char| !is_control_code(c))
}

/// The last `n` characters of `s`, or all where there are fewer.
pub open spec fn recent(s: Seq<char>, n: nat) -> Seq<char> {
    if s.len() > n {
        s.skip(s.len() - n)
    } else {
        s
    }
}

/// A string that is the letter z, in either case.
pub open spec fn is_z(s: Seq<char>) -> bool {
    s.len() == 1 && (s[0] == 'z' || s[0] == 'Z')
}

impl KeyView {
    /// The key stands for the letter z.
    pub open spec fn is_z_key(self) -> bool {
        match self.character {
            Some(c) => is_z(c),
            None => false,
        }
    }
}

impl AppView {
    /// Every window is gone, and what was typed is forgotten.
    pub open spec fn suspended(self) -> AppView {
        AppView {
            windows: Seq::empty(),
            typed: Seq::empty(),
            control: false,
            pending_suspend: true,
            ..self
        }
    }

    /// The state after a key.
    pub open spec fn after_key(self, key: KeyView) -> AppView {
        if !key.pressed {
            self
        } else if self.control {
            if key.is_z_key() {
                self.suspended()
            } else {
                self
            }
        } else {
            match key.text {
                Some(text) => AppView {
                    typed: recent(self.typed + printable(text), self.code.len()),
                    ..self
                },
                None => self,
            }
        }
    }

    /// What a key asks for: to leave, where it entered text and the code now
    /// stands; to suspend, where it was Ctrl+Z.
    pub open spec fn key_action(self, key: KeyView) -> Action {
        if !key.pressed {
            Action::Nothing
        } else if self.control {
            if key.is_z_key() {
                Action::Suspend
            } else {
                Action::Nothing
            }
        } else if key.text is Some && self.after_key(key).typed == self.code {
            Action::Exit
        } else {
            Action::Nothing
        }
    }
}

/// Tells whether a string is the letter z, in either case.
fn names_z(s: &str) -> (yes: bool)
    ensures
        yes == is_z(s@),
{
    if s.unicode_len() != 1 {
        return false;
    }
    let c = s.get_char(0);
    c == 'z' || c == 'Z'
}

/// Appends to `typed` the characters of `text` that are no control codes, and keeps
/// the last `max` of all.
fn type_in(typed: &String, text: &str, max: usize) -> (out: String)
    ensures
        out@ == recent(typed@ + printable(text@), max as nat),
{
    let mut out = typed.clone();
    let ghost pred = |c: char| !is_control_code(c);
    assert(text@.take(0).filter(pred) =~= Seq::<char>::empty()) by {
        reveal(Seq::filter);
    }
    for ch in it: text.chars()
        invariant
            it.seq() == text@,
            pred == (|c: char| !is_control_code(c)),
            out@ == typed@ + text@.take(it.index() as int).filter(pred),
    {
        proof {
            let i = it.index() as int;
            assert(text@.take(i + 1).drop_last() =~= text@.take(i));
            reveal(Seq::filter);
        }
        if !ch.is_control() {
            out.push(ch);
        }
    }
    assert(text@.take(text@.len() as int) =~= text@);
    let n = out.as_str().unicode_len();
    if n > max {
        let tail = out.as_str().substring_char(n - max, n);
        assert(tail@ =~= out@.skip(n - max));
        tail.to_owned()
    } else {
        out
    }
}

impl App {
    /// Takes every window down so that the process can stop, and forgets what was
    /// typed.
    pub fn begin_suspend(&mut self)
        ensures
            final(self)@ == old(self)@.suspended(),
            old(self)@.wf() ==> final(self)@.wf(),
    {
        self.windows = Vec::new();
        self.typed = String::new();
        self.control = false;
        self.pending_suspend = true;
    }

    /// Takes note of a key.
    pub fn handle_key(&mut self, key: &KeyPress) -> (action: Action)
        ensures
            final(self)@ == old(self)@.after_key(key@),
            action == old(self)@.key_action(key@),
            old(self)@.wf() ==> final(self)@.wf(),
    {
        proof {
            if self@.wf() {
                events_keep_it_sound(self@, 0, EventView::KeyboardInput(key@));
            }
        }
        if !key.pressed {
            return Action::Nothing;
        }
        if self.control {
            if let Some(c) = &key.character {
                if names_z(c.as_str()) {
                    self.begin_suspend();
                    return Action::Suspend;
                }
            }
            return Action::Nothing;
        }
        if let Some(text) = &key.text {
            let max = self.code.as_str().unicode_len();
            self.typed = type_in(&self.typed, text.as_str(), max);
            if self.typed == self.code {
                return Action::Exit;
            }
        }
        Action::Nothing
    }
}

/// An event of a window.
pub enum Event {
    CloseRequested,
    /// The modifier keys changed; tells whether the control key is held.
    ModifiersChanged(bool),
    KeyboardInput(KeyPress),
    Resized,
    RedrawRequested,
    /// Any other event.
    Other,
}

/// An `Event` as a mathematical value.
pub ghost enum EventView {
    CloseRequested,
    ModifiersChanged(bool),
    KeyboardInput(KeyView),
    Resized,
    RedrawRequested,
    Other,
}

impl View for Event {
    type V = EventView;

    open spec fn view(&self) -> EventView {
        match self {
            Event::CloseRequested => EventView::CloseRequested,
            Event::ModifiersChanged(control) => EventView::ModifiersChanged(*control),
            Event::KeyboardInput(key) => EventView::KeyboardInput(key@),
            Event::Resized => EventView::Resized,
            Event::RedrawRequested => EventView::RedrawRequested,
            Event::Other => EventView::Other,
        }
    }
}

/// `at` is the place of the first window with this number.
pub open spec fn is_place_of(windows: Seq<WindowState>, id: u64, at: int) -> bool {
    &&& 0 <= at < windows.len()
    &&& windows[at].id == id
    &&& forall|i: int| 0 <= i < at ==> windows[i].id != id
}

/// There is a window with this number.
pub open spec fn has_window(windows: Seq<WindowState>, id: u64) -> bool {
    exists|i: int| 0 <= i < windows.len() && #[trigger] windows[i].id == id
}

/// The windows once the background of the first with this number is dropped.
pub open spec fn without_background(windows: Seq<WindowState>, id: u64) -> Seq<WindowState> {
    Seq::new(
        windows.len(),
        |i: int|
            if is_place_of(windows, id, i) {
                WindowState { id, scaled_bg: None }
            } else {
                windows[i]
            },
    )
}

impl AppView {
    /// The state after an event of the window `id`.
    pub open spec fn after_event(self, id: u64, event: EventView) -> AppView {
        match event {
            EventView::ModifiersChanged(control) => AppView { control, ..self },
            EventView::KeyboardInput(key) => self.after_key(key),
            EventView::Resized => AppView {
                windows: without_background(self.windows, id),
                ..self
            },
            _ => self,
        }
    }

    /// What an event of the window `id` asks for.
    pub open spec fn event_action(self, id: u64, event: EventView) -> Action {
        match event {
            EventView::KeyboardInput(key) => self.key_action(key),
            EventView::Resized if has_window(self.windows, id) => Action::Redraw(id),
            EventView::RedrawRequested => Action::Draw(id),
            _ => Action::Nothing,
        }
    }
}

/// Finds the first window with this number.
pub fn position(windows: &Vec<WindowState>, id: u64) -> (at: Option<usize>)
    ensures
        at is Some <==> has_window(windows@, id),
        at matches Some(i) ==> is_place_of(windows@, id, i as int),
        match at {
            Some(i) => i < windows@.len() && windows@[i as int].id == id && forall|j: int|
                0 <= j < i ==> windows@[j].id != id,
            None => forall|j: int| 0 <= j < windows@.len() ==> windows@[j].id != id,
        },
{
    let mut i: usize = 0;
    while i < windows.len()
        invariant
            i <= windows@.len(),
            forall|j: int| 0 <= j < i ==> windows@[j].id != id,
        decreases windows@.len() - i,
    {
        if windows[i].id == id {
            return Some(i);
        }
        i = i + 1;
    }
    None
}

impl App {
    /// Takes note of an event of the window `id`. A request to close it is refused:
    /// the screen is locked.
    pub fn window_event(&mut self, id: u64, event: &Event) -> (action: Action)
        ensures
            final(self)@ == old(self)@.after_event(id, event@),
            action == old(self)@.event_action(id, event@),
            old(self)@.wf() ==> final(self)@.wf(),
    {
        proof {
            if self@.wf() {
                events_keep_it_sound(self@, id, event@);
            }
        }
        match event {
            Event::CloseRequested => Action::Nothing,
            Event::ModifiersChanged(control) => {
                self.control = *control;
                Action::Nothing
            },
            Event::KeyboardInput(key) => self.handle_key(key),
            Event::Resized => {
                let ghost before = self.windows@;
                match position(&self.windows, id) {
                    Some(i) => {
                        self.windows.set(i, WindowState { id, scaled_bg: None });
                        assert(self.windows@ =~= without_background(before, id));
                        Action::Redraw(id)
                    },
                    None => {
                        assert(self.windows@ =~= without_background(before, id));
                        Action::Nothing
                    },
                }
            },
            Event::RedrawRequested => Action::Draw(id),
            Event::Other => Action::Nothing,
        }
    }
}

/// Where the windows are to be shown: one on each monitor, by its number, or one
/// wherever the system likes where no monitor is known.
pub fn window_targets(monitors: usize) -> (targets: Vec<Option<usize>>)
    ensures
        targets@ == if monitors == 0 {
            seq![None]
        } else {
            Seq::new(monitors as nat, |i: int| Some(i as usize))
        },
{
    let mut targets: Vec<Option<usize>> = Vec::new();
    if monitors == 0 {
        targets.push(None);
        return targets;
    }
    let mut i: usize = 0;
    while i < monitors
        invariant
            i <= monitors,
            targets@ == Seq::new(i as nat, |j: int| Some(j as usize)),
        decreases monitors - i,
    {
        targets.push(Some(i));
        i = i + 1;
    }
    targets
}

/// The numbers of the windows that could be opened, in turn.
pub open spec fn opened(created: Seq<Option<u64>>) -> Seq<u64>
    decreases created.len(),
{
    if created.len() == 0 {
        Seq::empty()
    } else {
        match created.last() {
            Some(id) => opened(created.drop_last()).push(id),
            None => opened(created.drop_last()),
        }
    }
}

/// Windows that were just opened.
pub open spec fn fresh(ids: Seq<u64>) -> Seq<WindowState> {
    ids.map_values(|id: u64| WindowState { id, scaled_bg: None })
}

/// What the timer asks for.
pub enum Wake {
    Nothing,
    /// Stop the process, and open the windows again once it goes on.
    StopAndReopen,
    /// Ask for these windows to be drawn again.
    Redraw(Vec<u64>),
}

/// The numbers of the windows.
pub open spec fn ids_of(windows: Seq<WindowState>) -> Seq<u64> {
    windows.map_values(|window: WindowState| window.id)
}

impl AppView {
    /// A locked screen without windows yet.
    pub open spec fn locked(code: Seq<char>, image: Option<Picture>) -> AppView {
        AppView {
            code,
            image,
            windows: Seq::empty(),
            typed: Seq::empty(),
            control: false,
            pending_suspend: false,
        }
    }

    /// The state once windows were opened.
    pub open spec fn with_windows(self, ids: Seq<u64>) -> AppView {
        AppView { windows: self.windows + fresh(ids), ..self }
    }

    /// Windows are to be opened when the process goes on.
    pub open spec fn opens(self) -> bool {
        self.windows.len() == 0 && !self.pending_suspend
    }

    /// The state after the event loop woke up.
    pub open spec fn after_wake(self, timer: bool) -> AppView {
        AppView { pending_suspend: self.pending_suspend && !timer, ..self }
    }
}

impl App {
    /// A locked screen without windows yet.
    pub fn new(code: String, image: Option<Picture>) -> (app: App)
        ensures
            app@ == AppView::locked(code@, image),
            (image matches Some(picture) ==> picture.wf()) ==> app@.wf(),
    {
        App {
            code,
            image,
            windows: Vec::new(),
            typed: String::new(),
            control: false,
            pending_suspend: false,
        }
    }

    /// Takes note of the windows that were opened: of each target the window's
    /// number, or none where it could not be opened.
    pub fn create_windows(&mut self, created: &Vec<Option<u64>>)
        ensures
            final(self)@ == old(self)@.with_windows(opened(created@)),
            old(self)@.wf() && !old(self)@.pending_suspend ==> final(self)@.wf(),
    {
        proof {
            if self@.wf() && !self@.pending_suspend {
                opening_keeps_it_sound(self@, opened(created@));
            }
        }
        let ghost before = self@;
        let mut i: usize = 0;
        assert(created@.take(0) =~= Seq::empty());
        assert(self.windows@ =~= before.windows + fresh(opened(created@.take(0))));
        while i < created.len()
            invariant
                i <= created@.len(),
                self@ == before.with_windows(opened(created@.take(i as int))),
            decreases created@.len() - i,
        {
            let ghost so_far = self.windows@;
            proof {
                let next = created@.take(i + 1);
                assert(next.drop_last() =~= created@.take(i as int));
                assert(next.last() == created@[i as int]);
            }
            if let Some(id) = created[i] {
                self.windows.push(WindowState { id, scaled_bg: None });
            }
            assert(self.windows@ =~= before.windows + fresh(opened(created@.take(i + 1))));
            i = i + 1;
        }
        assert(created@.take(i as int) =~= created@);
    }

    /// Tells whether windows are to be opened now that the process goes on.
    pub fn resumed(&self) -> (open: bool)
        ensures
            open == self@.opens(),
    {
        self.windows.len() == 0 && !self.pending_suspend
    }

    /// Takes note that the event loop woke up; `timer` tells whether the timer did it.
    pub fn new_events(&mut self, timer: bool) -> (wake: Wake)
        ensures
            final(self)@ == old(self)@.after_wake(timer),
            old(self)@.wf() ==> final(self)@.wf(),
            match wake {
                Wake::Nothing => !timer,
                Wake::StopAndReopen => timer && old(self)@.pending_suspend,
                Wake::Redraw(ids) => timer && !old(self)@.pending_suspend && ids@ == ids_of(
                    old(self)@.windows,
                ),
            },
    {
        if !timer {
            return Wake::Nothing;
        }
        if self.pending_suspend {
            self.pending_suspend = false;
            return Wake::StopAndReopen;
        }
        let mut ids: Vec<u64> = Vec::new();
        let mut i: usize = 0;
        while i < self.windows.len()
            invariant
                i <= self.windows@.len(),
                ids@ == ids_of(self.windows@).take(i as int),
            decreases self.windows@.len() - i,
        {
            ids.push(self.windows[i].id);
            i = i + 1;
        }
        assert(ids@ =~= ids_of(self.windows@));
        Wake::Redraw(ids)
    }
}

/// How long the event loop may sleep.
#[derive(Clone, Copy, PartialEq, Eq, Structural, Debug)]
pub enum Wait {
    /// Until something happens.
    Forever,
    /// This many milliseconds at most.
    Millis(u64),
}

/// The milliseconds to the next second, `subsec` after the last, but at least 20.
pub open spec fn to_next_second(subsec: int) -> int {
    if subsec > 980 {
        20
    } else {
        1000 - subsec
    }
}

impl AppView {
    /// How long to sleep, `subsec` milliseconds into the second: a moment where the
    /// process is about to stop, so that the windows are gone by then; to the next
    /// second where the built-in screen shows its clock; without end otherwise.
    pub open spec fn sleep(self, subsec: u32) -> Wait {
        if self.pending_suspend {
            Wait::Millis(80)
        } else if self.image is None && self.windows.len() > 0 {
            Wait::Millis(to_next_second(subsec as int) as u64)
        } else {
            Wait::Forever
        }
    }
}

impl App {
    /// How long to sleep, `subsec` milliseconds into the second.
    pub fn wait_from(&self, subsec: u32) -> (wait: Wait)
        ensures
            wait == self@.sleep(subsec),
    {
        if self.pending_suspend {
            Wait::Millis(80)
        } else if self.image.is_none() && self.windows.len() > 0 {
            let ms = 1000u64.saturating_sub(subsec as u64);
            Wait::Millis(if ms < 20 {
                20
            } else {
                ms
            })
        } else {
            Wait::Forever
        }
    }

    /// How long to sleep, by the clock of the system.
    pub fn about_to_wait(&self) -> (wait: Wait)
        ensures
            exists|subsec: u32| subsec < 2000 && wait == #[trigger] self@.sleep(subsec),
            self@.pending_suspend || self@.image is Some || self@.windows.len() == 0 ==> wait
                == self@.sleep(0),
            !self@.pending_suspend && self@.image is None && self@.windows.len() > 0 ==> exists|
                moment: Moment,
                subsec: u32,
            | #[trigger]
                clock_showed(moment, subsec) && subsec < 2000 && wait == self@.sleep(subsec),
    {
        if self.pending_suspend || self.image.is_some() || self.windows.len() == 0 {
            return self.wait_from(0);
        }
        let (_, subsec) = local_now();
        self.wait_from(subsec)
    }
}

/// What was painted.
#[derive(Clone, Copy, PartialEq, Eq, Structural, Debug)]
pub enum Painted {
    /// Nothing: there is no such window, or it has no pixels.
    Nothing,
    /// The background image, which is all there is to see.
    Image,
    /// The built-in screen.
    BuiltIn,
}

impl Scaled {
    /// It was scaled for a window of this size.
    pub open spec fn suits(&self, w: u32, h: u32) -> bool {
        self.width == w && self.height == h
    }

    /// It shows the picture.
    pub open spec fn shows(&self, picture: &Picture) -> bool {
        is_cover(self.pixels@, picture, self.width, self.height)
    }
}

impl WindowState {
    /// A background for this size is at hand.
    pub open spec fn is_ready(&self, w: u32, h: u32) -> bool {
        self.scaled_bg is Some && self.scaled_bg->0.suits(w, h)
    }
}

impl AppView {
    /// What holds of every lock screen: the image is whole; no more is remembered of
    /// what was typed than the code is long, and no control code; there is no window
    /// while the process is about to stop; and every background that is kept shows
    /// the image.
    pub open spec fn wf(self) -> bool {
        &&& self.image matches Some(picture) ==> picture.wf()
        &&& self.typed.len() <= self.code.len()
        &&& forall|i: int| 0 <= i < self.typed.len() ==> !is_control_code(#[trigger] self.typed[i])
        &&& self.pending_suspend ==> self.windows.len() == 0
        &&& forall|i: int|
            0 <= i < self.windows.len() && (#[trigger] self.windows[i]).scaled_bg is Some
                ==> self.image is Some && self.windows[i].scaled_bg->0.shows(&self.image->0)
    }

    /// The state after the image was painted in the window at `i`: the window keeps
    /// what was painted, the background that it had for this size or else a new one,
    /// and nothing else changes.
    pub open spec fn painted_to(
        self,
        after: AppView,
        i: int,
        w: u32,
        h: u32,
        pixels: Seq<u32>,
    ) -> bool {
        let kept = after.windows[i].scaled_bg;
        &&& after == AppView {
            windows: self.windows.update(
                i,
                WindowState { id: self.windows[i].id, scaled_bg: kept },
            ),
            ..self
        }
        &&& after.windows[i].is_ready(w, h)
        &&& kept->0.shows(&self.image->0)
        &&& pixels == kept->0.pixels@
        &&& self.windows[i].is_ready(w, h) ==> kept == self.windows[i].scaled_bg
    }

    /// A window of this number and size can be drawn.
    pub open spec fn can_draw(self, id: u64, w: u32, h: u32) -> bool {
        has_window(self.windows, id) && w > 0 && h > 0
    }

    /// Scaling the image for the window is possible, or not called for.
    pub open spec fn can_scale(self, id: u64, w: u32, h: u32) -> bool {
        forall|i: int| #[trigger]
            is_place_of(self.windows, id, i) && self.image is Some && !self.windows[i].is_ready(w, h)
                ==> can_cover(&self.image->0, w, h)
    }
}

impl App {
    /// Tells whether a window of this number and size can be drawn.
    pub fn drawable(&self, id: u64, w: u32, h: u32) -> (yes: bool)
        ensures
            yes == self@.can_draw(id, w, h),
            yes <==> w > 0 && h > 0 && exists|i: int|
                0 <= i < self.windows@.len() && #[trigger] self.windows@[i].id == id,
    {
        w > 0 && h > 0 && position(&self.windows, id).is_some()
    }

    /// Tells whether the window's background has yet to be scaled to this size.
    pub fn needs_scaling(&self, id: u64, w: u32, h: u32) -> (yes: bool)
        ensures
            yes == (self@.image is Some && exists|i: int| #[trigger]
                is_place_of(self@.windows, id, i) && !self@.windows[i].is_ready(w, h)),
    {
        if self.image.is_none() {
            return false;
        }
        match position(&self.windows, id) {
            Some(i) => {
                assert(is_place_of(self@.windows, id, i as int));
                match &self.windows[i].scaled_bg {
                    Some(bg) => !(bg.width == w && bg.height == h),
                    None => true,
                }
            },
            None => false,
        }
    }

    /// Paints a window: the image, scaled first where it was not scaled for this size
    /// yet, or the built-in screen with what stands on its backdrop.
    pub fn draw(&mut self, id: u64, w: u32, h: u32, overlay: &Overlay, buf: &mut [u32]) -> (painted:
        Painted)
        requires
            old(self)@.wf(),
            old(self)@.image is None ==> overlay.wf(),
            old(self)@.can_draw(id, w, h) ==> old(buf)@.len() == w * h && old(self)@.can_scale(
                id,
                w,
                h,
            ),
        ensures
            final(self)@.wf(),
            painted == if !old(self)@.can_draw(id, w, h) {
                Painted::Nothing
            } else if old(self)@.image is Some {
                Painted::Image
            } else {
                Painted::BuiltIn
            },
            painted == Painted::Nothing ==> final(self)@ == old(self)@ && final(buf)@ == old(
                buf,
            )@,
            painted == Painted::BuiltIn ==> final(self)@ == old(self)@ && final(buf)@.len() == old(
                buf,
            )@.len() && forall|x: int, y: int|
                on_screen(w, h, x, y) ==> final(buf)@[#[trigger] place(w, x, y)] == overlay.pixel(
                    h,
                    x,
                    y,
                ),
            painted == Painted::Image ==> forall|i: int| #[trigger]
                is_place_of(old(self)@.windows, id, i) ==> old(self)@.painted_to(
                    final(self)@,
                    i,
                    w,
                    h,
                    final(buf)@,
                ),
    {
        if w == 0 || h == 0 {
            return Painted::Nothing;
        }
        let at = match position(&self.windows, id) {
            Some(i) => i,
            None => {
                return Painted::Nothing;
            },
        };
        let ghost before = self@;
        if self.image.is_none() {
            render_default(buf, w, h, overlay);
            return Painted::BuiltIn;
        }
        let stale = self.needs_scaling(id, w, h);
        assert(is_place_of(before.windows, id, at as int));
        assert forall|j: int| #[trigger] is_place_of(before.windows, id, j) implies j == at by {}
        if stale {
            if let Some(picture) = &self.image {
                let pixels = scale_cover(picture, w, h);
                let bg = Scaled { width: w, height: h, pixels };
                self.windows.set(at, WindowState { id, scaled_bg: Some(bg) });
            }
        }
        let ghost bg = self.windows@[at as int].scaled_bg->0;
        assert(self.windows@ =~= before.windows.update(
            at as int,
            WindowState { id, scaled_bg: Some(bg) },
        ));
        if let Some(kept) = &self.windows[at].scaled_bg {
            copy_pixels(buf, &kept.pixels);
        }
        Painted::Image
    }
}

/// Copies pixels of the same number.
fn copy_pixels(buf: &mut [u32], pixels: &Vec<u32>)
    requires
        old(buf)@.len() == pixels@.len(),
    ensures
        final(buf)@ == pixels@,
{
    let mut i: usize = 0;
    while i < pixels.len()
        invariant
            i <= pixels@.len(),
            buf@.len() == pixels@.len(),
            forall|j: int| 0 <= j < i ==> buf@[j] == pixels@[j],
        decreases pixels@.len() - i,
    {
        buf[i] = pixels[i];
        i = i + 1;
    }
    assert(buf@ =~= pixels@);
}

impl AppView {
    /// The state after some keys, one after the other.
    pub open spec fn after_keys(self, keys: Seq<KeyView>) -> AppView
        decreases keys.len(),
    {
        if keys.len() == 0 {
            self
        } else {
            self.after_keys(keys.drop_last()).after_key(keys.last())
        }
    }
}

impl KeyView {
    /// The key goes down and enters text.
    pub open spec fn enters_text(self) -> bool {
        self.pressed && self.text is Some
    }
}

/// What some keys enter, control codes left out.
pub open spec fn entered(keys: Seq<KeyView>) -> Seq<char>
    decreases keys.len(),
{
    if keys.len() == 0 {
        Seq::empty()
    } else if keys.last().enters_text() {
        entered(keys.drop_last()) + printable(keys.last().text->0)
    } else {
        entered(keys.drop_last())
    }
}

/// `s` ends with `end`.
pub open spec fn ends_with(s: Seq<char>, end: Seq<char>) -> bool {
    s.len() >= end.len() && s.skip(s.len() - end.len()) == end
}

/// The last characters of what was kept and what came are those of all that came.
proof fn recent_of_recent(a: Seq<char>, b: Seq<char>, n: nat)
    ensures
        recent(recent(a, n) + b, n) == recent(a + b, n),
{
    assert(recent(recent(a, n) + b, n) =~= recent(a + b, n));
}

/// The last characters are the end exactly where they are as many.
proof fn recent_is_end(s: Seq<char>, end: Seq<char>)
    ensures
        recent(s, end.len()) == end <==> ends_with(s, end),
{
    if s.len() == end.len() {
        assert(s.skip(0) =~= s);
    }
}

/// Only the characters typed last are remembered: whatever keys go down or come up
/// while the control key is not held, what is remembered is the end of all that was
/// typed, as long as the code, and nothing else changes.
pub proof fn only_recent_characters_count(app: AppView, keys: Seq<KeyView>)
    requires
        !app.control,
        app.typed.len() <= app.code.len(),
    ensures
        app.after_keys(keys) == (AppView {
            typed: recent(app.typed + entered(keys), app.code.len()),
            ..app
        }),
    decreases keys.len(),
{
    let n = app.code.len();
    if keys.len() == 0 {
        assert(app.typed + entered(keys) =~= app.typed);
    } else {
        let (rest, key) = (keys.drop_last(), keys.last());
        only_recent_characters_count(app, rest);
        if key.enters_text() {
            let text = printable(key.text->0);
            recent_of_recent(app.typed + entered(rest), text, n);
            assert(app.typed + entered(rest) + text =~= app.typed + entered(keys));
        }
    }
}

/// A key unlocks exactly where what was typed, with what it enters, ends with the
/// code: mistyped characters before it do not matter.
pub proof fn unlocks_when_code_was_typed_last(app: AppView, keys: Seq<KeyView>, key: KeyView)
    requires
        !app.control,
        app.typed.len() <= app.code.len(),
        key.enters_text(),
    ensures
        app.after_keys(keys).key_action(key) == Action::Exit <==> ends_with(
            app.typed + entered(keys.push(key)),
            app.code,
        ),
{
    let all = keys.push(key);
    assert(all.drop_last() =~= keys);
    only_recent_characters_count(app, keys);
    only_recent_characters_count(app, all);
    recent_is_end(app.typed + entered(all), app.code);
}

impl AppView {
    /// The state after some events, each of a window, one after the other.
    pub open spec fn after_events(self, events: Seq<(u64, EventView)>) -> AppView
        decreases events.len(),
    {
        if events.len() == 0 {
            self
        } else {
            self.after_events(events.drop_last()).after_event(events.last().0, events.last().1)
        }
    }

    /// What was remembered, with all that was typed in the course of some events; since
    /// the last time that windows were taken down, where they were.
    pub open spec fn typed_through(self, events: Seq<(u64, EventView)>) -> Seq<char>
        decreases events.len(),
    {
        if events.len() == 0 {
            self.typed
        } else {
            let rest = events.drop_last();
            match events.last().1 {
                EventView::KeyboardInput(key) => if self.after_events(rest).key_action(key)
                    == Action::Suspend {
                    Seq::empty()
                } else if key.enters_text() && !self.after_events(rest).control {
                    self.typed_through(rest) + printable(key.text->0)
                } else {
                    self.typed_through(rest)
                },
                _ => self.typed_through(rest),
            }
        }
    }
}

/// Whatever happens, what is remembered is the end of all that was typed since the
/// windows were last taken down, as long as the code, and the code stays what it was.
pub proof fn memory_is_the_end_of_what_was_typed(app: AppView, events: Seq<(u64, EventView)>)
    requires
        app.typed.len() <= app.code.len(),
    ensures
        app.after_events(events).typed == recent(app.typed_through(events), app.code.len()),
        app.after_events(events).code == app.code,
        app.after_events(events).image == app.image,
    decreases events.len(),
{
    if events.len() > 0 {
        let (rest, event) = (events.drop_last(), events.last().1);
        memory_is_the_end_of_what_was_typed(app, rest);
        if let EventView::KeyboardInput(key) = event {
            if key.enters_text() {
                recent_of_recent(
                    app.typed_through(rest),
                    printable(key.text->0),
                    app.code.len(),
                );
            }
        }
    }
}

/// Whatever happened before, an event unlocks exactly where it is a key that enters
/// text while the control key is not held, and all that was typed then ends with the
/// code.
pub proof fn unlocks_exactly_when_code_was_typed_last(
    app: AppView,
    events: Seq<(u64, EventView)>,
    id: u64,
    event: EventView,
)
    requires
        app.typed.len() <= app.code.len(),
    ensures
        app.after_events(events).event_action(id, event) == Action::Exit <==> {
            &&& event matches EventView::KeyboardInput(key)
            &&& key.enters_text()
            &&& !app.after_events(events).control
            &&& ends_with(app.typed_through(events.push((id, event))), app.code)
        },
{
    let all = events.push((id, event));
    assert(all.drop_last() =~= events);
    memory_is_the_end_of_what_was_typed(app, events);
    memory_is_the_end_of_what_was_typed(app, all);
    recent_is_end(app.typed_through(all), app.code);
}

/// A key that enters one character.
pub open spec fn typing(c: char) -> KeyView {
    KeyView { pressed: true, character: Some(seq![c]), text: Some(seq![c]) }
}

/// The keys that enter a string, one for each character.
pub open spec fn spelling(s: Seq<char>) -> Seq<KeyView> {
    s.map_values(|c: char| typing(c))
}

/// The keys that enter a string without control codes enter that string.
proof fn spelling_enters(s: Seq<char>)
    requires
        forall|i: int| 0 <= i < s.len() ==> !is_control_code(s[i]),
    ensures
        entered(spelling(s)) == s,
    decreases s.len(),
{
    if s.len() > 0 {
        let rest = s.drop_last();
        spelling_enters(rest);
        assert(spelling(s).drop_last() =~= spelling(rest));
        assert(spelling(s).last() == typing(s.last()));
        let one = seq![s.last()];
        assert(printable(one) =~= one) by {
            reveal(Seq::filter);
            assert(one.drop_last() =~= Seq::empty());
        }
        assert(rest + one =~= s);
    } else {
        assert(spelling(s) =~= Seq::empty());
    }
}

/// Whatever was typed before, typing the code unlocks, at its last character at the
/// latest. A code with a control code in it cannot be typed.
pub proof fn typing_the_code_unlocks(app: AppView)
    requires
        !app.control,
        app.typed.len() <= app.code.len(),
        app.code.len() > 0,
        forall|i: int| 0 <= i < app.code.len() ==> !is_control_code(app.code[i]),
    ensures
        app.after_keys(spelling(app.code.drop_last())).key_action(typing(app.code.last()))
            == Action::Exit,
{
    let (rest, last) = (app.code.drop_last(), app.code.last());
    unlocks_when_code_was_typed_last(app, spelling(rest), typing(last));
    assert(spelling(rest).push(typing(last)) =~= spelling(app.code));
    spelling_enters(app.code);
    let all = app.typed + app.code;
    assert(all.skip(all.len() - app.code.len()) =~= app.code);
}

/// A request to close a window changes nothing and asks for nothing.
pub proof fn closing_is_refused(app: AppView, id: u64)
    ensures
        app.after_event(id, EventView::CloseRequested) == app,
        app.event_action(id, EventView::CloseRequested) == Action::Nothing,
{
}

/// Typing shows nothing: a key other than Ctrl+Z leaves every window as it was, and
/// asks for none to be drawn.
pub proof fn typing_shows_nothing(app: AppView, id: u64, key: KeyView)
    requires
        app.key_action(key) != Action::Suspend,
    ensures
        app.after_event(id, EventView::KeyboardInput(key)).windows == app.windows,
        app.event_action(id, EventView::KeyboardInput(key)) == Action::Nothing || app.event_action(
            id,
            EventView::KeyboardInput(key),
        ) == Action::Exit,
{
}

/// Only a key unlocks.
pub proof fn only_keys_unlock(app: AppView, id: u64, event: EventView)
    requires
        app.event_action(id, event) == Action::Exit,
    ensures
        event matches EventView::KeyboardInput(key) && key.enters_text() && !app.control,
{
}

/// Ctrl+Z takes every window down; none is opened before the timer ticks, which it
/// does soon; and then the screen is locked as it was at first.
pub proof fn suspending_starts_over(app: AppView, key: KeyView, subsec: u32)
    requires
        app.control,
        key.pressed,
        key.is_z_key(),
    ensures
        app.key_action(key) == Action::Suspend,
        app.after_key(key).windows.len() == 0,
        !app.after_key(key).opens(),
        app.after_key(key).sleep(subsec) == Wait::Millis(80),
        app.after_key(key).after_wake(true) == AppView::locked(app.code, app.image),
        app.after_key(key).after_wake(true).opens(),
{
}

/// Once it is about to stop, nothing but the timer lets the process go on: no event
/// takes that back, and none opens a window.
pub proof fn stopping_waits_for_the_timer(app: AppView, id: u64, event: EventView)
    requires
        app.wf(),
        app.pending_suspend,
    ensures
        app.after_event(id, event).pending_suspend,
        app.after_event(id, event).windows.len() == 0,
        app.after_wake(false) == app,
{
}

/// The clock is drawn again at the next second, or within a fiftieth of one where it
/// is nearer than that; never later than after one second.
pub proof fn clock_keeps_pace(app: AppView, subsec: u32)
    requires
        app.image is None,
        app.windows.len() > 0,
        !app.pending_suspend,
    ensures
        app.sleep(subsec) matches Wait::Millis(ms) && 20 <= ms <= 1000 && subsec + ms >= 1000 && (
        subsec <= 980 ==> subsec + ms == 1000),
{
}

/// What a filter leaves has the filter's property.
proof fn printable_has_no_control_code(text: Seq<char>)
    ensures
        forall|i: int|
            0 <= i < printable(text).len() ==> !is_control_code(#[trigger] printable(text)[i]),
    decreases text.len(),
{
    reveal(Seq::filter);
    if text.len() > 0 {
        printable_has_no_control_code(text.drop_last());
    }
}

/// What holds of every lock screen holds of a new one.
pub proof fn new_screen_is_sound(code: Seq<char>, image: Option<Picture>)
    requires
        image matches Some(picture) ==> picture.wf(),
    ensures
        AppView::locked(code, image).wf(),
{
}

/// What holds of every lock screen still holds after any event.
pub proof fn events_keep_it_sound(app: AppView, id: u64, event: EventView)
    requires
        app.wf(),
    ensures
        app.after_event(id, event).wf(),
{
    let after = app.after_event(id, event);
    if let EventView::KeyboardInput(key) = event {
        if key.enters_text() && !app.control {
            let text = printable(key.text->0);
            printable_has_no_control_code(key.text->0);
            let all = app.typed + text;
            assert forall|i: int| 0 <= i < after.typed.len() implies !is_control_code(
                #[trigger] after.typed[i],
            ) by {
                let k = i + all.len() - after.typed.len();
                assert(after.typed[i] == all[k]);
                if k < app.typed.len() {
                    assert(all[k] == app.typed[k]);
                } else {
                    assert(all[k] == text[k - app.typed.len()]);
                }
            }
        }
    }
}

/// What holds of every lock screen still holds after the event loop woke up.
pub proof fn waking_keeps_it_sound(app: AppView, timer: bool)
    requires
        app.wf(),
    ensures
        app.after_wake(timer).wf(),
{
}

/// What holds of every lock screen still holds once windows were opened, which they
/// are only while the process is not about to stop.
pub proof fn opening_keeps_it_sound(app: AppView, ids: Seq<u64>)
    requires
        app.wf(),
        !app.pending_suspend,
    ensures
        app.with_windows(ids).wf(),
{
    let after = app.with_windows(ids);
    assert forall|i: int|
        0 <= i < after.windows.len() && (
        #[trigger] after.windows[i]).scaled_bg is Some implies after.image is Some
        && after.windows[i].scaled_bg->0.shows(&after.image->0) by {
        assert(i < app.windows.len());
        assert(after.windows[i] == app.windows[i]);
    }
}

/// Every moment at which windows are opened is one at which the process is not about
/// to stop: it goes on without any, or the timer just stopped it.
pub proof fn windows_open_only_when_not_stopping(app: AppView)
    ensures
        app.opens() ==> !app.pending_suspend,
        !app.after_wake(true).pending_suspend,
{
}

/// A window that changed its size has no background until it is drawn again.
pub proof fn resizing_drops_the_background(app: AppView, id: u64, at: int, w: u32, h: u32)
    requires
        is_place_of(app.windows, id, at),
    ensures
        app.event_action(id, EventView::Resized) == Action::Redraw(id),
        is_place_of(app.after_event(id, EventView::Resized).windows, id, at),
        !app.after_event(id, EventView::Resized).windows[at].is_ready(w, h),
        forall|i: int|
            0 <= i < app.windows.len() && i != at ==> app.after_event(
                id,
                EventView::Resized,
            ).windows[i] == app.windows[i],
{
    assert(app.windows[at].id == id);
    assert forall|i: int| 0 <= i < app.windows.len() && i != at implies !is_place_of(
        app.windows,
        id,
        i,
    ) by {}
}

/// A window drawn twice at one size shows the same, and the state does not change
/// again.
pub proof fn drawing_again_changes_nothing(
    app: AppView,
    first: AppView,
    second: AppView,
    at: int,
    w: u32,
    h: u32,
    pixels: Seq<u32>,
    pixels_again: Seq<u32>,
)
    requires
        0 <= at < app.windows.len(),
        app.painted_to(first, at, w, h, pixels),
        first.painted_to(second, at, w, h, pixels_again),
    ensures
        pixels_again == pixels,
        second == first,
{
    assert(second.windows =~= first.windows);
}

/// What contracts say of a lock screen, a key and an event is said of what they hold.
pub proof fn views_are_faithful(app: App, key: KeyPress, event: Event)
    ensures
        app@.code == app.code@,
        app@.image == app.image,
        app@.windows == app.windows@,
        app@.typed == app.typed@,
        app@.control == app.control,
        app@.pending_suspend == app.pending_suspend,
        key@.pressed == key.pressed,
        key.character matches Some(c) ==> key@.character == Some(c@),
        key.character is None ==> key@.character is None,
        key.text matches Some(text) ==> key@.text == Some(text@),
        key.text is None ==> key@.text is None,
        event is CloseRequested <==> event@ is CloseRequested,
        event matches Event::ModifiersChanged(control) ==> event@ == EventView::ModifiersChanged(
            control,
        ),
        event matches Event::KeyboardInput(press) ==> event@ == EventView::KeyboardInput(press@),
        event is Resized <==> event@ is Resized,
        event is RedrawRequested <==> event@ is RedrawRequested,
        event is Other <==> event@ is Other,
{
}

/// A key that comes up changes nothing and asks for nothing.
pub proof fn released_keys_do_nothing(app: AppView, id: u64, key: KeyView)
    requires
        !key.pressed,
    ensures
        app.after_key(key) == app,
        app.key_action(key) == Action::Nothing,
        app.after_event(id, EventView::KeyboardInput(key)) == app,
        app.event_action(id, EventView::KeyboardInput(key)) == Action::Nothing,
{
}

/// While the control key is held, a key that stands for no character, or for any string
/// but "z" and "Z", changes nothing and asks for nothing, whatever text it enters.
pub proof fn control_keys_but_z_do_nothing(app: AppView, id: u64, key: KeyView)
    requires
        app.control,
        key.character != Some("z"@),
        key.character != Some("Z"@),
    ensures
        app.after_key(key) == app,
        app.key_action(key) == Action::Nothing,
        app.after_event(id, EventView::KeyboardInput(key)) == app,
        app.event_action(id, EventView::KeyboardInput(key)) == Action::Nothing,
{
    reveal_strlit("z");
    reveal_strlit("Z");
    if let Some(c) = key.character {
        if c.len() == 1 && c[0] == 'z' {
            assert(c =~= "z"@);
        }
        if c.len() == 1 && c[0] == 'Z' {
            assert(c =~= "Z"@);
        }
    }
}

/// While the control key is held, a key that stands for "z" or for "Z" and goes down
/// takes every window down, forgets what was typed and that the control key is held,
/// and has the process stop; the code and the image stay.
pub proof fn control_z_takes_the_windows_down(app: AppView, id: u64, key: KeyView)
    requires
        app.control,
        key.pressed,
        key.character == Some("z"@) || key.character == Some("Z"@),
    ensures
        app.key_action(key) == Action::Suspend,
        app.event_action(id, EventView::KeyboardInput(key)) == Action::Suspend,
        app.after_event(id, EventView::KeyboardInput(key)) == app.after_key(key),
        app.suspended() == app.after_key(key),
        app.after_key(key).windows.len() == 0,
        app.after_key(key).typed.len() == 0,
        !app.after_key(key).control,
        app.after_key(key).pending_suspend,
        app.after_key(key).code == app.code,
        app.after_key(key).image == app.image,
{
    reveal_strlit("z");
    reveal_strlit("Z");
}

/// Suspending does the same whatever the state.
pub proof fn suspending_forgets_all_but_code_and_image(app: AppView)
    ensures
        app.suspended().windows.len() == 0,
        app.suspended().typed.len() == 0,
        !app.suspended().control,
        app.suspended().pending_suspend,
        app.suspended().code == app.code,
        app.suspended().image == app.image,
{
}

/// A key that enters no text, while the control key is not held, changes nothing and
/// asks for nothing.
pub proof fn keys_without_text_do_nothing(app: AppView, id: u64, key: KeyView)
    requires
        !app.control,
        key.text is None,
    ensures
        app.after_key(key) == app,
        app.key_action(key) == Action::Nothing,
        app.after_event(id, EventView::KeyboardInput(key)) == app,
        app.event_action(id, EventView::KeyboardInput(key)) == Action::Nothing,
{
}

/// Text that a key enters, while the control key is not held, is put behind what was
/// typed. The end of all that stays, as long as the code, or all of it where that is
/// shorter. The key unlocks exactly where that end is the code, and asks for nothing
/// otherwise; and nothing but what is remembered changes.
pub proof fn entered_text_is_remembered(app: AppView, id: u64, key: KeyView, text: Seq<char>)
    requires
        !app.control,
        key.pressed,
        key.text == Some(text),
    ensures
        ({
            let all = app.typed + printable(text);
            let after = app.after_key(key);
            &&& after.typed.len() == if all.len() < app.code.len() {
                all.len()
            } else {
                app.code.len()
            }
            &&& forall|i: int|
                0 <= i < after.typed.len() ==> #[trigger] after.typed[i] == all[all.len()
                    - after.typed.len() + i]
            &&& app.key_action(key) == Action::Exit <==> after.typed == app.code
            &&& app.key_action(key) == Action::Nothing <==> after.typed != app.code
            &&& after.code == app.code
            &&& after.image == app.image
            &&& after.windows == app.windows
            &&& after.control == app.control
            &&& after.pending_suspend == app.pending_suspend
            &&& app.after_event(id, EventView::KeyboardInput(key)) == after
            &&& app.event_action(id, EventView::KeyboardInput(key)) == app.key_action(key)
        }),
{
}

/// Of a text every character is kept, in turn, but for the control codes: those up to
/// 0x1f and those from 0x7f to 0x9f.
pub proof fn control_codes_are_left_out(a: Seq<char>, b: Seq<char>, c: char)
    ensures
        printable(Seq::empty()) == Seq::<char>::empty(),
        printable(a + b) == printable(a) + printable(b),
        c as u32 <= 0x1f || 0x7f <= c as u32 <= 0x9f ==> printable(seq![c]) == Seq::<char>::empty(),
        0x20 <= c as u32 <= 0x7e || c as u32 >= 0xa0 ==> printable(seq![c]) == seq![c],
{
    let pred = |c: char| !is_control_code(c);
    Seq::filter_distributes_over_add(a, b, pred);
    let one = seq![c];
    assert(one.drop_last() =~= Seq::empty());
    reveal(Seq::filter);
}

/// The last `n` characters of a string that has so many end it; a shorter one stands as
/// it is.
pub proof fn recent_is_the_end(s: Seq<char>, n: nat)
    ensures
        s.len() <= n ==> recent(s, n) == s,
        s.len() > n ==> recent(s, n).len() == n && forall|i: int|
            0 <= i < n ==> #[trigger] recent(s, n)[i] == s[s.len() - n + i],
{
}

/// A redraw request asks for exactly that window to be drawn, and changes nothing.
pub proof fn redraw_requests_are_met(app: AppView, id: u64)
    ensures
        app.event_action(id, EventView::RedrawRequested) == Action::Draw(id),
        app.after_event(id, EventView::RedrawRequested) == app,
{
}

/// No event but a redraw request has a window drawn.
pub proof fn only_redraw_requests_draw(app: AppView, id: u64, event: EventView)
    ensures
        app.event_action(id, event) is Draw <==> event is RedrawRequested,
{
}

/// An event that is of no account changes nothing and asks for nothing.
pub proof fn other_events_do_nothing(app: AppView, id: u64)
    ensures
        app.after_event(id, EventView::Other) == app,
        app.event_action(id, EventView::Other) == Action::Nothing,
{
}

/// When the modifier keys change, it is noted whether the control key is held; nothing
/// else changes, and nothing is asked for.
pub proof fn modifiers_settle_control_alone(app: AppView, id: u64, control: bool)
    ensures
        ({
            let after = app.after_event(id, EventView::ModifiersChanged(control));
            &&& after.control == control
            &&& after.code == app.code
            &&& after.image == app.image
            &&& after.windows == app.windows
            &&& after.typed == app.typed
            &&& after.pending_suspend == app.pending_suspend
        }),
        app.event_action(id, EventView::ModifiersChanged(control)) == Action::Nothing,
{
}

/// The first window of a number that changed its size, and no other, loses its
/// background, and is asked to be drawn again; nothing else changes.
pub proof fn resized_windows_are_scaled_anew(app: AppView, id: u64, at: int)
    requires
        0 <= at < app.windows.len(),
        app.windows[at].id == id,
        forall|i: int| 0 <= i < at ==> app.windows[i].id != id,
    ensures
        app.event_action(id, EventView::Resized) == Action::Redraw(id),
        ({
            let after = app.after_event(id, EventView::Resized);
            &&& after.windows.len() == app.windows.len()
            &&& after.windows[at].id == id
            &&& after.windows[at].scaled_bg is None
            &&& forall|i: int|
                0 <= i < app.windows.len() && i != at ==> after.windows[i] == app.windows[i]
            &&& after.code == app.code
            &&& after.image == app.image
            &&& after.typed == app.typed
            &&& after.control == app.control
            &&& after.pending_suspend == app.pending_suspend
        }),
{
    resizing_drops_the_background(app, id, at, 0, 0);
    assert(is_place_of(app.windows, id, at));
}

/// A window that is not open cannot change its size.
pub proof fn unknown_windows_are_not_resized(app: AppView, id: u64)
    requires
        forall|i: int| 0 <= i < app.windows.len() ==> app.windows[i].id != id,
    ensures
        app.event_action(id, EventView::Resized) == Action::Nothing,
        app.after_event(id, EventView::Resized) == app,
{
    assert(app.after_event(id, EventView::Resized).windows =~= app.windows);
}

/// Of the windows that were to be opened, those that could be are known by their
/// numbers, in turn.
pub proof fn opened_windows_keep_their_order(a: Seq<Option<u64>>, b: Seq<Option<u64>>, id: u64)
    ensures
        opened(Seq::empty()) == Seq::<u64>::empty(),
        opened(seq![Some(id)]) == seq![id],
        opened(seq![None]) == Seq::<u64>::empty(),
        opened(a + b) == opened(a) + opened(b),
    decreases b.len(),
{
    reveal_with_fuel(opened, 2);
    let (some, none) = (seq![Some(id)], seq![None::<u64>]);
    assert(some.drop_last() =~= Seq::empty());
    assert(none.drop_last() =~= Seq::empty());
    assert(opened(some) =~= seq![id]);
    if b.len() == 0 {
        assert(a + b =~= a);
        assert(opened(a) + opened(b) =~= opened(a));
    } else {
        opened_windows_keep_their_order(a, b.drop_last(), id);
        assert((a + b).drop_last() =~= a + b.drop_last());
        assert((a + b).last() == b.last());
        assert(opened(a + b) =~= opened(a) + opened(b));
    }
}

/// Windows that are opened come behind those that are open, which stay as they were;
/// they have no background yet, and nothing else changes.
pub proof fn opened_windows_come_last(app: AppView, ids: Seq<u64>)
    ensures
        ({
            let after = app.with_windows(ids);
            let n = app.windows.len();
            &&& after.windows.len() == n + ids.len()
            &&& forall|i: int| 0 <= i < n ==> after.windows[i] == app.windows[i]
            &&& forall|i: int|
                0 <= i < ids.len() ==> #[trigger] after.windows[n + i].id == ids[i]
                    && after.windows[n + i].scaled_bg is None
            &&& after.code == app.code
            &&& after.image == app.image
            &&& after.typed == app.typed
            &&& after.control == app.control
            &&& after.pending_suspend == app.pending_suspend
        }),
{
}

/// A new lock screen has the code and the image it was given, no windows and nothing
/// typed; no key is held, and the process is not about to stop.
pub proof fn new_screens_are_blank(code: Seq<char>, image: Option<Picture>)
    ensures
        AppView::locked(code, image).code == code,
        AppView::locked(code, image).image == image,
        AppView::locked(code, image).windows.len() == 0,
        AppView::locked(code, image).typed.len() == 0,
        !AppView::locked(code, image).control,
        !AppView::locked(code, image).pending_suspend,
{
}

/// Windows are opened when there are none, unless the process is about to stop.
pub proof fn windows_open_where_there_are_none(app: AppView)
    ensures
        app.opens() <==> app.windows.len() == 0 && !app.pending_suspend,
{
}

/// The timer, and nothing else that wakes the event loop, has the process stop at last;
/// nothing else changes.
pub proof fn waking_settles_the_stop_alone(app: AppView, timer: bool)
    ensures
        ({
            let after = app.after_wake(timer);
            &&& timer ==> !after.pending_suspend
            &&& !timer ==> after.pending_suspend == app.pending_suspend
            &&& after.code == app.code
            &&& after.image == app.image
            &&& after.windows == app.windows
            &&& after.typed == app.typed
            &&& after.control == app.control
        }),
{
}

/// The windows that are asked to be drawn again are all that are open, in turn.
pub proof fn all_windows_are_named(windows: Seq<WindowState>)
    ensures
        ids_of(windows).len() == windows.len(),
        forall|i: int| 0 <= i < windows.len() ==> #[trigger] ids_of(windows)[i] == windows[i].id,
{
}

/// How long the event loop sleeps: 80 milliseconds where the process is about to stop;
/// otherwise up to the next second, but 20 milliseconds at the least, where windows show
/// the clock; and else without end.
pub proof fn sleep_ends_when_there_is_something_to_do(app: AppView, subsec: u32)
    ensures
        app.pending_suspend ==> app.sleep(subsec) == Wait::Millis(80),
        !app.pending_suspend && (app.image is Some || app.windows.len() == 0) ==> app.sleep(subsec)
            == Wait::Forever,
        !app.pending_suspend && app.image is None && app.windows.len() > 0 ==> {
            &&& app.sleep(subsec) matches Wait::Millis(ms)
            &&& subsec <= 980 ==> ms + subsec == 1000
            &&& subsec > 980 ==> ms == 20
        },
{
}

/// A background is at hand for the size that it was scaled to, and for no other.
pub proof fn backgrounds_serve_one_size(window: WindowState, w: u32, h: u32)
    ensures
        window.scaled_bg is None ==> !window.is_ready(w, h),
        window.scaled_bg matches Some(bg) ==> (window.is_ready(w, h) <==> bg.width == w && bg.height
            == h),
{
}

/// A screen without an image, one whose image can be scaled to this size, and a window
/// whose background is at hand can be drawn.
pub proof fn drawing_asks_for_no_more_than_scaling(app: AppView, id: u64, w: u32, h: u32)
    requires
        app.image is None || can_cover(&app.image->0, w, h) || forall|i: int|
            0 <= i < app.windows.len() && (#[trigger] app.windows[i]).id == id
                ==> app.windows[i].is_ready(w, h),
    ensures
        app.can_scale(id, w, h),
{
}

/// What is painted of an image is the image, scaled to cover the window: the `w` by `h`
/// pixels in the middle of the resized picture, row by row. The window keeps them, and
/// its number; no other window changes, nor anything else.
pub proof fn painted_windows_show_the_image(
    app: AppView,
    after: AppView,
    i: int,
    w: u32,
    h: u32,
    pixels: Seq<u32>,
    x: int,
    y: int,
)
    requires
        0 <= i < app.windows.len(),
        app.image is Some,
        app.painted_to(after, i, w, h, pixels),
        0 <= x < w,
        0 <= y < h,
    ensures
        ({
            let picture = app.image->0;
            let (nw, nh) = full_size(&picture, w, h);
            let data = resized(picture.data@, picture.width, picture.height, nw, nh);
            let k = 3 * (((nh - h) / 2 + y) * nw + (nw - w) / 2 + x);
            &&& pixels.len() == w * h
            &&& pixels[y * w + x] == data[k] * 0x1_0000 + data[k + 1] * 0x100 + data[k + 2]
        }),
        after.windows.len() == app.windows.len(),
        after.windows[i].id == app.windows[i].id,
        after.windows[i].scaled_bg matches Some(bg) && bg.width == w && bg.height == h
            && bg.pixels@ == pixels,
        forall|j: int| 0 <= j < app.windows.len() && j != i ==> after.windows[j] == app.windows[j],
        after.code == app.code,
        after.image == app.image,
        after.typed == app.typed,
        after.control == app.control,
        after.pending_suspend == app.pending_suspend,
{
    background_is_the_middle(pixels, &app.image->0, w, h, x, y);
}

/// A window is meant by its number, and of several with one number the first is.
pub proof fn first_window_of_a_number_is_meant(windows: Seq<WindowState>, id: u64, at: int)
    requires
        0 <= at < windows.len(),
    ensures
        is_place_of(windows, id, at) <==> windows[at].id == id && forall|i: int|
            0 <= i < at ==> windows[i].id != id,
        is_place_of(windows, id, at) ==> has_window(windows, id),
        windows[at].id == id ==> has_window(windows, id),
        (forall|i: int| 0 <= i < windows.len() ==> windows[i].id != id) ==> !has_window(
            windows,
            id,
        ),
{
}

/// Where windows show the clock, the event loop sleeps up to the next second by what the
/// clock of the system showed when it was read, but 20 milliseconds at the least.
pub proof fn sleep_goes_by_the_clock(app: App, wait: Wait)
    requires
        call_ensures(App::about_to_wait, (&app,), wait),
        !app.pending_suspend,
        app.image is None,
        app.windows@.len() > 0,
    ensures
        exists|moment: Moment, subsec: u32| #[trigger]
            clock_showed(moment, subsec) && wait == Wait::Millis(
                if subsec > 980 {
                    20
                } else {
                    (1000 - subsec) as u64
                },
            ),
{
    let (moment, subsec) = choose|moment: Moment, subsec: u32| #[trigger]
        clock_showed(moment, subsec) && subsec < 2000 && wait == app@.sleep(subsec);
    assert(clock_showed(moment, subsec));
}

} // verus!

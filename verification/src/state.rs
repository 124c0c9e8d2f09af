//! The shared runtime state and the decisions the three loops take on it:
//! what the input listener does with a key press, what the emitter performs
//! and how it paces itself, and the rolling click-rate window.
//!
//! The state itself is pure; the callers own the locking, the clock, and
//! the calls that synthesize input or play sound.
use vstd::prelude::*;
use crate::config::{Config, ConfigV, default_hotkey};
use crate::keys::{key_bytes, key_from_bytes, key_of_bytes, key_to_bytes, Key};

verus! {

#[derive(Clone, Copy, PartialEq, Eq, Structural, Debug)]
pub enum MouseButton {
    Left,
    Middle,
    Right,
}

/// The rolling window of the click-rate display, in microseconds.
pub const CLICK_WINDOW_MICROS: u64 = 1_000_000;

/// What one emitter iteration is to do.
pub enum Pace {
    /// Not running: wait a short idle interval and check again.
    IdleWait,
    /// Running at full speed: yield briefly and loop at once.
    Spin,
    /// Running at a fixed rate: sleep this many microseconds.
    SleepMicros(u64),
}

pub struct EmitterStep {
    /// The buttons to press and release, in order.
    pub buttons: Vec<MouseButton>,
    /// Whether to fire the click sound.
    pub play_sound: bool,
    pub pace: Pace,
}

pub struct RuntimeState {
    pub running: bool,
    pub rebinding: bool,
    pub hotkey: Key,
    pub fast_mode: bool,
    pub target_cps_milli: u64,
    pub left_click: bool,
    pub middle_click: bool,
    pub right_click: bool,
    pub selected_buttons: Vec<MouseButton>,
    pub play_sound: bool,
    /// Timestamps of observed primary-button presses, in microseconds.
    pub click_times: Vec<u64>,
}

/// The buttons selected by the three checkboxes, in their fixed order.
pub open spec fn buttons_of(l: bool, m: bool, r: bool) -> Seq<MouseButton> {
    (if l {
        seq![MouseButton::Left]
    } else {
        Seq::empty()
    }) + (if m {
        seq![MouseButton::Middle]
    } else {
        Seq::empty()
    }) + (if r {
        seq![MouseButton::Right]
    } else {
        Seq::empty()
    })
}

fn build_buttons(l: bool, m: bool, r: bool) -> (v: Vec<MouseButton>)
    ensures
        v@ == buttons_of(l, m, r),
{
    let mut v: Vec<MouseButton> = Vec::new();
    if l {
        v.push(MouseButton::Left);
    }
    if m {
        v.push(MouseButton::Middle);
    }
    if r {
        v.push(MouseButton::Right);
    }
    proof {
        assert(v@ =~= buttons_of(l, m, r));
    }
    v
}

/// The hotkey a settings value denotes, the insert key when it denotes none.
pub open spec fn hotkey_of_config(name: Seq<u8>) -> Key {
    match key_of_bytes(name) {
        Some(k) => k,
        None => Key::Insert,
    }
}

/// A key press taken by the listener: capture the key as the new hotkey
/// while rebinding, otherwise toggle on a hotkey match.
pub open spec fn spec_on_key_press(s: RuntimeState, key: Key) -> RuntimeState {
    if s.rebinding {
        RuntimeState { hotkey: key, rebinding: false, ..s }
    } else if key == s.hotkey {
        RuntimeState { running: !s.running, ..s }
    } else {
        s
    }
}

pub open spec fn spec_toggle(s: RuntimeState) -> RuntimeState {
    RuntimeState { running: !s.running, ..s }
}

/// A click timestamp lies in the rolling window that ends at `now`.
pub open spec fn in_window(now: u64, t: u64) -> bool {
    now - t <= CLICK_WINDOW_MICROS
}

impl RuntimeState {
    /// The button list mirrors the three checkboxes, and a fixed target
    /// rate is positive.
    pub open spec fn wf(self) -> bool {
        self.selected_buttons@ == buttons_of(self.left_click, self.middle_click, self.right_click)
            && self.target_cps_milli >= 1
    }

    /// Fresh state from loaded settings: idle, not rebinding, no clicks
    /// recorded; a hotkey name that denotes no key falls back to the
    /// insert key; a zero target rate falls back to the default rate.
    pub fn from_config(c: &Config) -> (s: RuntimeState)
        ensures
            s.wf(),
            s.running == false,
            s.rebinding == false,
            s.hotkey == hotkey_of_config(c@.hotkey),
            s.fast_mode == c@.fast_mode,
            c@.target_cps_milli >= 1 ==> s.target_cps_milli == c@.target_cps_milli,
            c@.target_cps_milli == 0 ==> s.target_cps_milli == 10_000,
            s.left_click == c@.left_click,
            s.middle_click == c@.middle_click,
            s.right_click == c@.right_click,
            s.play_sound == c@.play_sound,
            s.click_times@ == Seq::<u64>::empty(),
    {
        let hotkey = match key_from_bytes(c.hotkey.as_slice()) {
            Some(k) => k,
            None => Key::Insert,
        };
        let milli = if c.target_cps_milli == 0 {
            10_000
        } else {
            c.target_cps_milli
        };
        RuntimeState {
            running: false,
            rebinding: false,
            hotkey,
            fast_mode: c.fast_mode,
            target_cps_milli: milli,
            left_click: c.left_click,
            middle_click: c.middle_click,
            right_click: c.right_click,
            selected_buttons: build_buttons(c.left_click, c.middle_click, c.right_click),
            play_sound: c.play_sound,
            click_times: Vec::new(),
        }
    }

    /// Snapshot of the persisted settings this state stands for.
    pub fn to_config(&self) -> (c: Config)
        ensures
            c@ == (ConfigV {
                hotkey: key_bytes(self.hotkey),
                fast_mode: self.fast_mode,
                target_cps_milli: self.target_cps_milli,
                left_click: self.left_click,
                middle_click: self.middle_click,
                right_click: self.right_click,
                play_sound: self.play_sound,
            }),
    {
        let c = Config {
            hotkey: key_to_bytes(&self.hotkey),
            fast_mode: self.fast_mode,
            target_cps_milli: self.target_cps_milli,
            left_click: self.left_click,
            middle_click: self.middle_click,
            right_click: self.right_click,
            play_sound: self.play_sound,
        };
        proof {
            assert(c@ =~= (ConfigV {
                hotkey: key_bytes(self.hotkey),
                fast_mode: self.fast_mode,
                target_cps_milli: self.target_cps_milli,
                left_click: self.left_click,
                middle_click: self.middle_click,
                right_click: self.right_click,
                play_sound: self.play_sound,
            }));
        }
        c
    }

    /// The listener's key-press step.
    pub fn on_key_press(&mut self, key: Key)
        ensures
            *final(self) == spec_on_key_press(*old(self), key),
    {
        if self.rebinding {
            self.hotkey = key;
            self.rebinding = false;
        } else if key == self.hotkey {
            self.running = !self.running;
        }
    }

    /// The toggle the settings surface flips directly.
    pub fn toggle_running(&mut self)
        ensures
            *final(self) == spec_toggle(*old(self)),
    {
        self.running = !self.running;
    }

    /// Arms rebinding: the next key press becomes the hotkey.
    pub fn begin_rebind(&mut self)
        ensures
            *final(self) == (RuntimeState { rebinding: true, ..*old(self) }),
    {
        self.rebinding = true;
    }

    /// The listener's primary-button-press step: record the instant for the
    /// rate display.
    pub fn record_click(&mut self, now_micros: u64)
        ensures
            *final(self) == (RuntimeState {
                click_times: final(self).click_times,
                ..*old(self)
            }),
            final(self).click_times@ == old(self).click_times@.push(now_micros),
    {
        self.click_times.push(now_micros);
    }

    /// Drops every recorded click older than the rolling window.
    pub fn prune_clicks(&mut self, now_micros: u64)
        ensures
            *final(self) == (RuntimeState {
                click_times: final(self).click_times,
                ..*old(self)
            }),
            final(self).click_times@ == old(self).click_times@.filter(
                |t: u64| in_window(now_micros, t),
            ),
    {
        let mut kept: Vec<u64> = Vec::new();
        let mut i: usize = 0;
        let n = self.click_times.len();
        while i < n
            invariant
                0 <= i <= n == self.click_times@.len(),
                kept@ == self.click_times@.take(i as int).filter(
                    |t: u64| in_window(now_micros, t),
                ),
            decreases n - i,
        {
            let t = self.click_times[i];
            proof {
                reveal(Seq::filter);
                let pred = |t: u64| in_window(now_micros, t);
                let taken = self.click_times@.take(i + 1);
                assert(taken.drop_last() =~= self.click_times@.take(i as int));
                assert(taken.last() == t);
            }
            if t >= now_micros || now_micros - t <= CLICK_WINDOW_MICROS {
                kept.push(t);
            }
            i = i + 1;
        }
        proof {
            assert(self.click_times@.take(i as int) =~= self.click_times@);
        }
        self.click_times = kept;
    }

    /// How many recorded clicks lie in the window: the displayed rate.
    pub fn click_count(&self) -> (n: usize)
        ensures
            n == self.click_times@.len(),
    {
        self.click_times.len()
    }

    /// Decides well-formedness at run time, for callers outside the
    /// verified world.
    pub fn check_wf(&self) -> (r: bool)
        ensures
            r == self.wf(),
    {
        if self.target_cps_milli < 1 {
            return false;
        }
        let expect = build_buttons(self.left_click, self.middle_click, self.right_click);
        if self.selected_buttons.len() != expect.len() {
            return false;
        }
        let mut i: usize = 0;
        while i < expect.len()
            invariant
                0 <= i <= expect@.len(),
                expect@.len() == self.selected_buttons@.len(),
                expect@ == buttons_of(self.left_click, self.middle_click, self.right_click),
                forall|j: int| 0 <= j < i ==> self.selected_buttons@[j] == expect@[j],
            decreases expect@.len() - i,
        {
            if !(self.selected_buttons[i] == expect[i]) {
                return false;
            }
            i = i + 1;
        }
        proof {
            assert(self.selected_buttons@ =~= expect@);
        }
        true
    }

    /// What one emitter iteration does in this state.  While running, an
    /// empty selection falls back to exactly one primary click; pacing is a
    /// brief yield at full speed, or the fixed inter-click interval.
    pub fn emitter_step(&self) -> (step: EmitterStep)
        requires
            self.wf(),
        ensures
            !self.running ==> step.buttons@ == Seq::<MouseButton>::empty() && !step.play_sound
                && step.pace is IdleWait,
            self.running ==> step.play_sound == self.play_sound,
            self.running && self.selected_buttons@.len() == 0 ==> step.buttons@ == seq![
                MouseButton::Left,
            ],
            self.running && self.selected_buttons@.len() > 0 ==> step.buttons@
                == self.selected_buttons@,
            self.running && self.fast_mode ==> step.pace is Spin,
            self.running && !self.fast_mode ==> step.pace == Pace::SleepMicros(
                click_interval_micros_spec(self.target_cps_milli as int) as u64,
            ),
    {
        if !self.running {
            return EmitterStep { buttons: Vec::new(), play_sound: false, pace: Pace::IdleWait };
        }
        let buttons = if self.selected_buttons.len() == 0 {
            let mut v: Vec<MouseButton> = Vec::new();
            v.push(MouseButton::Left);
            proof {
                assert(v@ =~= seq![MouseButton::Left]);
            }
            v
        } else {
            let mut v: Vec<MouseButton> = Vec::new();
            let mut i: usize = 0;
            while i < self.selected_buttons.len()
                invariant
                    0 <= i <= self.selected_buttons@.len(),
                    v@ == self.selected_buttons@.take(i as int),
                decreases self.selected_buttons@.len() - i,
            {
                v.push(self.selected_buttons[i]);
                proof {
                    assert(v@ =~= self.selected_buttons@.take(i + 1));
                }
                i = i + 1;
            }
            proof {
                assert(v@ =~= self.selected_buttons@);
            }
            v
        };
        let pace = if self.fast_mode {
            Pace::Spin
        } else {
            Pace::SleepMicros(click_interval_micros(self.target_cps_milli))
        };
        EmitterStep { buttons, play_sound: self.play_sound, pace }
    }

    /// Replaces the button selection from the three checkboxes.
    pub fn set_buttons(&mut self, l: bool, m: bool, r: bool)
        ensures
            *final(self) == (RuntimeState {
                left_click: l,
                middle_click: m,
                right_click: r,
                selected_buttons: final(self).selected_buttons,
                ..*old(self)
            }),
            final(self).selected_buttons@ == buttons_of(l, m, r),
            old(self).wf() ==> final(self).wf(),
    {
        self.left_click = l;
        self.middle_click = m;
        self.right_click = r;
        self.selected_buttons = build_buttons(l, m, r);
    }

    pub fn set_fast_mode(&mut self, fast: bool)
        ensures
            *final(self) == (RuntimeState { fast_mode: fast, ..*old(self) }),
    {
        self.fast_mode = fast;
    }

    /// Sets the fixed target rate, in thousandths of clicks per second.
    pub fn set_target_cps_milli(&mut self, milli: u64)
        requires
            milli >= 1,
        ensures
            *final(self) == (RuntimeState { target_cps_milli: milli, ..*old(self) }),
    {
        self.target_cps_milli = milli;
    }

    pub fn set_play_sound(&mut self, on: bool)
        ensures
            *final(self) == (RuntimeState { play_sound: on, ..*old(self) }),
    {
        self.play_sound = on;
    }
}

impl Default for RuntimeState {
    /// The state the documented default settings load to.
    fn default() -> (s: RuntimeState)
        ensures
            s.wf(),
            s.running == false,
            s.rebinding == false,
            s.hotkey == Key::Insert,
            s.fast_mode == true,
            s.target_cps_milli == 10_000,
            s.left_click == true,
            s.middle_click == false,
            s.right_click == false,
            s.play_sound == false,
            s.click_times@ == Seq::<u64>::empty(),
    {
        let c = Config::default();
        let s = RuntimeState::from_config(&c);
        proof {
            crate::keys::lemma_key_name_round_trip(Key::Insert);
            assert(key_bytes(Key::Insert) =~= default_hotkey());
        }
        s
    }
}

/// The inter-click interval of a fixed rate, in microseconds: one second,
/// divided by the rate in thousandths and scaled back.
pub open spec fn click_interval_micros_spec(milli: int) -> int {
    1_000_000_000int / milli
}

/// The sleep the emitter takes between iterations at a fixed rate.
pub fn click_interval_micros(milli: u64) -> (r: u64)
    requires
        milli >= 1,
    ensures
        r == click_interval_micros_spec(milli as int),
{
    1_000_000_000 / milli
}

/// Toggling twice returns the system to its original state.
pub proof fn lemma_toggle_twice(s: RuntimeState)
    ensures
        spec_toggle(spec_toggle(s)) == s,
{
}

/// Pressing key `k` while rebinding makes `k` the hotkey, disarms
/// rebinding, and leaves running untouched; a subsequent press of `k`
/// toggles running, whatever the hotkey was before.
pub proof fn lemma_rebind_then_toggle(s: RuntimeState, k: Key)
    requires
        s.rebinding,
    ensures
        spec_on_key_press(s, k).hotkey == k,
        !spec_on_key_press(s, k).rebinding,
        spec_on_key_press(s, k).running == s.running,
        spec_on_key_press(spec_on_key_press(s, k), k).running == !s.running,
{
}

/// A key press never changes anything while the pressed key is neither
/// captured nor the hotkey.
pub proof fn lemma_other_key_ignored(s: RuntimeState, k: Key)
    requires
        !s.rebinding,
        k != s.hotkey,
    ensures
        spec_on_key_press(s, k) == s,
{
}

} // verus!

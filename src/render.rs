//! The worker's side: what each received payload makes the display do, and
//! which sprite frame the animation task draws next.
//!
//! Two producers drive the one display: the receiver, which handles each
//! incoming payload, and the animation task. The receiver states its intent
//! (an animation, or `Off` while a message or timer is shown); the animation
//! task reads that intent before every frame.
use vstd::prelude::*;
use crate::command::elapsed_ms;
use crate::text::{decimal, decimal_string, same_text};
use crate::wire::{spec_parse, Directive, DirectiveView};

verus! {

/// What the animation task is asked to play.
#[derive(Clone, Copy, Debug, PartialEq, Eq, Structural)]
pub enum Animation {
    Off,
    CartoonEyes,
    Heart,
    Unicorn,
}

pub open spec fn cartoon_eyes_word() -> Seq<char> {
    seq!['C', 'a', 'r', 't', 'o', 'o', 'n', 'E', 'y', 'e', 's']
}

pub open spec fn heart_word() -> Seq<char> {
    seq!['H', 'e', 'a', 'r', 't']
}

pub open spec fn unicorn_word() -> Seq<char> {
    seq!['U', 'n', 'i', 'c', 'o', 'r', 'n']
}

/// The animation that `name` names, if any.
pub open spec fn animation_named(name: Seq<char>) -> Option<Animation> {
    if name == cartoon_eyes_word() {
        Some(Animation::CartoonEyes)
    } else if name == unicorn_word() {
        Some(Animation::Unicorn)
    } else if name == heart_word() {
        Some(Animation::Heart)
    } else {
        None
    }
}

/// The layout of a sprite sheet: `frame_count` frames of `width` x `height`
/// pixels in a grid of `cols` columns and `rows` rows, row by row.
#[derive(Clone, Copy, Debug, PartialEq, Eq)]
pub struct SpriteSheet {
    pub width: usize,
    pub height: usize,
    pub cols: usize,
    pub rows: usize,
    pub frame_count: usize,
}

/// Whether the layout is usable: the grid holds every frame, and pixel
/// coordinates fit in an `i32`.
pub open spec fn sheet_wf(width: int, height: int, cols: int, rows: int, frame_count: int) -> bool {
    &&& frame_count <= rows * cols
    &&& cols * width <= i32::MAX
    &&& rows * height <= i32::MAX
}

/// The sheet layout of each animation.
pub open spec fn spec_sheet(a: Animation) -> Option<SpriteSheet> {
    match a {
        Animation::Off => None,
        Animation::CartoonEyes => Some(
            SpriteSheet { width: 128, height: 64, cols: 10, rows: 4, frame_count: 40 },
        ),
        Animation::Heart => Some(
            SpriteSheet { width: 128, height: 64, cols: 4, rows: 7, frame_count: 28 },
        ),
        Animation::Unicorn => Some(
            SpriteSheet { width: 128, height: 64, cols: 4, rows: 7, frame_count: 28 },
        ),
    }
}

proof fn lemma_product_fits(a: int, b: int)
    requires
        0 <= a <= usize::MAX,
        0 <= b <= usize::MAX,
    ensures
        a * b <= u128::MAX,
{
    let m: int = 0xffff_ffff_ffff_ffff;
    assert(a * b <= m * m) by (nonlinear_arith)
        requires
            0 <= a <= m,
            0 <= b <= m,
    ;
}

impl SpriteSheet {
    pub open spec fn wf(&self) -> bool {
        sheet_wf(
            self.width as int,
            self.height as int,
            self.cols as int,
            self.rows as int,
            self.frame_count as int,
        )
    }

    /// A sheet layout, or `None` when it is not usable.
    pub fn new(width: usize, height: usize, cols: usize, rows: usize, frame_count: usize) -> (r:
        Option<SpriteSheet>)
        ensures
            r is Some <==> sheet_wf(
                width as int,
                height as int,
                cols as int,
                rows as int,
                frame_count as int,
            ),
            r matches Some(s) ==> s == (SpriteSheet { width, height, cols, rows, frame_count }),
    {
        let limit: u128 = 0x7fff_ffff;
        proof {
            lemma_product_fits(rows as int, cols as int);
            lemma_product_fits(cols as int, width as int);
            lemma_product_fits(rows as int, height as int);
        }
        if frame_count as u128 > rows as u128 * cols as u128 || cols as u128 * width as u128 > limit
            || rows as u128 * height as u128 > limit {
            return None;
        }
        Some(SpriteSheet { width, height, cols, rows, frame_count })
    }

    /// The top-left pixel of frame `i`: column `i mod cols`, row `i div cols`.
    pub fn frame_origin(&self, i: usize) -> (r: (usize, usize))
        requires
            self.wf(),
            i < self.frame_count,
        ensures
            r.0 == (i % self.cols) * self.width,
            r.1 == (i / self.cols) * self.height,
            r.0 + self.width <= self.cols * self.width,
            r.1 + self.height <= self.rows * self.height,
    {
        proof {
            assert(0 < self.cols) by (nonlinear_arith)
                requires
                    0 <= i < self.rows * self.cols,
                    0 <= self.rows,
                    0 <= self.cols,
            ;
        }
        let c = i % self.cols;
        let row = i / self.cols;
        proof {
            let (w, h, cols, rows) = (
                self.width as int,
                self.height as int,
                self.cols as int,
                self.rows as int,
            );
            assert(c < cols);
            assert(c * w + w <= cols * w) by (nonlinear_arith)
                requires
                    0 <= c < cols,
                    0 <= w,
            ;
            assert(row < rows) by (nonlinear_arith)
                requires
                    row == i as int / cols,
                    0 <= i < rows * cols,
                    0 < cols,
            ;
            assert(row * h + h <= rows * h) by (nonlinear_arith)
                requires
                    0 <= row < rows,
                    0 <= h,
            ;
        }
        (c * self.width, row * self.height)
    }
}

proof fn lemma_sheets_wf(a: Animation)
    ensures
        spec_sheet(a) matches Some(s) ==> s.wf(),
{
    assert(sheet_wf(128, 64, 10, 4, 40)) by (nonlinear_arith);
    assert(sheet_wf(128, 64, 4, 7, 28)) by (nonlinear_arith);
}

impl Animation {
    /// The animation that `name` names, if any.
    pub fn from_name(name: &str) -> (r: Option<Animation>)
        ensures
            r == animation_named(name@),
    {
        proof {
            reveal_strlit("CartoonEyes");
            reveal_strlit("Unicorn");
            reveal_strlit("Heart");
        }
        assert("CartoonEyes"@ =~= cartoon_eyes_word());
        assert("Unicorn"@ =~= unicorn_word());
        assert("Heart"@ =~= heart_word());
        if same_text(name, "CartoonEyes") {
            Some(Animation::CartoonEyes)
        } else if same_text(name, "Unicorn") {
            Some(Animation::Unicorn)
        } else if same_text(name, "Heart") {
            Some(Animation::Heart)
        } else {
            None
        }
    }

    /// The sheet layout of this animation; none for `Off`.
    pub fn sheet(&self) -> (r: Option<SpriteSheet>)
        ensures
            r == spec_sheet(*self),
            r matches Some(s) ==> s.wf(),
    {
        proof {
            lemma_sheets_wf(*self);
        }
        match self {
            Animation::Off => None,
            Animation::CartoonEyes => Some(
                SpriteSheet { width: 128, height: 64, cols: 10, rows: 4, frame_count: 40 },
            ),
            Animation::Heart => Some(
                SpriteSheet { width: 128, height: 64, cols: 4, rows: 7, frame_count: 28 },
            ),
            Animation::Unicorn => Some(
                SpriteSheet { width: 128, height: 64, cols: 4, rows: 7, frame_count: 28 },
            ),
        }
    }
}

// ---------------------------------------------------------------------------
// The animation task

/// What the animation task does on one turn.
#[derive(Clone, Copy, Debug, PartialEq, Eq)]
pub enum FrameStep {
    /// Nothing to play: leave the display alone and wait.
    Idle,
    /// Clear the display and draw frame `frame` of `animation`'s sheet.
    Draw { animation: Animation, frame: usize },
}

/// The animation task's position: the animation it is playing and the
/// frame it draws next.
#[derive(Clone, Copy, Debug, PartialEq, Eq)]
pub struct Player {
    pub playing: Animation,
    pub next_frame: usize,
}

pub open spec fn frame_count_of(a: Animation) -> nat {
    match spec_sheet(a) {
        Some(s) => s.frame_count as nat,
        None => 0,
    }
}

/// The player and the step after a turn on which the intent reads `intent`:
/// `Off` idles; a new animation starts at its first frame; the same
/// animation goes on to its next frame, and starts over after its last.
pub open spec fn spec_step(p: Player, intent: Animation) -> (Player, FrameStep) {
    if intent == Animation::Off {
        (Player { playing: Animation::Off, next_frame: 0 }, FrameStep::Idle)
    } else {
        let f: nat = if intent == p.playing && p.next_frame < frame_count_of(intent) {
            p.next_frame as nat
        } else {
            0
        };
        (
            Player { playing: intent, next_frame: (f + 1) as usize },
            FrameStep::Draw { animation: intent, frame: f as usize },
        )
    }
}

impl Player {
    /// A player with nothing playing.
    pub fn new() -> (r: Player)
        ensures
            r == (Player { playing: Animation::Off, next_frame: 0 }),
    {
        Player { playing: Animation::Off, next_frame: 0 }
    }

    /// One turn of the animation task, given the intent read just before it.
    pub fn step(&mut self, intent: Animation) -> (r: FrameStep)
        ensures
            (*final(self), r) == spec_step(*old(self), intent),
            r matches FrameStep::Draw { animation, frame } ==> spec_sheet(animation) matches Some(
                s,
            ) && frame < s.frame_count,
    {
        match intent.sheet() {
            None => {
                self.playing = Animation::Off;
                self.next_frame = 0;
                FrameStep::Idle
            },
            Some(sheet) => {
                let f: usize = if intent == self.playing && self.next_frame < sheet.frame_count {
                    self.next_frame
                } else {
                    0
                };
                self.playing = intent;
                self.next_frame = f + 1;
                FrameStep::Draw { animation: intent, frame: f }
            },
        }
    }
}

// ---------------------------------------------------------------------------
// Timers

/// How a countdown is drawn: the two numbers, the filled sweep of the dial in
/// thousandths of a degree (clockwise from the top), and whether it is done.
#[derive(Clone, Copy, Debug, PartialEq, Eq)]
pub struct TimerFace {
    pub remaining: u64,
    pub total: u64,
    pub sweep_millidegrees: u64,
    pub done: bool,
}

/// `360 * remaining / total` degrees in thousandths, rounded down; a full
/// turn once `remaining` reaches `total`, and nothing when it is zero.
pub open spec fn spec_sweep(remaining: u64, total: u64) -> nat {
    if remaining == 0 {
        0
    } else if remaining >= total {
        360000
    } else {
        (360000 * remaining / (total as int)) as nat
    }
}

pub open spec fn spec_face(remaining: u64, total: u64) -> TimerFace {
    TimerFace {
        remaining,
        total,
        sweep_millidegrees: spec_sweep(remaining, total) as u64,
        done: remaining == 0,
    }
}

impl TimerFace {
    pub fn new(remaining: u64, total: u64) -> (r: TimerFace)
        ensures
            r == spec_face(remaining, total),
            r.sweep_millidegrees <= 360000,
    {
        let sweep: u64 = if remaining == 0 {
            0
        } else if remaining >= total {
            360000
        } else {
            let s: u128 = 360000u128 * remaining as u128 / total as u128;
            assert(s <= 360000) by (nonlinear_arith)
                requires
                    s == 360000 * remaining / (total as int),
                    remaining < total,
            ;
            s as u64
        };
        TimerFace { remaining, total, sweep_millidegrees: sweep, done: remaining == 0 }
    }

    /// The seconds left, in decimal.
    pub fn remaining_text(&self) -> (r: String)
        ensures
            r@ == decimal(self.remaining as nat),
    {
        decimal_string(self.remaining)
    }

    /// The countdown's length in seconds, in decimal.
    pub fn total_text(&self) -> (r: String)
        ensures
            r@ == decimal(self.total as nat),
    {
        decimal_string(self.total)
    }
}

// ---------------------------------------------------------------------------
// The receiver

/// What the display is to do for one received payload.
#[derive(Clone, Debug, PartialEq, Eq)]
pub enum RenderAction {
    /// Nothing: a ping, or the payload handled last time.
    Nothing,
    /// Stop any animation; show `text`.
    ShowMessage(String),
    /// Stop any animation; show the countdown.
    ShowTimer(TimerFace),
    /// Play the animation.
    Animate(Animation),
    /// A payload that is not a directive, or names no known animation.
    Discard,
}

pub enum ActionView {
    Nothing,
    ShowMessage(Seq<char>),
    ShowTimer(TimerFace),
    Animate(Animation),
    Discard,
}

impl View for RenderAction {
    type V = ActionView;

    open spec fn view(&self) -> ActionView {
        match self {
            RenderAction::Nothing => ActionView::Nothing,
            RenderAction::ShowMessage(m) => ActionView::ShowMessage(m@),
            RenderAction::ShowTimer(f) => ActionView::ShowTimer(*f),
            RenderAction::Animate(a) => ActionView::Animate(*a),
            RenderAction::Discard => ActionView::Discard,
        }
    }
}

/// What a fresh payload `p` makes the display do.
pub open spec fn spec_action(p: Seq<char>) -> ActionView {
    match spec_parse(p) {
        Some(DirectiveView::Ping) => ActionView::Nothing,
        Some(DirectiveView::Message(m)) => ActionView::ShowMessage(m),
        Some(DirectiveView::Timer { remaining, total }) => ActionView::ShowTimer(
            spec_face(remaining, total),
        ),
        Some(DirectiveView::Animate(n)) => match animation_named(n) {
            Some(a) => ActionView::Animate(a),
            None => ActionView::Discard,
        },
        None => ActionView::Discard,
    }
}

/// The payload remembered and the action, after `p` arrives when `last` was
/// the payload before it: a repeat does nothing; anything else is handled
/// and remembered.
pub open spec fn spec_receive(last: Seq<char>, p: Seq<char>) -> (Seq<char>, ActionView) {
    if p == last {
        (last, ActionView::Nothing)
    } else {
        (p, spec_action(p))
    }
}

/// The animation intent that an action sets, if it sets one.
pub open spec fn spec_intent(a: ActionView) -> Option<Animation> {
    match a {
        ActionView::ShowMessage(_) => Some(Animation::Off),
        ActionView::ShowTimer(_) => Some(Animation::Off),
        ActionView::Animate(x) => Some(x),
        _ => None,
    }
}

impl RenderAction {
    /// The animation intent to set before acting: `Off` for a message or a
    /// timer, the animation for an animation, none otherwise.
    pub fn intent(&self) -> (r: Option<Animation>)
        ensures
            r == spec_intent(self@),
    {
        match self {
            RenderAction::ShowMessage(_) => Some(Animation::Off),
            RenderAction::ShowTimer(_) => Some(Animation::Off),
            RenderAction::Animate(a) => Some(*a),
            _ => None,
        }
    }
}

/// The receiver's memory: the payload it handled last.
pub struct Receiver {
    last: String,
}

impl Receiver {
    /// The payload handled last.
    pub closed spec fn last_view(&self) -> Seq<char> {
        self.last@
    }

    /// A receiver that has handled nothing yet.
    pub fn new() -> (r: Receiver)
        ensures
            r.last_view() == Seq::<char>::empty(),
    {
        Receiver { last: String::new() }
    }

    /// The payload handled last.
    pub fn last(&self) -> (r: &str)
        ensures
            r@ == self.last_view(),
    {
        self.last.as_str()
    }

    /// Handles one received payload.
    pub fn receive(&mut self, payload: &str) -> (r: RenderAction)
        ensures
            (final(self).last_view(), r@) == spec_receive(old(self).last_view(), payload@),
    {
        if same_text(payload, self.last.as_str()) {
            return RenderAction::Nothing;
        }
        self.last = payload.to_owned();
        match Directive::parse(payload) {
            Some(Directive::Ping) => RenderAction::Nothing,
            Some(Directive::Message(m)) => RenderAction::ShowMessage(m),
            Some(Directive::Timer { remaining, total }) => RenderAction::ShowTimer(
                TimerFace::new(remaining, total),
            ),
            Some(Directive::Animate(n)) => match Animation::from_name(n.as_str()) {
                Some(a) => RenderAction::Animate(a),
                None => RenderAction::Discard,
            },
            None => RenderAction::Discard,
        }
    }
}

/// A payload received twice in a row is handled once: the second arrival
/// does nothing and leaves the receiver as the first left it.
pub proof fn lemma_repeat_is_ignored(last: Seq<char>, p: Seq<char>)
    ensures
        spec_receive(spec_receive(last, p).0, p) == (spec_receive(last, p).0, ActionView::Nothing),
{
}

// ---------------------------------------------------------------------------
// The directive listener

/// How long, in milliseconds, the directive listener may go without a
/// connection before the worker announces itself again.
pub const IDLE_WINDOW_MS: u64 = 5000;

/// What happened on one poll of the directive listener.
#[derive(Clone, Copy, Debug, PartialEq, Eq)]
pub enum ListenEvent {
    /// A connection was accepted and its payload read.
    Received,
    /// No connection was waiting.
    NothingWaiting,
    /// Accepting or reading failed.
    Failed,
}

/// What the worker does next.
#[derive(Clone, Copy, Debug, PartialEq, Eq)]
pub enum ListenAction {
    /// Hand the payload to the receiver, then poll again.
    Handle,
    /// Pause briefly, then poll again.
    Wait,
    /// Stop listening, announce the worker again, and listen anew.
    Reannounce,
}

/// When the directive listener last had a connection.
#[derive(Clone, Copy, Debug, PartialEq, Eq)]
pub struct IdleWatch {
    pub last_activity_ms: u64,
}

/// The watch and the action after `event` at `now_ms`: a payload resets the
/// idle window; an empty poll waits until the window has run out; a failure
/// announces again at once.
pub open spec fn spec_on_event(w: IdleWatch, event: ListenEvent, now_ms: u64) -> (IdleWatch, ListenAction) {
    match event {
        ListenEvent::Received => (IdleWatch { last_activity_ms: now_ms }, ListenAction::Handle),
        ListenEvent::NothingWaiting => (
            w,
            if elapsed_ms(w.last_activity_ms, now_ms) >= IDLE_WINDOW_MS {
                ListenAction::Reannounce
            } else {
                ListenAction::Wait
            },
        ),
        ListenEvent::Failed => (w, ListenAction::Reannounce),
    }
}

impl IdleWatch {
    /// A watch whose window starts at `now_ms`.
    pub fn new(now_ms: u64) -> (r: IdleWatch)
        ensures
            r.last_activity_ms == now_ms,
    {
        IdleWatch { last_activity_ms: now_ms }
    }

    /// Takes one poll's outcome at `now_ms` and says what to do next.
    pub fn on_event(&mut self, event: ListenEvent, now_ms: u64) -> (r: ListenAction)
        ensures
            (*final(self), r) == spec_on_event(*old(self), event, now_ms),
    {
        match event {
            ListenEvent::Received => {
                self.last_activity_ms = now_ms;
                ListenAction::Handle
            },
            ListenEvent::NothingWaiting => {
                let elapsed: u64 = if now_ms >= self.last_activity_ms {
                    now_ms - self.last_activity_ms
                } else {
                    0
                };
                if elapsed >= IDLE_WINDOW_MS {
                    ListenAction::Reannounce
                } else {
                    ListenAction::Wait
                }
            },
            ListenEvent::Failed => ListenAction::Reannounce,
        }
    }
}

} // verus!

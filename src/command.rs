//! The directive that the coordinator keeps for each worker, and how it is
//! turned into what goes on the wire at a given moment.
//!
//! Time is a count of milliseconds on a monotonic clock that the caller reads.
use vstd::prelude::*;
use crate::text::{decimal, decimal_string};
use crate::wire::{Directive, DirectiveView};

verus! {

/// A liveness probe; carries nothing.
#[derive(Clone, Debug, PartialEq, Eq)]
pub struct MicroPing {}

/// Text to show.
#[derive(Clone, Debug, PartialEq, Eq)]
pub struct MicroMessage {
    pub message: String,
}

/// A countdown of `duration_secs` seconds that started at `start_ms`.
#[derive(Clone, Debug, PartialEq, Eq)]
pub struct MicroTimer {
    pub start_ms: u64,
    pub duration_secs: u64,
}

/// The name of a looping animation.
#[derive(Clone, Debug, PartialEq, Eq)]
pub struct MicroAnimation {
    pub animation: String,
}

/// A worker's current directive.
#[derive(Clone, Debug, PartialEq, Eq)]
pub enum MicroCommand {
    Ping(MicroPing),
    Message(MicroMessage),
    Timer(MicroTimer),
    Animation(MicroAnimation),
}

/// The mathematical value of a [`MicroCommand`].
pub enum CommandView {
    Ping,
    Message(Seq<char>),
    Timer { start_ms: u64, duration_secs: u64 },
    Animation(Seq<char>),
}

impl View for MicroCommand {
    type V = CommandView;

    open spec fn view(&self) -> CommandView {
        match self {
            MicroCommand::Ping(_) => CommandView::Ping,
            MicroCommand::Message(m) => CommandView::Message(m.message@),
            MicroCommand::Timer(t) => CommandView::Timer {
                start_ms: t.start_ms,
                duration_secs: t.duration_secs,
            },
            MicroCommand::Animation(a) => CommandView::Animation(a.animation@),
        }
    }
}

pub open spec fn command_option_view(c: Option<MicroCommand>) -> Option<CommandView> {
    match c {
        Some(c) => Some(c@),
        None => None,
    }
}

/// Milliseconds from `start_ms` to `now_ms`; none when the clock reads earlier.
pub open spec fn elapsed_ms(start_ms: u64, now_ms: u64) -> nat {
    if now_ms >= start_ms {
        (now_ms - start_ms) as nat
    } else {
        0
    }
}

/// Whole seconds left of a countdown: `max(0, total - elapsed)`, rounded down.
pub open spec fn remaining_secs(start_ms: u64, duration_secs: u64, now_ms: u64) -> nat {
    let total_ms = duration_secs * 1000;
    let e = elapsed_ms(start_ms, now_ms);
    if e >= total_ms {
        0
    } else {
        ((total_ms - e) / 1000) as nat
    }
}

/// The text that stands for an expired countdown.
pub open spec fn expired_text() -> Seq<char> {
    seq!['0', '0', ':', '0', '0']
}

/// What goes on the wire for the command `c` at `now_ms`.
pub open spec fn spec_directive(c: CommandView, now_ms: u64) -> DirectiveView {
    match c {
        CommandView::Ping => DirectiveView::Ping,
        CommandView::Message(m) => DirectiveView::Message(m),
        CommandView::Timer { start_ms, duration_secs } => DirectiveView::Timer {
            remaining: remaining_secs(start_ms, duration_secs, now_ms) as u64,
            total: duration_secs,
        },
        CommandView::Animation(a) => DirectiveView::Animate(a),
    }
}

/// What goes on the wire for a worker whose current command is `c`: a ping
/// when there is none.
pub open spec fn spec_current_directive(c: Option<CommandView>, now_ms: u64) -> DirectiveView {
    match c {
        Some(c) => spec_directive(c, now_ms),
        None => DirectiveView::Ping,
    }
}

impl MicroPing {
    pub fn directive(&self) -> (r: Directive)
        ensures
            r@ == DirectiveView::Ping,
    {
        Directive::Ping
    }
}

impl MicroMessage {
    pub fn directive(&self) -> (r: Directive)
        ensures
            r@ == DirectiveView::Message(self.message@),
    {
        Directive::Message(self.message.clone())
    }

    /// The message text.
    pub fn raw(&self) -> (r: String)
        ensures
            r@ == self.message@,
    {
        self.message.clone()
    }

    /// The text of `cmd` when it is a message; empty otherwise.
    pub fn extract_last_message(cmd: &Option<MicroCommand>) -> (r: String)
        ensures
            r@ == match command_option_view(*cmd) {
                Some(CommandView::Message(m)) => m,
                _ => Seq::<char>::empty(),
            },
    {
        match cmd {
            Some(MicroCommand::Message(c)) => c.raw(),
            _ => String::new(),
        }
    }
}

impl MicroTimer {
    /// Whole seconds left at `now_ms`.
    pub fn remaining_secs(&self, now_ms: u64) -> (r: u64)
        ensures
            r == remaining_secs(self.start_ms, self.duration_secs, now_ms),
    {
        let elapsed: u64 = if now_ms >= self.start_ms {
            now_ms - self.start_ms
        } else {
            0
        };
        let total_ms: u128 = self.duration_secs as u128 * 1000;
        if elapsed as u128 >= total_ms {
            0
        } else {
            let left: u128 = (total_ms - elapsed as u128) / 1000;
            assert(left <= self.duration_secs);
            left as u64
        }
    }

    pub fn directive(&self, now_ms: u64) -> (r: Directive)
        ensures
            r@ == spec_directive(
                CommandView::Timer { start_ms: self.start_ms, duration_secs: self.duration_secs },
                now_ms,
            ),
    {
        Directive::Timer { remaining: self.remaining_secs(now_ms), total: self.duration_secs }
    }

    /// The seconds left at `now_ms` in decimal, or `00:00` once the countdown
    /// has run past its end.
    pub fn raw(&self, now_ms: u64) -> (r: String)
        ensures
            r@ == if elapsed_ms(self.start_ms, now_ms) <= self.duration_secs * 1000 {
                decimal(remaining_secs(self.start_ms, self.duration_secs, now_ms))
            } else {
                expired_text()
            },
    {
        let elapsed: u64 = if now_ms >= self.start_ms {
            now_ms - self.start_ms
        } else {
            0
        };
        if elapsed as u128 <= self.duration_secs as u128 * 1000 {
            decimal_string(self.remaining_secs(now_ms))
        } else {
            proof {
                reveal_strlit("00:00");
            }
            let r = String::from_str("00:00");
            assert(r@ =~= expired_text());
            r
        }
    }

    /// What `raw` gives for `cmd` when it is a timer; `00:00` otherwise.
    pub fn extract_remaining_time(cmd: &Option<MicroCommand>, now_ms: u64) -> (r: String)
        ensures
            r@ == match cmd {
                Some(MicroCommand::Timer(t)) => if elapsed_ms(t.start_ms, now_ms) <= t.duration_secs
                    * 1000 {
                    decimal(remaining_secs(t.start_ms, t.duration_secs, now_ms))
                } else {
                    expired_text()
                },
                _ => expired_text(),
            },
    {
        match cmd {
            Some(MicroCommand::Timer(c)) => c.raw(now_ms),
            _ => {
                proof {
                    reveal_strlit("00:00");
                }
                let r = String::from_str("00:00");
                assert(r@ =~= expired_text());
                r
            },
        }
    }
}

impl MicroAnimation {
    pub fn directive(&self) -> (r: Directive)
        ensures
            r@ == DirectiveView::Animate(self.animation@),
    {
        Directive::Animate(self.animation.clone())
    }

    /// The animation's name.
    pub fn raw(&self) -> (r: String)
        ensures
            r@ == self.animation@,
    {
        self.animation.clone()
    }

    /// The animation name of `cmd` when it is an animation; empty otherwise.
    pub fn extract_animation(cmd: &Option<MicroCommand>) -> (r: String)
        ensures
            r@ == match command_option_view(*cmd) {
                Some(CommandView::Animation(a)) => a,
                _ => Seq::<char>::empty(),
            },
    {
        match cmd {
            Some(MicroCommand::Animation(c)) => c.raw(),
            _ => String::new(),
        }
    }
}

impl MicroCommand {
    /// What goes on the wire for this command at `now_ms`; for a timer the
    /// seconds left are worked out at that moment.
    pub fn directive(&self, now_ms: u64) -> (r: Directive)
        ensures
            r@ == spec_directive(self@, now_ms),
    {
        match self {
            MicroCommand::Ping(cmd) => cmd.directive(),
            MicroCommand::Message(cmd) => cmd.directive(),
            MicroCommand::Timer(cmd) => cmd.directive(now_ms),
            MicroCommand::Animation(cmd) => cmd.directive(),
        }
    }

    /// A copy of this command.
    pub fn duplicate(&self) -> (r: MicroCommand)
        ensures
            r@ == self@,
    {
        match self {
            MicroCommand::Ping(_) => MicroCommand::Ping(MicroPing {  }),
            MicroCommand::Message(m) => MicroCommand::Message(
                MicroMessage { message: m.message.clone() },
            ),
            MicroCommand::Timer(t) => MicroCommand::Timer(
                MicroTimer { start_ms: t.start_ms, duration_secs: t.duration_secs },
            ),
            MicroCommand::Animation(a) => MicroCommand::Animation(
                MicroAnimation { animation: a.animation.clone() },
            ),
        }
    }
}

/// What goes on the wire for a worker whose current command is `cmd` at
/// `now_ms`: a ping when there is none.
pub fn current_directive(cmd: &Option<MicroCommand>, now_ms: u64) -> (r: Directive)
    ensures
        r@ == spec_current_directive(command_option_view(*cmd), now_ms),
{
    match cmd {
        Some(c) => c.directive(now_ms),
        None => Directive::Ping,
    }
}

} // verus!

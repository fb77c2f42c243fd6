use micro_broadcaster::render::{
    Animation, FrameStep, IdleWatch, ListenAction, ListenEvent, Player, RenderAction, Receiver,
    SpriteSheet, TimerFace, IDLE_WINDOW_MS,
};

#[test]
fn animation_names() {
    assert_eq!(Animation::from_name("CartoonEyes"), Some(Animation::CartoonEyes));
    assert_eq!(Animation::from_name("Heart"), Some(Animation::Heart));
    assert_eq!(Animation::from_name("Unicorn"), Some(Animation::Unicorn));
    assert_eq!(Animation::from_name("heart"), None);
    assert_eq!(Animation::from_name("Off"), None);
    assert_eq!(Animation::from_name(""), None);
}

#[test]
fn sheet_layouts() {
    let eyes = Animation::CartoonEyes.sheet().unwrap();
    assert_eq!((eyes.cols, eyes.rows, eyes.frame_count), (10, 4, 40));
    let heart = Animation::Heart.sheet().unwrap();
    assert_eq!((heart.width, heart.height, heart.cols, heart.rows, heart.frame_count), (128, 64, 4, 7, 28));
    assert_eq!(Animation::Off.sheet(), None);
    assert_eq!(heart.frame_origin(0), (0, 0));
    assert_eq!(heart.frame_origin(5), (128, 64));
    assert_eq!(heart.frame_origin(27), (384, 384));
    assert_eq!(eyes.frame_origin(39), (1152, 192));
}

#[test]
fn sheet_validation() {
    assert!(SpriteSheet::new(128, 64, 4, 7, 28).is_some());
    assert!(SpriteSheet::new(128, 64, 4, 7, 29).is_none());
    assert!(SpriteSheet::new(128, 64, 0, 7, 1).is_none());
    assert!(SpriteSheet::new(128, 64, 4, 0, 1).is_none());
    assert_eq!(
        SpriteSheet::new(128, 64, 4, 7, 0),
        Some(SpriteSheet { width: 128, height: 64, cols: 4, rows: 7, frame_count: 0 })
    );
    assert!(SpriteSheet::new(128, 64, 0, 0, 0).is_some());
    assert!(SpriteSheet::new(usize::MAX, 64, 4, 7, 1).is_none());
    assert!(SpriteSheet::new(1, 1, usize::MAX, usize::MAX, 1).is_none());
    assert!(SpriteSheet::new(0x7fff_ffff, 1, 1, 1, 1).is_some());
    assert!(SpriteSheet::new(0x8000_0000, 1, 1, 1, 1).is_none());
}

#[test]
fn player_cycles_and_restarts() {
    let mut p = Player::new();
    assert_eq!(p.step(Animation::Off), FrameStep::Idle);
    for i in 0..28 {
        assert_eq!(p.step(Animation::Heart), FrameStep::Draw { animation: Animation::Heart, frame: i });
    }
    assert_eq!(p.step(Animation::Heart), FrameStep::Draw { animation: Animation::Heart, frame: 0 });
    assert_eq!(p.step(Animation::Heart), FrameStep::Draw { animation: Animation::Heart, frame: 1 });
    assert_eq!(p.step(Animation::Unicorn), FrameStep::Draw { animation: Animation::Unicorn, frame: 0 });
    assert_eq!(p.step(Animation::Off), FrameStep::Idle);
    assert_eq!(p, Player { playing: Animation::Off, next_frame: 0 });
    assert_eq!(p.step(Animation::Unicorn), FrameStep::Draw { animation: Animation::Unicorn, frame: 0 });
}

#[test]
fn timer_faces() {
    let half = TimerFace::new(90, 180);
    assert_eq!(half.sweep_millidegrees, 180_000);
    assert!(!half.done);
    assert_eq!(half.remaining_text(), "90");
    assert_eq!(half.total_text(), "180");
    assert_eq!(TimerFace::new(1, 3).sweep_millidegrees, 120_000);
    assert_eq!(TimerFace::new(1, 7).sweep_millidegrees, 51_428);
    assert_eq!(TimerFace::new(180, 180).sweep_millidegrees, 360_000);
    assert_eq!(TimerFace::new(5, 0).sweep_millidegrees, 360_000);
    let done = TimerFace::new(0, 180);
    assert!(done.done);
    assert_eq!(done.sweep_millidegrees, 0);
    assert!(TimerFace::new(0, 0).done);
    assert_eq!(TimerFace::new(u64::MAX - 1, u64::MAX).sweep_millidegrees, 359_999);
}

#[test]
fn receiver_actions() {
    let mut rx = Receiver::new();
    assert_eq!(rx.last(), "");
    assert_eq!(rx.receive("PING"), RenderAction::Nothing);
    assert_eq!(rx.receive("MESSAGE hi"), RenderAction::ShowMessage("hi".to_string()));
    assert_eq!(rx.receive("TIMER 90/180"), RenderAction::ShowTimer(TimerFace::new(90, 180)));
    assert_eq!(rx.receive("ANIMATE Unicorn"), RenderAction::Animate(Animation::Unicorn));
    assert_eq!(rx.receive("ANIMATE Dragon"), RenderAction::Discard);
    assert_eq!(rx.receive("JUMP high"), RenderAction::Discard);
    assert_eq!(rx.receive("TIMER 1-2"), RenderAction::Discard);
    assert_eq!(rx.last(), "TIMER 1-2");
}

#[test]
fn action_intents() {
    assert_eq!(RenderAction::ShowMessage("m".to_string()).intent(), Some(Animation::Off));
    assert_eq!(RenderAction::ShowTimer(TimerFace::new(1, 2)).intent(), Some(Animation::Off));
    assert_eq!(RenderAction::Animate(Animation::Heart).intent(), Some(Animation::Heart));
    assert_eq!(RenderAction::Nothing.intent(), None);
    assert_eq!(RenderAction::Discard.intent(), None);
}

#[test]
fn repeated_payload_draws_once() {
    let mut rx = Receiver::new();
    let mut draws = 0;
    for payload in ["MESSAGE m", "MESSAGE m", "MESSAGE m"] {
        if let RenderAction::ShowMessage(_) = rx.receive(payload) {
            draws += 1;
        }
    }
    assert_eq!(draws, 1);
    assert_eq!(rx.receive("TIMER 5/10"), RenderAction::ShowTimer(TimerFace::new(5, 10)));
    assert_eq!(rx.receive("TIMER 5/10"), RenderAction::Nothing);
    assert_eq!(rx.receive("TIMER 4/10"), RenderAction::ShowTimer(TimerFace::new(4, 10)));
}

#[test]
fn dedup() {
    let mut rx = Receiver::new();
    assert_eq!(rx.receive("MESSAGE hello"), RenderAction::ShowMessage("hello".to_string()));
    let mut draws = 0;
    for _ in 0..2 {
        if let RenderAction::ShowMessage(_) = rx.receive("MESSAGE hello") {
            draws += 1;
        }
    }
    assert!(draws <= 1);
    assert_eq!(draws, 0);
}

#[test]
fn listener_idle_window() {
    let mut w = IdleWatch::new(1_000);
    assert_eq!(w.on_event(ListenEvent::NothingWaiting, 1_100), ListenAction::Wait);
    assert_eq!(w.on_event(ListenEvent::NothingWaiting, 5_999), ListenAction::Wait);
    assert_eq!(w.on_event(ListenEvent::Received, 5_999), ListenAction::Handle);
    assert_eq!(w.last_activity_ms, 5_999);
    assert_eq!(w.on_event(ListenEvent::NothingWaiting, 5_999 + IDLE_WINDOW_MS - 1), ListenAction::Wait);
    assert_eq!(w.on_event(ListenEvent::NothingWaiting, 5_999 + IDLE_WINDOW_MS), ListenAction::Reannounce);
    assert_eq!(w.on_event(ListenEvent::NothingWaiting, 0), ListenAction::Wait);
    assert_eq!(w.on_event(ListenEvent::Failed, 6_000), ListenAction::Reannounce);
    assert_eq!(w.last_activity_ms, 5_999);
}

use tpower::events::{
    clamp_interval, preference_message, sender_step, status_bar_source, PreferenceEvent, SenderAction, SenderMessage,
    SenderState, StatusBarItem, StatusBarSource, Theme,
};

#[test]
fn status_bar_items_read_by_name() {
    assert_eq!(StatusBarItem::from_name("system"), StatusBarItem::System);
    assert_eq!(StatusBarItem::from_name("screen"), StatusBarItem::Screen);
    assert_eq!(StatusBarItem::from_name("heatpipe"), StatusBarItem::Heatpipe);
    assert_eq!(StatusBarItem::from_name("Screen"), StatusBarItem::System);
    assert_eq!(StatusBarItem::from_name("gpu"), StatusBarItem::System);
    assert_eq!(StatusBarItem::default(), StatusBarItem::System);
}

#[test]
fn intervals_are_clamped() {
    assert_eq!(clamp_interval(100), 500);
    assert_eq!(clamp_interval(500), 500);
    assert_eq!(clamp_interval(2000), 2000);
    assert_eq!(clamp_interval(60_000), 60_000);
    assert_eq!(clamp_interval(120_000), 60_000);
}

#[test]
fn preferences_become_sender_messages() {
    assert_eq!(preference_message(&PreferenceEvent::UpdateInterval(1500)), Some(SenderMessage::ChangeInterval(1500)));
    assert_eq!(
        preference_message(&PreferenceEvent::StatusBarItem(StatusBarItem::Heatpipe)),
        Some(SenderMessage::ChangeStatusBarItem(StatusBarItem::Heatpipe))
    );
    assert_eq!(
        preference_message(&PreferenceEvent::StatusBarShowCharging(false)),
        Some(SenderMessage::StatusBarShowCharging(false))
    );
    assert_eq!(preference_message(&PreferenceEvent::Language("en".into())), None);
    assert_eq!(preference_message(&PreferenceEvent::Theme(Theme::Dark)), None);
    assert_eq!(preference_message(&PreferenceEvent::AnimationsEnabled(true)), None);
}

#[test]
fn the_status_bar_shows_the_charge_rate_while_charging() {
    assert_eq!(status_bar_source(true, StatusBarItem::Screen, true), StatusBarSource::DeliveryRate);
    assert_eq!(status_bar_source(true, StatusBarItem::Screen, false), StatusBarSource::Brightness);
    assert_eq!(status_bar_source(false, StatusBarItem::System, true), StatusBarSource::SystemTotal);
    assert_eq!(status_bar_source(false, StatusBarItem::Heatpipe, true), StatusBarSource::Heatpipe);
}

#[test]
fn the_sender_follows_its_messages() {
    let mut s = SenderState::from_preferences(None, None, None);
    assert_eq!(s, SenderState { interval_ms: 2000, status_bar_item: StatusBarItem::System, show_charging: true });
    assert_eq!(sender_step(&mut s, SenderMessage::ImmediateSend), SenderAction::EmitTick);
    assert_eq!(sender_step(&mut s, SenderMessage::ChangeInterval(10)), SenderAction::ResetTimer(500));
    assert_eq!(s.interval_ms, 500);
    assert_eq!(
        sender_step(&mut s, SenderMessage::ChangeStatusBarItem(StatusBarItem::Screen)),
        SenderAction::EmitStatus
    );
    assert_eq!(sender_step(&mut s, SenderMessage::StatusBarShowCharging(false)), SenderAction::EmitStatus);
    assert_eq!(s, SenderState { interval_ms: 500, status_bar_item: StatusBarItem::Screen, show_charging: false });
    let p = SenderState::from_preferences(Some(100), Some(StatusBarItem::Heatpipe), Some(false));
    assert_eq!(p.interval_ms, 100);
}

use mellow_ui::ui::{
    play_now_requests, show_queue, show_queue_requests, FilterMode, SortConfig, UiSender, UpdateUI,
};

#[test]
fn sort_config_holds_its_values() {
    let c = SortConfig::new(3u8, true);
    assert_eq!(c.ordering, 3);
    assert!(c.reversed);
    let d = c;
    assert_eq!(d.ordering, c.ordering);
}

#[test]
fn filter_mode_defaults_to_exclusive() {
    assert_eq!(FilterMode::default(), FilterMode::Exclusive);
}

#[test]
fn show_queue_requests_in_order() {
    let r = show_queue_requests();
    assert_eq!(r.len(), 3);
    assert!(matches!(r[0], UpdateUI::FocusPlaying));
    assert!(matches!(r[1], UpdateUI::CloseQueueSubpage));
    assert!(matches!(r[2], UpdateUI::OpenSheet(true)));
}

#[test]
fn show_queue_sends_its_requests() {
    let (tx, rx) = async_channel::unbounded();
    let mut ui = UiSender::new(tx);
    assert!(show_queue(&mut ui).is_ok());
    assert!(matches!(rx.try_recv(), Ok(UpdateUI::FocusPlaying)));
    assert!(matches!(rx.try_recv(), Ok(UpdateUI::CloseQueueSubpage)));
    assert!(matches!(rx.try_recv(), Ok(UpdateUI::OpenSheet(true))));
    assert!(rx.try_recv().is_err());
}

#[test]
fn show_queue_on_a_closed_channel_gives_back_the_first_request() {
    let (tx, rx) = async_channel::unbounded::<UpdateUI>();
    drop(rx);
    let mut ui = UiSender::new(tx);
    assert!(matches!(show_queue(&mut ui), Err(UpdateUI::FocusPlaying)));
}


#[test]
fn play_now_closes_the_sheet_then_focuses_playing() {
    let (tx, rx) = async_channel::unbounded();
    let mut ui = UiSender::new(tx);
    assert!(play_now_requests(&mut ui).is_ok());
    assert!(matches!(rx.try_recv(), Ok(UpdateUI::OpenSheet(false))));
    assert!(matches!(rx.try_recv(), Ok(UpdateUI::FocusPlaying)));
    assert!(rx.try_recv().is_err());
    drop(rx);
    assert!(matches!(play_now_requests(&mut ui), Err(UpdateUI::OpenSheet(false))));
}

//! Requests to the user interface, the sort configuration of a page, and the
//! filter modes.
use vstd::prelude::*;

verus! {

/// How a list of items is sorted: by which ordering, and whether reversed.
#[derive(Debug)]
pub struct SortConfig<O> {
    pub ordering: O,
    pub reversed: bool,
}

impl<O: Copy> Clone for SortConfig<O> {
    fn clone(&self) -> (r: Self)
        ensures
            r == *self,
    {
        *self
    }
}

impl<O: Copy> Copy for SortConfig<O> {

}

impl<O> SortConfig<O> {
    /// A sort configuration with the given ordering and direction.
    pub fn new(ordering: O, reversed: bool) -> (r: SortConfig<O>)
        ensures
            r.ordering == ordering,
            r.reversed == reversed,
    {
        SortConfig { ordering, reversed }
    }
}

/// Whether an item must meet every condition of a filter (`Exclusive`) or
/// one of them (`Inclusive`).
#[derive(Clone, Copy, Debug, PartialEq, Eq, Structural)]
pub enum FilterMode {
    Exclusive,
    Inclusive,
}

impl Default for FilterMode {
    fn default() -> (r: Self)
        ensures
            r == FilterMode::Exclusive,
    {
        FilterMode::Exclusive
    }
}

/// A request to the user interface.
#[derive(Debug)]
pub enum UpdateUI {
    PlayerState { playing: bool, interactive: bool },
    /// Current song time in milliseconds
    PlayerTime { time: Option<u64> },
    /// Updates the playing song index and redraws the queue
    SetQueueIndex(usize),
    /// Recenters the queue interface scroll position to keep the same items in view
    RecenterQueue(isize),
    /// Redraws the current queue
    RedrawQueue,
    /// Exits queue selection mode if currently active
    ExitQueueSelection,
    /// Opens the subpage for the queue song at the given index
    OpenQueueSubpage(usize),
    /// Corrects the queue subpage item index, or closes the subpage if the item is gone
    ValidateQueueSubpageIndex,
    /// Closes the subpage if it is open
    CloseQueueSubpage,
    /// Informs the UI of the new shuffle mode
    Shuffle(bool),
    /// Informs the UI of the new repeat mode
    Repeat(bool),
    /// Updates the directory list on the settings page
    SetLibraryDirs(Vec<String>),
    /// Prompts the library UI to assign the now-loaded artist artwork for the item at index
    LibraryArtistLoaded { index: usize },
    /// Opens the library song page for the item at the given index
    SongPageByIndex(usize),
    /// Focuses the 'Library' tab
    FocusLibrary,
    /// Focuses the 'Playing' tab
    FocusPlaying,
    /// Focuses the 'Settings' tab
    FocusSettings,
    /// Opens or closes the bottom sheet overlay
    OpenSheet(bool),
    /// Sets whether the sheet can be closed or not
    CanCloseSheet(bool),
    /// Runs a `gio` action
    RunAction(&'static str),
    /// Dismisses all visible toast notifications
    DismissNotifications,
    /// Causes the channel to ignore any further requests (but does not close it)
    Uninit,
    /// Displays an error message informing the user that a component has crashed
    CrashNotice(String),
}

/// `async_channel::Sender`, the sending half of a channel, known to Verus as
/// an opaque type: nothing of its state is modelled.
#[verifier::external_type_specification]
#[verifier::external_body]
#[verifier::reject_recursive_types(T)]
pub struct ExSender<T>(async_channel::Sender<T>);

/// The sending half of the UI channel, with a record of the requests that
/// were handed to it (`attempts`) and of those that went into the channel
/// (`sent`), in order.
pub struct UiSender {
    tx: async_channel::Sender<UpdateUI>,
    attempts_log: Ghost<Seq<UpdateUI>>,
    sent_log: Ghost<Seq<UpdateUI>>,
}

impl UiSender {
    /// The channel that the sender sends over.
    pub closed spec fn channel(&self) -> async_channel::Sender<UpdateUI> {
        self.tx
    }

    /// The requests handed to the sender so far, in order.
    pub closed spec fn attempts(&self) -> Seq<UpdateUI> {
        self.attempts_log@
    }

    /// The requests that went into the channel so far, in order.
    pub closed spec fn sent(&self) -> Seq<UpdateUI> {
        self.sent_log@
    }

    /// A sender over `tx` that has handed over nothing yet.
    pub fn new(tx: async_channel::Sender<UpdateUI>) -> (r: Self)
        ensures
            r.channel() == tx,
            r.attempts() == Seq::<UpdateUI>::empty(),
            r.sent() == Seq::<UpdateUI>::empty(),
    {
        UiSender { tx, attempts_log: Ghost(Seq::empty()), sent_log: Ghost(Seq::empty()) }
    }

    /// Sends `msg` with `async_channel::Sender::send_blocking`, which blocks
    /// while a bounded channel is full. The request is recorded as handed
    /// over; where it goes into the channel it is recorded as sent, and where
    /// the channel is closed it is not sent and comes back as the error.
    /// Which of the two occurs depends on the state of the channel and is not
    /// stated.
    #[verifier::external_body]
    pub fn send(&mut self, msg: UpdateUI) -> (r: Result<(), UpdateUI>)
        ensures
            final(self).channel() == old(self).channel(),
            final(self).attempts() == old(self).attempts().push(msg),
            r is Ok ==> final(self).sent() == old(self).sent().push(msg),
            r matches Err(back) ==> back == msg && final(self).sent() == old(self).sent(),
    {
        match self.tx.send_blocking(msg) {
            Ok(()) => Ok(()),
            Err(e) => Err(e.0),
        }
    }
}

/// The requests that show the queue: focus the 'Playing' tab, close the
/// queue subpage, and open the bottom sheet again in case it was closed.
pub open spec fn spec_show_queue_requests() -> Seq<UpdateUI> {
    seq![UpdateUI::FocusPlaying, UpdateUI::CloseQueueSubpage, UpdateUI::OpenSheet(true)]
}

pub fn show_queue_requests() -> (r: Vec<UpdateUI>)
    ensures
        r@ == spec_show_queue_requests(),
{
    let mut r = Vec::new();
    r.push(UpdateUI::FocusPlaying);
    r.push(UpdateUI::CloseQueueSubpage);
    r.push(UpdateUI::OpenSheet(true));
    r
}

/// `seq![x]` where `b` holds, else nothing.
pub open spec fn if_sent(b: bool, x: UpdateUI) -> Seq<UpdateUI> {
    if b {
        seq![x]
    } else {
        seq![]
    }
}

/// Shows the 'Playing' tab: hands the requests of `show_queue_requests` to
/// the channel in order. Where the first cannot be sent (the channel is
/// closed), nothing more is handed over and it comes back as the error; the
/// failure of a later one is ignored.
pub fn show_queue(ui_tx: &mut UiSender) -> (r: Result<(), UpdateUI>)
    ensures
        final(ui_tx).channel() == old(ui_tx).channel(),
        r matches Err(back) ==> back == UpdateUI::FocusPlaying && final(ui_tx).attempts() == old(
            ui_tx,
        ).attempts().push(UpdateUI::FocusPlaying) && final(ui_tx).sent() == old(ui_tx).sent(),
        r is Ok ==> final(ui_tx).attempts() == old(ui_tx).attempts() + spec_show_queue_requests()
            && exists|close: bool, open: bool|
            final(ui_tx).sent() == old(ui_tx).sent().push(UpdateUI::FocusPlaying) + if_sent(
                close,
                UpdateUI::CloseQueueSubpage,
            ) + if_sent(open, UpdateUI::OpenSheet(true)),
{
    let ghost a0 = ui_tx.attempts();
    let ghost s0 = ui_tx.sent();
    ui_tx.send(UpdateUI::FocusPlaying)?;
    let ghost s1 = ui_tx.sent();
    let close = ui_tx.send(UpdateUI::CloseQueueSubpage).is_ok();
    let ghost s2 = ui_tx.sent();
    let open = ui_tx.send(UpdateUI::OpenSheet(true)).is_ok();
    proof {
        assert(s2 == s1 + if_sent(close, UpdateUI::CloseQueueSubpage));
        assert(ui_tx.sent() =~= s0.push(UpdateUI::FocusPlaying) + if_sent(
            close,
            UpdateUI::CloseQueueSubpage,
        ) + if_sent(open, UpdateUI::OpenSheet(true)));
        assert(ui_tx.attempts() =~= a0 + spec_show_queue_requests());
    }
    Ok(())
}

/// The requests that follow starting playback from the page: close the
/// bottom sheet, then focus the 'Playing' tab.
pub open spec fn spec_play_now_requests() -> Seq<UpdateUI> {
    seq![UpdateUI::OpenSheet(false), UpdateUI::FocusPlaying]
}

/// Hands the requests of `spec_play_now_requests` to the channel in order;
/// each must go through: at the first that cannot be sent, nothing more is
/// handed over and it comes back as the error.
pub fn play_now_requests(ui_tx: &mut UiSender) -> (r: Result<(), UpdateUI>)
    ensures
        final(ui_tx).channel() == old(ui_tx).channel(),
        r is Ok ==> final(ui_tx).attempts() == old(ui_tx).attempts() + spec_play_now_requests()
            && final(ui_tx).sent() == old(ui_tx).sent() + spec_play_now_requests(),
        r matches Err(back) ==> {
            ||| back == UpdateUI::OpenSheet(false) && final(ui_tx).attempts() == old(
                ui_tx,
            ).attempts().push(back) && final(ui_tx).sent() == old(ui_tx).sent()
            ||| back == UpdateUI::FocusPlaying && final(ui_tx).attempts() == old(ui_tx).attempts()
                + spec_play_now_requests() && final(ui_tx).sent() == old(ui_tx).sent().push(
                UpdateUI::OpenSheet(false),
            )
        },
{
    let ghost a0 = ui_tx.attempts();
    let ghost s0 = ui_tx.sent();
    ui_tx.send(UpdateUI::OpenSheet(false))?;
    let r = ui_tx.send(UpdateUI::FocusPlaying);
    proof {
        assert(ui_tx.attempts() =~= a0 + spec_play_now_requests());
        if r is Ok {
            assert(ui_tx.sent() =~= s0 + spec_play_now_requests());
        }
    }
    r
}

} // verus!

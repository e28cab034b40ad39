use vstd::prelude::*;

use crate::animation::{Msg, BackMsg};
use crate::game::{GameState, ChangeSet, after_select, on_board};
use crate::pos::TermPos;

verus! {

/// A key of the keyboard, as far as the game tells keys apart.
#[derive(Debug, Clone, Copy, PartialEq, Eq, Structural)]
pub enum KeyCode {
    Backspace,
    Delete,
    Char(char),
    Other,
}

/// What a mouse event was, as far as the game tells them apart.
#[derive(Debug, Clone, Copy, PartialEq, Eq, Structural)]
pub enum MouseKind {
    LeftDown,
    Other,
}

/// An event from the terminal. `plain` says that no modifier key was held.
#[derive(Debug, Clone, Copy, PartialEq, Eq, Structural)]
pub enum InputEvent {
    /// a key event; `press` says that the key went down (rather than up or repeating)
    Key { code: KeyCode, plain: bool, press: bool },
    Mouse { kind: MouseKind, column: u16, row: u16, plain: bool },
    Resize(u16, u16),
    Other,
}

/// What one try at reading a channel gave.
#[derive(Debug)]
pub enum Received<T> {
    Got(T),
    /// nothing was waiting
    Empty,
    /// the other side is gone
    Disconnected,
}

/// What an input asks of the game loop.
#[derive(Debug)]
pub enum InputResult {
    Quit,
    Nop,
    Msgs(Vec<Msg>),
    /// a click at this screen position, to hand to the drawing side
    Click(TermPos),
}

/// What a message from the drawing side asks of the game loop.
#[derive(Debug)]
pub enum BackMsgResult {
    Quit,
    Nop,
    Msgs(Vec<Msg>),
}

/// Backspace and Delete quit; every other key does nothing.
pub fn handle_key_event(kc: KeyCode) -> (r: InputResult)
    ensures
        (kc == KeyCode::Backspace || kc == KeyCode::Delete) ==> r is Quit,
        !(kc == KeyCode::Backspace || kc == KeyCode::Delete) ==> r is Nop,
{
    match kc {
        KeyCode::Backspace | KeyCode::Delete => InputResult::Quit,
        _ => InputResult::Nop,
    }
}

/// What one terminal input (`None` when reading failed) asks: reading failures and
/// resizes quit; a plain key press is handled by `handle_key_event`; a plain left click
/// is passed on as a click at its (row, column); everything else does nothing.
pub fn handle_input_frame(state: &mut GameState, input: Option<InputEvent>) -> (r: InputResult)
    requires
        input matches Some(InputEvent::Mouse { kind: MouseKind::LeftDown, plain: true, column, row }) ==> row
            <= i16::MAX && column <= i16::MAX,
    ensures
        *final(state) == *old(state),
        match input {
            None => r is Quit,
            Some(InputEvent::Key { code, plain: true, press: true }) => if code == KeyCode::Backspace
                || code == KeyCode::Delete {
                r is Quit
            } else {
                r is Nop
            },
            Some(InputEvent::Mouse { kind: MouseKind::LeftDown, column, row, plain: true }) => r
                == InputResult::Click(TermPos { y: row as i16, x: column as i16 }),
            Some(InputEvent::Resize(_, _)) => r is Quit,
            _ => r is Nop,
        },
{
    match input {
        None => InputResult::Quit,
        Some(InputEvent::Key { code, plain: true, press: true }) => handle_key_event(code),
        Some(InputEvent::Mouse { kind: MouseKind::LeftDown, column, row, plain: true }) => {
            InputResult::Click(TermPos::new(row as i16, column as i16))
        },
        Some(InputEvent::Resize(_, _)) => InputResult::Quit,
        _ => InputResult::Nop,
    }
}

/// The messages that carry the change sets `sets`, in order.
pub open spec fn change_msgs(msgs: Seq<Msg>, sets: Seq<ChangeSet>) -> bool {
    &&& msgs.len() == sets.len()
    &&& forall|k: int| 0 <= k < msgs.len() ==> #[trigger] msgs[k] == Msg::ChangeMsg(sets[k])
}

/// Handles one try at reading the drawing side's messages. A lost channel or a quit
/// message quits; nothing waiting, or a click on no card, does nothing. A click on cards
/// chooses the last of them (see `GameState::select`), and the change sets that are
/// then pending are taken out of the state and returned as messages.
pub fn handle_back_msg(state: &mut GameState, msg: Received<BackMsg>) -> (r: BackMsgResult)
    requires
        old(state).wf(),
        msg matches Received::Got(BackMsg::Collisions(cards)) ==> cards@.len() > 0 ==> on_board(
            old(state).board(),
            cards@.last(),
        ) && old(state).next_stamp() < u32::MAX,
    ensures
        match msg {
            Received::Disconnected => r is Quit && *final(state) == *old(state),
            Received::Got(BackMsg::QuitMsg) => r is Quit && *final(state) == *old(state),
            Received::Empty => r is Nop && *final(state) == *old(state),
            Received::Got(BackMsg::Collisions(cards)) => if cards@.len() == 0 {
                r is Nop && *final(state) == *old(state)
            } else {
                exists|mid: GameState|
                    {
                        &&& after_select(*old(state), mid, cards@.last())
                        &&& r matches BackMsgResult::Msgs(msgs) && change_msgs(msgs@, mid.pending())
                        &&& final(state).pending() == Seq::<ChangeSet>::empty()
                        &&& final(state).board() == mid.board()
                        &&& final(state).deck_cards() == mid.deck_cards()
                        &&& final(state).selected() == mid.selected()
                        &&& final(state).last_found() == mid.last_found()
                        &&& final(state).next_stamp() == mid.next_stamp()
                    }
            },
        },
{
    match msg {
        Received::Disconnected => BackMsgResult::Quit,
        Received::Got(BackMsg::QuitMsg) => BackMsgResult::Quit,
        Received::Empty => BackMsgResult::Nop,
        Received::Got(BackMsg::Collisions(cards)) => {
            let mut cards = cards;
            match cards.pop() {
                Some(c) => {
                    state.select(c);
                    let ghost mid = *state;
                    let csets = state.changes();
                    let mut msgs: Vec<Msg> = Vec::new();
                    let mut rest = csets;
                    let ghost sets = rest@;
                    assert(sets.len() == rest.len());
                    let mut i: usize = 0;
                    while rest.len() > 0
                        invariant
                            i <= sets.len(),
                            sets.len() <= usize::MAX,
                            rest@ == sets.subrange(i as int, sets.len() as int),
                            msgs@.len() == i,
                            forall|k: int| 0 <= k < i ==> #[trigger] msgs@[k] == Msg::ChangeMsg(sets[k]),
                        decreases rest.len(),
                    {
                        let cs = rest.remove(0);
                        msgs.push(Msg::ChangeMsg(cs));
                        i = i + 1;
                    }
                    let r = BackMsgResult::Msgs(msgs);
                    proof {
                        assert(change_msgs(msgs@, mid.pending()));
                        assert(after_select(*old(state), mid, c));
                    }
                    r
                },
                None => BackMsgResult::Nop,
            }
        },
    }
}

} // verus!

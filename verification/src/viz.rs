//! The visualization's discrete controls: playback speeds, keyboard
//! commands, selected-cell details and the battle-result banner.
use vstd::prelude::*;

use crate::protocol::{strings_view, BattleResultMsg};
use crate::text::{chars_of, lower, lower_char, string_of};

verus! {

/// Playback multiplier used by the visualization update loop.
#[derive(Debug, Clone, Copy, PartialEq, Eq, Structural)]
pub enum PlaybackSpeed {
    X1,
    X2,
    X10,
    Max,
}

impl Default for PlaybackSpeed {
    fn default() -> (r: Self)
        ensures
            r == PlaybackSpeed::X1,
    {
        PlaybackSpeed::X1
    }
}

pub open spec fn spec_label(s: PlaybackSpeed) -> Seq<char> {
    match s {
        PlaybackSpeed::X1 => "1x"@,
        PlaybackSpeed::X2 => "2x"@,
        PlaybackSpeed::X10 => "10x"@,
        PlaybackSpeed::Max => "max"@,
    }
}

pub open spec fn spec_faster(s: PlaybackSpeed) -> PlaybackSpeed {
    match s {
        PlaybackSpeed::X1 => PlaybackSpeed::X2,
        PlaybackSpeed::X2 => PlaybackSpeed::X10,
        PlaybackSpeed::X10 | PlaybackSpeed::Max => PlaybackSpeed::Max,
    }
}

pub open spec fn spec_slower(s: PlaybackSpeed) -> PlaybackSpeed {
    match s {
        PlaybackSpeed::Max => PlaybackSpeed::X10,
        PlaybackSpeed::X10 => PlaybackSpeed::X2,
        PlaybackSpeed::X2 | PlaybackSpeed::X1 => PlaybackSpeed::X1,
    }
}

/// The position of a speed from slowest (0) to fastest (3).
pub open spec fn speed_rank(s: PlaybackSpeed) -> int {
    match s {
        PlaybackSpeed::X1 => 0,
        PlaybackSpeed::X2 => 1,
        PlaybackSpeed::X10 => 2,
        PlaybackSpeed::Max => 3,
    }
}

impl PlaybackSpeed {
    /// The label shown for this speed.
    pub fn label(self) -> (r: &'static str)
        ensures
            r@ == spec_label(self),
    {
        match self {
            PlaybackSpeed::X1 => "1x",
            PlaybackSpeed::X2 => "2x",
            PlaybackSpeed::X10 => "10x",
            PlaybackSpeed::Max => "max",
        }
    }

    /// The next faster speed; `Max` stays `Max`.
    pub fn faster(self) -> (r: Self)
        ensures
            r == spec_faster(self),
    {
        match self {
            PlaybackSpeed::X1 => PlaybackSpeed::X2,
            PlaybackSpeed::X2 => PlaybackSpeed::X10,
            PlaybackSpeed::X10 | PlaybackSpeed::Max => PlaybackSpeed::Max,
        }
    }

    /// The next slower speed; `X1` stays `X1`.
    pub fn slower(self) -> (r: Self)
        ensures
            r == spec_slower(self),
    {
        match self {
            PlaybackSpeed::Max => PlaybackSpeed::X10,
            PlaybackSpeed::X10 => PlaybackSpeed::X2,
            PlaybackSpeed::X2 | PlaybackSpeed::X1 => PlaybackSpeed::X1,
        }
    }
}

/// Stepping up and then down returns to the start everywhere below `Max`,
/// stepping down and then up everywhere above `X1`; each step moves one
/// place or stays at the end of the scale.
pub proof fn lemma_speed_steps(s: PlaybackSpeed)
    ensures
        s != PlaybackSpeed::Max ==> spec_slower(spec_faster(s)) == s,
        s != PlaybackSpeed::X1 ==> spec_faster(spec_slower(s)) == s,
        speed_rank(spec_faster(s)) == if speed_rank(s) < 3 {
            speed_rank(s) + 1
        } else {
            3
        },
        speed_rank(spec_slower(s)) == if speed_rank(s) > 0 {
            speed_rank(s) - 1
        } else {
            0
        },
{
}

/// Abstract mouse buttons used by the visualization frontends.
#[derive(Debug, Clone, Copy, PartialEq, Eq, Structural)]
pub enum MouseButton {
    Left,
    Middle,
    Right,
    Other(u16),
}

/// Normalized keyboard input used by the visualization app.
#[derive(Debug, Clone, Copy, PartialEq, Eq, Structural)]
pub enum KeyCode {
    Space,
    Plus,
    Equals,
    Minus,
    R,
    F,
    Character(char),
}

/// Basic touch event phases for mobile frontends.
#[derive(Debug, Clone, Copy, PartialEq, Eq, Structural)]
pub enum TouchPhase {
    Started,
    Moved,
    Ended,
    Cancelled,
}

/// Semantic actions emitted from raw platform input.
#[derive(Debug, Clone, Copy, PartialEq, Eq, Structural)]
pub enum InputAction {
    TogglePause,
    IncreaseSpeed,
    DecreaseSpeed,
    ResetView,
    FitAll,
    SelectAddress(usize),
}

/// The action a key press asks for, if any.
pub open spec fn spec_key_action(key: KeyCode) -> Option<InputAction> {
    match key {
        KeyCode::Space => Some(InputAction::TogglePause),
        KeyCode::Plus | KeyCode::Equals => Some(InputAction::IncreaseSpeed),
        KeyCode::Minus => Some(InputAction::DecreaseSpeed),
        KeyCode::R => Some(InputAction::ResetView),
        KeyCode::F => Some(InputAction::FitAll),
        KeyCode::Character(ch) => if ch == 'r' || ch == 'R' {
            Some(InputAction::ResetView)
        } else if ch == 'f' || ch == 'F' {
            Some(InputAction::FitAll)
        } else if ch == '+' {
            Some(InputAction::IncreaseSpeed)
        } else if ch == '-' {
            Some(InputAction::DecreaseSpeed)
        } else {
            None
        },
    }
}

/// The actions for a key press (see [`spec_key_action`]): one or none.
pub fn handle_key_press(key: KeyCode) -> (r: Vec<InputAction>)
    ensures
        r@ == match spec_key_action(key) {
            Some(a) => seq![a],
            None => Seq::<InputAction>::empty(),
        },
{
    let action = match key {
        KeyCode::Space => Some(InputAction::TogglePause),
        KeyCode::Plus | KeyCode::Equals => Some(InputAction::IncreaseSpeed),
        KeyCode::Minus => Some(InputAction::DecreaseSpeed),
        KeyCode::R => Some(InputAction::ResetView),
        KeyCode::F => Some(InputAction::FitAll),
        KeyCode::Character(ch) => {
            let lower = crate::text::lower_char(ch);
            if lower == 'r' {
                Some(InputAction::ResetView)
            } else if lower == 'f' {
                Some(InputAction::FitAll)
            } else if lower == '+' {
                Some(InputAction::IncreaseSpeed)
            } else if lower == '-' {
                Some(InputAction::DecreaseSpeed)
            } else {
                None
            }
        },
    };
    let mut r: Vec<InputAction> = Vec::new();
    match action {
        Some(a) => {
            r.push(a);
            assert(r@ =~= seq![a]);
        },
        None => {
            assert(r@ =~= Seq::<InputAction>::empty());
        },
    }
    r
}

/// The button a browser's mouse-button number stands for.
pub open spec fn spec_mouse_button(button: i16) -> MouseButton {
    if button == 0 {
        MouseButton::Left
    } else if button == 1 {
        MouseButton::Middle
    } else if button == 2 {
        MouseButton::Right
    } else {
        MouseButton::Other(button as u16)
    }
}

/// The button for a browser's mouse-button number (see
/// [`spec_mouse_button`]).
pub fn mouse_button(button: i16) -> (r: MouseButton)
    ensures
        r == spec_mouse_button(button),
{
    match button {
        0 => MouseButton::Left,
        1 => MouseButton::Middle,
        2 => MouseButton::Right,
        other => MouseButton::Other(other as u16),
    }
}

/// The key a browser's key name stands for: space, plus, equals and minus
/// by their characters, any other single character in lower case (`r` and
/// `f` as their own keys); longer names stand for no key.
pub open spec fn spec_map_key(key: Seq<char>) -> Option<KeyCode> {
    if key.len() != 1 {
        None
    } else {
        let c = key[0];
        if c == ' ' {
            Some(KeyCode::Space)
        } else if c == '+' {
            Some(KeyCode::Plus)
        } else if c == '=' {
            Some(KeyCode::Equals)
        } else if c == '-' {
            Some(KeyCode::Minus)
        } else if lower(c) == 'r' {
            Some(KeyCode::R)
        } else if lower(c) == 'f' {
            Some(KeyCode::F)
        } else {
            Some(KeyCode::Character(lower(c)))
        }
    }
}

/// The key for a browser's key name (see [`spec_map_key`]).
pub fn map_key(key: &str) -> (r: Option<KeyCode>)
    ensures
        r == spec_map_key(key@),
{
    let chars = chars_of(key);
    if chars.len() != 1 {
        return None;
    }
    let c = chars[0];
    if c == ' ' {
        Some(KeyCode::Space)
    } else if c == '+' {
        Some(KeyCode::Plus)
    } else if c == '=' {
        Some(KeyCode::Equals)
    } else if c == '-' {
        Some(KeyCode::Minus)
    } else {
        let l = lower_char(c);
        if l == 'r' {
            Some(KeyCode::R)
        } else if l == 'f' {
            Some(KeyCode::F)
        } else {
            Some(KeyCode::Character(l))
        }
    }
}

/// Delay before the first reconnection attempt, in milliseconds.
pub const INITIAL_BACKOFF_MS: u64 = 250;

/// Longest delay between reconnection attempts, in milliseconds.
pub const MAX_BACKOFF_MS: u64 = 5000;

/// The delay after a failed reconnection attempt that waited `delay_ms`:
/// twice as long, but never more than [`MAX_BACKOFF_MS`].
pub open spec fn spec_next_backoff(delay_ms: u64) -> u64 {
    if 2 * delay_ms >= MAX_BACKOFF_MS {
        MAX_BACKOFF_MS
    } else {
        (2 * delay_ms) as u64
    }
}

/// The delay before the next reconnection attempt (see
/// [`spec_next_backoff`]).
pub fn next_backoff(delay_ms: u64) -> (r: u64)
    ensures
        r == spec_next_backoff(delay_ms),
        r <= MAX_BACKOFF_MS,
        delay_ms <= MAX_BACKOFF_MS ==> delay_ms <= r,
{
    if delay_ms < MAX_BACKOFF_MS / 2 {
        delay_ms * 2
    } else {
        MAX_BACKOFF_MS
    }
}

/// Details for the currently selected core cell.
#[derive(Debug, Clone, PartialEq, Eq)]
pub struct SelectedCellInfo {
    pub address: usize,
    pub instruction: String,
    pub owner: Option<u32>,
}

/// `parts` joined by `", "`.
pub open spec fn join_comma(parts: Seq<Seq<char>>) -> Seq<char>
    decreases parts.len(),
{
    if parts.len() == 0 {
        Seq::empty()
    } else if parts.len() == 1 {
        parts[0]
    } else {
        join_comma(parts.drop_last()) + ", "@ + parts.last()
    }
}

/// The banner shown when a battle completes.
pub open spec fn spec_result_banner(winner: Option<Seq<char>>, survivors: Seq<Seq<char>>) -> Seq<
    char,
> {
    match winner {
        Some(w) => "battle complete - winner: "@ + w,
        None => if survivors.len() == 0 {
            "battle complete - draw"@
        } else {
            "battle complete - draw between "@ + join_comma(survivors)
        },
    }
}

/// The banner for a battle result (see [`spec_result_banner`]).
pub fn format_battle_result(result: &BattleResultMsg) -> (r: String)
    ensures
        r@ == match result {
            BattleResultMsg::Win { winner } => spec_result_banner(Some(winner@), Seq::empty()),
            BattleResultMsg::Draw { survivors } => spec_result_banner(
                None,
                strings_view(survivors@),
            ),
        },
{
    match result {
        BattleResultMsg::Win { winner } => {
            let mut text = chars_of("battle complete - winner: ");
            let mut name = chars_of(winner.as_str());
            text.append(&mut name);
            string_of(text.as_slice())
        },
        BattleResultMsg::Draw { survivors } => {
            if survivors.len() == 0 {
                return "battle complete - draw".to_owned();
            }
            let ghost names = strings_view(survivors@);
            let mut text = chars_of("battle complete - draw between ");
            let ghost prefix = text@;
            let mut i: usize = 0;
            assert(names.take(0) =~= Seq::<Seq<char>>::empty());
            while i < survivors.len()
                invariant
                    i <= survivors@.len(),
                    names == strings_view(survivors@),
                    text@ == prefix + join_comma(names.take(i as int)),
                decreases survivors@.len() - i,
            {
                let ghost before = text@;
                assert(names.take(i + 1 as int).drop_last() =~= names.take(i as int));
                assert(names.take(i + 1 as int).last() == survivors@[i as int]@);
                if i > 0 {
                    let mut sep = chars_of(", ");
                    text.append(&mut sep);
                }
                let mut name = chars_of(survivors[i].as_str());
                text.append(&mut name);
                proof {
                    if i == 0 {
                        assert(names.take(1) =~= seq![names[0]]);
                        assert(join_comma(names.take(0)) =~= Seq::<char>::empty());
                        assert(text@ =~= prefix + join_comma(names.take(1)));
                    } else {
                        assert(text@ =~= prefix + join_comma(names.take(i + 1 as int)));
                    }
                }
                i = i + 1;
            }
            assert(names.take(survivors@.len() as int) =~= names);
            string_of(text.as_slice())
        },
    }
}

} // verus!

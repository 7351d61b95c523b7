//! What the player types or presses: a card number, a yes/no answer, or a
//! key of the card-selection menu.

use vstd::prelude::*;
use vstd::string::*;

verus! {

/// The characters with the Unicode White_Space property, which `str::trim`
/// documents as the whitespace it removes.
pub open spec fn is_white_space(c: char) -> bool {
    let x = c as u32;
    ||| 0x9 <= x <= 0xD
    ||| x == 0x20
    ||| x == 0x85
    ||| x == 0xA0
    ||| x == 0x1680
    ||| 0x2000 <= x <= 0x200A
    ||| x == 0x2028
    ||| x == 0x2029
    ||| x == 0x202F
    ||| x == 0x205F
    ||| x == 0x3000
}

/// The text without its leading whitespace.
pub open spec fn trim_start(s: Seq<char>) -> Seq<char>
    decreases s.len(),
{
    if s.len() > 0 && is_white_space(s[0]) {
        trim_start(s.drop_first())
    } else {
        s
    }
}

/// The text without its trailing whitespace.
pub open spec fn trim_end(s: Seq<char>) -> Seq<char>
    decreases s.len(),
{
    if s.len() > 0 && is_white_space(s.last()) {
        trim_end(s.drop_last())
    } else {
        s
    }
}

/// The text without leading and trailing whitespace.
pub open spec fn trimmed(s: Seq<char>) -> Seq<char> {
    trim_end(trim_start(s))
}

/// An ASCII decimal digit.
pub open spec fn is_decimal_digit(c: char) -> bool {
    48 <= (c as u32) <= 57
}

/// Every character is an ASCII decimal digit.
pub open spec fn all_decimal(d: Seq<char>) -> bool {
    forall|i: int| 0 <= i < d.len() ==> is_decimal_digit(#[trigger] d[i])
}

/// The number that a string of decimal digits denotes.
pub open spec fn decimal_value(d: Seq<char>) -> int
    decreases d.len(),
{
    if d.len() == 0 {
        0
    } else {
        decimal_value(d.drop_last()) * 10 + ((d.last() as u32) - 48)
    }
}

/// What `str::parse::<usize>` yields: after an optional leading `+`, one or
/// more decimal digits denoting a number that fits in a `usize`; `None`
/// otherwise (empty text, a lone sign, a `-`, any other character, overflow).
pub open spec fn parsed_usize(s: Seq<char>) -> Option<usize> {
    let digits = if s.len() > 0 && s[0] == '+' { s.drop_first() } else { s };
    if digits.len() > 0 && all_decimal(digits) && decimal_value(digits) <= usize::MAX {
        Some(decimal_value(digits) as usize)
    } else {
        None
    }
}

/// What `str::to_lowercase` returns.
pub uninterp spec fn lowercased(s: Seq<char>) -> Seq<char>;

/// Removes leading and trailing whitespace, through std's `str::trim`,
/// whose documentation defines whitespace as the Unicode White_Space property.
#[verifier::external_body]
fn trim_text(s: &str) -> (r: &str)
    ensures
        r@ == trimmed(s@),
{
    s.trim()
}

/// Reads a decimal `usize`, through std's `str::parse::<usize>` (that is,
/// `usize::from_str`, radix 10: an optional `+`, then digits; any other
/// character, an empty text or an overflow is an error, here `None`).
#[verifier::external_body]
fn parse_number(s: &str) -> (r: Option<usize>)
    ensures
        r == parsed_usize(s@),
{
    s.parse::<usize>().ok()
}

/// Lower-cases a text, through std's `str::to_lowercase`.
#[verifier::external_body]
fn lowercase_text(s: &str) -> (r: String)
    ensures
        r@ == lowercased(s@),
{
    s.to_lowercase()
}

/// Why a typed card choice was refused.
#[derive(Clone, Copy, PartialEq, Eq, Debug, Structural)]
pub enum ChoiceError {
    /// The text is not a number.
    NotANumber,
    /// The number is not between 1 and the number of cards in hand.
    OutOfRange,
}

/// The card position (from 0) that a parsed card number (from 1) selects.
pub open spec fn choice_for(parsed: Option<usize>, hand_len: int) -> Result<usize, ChoiceError> {
    match parsed {
        None => Err(ChoiceError::NotANumber),
        Some(n) => if 1 <= n <= hand_len {
            Ok((n - 1) as usize)
        } else {
            Err(ChoiceError::OutOfRange)
        },
    }
}

/// Checks a parsed card number (1 to `hand_len`) and turns it into a position.
pub fn card_choice_from_parsed(parsed: Option<usize>, hand_len: usize) -> (r: Result<usize, ChoiceError>)
    ensures
        r == choice_for(parsed, hand_len as int),
        r matches Ok(i) ==> i < hand_len,
{
    match parsed {
        None => Err(ChoiceError::NotANumber),
        Some(num) => {
            if num >= 1 && num <= hand_len {
                Ok(num - 1)
            } else {
                Err(ChoiceError::OutOfRange)
            }
        },
    }
}

/// Interprets a typed line as the number of a card in a hand of `hand_len`
/// cards: surrounding whitespace is ignored, and the result is the card's
/// position counted from 0.
pub fn interpret_card_choice(input: &str, hand_len: usize) -> (r: Result<usize, ChoiceError>)
    ensures
        r == choice_for(parsed_usize(trimmed(input@)), hand_len as int),
        r matches Ok(i) ==> i < hand_len,
{
    let parsed = parse_number(trim_text(input));
    card_choice_from_parsed(parsed, hand_len)
}

/// The answer a normalised word gives: "y" is yes, "n" is no, anything else none.
pub open spec fn answer_for(word: Seq<char>) -> Option<bool> {
    if word == "y"@ {
        Some(true)
    } else if word == "n"@ {
        Some(false)
    } else {
        None
    }
}

/// Reads a normalised answer word: "y" or "n".
pub fn yes_no_from_word(word: &str) -> (r: Option<bool>)
    ensures
        r == answer_for(word@),
{
    let word = String::from_str(word);
    if word == String::from_str("y") {
        Some(true)
    } else if word == String::from_str("n") {
        Some(false)
    } else {
        None
    }
}

/// Interprets a typed line as a yes/no answer, ignoring surrounding
/// whitespace and letter case.
pub fn interpret_yes_no(input: &str) -> (r: Option<bool>)
    ensures
        r == answer_for(lowercased(trimmed(input@))),
{
    let lowered = lowercase_text(trim_text(input));
    yes_no_from_word(lowered.as_str())
}

/// A key of the card-selection menu.
#[derive(Clone, Copy, PartialEq, Eq, Debug, Structural)]
pub enum MenuKey {
    Left,
    Up,
    Right,
    Down,
    Mute,
    Enter,
    Escape,
    Other,
}

/// What a key press asks of the card-selection menu.
#[derive(Clone, Copy, PartialEq, Eq, Debug, Structural)]
pub enum MenuAction {
    /// Highlight the card at this position.
    Select(usize),
    /// Flip the mute switch.
    ToggleMute,
    /// Play the card at this position.
    Confirm(usize),
    /// Leave the game.
    Quit,
    /// Nothing to do.
    Ignore,
}

/// The menu's response to `key` while the card at `selected` is highlighted
/// in a hand of `hand_len` cards: left/up and right/down move the highlight
/// by one, wrapping around at either end; M toggles the sound; Enter plays
/// the highlighted card; Escape quits.
pub open spec fn menu_response(selected: int, hand_len: int, key: MenuKey) -> MenuAction {
    match key {
        MenuKey::Left | MenuKey::Up => MenuAction::Select(
            if selected > 0 { (selected - 1) as usize } else { (hand_len - 1) as usize },
        ),
        MenuKey::Right | MenuKey::Down => MenuAction::Select(
            if selected < hand_len - 1 { (selected + 1) as usize } else { 0usize },
        ),
        MenuKey::Mute => MenuAction::ToggleMute,
        MenuKey::Enter => MenuAction::Confirm(selected as usize),
        MenuKey::Escape => MenuAction::Quit,
        MenuKey::Other => MenuAction::Ignore,
    }
}

/// Handles one key press of the card-selection menu.
pub fn menu_step(selected: usize, hand_len: usize, key: MenuKey) -> (action: MenuAction)
    requires
        selected < hand_len,
    ensures
        action == menu_response(selected as int, hand_len as int, key),
{
    match key {
        MenuKey::Left | MenuKey::Up => {
            if selected > 0 {
                MenuAction::Select(selected - 1)
            } else {
                MenuAction::Select(hand_len - 1)
            }
        },
        MenuKey::Right | MenuKey::Down => {
            if selected < hand_len - 1 {
                MenuAction::Select(selected + 1)
            } else {
                MenuAction::Select(0)
            }
        },
        MenuKey::Mute => MenuAction::ToggleMute,
        MenuKey::Enter => MenuAction::Confirm(selected),
        MenuKey::Escape => MenuAction::Quit,
        MenuKey::Other => MenuAction::Ignore,
    }
}

/// The menu never highlights or plays a card outside the hand.
pub proof fn menu_stays_in_hand(selected: int, hand_len: int, key: MenuKey)
    requires
        0 <= selected < hand_len,
    ensures
        menu_response(selected, hand_len, key) matches MenuAction::Select(i) ==> i < hand_len,
        menu_response(selected, hand_len, key) matches MenuAction::Confirm(i) ==> i < hand_len,
{
}


/// Moving the highlight one card to the right and then one to the left comes
/// back to the same card, and so does moving left then right.
pub proof fn left_undoes_right(selected: int, hand_len: int)
    requires
        0 <= selected < hand_len <= usize::MAX,
    ensures
        menu_response(selected, hand_len, MenuKey::Right) matches MenuAction::Select(j) ==> menu_response(
            j as int,
            hand_len,
            MenuKey::Left,
        ) == MenuAction::Select(selected as usize),
        menu_response(selected, hand_len, MenuKey::Left) matches MenuAction::Select(j) ==> menu_response(
            j as int,
            hand_len,
            MenuKey::Right,
        ) == MenuAction::Select(selected as usize),
{
}

/// Up moves the highlight exactly as Left does, and Down exactly as Right:
/// one card towards the start (from the first card, to the last) and one
/// card towards the end (from the last card, to the first).
pub proof fn arrows_move_by_one(selected: int, hand_len: int)
    requires
        0 <= selected < hand_len <= usize::MAX,
    ensures
        menu_response(selected, hand_len, MenuKey::Up) == menu_response(selected, hand_len, MenuKey::Left),
        menu_response(selected, hand_len, MenuKey::Down) == menu_response(selected, hand_len, MenuKey::Right),
        selected > 0 ==> menu_response(selected, hand_len, MenuKey::Left) == MenuAction::Select((selected - 1) as usize),
        selected == 0 ==> menu_response(selected, hand_len, MenuKey::Left) == MenuAction::Select((hand_len - 1) as usize),
        selected + 1 < hand_len ==> menu_response(selected, hand_len, MenuKey::Right) == MenuAction::Select(
            (selected + 1) as usize,
        ),
        selected + 1 == hand_len ==> menu_response(selected, hand_len, MenuKey::Right) == MenuAction::Select(0),
{
}

} // verus!

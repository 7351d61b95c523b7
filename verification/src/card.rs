//! The forty-card Chkobba deck: suits, ranks, their labels and values.

use vstd::prelude::*;
use vstd::string::*;
use colored::Colorize;
use itertools::Itertools;

verus! {

/// The four suits, in deck order.
#[derive(Clone, Copy, PartialEq, Eq, Debug, Structural)]
pub enum Suit {
    Hearts,
    Spades,
    Diamonds,
    Clubs,
}

/// The ten ranks, in deck order. Queen, Jack and King count 8, 9 and 10.
#[derive(Clone, Copy, PartialEq, Eq, Debug, Structural)]
pub enum Rank {
    Ace,
    Two,
    Three,
    Four,
    Five,
    Six,
    Seven,
    Queen,
    Jack,
    King,
}

/// One playing card.
#[derive(Clone, Copy, PartialEq, Eq, Debug, Structural)]
pub struct Card {
    pub suit: Suit,
    pub rank: Rank,
}

/// The numeric value of a rank: Ace is 1, ..., Seven is 7, Queen 8, Jack 9, King 10.
pub open spec fn rank_value(r: Rank) -> int {
    match r {
        Rank::Ace => 1,
        Rank::Two => 2,
        Rank::Three => 3,
        Rank::Four => 4,
        Rank::Five => 5,
        Rank::Six => 6,
        Rank::Seven => 7,
        Rank::Queen => 8,
        Rank::Jack => 9,
        Rank::King => 10,
    }
}

/// The numeric value of a card (that of its rank).
pub open spec fn card_value(c: Card) -> int {
    rank_value(c.rank)
}

/// The label printed for a rank.
pub open spec fn rank_label(r: Rank) -> Seq<char> {
    match r {
        Rank::Ace => "A"@,
        Rank::Two => "2"@,
        Rank::Three => "3"@,
        Rank::Four => "4"@,
        Rank::Five => "5"@,
        Rank::Six => "6"@,
        Rank::Seven => "7"@,
        Rank::Queen => "Q"@,
        Rank::Jack => "J"@,
        Rank::King => "K"@,
    }
}

/// The symbol printed for a suit.
pub open spec fn suit_symbol(s: Suit) -> Seq<char> {
    match s {
        Suit::Hearts => "♥"@,
        Suit::Clubs => "♣"@,
        Suit::Diamonds => "♦"@,
        Suit::Spades => "♠"@,
    }
}

impl Suit {
    /// The suit's symbol: ♥, ♠, ♦ or ♣.
    pub fn symbol(&self) -> (s: &'static str)
        ensures
            s@ == suit_symbol(*self),
    {
        match self {
            Suit::Hearts => "♥",
            Suit::Clubs => "♣",
            Suit::Diamonds => "♦",
            Suit::Spades => "♠",
        }
    }
}

impl Rank {
    /// The rank's label: A, 2, ..., 7, Q, J, K.
    pub fn card_value(&self) -> (s: &'static str)
        ensures
            s@ == rank_label(*self),
    {
        match self {
            Rank::Ace => "A",
            Rank::Two => "2",
            Rank::Three => "3",
            Rank::Four => "4",
            Rank::Five => "5",
            Rank::Six => "6",
            Rank::Seven => "7",
            Rank::Queen => "Q",
            Rank::Jack => "J",
            Rank::King => "K",
        }
    }

    /// The rank's numeric value, 1 to 10.
    pub fn value(&self) -> (v: usize)
        ensures
            v == rank_value(*self),
            1 <= v <= 10,
    {
        match self {
            Rank::Ace => 1,
            Rank::Two => 2,
            Rank::Three => 3,
            Rank::Four => 4,
            Rank::Five => 5,
            Rank::Six => 6,
            Rank::Seven => 7,
            Rank::Queen => 8,
            Rank::Jack => 9,
            Rank::King => 10,
        }
    }
}

/// A terminal colour used to paint a card.
#[derive(Clone, Copy, PartialEq, Eq, Debug, Structural)]
pub enum Ink {
    Black,
    Red,
    White,
}

/// The ANSI code digits of a foreground colour.
pub open spec fn fg_code(i: Ink) -> Seq<char> {
    match i {
        Ink::Black => "30"@,
        Ink::Red => "31"@,
        Ink::White => "37"@,
    }
}

/// The ANSI code digits of a background colour.
pub open spec fn bg_code(i: Ink) -> Seq<char> {
    match i {
        Ink::Black => "40"@,
        Ink::Red => "41"@,
        Ink::White => "47"@,
    }
}

/// A text style that colored can apply.
#[derive(Clone, Copy, PartialEq, Eq, Debug, Structural)]
pub enum TextStyle {
    Bold,
}

/// The ANSI code digits of a text style.
pub open spec fn style_code(s: TextStyle) -> Seq<char> {
    match s {
        TextStyle::Bold => "1"@,
    }
}

/// The escape sequence that switches on the given style, background and foreground.
pub open spec fn style_prefix(style: TextStyle, fg: Ink, bg: Ink) -> Seq<char> {
    "\x1B["@ + style_code(style) + ";"@ + bg_code(bg) + ";"@ + fg_code(fg) + "m"@
}

/// The escape sequence that resets all styling.
pub open spec fn style_reset() -> Seq<char> {
    "\x1B[0m"@
}

/// A text holds no escape character.
pub open spec fn escape_free(s: Seq<char>) -> bool {
    forall|i: int| 0 <= i < s.len() ==> s[i] != '\x1B'
}

/// What a painted text may read: the text itself when the terminal is not
/// coloured, or the text between the style prefix and the reset sequence.
pub open spec fn painted(res: Seq<char>, text: Seq<char>, style: TextStyle, fg: Ink, bg: Ink) -> bool {
    ||| res == text
    ||| res == style_prefix(style, fg, bg) + text + style_reset()
}

/// Paints `text` in `style` with foreground `fg` on background `bg`, through
/// colored's `Colorize::color`, `on_color`, `Style::from` (set as the
/// string's style) and `to_string`. Whether colours are written depends on
/// the environment (CLICOLOR, NO_COLOR, CLICOLOR_FORCE, whether stdout is a
/// terminal), so the contract states the two outcomes that colored's source
/// shows for a text without an escape character: the text unchanged, or the
/// text between the style prefix (style, then background, then foreground
/// codes) and the reset sequence.
#[verifier::external_body]
fn paint(text: &str, style: TextStyle, fg: Ink, bg: Ink) -> (res: String)
    ensures
        escape_free(text@) ==> painted(res@, text@, style, fg, bg),
{
    let style = match style { TextStyle::Bold => colored::Styles::Bold };
    let fg = match fg {
        Ink::Black => colored::Color::Black,
        Ink::Red => colored::Color::Red,
        Ink::White => colored::Color::White,
    };
    let bg = match bg {
        Ink::Black => colored::Color::Black,
        Ink::Red => colored::Color::Red,
        Ink::White => colored::Color::White,
    };
    let mut block = text.color(fg).on_color(bg);
    block.style = colored::Style::from(style);
    block.to_string()
}

/// The colours (foreground, background) of a suit's cards: diamonds red on
/// white, hearts white on red, clubs white on black, spades black on white.
pub open spec fn suit_inks(s: Suit) -> (Ink, Ink) {
    match s {
        Suit::Diamonds => (Ink::Red, Ink::White),
        Suit::Hearts => (Ink::White, Ink::Red),
        Suit::Clubs => (Ink::White, Ink::Black),
        Suit::Spades => (Ink::Black, Ink::White),
    }
}

/// The plain text of a card, padded with a space on each side: " 7♦ ".
pub open spec fn card_text(c: Card) -> Seq<char> {
    " "@ + rank_label(c.rank) + suit_symbol(c.suit) + " "@
}

impl Suit {
    /// The colours in which this suit's cards are painted.
    pub fn inks(&self) -> (r: (Ink, Ink))
        ensures
            r == suit_inks(*self),
    {
        match self {
            Suit::Diamonds => (Ink::Red, Ink::White),
            Suit::Hearts => (Ink::White, Ink::Red),
            Suit::Clubs => (Ink::White, Ink::Black),
            Suit::Spades => (Ink::Black, Ink::White),
        }
    }
}

proof fn lemma_card_text_escape_free(c: Card)
    ensures
        escape_free(card_text(c)),
{
    reveal_strlit(" ");
    reveal_strlit("A");
    reveal_strlit("2");
    reveal_strlit("3");
    reveal_strlit("4");
    reveal_strlit("5");
    reveal_strlit("6");
    reveal_strlit("7");
    reveal_strlit("Q");
    reveal_strlit("J");
    reveal_strlit("K");
    reveal_strlit("♥");
    reveal_strlit("♣");
    reveal_strlit("♦");
    reveal_strlit("♠");
    let t = card_text(c);
    assert forall|i: int| 0 <= i < t.len() implies t[i] != '\x1B' by {
        if i == 0 {
        } else if i == 1 {
        } else if i == 2 {
        } else {
        }
    }
}

impl Card {
    /// The card as a coloured block: its padded text painted in bold in its
    /// suit's colours.
    pub fn format_card(&self) -> (s: String)
        ensures
            painted(s@, card_text(*self), TextStyle::Bold, suit_inks(self.suit).0, suit_inks(self.suit).1),
    {
        let mut raw = String::from_str(" ");
        raw.append(self.rank.card_value());
        raw.append(self.suit.symbol());
        raw.append(" ");
        proof {
            lemma_card_text_escape_free(*self);
            assert(raw@ =~= card_text(*self));
        }
        let (fg, bg) = self.suit.inks();
        paint(raw.as_str(), TextStyle::Bold, fg, bg)
    }
}

/// The suit at position `i` (0 to 3) of the deck order.
pub open spec fn suit_at(i: int) -> Suit {
    if i == 0 {
        Suit::Hearts
    } else if i == 1 {
        Suit::Spades
    } else if i == 2 {
        Suit::Diamonds
    } else {
        Suit::Clubs
    }
}

/// The position of a suit in the deck order.
pub open spec fn suit_index(s: Suit) -> int {
    match s {
        Suit::Hearts => 0,
        Suit::Spades => 1,
        Suit::Diamonds => 2,
        Suit::Clubs => 3,
    }
}

/// The rank at position `i` (0 to 9) of the deck order: the rank of value `i + 1`.
pub open spec fn rank_at(i: int) -> Rank {
    if i == 0 {
        Rank::Ace
    } else if i == 1 {
        Rank::Two
    } else if i == 2 {
        Rank::Three
    } else if i == 3 {
        Rank::Four
    } else if i == 4 {
        Rank::Five
    } else if i == 5 {
        Rank::Six
    } else if i == 6 {
        Rank::Seven
    } else if i == 7 {
        Rank::Queen
    } else if i == 8 {
        Rank::Jack
    } else {
        Rank::King
    }
}

/// The unshuffled deck: for each suit in order, its ten ranks in order.
pub open spec fn deck_order() -> Seq<Card> {
    Seq::new(40, |i: int| Card { suit: suit_at(i / 10), rank: rank_at(i % 10) })
}

/// Builds the full forty-card deck, suit by suit, rank by rank.
pub fn new_deck() -> (deck: Vec<Card>)
    ensures
        deck@ == deck_order(),
{
    let suits = [Suit::Hearts, Suit::Spades, Suit::Diamonds, Suit::Clubs];
    let ranks = [
        Rank::Ace,
        Rank::Two,
        Rank::Three,
        Rank::Four,
        Rank::Five,
        Rank::Six,
        Rank::Seven,
        Rank::Queen,
        Rank::Jack,
        Rank::King,
    ];
    let mut deck: Vec<Card> = Vec::new();
    let mut s: usize = 0;
    while s < 4
        invariant
            0 <= s <= 4,
            deck@.len() == 10 * s,
            forall|k: int| 0 <= k < 4 ==> #[trigger] suits@[k] == suit_at(k),
            forall|k: int| 0 <= k < 10 ==> #[trigger] ranks@[k] == rank_at(k),
            forall|i: int| 0 <= i < deck@.len() ==> #[trigger] deck@[i] == deck_order()[i],
        decreases 4 - s,
    {
        let mut r: usize = 0;
        while r < 10
            invariant
                0 <= s < 4,
                0 <= r <= 10,
                deck@.len() == 10 * s + r,
                forall|k: int| 0 <= k < 4 ==> #[trigger] suits@[k] == suit_at(k),
                forall|k: int| 0 <= k < 10 ==> #[trigger] ranks@[k] == rank_at(k),
                forall|i: int| 0 <= i < deck@.len() ==> #[trigger] deck@[i] == deck_order()[i],
            decreases 10 - r,
        {
            let ghost n = deck@.len();
            deck.push(Card { suit: suits[s], rank: ranks[r] });
            assert(n / 10 == s as int && n % 10 == r as int);
            r = r + 1;
        }
        s = s + 1;
    }
    assert(deck@ =~= deck_order());
    deck
}

/// Every card of the game occurs exactly once in the unshuffled deck, which
/// therefore holds forty distinct cards.
pub proof fn deck_holds_each_card_once(c: Card)
    ensures
        deck_order().len() == 40,
        deck_order().to_multiset().count(c) == 1,
{
    broadcast use vstd::seq_lib::group_to_multiset_ensures;

    let d = deck_order();
    assert(d.no_duplicates()) by {
        assert forall|i: int, j: int| 0 <= i < d.len() && 0 <= j < d.len() && i != j implies d[i]
            != d[j] by {
            assert(i / 10 != j / 10 || i % 10 != j % 10);
        }
    }
    d.lemma_multiset_has_no_duplicates();
    let k = 10 * suit_index(c.suit) + (rank_value(c.rank) - 1);
    assert(k / 10 == suit_index(c.suit) && k % 10 == rank_value(c.rank) - 1);
    assert(d[k] == c);
    assert(d.contains(c));
}

/// The parts written one after the other with `sep` between neighbours.
pub open spec fn joined(parts: Seq<Seq<char>>, sep: Seq<char>) -> Seq<char>
    decreases parts.len(),
{
    if parts.len() == 0 {
        seq![]
    } else if parts.len() == 1 {
        parts[0]
    } else {
        joined(parts.drop_last(), sep) + sep + parts.last()
    }
}

/// Joins texts with `sep` between neighbours, through itertools'
/// `Itertools::join`: its source writes the first item, then for each further
/// item the separator and the item; an empty list gives an empty text.
#[verifier::external_body]
fn join_texts(parts: &Vec<String>, sep: &str) -> (res: String)
    ensures
        res@ == joined(parts@.map_values(|p: String| p@), sep@),
{
    parts.iter().join(sep)
}

/// The cards as coloured blocks (see `Card::format_card`) separated by spaces,
/// as the table is shown.
pub fn format_cards(cards: &[Card]) -> (s: String)
    ensures
        exists|parts: Seq<Seq<char>>| {
            &&& parts.len() == cards@.len()
            &&& forall|i: int| 0 <= i < parts.len() ==> painted(
                #[trigger] parts[i],
                card_text(cards@[i]),
                TextStyle::Bold,
                suit_inks(cards@[i].suit).0,
                suit_inks(cards@[i].suit).1,
            )
            &&& s@ == joined(parts, " "@)
        },
{
    let mut parts: Vec<String> = Vec::new();
    let mut i: usize = 0;
    while i < cards.len()
        invariant
            i <= cards@.len(),
            parts@.len() == i,
            forall|k: int| 0 <= k < i ==> painted(
                #[trigger] parts@[k]@,
                card_text(cards@[k]),
                TextStyle::Bold,
                suit_inks(cards@[k].suit).0,
                suit_inks(cards@[k].suit).1,
            ),
        decreases cards@.len() - i,
    {
        let block = cards[i].format_card();
        parts.push(block);
        i = i + 1;
    }
    let s = join_texts(&parts, " ");
    assert(parts@.map_values(|p: String| p@).len() == cards@.len());
    s
}

} // verus!

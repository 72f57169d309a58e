//! How items, players and markings are drawn: each by one emoji.

use vstd::prelude::*;
use unicode_width::UnicodeWidthStr;
use crate::tile::{Item, Player, TileMarking};

verus! {

/// The number of columns that a text takes up when it is displayed, as
/// `UnicodeWidthStr::width` counts them.
pub uninterp spec fn display_width(text: Seq<char>) -> nat;

/// `UnicodeWidthStr::width` of `text`: the number of columns that the text
/// takes up. Nothing is claimed of the number but that it depends on the text
/// alone.
#[verifier::external_body]
fn str_width(text: &str) -> (width: usize)
    ensures
        width == display_width(text@),
{
    UnicodeWidthStr::width(text)
}

/// What can be drawn as an emoji.
pub trait Emoji {
    /// The emoji that stands for the value.
    spec fn emoji_text(&self) -> Seq<char>;

    /// The emoji that stands for the value.
    fn emoji(&self) -> (text: &str)
        ensures
            text@ == self.emoji_text(),
    ;

    /// The number of columns that the emoji takes up.
    fn emoji_width(&self) -> (width: usize)
        ensures
            width == display_width(self.emoji_text()),
    {
        str_width(self.emoji())
    }
}

impl Emoji for Item {
    open spec fn emoji_text(&self) -> Seq<char> {
        match self {
            Item::Chest => "📦"@,
            Item::Gnome => "👦"@,
            Item::Dragon => "🐉"@,
            Item::Unicorn => "🦄"@,
            Item::Phantom => "👻"@,
            Item::Candle => "🕯️"@,
            Item::Cat => "🐱"@,
            Item::Keys => "🗝"@,
            Item::Book => "📕"@,
            Item::Spider => "🕷"@,
            Item::Crown => "👑"@,
            Item::Sword => "🗡️"@,
            Item::Goblet => "🏆"@,
            Item::Mouse => "🐭"@,
            Item::Ring => "💍"@,
            Item::Potion => "⚗️"@,
            Item::Beetle => "🐞"@,
            Item::Owl => "🦉"@,
            Item::Gem => "💎"@,
            Item::Genie => "🧞‍♀️"@,
            Item::Bat => "🦇"@,
            Item::Sack => "💰"@,
            Item::Helmet => "🧢"@,
            Item::Lizard => "🦎"@,
        }
    }

    fn emoji(&self) -> (text: &str) {
        match self {
            Item::Chest => "📦",
            Item::Gnome => "👦",
            Item::Dragon => "🐉",
            Item::Unicorn => "🦄",
            Item::Phantom => "👻",
            Item::Candle => "🕯️",
            Item::Cat => "🐱",
            Item::Keys => "🗝",
            Item::Book => "📕",
            Item::Spider => "🕷",
            Item::Crown => "👑",
            Item::Sword => "🗡️",
            Item::Goblet => "🏆",
            Item::Mouse => "🐭",
            Item::Ring => "💍",
            Item::Potion => "⚗️",
            Item::Beetle => "🐞",
            Item::Owl => "🦉",
            Item::Gem => "💎",
            Item::Genie => "🧞‍♀️",
            Item::Bat => "🦇",
            Item::Sack => "💰",
            Item::Helmet => "🧢",
            Item::Lizard => "🦎",
        }
    }
}

impl Emoji for Player {
    open spec fn emoji_text(&self) -> Seq<char> {
        match self {
            Player::Player1 => "♠"@,
            Player::Player2 => "♥"@,
            Player::Player3 => "♦"@,
            Player::Player4 => "♣"@,
        }
    }

    fn emoji(&self) -> (text: &str) {
        match self {
            Player::Player1 => "♠",
            Player::Player2 => "♥",
            Player::Player3 => "♦",
            Player::Player4 => "♣",
        }
    }
}

impl Emoji for TileMarking {
    open spec fn emoji_text(&self) -> Seq<char> {
        match self {
            TileMarking::Item(item) => item.emoji_text(),
            TileMarking::PlayerStart(Player::Player1) => "♤"@,
            TileMarking::PlayerStart(Player::Player2) => "♡"@,
            TileMarking::PlayerStart(Player::Player3) => "♢"@,
            TileMarking::PlayerStart(Player::Player4) => "♧"@,
        }
    }

    fn emoji(&self) -> (text: &str) {
        match self {
            TileMarking::Item(item) => item.emoji(),
            TileMarking::PlayerStart(Player::Player1) => "♤",
            TileMarking::PlayerStart(Player::Player2) => "♡",
            TileMarking::PlayerStart(Player::Player3) => "♢",
            TileMarking::PlayerStart(Player::Player4) => "♧",
        }
    }
}

impl Item {
    /// The name of the item.
    pub open spec fn name_text(&self) -> Seq<char> {
        match self {
            Item::Chest => "Chest"@,
            Item::Gnome => "Gnome"@,
            Item::Dragon => "Dragon"@,
            Item::Unicorn => "Unicorn"@,
            Item::Phantom => "Ghost"@,
            Item::Candle => "Candle"@,
            Item::Cat => "Cat"@,
            Item::Keys => "Keys"@,
            Item::Book => "Book"@,
            Item::Spider => "Spider"@,
            Item::Crown => "Crown"@,
            Item::Sword => "Sword"@,
            Item::Goblet => "Goblet"@,
            Item::Mouse => "Mouse"@,
            Item::Ring => "Ring"@,
            Item::Potion => "Potion"@,
            Item::Beetle => "Beetle"@,
            Item::Owl => "Owl"@,
            Item::Gem => "Gem"@,
            Item::Genie => "Genie"@,
            Item::Bat => "Bat"@,
            Item::Sack => "Sack"@,
            Item::Helmet => "Helmet"@,
            Item::Lizard => "Lizard"@,
        }
    }

    /// The name of the item.
    pub fn name(&self) -> (text: &'static str)
        ensures
            text@ == self.name_text(),
    {
        match self {
            Item::Chest => "Chest",
            Item::Gnome => "Gnome",
            Item::Dragon => "Dragon",
            Item::Unicorn => "Unicorn",
            Item::Phantom => "Ghost",
            Item::Candle => "Candle",
            Item::Cat => "Cat",
            Item::Keys => "Keys",
            Item::Book => "Book",
            Item::Spider => "Spider",
            Item::Crown => "Crown",
            Item::Sword => "Sword",
            Item::Goblet => "Goblet",
            Item::Mouse => "Mouse",
            Item::Ring => "Ring",
            Item::Potion => "Potion",
            Item::Beetle => "Beetle",
            Item::Owl => "Owl",
            Item::Gem => "Gem",
            Item::Genie => "Genie",
            Item::Bat => "Bat",
            Item::Sack => "Sack",
            Item::Helmet => "Helmet",
            Item::Lizard => "Lizard",
        }
    }

    /// The name of the item.
    pub fn to_string(&self) -> (text: String)
        ensures
            text@ == self.name_text(),
    {
        self.name().to_owned()
    }
}

impl Player {
    /// The player as text: the player's emoji.
    pub fn to_string(&self) -> (text: String)
        ensures
            text@ == self.emoji_text(),
    {
        self.emoji().to_owned()
    }
}

impl TileMarking {
    /// The marking as text: its emoji.
    pub fn to_string(&self) -> (text: String)
        ensures
            text@ == self.emoji_text(),
    {
        self.emoji().to_owned()
    }
}

} // verus!

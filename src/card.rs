use vstd::prelude::*;

use crate::player::Player;

verus! {

/// The four suits. Colors carry no order of their own: a color only ranks
/// relative to the trump color and the forced color of a trick.
#[derive(PartialEq, Eq, Structural, Clone, Copy, Debug)]
pub enum CardColor {
    BLUE,
    GREEN,
    RED,
    YELLOW,
}

/// A playing card: a numbered card of some color, a Wizard (wins every trick it
/// is played into) or a Fool (loses against every numbered card).
#[derive(PartialEq, Eq, Structural, Clone, Copy, Debug)]
pub enum Card {
    Number(u32, CardColor),
    /// value = 14
    Wizard,
    /// value = 0
    Fool,
}

/// The ranking value of a card: 0 for a Fool, 14 for a Wizard, the number for a
/// numbered card.
pub open spec fn card_value(c: Card) -> nat {
    match c {
        Card::Number(v, _) => v as nat,
        Card::Wizard => 14,
        Card::Fool => 0,
    }
}

/// The forced color of the plays from index `i` on: Fools are skipped, a Wizard
/// ends the search with no color, and the first numbered card gives its color.
pub open spec fn forced_color_from(cards: Seq<Card>, i: int) -> Option<CardColor>
    decreases cards.len() - i,
{
    if i < 0 || i >= cards.len() {
        None
    } else {
        match cards[i] {
            Card::Fool => forced_color_from(cards, i + 1),
            Card::Wizard => None,
            Card::Number(_, c) => Some(c),
        }
    }
}

/// The color that the other players are forced to follow in a trick.
pub open spec fn forced_color(cards: Seq<Card>) -> Option<CardColor> {
    forced_color_from(cards, 0)
}

/// Whether the numbered card `(nv, nc)`, played later, takes the trick from the
/// numbered card `(ov, oc)` that is winning it: trump beats non-trump, then the
/// forced color beats the rest, and within one class only a higher value wins.
pub open spec fn number_beats(
    nv: u32,
    nc: CardColor,
    ov: u32,
    oc: CardColor,
    trump: Option<CardColor>,
    forced: Option<CardColor>,
) -> bool {
    let new_trump = trump == Some(nc);
    let old_trump = trump == Some(oc);
    let new_forced = forced == Some(nc);
    let old_forced = forced == Some(oc);
    if new_trump || old_trump {
        new_trump && (!old_trump || nv > ov)
    } else if new_forced || old_forced {
        new_forced && (!old_forced || nv > ov)
    } else {
        nv > ov
    }
}

/// Whether card `new`, played later, takes the trick from the current winner
/// `old`. Nothing takes it from a Wizard, a Wizard takes it from anything else,
/// a numbered card takes it from a Fool, and a Fool takes it from nothing.
pub open spec fn beats(new: Card, old: Card, trump: Option<CardColor>, forced: Option<CardColor>) -> bool {
    match (new, old) {
        (_, Card::Wizard) => false,
        (Card::Wizard, _) => true,
        (Card::Number(_, _), Card::Fool) => true,
        (Card::Number(nv, nc), Card::Number(ov, oc)) => number_beats(nv, nc, ov, oc, trump, forced),
        (Card::Fool, _) => false,
    }
}

/// The index of the winning play among the first `n` plays: the first play
/// seeds the winner, and each later play replaces it when it beats it.
pub open spec fn winner_among(
    cards: Seq<Card>,
    trump: Option<CardColor>,
    forced: Option<CardColor>,
    n: nat,
) -> nat
    decreases n,
{
    if n <= 1 {
        0
    } else {
        let w = winner_among(cards, trump, forced, (n - 1) as nat);
        if beats(cards[n - 1], cards[w as int], trump, forced) {
            (n - 1) as nat
        } else {
            w
        }
    }
}

/// The cards of a trick, without their players.
pub open spec fn cards_of(trick: Seq<(Card, Player)>) -> Seq<Card> {
    trick.map_values(|play: (Card, Player)| play.0)
}

/// The index of the play that wins a trick under the given trump color.
pub open spec fn trick_winner(cards: Seq<Card>, trump: Option<CardColor>) -> nat {
    winner_among(cards, trump, forced_color(cards), cards.len())
}

/// Whether `r` is `s` with some elements left out and the rest kept in order.
pub open spec fn is_subsequence(r: Seq<Card>, s: Seq<Card>) -> bool
    decreases s.len(),
{
    if r.len() == 0 {
        true
    } else if s.len() == 0 {
        false
    } else {
        (r.last() == s.last() && is_subsequence(r.drop_last(), s.drop_last())) || is_subsequence(
            r,
            s.drop_last(),
        )
    }
}

/// The winner among the first `n` plays is one of them.
pub proof fn lemma_winner_among_in_range(
    cards: Seq<Card>,
    trump: Option<CardColor>,
    forced: Option<CardColor>,
    n: nat,
)
    requires
        n >= 1,
    ensures
        winner_among(cards, trump, forced, n) < n,
    decreases n,
{
    if n > 1 {
        lemma_winner_among_in_range(cards, trump, forced, (n - 1) as nat);
    }
}

/// A color filter never lengthens its input; every numbered card it keeps has
/// the filter's color; every Wizard and Fool of the input is kept; and what is
/// kept stays in its order.
pub proof fn filter_keeps_color_and_order(cards: Seq<Card>, color: CardColor)
    ensures
        filtered(cards, color).len() <= cards.len(),
        forall|i: int|
            0 <= i < filtered(cards, color).len() && (#[trigger] filtered(cards, color)[i] is Number)
                ==> filtered(cards, color)[i]->Number_1 == color,
        forall|i: int|
            0 <= i < cards.len() && !(#[trigger] cards[i] is Number) ==> filtered(cards, color).contains(
                cards[i],
            ),
        is_subsequence(filtered(cards, color), cards),
    decreases cards.len(),
{
    let pred = |c: Card| passes_filter(c, color);
    cards.lemma_filter_len(pred);
    assert forall|i: int|
        0 <= i < filtered(cards, color).len() && (#[trigger] filtered(cards, color)[i] is Number)
            implies filtered(cards, color)[i]->Number_1 == color by {
        cards.lemma_filter_pred(pred, i);
    }
    assert forall|i: int| 0 <= i < cards.len() && !(#[trigger] cards[i] is Number) implies filtered(
        cards,
        color,
    ).contains(cards[i]) by {
        cards.lemma_filter_contains(pred, i);
    }
    if cards.len() > 0 {
        filter_keeps_color_and_order(cards.drop_last(), color);
        reveal(Seq::filter);
        let rest = filtered(cards.drop_last(), color);
        if passes_filter(cards.last(), color) {
            assert(filtered(cards, color) == rest.push(cards.last()));
            assert(filtered(cards, color).drop_last() =~= rest);
        } else {
            assert(filtered(cards, color) == rest);
        }
    }
}

/// Evaluating the same trick twice under the same trump color names the same
/// winner, and that winner is the player of one of the trick's plays.
pub proof fn evaluate_winner_is_repeatable(
    trick: Seq<(Card, Player)>,
    trump: Option<CardColor>,
    first: Player,
    second: Player,
)
    requires
        trick.len() > 0,
        first == trick[trick_winner(cards_of(trick), trump) as int].1,
        second == trick[trick_winner(cards_of(trick), trump) as int].1,
    ensures
        first == second,
        trick_winner(cards_of(trick), trump) < trick.len(),
{
    let cards = cards_of(trick);
    lemma_winner_among_in_range(cards, trump, forced_color(cards), cards.len());
}

/// Whether `c` is the color held in `o`.
fn is_color(c: CardColor, o: Option<CardColor>) -> (r: bool)
    ensures
        r == (o == Some(c)),
{
    match o {
        Some(x) => x == c,
        None => false,
    }
}

/// Whether a color filter for `color` keeps card `c`: numbered cards of that
/// color, and every Wizard and Fool.
pub open spec fn passes_filter(c: Card, color: CardColor) -> bool {
    match c {
        Card::Number(_, cc) => cc == color,
        _ => true,
    }
}

/// The cards of `cards` that a filter for `color` keeps, in their order.
pub open spec fn filtered(cards: Seq<Card>, color: CardColor) -> Seq<Card> {
    cards.filter(|c: Card| passes_filter(c, color))
}

/// The decimal digit for `d` (below ten).
pub open spec fn digit_char(d: nat) -> char {
    seq!['0', '1', '2', '3', '4', '5', '6', '7', '8', '9'][d as int]
}

/// The decimal notation of `n`, without leading zeros.
pub open spec fn decimal(n: nat) -> Seq<char>
    decreases n,
{
    if n < 10 {
        seq![digit_char(n)]
    } else {
        decimal(n / 10) + seq![digit_char(n % 10)]
    }
}

/// The word for a color, as used in card names.
pub open spec fn color_word(c: CardColor) -> Seq<char> {
    match c {
        CardColor::BLUE => "Blue"@,
        CardColor::GREEN => "Green"@,
        CardColor::RED => "Red"@,
        CardColor::YELLOW => "Yellow"@,
    }
}

/// The display name of a card: "Fool", "Wizard", or the color word, a space and
/// the value ("Blue 5").
pub open spec fn card_name(c: Card) -> Seq<char> {
    match c {
        Card::Fool => "Fool"@,
        Card::Wizard => "Wizard"@,
        Card::Number(v, color) => color_word(color) + seq![' '] + decimal(v as nat),
    }
}

/// The cards of one color in a sorted deck: the values 1 to 13, then a Fool and
/// a Wizard.
pub open spec fn suit(color: CardColor) -> Seq<Card> {
    Seq::new(13, |j: int| Card::Number((j + 1) as u32, color)) + seq![Card::Fool, Card::Wizard]
}

/// The suits of the given colors, one after the other.
pub open spec fn suits(colors: Seq<CardColor>) -> Seq<Card>
    decreases colors.len(),
{
    if colors.len() == 0 {
        Seq::empty()
    } else {
        suits(colors.drop_last()) + suit(colors.last())
    }
}

/// The colors in deck order.
pub open spec fn deck_colors() -> Seq<CardColor> {
    seq![CardColor::BLUE, CardColor::GREEN, CardColor::RED, CardColor::YELLOW]
}

/// The whole deck, sorted: 60 cards, four suits of 15.
pub open spec fn full_deck() -> Seq<Card> {
    suits(deck_colors())
}

/// Relies on std's `format!` with `Display` for `str` and `u32`: the word, one
/// space, then the value in decimal without leading zeros.
#[verifier::external_body]
fn word_and_number(word: &str, value: u32) -> (r: String)
    ensures
        r@ == word@ + seq![' '] + decimal(value as nat),
{
    format!("{} {}", word, value)
}

/// Appends the suit of `color` to `cards`.
fn push_suit(cards: &mut Vec<Card>, color: CardColor)
    ensures
        final(cards)@ == old(cards)@ + suit(color),
{
    let ghost start = cards@;
    let mut value: u32 = 1;
    while value <= 13
        invariant
            1 <= value <= 14,
            cards@ == start + Seq::new((value - 1) as nat, |j: int| Card::Number((j + 1) as u32, color)),
        decreases 14 - value,
    {
        cards.push(Card::Number(value, color));
        value = value + 1;
        assert(cards@ =~= start + Seq::new((value - 1) as nat, |j: int| Card::Number((j + 1) as u32, color)));
    }
    cards.push(Card::Fool);
    cards.push(Card::Wizard);
    assert(cards@ =~= start + suit(color));
}

impl Card {
    /// Returns the value of the card: Fool -> 0, Wizard -> 14, Number -> its number.
    pub fn value(&self) -> (r: u32)
        ensures
            r == card_value(*self),
    {
        match self {
            Card::Fool => 0,
            Card::Wizard => 14,
            Card::Number(value, _) => *value,
        }
    }
    /// Whether `self`, played later, takes the trick from the current winner `old`.
    pub fn beats(&self, old: &Card, trump: Option<CardColor>, forced: Option<CardColor>) -> (r: bool)
        ensures
            r == beats(*self, *old, trump, forced),
    {
        match (*self, *old) {
            (_, Card::Wizard) => false,
            (Card::Wizard, _) => true,
            (Card::Number(_, _), Card::Fool) => true,
            (Card::Number(nv, nc), Card::Number(ov, oc)) => {
                let new_trump = is_color(nc, trump);
                let old_trump = is_color(oc, trump);
                let new_forced = is_color(nc, forced);
                let old_forced = is_color(oc, forced);
                if new_trump || old_trump {
                    new_trump && (!old_trump || nv > ov)
                } else if new_forced || old_forced {
                    new_forced && (!old_forced || nv > ov)
                } else {
                    nv > ov
                }
            },
            (Card::Fool, _) => false,
        }
    }

    /// Determines the player who wins a trick, given the plays in order and the
    /// trump color of the round, if any. The trick must not be empty.
    pub fn evaluate_winner(cards: Vec<(Card, Player)>, main_color: Option<CardColor>) -> (r: Player)
        requires
            cards.len() > 0,
        ensures
            trick_winner(cards_of(cards@), main_color) < cards.len(),
            r == cards@[trick_winner(cards_of(cards@), main_color) as int].1,
    {
        let ghost plays = cards_of(cards@);
        let mut cards_only: Vec<Card> = Vec::new();
        let mut i: usize = 0;
        while i < cards.len()
            invariant
                0 <= i <= cards.len(),
                plays == cards_of(cards@),
                cards_only@ == plays.subrange(0, i as int),
            decreases cards.len() - i,
        {
            cards_only.push(cards[i].0);
            i = i + 1;
            assert(cards_only@ =~= plays.subrange(0, i as int));
        }
        assert(cards_only@ =~= plays);
        let prio_color = Card::get_prio_color(cards_only);

        let mut winner: usize = 0;
        let mut i: usize = 1;
        while i < cards.len()
            invariant
                1 <= i <= cards.len(),
                plays == cards_of(cards@),
                prio_color == forced_color(plays),
                winner as nat == winner_among(plays, main_color, prio_color, i as nat),
                winner < i,
            decreases cards.len() - i,
        {
            if cards[i].0.beats(&cards[winner].0, main_color, prio_color) {
                winner = i;
            }
            i = i + 1;
        }
        proof {
            lemma_winner_among_in_range(plays, main_color, prio_color, plays.len());
        }
        let mut cards = cards;
        let (_, player) = cards.remove(winner);
        player
    }

    /// Returns the color that the other players are forced to follow in the
    /// given plays, if one can be determined: the color of the first numbered
    /// card, unless a Wizard comes before it. Fools are skipped.
    pub fn get_prio_color(cards: Vec<Card>) -> (r: Option<CardColor>)
        ensures
            r == forced_color(cards@),
    {
        let mut i: usize = 0;
        while i < cards.len()
            invariant
                0 <= i <= cards.len(),
                forced_color_from(cards@, i as int) == forced_color(cards@),
            decreases cards.len() - i,
        {
            match cards[i] {
                Card::Fool => {},
                Card::Wizard => {
                    return None;
                },
                Card::Number(_, color) => {
                    return Some(color);
                },
            }
            i = i + 1;
        }
        None
    }
    /// Keeps the cards of the given color, and every Wizard and Fool, in their order.
    pub fn filter(cards: Vec<Card>, color: CardColor) -> (r: Vec<Card>)
        ensures
            r@ == filtered(cards@, color),
    {
        let mut out: Vec<Card> = Vec::new();
        let mut i: usize = 0;
        while i < cards.len()
            invariant
                0 <= i <= cards.len(),
                out@ == filtered(cards@.subrange(0, i as int), color),
            decreases cards.len() - i,
        {
            let card = cards[i];
            match card {
                Card::Number(_, card_color) => {
                    if card_color == color {
                        out.push(card);
                    }
                },
                _ => out.push(card),
            }
            proof {
                let next = cards@.subrange(0, i + 1);
                assert(next.drop_last() =~= cards@.subrange(0, i as int));
                reveal(Seq::filter);
            }
            i = i + 1;
        }
        assert(cards@.subrange(0, cards.len() as int) =~= cards@);
        out
    }

    /// Returns the display name of the card: "Fool", "Wizard", or the color and
    /// the value of a numbered card ("Blue 5").
    pub fn name(&self) -> (r: String)
        ensures
            r@ == card_name(*self),
    {
        match self {
            Card::Fool => "Fool".to_string(),
            Card::Wizard => "Wizard".to_string(),
            Card::Number(value, color) => match color {
                CardColor::BLUE => word_and_number("Blue", *value),
                CardColor::GREEN => word_and_number("Green", *value),
                CardColor::RED => word_and_number("Red", *value),
                CardColor::YELLOW => word_and_number("Yellow", *value),
            },
        }
    }

    /// Returns every card of the game, sorted: for each color the values 1 to
    /// 13, then a Fool and a Wizard.
    pub fn all_cards() -> (r: Vec<Card>)
        ensures
            r@ == full_deck(),
    {
        let mut cards: Vec<Card> = Vec::new();
        let colors: [CardColor; 4] = [CardColor::BLUE, CardColor::GREEN, CardColor::RED, CardColor::YELLOW];
        assert(colors@ =~= deck_colors());
        let mut k: usize = 0;
        while k < 4
            invariant
                0 <= k <= 4,
                colors@ == deck_colors(),
                cards@ == suits(deck_colors().subrange(0, k as int)),
            decreases 4 - k,
        {
            push_suit(&mut cards, colors[k]);
            k = k + 1;
            assert(deck_colors().subrange(0, k as int).drop_last() =~= deck_colors().subrange(0, k - 1));
        }
        assert(deck_colors().subrange(0, 4) =~= deck_colors());
        cards
    }
}

} // verus!

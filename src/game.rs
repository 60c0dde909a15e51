use vstd::prelude::*;

use rand::seq::SliceRandom;
use rand::thread_rng;

use crate::card::{full_deck, Card};
use crate::player::{same_player, Player};

verus! {

/// The table: the players in seating order, the first one leading.
pub struct Game {
    pub players: Vec<Player>,
}

/// The seating after one rotation to the right: the last player moves to the front.
pub open spec fn rotated(s: Seq<Player>) -> Seq<Player> {
    seq![s.last()] + s.drop_last()
}

/// The seating after `t` rotations to the right.
pub open spec fn rotated_times(s: Seq<Player>, t: nat) -> Seq<Player>
    decreases t,
{
    if t == 0 {
        s
    } else {
        rotated(rotated_times(s, (t - 1) as nat))
    }
}

/// A hand of `amount` copies of `card`.
pub open spec fn copies(card: Card, amount: nat) -> Seq<Card> {
    Seq::new(amount, |j: int| card)
}

/// Whether `after` is `before` holding `hand`: same name and counts, new cards.
pub open spec fn dealt(before: Player, after: Player, hand: Seq<Card>) -> bool {
    &&& after.name@ == before.name@
    &&& after.cards@ == hand
    &&& after.guess_stitches == before.guess_stitches
    &&& after.actual_stitches == before.actual_stitches
}

/// The bid options offered: the values 1 to `max`, in order, without `excluded`.
pub open spec fn bid_options(max: nat, excluded: int) -> Seq<u32> {
    Seq::new(max, |i: int| (i + 1) as u32).filter(|v: u32| v as int != excluded)
}

/// Relies on rand's `SliceRandom::shuffle` with `thread_rng`: it swaps cards in
/// place, so the same cards come out, in some order.
#[verifier::external_body]
fn shuffle_cards(cards: &mut Vec<Card>)
    ensures
        final(cards)@.to_multiset() == old(cards)@.to_multiset(),
{
    cards.shuffle(&mut thread_rng());
}

impl Game {
    /// Rotates the seating by one to the right: the last player leads next.
    pub fn shift(&mut self)
        requires
            old(self).players.len() > 0,
        ensures
            final(self).players@ == rotated(old(self).players@),
    {
        let ghost start = self.players@;
        match self.players.pop() {
            Some(last) => {
                self.players.insert(0, last);
            },
            None => {},
        }
        assert(self.players@ =~= rotated(start));
    }

    /// Rotates the seating until `player` leads. The player must be seated.
    pub fn shift_till(&mut self, player: Player)
        requires
            exists|k: int| 0 <= k < old(self).players.len() && same_player(old(self).players@[k], player),
        ensures
            exists|t: nat|
                {
                    &&& final(self).players@ == rotated_times(old(self).players@, t)
                    &&& same_player(final(self).players@[0], player)
                    &&& forall|u: nat| u < t ==> !same_player(#[trigger] rotated_times(old(self).players@, u)[0], player)
                },
    {
        let ghost start = self.players@;
        let ghost n = self.players@.len();
        let ghost mut k: int = choose|k: int| 0 <= k < start.len() && same_player(start[k], player);
        let ghost mut t: nat = 0;
        while self.players[0] != player
            invariant
                self.players@.len() == n,
                0 <= k < n,
                same_player(self.players@[k], player),
                self.players@ == rotated_times(start, t),
                forall|u: nat| u < t ==> !same_player(#[trigger] rotated_times(start, u)[0], player),
            decreases
                if same_player(self.players@[0], player) { 0 } else { n - k },
        {
            proof {
                assert(!same_player(rotated_times(start, t)[0], player));
                assert forall|u: nat| u < t + 1 implies !same_player(#[trigger] rotated_times(start, u)[0], player) by {
                    if u == t {
                    }
                }
            }
            self.shift();
            proof {
                k = if k == n - 1 { 0 } else { k + 1 };
                t = t + 1;
            }
        }
    }

    /// The number of rounds of a game: 60 cards shared out among the players.
    pub fn round_limit(&self) -> (r: u32)
        requires
            self.players.len() > 0,
        ensures
            r == 60int / (self.players.len() as int),
    {
        (60 / self.players.len()) as u32
    }

    /// Deals a new hand to every player from `deck`: each hand is `amount`
    /// copies of the top card of the deck. Names and counts stay as they were.
    pub fn deal(&mut self, deck: &Vec<Card>, amount: u32)
        requires
            deck.len() > 0,
        ensures
            final(self).players.len() == old(self).players.len(),
            forall|i: int|
                0 <= i < old(self).players.len() ==> dealt(
                    old(self).players@[i],
                    #[trigger] final(self).players@[i],
                    copies(deck@[0], amount as nat),
                ),
    {
        let top = deck[0];
        let mut next: Vec<Player> = Vec::new();
        let mut i: usize = 0;
        while i < self.players.len()
            invariant
                0 <= i <= self.players.len(),
                next.len() == i,
                forall|j: int|
                    0 <= j < i ==> dealt(self.players@[j], #[trigger] next@[j], copies(top, amount as nat)),
            decreases self.players.len() - i,
        {
            let mut hand: Vec<Card> = Vec::new();
            let mut c: u32 = 0;
            while c < amount
                invariant
                    c <= amount,
                    hand@ == copies(top, c as nat),
                decreases amount - c,
            {
                hand.push(top);
                c = c + 1;
                assert(hand@ =~= copies(top, c as nat));
            }
            let p = &self.players[i];
            next.push(Player {
                name: p.name.clone(),
                cards: hand,
                guess_stitches: p.guess_stitches,
                actual_stitches: p.actual_stitches,
            });
            i = i + 1;
        }
        self.players = next;
    }

    /// Shuffles a full deck and deals each player `amount` copies of its top
    /// card. `amount` lies between 1 and 20.
    pub fn assign_cards(&mut self, amount: u32)
        requires
            1 <= amount <= 20,
        ensures
            final(self).players.len() == old(self).players.len(),
            exists|top: Card|
                {
                    &&& full_deck().contains(top)
                    &&& forall|i: int|
                        0 <= i < old(self).players.len() ==> dealt(
                            old(self).players@[i],
                            #[trigger] final(self).players@[i],
                            copies(top, amount as nat),
                        )
                },
    {
        let mut cards = Card::all_cards();
        proof {
            reveal_with_fuel(crate::card::suits, 5);
            assert(cards@.len() == 60);
        }
        let ghost deck = cards@;
        shuffle_cards(&mut cards);
        proof {
            vstd::seq_lib::to_multiset_len(deck);
            vstd::seq_lib::to_multiset_len(cards@);
            let top = cards@[0];
            assert(cards@.contains(top));
            vstd::seq_lib::to_multiset_contains(cards@, top);
            vstd::seq_lib::to_multiset_contains(deck, top);
        }
        self.deal(&cards, amount);
    }

    /// The bid options for a player: the values 1 to `max`, in order, except
    /// `max - current_count`. Whether the player bids last does not change them.
    pub fn stitch_options(max: u32, current_count: u32, _is_last: bool) -> (r: Vec<u32>)
        requires
            current_count <= max,
        ensures
            r@ == bid_options(max as nat, max - current_count),
    {
        let excluded = max - current_count;
        let mut out: Vec<u32> = Vec::new();
        let mut i: u32 = 0;
        while i < max
            invariant
                i <= max,
                excluded == max - current_count,
                out@ == bid_options(i as nat, excluded as int),
            decreases max - i,
        {
            let v = i + 1;
            if v != excluded {
                out.push(v);
            }
            proof {
                let all = Seq::new((i + 1) as nat, |j: int| (j + 1) as u32);
                assert(all.drop_last() =~= Seq::new(i as nat, |j: int| (j + 1) as u32));
                reveal(Seq::filter);
            }
            i = i + 1;
        }
        out
    }
}

impl Default for Game {
    fn default() -> (r: Game)
        ensures
            r.players@ == Seq::<Player>::empty(),
    {
        Game { players: Vec::new() }
    }
}

} // verus!

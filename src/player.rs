use vstd::prelude::*;
use vstd::utf8::encode_utf8;

use crate::card::Card;

verus! {

/// A participant of the game: a name, a hand of cards, and the number of
/// tricks guessed and actually taken in the current round. The trick evaluator
/// uses a player only as the identity it hands back.
#[derive(Debug, Clone)]
pub struct Player {
    pub name: String,
    pub cards: Vec<Card>,
    pub guess_stitches: u32,
    pub actual_stitches: u32,
}

/// Two players are the same when all their fields agree.
pub open spec fn same_player(a: Player, b: Player) -> bool {
    &&& a.name@ == b.name@
    &&& a.cards@ == b.cards@
    &&& a.guess_stitches == b.guess_stitches
    &&& a.actual_stitches == b.actual_stitches
}

/// Whether two hands hold the same cards in the same order.
fn same_cards(a: &Vec<Card>, b: &Vec<Card>) -> (r: bool)
    ensures
        r == (a@ == b@),
{
    if a.len() != b.len() {
        return false;
    }
    let mut i: usize = 0;
    while i < a.len()
        invariant
            a.len() == b.len(),
            0 <= i <= a.len(),
            forall|j: int| 0 <= j < i ==> a@[j] == b@[j],
        decreases a.len() - i,
    {
        if a[i] != b[i] {
            return false;
        }
        i = i + 1;
    }
    assert(a@ =~= b@);
    true
}

impl PartialEq for Player {
    fn eq(&self, other: &Player) -> (r: bool) {
        self.name == other.name && same_cards(&self.cards, &other.cards) && self.guess_stitches
            == other.guess_stitches && self.actual_stitches == other.actual_stitches
    }
}

impl vstd::std_specs::cmp::PartialEqSpecImpl for Player {
    open spec fn obeys_eq_spec() -> bool {
        true
    }

    open spec fn eq_spec(&self, other: &Player) -> bool {
        same_player(*self, *other)
    }
}

impl Player {
    /// A player with the given name, an empty hand and no tricks, provided the
    /// name is longer than one byte; `None` when it is too short.
    pub fn named(name: String) -> (r: Option<Player>)
        ensures
            r is Some <==> (encode_utf8(name@).len() as usize) > 1,
            r is Some ==> {
                let p = r->Some_0;
                &&& p.name@ == name@
                &&& p.cards@.len() == 0
                &&& p.guess_stitches == 0
                &&& p.actual_stitches == 0
            },
    {
        if name.as_str().len() <= 1 {
            None
        } else {
            Some(Player { name, cards: Vec::new(), guess_stitches: 0, actual_stitches: 0 })
        }
    }
}

} // verus!

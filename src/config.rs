use vstd::prelude::*;

verus! {

/// Game settings. Every field has a default.
#[derive(Clone, Copy, Debug, PartialEq, Eq, Structural)]
pub struct Config {
    /// Show locked blocks in their piece colors; otherwise in a single color.
    pub colored_board: bool,
    /// Deal pieces from shuffled bags rather than uniformly at random.
    pub modern_piece_rng: bool,
    /// Copies of each piece type per bag; values below 1 count as 1.
    pub bag_amount: u8,
    /// Never deal S, Z or O as the first piece of a game.
    pub first_piece_no_overhang: bool,
    /// Allow holding a piece.
    pub holding_enabled: bool,
}

pub fn colored_board_default() -> (b: bool)
    ensures
        b,
{
    true
}

pub fn modern_piece_rng_default() -> (b: bool)
    ensures
        b,
{
    true
}

pub fn bag_amount_default() -> (n: u8)
    ensures
        n == 5,
{
    5
}

pub fn first_piece_no_overhang_default() -> (b: bool)
    ensures
        b,
{
    true
}

pub fn holding_enabled_default() -> (b: bool)
    ensures
        b,
{
    true
}

impl Config {
    /// The settings with every field at its default.
    pub open spec fn spec_default() -> Config {
        Config {
            colored_board: true,
            modern_piece_rng: true,
            bag_amount: 5,
            first_piece_no_overhang: true,
            holding_enabled: true,
        }
    }

    /// Copies of each piece type per bag, clamped to at least 1.
    pub open spec fn bags(self) -> nat {
        if self.bag_amount < 1 {
            1
        } else {
            self.bag_amount as nat
        }
    }
}

impl Default for Config {
    fn default() -> (c: Self)
        ensures
            c == Config::spec_default(),
    {
        Config {
            colored_board: colored_board_default(),
            modern_piece_rng: modern_piece_rng_default(),
            bag_amount: bag_amount_default(),
            first_piece_no_overhang: first_piece_no_overhang_default(),
            holding_enabled: holding_enabled_default(),
        }
    }
}

} // verus!

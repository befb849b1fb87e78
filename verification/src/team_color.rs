use vstd::prelude::*;

verus! {

/// The twelve player colours of Warcraft III.
#[derive(Clone, Copy, Debug, PartialEq, Eq, Structural)]
pub enum TeamColor {
    Red,
    Blue,
    Teal,
    Purple,
    Yellow,
    Orange,
    Green,
    Pink,
    Grey,
    LightBlue,
    DarkGreen,
    Brown,
}

/// The colour's slot, `0..12`, in the order the colours are listed.
pub open spec fn slot_of(c: TeamColor) -> u8 {
    match c {
        TeamColor::Red => 0,
        TeamColor::Blue => 1,
        TeamColor::Teal => 2,
        TeamColor::Purple => 3,
        TeamColor::Yellow => 4,
        TeamColor::Orange => 5,
        TeamColor::Green => 6,
        TeamColor::Pink => 7,
        TeamColor::Grey => 8,
        TeamColor::LightBlue => 9,
        TeamColor::DarkGreen => 10,
        TeamColor::Brown => 11,
    }
}

/// Archive path of the colour texture of slot `s`:
/// `ReplaceableTextures/TeamColor/TeamColorNN.blp`, `NN` the slot in two
/// decimal digits.
pub open spec fn team_color_path(s: u8) -> Seq<char> {
    "ReplaceableTextures/TeamColor/TeamColor"@ + seq![
        ((s / 10) as u32 + '0' as u32) as char,
        ((s % 10) as u32 + '0' as u32) as char,
    ] + ".blp"@
}

impl TeamColor {
    /// The colour's slot (see [`slot_of`]).
    pub fn slot(self) -> (r: u8)
        ensures
            r == slot_of(self),
    {
        match self {
            TeamColor::Red => 0,
            TeamColor::Blue => 1,
            TeamColor::Teal => 2,
            TeamColor::Purple => 3,
            TeamColor::Yellow => 4,
            TeamColor::Orange => 5,
            TeamColor::Green => 6,
            TeamColor::Pink => 7,
            TeamColor::Grey => 8,
            TeamColor::LightBlue => 9,
            TeamColor::DarkGreen => 10,
            TeamColor::Brown => 11,
        }
    }

    /// Archive path of the colour's texture (see [`team_color_path`]).
    pub fn mpq_path(self) -> (r: &'static str)
        ensures
            r@ == team_color_path(slot_of(self)),
    {
        proof {
            reveal_strlit("ReplaceableTextures/TeamColor/TeamColor");
            reveal_strlit(".blp");
        }
        match self {
            TeamColor::Red => {
                proof {
                    reveal_strlit("ReplaceableTextures/TeamColor/TeamColor00.blp");
                    assert("ReplaceableTextures/TeamColor/TeamColor00.blp"@ =~= team_color_path(0));
                }
                "ReplaceableTextures/TeamColor/TeamColor00.blp"
            },
            TeamColor::Blue => {
                proof {
                    reveal_strlit("ReplaceableTextures/TeamColor/TeamColor01.blp");
                    assert("ReplaceableTextures/TeamColor/TeamColor01.blp"@ =~= team_color_path(1));
                }
                "ReplaceableTextures/TeamColor/TeamColor01.blp"
            },
            TeamColor::Teal => {
                proof {
                    reveal_strlit("ReplaceableTextures/TeamColor/TeamColor02.blp");
                    assert("ReplaceableTextures/TeamColor/TeamColor02.blp"@ =~= team_color_path(2));
                }
                "ReplaceableTextures/TeamColor/TeamColor02.blp"
            },
            TeamColor::Purple => {
                proof {
                    reveal_strlit("ReplaceableTextures/TeamColor/TeamColor03.blp");
                    assert("ReplaceableTextures/TeamColor/TeamColor03.blp"@ =~= team_color_path(3));
                }
                "ReplaceableTextures/TeamColor/TeamColor03.blp"
            },
            TeamColor::Yellow => {
                proof {
                    reveal_strlit("ReplaceableTextures/TeamColor/TeamColor04.blp");
                    assert("ReplaceableTextures/TeamColor/TeamColor04.blp"@ =~= team_color_path(4));
                }
                "ReplaceableTextures/TeamColor/TeamColor04.blp"
            },
            TeamColor::Orange => {
                proof {
                    reveal_strlit("ReplaceableTextures/TeamColor/TeamColor05.blp");
                    assert("ReplaceableTextures/TeamColor/TeamColor05.blp"@ =~= team_color_path(5));
                }
                "ReplaceableTextures/TeamColor/TeamColor05.blp"
            },
            TeamColor::Green => {
                proof {
                    reveal_strlit("ReplaceableTextures/TeamColor/TeamColor06.blp");
                    assert("ReplaceableTextures/TeamColor/TeamColor06.blp"@ =~= team_color_path(6));
                }
                "ReplaceableTextures/TeamColor/TeamColor06.blp"
            },
            TeamColor::Pink => {
                proof {
                    reveal_strlit("ReplaceableTextures/TeamColor/TeamColor07.blp");
                    assert("ReplaceableTextures/TeamColor/TeamColor07.blp"@ =~= team_color_path(7));
                }
                "ReplaceableTextures/TeamColor/TeamColor07.blp"
            },
            TeamColor::Grey => {
                proof {
                    reveal_strlit("ReplaceableTextures/TeamColor/TeamColor08.blp");
                    assert("ReplaceableTextures/TeamColor/TeamColor08.blp"@ =~= team_color_path(8));
                }
                "ReplaceableTextures/TeamColor/TeamColor08.blp"
            },
            TeamColor::LightBlue => {
                proof {
                    reveal_strlit("ReplaceableTextures/TeamColor/TeamColor09.blp");
                    assert("ReplaceableTextures/TeamColor/TeamColor09.blp"@ =~= team_color_path(9));
                }
                "ReplaceableTextures/TeamColor/TeamColor09.blp"
            },
            TeamColor::DarkGreen => {
                proof {
                    reveal_strlit("ReplaceableTextures/TeamColor/TeamColor10.blp");
                    assert("ReplaceableTextures/TeamColor/TeamColor10.blp"@ =~= team_color_path(10));
                }
                "ReplaceableTextures/TeamColor/TeamColor10.blp"
            },
            TeamColor::Brown => {
                proof {
                    reveal_strlit("ReplaceableTextures/TeamColor/TeamColor11.blp");
                    assert("ReplaceableTextures/TeamColor/TeamColor11.blp"@ =~= team_color_path(11));
                }
                "ReplaceableTextures/TeamColor/TeamColor11.blp"
            },
        }
    }
}

/// Every colour has its own slot below 12, so each has its own texture
/// path, and every path lies under `ReplaceableTextures` and ends in `.blp`.
pub proof fn lemma_team_colors_distinct(a: TeamColor, b: TeamColor)
    ensures
        slot_of(a) < 12,
        slot_of(a) == slot_of(b) <==> a == b,
        team_color_path(slot_of(a)) == team_color_path(slot_of(b)) <==> a == b,
        team_color_path(slot_of(a)).subrange(0, 19) == "ReplaceableTextures"@,
        team_color_path(slot_of(a)).len() == 45,
        team_color_path(slot_of(a)).subrange(41, 45) == ".blp"@,
{
    reveal_strlit("ReplaceableTextures/TeamColor/TeamColor");
    reveal_strlit(".blp");
    reveal_strlit("ReplaceableTextures");
    let pa = team_color_path(slot_of(a));
    let pb = team_color_path(slot_of(b));
    assert(pa.subrange(0, 19) =~= "ReplaceableTextures"@);
    assert(pa.subrange(41, 45) =~= ".blp"@);
    if pa == pb {
        assert(pa[39] == pb[39] && pa[40] == pb[40]);
    }
}

} // verus!

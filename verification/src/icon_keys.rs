//! Which icon to draw for a ship, and the subtitle of the battle result.

use vstd::prelude::*;
use crate::strings::push_all;

verus! {

/// How a ship is seen on the minimap.
#[derive(Debug, Clone, Copy, PartialEq, Eq, Structural)]
pub enum ShipVisibility {
    /// Seen directly.
    Visible,
    /// Only shown on the minimap.
    MinimapOnly,
    /// Not detected.
    Undetected,
}

/// `a` followed by `b`.
fn joined(a: &str, b: &str) -> (s: String)
    ensures
        s@ == a@ + b@,
{
    let mut s = String::new();
    push_all(&mut s, a);
    push_all(&mut s, b);
    assert(s@ =~= a@ + b@);
    s
}

/// The generic icon of a ship class that has no icon of its own.
pub open spec fn live_fallback_key(visibility: ShipVisibility, is_self: bool) -> Seq<char> {
    match visibility {
        ShipVisibility::Visible => if is_self {
            "Auxiliary_self"@
        } else {
            "Auxiliary"@
        },
        _ => "Auxiliary_invisible"@,
    }
}

/// The icon keys tried, in order, for a live ship: the species' variant for
/// the visibility (`_self` for the player's own visible ship, `_invisible`
/// for ships not seen directly), the plain species, then the generic icon.
pub open spec fn live_icon_keys(species: Option<Seq<char>>, visibility: ShipVisibility, is_self: bool) -> Seq<
    Seq<char>,
> {
    match species {
        Some(sp) => {
            let variant = match visibility {
                ShipVisibility::Visible => if is_self {
                    sp + "_self"@
                } else {
                    sp
                },
                _ => sp + "_invisible"@,
            };
            seq![variant, sp, live_fallback_key(visibility, is_self)]
        },
        None => seq![live_fallback_key(visibility, is_self)],
    }
}

/// Icon lookup keys of a live ship, most specific first.
pub fn ship_icon_keys(species: Option<&str>, visibility: ShipVisibility, is_self: bool) -> (keys: Vec<String>)
    ensures
        keys@.map_values(|k: String| k@) == live_icon_keys(
            match species {
                Some(s) => Some(s@),
                None => None,
            },
            visibility,
            is_self,
        ),
{
    let fallback: &str = match visibility {
        ShipVisibility::Visible => if is_self {
            "Auxiliary_self"
        } else {
            "Auxiliary"
        },
        _ => "Auxiliary_invisible",
    };
    let mut keys: Vec<String> = Vec::new();
    match species {
        Some(sp) => {
            let variant = match visibility {
                ShipVisibility::Visible => if is_self {
                    joined(sp, "_self")
                } else {
                    sp.to_owned()
                },
                _ => joined(sp, "_invisible"),
            };
            keys.push(variant);
            keys.push(sp.to_owned());
            keys.push(fallback.to_owned());
        },
        None => {
            keys.push(fallback.to_owned());
        },
    }
    proof {
        assert(keys@.map_values(|k: String| k@) =~= live_icon_keys(
            match species {
                Some(s) => Some(s@),
                None => None,
            },
            visibility,
            is_self,
        ));
    }
    keys
}

/// The icon keys tried, in order, for a sunk ship: the species' dead
/// variant (`_dead_self` for the player's own ship, `_dead` otherwise), the
/// plain species, then the generic dead icon.
pub open spec fn dead_icon_keys(species: Option<Seq<char>>, is_self: bool) -> Seq<Seq<char>> {
    let fallback = if is_self {
        "Auxiliary_dead_self"@
    } else {
        "Auxiliary_dead"@
    };
    match species {
        Some(sp) => seq![
            sp + (if is_self {
                "_dead_self"@
            } else {
                "_dead"@
            }),
            sp,
            fallback,
        ],
        None => seq![fallback],
    }
}

/// Icon lookup keys of a sunk ship, most specific first.
pub fn dead_ship_icon_keys(species: Option<&str>, is_self: bool) -> (keys: Vec<String>)
    ensures
        keys@.map_values(|k: String| k@) == dead_icon_keys(
            match species {
                Some(s) => Some(s@),
                None => None,
            },
            is_self,
        ),
{
    let fallback: &str = if is_self {
        "Auxiliary_dead_self"
    } else {
        "Auxiliary_dead"
    };
    let mut keys: Vec<String> = Vec::new();
    match species {
        Some(sp) => {
            let suffix: &str = if is_self {
                "_dead_self"
            } else {
                "_dead"
            };
            keys.push(joined(sp, suffix));
            keys.push(sp.to_owned());
            keys.push(fallback.to_owned());
        },
        None => {
            keys.push(fallback.to_owned());
        },
    }
    proof {
        assert(keys@.map_values(|k: String| k@) =~= dead_icon_keys(
            match species {
                Some(s) => Some(s@),
                None => None,
            },
            is_self,
        ));
    }
    keys
}

/// A ship that is not seen directly (only on the minimap, or not detected)
/// is looked up first under its species' `_invisible` icon, whoever's ship
/// it is; a visible ship under its species' `_self` icon when it is the
/// player's own, else under the plain species. The plain species comes
/// second, the generic icon of the same kind last.
pub proof fn law_live_icon_key_order(sp: Seq<char>, visibility: ShipVisibility, is_self: bool)
    ensures
        live_icon_keys(Some(sp), visibility, is_self).len() == 3,
        visibility != ShipVisibility::Visible ==> live_icon_keys(Some(sp), visibility, is_self)[0] == sp
            + "_invisible"@ && live_icon_keys(Some(sp), visibility, is_self)[2] == "Auxiliary_invisible"@,
        visibility == ShipVisibility::Visible && is_self ==> live_icon_keys(Some(sp), visibility, is_self)[0]
            == sp + "_self"@ && live_icon_keys(Some(sp), visibility, is_self)[2] == "Auxiliary_self"@,
        visibility == ShipVisibility::Visible && !is_self ==> live_icon_keys(Some(sp), visibility, is_self)[0]
            == sp && live_icon_keys(Some(sp), visibility, is_self)[2] == "Auxiliary"@,
        live_icon_keys(Some(sp), visibility, is_self)[1] == sp,
        live_icon_keys(None, visibility, is_self) == seq![live_icon_keys(Some(sp), visibility, is_self)[2]],
{
}

/// A sunk ship is looked up first under its species' `_dead_self` icon when
/// it is the player's own and `_dead` otherwise, then the plain species,
/// then the generic dead icon.
pub proof fn law_dead_icon_key_order(sp: Seq<char>, is_self: bool)
    ensures
        dead_icon_keys(Some(sp), is_self).len() == 3,
        dead_icon_keys(Some(sp), is_self)[0] == sp + (if is_self {
            "_dead_self"@
        } else {
            "_dead"@
        }),
        dead_icon_keys(Some(sp), is_self)[1] == sp,
        dead_icon_keys(Some(sp), is_self)[2] == (if is_self {
            "Auxiliary_dead_self"@
        } else {
            "Auxiliary_dead"@
        }),
        dead_icon_keys(None, is_self) == seq![dead_icon_keys(Some(sp), is_self)[2]],
{
}

/// The outcome of a battle for the player's team.
#[derive(Debug, Clone, Copy, PartialEq, Eq, Structural)]
pub enum BattleResult {
    Victory,
    Defeat,
    Draw,
}

/// The subtitle of a battle decided on points.
pub open spec fn points_subtitle(result: BattleResult) -> Seq<char> {
    match result {
        BattleResult::Victory => "YOUR TEAM WON ON POINTS"@,
        BattleResult::Defeat => "ENEMY TEAM WON ON POINTS"@,
        BattleResult::Draw => "POINTS LIMIT REACHED"@,
    }
}

/// The subtitle shown under the battle result when the battle ended on
/// points (score or score excess).
pub fn points_finish_subtitle(result: BattleResult) -> (s: &'static str)
    ensures
        s@ == points_subtitle(result),
{
    match result {
        BattleResult::Victory => "YOUR TEAM WON ON POINTS",
        BattleResult::Defeat => "ENEMY TEAM WON ON POINTS",
        BattleResult::Draw => "POINTS LIMIT REACHED",
    }
}

} // verus!

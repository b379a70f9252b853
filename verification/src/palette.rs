//! Colour and icon tables keyed by game vocabulary: the colour of a damage
//! label and the icon of a death cause.

use vstd::prelude::*;
use crate::strings::str_equals;

verus! {

/// The colour of a damage label in the compact stats panel; unknown labels
/// are grey.
pub open spec fn damage_label_rgb(label: Seq<char>) -> Seq<u8> {
    if label == "AP"@ {
        seq![255u8, 200, 80]
    } else if label == "HE"@ {
        seq![255u8, 140, 50]
    } else if label == "SAP"@ {
        seq![200u8, 180, 255]
    } else if label == "MAIN"@ {
        seq![255u8, 200, 80]
    } else if label == "SEC"@ {
        seq![255u8, 170, 60]
    } else if label == "TORP"@ {
        seq![100u8, 200, 255]
    } else if label == "FIRE"@ {
        seq![255u8, 120, 50]
    } else if label == "FLOOD"@ {
        seq![80u8, 160, 255]
    } else if label == "BOMB"@ {
        seq![220u8, 180, 100]
    } else if label == "ROCKET"@ {
        seq![230u8, 150, 80]
    } else if label == "DC"@ {
        seq![160u8, 200, 160]
    } else if label == "RAM"@ {
        seq![200u8, 100, 100]
    } else if label == "MISSILE"@ {
        seq![220u8, 130, 220]
    } else {
        seq![180u8, 180, 180]
    }
}

/// The RGB colour in which the compact stats panel draws a damage label
/// ("AP", "HE", "TORP", ...); labels outside the table are grey.
pub fn damage_label_color_rgb(label: &str) -> (rgb: [u8; 3])
    ensures
        rgb@ == damage_label_rgb(label@),
{
    let rgb: [u8; 3] = if str_equals(label, "AP") {
        [255, 200, 80]
    } else if str_equals(label, "HE") {
        [255, 140, 50]
    } else if str_equals(label, "SAP") {
        [200, 180, 255]
    } else if str_equals(label, "MAIN") {
        [255, 200, 80]
    } else if str_equals(label, "SEC") {
        [255, 170, 60]
    } else if str_equals(label, "TORP") {
        [100, 200, 255]
    } else if str_equals(label, "FIRE") {
        [255, 120, 50]
    } else if str_equals(label, "FLOOD") {
        [80, 160, 255]
    } else if str_equals(label, "BOMB") {
        [220, 180, 100]
    } else if str_equals(label, "ROCKET") {
        [230, 150, 80]
    } else if str_equals(label, "DC") {
        [160, 200, 160]
    } else if str_equals(label, "RAM") {
        [200, 100, 100]
    } else if str_equals(label, "MISSILE") {
        [220, 130, 220]
    } else {
        [180, 180, 180]
    };
    assert(rgb@ =~= damage_label_rgb(label@));
    rgb
}

/// The recognized causes of a ship's destruction.
#[derive(Debug, Clone, Copy, PartialEq, Eq, Structural)]
pub enum DeathCause {
    Secondaries,
    Artillery,
    ApShell,
    HeShell,
    CsShell,
    Torpedo,
    AerialTorpedo,
    Fire,
    Flooding,
    DiveBomber,
    SkipBombs,
    AerialRocket,
    Detonation,
    Ramming,
    DepthCharge,
    AerialDepthCharge,
    Missile,
    /// Any other recognized cause.
    Other,
}

/// The icon key (base name of `icon_frag_{key}.png`) of a death cause;
/// `None` stands for a cause that was not recognized.
pub open spec fn death_cause_key(cause: Option<DeathCause>) -> Seq<char> {
    match cause {
        Some(DeathCause::Artillery) | Some(DeathCause::ApShell) | Some(DeathCause::HeShell) | Some(
            DeathCause::CsShell,
        ) => "main_caliber"@,
        Some(DeathCause::Secondaries) => "atba"@,
        Some(DeathCause::Torpedo) | Some(DeathCause::AerialTorpedo) => "torpedo"@,
        Some(DeathCause::Fire) => "burning"@,
        Some(DeathCause::Flooding) => "flood"@,
        Some(DeathCause::DiveBomber) => "bomb"@,
        Some(DeathCause::SkipBombs) => "skip"@,
        Some(DeathCause::AerialRocket) => "rocket"@,
        Some(DeathCause::Detonation) => "detonate"@,
        Some(DeathCause::Ramming) => "ram"@,
        Some(DeathCause::DepthCharge) | Some(DeathCause::AerialDepthCharge) => "depthbomb"@,
        Some(DeathCause::Missile) => "missile"@,
        _ => "main_caliber"@,
    }
}

/// Map a death cause to the icon key used in the death cause icon table.
///
/// Keys correspond to the base name portion of `icon_frag_{key}.png` files
/// in `gui/battle_hud/icon_frag/`.
pub fn death_cause_icon_key(cause: Option<DeathCause>) -> (key: &'static str)
    ensures
        key@ == death_cause_key(cause),
{
    match cause {
        Some(DeathCause::Artillery) | Some(DeathCause::ApShell) | Some(DeathCause::HeShell) | Some(
            DeathCause::CsShell,
        ) => "main_caliber",
        Some(DeathCause::Secondaries) => "atba",
        Some(DeathCause::Torpedo) | Some(DeathCause::AerialTorpedo) => "torpedo",
        Some(DeathCause::Fire) => "burning",
        Some(DeathCause::Flooding) => "flood",
        Some(DeathCause::DiveBomber) => "bomb",
        Some(DeathCause::SkipBombs) => "skip",
        Some(DeathCause::AerialRocket) => "rocket",
        Some(DeathCause::Detonation) => "detonate",
        Some(DeathCause::Ramming) => "ram",
        Some(DeathCause::DepthCharge) | Some(DeathCause::AerialDepthCharge) => "depthbomb",
        Some(DeathCause::Missile) => "missile",
        _ => "main_caliber",
    }
}

} // verus!

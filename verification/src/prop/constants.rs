//! The fixed tables of the object-definition decoder: the names that the
//! numeric keys of property records stand for, and the class labels.

use vstd::prelude::*;
use crate::text::same_text;

verus! {

/// The property name that `key` stands for, if the table holds the key.
///
/// A record stores only the key, a 32-bit number that the engine's tools
/// compute from the name.
pub open spec fn spec_property_name(key: u32) -> Option<Seq<char>> {
    if key == 0x47c86b4a {
        Some("GeometryName"@)
    } else if key == 0xa490eba1 {
        Some("GeometryLowRes"@)
    } else if key == 0x6840a745 {
        Some("GeometryScale"@)
    } else if key == 0x98557a5e {
        Some("AnimationName"@)
    } else if key == 0x7012f6cd {
        Some("SkeletonName"@)
    } else if key == 0x1a87bacf {
        Some("CollisionScale"@)
    } else if key == 0x19971f1b {
        Some("MaxHealth"@)
    } else if key == 0x3f9ab262 {
        Some("AddHealth"@)
    } else if key == 0xda3491bc {
        Some("MaxShield"@)
    } else if key == 0xbad94c15 {
        Some("AddShield"@)
    } else if key == 0x54a7aedf {
        Some("UnitType"@)
    } else if key == 0x8ddbeb4b {
        Some("IconTexture"@)
    } else if key == 0x9dc38d80 {
        Some("MapTexture"@)
    } else if key == 0x0e8c3fe5 {
        Some("MapScale"@)
    } else if key == 0x0db7468e {
        Some("HealthTexture"@)
    } else if key == 0x86df0364 {
        Some("MaxSpeed"@)
    } else if key == 0x3437a33d {
        Some("MaxStrafeSpeed"@)
    } else if key == 0x5433f589 {
        Some("MaxTurnSpeed"@)
    } else if key == 0xc415d23a {
        Some("JumpHeight"@)
    } else if key == 0x2fa0ba9d {
        Some("Acceleration"@)
    } else if key == 0xfbf47dba {
        Some("WeaponName"@)
    } else if key == 0xdc19bd13 {
        Some("WeaponAmmo"@)
    } else if key == 0x16472328 {
        Some("WeaponChannel"@)
    } else if key == 0xf8899c5e {
        Some("OrdnanceName"@)
    } else if key == 0x7bff9ec9 {
        Some("RoundsPerClip"@)
    } else if key == 0x9fc1a1ad {
        Some("ReloadTime"@)
    } else if key == 0xd9356908 {
        Some("ShotDelay"@)
    } else if key == 0x43bcebe6 {
        Some("MaxRange"@)
    } else if key == 0x1ef25b6c {
        Some("MinRange"@)
    } else if key == 0x778f9aae {
        Some("OptimalRange"@)
    } else if key == 0x7f012f70 {
        Some("LockOnRange"@)
    } else if key == 0x59e94c40 {
        Some("Damage"@)
    } else if key == 0x47d0e794 {
        Some("MaxDamage"@)
    } else if key == 0x7c7c544b {
        Some("LifeSpan"@)
    } else if key == 0x32741c32 {
        Some("Velocity"@)
    } else if key == 0xd209ff45 {
        Some("Gravity"@)
    } else if key == 0x9b30e763 {
        Some("ExplosionName"@)
    } else if key == 0x11727a92 {
        Some("ImpactEffect"@)
    } else if key == 0x7e71e2c6 {
        Some("TrailEffect"@)
    } else if key == 0xb709b5e7 {
        Some("LaserTexture"@)
    } else if key == 0xba858240 {
        Some("LaserLength"@)
    } else if key == 0x6f179ab8 {
        Some("LaserWidth"@)
    } else if key == 0x746ce73e {
        Some("LightColor"@)
    } else if key == 0xcfde2fc0 {
        Some("FireSound"@)
    } else if key == 0xef6119f3 {
        Some("ReloadSound"@)
    } else if key == 0x72981af7 {
        Some("HurtSound"@)
    } else if key == 0x6a9d502c {
        Some("DeathSound"@)
    } else if key == 0x0dba4cb3 {
        Some("Radius"@)
    } else if key == 0xc6c161f9 {
        Some("CaptureRegion"@)
    } else if key == 0x805c1f8a {
        Some("ControlRegion"@)
    } else if key == 0xdde0b14f {
        Some("SpawnPath"@)
    } else if key == 0xdad215b0 {
        Some("AllyPath"@)
    } else if key == 0xa2fd7d0c {
        Some("Team"@)
    } else if key == 0x99d55922 {
        Some("FoleyFXClass"@)
    } else if key == 0x172645b9 {
        Some("VOSound"@)
    } else if key == 0xf69717fd {
        Some("Label"@)
    } else if key == 0x714b2463 {
        Some("PointsToUnlock"@)
    } else {
        None
    }
}

/// Looks the key of a property record up in the table of names.
pub fn property_name(key: u32) -> (name: Option<&'static str>)
    ensures
        match name {
            Some(n) => spec_property_name(key) == Some(n@),
            None => spec_property_name(key) is None,
        },
{
    match key {
        0x47c86b4a => Some("GeometryName"),
        0xa490eba1 => Some("GeometryLowRes"),
        0x6840a745 => Some("GeometryScale"),
        0x98557a5e => Some("AnimationName"),
        0x7012f6cd => Some("SkeletonName"),
        0x1a87bacf => Some("CollisionScale"),
        0x19971f1b => Some("MaxHealth"),
        0x3f9ab262 => Some("AddHealth"),
        0xda3491bc => Some("MaxShield"),
        0xbad94c15 => Some("AddShield"),
        0x54a7aedf => Some("UnitType"),
        0x8ddbeb4b => Some("IconTexture"),
        0x9dc38d80 => Some("MapTexture"),
        0x0e8c3fe5 => Some("MapScale"),
        0x0db7468e => Some("HealthTexture"),
        0x86df0364 => Some("MaxSpeed"),
        0x3437a33d => Some("MaxStrafeSpeed"),
        0x5433f589 => Some("MaxTurnSpeed"),
        0xc415d23a => Some("JumpHeight"),
        0x2fa0ba9d => Some("Acceleration"),
        0xfbf47dba => Some("WeaponName"),
        0xdc19bd13 => Some("WeaponAmmo"),
        0x16472328 => Some("WeaponChannel"),
        0xf8899c5e => Some("OrdnanceName"),
        0x7bff9ec9 => Some("RoundsPerClip"),
        0x9fc1a1ad => Some("ReloadTime"),
        0xd9356908 => Some("ShotDelay"),
        0x43bcebe6 => Some("MaxRange"),
        0x1ef25b6c => Some("MinRange"),
        0x778f9aae => Some("OptimalRange"),
        0x7f012f70 => Some("LockOnRange"),
        0x59e94c40 => Some("Damage"),
        0x47d0e794 => Some("MaxDamage"),
        0x7c7c544b => Some("LifeSpan"),
        0x32741c32 => Some("Velocity"),
        0xd209ff45 => Some("Gravity"),
        0x9b30e763 => Some("ExplosionName"),
        0x11727a92 => Some("ImpactEffect"),
        0x7e71e2c6 => Some("TrailEffect"),
        0xb709b5e7 => Some("LaserTexture"),
        0xba858240 => Some("LaserLength"),
        0x6f179ab8 => Some("LaserWidth"),
        0x746ce73e => Some("LightColor"),
        0xcfde2fc0 => Some("FireSound"),
        0xef6119f3 => Some("ReloadSound"),
        0x72981af7 => Some("HurtSound"),
        0x6a9d502c => Some("DeathSound"),
        0x0dba4cb3 => Some("Radius"),
        0xc6c161f9 => Some("CaptureRegion"),
        0x805c1f8a => Some("ControlRegion"),
        0xdde0b14f => Some("SpawnPath"),
        0xdad215b0 => Some("AllyPath"),
        0xa2fd7d0c => Some("Team"),
        0x99d55922 => Some("FoleyFXClass"),
        0x172645b9 => Some("VOSound"),
        0xf69717fd => Some("Label"),
        0x714b2463 => Some("PointsToUnlock"),
        _ => None,
    }
}

/// Whether `text` is one of the class labels: the names of the classes that
/// the engine itself defines, as opposed to the name of another definition.
pub open spec fn spec_is_class_label(text: Seq<char>) -> bool {
    ||| text == "soldier"@
    ||| text == "droid"@
    ||| text == "hover"@
    ||| text == "walker"@
    ||| text == "flyer"@
    ||| text == "commandhover"@
    ||| text == "commandwalker"@
    ||| text == "commandflyer"@
    ||| text == "prop"@
    ||| text == "animatedprop"@
    ||| text == "building"@
    ||| text == "animatedbuilding"@
    ||| text == "destructablebuilding"@
    ||| text == "armedbuilding"@
    ||| text == "commandpost"@
    ||| text == "door"@
    ||| text == "vehiclespawn"@
    ||| text == "powerupstation"@
    ||| text == "powerupitem"@
    ||| text == "weapon"@
    ||| text == "cannon"@
    ||| text == "launcher"@
    ||| text == "grenade"@
    ||| text == "melee"@
    ||| text == "repair"@
    ||| text == "dispenser"@
    ||| text == "detonator"@
    ||| text == "binoculars"@
    ||| text == "remote"@
    ||| text == "towcable"@
    ||| text == "catapult"@
    ||| text == "bullet"@
    ||| text == "missile"@
    ||| text == "shell"@
    ||| text == "beam"@
    ||| text == "sticky"@
    ||| text == "haywire"@
    ||| text == "mine"@
    ||| text == "emitterordnance"@
    ||| text == "explosion"@
    ||| text == "light"@
    ||| text == "shield"@
    ||| text == "trap"@
    ||| text == "dusteffect"@
    ||| text == "leafpatch"@
    ||| text == "cloudcluster"@
    ||| text == "godray"@
}

/// Whether `text` is one of the class labels.
pub fn is_class_label(text: &str) -> (known: bool)
    ensures
        known == spec_is_class_label(text@),
{
    same_text(text, "soldier")
        || same_text(text, "droid")
        || same_text(text, "hover")
        || same_text(text, "walker")
        || same_text(text, "flyer")
        || same_text(text, "commandhover")
        || same_text(text, "commandwalker")
        || same_text(text, "commandflyer")
        || same_text(text, "prop")
        || same_text(text, "animatedprop")
        || same_text(text, "building")
        || same_text(text, "animatedbuilding")
        || same_text(text, "destructablebuilding")
        || same_text(text, "armedbuilding")
        || same_text(text, "commandpost")
        || same_text(text, "door")
        || same_text(text, "vehiclespawn")
        || same_text(text, "powerupstation")
        || same_text(text, "powerupitem")
        || same_text(text, "weapon")
        || same_text(text, "cannon")
        || same_text(text, "launcher")
        || same_text(text, "grenade")
        || same_text(text, "melee")
        || same_text(text, "repair")
        || same_text(text, "dispenser")
        || same_text(text, "detonator")
        || same_text(text, "binoculars")
        || same_text(text, "remote")
        || same_text(text, "towcable")
        || same_text(text, "catapult")
        || same_text(text, "bullet")
        || same_text(text, "missile")
        || same_text(text, "shell")
        || same_text(text, "beam")
        || same_text(text, "sticky")
        || same_text(text, "haywire")
        || same_text(text, "mine")
        || same_text(text, "emitterordnance")
        || same_text(text, "explosion")
        || same_text(text, "light")
        || same_text(text, "shield")
        || same_text(text, "trap")
        || same_text(text, "dusteffect")
        || same_text(text, "leafpatch")
        || same_text(text, "cloudcluster")
        || same_text(text, "godray")
}

} // verus!

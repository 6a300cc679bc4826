use vstd::prelude::*;

pub mod challenges;

verus! {

/// A side of the board, or a random pick between the two.
#[derive(Clone, Copy, Debug, PartialEq, Eq)]
pub enum Color {
    White,
    Black,
    Random,
}

/// Days per move in a correspondence game.
#[derive(Clone, Copy, Debug, PartialEq, Eq)]
pub struct Days(pub u32);

/// The speed category of a game.
#[derive(Clone, Copy, Debug, PartialEq, Eq)]
pub enum Speed {
    UltraBullet,
    Bullet,
    Blitz,
    Rapid,
    Classical,
    Correspondence,
}

/// A player title such as GM or IM, as the platform writes it.
#[derive(Clone, Debug, PartialEq, Eq)]
pub struct Title(pub String);

/// The key of a chess variant.
#[derive(Clone, Copy, Debug, PartialEq, Eq)]
pub enum VariantKey {
    Standard,
    Chess960,
    Crazyhouse,
    Antichess,
    Atomic,
    Horde,
    KingOfTheHill,
    RacingKings,
    ThreeCheck,
    FromPosition,
}

/// A chess variant with its display names.
#[derive(Clone, Debug)]
pub struct Variant {
    pub key: VariantKey,
    pub name: String,
    pub short: Option<String>,
}

/// A user as the platform shows it in short.
#[derive(Clone, Debug)]
pub struct LightUser {
    pub id: String,
    pub name: String,
    pub title: Option<Title>,
    pub patron: Option<bool>,
}

} // verus!

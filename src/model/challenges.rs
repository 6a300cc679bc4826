use vstd::prelude::*;

use crate::model::{Color, Days, LightUser, Speed, Title, Variant, VariantKey};

verus! {

/// Parameters of an open challenge that anyone may accept.
#[derive(Clone, Debug)]
pub struct OpenChallenge {
    pub base: ChallengeBase,
    pub name: String,
    pub rules: String,
    pub users: String,
}

/// Parameters of a challenge sent to one player.
#[derive(Clone, Debug)]
pub struct CreateChallenge {
    pub base: ChallengeBase,
    pub rated: bool,
    pub keep_alive_stream: bool,
    pub accept_by_token: Option<String>,
    pub message: Option<String>,
    pub rules: String,
}

/// Extra rules that a challenge may set.
#[derive(Clone, Copy, Debug, PartialEq, Eq)]
pub enum Rules {
    NoAbort,
    NoRematch,
    NoGiveTime,
    NoClaimWin,
}

/// Parameters of a challenge against the computer.
#[derive(Clone, Debug)]
pub struct AIChallenge {
    pub base: ChallengeBase,
    pub level: u32,
    pub color: Color,
}

/// The clock and variant settings that every challenge carries.
#[derive(Clone, Debug)]
pub struct ChallengeBase {
    pub clock_limit: Option<u32>,
    pub clock_increment: Option<u32>,
    pub days: Option<Days>,
    pub variant: VariantKey,
    pub fen: Option<String>,
}

/// An open challenge as the platform reports it.
#[derive(Clone, Debug)]
pub struct ChallengeOpenJson {
    pub base: ChallengeJsonBase,
    pub url_white: String,
    pub url_black: String,
}

/// The reply to a created challenge.
#[derive(Clone, Debug)]
pub struct ChallengeCreated {
    pub challenge: ChallengeJson,
}

/// A challenge as the platform reports it.
#[derive(Clone, Debug)]
pub struct ChallengeJson {
    pub base: ChallengeJsonBase,
    pub initial_fen: Option<String>,
    pub decline_reason: Option<String>,
    pub decline_reason_key: Option<String>,
}

/// The fields common to every reported challenge.
#[derive(Clone, Debug)]
pub struct ChallengeJsonBase {
    pub id: String,
    pub url: String,
    pub color: Color,
    pub direction: Option<Direction>,
    pub final_color: String,
    pub time_control: TimeControl,
    pub variant: Variant,
    /// Absent when the challenger is anonymous.
    pub challenger: Option<ChallengeUser>,
    pub dest_user: Option<ChallengeUser>,
    pub perf: Perf,
    pub rated: bool,
    pub speed: Speed,
    pub status: Status,
}

/// Whether a challenge was received or sent.
#[derive(Clone, Copy, Debug, PartialEq, Eq)]
pub enum Direction {
    In,
    Out,
}

/// The rating category of a challenge.
#[derive(Clone, Debug)]
pub struct Perf {
    pub icon: String,
    pub name: String,
}

/// Where a challenge stands.
#[derive(Clone, Copy, Debug, PartialEq, Eq)]
pub enum Status {
    Created,
    Offline,
    Canceled,
    Declined,
    Accepted,
}

/// The time control of a challenge.
#[derive(Clone, Debug)]
pub enum TimeControl {
    Clock { increment: u32, limit: u32, show: String },
    Correspondence { days_per_turn: u32 },
    Unlimited,
}

/// A player taking part in a challenge.
#[derive(Clone, Debug)]
pub struct ChallengeUser {
    pub user: LightUser,
    pub rating: u32,
    pub provisional: Option<bool>,
    pub online: Option<bool>,
    pub lag: Option<u32>,
    pub title: Option<Title>,
}

} // verus!

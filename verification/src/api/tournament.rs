//! Tournaments as the listing gives them: a permissive record for every
//! item, and the closed set of shapes it is validated into.

use vstd::prelude::*;
use crate::api::Pagination;
use crate::api::Timestamp;

verus! {

/// One page of the listing, its items already validated.
#[derive(Clone, Debug)]
pub struct TournamentResponse {
    pub pagination: Pagination,
    pub items: Vec<Tournament>,
}

/// One page of the listing, its items not yet validated.
#[derive(Clone, Debug)]
pub struct RawTournamentResponse {
    pub pagination: Pagination,
    pub items: Vec<RawTournament>,
}

/// A tournament in one of the shapes that the game modes give it. The mode
/// decides which fields a tournament carries.
#[derive(Debug, Clone)]
pub enum Tournament {
    OneVOne {
        tournament_id: i64,
        configs: Configs,
        key: String,
        level: Level,
        modified: Timestamp,
        restrictions: String,
        solo_optionals: String,
        start_time: Timestamp,
        status: Status,
        solo_warriors: Vec<SoloWarrior>,
    },
    Blooding {
        tournament_id: i64,
        class: String,
        configs: Configs,
        key: String,
        legacy: bool,
        level: Level,
        modified: Timestamp,
        name: String,
        restrictions: String,
        start_time: Timestamp,
        status: Status,
        tournament_type: String,
        warriors: Vec<Warrior>,
    },
    Bloodbath {
        tournament_id: i64,
        class: String,
        configs: Configs,
        key: String,
        legacy: bool,
        level: Level,
        modified: Timestamp,
        name: String,
        restrictions: String,
        start_time: Timestamp,
        status: Status,
        tournament_type: String,
        warriors: Vec<Warrior>,
    },
    BloodElo {
        tournament_id: i64,
        class: String,
        configs: Configs,
        key: String,
        legacy: bool,
        level: Level,
        modified: Timestamp,
        name: String,
        restrictions: String,
        start_time: Timestamp,
        status: Status,
        tournament_type: String,
        warriors: Vec<Warrior>,
    },
}

/// Every field that any mode may carry; those that only some modes carry are
/// optional here. Structured values that the library only hands on
/// (`class`, `restrictions`, `solo_optionals`) are kept as their JSON text.
#[derive(Debug, Clone)]
pub struct RawTournament {
    pub service_id: u64,
    pub tournament_id: i64,
    pub class: Option<String>,
    pub configs: Configs,
    pub key: String,
    pub legacy: Option<bool>,
    pub level: Level,
    pub modified: Timestamp,
    pub name: Option<String>,
    pub restrictions: String,
    pub start_time: Timestamp,
    pub status: Status,
    pub tournament_type: Option<String>,
    pub warriors: Vec<Warrior>,
    pub solo_warriors: Vec<SoloWarrior>,
    pub solo_optionals: Option<String>,
}

/// Why a listing item is no tournament.
#[derive(Debug, Clone, Copy, PartialEq, Eq, Structural)]
pub enum DecodeError {
    /// The solo mode without its optional settings.
    MissingSoloOptionals,
    /// A player-versus-player mode without its class.
    MissingClass,
    /// A player-versus-player mode without its name.
    MissingName,
    /// A player-versus-player mode without its type label.
    MissingTournamentType,
    /// A mode that this library does not know.
    UnknownService(u64),
}

/// An entrant of a player-versus-player tournament.
#[derive(Debug, Copy, Clone)]
pub struct Warrior {
    pub account: [u8; 20],
    pub id: u64,
}

/// An entrant of a solo tournament.
#[derive(Debug, Copy, Clone)]
pub struct SoloWarrior {
    pub id: u64,
}

/// How a tournament ended.
#[derive(Debug, Copy, Clone, PartialEq, Eq, Structural)]
pub enum Status {
    Completed,
    Cancelled,
}

#[derive(Debug, Clone)]
pub struct Level {
    pub nav_key: String,
}

/// The stakes of a tournament. The two amounts are 256-bit numbers, held as
/// four 64-bit limbs, least significant first.
#[derive(Debug, Clone)]
pub struct Configs {
    pub currency: [u8; 20],
    pub fee_percentage: u64,
    pub buy_in: [u64; 4],
    pub top_up: [u64; 4],
}

impl Tournament {
    /// The number by which upstream names the mode.
    pub open spec fn spec_service_id(self) -> u64 {
        match self {
            Tournament::OneVOne { .. } => 0,
            Tournament::Blooding { .. } => 1,
            Tournament::Bloodbath { .. } => 2,
            Tournament::BloodElo { .. } => 3,
        }
    }

    /// The number of the tournament within its mode.
    pub open spec fn spec_id(self) -> i64 {
        match self {
            Tournament::OneVOne { tournament_id, .. }
            | Tournament::Blooding { tournament_id, .. }
            | Tournament::Bloodbath { tournament_id, .. }
            | Tournament::BloodElo { tournament_id, .. } => tournament_id,
        }
    }

    /// How the tournament ended.
    pub open spec fn spec_status(self) -> Status {
        match self {
            Tournament::OneVOne { status, .. }
            | Tournament::Blooding { status, .. }
            | Tournament::Bloodbath { status, .. }
            | Tournament::BloodElo { status, .. } => status,
        }
    }

    /// The stakes.
    pub open spec fn spec_configs(self) -> Configs {
        match self {
            Tournament::OneVOne { configs, .. }
            | Tournament::Blooding { configs, .. }
            | Tournament::Bloodbath { configs, .. }
            | Tournament::BloodElo { configs, .. } => configs,
        }
    }

    /// The key string.
    pub open spec fn spec_key(self) -> String {
        match self {
            Tournament::OneVOne { key, .. }
            | Tournament::Blooding { key, .. }
            | Tournament::Bloodbath { key, .. }
            | Tournament::BloodElo { key, .. } => key,
        }
    }

    /// The level.
    pub open spec fn spec_level(self) -> Level {
        match self {
            Tournament::OneVOne { level, .. }
            | Tournament::Blooding { level, .. }
            | Tournament::Bloodbath { level, .. }
            | Tournament::BloodElo { level, .. } => level,
        }
    }

    /// When upstream last changed the tournament.
    pub open spec fn spec_modified(self) -> Timestamp {
        match self {
            Tournament::OneVOne { modified, .. }
            | Tournament::Blooding { modified, .. }
            | Tournament::Bloodbath { modified, .. }
            | Tournament::BloodElo { modified, .. } => modified,
        }
    }

    /// The restrictions, as JSON text.
    pub open spec fn spec_restrictions(self) -> String {
        match self {
            Tournament::OneVOne { restrictions, .. }
            | Tournament::Blooding { restrictions, .. }
            | Tournament::Bloodbath { restrictions, .. }
            | Tournament::BloodElo { restrictions, .. } => restrictions,
        }
    }

    /// When the tournament started.
    pub open spec fn spec_start_time(self) -> Timestamp {
        match self {
            Tournament::OneVOne { start_time, .. }
            | Tournament::Blooding { start_time, .. }
            | Tournament::Bloodbath { start_time, .. }
            | Tournament::BloodElo { start_time, .. } => start_time,
        }
    }

    /// The display name, which the solo mode lacks.
    pub open spec fn spec_name(self) -> Option<String> {
        match self {
            Tournament::OneVOne { .. } => None,
            Tournament::Blooding { name, .. }
            | Tournament::Bloodbath { name, .. }
            | Tournament::BloodElo { name, .. } => Some(name),
        }
    }

    /// The legacy flag, which the solo mode lacks.
    pub open spec fn spec_legacy(self) -> Option<bool> {
        match self {
            Tournament::OneVOne { .. } => None,
            Tournament::Blooding { legacy, .. }
            | Tournament::Bloodbath { legacy, .. }
            | Tournament::BloodElo { legacy, .. } => Some(legacy),
        }
    }

    /// The optional settings, which only the solo mode has.
    pub open spec fn spec_solo_optionals(self) -> Option<String> {
        match self {
            Tournament::OneVOne { solo_optionals, .. } => Some(solo_optionals),
            _ => None,
        }
    }

    /// The entrants in upstream's order: each fighter with the account that
    /// entered it, where the mode records one.
    pub open spec fn spec_entrants(self) -> Seq<(u64, Option<[u8; 20]>)> {
        match self {
            Tournament::OneVOne { solo_warriors, .. } => Seq::new(
                solo_warriors@.len(),
                |i: int| (solo_warriors@[i].id, None::<[u8; 20]>),
            ),
            Tournament::Blooding { warriors, .. }
            | Tournament::Bloodbath { warriors, .. }
            | Tournament::BloodElo { warriors, .. } => Seq::new(
                warriors@.len(),
                |i: int| (warriors@[i].id, Some(warriors@[i].account)),
            ),
        }
    }

    pub fn service_id(&self) -> (id: u64)
        ensures
            id == self.spec_service_id(),
    {
        match self {
            Tournament::OneVOne { .. } => 0,
            Tournament::Blooding { .. } => 1,
            Tournament::Bloodbath { .. } => 2,
            Tournament::BloodElo { .. } => 3,
        }
    }

    pub fn id(&self) -> (r: i64)
        ensures
            r == self.spec_id(),
    {
        match self {
            Tournament::OneVOne { tournament_id, .. }
            | Tournament::Blooding { tournament_id, .. }
            | Tournament::Bloodbath { tournament_id, .. }
            | Tournament::BloodElo { tournament_id, .. } => *tournament_id,
        }
    }

    pub fn status(&self) -> (r: Status)
        ensures
            r == self.spec_status(),
    {
        match self {
            Tournament::OneVOne { status, .. }
            | Tournament::Blooding { status, .. }
            | Tournament::Bloodbath { status, .. }
            | Tournament::BloodElo { status, .. } => *status,
        }
    }

    pub fn configs(&self) -> (r: &Configs)
        ensures
            *r == self.spec_configs(),
    {
        match self {
            Tournament::OneVOne { configs, .. }
            | Tournament::Blooding { configs, .. }
            | Tournament::Bloodbath { configs, .. }
            | Tournament::BloodElo { configs, .. } => configs,
        }
    }

    pub fn key(&self) -> (r: &String)
        ensures
            *r == self.spec_key(),
    {
        match self {
            Tournament::OneVOne { key, .. }
            | Tournament::Blooding { key, .. }
            | Tournament::Bloodbath { key, .. }
            | Tournament::BloodElo { key, .. } => key,
        }
    }

    pub fn level(&self) -> (r: &Level)
        ensures
            *r == self.spec_level(),
    {
        match self {
            Tournament::OneVOne { level, .. }
            | Tournament::Blooding { level, .. }
            | Tournament::Bloodbath { level, .. }
            | Tournament::BloodElo { level, .. } => level,
        }
    }

    pub fn modified(&self) -> (r: Timestamp)
        ensures
            r == self.spec_modified(),
    {
        match self {
            Tournament::OneVOne { modified, .. }
            | Tournament::Blooding { modified, .. }
            | Tournament::Bloodbath { modified, .. }
            | Tournament::BloodElo { modified, .. } => *modified,
        }
    }

    pub fn restrictions(&self) -> (r: &String)
        ensures
            *r == self.spec_restrictions(),
    {
        match self {
            Tournament::OneVOne { restrictions, .. }
            | Tournament::Blooding { restrictions, .. }
            | Tournament::Bloodbath { restrictions, .. }
            | Tournament::BloodElo { restrictions, .. } => restrictions,
        }
    }

    pub fn start_time(&self) -> (r: Timestamp)
        ensures
            r == self.spec_start_time(),
    {
        match self {
            Tournament::OneVOne { start_time, .. }
            | Tournament::Blooding { start_time, .. }
            | Tournament::Bloodbath { start_time, .. }
            | Tournament::BloodElo { start_time, .. } => *start_time,
        }
    }

    pub fn name(&self) -> (r: Option<&String>)
        ensures
            r.is_some() == self.spec_name().is_some(),
            r.is_some() ==> *r.unwrap() == self.spec_name().unwrap(),
    {
        match self {
            Tournament::OneVOne { .. } => None,
            Tournament::Blooding { name, .. }
            | Tournament::Bloodbath { name, .. }
            | Tournament::BloodElo { name, .. } => Some(name),
        }
    }

    pub fn legacy(&self) -> (r: Option<bool>)
        ensures
            r == self.spec_legacy(),
    {
        match self {
            Tournament::OneVOne { .. } => None,
            Tournament::Blooding { legacy, .. }
            | Tournament::Bloodbath { legacy, .. }
            | Tournament::BloodElo { legacy, .. } => Some(*legacy),
        }
    }

    pub fn solo_optionals(&self) -> (r: Option<&String>)
        ensures
            r.is_some() == self.spec_solo_optionals().is_some(),
            r.is_some() ==> *r.unwrap() == self.spec_solo_optionals().unwrap(),
    {
        match self {
            Tournament::OneVOne { solo_optionals, .. } => Some(solo_optionals),
            _ => None,
        }
    }

    /// How many fighters entered.
    pub fn entrant_count(&self) -> (n: usize)
        ensures
            n == self.spec_entrants().len(),
    {
        match self {
            Tournament::OneVOne { solo_warriors, .. } => solo_warriors.len(),
            Tournament::Blooding { warriors, .. }
            | Tournament::Bloodbath { warriors, .. }
            | Tournament::BloodElo { warriors, .. } => warriors.len(),
        }
    }

    /// Entrant `i`: the fighter, and the account that entered it where the
    /// mode records one.
    pub fn entrant(&self, i: usize) -> (e: (u64, Option<[u8; 20]>))
        requires
            i < self.spec_entrants().len(),
        ensures
            e == self.spec_entrants()[i as int],
    {
        match self {
            Tournament::OneVOne { solo_warriors, .. } => (solo_warriors[i].id, None),
            Tournament::Blooding { warriors, .. }
            | Tournament::Bloodbath { warriors, .. }
            | Tournament::BloodElo { warriors, .. } => (warriors[i].id, Some(warriors[i].account)),
        }
    }
}

/// The solo tournament that a record describes, given that it carries the
/// optional settings.
pub open spec fn solo_of(raw: RawTournament) -> Tournament {
    Tournament::OneVOne {
        tournament_id: raw.tournament_id,
        configs: raw.configs,
        key: raw.key,
        level: raw.level,
        modified: raw.modified,
        restrictions: raw.restrictions,
        solo_optionals: raw.solo_optionals.unwrap(),
        start_time: raw.start_time,
        status: raw.status,
        solo_warriors: raw.solo_warriors,
    }
}

/// The player-versus-player tournament that a record describes, given that
/// it carries class, name and type label. A missing legacy flag counts as
/// unset.
pub open spec fn pvp_of(raw: RawTournament) -> Tournament {
    if raw.service_id == 1 {
        Tournament::Blooding {
                tournament_id: raw.tournament_id,
                class: raw.class.unwrap(),
                configs: raw.configs,
                key: raw.key,
                legacy: raw.legacy.unwrap_or(false),
                level: raw.level,
                modified: raw.modified,
                name: raw.name.unwrap(),
                restrictions: raw.restrictions,
                start_time: raw.start_time,
                status: raw.status,
                tournament_type: raw.tournament_type.unwrap(),
                warriors: raw.warriors,
            }
    } else if raw.service_id == 2 {
        Tournament::Bloodbath {
                tournament_id: raw.tournament_id,
                class: raw.class.unwrap(),
                configs: raw.configs,
                key: raw.key,
                legacy: raw.legacy.unwrap_or(false),
                level: raw.level,
                modified: raw.modified,
                name: raw.name.unwrap(),
                restrictions: raw.restrictions,
                start_time: raw.start_time,
                status: raw.status,
                tournament_type: raw.tournament_type.unwrap(),
                warriors: raw.warriors,
            }
    } else {
        Tournament::BloodElo {
                tournament_id: raw.tournament_id,
                class: raw.class.unwrap(),
                configs: raw.configs,
                key: raw.key,
                legacy: raw.legacy.unwrap_or(false),
                level: raw.level,
                modified: raw.modified,
                name: raw.name.unwrap(),
                restrictions: raw.restrictions,
                start_time: raw.start_time,
                status: raw.status,
                tournament_type: raw.tournament_type.unwrap(),
                warriors: raw.warriors,
            }
    }
}

/// What a record of the listing is: a tournament of the mode that its
/// discriminator names, or the first reason why it is none. The fields of a
/// player-versus-player mode are looked for in the order class, name, type
/// label.
pub open spec fn spec_decode(raw: RawTournament) -> Result<Tournament, DecodeError> {
    if raw.service_id == 0 {
        if raw.solo_optionals.is_some() {
            Ok(solo_of(raw))
        } else {
            Err(DecodeError::MissingSoloOptionals)
        }
    } else if raw.service_id <= 3 {
        if raw.class.is_none() {
            Err(DecodeError::MissingClass)
        } else if raw.name.is_none() {
            Err(DecodeError::MissingName)
        } else if raw.tournament_type.is_none() {
            Err(DecodeError::MissingTournamentType)
        } else {
            Ok(pvp_of(raw))
        }
    } else {
        Err(DecodeError::UnknownService(raw.service_id))
    }
}

/// The tournaments among the records of a page, in the page's order; a
/// record that is no tournament leaves no trace.
pub open spec fn spec_decode_items(raws: Seq<RawTournament>) -> Seq<Tournament>
    decreases raws.len(),
{
    if raws.len() == 0 {
        Seq::empty()
    } else {
        let before = spec_decode_items(raws.drop_last());
        match spec_decode(raws.last()) {
            Ok(t) => before.push(t),
            Err(_) => before,
        }
    }
}

/// Validates one record of the listing into the shape of its mode.
pub fn decode(raw: RawTournament) -> (result: Result<Tournament, DecodeError>)
    ensures
        result == spec_decode(raw),
        result.is_ok() ==> result.unwrap().spec_service_id() == raw.service_id
            && result.unwrap().spec_id() == raw.tournament_id
            && result.unwrap().spec_status() == raw.status,
{
    let RawTournament {
        service_id,
        tournament_id,
        class,
        configs,
        key,
        legacy,
        level,
        modified,
        name,
        restrictions,
        start_time,
        status,
        tournament_type,
        warriors,
        solo_warriors,
        solo_optionals,
    } = raw;
    if service_id == 0 {
        match solo_optionals {
            Some(solo_optionals) => Ok(
                Tournament::OneVOne {
                    tournament_id,
                    configs,
                    key,
                    level,
                    modified,
                    restrictions,
                    solo_optionals,
                    start_time,
                    status,
                    solo_warriors,
                },
            ),
            None => Err(DecodeError::MissingSoloOptionals),
        }
    } else if service_id <= 3 {
        let class = match class {
            Some(class) => class,
            None => { return Err(DecodeError::MissingClass); },
        };
        let legacy = match legacy {
            Some(legacy) => legacy,
            None => false,
        };
        let name = match name {
            Some(name) => name,
            None => { return Err(DecodeError::MissingName); },
        };
        let tournament_type = match tournament_type {
            Some(tournament_type) => tournament_type,
            None => { return Err(DecodeError::MissingTournamentType); },
        };
        if service_id == 1 {
            Ok(Tournament::Blooding {
                tournament_id,
                class,
                configs,
                key,
                legacy,
                level,
                modified,
                name,
                restrictions,
                start_time,
                status,
                tournament_type,
                warriors,
            })
        } else if service_id == 2 {
            Ok(Tournament::Bloodbath {
                tournament_id,
                class,
                configs,
                key,
                legacy,
                level,
                modified,
                name,
                restrictions,
                start_time,
                status,
                tournament_type,
                warriors,
            })
        } else {
            Ok(Tournament::BloodElo {
                tournament_id,
                class,
                configs,
                key,
                legacy,
                level,
                modified,
                name,
                restrictions,
                start_time,
                status,
                tournament_type,
                warriors,
            })
        }
    } else {
        Err(DecodeError::UnknownService(service_id))
    }
}

/// Validates the records of a page one by one and keeps those that are
/// tournaments, in the page's order.
pub fn decode_items(raws: Vec<RawTournament>) -> (items: Vec<Tournament>)
    ensures
        items@ == spec_decode_items(raws@),
{
    let mut items: Vec<Tournament> = Vec::new();
    let ghost all = raws@;
    for raw in it: raws
        invariant
            it.seq() == all,
            items@ == spec_decode_items(all.take(it.index())),
    {
        proof {
            let upto = all.take(it.index() + 1);
            assert(upto.drop_last() =~= all.take(it.index()));
            assert(upto.last() == all[it.index()]);
        }
        match decode(raw) {
            Ok(t) => { items.push(t); },
            Err(_) => {},
        }
    }
    proof {
        assert(all.take(all.len() as int) =~= all);
    }
    items
}

impl RawTournamentResponse {
    /// The page with its records validated: the envelope as it came, and of
    /// the records those that are tournaments, in the page's order.
    pub fn decode(self) -> (page: TournamentResponse)
        ensures
            page.pagination == self.pagination,
            page.items@ == spec_decode_items(self.items@),
    {
        TournamentResponse { pagination: self.pagination, items: decode_items(self.items) }
    }
}

impl Status {
    /// The status that upstream writes as `raw`: `COMPLETE_SUCCEED` for a
    /// completed tournament, `CANCEL_SUCCEED` for a cancelled one. Nothing
    /// else is a status.
    pub open spec fn spec_from_raw(raw: Seq<char>) -> Option<Status> {
        if raw == "COMPLETE_SUCCEED"@ {
            Some(Status::Completed)
        } else if raw == "CANCEL_SUCCEED"@ {
            Some(Status::Cancelled)
        } else {
            None
        }
    }

    /// The status that upstream writes as `raw`, if it is one.
    pub fn from_raw(raw: &str) -> (status: Option<Status>)
        ensures
            status == Self::spec_from_raw(raw@),
    {
        let raw = raw.to_owned();
        if raw == "COMPLETE_SUCCEED".to_owned() {
            Some(Status::Completed)
        } else if raw == "CANCEL_SUCCEED".to_owned() {
            Some(Status::Cancelled)
        } else {
            None
        }
    }
}

} // verus!

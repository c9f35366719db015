//! Rules engine for the party game Mafia.

pub mod ability;
pub mod action;
pub mod alignment;
pub mod attr;
pub mod census;
pub mod deadline;
pub mod delivery;
pub mod effect;
pub mod effects;
pub mod event;
pub mod faction;
pub mod fate;
pub mod game;
pub mod input;
pub mod laws;
pub mod membership;
pub mod modifier;
pub mod names;
pub mod objective;
pub mod order;
pub mod phase;
pub mod plan;
pub mod plan_laws;
pub mod player;
pub mod protection;
pub mod query;
pub mod resolve;
pub mod session;
pub mod setup;
pub mod sound;
pub mod state;
pub mod tally;
pub mod util;
pub mod visibility;

pub use crate::ability::Ability;
pub use crate::action::{placeholder_matches, Action};
pub use crate::alignment::Alignment;
pub use crate::attr::Attr;
pub use crate::deadline::Deadline;
pub use crate::delivery::Delivery;
pub use crate::effect::Effect;
pub use crate::event::Event;
pub use crate::faction::FactionState;
pub use crate::fate::Fate;
pub use crate::game::{Game, Log};
pub use crate::input::{Input, Inputs};
pub use crate::membership::Membership;
pub use crate::modifier::Modifier;
pub use crate::objective::Objective;
pub use crate::phase::Phase;
pub use crate::player::PlayerStatus;
pub use crate::session::{default_keys, handle, look_up, Entity, KeyMap, Refusal, Request, Response, Step};
pub use crate::setup::default_setup;
pub use crate::state::{Factions, Players, State};
pub use crate::util::{Faction, IsDefault, Player, PlayerOrFaction};
pub use crate::visibility::Visibility;

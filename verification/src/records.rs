//! Plain records shared with the engine's behavior, commerce and presence
//! layers.

use vstd::prelude::*;

verus! {

/// Who triggered an event (the interacting player), as far as a behavior may know.
#[derive(Debug, Clone, Default, PartialEq)]
pub struct Actor {
    /// The interacting Passport subject, if the player is identified.
    pub passport_sub: Option<String>,
}

/// What's on the counter: everything the purchase confirm dialog shows and
/// everything the wire call needs.
#[derive(Debug, Clone, PartialEq)]
pub struct Offer {
    /// The item being bought, as a StructuredId string ("CCSSNNNN").
    pub item: String,
    /// Display name (from placement `data.name`, falling back to the item id).
    pub name: String,
    /// The world's displayed price ("250 gold"), informative only.
    pub price_label: Option<String>,
    /// The price-catalog key the server resolves the charge from.
    pub price_ref: String,
    /// The world the stall stands in.
    pub world_id: String,
}

/// What a purchase granted.
#[derive(Debug, Clone, Default)]
pub struct Grant {
    pub item: String,
    pub granted: bool,
    /// Whether the grant landed on the traveler's durable inventory yet.
    pub persisted: bool,
    /// The idempotency reference for this (traveler, world, item) charge.
    pub reference: String,
}

/// A traveler's announced identity (from `welcome.occupants[]` or a `join`).
#[derive(Debug, Clone)]
pub struct TravelerHello {
    pub id: u32,
    pub sub: Option<String>,
    pub name: Option<String>,
    /// Their descriptor URL, if they carried a Passport with one.
    pub avatar: Option<String>,
}

/// How a level-building need was satisfied.
#[derive(Debug, Clone, Copy, PartialEq)]
pub enum Source {
    /// Found on the shelf at the right size.
    Stock,
    /// Found close enough, used at a uniform scale (never squashed).
    Scaled,
    /// Nothing fit: made to measure, and published back to the store.
    Commissioned,
    /// Nothing fit and nothing could be made — the need is unmet.
    Unmet,
}

/// Level-building options.
pub struct Options {
    pub quarry: String,
    /// Publish commissions back to the store.
    pub publish: bool,
    pub verbose: bool,
    /// Presence relay for the emitted world. Empty = solo.
    pub relay: String,
    /// Build without a store: every model made locally into this directory.
    pub local: Option<String>,
}

} // verus!

//! The payload of one fighter.

use vstd::prelude::*;

verus! {

/// One fighter as the game service describes it.
#[derive(Debug, Clone)]
pub struct FighterResponse {
    pub attributes: Attributes,
    pub statistic: Statistics,
    pub lineage_node: Option<LineageNode>,
}

/// The descriptive part of a fighter.
#[derive(Debug, Clone)]
pub struct Attributes {
    pub id: u64,
    pub champion_type: Option<String>,
    pub attributes: Vec<AttributeEntry>,
}

/// One descriptive attribute of a fighter, textual or numerical.
#[derive(Debug, Clone)]
pub enum AttributeEntry {
    Text { trait_type: String, value: String },
    Number { trait_type: String, number: u64 },
}

/// The numerical part of a fighter.
#[derive(Debug, Clone)]
pub struct Statistics {
    pub wisdom: Wisdom,
    pub elo: Option<u64>,
    pub owner_address: [u8; 20],
}

#[derive(Debug, Clone)]
pub struct Wisdom {
    pub point: u64,
    pub strength: Stat,
    pub attack: Stat,
    pub defence: Stat,
    pub omega: Stat,
}

/// One stat: where it stands, and the range it may take.
#[derive(Debug, Clone)]
pub struct Stat {
    pub current_range: u64,
    pub from: u64,
    pub to: u64,
}

/// Where a fighter comes from: the first mother of its line and its two
/// parents.
#[derive(Debug, Clone, Copy)]
pub struct LineageNode {
    pub original_mum: u64,
    pub parents: [u64; 2],
}

impl Stat {
    /// The stat that upstream writes as a position and a two-element range.
    pub fn from_range(current_range: u64, range: [u64; 2]) -> (stat: Stat)
        ensures
            stat.current_range == current_range,
            stat.from == range[0],
            stat.to == range[1],
    {
        Stat { current_range, from: range[0], to: range[1] }
    }
}

impl LineageNode {
    /// Lineage is kept only when it names exactly two parents; anything else
    /// counts as no lineage at all.
    pub fn from_parts(original_mum: u64, parents: &Vec<u64>) -> (node: Option<LineageNode>)
        ensures
            node.is_some() <==> parents@.len() == 2,
            node.is_some() ==> node.unwrap().original_mum == original_mum
                && node.unwrap().parents@ == parents@,
    {
        if parents.len() == 2 {
            let node = LineageNode { original_mum, parents: [parents[0], parents[1]] };
            assert(node.parents@ =~= parents@);
            Some(node)
        } else {
            None
        }
    }
}

} // verus!

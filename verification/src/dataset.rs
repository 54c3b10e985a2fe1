//! The tokens and edges that a run starts from.

use vstd::prelude::*;
use crate::rate::Rate;

verus! {

#[derive(Debug, Clone)]
pub struct Token {
    pub id: u64,
    pub symbol: String,
}

#[derive(Debug, Clone)]
pub struct Edge {
    pub id: u64,
    pub from: u64,
    pub to: u64,
    pub rate: Rate,
    pub pool_id: u64,
    pub kind: u8,
}

#[derive(Debug, Clone)]
pub struct Dataset {
    pub tokens: Vec<Token>,
    pub edges: Vec<Edge>,
}

} // verus!

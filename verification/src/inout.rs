//! The rows that come in and the rows that go out.

use crate::positions::Position;
use vstd::prelude::*;

verus! {

/// One input row as it was read: the type's name, the account, the
/// transaction identifier and, where the row has one, the amount in
/// ten-thousandths of a currency unit.
#[derive(Debug, Clone)]
pub struct Record {
    pub tx_type: String,
    pub client_id: u16,
    pub tx_id: u32,
    pub amount: Option<i64>,
}

/// One output row: the position of one account. Amounts count
/// ten-thousandths of a currency unit.
#[derive(Debug, Clone, Copy, PartialEq, Eq, Structural)]
pub struct Balance {
    pub client: u16,
    pub available: u128,
    pub held: u128,
    pub total: u128,
    pub locked: bool,
}

impl Balance {
    /// The position that the row shows.
    pub open spec fn position(self) -> Position {
        Position {
            client_id: self.client,
            available: self.available,
            held: self.held,
            total: self.total,
            locked: self.locked,
        }
    }
}

impl From<Position> for Balance {
    fn from(p: Position) -> (b: Balance) {
        Balance {
            client: p.client_id,
            available: p.available,
            held: p.held,
            total: p.total,
            locked: p.locked,
        }
    }
}

impl vstd::std_specs::convert::FromSpecImpl<Position> for Balance {
    open spec fn obeys_from_spec() -> bool {
        true
    }

    open spec fn from_spec(p: Position) -> Balance {
        Balance {
            client: p.client_id,
            available: p.available,
            held: p.held,
            total: p.total,
            locked: p.locked,
        }
    }
}

} // verus!

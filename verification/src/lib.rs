//! Deterministic control engines and the evidence kernel they share.

pub mod access_recert;
pub mod bankrec;
pub mod capa;
pub mod coi;
pub mod commission;
pub mod contract_obligation;
pub mod covenant;
pub mod date;
pub mod instant;
pub mod num;
pub mod order;
pub mod spine;
pub mod table;
pub mod text;

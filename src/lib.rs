pub mod contract;
pub mod error;
pub mod expiration;
pub mod laws;
pub mod msg;
pub mod order;
pub mod state;

pub use crate::contract::{
    execute, instantiate, query, ContractInfoResponse, Cw721Contract, OperatorGrant,
    OwnerOfResponse, QueryResponse, Snapshot, TokenEntry, TokenIndexes,
};
pub use crate::error::{ContractError, StdError};
pub use crate::expiration::{BlockInfo, Expiration};
pub use crate::msg::{
    DerivativeNft, ExecuteMsg, Extension, InstantiateMsg, MetaAccess, Metadata, MintMsg,
    MinterResponse, QueryMsg, Trait,
};
pub use crate::order::str_less;
pub use crate::state::{token_owner_idx, Approval, TokenInfo};

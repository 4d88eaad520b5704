use vstd::prelude::*;

use crate::expiration::Expiration;

verus! {

/// One attribute of a token's metadata.
#[derive(Clone, Debug, PartialEq, Eq, Default)]
pub struct Trait {
    pub display_type: Option<String>,
    pub trait_type: String,
    pub value: String,
}

/// Declares that a token was produced from existing tokens by a named method.
#[derive(Clone, Debug, PartialEq, Eq, Default)]
pub struct DerivativeNft {
    pub method: String,
    pub params: Option<String>,
    pub source_ids: Vec<String>,
}

#[derive(Clone, Debug, PartialEq, Eq, Default)]
pub struct Metadata {
    pub image: Option<String>,
    pub image_data: Option<String>,
    pub external_url: Option<String>,
    pub description: Option<String>,
    pub name: Option<String>,
    pub attributes: Option<Vec<Trait>>,
    pub background_color: Option<String>,
    pub animation_url: Option<String>,
    pub youtube_url: Option<String>,
    pub derivative: Option<DerivativeNft>,
}

/// The metadata payload carried by every token.
pub type Extension = Option<Metadata>;

/// The source token ids that an extension declares, as views; empty when it declares none.
pub open spec fn declared_sources(ext: Extension) -> Seq<Seq<char>> {
    match ext {
        Some(m) => match m.derivative {
            Some(d) => d.source_ids@.map_values(|s: String| s@),
            None => Seq::empty(),
        },
        None => Seq::empty(),
    }
}

/// Read access to the metadata of an extension.
pub trait MetaAccess {
    spec fn spec_is_derivative(&self) -> bool;

    spec fn has_metadata(&self) -> bool;

    spec fn spec_metadata(&self) -> Metadata;

    fn is_derivative(&self) -> (r: bool)
        ensures
            r == self.spec_is_derivative(),
    ;

    fn get_metadata(&self) -> (r: &Metadata)
        requires
            self.has_metadata(),
        ensures
            *r == self.spec_metadata(),
    ;
}

impl MetaAccess for Extension {
    open spec fn spec_is_derivative(&self) -> bool {
        self.is_some() && self.unwrap().derivative.is_some()
    }

    open spec fn has_metadata(&self) -> bool {
        self.is_some()
    }

    open spec fn spec_metadata(&self) -> Metadata {
        self.unwrap()
    }

    fn is_derivative(&self) -> (r: bool) {
        match self {
            Some(m) => m.derivative.is_some(),
            None => false,
        }
    }

    fn get_metadata(&self) -> (r: &Metadata) {
        self.as_ref().unwrap()
    }
}

#[derive(Clone, Debug, PartialEq, Eq)]
pub struct InstantiateMsg {
    pub name: String,
    pub symbol: String,
    pub minter: String,
}

#[derive(Clone, Debug, PartialEq, Eq)]
pub struct MintMsg<T> {
    pub token_id: String,
    pub owner: String,
    pub token_uri: Option<String>,
    pub extension: T,
}

#[derive(Clone, Debug, PartialEq, Eq)]
pub enum ExecuteMsg<T> {
    TransferNft { recipient: String, token_id: String },
    /// Moves a token to a contract; `msg` is the payload delivered to it.
    SendNft { contract: String, token_id: String, msg: Vec<u8> },
    Approve { spender: String, token_id: String, expires: Option<Expiration> },
    Revoke { spender: String, token_id: String },
    ApproveAll { operator: String, expires: Option<Expiration> },
    RevokeAll { operator: String },
    Mint(MintMsg<T>),
}

#[derive(Clone, Debug, PartialEq, Eq)]
pub enum QueryMsg {
    OwnerOf { token_id: String, include_expired: Option<bool> },
    ApprovedForAll {
        owner: String,
        include_expired: Option<bool>,
        start_after: Option<String>,
        limit: Option<u32>,
    },
    NumTokens {},
    ContractInfo {},
    NftInfo { token_id: String },
    AllNftInfo { token_id: String, include_expired: Option<bool> },
    Tokens { owner: String, start_after: Option<String>, limit: Option<u32> },
    AllTokens { start_after: Option<String>, limit: Option<u32> },
    Minter {},
}

#[derive(Clone, Debug, PartialEq, Eq)]
pub struct MinterResponse {
    pub minter: String,
}

} // verus!

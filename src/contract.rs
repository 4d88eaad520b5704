use vstd::prelude::*;

use crate::error::{ContractError, StdError};
use crate::expiration::{BlockInfo, Expiration};
use crate::order::{lemma_str_lt_irreflexive, lemma_str_lt_total, lemma_str_lt_transitive, str_less, str_lt};
use crate::msg::{declared_sources, ExecuteMsg, QueryMsg, Extension, InstantiateMsg, MintMsg, MinterResponse};
use crate::state::{
    approvals_distinct,
    approved_in, approvals_view, humanize_approvals, opt_str_view, remove_spender, unexpired, spenders_unique, token_owner_idx, without_spender,
    Approval, ApprovalView, TokenInfo, TokenView,
};

verus! {

/// The owner of a token and its approvals.
pub struct OwnerOfResponse {
    pub owner: String,
    pub approvals: Vec<Approval>,
}

/// Name and symbol of the collection.
pub struct ContractInfoResponse {
    pub name: String,
    pub symbol: String,
}

/// A token record under its id.
pub struct TokenEntry {
    pub token_id: String,
    pub info: TokenInfo,
}

struct IndexEntry {
    owner: String,
    token_id: String,
}

/// A grant of `owner` that lets `operator` act on all of its tokens.
pub struct OperatorGrant {
    pub owner: String,
    pub operator: String,
    pub expires: Expiration,
}

/// The owner index: one entry per token, naming its owner and its id.
pub struct TokenIndexes {
    owner: Vec<IndexEntry>,
}

/// The token registry: the token records, the owner index, the operator
/// grants, the issued-token counter and the collection's metadata.
pub struct Cw721Contract {
    contract_info: ContractInfoResponse,
    minter: String,
    token_count: u64,
    operators: Vec<OperatorGrant>,
    tokens: Vec<TokenEntry>,
    indexes: TokenIndexes,
    token_map: Ghost<Map<Seq<char>, TokenView>>,
    operator_map: Ghost<Map<(Seq<char>, Seq<char>), Expiration>>,
}

/// Every source is a stored token.
pub open spec fn sources_exist(tokens: Map<Seq<char>, TokenView>, srcs: Seq<Seq<char>>) -> bool {
    forall|k: int| 0 <= k < srcs.len() ==> tokens.contains_key(#[trigger] srcs[k])
}

/// `srcs[k]` is the first source that is not a stored token.
pub open spec fn first_missing_at(
    tokens: Map<Seq<char>, TokenView>,
    srcs: Seq<Seq<char>>,
    k: int,
) -> bool {
    &&& 0 <= k < srcs.len()
    &&& !tokens.contains_key(srcs[k])
    &&& forall|j: int| 0 <= j < k ==> tokens.contains_key(#[trigger] srcs[j])
}

/// Present values of the optional strings, as views.
pub open spec fn opt_ref_view(o: Option<&String>) -> Option<Seq<char>> {
    match o {
        Some(s) => Some(s@),
        None => None,
    }
}

/// `token_id` comes after `start`, when one is given.
pub open spec fn after(start: Option<Seq<char>>, token_id: Seq<char>) -> bool {
    match start {
        Some(s) => str_lt(s, token_id),
        None => true,
    }
}

pub open spec fn ids_view(v: Seq<String>) -> Seq<Seq<char>> {
    v.map_values(|s: String| s@)
}

/// The page size a query asks for: 10 when absent, at most 100.
pub open spec fn page_limit(limit: Option<u32>) -> int {
    match limit {
        Some(l) => if l < 100 {
            l as int
        } else {
            100
        },
        None => 10,
    }
}

impl Cw721Contract {
    /// `token_id` is stored and, when `owner` is given, belongs to it.
    pub open spec fn listed(&self, owner: Option<Seq<char>>, token_id: Seq<char>) -> bool {
        &&& self.tokens_view().contains_key(token_id)
        &&& match owner {
            Some(o) => self.tokens_view()[token_id].owner == o,
            None => true,
        }
    }

    /// `page` holds, in ascending order, the first `lim` of the listed token ids
    /// that come after `start`.
    pub open spec fn is_page(
        &self,
        owner: Option<Seq<char>>,
        start: Option<Seq<char>>,
        lim: int,
        page: Seq<Seq<char>>,
    ) -> bool {
        &&& page.len() <= lim
        &&& forall|i: int|
            0 <= i < page.len() ==> self.listed(owner, #[trigger] page[i]) && after(start, page[i])
        &&& forall|i: int| 0 <= i < page.len() - 1 ==> str_lt(#[trigger] page[i], page[i + 1])
        &&& forall|k: Seq<char>|
            self.listed(owner, k) && after(start, k) && !page.contains(k) ==> page.len() == lim && (
            page.len() == 0 || str_lt(page.last(), k))
    }
}

pub open spec fn spenders_of(page: Seq<ApprovalView>) -> Seq<Seq<char>> {
    page.map_values(|a: ApprovalView| a.spender)
}

impl Cw721Contract {
    /// `owner` has a grant to `operator`, unexpired at `block` unless `include_expired`.
    pub open spec fn operator_listed(
        &self,
        owner: Seq<char>,
        include_expired: bool,
        block: BlockInfo,
        operator: Seq<char>,
    ) -> bool {
        &&& self.operators_view().contains_key((owner, operator))
        &&& (include_expired || !self.operators_view()[(owner, operator)].spec_is_expired(block))
    }

    /// `page` holds, in ascending order of operator, the first `lim` of the
    /// listed grants of `owner` whose operator comes after `start`.
    pub open spec fn is_operator_page(
        &self,
        owner: Seq<char>,
        include_expired: bool,
        block: BlockInfo,
        start: Option<Seq<char>>,
        lim: int,
        page: Seq<ApprovalView>,
    ) -> bool {
        &&& page.len() <= lim
        &&& forall|i: int|
            0 <= i < page.len() ==> self.operator_listed(
                owner,
                include_expired,
                block,
                (#[trigger] page[i]).spender,
            ) && after(start, page[i].spender) && page[i].expires == self.operators_view()[(
                owner,
                page[i].spender,
            )]
        &&& forall|i: int|
            0 <= i < page.len() - 1 ==> str_lt((#[trigger] page[i]).spender, page[i + 1].spender)
        &&& forall|k: Seq<char>|
            self.operator_listed(owner, include_expired, block, k) && after(start, k)
                && !spenders_of(page).contains(k) ==> page.len() == lim && (page.len() == 0
                || str_lt(page.last().spender, k))
    }
}

impl Cw721Contract {
    /// The token records, by token id.
    pub closed spec fn tokens_view(&self) -> Map<Seq<char>, TokenView> {
        self.token_map@
    }

    /// The operator grants, by (owner, operator).
    pub closed spec fn operators_view(&self) -> Map<(Seq<char>, Seq<char>), Expiration> {
        self.operator_map@
    }

    /// The owner index, as (owner, token id) pairs.
    pub closed spec fn owner_index(&self) -> Set<(Seq<char>, Seq<char>)> {
        Set::new(
            |p: (Seq<char>, Seq<char>)|
                exists|i: int|
                    0 <= i < self.indexes.owner@.len() && #[trigger] self.indexes.owner@[i].owner@
                        == p.0 && self.indexes.owner@[i].token_id@ == p.1,
        )
    }

    /// The number of tokens ever minted.
    pub closed spec fn count_view(&self) -> nat {
        self.token_count as nat
    }

    pub closed spec fn minter_view(&self) -> Seq<char> {
        self.minter@
    }

    pub closed spec fn name_view(&self) -> Seq<char> {
        self.contract_info.name@
    }

    pub closed spec fn symbol_view(&self) -> Seq<char> {
        self.contract_info.symbol@
    }

    closed spec fn tokens_wf(&self) -> bool {
        let m = self.token_map@;
        let t = self.tokens@;
        &&& forall|i: int, j: int|
            0 <= i < j < t.len() ==> #[trigger] t[i].token_id@ != #[trigger] t[j].token_id@
        &&& forall|i: int|
            0 <= i < t.len() ==> m.contains_key(#[trigger] t[i].token_id@) && m[t[i].token_id@]
                == t[i].info@
        &&& forall|k: Seq<char>|
            #[trigger] m.contains_key(k) ==> exists|i: int|
                0 <= i < t.len() && #[trigger] t[i].token_id@ == k
        &&& forall|k: Seq<char>| #[trigger] m.contains_key(k) ==> spenders_unique(m[k].approvals)
    }

    closed spec fn index_wf(&self) -> bool {
        let m = self.token_map@;
        let x = self.indexes.owner@;
        &&& forall|i: int, j: int|
            0 <= i < j < x.len() ==> #[trigger] x[i].token_id@ != #[trigger] x[j].token_id@
        &&& forall|i: int|
            0 <= i < x.len() ==> m.contains_key(#[trigger] x[i].token_id@) && m[x[i].token_id@].owner
                == x[i].owner@
        &&& forall|k: Seq<char>|
            #[trigger] m.contains_key(k) ==> exists|i: int|
                0 <= i < x.len() && #[trigger] x[i].token_id@ == k
    }

    closed spec fn operators_wf(&self) -> bool {
        let m = self.operator_map@;
        let o = self.operators@;
        &&& forall|i: int, j: int|
            0 <= i < j < o.len() ==> (#[trigger] o[i].owner@, o[i].operator@) != (
                #[trigger] o[j].owner@,
                o[j].operator@,
            )
        &&& forall|i: int|
            0 <= i < o.len() ==> m.contains_key((#[trigger] o[i].owner@, o[i].operator@)) && m[(
                o[i].owner@,
                o[i].operator@,
            )] == o[i].expires
        &&& forall|k: (Seq<char>, Seq<char>)|
            #[trigger] m.contains_key(k) ==> exists|i: int|
                0 <= i < o.len() && (#[trigger] o[i].owner@, o[i].operator@) == k
    }

    /// The registry's invariants: unique token ids, unique spenders per token,
    /// an owner index that lists exactly the tokens of each owner, one grant per
    /// (owner, operator) pair, and a counter equal to the number of tokens.
    pub closed spec fn wf(&self) -> bool {
        &&& self.token_count as int == self.tokens@.len()
        &&& self.tokens_wf()
        &&& self.index_wf()
        &&& self.operators_wf()
    }

    /// The operator grant of `owner` to `operator` exists and has not expired at `block`.
    pub open spec fn spec_is_operator(
        &self,
        owner: Seq<char>,
        operator: Seq<char>,
        block: BlockInfo,
    ) -> bool {
        &&& self.operators_view().contains_key((owner, operator))
        &&& !self.operators_view()[(owner, operator)].spec_is_expired(block)
    }

    /// `actor` may transfer or send the stored token `token_id` at `block`.
    pub open spec fn spec_can_act(&self, actor: Seq<char>, token_id: Seq<char>, block: BlockInfo) -> bool {
        let t = self.tokens_view()[token_id];
        ||| actor == t.owner
        ||| approved_in(t.approvals, actor, block)
        ||| self.spec_is_operator(t.owner, actor, block)
    }

    /// Everything but the token records is as in `other`.
    pub open spec fn same_but_tokens(&self, other: &Cw721Contract) -> bool {
        &&& self.operators_view() == other.operators_view()
        &&& self.count_view() == other.count_view()
        &&& self.minter_view() == other.minter_view()
        &&& self.name_view() == other.name_view()
        &&& self.symbol_view() == other.symbol_view()
    }

    /// Everything but the operator grants is as in `other`.
    pub open spec fn same_but_operators(&self, other: &Cw721Contract) -> bool {
        &&& self.tokens_view() == other.tokens_view()
        &&& self.owner_index() == other.owner_index()
        &&& self.count_view() == other.count_view()
        &&& self.minter_view() == other.minter_view()
        &&& self.name_view() == other.name_view()
        &&& self.symbol_view() == other.symbol_view()
    }

    fn find_token(&self, token_id: &String) -> (r: Option<usize>)
        requires
            self.wf(),
        ensures
            r.is_some() == self.tokens_view().contains_key(token_id@),
            r matches Some(i) ==> i < self.tokens@.len() && self.tokens@[i as int].token_id@
                == token_id@ && self.tokens_view()[token_id@] == self.tokens@[i as int].info@,
    {
        let mut i: usize = 0;
        while i < self.tokens.len()
            invariant
                self.wf(),
                i <= self.tokens@.len(),
                forall|j: int| 0 <= j < i ==> self.tokens@[j].token_id@ != token_id@,
            decreases self.tokens@.len() - i,
        {
            if self.tokens[i].token_id == *token_id {
                return Some(i);
            }
            i = i + 1;
        }
        None
    }

    fn find_index_entry(&self, token_id: &String) -> (r: usize)
        requires
            self.wf(),
            self.tokens_view().contains_key(token_id@),
        ensures
            r < self.indexes.owner@.len(),
            self.indexes.owner@[r as int].token_id@ == token_id@,
    {
        let mut i: usize = 0;
        while i < self.indexes.owner.len()
            invariant
                self.wf(),
                self.tokens_view().contains_key(token_id@),
                i <= self.indexes.owner@.len(),
                forall|j: int| 0 <= j < i ==> self.indexes.owner@[j].token_id@ != token_id@,
            decreases self.indexes.owner@.len() - i,
        {
            if self.indexes.owner[i].token_id == *token_id {
                return i;
            }
            i = i + 1;
        }
        proof {
            assert(self.tokens_view().contains_key(token_id@));
        }
        0
    }

    fn find_operator(&self, owner: &String, operator: &String) -> (r: Option<usize>)
        requires
            self.wf(),
        ensures
            r.is_some() == self.operators_view().contains_key((owner@, operator@)),
            r matches Some(i) ==> i < self.operators@.len() && self.operators@[i as int].owner@
                == owner@ && self.operators@[i as int].operator@ == operator@
                && self.operators_view()[(owner@, operator@)] == self.operators@[i as int].expires,
    {
        let mut i: usize = 0;
        while i < self.operators.len()
            invariant
                self.wf(),
                i <= self.operators@.len(),
                forall|j: int|
                    0 <= j < i ==> (self.operators@[j].owner@, self.operators@[j].operator@) != (
                        owner@,
                        operator@,
                    ),
            decreases self.operators@.len() - i,
        {
            if self.operators[i].owner == *owner && self.operators[i].operator == *operator {
                return Some(i);
            }
            i = i + 1;
        }
        None
    }

    /// The number of tokens minted so far.
    pub fn token_count(&self) -> (r: u64)
        ensures
            r == self.count_view(),
    {
        self.token_count
    }

    /// Raises the counter by one and returns its new value.
    fn increment_tokens(&mut self) -> (r: u64)
        requires
            old(self).token_count < u64::MAX,
        ensures
            r == old(self).token_count + 1,
            *final(self) == (Cw721Contract { token_count: r, ..*old(self) }),
    {
        self.token_count = self.token_count + 1;
        self.token_count
    }

    /// Gives the token at position `i` a new owner and approval list, moving its
    /// owner-index entry in the same step; its URI and extension stay.
    fn replace(&mut self, i: usize, owner: String, approvals: Vec<Approval>)
        requires
            old(self).wf(),
            i < old(self).tokens@.len(),
            spenders_unique(approvals_view(approvals@)),
        ensures
            final(self).wf(),
            final(self).same_but_tokens(old(self)),
            final(self).tokens_view() == old(self).tokens_view().insert(
                old(self).tokens@[i as int].token_id@,
                TokenView {
                    owner: owner@,
                    approvals: approvals_view(approvals@),
                    ..old(self).tokens_view()[old(self).tokens@[i as int].token_id@]
                },
            ),
    {
        let ghost pre = *self;
        let ghost id = self.tokens@[i as int].token_id@;
        let ghost new_view = TokenView {
            owner: owner@,
            approvals: approvals_view(approvals@),
            ..self.token_map@[id]
        };
        if self.tokens[i].info.owner != owner {
            let j = self.find_index_entry(&self.tokens[i].token_id);
            let tid = self.indexes.owner[j].token_id.clone();
            self.indexes.owner[j] = IndexEntry { owner: owner.clone(), token_id: tid };
        }
        self.tokens[i].info.owner = owner;
        self.tokens[i].info.approvals = approvals;
        self.token_map = Ghost(self.token_map@.insert(id, new_view));
        proof {
            assert(self.tokens@[i as int].info@ == new_view);
            assert(self.token_map@.dom() =~= pre.token_map@.dom());
            assert forall|a: int| 0 <= a < self.tokens@.len() implies self.tokens@[a].token_id@
                == pre.tokens@[a].token_id@ && (a != i ==> self.tokens@[a].info@
                == pre.tokens@[a].info@) by {}
            assert forall|a: int| 0 <= a < self.indexes.owner@.len() implies #[trigger] self.indexes.owner@[a].token_id@
                == pre.indexes.owner@[a].token_id@ by {}
            assert forall|a: int|
                0 <= a < self.tokens@.len() implies self.token_map@.contains_key(
                #[trigger] self.tokens@[a].token_id@,
            ) && self.token_map@[self.tokens@[a].token_id@] == self.tokens@[a].info@ by {
                if a != i {
                    assert(pre.tokens@[a].token_id@ != pre.tokens@[i as int].token_id@);
                }
            }
            assert forall|k: Seq<char>| #[trigger]
                self.token_map@.contains_key(k) implies exists|a: int|
                0 <= a < self.tokens@.len() && #[trigger] self.tokens@[a].token_id@ == k by {
                assert(pre.token_map@.contains_key(k));
                let a = choose|a: int| 0 <= a < pre.tokens@.len() && #[trigger] pre.tokens@[a].token_id@ == k;
                assert(self.tokens@[a].token_id@ == k);
            }
            assert forall|k: Seq<char>| #[trigger]
                self.token_map@.contains_key(k) implies spenders_unique(self.token_map@[k].approvals) by {
                if k != id {
                    assert(pre.token_map@.contains_key(k));
                }
            }
            assert(self.tokens_wf());
            assert forall|a: int|
                0 <= a < self.indexes.owner@.len() implies self.token_map@.contains_key(
                #[trigger] self.indexes.owner@[a].token_id@,
            ) && self.token_map@[self.indexes.owner@[a].token_id@].owner
                == self.indexes.owner@[a].owner@ by {
                assert(pre.token_map@.contains_key(pre.indexes.owner@[a].token_id@));
            }
            assert forall|k: Seq<char>| #[trigger]
                self.token_map@.contains_key(k) implies exists|a: int|
                0 <= a < self.indexes.owner@.len() && #[trigger] self.indexes.owner@[a].token_id@ == k by {
                assert(pre.token_map@.contains_key(k));
                let a = choose|a: int| 0 <= a < pre.indexes.owner@.len() && #[trigger] pre.indexes.owner@[a].token_id@ == k;
                assert(self.indexes.owner@[a].token_id@ == k);
            }
            assert(self.index_wf());
        }
    }

    /// The first declared source of `extension` that is not a stored token, if any.
    fn first_missing_source(&self, extension: &Extension) -> (r: Option<String>)
        requires
            self.wf(),
        ensures
            r.is_none() == sources_exist(self.tokens_view(), declared_sources(*extension)),
            r matches Some(s) ==> exists|k: int|
                first_missing_at(self.tokens_view(), declared_sources(*extension), k) && s@
                    == declared_sources(*extension)[k],
    {
        let ghost srcs = declared_sources(*extension);
        match extension {
            Some(m) => match &m.derivative {
                Some(d) => {
                    let mut i: usize = 0;
                    while i < d.source_ids.len()
                        invariant
                            self.wf(),
                            i <= d.source_ids@.len(),
                            srcs == d.source_ids@.map_values(|s: String| s@),
                            srcs == declared_sources(*extension),
                            forall|j: int| 0 <= j < i ==> self.tokens_view().contains_key(#[trigger] srcs[j]),
                        decreases d.source_ids@.len() - i,
                    {
                        if self.find_token(&d.source_ids[i]).is_none() {
                            let s = d.source_ids[i].clone();
                            assert(srcs[i as int] == d.source_ids@[i as int]@);
                            assert(first_missing_at(self.tokens_view(), srcs, i as int));
                            assert(!self.tokens_view().contains_key(srcs[i as int]));
                            assert(srcs == declared_sources(*extension));
                            assert(!sources_exist(self.tokens_view(), srcs));
                            assert(s@ == srcs[i as int]);
                            return Some(s);
                        }
                        assert(srcs[i as int] == d.source_ids@[i as int]@);
                        i = i + 1;
                    }
                    None
                },
                None => None,
            },
            None => None,
        }
    }

    /// Creates the token `msg.token_id` for `msg.owner`, with no approvals.
    pub fn mint(&mut self, msg: MintMsg<Extension>) -> (r: Result<(), ContractError>)
        requires
            old(self).wf(),
        ensures
            final(self).wf(),
            r.is_ok() == (!old(self).tokens_view().contains_key(msg.token_id@) && sources_exist(
                old(self).tokens_view(),
                declared_sources(msg.extension),
            ) && old(self).count_view() < u64::MAX),
            old(self).tokens_view().contains_key(msg.token_id@) ==> r == Err::<(), ContractError>(
                ContractError::Claimed {},
            ),
            !old(self).tokens_view().contains_key(msg.token_id@) && !sources_exist(
                old(self).tokens_view(),
                declared_sources(msg.extension),
            ) ==> (r matches Err(ContractError::SourceNotFound(s)) && exists|k: int|
                first_missing_at(old(self).tokens_view(), declared_sources(msg.extension), k) && s@
                    == declared_sources(msg.extension)[k]),
            !old(self).tokens_view().contains_key(msg.token_id@) && sources_exist(
                old(self).tokens_view(),
                declared_sources(msg.extension),
            ) && old(self).count_view() == u64::MAX ==> r == Err::<(), ContractError>(
                ContractError::Std(StdError::Overflow {}),
            ),
            r.is_ok() ==> final(self).tokens_view() == old(self).tokens_view().insert(
                msg.token_id@,
                TokenView {
                    owner: msg.owner@,
                    approvals: Seq::empty(),
                    token_uri: opt_str_view(msg.token_uri),
                    extension: msg.extension,
                },
            ) && final(self).count_view() == old(self).count_view() + 1
                && final(self).operators_view() == old(self).operators_view()
                && final(self).minter_view() == old(self).minter_view()
                && final(self).name_view() == old(self).name_view()
                && final(self).symbol_view() == old(self).symbol_view(),
            r.is_err() ==> *final(self) == *old(self),
    {
        if self.find_token(&msg.token_id).is_some() {
            return Err(ContractError::Claimed {});
        }
        match self.first_missing_source(&msg.extension) {
            Some(s) => {
                return Err(ContractError::SourceNotFound(s));
            },
            None => {},
        }
        if self.token_count == u64::MAX {
            return Err(ContractError::Std(StdError::Overflow {}));
        }
        let ghost pre = *self;
        let ghost id = msg.token_id@;
        let ghost tv = TokenView {
            owner: msg.owner@,
            approvals: Seq::empty(),
            token_uri: opt_str_view(msg.token_uri),
            extension: msg.extension,
        };
        let info = TokenInfo {
            owner: msg.owner,
            approvals: Vec::new(),
            token_uri: msg.token_uri,
            extension: msg.extension,
        };
        assert(info@.approvals =~= Seq::<ApprovalView>::empty());
        let key = token_owner_idx(&info, msg.token_id.clone());
        self.indexes.owner.push(IndexEntry { owner: key.0, token_id: key.1 });
        self.tokens.push(TokenEntry { token_id: msg.token_id, info });
        self.token_map = Ghost(self.token_map@.insert(id, tv));
        proof {
            let n = self.tokens@.len() - 1;
            let xn = self.indexes.owner@.len() - 1;
            assert(self.tokens@[n].token_id@ == id);
            assert(self.indexes.owner@[xn].token_id@ == id);
            assert forall|a: int| 0 <= a < n implies #[trigger] self.tokens@[a].token_id@ != id by {
                assert(pre.token_map@.contains_key(pre.tokens@[a].token_id@));
            }
            assert forall|a: int| 0 <= a < xn implies #[trigger] self.indexes.owner@[a].token_id@ != id by {
                assert(pre.token_map@.contains_key(pre.indexes.owner@[a].token_id@));
            }
            assert forall|a: int|
                0 <= a < self.tokens@.len() implies self.token_map@.contains_key(
                #[trigger] self.tokens@[a].token_id@,
            ) && self.token_map@[self.tokens@[a].token_id@] == self.tokens@[a].info@ by {
                if a < n {
                    assert(pre.token_map@.contains_key(pre.tokens@[a].token_id@));
                }
            }
            assert forall|k: Seq<char>| #[trigger]
                self.token_map@.contains_key(k) implies exists|a: int|
                0 <= a < self.tokens@.len() && #[trigger] self.tokens@[a].token_id@ == k by {
                if k != id {
                    assert(pre.token_map@.contains_key(k));
                    let a = choose|a: int| 0 <= a < pre.tokens@.len() && #[trigger] pre.tokens@[a].token_id@ == k;
                    assert(self.tokens@[a].token_id@ == k);
                }
            }
            assert forall|k: Seq<char>| #[trigger]
                self.token_map@.contains_key(k) implies spenders_unique(self.token_map@[k].approvals) by {
                if k != id {
                    assert(pre.token_map@.contains_key(k));
                }
            }
            assert(self.tokens_wf());
            assert forall|a: int|
                0 <= a < self.indexes.owner@.len() implies self.token_map@.contains_key(
                #[trigger] self.indexes.owner@[a].token_id@,
            ) && self.token_map@[self.indexes.owner@[a].token_id@].owner
                == self.indexes.owner@[a].owner@ by {
                if a < xn {
                    assert(pre.token_map@.contains_key(pre.indexes.owner@[a].token_id@));
                }
            }
            assert forall|k: Seq<char>| #[trigger]
                self.token_map@.contains_key(k) implies exists|a: int|
                0 <= a < self.indexes.owner@.len() && #[trigger] self.indexes.owner@[a].token_id@ == k by {
                if k != id {
                    assert(pre.token_map@.contains_key(k));
                    let a = choose|a: int| 0 <= a < pre.indexes.owner@.len() && #[trigger] pre.indexes.owner@[a].token_id@ == k;
                    assert(self.indexes.owner@[a].token_id@ == k);
                }
            }
            assert(self.index_wf());
        }
        self.increment_tokens();
        Ok(())
    }

    /// The owner index lists a token under an owner exactly when the token is
    /// stored with that owner; so each stored token is listed under its own
    /// owner and under no other.
    pub proof fn lemma_index_consistent(&self)
        requires
            self.wf(),
        ensures
            forall|owner: Seq<char>, token_id: Seq<char>|
                #[trigger] self.owner_index().contains((owner, token_id)) <==> (
                self.tokens_view().contains_key(token_id) && self.tokens_view()[token_id].owner
                    == owner),
    {
        let x = self.indexes.owner@;
        assert forall|owner: Seq<char>, token_id: Seq<char>|
            #[trigger] self.owner_index().contains((owner, token_id)) <==> (
            self.tokens_view().contains_key(token_id) && self.tokens_view()[token_id].owner
                == owner) by {
            if self.tokens_view().contains_key(token_id) && self.tokens_view()[token_id].owner
                == owner {
                let i = choose|i: int| 0 <= i < x.len() && #[trigger] x[i].token_id@ == token_id;
                assert(x[i].owner@ == owner);
            }
        }
    }

    /// Whether the grant of `owner` to `operator` exists and has not expired.
    pub fn is_operator(&self, owner: &String, operator: &String, block: &BlockInfo) -> (r: bool)
        requires
            self.wf(),
        ensures
            r == self.spec_is_operator(owner@, operator@, *block),
    {
        match self.find_operator(owner, operator) {
            Some(i) => !self.operators[i].expires.is_expired(block),
            None => false,
        }
    }

    fn approved_at(&self, i: usize, spender: &String, block: &BlockInfo) -> (r: bool)
        requires
            self.wf(),
            i < self.tokens@.len(),
        ensures
            r == approved_in(self.tokens@[i as int].info@.approvals, spender@, *block),
    {
        let approvals = &self.tokens[i].info.approvals;
        let ghost v = approvals_view(approvals@);
        let mut k: usize = 0;
        while k < approvals.len()
            invariant
                k <= approvals@.len(),
                v == approvals_view(approvals@),
                i < self.tokens@.len(),
                v == self.tokens@[i as int].info@.approvals,
                forall|j: int|
                    0 <= j < k ==> !(#[trigger] v[j].spender == spender@
                        && !v[j].expires.spec_is_expired(*block)),
            decreases approvals@.len() - k,
        {
            assert(v[k as int] == approvals@[k as int]@);
            if approvals[k].spender == *spender && !approvals[k].is_expired(block) {
                assert(v[k as int].spender == spender@);
                return true;
            }
            k = k + 1;
        }
        false
    }

    fn can_act_at(&self, i: usize, actor: &String, block: &BlockInfo) -> (r: bool)
        requires
            self.wf(),
            i < self.tokens@.len(),
        ensures
            r == self.spec_can_act(actor@, self.tokens@[i as int].token_id@, *block),
    {
        if self.tokens[i].info.owner == *actor {
            return true;
        }
        if self.approved_at(i, actor, block) {
            return true;
        }
        self.is_operator(&self.tokens[i].info.owner, actor, block)
    }

    /// Whether `spender` holds an unexpired approval on the stored token `token_id`.
    pub fn is_approved(&self, token_id: &String, spender: &String, block: &BlockInfo) -> (r: bool)
        requires
            self.wf(),
        ensures
            r == (self.tokens_view().contains_key(token_id@) && approved_in(
                self.tokens_view()[token_id@].approvals,
                spender@,
                *block,
            )),
    {
        match self.find_token(token_id) {
            Some(i) => self.approved_at(i, spender, block),
            None => false,
        }
    }

    /// Whether `actor` may transfer or send the stored token `token_id`: as its
    /// owner, as an unexpired approved spender, or as an unexpired operator of its owner.
    pub fn can_act(&self, token_id: &String, actor: &String, block: &BlockInfo) -> (r: bool)
        requires
            self.wf(),
        ensures
            r == (self.tokens_view().contains_key(token_id@) && self.spec_can_act(
                actor@,
                token_id@,
                *block,
            )),
    {
        match self.find_token(token_id) {
            Some(i) => self.can_act_at(i, actor, block),
            None => false,
        }
    }

    /// Moves the token `token_id` to `recipient` and clears its approvals.
    pub fn transfer_nft(
        &mut self,
        block: &BlockInfo,
        sender: &String,
        recipient: String,
        token_id: &String,
    ) -> (r: Result<(), ContractError>)
        requires
            old(self).wf(),
        ensures
            final(self).wf(),
            r.is_ok() == (old(self).tokens_view().contains_key(token_id@) && old(self).spec_can_act(
                sender@,
                token_id@,
                *block,
            )),
            !old(self).tokens_view().contains_key(token_id@) ==> r matches Err(
                ContractError::Std(StdError::NotFound { .. }),
            ),
            old(self).tokens_view().contains_key(token_id@) && !old(self).spec_can_act(
                sender@,
                token_id@,
                *block,
            ) ==> r == Err::<(), ContractError>(ContractError::Unauthorized {}),
            r.is_ok() ==> final(self).same_but_tokens(old(self)) && final(self).tokens_view()
                == old(self).tokens_view().insert(
                token_id@,
                TokenView {
                    owner: recipient@,
                    approvals: Seq::empty(),
                    ..old(self).tokens_view()[token_id@]
                },
            ),
            r.is_err() ==> *final(self) == *old(self),
    {
        let i = match self.find_token(token_id) {
            Some(i) => i,
            None => {
                return Err(token_not_found());
            },
        };
        if !self.can_act_at(i, sender, block) {
            return Err(ContractError::Unauthorized {});
        }
        let approvals: Vec<Approval> = Vec::new();
        assert(approvals_view(approvals@) =~= Seq::<ApprovalView>::empty());
        self.replace(i, recipient, approvals);
        Ok(())
    }

    /// Moves the token `token_id` to the contract `contract`, as `transfer_nft`
    /// does; delivering the payload to that contract is left to the host.
    pub fn send_nft(
        &mut self,
        block: &BlockInfo,
        sender: &String,
        contract: String,
        token_id: &String,
    ) -> (r: Result<(), ContractError>)
        requires
            old(self).wf(),
        ensures
            final(self).wf(),
            r.is_ok() == (old(self).tokens_view().contains_key(token_id@) && old(self).spec_can_act(
                sender@,
                token_id@,
                *block,
            )),
            !old(self).tokens_view().contains_key(token_id@) ==> r matches Err(
                ContractError::Std(StdError::NotFound { .. }),
            ),
            old(self).tokens_view().contains_key(token_id@) && !old(self).spec_can_act(
                sender@,
                token_id@,
                *block,
            ) ==> r == Err::<(), ContractError>(ContractError::Unauthorized {}),
            r.is_ok() ==> final(self).same_but_tokens(old(self)) && final(self).tokens_view()
                == old(self).tokens_view().insert(
                token_id@,
                TokenView {
                    owner: contract@,
                    approvals: Seq::empty(),
                    ..old(self).tokens_view()[token_id@]
                },
            ),
            r.is_err() ==> *final(self) == *old(self),
    {
        self.transfer_nft(block, sender, contract, token_id)
    }

    /// Grants `spender` the right to act on the token `token_id` until `expires`
    /// (never, when absent), replacing an earlier approval of the same spender.
    /// Only the owner may do so.
    pub fn approve(
        &mut self,
        block: &BlockInfo,
        sender: &String,
        spender: String,
        token_id: &String,
        expires: Option<Expiration>,
    ) -> (r: Result<(), ContractError>)
        requires
            old(self).wf(),
        ensures
            final(self).wf(),
            r.is_ok() == (old(self).tokens_view().contains_key(token_id@) && sender@ == old(self).tokens_view()[token_id@].owner && !expiry_or_never(expires).spec_is_expired(
                *block,
            )),
            !old(self).tokens_view().contains_key(token_id@) ==> r matches Err(
                ContractError::Std(StdError::NotFound { .. }),
            ),
            old(self).tokens_view().contains_key(token_id@) && sender@ != old(self).tokens_view()[token_id@].owner ==> r == Err::<(), ContractError>(
                ContractError::Unauthorized {},
            ),
            old(self).tokens_view().contains_key(token_id@) && sender@ == old(self).tokens_view()[token_id@].owner && expiry_or_never(expires).spec_is_expired(*block)
                ==> r == Err::<(), ContractError>(ContractError::Expired {}),
            r.is_ok() ==> final(self).same_but_tokens(old(self)) && final(self).tokens_view()
                == old(self).tokens_view().insert(
                token_id@,
                TokenView {
                    approvals: without_spender(
                        old(self).tokens_view()[token_id@].approvals,
                        spender@,
                    ).push(ApprovalView { spender: spender@, expires: expiry_or_never(expires) }),
                    ..old(self).tokens_view()[token_id@]
                },
            ),
            r.is_err() ==> *final(self) == *old(self),
    {
        let i = match self.find_token(token_id) {
            Some(i) => i,
            None => {
                return Err(token_not_found());
            },
        };
        if self.tokens[i].info.owner != *sender {
            return Err(ContractError::Unauthorized {});
        }
        let e = match expires {
            Some(x) => x,
            None => Expiration::Never,
        };
        if e.is_expired(block) {
            return Err(ContractError::Expired {});
        }
        let ghost sp = spender@;
        let mut approvals = remove_spender(&self.tokens[i].info.approvals, &spender);
        let ghost kept = approvals@;
        approvals.push(Approval { spender, expires: e });
        proof {
            assert(approvals_view(approvals@) =~= approvals_view(kept).push(
                ApprovalView { spender: sp, expires: e },
            ));
            assert(self.token_map@.contains_key(self.tokens@[i as int].token_id@));
            let v = approvals_view(approvals@);
            assert forall|a: int, b: int| 0 <= a < b < v.len() implies v[a].spender != v[b].spender by {
                if b == v.len() - 1 {
                    assert(v[a] == kept[a]@);
                } else {
                    assert(v[a] == approvals_view(kept)[a]);
                    assert(v[b] == approvals_view(kept)[b]);
                }
            }
        }
        let owner = self.tokens[i].info.owner.clone();
        self.replace(i, owner, approvals);
        Ok(())
    }

    /// Withdraws the approval of `spender` on the token `token_id`, if there is
    /// one. Only the owner may do so.
    pub fn revoke(&mut self, sender: &String, spender: &String, token_id: &String) -> (r: Result<
        (),
        ContractError,
    >)
        requires
            old(self).wf(),
        ensures
            final(self).wf(),
            r.is_ok() == (old(self).tokens_view().contains_key(token_id@) && sender@ == old(self).tokens_view()[token_id@].owner),
            !old(self).tokens_view().contains_key(token_id@) ==> r matches Err(
                ContractError::Std(StdError::NotFound { .. }),
            ),
            old(self).tokens_view().contains_key(token_id@) && sender@ != old(self).tokens_view()[token_id@].owner ==> r == Err::<(), ContractError>(
                ContractError::Unauthorized {},
            ),
            r.is_ok() ==> final(self).same_but_tokens(old(self)) && final(self).tokens_view()
                == old(self).tokens_view().insert(
                token_id@,
                TokenView {
                    approvals: without_spender(
                        old(self).tokens_view()[token_id@].approvals,
                        spender@,
                    ),
                    ..old(self).tokens_view()[token_id@]
                },
            ),
            r.is_err() ==> *final(self) == *old(self),
    {
        let i = match self.find_token(token_id) {
            Some(i) => i,
            None => {
                return Err(token_not_found());
            },
        };
        if self.tokens[i].info.owner != *sender {
            return Err(ContractError::Unauthorized {});
        }
        let approvals = remove_spender(&self.tokens[i].info.approvals, spender);
        assert(self.token_map@.contains_key(self.tokens@[i as int].token_id@));
        let owner = self.tokens[i].info.owner.clone();
        self.replace(i, owner, approvals);
        Ok(())
    }

    /// Lets `operator` act on every token of `sender` until `expires` (never,
    /// when absent), replacing an earlier grant to the same operator.
    pub fn approve_all(
        &mut self,
        block: &BlockInfo,
        sender: &String,
        operator: String,
        expires: Option<Expiration>,
    ) -> (r: Result<(), ContractError>)
        requires
            old(self).wf(),
        ensures
            final(self).wf(),
            r.is_ok() == !expiry_or_never(expires).spec_is_expired(*block),
            r.is_err() ==> r == Err::<(), ContractError>(ContractError::Expired {}) && *final(self)
                == *old(self),
            r.is_ok() ==> final(self).same_but_operators(old(self)) && final(self).operators_view()
                == old(self).operators_view().insert(
                (sender@, operator@),
                expiry_or_never(expires),
            ),
    {
        let e = match expires {
            Some(x) => x,
            None => Expiration::Never,
        };
        if e.is_expired(block) {
            return Err(ContractError::Expired {});
        }
        let ghost pre = *self;
        let ghost key = (sender@, operator@);
        match self.find_operator(sender, &operator) {
            Some(i) => {
                self.operators[i].expires = e;
            },
            None => {
                self.operators.push(OperatorGrant { owner: sender.clone(), operator, expires: e });
            },
        }
        self.operator_map = Ghost(self.operator_map@.insert(key, e));
        proof {
            let o = self.operators@;
            let m = self.operator_map@;
            assert forall|a: int| 0 <= a < pre.operators@.len() implies (#[trigger] o[a].owner@, o[a].operator@) == (
                pre.operators@[a].owner@, pre.operators@[a].operator@) by {}
            assert forall|a: int|
                0 <= a < o.len() implies m.contains_key((#[trigger] o[a].owner@, o[a].operator@)) && m[(
                o[a].owner@,
                o[a].operator@,
            )] == o[a].expires by {
                if a < pre.operators@.len() && (o[a].owner@, o[a].operator@) != key {
                    assert(pre.operator_map@.contains_key((pre.operators@[a].owner@, pre.operators@[a].operator@)));
                }
            }
            assert forall|k: (Seq<char>, Seq<char>)| #[trigger] m.contains_key(k) implies exists|a: int|
                0 <= a < o.len() && (#[trigger] o[a].owner@, o[a].operator@) == k by {
                if k != key {
                    assert(pre.operator_map@.contains_key(k));
                    let a = choose|a: int| 0 <= a < pre.operators@.len() && (#[trigger] pre.operators@[a].owner@, pre.operators@[a].operator@) == k;
                    assert((o[a].owner@, o[a].operator@) == k);
                } else if o.len() > pre.operators@.len() {
                    assert((o[o.len() - 1].owner@, o[o.len() - 1].operator@) == k);
                } else {
                    let a = choose|a: int| 0 <= a < pre.operators@.len() && (#[trigger] pre.operators@[a].owner@, pre.operators@[a].operator@) == k;
                    assert((o[a].owner@, o[a].operator@) == k);
                }
            }
            assert forall|a: int, b: int|
                0 <= a < b < o.len() implies (#[trigger] o[a].owner@, o[a].operator@) != (
                #[trigger] o[b].owner@,
                o[b].operator@,
            ) by {
                if b >= pre.operators@.len() {
                    assert(pre.operator_map@.contains_key((pre.operators@[a].owner@, pre.operators@[a].operator@)));
                }
            }
            assert(self.operators_wf());
        }
        Ok(())
    }

    /// Withdraws the grant of `sender` to `operator`, if there is one.
    pub fn revoke_all(&mut self, sender: &String, operator: &String)
        requires
            old(self).wf(),
        ensures
            final(self).wf(),
            final(self).same_but_operators(old(self)),
            final(self).operators_view() == old(self).operators_view().remove((sender@, operator@)),
    {
        let ghost pre = *self;
        let ghost key = (sender@, operator@);
        let found = self.find_operator(sender, operator);
        match found {
            Some(i) => {
                self.operators.remove(i);
            },
            None => {},
        }
        self.operator_map = Ghost(self.operator_map@.remove(key));
        proof {
            let o = self.operators@;
            let p = pre.operators@;
            let m = self.operator_map@;
            let gone: int = match found { Some(i) => i as int, None => p.len() as int };
            assert forall|a: int| 0 <= a < o.len() implies #[trigger] o[a] == (if a < gone { p[a] } else { p[a + 1] }) by {}
            assert forall|a: int|
                0 <= a < o.len() implies m.contains_key((#[trigger] o[a].owner@, o[a].operator@)) && m[(
                o[a].owner@,
                o[a].operator@,
            )] == o[a].expires by {
                let b = if a < gone { a } else { a + 1 };
                assert(o[a] == p[b]);
                assert(pre.operator_map@.contains_key((p[b].owner@, p[b].operator@)));
                if found.is_some() {
                    assert((p[b].owner@, p[b].operator@) != (p[gone].owner@, p[gone].operator@));
                }
            }
            assert forall|k: (Seq<char>, Seq<char>)| #[trigger] m.contains_key(k) implies exists|a: int|
                0 <= a < o.len() && (#[trigger] o[a].owner@, o[a].operator@) == k by {
                assert(pre.operator_map@.contains_key(k));
                let b = choose|b: int| 0 <= b < p.len() && (#[trigger] p[b].owner@, p[b].operator@) == k;
                if b < gone {
                    assert(o[b] == p[b]);
                    assert((o[b].owner@, o[b].operator@) == k);
                } else {
                    assert(b != gone);
                    assert(o[b - 1] == p[b]);
                    assert((o[b - 1].owner@, o[b - 1].operator@) == k);
                }
            }
            assert forall|a: int, c: int|
                0 <= a < c < o.len() implies (#[trigger] o[a].owner@, o[a].operator@) != (
                #[trigger] o[c].owner@,
                o[c].operator@,
            ) by {
                let a2 = if a < gone { a } else { a + 1 };
                let c2 = if c < gone { c } else { c + 1 };
                assert(o[a] == p[a2]);
                assert(o[c] == p[c2]);
                assert((p[a2].owner@, p[a2].operator@) != (p[c2].owner@, p[c2].operator@));
            }
            assert(self.operators_wf());
        }
    }

    /// The owner of the token `token_id` and its approvals; the expired ones
    /// are left out unless `include_expired`.
    pub fn owner_of(&self, block: &BlockInfo, token_id: &String, include_expired: bool) -> (r:
        Result<OwnerOfResponse, ContractError>)
        requires
            self.wf(),
        ensures
            r.is_ok() == self.tokens_view().contains_key(token_id@),
            r.is_err() ==> r matches Err(ContractError::Std(StdError::NotFound { .. })),
            r matches Ok(resp) ==> resp.owner@ == self.tokens_view()[token_id@].owner
                && approvals_view(resp.approvals@) == (if include_expired {
                self.tokens_view()[token_id@].approvals
            } else {
                unexpired(self.tokens_view()[token_id@].approvals, *block)
            }),
    {
        match self.find_token(token_id) {
            Some(i) => {
                let info = &self.tokens[i].info;
                Ok(
                    OwnerOfResponse {
                        owner: info.owner.clone(),
                        approvals: humanize_approvals(&info.approvals, block, include_expired),
                    },
                )
            },
            None => Err(token_not_found()),
        }
    }

    /// The stored record of the token `token_id`.
    pub fn nft_info(&self, token_id: &String) -> (r: Result<&TokenInfo, ContractError>)
        requires
            self.wf(),
        ensures
            r.is_ok() == self.tokens_view().contains_key(token_id@),
            r.is_err() ==> r matches Err(ContractError::Std(StdError::NotFound { .. })),
            r matches Ok(t) ==> t@ == self.tokens_view()[token_id@],
    {
        match self.find_token(token_id) {
            Some(i) => Ok(&self.tokens[i].info),
            None => Err(token_not_found()),
        }
    }

    pub fn minter(&self) -> (r: MinterResponse)
        ensures
            r.minter@ == self.minter_view(),
    {
        MinterResponse { minter: self.minter.clone() }
    }

    pub fn contract_info(&self) -> (r: ContractInfoResponse)
        ensures
            r.name@ == self.name_view(),
            r.symbol@ == self.symbol_view(),
    {
        ContractInfoResponse {
            name: self.contract_info.name.clone(),
            symbol: self.contract_info.symbol.clone(),
        }
    }

    /// The number of stored tokens that `owner` owns.
    pub fn count_by_owner(&self, owner: &String) -> (r: usize)
        requires
            self.wf(),
        ensures
            r == self.tokens_view().dom().filter(
                |k: Seq<char>| self.tokens_view()[k].owner == owner@,
            ).len(),
    {
        let ghost target = self.tokens_view().dom().filter(
            |k: Seq<char>| self.tokens_view()[k].owner == owner@,
        );
        let ghost mut seen: Set<Seq<char>> = Set::empty();
        let mut n: usize = 0;
        let mut i: usize = 0;
        while i < self.tokens.len()
            invariant
                self.wf(),
                i <= self.tokens@.len(),
                n <= i,
                seen.finite(),
                n == seen.len(),
                forall|k: Seq<char>|
                    #[trigger] seen.contains(k) <==> exists|a: int|
                        0 <= a < i && #[trigger] self.tokens@[a].token_id@ == k
                            && self.tokens@[a].info.owner@ == owner@,
            decreases self.tokens@.len() - i,
        {
            let ghost id = self.tokens@[i as int].token_id@;
            if self.tokens[i].info.owner == *owner {
                proof {
                    assert(!seen.contains(id)) by {
                        if seen.contains(id) {
                            let a = choose|a: int|
                                0 <= a < i && #[trigger] self.tokens@[a].token_id@ == id
                                    && self.tokens@[a].info.owner@ == owner@;
                            assert(self.tokens@[a].token_id@ != self.tokens@[i as int].token_id@);
                        }
                    }
                    seen = seen.insert(id);
                }
                n = n + 1;
            }
            proof {
                assert forall|k: Seq<char>|
                    #[trigger] seen.contains(k) <==> exists|a: int|
                        0 <= a < i + 1 && #[trigger] self.tokens@[a].token_id@ == k
                            && self.tokens@[a].info.owner@ == owner@ by {
                    if k == id && self.tokens@[i as int].info.owner@ == owner@ {
                        assert(self.tokens@[i as int].token_id@ == k);
                    }
                }
            }
            i = i + 1;
        }
        proof {
            assert forall|k: Seq<char>| #[trigger] seen.contains(k) <==> target.contains(k) by {
                if seen.contains(k) {
                    let a = choose|a: int|
                        0 <= a < i && #[trigger] self.tokens@[a].token_id@ == k
                            && self.tokens@[a].info.owner@ == owner@;
                    assert(self.token_map@.contains_key(self.tokens@[a].token_id@));
                }
                if target.contains(k) {
                    assert(self.token_map@.contains_key(k));
                    let a = choose|a: int|
                        0 <= a < self.tokens@.len() && #[trigger] self.tokens@[a].token_id@ == k;
                    assert(self.tokens@[a].info.owner@ == owner@);
                }
            }
            assert(seen =~= target);
        }
        n
    }

    /// Position of the least listed token id that comes after `bound`.
    fn next_listed(&self, owner: Option<&String>, bound: Option<&String>) -> (r: Option<usize>)
        requires
            self.wf(),
        ensures
            r matches Some(i) ==> i < self.tokens@.len() && self.listed(
                opt_ref_view(owner),
                self.tokens@[i as int].token_id@,
            ) && after(opt_ref_view(bound), self.tokens@[i as int].token_id@) && forall|k: Seq<char>|
                self.listed(opt_ref_view(owner), k) && after(opt_ref_view(bound), k) ==> !str_lt(
                    k,
                    self.tokens@[i as int].token_id@,
                ),
            r.is_none() ==> forall|k: Seq<char>|
                !(self.listed(opt_ref_view(owner), k) && after(opt_ref_view(bound), k)),
    {
        let ghost ov = opt_ref_view(owner);
        let ghost bv = opt_ref_view(bound);
        let mut best: Option<usize> = None;
        let mut j: usize = 0;
        while j < self.tokens.len()
            invariant
                self.wf(),
                j <= self.tokens@.len(),
                ov == opt_ref_view(owner),
                bv == opt_ref_view(bound),
                best matches Some(b) ==> b < self.tokens@.len() && self.listed(
                    ov,
                    self.tokens@[b as int].token_id@,
                ) && after(bv, self.tokens@[b as int].token_id@),
                forall|p: int|
                    0 <= p < j && self.listed(ov, #[trigger] self.tokens@[p].token_id@) && after(
                        bv,
                        self.tokens@[p].token_id@,
                    ) ==> (best matches Some(b) && !str_lt(
                        self.tokens@[p].token_id@,
                        self.tokens@[b as int].token_id@,
                    )),
            decreases self.tokens@.len() - j,
        {
            let ghost c = self.tokens@[j as int].token_id@;
            assert(self.tokens_view().contains_key(c));
            assert(self.tokens_view()[c] == self.tokens@[j as int].info@);
            let ok_owner = match owner {
                Some(o) => self.tokens[j].info.owner == *o,
                None => true,
            };
            let ok_after = match bound {
                Some(b) => str_less(b, &self.tokens[j].token_id),
                None => true,
            };
            if ok_owner && ok_after {
                let better = match best {
                    Some(b) => str_less(&self.tokens[j].token_id, &self.tokens[b].token_id),
                    None => true,
                };
                if better {
                    proof {
                        assert forall|p: int|
                            0 <= p < j && self.listed(ov, #[trigger] self.tokens@[p].token_id@)
                                && after(bv, self.tokens@[p].token_id@) implies !str_lt(
                            self.tokens@[p].token_id@,
                            c,
                        ) by {
                            let b = best.unwrap();
                            if str_lt(self.tokens@[p].token_id@, c) {
                                lemma_str_lt_transitive(
                                    self.tokens@[p].token_id@,
                                    c,
                                    self.tokens@[b as int].token_id@,
                                );
                            }
                        }
                        lemma_str_lt_irreflexive(c);
                    }
                    best = Some(j);
                }
            }
            j = j + 1;
        }
        proof {
            assert forall|k: Seq<char>|
                self.listed(ov, k) && after(bv, k) implies (best matches Some(b) && !str_lt(
                k,
                self.tokens@[b as int].token_id@,
            )) by {
                let p = choose|p: int| 0 <= p < self.tokens@.len() && #[trigger] self.tokens@[p].token_id@ == k;
            }
        }
        best
    }

    /// The first `lim` listed token ids after `start_after`, in ascending order.
    fn page(&self, owner: Option<&String>, start_after: Option<&String>, lim: usize) -> (r: Vec<String>)
        requires
            self.wf(),
        ensures
            self.is_page(opt_ref_view(owner), opt_ref_view(start_after), lim as int, ids_view(r@)),
    {
        let ghost ov = opt_ref_view(owner);
        let ghost sv = opt_ref_view(start_after);
        let mut r: Vec<String> = Vec::new();
        let mut last: Option<usize> = None;
        let mut done = false;
        while !done && r.len() < lim
            invariant
                self.wf(),
                ov == opt_ref_view(owner),
                sv == opt_ref_view(start_after),
                r@.len() <= lim,
                forall|i: int|
                    0 <= i < ids_view(r@).len() ==> self.listed(ov, #[trigger] ids_view(r@)[i])
                        && after(sv, ids_view(r@)[i]),
                forall|i: int|
                    0 <= i < ids_view(r@).len() - 1 ==> str_lt(
                        #[trigger] ids_view(r@)[i],
                        ids_view(r@)[i + 1],
                    ),
                last matches Some(j) ==> j < self.tokens@.len() && r@.len() > 0
                    && self.tokens@[j as int].token_id@ == ids_view(r@).last(),
                last.is_none() ==> r@.len() == 0,
                forall|k: Seq<char>|
                    self.listed(ov, k) && after(sv, k) && !ids_view(r@).contains(k) ==> (!done
                        && after(
                        if r@.len() == 0 {
                            sv
                        } else {
                            Some(ids_view(r@).last())
                        },
                        k,
                    )),
            decreases lim - r@.len() + (if done {
                0int
            } else {
                1int
            }),
        {
            let bound: Option<&String> = match last {
                Some(j) => Some(&self.tokens[j].token_id),
                None => start_after,
            };
            let ghost bv = opt_ref_view(bound);
            let ghost old_ids = ids_view(r@);
            match self.next_listed(owner, bound) {
                None => {
                    done = true;
                },
                Some(j) => {
                    let ghost m = self.tokens@[j as int].token_id@;
                    r.push(self.tokens[j].token_id.clone());
                    last = Some(j);
                    proof {
                        assert(ids_view(r@) =~= old_ids.push(m));
                        if old_ids.len() > 0 {
                            if sv.is_some() {
                                lemma_str_lt_transitive(sv.unwrap(), old_ids.last(), m);
                            }
                        }
                        assert forall|k: Seq<char>|
                            self.listed(ov, k) && after(sv, k) && !ids_view(r@).contains(
                                k,
                            ) implies after(Some(m), k) by {
                            assert(ids_view(r@)[old_ids.len() as int] == m);
                            if old_ids.contains(k) {
                                let i = choose|i: int| 0 <= i < old_ids.len() && old_ids[i] == k;
                                assert(ids_view(r@)[i] == k);
                            }
                            assert(k != m);
                            lemma_str_lt_total(k, m);
                        }
                    }
                },
            }
        }
        r
    }

    /// A page of the token ids owned by `owner`, in ascending order, after
    /// `start_after`.
    pub fn tokens(&self, owner: &String, start_after: Option<String>, limit: Option<u32>) -> (r: Vec<String>)
        requires
            self.wf(),
        ensures
            self.is_page(Some(owner@), opt_str_view(start_after), page_limit(limit), ids_view(r@)),
    {
        let lim: usize = match limit {
            Some(l) => if l < 100 { l as usize } else { 100 },
            None => 10,
        };
        let start = start_after.as_ref();
        self.page(Some(owner), start, lim)
    }

    /// A page of all token ids, in ascending order, after `start_after`.
    pub fn all_tokens(&self, start_after: Option<String>, limit: Option<u32>) -> (r: Vec<String>)
        requires
            self.wf(),
        ensures
            self.is_page(None, opt_str_view(start_after), page_limit(limit), ids_view(r@)),
    {
        let lim: usize = match limit {
            Some(l) => if l < 100 { l as usize } else { 100 },
            None => 10,
        };
        let start = start_after.as_ref();
        self.page(None, start, lim)
    }

    /// Position of the grant of `owner` with the least listed operator after `bound`.
    fn next_operator(
        &self,
        owner: &String,
        include_expired: bool,
        block: &BlockInfo,
        bound: Option<&String>,
    ) -> (r: Option<usize>)
        requires
            self.wf(),
        ensures
            r matches Some(i) ==> i < self.operators@.len() && self.operators@[i as int].owner@
                == owner@ && self.operator_listed(
                owner@,
                include_expired,
                *block,
                self.operators@[i as int].operator@,
            ) && self.operators_view()[(owner@, self.operators@[i as int].operator@)]
                == self.operators@[i as int].expires && after(
                opt_ref_view(bound),
                self.operators@[i as int].operator@,
            ) && forall|k: Seq<char>|
                self.operator_listed(owner@, include_expired, *block, k) && after(
                    opt_ref_view(bound),
                    k,
                ) ==> !str_lt(k, self.operators@[i as int].operator@),
            r.is_none() ==> forall|k: Seq<char>|
                !(self.operator_listed(owner@, include_expired, *block, k) && after(
                    opt_ref_view(bound),
                    k,
                )),
    {
        let ghost bv = opt_ref_view(bound);
        let mut best: Option<usize> = None;
        let mut j: usize = 0;
        while j < self.operators.len()
            invariant
                self.wf(),
                j <= self.operators@.len(),
                bv == opt_ref_view(bound),
                best matches Some(b) ==> b < self.operators@.len() && self.operators@[b as int].owner@
                    == owner@ && self.operator_listed(
                    owner@,
                    include_expired,
                    *block,
                    self.operators@[b as int].operator@,
                ) && self.operators_view()[(owner@, self.operators@[b as int].operator@)]
                    == self.operators@[b as int].expires && after(
                    bv,
                    self.operators@[b as int].operator@,
                ),
                forall|p: int|
                    0 <= p < j && self.operators@[p].owner@ == owner@ && self.operator_listed(
                        owner@,
                        include_expired,
                        *block,
                        #[trigger] self.operators@[p].operator@,
                    ) && after(bv, self.operators@[p].operator@) ==> (best matches Some(b)
                        && !str_lt(
                        self.operators@[p].operator@,
                        self.operators@[b as int].operator@,
                    )),
            decreases self.operators@.len() - j,
        {
            let ghost c = self.operators@[j as int].operator@;
            let ghost key = (self.operators@[j as int].owner@, c);
            assert(self.operators_view().contains_key(key));
            let ok_owner = self.operators[j].owner == *owner;
            let ok_live = include_expired || !self.operators[j].expires.is_expired(block);
            let ok_after = match bound {
                Some(b) => str_less(b, &self.operators[j].operator),
                None => true,
            };
            if ok_owner && ok_live && ok_after {
                let better = match best {
                    Some(b) => str_less(&self.operators[j].operator, &self.operators[b].operator),
                    None => true,
                };
                if better {
                    proof {
                        assert forall|p: int|
                            0 <= p < j && self.operators@[p].owner@ == owner@
                                && self.operator_listed(
                                owner@,
                                include_expired,
                                *block,
                                #[trigger] self.operators@[p].operator@,
                            ) && after(bv, self.operators@[p].operator@) implies !str_lt(
                            self.operators@[p].operator@,
                            c,
                        ) by {
                            let b = best.unwrap();
                            if str_lt(self.operators@[p].operator@, c) {
                                lemma_str_lt_transitive(
                                    self.operators@[p].operator@,
                                    c,
                                    self.operators@[b as int].operator@,
                                );
                            }
                        }
                        lemma_str_lt_irreflexive(c);
                    }
                    best = Some(j);
                }
            }
            j = j + 1;
        }
        proof {
            assert forall|k: Seq<char>|
                self.operator_listed(owner@, include_expired, *block, k) && after(
                    bv,
                    k,
                ) implies (best matches Some(b) && !str_lt(
                k,
                self.operators@[b as int].operator@,
            )) by {
                let p = choose|p: int|
                    0 <= p < self.operators@.len() && (
                    #[trigger] self.operators@[p].owner@,
                    self.operators@[p].operator@,
                ) == (owner@, k);
                assert(self.operators@[p].operator@ == k);
            }
        }
        best
    }

    /// A page of the grants of `owner`, in ascending order of operator, after
    /// `start_after`; the expired ones are left out unless `include_expired`.
    /// Each is given as an approval of the operator.
    pub fn approved_for_all(
        &self,
        block: &BlockInfo,
        owner: &String,
        include_expired: bool,
        start_after: Option<String>,
        limit: Option<u32>,
    ) -> (r: Vec<Approval>)
        requires
            self.wf(),
        ensures
            self.is_operator_page(
                owner@,
                include_expired,
                *block,
                opt_str_view(start_after),
                page_limit(limit),
                approvals_view(r@),
            ),
    {
        let lim: usize = match limit {
            Some(l) => if l < 100 {
                l as usize
            } else {
                100
            },
            None => 10,
        };
        let ghost sv = opt_str_view(start_after);
        let start = start_after.as_ref();
        assert(opt_ref_view(start) == sv);
        let mut r: Vec<Approval> = Vec::new();
        let mut last: Option<usize> = None;
        let mut done = false;
        while !done && r.len() < lim
            invariant
                self.wf(),
                sv == opt_ref_view(start),
                r@.len() <= lim,
                forall|i: int|
                    0 <= i < approvals_view(r@).len() ==> self.operator_listed(
                        owner@,
                        include_expired,
                        *block,
                        (#[trigger] approvals_view(r@)[i]).spender,
                    ) && after(sv, approvals_view(r@)[i].spender) && approvals_view(r@)[i].expires
                        == self.operators_view()[(owner@, approvals_view(r@)[i].spender)],
                forall|i: int|
                    0 <= i < approvals_view(r@).len() - 1 ==> str_lt(
                        (#[trigger] approvals_view(r@)[i]).spender,
                        approvals_view(r@)[i + 1].spender,
                    ),
                last matches Some(j) ==> j < self.operators@.len() && r@.len() > 0
                    && self.operators@[j as int].operator@ == approvals_view(r@).last().spender,
                last.is_none() ==> r@.len() == 0,
                forall|k: Seq<char>|
                    self.operator_listed(owner@, include_expired, *block, k) && after(sv, k)
                        && !spenders_of(approvals_view(r@)).contains(k) ==> (!done && after(
                        if r@.len() == 0 {
                            sv
                        } else {
                            Some(approvals_view(r@).last().spender)
                        },
                        k,
                    )),
            decreases lim - r@.len() + (if done {
                0int
            } else {
                1int
            }),
        {
            let bound: Option<&String> = match last {
                Some(j) => Some(&self.operators[j].operator),
                None => start,
            };
            let ghost old_v = approvals_view(r@);
            match self.next_operator(owner, include_expired, block, bound) {
                None => {
                    done = true;
                },
                Some(j) => {
                    let ghost m = self.operators@[j as int].operator@;
                    r.push(
                        Approval {
                            spender: self.operators[j].operator.clone(),
                            expires: self.operators[j].expires,
                        },
                    );
                    last = Some(j);
                    proof {
                        let nv = approvals_view(r@);
                        assert(nv =~= old_v.push(nv[old_v.len() as int]));
                        assert(nv[old_v.len() as int].spender == m);
                        if old_v.len() > 0 {
                            if sv.is_some() {
                                lemma_str_lt_transitive(sv.unwrap(), old_v.last().spender, m);
                            }
                        }
                        assert forall|k: Seq<char>|
                            self.operator_listed(owner@, include_expired, *block, k) && after(sv, k)
                                && !spenders_of(nv).contains(k) implies after(Some(m), k) by {
                            assert(spenders_of(nv)[old_v.len() as int] == m);
                            if spenders_of(old_v).contains(k) {
                                let i = choose|i: int|
                                    0 <= i < spenders_of(old_v).len() && spenders_of(old_v)[i]
                                        == k;
                                assert(spenders_of(nv)[i] == k);
                            }
                            assert(k != m);
                            lemma_str_lt_total(k, m);
                        }
                    }
                },
            }
        }
        r
    }
}

} // verus!

verus! {

/// The expiration an optional one stands for: never, when absent.
pub open spec fn expiry_or_never(e: Option<Expiration>) -> Expiration {
    match e {
        Some(x) => x,
        None => Expiration::Never,
    }
}

fn token_not_found() -> (r: ContractError)
    ensures
        r matches ContractError::Std(StdError::NotFound { .. }),
{
    ContractError::Std(StdError::NotFound { kind: "token".to_owned() })
}

} // verus!

verus! {

/// A registry with the given metadata and minter, and no tokens or grants.
pub fn instantiate(msg: InstantiateMsg) -> (r: Cw721Contract)
    ensures
        r.wf(),
        r.tokens_view().is_empty(),
        r.operators_view().is_empty(),
        r.count_view() == 0,
        r.minter_view() == msg.minter@,
        r.name_view() == msg.name@,
        r.symbol_view() == msg.symbol@,
{
    Cw721Contract {
        contract_info: ContractInfoResponse { name: msg.name, symbol: msg.symbol },
        minter: msg.minter,
        token_count: 0,
        operators: Vec::new(),
        tokens: Vec::new(),
        indexes: TokenIndexes { owner: Vec::new() },
        token_map: Ghost(Map::empty()),
        operator_map: Ghost(Map::empty()),
    }
}

/// Runs one message from `sender` against the registry at `block`.
pub fn execute(
    contract: &mut Cw721Contract,
    block: &BlockInfo,
    sender: &String,
    msg: ExecuteMsg<Extension>,
) -> (r: Result<(), ContractError>)
    requires
        old(contract).wf(),
    ensures
        final(contract).wf(),
        r.is_err() ==> *final(contract) == *old(contract),
        match msg {
            ExecuteMsg::TransferNft { recipient, token_id } | ExecuteMsg::SendNft {
                contract: recipient,
                token_id,
                ..
            } => {
                &&& r.is_ok() == (old(contract).tokens_view().contains_key(token_id@) && old(contract).spec_can_act(sender@, token_id@, *block))
                &&& r.is_ok() ==> final(contract).same_but_tokens(old(contract)) && final(contract).tokens_view() == old(contract).tokens_view().insert(
                    token_id@,
                    TokenView {
                        owner: recipient@,
                        approvals: Seq::empty(),
                        ..old(contract).tokens_view()[token_id@]
                    },
                )
            },
            ExecuteMsg::Approve { spender, token_id, expires } => {
                &&& r.is_ok() == (old(contract).tokens_view().contains_key(token_id@) && sender@
                    == old(contract).tokens_view()[token_id@].owner && !expiry_or_never(
                    expires,
                ).spec_is_expired(*block))
                &&& r.is_ok() ==> final(contract).same_but_tokens(old(contract)) && final(contract).tokens_view() == old(contract).tokens_view().insert(
                    token_id@,
                    TokenView {
                        approvals: without_spender(
                            old(contract).tokens_view()[token_id@].approvals,
                            spender@,
                        ).push(ApprovalView { spender: spender@, expires: expiry_or_never(expires) }),
                        ..old(contract).tokens_view()[token_id@]
                    },
                )
            },
            ExecuteMsg::Revoke { spender, token_id } => {
                &&& r.is_ok() == (old(contract).tokens_view().contains_key(token_id@) && sender@
                    == old(contract).tokens_view()[token_id@].owner)
                &&& r.is_ok() ==> final(contract).same_but_tokens(old(contract)) && final(contract).tokens_view() == old(contract).tokens_view().insert(
                    token_id@,
                    TokenView {
                        approvals: without_spender(
                            old(contract).tokens_view()[token_id@].approvals,
                            spender@,
                        ),
                        ..old(contract).tokens_view()[token_id@]
                    },
                )
            },
            ExecuteMsg::ApproveAll { operator, expires } => {
                &&& r.is_ok() == !expiry_or_never(expires).spec_is_expired(*block)
                &&& r.is_ok() ==> final(contract).same_but_operators(old(contract)) && final(contract).operators_view() == old(contract).operators_view().insert(
                    (sender@, operator@),
                    expiry_or_never(expires),
                )
            },
            ExecuteMsg::RevokeAll { operator } => {
                &&& r.is_ok()
                &&& final(contract).same_but_operators(old(contract))
                &&& final(contract).operators_view() == old(contract).operators_view().remove(
                    (sender@, operator@),
                )
            },
            ExecuteMsg::Mint(m) => {
                &&& r.is_ok() == (!old(contract).tokens_view().contains_key(m.token_id@)
                    && sources_exist(old(contract).tokens_view(), declared_sources(m.extension))
                    && old(contract).count_view() < u64::MAX)
                &&& r.is_ok() ==> final(contract).tokens_view() == old(contract).tokens_view().insert(
                    m.token_id@,
                    TokenView {
                        owner: m.owner@,
                        approvals: Seq::empty(),
                        token_uri: opt_str_view(m.token_uri),
                        extension: m.extension,
                    },
                ) && final(contract).count_view() == old(contract).count_view() + 1
                    && final(contract).operators_view() == old(contract).operators_view()
            },
        },
{
    match msg {
        ExecuteMsg::TransferNft { recipient, token_id } => contract.transfer_nft(
            block,
            sender,
            recipient,
            &token_id,
        ),
        ExecuteMsg::SendNft { contract: to, token_id, msg: _ } => contract.send_nft(
            block,
            sender,
            to,
            &token_id,
        ),
        ExecuteMsg::Approve { spender, token_id, expires } => contract.approve(
            block,
            sender,
            spender,
            &token_id,
            expires,
        ),
        ExecuteMsg::Revoke { spender, token_id } => contract.revoke(sender, &spender, &token_id),
        ExecuteMsg::ApproveAll { operator, expires } => contract.approve_all(
            block,
            sender,
            operator,
            expires,
        ),
        ExecuteMsg::RevokeAll { operator } => {
            contract.revoke_all(sender, &operator);
            Ok(())
        },
        ExecuteMsg::Mint(m) => contract.mint(m),
    }
}

} // verus!

verus! {

/// What a query answers.
pub enum QueryResponse<'a> {
    OwnerOf(OwnerOfResponse),
    ApprovedForAll(Vec<Approval>),
    NumTokens(u64),
    ContractInfo(ContractInfoResponse),
    NftInfo(&'a TokenInfo),
    AllNftInfo(OwnerOfResponse, &'a TokenInfo),
    Tokens(Vec<String>),
    Minter(MinterResponse),
}

impl Cw721Contract {
    /// `o` gives the owner of the stored token `token_id` and its approvals,
    /// the expired ones left out unless `include_expired`.
    pub open spec fn answers_owner_of(
        &self,
        block: BlockInfo,
        token_id: Seq<char>,
        include_expired: bool,
        o: OwnerOfResponse,
    ) -> bool {
        &&& o.owner@ == self.tokens_view()[token_id].owner
        &&& approvals_view(o.approvals@) == (if include_expired {
            self.tokens_view()[token_id].approvals
        } else {
            unexpired(self.tokens_view()[token_id].approvals, block)
        })
    }
}

/// `include_expired` when given, else false.
pub open spec fn flag(b: Option<bool>) -> bool {
    match b {
        Some(x) => x,
        None => false,
    }
}

/// Answers one query against the registry at `block`.
pub fn query<'a>(contract: &'a Cw721Contract, block: &BlockInfo, msg: QueryMsg) -> (r: Result<
    QueryResponse<'a>,
    ContractError,
>)
    requires
        contract.wf(),
    ensures
        r.is_err() ==> r matches Err(ContractError::Std(StdError::NotFound { .. })),
        match msg {
            QueryMsg::OwnerOf { token_id, include_expired } | QueryMsg::AllNftInfo {
                token_id,
                include_expired,
            } => {
                &&& r.is_ok() == contract.tokens_view().contains_key(token_id@)
                &&& r matches Ok(QueryResponse::OwnerOf(o)) ==> contract.answers_owner_of(
                    *block,
                    token_id@,
                    flag(include_expired),
                    o,
                )
                &&& r matches Ok(QueryResponse::AllNftInfo(o, _)) ==> contract.answers_owner_of(
                    *block,
                    token_id@,
                    flag(include_expired),
                    o,
                )
                &&& r matches Ok(QueryResponse::AllNftInfo(_, t)) ==> t@
                    == contract.tokens_view()[token_id@]
                &&& r.is_ok() ==> (r matches Ok(QueryResponse::OwnerOf(_)) <==> msg is OwnerOf)
                &&& r.is_ok() ==> (r matches Ok(QueryResponse::AllNftInfo(_, _)) <==> msg is AllNftInfo)
            },
            QueryMsg::NftInfo { token_id } => {
                &&& r.is_ok() == contract.tokens_view().contains_key(token_id@)
                &&& r.is_ok() ==> (r matches Ok(QueryResponse::NftInfo(t)) && t@
                    == contract.tokens_view()[token_id@])
            },
            QueryMsg::ApprovedForAll { owner, include_expired, start_after, limit } => {
                r matches Ok(QueryResponse::ApprovedForAll(v)) && contract.is_operator_page(
                    owner@,
                    flag(include_expired),
                    *block,
                    opt_str_view(start_after),
                    page_limit(limit),
                    approvals_view(v@),
                )
            },
            QueryMsg::NumTokens {  } => r matches Ok(QueryResponse::NumTokens(n)) && n
                == contract.count_view(),
            QueryMsg::ContractInfo {  } => r matches Ok(QueryResponse::ContractInfo(i)) && i.name@
                == contract.name_view() && i.symbol@ == contract.symbol_view(),
            QueryMsg::Tokens { owner, start_after, limit } => r matches Ok(
                QueryResponse::Tokens(v),
            ) && contract.is_page(
                Some(owner@),
                opt_str_view(start_after),
                page_limit(limit),
                ids_view(v@),
            ),
            QueryMsg::AllTokens { start_after, limit } => r matches Ok(QueryResponse::Tokens(v))
                && contract.is_page(
                None,
                opt_str_view(start_after),
                page_limit(limit),
                ids_view(v@),
            ),
            QueryMsg::Minter {  } => r matches Ok(QueryResponse::Minter(m)) && m.minter@
                == contract.minter_view(),
        },
{
    match msg {
        QueryMsg::OwnerOf { token_id, include_expired } => {
            let all = match include_expired {
                Some(x) => x,
                None => false,
            };
            match contract.owner_of(block, &token_id, all) {
                Ok(o) => Ok(QueryResponse::OwnerOf(o)),
                Err(e) => Err(e),
            }
        },
        QueryMsg::AllNftInfo { token_id, include_expired } => {
            let all = match include_expired {
                Some(x) => x,
                None => false,
            };
            match contract.owner_of(block, &token_id, all) {
                Ok(o) => match contract.nft_info(&token_id) {
                    Ok(t) => Ok(QueryResponse::AllNftInfo(o, t)),
                    Err(e) => Err(e),
                },
                Err(e) => Err(e),
            }
        },
        QueryMsg::NftInfo { token_id } => match contract.nft_info(&token_id) {
            Ok(t) => Ok(QueryResponse::NftInfo(t)),
            Err(e) => Err(e),
        },
        QueryMsg::ApprovedForAll { owner, include_expired, start_after, limit } => {
            let all = match include_expired {
                Some(x) => x,
                None => false,
            };
            Ok(
                QueryResponse::ApprovedForAll(
                    contract.approved_for_all(block, &owner, all, start_after, limit),
                ),
            )
        },
        QueryMsg::NumTokens {  } => Ok(QueryResponse::NumTokens(contract.token_count())),
        QueryMsg::ContractInfo {  } => Ok(QueryResponse::ContractInfo(contract.contract_info())),
        QueryMsg::Tokens { owner, start_after, limit } => Ok(
            QueryResponse::Tokens(contract.tokens(&owner, start_after, limit)),
        ),
        QueryMsg::AllTokens { start_after, limit } => Ok(
            QueryResponse::Tokens(contract.all_tokens(start_after, limit)),
        ),
        QueryMsg::Minter {  } => Ok(QueryResponse::Minter(contract.minter())),
    }
}

} // verus!

verus! {

/// Every record of a registry, as kept between messages.
pub struct Snapshot {
    pub name: String,
    pub symbol: String,
    pub minter: String,
    pub token_count: u64,
    pub tokens: Vec<TokenEntry>,
    pub operators: Vec<OperatorGrant>,
}

impl Snapshot {
    /// The records obey the registry's invariants: unique token ids, unique
    /// spenders per token, one grant per (owner, operator) pair, and a counter
    /// equal to the number of tokens.
    pub open spec fn valid(&self) -> bool {
        let t = self.tokens@;
        let o = self.operators@;
        &&& self.token_count as int == t.len()
        &&& forall|i: int, j: int|
            0 <= i < j < t.len() ==> #[trigger] t[i].token_id@ != #[trigger] t[j].token_id@
        &&& forall|i: int| 0 <= i < t.len() ==> spenders_unique((#[trigger] t[i]).info@.approvals)
        &&& forall|i: int, j: int|
            0 <= i < j < o.len() ==> (#[trigger] o[i].owner@, o[i].operator@) != (
                #[trigger] o[j].owner@,
                o[j].operator@,
            )
    }
}

impl Cw721Contract {
    /// The registry holds exactly the records of `s`.
    pub open spec fn holds(&self, s: &Snapshot) -> bool {
        let t = s.tokens@;
        let o = s.operators@;
        &&& forall|i: int|
            0 <= i < t.len() ==> self.tokens_view().contains_key(#[trigger] t[i].token_id@)
                && self.tokens_view()[t[i].token_id@] == t[i].info@
        &&& forall|k: Seq<char>|
            #[trigger] self.tokens_view().contains_key(k) ==> exists|i: int|
                0 <= i < t.len() && #[trigger] t[i].token_id@ == k
        &&& forall|i: int|
            0 <= i < o.len() ==> self.operators_view().contains_key(
                (#[trigger] o[i].owner@, o[i].operator@),
            ) && self.operators_view()[(o[i].owner@, o[i].operator@)] == o[i].expires
        &&& forall|k: (Seq<char>, Seq<char>)|
            #[trigger] self.operators_view().contains_key(k) ==> exists|i: int|
                0 <= i < o.len() && (#[trigger] o[i].owner@, o[i].operator@) == k
        &&& self.count_view() == s.token_count
        &&& self.minter_view() == s.minter@
        &&& self.name_view() == s.name@
        &&& self.symbol_view() == s.symbol@
    }

    /// Hands out every record of the registry.
    pub fn into_snapshot(self) -> (r: Snapshot)
        requires
            self.wf(),
        ensures
            r.valid(),
            self.holds(&r),
    {
        proof {
            assert forall|i: int| 0 <= i < self.tokens@.len() implies spenders_unique(
                (#[trigger] self.tokens@[i]).info@.approvals,
            ) by {
                assert(self.token_map@.contains_key(self.tokens@[i].token_id@));
            }
        }
        Snapshot {
            name: self.contract_info.name,
            symbol: self.contract_info.symbol,
            minter: self.minter,
            token_count: self.token_count,
            tokens: self.tokens,
            operators: self.operators,
        }
    }

    /// Rebuilds a registry, owner index included, from its records; `None`
    /// when they break the registry's invariants.
    pub fn from_snapshot(s: Snapshot) -> (r: Option<Cw721Contract>)
        ensures
            r.is_some() == s.valid(),
            r matches Some(c) ==> c.wf() && c.holds(&s),
    {
        if s.token_count != s.tokens.len() as u64 || !token_ids_distinct(&s.tokens)
            || !grants_distinct(&s.operators) {
            return None;
        }
        let mut i: usize = 0;
        while i < s.tokens.len()
            invariant
                i <= s.tokens@.len(),
                forall|a: int| 0 <= a < i ==> spenders_unique((#[trigger] s.tokens@[a]).info@.approvals),
            decreases s.tokens@.len() - i,
        {
            if !approvals_distinct(&s.tokens[i].info.approvals) {
                return None;
            }
            i = i + 1;
        }
        let ghost t = s.tokens@;
        let mut index: Vec<IndexEntry> = Vec::new();
        let ghost mut m: Map<Seq<char>, TokenView> = Map::empty();
        let mut j: usize = 0;
        while j < s.tokens.len()
            invariant
                j <= t.len(),
                t == s.tokens@,
                index@.len() == j,
                forall|a: int| 0 <= a < j ==> #[trigger] index@[a].token_id@ == t[a].token_id@ && index@[a].owner@ == t[a].info.owner@,
                forall|a: int| 0 <= a < j ==> m.contains_key(#[trigger] t[a].token_id@) && m[t[a].token_id@] == t[a].info@,
                forall|k: Seq<char>| #[trigger] m.contains_key(k) ==> exists|a: int| 0 <= a < j && #[trigger] t[a].token_id@ == k,
                forall|a: int, b: int|
                    0 <= a < b < t.len() ==> #[trigger] t[a].token_id@ != #[trigger] t[b].token_id@,
            decreases t.len() - j,
        {
            let key = token_owner_idx(&s.tokens[j].info, s.tokens[j].token_id.clone());
            index.push(IndexEntry { owner: key.0, token_id: key.1 });
            proof {
                let old_m = m;
                m = m.insert(t[j as int].token_id@, t[j as int].info@);
                assert forall|a: int| 0 <= a < j + 1 implies m.contains_key(#[trigger] t[a].token_id@) && m[t[a].token_id@] == t[a].info@ by {
                    if a < j {
                        assert(t[a].token_id@ != t[j as int].token_id@);
                    }
                }
                assert forall|k: Seq<char>| #[trigger] m.contains_key(k) implies exists|a: int| 0 <= a < j + 1 && #[trigger] t[a].token_id@ == k by {
                    if k != t[j as int].token_id@ {
                        assert(old_m.contains_key(k));
                    }
                }
            }
            j = j + 1;
        }
        let ghost o = s.operators@;
        let ghost om = Map::new(
            |k: (Seq<char>, Seq<char>)| exists|a: int| 0 <= a < o.len() && (#[trigger] o[a].owner@, o[a].operator@) == k,
            |k: (Seq<char>, Seq<char>)| o[choose|a: int| 0 <= a < o.len() && (#[trigger] o[a].owner@, o[a].operator@) == k].expires,
        );
        let c = Cw721Contract {
            contract_info: ContractInfoResponse { name: s.name, symbol: s.symbol },
            minter: s.minter,
            token_count: s.token_count,
            operators: s.operators,
            tokens: s.tokens,
            indexes: TokenIndexes { owner: index },
            token_map: Ghost(m),
            operator_map: Ghost(om),
        };
        proof {
            assert forall|a: int| 0 <= a < o.len() implies om.contains_key((#[trigger] o[a].owner@, o[a].operator@)) && om[(o[a].owner@, o[a].operator@)] == o[a].expires by {
                let k = (o[a].owner@, o[a].operator@);
                assert(om.contains_key(k));
                let b = choose|b: int| 0 <= b < o.len() && (#[trigger] o[b].owner@, o[b].operator@) == k;
                if b != a {
                    if b < a {
                        assert((o[b].owner@, o[b].operator@) != (o[a].owner@, o[a].operator@));
                    } else {
                        assert((o[a].owner@, o[a].operator@) != (o[b].owner@, o[b].operator@));
                    }
                }
            }
            assert forall|k: Seq<char>| #[trigger] m.contains_key(k) implies spenders_unique(m[k].approvals) by {
                let a = choose|a: int| 0 <= a < t.len() && #[trigger] t[a].token_id@ == k;
                assert(spenders_unique(t[a].info@.approvals));
            }
            assert forall|k: Seq<char>| #[trigger] m.contains_key(k) implies exists|a: int| 0 <= a < c.indexes.owner@.len() && #[trigger] c.indexes.owner@[a].token_id@ == k by {
                let a = choose|a: int| 0 <= a < t.len() && #[trigger] t[a].token_id@ == k;
                assert(c.indexes.owner@[a].token_id@ == k);
            }
            assert forall|a: int, b: int| 0 <= a < b < c.indexes.owner@.len() implies #[trigger] c.indexes.owner@[a].token_id@ != #[trigger] c.indexes.owner@[b].token_id@ by {
                assert(t[a].token_id@ != t[b].token_id@);
            }
            assert(c.tokens_wf());
            assert(c.index_wf());
            assert(c.operators_wf());
        }
        Some(c)
    }
}

/// Whether no two entries share a token id.
fn token_ids_distinct(v: &Vec<TokenEntry>) -> (r: bool)
    ensures
        r == forall|i: int, j: int|
            0 <= i < j < v@.len() ==> #[trigger] v@[i].token_id@ != #[trigger] v@[j].token_id@,
{
    let mut j: usize = 0;
    while j < v.len()
        invariant
            j <= v@.len(),
            forall|a: int, b: int|
                0 <= a < b < j ==> #[trigger] v@[a].token_id@ != #[trigger] v@[b].token_id@,
        decreases v@.len() - j,
    {
        let mut i: usize = 0;
        while i < j
            invariant
                i <= j < v@.len(),
                forall|a: int, b: int|
                    0 <= a < b < j ==> #[trigger] v@[a].token_id@ != #[trigger] v@[b].token_id@,
                forall|a: int| 0 <= a < i ==> #[trigger] v@[a].token_id@ != v@[j as int].token_id@,
            decreases j - i,
        {
            if v[i].token_id == v[j].token_id {
                return false;
            }
            i = i + 1;
        }
        j = j + 1;
    }
    true
}

/// Whether no two grants share an (owner, operator) pair.
fn grants_distinct(v: &Vec<OperatorGrant>) -> (r: bool)
    ensures
        r == forall|i: int, j: int|
            0 <= i < j < v@.len() ==> (#[trigger] v@[i].owner@, v@[i].operator@) != (
                #[trigger] v@[j].owner@,
                v@[j].operator@,
            ),
{
    let mut j: usize = 0;
    while j < v.len()
        invariant
            j <= v@.len(),
            forall|a: int, b: int|
                0 <= a < b < j ==> (#[trigger] v@[a].owner@, v@[a].operator@) != (
                    #[trigger] v@[b].owner@,
                    v@[b].operator@,
                ),
        decreases v@.len() - j,
    {
        let mut i: usize = 0;
        while i < j
            invariant
                i <= j < v@.len(),
                forall|a: int, b: int|
                    0 <= a < b < j ==> (#[trigger] v@[a].owner@, v@[a].operator@) != (
                        #[trigger] v@[b].owner@,
                        v@[b].operator@,
                    ),
                forall|a: int|
                    0 <= a < i ==> (#[trigger] v@[a].owner@, v@[a].operator@) != (
                        v@[j as int].owner@,
                        v@[j as int].operator@,
                    ),
            decreases j - i,
        {
            if v[i].owner == v[j].owner && v[i].operator == v[j].operator {
                return false;
            }
            i = i + 1;
        }
        j = j + 1;
    }
    true
}

} // verus!

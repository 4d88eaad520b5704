use vstd::prelude::*;

use crate::contract::Cw721Contract;
use crate::expiration::{BlockInfo, Expiration};
use crate::state::{approved_in, lemma_without_spender_excludes, without_spender, ApprovalView, TokenView};

verus! {

/// After a transfer of `token_id` to `recipient`, the token has no approvals,
/// the owner index lists it under `recipient`, and under no other owner.
pub proof fn transfer_moves_index_entry(
    pre: Cw721Contract,
    post: Cw721Contract,
    token_id: Seq<char>,
    recipient: Seq<char>,
)
    requires
        pre.wf(),
        post.wf(),
        pre.tokens_view().contains_key(token_id),
        post.tokens_view() == pre.tokens_view().insert(
            token_id,
            TokenView { owner: recipient, approvals: Seq::empty(), ..pre.tokens_view()[token_id] },
        ),
    ensures
        post.tokens_view()[token_id].approvals.len() == 0,
        post.owner_index().contains((recipient, token_id)),
        forall|owner: Seq<char>|
            owner != recipient ==> !post.owner_index().contains((owner, token_id)),
{
    post.lemma_index_consistent();
}

/// Once `spender` has been approved on a token until `expires`, `spender` may
/// act on it at every block where `expires` has not elapsed; where it has
/// elapsed, `spender` may not, unless it owns the token or is an unexpired
/// operator of its owner.
pub proof fn approval_decides_transfer(
    pre: Cw721Contract,
    post: Cw721Contract,
    token_id: Seq<char>,
    spender: Seq<char>,
    expires: Expiration,
    block: BlockInfo,
)
    requires
        pre.tokens_view().contains_key(token_id),
        post.operators_view() == pre.operators_view(),
        post.tokens_view() == pre.tokens_view().insert(
            token_id,
            TokenView {
                approvals: without_spender(pre.tokens_view()[token_id].approvals, spender).push(
                    ApprovalView { spender, expires },
                ),
                ..pre.tokens_view()[token_id]
            },
        ),
    ensures
        !expires.spec_is_expired(block) ==> post.spec_can_act(spender, token_id, block),
        expires.spec_is_expired(block) && spender != post.tokens_view()[token_id].owner
            && !post.spec_is_operator(post.tokens_view()[token_id].owner, spender, block)
            ==> !post.spec_can_act(spender, token_id, block),
{
    let kept = without_spender(pre.tokens_view()[token_id].approvals, spender);
    let a = post.tokens_view()[token_id].approvals;
    lemma_without_spender_excludes(pre.tokens_view()[token_id].approvals, spender);
    assert(a[a.len() - 1].spender == spender);
    if expires.spec_is_expired(block) {
        assert forall|i: int| 0 <= i < a.len() && #[trigger] a[i].spender == spender implies a[i].expires.spec_is_expired(block) by {
            if i < kept.len() {
                assert(a[i] == kept[i]);
            }
        }
        assert(!approved_in(a, spender, block));
    }
}

/// After a grant of `owner` to `operator` has been withdrawn, `operator` is no
/// operator of `owner`, and may act on a token of `owner` only as its owner or
/// as an approved spender of it.
pub proof fn revoked_operator_cannot_act(
    mid: Cw721Contract,
    post: Cw721Contract,
    owner: Seq<char>,
    operator: Seq<char>,
    token_id: Seq<char>,
    block: BlockInfo,
)
    requires
        post.operators_view() == mid.operators_view().remove((owner, operator)),
        post.tokens_view().contains_key(token_id),
        post.tokens_view()[token_id].owner == owner,
        operator != owner,
        !approved_in(post.tokens_view()[token_id].approvals, operator, block),
    ensures
        !post.spec_is_operator(owner, operator, block),
        !post.spec_can_act(operator, token_id, block),
{
}

} // verus!

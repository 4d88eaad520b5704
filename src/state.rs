use vstd::prelude::*;

use crate::expiration::{BlockInfo, Expiration};
use crate::msg::Extension;

verus! {

/// An approval as the contracts see it.
pub struct ApprovalView {
    pub spender: Seq<char>,
    pub expires: Expiration,
}

/// A grant that lets one spender act on one token.
#[derive(Clone, Debug, PartialEq, Eq)]
pub struct Approval {
    pub spender: String,
    pub expires: Expiration,
}

impl View for Approval {
    type V = ApprovalView;

    open spec fn view(&self) -> ApprovalView {
        ApprovalView { spender: self.spender@, expires: self.expires }
    }
}

impl Approval {
    pub fn is_expired(&self, block: &BlockInfo) -> (r: bool)
        ensures
            r == self.expires.spec_is_expired(*block),
    {
        self.expires.is_expired(block)
    }

    pub fn duplicate(&self) -> (r: Approval)
        ensures
            r@ == self@,
    {
        Approval { spender: self.spender.clone(), expires: self.expires }
    }
}

pub open spec fn approvals_view(s: Seq<Approval>) -> Seq<ApprovalView> {
    s.map_values(|a: Approval| a@)
}

/// No two approvals name the same spender.
pub open spec fn spenders_unique(s: Seq<ApprovalView>) -> bool {
    forall|i: int, j: int| 0 <= i < j < s.len() ==> s[i].spender != s[j].spender
}

/// The approvals of `s`, in order, without those of `spender`.
pub open spec fn without_spender(s: Seq<ApprovalView>, spender: Seq<char>) -> Seq<ApprovalView>
    decreases s.len(),
{
    if s.len() == 0 {
        s
    } else {
        let r = without_spender(s.drop_last(), spender);
        if s.last().spender == spender {
            r
        } else {
            r.push(s.last())
        }
    }
}

/// The approvals of `s`, in order, that have not expired at `block`.
pub open spec fn unexpired(s: Seq<ApprovalView>, block: BlockInfo) -> Seq<ApprovalView>
    decreases s.len(),
{
    if s.len() == 0 {
        s
    } else {
        let r = unexpired(s.drop_last(), block);
        if s.last().expires.spec_is_expired(block) {
            r
        } else {
            r.push(s.last())
        }
    }
}

/// Some approval in `s` lets `spender` act at `block`.
pub open spec fn approved_in(s: Seq<ApprovalView>, spender: Seq<char>, block: BlockInfo) -> bool {
    exists|i: int|
        0 <= i < s.len() && #[trigger] s[i].spender == spender && !s[i].expires.spec_is_expired(
            block,
        )
}

pub open spec fn opt_str_view(o: Option<String>) -> Option<Seq<char>> {
    match o {
        Some(s) => Some(s@),
        None => None,
    }
}

/// A token record as the contracts see it.
pub struct TokenView {
    pub owner: Seq<char>,
    pub approvals: Seq<ApprovalView>,
    pub token_uri: Option<Seq<char>>,
    pub extension: Extension,
}

/// The record stored for one token.
pub struct TokenInfo {
    pub owner: String,
    pub approvals: Vec<Approval>,
    pub token_uri: Option<String>,
    pub extension: Extension,
}

impl View for TokenInfo {
    type V = TokenView;

    open spec fn view(&self) -> TokenView {
        TokenView {
            owner: self.owner@,
            approvals: approvals_view(self.approvals@),
            token_uri: opt_str_view(self.token_uri),
            extension: self.extension,
        }
    }
}

/// The key of a token in the owner index: its owner, then its id.
pub fn token_owner_idx(d: &TokenInfo, k: String) -> (r: (String, String))
    ensures
        r.0@ == d.owner@,
        r.1@ == k@,
{
    (d.owner.clone(), k)
}

/// No approval of `spender` is left after removing those of `spender`.
pub proof fn lemma_without_spender_excludes(s: Seq<ApprovalView>, spender: Seq<char>)
    ensures
        forall|k: int|
            0 <= k < without_spender(s, spender).len() ==> (#[trigger] without_spender(
                s,
                spender,
            )[k]).spender != spender,
    decreases s.len(),
{
    if s.len() > 0 {
        lemma_without_spender_excludes(s.drop_last(), spender);
    }
}

/// Copies `approvals`, leaving out the expired ones unless `include_expired`.
pub fn humanize_approvals(approvals: &Vec<Approval>, block: &BlockInfo, include_expired: bool) -> (r:
    Vec<Approval>)
    ensures
        approvals_view(r@) == (if include_expired {
            approvals_view(approvals@)
        } else {
            unexpired(approvals_view(approvals@), *block)
        }),
{
    let mut r: Vec<Approval> = Vec::new();
    let mut i: usize = 0;
    while i < approvals.len()
        invariant
            i <= approvals.len(),
            approvals_view(r@) == (if include_expired {
                approvals_view(approvals@.subrange(0, i as int))
            } else {
                unexpired(approvals_view(approvals@.subrange(0, i as int)), *block)
            }),
        decreases approvals.len() - i,
    {
        let ghost before = approvals_view(approvals@.subrange(0, i as int));
        let ghost after = approvals_view(approvals@.subrange(0, i + 1));
        assert(after.drop_last() =~= before);
        assert(after.last() == approvals@[i as int]@);
        let ghost old_r = r@;
        let keep = include_expired || !approvals[i].is_expired(block);
        if keep {
            r.push(approvals[i].duplicate());
            assert(approvals_view(r@) =~= approvals_view(old_r).push(approvals@[i as int]@));
        }
        if include_expired {
            assert(approvals_view(r@) =~= after);
        } else {
            assert(approvals_view(r@) =~= unexpired(after, *block));
        }
        i = i + 1;
    }
    assert(approvals@.subrange(0, approvals.len() as int) =~= approvals@);
    r
}

/// Copies `approvals` without those of `spender`.
pub fn remove_spender(approvals: &Vec<Approval>, spender: &String) -> (r: Vec<Approval>)
    ensures
        approvals_view(r@) == without_spender(approvals_view(approvals@), spender@),
        spenders_unique(approvals_view(approvals@)) ==> spenders_unique(approvals_view(r@)),
        forall|k: int| 0 <= k < r@.len() ==> r@[k].spender@ != spender@,
{
    let mut r: Vec<Approval> = Vec::new();
    let mut i: usize = 0;
    let ghost whole = approvals_view(approvals@);
    while i < approvals.len()
        invariant
            i <= approvals.len(),
            whole == approvals_view(approvals@),
            approvals_view(r@) == without_spender(
                approvals_view(approvals@.subrange(0, i as int)),
                spender@,
            ),
            forall|k: int| 0 <= k < r@.len() ==> r@[k].spender@ != spender@,
            forall|k: int|
                0 <= k < r@.len() ==> exists|m: int| 0 <= m < i && whole[m] == (#[trigger] r@[k])@,
            spenders_unique(whole) ==> spenders_unique(approvals_view(r@)),
        decreases approvals.len() - i,
    {
        let ghost before = approvals_view(approvals@.subrange(0, i as int));
        let ghost after = approvals_view(approvals@.subrange(0, i + 1));
        let ghost old_r = r@;
        assert(after.drop_last() =~= before);
        assert(after.last() == approvals@[i as int]@);
        if approvals[i].spender != *spender {
            r.push(approvals[i].duplicate());
            proof {
                assert(r@[r@.len() - 1]@ == whole[i as int]);
                assert forall|k: int| 0 <= k < r@.len() implies exists|m: int|
                    0 <= m < i + 1 && whole[m] == (#[trigger] r@[k])@ by {
                    if k < old_r.len() {
                        assert(r@[k] == old_r[k]);
                    } else {
                        assert(whole[i as int] == r@[k]@);
                    }
                }
                if spenders_unique(whole) {
                    assert forall|a: int, b: int|
                        0 <= a < b < approvals_view(r@).len() implies approvals_view(r@)[a].spender
                        != approvals_view(r@)[b].spender by {
                        if b == r@.len() - 1 {
                            assert(r@[a] == old_r[a]);
                            let m = choose|m: int| 0 <= m < i && whole[m] == old_r[a]@;
                            assert(whole[m].spender != whole[i as int].spender);
                        } else {
                            assert(r@[a] == old_r[a]);
                            assert(r@[b] == old_r[b]);
                            assert(approvals_view(old_r)[a].spender != approvals_view(
                                old_r,
                            )[b].spender);
                        }
                    }
                }
            }
        }
        assert(approvals_view(r@) =~= without_spender(after, spender@));
        i = i + 1;
    }
    assert(approvals@.subrange(0, approvals.len() as int) =~= approvals@);
    r
}

/// Whether no two approvals name the same spender.
pub fn approvals_distinct(v: &Vec<Approval>) -> (r: bool)
    ensures
        r == spenders_unique(approvals_view(v@)),
{
    let ghost w = approvals_view(v@);
    let mut j: usize = 0;
    while j < v.len()
        invariant
            j <= v@.len(),
            w == approvals_view(v@),
            forall|a: int, b: int| 0 <= a < b < j ==> w[a].spender != w[b].spender,
        decreases v@.len() - j,
    {
        let mut i: usize = 0;
        while i < j
            invariant
                i <= j < v@.len(),
                w == approvals_view(v@),
                forall|a: int, b: int| 0 <= a < b < j ==> w[a].spender != w[b].spender,
                forall|a: int| 0 <= a < i ==> w[a].spender != w[j as int].spender,
            decreases j - i,
        {
            assert(w[i as int] == v@[i as int]@ && w[j as int] == v@[j as int]@);
            if v[i].spender == v[j].spender {
                return false;
            }
            i = i + 1;
        }
        j = j + 1;
    }
    true
}

} // verus!

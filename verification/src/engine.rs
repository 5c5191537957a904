use vstd::prelude::*;

use crate::decode::parse;
use crate::decode::parse_spec;
use crate::error::Error;
use crate::metadata::TokenMetadata;
use crate::metadata::encode;
use crate::metadata::encode_spec;
use crate::metadata::expiry_of;
use crate::metadata::merged_metadata;
use crate::metadata::merged_nft_metadata;
use crate::metadata::mergeable_of;
use crate::metadata::timeable_of;
use crate::registry::AccountId;
use crate::registry::LedgerId;
use crate::registry::Registry;
use crate::registry::ScheduledEntry;
use crate::registry::TokenId;

verus! {

/// The administrator bookkeeping fixed at registry creation: `owner` is set
/// once; `fee_wallet` changes only through the admin-gated setter.
#[derive(Clone, Copy, Debug, PartialEq, Eq, Structural)]
pub struct AdminConfig {
    /// The account allowed to change the fee wallet.
    pub owner: AccountId,
    /// The account that receives payments around scheduled mints.
    pub fee_wallet: AccountId,
}

/// An instruction to the external ledger to destroy one token.
#[derive(Clone, Copy, Debug, PartialEq, Eq, Structural)]
pub struct BurnAction {
    /// The ledger that holds the token.
    pub ledger: LedgerId,
    /// The token to destroy.
    pub token_id: TokenId,
}

/// An instruction to the external ledger to create one token.
#[derive(Clone, Debug, PartialEq, Eq)]
pub struct MintAction {
    /// The ledger that is to hold the token.
    pub ledger: LedgerId,
    /// The account that is to own the token.
    pub owner: AccountId,
    /// The wire payload of the token's descriptive record.
    pub metadata: Vec<u8>,
}

/// What the external ledger reports about one token: its raw metadata
/// payload and its owner of record.
#[derive(Clone, Debug)]
pub struct TokenInfo {
    /// The token's metadata payload, as the ledger stores it.
    pub payload: Vec<u8>,
    /// The token's owner of record.
    pub owner: AccountId,
}

/// The mathematical value of a ledger report.
pub struct InfoSpec {
    /// The token's metadata payload.
    pub payload: Seq<u8>,
    /// The token's owner of record.
    pub owner: AccountId,
}

impl View for TokenInfo {
    type V = InfoSpec;

    open spec fn view(&self) -> InfoSpec {
        InfoSpec { payload: self.payload@, owner: self.owner }
    }
}

/// The reports in a list, as mathematical values.
pub open spec fn infos_view(s: Seq<TokenInfo>) -> Seq<InfoSpec> {
    s.map_values(|t: TokenInfo| t@)
}

/// Everything a successful merge prescribes: the burns of the consumed
/// tokens, in input order, then exactly one mint of the replacement token.
#[derive(Clone, Debug, PartialEq, Eq)]
pub struct MergeOutcome {
    /// The consumed tokens, to destroy in this order.
    pub burns: Vec<BurnAction>,
    /// The replacement token to create after all burns succeeded.
    pub mint: MintAction,
}

/// Why one listed token blocks a merge, if it does: an undecodable payload,
/// an explicit `mergeable: false`, or an owner other than the caller —
/// checked in that order.
pub open spec fn merge_error_at(caller: AccountId, info: InfoSpec) -> Option<Error> {
    match parse_spec(info.payload) {
        None => Some(Error::DecodeError),
        Some(m) => if !mergeable_of(m) {
            Some(Error::NotMergableNft)
        } else if info.owner != caller {
            Some(Error::InvalidOwner)
        } else {
            None
        },
    }
}

/// The first error among the listed tokens, in input order; `None` when every
/// token passes validation.
pub open spec fn merge_first_error(caller: AccountId, infos: Seq<InfoSpec>) -> Option<Error>
    decreases infos.len(),
{
    if infos.len() == 0 {
        None
    } else {
        match merge_error_at(caller, infos[0]) {
            Some(e) => Some(e),
            None => merge_first_error(caller, infos.drop_first()),
        }
    }
}

/// Merge atomicity: one invalid token anywhere in the list — not decodable,
/// not mergeable, or not owned by the caller — makes the whole merge fail,
/// so no burn and no mint is prescribed.
pub proof fn lemma_merge_atomic(caller: AccountId, infos: Seq<InfoSpec>, i: int)
    requires
        0 <= i < infos.len(),
        merge_error_at(caller, infos[i]) is Some,
    ensures
        merge_first_error(caller, infos) is Some,
    decreases infos.len(),
{
    if merge_error_at(caller, infos[0]) is None {
        assert(infos.drop_first()[i - 1] == infos[i]);
        lemma_merge_atomic(caller, infos.drop_first(), i - 1);
    }
}

/// Validates and plans a merge of `token_ids`, where `infos[k]` is what the
/// ledger reports about `token_ids[k]`.
///
/// Every listed token is validated — decodable metadata, not explicitly
/// unmergeable, owned by the caller — before any burn is prescribed, so a
/// rejection never leaves a partial burn. On success the outcome burns
/// exactly the listed tokens in input order and mints one replacement token
/// to the caller whose description lists the consumed ids comma-joined.
pub fn merge(
    collection: LedgerId,
    token_ids: &Vec<u64>,
    caller: AccountId,
    infos: &Vec<TokenInfo>,
) -> (r: Result<MergeOutcome, Error>)
    ensures
        match r {
            Ok(o) => infos@.len() == token_ids@.len() && merge_first_error(
                caller,
                infos_view(infos@),
            ) is None && o.burns@.len() == token_ids@.len() && (forall|k: int|
                0 <= k < token_ids@.len() ==> o.burns@[k] == (BurnAction {
                    ledger: collection,
                    token_id: token_ids@[k],
                })) && o.mint.ledger == collection && o.mint.owner == caller && o.mint.metadata@
                == encode_spec(merged_metadata(token_ids@)),
            Err(e) => if infos@.len() != token_ids@.len() {
                e == Error::FatalError
            } else {
                merge_first_error(caller, infos_view(infos@)) == Some(e)
            },
        },
{
    if infos.len() != token_ids.len() {
        return Err(Error::FatalError);
    }
    let ghost v = infos_view(infos@);
    proof {
        assert(v.skip(0) =~= v);
    }
    let mut i: usize = 0;
    while i < infos.len()
        invariant
            i <= infos@.len(),
            infos@.len() == token_ids@.len(),
            v == infos_view(infos@),
            merge_first_error(caller, v) == merge_first_error(caller, v.skip(i as int)),
        decreases infos@.len() - i,
    {
        let info = &infos[i];
        proof {
            assert(v[i as int] == infos@[i as int]@);
            assert(v.skip(i as int)[0] == v[i as int]);
            assert(v.skip(i as int).drop_first() =~= v.skip(i + 1 as int));
        }
        match parse(&info.payload) {
            Err(_) => {
                return Err(Error::DecodeError);
            },
            Ok(m) => {
                if !m.is_mergeable() {
                    return Err(Error::NotMergableNft);
                }
                if info.owner != caller {
                    return Err(Error::InvalidOwner);
                }
            },
        }
        i = i + 1;
    }
    proof {
        assert(v.skip(infos@.len() as int) =~= Seq::<InfoSpec>::empty());
    }
    let mut burns: Vec<BurnAction> = Vec::new();
    let mut k: usize = 0;
    while k < token_ids.len()
        invariant
            k <= token_ids@.len(),
            burns@.len() == k,
            forall|j: int|
                0 <= j < k ==> burns@[j] == (BurnAction {
                    ledger: collection,
                    token_id: token_ids@[j],
                }),
        decreases token_ids@.len() - k,
    {
        burns.push(BurnAction { ledger: collection, token_id: token_ids[k] });
        k = k + 1;
    }
    let replacement = merged_nft_metadata(token_ids);
    let payload = encode(&replacement);
    Ok(MergeOutcome { burns, mint: MintAction { ledger: collection, owner: caller, metadata: payload } })
}

/// Validates a plain burn: the caller must be the ledger-reported owner.
/// This path never touches the registry.
pub fn burn(
    collection: LedgerId,
    token_id: TokenId,
    caller: AccountId,
    reported_owner: AccountId,
) -> (r: Result<BurnAction, Error>)
    ensures
        reported_owner == caller ==> r == Ok::<BurnAction, Error>(
            BurnAction { ledger: collection, token_id },
        ),
        reported_owner != caller ==> r == Err::<BurnAction, Error>(Error::InvalidOwner),
{
    if reported_owner != caller {
        Err(Error::InvalidOwner)
    } else {
        Ok(BurnAction { ledger: collection, token_id })
    }
}

/// Plans a plain mint of `metadata` to the caller. No registry mutation: a
/// plain mint never enters the scheduled state.
pub fn mint(collection: LedgerId, caller: AccountId, metadata: Vec<u8>) -> (r: MintAction)
    ensures
        r.ledger == collection,
        r.owner == caller,
        r.metadata@ == metadata@,
{
    MintAction { ledger: collection, owner: caller, metadata }
}

/// Why a payload cannot start a scheduled mint, if it cannot: it does not
/// decode, or it explicitly says `timeable: false`.
pub open spec fn timed_mint_error(payload: Seq<u8>) -> Option<Error> {
    match parse_spec(payload) {
        None => Some(Error::DecodeError),
        Some(m) => if !timeable_of(m) {
            Some(Error::NotTimeableNft)
        } else {
            None
        },
    }
}

/// Decodes and gates a scheduled-mint payload before any ledger call: an
/// explicit `timeable: false` forbids scheduling.
pub fn check_timeable(payload: &Vec<u8>) -> (r: Result<TokenMetadata, Error>)
    ensures
        match r {
            Ok(m) => parse_spec(payload@) == Some(m@) && timeable_of(m@) && timed_mint_error(
                payload@,
            ) is None,
            Err(e) => timed_mint_error(payload@) == Some(e),
        },
{
    match parse(payload) {
        Err(e) => Err(e),
        Ok(m) => {
            if !m.is_timeable() {
                Err(Error::NotTimeableNft)
            } else {
                Ok(m)
            }
        },
    }
}

/// One successful scheduled mint moves the counter from `pre` to `post` and
/// hands out `idx`.
pub open spec fn timed_mint_transition(pre: u64, post: u64, idx: u64) -> bool {
    idx == pre && post == pre + 1
}

/// A chain of successful scheduled mints: `nexts[k]` is the counter before
/// the `k`-th call, and `idxs[k]` the index it assigned.
pub open spec fn mint_chain(nexts: Seq<u64>, idxs: Seq<u64>) -> bool {
    nexts.len() == idxs.len() + 1 && forall|k: int|
        0 <= k < idxs.len() ==> timed_mint_transition(nexts[k], #[trigger] nexts[k + 1], idxs[k])
}

/// Monotonic index: a fresh registry assigns the indices `0, 1, 2, ...` to
/// successive successful scheduled mints, in call order and with no repeats.
pub proof fn lemma_monotonic_index(nexts: Seq<u64>, idxs: Seq<u64>)
    requires
        mint_chain(nexts, idxs),
        nexts[0] == 0,
    ensures
        forall|k: int| 0 <= k < idxs.len() ==> idxs[k] == k,
{
    assert forall|k: int| 0 <= k < idxs.len() implies idxs[k] == k by {
        lemma_mint_chain_counter(nexts, idxs, k);
        assert(timed_mint_transition(nexts[k], nexts[k + 1], idxs[k]));
    }
}

/// In a chain of scheduled mints starting from zero, the counter before the
/// `k`-th call is `k`.
proof fn lemma_mint_chain_counter(nexts: Seq<u64>, idxs: Seq<u64>, k: int)
    requires
        mint_chain(nexts, idxs),
        nexts[0] == 0,
        0 <= k < idxs.len(),
    ensures
        nexts[k] == k,
    decreases k,
{
    if k > 0 {
        lemma_mint_chain_counter(nexts, idxs, k - 1);
        assert(timed_mint_transition(nexts[k - 1], nexts[k - 1 + 1], idxs[k - 1]));
    }
}

/// Records a freshly minted token under timed lifecycle management.
///
/// `minted_token_id` is the id the external ledger returned for the mint the
/// gate of `check_timeable` allowed. On success the registry assigns the
/// current counter value as the entry's index, stores the entry unburnt with
/// the payload's expiry (zero when absent), and increments the counter exactly
/// once; every other slot is untouched. On an error nothing changes.
pub fn mint_timeable_nft(
    registry: &mut Registry,
    collection: LedgerId,
    payload: &Vec<u8>,
    minted_token_id: TokenId,
) -> (r: Result<u64, Error>)
    requires
        old(registry).wf(),
        old(registry).next() < u64::MAX,
    ensures
        final(registry).wf(),
        match r {
            Ok(idx) => {
                &&& timed_mint_error(payload@) is None
                &&& timed_mint_transition(old(registry).next(), final(registry).next(), idx)
                &&& final(registry).entries().len() == idx + 1
                &&& final(registry).entries()[idx as int] == Some(
                    ScheduledEntry {
                        index: idx,
                        expiry: expiry_of(parse_spec(payload@)->Some_0),
                        ledger: collection,
                        token_id: minted_token_id,
                        burnt: false,
                    },
                )
                &&& forall|k: int|
                    0 <= k < old(registry).entries().len() ==> final(registry).entries()[k] == old(
                        registry,
                    ).entries()[k]
                &&& forall|k: int|
                    old(registry).entries().len() <= k < idx ==> final(registry).entries()[k]
                        is None
            },
            Err(e) => {
                &&& timed_mint_error(payload@) == Some(e)
                &&& final(registry).entries() == old(registry).entries()
                &&& final(registry).next() == old(registry).next()
            },
        },
{
    let meta = match check_timeable(payload) {
        Err(e) => {
            return Err(e);
        },
        Ok(m) => m,
    };
    let idx = registry.allocate_index();
    let entry = ScheduledEntry {
        index: idx,
        expiry: meta.expiry_or_default(),
        ledger: collection,
        token_id: minted_token_id,
        burnt: false,
    };
    registry.put(idx, entry);
    Ok(idx)
}

/// `e` after a sweep at time `now`: burnt if it was unburnt and expired
/// strictly before `now`, untouched otherwise. `burnt` never reverts.
pub open spec fn swept_entry(e: ScheduledEntry, now: u64) -> ScheduledEntry {
    if !e.burnt && e.expiry < now {
        ScheduledEntry { burnt: true, ..e }
    } else {
        e
    }
}

/// A slot after a sweep at time `now`; empty slots stay empty.
pub open spec fn swept_slot(o: Option<ScheduledEntry>, now: u64) -> Option<ScheduledEntry> {
    match o {
        Some(e) => Some(swept_entry(e, now)),
        None => None,
    }
}

/// Whether a sweep at `now` burns the entry in this slot.
pub open spec fn sweep_eligible(o: Option<ScheduledEntry>, now: u64) -> bool {
    o matches Some(e) && !e.burnt && e.expiry < now
}

/// The whole registry after a sweep at `now`, slot by slot.
pub open spec fn sweep_state(s: Seq<Option<ScheduledEntry>>, now: u64) -> Seq<
    Option<ScheduledEntry>,
> {
    Seq::new(s.len(), |k: int| swept_slot(s[k], now))
}

/// The ledger burns a sweep at `now` issues, in ascending index order.
pub open spec fn sweep_actions(s: Seq<Option<ScheduledEntry>>, now: u64) -> Seq<BurnAction>
    decreases s.len(),
{
    if s.len() == 0 {
        Seq::empty()
    } else {
        sweep_actions(s.drop_last(), now) + (if sweep_eligible(s.last(), now) {
            seq![
                BurnAction {
                    ledger: s.last()->Some_0.ledger,
                    token_id: s.last()->Some_0.token_id,
                },
            ]
        } else {
            Seq::empty()
        })
    }
}

/// Sweep idempotence: a second sweep at the same time changes nothing and
/// issues no ledger burn.
pub proof fn lemma_sweep_idempotent(s: Seq<Option<ScheduledEntry>>, now: u64)
    ensures
        sweep_state(sweep_state(s, now), now) == sweep_state(s, now),
        sweep_actions(sweep_state(s, now), now) == Seq::<BurnAction>::empty(),
    decreases s.len(),
{
    assert(sweep_state(sweep_state(s, now), now) =~= sweep_state(s, now));
    if s.len() > 0 {
        lemma_sweep_idempotent(s.drop_last(), now);
        assert(sweep_state(s, now).drop_last() =~= sweep_state(s.drop_last(), now));
        assert(!sweep_eligible(sweep_state(s, now).last(), now));
        assert(sweep_actions(sweep_state(s, now), now) =~= Seq::<BurnAction>::empty());
    }
}

/// Sweeps the whole registry: every unburnt entry whose expiry lies strictly
/// before `now` is marked burnt and its ledger burn is issued, in ascending
/// index order; entries already burnt or not yet expired, and empty slots,
/// are untouched. Repeating the call with the same `now` is a no-op.
pub fn burn_timeable_nft(registry: &mut Registry, now: u64) -> (burns: Vec<BurnAction>)
    requires
        old(registry).wf(),
    ensures
        final(registry).wf(),
        final(registry).next() == old(registry).next(),
        final(registry).entries() == sweep_state(old(registry).entries(), now),
        burns@ == sweep_actions(old(registry).entries(), now),
{
    let mut burns: Vec<BurnAction> = Vec::new();
    let total = registry.len();
    let mut i: usize = 0;
    proof {
        assert(burns@ =~= sweep_actions(old(registry).entries().take(0), now));
    }
    while i < total
        invariant
            i <= total,
            total == old(registry).entries().len(),
            registry.wf(),
            registry.next() == old(registry).next(),
            registry.entries().len() == old(registry).entries().len(),
            forall|k: int|
                0 <= k < i ==> registry.entries()[k] == swept_slot(
                    old(registry).entries()[k],
                    now,
                ),
            forall|k: int|
                i <= k < total ==> registry.entries()[k] == old(registry).entries()[k],
            burns@ == sweep_actions(old(registry).entries().take(i as int), now),
        decreases total - i,
    {
        match registry.get(i as u64) {
            Some(entry) => {
                if !entry.burnt && entry.expiry < now {
                    registry.put(
                        i as u64,
                        ScheduledEntry {
                            index: entry.index,
                            expiry: entry.expiry,
                            ledger: entry.ledger,
                            token_id: entry.token_id,
                            burnt: true,
                        },
                    );
                    burns.push(BurnAction { ledger: entry.ledger, token_id: entry.token_id });
                }
            },
            None => {},
        }
        proof {
            let pre = old(registry).entries();
            assert(pre.take(i + 1 as int).drop_last() =~= pre.take(i as int));
            assert(pre.take(i + 1 as int).last() == pre[i as int]);
            assert(burns@ =~= sweep_actions(pre.take(i + 1 as int), now));
        }
        i = i + 1;
    }
    proof {
        assert(old(registry).entries().take(total as int) =~= old(registry).entries());
        assert(registry.entries() =~= sweep_state(old(registry).entries(), now));
    }
    burns
}

/// The configured fee wallet.
pub fn get_fee_wallet(admin: &AdminConfig) -> (r: AccountId)
    ensures
        r == admin.fee_wallet,
{
    admin.fee_wallet
}

/// Admin gate: only the configured owner passes.
pub fn check_admin_account(admin: &AdminConfig, caller: AccountId) -> (r: Result<(), Error>)
    ensures
        caller == admin.owner ==> r is Ok,
        caller != admin.owner ==> r == Err::<(), Error>(Error::AdminError),
{
    if caller != admin.owner {
        Err(Error::AdminError)
    } else {
        Ok(())
    }
}

/// Changes the fee wallet. Any caller other than the owner is refused with
/// `AdminError` and nothing changes; the owner itself never changes.
pub fn change_fee_wallet(admin: &mut AdminConfig, caller: AccountId, new_wallet: AccountId) -> (r:
    Result<(), Error>)
    ensures
        caller == old(admin).owner ==> r is Ok && final(admin).owner == old(admin).owner
            && final(admin).fee_wallet == new_wallet,
        caller != old(admin).owner ==> r == Err::<(), Error>(Error::AdminError) && *final(admin)
            == *old(admin),
{
    match check_admin_account(admin, caller) {
        Err(e) => Err(e),
        Ok(()) => {
            admin.fee_wallet = new_wallet;
            Ok(())
        },
    }
}

/// Creates the registry and its admin bookkeeping: counter at zero, no
/// entries, the given owner and fee wallet.
pub fn init(owner: AccountId, fee_wallet: AccountId) -> (r: (Registry, AdminConfig))
    ensures
        r.0.wf(),
        r.0.next() == 0,
        r.0.entries() == Seq::<Option<ScheduledEntry>>::empty(),
        r.1.owner == owner,
        r.1.fee_wallet == fee_wallet,
{
    (Registry::new(), AdminConfig { owner, fee_wallet })
}

} // verus!

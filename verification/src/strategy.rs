//! Mempool strategy: which pools a pending transaction touches, in which
//! direction it moves them, and the event pipeline's decisions.
//!
//! A diff-mode prestate trace of the victim transaction yields per-account
//! storage before and after. A verified pool that appears in the
//! post-state is touched; if the trace also shows a safe token's balance
//! of that pool increasing, the victim swaps the safe token in, and the
//! pool is sandwichable with that token as the anchor.

use vstd::prelude::*;

use crate::abi::{balance_key, balance_storage_key};
use crate::honeypot::HoneypotFilter;
use crate::maps::AddrMap;
use crate::types::{Address, Event, NewBlock, PendingTx, Pool};

verus! {

/// The storage cells of one account in a diff-mode prestate trace.
pub struct AccountDiff {
    pub storage: Vec<(Vec<u8>, u128)>,
}

/// A diff-mode prestate trace: per-account storage before and after.
pub struct StateDiff {
    pub pre: Vec<(Address, AccountDiff)>,
    pub post: Vec<(Address, AccountDiff)>,
}

/// The first account entry belonging to `a`.
pub open spec fn account_entry(s: Seq<(Address, AccountDiff)>, a: Address) -> Option<AccountDiff>
    decreases s.len(),
{
    if s.len() == 0 {
        None
    } else if s[0].0 == a {
        Some(s[0].1)
    } else {
        account_entry(s.drop_first(), a)
    }
}

/// The first value stored under `key`.
pub open spec fn storage_entry(s: Seq<(Vec<u8>, u128)>, key: Seq<u8>) -> Option<u128>
    decreases s.len(),
{
    if s.len() == 0 {
        None
    } else if s[0].0@ == key {
        Some(s[0].1)
    } else {
        storage_entry(s.drop_first(), key)
    }
}

/// Whether the post-state of the trace mentions account `a`.
pub open spec fn post_touches(diff: &StateDiff, a: Address) -> bool {
    account_entry(diff.post@, a) is Some
}

/// The sandwichable signal: the traced transaction increases pool `p`'s
/// balance of safe token `s`, whose balance mapping sits at the slot
/// `slots` records.
pub open spec fn adds_safe_balance(
    diff: &StateDiff,
    slots: Map<Address, u32>,
    s: Address,
    p: Address,
) -> bool {
    &&& slots.contains_key(s)
    &&& account_entry(diff.pre@, s) is Some
    &&& account_entry(diff.post@, s) is Some
    &&& storage_entry((account_entry(diff.pre@, s)->0).storage@, balance_key(p, slots[s])) is Some
    &&& storage_entry((account_entry(diff.post@, s)->0).storage@, balance_key(p, slots[s])) is Some
    &&& storage_entry((account_entry(diff.pre@, s)->0).storage@, balance_key(p, slots[s]))->0
        < storage_entry((account_entry(diff.post@, s)->0).storage@, balance_key(p, slots[s]))->0
}

proof fn lemma_account_entry_exists(s: Seq<(Address, AccountDiff)>, a: Address)
    ensures
        account_entry(s, a) is Some <==> exists|j: int|
            0 <= j < s.len() && (#[trigger] s[j]).0 == a,
    decreases s.len(),
{
    if s.len() > 0 {
        lemma_account_entry_exists(s.drop_first(), a);
        if s[0].0 == a {
        } else {
            if account_entry(s, a) is Some {
                let j = choose|j: int| 0 <= j < s.drop_first().len() && (#[trigger] s.drop_first()[j]).0 == a;
                assert(s[j + 1].0 == a);
            }
            if exists|j: int| 0 <= j < s.len() && (#[trigger] s[j]).0 == a {
                let j = choose|j: int| 0 <= j < s.len() && (#[trigger] s[j]).0 == a;
                assert(s.drop_first()[j - 1].0 == a);
            }
        }
    }
}

/// First-match account lookup, exact against [`account_entry`].
fn find_account<'a>(list: &'a Vec<(Address, AccountDiff)>, a: Address) -> (r: Option<
    &'a AccountDiff,
>)
    ensures
        match r {
            Some(acc) => account_entry(list@, a) matches Some(x) && x == *acc,
            None => account_entry(list@, a) is None,
        },
{
    let n = list.len();
    let mut j: usize = 0;
    proof {
        assert(list@.skip(0) =~= list@);
    }
    while j < n
        invariant
            j <= n,
            n == list@.len(),
            account_entry(list@, a) == account_entry(list@.skip(j as int), a),
        decreases n - j,
    {
        proof {
            assert(list@.skip(j as int)[0] == list@[j as int]);
            assert(list@.skip(j as int).drop_first() =~= list@.skip(j + 1));
        }
        if list[j].0 == a {
            proof {
                assert(account_entry(list@.skip(j as int), a) == Some(list@[j as int].1));
            }
            return Some(&list[j].1);
        }
        j = j + 1;
    }
    None
}

/// First-match storage lookup, exact against [`storage_entry`].
fn find_storage(list: &Vec<(Vec<u8>, u128)>, key: &Vec<u8>) -> (r: Option<u128>)
    ensures
        r == storage_entry(list@, key@),
{
    let n = list.len();
    let mut j: usize = 0;
    proof {
        assert(list@.skip(0) =~= list@);
    }
    while j < n
        invariant
            j <= n,
            n == list@.len(),
            storage_entry(list@, key@) == storage_entry(list@.skip(j as int), key@),
        decreases n - j,
    {
        proof {
            assert(list@.skip(j as int)[0] == list@[j as int]);
            assert(list@.skip(j as int).drop_first() =~= list@.skip(j + 1));
        }
        if list[j].0 == *key {
            proof {
                assert(list@.skip(j as int)[0].0@ == key@);
                assert(storage_entry(list@.skip(j as int), key@) == Some(list@[j as int].1));
            }
            return Some(list[j].1);
        }
        j = j + 1;
    }
    None
}

/// Scans a traced pending transaction for touched verified pools and
/// infers per pool whether a safe token flows in. The returned map holds
/// every touched verified pool; its value names a safe anchor exactly
/// when the trace shows that anchor's pool balance increasing.
#[verifier::rlimit(100)]
pub fn get_touched_pools(
    diff: &StateDiff,
    verified_pools_map: &AddrMap<Pool>,
    honeypot_filter: &HoneypotFilter,
) -> (r: AddrMap<Option<Address>>)
    requires
        verified_pools_map.wf(),
        honeypot_filter.wf(),
    ensures
        r.wf(),
        forall|p: Address|
            #[trigger] r@.contains_key(p) <==> post_touches(diff, p)
                && verified_pools_map@.contains_key(p),
        forall|p: Address|
            r@.contains_key(p) && (#[trigger] r@[p]) is Some
                ==> honeypot_filter.safe_token_info@.contains_key(r@[p]->0) && adds_safe_balance(
                diff,
                honeypot_filter.balance_slots@,
                r@[p]->0,
                p,
            ),
        forall|p: Address, s: Address|
            r@.contains_key(p) && honeypot_filter.safe_token_info@.contains_key(s)
                && #[trigger] adds_safe_balance(diff, honeypot_filter.balance_slots@, s, p)
                ==> (#[trigger] r@[p]) is Some,
{
    let mut result: AddrMap<Option<Address>> = AddrMap::new();
    let mut touched: Vec<Address> = Vec::new();

    let n = diff.post.len();
    let mut i: usize = 0;
    while i < n
        invariant
            i <= n,
            n == diff.post@.len(),
            verified_pools_map.wf(),
            result.wf(),
            forall|p: Address|
                #[trigger] result@.contains_key(p) <==> (exists|j: int|
                    0 <= j < i && (#[trigger] diff.post@[j]).0 == p)
                    && verified_pools_map@.contains_key(p),
            forall|p: Address| #[trigger] result@.contains_key(p) ==> result@[p] is None,
            forall|k: int|
                0 <= k < touched@.len() ==> result@.contains_key(#[trigger] touched@[k]),
            forall|p: Address|
                #[trigger] result@.contains_key(p) ==> exists|k: int|
                    0 <= k < touched@.len() && touched@[k] == p,
        decreases n - i,
    {
        let acc = diff.post[i].0;
        if verified_pools_map.contains_key(&acc) && !result.contains_key(&acc) {
            let ghost pre_touched = touched@;
            let ghost pre_result = result@;
            result.insert(acc, None);
            touched.push(acc);
            proof {
                assert(diff.post@[i as int].0 == acc);
                assert forall|p: Address| #[trigger]
                    result@.contains_key(p) implies exists|k: int|
                    0 <= k < touched@.len() && touched@[k] == p by {
                    if p == acc {
                        assert(touched@[touched@.len() - 1] == p);
                    } else {
                        assert(pre_result.contains_key(p));
                        let k = choose|k: int| 0 <= k < pre_touched.len() && pre_touched[k] == p;
                        assert(touched@[k] == p);
                    }
                }
            }
        }
        i = i + 1;
    }
    proof {
        lemma_account_entry_exists(diff.post@, arbitrary());
        assert forall|p: Address| #[trigger]
            result@.contains_key(p) <==> post_touches(diff, p) && verified_pools_map@.contains_key(
            p,
        ) by {
            lemma_account_entry_exists(diff.post@, p);
        }
    }

    let ghost dom_after_scan = result@;
    let m = honeypot_filter.safe_token_info.num_entries();
    let mut si: usize = 0;
    while si < m
        invariant
            si <= m,
            m == honeypot_filter.safe_token_info.pairs().len(),
            verified_pools_map.wf(),
            honeypot_filter.wf(),
            result.wf(),
            forall|p: Address|
                #[trigger] result@.contains_key(p) <==> post_touches(diff, p)
                    && verified_pools_map@.contains_key(p),
            forall|k: int|
                0 <= k < touched@.len() ==> result@.contains_key(#[trigger] touched@[k]),
            forall|p: Address|
                #[trigger] result@.contains_key(p) ==> exists|k: int|
                    0 <= k < touched@.len() && touched@[k] == p,
            forall|p: Address|
                result@.contains_key(p) && (#[trigger] result@[p]) is Some
                    ==> honeypot_filter.safe_token_info@.contains_key(result@[p]->0)
                    && adds_safe_balance(diff, honeypot_filter.balance_slots@, result@[p]->0, p),
            forall|p: Address, k: int|
                result@.contains_key(p) && 0 <= k < si && #[trigger] adds_safe_balance(
                    diff,
                    honeypot_filter.balance_slots@,
                    (#[trigger] honeypot_filter.safe_token_info.pairs()[k]).0,
                    p,
                ) ==> result@[p] is Some,
        decreases m - si,
    {
        let safe_addr = honeypot_filter.safe_token_info.pair_at(si).0;
        proof {
            honeypot_filter.safe_token_info.lemma_pairs_agree(si as int);
        }
        let slot: u32 = match honeypot_filter.balance_slots.get(&safe_addr) {
            Some(s) => *s,
            None => vstd::pervasive::unreached(),
        };
        match find_account(&diff.pre, safe_addr) {
            None => {},
            Some(pre_acc) => {
                let tn = touched.len();
                let mut ti: usize = 0;
                while ti < tn
                    invariant
                        ti <= tn,
                        tn == touched@.len(),
                        si < m == honeypot_filter.safe_token_info.pairs().len(),
                        safe_addr == honeypot_filter.safe_token_info.pairs()[si as int].0,
                        honeypot_filter.safe_token_info@.contains_key(safe_addr),
                        honeypot_filter.balance_slots@.contains_key(safe_addr),
                        slot == honeypot_filter.balance_slots@[safe_addr],
                        account_entry(diff.pre@, safe_addr) matches Some(x) && x == *pre_acc,
                        verified_pools_map.wf(),
                        honeypot_filter.wf(),
                        result.wf(),
                        forall|p: Address|
                            #[trigger] result@.contains_key(p) <==> post_touches(diff, p)
                                && verified_pools_map@.contains_key(p),
                        forall|k: int|
                            0 <= k < touched@.len() ==> result@.contains_key(
                                #[trigger] touched@[k],
                            ),
                        forall|p: Address|
                            #[trigger] result@.contains_key(p) ==> exists|k: int|
                                0 <= k < touched@.len() && touched@[k] == p,
                        forall|p: Address|
                            result@.contains_key(p) && (#[trigger] result@[p]) is Some
                                ==> honeypot_filter.safe_token_info@.contains_key(result@[p]->0)
                                && adds_safe_balance(
                                diff,
                                honeypot_filter.balance_slots@,
                                result@[p]->0,
                                p,
                            ),
                        forall|p: Address, k: int|
                            result@.contains_key(p) && 0 <= k < si && #[trigger] adds_safe_balance(
                                diff,
                                honeypot_filter.balance_slots@,
                                (#[trigger] honeypot_filter.safe_token_info.pairs()[k]).0,
                                p,
                            ) ==> result@[p] is Some,
                        forall|k: int|
                            0 <= k < ti && #[trigger] adds_safe_balance(
                                diff,
                                honeypot_filter.balance_slots@,
                                safe_addr,
                                touched@[k],
                            ) ==> result@[touched@[k]] is Some,
                    decreases tn - ti,
                {
                    let pool = touched[ti];
                    let bal_key = balance_storage_key(&pool, slot);
                    match find_storage(&pre_acc.storage, &bal_key) {
                        None => {},
                        Some(pre_balance) => {
                            match find_account(&diff.post, safe_addr) {
                                None => {},
                                Some(post_acc) => {
                                    match find_storage(&post_acc.storage, &bal_key) {
                                        None => {},
                                        Some(post_balance) => {
                                            if pre_balance < post_balance {
                                                result.insert(pool, Some(safe_addr));
                                            }
                                        },
                                    }
                                },
                            }
                        },
                    }
                    ti = ti + 1;
                }
            },
        }
        si = si + 1;
    }
    proof {
        assert forall|p: Address, s: Address|
            result@.contains_key(p) && honeypot_filter.safe_token_info@.contains_key(s)
                && #[trigger] adds_safe_balance(
                diff,
                honeypot_filter.balance_slots@,
                s,
                p,
            ) implies (#[trigger] result@[p]) is Some by {
            honeypot_filter.safe_token_info.lemma_key_has_pair(s);
            let k = choose|k: int|
                0 <= k < honeypot_filter.safe_token_info.pairs().len()
                    && honeypot_filter.safe_token_info.pairs()[k].0 == s;
            assert(adds_safe_balance(
                diff,
                honeypot_filter.balance_slots@,
                honeypot_filter.safe_token_info.pairs()[k].0,
                p,
            ));
        }
    }
    result
}

/// The current-block context the pipeline's consumers share.
pub struct StrategyState {
    pub new_block: NewBlock,
}

/// The base-fee gate: a pending transaction is worth tracing only when
/// its fee cap can pay the current base fee.
pub fn should_process_tx(tx: &PendingTx, block: &NewBlock) -> (r: bool)
    ensures
        r == (tx.spec_max_fee() >= block.base_fee),
{
    let max_fee: u128 = match tx.max_fee_per_gas {
        Some(f) => f,
        None => 0,
    };
    max_fee >= block.base_fee
}

/// One step of the event pipeline: block events move the head-of-chain
/// context, pending transactions pass the base-fee gate or are dropped,
/// and log events are tolerated as no-ops. The returned transaction, if
/// any, is the one the caller should trace and classify.
pub fn handle_event(state: &mut StrategyState, event: Event) -> (r: Option<PendingTx>)
    ensures
        match event {
            Event::Block(b) => final(state).new_block == b && r is None,
            Event::PendingTx(tx) => *final(state) == *old(state) && (if tx.spec_max_fee() >= old(
                state,
            ).new_block.base_fee {
                r == Some(tx)
            } else {
                r is None
            }),
            Event::Log(_) => *final(state) == *old(state) && r is None,
        },
{
    match event {
        Event::Block(b) => {
            state.new_block = b;
            None
        },
        Event::PendingTx(tx) => {
            if should_process_tx(&tx, &state.new_block) {
                Some(tx)
            } else {
                None
            }
        },
        Event::Log(_) => None,
    }
}

} // verus!

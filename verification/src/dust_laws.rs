//! Which accounts a collection frees, told by what they hold.
use vstd::prelude::*;

use crate::account_laws::{due, fees_in_range, fund_has_room, law_every_slot_is_charged};
use crate::isolation_laws::lemma_fees_frame;
use crate::math::sat_u;
use crate::state::EngineState;
use crate::types::{AccountKind, MAX_ACCOUNTS};

verus! {

broadcast use crate::wide::group_wide;

/// The account in slot `j` is a user's that has no position, nothing reserved, no profit, and
/// no capital beyond the fees that it owes.
pub open spec fn can_pay_nothing(s: EngineState, j: int) -> bool {
    let a = s.accounts[j];
    let fees = due(s, j, s.current_slot) - a.fee_credits@;
    &&& s.used[j]
    &&& a.kind == AccountKind::User
    &&& a.position_size@ == 0
    &&& a.reserved_pnl == 0
    &&& a.pnl@ <= 0
    &&& a.capital@ == 0 || (s.current_slot > a.last_fee_slot && fees >= a.capital@)
}

/// How many slots after `i` slot `j` comes, going round.
pub open spec fn slots_after(i: int, j: int) -> int {
    if j >= i {
        j - i
    } else {
        j + 4096 - i
    }
}

proof fn lemma_collectable(s: EngineState, j: int)
    requires
        s.wf(),
        0 <= j < MAX_ACCOUNTS,
        fees_in_range(s, j, s.current_slot),
        fund_has_room(s),
    ensures
        s.collectable(j) == can_pay_nothing(s, j),
{
    if s.used[j] {
        law_every_slot_is_charged(s, j, s.current_slot);
    }
}

proof fn lemma_examined_elsewhere(s: EngineState, i: int, j: int)
    requires
        s.wf(),
        0 <= i < MAX_ACCOUNTS,
        0 <= j < MAX_ACCOUNTS,
    ensures
        ({
            let t = s.dust_examined(i);
            &&& t.wf()
            &&& t.used == s.used
            &&& t.num_used_accounts == s.num_used_accounts
            &&& i != j ==> t.accounts[j] == s.accounts[j] && t.collectable(j) == s.collectable(j)
        }),
{
    lemma_fees_frame(s, i, s.current_slot, 0);
}

proof fn lemma_scan_lists(s: EngineState, i: int, left: int, found: Seq<u16>, loss: int, j: int)
    requires
        s.wf(),
        0 <= i < MAX_ACCOUNTS,
        0 <= j < MAX_ACCOUNTS,
        left < 4096,
        forall|k: int| 0 <= k < found.len() ==> #[trigger] found[k] < MAX_ACCOUNTS,
    ensures
        ({
            let (t, list, _) = s.dust_scan(i, left, found, loss);
            let within = slots_after(i, j) < left;
            &&& t.wf()
            &&& t.used == s.used
            &&& t.num_used_accounts == s.num_used_accounts
            &&& forall|k: int| 0 <= k < list.len() ==> #[trigger] list[k] < MAX_ACCOUNTS
            &&& found.contains(j as u16) ==> list.contains(j as u16)
            &&& within && s.collectable(j) && list.len() < 32 ==> list.contains(j as u16)
            &&& !found.contains(j as u16) && !(within && s.collectable(j)) ==> !list.contains(
                j as u16,
            )
        }),
    decreases left,
{
    if left > 0 && found.len() < 32 {
        lemma_examined_elsewhere(s, i, j);
        let more = if s.collectable(i) {
            found.push(i as u16)
        } else {
            found
        };
        let next = (i + 1) % 4096;
        if s.collectable(i) {
            assert(more.last() == i as u16);
            if found.contains(j as u16) {
                let k = choose|k: int| 0 <= k < found.len() && found[k] == j as u16;
                assert(more[k] == j as u16);
            }
        }
        lemma_scan_lists(
            s.dust_examined(i),
            next,
            left - 1,
            more,
            sat_u(loss + s.dust_loss(i)),
            j,
        );
    }
}

proof fn lemma_freed(s: EngineState, list: Seq<u16>, k: int, j: int)
    requires
        0 <= k,
        0 <= j < MAX_ACCOUNTS,
        s.used.len() == MAX_ACCOUNTS,
        forall|m: int| 0 <= m < list.len() ==> #[trigger] list[m] < MAX_ACCOUNTS,
    ensures
        s.free_all(list, k).used[j] == (s.used[j] && !exists|m: int|
            k <= m < list.len() && #[trigger] list[m] == j),
    decreases list.len() - k,
{
    if k < list.len() {
        assert(list[k] < MAX_ACCOUNTS);
        lemma_freed(s.free_slot(list[k] as int), list, k + 1, j);
    }
}

/// A collection looks at 256 slots from its cursor on, going round, and frees those whose
/// account can pay nothing, but no more than 32; and it frees no other.
pub proof fn law_collection_frees_what_can_pay_nothing(s: EngineState, j: int)
    requires
        s.wf(),
        0 <= j < MAX_ACCOUNTS,
        s.gc_cursor < MAX_ACCOUNTS,
        fees_in_range(s, j, s.current_slot),
        fund_has_room(s),
    ensures
        ({
            let (t, freed) = s.garbage_collect_dust();
            let within = slots_after(s.gc_cursor as int, j) < 256;
            &&& within && can_pay_nothing(s, j) && freed < 32 ==> !t.used[j]
            &&& s.used[j] && !(within && can_pay_nothing(s, j)) ==> t.used[j]
            &&& !s.used[j] ==> !t.used[j]
            &&& t.gc_cursor == (s.gc_cursor + 256) % 4096
        }),
{
    lemma_collectable(s, j);
    let i = s.gc_cursor as int;
    let none = Seq::<u16>::empty();
    lemma_scan_lists(s, i, 256, none, 0, j);
    let (t, list, loss) = s.dust_scan(i, 256, none, 0);
    let u = EngineState {
        gc_cursor: ((i + 256) % 4096) as u16,
        ..t.with_dust_loss_shared(loss)
    };
    lemma_freed(u, list, 0, j);
    if list.contains(j as u16) {
        let k = choose|k: int| 0 <= k < list.len() && list[k] == j as u16;
        assert(list[k] == j);
    }
    lemma_free_keeps_cursor(u, list, 0);
}

proof fn lemma_free_keeps_cursor(s: EngineState, list: Seq<u16>, k: int)
    ensures
        s.free_all(list, k).gc_cursor == s.gc_cursor,
    decreases list.len() - k,
{
    if k < list.len() {
        lemma_free_keeps_cursor(s.free_slot(list[k] as int), list, k + 1);
    }
}

} // verus!

//! Gas scopes: which meter funds a frame, and the balances of a task.
use vstd::prelude::*;

use crate::kernel::key::{Key, KeyTable};
use crate::table::TableKey;

verus! {

/// What funds a frame: a declared meter, or (none) the budget of the host.
pub type Scope = Option<Seq<u8>>;

/// The scope of an optional meter key.
pub open spec fn scope_of(key: Option<Key>) -> Scope {
    match key {
        Some(k) => Some(k@),
        None => None,
    }
}

/// A copy of an optional key.
pub fn copy_scope(key: &Option<Key>) -> (copy: Option<Key>)
    ensures
        scope_of(copy) == scope_of(*key),
{
    match key {
        Some(k) => Some(k.duplicate()),
        None => None,
    }
}

/// Whether two optional keys are the same scope.
pub fn same_scope(a: &Option<Key>, b: &Option<Key>) -> (same: bool)
    ensures
        same == (scope_of(*a) == scope_of(*b)),
{
    match a {
        Some(x) => match b {
            Some(y) => x.same(y),
            None => false,
        },
        None => b.is_none(),
    }
}

/// The gas sources of a frame: its usable meters in order, and which one is in
/// use. Without meters the frame is funded by the host's budget.
#[derive(Debug)]
pub struct FrameGas {
    pub meters: Vec<Key>,
    pub active: Option<usize>,
}

impl FrameGas {
    /// The meter in use is one of the meters.
    pub open spec fn wf(&self) -> bool {
        self.active matches Some(i) ==> i < self.meters@.len()
    }

    /// The scope in use.
    pub open spec fn scope(&self) -> Scope {
        match self.active {
            Some(i) => if i < self.meters@.len() {
                Some(self.meters@[i as int]@)
            } else {
                None
            },
            None => None,
        }
    }

    /// Whether `self` has the meters and the scope of `other`.
    pub open spec fn same_as(&self, other: &FrameGas) -> bool {
        &&& self.active == other.active
        &&& self.meters@.len() == other.meters@.len()
        &&& forall|i: int|
            0 <= i < self.meters@.len() ==> (#[trigger] self.meters@[i])@ == other.meters@[i]@
    }

    /// Funded by the host's budget.
    pub fn host_budgeted() -> (gas: FrameGas)
        ensures
            gas.wf(),
            gas.meters@.len() == 0,
            gas.active is None,
            gas.scope() is None,
    {
        FrameGas { meters: Vec::new(), active: None }
    }

    /// Funded by `meters`, the first in use.
    pub fn declared(meters: Vec<Key>) -> (gas: FrameGas)
        requires
            meters@.len() > 0,
        ensures
            gas.wf(),
            gas.meters == meters,
            gas.active == Some(0usize),
            gas.scope() == Some(meters@[0]@),
    {
        FrameGas { meters, active: Some(0) }
    }

    /// The meter in use.
    pub fn active_key(&self) -> (key: Option<Key>)
        ensures
            scope_of(key) == self.scope(),
    {
        match self.active {
            Some(i) => if i < self.meters.len() {
                Some(self.meters[i].duplicate())
            } else {
                None
            },
            None => None,
        }
    }

    /// The first meter.
    pub fn primary_key(&self) -> (key: Option<Key>)
        ensures
            scope_of(key) == (if self.meters@.len() > 0 {
                Some(self.meters@[0]@)
            } else {
                None
            }),
    {
        if self.meters.len() > 0 {
            Some(self.meters[0].duplicate())
        } else {
            None
        }
    }

    /// Go on to the next meter, if there is one.
    pub fn advance(&mut self) -> (advanced: bool)
        ensures
            final(self).meters == old(self).meters,
            advanced == (old(self).active matches Some(i) && i + 1 < old(self).meters@.len()),
            final(self).active == (if advanced {
                Some((old(self).active->0 + 1) as usize)
            } else {
                old(self).active
            }),
            old(self).wf() ==> final(self).wf(),
    {
        match self.active {
            None => false,
            Some(i) => {
                if i < self.meters.len() && i + 1 < self.meters.len() {
                    self.active = Some(i + 1);
                    true
                } else {
                    false
                }
            },
        }
    }

    /// Go back to the first meter, if there is one.
    pub fn reset_to_primary(&mut self)
        ensures
            final(self).meters == old(self).meters,
            final(self).active == (if old(self).meters@.len() > 0 {
                Some(0usize)
            } else {
                old(self).active
            }),
            old(self).wf() ==> final(self).wf(),
    {
        if self.meters.len() > 0 {
            self.active = Some(0);
        }
    }

    /// A copy.
    pub fn duplicate(&self) -> (copy: FrameGas)
        ensures
            copy.same_as(self),
            copy.scope() == self.scope(),
            self.wf() ==> copy.wf(),
    {
        let mut meters: Vec<Key> = Vec::new();
        let mut i: usize = 0;
        while i < self.meters.len()
            invariant
                i <= self.meters@.len(),
                meters@.len() == i,
                forall|j: int| 0 <= j < i ==> (#[trigger] meters@[j])@ == self.meters@[j]@,
            decreases self.meters@.len() - i,
        {
            meters.push(self.meters[i].duplicate());
            i = i + 1;
        }
        FrameGas { meters, active: self.active }
    }
}

/// The balance of a scope: the live gas for the scope in use, else what is
/// banked for it; zero for a meter that nothing is banked for.
pub open spec fn balance_of(
    meters: Map<Seq<u8>, i64>,
    host_budget: i64,
    in_use: Scope,
    live: i64,
    scope: Scope,
) -> i64 {
    if scope == in_use {
        live
    } else {
        match scope {
            Some(k) => if meters.contains_key(k) {
                meters[k]
            } else {
                0
            },
            None => host_budget,
        }
    }
}

/// The meters after the live gas of scope `from` was banked to go over to scope `to`.
/// Where the two are the same, nothing is banked.
pub open spec fn meters_banked(
    meters: Map<Seq<u8>, i64>,
    from: Scope,
    to: Scope,
    live: i64,
) -> Map<Seq<u8>, i64> {
    match from {
        Some(k) => if from == to {
            meters
        } else {
            meters.insert(k, live)
        },
        None => meters,
    }
}

/// The host's budget after the live gas of scope `from` was banked to go over to
/// scope `to`.
pub open spec fn budget_banked(host_budget: i64, from: Scope, to: Scope, live: i64) -> i64 {
    if from is None && from != to {
        live
    } else {
        host_budget
    }
}

/// Switch the live gas from scope `old` to scope `new`: the old balance is
/// banked, the new one becomes live. Nothing changes where the two are the same.
pub fn reconcile_active(
    old_active: &Option<Key>,
    new_active: &Option<Key>,
    gas: &mut i64,
    host_budget: &mut i64,
    meters: &mut KeyTable<i64>,
)
    ensures
        forall|s: Scope| #[trigger]
            balance_of(
                final(meters)@,
                *final(host_budget),
                scope_of(*new_active),
                *final(gas),
                s,
            ) == balance_of(
                old(meters)@,
                *old(host_budget),
                scope_of(*old_active),
                *old(gas),
                s,
            ),
        final(meters)@ == meters_banked(
            old(meters)@,
            scope_of(*old_active),
            scope_of(*new_active),
            *old(gas),
        ),
        *final(host_budget) == budget_banked(
            *old(host_budget),
            scope_of(*old_active),
            scope_of(*new_active),
            *old(gas),
        ),
        scope_of(*old_active) == scope_of(*new_active) ==> *final(gas) == *old(gas),
{
    if same_scope(old_active, new_active) {
        return;
    }
    match old_active {
        Some(k) => {
            meters.insert(k.duplicate(), *gas);
        },
        None => {
            *host_budget = *gas;
        },
    }
    *gas = match new_active {
        Some(k) => match meters.get(k) {
            Some(v) => *v,
            None => 0,
        },
        None => *host_budget,
    };
}

/// The balance of scope `root`, where `current` is the scope in use.
pub fn root_remaining(
    root: &Option<Key>,
    current: &Option<Key>,
    gas: i64,
    host_budget: i64,
    meters: &KeyTable<i64>,
) -> (left: i64)
    ensures
        left == balance_of(meters@, host_budget, scope_of(*current), gas, scope_of(*root)),
{
    if same_scope(current, root) {
        gas
    } else {
        match root {
            Some(k) => match meters.get(k) {
                Some(v) => *v,
                None => 0,
            },
            None => host_budget,
        }
    }
}

/// The gas of a task. `live_gas` is the balance of the scope in use; `meters`
/// and `host_budget` hold the balances of the others.
#[derive(Debug)]
pub struct TaskGasState {
    pub meters: KeyTable<i64>,
    pub live_gas: i64,
    pub host_budget: i64,
    pub root_active: Option<Key>,
    pub current_active: Option<Key>,
}

impl TaskGasState {
    /// The balance of a scope.
    pub open spec fn balance(&self, scope: Scope) -> i64 {
        balance_of(
            self.meters@,
            self.host_budget,
            scope_of(self.current_active),
            self.live_gas,
            scope,
        )
    }

    /// The scope in use.
    pub open spec fn in_use(&self) -> Scope {
        scope_of(self.current_active)
    }

    /// The scope of the invocation as a whole.
    pub open spec fn root(&self) -> Scope {
        scope_of(self.root_active)
    }

    /// Whether `self` has the balances, root and scope in use of `before`.
    pub open spec fn same_as(&self, before: &TaskGasState) -> bool {
        &&& self.root() == before.root()
        &&& self.in_use() == before.in_use()
        &&& forall|s: Scope| #[trigger] self.balance(s) == before.balance(s)
    }

    /// Whether `self` is `before` with scope `to` in use: every balance as it was, what
    /// was live banked, and nothing changed where `to` was in use before.
    pub open spec fn switched(&self, before: &TaskGasState, to: Scope) -> bool {
        &&& self.in_use() == to
        &&& self.root() == before.root()
        &&& forall|s: Scope| #[trigger] self.balance(s) == before.balance(s)
        &&& self.meters@ == meters_banked(before.meters@, before.in_use(), to, before.live_gas)
        &&& self.host_budget == budget_banked(
            before.host_budget,
            before.in_use(),
            to,
            before.live_gas,
        )
        &&& before.in_use() == to ==> self.live_gas == before.live_gas
    }

    /// A task whose root frame is funded by `root_gas` and starts with
    /// `initial_gas`.
    pub fn new(root_gas: &FrameGas, initial_gas: i64) -> (state: TaskGasState)
        ensures
            state.root() == root_gas.scope(),
            state.in_use() == root_gas.scope(),
            state.live_gas == initial_gas,
            state.balance(root_gas.scope()) == initial_gas,
            forall|k: Seq<u8>|
                Some(k) != root_gas.scope() ==> #[trigger] state.balance(Some(k)) == 0,
            state.balance(None) == initial_gas,
            state.host_budget == initial_gas,
            state.meters@ == (match root_gas.scope() {
                Some(k) => Map::empty().insert(k, initial_gas),
                None => Map::empty(),
            }),
    {
        let root_active = root_gas.active_key();
        let mut meters: KeyTable<i64> = KeyTable::new();
        if let Some(k) = &root_active {
            meters.insert(k.duplicate(), initial_gas);
        }
        let current_active = copy_scope(&root_active);
        TaskGasState {
            meters,
            live_gas: initial_gas,
            host_budget: initial_gas,
            root_active,
            current_active,
        }
    }

    /// Make `new_active` the scope in use.
    pub fn reconcile(&mut self, new_active: Option<Key>)
        ensures
            final(self).switched(old(self), scope_of(new_active)),
    {
        reconcile_active(
            &self.current_active,
            &new_active,
            &mut self.live_gas,
            &mut self.host_budget,
            &mut self.meters,
        );
        self.current_active = new_active;
        assert forall|s: Scope| #[trigger] self.balance(s) == old(self).balance(s) by {
            assert(balance_of(
                self.meters@,
                self.host_budget,
                scope_of(self.current_active),
                self.live_gas,
                s,
            ) == balance_of(
                old(self).meters@,
                old(self).host_budget,
                scope_of(old(self).current_active),
                old(self).live_gas,
                s,
            ));
        }
    }

    /// The balance of the root scope.
    pub fn root_remaining(&self) -> (left: i64)
        ensures
            left == self.balance(self.root()),
    {
        root_remaining(
            &self.root_active,
            &self.current_active,
            self.live_gas,
            self.host_budget,
            &self.meters,
        )
    }

    /// Set a meter and return its previous balance. The meter in use is set
    /// through the live gas.
    pub fn set_meter(&mut self, key: Key, value: i64) -> (previous: i64)
        ensures
            previous == old(self).balance(Some(key@)),
            final(self).in_use() == old(self).in_use(),
            final(self).root() == old(self).root(),
            forall|s: Scope| #[trigger]
                final(self).balance(s) == if s == Some(key@) {
                    value
                } else {
                    old(self).balance(s)
                },
            final(self).live_gas == (if old(self).in_use() == Some(key@) {
                value
            } else {
                old(self).live_gas
            }),
            final(self).meters@ == (if old(self).in_use() == Some(key@) {
                old(self).meters@
            } else {
                old(self).meters@.insert(key@, value)
            }),
            final(self).host_budget == old(self).host_budget,
    {
        let active: bool = match &self.current_active {
            Some(k) => k.same(&key),
            None => false,
        };
        if active {
            let previous: i64 = self.live_gas;
            self.live_gas = value;
            previous
        } else {
            let previous: i64 = match self.meters.get(&key) {
                Some(v) => *v,
                None => 0,
            };
            self.meters.insert(key, value);
            previous
        }
    }
}

/// Switching scopes keeps every balance, so switching there and back restores
/// the live gas: gas is neither lost nor made by a change of scope.
pub proof fn law_scope_switch_keeps_balances(
    before: TaskGasState,
    during: TaskGasState,
    after: TaskGasState,
)
    requires
        forall|s: Scope| #[trigger] during.balance(s) == before.balance(s),
        forall|s: Scope| #[trigger] after.balance(s) == during.balance(s),
        after.in_use() == before.in_use(),
    ensures
        after.live_gas == before.live_gas,
        forall|s: Scope| #[trigger] after.balance(s) == before.balance(s),
{
    assert(after.balance(after.in_use()) == after.live_gas);
    assert(before.balance(before.in_use()) == before.live_gas);
}

/// Two frames that name the same meter share its balance: what one spends, the
/// other no longer has.
pub proof fn law_aliased_meter_is_shared(before: TaskGasState, spent: TaskGasState, cost: i64)
    requires
        spent.in_use() == before.in_use(),
        spent.live_gas == before.live_gas - cost,
    ensures
        spent.balance(before.in_use()) == before.balance(before.in_use()) - cost,
{
}

} // verus!

//! Balances and accounts.
use vstd::prelude::*;
use vstd::string::*;

use crate::types::ids::address_text;
use crate::types::text::{decimal, fixed_point, push_decimal, push_fixed_point};

use crate::types::ids::Address;
use crate::types::primitives::{Nonce, Quantity};

verus! {

/// The balance of one token: an available part and a part locked in open orders.
#[derive(Debug, Clone, Copy, PartialEq, Eq, Default, Structural)]
pub struct Balance {
    /// Free to withdraw or to lock for new orders.
    pub available: Quantity,
    /// Locked in open orders.
    pub locked: Quantity,
}

/// The zero balance.
pub open spec fn zero_balance() -> Balance {
    Balance { available: Quantity(0), locked: Quantity(0) }
}

/// A balance built from two scaled amounts.
pub open spec fn balance_of(available: int, locked: int) -> Balance {
    Balance { available: Quantity(available as u128), locked: Quantity(locked as u128) }
}

impl Balance {
    /// A balance with `available` free and nothing locked.
    pub fn new(available: Quantity) -> (r: Balance)
        ensures r == (Balance { available, locked: Quantity(0) }),
    {
        Balance { available, locked: Quantity::zero() }
    }

    /// The zero balance.
    pub fn zero() -> (r: Balance)
        ensures r == zero_balance(),
    {
        Balance { available: Quantity::zero(), locked: Quantity::zero() }
    }

    /// Available plus locked, clamped at the maximum quantity.
    pub fn total(&self) -> (r: Quantity)
        ensures
            r.0 == if self.available.0 + self.locked.0 <= u128::MAX {
                self.available.0 + self.locked.0
            } else {
                u128::MAX as int
            },
    {
        match self.available.checked_add(self.locked) {
            Some(t) => t,
            None => Quantity::max_value(),
        }
    }

    /// Returns `true` when nothing is available and nothing is locked.
    pub fn is_zero(&self) -> (r: bool)
        ensures r == (*self == zero_balance()),
    {
        self.available.is_zero() && self.locked.is_zero()
    }

    /// Adds to the available part; `None` on overflow.
    pub fn deposit(&self, amount: Quantity) -> (r: Option<Balance>)
        ensures
            r is Some <==> self.available.0 + amount.0 <= u128::MAX,
            r matches Some(b) ==> b == balance_of(self.available.0 + amount.0, self.locked.0 as int),
    {
        match self.available.checked_add(amount) {
            Some(a) => Some(Balance { available: a, locked: self.locked }),
            None => None,
        }
    }

    /// Takes from the available part; `None` if not enough is available.
    pub fn withdraw(&self, amount: Quantity) -> (r: Option<Balance>)
        ensures
            r is Some <==> amount.0 <= self.available.0,
            r matches Some(b) ==> b == balance_of(self.available.0 - amount.0, self.locked.0 as int),
    {
        match self.available.checked_sub(amount) {
            Some(a) => Some(Balance { available: a, locked: self.locked }),
            None => None,
        }
    }

    /// Moves an amount from available to locked; `None` if not enough is
    /// available or the locked part would overflow.
    pub fn lock(&self, amount: Quantity) -> (r: Option<Balance>)
        ensures
            r is Some <==> (amount.0 <= self.available.0 && self.locked.0 + amount.0 <= u128::MAX),
            r matches Some(b) ==> b == balance_of(self.available.0 - amount.0, self.locked.0 + amount.0),
    {
        let a = match self.available.checked_sub(amount) {
            Some(a) => a,
            None => return None,
        };
        let l = match self.locked.checked_add(amount) {
            Some(l) => l,
            None => return None,
        };
        Some(Balance { available: a, locked: l })
    }

    /// Moves an amount from locked back to available; `None` if the available
    /// part would overflow or not enough is locked.
    pub fn unlock(&self, amount: Quantity) -> (r: Option<Balance>)
        ensures
            r is Some <==> (self.available.0 + amount.0 <= u128::MAX && amount.0 <= self.locked.0),
            r matches Some(b) ==> b == balance_of(self.available.0 + amount.0, self.locked.0 - amount.0),
    {
        let a = match self.available.checked_add(amount) {
            Some(a) => a,
            None => return None,
        };
        let l = match self.locked.checked_sub(amount) {
            Some(l) => l,
            None => return None,
        };
        Some(Balance { available: a, locked: l })
    }

    /// Removes an amount from the locked part (an order was filled); `None`
    /// if not enough is locked.
    pub fn consume_locked(&self, amount: Quantity) -> (r: Option<Balance>)
        ensures
            r is Some <==> amount.0 <= self.locked.0,
            r matches Some(b) ==> b == balance_of(self.available.0 as int, self.locked.0 - amount.0),
    {
        match self.locked.checked_sub(amount) {
            Some(l) => Some(Balance { available: self.available, locked: l }),
            None => None,
        }
    }

    /// Adds trade proceeds to the available part; the same as `deposit`.
    pub fn receive(&self, amount: Quantity) -> (r: Option<Balance>)
        ensures
            r is Some <==> self.available.0 + amount.0 <= u128::MAX,
            r matches Some(b) ==> b == balance_of(self.available.0 + amount.0, self.locked.0 as int),
    {
        self.deposit(amount)
    }

    /// Returns `true` when at least `amount` is available.
    pub fn can_lock(&self, amount: Quantity) -> (r: bool)
        ensures r == (self.available.0 >= amount.0),
    {
        self.available.as_scaled() >= amount.as_scaled()
    }

    /// Returns `true` when at least `amount` is available.
    pub fn can_withdraw(&self, amount: Quantity) -> (r: bool)
        ensures r == (self.available.0 >= amount.0),
    {
        self.available.as_scaled() >= amount.as_scaled()
    }
}

/// Locking then unlocking the same amount gives the balance back, and the
/// total is unchanged by either step.
pub proof fn lemma_lock_unlock_roundtrip(b: Balance, amount: Quantity)
    requires
        amount.0 <= b.available.0,
        b.locked.0 + amount.0 <= u128::MAX,
    ensures
        ({
            let locked = balance_of(b.available.0 - amount.0, b.locked.0 + amount.0);
            &&& locked.available.0 + amount.0 <= u128::MAX
            &&& amount.0 <= locked.locked.0
            &&& balance_of(locked.available.0 + amount.0, locked.locked.0 - amount.0) == b
            &&& locked.available.0 + locked.locked.0 == b.available.0 + b.locked.0
        }),
{
}

/// Lexicographic order on byte strings of equal length, the order of `[u8; 20]`.
pub open spec fn bytes_lt(x: Seq<u8>, y: Seq<u8>) -> bool {
    exists|k: int|
        0 <= k < x.len() && k < y.len() && x[k] < y[k] && (forall|j: int| 0 <= j < k ==> x[j] == y[j])
}

/// The order of addresses: lexicographic on their bytes.
pub open spec fn address_lt(a: Address, b: Address) -> bool {
    bytes_lt(a.0@, b.0@)
}

proof fn lemma_bytes_lt_transitive(x: Seq<u8>, y: Seq<u8>, z: Seq<u8>)
    requires
        bytes_lt(x, y),
        bytes_lt(y, z),
        x.len() == y.len() == z.len(),
    ensures
        bytes_lt(x, z),
{
    let k1 = choose|k: int|
        0 <= k < x.len() && k < y.len() && x[k] < y[k] && (forall|j: int| 0 <= j < k ==> x[j] == y[j]);
    let k2 = choose|k: int|
        0 <= k < y.len() && k < z.len() && y[k] < z[k] && (forall|j: int| 0 <= j < k ==> y[j] == z[j]);
    let k = if k1 < k2 { k1 } else { k2 };
    assert(x[k] < z[k]);
    assert(forall|j: int| 0 <= j < k ==> x[j] == z[j]);
}

proof fn lemma_bytes_lt_irreflexive(x: Seq<u8>, y: Seq<u8>)
    requires
        bytes_lt(x, y),
    ensures
        x != y,
        !bytes_lt(y, x),
{
    let k1 = choose|k: int|
        0 <= k < x.len() && k < y.len() && x[k] < y[k] && (forall|j: int| 0 <= j < k ==> x[j] == y[j]);
    if bytes_lt(y, x) {
        let k2 = choose|k: int|
            0 <= k < y.len() && k < x.len() && y[k] < x[k] && (forall|j: int| 0 <= j < k ==> y[j] == x[j]);
        if k1 < k2 {
            assert(y[k1] == x[k1]);
        } else if k2 < k1 {
            assert(x[k2] == y[k2]);
        }
    }
}

/// Compares two addresses: -1, 0 or 1 as `a` is before, equal to or after `b`.
fn compare_addresses(a: &Address, b: &Address) -> (r: i8)
    ensures
        r == 0 ==> a.0@ == b.0@,
        r < 0 ==> address_lt(*a, *b),
        r > 0 ==> address_lt(*b, *a),
        -1 <= r <= 1,
{
    let mut i: usize = 0;
    while i < 20
        invariant
            0 <= i <= 20,
            forall|j: int| 0 <= j < i ==> a.0@[j] == b.0@[j],
        decreases 20 - i,
    {
        if a.0[i] < b.0[i] {
            assert(a.0@[i as int] < b.0@[i as int]);
            return -1;
        }
        if a.0[i] > b.0[i] {
            assert(b.0@[i as int] < a.0@[i as int]);
            return 1;
        }
        i = i + 1;
    }
    assert(a.0@ =~= b.0@);
    0
}

/// Keys strictly increasing in address order.
pub open spec fn strictly_sorted(s: Seq<(Address, Balance)>) -> bool {
    forall|i: int, j: int| 0 <= i < j < s.len() ==> address_lt(#[trigger] s[i].0, #[trigger] s[j].0)
}

/// `true` when some entry has key `a`.
pub open spec fn has_key(s: Seq<(Address, Balance)>, a: Address) -> bool {
    exists|j: int| 0 <= j < s.len() && s[j].0 == a
}

/// The position of key `a`.
pub open spec fn key_index(s: Seq<(Address, Balance)>, a: Address) -> int {
    choose|j: int| 0 <= j < s.len() && s[j].0 == a
}

/// The map from token to balance that a sorted list of entries stands for.
pub open spec fn entries_map(s: Seq<(Address, Balance)>) -> Map<Address, Balance> {
    Map::new(|a: Address| has_key(s, a), |a: Address| s[key_index(s, a)].1)
}

proof fn lemma_address_eq(a: Address, b: Address)
    requires
        a.0@ == b.0@,
    ensures
        a == b,
{
    assert(a.0 =~= b.0);
}

proof fn lemma_sorted_distinct(s: Seq<(Address, Balance)>, i: int, j: int)
    requires
        strictly_sorted(s),
        0 <= i < s.len(),
        0 <= j < s.len(),
        s[i].0 == s[j].0,
    ensures
        i == j,
{
    if i < j {
        lemma_bytes_lt_irreflexive(s[i].0.0@, s[j].0.0@);
    } else if j < i {
        lemma_bytes_lt_irreflexive(s[j].0.0@, s[i].0.0@);
    }
}

proof fn lemma_entries_map_at(s: Seq<(Address, Balance)>, i: int)
    requires
        strictly_sorted(s),
        0 <= i < s.len(),
    ensures
        entries_map(s).contains_key(s[i].0),
        entries_map(s)[s[i].0] == s[i].1,
{
    let a = s[i].0;
    assert(has_key(s, a));
    let k = key_index(s, a);
    lemma_sorted_distinct(s, i, k);
}

/// Updating the value at a position is inserting into the map.
proof fn lemma_entries_map_update(s: Seq<(Address, Balance)>, i: int, v: Balance)
    requires
        strictly_sorted(s),
        0 <= i < s.len(),
    ensures
        strictly_sorted(s.update(i, (s[i].0, v))),
        entries_map(s.update(i, (s[i].0, v))) =~= entries_map(s).insert(s[i].0, v),
{
    let t = s.update(i, (s[i].0, v));
    assert(strictly_sorted(t)) by {
        assert forall|p: int, q: int| 0 <= p < q < t.len() implies address_lt(#[trigger] t[p].0, #[trigger] t[q].0) by {
            assert(t[p].0 == s[p].0 && t[q].0 == s[q].0);
        }
    }
    assert forall|a: Address| #[trigger] has_key(t, a) == entries_map(s).insert(s[i].0, v).contains_key(a) by {
        if has_key(t, a) {
            let j = choose|j: int| 0 <= j < t.len() && t[j].0 == a;
            assert(s[j].0 == a);
        }
        if has_key(s, a) {
            let j = choose|j: int| 0 <= j < s.len() && s[j].0 == a;
            assert(t[j].0 == a);
        }
        if a == s[i].0 {
            assert(t[i].0 == a);
        }
    }
    assert forall|a: Address| has_key(t, a) implies #[trigger] entries_map(t)[a] == entries_map(s).insert(s[i].0, v)[a] by {
        let k = key_index(t, a);
        if a == s[i].0 {
            lemma_sorted_distinct(t, i, k);
        } else {
            assert(s[k].0 == a);
            lemma_entries_map_at(s, k);
        }
    }
}

/// Inserting a fresh key at its sorted position is inserting into the map.
proof fn lemma_entries_map_insert(s: Seq<(Address, Balance)>, i: int, a: Address, v: Balance)
    requires
        strictly_sorted(s),
        0 <= i <= s.len(),
        forall|j: int| 0 <= j < i ==> address_lt(#[trigger] s[j].0, a),
        forall|j: int| i <= j < s.len() ==> address_lt(a, #[trigger] s[j].0),
    ensures
        strictly_sorted(s.insert(i, (a, v))),
        entries_map(s.insert(i, (a, v))) =~= entries_map(s).insert(a, v),
{
    let t = s.insert(i, (a, v));
    assert(strictly_sorted(t)) by {
        assert forall|p: int, q: int| 0 <= p < q < t.len() implies address_lt(#[trigger] t[p].0, #[trigger] t[q].0) by {
            if q < i {
                assert(t[p] == s[p] && t[q] == s[q]);
            } else if q == i {
                assert(t[p] == s[p]);
            } else if p < i {
                assert(t[p] == s[p] && t[q] == s[q - 1]);
                lemma_bytes_lt_transitive(s[p].0.0@, a.0@, s[q - 1].0.0@);
            } else if p == i {
                assert(t[q] == s[q - 1]);
            } else {
                assert(t[p] == s[p - 1] && t[q] == s[q - 1]);
            }
        }
    }
    assert forall|b: Address| #[trigger] has_key(t, b) == entries_map(s).insert(a, v).contains_key(b) by {
        if has_key(t, b) {
            let j = choose|j: int| 0 <= j < t.len() && t[j].0 == b;
            if j < i {
                assert(s[j].0 == b);
            } else if j > i {
                assert(s[j - 1].0 == b);
            }
        }
        if has_key(s, b) {
            let j = choose|j: int| 0 <= j < s.len() && s[j].0 == b;
            if j < i {
                assert(t[j].0 == b);
            } else {
                assert(t[j + 1].0 == b);
            }
        }
        if b == a {
            assert(t[i].0 == a);
        }
    }
    assert forall|b: Address| has_key(t, b) implies #[trigger] entries_map(t)[b] == entries_map(s).insert(a, v)[b] by {
        let k = key_index(t, b);
        if b == a {
            lemma_sorted_distinct(t, i, k);
        } else if k < i {
            assert(t[k] == s[k]);
            lemma_entries_map_at(s, k);
        } else {
            assert(k != i);
            assert(t[k] == s[k - 1]);
            lemma_entries_map_at(s, k - 1);
        }
    }
}

/// Removing the entry at a position is removing its key from the map.
proof fn lemma_entries_map_remove(s: Seq<(Address, Balance)>, i: int)
    requires
        strictly_sorted(s),
        0 <= i < s.len(),
    ensures
        strictly_sorted(s.remove(i)),
        entries_map(s.remove(i)) =~= entries_map(s).remove(s[i].0),
{
    let t = s.remove(i);
    let a = s[i].0;
    assert(strictly_sorted(t)) by {
        assert forall|p: int, q: int| 0 <= p < q < t.len() implies address_lt(#[trigger] t[p].0, #[trigger] t[q].0) by {
            let pp = if p < i { p } else { p + 1 };
            let qq = if q < i { q } else { q + 1 };
            assert(t[p] == s[pp] && t[q] == s[qq]);
        }
    }
    assert forall|b: Address| #[trigger] has_key(t, b) == entries_map(s).remove(a).contains_key(b) by {
        if has_key(t, b) {
            let j = choose|j: int| 0 <= j < t.len() && t[j].0 == b;
            let jj = if j < i { j } else { j + 1 };
            assert(s[jj].0 == b);
            if b == a {
                lemma_sorted_distinct(s, i, jj);
            }
        }
        if has_key(s, b) && b != a {
            let j = choose|j: int| 0 <= j < s.len() && s[j].0 == b;
            if j < i {
                assert(t[j].0 == b);
            } else {
                assert(j != i);
                assert(t[j - 1].0 == b);
            }
        }
    }
    assert forall|b: Address| has_key(t, b) implies #[trigger] entries_map(t)[b] == entries_map(s).remove(a)[b] by {
        let k = key_index(t, b);
        let kk = if k < i { k } else { k + 1 };
        assert(t[k] == s[kk]);
        lemma_entries_map_at(s, kk);
    }
}

/// A trading account: balances per token and a nonce.
#[derive(Debug, Clone, PartialEq, Eq)]
pub struct Account {
    /// The owner's address.
    pub owner: Address,
    /// Balances keyed by token, sorted by token address, each token once
    /// (see [`Account::wf`]).
    pub balances: Vec<(Address, Balance)>,
    /// Orders must carry a nonce at least this large.
    pub nonce: Nonce,
}

/// The balance held of a token in a balance map, zero if none is stored.
pub open spec fn held(m: Map<Address, Balance>, token: Address) -> Balance {
    if m.contains_key(token) {
        m[token]
    } else {
        zero_balance()
    }
}

/// The balances after depositing `amount` of `token` into the available part.
pub open spec fn after_deposit(m: Map<Address, Balance>, token: Address, amount: Quantity) -> Map<Address, Balance> {
    m.insert(token, balance_of(held(m, token).available.0 + amount.0, held(m, token).locked.0 as int))
}

/// The balances after withdrawing `amount` of `token` from the available
/// part; a balance left at zero is dropped.
pub open spec fn after_withdraw(m: Map<Address, Balance>, token: Address, amount: Quantity) -> Map<Address, Balance> {
    let nb = balance_of(held(m, token).available.0 - amount.0, held(m, token).locked.0 as int);
    if nb == zero_balance() {
        m.remove(token)
    } else {
        m.insert(token, nb)
    }
}

/// Depositing an amount and withdrawing it again gives back the balances,
/// unless a zero balance was stored for the token (the withdrawal drops it).
pub proof fn lemma_deposit_withdraw_roundtrip(m: Map<Address, Balance>, token: Address, amount: Quantity)
    requires
        held(m, token).available.0 + amount.0 <= u128::MAX,
        !(m.contains_key(token) && m[token] == zero_balance()),
    ensures
        after_withdraw(after_deposit(m, token, amount), token, amount) == m,
{
    let m1 = after_deposit(m, token, amount);
    assert(held(m1, token) == balance_of(held(m, token).available.0 + amount.0, held(m, token).locked.0 as int));
    let nb = balance_of(held(m1, token).available.0 - amount.0, held(m1, token).locked.0 as int);
    assert(nb == held(m, token));
    if nb == zero_balance() {
        assert(after_withdraw(m1, token, amount) =~= m);
    } else {
        assert(after_withdraw(m1, token, amount) =~= m);
    }
}

/// Why an account operation failed.
#[derive(Debug, Clone, Copy, PartialEq, Eq, Structural)]
pub enum AccountError {
    /// Not enough available balance.
    InsufficientBalance,
    /// Not enough locked balance.
    InsufficientLockedBalance,
    /// A balance would overflow.
    BalanceOverflow,
    /// The nonce is too low.
    InvalidNonce,
}

impl Account {
    /// The balances by token.
    pub open spec fn balances(&self) -> Map<Address, Balance> {
        entries_map(self.balances@)
    }

    /// The tokens in ascending address order.
    pub open spec fn token_seq(&self) -> Seq<Address> {
        self.balances@.map_values(|e: (Address, Balance)| e.0)
    }

    /// Internal consistency: entries sorted by token address, no token twice.
    pub open spec fn wf(&self) -> bool {
        strictly_sorted(self.balances@)
    }

    /// The balance of a token, zero if the account holds none.
    pub open spec fn balance_spec(&self, token: Address) -> Balance {
        if self.balances().contains_key(token) {
            self.balances()[token]
        } else {
            zero_balance()
        }
    }

    /// The tokens are listed in ascending address order, each once, and they
    /// are exactly the tokens with a balance entry.
    pub proof fn lemma_tokens(&self)
        requires
            self.wf(),
        ensures
            forall|i: int, j: int|
                0 <= i < j < self.token_seq().len() ==> address_lt(
                    #[trigger] self.token_seq()[i],
                    #[trigger] self.token_seq()[j],
                ),
            forall|a: Address| self.balances().contains_key(a) <==> #[trigger] self.token_seq().contains(a),
            self.token_seq().len() == self.balances().dom().len(),
    {
        let s = self.balances@;
        let ts = self.token_seq();
        assert forall|a: Address| self.balances().contains_key(a) <==> #[trigger] ts.contains(a) by {
            if ts.contains(a) {
                let j = choose|j: int| 0 <= j < ts.len() && ts[j] == a;
                assert(s[j].0 == a);
            }
            if has_key(s, a) {
                let j = choose|j: int| 0 <= j < s.len() && s[j].0 == a;
                assert(ts[j] == a);
            }
        }
        assert(ts.no_duplicates()) by {
            assert forall|i: int, j: int| 0 <= i < ts.len() && 0 <= j < ts.len() && i != j implies ts[i] != ts[j] by {
                if ts[i] == ts[j] {
                    lemma_sorted_distinct(s, i, j);
                }
            }
        }
        ts.unique_seq_to_set();
        assert(ts.to_set() =~= self.balances().dom());
    }

    /// Creates an account with no balances and nonce zero.
    pub fn new(owner: Address) -> (r: Account)
        ensures
            r.wf(),
            r.owner == owner,
            r.nonce == Nonce(0),
            r.balances() == Map::<Address, Balance>::empty(),
    {
        let r = Account { owner, balances: Vec::new(), nonce: Nonce::new(0) };
        assert(r.balances() =~= Map::<Address, Balance>::empty());
        r
    }

    /// Finds the entry of a token: its position, or where it would be inserted.
    fn find(&self, token: &Address) -> (r: (usize, bool))
        requires
            self.wf(),
        ensures
            r.0 <= self.balances@.len(),
            r.1 ==> r.0 < self.balances@.len() && self.balances@[r.0 as int].0 == *token,
            !r.1 ==> (forall|j: int| 0 <= j < r.0 ==> address_lt(#[trigger] self.balances@[j].0, *token)),
            !r.1 ==> (forall|j: int| r.0 <= j < self.balances@.len() ==> address_lt(*token, #[trigger] self.balances@[j].0)),
            r.1 == self.balances().contains_key(*token),
    {
        let n = self.balances.len();
        let mut i: usize = 0;
        while i < n
            invariant
                0 <= i <= n,
                n == self.balances@.len(),
                strictly_sorted(self.balances@),
                forall|j: int| 0 <= j < i ==> address_lt(#[trigger] self.balances@[j].0, *token),
            decreases n - i,
        {
            let c = compare_addresses(&self.balances[i].0, token);
            if c == 0 {
                proof {
                    lemma_address_eq(self.balances@[i as int].0, *token);
                    lemma_entries_map_at(self.balances@, i as int);
                }
                return (i, true);
            }
            if c > 0 {
                proof {
                    assert forall|j: int| i <= j < n implies address_lt(*token, #[trigger] self.balances@[j].0) by {
                        if j > i {
                            assert(address_lt(self.balances@[i as int].0, self.balances@[j].0));
                            lemma_bytes_lt_transitive(token.0@, self.balances@[i as int].0.0@, self.balances@[j].0.0@);
                        }
                    }
                    self.lemma_absent(*token, i as int);
                }
                return (i, false);
            }
            i = i + 1;
        }
        proof { self.lemma_absent(*token, n as int); }
        (n, false)
    }

    proof fn lemma_absent(&self, token: Address, i: int)
        requires
            self.wf(),
            0 <= i <= self.balances@.len(),
            forall|j: int| 0 <= j < i ==> address_lt(#[trigger] self.balances@[j].0, token),
            forall|j: int| i <= j < self.balances@.len() ==> address_lt(token, #[trigger] self.balances@[j].0),
        ensures
            !self.balances().contains_key(token),
    {
        if has_key(self.balances@, token) {
            let j = choose|j: int| 0 <= j < self.balances@.len() && self.balances@[j].0 == token;
            if j < i {
                lemma_bytes_lt_irreflexive(self.balances@[j].0.0@, token.0@);
            } else {
                lemma_bytes_lt_irreflexive(token.0@, self.balances@[j].0.0@);
            }
        }
    }

    /// Sets the balance of a token (adding an entry if needed).
    fn put(&mut self, token: Address, b: Balance)
        requires
            old(self).wf(),
        ensures
            final(self).wf(),
            final(self).balances() == old(self).balances().insert(token, b),
            final(self).owner == old(self).owner,
            final(self).nonce == old(self).nonce,
    {
        let (i, found) = self.find(&token);
        proof {
            if found {
                lemma_entries_map_update(self.balances@, i as int, b);
                lemma_address_eq(self.balances@[i as int].0, token);
            } else {
                lemma_entries_map_insert(self.balances@, i as int, token, b);
            }
        }
        if found {
            self.balances.set(i, (token, b));
        } else {
            self.balances.insert(i, (token, b));
        }
    }

    /// Removes the entry of a token, if any.
    fn drop_token(&mut self, token: Address)
        requires
            old(self).wf(),
        ensures
            final(self).wf(),
            final(self).balances() == old(self).balances().remove(token),
            final(self).owner == old(self).owner,
            final(self).nonce == old(self).nonce,
    {
        let (i, found) = self.find(&token);
        if found {
            proof { lemma_entries_map_remove(self.balances@, i as int); }
            self.balances.remove(i);
        } else {
            assert(self.balances() =~= self.balances().remove(token));
        }
    }

    /// The balance of a token, zero if the account holds none.
    pub fn get_balance(&self, token: Address) -> (r: Balance)
        requires
            self.wf(),
        ensures
            r == self.balance_spec(token),
    {
        let (i, found) = self.find(&token);
        if found {
            proof { lemma_entries_map_at(self.balances@, i as int); }
            self.balances[i].1
        } else {
            Balance::zero()
        }
    }

    /// The available balance of a token.
    pub fn available_balance(&self, token: Address) -> (r: Quantity)
        requires
            self.wf(),
        ensures
            r == self.balance_spec(token).available,
    {
        self.get_balance(token).available
    }

    /// The locked balance of a token.
    pub fn locked_balance(&self, token: Address) -> (r: Quantity)
        requires
            self.wf(),
        ensures
            r == self.balance_spec(token).locked,
    {
        self.get_balance(token).locked
    }

    /// The total balance of a token (available plus locked, clamped).
    pub fn total_balance(&self, token: Address) -> (r: Quantity)
        requires
            self.wf(),
        ensures
            r.0 == if self.balance_spec(token).available.0 + self.balance_spec(token).locked.0
                <= u128::MAX {
                self.balance_spec(token).available.0 + self.balance_spec(token).locked.0
            } else {
                u128::MAX as int
            },
    {
        self.get_balance(token).total()
    }

    /// Deposits into the available balance of a token.
    pub fn deposit(&mut self, token: Address, amount: Quantity) -> (r: Result<(), AccountError>)
        requires
            old(self).wf(),
        ensures
            final(self).wf(),
            final(self).owner == old(self).owner,
            final(self).nonce == old(self).nonce,
            ({
                let b = old(self).balance_spec(token);
                if b.available.0 + amount.0 <= u128::MAX {
                    &&& r is Ok
                    &&& final(self).balances() == after_deposit(old(self).balances(), token, amount)
                } else {
                    &&& r == Err::<(), AccountError>(AccountError::BalanceOverflow)
                    &&& final(self).balances() == old(self).balances()
                }
            }),
    {
        let balance = self.get_balance(token);
        let new_balance = match balance.deposit(amount) {
            Some(b) => b,
            None => return Err(AccountError::BalanceOverflow),
        };
        self.put(token, new_balance);
        Ok(())
    }

    /// Withdraws from the available balance of a token; the entry is dropped
    /// when the balance becomes zero.
    pub fn withdraw(&mut self, token: Address, amount: Quantity) -> (r: Result<(), AccountError>)
        requires
            old(self).wf(),
        ensures
            final(self).wf(),
            final(self).owner == old(self).owner,
            final(self).nonce == old(self).nonce,
            ({
                let b = old(self).balance_spec(token);
                if amount.0 <= b.available.0 {
                    &&& r is Ok
                    &&& final(self).balances() == after_withdraw(old(self).balances(), token, amount)
                } else {
                    &&& r == Err::<(), AccountError>(AccountError::InsufficientBalance)
                    &&& final(self).balances() == old(self).balances()
                }
            }),
    {
        let balance = self.get_balance(token);
        let new_balance = match balance.withdraw(amount) {
            Some(b) => b,
            None => return Err(AccountError::InsufficientBalance),
        };
        if new_balance.is_zero() {
            self.drop_token(token);
        } else {
            self.put(token, new_balance);
        }
        Ok(())
    }

    /// Locks part of the available balance of a token.
    pub fn lock(&mut self, token: Address, amount: Quantity) -> (r: Result<(), AccountError>)
        requires
            old(self).wf(),
        ensures
            final(self).wf(),
            final(self).owner == old(self).owner,
            final(self).nonce == old(self).nonce,
            ({
                let b = old(self).balance_spec(token);
                if amount.0 <= b.available.0 && b.locked.0 + amount.0 <= u128::MAX {
                    &&& r is Ok
                    &&& final(self).balances() == old(self).balances().insert(
                        token,
                        balance_of(b.available.0 - amount.0, b.locked.0 + amount.0),
                    )
                } else {
                    &&& r == Err::<(), AccountError>(AccountError::InsufficientBalance)
                    &&& final(self).balances() == old(self).balances()
                }
            }),
    {
        let balance = self.get_balance(token);
        let new_balance = match balance.lock(amount) {
            Some(b) => b,
            None => return Err(AccountError::InsufficientBalance),
        };
        self.put(token, new_balance);
        Ok(())
    }

    /// Unlocks part of the locked balance of a token.
    pub fn unlock(&mut self, token: Address, amount: Quantity) -> (r: Result<(), AccountError>)
        requires
            old(self).wf(),
        ensures
            final(self).wf(),
            final(self).owner == old(self).owner,
            final(self).nonce == old(self).nonce,
            ({
                let b = old(self).balance_spec(token);
                if b.available.0 + amount.0 <= u128::MAX && amount.0 <= b.locked.0 {
                    &&& r is Ok
                    &&& final(self).balances() == old(self).balances().insert(
                        token,
                        balance_of(b.available.0 + amount.0, b.locked.0 - amount.0),
                    )
                } else {
                    &&& r == Err::<(), AccountError>(AccountError::InsufficientLockedBalance)
                    &&& final(self).balances() == old(self).balances()
                }
            }),
    {
        let balance = self.get_balance(token);
        let new_balance = match balance.unlock(amount) {
            Some(b) => b,
            None => return Err(AccountError::InsufficientLockedBalance),
        };
        self.put(token, new_balance);
        Ok(())
    }

    /// Removes filled funds from the locked balance of a token; the entry is
    /// dropped when the balance becomes zero.
    pub fn consume_locked(&mut self, token: Address, amount: Quantity) -> (r: Result<(), AccountError>)
        requires
            old(self).wf(),
        ensures
            final(self).wf(),
            final(self).owner == old(self).owner,
            final(self).nonce == old(self).nonce,
            ({
                let b = old(self).balance_spec(token);
                let nb = balance_of(b.available.0 as int, b.locked.0 - amount.0);
                if amount.0 <= b.locked.0 {
                    &&& r is Ok
                    &&& final(self).balances() == if nb == zero_balance() {
                        old(self).balances().remove(token)
                    } else {
                        old(self).balances().insert(token, nb)
                    }
                } else {
                    &&& r == Err::<(), AccountError>(AccountError::InsufficientLockedBalance)
                    &&& final(self).balances() == old(self).balances()
                }
            }),
    {
        let balance = self.get_balance(token);
        let new_balance = match balance.consume_locked(amount) {
            Some(b) => b,
            None => return Err(AccountError::InsufficientLockedBalance),
        };
        if new_balance.is_zero() {
            self.drop_token(token);
        } else {
            self.put(token, new_balance);
        }
        Ok(())
    }

    /// Receives trade proceeds; the same as `deposit`.
    pub fn receive(&mut self, token: Address, amount: Quantity) -> (r: Result<(), AccountError>)
        requires
            old(self).wf(),
        ensures
            final(self).wf(),
            final(self).owner == old(self).owner,
            final(self).nonce == old(self).nonce,
            ({
                let b = old(self).balance_spec(token);
                if b.available.0 + amount.0 <= u128::MAX {
                    &&& r is Ok
                    &&& final(self).balances() == after_deposit(old(self).balances(), token, amount)
                } else {
                    &&& r == Err::<(), AccountError>(AccountError::BalanceOverflow)
                    &&& final(self).balances() == old(self).balances()
                }
            }),
    {
        self.deposit(token, amount)
    }

    /// A nonce is valid when it is at least the account's nonce.
    pub fn is_valid_nonce(&self, nonce: Nonce) -> (r: bool)
        ensures r == (nonce.0 >= self.nonce.0),
    {
        nonce.is_valid(self.nonce)
    }

    /// Advances the account's nonce by one.
    pub fn increment_nonce(&mut self)
        requires
            old(self).nonce.0 < u64::MAX,
        ensures
            final(self).nonce.0 == old(self).nonce.0 + 1,
            final(self).owner == old(self).owner,
            final(self).balances@ == old(self).balances@,
    {
        self.nonce = self.nonce.next();
    }

    /// Sets the account's nonce.
    pub fn set_nonce(&mut self, nonce: Nonce)
        ensures
            final(self).nonce == nonce,
            final(self).owner == old(self).owner,
            final(self).balances@ == old(self).balances@,
    {
        self.nonce = nonce;
    }

    /// The tokens the account holds, in ascending address order.
    pub fn tokens(&self) -> (r: Vec<Address>)
        ensures
            r@ == self.token_seq(),
    {
        let mut out: Vec<Address> = Vec::new();
        let mut i: usize = 0;
        while i < self.balances.len()
            invariant
                0 <= i <= self.balances@.len(),
                out@ =~= self.token_seq().take(i as int),
            decreases self.balances@.len() - i,
        {
            out.push(self.balances[i].0);
            i = i + 1;
        }
        assert(self.token_seq().take(self.balances@.len() as int) =~= self.token_seq());
        out
    }

    /// The number of tokens with a balance entry.
    pub fn token_count(&self) -> (r: usize)
        requires
            self.wf(),
        ensures
            r == self.balances().dom().len(),
    {
        proof { self.lemma_tokens(); }
        self.balances.len()
    }
}


/// The text of a balance: available, locked and total amounts.
pub open spec fn balance_text(b: Balance) -> Seq<char> {
    let total = if b.available.0 + b.locked.0 <= u128::MAX { b.available.0 + b.locked.0 } else { u128::MAX as int };
    "available="@ + fixed_point(b.available.0 as nat) + ", locked="@ + fixed_point(b.locked.0 as nat) + ", total="@
        + fixed_point(total as nat)
}

/// The text of an account: owner, nonce and number of tokens held.
pub open spec fn account_text(a: Account) -> Seq<char> {
    "Account("@ + address_text(a.owner) + " nonce="@ + decimal(a.nonce.0 as nat) + " tokens="@ + decimal(
        a.balances@.len(),
    ) + ")"@
}

/// The text of an account error.
pub open spec fn account_error_text(e: AccountError) -> Seq<char> {
    match e {
        AccountError::InsufficientBalance => "insufficient available balance"@,
        AccountError::InsufficientLockedBalance => "insufficient locked balance"@,
        AccountError::BalanceOverflow => "balance overflow"@,
        AccountError::InvalidNonce => "invalid nonce"@,
    }
}

impl Balance {
    /// The text of the balance, such as `"available=100.0, locked=0.0, total=100.0"`.
    pub fn to_display_string(&self) -> (r: String)
        ensures
            r@ == balance_text(*self),
    {
        let mut s = "available=".to_owned();
        push_fixed_point(&mut s, self.available.0);
        s.append(", locked=");
        push_fixed_point(&mut s, self.locked.0);
        s.append(", total=");
        push_fixed_point(&mut s, self.total().0);
        s
    }
}

impl Account {
    /// The text of the account, such as `"Account(0x0101...0101 nonce=0 tokens=0)"`.
    pub fn to_display_string(&self) -> (r: String)
        ensures
            r@ == account_text(*self),
    {
        let mut s = "Account(".to_owned();
        s.append(self.owner.to_display_string().as_str());
        s.append(" nonce=");
        push_decimal(&mut s, self.nonce.0 as u128);
        s.append(" tokens=");
        push_decimal(&mut s, self.balances.len() as u128);
        s.append(")");
        s
    }
}

impl AccountError {
    /// The text of the error.
    pub fn message(&self) -> (r: String)
        ensures
            r@ == account_error_text(*self),
    {
        match self {
            AccountError::InsufficientBalance => "insufficient available balance".to_owned(),
            AccountError::InsufficientLockedBalance => "insufficient locked balance".to_owned(),
            AccountError::BalanceOverflow => "balance overflow".to_owned(),
            AccountError::InvalidNonce => "invalid nonce".to_owned(),
        }
    }
}

} // verus!

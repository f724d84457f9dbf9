//! The claim-token ledger: balances, allowances and total supply of the
//! pool's own fungible token. Balances and allowances are association lists
//! with unique keys; the well-formedness invariant ties the recorded total
//! supply to the sum of all balances.

use vstd::prelude::*;
use crate::address::Address;
use crate::amount::Amount;
use crate::amount::two_pow_256;
use crate::amount::u256_checked_add;
use crate::amount::u256_checked_sub;
use crate::errors::Error;

verus! {

/// No key occurs twice among the entries.
pub open spec fn entries_unique<K>(s: Seq<(K, Amount)>) -> bool {
    forall|i: int, j: int| 0 <= i < j < s.len() ==> s[i].0 != s[j].0
}

/// The value recorded under a key, zero when the key is absent.
pub open spec fn lookup<K>(s: Seq<(K, Amount)>, k: K) -> nat
    decreases s.len(),
{
    if s.len() == 0 {
        0
    } else if s.last().0 == k {
        s.last().1.val()
    } else {
        lookup(s.drop_last(), k)
    }
}

/// The sum of all recorded values.
pub open spec fn total_of<K>(s: Seq<(K, Amount)>) -> nat
    decreases s.len(),
{
    if s.len() == 0 {
        0
    } else {
        total_of(s.drop_last()) + s.last().1.val()
    }
}

/// A key that occurs nowhere looks up to zero.
proof fn lemma_lookup_absent<K>(s: Seq<(K, Amount)>, k: K)
    requires
        forall|i: int| 0 <= i < s.len() ==> s[i].0 != k,
    ensures
        lookup(s, k) == 0,
    decreases s.len(),
{
    if s.len() > 0 {
        lemma_lookup_absent(s.drop_last(), k);
    }
}

/// With unique keys, the entry at an index is what its key looks up to.
proof fn lemma_lookup_at<K>(s: Seq<(K, Amount)>, i: int)
    requires
        entries_unique(s),
        0 <= i < s.len(),
    ensures
        lookup(s, s[i].0) == s[i].1.val(),
    decreases s.len(),
{
    if i == s.len() - 1 {
    } else {
        assert(s.last().0 != s[i].0);
        lemma_lookup_at(s.drop_last(), i);
    }
}

/// No single entry exceeds the sum of all entries.
proof fn lemma_lookup_le_total<K>(s: Seq<(K, Amount)>, k: K)
    ensures
        lookup(s, k) <= total_of(s),
    decreases s.len(),
{
    if s.len() > 0 {
        lemma_lookup_le_total(s.drop_last(), k);
    }
}

/// Two entries under different keys fit together inside the sum.
proof fn lemma_two_lookups<K>(s: Seq<(K, Amount)>, k1: K, k2: K)
    requires
        k1 != k2,
    ensures
        lookup(s, k1) + lookup(s, k2) <= total_of(s),
    decreases s.len(),
{
    if s.len() > 0 {
        lemma_two_lookups(s.drop_last(), k1, k2);
        lemma_lookup_le_total(s.drop_last(), k1);
        lemma_lookup_le_total(s.drop_last(), k2);
    }
}

/// What overwriting the value at one index does: the key's entry takes the
/// new value, every other key is untouched, and the sum moves by the
/// difference.
proof fn lemma_update<K>(s: Seq<(K, Amount)>, i: int, v: Amount)
    requires
        entries_unique(s),
        0 <= i < s.len(),
    ensures
        entries_unique(s.update(i, (s[i].0, v))),
        total_of(s.update(i, (s[i].0, v))) + s[i].1.val() == total_of(s) + v.val(),
        forall|k: K|
            #[trigger] lookup(s.update(i, (s[i].0, v)), k) == if k == s[i].0 {
                v.val()
            } else {
                lookup(s, k)
            },
    decreases s.len(),
{
    let t = s.update(i, (s[i].0, v));
    assert(forall|x: int| 0 <= x < t.len() ==> #[trigger] t[x].0 == s[x].0);
    assert(entries_unique(t));
    if i == s.len() - 1 {
        assert(t.drop_last() =~= s.drop_last());
        assert(t.last() == (s[i].0, v));
        assert forall|k: K|
            #[trigger] lookup(t, k) == (if k == s[i].0 {
                v.val()
            } else {
                lookup(s, k)
            }) by {
            if k != s[i].0 {
                assert(lookup(t, k) == lookup(t.drop_last(), k));
                assert(lookup(s, k) == lookup(s.drop_last(), k));
            }
        }
    } else {
        assert(t.last() == s.last());
        assert(t.drop_last() =~= s.drop_last().update(i, (s.drop_last()[i].0, v)));
        assert(s.drop_last()[i] == s[i]);
        lemma_update(s.drop_last(), i, v);
        assert forall|k: K|
            #[trigger] lookup(t, k) == (if k == s[i].0 {
                v.val()
            } else {
                lookup(s, k)
            }) by {
            assert(s.last().0 != s[i].0);
            if k == s.last().0 {
                assert(lookup(t, k) == t.last().1.val());
            } else {
                assert(lookup(t, k) == lookup(t.drop_last(), k));
                assert(lookup(s, k) == lookup(s.drop_last(), k));
            }
        }
    }
}

/// What pushing a fresh key does: it looks up to its value, every other key
/// is untouched, uniqueness is kept and the sum grows by the value.
proof fn lemma_push<K>(s: Seq<(K, Amount)>, e: (K, Amount))
    requires
        entries_unique(s),
        forall|i: int| 0 <= i < s.len() ==> s[i].0 != e.0,
    ensures
        entries_unique(s.push(e)),
        total_of(s.push(e)) == total_of(s) + e.1.val(),
        forall|k: K|
            #[trigger] lookup(s.push(e), k) == if k == e.0 {
                e.1.val()
            } else {
                lookup(s, k)
            },
{
    let t = s.push(e);
    assert(t.drop_last() =~= s);
    assert(t.last() == e);
    assert(forall|x: int| 0 <= x < s.len() ==> #[trigger] t[x] == s[x]);
    assert forall|k: K|
        #[trigger] lookup(t, k) == (if k == e.0 {
            e.1.val()
        } else {
            lookup(s, k)
        }) by {
        if k != e.0 {
            assert(lookup(t, k) == lookup(t.drop_last(), k));
        }
    }
}

/// A well-formed ledger never records a balance above the total supply.
pub proof fn lemma_bal_le_total(t: UniswapV2ERC20, a: Address)
    requires
        t.wf(),
    ensures
        t.bal(a) <= t.total(),
{
    lemma_lookup_le_total(t.balances@, a);
}

/// Immutable metadata of the claim token, supplied at construction.
pub struct TokenMeta {
    pub name: String,
    pub symbol: String,
    pub decimals: u8,
}

pub struct UniswapV2ERC20 {
    pub meta: TokenMeta,
    pub total_supply: Amount,
    pub balances: Vec<(Address, Amount)>,
    pub allowances: Vec<((Address, Address), Amount)>,
}

impl UniswapV2ERC20 {
    /// Well-formedness: unique keys, and the recorded total supply is the
    /// sum of all balances.
    pub open spec fn wf(self) -> bool {
        &&& entries_unique(self.balances@)
        &&& entries_unique(self.allowances@)
        &&& self.total_supply.val() == total_of(self.balances@)
    }

    /// The balance recorded for an address, zero when absent.
    pub open spec fn bal(self, a: Address) -> nat {
        lookup(self.balances@, a)
    }

    /// The allowance an owner has granted a spender, zero when absent.
    pub open spec fn allow(self, owner: Address, spender: Address) -> nat {
        lookup(self.allowances@, (owner, spender))
    }

    /// The recorded total supply.
    pub open spec fn total(self) -> nat {
        self.total_supply.val()
    }

    pub fn new(meta: TokenMeta) -> (r: UniswapV2ERC20)
        ensures
            r.wf(),
            r.total() == 0,
            forall|a: Address| #[trigger] r.bal(a) == 0,
            forall|o: Address, s: Address| #[trigger] r.allow(o, s) == 0,
            r.meta == meta,
    {
        let r = UniswapV2ERC20 {
            meta,
            total_supply: Amount::zero(),
            balances: Vec::new(),
            allowances: Vec::new(),
        };
        proof {
            assert(forall|a: Address| #[trigger] lookup(r.balances@, a) == 0);
            assert(forall|o: Address, s: Address|
                #[trigger] lookup(r.allowances@, (o, s)) == 0);
        }
        r
    }

    #[allow(non_snake_case)]
    pub fn totalSupply(&self) -> (r: Amount)
        ensures
            r.val() == self.total(),
    {
        self.total_supply
    }

    pub fn name(&self) -> (r: &String)
        ensures
            r@ == self.meta.name@,
    {
        &self.meta.name
    }

    pub fn symbol(&self) -> (r: &String)
        ensures
            r@ == self.meta.symbol@,
    {
        &self.meta.symbol
    }

    pub fn decimals(&self) -> (r: u8)
        ensures
            r == self.meta.decimals,
    {
        self.meta.decimals
    }

    #[allow(non_snake_case)]
    pub fn balanceOf(&self, a: Address) -> (r: Amount)
        requires
            entries_unique(self.balances@),
        ensures
            r.val() == self.bal(a),
    {
        let v = &self.balances;
        let mut i: usize = 0;
        while i < v.len()
            invariant
                i <= v@.len(),
                entries_unique(v@),
                v@ == self.balances@,
                forall|j: int| 0 <= j < i ==> v@[j].0 != a,
            decreases v@.len() - i,
        {
            if v[i].0 == a {
                proof {
                    lemma_lookup_at(v@, i as int);
                }
                return v[i].1;
            }
            i += 1;
        }
        proof {
            lemma_lookup_absent(v@, a);
        }
        Amount::zero()
    }

    pub fn allowance(&self, owner: Address, spender: Address) -> (r: Amount)
        requires
            entries_unique(self.allowances@),
        ensures
            r.val() == self.allow(owner, spender),
    {
        let v = &self.allowances;
        let mut i: usize = 0;
        while i < v.len()
            invariant
                i <= v@.len(),
                entries_unique(v@),
                v@ == self.allowances@,
                forall|j: int| 0 <= j < i ==> v@[j].0 != (owner, spender),
            decreases v@.len() - i,
        {
            if v[i].0.0 == owner && v[i].0.1 == spender {
                proof {
                    lemma_lookup_at(v@, i as int);
                }
                return v[i].1;
            }
            i += 1;
        }
        proof {
            lemma_lookup_absent(v@, (owner, spender));
        }
        Amount::zero()
    }
}

/// Record `val` under `a`, inserting or overwriting its entry.
fn upsert_balance(v: &mut Vec<(Address, Amount)>, a: Address, val: Amount)
    requires
        entries_unique(old(v)@),
    ensures
        entries_unique(final(v)@),
        total_of(final(v)@) + lookup(old(v)@, a) == total_of(old(v)@) + val.val(),
        forall|k: Address|
            #[trigger] lookup(final(v)@, k) == if k == a {
                val.val()
            } else {
                lookup(old(v)@, k)
            },
{
    let mut i: usize = 0;
    while i < v.len()
        invariant
            i <= v@.len(),
            entries_unique(v@),
            v@ == old(v)@,
            forall|j: int| 0 <= j < i ==> v@[j].0 != a,
        decreases v@.len() - i,
    {
        if v[i].0 == a {
            proof {
                lemma_lookup_at(v@, i as int);
                lemma_update(v@, i as int, val);
            }
            v[i] = (a, val);
            return ;
        }
        i += 1;
    }
    proof {
        lemma_lookup_absent(v@, a);
        lemma_push(v@, (a, val));
    }
    v.push((a, val));
}

/// Record `val` under the owner-spender pair, inserting or overwriting.
fn upsert_allowance(v: &mut Vec<((Address, Address), Amount)>, key: (Address, Address), val: Amount)
    requires
        entries_unique(old(v)@),
    ensures
        entries_unique(final(v)@),
        forall|k: (Address, Address)|
            #[trigger] lookup(final(v)@, k) == if k == key {
                val.val()
            } else {
                lookup(old(v)@, k)
            },
{
    let mut i: usize = 0;
    while i < v.len()
        invariant
            i <= v@.len(),
            entries_unique(v@),
            v@ == old(v)@,
            forall|j: int| 0 <= j < i ==> v@[j].0 != key,
        decreases v@.len() - i,
    {
        if v[i].0.0 == key.0 && v[i].0.1 == key.1 {
            proof {
                lemma_lookup_at(v@, i as int);
                lemma_update(v@, i as int, val);
            }
            v[i] = (key, val);
            return ;
        }
        i += 1;
    }
    proof {
        lemma_lookup_absent(v@, key);
        lemma_push(v@, (key, val));
    }
    v.push((key, val));
}

impl UniswapV2ERC20 {
    /// Create `value` new units in `to`'s balance and the total supply.
    pub fn _mint(&mut self, to: Address, value: Amount)
        requires
            old(self).wf(),
            old(self).total() + value.val() < two_pow_256(),
        ensures
            final(self).wf(),
            final(self).total() == old(self).total() + value.val(),
            forall|a: Address|
                #[trigger] final(self).bal(a) == if a == to {
                    old(self).bal(a) + value.val()
                } else {
                    old(self).bal(a)
                },
            final(self).allowances@ == old(self).allowances@,
            final(self).meta == old(self).meta,
    {
        proof {
            lemma_lookup_le_total(self.balances@, to);
        }
        let b = self.balanceOf(to);
        let nb = u256_checked_add(b, value).unwrap();
        upsert_balance(&mut self.balances, to, nb);
        self.total_supply = u256_checked_add(self.total_supply, value).unwrap();
    }

    /// Destroy `value` units of `from`'s balance and the total supply;
    /// refused when the balance is too small.
    pub fn _burn(&mut self, from: Address, value: Amount) -> (r: Result<(), Error>)
        requires
            old(self).wf(),
        ensures
            final(self).wf(),
            (r is Ok) <==> old(self).bal(from) >= value.val(),
            (r matches Err(e) ==> e == Error::InsufficientBalance && *final(self) == *old(self)),
            r is Ok ==> {
                &&& final(self).total() + value.val() == old(self).total()
                &&& forall|a: Address|
                    #[trigger] final(self).bal(a) == if a == from {
                        (old(self).bal(a) - value.val()) as nat
                    } else {
                        old(self).bal(a)
                    }
            },
            final(self).allowances@ == old(self).allowances@,
            final(self).meta == old(self).meta,
    {
        proof {
            lemma_lookup_le_total(self.balances@, from);
        }
        let b = self.balanceOf(from);
        if b.lt(&value) {
            return Err(Error::InsufficientBalance);
        }
        let nb = u256_checked_sub(b, value).unwrap();
        upsert_balance(&mut self.balances, from, nb);
        self.total_supply = u256_checked_sub(self.total_supply, value).unwrap();
        Ok(())
    }

    /// Record `value` as the allowance the owner grants the spender.
    pub fn _approve(&mut self, owner: Address, spender: Address, value: Amount)
        requires
            old(self).wf(),
        ensures
            final(self).wf(),
            forall|o: Address, s: Address|
                #[trigger] final(self).allow(o, s) == if o == owner && s == spender {
                    value.val()
                } else {
                    old(self).allow(o, s)
                },
            final(self).balances@ == old(self).balances@,
            final(self).total() == old(self).total(),
            final(self).meta == old(self).meta,
    {
        upsert_allowance(&mut self.allowances, (owner, spender), value);
    }

    /// Overwrite the allowance the caller grants the spender.
    pub fn approve(&mut self, sender: Address, spender: Address, value: Amount) -> (r: Result<
        bool,
        Error,
    >)
        requires
            old(self).wf(),
        ensures
            final(self).wf(),
            r == Ok::<bool, Error>(true),
            forall|o: Address, s: Address|
                #[trigger] final(self).allow(o, s) == if o == sender && s == spender {
                    value.val()
                } else {
                    old(self).allow(o, s)
                },
            final(self).balances@ == old(self).balances@,
            final(self).total() == old(self).total(),
            final(self).meta == old(self).meta,
    {
        self._approve(sender, spender, value);
        Ok(true)
    }

    /// Move `value` from the caller's balance to `to`; refused when the
    /// caller's balance is too small.
    pub fn transfer(&mut self, sender: Address, to: Address, value: Amount) -> (r: Result<
        bool,
        Error,
    >)
        requires
            old(self).wf(),
        ensures
            final(self).wf(),
            (r is Ok) <==> old(self).bal(sender) >= value.val(),
            r is Ok ==> r == Ok::<bool, Error>(true),
            (r matches Err(e) ==> e == Error::InsufficientBalance && *final(self) == *old(self)),
            r is Ok ==> forall|a: Address|
                #[trigger] final(self).bal(a) == if sender == to {
                    old(self).bal(a)
                } else if a == sender {
                    (old(self).bal(a) - value.val()) as nat
                } else if a == to {
                    old(self).bal(a) + value.val()
                } else {
                    old(self).bal(a)
                },
            final(self).total() == old(self).total(),
            final(self).allowances@ == old(self).allowances@,
            final(self).meta == old(self).meta,
    {
        proof {
            if sender != to {
                lemma_two_lookups(self.balances@, sender, to);
            }
            lemma_lookup_le_total(self.balances@, sender);
            crate::amount::lemma_val_parts(self.total_supply);
        }
        let b = self.balanceOf(sender);
        if b.lt(&value) {
            return Err(Error::InsufficientBalance);
        }
        let nb = u256_checked_sub(b, value).unwrap();
        upsert_balance(&mut self.balances, sender, nb);
        proof {
            lemma_lookup_le_total(self.balances@, to);
        }
        let tb = self.balanceOf(to);
        let ntb = u256_checked_add(tb, value).unwrap();
        upsert_balance(&mut self.balances, to, ntb);
        Ok(true)
    }

    /// Spend `value` of the allowance `from` granted the caller and move it
    /// from `from` to `to`; refused when the allowance or the balance is
    /// too small, in that order.
    #[allow(non_snake_case)]
    pub fn transferFrom(&mut self, sender: Address, from: Address, to: Address, value: Amount) -> (r:
        Result<bool, Error>)
        requires
            old(self).wf(),
        ensures
            final(self).wf(),
            (r is Ok) <==> (old(self).allow(from, sender) >= value.val() && old(self).bal(from)
                >= value.val()),
            r is Ok ==> r == Ok::<bool, Error>(true),
            (r matches Err(e) ==> *final(self) == *old(self) && e == (
            if old(self).allow(from, sender) < value.val() {
                Error::InsufficientAllowance
            } else {
                Error::InsufficientBalance
            })),
            r is Ok ==> {
                &&& forall|o: Address, s: Address|
                    #[trigger] final(self).allow(o, s) == if o == from && s == sender {
                        (old(self).allow(o, s) - value.val()) as nat
                    } else {
                        old(self).allow(o, s)
                    }
                &&& forall|a: Address|
                    #[trigger] final(self).bal(a) == if from == to {
                        old(self).bal(a)
                    } else if a == from {
                        (old(self).bal(a) - value.val()) as nat
                    } else if a == to {
                        old(self).bal(a) + value.val()
                    } else {
                        old(self).bal(a)
                    }
            },
            final(self).total() == old(self).total(),
            final(self).meta == old(self).meta,
    {
        let al = self.allowance(from, sender);
        if al.lt(&value) {
            return Err(Error::InsufficientAllowance);
        }
        let b = self.balanceOf(from);
        if b.lt(&value) {
            return Err(Error::InsufficientBalance);
        }
        let nal = u256_checked_sub(al, value).unwrap();
        self._approve(from, sender, nal);
        let ghost mid = *self;
        let r = self.transfer(from, to, value);
        proof {
            assert(r is Ok);
            assert(self.allowances@ == mid.allowances@);
            assert forall|o: Address, s2: Address|
                #[trigger] self.allow(o, s2) == (if o == from && s2 == sender {
                    (old(self).allow(o, s2) - value.val()) as nat
                } else {
                    old(self).allow(o, s2)
                }) by {
                assert(self.allow(o, s2) == mid.allow(o, s2));
            }
            assert forall|a: Address|
                #[trigger] self.bal(a) == (if from == to {
                    old(self).bal(a)
                } else if a == from {
                    (old(self).bal(a) - value.val()) as nat
                } else if a == to {
                    old(self).bal(a) + value.val()
                } else {
                    old(self).bal(a)
                }) by {
                assert(mid.bal(a) == old(self).bal(a));
            }
        }
        Ok(true)
    }
}

} // verus!

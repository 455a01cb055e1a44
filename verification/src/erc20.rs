//! The ERC-20 pallet: accounts issue tokens, move balances of them, and let
//! other accounts spend an allowance on their behalf.
use crate::dispatch::{ensure_signed, signer, Origin};
use std::collections::BTreeMap;
use vstd::prelude::*;

verus! {

broadcast use {vstd::std_specs::btree::group_btree_axioms, vstd::laws_cmp::group_laws_cmp};

/// An issued token.
#[derive(Clone, Debug, Default, PartialEq)]
pub struct Erc20Token<U> {
    pub name: Vec<u8>,
    pub ticker: Vec<u8>,
    pub total_supply: U,
}

/// The longest token name accepted, in bytes.
pub const MAX_NAME_LEN: usize = 64;

/// The longest token ticker accepted, in bytes.
pub const MAX_TICKER_LEN: usize = 32;

/// Why a token call was refused.
#[derive(Clone, Copy, Debug, PartialEq, Eq, Structural)]
pub enum Error {
    /// The call was not signed by an account.
    BadOrigin,
    /// "token name cannot exceed 64 bytes"
    NameTooLong,
    /// "token ticker cannot exceed 32 bytes"
    TickerTooLong,
    /// "overflow in calculating next token id"
    TokenIdOverflow,
    /// "Allowance does not exist."
    AllowanceNotExist,
    /// "Not enough allowance."
    NotEnoughAllowance,
    /// "overflow in calculating allowance"
    AllowanceOverflow,
    /// "Account does not own this token"
    NotTokenOwner,
    /// "Not enough balance."
    NotEnoughBalance,
    /// "overflow in calculating balance"
    BalanceOverflow,
}

/// What the pallet reports of a call that went through.
#[derive(Clone, Copy, Debug, PartialEq, Eq, Structural)]
pub enum Event {
    /// (token, from, to, value)
    Transfer(u32, u64, u64, u64),
    /// (token, owner, spender, value)
    Approval(u32, u64, u64, u64),
}

/// The balance stored under `key`, or 0 where none is stored.
pub open spec fn amount_or_zero<K>(m: Map<K, u64>, key: K) -> u64 {
    if m.contains_key(key) {
        m[key]
    } else {
        0
    }
}

/// Why moving `value` of token `token_id` from `from` to `to` is refused, if it is.
pub open spec fn transfer_refusal(
    balances: Map<(u32, u64), u64>,
    token_id: u32,
    from: u64,
    to: u64,
    value: u64,
) -> Option<Error> {
    if !balances.contains_key((token_id, from)) {
        Some(Error::NotTokenOwner)
    } else if balances[(token_id, from)] < value {
        Some(Error::NotEnoughBalance)
    } else if amount_or_zero(balances, (token_id, to)) + value > u64::MAX {
        Some(Error::BalanceOverflow)
    } else {
        None
    }
}

/// The balances after a transfer: the sender's balance lowered by `value`,
/// then the receiver's balance, as it was read before, raised by `value`.
/// Where sender and receiver are one account, the second write wins.
pub open spec fn transferred(
    balances: Map<(u32, u64), u64>,
    token_id: u32,
    from: u64,
    to: u64,
    value: u64,
) -> Map<(u32, u64), u64> {
    balances.insert((token_id, from), (balances[(token_id, from)] - value) as u64).insert(
        (token_id, to),
        (amount_or_zero(balances, (token_id, to)) + value) as u64,
    )
}

/// The sum of the balances of token `t` held by `accounts`.
pub open spec fn total_of(balances: Map<(u32, u64), u64>, t: u32, accounts: Seq<u64>) -> int
    decreases accounts.len(),
{
    if accounts.len() == 0 {
        0
    } else {
        total_of(balances, t, accounts.drop_last()) + amount_or_zero(balances, (t, accounts.last()))
    }
}

/// Where two balance maps agree on token `t` for every account but `x` and
/// `y`, their totals over distinct `accounts` differ by what changed at `x`
/// and `y`, for those of the two that `accounts` holds.
proof fn lemma_total_difference(
    b1: Map<(u32, u64), u64>,
    b2: Map<(u32, u64), u64>,
    t: u32,
    accounts: Seq<u64>,
    x: u64,
    y: u64,
)
    requires
        x != y,
        accounts.no_duplicates(),
        forall|a: u64| a != x && a != y ==> amount_or_zero(b1, (t, a)) == amount_or_zero(b2, (t, a)),
    ensures
        total_of(b2, t, accounts) - total_of(b1, t, accounts) == (if accounts.contains(x) {
            amount_or_zero(b2, (t, x)) - amount_or_zero(b1, (t, x))
        } else {
            0
        }) + (if accounts.contains(y) {
            amount_or_zero(b2, (t, y)) - amount_or_zero(b1, (t, y))
        } else {
            0
        }),
    decreases accounts.len(),
{
    if accounts.len() > 0 {
        let rest = accounts.drop_last();
        let last = accounts.last();
        assert(rest.no_duplicates()) by {
            assert forall|i: int, j: int| 0 <= i < rest.len() && 0 <= j < rest.len() && i != j implies rest[i]
                != rest[j] by {
                assert(rest[i] == accounts[i] && rest[j] == accounts[j]);
            }
        }
        lemma_total_difference(b1, b2, t, rest, x, y);
        assert forall|z: u64| #[trigger] accounts.contains(z) <==> rest.contains(z) || last == z by {
            if accounts.contains(z) && last != z {
                let i = choose|i: int| 0 <= i < accounts.len() && accounts[i] == z;
                assert(i < accounts.len() - 1);
                assert(rest[i] == z);
            }
            if rest.contains(z) {
                let i = choose|i: int| 0 <= i < rest.len() && rest[i] == z;
                assert(accounts[i] == z);
            }
            if last == z {
                assert(accounts[accounts.len() - 1] == z);
            }
        }
        assert(!rest.contains(last)) by {
            if rest.contains(last) {
                let i = choose|i: int| 0 <= i < rest.len() && rest[i] == last;
                assert(accounts[i] == accounts[accounts.len() - 1]);
            }
        }
    }
}

/// A transfer between two different accounts keeps the total of the token's
/// balances over every list of distinct accounts that holds both of them or
/// neither; the totals of other tokens do not move at all.
pub proof fn lemma_transfer_keeps_total(
    balances: Map<(u32, u64), u64>,
    token_id: u32,
    from: u64,
    to: u64,
    value: u64,
    accounts: Seq<u64>,
)
    requires
        transfer_refusal(balances, token_id, from, to, value) is None,
        from != to,
        accounts.no_duplicates(),
        accounts.contains(from) == accounts.contains(to),
    ensures
        total_of(transferred(balances, token_id, from, to, value), token_id, accounts) == total_of(
            balances,
            token_id,
            accounts,
        ),
        forall|t: u32|
            t != token_id ==> #[trigger] total_of(
                transferred(balances, token_id, from, to, value),
                t,
                accounts,
            ) == total_of(balances, t, accounts),
{
    let after = transferred(balances, token_id, from, to, value);
    lemma_total_difference(balances, after, token_id, accounts, from, to);
    assert forall|t: u32| t != token_id implies #[trigger] total_of(after, t, accounts) == total_of(
        balances,
        t,
        accounts,
    ) by {
        lemma_total_difference(balances, after, t, accounts, from, to);
    }
}

/// The state of the pallet.
pub struct Module {
    token_id: u32,
    tokens: BTreeMap<u32, Erc20Token<u64>>,
    balances: BTreeMap<(u32, u64), u64>,
    allowances: BTreeMap<(u32, u64, u64), u64>,
    events: Vec<Event>,
}

impl Module {
    /// The id the next token gets.
    pub closed spec fn token_id_view(&self) -> u32 {
        self.token_id
    }

    /// The issued tokens, by id.
    pub closed spec fn tokens_view(&self) -> Map<u32, Erc20Token<u64>> {
        self.tokens@
    }

    /// The stored balances, by token and account.
    pub closed spec fn balances_view(&self) -> Map<(u32, u64), u64> {
        self.balances@
    }

    /// The stored allowances, by token, owner and spender.
    pub closed spec fn allowances_view(&self) -> Map<(u32, u64, u64), u64> {
        self.allowances@
    }

    /// The events reported so far, oldest first.
    pub closed spec fn events_view(&self) -> Seq<Event> {
        self.events@
    }

    /// The tokens are those with an id below the next one, and every stored
    /// balance and allowance is of an issued token.
    pub closed spec fn wf(&self) -> bool {
        &&& forall|t: u32| #[trigger] self.tokens@.contains_key(t) <==> t < self.token_id
        &&& forall|k: (u32, u64)| #[trigger] self.balances@.contains_key(k) ==> k.0 < self.token_id
        &&& forall|k: (u32, u64, u64)| #[trigger]
            self.allowances@.contains_key(k) ==> k.0 < self.token_id
    }

    /// `other` holds the same tokens, balances, allowances and events as `self`.
    pub open spec fn same_state(&self, other: &Self) -> bool {
        &&& self.token_id_view() == other.token_id_view()
        &&& self.tokens_view() == other.tokens_view()
        &&& self.balances_view() == other.balances_view()
        &&& self.allowances_view() == other.allowances_view()
        &&& self.events_view() == other.events_view()
    }

    /// A pallet with no tokens.
    pub fn new() -> (r: Self)
        ensures
            r.wf(),
            r.token_id_view() == 0,
            r.tokens_view() == Map::<u32, Erc20Token<u64>>::empty(),
            r.balances_view() == Map::<(u32, u64), u64>::empty(),
            r.allowances_view() == Map::<(u32, u64, u64), u64>::empty(),
            r.events_view() == Seq::<Event>::empty(),
    {
        Module {
            token_id: 0,
            tokens: BTreeMap::new(),
            balances: BTreeMap::new(),
            allowances: BTreeMap::new(),
            events: Vec::new(),
        }
    }

    /// Every stored balance and allowance is of an issued token.
    pub proof fn lemma_only_issued_tokens(&self)
        requires
            self.wf(),
        ensures
            forall|t: u32| #[trigger] self.tokens_view().contains_key(t) <==> t < self.token_id_view(),
            forall|k: (u32, u64)| #[trigger]
                self.balances_view().contains_key(k) ==> self.tokens_view().contains_key(k.0),
            forall|k: (u32, u64, u64)| #[trigger]
                self.allowances_view().contains_key(k) ==> self.tokens_view().contains_key(k.0),
    {
        assert forall|k: (u32, u64)| #[trigger]
            self.balances_view().contains_key(k) implies self.tokens_view().contains_key(k.0) by {
            assert(self.tokens@.contains_key(k.0));
        }
        assert forall|k: (u32, u64, u64)| #[trigger]
            self.allowances_view().contains_key(k) implies self.tokens_view().contains_key(k.0) by {
            assert(self.tokens@.contains_key(k.0));
        }
    }

    /// The id the next token gets.
    pub fn token_id(&self) -> (r: u32)
        ensures
            r == self.token_id_view(),
    {
        self.token_id
    }

    /// The details of token `id`; an empty token where none was issued.
    pub fn token_details(&self, id: u32) -> (r: Erc20Token<u64>)
        ensures
            self.tokens_view().contains_key(id) ==> {
                &&& r.name@ == self.tokens_view()[id].name@
                &&& r.ticker@ == self.tokens_view()[id].ticker@
                &&& r.total_supply == self.tokens_view()[id].total_supply
            },
            !self.tokens_view().contains_key(id) ==> r.name@.len() == 0 && r.ticker@.len() == 0
                && r.total_supply == 0,
    {
        match self.tokens.get(&id) {
            Some(t) => Erc20Token {
                name: t.name.clone(),
                ticker: t.ticker.clone(),
                total_supply: t.total_supply,
            },
            None => Erc20Token { name: Vec::new(), ticker: Vec::new(), total_supply: 0 },
        }
    }

    /// The balance of `key.1` in token `key.0`; 0 where none is stored.
    pub fn balance_of(&self, key: (u32, u64)) -> (r: u64)
        ensures
            r == amount_or_zero(self.balances_view(), key),
    {
        match self.balances.get(&key) {
            Some(b) => *b,
            None => 0,
        }
    }

    /// Whether a balance of `key.1` in token `key.0` is stored.
    pub fn has_balance(&self, key: (u32, u64)) -> (r: bool)
        ensures
            r == self.balances_view().contains_key(key),
    {
        self.balances.contains_key(&key)
    }

    /// What `key.2` may still spend of the balance of `key.1` in token `key.0`;
    /// 0 where nothing is stored.
    pub fn allowance(&self, key: (u32, u64, u64)) -> (r: u64)
        ensures
            r == amount_or_zero(self.allowances_view(), key),
    {
        match self.allowances.get(&key) {
            Some(a) => *a,
            None => 0,
        }
    }

    /// The events reported so far.
    pub fn events(&self) -> (r: &Vec<Event>)
        ensures
            r@ == self.events_view(),
    {
        &self.events
    }

    /// Reports `event`.
    fn deposit_event(&mut self, event: Event)
        ensures
            final(self).token_id_view() == old(self).token_id_view(),
            final(self).tokens_view() == old(self).tokens_view(),
            final(self).balances_view() == old(self).balances_view(),
            final(self).allowances_view() == old(self).allowances_view(),
            final(self).events_view() == old(self).events_view().push(event),
    {
        self.events.push(event);
    }

    /// Issues a token named `name` with ticker `ticker` under the next id; the
    /// signer of `origin` gets its whole supply.
    pub fn init(&mut self, origin: Origin, name: Vec<u8>, ticker: Vec<u8>, total_supply: u64) -> (r:
        Result<(), Error>)
        requires
            old(self).wf(),
        ensures
            final(self).wf(),
            match signer(origin) {
                None => r == Err::<(), Error>(Error::BadOrigin) && final(self).same_state(&*old(self)),
                Some(sender) => if name@.len() > MAX_NAME_LEN {
                    r == Err::<(), Error>(Error::NameTooLong) && final(self).same_state(&*old(self))
                } else if ticker@.len() > MAX_TICKER_LEN {
                    r == Err::<(), Error>(Error::TickerTooLong) && final(self).same_state(&*old(self))
                } else if old(self).token_id_view() == u32::MAX {
                    r == Err::<(), Error>(Error::TokenIdOverflow) && final(self).same_state(&*old(self))
                } else {
                    let id = old(self).token_id_view();
                    &&& r == Ok::<(), Error>(())
                    &&& final(self).token_id_view() == id + 1
                    &&& final(self).tokens_view() == old(self).tokens_view().insert(
                        id,
                        Erc20Token { name, ticker, total_supply },
                    )
                    &&& final(self).balances_view() == old(self).balances_view().insert(
                        (id, sender),
                        total_supply,
                    )
                    &&& final(self).allowances_view() == old(self).allowances_view()
                    &&& final(self).events_view() == old(self).events_view()
                },
            },
    {
        let sender = match ensure_signed(origin) {
            Ok(who) => who,
            Err(_) => return Err(Error::BadOrigin),
        };
        if name.len() > MAX_NAME_LEN {
            return Err(Error::NameTooLong);
        }
        if ticker.len() > MAX_TICKER_LEN {
            return Err(Error::TickerTooLong);
        }
        let token_id = self.token_id;
        let next_token_id = match token_id.checked_add(1) {
            Some(n) => n,
            None => return Err(Error::TokenIdOverflow),
        };
        self.token_id = next_token_id;
        let token = Erc20Token { name, ticker, total_supply };
        self.tokens.insert(token_id, token);
        self.balances.insert((token_id, sender), total_supply);
        Ok(())
    }

    /// Moves `value` of token `token_id` from the signer of `origin` to `to`.
    pub fn transfer(&mut self, origin: Origin, token_id: u32, to: u64, value: u64) -> (r: Result<
        (),
        Error,
    >)
        requires
            old(self).wf(),
        ensures
            final(self).wf(),
            match signer(origin) {
                None => r == Err::<(), Error>(Error::BadOrigin) && final(self).same_state(&*old(self)),
                Some(sender) => final(self).transfer_done(&*old(self), r, token_id, sender, to, value),
            },
    {
        let sender = match ensure_signed(origin) {
            Ok(who) => who,
            Err(_) => return Err(Error::BadOrigin),
        };
        self._transfer(token_id, sender, to, value)
    }

    /// `self` and `r` are what moving `value` of token `token_id` from `from`
    /// to `to` makes of `other`: the refusal with nothing changed, or the new
    /// balances and a `Transfer` event.
    pub open spec fn transfer_done(
        &self,
        other: &Self,
        r: Result<(), Error>,
        token_id: u32,
        from: u64,
        to: u64,
        value: u64,
    ) -> bool {
        match transfer_refusal(other.balances_view(), token_id, from, to, value) {
            Some(e) => r == Err::<(), Error>(e) && self.same_state(other),
            None => {
                &&& r == Ok::<(), Error>(())
                &&& self.balances_view() == transferred(
                    other.balances_view(),
                    token_id,
                    from,
                    to,
                    value,
                )
                &&& self.events_view() == other.events_view().push(
                    Event::Transfer(token_id, from, to, value),
                )
                &&& self.token_id_view() == other.token_id_view()
                &&& self.tokens_view() == other.tokens_view()
                &&& self.allowances_view() == other.allowances_view()
            },
        }
    }

    /// Moves `value` of token `token_id` from `from` to `to`. Between two
    /// different accounts the sum of their balances stays the same.
    pub fn _transfer(&mut self, token_id: u32, from: u64, to: u64, value: u64) -> (r: Result<
        (),
        Error,
    >)
        requires
            old(self).wf(),
        ensures
            final(self).wf(),
            final(self).transfer_done(&*old(self), r, token_id, from, to, value),
            r is Ok && from != to ==> amount_or_zero(final(self).balances_view(), (token_id, from))
                + amount_or_zero(final(self).balances_view(), (token_id, to)) == amount_or_zero(
                old(self).balances_view(),
                (token_id, from),
            ) + amount_or_zero(old(self).balances_view(), (token_id, to)),
            // The move goes through exactly where `from` holds a balance of the
            // token that covers `value` and the receiver's balance can take it.
            r is Ok <==> old(self).balances_view().contains_key((token_id, from))
                && old(self).balances_view()[(token_id, from)] >= value && amount_or_zero(
                old(self).balances_view(),
                (token_id, to),
            ) + value <= u64::MAX,
            r is Ok && from != to ==> {
                &&& final(self).balances_view()[(token_id, from)] == old(self).balances_view()[(
                    token_id,
                    from,
                )] - value
                &&& final(self).balances_view()[(token_id, to)] == amount_or_zero(
                    old(self).balances_view(),
                    (token_id, to),
                ) + value
            },
            r is Ok && from == to ==> final(self).balances_view()[(token_id, from)]
                == old(self).balances_view()[(token_id, from)] + value,
            r is Ok ==> final(self).balances_view().dom() == old(self).balances_view().dom().insert(
                (token_id, to),
            ),
            forall|k: (u32, u64)|
                k != (token_id, from) && k != (token_id, to) && #[trigger] old(
                    self,
                ).balances_view().contains_key(k) ==> final(self).balances_view()[k] == old(
                    self,
                ).balances_view()[k],
            r is Err ==> final(self).same_state(&*old(self)),
    {
        if !self.balances.contains_key(&(token_id, from)) {
            return Err(Error::NotTokenOwner);
        }
        let sender_balance = self.balance_of((token_id, from));
        if sender_balance < value {
            return Err(Error::NotEnoughBalance);
        }
        let updated_from_balance = sender_balance - value;
        let receiver_balance = self.balance_of((token_id, to));
        let updated_to_balance = match receiver_balance.checked_add(value) {
            Some(b) => b,
            None => return Err(Error::BalanceOverflow),
        };
        self.balances.insert((token_id, from), updated_from_balance);
        self.balances.insert((token_id, to), updated_to_balance);
        self.deposit_event(Event::Transfer(token_id, from, to, value));
        Ok(())
    }

    /// Lets the allowance that `from` gave `to` pay for moving `value` of token
    /// `token_id` from `from` to `to`. Any origin may call it. The allowance is
    /// lowered and an `Approval` event reported before the balances are
    /// checked; a refused move keeps both.
    pub fn transfer_from(
        &mut self,
        _origin: Origin,
        token_id: u32,
        from: u64,
        to: u64,
        value: u64,
    ) -> (r: Result<(), Error>)
        requires
            old(self).wf(),
        ensures
            final(self).wf(),
            ({
                let key = (token_id, from, to);
                if !old(self).allowances_view().contains_key(key) {
                    r == Err::<(), Error>(Error::AllowanceNotExist) && final(self).same_state(
                        &*old(self),
                    )
                } else if old(self).allowances_view()[key] < value {
                    r == Err::<(), Error>(Error::NotEnoughAllowance) && final(self).same_state(
                        &*old(self),
                    )
                } else {
                    let approved = old(self).events_view().push(
                        Event::Approval(token_id, from, to, value),
                    );
                    &&& final(self).allowances_view() == old(self).allowances_view().insert(
                        key,
                        (old(self).allowances_view()[key] - value) as u64,
                    )
                    &&& final(self).token_id_view() == old(self).token_id_view()
                    &&& final(self).tokens_view() == old(self).tokens_view()
                    &&& match transfer_refusal(old(self).balances_view(), token_id, from, to, value) {
                        Some(e) => {
                            &&& r == Err::<(), Error>(e)
                            &&& final(self).balances_view() == old(self).balances_view()
                            &&& final(self).events_view() == approved
                        },
                        None => {
                            &&& r == Ok::<(), Error>(())
                            &&& final(self).balances_view() == transferred(
                                old(self).balances_view(),
                                token_id,
                                from,
                                to,
                                value,
                            )
                            &&& final(self).events_view() == approved.push(
                                Event::Transfer(token_id, from, to, value),
                            )
                        },
                    }
                }
            }),
    {
        if !self.allowances.contains_key(&(token_id, from, to)) {
            return Err(Error::AllowanceNotExist);
        }
        let allowance = self.allowance((token_id, from, to));
        if allowance < value {
            return Err(Error::NotEnoughAllowance);
        }
        let updated_allowance = allowance - value;
        self.allowances.insert((token_id, from, to), updated_allowance);
        self.deposit_event(Event::Approval(token_id, from, to, value));
        self._transfer(token_id, from, to, value)
    }

    /// Raises by `value` what `spender` may spend of the signer's balance of
    /// token `token_id`.
    pub fn approve(&mut self, origin: Origin, token_id: u32, spender: u64, value: u64) -> (r: Result<
        (),
        Error,
    >)
        requires
            old(self).wf(),
        ensures
            final(self).wf(),
            match signer(origin) {
                None => r == Err::<(), Error>(Error::BadOrigin) && final(self).same_state(&*old(self)),
                Some(sender) => {
                    let key = (token_id, sender, spender);
                    let current = amount_or_zero(old(self).allowances_view(), key);
                    if !old(self).balances_view().contains_key((token_id, sender)) {
                        r == Err::<(), Error>(Error::NotTokenOwner) && final(self).same_state(
                            &*old(self),
                        )
                    } else if current + value > u64::MAX {
                        r == Err::<(), Error>(Error::AllowanceOverflow) && final(self).same_state(
                            &*old(self),
                        )
                    } else {
                        &&& r == Ok::<(), Error>(())
                        &&& final(self).allowances_view() == old(self).allowances_view().insert(
                            key,
                            (current + value) as u64,
                        )
                        &&& final(self).events_view() == old(self).events_view().push(
                            Event::Approval(token_id, sender, spender, value),
                        )
                        &&& final(self).token_id_view() == old(self).token_id_view()
                        &&& final(self).tokens_view() == old(self).tokens_view()
                        &&& final(self).balances_view() == old(self).balances_view()
                    }
                },
            },
    {
        let sender = match ensure_signed(origin) {
            Ok(who) => who,
            Err(_) => return Err(Error::BadOrigin),
        };
        if !self.balances.contains_key(&(token_id, sender)) {
            return Err(Error::NotTokenOwner);
        }
        let allowance = self.allowance((token_id, sender, spender));
        let updated_allowance = match allowance.checked_add(value) {
            Some(a) => a,
            None => return Err(Error::AllowanceOverflow),
        };
        self.allowances.insert((token_id, sender, spender), updated_allowance);
        self.deposit_event(Event::Approval(token_id, sender, spender, value));
        Ok(())
    }
}

} // verus!

//! The QD ledger: the fungible token of near-contract-standards, behind a few
//! trusted calls, and the minting and burning that the engine does on it.
use vstd::prelude::*;
use near_contract_standards::fungible_token::FungibleToken;
use crate::error::QuidError;

verus! {

#[verifier::external_type_specification]
#[verifier::external_body]
pub struct ExFungibleToken(FungibleToken);

/// The registered accounts of a ledger and their balances.
pub uninterp spec fn ft_accounts(t: FungibleToken) -> Map<Seq<char>, u128>;

/// The total supply a ledger records.
pub uninterp spec fn ft_supply(t: FungibleToken) -> u128;

/// Balance of an account; an account that is not registered holds nothing.
pub open spec fn balance(t: FungibleToken, id: Seq<char>) -> int {
    if ft_accounts(t).contains_key(id) {
        ft_accounts(t)[id] as int
    } else {
        0
    }
}

/// Relies on `FungibleToken::new`: a new ledger records a total supply of zero.
#[verifier::external_body]
pub(crate) fn token_new(prefix: Vec<u8>) -> (t: FungibleToken)
    ensures
        ft_supply(t) == 0,
{
    FungibleToken::new(prefix)
}

/// Relies on `LookupMap::get` over `FungibleToken::accounts`: the balance of a
/// registered account, `None` for any other.
#[verifier::external_body]
fn registered_balance(t: &FungibleToken, id: &String) -> (r: Option<u128>)
    ensures
        r.is_some() == ft_accounts(*t).contains_key(id@),
        r.is_some() ==> r.unwrap() == ft_accounts(*t)[id@],
{
    t.accounts.get(id)
}

/// Relies on the `FungibleToken::total_supply` field.
#[verifier::external_body]
fn total_supply(t: &FungibleToken) -> (r: u128)
    ensures
        r == ft_supply(*t),
{
    t.total_supply
}

/// Relies on `FungibleToken::internal_deposit`: adds to a registered account's
/// balance and to the total supply; it panics on an unregistered account or
/// on overflow of either, which the `requires` leaves out.
#[verifier::external_body]
fn token_deposit(t: &mut FungibleToken, id: &String, amount: u128)
    requires
        ft_accounts(*old(t)).contains_key(id@),
        ft_accounts(*old(t))[id@] + amount <= u128::MAX,
        ft_supply(*old(t)) + amount <= u128::MAX,
    ensures
        ft_accounts(*final(t)) == ft_accounts(*old(t)).insert(
            id@,
            (ft_accounts(*old(t))[id@] + amount) as u128,
        ),
        ft_supply(*final(t)) == ft_supply(*old(t)) + amount,
{
    t.internal_deposit(id, amount)
}

/// Relies on `FungibleToken::internal_withdraw`: takes from a registered
/// account's balance and from the total supply; it panics on an unregistered
/// account or where either is too small, which the `requires` leaves out.
#[verifier::external_body]
fn token_withdraw(t: &mut FungibleToken, id: &String, amount: u128)
    requires
        ft_accounts(*old(t)).contains_key(id@),
        amount <= ft_accounts(*old(t))[id@],
        amount <= ft_supply(*old(t)),
    ensures
        ft_accounts(*final(t)) == ft_accounts(*old(t)).insert(
            id@,
            (ft_accounts(*old(t))[id@] - amount) as u128,
        ),
        ft_supply(*final(t)) == ft_supply(*old(t)) - amount,
{
    t.internal_withdraw(id, amount)
}

/// Relies on `FungibleToken::internal_register_account`: registers an account
/// with a zero balance; it panics on one already registered, which the
/// `requires` leaves out.
#[verifier::external_body]
fn token_register(t: &mut FungibleToken, id: &String)
    requires
        !ft_accounts(*old(t)).contains_key(id@),
    ensures
        ft_accounts(*final(t)) == ft_accounts(*old(t)).insert(id@, 0),
        ft_supply(*final(t)) == ft_supply(*old(t)),
{
    t.internal_register_account(id)
}

/// QD balance of `id`; zero for an account that is not registered.
pub fn balance_of(t: &FungibleToken, id: &String) -> (r: u128)
    ensures
        r == balance(*t, id@),
{
    match registered_balance(t, id) {
        Some(b) => b,
        None => 0,
    }
}

/// Registers `id` where it is not registered yet.
pub fn register(t: &mut FungibleToken, id: &String)
    ensures
        ft_accounts(*final(t)).contains_key(id@),
        forall|a: Seq<char>| balance(*final(t), a) == balance(*old(t), a),
        ft_supply(*final(t)) == ft_supply(*old(t)),
{
    if registered_balance(t, id).is_none() {
        token_register(t, id);
    }
}

/// Mints `amount` QD to `id`, registering the account first where needed.
pub fn mint(t: &mut FungibleToken, id: &String, amount: u128) -> (r: Result<(), QuidError>)
    ensures
        r.is_ok() == (balance(*old(t), id@) + amount <= u128::MAX && ft_supply(*old(t)) + amount
            <= u128::MAX),
        r.is_ok() ==> forall|a: Seq<char>|
            balance(*final(t), a) == balance(*old(t), a) + (if a == id@ {
                amount as int
            } else {
                0
            }),
        r.is_ok() ==> ft_supply(*final(t)) == ft_supply(*old(t)) + amount,
        r.is_err() ==> *final(t) == *old(t) && r == Err::<(), QuidError>(QuidError::AdditionOverflow),
{
    let b = balance_of(t, id);
    let s = total_supply(t);
    if b.checked_add(amount).is_none() || s.checked_add(amount).is_none() {
        return Err(QuidError::AdditionOverflow);
    }
    register(t, id);
    token_deposit(t, id, amount);
    Ok(())
}

/// Burns `amount` QD from `id`. Burning nothing always succeeds.
pub fn burn(t: &mut FungibleToken, id: &String, amount: u128) -> (r: Result<(), QuidError>)
    ensures
        r.is_ok() == (amount <= balance(*old(t), id@) && amount <= ft_supply(*old(t))),
        r.is_ok() ==> forall|a: Seq<char>|
            balance(*final(t), a) == balance(*old(t), a) - (if a == id@ {
                amount as int
            } else {
                0
            }),
        r.is_ok() ==> ft_supply(*final(t)) == ft_supply(*old(t)) - amount,
        r.is_err() ==> *final(t) == *old(t) && crate::error::is_arith(r->Err_0),
{
    if amount == 0 {
        return Ok(());
    }
    let b = balance_of(t, id);
    let s = total_supply(t);
    if amount > b {
        return Err(QuidError::NotEnoughBalance);
    }
    if amount > s {
        return Err(QuidError::SubtractionUnderflow);
    }
    token_withdraw(t, id, amount);
    Ok(())
}

} // verus!

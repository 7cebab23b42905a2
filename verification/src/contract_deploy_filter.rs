//! Contract deploy filter: the addresses allowed to deploy contracts through CREATE calls and
//! through CALL(CREATE) calls.

use vstd::prelude::*;
use crate::origin::Origin;

verus! {

/// A 20-byte Ethereum address, its bytes read big-endian and split in three integers: the
/// first eight bytes, the next eight bytes and the last four bytes.
#[derive(Debug, Clone, Copy, PartialEq, Eq, Structural)]
pub struct H160 {
    pub high: u64,
    pub middle: u64,
    pub low: u32,
}

/// Events of the pallet.
#[derive(Debug, Clone, Copy, PartialEq, Eq, Structural)]
pub enum Event {
    /// An address was successfully allowed to deploy contracts via CREATE calls.
    AllowedAddressToCreate { address: H160 },
    /// An address was successfully allowed to deploy contracts via CALL(CREATE) calls.
    AllowedAddressToCreateInner { address: H160 },
    /// An address is not allowed to deploy contracts via CREATE calls anymore.
    RemovedAllowedAddressToCreate { address: H160 },
    /// An address is not allowed to deploy contracts via CALL(CREATE) calls anymore.
    RemovedAllowedAddressToCreateInner { address: H160 },
}

/// Errors of the pallet.
#[derive(Debug, Clone, Copy, PartialEq, Eq, Structural)]
pub enum Error {
    /// The address was already allowed to deploy contracts either via CREATE calls or
    /// CALL(CREATE) calls.
    AlreadyAllowed,
    /// MaxAllowedCreate or MaxAllowedCreateInner limit was reached.
    TooManyAllowedAddresses,
    /// An attempt to remove an address from a list that did not hold it.
    NotPresentInAllowedAddresses,
    /// The call did not come from the root origin.
    BadOrigin,
}

/// The list after allowing `address`, or the error.
pub open spec fn allow_spec(list: Seq<H160>, max: u32, address: H160) -> Result<Seq<H160>, Error> {
    if list.contains(address) {
        Err(Error::AlreadyAllowed)
    } else if list.len() >= max {
        Err(Error::TooManyAllowedAddresses)
    } else {
        Ok(list.push(address))
    }
}

/// The list after removing `address` (its first occurrence), or the error.
pub open spec fn remove_spec(list: Seq<H160>, address: H160) -> Result<Seq<H160>, Error> {
    match list.index_of_first(address) {
        Some(i) => Ok(list.remove(i)),
        None => Err(Error::NotPresentInAllowedAddresses),
    }
}

/// Position of the first occurrence of `address`.
fn position(list: &Vec<H160>, address: H160) -> (r: Option<usize>)
    ensures
        match r {
            Some(i) => list@.index_of_first(address) == Some(i as int),
            None => list@.index_of_first(address) is None,
        },
{
    let mut i: usize = 0;
    while i < list.len()
        invariant
            0 <= i <= list.len(),
            forall|j: int| 0 <= j < i ==> list@[j] != address,
        decreases list.len() - i,
    {
        if list[i] == address {
            proof {
                assert(list@.contains(address));
                list@.index_of_first_ensures(address);
                let k = list@.index_of_first(address)->Some_0;
                if k < i {
                    assert(list@[k] == address);
                }
                if k > i {
                    assert(list@[i as int] == address);
                }
            }
            return Some(i);
        }
        i = i + 1;
    }
    proof {
        list@.index_of_first_ensures(address);
        if list@.contains(address) {
            let k = list@.index_of_first(address)->Some_0;
            assert(list@[k] == address);
        }
    }
    None
}

/// Allows `address` in `list`, bounded by `max`.
fn allow(list: &mut Vec<H160>, max: u32, address: H160) -> (res: Result<(), Error>)
    ensures
        match allow_spec(old(list)@, max, address) {
            Ok(l) => res is Ok && final(list)@ == l,
            Err(e) => res == Err::<(), Error>(e) && final(list)@ == old(list)@,
        },
{
    proof { list@.index_of_first_ensures(address); }
    if position(list, address).is_some() {
        return Err(Error::AlreadyAllowed);
    }
    if list.len() >= max as usize {
        return Err(Error::TooManyAllowedAddresses);
    }
    list.push(address);
    Ok(())
}

/// Removes `address` from `list`.
fn disallow(list: &mut Vec<H160>, address: H160) -> (res: Result<(), Error>)
    ensures
        match remove_spec(old(list)@, address) {
            Ok(l) => res is Ok && final(list)@ == l,
            Err(e) => res == Err::<(), Error>(e) && final(list)@ == old(list)@,
        },
{
    proof { list@.index_of_first_ensures(address); }
    match position(list, address) {
        Some(pos) => {
            list.remove(pos);
            Ok(())
        },
        None => Err(Error::NotPresentInAllowedAddresses),
    }
}

/// State of the contract deploy filter pallet.
pub struct ContractDeployFilter {
    /// Most addresses allowed via CREATE calls.
    pub max_allowed_create: u32,
    /// Most addresses allowed via CALL(CREATE) calls.
    pub max_allowed_create_inner: u32,
    /// Addresses that are allowed to deploy contracts via CREATE calls.
    pub allowed_addresses_to_create: Vec<H160>,
    /// Addresses that are allowed to deploy contracts via CALL(CREATE) calls.
    pub allowed_addresses_to_create_inner: Vec<H160>,
    /// Events deposited so far.
    pub events: Vec<Event>,
}

impl ContractDeployFilter {
    /// An empty filter with the given bounds.
    pub fn new(max_allowed_create: u32, max_allowed_create_inner: u32) -> (r: Self)
        ensures
            r.max_allowed_create == max_allowed_create,
            r.max_allowed_create_inner == max_allowed_create_inner,
            r.allowed_addresses_to_create@ == Seq::<H160>::empty(),
            r.allowed_addresses_to_create_inner@ == Seq::<H160>::empty(),
            r.events@ == Seq::<Event>::empty(),
    {
        ContractDeployFilter {
            max_allowed_create,
            max_allowed_create_inner,
            allowed_addresses_to_create: Vec::new(),
            allowed_addresses_to_create_inner: Vec::new(),
            events: Vec::new(),
        }
    }

    /// Allow an address to deploy contracts via CREATE calls.
    pub fn allow_address_to_create(&mut self, origin: Origin, address: H160) -> (res: Result<(), Error>)
        ensures
            final(self).max_allowed_create == old(self).max_allowed_create,
            final(self).max_allowed_create_inner == old(self).max_allowed_create_inner,
            final(self).allowed_addresses_to_create_inner@ == old(self).allowed_addresses_to_create_inner@,
            origin != Origin::Root ==> res == Err::<(), Error>(Error::BadOrigin)
                && final(self).allowed_addresses_to_create@ == old(self).allowed_addresses_to_create@
                && final(self).events@ == old(self).events@,
            origin == Origin::Root ==> match allow_spec(old(self).allowed_addresses_to_create@, old(self).max_allowed_create, address) {
                Ok(l) => res is Ok && final(self).allowed_addresses_to_create@ == l
                    && final(self).events@ == old(self).events@.push(Event::AllowedAddressToCreate { address }),
                Err(e) => res == Err::<(), Error>(e) && final(self).allowed_addresses_to_create@ == old(self).allowed_addresses_to_create@
                    && final(self).events@ == old(self).events@,
            },
    {
        if origin != Origin::Root {
            return Err(Error::BadOrigin);
        }
        allow(&mut self.allowed_addresses_to_create, self.max_allowed_create, address)?;
        self.events.push(Event::AllowedAddressToCreate { address });
        Ok(())
    }

    /// Allow an address to deploy contracts via CALL(CREATE) calls.
    pub fn allow_address_to_create_inner(&mut self, origin: Origin, address: H160) -> (res: Result<(), Error>)
        ensures
            final(self).max_allowed_create == old(self).max_allowed_create,
            final(self).max_allowed_create_inner == old(self).max_allowed_create_inner,
            final(self).allowed_addresses_to_create@ == old(self).allowed_addresses_to_create@,
            origin != Origin::Root ==> res == Err::<(), Error>(Error::BadOrigin)
                && final(self).allowed_addresses_to_create_inner@ == old(self).allowed_addresses_to_create_inner@
                && final(self).events@ == old(self).events@,
            origin == Origin::Root ==> match allow_spec(old(self).allowed_addresses_to_create_inner@, old(self).max_allowed_create_inner, address) {
                Ok(l) => res is Ok && final(self).allowed_addresses_to_create_inner@ == l
                    && final(self).events@ == old(self).events@.push(Event::AllowedAddressToCreateInner { address }),
                Err(e) => res == Err::<(), Error>(e) && final(self).allowed_addresses_to_create_inner@ == old(self).allowed_addresses_to_create_inner@
                    && final(self).events@ == old(self).events@,
            },
    {
        if origin != Origin::Root {
            return Err(Error::BadOrigin);
        }
        allow(&mut self.allowed_addresses_to_create_inner, self.max_allowed_create_inner, address)?;
        self.events.push(Event::AllowedAddressToCreateInner { address });
        Ok(())
    }

    /// Forbid an address to deploy contracts via CREATE calls removing it from the list.
    pub fn remove_allowed_address_to_create(&mut self, origin: Origin, address: H160) -> (res: Result<(), Error>)
        ensures
            final(self).max_allowed_create == old(self).max_allowed_create,
            final(self).max_allowed_create_inner == old(self).max_allowed_create_inner,
            final(self).allowed_addresses_to_create_inner@ == old(self).allowed_addresses_to_create_inner@,
            origin != Origin::Root ==> res == Err::<(), Error>(Error::BadOrigin)
                && final(self).allowed_addresses_to_create@ == old(self).allowed_addresses_to_create@
                && final(self).events@ == old(self).events@,
            origin == Origin::Root ==> match remove_spec(old(self).allowed_addresses_to_create@, address) {
                Ok(l) => res is Ok && final(self).allowed_addresses_to_create@ == l
                    && final(self).events@ == old(self).events@.push(Event::RemovedAllowedAddressToCreate { address }),
                Err(e) => res == Err::<(), Error>(e) && final(self).allowed_addresses_to_create@ == old(self).allowed_addresses_to_create@
                    && final(self).events@ == old(self).events@,
            },
    {
        if origin != Origin::Root {
            return Err(Error::BadOrigin);
        }
        disallow(&mut self.allowed_addresses_to_create, address)?;
        self.events.push(Event::RemovedAllowedAddressToCreate { address });
        Ok(())
    }

    /// Forbid an address to deploy contracts via CALL(CREATE) calls removing it from the list.
    pub fn remove_allowed_address_to_create_inner(&mut self, origin: Origin, address: H160) -> (res: Result<(), Error>)
        ensures
            final(self).max_allowed_create == old(self).max_allowed_create,
            final(self).max_allowed_create_inner == old(self).max_allowed_create_inner,
            final(self).allowed_addresses_to_create@ == old(self).allowed_addresses_to_create@,
            origin != Origin::Root ==> res == Err::<(), Error>(Error::BadOrigin)
                && final(self).allowed_addresses_to_create_inner@ == old(self).allowed_addresses_to_create_inner@
                && final(self).events@ == old(self).events@,
            origin == Origin::Root ==> match remove_spec(old(self).allowed_addresses_to_create_inner@, address) {
                Ok(l) => res is Ok && final(self).allowed_addresses_to_create_inner@ == l
                    && final(self).events@ == old(self).events@.push(Event::RemovedAllowedAddressToCreateInner { address }),
                Err(e) => res == Err::<(), Error>(e) && final(self).allowed_addresses_to_create_inner@ == old(self).allowed_addresses_to_create_inner@
                    && final(self).events@ == old(self).events@,
            },
    {
        if origin != Origin::Root {
            return Err(Error::BadOrigin);
        }
        disallow(&mut self.allowed_addresses_to_create_inner, address)?;
        self.events.push(Event::RemovedAllowedAddressToCreateInner { address });
        Ok(())
    }

    /// The addresses allowed to deploy contracts via CREATE calls.
    pub fn get_allowed_addresses_to_create(&self) -> (r: Vec<H160>)
        ensures
            r@ == self.allowed_addresses_to_create@,
    {
        copy_list(&self.allowed_addresses_to_create)
    }

    /// The addresses allowed to deploy contracts via CALL(CREATE) calls.
    pub fn get_allowed_addresses_to_create_inner(&self) -> (r: Vec<H160>)
        ensures
            r@ == self.allowed_addresses_to_create_inner@,
    {
        copy_list(&self.allowed_addresses_to_create_inner)
    }
}

fn copy_list(list: &Vec<H160>) -> (r: Vec<H160>)
    ensures
        r@ == list@,
{
    let mut r: Vec<H160> = Vec::new();
    let mut i: usize = 0;
    while i < list.len()
        invariant
            0 <= i <= list.len(),
            r@ == list@.take(i as int),
        decreases list.len() - i,
    {
        r.push(list[i]);
        assert(list@.take(i as int + 1) =~= list@.take(i as int).push(list@[i as int]));
        i = i + 1;
    }
    assert(list@.take(list.len() as int) =~= list@);
    r
}

/// Allowing an address and then removing it gives back the list as it was.
pub proof fn allow_then_remove_restores(list: Seq<H160>, max: u32, address: H160)
    requires
        allow_spec(list, max, address) is Ok,
    ensures
        remove_spec(allow_spec(list, max, address)->Ok_0, address) == Ok::<Seq<H160>, Error>(list),
{
    let l = list.push(address);
    assert(l[list.len() as int] == address);
    assert(l.contains(address));
    l.index_of_first_ensures(address);
    let i = l.index_of_first(address)->Some_0;
    if i < list.len() {
        assert(list[i] == address);
    }
    assert(l.remove(i) =~= list);
}

/// An allowed list never holds the same address twice, and never exceeds its bound.
pub proof fn allow_keeps_list_valid(list: Seq<H160>, max: u32, address: H160)
    requires
        list.no_duplicates(),
        list.len() <= max,
    ensures
        allow_spec(list, max, address) matches Ok(l) ==> l.no_duplicates() && l.len() <= max,
{
}

} // verus!

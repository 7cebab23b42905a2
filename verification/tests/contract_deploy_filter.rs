use tanssi_pallets::contract_deploy_filter::{ContractDeployFilter, Error, Event, H160};
use tanssi_pallets::origin::Origin;

/// 20 addresses at most in each list, as in the runtime used by these tests.
const MAX_ALLOWED_CREATE: u32 = 20;
const MAX_ALLOWED_CREATE_INNER: u32 = 20;

/// Parses a `0x`-prefixed address of 40 hex digits.
fn h160_from_str(s: &str) -> H160 {
    let hex = s.trim_start_matches("0x");
    assert_eq!(hex.len(), 40);
    H160 {
        high: u64::from_str_radix(&hex[0..16], 16).unwrap(),
        middle: u64::from_str_radix(&hex[16..32], 16).unwrap(),
        low: u32::from_str_radix(&hex[32..40], 16).unwrap(),
    }
}

/// The address whose last eight bytes are `x`, big-endian, and the others zero.
fn h160_from_low_u64_be(x: u64) -> H160 {
    H160 { high: 0, middle: x >> 32, low: (x & 0xffff_ffff) as u32 }
}

fn new_filter() -> ContractDeployFilter {
    ContractDeployFilter::new(MAX_ALLOWED_CREATE, MAX_ALLOWED_CREATE_INNER)
}

/// A failed call changes nothing.
fn assert_noop(
    filter: &mut ContractDeployFilter,
    call: impl FnOnce(&mut ContractDeployFilter) -> Result<(), Error>,
    err: Error,
) {
    let before = (
        filter.allowed_addresses_to_create.clone(),
        filter.allowed_addresses_to_create_inner.clone(),
        filter.events.clone(),
    );
    assert_eq!(call(filter), Err(err));
    assert_eq!(
        (
            filter.allowed_addresses_to_create.clone(),
            filter.allowed_addresses_to_create_inner.clone(),
            filter.events.clone(),
        ),
        before
    );
}

#[test]
fn allow_address_to_create_works() {
    let mut f = new_filter();
    let alice = h160_from_str("0x1a642f0e3c3af545e7acbd38b07251b3990914f1");
    let bob = h160_from_str("0x2a642f0e3c3af545e7acbd38b07251b3990914f1");

    assert_eq!(f.allow_address_to_create(Origin::Root, alice), Ok(()));
    assert_eq!(f.events.last(), Some(&Event::AllowedAddressToCreate { address: alice }));

    // fails when trying to allow the same address twice
    assert_noop(&mut f, |f| f.allow_address_to_create(Origin::Root, alice), Error::AlreadyAllowed);

    // the address is now in the corresponding list
    assert!(f.get_allowed_addresses_to_create().contains(&alice));

    // fails with an origin that is not root
    assert_noop(&mut f, |f| f.allow_address_to_create(Origin::Signed(1), bob), Error::BadOrigin);
}

#[test]
fn allow_address_to_create_inner_works() {
    let mut f = new_filter();
    let alice = h160_from_str("0x1a642f0e3c3af545e7acbd38b07251b3990914f1");
    let bob = h160_from_str("0x2a642f0e3c3af545e7acbd38b07251b3990914f1");

    assert_eq!(f.allow_address_to_create_inner(Origin::Root, alice), Ok(()));
    assert_eq!(f.events.last(), Some(&Event::AllowedAddressToCreateInner { address: alice }));

    assert_noop(&mut f, |f| f.allow_address_to_create_inner(Origin::Root, alice), Error::AlreadyAllowed);
    assert!(f.get_allowed_addresses_to_create_inner().contains(&alice));
    assert_noop(&mut f, |f| f.allow_address_to_create_inner(Origin::Signed(1), bob), Error::BadOrigin);
}

#[test]
fn remove_allowed_address_to_create_works() {
    let mut f = new_filter();
    let alice = h160_from_str("0x1a642f0e3c3af545e7acbd38b07251b3990914f1");
    let bob = h160_from_str("0x2a642f0e3c3af545e7acbd38b07251b3990914f1");

    assert_eq!(f.allow_address_to_create(Origin::Root, alice), Ok(()));
    assert_eq!(f.allow_address_to_create(Origin::Root, bob), Ok(()));
    assert!(f.get_allowed_addresses_to_create().contains(&alice));
    assert!(f.get_allowed_addresses_to_create().contains(&bob));

    assert_eq!(f.remove_allowed_address_to_create(Origin::Root, alice), Ok(()));
    assert_eq!(f.events.last(), Some(&Event::RemovedAllowedAddressToCreate { address: alice }));

    // Alice is not allowed anymore
    assert!(!f.get_allowed_addresses_to_create().contains(&alice));

    // Fails when trying to remove an address that is not present in the list
    assert_noop(
        &mut f,
        |f| f.remove_allowed_address_to_create(Origin::Root, alice),
        Error::NotPresentInAllowedAddresses,
    );
    // Fails when trying to remove without root
    assert_noop(&mut f, |f| f.remove_allowed_address_to_create(Origin::Signed(1), bob), Error::BadOrigin);
}

#[test]
fn remove_allowed_address_to_create_inner_works() {
    let mut f = new_filter();
    let alice = h160_from_str("0x1a642f0e3c3af545e7acbd38b07251b3990914f1");
    let bob = h160_from_str("0x2a642f0e3c3af545e7acbd38b07251b3990914f1");

    assert_eq!(f.allow_address_to_create_inner(Origin::Root, alice), Ok(()));
    assert_eq!(f.allow_address_to_create_inner(Origin::Root, bob), Ok(()));
    assert!(f.get_allowed_addresses_to_create_inner().contains(&alice));
    assert!(f.get_allowed_addresses_to_create_inner().contains(&bob));

    assert_eq!(f.remove_allowed_address_to_create_inner(Origin::Root, alice), Ok(()));
    assert_eq!(f.events.last(), Some(&Event::RemovedAllowedAddressToCreateInner { address: alice }));
    assert!(!f.get_allowed_addresses_to_create_inner().contains(&alice));

    assert_noop(
        &mut f,
        |f| f.remove_allowed_address_to_create_inner(Origin::Root, alice),
        Error::NotPresentInAllowedAddresses,
    );
    assert_noop(
        &mut f,
        |f| f.remove_allowed_address_to_create_inner(Origin::Signed(1), bob),
        Error::BadOrigin,
    );
}

#[test]
fn max_allowed_create_limit_works() {
    let mut f = new_filter();
    let limit = MAX_ALLOWED_CREATE;
    for address in 1..=limit + 1 {
        if address < limit + 1 {
            assert_eq!(f.allow_address_to_create(Origin::Root, h160_from_low_u64_be(address.into())), Ok(()));
        } else {
            assert_noop(
                &mut f,
                |f| f.allow_address_to_create(Origin::Root, h160_from_low_u64_be(address.into())),
                Error::TooManyAllowedAddresses,
            );
        }
    }
    assert_eq!(f.get_allowed_addresses_to_create().len(), limit as usize);
}

#[test]
fn max_allowed_create_inner_limit_works() {
    let mut f = new_filter();
    let limit = MAX_ALLOWED_CREATE_INNER;
    for address in 1..=limit + 1 {
        if address < limit + 1 {
            assert_eq!(
                f.allow_address_to_create_inner(Origin::Root, h160_from_low_u64_be(address.into())),
                Ok(())
            );
        } else {
            assert_noop(
                &mut f,
                |f| f.allow_address_to_create_inner(Origin::Root, h160_from_low_u64_be(address.into())),
                Error::TooManyAllowedAddresses,
            );
        }
    }
    assert_eq!(f.get_allowed_addresses_to_create_inner().len(), limit as usize);
}

#[test]
fn allow_then_remove_restores_the_list() {
    let mut f = new_filter();
    let a = h160_from_low_u64_be(1);
    let b = h160_from_low_u64_be(2);
    assert_eq!(f.allow_address_to_create(Origin::Root, a), Ok(()));
    let before = f.get_allowed_addresses_to_create();
    assert_eq!(f.allow_address_to_create(Origin::Root, b), Ok(()));
    assert_eq!(f.remove_allowed_address_to_create(Origin::Root, b), Ok(()));
    assert_eq!(f.get_allowed_addresses_to_create(), before);
    // The two lists are independent.
    assert!(f.get_allowed_addresses_to_create_inner().is_empty());
}

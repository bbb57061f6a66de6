use amm_pool::nameservice::{EnsSubdomainFactory, NameserviceError};

const DEPLOYER: u128 = 1;
const MALLORY: u128 = 66;
const RECIPIENT: u128 = 77;

fn sub() -> Vec<u8> {
    b"pay".to_vec()
}

fn dom() -> Vec<u8> {
    b"example".to_vec()
}

#[test]
fn deployer_owns_a_fresh_registry() {
    let reg = EnsSubdomainFactory::new(DEPLOYER);
    assert_eq!(reg.owner, DEPLOYER);
    assert!(!reg.locked);
    assert_eq!(reg.get_owner(&sub(), &dom()), None);
}

#[test]
fn create_subdomain_assigns_to_owner_once() {
    let mut reg = EnsSubdomainFactory::new(DEPLOYER);
    let ev = reg.create_subdomain(DEPLOYER, sub(), dom()).unwrap();
    assert_eq!(ev.creator, DEPLOYER);
    assert_eq!(ev.owner, DEPLOYER);
    assert_eq!(ev.subdomain, sub());
    assert_eq!(ev.domain, dom());
    assert_eq!(reg.get_owner(&sub(), &dom()), Some(DEPLOYER));
    // a second creation of the same name is refused
    assert_eq!(
        reg.create_subdomain(DEPLOYER, sub(), dom()),
        Err(NameserviceError::SubdomainAlreadyExists)
    );
    // the same subdomain under another domain is its own name
    let ev = reg.create_subdomain(DEPLOYER, sub(), b"other".to_vec()).unwrap();
    assert_eq!(ev.domain, b"other".to_vec());
}

#[test]
fn only_the_owner_touches_the_registry() {
    let mut reg = EnsSubdomainFactory::new(DEPLOYER);
    assert_eq!(
        reg.create_subdomain(MALLORY, sub(), dom()),
        Err(NameserviceError::NotOwner)
    );
    assert_eq!(
        reg.set_subdomain_owner(MALLORY, sub(), dom(), MALLORY),
        Err(NameserviceError::NotOwner)
    );
    assert_eq!(
        reg.transfer_subdomain(MALLORY, sub(), dom(), MALLORY),
        Err(NameserviceError::NotOwner)
    );
    assert_eq!(
        reg.lock_domain_transfers(MALLORY),
        Err(NameserviceError::NotOwner)
    );
    assert_eq!(
        reg.transfer_ownership(MALLORY, MALLORY),
        Err(NameserviceError::NotOwner)
    );
    assert_eq!(reg.get_owner(&sub(), &dom()), None);
}

#[test]
fn transfer_subdomain_reassigns_existing_names() {
    let mut reg = EnsSubdomainFactory::new(DEPLOYER);
    assert_eq!(
        reg.transfer_subdomain(DEPLOYER, sub(), dom(), RECIPIENT),
        Err(NameserviceError::SubdomainNotFound)
    );
    reg.create_subdomain(DEPLOYER, sub(), dom()).unwrap();
    let ev = reg.transfer_subdomain(DEPLOYER, sub(), dom(), RECIPIENT).unwrap();
    assert_eq!(ev.owner, RECIPIENT);
    assert_eq!(reg.get_owner(&sub(), &dom()), Some(RECIPIENT));
}

#[test]
fn set_subdomain_owner_overwrites() {
    let mut reg = EnsSubdomainFactory::new(DEPLOYER);
    reg.set_subdomain_owner(DEPLOYER, sub(), dom(), RECIPIENT).unwrap();
    assert_eq!(reg.get_owner(&sub(), &dom()), Some(RECIPIENT));
    reg.set_subdomain_owner(DEPLOYER, sub(), dom(), MALLORY).unwrap();
    assert_eq!(reg.get_owner(&sub(), &dom()), Some(MALLORY));
}

#[test]
fn locking_stops_subdomain_changes() {
    let mut reg = EnsSubdomainFactory::new(DEPLOYER);
    reg.create_subdomain(DEPLOYER, sub(), dom()).unwrap();
    let ev = reg.lock_domain_transfers(DEPLOYER).unwrap();
    assert!(ev.locked);
    assert_eq!(
        reg.create_subdomain(DEPLOYER, b"two".to_vec(), dom()),
        Err(NameserviceError::TransfersLocked)
    );
    assert_eq!(
        reg.transfer_subdomain(DEPLOYER, sub(), dom(), RECIPIENT),
        Err(NameserviceError::TransfersLocked)
    );
    assert_eq!(
        reg.set_subdomain_owner(DEPLOYER, sub(), dom(), RECIPIENT),
        Err(NameserviceError::TransfersLocked)
    );
    // ownership can still move
    let ev = reg.transfer_ownership(DEPLOYER, RECIPIENT).unwrap();
    assert_eq!(ev.previous_owner, DEPLOYER);
    assert_eq!(ev.new_owner, RECIPIENT);
    assert_eq!(reg.owner, RECIPIENT);
}

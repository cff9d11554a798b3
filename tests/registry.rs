use address_pool::keymap::KeyMap;
use address_pool::registry::{
    add_vault, initialize, release_vault, remove_vault, reset_vault, use_available_vault, use_vault, Address,
    AddressType, ContractContext, ContractState, NewVault, Vault, VaultError,
};

fn account(byte: u8) -> Address {
    Address { address_type: AddressType::Account, identifier: [byte; 20] }
}

fn ctx(byte: u8) -> ContractContext {
    ContractContext { sender: account(byte) }
}

fn nv(chain: &str, address: &str) -> NewVault {
    NewVault::new(chain.to_string(), address.to_string())
}

fn vault(state: &ContractState, owner: u8, chain: &str, address: &str) -> Option<Vault> {
    state
        .vaults
        .get(&account(owner))
        .and_then(|chains| chains.get(&chain.to_string()))
        .and_then(|m| m.get(&address.to_string()))
        .copied()
}

fn has_chain(state: &ContractState, owner: u8, chain: &str) -> bool {
    state.vaults.get(&account(owner)).map_or(false, |chains| chains.contains_key(&chain.to_string()))
}

fn fresh() -> ContractState {
    initialize(ctx(0xA0))
}

#[test]
fn initialize_records_admin_and_no_vaults() {
    let state = initialize(ctx(7));
    assert_eq!(state.owner.identifier, [7u8; 20]);
    assert_eq!(state.owner.address_type, AddressType::Account);
    assert!(state.vaults.is_empty());
}

#[test]
fn scenario_add_use_add_preserves_old_flag() {
    let mut state = fresh();
    assert_eq!(add_vault(ctx(1), &mut state, vec![nv("eth", "0xAAA")]), Ok(()));
    assert_eq!(vault(&state, 1, "eth", "0xAAA"), Some(Vault { available: true }));
    assert_eq!(use_vault(ctx(1), &mut state, "0xAAA".to_string(), "eth".to_string()), Ok(()));
    assert_eq!(vault(&state, 1, "eth", "0xAAA"), Some(Vault { available: false }));
    assert_eq!(add_vault(ctx(1), &mut state, vec![nv("eth", "0xAAA"), nv("eth", "0xBBB")]), Ok(()));
    assert_eq!(vault(&state, 1, "eth", "0xAAA"), Some(Vault { available: false }));
    assert_eq!(vault(&state, 1, "eth", "0xBBB"), Some(Vault { available: true }));
}

#[test]
fn scenario_remove_twice_address_not_found() {
    let mut state = fresh();
    assert_eq!(add_vault(ctx(1), &mut state, vec![nv("eth", "0xAAA")]), Ok(()));
    assert_eq!(remove_vault(ctx(1), &mut state, "0xAAA".to_string(), "eth".to_string()), Ok(()));
    assert_eq!(vault(&state, 1, "eth", "0xAAA"), None);
    assert_eq!(
        remove_vault(ctx(1), &mut state, "0xAAA".to_string(), "eth".to_string()),
        Err(VaultError::AddressNotFound)
    );
}

#[test]
fn removing_last_vault_keeps_empty_chain() {
    let mut state = fresh();
    add_vault(ctx(1), &mut state, vec![nv("eth", "0xAAA")]).unwrap();
    remove_vault(ctx(1), &mut state, "0xAAA".to_string(), "eth".to_string()).unwrap();
    let chains = state.vaults.get(&account(1)).unwrap();
    assert!(chains.contains_key(&"eth".to_string()));
    assert!(chains.get(&"eth".to_string()).unwrap().is_empty());
}

#[test]
fn unknown_owner_is_refused_everywhere() {
    let mut state = fresh();
    add_vault(ctx(1), &mut state, vec![nv("eth", "0xAAA")]).unwrap();
    let a = "0xAAA".to_string();
    let c = "eth".to_string();
    assert_eq!(remove_vault(ctx(2), &mut state, a.clone(), c.clone()), Err(VaultError::OwnerNotFound));
    assert_eq!(use_vault(ctx(2), &mut state, a.clone(), c.clone()), Err(VaultError::OwnerNotFound));
    assert_eq!(release_vault(ctx(2), &mut state, a.clone(), c.clone()), Err(VaultError::OwnerNotFound));
    assert_eq!(reset_vault(ctx(2), &mut state, vec![nv("eth", "0xCCC")]), Err(VaultError::OwnerNotFound));
    assert!(!state.vaults.contains_key(&account(2)));
    assert!(state.vaults.contains_key(&account(1)));
}

#[test]
fn owners_differing_in_kind_are_distinct() {
    let mut state = fresh();
    add_vault(ctx(1), &mut state, vec![nv("eth", "0xAAA")]).unwrap();
    let other = ContractContext {
        sender: Address { address_type: AddressType::PublicContract, identifier: [1u8; 20] },
    };
    assert_eq!(use_vault(other, &mut state, "0xAAA".to_string(), "eth".to_string()), Err(VaultError::OwnerNotFound));
}

#[test]
fn add_keeps_untouched_chains_and_addresses() {
    let mut state = fresh();
    add_vault(ctx(1), &mut state, vec![nv("eth", "0xAAA"), nv("btc", "bc1"), nv("eth", "0xDDD")]).unwrap();
    use_vault(ctx(1), &mut state, "bc1".to_string(), "btc".to_string()).unwrap();
    use_vault(ctx(1), &mut state, "0xDDD".to_string(), "eth".to_string()).unwrap();
    add_vault(ctx(1), &mut state, vec![nv("eth", "0xEEE"), nv("sol", "So1")]).unwrap();
    assert_eq!(vault(&state, 1, "btc", "bc1"), Some(Vault { available: false }));
    assert_eq!(vault(&state, 1, "eth", "0xAAA"), Some(Vault { available: true }));
    assert_eq!(vault(&state, 1, "eth", "0xDDD"), Some(Vault { available: false }));
    assert_eq!(vault(&state, 1, "eth", "0xEEE"), Some(Vault { available: true }));
    assert_eq!(vault(&state, 1, "sol", "So1"), Some(Vault { available: true }));
}

#[test]
fn add_leaves_other_owners_alone() {
    let mut state = fresh();
    add_vault(ctx(1), &mut state, vec![nv("eth", "0xAAA")]).unwrap();
    use_vault(ctx(1), &mut state, "0xAAA".to_string(), "eth".to_string()).unwrap();
    add_vault(ctx(2), &mut state, vec![nv("eth", "0xAAA")]).unwrap();
    assert_eq!(vault(&state, 1, "eth", "0xAAA"), Some(Vault { available: false }));
    assert_eq!(vault(&state, 2, "eth", "0xAAA"), Some(Vault { available: true }));
}

#[test]
fn add_with_duplicate_pairs() {
    let mut state = fresh();
    add_vault(ctx(1), &mut state, vec![nv("eth", "0xAAA"), nv("eth", "0xAAA")]).unwrap();
    assert_eq!(vault(&state, 1, "eth", "0xAAA"), Some(Vault { available: true }));
    remove_vault(ctx(1), &mut state, "0xAAA".to_string(), "eth".to_string()).unwrap();
    assert_eq!(vault(&state, 1, "eth", "0xAAA"), None);
}

#[test]
fn add_empty_batch_fails_and_changes_nothing() {
    let mut state = fresh();
    add_vault(ctx(1), &mut state, vec![nv("eth", "0xAAA")]).unwrap();
    assert_eq!(add_vault(ctx(1), &mut state, vec![]), Err(VaultError::EmptyInput));
    assert_eq!(add_vault(ctx(2), &mut state, vec![]), Err(VaultError::EmptyInput));
    assert_eq!(vault(&state, 1, "eth", "0xAAA"), Some(Vault { available: true }));
    assert!(!state.vaults.contains_key(&account(2)));
}

#[test]
fn reset_replaces_everything() {
    let mut state = fresh();
    add_vault(ctx(1), &mut state, vec![nv("eth", "0xAAA"), nv("btc", "bc1")]).unwrap();
    use_vault(ctx(1), &mut state, "0xAAA".to_string(), "eth".to_string()).unwrap();
    assert_eq!(reset_vault(ctx(1), &mut state, vec![nv("eth", "0xBBB")]), Ok(()));
    assert_eq!(vault(&state, 1, "eth", "0xAAA"), None);
    assert_eq!(vault(&state, 1, "eth", "0xBBB"), Some(Vault { available: true }));
    assert!(!has_chain(&state, 1, "btc"));
}

#[test]
fn reset_with_empty_batch_leaves_empty_entry() {
    let mut state = fresh();
    add_vault(ctx(1), &mut state, vec![nv("eth", "0xAAA")]).unwrap();
    assert_eq!(reset_vault(ctx(1), &mut state, vec![]), Ok(()));
    assert!(state.vaults.contains_key(&account(1)));
    assert!(state.vaults.get(&account(1)).unwrap().is_empty());
}

#[test]
fn reset_without_entry_fails() {
    let mut state = fresh();
    assert_eq!(reset_vault(ctx(1), &mut state, vec![nv("eth", "0xAAA")]), Err(VaultError::OwnerNotFound));
    assert!(state.vaults.is_empty());
}

#[test]
fn use_twice_fails_in_use() {
    let mut state = fresh();
    add_vault(ctx(1), &mut state, vec![nv("eth", "0xAAA")]).unwrap();
    assert_eq!(use_vault(ctx(1), &mut state, "0xAAA".to_string(), "eth".to_string()), Ok(()));
    assert_eq!(use_vault(ctx(1), &mut state, "0xAAA".to_string(), "eth".to_string()), Err(VaultError::VaultInUse));
    assert_eq!(vault(&state, 1, "eth", "0xAAA"), Some(Vault { available: false }));
}

#[test]
fn use_release_remove_succeeds() {
    let mut state = fresh();
    add_vault(ctx(1), &mut state, vec![nv("eth", "0xAAA")]).unwrap();
    use_vault(ctx(1), &mut state, "0xAAA".to_string(), "eth".to_string()).unwrap();
    assert_eq!(
        remove_vault(ctx(1), &mut state, "0xAAA".to_string(), "eth".to_string()),
        Err(VaultError::VaultInUse)
    );
    assert_eq!(vault(&state, 1, "eth", "0xAAA"), Some(Vault { available: false }));
    assert_eq!(release_vault(ctx(1), &mut state, "0xAAA".to_string(), "eth".to_string()), Ok(()));
    assert_eq!(remove_vault(ctx(1), &mut state, "0xAAA".to_string(), "eth".to_string()), Ok(()));
    assert_eq!(vault(&state, 1, "eth", "0xAAA"), None);
}

#[test]
fn release_twice_succeeds() {
    let mut state = fresh();
    add_vault(ctx(1), &mut state, vec![nv("eth", "0xAAA")]).unwrap();
    use_vault(ctx(1), &mut state, "0xAAA".to_string(), "eth".to_string()).unwrap();
    assert_eq!(release_vault(ctx(1), &mut state, "0xAAA".to_string(), "eth".to_string()), Ok(()));
    assert_eq!(release_vault(ctx(1), &mut state, "0xAAA".to_string(), "eth".to_string()), Ok(()));
    assert_eq!(vault(&state, 1, "eth", "0xAAA"), Some(Vault { available: true }));
}

#[test]
fn keyed_calls_report_missing_chain_and_address() {
    let mut state = fresh();
    add_vault(ctx(1), &mut state, vec![nv("eth", "0xAAA")]).unwrap();
    assert_eq!(use_vault(ctx(1), &mut state, "0xAAA".to_string(), "btc".to_string()), Err(VaultError::ChainNotFound));
    assert_eq!(release_vault(ctx(1), &mut state, "0xAAA".to_string(), "btc".to_string()), Err(VaultError::ChainNotFound));
    assert_eq!(remove_vault(ctx(1), &mut state, "0xAAA".to_string(), "btc".to_string()), Err(VaultError::ChainNotFound));
    assert_eq!(use_vault(ctx(1), &mut state, "0xBBB".to_string(), "eth".to_string()), Err(VaultError::AddressNotFound));
    assert_eq!(release_vault(ctx(1), &mut state, "0xBBB".to_string(), "eth".to_string()), Err(VaultError::AddressNotFound));
}

#[test]
fn key_map_insert_get_remove() {
    let mut m: KeyMap<String, Vault> = KeyMap::new();
    assert!(m.is_empty());
    m.insert("a".to_string(), Vault { available: true });
    m.insert("b".to_string(), Vault { available: false });
    m.insert("a".to_string(), Vault { available: false });
    assert_eq!(m.get(&"a".to_string()), Some(&Vault { available: false }));
    assert_eq!(m.remove(&"a".to_string()), Some(Vault { available: false }));
    assert_eq!(m.remove(&"a".to_string()), None);
    assert!(m.contains_key(&"b".to_string()));
    assert!(m.pop_entry().is_some());
    assert!(m.pop_entry().is_none());
    assert!(m.is_empty());
}

#[test]
fn claim_any_picks_an_available_vault() {
    let mut state = fresh();
    add_vault(ctx(1), &mut state, vec![nv("eth", "0xAAA"), nv("eth", "0xBBB")]).unwrap();
    use_vault(ctx(1), &mut state, "0xAAA".to_string(), "eth".to_string()).unwrap();
    assert_eq!(use_available_vault(ctx(1), &mut state, "eth".to_string()), Ok("0xBBB".to_string()));
    assert_eq!(vault(&state, 1, "eth", "0xBBB"), Some(Vault { available: false }));
    assert_eq!(vault(&state, 1, "eth", "0xAAA"), Some(Vault { available: false }));
    assert_eq!(
        use_available_vault(ctx(1), &mut state, "eth".to_string()),
        Err(VaultError::NoAvailableVault)
    );
    assert_eq!(vault(&state, 1, "eth", "0xBBB"), Some(Vault { available: false }));
}

#[test]
fn claim_any_refuses_unknown_owner_and_chain() {
    let mut state = fresh();
    assert_eq!(use_available_vault(ctx(1), &mut state, "eth".to_string()), Err(VaultError::OwnerNotFound));
    add_vault(ctx(1), &mut state, vec![nv("eth", "0xAAA")]).unwrap();
    assert_eq!(use_available_vault(ctx(1), &mut state, "btc".to_string()), Err(VaultError::ChainNotFound));
    assert_eq!(use_available_vault(ctx(1), &mut state, "eth".to_string()), Ok("0xAAA".to_string()));
}

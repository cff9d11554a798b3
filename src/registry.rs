//! The vault registry: its data and the operations that change it.

use crate::keymap::{KeyMap, MapKey};
use vstd::prelude::*;

verus! {

/// The kind of account or contract that an address designates.
#[derive(Clone, Copy, Debug, PartialEq, Eq, Structural)]
pub enum AddressType {
    Account,
    SystemContract,
    PublicContract,
    ZkContract,
}

/// The identity of a caller: its kind and a 20-byte identifier.
#[derive(Clone, Copy, Debug)]
pub struct Address {
    pub address_type: AddressType,
    pub identifier: [u8; 20],
}

impl View for Address {
    type V = (AddressType, Seq<u8>);

    open spec fn view(&self) -> (AddressType, Seq<u8>) {
        (self.address_type, self.identifier@)
    }
}

impl MapKey for Address {
    fn same_key(&self, other: &Self) -> (r: bool) {
        if self.address_type != other.address_type {
            return false;
        }
        let mut i: usize = 0;
        while i < 20
            invariant
                i <= 20,
                self.identifier@.len() == 20,
                other.identifier@.len() == 20,
                forall|j: int| 0 <= j < i ==> self.identifier@[j] == other.identifier@[j],
            decreases 20 - i,
        {
            if self.identifier[i] != other.identifier[i] {
                return false;
            }
            i = i + 1;
        }
        assert(self.identifier@ =~= other.identifier@);
        true
    }
}

/// What the environment tells a call about itself: who made it.
#[derive(Clone, Copy, Debug)]
pub struct ContractContext {
    pub sender: Address,
}

/// A tracked resource handle; `available` is false while it is in use.
#[derive(Clone, Copy, Debug, PartialEq, Eq, Structural)]
pub struct Vault {
    pub available: bool,
}

impl View for Vault {
    type V = bool;

    open spec fn view(&self) -> bool {
        self.available
    }
}

/// A vault to declare: the chain it belongs to and its address there.
#[derive(Debug)]
pub struct NewVault {
    pub chain: String,
    pub address: String,
}

impl NewVault {
    pub fn new(chain: String, address: String) -> (r: NewVault)
        ensures
            r.chain@ == chain@,
            r.address@ == address@,
    {
        NewVault { chain, address }
    }
}

/// The vaults of one chain, by address.
pub type ChainVaults = KeyMap<String, Vault>;

/// The vaults of one owner, by chain.
pub type OwnerVaults = KeyMap<String, ChainVaults>;

/// Availability of each address of a chain.
pub type ChainView = Map<Seq<char>, bool>;

/// The chains of an owner, each with its addresses.
pub type OwnerView = Map<Seq<char>, ChainView>;

/// The registry as a map from owner to that owner's chains.
pub type RegistryView = Map<(AddressType, Seq<u8>), OwnerView>;

/// The whole state: the administrator recorded at initialization and the
/// vaults of every owner.
pub struct ContractState {
    pub owner: Address,
    pub vaults: KeyMap<Address, OwnerVaults>,
}

/// Why a call was refused.
#[derive(Clone, Copy, Debug, PartialEq, Eq, Structural)]
pub enum VaultError {
    EmptyInput,
    OwnerNotFound,
    ChainNotFound,
    AddressNotFound,
    VaultInUse,
    NoAvailableVault,
}

/// The chains and addresses that a batch declares, each address available.
pub open spec fn fresh_vaults(batch: Seq<NewVault>) -> OwnerView {
    Map::new(
        |c: Seq<char>| exists|i: int| 0 <= i < batch.len() && #[trigger] batch[i].chain@ == c,
        |c: Seq<char>|
            Map::new(
                |a: Seq<char>|
                    exists|i: int|
                        0 <= i < batch.len() && #[trigger] batch[i].chain@ == c && batch[i].address@
                            == a,
                |a: Seq<char>| true,
            ),
    )
}

/// Builds the chain map that `batch` declares, every vault available.
fn build_chain_map(batch: &Vec<NewVault>) -> (m: OwnerVaults)
    ensures
        m@ == fresh_vaults(batch@),
{
    let mut m: OwnerVaults = KeyMap::new();
    let mut i: usize = 0;
    while i < batch.len()
        invariant
            i <= batch@.len(),
            m@ == fresh_vaults(batch@.take(i as int)),
        decreases batch@.len() - i,
    {
        let chain = batch[i].chain.clone();
        let address = batch[i].address.clone();
        let ghost prev = batch@.take(i as int);
        let ghost next = batch@.take(i + 1);
        let mut chain_map: ChainVaults = match m.remove(&chain) {
            Some(cm) => cm,
            None => KeyMap::new(),
        };
        let ghost before = chain_map@;
        chain_map.insert(address, Vault { available: true });
        m.insert(chain, chain_map);
        proof {
            assert(next[i as int] == batch@[i as int]);
            assert forall|k: int| 0 <= k < i implies #[trigger] next[k] == prev[k] by {}
            let fp = fresh_vaults(prev);
            let fnx = fresh_vaults(next);
            assert(fp.contains_key(chain@) ==> before == fp[chain@]);
            assert(!fp.contains_key(chain@) ==> before == Map::<Seq<char>, bool>::empty());
            assert forall|c: Seq<char>| #[trigger] fnx.contains_key(c) == m@.contains_key(c) by {
                if fnx.contains_key(c) && c != chain@ {
                    let k = choose|k: int| 0 <= k < next.len() && #[trigger] next[k].chain@ == c;
                    assert(prev[k].chain@ == c);
                }
                if fp.contains_key(c) {
                    let k = choose|k: int| 0 <= k < prev.len() && #[trigger] prev[k].chain@ == c;
                    assert(next[k].chain@ == c);
                }
            }
            assert forall|c: Seq<char>| #[trigger] fnx.contains_key(c) implies fnx[c] =~= m@[c] by {
                assert forall|a: Seq<char>| #[trigger] fnx[c].contains_key(a) == m@[c].contains_key(a) by {
                    if fnx[c].contains_key(a) && !(c == chain@ && a == address@) {
                        let k = choose|k: int|
                            0 <= k < next.len() && #[trigger] next[k].chain@ == c && next[k].address@ == a;
                        assert(prev[k].chain@ == c);
                    }
                    if c == chain@ && fp.contains_key(c) && fp[c].contains_key(a) {
                        let k = choose|k: int|
                            0 <= k < prev.len() && #[trigger] prev[k].chain@ == c && prev[k].address@ == a;
                        assert(next[k].chain@ == c);
                    }
                    if c != chain@ && fp.contains_key(c) && fp[c].contains_key(a) {
                        let k = choose|k: int|
                            0 <= k < prev.len() && #[trigger] prev[k].chain@ == c && prev[k].address@ == a;
                        assert(next[k].chain@ == c);
                    }
                }
            }
            assert(fnx =~= m@);
        }
        i = i + 1;
    }
    assert(batch@.take(batch@.len() as int) =~= batch@);
    m
}

/// The vaults that owner `o` has in `reg`; none when `o` has no entry.
pub open spec fn vaults_of(reg: RegistryView, o: (AddressType, Seq<u8>)) -> OwnerView {
    if reg.contains_key(o) {
        reg[o]
    } else {
        Map::empty()
    }
}

/// `fresh` laid over `old`: a chain found on one side only is kept as it
/// is; a chain found on both holds the addresses of both, and an address
/// found on both keeps its availability from `old`.
pub open spec fn merge_vaults(old: OwnerView, fresh: OwnerView) -> OwnerView {
    Map::new(
        |c: Seq<char>| old.contains_key(c) || fresh.contains_key(c),
        |c: Seq<char>|
            if !fresh.contains_key(c) {
                old[c]
            } else if !old.contains_key(c) {
                fresh[c]
            } else {
                fresh[c].union_prefer_right(old[c])
            },
    )
}

/// Moves every vault of `source` into `target`, where `source` wins on an
/// address that both hold.
fn absorb_chain(target: &mut ChainVaults, source: ChainVaults)
    ensures
        final(target)@ == old(target)@.union_prefer_right(source@),
{
    let ghost goal = target@.union_prefer_right(source@);
    let mut rest = source;
    while !rest.is_empty()
        invariant
            target@.union_prefer_right(rest@) == goal,
        decreases rest.size(),
    {
        let ghost (t0, r0) = (target@, rest@);
        match rest.pop_entry() {
            Some((address, vault)) => {
                target.insert(address, vault);
                assert(target@.union_prefer_right(rest@) =~= t0.union_prefer_right(r0));
            },
            None => {},
        }
    }
    assert(target@.union_prefer_right(rest@) =~= target@);
}

/// Lays `merged` over every chain of `old_chains`, as `merge_vaults` says.
fn merge_into(merged: &mut OwnerVaults, old_chains: OwnerVaults)
    ensures
        final(merged)@ == merge_vaults(old_chains@, old(merged)@),
{
    let ghost goal = merge_vaults(old_chains@, merged@);
    let mut rest = old_chains;
    while !rest.is_empty()
        invariant
            merge_vaults(rest@, merged@) == goal,
        decreases rest.size(),
    {
        let ghost (m0, r0) = (merged@, rest@);
        match rest.pop_entry() {
            Some((chain, old_map)) => {
                match merged.remove(&chain) {
                    Some(mut chain_map) => {
                        absorb_chain(&mut chain_map, old_map);
                        merged.insert(chain, chain_map);
                    },
                    None => {
                        merged.insert(chain, old_map);
                    },
                }
                assert(merge_vaults(rest@, merged@) =~= merge_vaults(r0, m0));
            },
            None => {},
        }
    }
    assert(merge_vaults(rest@, merged@) =~= merged@);
}

/// Records a new registry whose administrator is the caller, with no vaults.
pub fn initialize(ctx: ContractContext) -> (state: ContractState)
    ensures
        state.owner == ctx.sender,
        state.vaults@ == RegistryView::empty(),
{
    ContractState { owner: ctx.sender, vaults: KeyMap::new() }
}

/// Declares a batch of vaults for the caller, keeping every vault the caller
/// already had: chains outside the batch stay as they were, and an address
/// already known keeps its availability; new addresses come in available.
pub fn add_vault(context: ContractContext, state: &mut ContractState, new_vaults: Vec<NewVault>) -> (r:
    Result<(), VaultError>)
    ensures
        final(state).owner == old(state).owner,
        new_vaults@.len() == 0 ==> r == Err::<(), VaultError>(VaultError::EmptyInput)
            && final(state).vaults@ == old(state).vaults@,
        new_vaults@.len() > 0 ==> r == Ok::<(), VaultError>(()) && final(state).vaults@
            == old(state).vaults@.insert(
            context.sender@,
            merge_vaults(vaults_of(old(state).vaults@, context.sender@), fresh_vaults(new_vaults@)),
        ),
{
    if new_vaults.len() == 0 {
        return Err(VaultError::EmptyInput);
    }
    let mut merged = build_chain_map(&new_vaults);
    let ghost fresh = merged@;
    match state.vaults.remove(&context.sender) {
        Some(old_chains) => {
            merge_into(&mut merged, old_chains);
        },
        None => {
            assert(merge_vaults(Map::empty(), fresh) =~= fresh);
        },
    }
    state.vaults.insert(context.sender, merged);
    proof {
        assert(state.vaults@ =~= old(state).vaults@.insert(context.sender@, merged@));
    }
    Ok(())
}

/// The refusal that a call on vault `a` of chain `c` of owner `o` meets, if
/// any, checked in this order; with `need_free` a vault in use is refused too.
pub open spec fn vault_fault(
    reg: RegistryView,
    o: (AddressType, Seq<u8>),
    c: Seq<char>,
    a: Seq<char>,
    need_free: bool,
) -> Option<VaultError> {
    if !reg.contains_key(o) {
        Some(VaultError::OwnerNotFound)
    } else if !reg[o].contains_key(c) {
        Some(VaultError::ChainNotFound)
    } else if !reg[o][c].contains_key(a) {
        Some(VaultError::AddressNotFound)
    } else if need_free && !reg[o][c][a] {
        Some(VaultError::VaultInUse)
    } else {
        None
    }
}

/// The result of a call that meets refusal `fault`, or none.
pub open spec fn outcome(fault: Option<VaultError>) -> Result<(), VaultError> {
    match fault {
        Some(e) => Err(e),
        None => Ok(()),
    }
}

/// `reg` with chain `c` of owner `o` replaced by `chain`.
pub open spec fn with_chain(
    reg: RegistryView,
    o: (AddressType, Seq<u8>),
    c: Seq<char>,
    chain: ChainView,
) -> RegistryView {
    reg.insert(o, reg[o].insert(c, chain))
}

fn check_vault(
    vaults: &KeyMap<Address, OwnerVaults>,
    o: &Address,
    chain: &String,
    address: &String,
    need_free: bool,
) -> (r: Result<(), VaultError>)
    ensures
        r == outcome(vault_fault(vaults@, o@, chain@, address@, need_free)),
{
    match vaults.get(o) {
        None => Err(VaultError::OwnerNotFound),
        Some(chains) => match chains.get(chain) {
            None => Err(VaultError::ChainNotFound),
            Some(chain_map) => match chain_map.get(address) {
                None => Err(VaultError::AddressNotFound),
                Some(vault) => {
                    if need_free && !vault.available {
                        Err(VaultError::VaultInUse)
                    } else {
                        Ok(())
                    }
                },
            },
        },
    }
}

/// Takes chain `chain` of owner `o` out of `vaults`, along with the owner's
/// other chains.
fn take_chain(vaults: &mut KeyMap<Address, OwnerVaults>, o: &Address, chain: &String) -> (r: (
    OwnerVaults,
    ChainVaults,
))
    requires
        old(vaults)@.contains_key(o@),
        old(vaults)@[o@].contains_key(chain@),
    ensures
        final(vaults)@ == old(vaults)@.remove(o@),
        r.0@ == old(vaults)@[o@].remove(chain@),
        r.1@ == old(vaults)@[o@][chain@],
{
    match vaults.remove(o) {
        Some(mut chains) => match chains.remove(chain) {
            Some(chain_map) => (chains, chain_map),
            None => (chains, KeyMap::new()),
        },
        None => (KeyMap::new(), KeyMap::new()),
    }
}

/// Puts back what `take_chain` took out, with `chain_map` for the chain.
fn restore_chain(
    vaults: &mut KeyMap<Address, OwnerVaults>,
    o: Address,
    chains: OwnerVaults,
    chain: String,
    chain_map: ChainVaults,
)
    ensures
        final(vaults)@ == old(vaults)@.insert(o@, chains@.insert(chain@, chain_map@)),
{
    let mut chains = chains;
    chains.insert(chain, chain_map);
    vaults.insert(o, chains);
}

/// Deletes a vault of the caller, which must be available. The chain stays,
/// even when this was its last vault.
pub fn remove_vault(
    context: ContractContext,
    state: &mut ContractState,
    vault_address: String,
    vault_chain: String,
) -> (r: Result<(), VaultError>)
    ensures
        final(state).owner == old(state).owner,
        r == outcome(
            vault_fault(old(state).vaults@, context.sender@, vault_chain@, vault_address@, true),
        ),
        r is Err ==> final(state).vaults@ == old(state).vaults@,
        r is Ok ==> final(state).vaults@ == with_chain(
            old(state).vaults@,
            context.sender@,
            vault_chain@,
            old(state).vaults@[context.sender@][vault_chain@].remove(vault_address@),
        ),
{
    let checked = check_vault(&state.vaults, &context.sender, &vault_chain, &vault_address, true);
    if checked.is_err() {
        return checked;
    }
    let (chains, mut chain_map) = take_chain(&mut state.vaults, &context.sender, &vault_chain);
    chain_map.remove(&vault_address);
    restore_chain(&mut state.vaults, context.sender, chains, vault_chain, chain_map);
    proof {
        let reg = old(state).vaults@;
        let o = context.sender@;
        let cm = reg[o][vault_chain@].remove(vault_address@);
        assert(reg[o].remove(vault_chain@).insert(vault_chain@, cm) =~= reg[o].insert(vault_chain@, cm));
        assert(state.vaults@ =~= with_chain(reg, o, vault_chain@, cm));
    }
    Ok(())
}

/// Marks an available vault of the caller as in use.
pub fn use_vault(
    context: ContractContext,
    state: &mut ContractState,
    vault_address: String,
    vault_chain: String,
) -> (r: Result<(), VaultError>)
    ensures
        final(state).owner == old(state).owner,
        r == outcome(
            vault_fault(old(state).vaults@, context.sender@, vault_chain@, vault_address@, true),
        ),
        r is Err ==> final(state).vaults@ == old(state).vaults@,
        r is Ok ==> final(state).vaults@ == with_chain(
            old(state).vaults@,
            context.sender@,
            vault_chain@,
            old(state).vaults@[context.sender@][vault_chain@].insert(vault_address@, false),
        ),
{
    set_availability(context, state, vault_address, vault_chain, false)
}

/// Marks a vault of the caller as available, whether it was in use or not.
pub fn release_vault(
    context: ContractContext,
    state: &mut ContractState,
    vault_address: String,
    vault_chain: String,
) -> (r: Result<(), VaultError>)
    ensures
        final(state).owner == old(state).owner,
        r == outcome(
            vault_fault(old(state).vaults@, context.sender@, vault_chain@, vault_address@, false),
        ),
        r is Err ==> final(state).vaults@ == old(state).vaults@,
        r is Ok ==> final(state).vaults@ == with_chain(
            old(state).vaults@,
            context.sender@,
            vault_chain@,
            old(state).vaults@[context.sender@][vault_chain@].insert(vault_address@, true),
        ),
{
    set_availability(context, state, vault_address, vault_chain, true)
}

/// Sets the availability of a vault of the caller to `available`; marking
/// a vault in use requires it to be available first.
fn set_availability(
    context: ContractContext,
    state: &mut ContractState,
    vault_address: String,
    vault_chain: String,
    available: bool,
) -> (r: Result<(), VaultError>)
    ensures
        final(state).owner == old(state).owner,
        r == outcome(
            vault_fault(old(state).vaults@, context.sender@, vault_chain@, vault_address@, !available),
        ),
        r is Err ==> final(state).vaults@ == old(state).vaults@,
        r is Ok ==> final(state).vaults@ == with_chain(
            old(state).vaults@,
            context.sender@,
            vault_chain@,
            old(state).vaults@[context.sender@][vault_chain@].insert(vault_address@, available),
        ),
{
    let checked = check_vault(&state.vaults, &context.sender, &vault_chain, &vault_address, !available);
    if checked.is_err() {
        return checked;
    }
    let (chains, mut chain_map) = take_chain(&mut state.vaults, &context.sender, &vault_chain);
    chain_map.insert(vault_address, Vault { available });
    restore_chain(&mut state.vaults, context.sender, chains, vault_chain, chain_map);
    proof {
        let reg = old(state).vaults@;
        let o = context.sender@;
        let cm = reg[o][vault_chain@].insert(vault_address@, available);
        assert(reg[o].remove(vault_chain@).insert(vault_chain@, cm) =~= reg[o].insert(vault_chain@, cm));
        assert(state.vaults@ =~= with_chain(reg, o, vault_chain@, cm));
    }
    Ok(())
}

/// Replaces all vaults of the caller, who must already have an entry, by
/// the batch, every vault available. An empty batch leaves no vaults.
pub fn reset_vault(context: ContractContext, state: &mut ContractState, new_vaults: Vec<NewVault>) -> (r:
    Result<(), VaultError>)
    ensures
        final(state).owner == old(state).owner,
        !old(state).vaults@.contains_key(context.sender@) ==> r == Err::<(), VaultError>(
            VaultError::OwnerNotFound,
        ) && final(state).vaults@ == old(state).vaults@,
        old(state).vaults@.contains_key(context.sender@) ==> r == Ok::<(), VaultError>(())
            && final(state).vaults@ == old(state).vaults@.insert(
            context.sender@,
            fresh_vaults(new_vaults@),
        ),
{
    if !state.vaults.contains_key(&context.sender) {
        return Err(VaultError::OwnerNotFound);
    }
    let fresh = build_chain_map(&new_vaults);
    state.vaults.insert(context.sender, fresh);
    Ok(())
}

/// Whether some address of `chain` is available.
pub open spec fn has_available(chain: ChainView) -> bool {
    exists|a: Seq<char>| chain.contains_key(a) && #[trigger] chain[a]
}

/// Marks one available vault of `chain_map` as in use and returns its
/// address; returns `None`, changing nothing, when every vault is in use.
fn claim_any(chain_map: &mut ChainVaults) -> (r: Option<String>)
    ensures
        r is None ==> final(chain_map)@ == old(chain_map)@ && !has_available(old(chain_map)@),
        r is Some ==> {
            let a = r.unwrap()@;
            &&& old(chain_map)@.contains_key(a)
            &&& old(chain_map)@[a]
            &&& final(chain_map)@ == old(chain_map)@.insert(a, false)
        },
{
    let ghost orig = chain_map@;
    let mut rest: ChainVaults = KeyMap::new();
    std::mem::swap(chain_map, &mut rest);
    let mut claimed: Option<String> = None;
    assert(chain_map@.union_prefer_right(rest@) =~= orig);
    while !rest.is_empty()
        invariant
            claimed is None ==> chain_map@.union_prefer_right(rest@) == orig && forall|a: Seq<char>|
                #[trigger] chain_map@.contains_key(a) ==> !chain_map@[a],
            claimed is Some ==> {
                let s = claimed.unwrap()@;
                &&& orig.contains_key(s)
                &&& orig[s]
                &&& chain_map@.union_prefer_right(rest@) == orig.insert(s, false)
            },
        decreases rest.size(),
    {
        let ghost (m0, r0) = (chain_map@, rest@);
        match rest.pop_entry() {
            Some((address, vault)) => {
                if claimed.is_none() && vault.available {
                    claimed = Some(address.clone());
                    chain_map.insert(address, Vault { available: false });
                    assert(chain_map@.union_prefer_right(rest@) =~= orig.insert(claimed.unwrap()@, false));
                } else {
                    chain_map.insert(address, vault);
                    assert(chain_map@.union_prefer_right(rest@) =~= m0.union_prefer_right(r0));
                }
            },
            None => {},
        }
    }
    assert(chain_map@.union_prefer_right(rest@) =~= chain_map@);
    claimed
}

/// Claims some available vault of a chain of the caller and returns its
/// address. This call stands apart from the others: an environment that
/// offers only the keyed calls leaves it out. Which vault it picks among
/// several available ones is left open.
pub fn use_available_vault(context: ContractContext, state: &mut ContractState, vault_chain: String) -> (r:
    Result<String, VaultError>)
    ensures
        final(state).owner == old(state).owner,
        ({
            let reg = old(state).vaults@;
            let o = context.sender@;
            let c = vault_chain@;
            &&& !reg.contains_key(o) ==> r == Err::<String, VaultError>(VaultError::OwnerNotFound)
            &&& reg.contains_key(o) && !reg[o].contains_key(c) ==> r == Err::<String, VaultError>(
                VaultError::ChainNotFound,
            )
            &&& reg.contains_key(o) && reg[o].contains_key(c) && !has_available(reg[o][c]) ==> r
                == Err::<String, VaultError>(VaultError::NoAvailableVault)
            &&& reg.contains_key(o) && reg[o].contains_key(c) && has_available(reg[o][c]) ==> r is Ok
            &&& r is Err ==> final(state).vaults@ == reg
            &&& r is Ok ==> {
                let a = r.unwrap()@;
                &&& reg[o][c].contains_key(a)
                &&& reg[o][c][a]
                &&& final(state).vaults@ == with_chain(reg, o, c, reg[o][c].insert(a, false))
            }
        }),
{
    match state.vaults.get(&context.sender) {
        None => {
            return Err(VaultError::OwnerNotFound);
        },
        Some(chains) => {
            if !chains.contains_key(&vault_chain) {
                return Err(VaultError::ChainNotFound);
            }
        },
    }
    let (chains, mut chain_map) = take_chain(&mut state.vaults, &context.sender, &vault_chain);
    let claimed = claim_any(&mut chain_map);
    let ghost cm = chain_map@;
    restore_chain(&mut state.vaults, context.sender, chains, vault_chain, chain_map);
    proof {
        let reg = old(state).vaults@;
        let o = context.sender@;
        assert(reg[o].remove(vault_chain@).insert(vault_chain@, cm) =~= reg[o].insert(vault_chain@, cm));
        assert(state.vaults@ =~= with_chain(reg, o, vault_chain@, cm));
    }
    match claimed {
        Some(address) => Ok(address),
        None => {
            proof {
                let reg = old(state).vaults@;
                let o = context.sender@;
                assert(reg[o].insert(vault_chain@, cm) =~= reg[o]);
                assert(state.vaults@ =~= reg);
            }
            Err(VaultError::NoAvailableVault)
        },
    }
}

} // verus!

//! Facts about sequences of registry calls, stated over the models that the
//! operations' contracts use.

use crate::registry::{
    fresh_vaults, merge_vaults, vault_fault, vaults_of, with_chain, AddressType, ChainView,
    NewVault, OwnerView, RegistryView, VaultError,
};
use vstd::prelude::*;

verus! {

/// An owner without an entry is refused by every keyed call; a keyed call
/// that succeeds gives it no entry, and neither does a declaring call
/// (`add_vault`, `reset_vault`) made by another owner.
pub proof fn lemma_absent_owner(
    reg: RegistryView,
    caller: (AddressType, Seq<u8>),
    p: (AddressType, Seq<u8>),
    c: Seq<char>,
    a: Seq<char>,
    need_free: bool,
    chain: ChainView,
    declared: OwnerView,
)
    requires
        !reg.contains_key(p),
    ensures
        vault_fault(reg, p, c, a, need_free) == Some(VaultError::OwnerNotFound),
        vault_fault(reg, caller, c, a, need_free) is None ==> !with_chain(
            reg,
            caller,
            c,
            chain,
        ).contains_key(p),
        caller != p ==> !reg.insert(caller, declared).contains_key(p),
{
}

/// Adding a batch loses nothing: every chain that the batch does not name
/// stays exactly as it was, and every address the owner had keeps its
/// availability.
pub proof fn lemma_add_keeps_existing(
    reg: RegistryView,
    o: (AddressType, Seq<u8>),
    batch: Seq<NewVault>,
)
    ensures
        ({
            let old = vaults_of(reg, o);
            let merged = merge_vaults(old, fresh_vaults(batch));
            &&& forall|c: Seq<char>|
                #![trigger merged[c]]
                old.contains_key(c) && !fresh_vaults(batch).contains_key(c) ==> merged.contains_key(c)
                    && merged[c] == old[c]
            &&& forall|c: Seq<char>, a: Seq<char>|
                #![trigger merged[c][a]]
                old.contains_key(c) && old[c].contains_key(a) ==> merged.contains_key(c)
                    && merged[c].contains_key(a) && merged[c][a] == old[c][a]
        }),
{
}

/// After a reset, the owner's vaults are exactly those of the batch, all
/// available: whatever the owner had before, in use or not, is gone.
pub proof fn lemma_reset_replaces(
    reg: RegistryView,
    o: (AddressType, Seq<u8>),
    batch: Seq<NewVault>,
)
    ensures
        ({
            let after = reg.insert(o, fresh_vaults(batch))[o];
            forall|c: Seq<char>, a: Seq<char>|
                #![trigger after[c][a]]
                (after.contains_key(c) && after[c].contains_key(a)) <==> exists|i: int|
                    0 <= i < batch.len() && #[trigger] batch[i].chain@ == c && batch[i].address@
                        == a
        }),
        ({
            let after = reg.insert(o, fresh_vaults(batch))[o];
            forall|c: Seq<char>, a: Seq<char>|
                #![trigger after[c][a]]
                after.contains_key(c) && after[c].contains_key(a) ==> after[c][a]
        }),
{
    let after = reg.insert(o, fresh_vaults(batch))[o];
    assert forall|c: Seq<char>, a: Seq<char>|
        (after.contains_key(c) && after[c].contains_key(a)) <==> exists|i: int|
            0 <= i < batch.len() && #[trigger] batch[i].chain@ == c && batch[i].address@ == a by {
        if exists|i: int| 0 <= i < batch.len() && #[trigger] batch[i].chain@ == c && batch[i].address@ == a {
            let i = choose|i: int| 0 <= i < batch.len() && #[trigger] batch[i].chain@ == c && batch[i].address@ == a;
            assert(batch[i].chain@ == c);
        }
    }
}

/// Claiming a vault makes a second claim of it fail with `VaultInUse`,
/// and so does removing it before it is released.
pub proof fn lemma_use_twice_refused(
    reg: RegistryView,
    o: (AddressType, Seq<u8>),
    c: Seq<char>,
    a: Seq<char>,
)
    requires
        vault_fault(reg, o, c, a, true) is None,
    ensures
        vault_fault(with_chain(reg, o, c, reg[o][c].insert(a, false)), o, c, a, true) == Some(
            VaultError::VaultInUse,
        ),
{
}

/// A vault that was claimed and then released can be removed.
pub proof fn lemma_use_release_remove(
    reg: RegistryView,
    o: (AddressType, Seq<u8>),
    c: Seq<char>,
    a: Seq<char>,
)
    requires
        vault_fault(reg, o, c, a, true) is None,
    ensures
        ({
            let used = with_chain(reg, o, c, reg[o][c].insert(a, false));
            let released = with_chain(used, o, c, used[o][c].insert(a, true));
            &&& vault_fault(used, o, c, a, false) is None
            &&& vault_fault(released, o, c, a, true) is None
        }),
{
}

/// Releasing a vault twice succeeds both times; the vault is available
/// after the first release and the second changes nothing.
pub proof fn lemma_release_idempotent(
    reg: RegistryView,
    o: (AddressType, Seq<u8>),
    c: Seq<char>,
    a: Seq<char>,
)
    requires
        vault_fault(reg, o, c, a, false) is None,
    ensures
        ({
            let once = with_chain(reg, o, c, reg[o][c].insert(a, true));
            &&& vault_fault(once, o, c, a, false) is None
            &&& once[o][c][a]
            &&& with_chain(once, o, c, once[o][c].insert(a, true)) == once
        }),
{
    let once = with_chain(reg, o, c, reg[o][c].insert(a, true));
    assert(once[o][c].insert(a, true) =~= once[o][c]);
    assert(once[o].insert(c, once[o][c]) =~= once[o]);
    assert(with_chain(once, o, c, once[o][c].insert(a, true)) =~= once);
}

} // verus!

use degods_poker::authority::VaultAuthority;

fn addr(tag: u8) -> [u8; 32] {
    let mut a = [0u8; 32];
    a[0] = tag;
    a
}

#[test]
fn vault_authority_is_deterministic_and_recomputable() {
    let entity = addr(42);
    let program = addr(7);
    let a = VaultAuthority::derive(&entity, &program).unwrap();
    let b = VaultAuthority::derive(&entity, &program).unwrap();
    assert_eq!(a.key, b.key);
    assert_eq!(a.bump, b.bump);
}

#[test]
fn vault_authority_is_a_genuine_derivation() {
    // the derived signer address is neither the entity nor the program
    let entity = addr(42);
    let program = addr(7);
    let a = VaultAuthority::derive(&entity, &program).unwrap();
    assert_ne!(a.key, entity);
    assert_ne!(a.key, program);
}

#[test]
fn vault_authority_depends_on_entity_and_program() {
    let a = VaultAuthority::derive(&addr(42), &addr(7)).unwrap();
    let b = VaultAuthority::derive(&addr(43), &addr(7)).unwrap();
    let c = VaultAuthority::derive(&addr(42), &addr(8)).unwrap();
    assert_ne!(a.key, b.key);
    assert_ne!(a.key, c.key);
}

#[test]
fn vault_authority_matches_the_host_derivation() {
    // anyone can recompute the authority with the host toolchain and get
    // the same key and bump
    let entity = addr(42);
    let program_id = anchor_lang::prelude::Pubkey::new_unique();
    let a = VaultAuthority::derive(&entity, &program_id.to_bytes()).unwrap();
    let (expected, bump) =
        anchor_lang::prelude::Pubkey::find_program_address(&[&entity], &program_id);
    assert_eq!(a.key, expected.to_bytes());
    assert_eq!(a.bump, bump);
}

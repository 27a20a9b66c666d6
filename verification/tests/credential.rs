use record_registry::credential::CredProperty;
use record_registry::credential::Credential;
use record_registry::credential::CredentialEvent;
use record_registry::credential::CredentialRegistry;
use record_registry::errors::RegistryError;
use record_registry::ledger::AccountId;
use record_registry::ledger::Moment;
use record_registry::ledger::Origin;
use record_registry::ledger::RecordHash;

const TEST_ORGANIZATION: AccountId = 100;
const TEST_SENDER: AccountId = 1;
const TEST_CRED_ID: &str = "00012345600012";
const TEST_CRED_SUBJ: &str = "Test Event Completion for Dhiway";

pub fn store_test_credential(
    registry: &mut CredentialRegistry,
    id: Vec<u8>,
    owner: AccountId,
    hash: RecordHash,
    registered: Moment,
) {
    let result = registry.register_credential(
        true,
        Origin::Signed(TEST_SENDER),
        id,
        owner,
        hash,
        None,
        registered,
    );
    assert!(result.is_ok());
}

#[test]
fn create_product_without_props() {
    let mut registry = CredentialRegistry::new();
    let sender = TEST_SENDER;
    let id = TEST_CRED_ID.as_bytes().to_owned();
    let owner = TEST_ORGANIZATION;
    let hash: RecordHash = 1;
    let now: Moment = 42;

    let result = registry.register_credential(
        true,
        Origin::Signed(sender),
        id.clone(),
        owner,
        hash,
        None,
        now,
    );

    assert!(result.is_ok());

    assert_eq!(
        registry.cred_by_id(&id),
        Some(&Credential { id: id.clone(), owner, hash, props: None, registered: now })
    );

    assert_eq!(registry.cred_of_org(owner), vec![id.clone()]);
    assert_eq!(registry.issuer_of_cred(&id), Some(owner));
    assert_eq!(registry.cred_by_hash(hash), vec![id.clone()]);

    // The notification is queued
    assert!(registry
        .events()
        .contains(&CredentialEvent { signer: sender, id: id.clone(), hash }));
}

#[test]
fn create_cred_with_valid_props() {
    let mut registry = CredentialRegistry::new();
    let sender = TEST_SENDER;
    let id = TEST_CRED_ID.as_bytes().to_owned();
    let owner = TEST_ORGANIZATION;
    let hash: RecordHash = 1;
    let now: Moment = 42;

    let result = registry.register_credential(
        true,
        Origin::Signed(sender),
        id.clone(),
        owner,
        hash,
        Some(vec![CredProperty::new(TEST_CRED_SUBJ.as_bytes())]),
        now,
    );

    assert!(result.is_ok());

    assert_eq!(
        registry.cred_by_id(&id),
        Some(&Credential {
            id: id.clone(),
            owner,
            hash,
            props: Some(vec![CredProperty::new(TEST_CRED_SUBJ.as_bytes())]),
            registered: now,
        })
    );

    assert_eq!(registry.cred_of_org(owner), vec![id.clone()]);
    assert_eq!(registry.issuer_of_cred(&id), Some(owner));
    assert_eq!(registry.cred_by_hash(hash), vec![id.clone()]);

    // The notification is queued
    assert!(registry
        .events()
        .contains(&CredentialEvent { signer: sender, id: id.clone(), hash }));
}

#[test]
fn create_cred_with_invalid_sender() {
    let mut registry = CredentialRegistry::new();
    let hash: RecordHash = 1;
    let result = registry.register_credential(
        false,
        Origin::Unsigned,
        vec![],
        TEST_ORGANIZATION,
        hash,
        None,
        42,
    );
    assert_eq!(result, Err(RegistryError::Unauthorized));
}

#[test]
fn create_cred_with_missing_id() {
    let mut registry = CredentialRegistry::new();
    let hash: RecordHash = 1;
    let result = registry.register_credential(
        true,
        Origin::Signed(TEST_SENDER),
        vec![],
        TEST_ORGANIZATION,
        hash,
        None,
        42,
    );
    assert_eq!(result, Err(RegistryError::IdMissing));
}

#[test]
fn create_cred_with_long_id() {
    let mut registry = CredentialRegistry::new();
    let hash: RecordHash = 1;
    let result = registry.register_credential(
        true,
        Origin::Signed(TEST_SENDER),
        b"ajasljdfalsjfasdfjasfasdlfjasdflkajdsflkajdsfalksjdfalksdjfadfasdf".to_vec(),
        TEST_ORGANIZATION,
        hash,
        None,
        42,
    );
    assert_eq!(result, Err(RegistryError::IdTooLong));
}

#[test]
fn create_cred_with_existing_id() {
    let mut registry = CredentialRegistry::new();
    let existing_cred = TEST_CRED_ID.as_bytes().to_owned();
    let hash: RecordHash = 1;
    let now: Moment = 42;

    store_test_credential(&mut registry, existing_cred.clone(), TEST_ORGANIZATION, hash, now);

    let result = registry.register_credential(
        true,
        Origin::Signed(TEST_SENDER),
        existing_cred,
        TEST_ORGANIZATION,
        hash,
        None,
        now,
    );
    assert_eq!(result, Err(RegistryError::IdAlreadyExists));
}

#[test]
fn create_cred_with_too_many_props() {
    let mut registry = CredentialRegistry::new();
    let hash: RecordHash = 1;
    let result = registry.register_credential(
        true,
        Origin::Signed(TEST_SENDER),
        TEST_CRED_ID.as_bytes().to_owned(),
        TEST_ORGANIZATION,
        hash,
        Some(vec![
            CredProperty::new(b"Subject to Ashok Kumar"),
            CredProperty::new(b"Subject to John Doe"),
        ]),
        42,
    );
    assert_eq!(result, Err(RegistryError::TooManyProperties));
}

#[test]
fn create_cred_with_invalid_subject() {
    let mut registry = CredentialRegistry::new();
    let hash: RecordHash = 1;
    let result = registry.register_credential(
        true,
        Origin::Signed(TEST_SENDER),
        TEST_CRED_ID.as_bytes().to_owned(),
        TEST_ORGANIZATION,
        hash,
        Some(vec![CredProperty::new(
            b"This is a long event name where I can't get it for a particular person",
        )]),
        42,
    );
    assert_eq!(result, Err(RegistryError::InvalidSubject));
}

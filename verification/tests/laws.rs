//! Concrete checks of the registry laws: refusals change nothing, refusals
//! repeat identically, admissions update all four indices together, and
//! every bound fires exactly at its edge.

use record_registry::credential::CredProperty;
use record_registry::credential::Credential;
use record_registry::credential::CredentialBuilder;
use record_registry::credential::CredentialRegistry;
use record_registry::errors::RegistryError;
use record_registry::ledger::ensure_authorized;
use record_registry::ledger::ensure_signed;
use record_registry::ledger::Origin;
use record_registry::ledger::RecordHash;
use record_registry::schema::Schema;
use record_registry::schema::SchemaBuilder;
use record_registry::schema::SchemaProperty;
use record_registry::schema::SchemaRegistry;
use record_registry::validate::validate_record_id;

const OWNER_A: u64 = 10;
const OWNER_B: u64 = 11;
const SENDER: u64 = 1;

fn registered(registry: &mut CredentialRegistry, id: &[u8], owner: u64, hash: RecordHash) {
    let result = registry.register_credential(
        true,
        Origin::Signed(SENDER),
        id.to_vec(),
        owner,
        hash,
        None,
        42,
    );
    assert_eq!(result, Ok(id.to_vec()));
}

#[test]
fn duplicate_id_leaves_every_index_unchanged() {
    let mut registry = CredentialRegistry::new();
    registered(&mut registry, b"C1", OWNER_A, 7);

    let before_record = registry.cred_by_id(b"C1").cloned();
    let before_owner_a = registry.cred_of_org(OWNER_A);
    let before_owner_b = registry.cred_of_org(OWNER_B);
    let before_issuer = registry.issuer_of_cred(b"C1");
    let before_hash_7 = registry.cred_by_hash(7);
    let before_hash_9 = registry.cred_by_hash(9);
    let before_events = registry.events().clone();

    // A second registration under "C1", even for another owner and hash,
    // is refused and changes nothing.
    let result = registry.register_credential(
        true,
        Origin::Signed(SENDER),
        b"C1".to_vec(),
        OWNER_B,
        9,
        None,
        43,
    );
    assert_eq!(result, Err(RegistryError::IdAlreadyExists));

    assert_eq!(registry.cred_by_id(b"C1").cloned(), before_record);
    assert_eq!(registry.cred_of_org(OWNER_A), before_owner_a);
    assert_eq!(registry.cred_of_org(OWNER_B), before_owner_b);
    assert_eq!(registry.issuer_of_cred(b"C1"), before_issuer);
    assert_eq!(registry.cred_by_hash(7), before_hash_7);
    assert_eq!(registry.cred_by_hash(9), before_hash_9);
    assert_eq!(registry.events(), &before_events);
}

#[test]
fn empty_id_touches_no_index() {
    let mut registry = CredentialRegistry::new();
    let result = registry.register_credential(
        true,
        Origin::Signed(SENDER),
        vec![],
        OWNER_A,
        7,
        None,
        42,
    );
    assert_eq!(result, Err(RegistryError::IdMissing));
    assert_eq!(registry.record_count(), 0);
    assert_eq!(registry.cred_of_org(OWNER_A), Vec::<Vec<u8>>::new());
    assert_eq!(registry.cred_by_hash(7), Vec::<Vec<u8>>::new());
    assert!(registry.events().is_empty());
}

#[test]
fn id_length_bound_fires_exactly_past_twenty_four() {
    let mut registry = CredentialRegistry::new();
    let just_fits = vec![b'x'; 24];
    let too_long = vec![b'x'; 25];

    let result = registry.register_credential(
        true,
        Origin::Signed(SENDER),
        too_long,
        OWNER_A,
        7,
        None,
        42,
    );
    assert_eq!(result, Err(RegistryError::IdTooLong));

    let result = registry.register_credential(
        true,
        Origin::Signed(SENDER),
        just_fits.clone(),
        OWNER_A,
        7,
        None,
        42,
    );
    assert_eq!(result, Ok(just_fits));
}

#[test]
fn count_bound_fires_even_with_valid_fields() {
    let mut registry = CredentialRegistry::new();
    // Both subjects are well within the subject bound; the count alone
    // refuses the list.
    let result = registry.register_credential(
        true,
        Origin::Signed(SENDER),
        b"C1".to_vec(),
        OWNER_A,
        7,
        Some(vec![CredProperty::new(b"first"), CredProperty::new(b"second")]),
        42,
    );
    assert_eq!(result, Err(RegistryError::TooManyProperties));
    assert_eq!(registry.record_count(), 0);
}

#[test]
fn failed_registration_repeats_identically() {
    let mut registry = CredentialRegistry::new();
    let over_long_id = vec![b'y'; 30];

    let first = registry.register_credential(
        true,
        Origin::Signed(SENDER),
        over_long_id.clone(),
        OWNER_A,
        7,
        None,
        42,
    );
    assert_eq!(first, Err(RegistryError::IdTooLong));
    assert_eq!(registry.record_count(), 0);
    assert!(registry.events().is_empty());

    let second = registry.register_credential(
        true,
        Origin::Signed(SENDER),
        over_long_id,
        OWNER_A,
        7,
        None,
        42,
    );
    assert_eq!(second, first);
    assert_eq!(registry.record_count(), 0);
    assert!(registry.events().is_empty());
}

#[test]
fn round_trip_after_admission() {
    let mut registry = CredentialRegistry::new();
    let id = b"00012345600012".to_vec();

    registered(&mut registry, &id, OWNER_A, 7);

    assert_eq!(
        registry.cred_by_id(&id),
        Some(&Credential { id: id.clone(), owner: OWNER_A, hash: 7, props: None, registered: 42 })
    );
    // The owner and hash indices each list the id exactly once.
    assert_eq!(registry.cred_of_org(OWNER_A), vec![id.clone()]);
    assert_eq!(registry.issuer_of_cred(&id), Some(OWNER_A));
    assert_eq!(registry.cred_by_hash(7), vec![id.clone()]);
}

#[test]
fn owner_index_keeps_registration_order() {
    let mut registry = CredentialRegistry::new();
    registered(&mut registry, b"C1", OWNER_A, 7);
    registered(&mut registry, b"C2", OWNER_A, 8);

    assert_eq!(registry.cred_of_org(OWNER_A), vec![b"C1".to_vec(), b"C2".to_vec()]);
}

#[test]
fn shared_hash_lists_both_ids_in_order() {
    let mut registry = CredentialRegistry::new();
    registered(&mut registry, b"C1", OWNER_A, 7);
    registered(&mut registry, b"C2", OWNER_B, 7);

    assert_eq!(registry.cred_by_hash(7), vec![b"C1".to_vec(), b"C2".to_vec()]);
}

#[test]
fn subject_bound_fires_exactly_past_forty_eight() {
    let mut registry = CredentialRegistry::new();
    let subject_49 = vec![b's'; 49];
    let result = registry.register_credential(
        true,
        Origin::Signed(SENDER),
        b"C1".to_vec(),
        OWNER_A,
        7,
        Some(vec![CredProperty::new(&subject_49)]),
        42,
    );
    assert_eq!(result, Err(RegistryError::InvalidSubject));

    let subject_48 = vec![b's'; 48];
    let result = registry.register_credential(
        true,
        Origin::Signed(SENDER),
        b"C1".to_vec(),
        OWNER_A,
        7,
        Some(vec![CredProperty::new(&subject_48)]),
        42,
    );
    assert_eq!(result, Ok(b"C1".to_vec()));
}

#[test]
fn unsigned_but_authorized_call_lacks_a_signer() {
    let mut registry = CredentialRegistry::new();
    let result = registry.register_credential(
        true,
        Origin::Root,
        b"C1".to_vec(),
        OWNER_A,
        7,
        None,
        42,
    );
    assert_eq!(result, Err(RegistryError::NoSigner));
}

#[test]
fn schema_version_bounds() {
    let mut registry = SchemaRegistry::new();

    let result = registry.register_schema(
        true,
        Origin::Signed(SENDER),
        b"S1".to_vec(),
        OWNER_A,
        7,
        vec![],
        None,
        42,
    );
    assert_eq!(result, Err(RegistryError::VersionMissing));

    let version_9 = vec![b'v'; 9];
    let result = registry.register_schema(
        true,
        Origin::Signed(SENDER),
        b"S1".to_vec(),
        OWNER_A,
        7,
        version_9,
        None,
        42,
    );
    assert_eq!(result, Err(RegistryError::InvalidVersion));

    let version_8 = vec![b'v'; 8];
    let result = registry.register_schema(
        true,
        Origin::Signed(SENDER),
        b"S1".to_vec(),
        OWNER_A,
        7,
        version_8,
        None,
        42,
    );
    assert_eq!(result, Ok(b"S1".to_vec()));
}

#[test]
fn schema_property_bounds() {
    let mut registry = SchemaRegistry::new();

    // Four properties fit; the name and description bounds fire exactly
    // past 24 and 256 bytes.
    let four_props = vec![
        SchemaProperty::new(b"n1", b"d1"),
        SchemaProperty::new(b"n2", b"d2"),
        SchemaProperty::new(b"n3", b"d3"),
        SchemaProperty::new(&vec![b'n'; 24], &vec![b'd'; 256]),
    ];
    let result = registry.register_schema(
        true,
        Origin::Signed(SENDER),
        b"S1".to_vec(),
        OWNER_A,
        7,
        b"v1".to_vec(),
        Some(four_props),
        42,
    );
    assert_eq!(result, Ok(b"S1".to_vec()));

    let result = registry.register_schema(
        true,
        Origin::Signed(SENDER),
        b"S2".to_vec(),
        OWNER_A,
        7,
        b"v1".to_vec(),
        Some(vec![SchemaProperty::new(&vec![b'n'; 25], b"d")]),
        42,
    );
    assert_eq!(result, Err(RegistryError::InvalidName));

    let result = registry.register_schema(
        true,
        Origin::Signed(SENDER),
        b"S2".to_vec(),
        OWNER_A,
        7,
        b"v1".to_vec(),
        Some(vec![SchemaProperty::new(b"n", &vec![b'd'; 257])]),
        42,
    );
    assert_eq!(result, Err(RegistryError::InvalidDescription));
}

#[test]
fn schema_indices_round_trip() {
    let mut registry = SchemaRegistry::new();
    let result = registry.register_schema(
        true,
        Origin::Signed(SENDER),
        b"S1".to_vec(),
        OWNER_A,
        7,
        b"v1".to_vec(),
        None,
        42,
    );
    assert_eq!(result, Ok(b"S1".to_vec()));
    let result = registry.register_schema(
        true,
        Origin::Signed(SENDER),
        b"S2".to_vec(),
        OWNER_A,
        7,
        b"v2".to_vec(),
        None,
        43,
    );
    assert_eq!(result, Ok(b"S2".to_vec()));

    assert_eq!(registry.schemas_of_org(OWNER_A), vec![b"S1".to_vec(), b"S2".to_vec()]);
    assert_eq!(registry.schema_by_hash(7), vec![b"S1".to_vec(), b"S2".to_vec()]);
    assert_eq!(registry.owner_of_schema(b"S1"), Some(OWNER_A));
    assert_eq!(registry.owner_of_schema(b"S3"), None);
    assert!(registry.schema_by_id(b"S3").is_none());
}

#[test]
fn validators_stand_alone() {
    assert_eq!(validate_record_id(b""), Err(RegistryError::IdMissing));
    assert_eq!(validate_record_id(&vec![b'a'; 25]), Err(RegistryError::IdTooLong));
    assert_eq!(validate_record_id(b"a"), Ok(()));

    assert_eq!(
        CredentialRegistry::validate_cred_id(b"00012345600012"),
        Ok(())
    );
    assert_eq!(
        CredentialRegistry::validate_cred_props(&Some(vec![CredProperty::new(&vec![b's'; 49])])),
        Err(RegistryError::InvalidSubject)
    );
    assert_eq!(CredentialRegistry::validate_cred_props(&None), Ok(()));

    assert_eq!(SchemaRegistry::validate_schema_id(b""), Err(RegistryError::IdMissing));
    assert_eq!(SchemaRegistry::validate_schema_version(b""), Err(RegistryError::VersionMissing));
    assert_eq!(
        SchemaRegistry::validate_schema_version(&vec![b'v'; 9]),
        Err(RegistryError::InvalidVersion)
    );
    assert_eq!(SchemaRegistry::validate_schema_version(b"v1"), Ok(()));
    assert_eq!(
        SchemaRegistry::validate_schema_props(&Some(vec![
            SchemaProperty::new(b"n1", b"d1"),
            SchemaProperty::new(&vec![b'n'; 25], b"d2"),
        ])),
        Err(RegistryError::InvalidName)
    );

    let registry = CredentialRegistry::new();
    assert_eq!(registry.validate_new_credential(b"C1"), Ok(()));
}

#[test]
fn ledger_boundary_checks() {
    assert_eq!(ensure_signed(Origin::Signed(5)), Ok(5));
    assert_eq!(ensure_signed(Origin::Root), Err(RegistryError::NoSigner));
    assert_eq!(ensure_signed(Origin::Unsigned), Err(RegistryError::NoSigner));
    assert_eq!(ensure_authorized(true), Ok(()));
    assert_eq!(ensure_authorized(false), Err(RegistryError::Unauthorized));
}

#[test]
fn builder_assembles_what_it_was_given() {
    let credential = CredentialBuilder::default()
        .identified_by(b"C1".to_vec())
        .owned_by(OWNER_A)
        .credential_hash(7)
        .registered_on(42)
        .with_props(Some(vec![CredProperty::new(b"subject")]))
        .build();
    assert_eq!(
        credential,
        Credential {
            id: b"C1".to_vec(),
            owner: OWNER_A,
            hash: 7,
            props: Some(vec![CredProperty::new(b"subject")]),
            registered: 42,
        }
    );
    assert_eq!(credential.props.as_ref().unwrap()[0].subject(), b"subject");
}

#[test]
fn error_precedence_follows_check_order() {
    let mut registry = CredentialRegistry::new();
    let too_many = Some(vec![CredProperty::new(b"one"), CredProperty::new(b"two")]);

    // An unauthorized call is refused before its empty id is looked at.
    let result = registry.register_credential(
        false,
        Origin::Signed(SENDER),
        vec![],
        OWNER_A,
        7,
        too_many.clone(),
        42,
    );
    assert_eq!(result, Err(RegistryError::Unauthorized));

    // An authorized unsigned call is refused before its empty id is looked at.
    let result = registry.register_credential(
        true,
        Origin::Unsigned,
        vec![],
        OWNER_A,
        7,
        too_many.clone(),
        42,
    );
    assert_eq!(result, Err(RegistryError::NoSigner));

    // The over-long id is refused before the over-long property list.
    let result = registry.register_credential(
        true,
        Origin::Signed(SENDER),
        vec![b'x'; 25],
        OWNER_A,
        7,
        too_many.clone(),
        42,
    );
    assert_eq!(result, Err(RegistryError::IdTooLong));

    // With a valid id, the property list is the first refusal left.
    let result = registry.register_credential(
        true,
        Origin::Signed(SENDER),
        b"C1".to_vec(),
        OWNER_A,
        7,
        too_many,
        42,
    );
    assert_eq!(result, Err(RegistryError::TooManyProperties));

    // A schema's empty version is refused before its over-long property list.
    let mut schemas = SchemaRegistry::new();
    let result = schemas.register_schema(
        true,
        Origin::Signed(SENDER),
        b"S1".to_vec(),
        OWNER_A,
        7,
        vec![],
        Some(vec![SchemaProperty::new(&vec![b'n'; 25], b"d")]),
        42,
    );
    assert_eq!(result, Err(RegistryError::VersionMissing));
}

#[test]
fn schema_builder_assembles_what_it_was_given() {
    let schema = SchemaBuilder::default()
        .identified_by(b"S1".to_vec())
        .owned_by(OWNER_A)
        .schema_hash(7)
        .schema_version(b"v1".to_vec())
        .registered_on(42)
        .with_props(None)
        .build();
    assert_eq!(
        schema,
        Schema {
            id: b"S1".to_vec(),
            owner: OWNER_A,
            hash: 7,
            version: b"v1".to_vec(),
            props: None,
            registered: 42,
        }
    );
    let prop = SchemaProperty::new(b"a name", b"a description");
    assert_eq!(prop.name(), b"a name");
    assert_eq!(prop.desc(), b"a description");
}

#[test]
fn notifications_queue_in_admission_order() {
    let mut registry = CredentialRegistry::new();
    registered(&mut registry, b"C1", OWNER_A, 7);
    registered(&mut registry, b"C2", OWNER_B, 8);

    let events = registry.events();
    assert_eq!(events.len(), 2);
    assert_eq!(events[0].id, b"C1".to_vec());
    assert_eq!(events[0].signer, SENDER);
    assert_eq!(events[0].hash, 7);
    assert_eq!(events[1].id, b"C2".to_vec());
    assert_eq!(events[1].hash, 8);
}

#[test]
fn moments_carry_the_oracle_reading() {
    let mut registry = CredentialRegistry::new();
    registered(&mut registry, b"C1", OWNER_A, 7);
    assert_eq!(registry.last_registered_at(), 42);
    let result = registry.register_credential(
        true,
        Origin::Signed(SENDER),
        b"C2".to_vec(),
        OWNER_A,
        7,
        None,
        50,
    );
    assert_eq!(result, Ok(b"C2".to_vec()));
    assert_eq!(registry.last_registered_at(), 50);
    assert_eq!(registry.cred_by_id(b"C2").unwrap().registered, 50);
}

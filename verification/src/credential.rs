//! The credential registry.
//!
//! A credential is an immutable record: an id of 1 to 24 bytes, unique
//! across the registry, an owning account, an opaque content hash, at most
//! one property (a subject of at most 48 bytes), and the ledger moment at
//! which it was admitted. Admission validates the fields in a fixed order,
//! refuses duplicates, then updates the primary map and the three derived
//! indices together and queues a notification.

use vstd::multiset::Multiset;
use vstd::prelude::*;

use crate::bytes::bytes_eq;
use crate::bytes::clone_bytes;
use crate::bytes::copy_bytes;
use crate::errors::RegistryError;
use crate::index::account_with_id;
use crate::index::ids_with_key;
use crate::index::AccountLog;
use crate::index::KeyedIdLog;
use crate::ledger;
use crate::ledger::AccountId;
use crate::ledger::Moment;
use crate::ledger::Origin;
use crate::ledger::RecordHash;
use crate::validate;
use crate::validate::id_check;

verus! {

/// The longest admissible credential id, in bytes.
pub const CRED_ID_MAX_LENGTH: usize = validate::ID_MAX_LENGTH;

/// The longest admissible property subject, in bytes.
pub const CRED_SUBJ_MAX_LENGTH: usize = 48;

/// The most properties a credential may carry.
pub const CRED_MAX_PROPS: usize = 1;

/// A credential id: a byte string, the registry's primary key.
pub type CredId = Vec<u8>;

/// A property subject: a byte string.
pub type CredSubject = Vec<u8>;

/// A single credential property: the subject the credential speaks of.
#[derive(Clone, Debug, PartialEq, Eq)]
pub struct CredProperty {
    subject: CredSubject,
}

impl View for CredProperty {
    type V = Seq<u8>;

    closed spec fn view(&self) -> Seq<u8> {
        self.subject@
    }
}

impl CredProperty {
    /// A property holding a copy of `subject`.
    pub fn new(subject: &[u8]) -> (p: Self)
        ensures
            p@ == subject@,
    {
        CredProperty { subject: copy_bytes(subject) }
    }

    /// The property's subject.
    pub fn subject(&self) -> (s: &[u8])
        ensures
            s@ == self@,
    {
        self.subject.as_slice()
    }
}

/// The abstract value of a credential: every field as a mathematical value.
pub ghost struct CredentialView {
    pub id: Seq<u8>,
    pub owner: AccountId,
    pub hash: RecordHash,
    pub props: Option<Seq<Seq<u8>>>,
    pub registered: Moment,
}

/// The abstract value of an optional property list: each property reduced
/// to its subject.
pub open spec fn props_view(props: Option<Vec<CredProperty>>) -> Option<Seq<Seq<u8>>> {
    match props {
        Some(ps) => Some(ps@.map_values(|p: CredProperty| p@)),
        None => None,
    }
}

/// An immutable credential record.
#[derive(Clone, Debug, PartialEq, Eq)]
pub struct Credential {
    pub id: CredId,
    pub owner: AccountId,
    pub hash: RecordHash,
    pub props: Option<Vec<CredProperty>>,
    pub registered: Moment,
}

impl View for Credential {
    type V = CredentialView;

    open spec fn view(&self) -> CredentialView {
        CredentialView {
            id: self.id@,
            owner: self.owner,
            hash: self.hash,
            props: props_view(self.props),
            registered: self.registered,
        }
    }
}

/// Assembles a credential field by field. The builder never validates: it
/// is pure assembly, called only after every validator has passed.
pub struct CredentialBuilder {
    id: CredId,
    owner: AccountId,
    hash: RecordHash,
    props: Option<Vec<CredProperty>>,
    registered: Moment,
}

impl View for CredentialBuilder {
    type V = CredentialView;

    closed spec fn view(&self) -> CredentialView {
        CredentialView {
            id: self.id@,
            owner: self.owner,
            hash: self.hash,
            props: props_view(self.props),
            registered: self.registered,
        }
    }
}

impl Default for CredentialBuilder {
    /// A builder with every field unset: empty id, the zero account, the
    /// zero hash, no properties, the zero moment.
    fn default() -> (b: Self)
        ensures
            b@ == (CredentialView {
                id: Seq::<u8>::empty(),
                owner: 0,
                hash: 0,
                props: None,
                registered: 0,
            }),
    {
        let b = CredentialBuilder { id: Vec::new(), owner: 0, hash: 0, props: None, registered: 0 };
        proof {
            assert(b@.id =~= Seq::<u8>::empty());
        }
        b
    }
}

impl CredentialBuilder {
    /// Sets the record id.
    pub fn identified_by(self, id: CredId) -> (b: Self)
        ensures
            b@ == (CredentialView { id: id@, ..self@ }),
    {
        CredentialBuilder { id, ..self }
    }

    /// Sets the owning account.
    pub fn owned_by(self, owner: AccountId) -> (b: Self)
        ensures
            b@ == (CredentialView { owner, ..self@ }),
    {
        CredentialBuilder { owner, ..self }
    }

    /// Sets the content hash.
    pub fn credential_hash(self, hash: RecordHash) -> (b: Self)
        ensures
            b@ == (CredentialView { hash, ..self@ }),
    {
        CredentialBuilder { hash, ..self }
    }

    /// Sets the property list.
    pub fn with_props(self, props: Option<Vec<CredProperty>>) -> (b: Self)
        ensures
            b@ == (CredentialView { props: props_view(props), ..self@ }),
    {
        CredentialBuilder { props, ..self }
    }

    /// Sets the admission moment.
    pub fn registered_on(self, registered: Moment) -> (b: Self)
        ensures
            b@ == (CredentialView { registered, ..self@ }),
    {
        CredentialBuilder { registered, ..self }
    }

    /// The assembled record.
    pub fn build(self) -> (c: Credential)
        ensures
            c@ == self@,
    {
        Credential {
            id: self.id,
            owner: self.owner,
            hash: self.hash,
            props: self.props,
            registered: self.registered,
        }
    }
}

/// The verdict on a property list, property by property in order: a list
/// over the count bound is refused whole; otherwise the first over-long
/// subject is refused.
pub open spec fn cred_props_check(props: Option<Seq<Seq<u8>>>) -> Result<(), RegistryError> {
    match props {
        Some(ps) => if ps.len() > CRED_MAX_PROPS {
            Err(RegistryError::TooManyProperties)
        } else {
            subjects_check(ps)
        },
        None => Ok(()),
    }
}

/// The verdict on the subjects of a property list, in order.
pub open spec fn subjects_check(ps: Seq<Seq<u8>>) -> Result<(), RegistryError>
    decreases ps.len(),
{
    if ps.len() == 0 {
        Ok(())
    } else if ps[0].len() > CRED_SUBJ_MAX_LENGTH {
        Err(RegistryError::InvalidSubject)
    } else {
        subjects_check(ps.drop_first())
    }
}

/// Whether a record meets every per-record bound the validators enforce.
pub open spec fn valid_record(c: CredentialView) -> bool {
    id_check(c.id) is Ok && cred_props_check(c.props) is Ok
}

/// The registered record with the given id: the admission log, searched
/// from the most recent record back.
pub open spec fn lookup_record(rs: Seq<CredentialView>, id: Seq<u8>) -> Option<CredentialView>
    decreases rs.len(),
{
    if rs.len() == 0 {
        None
    } else if rs.last().id == id {
        Some(rs.last())
    } else {
        lookup_record(rs.drop_last(), id)
    }
}

/// Whether no two records in the log share an id.
pub open spec fn unique_ids(rs: Seq<CredentialView>) -> bool {
    forall|i: int, j: int|
        #![trigger rs[i], rs[j]]
        0 <= i < j < rs.len() ==> rs[i].id != rs[j].id
}

/// The admission log projected to (owner, id) pairs.
pub open spec fn owner_pairs(rs: Seq<CredentialView>) -> Seq<(u64, Seq<u8>)> {
    rs.map_values(|c: CredentialView| (c.owner, c.id))
}

/// The admission log projected to (id, owner) pairs.
pub open spec fn issuer_pairs(rs: Seq<CredentialView>) -> Seq<(Seq<u8>, u64)> {
    rs.map_values(|c: CredentialView| (c.id, c.owner))
}

/// The admission log projected to (hash, id) pairs.
pub open spec fn hash_pairs(rs: Seq<CredentialView>) -> Seq<(u64, Seq<u8>)> {
    rs.map_values(|c: CredentialView| (c.hash, c.id))
}

/// A notification queued on a successful admission, for the ledger's
/// event sink.
#[derive(Clone, Debug, PartialEq, Eq)]
pub struct CredentialEvent {
    pub signer: AccountId,
    pub id: CredId,
    pub hash: RecordHash,
}

/// The abstract value of a queued notification.
pub ghost struct CredentialEventView {
    pub signer: AccountId,
    pub id: Seq<u8>,
    pub hash: RecordHash,
}

impl View for CredentialEvent {
    type V = CredentialEventView;

    open spec fn view(&self) -> CredentialEventView {
        CredentialEventView { signer: self.signer, id: self.id@, hash: self.hash }
    }
}

/// The abstract state of the credential registry: the admission log and
/// the queued notifications. Every index is a function of the log.
pub ghost struct CredentialRegistryView {
    pub records: Seq<CredentialView>,
    pub events: Seq<CredentialEventView>,
}

impl CredentialRegistryView {
    /// The record registered under `id`, if any.
    pub open spec fn by_id(self, id: Seq<u8>) -> Option<CredentialView> {
        lookup_record(self.records, id)
    }

    /// Whether a record is registered under `id`.
    pub open spec fn contains_id(self, id: Seq<u8>) -> bool {
        self.by_id(id) is Some
    }

    /// The ids registered for `owner`, in registration order.
    pub open spec fn by_owner(self, owner: AccountId) -> Seq<Seq<u8>> {
        ids_with_key(owner_pairs(self.records), owner)
    }

    /// The owning account of the record registered under `id`, if any.
    pub open spec fn owner_of(self, id: Seq<u8>) -> Option<AccountId> {
        account_with_id(issuer_pairs(self.records), id)
    }

    /// The ids registered under `hash`, in registration order.
    pub open spec fn by_hash(self, hash: RecordHash) -> Seq<Seq<u8>> {
        ids_with_key(hash_pairs(self.records), hash)
    }

    /// The moment of the most recent admission, or zero before any.
    pub open spec fn latest_moment(self) -> Moment {
        if self.records.len() == 0 {
            0
        } else {
            self.records.last().registered
        }
    }

    /// The registry's structural invariant: ids are unique, every record
    /// meets the validators' bounds, and admission moments never decrease.
    pub open spec fn inv(self) -> bool {
        &&& unique_ids(self.records)
        &&& (forall|i: int| 0 <= i < self.records.len() ==> valid_record(#[trigger] self.records[i]))
        &&& (forall|i: int, j: int|
            #![trigger self.records[i], self.records[j]]
            0 <= i <= j < self.records.len() ==> self.records[i].registered
                <= self.records[j].registered)
    }
}

/// The verdict on a registration, checked in the fixed order the engine
/// uses: capability, signer, id, properties, existence. The first
/// violated constraint decides the error.
pub open spec fn register_check(
    v: CredentialRegistryView,
    authorized: bool,
    origin: Origin,
    id: Seq<u8>,
    props: Option<Seq<Seq<u8>>>,
) -> Result<(), RegistryError> {
    if !authorized {
        Err(RegistryError::Unauthorized)
    } else if !origin.is_signed() {
        Err(RegistryError::NoSigner)
    } else if id_check(id) is Err {
        id_check(id)
    } else if cred_props_check(props) is Err {
        cred_props_check(props)
    } else if v.contains_id(id) {
        Err(RegistryError::IdAlreadyExists)
    } else {
        Ok(())
    }
}

/// The record an admissible registration stores.
pub open spec fn built_credential(
    id: Seq<u8>,
    owner: AccountId,
    hash: RecordHash,
    props: Option<Seq<Seq<u8>>>,
    now: Moment,
) -> CredentialView {
    CredentialView { id, owner, hash, props, registered: now }
}

/// The registry state after a registration: unchanged when the check
/// refuses it, one appended record and one queued notification otherwise.
pub open spec fn register_next(
    v: CredentialRegistryView,
    authorized: bool,
    origin: Origin,
    id: Seq<u8>,
    owner: AccountId,
    hash: RecordHash,
    props: Option<Seq<Seq<u8>>>,
    now: Moment,
) -> CredentialRegistryView {
    if register_check(v, authorized, origin, id, props) is Ok {
        CredentialRegistryView {
            records: v.records.push(built_credential(id, owner, hash, props, now)),
            events: v.events.push(
                CredentialEventView { signer: origin.signer(), id, hash },
            ),
        }
    } else {
        v
    }
}

/// What a registration returns: the id as confirmation, or the first
/// violated constraint.
pub open spec fn register_outcome(
    v: CredentialRegistryView,
    authorized: bool,
    origin: Origin,
    id: Seq<u8>,
    props: Option<Seq<Seq<u8>>>,
) -> Result<Seq<u8>, RegistryError> {
    match register_check(v, authorized, origin, id, props) {
        Ok(()) => Ok(id),
        Err(e) => Err(e),
    }
}

/// The credential registry: the admission log, the three derived indices,
/// and the queued notifications.
pub struct CredentialRegistry {
    records: Vec<Credential>,
    owner_index: KeyedIdLog,
    issuer_index: AccountLog,
    hash_index: KeyedIdLog,
    events: Vec<CredentialEvent>,
}

impl View for CredentialRegistry {
    type V = CredentialRegistryView;

    closed spec fn view(&self) -> CredentialRegistryView {
        CredentialRegistryView {
            records: self.records@.map_values(|c: Credential| c@),
            events: self.events@.map_values(|e: CredentialEvent| e@),
        }
    }
}

impl CredentialRegistry {
    /// The registry's well-formedness: the abstract invariant holds and
    /// each index equals the corresponding projection of the admission log.
    pub closed spec fn wf(self) -> bool {
        &&& self@.inv()
        &&& self.owner_index.log() == owner_pairs(self@.records)
        &&& self.issuer_index.log() == issuer_pairs(self@.records)
        &&& self.hash_index.log() == hash_pairs(self@.records)
    }

    /// An empty registry.
    pub fn new() -> (registry: Self)
        ensures
            registry.wf(),
            registry@.records == Seq::<CredentialView>::empty(),
            registry@.events == Seq::<CredentialEventView>::empty(),
    {
        let registry = CredentialRegistry {
            records: Vec::new(),
            owner_index: KeyedIdLog::new(),
            issuer_index: AccountLog::new(),
            hash_index: KeyedIdLog::new(),
            events: Vec::new(),
        };
        proof {
            assert(registry@.records =~= Seq::<CredentialView>::empty());
            assert(registry@.events =~= Seq::<CredentialEventView>::empty());
            assert(owner_pairs(registry@.records) =~= Seq::<(u64, Seq<u8>)>::empty());
            assert(issuer_pairs(registry@.records) =~= Seq::<(Seq<u8>, u64)>::empty());
            assert(hash_pairs(registry@.records) =~= Seq::<(u64, Seq<u8>)>::empty());
        }
        registry
    }

    /// Checks a credential id against the shared id bounds.
    pub fn validate_cred_id(id: &[u8]) -> (r: Result<(), RegistryError>)
        ensures
            r == id_check(id@),
    {
        validate::validate_record_id(id)
    }

    /// Checks a property list: the count bound first, then each subject
    /// in order.
    pub fn validate_cred_props(props: &Option<Vec<CredProperty>>) -> (r: Result<
        (),
        RegistryError,
    >)
        ensures
            r == cred_props_check(props_view(*props)),
    {
        match props {
            Some(ps) => {
                if ps.len() > CRED_MAX_PROPS {
                    return Err(RegistryError::TooManyProperties);
                }
                let ghost subjects = ps@.map_values(|p: CredProperty| p@);
                proof {
                    assert(subjects.skip(0) =~= subjects);
                }
                let n = ps.len();
                let mut i: usize = 0;
                while i < n
                    invariant
                        i <= n,
                        n == ps@.len(),
                        subjects == ps@.map_values(|p: CredProperty| p@),
                        subjects.len() <= CRED_MAX_PROPS,
                        props_view(*props) == Some::<Seq<Seq<u8>>>(subjects),
                        subjects_check(subjects) == subjects_check(subjects.skip(i as int)),
                    decreases n - i,
                {
                    proof {
                        assert(subjects.skip(i as int)[0] == subjects[i as int]);
                    }
                    if ps[i].subject().len() > CRED_SUBJ_MAX_LENGTH {
                        proof {
                            assert(subjects[i as int] == ps@[i as int]@);
                            assert(subjects.skip(i as int).len() == n - i);
                        }
                        return Err(RegistryError::InvalidSubject);
                    }
                    proof {
                        assert(subjects.skip(i as int).drop_first() =~= subjects.skip(
                            i as int + 1,
                        ));
                    }
                    i += 1;
                }
                proof {
                    assert(subjects.skip(n as int) =~= Seq::<Seq<u8>>::empty());
                }
                Ok(())
            },
            None => Ok(()),
        }
    }

    /// Checks that no record is registered under `id` yet.
    pub fn validate_new_credential(&self, id: &[u8]) -> (r: Result<(), RegistryError>)
        ensures
            r == (if self@.contains_id(id@) {
                Err::<(), RegistryError>(RegistryError::IdAlreadyExists)
            } else {
                Ok::<(), RegistryError>(())
            }),
    {
        match self.cred_by_id(id) {
            Some(_) => Err(RegistryError::IdAlreadyExists),
            None => Ok(()),
        }
    }

    /// The record registered under `id`, if any.
    pub fn cred_by_id(&self, id: &[u8]) -> (r: Option<&Credential>)
        ensures
            match r {
                Some(c) => self@.by_id(id@) == Some(c@),
                None => self@.by_id(id@) is None,
            },
    {
        let ghost rs = self@.records;
        let mut i: usize = self.records.len();
        proof {
            assert(rs.take(i as int) =~= rs);
        }
        while i > 0
            invariant
                i <= self.records.len(),
                rs == self@.records,
                lookup_record(rs, id@) == lookup_record(rs.take(i as int), id@),
            decreases i,
        {
            i -= 1;
            proof {
                assert(rs.take(i as int + 1).drop_last() =~= rs.take(i as int));
                assert(rs.take(i as int + 1).last() == rs[i as int]);
            }
            if bytes_eq(self.records[i].id.as_slice(), id) {
                return Some(&self.records[i]);
            }
        }
        proof {
            assert(rs.take(0) =~= Seq::<CredentialView>::empty());
        }
        None
    }

    /// The ids registered for `org`, in registration order.
    pub fn cred_of_org(&self, org: AccountId) -> (ids: Vec<CredId>)
        requires
            self.wf(),
        ensures
            ids.deep_view() == self@.by_owner(org),
    {
        self.owner_index.ids_for_key(org)
    }

    /// The issuing account of the record registered under `id`, if any.
    pub fn issuer_of_cred(&self, id: &[u8]) -> (r: Option<AccountId>)
        requires
            self.wf(),
        ensures
            r == self@.owner_of(id@),
    {
        self.issuer_index.lookup(id)
    }

    /// The ids registered under `hash`, in registration order.
    pub fn cred_by_hash(&self, hash: RecordHash) -> (ids: Vec<CredId>)
        requires
            self.wf(),
        ensures
            ids.deep_view() == self@.by_hash(hash),
    {
        self.hash_index.ids_for_key(hash)
    }

    /// The notifications queued so far, in admission order.
    pub fn events(&self) -> (events: &Vec<CredentialEvent>)
        ensures
            events@.map_values(|e: CredentialEvent| e@) == self@.events,
    {
        &self.events
    }

    /// How many records are registered.
    pub fn record_count(&self) -> (n: usize)
        ensures
            n == self@.records.len(),
    {
        self.records.len()
    }

    /// The moment of the most recent admission, or zero before any. The
    /// ledger's clock never runs behind this value.
    pub fn last_registered_at(&self) -> (m: Moment)
        ensures
            m == self@.latest_moment(),
    {
        let n = self.records.len();
        if n == 0 {
            0
        } else {
            self.records[n - 1].registered
        }
    }

    /// Registers a credential: checks the capability verdict, the signer,
    /// the id, the properties and the id's freshness, in that order; on
    /// success stores the record, updates the three indices and queues a
    /// notification, returning the id as confirmation. A refused call
    /// leaves the registry exactly as it was.
    pub fn register_credential(
        &mut self,
        authorized: bool,
        origin: Origin,
        id: CredId,
        owner: AccountId,
        hash: RecordHash,
        props: Option<Vec<CredProperty>>,
        now: Moment,
    ) -> (r: Result<CredId, RegistryError>)
        requires
            old(self).wf(),
            now >= old(self)@.latest_moment(),
        ensures
            final(self).wf(),
            final(self)@ == register_next(
                old(self)@,
                authorized,
                origin,
                id@,
                owner,
                hash,
                props_view(props),
                now,
            ),
            (match r {
                Ok(rid) => register_outcome(old(self)@, authorized, origin, id@, props_view(props))
                    == Ok::<Seq<u8>, RegistryError>(rid@),
                Err(e) => register_outcome(old(self)@, authorized, origin, id@, props_view(props))
                    == Err::<Seq<u8>, RegistryError>(e),
            }),
            register_check(old(self)@, authorized, origin, id@, props_view(props)) is Err
                ==> *final(self) == *old(self),
    {
        if let Err(e) = ledger::ensure_authorized(authorized) {
            return Err(e);
        }
        let who = match ledger::ensure_signed(origin) {
            Ok(account) => account,
            Err(e) => {
                return Err(e);
            },
        };
        if let Err(e) = Self::validate_cred_id(id.as_slice()) {
            return Err(e);
        }
        if let Err(e) = Self::validate_cred_props(&props) {
            return Err(e);
        }
        if let Err(e) = self.validate_new_credential(id.as_slice()) {
            return Err(e);
        }
        let ghost prior = self@;
        let record = CredentialBuilder::default()
            .identified_by(clone_bytes(&id))
            .owned_by(owner)
            .credential_hash(hash)
            .registered_on(now)
            .with_props(props)
            .build();
        let ghost built = record@;
        self.records.push(record);
        self.owner_index.append(owner, clone_bytes(&id));
        self.issuer_index.insert(clone_bytes(&id), owner);
        self.hash_index.append(hash, clone_bytes(&id));
        self.events.push(CredentialEvent { signer: who, id: clone_bytes(&id), hash });
        proof {
            assert(self@.records =~= prior.records.push(built));
            assert(self@.events =~= prior.events.push(
                CredentialEventView { signer: origin.signer(), id: id@, hash },
            ));
            assert(owner_pairs(self@.records) =~= owner_pairs(prior.records).push((owner, id@)));
            assert(issuer_pairs(self@.records) =~= issuer_pairs(prior.records).push((id@, owner)));
            assert(hash_pairs(self@.records) =~= hash_pairs(prior.records).push((hash, id@)));
            lemma_lookup_absent(prior.records, id@);
            assert forall|i: int, j: int|
                #![trigger self@.records[i], self@.records[j]]
                0 <= i < j < self@.records.len() implies self@.records[i].id
                != self@.records[j].id by {
                if j == prior.records.len() {
                    assert(self@.records[i] == prior.records[i]);
                }
            }
            assert forall|i: int, j: int|
                #![trigger self@.records[i], self@.records[j]]
                0 <= i <= j < self@.records.len() implies self@.records[i].registered
                <= self@.records[j].registered by {
                if j == prior.records.len() && i < j {
                    assert(prior.records[i].registered <= prior.records[prior.records.len()
                        - 1].registered);
                }
            }
        }
        Ok(id)
    }
}

/// Searching the admission log for an id comes up empty exactly when no
/// record carries that id.
pub proof fn lemma_lookup_absent(rs: Seq<CredentialView>, id: Seq<u8>)
    ensures
        (lookup_record(rs, id) is None) <==> (forall|i: int|
            0 <= i < rs.len() ==> (#[trigger] rs[i]).id != id),
    decreases rs.len(),
{
    if rs.len() > 0 {
        let prefix = rs.drop_last();
        lemma_lookup_absent(prefix, id);
        assert(forall|i: int| 0 <= i < prefix.len() ==> prefix[i] == rs[i]);
        if rs.last().id == id {
            assert(rs[rs.len() - 1].id == id);
        }
    }
}

/// A record found under an id carries that id and sits in the log.
pub proof fn lemma_lookup_is_registered(rs: Seq<CredentialView>, id: Seq<u8>)
    requires
        lookup_record(rs, id) is Some,
    ensures
        exists|i: int|
            0 <= i < rs.len() && Some(#[trigger] rs[i]) == lookup_record(rs, id) && rs[i].id == id,
    decreases rs.len(),
{
    if rs.last().id == id {
        assert(Some(rs[rs.len() - 1]) == lookup_record(rs, id));
    } else {
        let prefix = rs.drop_last();
        lemma_lookup_is_registered(prefix, id);
        let i = choose|i: int|
            0 <= i < prefix.len() && Some(#[trigger] prefix[i]) == lookup_record(prefix, id)
                && prefix[i].id == id;
        assert(Some(rs[i]) == lookup_record(rs, id));
    }
}

/// Every id the owner index lists is a registered id.
pub proof fn lemma_owner_index_ids_are_registered(rs: Seq<CredentialView>, o: AccountId, x: Seq<u8>)
    requires
        ids_with_key(owner_pairs(rs), o).contains(x),
    ensures
        lookup_record(rs, x) is Some,
    decreases rs.len(),
{
    assert(owner_pairs(rs).len() == rs.len());
    if rs.len() > 0 {
        let pairs = owner_pairs(rs);
        let rest = ids_with_key(pairs.drop_last(), o);
        assert(pairs.drop_last() =~= owner_pairs(rs.drop_last()));
        if pairs.last().0 == o && x == pairs.last().1 {
            assert(rs.last().id == x);
        } else {
            if pairs.last().0 == o {
                assert(rest.push(pairs.last().1).contains(x));
                assert(exists|k: int|
                    0 <= k < rest.len() + 1 && rest.push(pairs.last().1)[k] == x);
                let k = choose|k: int|
                    0 <= k < rest.len() + 1 && rest.push(pairs.last().1)[k] == x;
                assert(rest[k] == x);
            }
            lemma_owner_index_ids_are_registered(rs.drop_last(), o, x);
        }
    }
}

/// Every id the hash index lists is a registered id.
pub proof fn lemma_hash_index_ids_are_registered(rs: Seq<CredentialView>, h: RecordHash, x: Seq<u8>)
    requires
        ids_with_key(hash_pairs(rs), h).contains(x),
    ensures
        lookup_record(rs, x) is Some,
    decreases rs.len(),
{
    assert(hash_pairs(rs).len() == rs.len());
    if rs.len() > 0 {
        let pairs = hash_pairs(rs);
        let rest = ids_with_key(pairs.drop_last(), h);
        assert(pairs.drop_last() =~= hash_pairs(rs.drop_last()));
        if pairs.last().0 == h && x == pairs.last().1 {
            assert(rs.last().id == x);
        } else {
            if pairs.last().0 == h {
                assert(rest.push(pairs.last().1).contains(x));
                assert(exists|k: int|
                    0 <= k < rest.len() + 1 && rest.push(pairs.last().1)[k] == x);
                let k = choose|k: int|
                    0 <= k < rest.len() + 1 && rest.push(pairs.last().1)[k] == x;
                assert(rest[k] == x);
            }
            lemma_hash_index_ids_are_registered(rs.drop_last(), h, x);
        }
    }
}

/// Law: an authorized, signed registration of a well-formed property list
/// under an id that is already registered is refused with
/// `IdAlreadyExists`, whatever its other fields hold. Together with the
/// engine's contract, the refusal leaves every index byte for byte as it
/// was.
pub proof fn lemma_existing_id_rejected(
    v: CredentialRegistryView,
    authorized: bool,
    origin: Origin,
    id: Seq<u8>,
    props: Option<Seq<Seq<u8>>>,
)
    requires
        v.inv(),
        authorized,
        origin.is_signed(),
        cred_props_check(props) is Ok,
        v.contains_id(id),
    ensures
        register_check(v, authorized, origin, id, props) == Err::<(), RegistryError>(
            RegistryError::IdAlreadyExists,
        ),
{
    lemma_lookup_is_registered(v.records, id);
    let i = choose|i: int|
        0 <= i < v.records.len() && Some(#[trigger] v.records[i]) == lookup_record(v.records, id)
            && v.records[i].id == id;
    assert(valid_record(v.records[i]));
}

/// Law: an authorized, signed registration with an empty id is refused
/// with `IdMissing` before anything else is looked at; the refusal leaves
/// every index untouched.
pub proof fn lemma_empty_id_rejected(
    v: CredentialRegistryView,
    authorized: bool,
    origin: Origin,
    id: Seq<u8>,
    props: Option<Seq<Seq<u8>>>,
)
    requires
        authorized,
        origin.is_signed(),
        id.len() == 0,
    ensures
        register_check(v, authorized, origin, id, props) == Err::<(), RegistryError>(
            RegistryError::IdMissing,
        ),
{
}

/// Law: an authorized, signed registration with an id over the length
/// bound is refused with `IdTooLong`.
pub proof fn lemma_long_id_rejected(
    v: CredentialRegistryView,
    authorized: bool,
    origin: Origin,
    id: Seq<u8>,
    props: Option<Seq<Seq<u8>>>,
)
    requires
        authorized,
        origin.is_signed(),
        id.len() > CRED_ID_MAX_LENGTH,
    ensures
        register_check(v, authorized, origin, id, props) == Err::<(), RegistryError>(
            RegistryError::IdTooLong,
        ),
{
}

/// Law: an authorized, signed registration with a valid id but more
/// properties than the kind admits is refused with `TooManyProperties`,
/// even where every property field is itself within bounds.
pub proof fn lemma_too_many_props_rejected(
    v: CredentialRegistryView,
    authorized: bool,
    origin: Origin,
    id: Seq<u8>,
    props: Seq<Seq<u8>>,
)
    requires
        authorized,
        origin.is_signed(),
        id_check(id) is Ok,
        props.len() > CRED_MAX_PROPS,
    ensures
        register_check(v, authorized, origin, id, Some(props)) == Err::<(), RegistryError>(
            RegistryError::TooManyProperties,
        ),
{
}

/// Law: a refused registration changes nothing, so repeating it against
/// the resulting state is refused with the same error and again changes
/// nothing.
pub proof fn lemma_failure_idempotent(
    v: CredentialRegistryView,
    authorized: bool,
    origin: Origin,
    id: Seq<u8>,
    owner: AccountId,
    hash: RecordHash,
    props: Option<Seq<Seq<u8>>>,
    now: Moment,
    e: RegistryError,
)
    requires
        register_check(v, authorized, origin, id, props) == Err::<(), RegistryError>(e),
    ensures
        register_next(v, authorized, origin, id, owner, hash, props, now) == v,
        register_check(
            register_next(v, authorized, origin, id, owner, hash, props, now),
            authorized,
            origin,
            id,
            props,
        ) == Err::<(), RegistryError>(e),
        register_outcome(v, authorized, origin, id, props) == Err::<Seq<u8>, RegistryError>(e),
{
}

/// Invariant: the issuer table always names the owner of the record
/// registered under an id.
pub proof fn lemma_issuer_table_agrees(rs: Seq<CredentialView>, id: Seq<u8>)
    requires
        lookup_record(rs, id) is Some,
    ensures
        account_with_id(issuer_pairs(rs), id) == Some(lookup_record(rs, id).unwrap().owner),
    decreases rs.len(),
{
    assert(issuer_pairs(rs).len() == rs.len());
    if rs.last().id == id {
    } else {
        assert(issuer_pairs(rs).drop_last() =~= issuer_pairs(rs.drop_last()));
        lemma_issuer_table_agrees(rs.drop_last(), id);
    }
}

/// Invariant: the owner index lists a registered id exactly once, under
/// its record's owner, and an unregistered id not at all.
pub proof fn lemma_owner_index_counts(rs: Seq<CredentialView>, o: AccountId, id: Seq<u8>)
    requires
        unique_ids(rs),
    ensures
        ids_with_key(owner_pairs(rs), o).to_multiset().count(id) == (match lookup_record(rs, id) {
            Some(c) => if c.owner == o {
                1int
            } else {
                0
            },
            None => 0,
        }),
    decreases rs.len(),
{
    broadcast use vstd::seq_lib::group_to_multiset_ensures;

    assert(owner_pairs(rs).len() == rs.len());
    if rs.len() == 0 {
        assert(ids_with_key(owner_pairs(rs), o) =~= Seq::<Seq<u8>>::empty());
        assert(Seq::<Seq<u8>>::empty().to_multiset() =~= Multiset::<Seq<u8>>::empty());
    } else {
        let prefix = rs.drop_last();
        assert(forall|i: int| 0 <= i < prefix.len() ==> prefix[i] == rs[i]);
        assert(owner_pairs(rs).drop_last() =~= owner_pairs(prefix));
        let rest = ids_with_key(owner_pairs(prefix), o);
        lemma_owner_index_counts(prefix, o, id);
        if rs.last().id == id {
            lemma_lookup_absent(prefix, id);
            assert(forall|i: int| 0 <= i < prefix.len() ==> (#[trigger] prefix[i]).id != id);
            assert(lookup_record(prefix, id) is None);
            assert(rest.to_multiset().count(id) == 0);
            if rs.last().owner == o {
                assert(rest.push(id).to_multiset() =~= rest.to_multiset().insert(id));
            }
        } else {
            if rs.last().owner == o {
                assert(rest.push(rs.last().id).to_multiset() =~= rest.to_multiset().insert(
                    rs.last().id,
                ));
            }
        }
    }
}

/// Invariant: the hash index lists a registered id exactly once, under
/// its record's hash, and an unregistered id not at all.
pub proof fn lemma_hash_index_counts(rs: Seq<CredentialView>, h: RecordHash, id: Seq<u8>)
    requires
        unique_ids(rs),
    ensures
        ids_with_key(hash_pairs(rs), h).to_multiset().count(id) == (match lookup_record(rs, id) {
            Some(c) => if c.hash == h {
                1int
            } else {
                0
            },
            None => 0,
        }),
    decreases rs.len(),
{
    broadcast use vstd::seq_lib::group_to_multiset_ensures;

    assert(hash_pairs(rs).len() == rs.len());
    if rs.len() == 0 {
        assert(ids_with_key(hash_pairs(rs), h) =~= Seq::<Seq<u8>>::empty());
        assert(Seq::<Seq<u8>>::empty().to_multiset() =~= Multiset::<Seq<u8>>::empty());
    } else {
        let prefix = rs.drop_last();
        assert(forall|i: int| 0 <= i < prefix.len() ==> prefix[i] == rs[i]);
        assert(hash_pairs(rs).drop_last() =~= hash_pairs(prefix));
        let rest = ids_with_key(hash_pairs(prefix), h);
        lemma_hash_index_counts(prefix, h, id);
        if rs.last().id == id {
            lemma_lookup_absent(prefix, id);
            assert(forall|i: int| 0 <= i < prefix.len() ==> (#[trigger] prefix[i]).id != id);
            assert(lookup_record(prefix, id) is None);
            assert(rest.to_multiset().count(id) == 0);
            if rs.last().hash == h {
                assert(rest.push(id).to_multiset() =~= rest.to_multiset().insert(id));
            }
        } else {
            if rs.last().hash == h {
                assert(rest.push(rs.last().id).to_multiset() =~= rest.to_multiset().insert(
                    rs.last().id,
                ));
            }
        }
    }
}

/// Invariant: every registered record is indexed consistently — its
/// owner's bucket and its hash's bucket list its id exactly once, every
/// other bucket not at all, and the issuer table names its owner.
pub proof fn lemma_indices_consistent(v: CredentialRegistryView, id: Seq<u8>)
    requires
        v.inv(),
        v.contains_id(id),
    ensures
        ({
            let c = v.by_id(id).unwrap();
            &&& v.owner_of(id) == Some(c.owner)
            &&& v.by_owner(c.owner).to_multiset().count(id) == 1
            &&& (forall|o: AccountId|
                o != c.owner ==> (#[trigger] v.by_owner(o)).to_multiset().count(id) == 0)
            &&& v.by_hash(c.hash).to_multiset().count(id) == 1
            &&& (forall|h: RecordHash|
                h != c.hash ==> (#[trigger] v.by_hash(h)).to_multiset().count(id) == 0)
        }),
{
    let c = v.by_id(id).unwrap();
    lemma_issuer_table_agrees(v.records, id);
    lemma_owner_index_counts(v.records, c.owner, id);
    assert forall|o: AccountId| o != c.owner implies (#[trigger] v.by_owner(
        o,
    )).to_multiset().count(id) == 0 by {
        lemma_owner_index_counts(v.records, o, id);
    }
    lemma_hash_index_counts(v.records, c.hash, id);
    assert forall|h: RecordHash| h != c.hash implies (#[trigger] v.by_hash(
        h,
    )).to_multiset().count(id) == 0 by {
        lemma_hash_index_counts(v.records, h, id);
    }
}

/// Law: an admissible registration stores exactly the built record under
/// its id, appends the id once to the owner and hash indices — which did
/// not list it before — records its owner, and touches no other key of
/// any index.
pub proof fn lemma_admission_updates_indices(
    v: CredentialRegistryView,
    authorized: bool,
    origin: Origin,
    id: Seq<u8>,
    owner: AccountId,
    hash: RecordHash,
    props: Option<Seq<Seq<u8>>>,
    now: Moment,
)
    requires
        register_check(v, authorized, origin, id, props) is Ok,
    ensures
        ({
            let next = register_next(v, authorized, origin, id, owner, hash, props, now);
            &&& next.by_id(id) == Some(built_credential(id, owner, hash, props, now))
            &&& (forall|other: Seq<u8>|
                other != id ==> #[trigger] next.by_id(other) == v.by_id(other))
            &&& next.by_owner(owner) == v.by_owner(owner).push(id)
            &&& !v.by_owner(owner).contains(id)
            &&& (forall|o: AccountId| o != owner ==> #[trigger] next.by_owner(o) == v.by_owner(o))
            &&& next.owner_of(id) == Some(owner)
            &&& (forall|other: Seq<u8>|
                other != id ==> #[trigger] next.owner_of(other) == v.owner_of(other))
            &&& next.by_hash(hash) == v.by_hash(hash).push(id)
            &&& !v.by_hash(hash).contains(id)
            &&& (forall|h: RecordHash| h != hash ==> #[trigger] next.by_hash(h) == v.by_hash(h))
        }),
{
    let next = register_next(v, authorized, origin, id, owner, hash, props, now);
    let c = built_credential(id, owner, hash, props, now);
    assert(next.records == v.records.push(c));
    assert(next.records.drop_last() =~= v.records);
    assert(owner_pairs(next.records) =~= owner_pairs(v.records).push((owner, id)));
    assert(issuer_pairs(next.records) =~= issuer_pairs(v.records).push((id, owner)));
    assert(hash_pairs(next.records) =~= hash_pairs(v.records).push((hash, id)));
    assert(owner_pairs(next.records).drop_last() =~= owner_pairs(v.records));
    assert(issuer_pairs(next.records).drop_last() =~= issuer_pairs(v.records));
    assert(hash_pairs(next.records).drop_last() =~= hash_pairs(v.records));
    if v.by_owner(owner).contains(id) {
        lemma_owner_index_ids_are_registered(v.records, owner, id);
    }
    if v.by_hash(hash).contains(id) {
        lemma_hash_index_ids_are_registered(v.records, hash, id);
    }
}

} // verus!

//! Contacts and their addresses, each operation gated on the caller owning
//! the contact.
use vstd::prelude::*;
use crate::error::ServiceError;
use crate::token::{clock_now, clock_reading, fresh_id, opt_string_view};
use crate::validation::{
    flag, has_min_chars, is_email, note, opt_email_ok, opt_min_len_ok, Violation,
};

verus! {

/// A contact, owned by exactly one user for its whole life.
#[derive(Debug)]
pub struct Contact {
    pub id: u128,
    pub user_id: u128,
    pub first_name: String,
    pub last_name: Option<String>,
    pub email: Option<String>,
    pub phone: Option<String>,
    pub created_at: i64,
    pub updated_at: i64,
}

/// An address, owned through its contact.
#[derive(Debug)]
pub struct Address {
    pub id: u128,
    pub contact_id: u128,
    pub street: Option<String>,
    pub city: Option<String>,
    pub province: Option<String>,
    pub country: String,
    pub postal_code: Option<String>,
    pub created_at: i64,
    pub updated_at: i64,
}

/// A copy of an optional text.
pub fn copy_opt(o: &Option<String>) -> (r: Option<String>)
    ensures
        r == *o,
{
    match o {
        Some(s) => Some(s.clone()),
        None => None,
    }
}

impl Contact {
    /// A field-by-field copy.
    pub fn duplicate(&self) -> (r: Contact)
        ensures
            r == *self,
    {
        Contact {
            id: self.id,
            user_id: self.user_id,
            first_name: self.first_name.clone(),
            last_name: copy_opt(&self.last_name),
            email: copy_opt(&self.email),
            phone: copy_opt(&self.phone),
            created_at: self.created_at,
            updated_at: self.updated_at,
        }
    }
}

impl Address {
    /// A field-by-field copy.
    pub fn duplicate(&self) -> (r: Address)
        ensures
            r == *self,
    {
        Address {
            id: self.id,
            contact_id: self.contact_id,
            street: copy_opt(&self.street),
            city: copy_opt(&self.city),
            province: copy_opt(&self.province),
            country: self.country.clone(),
            postal_code: copy_opt(&self.postal_code),
            created_at: self.created_at,
            updated_at: self.updated_at,
        }
    }
}

#[derive(Debug)]
pub struct CreateContactRequest {
    pub first_name: String,
    pub last_name: Option<String>,
    pub email: Option<String>,
    pub phone: Option<String>,
}

/// A partial update: an absent field keeps its current value.
#[derive(Debug)]
pub struct UpdateContactRequest {
    pub first_name: Option<String>,
    pub last_name: Option<String>,
    pub email: Option<String>,
    pub phone: Option<String>,
}

#[derive(Debug)]
pub struct CreateAddressRequest {
    pub street: Option<String>,
    pub city: Option<String>,
    pub province: Option<String>,
    pub country: String,
    pub postal_code: Option<String>,
}

/// A partial update of an address: an absent field keeps its current value.
#[derive(Debug)]
pub struct UpdateAddressRequest {
    pub street: Option<String>,
    pub city: Option<String>,
    pub province: Option<String>,
    pub country: Option<String>,
    pub postal_code: Option<String>,
}

#[derive(Debug)]
pub struct AddressResponse {
    pub id: u128,
    pub street: Option<String>,
    pub city: Option<String>,
    pub province: Option<String>,
    pub country: String,
    pub postal_code: Option<String>,
}

/// A contact as shown to its owner, with its addresses.
#[derive(Debug)]
pub struct ContactResponse {
    pub id: u128,
    pub first_name: String,
    pub last_name: Option<String>,
    pub email: Option<String>,
    pub phone: Option<String>,
    pub addresses: Vec<AddressResponse>,
}

pub open spec fn address_view(a: Address) -> AddressResponse {
    AddressResponse {
        id: a.id,
        street: a.street,
        city: a.city,
        province: a.province,
        country: a.country,
        postal_code: a.postal_code,
    }
}

/// `r` shows contact `c` with exactly the addresses `addrs`, in order.
pub open spec fn shows(r: ContactResponse, c: Contact, addrs: Seq<Address>) -> bool {
    &&& r.id == c.id
    &&& r.first_name == c.first_name
    &&& r.last_name == c.last_name
    &&& r.email == c.email
    &&& r.phone == c.phone
    &&& r.addresses@ == addrs.map_values(|a: Address| address_view(a))
}

impl AddressResponse {
    pub fn from(a: Address) -> (r: AddressResponse)
        ensures
            r == address_view(a),
    {
        AddressResponse {
            id: a.id,
            street: a.street,
            city: a.city,
            province: a.province,
            country: a.country,
            postal_code: a.postal_code,
        }
    }
}

impl ContactResponse {
    /// The contact's view, with no addresses attached.
    pub fn from(c: Contact) -> (r: ContactResponse)
        ensures
            shows(r, c, Seq::empty()),
    {
        let r = ContactResponse {
            id: c.id,
            first_name: c.first_name,
            last_name: c.last_name,
            email: c.email,
            phone: c.phone,
            addresses: Vec::new(),
        };
        assert(r.addresses@ =~= Seq::<Address>::empty().map_values(|a: Address| address_view(a)));
        r
    }
}

pub open spec fn create_contact_violations(first_name: Seq<char>, email: Option<Seq<char>>, phone: Option<Seq<char>>) -> Seq<Violation> {
    flag(first_name.len() < 1, Violation::FirstNameMissing) + flag(!opt_email_ok(email), Violation::InvalidEmail)
        + flag(!opt_min_len_ok(phone, 3), Violation::PhoneTooShort)
}

pub open spec fn update_contact_violations(first_name: Option<Seq<char>>, email: Option<Seq<char>>) -> Seq<Violation> {
    flag(!opt_min_len_ok(first_name, 1), Violation::FirstNameMissing) + flag(!opt_email_ok(email), Violation::InvalidEmail)
}

pub open spec fn address_violations(country: Seq<char>) -> Seq<Violation> {
    flag(country.len() < 1, Violation::CountryMissing)
}

/// Whether an optional text is absent or has at least `min` characters.
fn opt_has_min_chars(o: &Option<String>, min: usize) -> (r: bool)
    ensures
        r == opt_min_len_ok(opt_string_view(*o), min as nat),
{
    match o {
        Some(s) => has_min_chars(s.as_str(), min),
        None => true,
    }
}

/// Whether an optional text is absent or an email address.
fn opt_is_email(o: &Option<String>) -> (r: bool)
    ensures
        r == opt_email_ok(opt_string_view(*o)),
{
    match o {
        Some(s) => is_email(s.as_str()),
        None => true,
    }
}

impl CreateContactRequest {
    /// Every rule that this request breaks.
    pub fn validate(&self) -> (r: Vec<Violation>)
        ensures
            r@ == create_contact_violations(self.first_name@, opt_string_view(self.email), opt_string_view(self.phone)),
    {
        let mut out: Vec<Violation> = Vec::new();
        note(&mut out, !has_min_chars(self.first_name.as_str(), 1), Violation::FirstNameMissing);
        note(&mut out, !opt_is_email(&self.email), Violation::InvalidEmail);
        note(&mut out, !opt_has_min_chars(&self.phone, 3), Violation::PhoneTooShort);
        assert(out@ =~= create_contact_violations(self.first_name@, opt_string_view(self.email), opt_string_view(self.phone)));
        out
    }
}

impl UpdateContactRequest {
    /// Every rule that this request breaks.
    pub fn validate(&self) -> (r: Vec<Violation>)
        ensures
            r@ == update_contact_violations(opt_string_view(self.first_name), opt_string_view(self.email)),
    {
        let mut out: Vec<Violation> = Vec::new();
        note(&mut out, !opt_has_min_chars(&self.first_name, 1), Violation::FirstNameMissing);
        note(&mut out, !opt_is_email(&self.email), Violation::InvalidEmail);
        assert(out@ =~= update_contact_violations(opt_string_view(self.first_name), opt_string_view(self.email)));
        out
    }
}

impl CreateAddressRequest {
    /// Every rule that this request breaks.
    pub fn validate(&self) -> (r: Vec<Violation>)
        ensures
            r@ == address_violations(self.country@),
    {
        let mut out: Vec<Violation> = Vec::new();
        note(&mut out, !has_min_chars(self.country.as_str(), 1), Violation::CountryMissing);
        assert(out@ =~= address_violations(self.country@));
        out
    }
}

pub open spec fn has_contact(cs: Seq<Contact>, id: u128) -> bool {
    exists|i: int| 0 <= i < cs.len() && (#[trigger] cs[i]).id == id
}

/// The position of the contact with identifier `id` (meaningful where one is).
pub open spec fn contact_index(cs: Seq<Contact>, id: u128) -> int {
    choose|i: int| 0 <= i < cs.len() && (#[trigger] cs[i]).id == id
}

pub open spec fn contact_with_id(cs: Seq<Contact>, id: u128) -> Contact {
    cs[contact_index(cs, id)]
}

pub open spec fn has_address(addrs: Seq<Address>, id: u128) -> bool {
    exists|i: int| 0 <= i < addrs.len() && (#[trigger] addrs[i]).id == id
}

/// The position of the address with identifier `id` (meaningful where one is).
pub open spec fn address_index(addrs: Seq<Address>, id: u128) -> int {
    choose|i: int| 0 <= i < addrs.len() && (#[trigger] addrs[i]).id == id
}

pub open spec fn address_with_id(addrs: Seq<Address>, id: u128) -> Address {
    addrs[address_index(addrs, id)]
}

/// The addresses of contact `cid`, in the order they were stored.
pub open spec fn addresses_of(addrs: Seq<Address>, cid: u128) -> Seq<Address>
    decreases addrs.len(),
{
    if addrs.len() == 0 {
        Seq::empty()
    } else {
        let rest = addresses_of(addrs.drop_last(), cid);
        if addrs.last().contact_id == cid {
            rest.push(addrs.last())
        } else {
            rest
        }
    }
}

/// The addresses of every contact but `cid`, in the order they were stored.
pub open spec fn addresses_not_of(addrs: Seq<Address>, cid: u128) -> Seq<Address>
    decreases addrs.len(),
{
    if addrs.len() == 0 {
        Seq::empty()
    } else {
        let rest = addresses_not_of(addrs.drop_last(), cid);
        if addrs.last().contact_id != cid {
            rest.push(addrs.last())
        } else {
            rest
        }
    }
}

/// The contacts owned by user `uid`, in the order they were stored.
pub open spec fn contacts_of(cs: Seq<Contact>, uid: u128) -> Seq<Contact>
    decreases cs.len(),
{
    if cs.len() == 0 {
        Seq::empty()
    } else {
        let rest = contacts_of(cs.drop_last(), uid);
        if cs.last().user_id == uid {
            rest.push(cs.last())
        } else {
            rest
        }
    }
}

/// Identifiers are unique, and every address belongs to a stored contact.
pub open spec fn ledger_wf(cs: Seq<Contact>, addrs: Seq<Address>) -> bool {
    &&& forall|i: int, j: int|
        0 <= i < cs.len() && 0 <= j < cs.len() && (#[trigger] cs[i]).id == (#[trigger] cs[j]).id ==> i == j
    &&& forall|i: int, j: int|
        0 <= i < addrs.len() && 0 <= j < addrs.len() && (#[trigger] addrs[i]).id == (#[trigger] addrs[j]).id ==> i == j
    &&& forall|k: int| 0 <= k < addrs.len() ==> has_contact(cs, (#[trigger] addrs[k]).contact_id)
    &&& by_creation(addrs)
}

/// The addresses are in order of creation time.
pub open spec fn by_creation(addrs: Seq<Address>) -> bool {
    forall|i: int, j: int| 0 <= i < j < addrs.len() ==> (#[trigger] addrs[i]).created_at <= (#[trigger] addrs[j]).created_at
}

/// `k` is where an address created at `t` goes: after every address created
/// at or before `t`, before every later one.
pub open spec fn fits_at(addrs: Seq<Address>, k: int, t: i64) -> bool {
    &&& 0 <= k <= addrs.len()
    &&& forall|i: int| 0 <= i < k ==> (#[trigger] addrs[i]).created_at <= t
    &&& forall|i: int| k <= i < addrs.len() ==> (#[trigger] addrs[i]).created_at > t
}

/// `new` with the contact and creation time of `stored`.
pub open spec fn revised(stored: Address, new: Address) -> Address {
    Address {
        id: new.id,
        contact_id: stored.contact_id,
        street: new.street,
        city: new.city,
        province: new.province,
        country: new.country,
        postal_code: new.postal_code,
        created_at: stored.created_at,
        updated_at: new.updated_at,
    }
}

/// Where an address created at `t` is stored among `addrs`.
pub open spec fn insertion_point(addrs: Seq<Address>, t: i64) -> int {
    choose|k: int| fits_at(addrs, k, t)
}

proof fn lemma_insertion_point(addrs: Seq<Address>, t: i64, k: int)
    requires
        fits_at(addrs, k, t),
    ensures
        insertion_point(addrs, t) == k,
{
    let c = insertion_point(addrs, t);
    assert(fits_at(addrs, c, t));
    if c < k {
        assert(addrs[c].created_at <= t);
    } else if c > k {
        assert(addrs[k].created_at <= t);
    }
}

/// Every address listed by `addresses_of` was stored and belongs to `cid`.
proof fn lemma_addresses_of(addrs: Seq<Address>, cid: u128)
    ensures
        forall|k: int| 0 <= k < addresses_of(addrs, cid).len() ==> {
            &&& addrs.contains(#[trigger] addresses_of(addrs, cid)[k])
            &&& addresses_of(addrs, cid)[k].contact_id == cid
        },
    decreases addrs.len(),
{
    if addrs.len() > 0 {
        lemma_addresses_of(addrs.drop_last(), cid);
        let rest = addresses_of(addrs.drop_last(), cid);
        assert forall|k: int| 0 <= k < addresses_of(addrs, cid).len() implies {
            &&& addrs.contains(#[trigger] addresses_of(addrs, cid)[k])
            &&& addresses_of(addrs, cid)[k].contact_id == cid
        } by {
            if k < rest.len() {
                let x = rest[k];
                assert(addrs.drop_last().contains(x));
                let m = choose|m: int| 0 <= m < addrs.drop_last().len() && addrs.drop_last()[m] == x;
                assert(addrs[m] == x);
            } else {
                assert(addrs[addrs.len() - 1] == addrs.last());
            }
        }
    }
}

/// Listing one contact's addresses keeps creation order.
proof fn lemma_addresses_of_by_creation(addrs: Seq<Address>, cid: u128)
    requires
        by_creation(addrs),
    ensures
        by_creation(addresses_of(addrs, cid)),
    decreases addrs.len(),
{
    if addrs.len() > 0 {
        let init = addrs.drop_last();
        assert(by_creation(init)) by {
            assert forall|i: int, j: int| 0 <= i < j < init.len() implies (#[trigger] init[i]).created_at <= (#[trigger] init[j]).created_at by {
                assert(init[i] == addrs[i] && init[j] == addrs[j]);
            }
        }
        lemma_addresses_of_by_creation(init, cid);
        lemma_addresses_of(init, cid);
        let rest = addresses_of(init, cid);
        let out = addresses_of(addrs, cid);
        assert forall|i: int, j: int| 0 <= i < j < out.len() implies (#[trigger] out[i]).created_at <= (#[trigger] out[j]).created_at by {
            if j == rest.len() {
                assert(init.contains(rest[i]));
                let m = choose|m: int| 0 <= m < init.len() && init[m] == rest[i];
                assert(addrs[m] == rest[i]);
                assert(addrs[addrs.len() - 1] == addrs.last());
            }
        }
    }
}

/// Dropping one contact's addresses keeps creation order.
proof fn lemma_addresses_not_of_by_creation(addrs: Seq<Address>, cid: u128)
    requires
        by_creation(addrs),
    ensures
        by_creation(addresses_not_of(addrs, cid)),
    decreases addrs.len(),
{
    if addrs.len() > 0 {
        let init = addrs.drop_last();
        assert(by_creation(init)) by {
            assert forall|i: int, j: int| 0 <= i < j < init.len() implies (#[trigger] init[i]).created_at <= (#[trigger] init[j]).created_at by {
                assert(init[i] == addrs[i] && init[j] == addrs[j]);
            }
        }
        lemma_addresses_not_of_by_creation(init, cid);
        lemma_addresses_not_of(init, cid);
        let rest = addresses_not_of(init, cid);
        let out = addresses_not_of(addrs, cid);
        assert forall|i: int, j: int| 0 <= i < j < out.len() implies (#[trigger] out[i]).created_at <= (#[trigger] out[j]).created_at by {
            if j == rest.len() {
                assert(init.contains(rest[i]));
                let m = choose|m: int| 0 <= m < init.len() && init[m] == rest[i];
                assert(addrs[m] == rest[i]);
                assert(addrs[addrs.len() - 1] == addrs.last());
            }
        }
    }
}

/// Where exactly one stored address belongs to `cid`, that address is all
/// that is listed for it.
proof fn lemma_single_address_of(addrs: Seq<Address>, cid: u128, k: int)
    requires
        0 <= k < addrs.len(),
        addrs[k].contact_id == cid,
        forall|i: int| 0 <= i < addrs.len() && i != k ==> (#[trigger] addrs[i]).contact_id != cid,
    ensures
        addresses_of(addrs, cid) == seq![addrs[k]],
    decreases addrs.len(),
{
    let init = addrs.drop_last();
    if k == addrs.len() - 1 {
        assert forall|i: int| 0 <= i < init.len() implies (#[trigger] init[i]).contact_id != cid by {
            assert(init[i] == addrs[i]);
        }
        lemma_no_addresses_of(init, cid);
        assert(Seq::<Address>::empty().push(addrs.last()) =~= seq![addrs[k]]);
    } else {
        assert forall|i: int| 0 <= i < init.len() && i != k implies (#[trigger] init[i]).contact_id != cid by {
            assert(init[i] == addrs[i]);
        }
        assert(init[k] == addrs[k]);
        lemma_single_address_of(init, cid, k);
        assert(addrs.last() == addrs[addrs.len() - 1]);
    }
}

/// Every address kept by `addresses_not_of` was stored before and does not
/// belong to `cid`.
proof fn lemma_addresses_not_of(addrs: Seq<Address>, cid: u128)
    ensures
        forall|k: int| 0 <= k < addresses_not_of(addrs, cid).len() ==> {
            &&& addrs.contains(#[trigger] addresses_not_of(addrs, cid)[k])
            &&& addresses_not_of(addrs, cid)[k].contact_id != cid
        },
    decreases addrs.len(),
{
    if addrs.len() > 0 {
        lemma_addresses_not_of(addrs.drop_last(), cid);
        let rest = addresses_not_of(addrs.drop_last(), cid);
        assert forall|k: int| 0 <= k < addresses_not_of(addrs, cid).len() implies {
            &&& addrs.contains(#[trigger] addresses_not_of(addrs, cid)[k])
            &&& addresses_not_of(addrs, cid)[k].contact_id != cid
        } by {
            if k < rest.len() {
                let x = rest[k];
                assert(addrs.drop_last().contains(x));
                let m = choose|m: int| 0 <= m < addrs.drop_last().len() && addrs.drop_last()[m] == x;
                assert(addrs[m] == x);
            } else {
                assert(addrs[addrs.len() - 1] == addrs.last());
            }
        }
    }
}

/// Every address kept by `addresses_not_of` is one with a distinct identifier.
proof fn lemma_addresses_not_of_unique(addrs: Seq<Address>, cid: u128)
    requires
        forall|i: int, j: int|
            0 <= i < addrs.len() && 0 <= j < addrs.len() && (#[trigger] addrs[i]).id == (#[trigger] addrs[j]).id ==> i == j,
    ensures
        forall|i: int, j: int|
            0 <= i < addresses_not_of(addrs, cid).len() && 0 <= j < addresses_not_of(addrs, cid).len()
                && (#[trigger] addresses_not_of(addrs, cid)[i]).id == (#[trigger] addresses_not_of(addrs, cid)[j]).id ==> i == j,
    decreases addrs.len(),
{
    if addrs.len() > 0 {
        let init = addrs.drop_last();
        lemma_addresses_not_of_unique(init, cid);
        lemma_addresses_not_of(init, cid);
        let rest = addresses_not_of(init, cid);
        let out = addresses_not_of(addrs, cid);
        assert forall|i: int, j: int|
            0 <= i < out.len() && 0 <= j < out.len() && (#[trigger] out[i]).id == (#[trigger] out[j]).id implies i == j by {
            if i < rest.len() && j == rest.len() {
                let m = choose|m: int| 0 <= m < init.len() && init[m] == rest[i];
                assert(addrs[m].id == addrs[addrs.len() - 1].id);
            } else if j < rest.len() && i == rest.len() {
                let m = choose|m: int| 0 <= m < init.len() && init[m] == rest[j];
                assert(addrs[m].id == addrs[addrs.len() - 1].id);
            }
        }
    }
}

/// The store of contacts and addresses that the contact operations use:
/// identifiers are unique, and each address belongs to a stored contact.
pub trait ContactRepository: Sized {
    /// The stored contacts, in the order they were stored.
    spec fn contacts(&self) -> Seq<Contact>;

    /// The stored addresses, in the order they were stored.
    spec fn addresses(&self) -> Seq<Address>;

    /// Whether the store answers reads; an unreachable store fails every
    /// read with `Repository`.
    spec fn reachable(&self) -> bool;

    /// The contact with identifier `id`, if any.
    fn find_contact_by_id(&self, id: u128) -> (r: Result<Option<Contact>, ServiceError>)
        requires
            ledger_wf(self.contacts(), self.addresses()),
        ensures
            !self.reachable() ==> r == Err::<Option<Contact>, ServiceError>(ServiceError::Repository),
            self.reachable() ==> (r matches Ok(o) && match o {
                Some(c) => has_contact(self.contacts(), id) && c == contact_with_id(self.contacts(), id),
                None => !has_contact(self.contacts(), id),
            }),
    ;

    /// The contacts owned by `user_id`, in the order they were stored.
    fn find_contacts_by_user_id(&self, user_id: u128) -> (r: Result<Vec<Contact>, ServiceError>)
        ensures
            !self.reachable() ==> r == Err::<Vec<Contact>, ServiceError>(ServiceError::Repository),
            self.reachable() ==> (r matches Ok(v) && v@ == contacts_of(self.contacts(), user_id)),
    ;

    /// The addresses of contact `contact_id`, in the order they were stored.
    fn find_addresses_by_contact_id(&self, contact_id: u128) -> (r: Result<Vec<Address>, ServiceError>)
        ensures
            !self.reachable() ==> r == Err::<Vec<Address>, ServiceError>(ServiceError::Repository),
            self.reachable() ==> (r matches Ok(v) && v@ == addresses_of(self.addresses(), contact_id)),
    ;

    /// Stores a new contact; refused where its identifier is taken.
    fn create_contact(&mut self, contact: Contact) -> (r: Result<Contact, ServiceError>)
        requires
            ledger_wf(old(self).contacts(), old(self).addresses()),
        ensures
            ledger_wf(final(self).contacts(), final(self).addresses()),
            final(self).addresses() == old(self).addresses(),
            has_contact(old(self).contacts(), contact.id) ==> r == Err::<Contact, ServiceError>(ServiceError::Repository)
                && final(self).contacts() == old(self).contacts(),
            !has_contact(old(self).contacts(), contact.id) ==> r == Ok::<Contact, ServiceError>(contact)
                && final(self).contacts() == old(self).contacts().push(contact),
    ;

    /// Replaces the stored contact that has `contact`'s identifier; refused
    /// where there is none.
    fn update_contact(&mut self, contact: Contact) -> (r: Result<Contact, ServiceError>)
        requires
            ledger_wf(old(self).contacts(), old(self).addresses()),
        ensures
            ledger_wf(final(self).contacts(), final(self).addresses()),
            final(self).addresses() == old(self).addresses(),
            !has_contact(old(self).contacts(), contact.id) ==> r == Err::<Contact, ServiceError>(ServiceError::Repository)
                && final(self).contacts() == old(self).contacts(),
            has_contact(old(self).contacts(), contact.id) ==> r == Ok::<Contact, ServiceError>(contact)
                && final(self).contacts() == old(self).contacts().update(contact_index(old(self).contacts(), contact.id), contact),
    ;

    /// Deletes the contact with identifier `id`, if stored, together with
    /// its addresses.
    fn delete_contact(&mut self, id: u128) -> (r: Result<(), ServiceError>)
        requires
            ledger_wf(old(self).contacts(), old(self).addresses()),
        ensures
            ledger_wf(final(self).contacts(), final(self).addresses()),
            r is Ok,
            has_contact(old(self).contacts(), id) ==> final(self).contacts()
                == old(self).contacts().remove(contact_index(old(self).contacts(), id)),
            !has_contact(old(self).contacts(), id) ==> final(self).contacts() == old(self).contacts(),
            final(self).addresses() == addresses_not_of(old(self).addresses(), id),
    ;

    /// Stores a new address in creation order; refused where its identifier
    /// is taken or its contact is not stored.
    fn create_address(&mut self, address: Address) -> (r: Result<Address, ServiceError>)
        requires
            ledger_wf(old(self).contacts(), old(self).addresses()),
        ensures
            ledger_wf(final(self).contacts(), final(self).addresses()),
            final(self).contacts() == old(self).contacts(),
            has_address(old(self).addresses(), address.id) || !has_contact(old(self).contacts(), address.contact_id)
                ==> r == Err::<Address, ServiceError>(ServiceError::Repository) && final(self).addresses() == old(self).addresses(),
            !has_address(old(self).addresses(), address.id) && has_contact(old(self).contacts(), address.contact_id)
                ==> r == Ok::<Address, ServiceError>(address) && final(self).addresses()
                == old(self).addresses().insert(insertion_point(old(self).addresses(), address.created_at), address),
    ;

    /// The address with identifier `id`, if any.
    fn find_address_by_id(&self, id: u128) -> (r: Result<Option<Address>, ServiceError>)
        requires
            ledger_wf(self.contacts(), self.addresses()),
        ensures
            !self.reachable() ==> r == Err::<Option<Address>, ServiceError>(ServiceError::Repository),
            self.reachable() ==> (r matches Ok(o) && match o {
                Some(a) => has_address(self.addresses(), id) && a == address_with_id(self.addresses(), id),
                None => !has_address(self.addresses(), id),
            }),
    ;

    /// Rewrites the fields of the stored address that has `address`'s
    /// identifier; its contact and creation time stay. Refused where there
    /// is none.
    fn update_address(&mut self, address: Address) -> (r: Result<Address, ServiceError>)
        requires
            ledger_wf(old(self).contacts(), old(self).addresses()),
        ensures
            ledger_wf(final(self).contacts(), final(self).addresses()),
            final(self).contacts() == old(self).contacts(),
            !has_address(old(self).addresses(), address.id)
                ==> r == Err::<Address, ServiceError>(ServiceError::Repository) && final(self).addresses() == old(self).addresses(),
            has_address(old(self).addresses(), address.id) ==> {
                let kept = revised(address_with_id(old(self).addresses(), address.id), address);
                &&& r == Ok::<Address, ServiceError>(kept)
                &&& final(self).addresses() == old(self).addresses().update(address_index(old(self).addresses(), address.id), kept)
            },
    ;

    /// Deletes the address with identifier `id`, if stored.
    fn delete_address(&mut self, id: u128) -> (r: Result<(), ServiceError>)
        requires
            ledger_wf(old(self).contacts(), old(self).addresses()),
        ensures
            ledger_wf(final(self).contacts(), final(self).addresses()),
            r is Ok,
            final(self).contacts() == old(self).contacts(),
            has_address(old(self).addresses(), id) ==> final(self).addresses()
                == old(self).addresses().remove(address_index(old(self).addresses(), id)),
            !has_address(old(self).addresses(), id) ==> final(self).addresses() == old(self).addresses(),
    ;
}

/// The in-memory contact ledger: contacts, and addresses keyed by contact.
pub struct ContactLedger {
    contacts: Vec<Contact>,
    addresses: Vec<Address>,
}

impl ContactLedger {
    pub open spec fn wf(&self) -> bool {
        ledger_wf(self.contacts(), self.addresses())
    }

    pub fn new() -> (r: ContactLedger)
        ensures
            r.wf(),
            r.contacts() == Seq::<Contact>::empty(),
            r.addresses() == Seq::<Address>::empty(),
            r.reachable(),
    {
        ContactLedger { contacts: Vec::new(), addresses: Vec::new() }
    }

    /// The position of the address with identifier `id`, if any.
    fn address_position(&self, id: u128) -> (r: Option<usize>)
        requires
            self.wf(),
        ensures
            match r {
                Some(i) => has_address(self.addresses(), id) && i == address_index(self.addresses(), id)
                    && i < self.addresses().len() && self.addresses()[i as int].id == id,
                None => !has_address(self.addresses(), id),
            },
    {
        let mut i: usize = 0;
        while i < self.addresses.len()
            invariant
                i <= self.addresses@.len(),
                self.wf(),
                forall|k: int| 0 <= k < i ==> (#[trigger] self.addresses@[k]).id != id,
            decreases self.addresses.len() - i,
        {
            if self.addresses[i].id == id {
                let ghost j = address_index(self.addresses@, id);
                assert(self.addresses@[i as int].id == id);
                assert(self.addresses@[j].id == self.addresses@[i as int].id);
                return Some(i);
            }
            i = i + 1;
        }
        None
    }

    /// The position of the contact with identifier `id`, if any.
    fn position_of(&self, id: u128) -> (r: Option<usize>)
        requires
            self.wf(),
        ensures
            match r {
                Some(i) => has_contact(self.contacts(), id) && i == contact_index(self.contacts(), id)
                    && i < self.contacts().len() && self.contacts()[i as int].id == id,
                None => !has_contact(self.contacts(), id),
            },
    {
        let mut i: usize = 0;
        while i < self.contacts.len()
            invariant
                i <= self.contacts@.len(),
                self.wf(),
                forall|k: int| 0 <= k < i ==> (#[trigger] self.contacts@[k]).id != id,
            decreases self.contacts.len() - i,
        {
            if self.contacts[i].id == id {
                let ghost j = contact_index(self.contacts@, id);
                assert(self.contacts@[i as int].id == id);
                assert(self.contacts@[j].id == self.contacts@[i as int].id);
                return Some(i);
            }
            i = i + 1;
        }
        None
    }
}

impl ContactRepository for ContactLedger {
    closed spec fn contacts(&self) -> Seq<Contact> {
        self.contacts@
    }

    closed spec fn addresses(&self) -> Seq<Address> {
        self.addresses@
    }

    /// The in-memory ledger always answers.
    closed spec fn reachable(&self) -> bool {
        true
    }

    fn find_contact_by_id(&self, id: u128) -> (r: Result<Option<Contact>, ServiceError>) {
        match self.position_of(id) {
            Some(i) => Ok(Some(self.contacts[i].duplicate())),
            None => Ok(None),
        }
    }

    fn find_contacts_by_user_id(&self, user_id: u128) -> (r: Result<Vec<Contact>, ServiceError>) {
        let mut out: Vec<Contact> = Vec::new();
        let mut i: usize = 0;
        while i < self.contacts.len()
            invariant
                i <= self.contacts@.len(),
                out@ == contacts_of(self.contacts@.subrange(0, i as int), user_id),
            decreases self.contacts.len() - i,
        {
            assert(self.contacts@.subrange(0, i + 1).drop_last() =~= self.contacts@.subrange(0, i as int));
            if self.contacts[i].user_id == user_id {
                out.push(self.contacts[i].duplicate());
            }
            i = i + 1;
        }
        assert(self.contacts@.subrange(0, self.contacts@.len() as int) =~= self.contacts@);
        Ok(out)
    }

    fn find_addresses_by_contact_id(&self, contact_id: u128) -> (r: Result<Vec<Address>, ServiceError>) {
        let mut out: Vec<Address> = Vec::new();
        let mut i: usize = 0;
        while i < self.addresses.len()
            invariant
                i <= self.addresses@.len(),
                out@ == addresses_of(self.addresses@.subrange(0, i as int), contact_id),
            decreases self.addresses.len() - i,
        {
            assert(self.addresses@.subrange(0, i + 1).drop_last() =~= self.addresses@.subrange(0, i as int));
            if self.addresses[i].contact_id == contact_id {
                out.push(self.addresses[i].duplicate());
            }
            i = i + 1;
        }
        assert(self.addresses@.subrange(0, self.addresses@.len() as int) =~= self.addresses@);
        Ok(out)
    }

    fn create_contact(&mut self, contact: Contact) -> (r: Result<Contact, ServiceError>) {
        if self.position_of(contact.id).is_some() {
            return Err(ServiceError::Repository);
        }
        let ghost before = self.contacts@;
        self.contacts.push(contact.duplicate());
        proof {
            let after = self.contacts@;
            assert forall|i: int, j: int|
                0 <= i < after.len() && 0 <= j < after.len() && (#[trigger] after[i]).id == (#[trigger] after[j]).id
                implies i == j by {
                if i < before.len() && j == before.len() {
                    assert(before[i].id == contact.id);
                } else if j < before.len() && i == before.len() {
                    assert(before[j].id == contact.id);
                }
            }
            assert forall|k: int| 0 <= k < self.addresses@.len() implies has_contact(after, (#[trigger] self.addresses@[k]).contact_id) by {
                let m = choose|m: int| 0 <= m < before.len() && (#[trigger] before[m]).id == self.addresses@[k].contact_id;
                assert(after[m] == before[m]);
            }
        }
        Ok(contact)
    }

    fn update_contact(&mut self, contact: Contact) -> (r: Result<Contact, ServiceError>) {
        let i = match self.position_of(contact.id) {
            Some(i) => i,
            None => return Err(ServiceError::Repository),
        };
        let ghost before = self.contacts@;
        self.contacts.set(i, contact.duplicate());
        proof {
            let after = self.contacts@;
            assert(after =~= before.update(i as int, contact));
            assert forall|a: int, b: int|
                0 <= a < after.len() && 0 <= b < after.len() && (#[trigger] after[a]).id == (#[trigger] after[b]).id
                implies a == b by {
                assert(before[a].id == after[a].id);
                assert(before[b].id == after[b].id);
            }
            assert forall|k: int| 0 <= k < self.addresses@.len() implies has_contact(after, (#[trigger] self.addresses@[k]).contact_id) by {
                let m = choose|m: int| 0 <= m < before.len() && (#[trigger] before[m]).id == self.addresses@[k].contact_id;
                assert(after[m].id == before[m].id);
            }
        }
        Ok(contact)
    }

    fn delete_contact(&mut self, id: u128) -> (r: Result<(), ServiceError>) {
        let ghost before = self.contacts@;
        let ghost old_addrs = self.addresses@;
        match self.position_of(id) {
            Some(i) => {
                self.contacts.remove(i);
            },
            None => {},
        }
        let ghost cs = self.contacts@;
        proof {
            if has_contact(before, id) {
                let i = contact_index(before, id);
                assert forall|a: int, b: int|
                    0 <= a < cs.len() && 0 <= b < cs.len() && (#[trigger] cs[a]).id == (#[trigger] cs[b]).id
                    implies a == b by {
                    let a0 = if a < i { a } else { a + 1 };
                    let b0 = if b < i { b } else { b + 1 };
                    assert(cs[a] == before[a0]);
                    assert(cs[b] == before[b0]);
                }
            }
        }
        let mut kept: Vec<Address> = Vec::new();
        let mut k: usize = 0;
        while k < self.addresses.len()
            invariant
                k <= self.addresses@.len(),
                self.addresses@ == old_addrs,
                kept@ == addresses_not_of(old_addrs.subrange(0, k as int), id),
            decreases self.addresses.len() - k,
        {
            assert(old_addrs.subrange(0, k + 1).drop_last() =~= old_addrs.subrange(0, k as int));
            if self.addresses[k].contact_id != id {
                kept.push(self.addresses[k].duplicate());
            }
            k = k + 1;
        }
        assert(old_addrs.subrange(0, old_addrs.len() as int) =~= old_addrs);
        self.addresses = kept;
        proof {
            lemma_addresses_not_of(old_addrs, id);
            lemma_addresses_not_of_unique(old_addrs, id);
            lemma_addresses_not_of_by_creation(old_addrs, id);
            let na = self.addresses@;
            assert forall|k: int| 0 <= k < na.len() implies has_contact(cs, (#[trigger] na[k]).contact_id) by {
                assert(old_addrs.contains(na[k]));
                let n = choose|n: int| 0 <= n < old_addrs.len() && old_addrs[n] == na[k];
                assert(has_contact(before, old_addrs[n].contact_id));
                let m = choose|m: int| 0 <= m < before.len() && (#[trigger] before[m]).id == na[k].contact_id;
                if has_contact(before, id) {
                    let i = contact_index(before, id);
                    assert(m != i);
                    if m < i {
                        assert(cs[m] == before[m]);
                    } else {
                        assert(cs[m - 1] == before[m]);
                    }
                } else {
                    assert(cs[m] == before[m]);
                }
            }
        }
        Ok(())
    }

    fn create_address(&mut self, address: Address) -> (r: Result<Address, ServiceError>) {
        if self.position_of(address.contact_id).is_none() {
            return Err(ServiceError::Repository);
        }
        let mut i: usize = 0;
        while i < self.addresses.len()
            invariant
                i <= self.addresses@.len(),
                self.wf(),
                has_contact(self.contacts@, address.contact_id),
                forall|k: int| 0 <= k < i ==> (#[trigger] self.addresses@[k]).id != address.id,
            decreases self.addresses.len() - i,
        {
            if self.addresses[i].id == address.id {
                return Err(ServiceError::Repository);
            }
            i = i + 1;
        }
        let mut k: usize = 0;
        while k < self.addresses.len() && self.addresses[k].created_at <= address.created_at
            invariant
                k <= self.addresses@.len(),
                forall|j: int| 0 <= j < k ==> (#[trigger] self.addresses@[j]).created_at <= address.created_at,
            decreases self.addresses.len() - k,
        {
            k = k + 1;
        }
        let ghost before = self.addresses@;
        proof {
            assert forall|j: int| k <= j < before.len() implies (#[trigger] before[j]).created_at > address.created_at by {
                if j > k {
                    assert(before[k as int].created_at <= before[j].created_at);
                }
            }
            assert(fits_at(before, k as int, address.created_at));
            lemma_insertion_point(before, address.created_at, k as int);
        }
        self.addresses.insert(k, address.duplicate());
        proof {
            let after = self.addresses@;
            let ki = k as int;
            assert forall|j: int| 0 <= j < after.len() implies #[trigger] after[j] == (if j < ki { before[j] } else if j == ki { address } else { before[j - 1] }) by {}
            assert forall|a: int, b: int|
                0 <= a < after.len() && 0 <= b < after.len() && (#[trigger] after[a]).id == (#[trigger] after[b]).id
                implies a == b by {
                let a0 = if a < ki { a } else { a - 1 };
                let b0 = if b < ki { b } else { b - 1 };
                if a != ki && b != ki {
                    assert(before[a0].id == before[b0].id);
                } else if a == ki && b != ki {
                    assert(before[b0].id == address.id);
                } else if b == ki && a != ki {
                    assert(before[a0].id == address.id);
                }
            }
            assert forall|j: int| 0 <= j < after.len() implies has_contact(self.contacts@, (#[trigger] after[j]).contact_id) by {
                if j < ki {
                    assert(after[j] == before[j]);
                } else if j > ki {
                    assert(after[j] == before[j - 1]);
                }
            }
            assert forall|x: int, y: int| 0 <= x < y < after.len() implies (#[trigger] after[x]).created_at <= (#[trigger] after[y]).created_at by {
                if x < ki && y > ki {
                    assert(before[x].created_at <= before[y - 1].created_at);
                } else if x > ki {
                    assert(before[x - 1].created_at <= before[y - 1].created_at);
                }
            }
        }
        Ok(address)
    }


    fn find_address_by_id(&self, id: u128) -> (r: Result<Option<Address>, ServiceError>) {
        match self.address_position(id) {
            Some(i) => Ok(Some(self.addresses[i].duplicate())),
            None => Ok(None),
        }
    }

    fn update_address(&mut self, address: Address) -> (r: Result<Address, ServiceError>) {
        let i = match self.address_position(address.id) {
            Some(i) => i,
            None => return Err(ServiceError::Repository),
        };
        let kept = Address {
            id: address.id,
            contact_id: self.addresses[i].contact_id,
            street: address.street,
            city: address.city,
            province: address.province,
            country: address.country,
            postal_code: address.postal_code,
            created_at: self.addresses[i].created_at,
            updated_at: address.updated_at,
        };
        let ghost before = self.addresses@;
        let ghost k = kept;
        self.addresses.set(i, kept.duplicate());
        proof {
            let after = self.addresses@;
            assert(after =~= before.update(i as int, k));
            assert forall|a: int, b: int|
                0 <= a < after.len() && 0 <= b < after.len() && (#[trigger] after[a]).id == (#[trigger] after[b]).id
                implies a == b by {
                assert(before[a].id == after[a].id);
                assert(before[b].id == after[b].id);
            }
            assert forall|j: int| 0 <= j < after.len() implies has_contact(self.contacts@, (#[trigger] after[j]).contact_id) by {
                assert(after[j].contact_id == before[j].contact_id);
            }
            assert forall|x: int, y: int| 0 <= x < y < after.len() implies (#[trigger] after[x]).created_at <= (#[trigger] after[y]).created_at by {
                assert(after[x].created_at == before[x].created_at);
                assert(after[y].created_at == before[y].created_at);
            }
        }
        Ok(kept)
    }

    fn delete_address(&mut self, id: u128) -> (r: Result<(), ServiceError>) {
        let ghost before = self.addresses@;
        match self.address_position(id) {
            Some(i) => {
                self.addresses.remove(i);
                proof {
                    let after = self.addresses@;
                    assert forall|a: int, b: int|
                        0 <= a < after.len() && 0 <= b < after.len() && (#[trigger] after[a]).id == (#[trigger] after[b]).id
                        implies a == b by {
                        let a0 = if a < i { a } else { a + 1 };
                        let b0 = if b < i { b } else { b + 1 };
                        assert(after[a] == before[a0]);
                        assert(after[b] == before[b0]);
                    }
                    assert forall|k: int| 0 <= k < after.len() implies has_contact(self.contacts@, (#[trigger] after[k]).contact_id) by {
                        let k0 = if k < i { k } else { k + 1 };
                        assert(after[k] == before[k0]);
                    }
                    assert forall|x: int, y: int| 0 <= x < y < after.len() implies (#[trigger] after[x]).created_at <= (#[trigger] after[y]).created_at by {
                        let x0 = if x < i { x } else { x + 1 };
                        let y0 = if y < i { y } else { y + 1 };
                        assert(after[x] == before[x0]);
                        assert(after[y] == before[y0]);
                    }
                }
            },
            None => {},
        }
        Ok(())
    }
}

/// The ownership gate: contact `contact_id` as seen by user `user_id`.
pub open spec fn gate_verdict(cs: Seq<Contact>, user_id: u128, contact_id: u128) -> Result<Contact, ServiceError> {
    if !has_contact(cs, contact_id) {
        Err(ServiceError::NotFound)
    } else if contact_with_id(cs, contact_id).user_id != user_id {
        Err(ServiceError::Unauthorized)
    } else {
        Ok(contact_with_id(cs, contact_id))
    }
}

/// The ownership check as the store answers it: an unreachable store fails
/// with `Repository`, else as `gate_verdict`.
pub open spec fn access(reachable: bool, cs: Seq<Contact>, user_id: u128, contact_id: u128) -> Result<Contact, ServiceError> {
    if !reachable {
        Err(ServiceError::Repository)
    } else {
        gate_verdict(cs, user_id, contact_id)
    }
}

/// `c` holds the fields of `req`, owned by `user_id`.
pub open spec fn created_from(c: Contact, user_id: u128, req: CreateContactRequest) -> bool {
    &&& c.user_id == user_id
    &&& c.first_name == req.first_name
    &&& c.last_name == req.last_name
    &&& c.email == req.email
    &&& c.phone == req.phone
}

/// The value of an optional field after a partial update.
pub open spec fn patched<T>(current: Option<T>, update: Option<T>) -> Option<T> {
    match update {
        Some(v) => Some(v),
        None => current,
    }
}

/// `new` is `old` with the fields present in `req` replaced, identity,
/// owner and creation time kept.
pub open spec fn merged(old: Contact, req: UpdateContactRequest, new: Contact) -> bool {
    &&& new.id == old.id
    &&& new.user_id == old.user_id
    &&& new.created_at == old.created_at
    &&& new.first_name == match req.first_name {
        Some(f) => f,
        None => old.first_name,
    }
    &&& new.last_name == patched(old.last_name, req.last_name)
    &&& new.email == patched(old.email, req.email)
    &&& new.phone == patched(old.phone, req.phone)
}

/// The contact that a creation stores.
pub open spec fn new_contact(user_id: u128, id: u128, now: i64, req: CreateContactRequest) -> Contact {
    Contact {
        id,
        user_id,
        first_name: req.first_name,
        last_name: req.last_name,
        email: req.email,
        phone: req.phone,
        created_at: now,
        updated_at: now,
    }
}

/// The address that a creation stores.
pub open spec fn new_address(contact_id: u128, id: u128, now: i64, req: CreateAddressRequest) -> Address {
    Address {
        id,
        contact_id,
        street: req.street,
        city: req.city,
        province: req.province,
        country: req.country,
        postal_code: req.postal_code,
        created_at: now,
        updated_at: now,
    }
}

/// `a` holds the fields of `req`, attached to contact `contact_id`.
pub open spec fn address_from(a: Address, contact_id: u128, req: CreateAddressRequest) -> bool {
    &&& a.contact_id == contact_id
    &&& a.street == req.street
    &&& a.city == req.city
    &&& a.province == req.province
    &&& a.country == req.country
    &&& a.postal_code == req.postal_code
}

/// The views of `addrs`, in order.
fn address_views(addrs: &Vec<Address>) -> (r: Vec<AddressResponse>)
    ensures
        r@ == addrs@.map_values(|a: Address| address_view(a)),
{
    let mut out: Vec<AddressResponse> = Vec::new();
    let mut i: usize = 0;
    while i < addrs.len()
        invariant
            i <= addrs@.len(),
            out@ == addrs@.subrange(0, i as int).map_values(|a: Address| address_view(a)),
        decreases addrs.len() - i,
    {
        out.push(AddressResponse::from(addrs[i].duplicate()));
        assert(addrs@.subrange(0, i + 1).map_values(|a: Address| address_view(a))
            =~= addrs@.subrange(0, i as int).map_values(|a: Address| address_view(a)).push(address_view(addrs@[i as int])));
        i = i + 1;
    }
    assert(addrs@.subrange(0, addrs@.len() as int) =~= addrs@);
    out
}

/// Contact and address operations on behalf of an identified user.
pub struct ContactUsecase<R: ContactRepository> {
    repo: R,
}

impl<R: ContactRepository> ContactUsecase<R> {
    pub closed spec fn contacts(&self) -> Seq<Contact> {
        self.repo.contacts()
    }

    pub closed spec fn addresses(&self) -> Seq<Address> {
        self.repo.addresses()
    }

    pub closed spec fn reachable(&self) -> bool {
        self.repo.reachable()
    }

    pub open spec fn wf(&self) -> bool {
        ledger_wf(self.contacts(), self.addresses())
    }

    pub fn new(repo: R) -> (r: ContactUsecase<R>)
        requires
            ledger_wf(repo.contacts(), repo.addresses()),
        ensures
            r.wf(),
            r.contacts() == repo.contacts(),
            r.addresses() == repo.addresses(),
            r.reachable() == repo.reachable(),
    {
        ContactUsecase { repo }
    }

    /// The ownership gate: loads the contact and checks that `user_id` owns it.
    pub fn authorize(&self, user_id: u128, contact_id: u128) -> (r: Result<Contact, ServiceError>)
        requires
            self.wf(),
        ensures
            r == access(self.reachable(), self.contacts(), user_id, contact_id),
    {
        match self.repo.find_contact_by_id(contact_id) {
            Err(e) => Err(e),
            Ok(None) => Err(ServiceError::NotFound),
            Ok(Some(c)) => {
                if c.user_id != user_id {
                    Err(ServiceError::Unauthorized)
                } else {
                    Ok(c)
                }
            },
        }
    }

    /// Creates a contact with identifier `id`, owned by `user_id` and
    /// created at `now`, with no addresses.
    pub fn create_contact_with(&mut self, user_id: u128, id: u128, now: i64, req: CreateContactRequest) -> (r: Result<ContactResponse, ServiceError>)
        requires
            old(self).wf(),
        ensures
            final(self).wf(),
            final(self).addresses() == old(self).addresses(),
            create_contact_violations(req.first_name@, opt_string_view(req.email), opt_string_view(req.phone)).len() > 0 ==> {
                &&& r matches Err(ServiceError::Validation(vs))
                &&& vs@ == create_contact_violations(req.first_name@, opt_string_view(req.email), opt_string_view(req.phone))
                &&& final(self).contacts() == old(self).contacts()
            },
            create_contact_violations(req.first_name@, opt_string_view(req.email), opt_string_view(req.phone)).len() == 0 ==> if has_contact(old(self).contacts(), id) {
                r == Err::<ContactResponse, ServiceError>(ServiceError::Repository)
                    && final(self).contacts() == old(self).contacts()
            } else {
                &&& final(self).contacts() == old(self).contacts().push(new_contact(user_id, id, now, req))
                &&& r matches Ok(view) && shows(view, new_contact(user_id, id, now, req), Seq::empty())
            },
    {
        let violations = req.validate();
        if violations.len() > 0 {
            return Err(ServiceError::Validation(violations));
        }
        let contact = Contact {
            id,
            user_id,
            first_name: req.first_name,
            last_name: req.last_name,
            email: req.email,
            phone: req.phone,
            created_at: now,
            updated_at: now,
        };
        match self.repo.create_contact(contact) {
            Ok(c) => Ok(ContactResponse::from(c)),
            Err(e) => Err(e),
        }
    }

    /// Creates a contact owned by `user_id`, with a fresh identifier and no
    /// addresses.
    pub fn create_contact(&mut self, user_id: u128, req: CreateContactRequest) -> (r: Result<ContactResponse, ServiceError>)
        requires
            old(self).wf(),
        ensures
            final(self).wf(),
            final(self).addresses() == old(self).addresses(),
            create_contact_violations(req.first_name@, opt_string_view(req.email), opt_string_view(req.phone)).len() > 0 ==> {
                &&& r matches Err(ServiceError::Validation(vs))
                &&& vs@ == create_contact_violations(req.first_name@, opt_string_view(req.email), opt_string_view(req.phone))
                &&& final(self).contacts() == old(self).contacts()
            },
            create_contact_violations(req.first_name@, opt_string_view(req.email), opt_string_view(req.phone)).len() == 0
                ==> match r {
                Ok(view) => {
                    &&& final(self).contacts().len() == old(self).contacts().len() + 1
                    &&& final(self).contacts().drop_last() == old(self).contacts()
                    &&& !has_contact(old(self).contacts(), final(self).contacts().last().id)
                    &&& created_from(final(self).contacts().last(), user_id, req)
                    &&& final(self).contacts().last().created_at == final(self).contacts().last().updated_at
                    &&& clock_reading(final(self).contacts().last().created_at)
                    &&& shows(view, final(self).contacts().last(), Seq::empty())
                },
                Err(e) => e == ServiceError::Repository && final(self).contacts() == old(self).contacts(),
            },
            r matches Err(ServiceError::Repository) ==> old(self).contacts().len() > 0,
    {
        let r = self.create_contact_with(user_id, fresh_id(), clock_now(), req);
        proof {
            if r is Ok {
                assert(self.contacts().drop_last() =~= old(self).contacts());
            }
        }
        r
    }

    /// Updates, at time `now`, the fields present in `req` of a contact that
    /// `user_id` owns.
    pub fn update_contact_at(&mut self, user_id: u128, contact_id: u128, req: UpdateContactRequest, now: i64) -> (r: Result<ContactResponse, ServiceError>)
        requires
            old(self).wf(),
        ensures
            final(self).wf(),
            final(self).addresses() == old(self).addresses(),
            match access(old(self).reachable(), old(self).contacts(), user_id, contact_id) {
                Err(e) => r == Err::<ContactResponse, ServiceError>(e) && final(self).contacts() == old(self).contacts(),
                Ok(c) => if update_contact_violations(opt_string_view(req.first_name), opt_string_view(req.email)).len() > 0 {
                    &&& r matches Err(ServiceError::Validation(vs))
                    &&& vs@ == update_contact_violations(opt_string_view(req.first_name), opt_string_view(req.email))
                    &&& final(self).contacts() == old(self).contacts()
                } else {
                    let idx = contact_index(old(self).contacts(), contact_id);
                    &&& final(self).contacts() == old(self).contacts().update(idx, final(self).contacts()[idx])
                    &&& merged(c, req, final(self).contacts()[idx])
                    &&& final(self).contacts()[idx].updated_at == now
                    &&& r matches Ok(view) && shows(view, final(self).contacts()[idx], Seq::empty())
                },
            },
    {
        let current = match self.authorize(user_id, contact_id) {
            Ok(c) => c,
            Err(e) => return Err(e),
        };
        let violations = req.validate();
        if violations.len() > 0 {
            return Err(ServiceError::Validation(violations));
        }
        let first_name = match req.first_name {
            Some(f) => f,
            None => current.first_name,
        };
        let last_name = match req.last_name {
            Some(v) => Some(v),
            None => current.last_name,
        };
        let email = match req.email {
            Some(v) => Some(v),
            None => current.email,
        };
        let phone = match req.phone {
            Some(v) => Some(v),
            None => current.phone,
        };
        let contact = Contact {
            id: current.id,
            user_id: current.user_id,
            first_name,
            last_name,
            email,
            phone,
            created_at: current.created_at,
            updated_at: now,
        };
        match self.repo.update_contact(contact) {
            Ok(c) => Ok(ContactResponse::from(c)),
            Err(e) => Err(e),
        }
    }

    /// Updates the fields present in `req` of a contact that `user_id` owns.
    pub fn update_contact(&mut self, user_id: u128, contact_id: u128, req: UpdateContactRequest) -> (r: Result<ContactResponse, ServiceError>)
        requires
            old(self).wf(),
        ensures
            final(self).wf(),
            final(self).addresses() == old(self).addresses(),
            match access(old(self).reachable(), old(self).contacts(), user_id, contact_id) {
                Err(e) => r == Err::<ContactResponse, ServiceError>(e) && final(self).contacts() == old(self).contacts(),
                Ok(c) => if update_contact_violations(opt_string_view(req.first_name), opt_string_view(req.email)).len() > 0 {
                    &&& r matches Err(ServiceError::Validation(vs))
                    &&& vs@ == update_contact_violations(opt_string_view(req.first_name), opt_string_view(req.email))
                    &&& final(self).contacts() == old(self).contacts()
                } else {
                    let idx = contact_index(old(self).contacts(), contact_id);
                    &&& final(self).contacts() == old(self).contacts().update(idx, final(self).contacts()[idx])
                    &&& merged(c, req, final(self).contacts()[idx])
                    &&& clock_reading(final(self).contacts()[idx].updated_at)
                    &&& r matches Ok(view) && shows(view, final(self).contacts()[idx], Seq::empty())
                },
            },
    {
        self.update_contact_at(user_id, contact_id, req, clock_now())
    }

    /// Deletes a contact that `user_id` owns, with its addresses.
    pub fn delete_contact(&mut self, user_id: u128, contact_id: u128) -> (r: Result<(), ServiceError>)
        requires
            old(self).wf(),
        ensures
            final(self).wf(),
            match access(old(self).reachable(), old(self).contacts(), user_id, contact_id) {
                Err(e) => r == Err::<(), ServiceError>(e) && final(self).contacts() == old(self).contacts()
                    && final(self).addresses() == old(self).addresses(),
                Ok(_) => {
                    &&& r is Ok
                    &&& final(self).contacts() == old(self).contacts().remove(contact_index(old(self).contacts(), contact_id))
                    &&& final(self).addresses() == addresses_not_of(old(self).addresses(), contact_id)
                },
            },
    {
        match self.authorize(user_id, contact_id) {
            Ok(_) => {},
            Err(e) => return Err(e),
        }
        self.repo.delete_contact(contact_id)
    }

    /// A contact that `user_id` owns, with its addresses in creation order.
    pub fn get_contact(&self, user_id: u128, contact_id: u128) -> (r: Result<ContactResponse, ServiceError>)
        requires
            self.wf(),
        ensures
            match access(self.reachable(), self.contacts(), user_id, contact_id) {
                Err(e) => r == Err::<ContactResponse, ServiceError>(e),
                Ok(c) => r matches Ok(view) && shows(view, c, addresses_of(self.addresses(), contact_id))
                    && by_creation(addresses_of(self.addresses(), contact_id)),
            },
    {
        let contact = match self.authorize(user_id, contact_id) {
            Ok(c) => c,
            Err(e) => return Err(e),
        };
        let addrs = match self.repo.find_addresses_by_contact_id(contact_id) {
            Ok(v) => v,
            Err(e) => return Err(e),
        };
        proof {
            lemma_addresses_of_by_creation(self.addresses(), contact_id);
        }
        let mut view = ContactResponse::from(contact);
        view.addresses = address_views(&addrs);
        Ok(view)
    }

    /// Every contact that `user_id` owns, in creation order, each with its
    /// addresses.
    pub fn search_contacts(&self, user_id: u128) -> (r: Result<Vec<ContactResponse>, ServiceError>)
        requires
            self.wf(),
        ensures
            !self.reachable() ==> r == Err::<Vec<ContactResponse>, ServiceError>(ServiceError::Repository),
            self.reachable() ==> (r matches Ok(views) && views@.len() == contacts_of(self.contacts(), user_id).len()
                && forall|i: int| 0 <= i < views@.len() ==> shows(
                    #[trigger] views@[i],
                    contacts_of(self.contacts(), user_id)[i],
                    addresses_of(self.addresses(), contacts_of(self.contacts(), user_id)[i].id),
                )),
            forall|cid: u128| by_creation(#[trigger] addresses_of(self.addresses(), cid)),
    {
        proof {
            assert forall|cid: u128| by_creation(#[trigger] addresses_of(self.addresses(), cid)) by {
                lemma_addresses_of_by_creation(self.addresses(), cid);
            }
        }
        let owned = match self.repo.find_contacts_by_user_id(user_id) {
            Ok(v) => v,
            Err(e) => return Err(e),
        };
        let mut views: Vec<ContactResponse> = Vec::new();
        let mut i: usize = 0;
        while i < owned.len()
            invariant
                i <= owned@.len(),
                forall|cid: u128| by_creation(#[trigger] addresses_of(self.addresses(), cid)),
                owned@ == contacts_of(self.contacts(), user_id),
                views@.len() == i,
                forall|k: int| 0 <= k < i ==> shows(
                    #[trigger] views@[k],
                    owned@[k],
                    addresses_of(self.addresses(), owned@[k].id),
                ),
            decreases owned.len() - i,
        {
            let c = owned[i].duplicate();
            let addrs = match self.repo.find_addresses_by_contact_id(c.id) {
                Ok(v) => v,
                Err(e) => return Err(e),
            };
            let mut view = ContactResponse::from(c);
            view.addresses = address_views(&addrs);
            views.push(view);
            i = i + 1;
        }
        Ok(views)
    }

    /// Adds an address with identifier `id`, created at `now`, to a contact
    /// that `user_id` owns; the country is checked before the store is read,
    /// and the contact comes from the argument, never from the request.
    pub fn create_address_with(&mut self, user_id: u128, contact_id: u128, id: u128, now: i64, req: CreateAddressRequest) -> (r: Result<AddressResponse, ServiceError>)
        requires
            old(self).wf(),
        ensures
            final(self).wf(),
            final(self).contacts() == old(self).contacts(),
            address_violations(req.country@).len() > 0 ==> {
                &&& r matches Err(ServiceError::Validation(vs))
                &&& vs@ == address_violations(req.country@)
                &&& final(self).addresses() == old(self).addresses()
            },
            address_violations(req.country@).len() == 0 ==> match access(old(self).reachable(), old(self).contacts(), user_id, contact_id) {
                Err(e) => r == Err::<AddressResponse, ServiceError>(e) && final(self).addresses() == old(self).addresses(),
                Ok(_) => if has_address(old(self).addresses(), id) {
                    r == Err::<AddressResponse, ServiceError>(ServiceError::Repository)
                        && final(self).addresses() == old(self).addresses()
                } else {
                    &&& final(self).addresses() == old(self).addresses().insert(
                        insertion_point(old(self).addresses(), now),
                        new_address(contact_id, id, now, req),
                    )
                    &&& r == Ok::<AddressResponse, ServiceError>(address_view(new_address(contact_id, id, now, req)))
                },
            },
    {
        let violations = req.validate();
        if violations.len() > 0 {
            return Err(ServiceError::Validation(violations));
        }
        match self.authorize(user_id, contact_id) {
            Ok(_) => {},
            Err(e) => return Err(e),
        }
        let address = Address {
            id,
            contact_id,
            street: req.street,
            city: req.city,
            province: req.province,
            country: req.country,
            postal_code: req.postal_code,
            created_at: now,
            updated_at: now,
        };
        match self.repo.create_address(address) {
            Ok(a) => Ok(AddressResponse::from(a)),
            Err(e) => Err(e),
        }
    }

    /// Adds an address with a fresh identifier to a contact that `user_id`
    /// owns; a missing country is refused before the store is read.
    pub fn create_address(&mut self, user_id: u128, contact_id: u128, req: CreateAddressRequest) -> (r: Result<AddressResponse, ServiceError>)
        requires
            old(self).wf(),
        ensures
            final(self).wf(),
            final(self).contacts() == old(self).contacts(),
            address_violations(req.country@).len() > 0 ==> {
                &&& r matches Err(ServiceError::Validation(vs))
                &&& vs@ == address_violations(req.country@)
                &&& final(self).addresses() == old(self).addresses()
            },
            address_violations(req.country@).len() == 0 ==> match access(old(self).reachable(), old(self).contacts(), user_id, contact_id) {
                Err(e) => r == Err::<AddressResponse, ServiceError>(e) && final(self).addresses() == old(self).addresses(),
                Ok(_) => match r {
                    Ok(view) => exists|a: Address| {
                        &&& #[trigger] address_from(a, contact_id, req)
                        &&& a.created_at == a.updated_at && clock_reading(a.created_at)
                        &&& !has_address(old(self).addresses(), a.id)
                        &&& view == address_view(a)
                        &&& final(self).addresses() == old(self).addresses().insert(
                            insertion_point(old(self).addresses(), a.created_at),
                            a,
                        )
                    },
                    Err(e) => e == ServiceError::Repository && final(self).addresses() == old(self).addresses(),
                },
            },
            r matches Err(ServiceError::Repository) ==> old(self).addresses().len() > 0 || !old(self).reachable(),
    {
        let id = fresh_id();
        let now = clock_now();
        let ghost a = new_address(contact_id, id, now, req);
        let r = self.create_address_with(user_id, contact_id, id, now, req);
        proof {
            if r is Ok {
                assert(address_from(a, contact_id, req));
            }
        }
        r
    }
}

/// A contact with no stored address has none listed.
proof fn lemma_no_addresses_of(addrs: Seq<Address>, cid: u128)
    requires
        forall|k: int| 0 <= k < addrs.len() ==> (#[trigger] addrs[k]).contact_id != cid,
    ensures
        addresses_of(addrs, cid) == Seq::<Address>::empty(),
    decreases addrs.len(),
{
    if addrs.len() > 0 {
        let init = addrs.drop_last();
        assert forall|k: int| 0 <= k < init.len() implies (#[trigger] init[k]).contact_id != cid by {
            assert(init[k] == addrs[k]);
        }
        lemma_no_addresses_of(init, cid);
        assert(addrs.last() == addrs[addrs.len() - 1]);
    }
}

/// For every contact owned by user `b`, the ownership check for user `a`
/// fails with `Unauthorized`; reading, updating and deleting the contact or
/// adding an address to it all go through that check.
pub proof fn lemma_cross_owner_denied(cs: Seq<Contact>, addrs: Seq<Address>, a: u128, b: u128)
    requires
        ledger_wf(cs, addrs),
        a != b,
    ensures
        forall|i: int| 0 <= i < cs.len() && (#[trigger] cs[i]).user_id == b
            ==> gate_verdict(cs, a, cs[i].id) == Err::<Contact, ServiceError>(ServiceError::Unauthorized),
{
    assert forall|i: int| 0 <= i < cs.len() && (#[trigger] cs[i]).user_id == b
        implies gate_verdict(cs, a, cs[i].id) == Err::<Contact, ServiceError>(ServiceError::Unauthorized) by {
        let j = contact_index(cs, cs[i].id);
        assert(cs[j].id == cs[i].id);
        assert(j == i);
    }
}

/// Adding an address goes through its contact: a missing contact gives
/// `NotFound`, another user's contact `Unauthorized`, and an empty country
/// is a violation.
pub proof fn lemma_address_gate(cs: Seq<Contact>, user_id: u128, contact_id: u128)
    ensures
        !has_contact(cs, contact_id) ==> gate_verdict(cs, user_id, contact_id)
            == Err::<Contact, ServiceError>(ServiceError::NotFound),
        has_contact(cs, contact_id) && contact_with_id(cs, contact_id).user_id != user_id
            ==> gate_verdict(cs, user_id, contact_id) == Err::<Contact, ServiceError>(ServiceError::Unauthorized),
        address_violations(Seq::empty()) == seq![Violation::CountryMissing],
{
}

/// A contact just stored is read back by its owner as stored, with no
/// address; once one address is added to it, wherever creation order puts
/// it, exactly that address is listed.
pub proof fn lemma_create_then_get(cs: Seq<Contact>, addrs: Seq<Address>, c: Contact, a: Address, k: int)
    requires
        ledger_wf(cs, addrs),
        !has_contact(cs, c.id),
        a.contact_id == c.id,
        0 <= k <= addrs.len(),
    ensures
        gate_verdict(cs.push(c), c.user_id, c.id) == Ok::<Contact, ServiceError>(c),
        addresses_of(addrs, c.id) == Seq::<Address>::empty(),
        addresses_of(addrs.insert(k, a), c.id) == seq![a],
{
    let after = cs.push(c);
    let last = cs.len() as int;
    assert(after[last] == c);
    assert(has_contact(after, c.id));
    let j = contact_index(after, c.id);
    if j != last {
        assert(cs[j].id == c.id);
    }
    assert forall|i: int| 0 <= i < addrs.len() implies (#[trigger] addrs[i]).contact_id != c.id by {
        assert(has_contact(cs, addrs[i].contact_id));
    }
    lemma_no_addresses_of(addrs, c.id);
    let ins = addrs.insert(k, a);
    assert(ins[k] == a);
    assert forall|i: int| 0 <= i < ins.len() && i != k implies (#[trigger] ins[i]).contact_id != c.id by {
        if i < k {
            assert(ins[i] == addrs[i]);
        } else {
            assert(ins[i] == addrs[i - 1]);
        }
    }
    lemma_single_address_of(ins, c.id, k);
}

} // verus!

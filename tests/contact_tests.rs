use contact_core::contacts::{
    Address, Contact, ContactLedger, ContactRepository, ContactUsecase, CreateAddressRequest,
    CreateContactRequest, UpdateContactRequest,
};
use contact_core::error::ServiceError;
use contact_core::validation::Violation;

const OWNER: u128 = 11;
const OTHER: u128 = 22;

fn contact_req(first: &str, last: Option<&str>, email: Option<&str>, phone: Option<&str>) -> CreateContactRequest {
    CreateContactRequest {
        first_name: first.to_string(),
        last_name: last.map(|s| s.to_string()),
        email: email.map(|s| s.to_string()),
        phone: phone.map(|s| s.to_string()),
    }
}

fn address_req(country: &str, city: Option<&str>) -> CreateAddressRequest {
    CreateAddressRequest {
        street: None,
        city: city.map(|s| s.to_string()),
        province: None,
        country: country.to_string(),
        postal_code: None,
    }
}

fn no_update() -> UpdateContactRequest {
    UpdateContactRequest { first_name: None, last_name: None, email: None, phone: None }
}

fn stored_contact(id: u128, owner: u128, first: &str) -> Contact {
    Contact {
        id,
        user_id: owner,
        first_name: first.to_string(),
        last_name: None,
        email: None,
        phone: None,
        created_at: 0,
        updated_at: 0,
    }
}

#[test]
fn test_create_contact_success() {
    let mut usecase = ContactUsecase::new(ContactLedger::new());
    let req = contact_req("John", Some("Doe"), Some("john@example.com"), Some("123456789"));
    let result = usecase.create_contact(OWNER, req);
    assert!(result.is_ok());
    let contact = result.unwrap();
    assert_eq!(contact.first_name, "John");
}

#[test]
fn test_get_contact_unauthorized() {
    let mut ledger = ContactLedger::new();
    let contact_id: u128 = 99;
    assert!(ledger.create_contact(stored_contact(contact_id, OTHER, "Jane")).is_ok());
    let usecase = ContactUsecase::new(ledger);
    let result = usecase.get_contact(OWNER, contact_id);
    assert!(result.is_err());
    assert_eq!(result.err().unwrap().message(), "Unauthorized");
}

#[test]
fn contact_flow_with_address() {
    let mut usecase = ContactUsecase::new(ContactLedger::new());
    let created = usecase
        .create_contact(OWNER, contact_req("Contact", None, Some("c@example.com"), Some("123")))
        .unwrap();
    let address = usecase.create_address(OWNER, created.id, address_req("Indonesia", Some("Jakarta"))).unwrap();
    assert_eq!(address.country, "Indonesia");
    let fetched = usecase.get_contact(OWNER, created.id).unwrap();
    assert_eq!(fetched.first_name, "Contact");
    assert_eq!(fetched.addresses.len(), 1);
    assert_eq!(fetched.addresses[0].id, address.id);
    assert_eq!(fetched.addresses[0].city.as_deref(), Some("Jakarta"));
}

#[test]
fn created_contact_reads_back_unchanged() {
    let mut usecase = ContactUsecase::new(ContactLedger::new());
    let created = usecase
        .create_contact(OWNER, contact_req("Ann", Some("Lee"), Some("ann@example.com"), Some("5551234")))
        .unwrap();
    assert!(created.addresses.is_empty());
    let fetched = usecase.get_contact(OWNER, created.id).unwrap();
    assert_eq!(fetched.id, created.id);
    assert_eq!(fetched.first_name, "Ann");
    assert_eq!(fetched.last_name.as_deref(), Some("Lee"));
    assert_eq!(fetched.email.as_deref(), Some("ann@example.com"));
    assert_eq!(fetched.phone.as_deref(), Some("5551234"));
    assert!(fetched.addresses.is_empty());
}

#[test]
fn other_user_cannot_touch_a_contact() {
    let mut usecase = ContactUsecase::new(ContactLedger::new());
    let created = usecase.create_contact(OWNER, contact_req("Bea", None, None, None)).unwrap();
    assert!(matches!(usecase.get_contact(OTHER, created.id), Err(ServiceError::Unauthorized)));
    let update = UpdateContactRequest { first_name: Some("Mallory".to_string()), ..no_update() };
    assert!(matches!(usecase.update_contact(OTHER, created.id, update), Err(ServiceError::Unauthorized)));
    assert!(matches!(usecase.delete_contact(OTHER, created.id), Err(ServiceError::Unauthorized)));
    assert!(matches!(
        usecase.create_address(OTHER, created.id, address_req("Peru", None)),
        Err(ServiceError::Unauthorized)
    ));
    let fetched = usecase.get_contact(OWNER, created.id).unwrap();
    assert_eq!(fetched.first_name, "Bea");
    assert!(fetched.addresses.is_empty());
}

#[test]
fn missing_contact_is_not_found() {
    let mut usecase = ContactUsecase::new(ContactLedger::new());
    assert!(matches!(usecase.get_contact(OWNER, 5), Err(ServiceError::NotFound)));
    assert!(matches!(usecase.delete_contact(OWNER, 5), Err(ServiceError::NotFound)));
    assert!(matches!(usecase.update_contact(OWNER, 5, no_update()), Err(ServiceError::NotFound)));
    let err = usecase.create_address(OWNER, 5, address_req("Peru", None)).err().unwrap();
    assert!(matches!(err, ServiceError::NotFound));
    assert_eq!(err.message(), "Contact not found");
}

#[test]
fn address_needs_a_country() {
    let mut usecase = ContactUsecase::new(ContactLedger::new());
    let created = usecase.create_contact(OWNER, contact_req("Cy", None, None, None)).unwrap();
    match usecase.create_address(OWNER, created.id, address_req("", Some("Lima"))) {
        Err(ServiceError::Validation(vs)) => assert_eq!(vs, vec![Violation::CountryMissing]),
        other => panic!("unexpected {:?}", other),
    }
    assert!(usecase.get_contact(OWNER, created.id).unwrap().addresses.is_empty());
}

#[test]
fn create_contact_reports_every_violation() {
    let mut usecase = ContactUsecase::new(ContactLedger::new());
    match usecase.create_contact(OWNER, contact_req("", None, Some("bad"), Some("12"))) {
        Err(ServiceError::Validation(vs)) => assert_eq!(
            vs,
            vec![Violation::FirstNameMissing, Violation::InvalidEmail, Violation::PhoneTooShort]
        ),
        other => panic!("unexpected {:?}", other),
    }
    assert!(usecase.search_contacts(OWNER).unwrap().is_empty());
}

#[test]
fn partial_update_keeps_absent_fields() {
    let mut usecase = ContactUsecase::new(ContactLedger::new());
    let created = usecase
        .create_contact(OWNER, contact_req("Dee", Some("Old"), Some("dee@example.com"), Some("999")))
        .unwrap();
    let update = UpdateContactRequest { last_name: Some("New".to_string()), ..no_update() };
    let updated = usecase.update_contact(OWNER, created.id, update).unwrap();
    assert_eq!(updated.first_name, "Dee");
    assert_eq!(updated.last_name.as_deref(), Some("New"));
    assert_eq!(updated.email.as_deref(), Some("dee@example.com"));
    assert_eq!(updated.phone.as_deref(), Some("999"));
    let bad = UpdateContactRequest { first_name: Some(String::new()), ..no_update() };
    assert!(matches!(usecase.update_contact(OWNER, created.id, bad), Err(ServiceError::Validation(_))));
}

#[test]
fn delete_removes_contact_and_addresses() {
    let mut usecase = ContactUsecase::new(ContactLedger::new());
    let a = usecase.create_contact(OWNER, contact_req("Ed", None, None, None)).unwrap();
    let b = usecase.create_contact(OWNER, contact_req("Flo", None, None, None)).unwrap();
    usecase.create_address(OWNER, a.id, address_req("Chile", None)).unwrap();
    usecase.create_address(OWNER, b.id, address_req("Fiji", None)).unwrap();
    assert!(usecase.delete_contact(OWNER, a.id).is_ok());
    assert!(matches!(usecase.get_contact(OWNER, a.id), Err(ServiceError::NotFound)));
    let left = usecase.search_contacts(OWNER).unwrap();
    assert_eq!(left.len(), 1);
    assert_eq!(left[0].first_name, "Flo");
    assert_eq!(left[0].addresses.len(), 1);
    assert_eq!(left[0].addresses[0].country, "Fiji");
}

#[test]
fn search_lists_only_own_contacts_in_creation_order() {
    let mut usecase = ContactUsecase::new(ContactLedger::new());
    usecase.create_contact(OWNER, contact_req("One", None, None, None)).unwrap();
    usecase.create_contact(OTHER, contact_req("Theirs", None, None, None)).unwrap();
    usecase.create_contact(OWNER, contact_req("Two", None, None, None)).unwrap();
    let mine = usecase.search_contacts(OWNER).unwrap();
    let names: Vec<&str> = mine.iter().map(|c| c.first_name.as_str()).collect();
    assert_eq!(names, vec!["One", "Two"]);
    assert_eq!(usecase.search_contacts(OTHER).unwrap().len(), 1);
    assert!(usecase.search_contacts(33).unwrap().is_empty());
}

#[test]
fn ledger_refuses_duplicate_ids_and_orphan_addresses() {
    let mut ledger = ContactLedger::new();
    assert!(ledger.create_contact(stored_contact(1, OWNER, "A")).is_ok());
    assert!(matches!(ledger.create_contact(stored_contact(1, OTHER, "B")), Err(ServiceError::Repository)));
    let orphan = Address {
        id: 5,
        contact_id: 2,
        street: None,
        city: None,
        province: None,
        country: "X".to_string(),
        postal_code: None,
        created_at: 0,
        updated_at: 0,
    };
    assert!(matches!(ledger.create_address(orphan), Err(ServiceError::Repository)));
    assert_eq!(ledger.find_contact_by_id(1).unwrap().unwrap().first_name, "A");
    assert!(ledger.find_contact_by_id(2).unwrap().is_none());
}

#[test]
fn ledger_address_operations() {
    let mut ledger = ContactLedger::new();
    ledger.create_contact(stored_contact(1, OWNER, "A")).unwrap();
    let mut address = Address {
        id: 8,
        contact_id: 1,
        street: None,
        city: Some("Quito".to_string()),
        province: None,
        country: "Ecuador".to_string(),
        postal_code: None,
        created_at: 0,
        updated_at: 0,
    };
    assert_eq!(ledger.create_address(address.duplicate()).unwrap().id, 8);
    assert!(matches!(ledger.create_address(address.duplicate()), Err(ServiceError::Repository)));
    address.city = Some("Cuenca".to_string());
    assert!(ledger.update_address(address.duplicate()).is_ok());
    assert_eq!(ledger.find_address_by_id(8).unwrap().unwrap().city.as_deref(), Some("Cuenca"));
    address.id = 9;
    assert!(matches!(ledger.update_address(address), Err(ServiceError::Repository)));
    assert!(ledger.delete_address(8).is_ok());
    assert!(ledger.find_address_by_id(8).unwrap().is_none());
    assert!(ledger.find_addresses_by_contact_id(1).unwrap().is_empty());
}

#[test]
fn create_with_given_id_succeeds_unless_taken() {
    let mut usecase = ContactUsecase::new(ContactLedger::new());
    let first = usecase.create_contact_with(OWNER, 40, 1_000, contact_req("Gus", None, None, None)).unwrap();
    assert_eq!(first.id, 40);
    let again = usecase.create_contact_with(OWNER, 40, 1_001, contact_req("Hal", None, None, None));
    assert!(matches!(again, Err(ServiceError::Repository)));
    let address = usecase
        .create_address_with(OWNER, 40, 70, 1_002, address_req("Oman", Some("Muscat")))
        .unwrap();
    assert_eq!(address.id, 70);
    assert!(matches!(
        usecase.create_address_with(OWNER, 40, 70, 1_003, address_req("Oman", None)),
        Err(ServiceError::Repository)
    ));
    let fetched = usecase.get_contact(OWNER, 40).unwrap();
    assert_eq!(fetched.addresses.len(), 1);
    assert_eq!(fetched.addresses[0].city.as_deref(), Some("Muscat"));
}

#[test]
fn missing_country_is_refused_before_the_contact_is_looked_up() {
    let mut usecase = ContactUsecase::new(ContactLedger::new());
    match usecase.create_address(OWNER, 12345, address_req("", None)) {
        Err(e) => {
            assert!(matches!(&e, ServiceError::Validation(vs) if vs == &vec![Violation::CountryMissing]));
            assert_eq!(e.message(), "Country is required");
        }
        Ok(_) => panic!("accepted an address without a country"),
    }
}

#[test]
fn update_at_refreshes_updated_time() {
    let mut ledger = ContactLedger::new();
    ledger.create_contact(stored_contact(3, OWNER, "Ida")).unwrap();
    let mut usecase = ContactUsecase::new(ledger);
    let update = UpdateContactRequest { phone: Some("12345".to_string()), ..no_update() };
    let view = usecase.update_contact_at(OWNER, 3, update, 777).unwrap();
    assert_eq!(view.phone.as_deref(), Some("12345"));
    assert_eq!(view.first_name, "Ida");
}

#[test]
fn addresses_are_listed_in_creation_order() {
    let mut usecase = ContactUsecase::new(ContactLedger::new());
    usecase.create_contact_with(OWNER, 1, 0, contact_req("Jo", None, None, None)).unwrap();
    usecase.create_address_with(OWNER, 1, 10, 500, address_req("Late", None)).unwrap();
    usecase.create_address_with(OWNER, 1, 11, 100, address_req("Early", None)).unwrap();
    usecase.create_address_with(OWNER, 1, 12, 300, address_req("Middle", None)).unwrap();
    let countries: Vec<String> = usecase
        .get_contact(OWNER, 1)
        .unwrap()
        .addresses
        .into_iter()
        .map(|a| a.country)
        .collect();
    assert_eq!(countries, vec!["Early", "Middle", "Late"]);
}

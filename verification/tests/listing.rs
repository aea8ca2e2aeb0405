use transfer_credentials::listing::{
    is_valid_account_id, role_assigned, AccountListing, AccountSummary, ListingStep, RoleListing,
    MAX_PAGES,
};

fn summary(id: Option<&str>, name: Option<&str>, email: Option<&str>) -> AccountSummary {
    AccountSummary {
        account_id: id.map(|s| s.to_string()),
        account_name: name.map(|s| s.to_string()),
        email_address: email.map(|s| s.to_string()),
    }
}

#[test]
fn accounts_are_collected_across_pages() {
    let mut listing = AccountListing::new();
    let first = vec![
        summary(Some("123456789012"), Some("Prod"), Some("ops@example.com")),
        summary(None, Some("No id"), None),
    ];
    match listing.accept(&first, Some("next".into())).unwrap() {
        ListingStep::Fetch(token) => assert_eq!(token, "next"),
        ListingStep::Finished => panic!("a second page was announced"),
    }
    let second = vec![summary(Some("210987654321"), None, None)];
    assert!(matches!(listing.accept(&second, None).unwrap(), ListingStep::Finished));
    assert_eq!(listing.found.len(), 2);
    assert_eq!(listing.found[0].account_name, "Prod");
    assert_eq!(listing.found[0].email_address.as_deref(), Some("ops@example.com"));
    assert_eq!(listing.found[1].account_name, "AWS account");
    assert_eq!(listing.pages, 2);
}

#[test]
fn endless_pagination_is_refused() {
    let mut listing = AccountListing::new();
    for _ in 0..MAX_PAGES - 1 {
        assert!(matches!(listing.accept(&vec![], Some("more".into())).unwrap(), ListingStep::Fetch(_)));
    }
    let error = listing.accept(&vec![], Some("more".into())).unwrap_err();
    assert!(error.to_string().contains("Too many AWS accounts"));
}

#[test]
fn roles_need_a_valid_account_and_keep_it() {
    assert!(RoleListing::new("12345678901").is_err());
    assert!(RoleListing::new("12345678901a").is_err());
    assert!(RoleListing::new("１２３４５６７８９０１２").is_err());
    assert!(is_valid_account_id("123456789012"));
    let mut listing = RoleListing::new("123456789012").unwrap();
    let names = vec![Some("Transfer".to_string()), None, Some("ReadOnly".to_string())];
    assert!(matches!(listing.accept(&names, None).unwrap(), ListingStep::Finished));
    assert_eq!(listing.found.len(), 2);
    assert_eq!(listing.found[1].account_id, "123456789012");
    assert!(role_assigned(&listing.found, "ReadOnly"));
    assert!(!role_assigned(&listing.found, "Administrator"));
}

#[test]
fn role_pagination_is_bounded() {
    let mut listing = RoleListing::new("123456789012").unwrap();
    for _ in 0..MAX_PAGES - 1 {
        assert!(listing.accept(&vec![], Some("more".into())).is_ok());
    }
    assert!(listing.accept(&vec![], Some("more".into())).unwrap_err().to_string().contains("roles"));
}

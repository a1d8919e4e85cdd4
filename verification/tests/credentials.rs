use yaadv::credentials::CredentialsOption;

#[test]
fn labels_of_the_choices() {
    assert_eq!(CredentialsOption::ViewToken.label(), "View stored token");
    assert_eq!(CredentialsOption::SetToken.label(), "Set a new token");
}

use tiny_msg::roles::{is_named, role_names, select_members};

fn pair(name: &str, address: &str) -> (String, String) {
    (name.to_string(), address.to_string())
}

fn names(list: &str) -> Vec<String> {
    role_names(list).into_iter().map(|n| n.into_iter().collect()).collect()
}

#[test]
fn role_names_are_trimmed_pieces() {
    assert_eq!(names("john; karen ;  bob smith"), vec!["john", "karen", "bob smith"]);
    assert_eq!(names("john"), vec!["john"]);
    assert_eq!(names(""), vec![""]);
    assert_eq!(names("a;;b"), vec!["a", "", "b"]);
}

#[test]
fn is_named_finds_exact_names_only() {
    let list = role_names("john; karen");
    assert!(is_named(&list, &['j', 'o', 'h', 'n']));
    assert!(is_named(&list, &['k', 'a', 'r', 'e', 'n']));
    assert!(!is_named(&list, &['J', 'o', 'h', 'n']));
    assert!(!is_named(&list, &['j', 'o', 'h']));
    assert!(!is_named(&list, &[]));
}

#[test]
fn select_members_keeps_listed_names_in_order() {
    let all = vec![pair("karen", "karen@example.com"), pair("john", "john@example.com"), pair("bob", "bob@example.com")];
    assert_eq!(
        select_members("john; karen", &all),
        vec![pair("karen", "karen@example.com"), pair("john", "john@example.com")]
    );
}

#[test]
fn recipient_listed_in_cc_only_is_in_cc_only() {
    let all = vec![pair("john", "john@example.com"), pair("karen", "karen@example.com")];
    let to = select_members("john", &all);
    let cc = select_members("karen", &all);
    let bcc = select_members("", &all);
    assert_eq!(cc, vec![pair("karen", "karen@example.com")]);
    assert!(!to.contains(&pair("karen", "karen@example.com")));
    assert!(!bcc.contains(&pair("karen", "karen@example.com")));
    assert_eq!(to, vec![pair("john", "john@example.com")]);
    assert!(bcc.is_empty());
}

#[test]
fn recipient_in_no_list_is_in_no_role() {
    let all = vec![pair("ghost", "ghost@example.com")];
    assert!(select_members("john; karen", &all).is_empty());
}

#[test]
fn recipients_with_one_name_are_all_chosen() {
    let all = vec![pair("john", "a@example.com"), pair("john", "b@example.com")];
    assert_eq!(select_members(" john ", &all), all);
}

#[test]
fn empty_name_is_listed_by_an_empty_piece() {
    let all = vec![pair("", "nobody@example.com"), pair("x", "x@example.com")];
    assert_eq!(select_members("x;", &all), vec![pair("", "nobody@example.com"), pair("x", "x@example.com")]);
    assert_eq!(select_members("x", &all), vec![pair("x", "x@example.com")]);
}

use recipers::handler::{Links, Search};

#[test]
fn link_for_an_entry_under_a_route() {
    let path = ["cookbook", "recipe"];
    let links = Links::new("42-abc", &path);
    assert_eq!(links.myself.href, "http://localhost:8181/cookbook/recipe/42-abc");
}

#[test]
fn link_for_an_entry_under_an_empty_route() {
    let path: [&str; 0] = [];
    let links = Links::new("42-abc", &path);
    assert_eq!(links.myself.href, "http://localhost:8181//42-abc");
}

#[test]
fn search_filter_carries_an_optional_query() {
    let some = Search { q: Some(String::from("Lasagne")) };
    let none = Search { q: None };
    assert_eq!(some.q.as_deref(), Some("Lasagne"));
    assert!(none.q.is_none());
}

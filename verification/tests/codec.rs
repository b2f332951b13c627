//! The wire codec on its own: which bodies parse, which are rejected,
//! and the exact JSON text the renderer produces.

use groceries::parse::parse_item;
use groceries::render::render_list;
use groceries::store::GroceryList;

fn parsed(body: &str) -> Option<(String, i32)> {
    parse_item(body).map(|item| (item.name, item.quantity))
}

#[test]
fn plain_body_parses() {
    assert_eq!(parsed("{\"name\":\"milk\",\"quantity\":2}"), Some((String::from("milk"), 2)));
}

#[test]
fn whitespace_and_field_order_are_free() {
    assert_eq!(
        parsed(" { \"quantity\" : 5 , \"name\" : \"eggs\" } "),
        Some((String::from("eggs"), 5))
    );
    assert_eq!(parsed("{\"quantity\":-1,\"name\":\"\"}"), Some((String::from(""), -1)));
}

#[test]
fn quantity_bounds_follow_i32() {
    assert_eq!(
        parsed("{\"name\":\"a\",\"quantity\":2147483647}"),
        Some((String::from("a"), 2147483647))
    );
    assert_eq!(
        parsed("{\"name\":\"a\",\"quantity\":-2147483648}"),
        Some((String::from("a"), -2147483648))
    );
    assert_eq!(parsed("{\"name\":\"a\",\"quantity\":2147483648}"), None);
    assert_eq!(parsed("{\"name\":\"a\",\"quantity\":-2147483649}"), None);
    assert_eq!(parsed("{\"name\":\"a\",\"quantity\":99999999999999999999}"), None);
}

#[test]
fn zero_and_negative_quantities_pass_through() {
    assert_eq!(parsed("{\"name\":\"a\",\"quantity\":0}"), Some((String::from("a"), 0)));
    assert_eq!(parsed("{\"name\":\"a\",\"quantity\":-7}"), Some((String::from("a"), -7)));
}

#[test]
fn malformed_bodies_are_rejected() {
    assert_eq!(parsed(""), None);
    assert_eq!(parsed("{}"), None);
    assert_eq!(parsed("{\"name\":\"milk\"}"), None);
    assert_eq!(parsed("{\"quantity\":2}"), None);
    assert_eq!(parsed("{\"name\":\"a\",\"quantity\":}"), None);
    assert_eq!(parsed("{\"name\":\"a\",\"quantity\":2"), None);
    assert_eq!(parsed("{\"name\":\"a\",\"quantity\":2}x"), None);
    assert_eq!(parsed("{\"name\":\"a\",\"quantity\":\"2\"}"), None);
    assert_eq!(parsed("{\"name\":\"a\",\"name\":\"b\"}"), None);
    assert_eq!(parsed("{\"quantity\":1,\"quantity\":2}"), None);
    assert_eq!(parsed("not json at all"), None);
    assert_eq!(parsed("{\"name\":\"a\",\"quantity\":- 2}"), None);
    assert_eq!(parsed("{\"name\":\"a\",\"quantity\":2.5}"), None);
}

#[test]
fn leading_zeros_are_rejected() {
    assert_eq!(parsed("{\"name\":\"a\",\"quantity\":007}"), None);
    assert_eq!(parsed("{\"name\":\"a\",\"quantity\":00}"), None);
    assert_eq!(parsed("{\"name\":\"a\",\"quantity\":0}"), Some((String::from("a"), 0)));
    assert_eq!(parsed("{\"name\":\"a\",\"quantity\":-0}"), Some((String::from("a"), 0)));
}

#[test]
fn string_escapes_are_decoded() {
    assert_eq!(
        parsed("{\"name\":\"a\\nb\",\"quantity\":1}"),
        Some((String::from("a\nb"), 1))
    );
    assert_eq!(
        parsed("{\"name\":\"q\\\"w\\\\e\\/r\\t\",\"quantity\":1}"),
        Some((String::from("q\"w\\e/r\t"), 1))
    );
    assert_eq!(
        parsed("{\"name\":\"\\u0041\\u00e9\",\"quantity\":1}"),
        Some((String::from("A\u{00e9}"), 1))
    );
    assert_eq!(
        parsed("{\"name\":\"\\ud83d\\ude00\",\"quantity\":1}"),
        Some((String::from("\u{1F600}"), 1))
    );
    assert_eq!(parsed("{\"name\":\"\\ud83d\",\"quantity\":1}"), None);
    assert_eq!(parsed("{\"name\":\"\\ude00\",\"quantity\":1}"), None);
    assert_eq!(parsed("{\"name\":\"\\x41\",\"quantity\":1}"), None);
    assert_eq!(parsed("{\"name\":\"a\\\"}"), None);
}

#[test]
fn unknown_members_are_skipped() {
    assert_eq!(
        parsed("{\"name\":\"a\",\"quantity\":2,\"extra\":1}"),
        Some((String::from("a"), 2))
    );
    assert_eq!(
        parsed(
            "{\"name\":\"a\",\"extra\":{\"x\":[1,-2.5e3,\"s\",true,null],\"y\":false},\"quantity\":3}"
        ),
        Some((String::from("a"), 3))
    );
    assert_eq!(
        parsed("{\"pad\":[[]],\"quantity\":4,\"more\":\"zz\",\"name\":\"b\"}"),
        Some((String::from("b"), 4))
    );
    assert_eq!(parsed("{\"extra\":1,\"name\":\"a\"}"), None);
    assert_eq!(parsed("{\"extra\":01,\"name\":\"a\",\"quantity\":1}"), None);
}

#[test]
fn unicode_names_parse() {
    assert_eq!(
        parsed("{\"name\":\"m\u{00fc}sli\",\"quantity\":1}"),
        Some((String::from("m\u{00fc}sli"), 1))
    );
}

#[test]
fn empty_list_renders_as_empty_object() {
    let list = GroceryList::new();
    assert_eq!(render_list(&list), "{}");
}

#[test]
fn renders_pairs_in_insertion_order() {
    let mut list = GroceryList::new();
    list.insert(String::from("a"), 1);
    list.insert(String::from("b"), 2);
    assert_eq!(render_list(&list), "{\"a\":1,\"b\":2}");
}

#[test]
fn overwriting_moves_the_name_to_the_end() {
    let mut list = GroceryList::new();
    list.insert(String::from("a"), 1);
    list.insert(String::from("b"), 2);
    list.insert(String::from("a"), 3);
    assert_eq!(render_list(&list), "{\"b\":2,\"a\":3}");
}

#[test]
fn renders_quotes_and_backslashes_escaped() {
    let mut list = GroceryList::new();
    list.insert(String::from("a\"b"), 1);
    list.insert(String::from("c\\d"), 2);
    assert_eq!(render_list(&list), "{\"a\\\"b\":1,\"c\\\\d\":2}");
}

#[test]
fn renders_control_characters_escaped() {
    let mut list = GroceryList::new();
    list.insert(String::from("a\nb"), 1);
    list.insert(String::from("t\tu"), 2);
    list.insert(String::from("e\u{1b}f"), 3);
    assert_eq!(
        render_list(&list),
        "{\"a\\nb\":1,\"t\\tu\":2,\"e\\u001bf\":3}"
    );
}

#[test]
fn renders_extreme_quantities() {
    let mut list = GroceryList::new();
    list.insert(String::from("min"), i32::MIN);
    list.insert(String::from("max"), i32::MAX);
    list.insert(String::from("zero"), 0);
    assert_eq!(render_list(&list), "{\"min\":-2147483648,\"max\":2147483647,\"zero\":0}");
}

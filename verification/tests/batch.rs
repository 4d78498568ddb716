use queue_processor::batch::{concerns_region, is_insert, is_upsert, item_failures};
use queue_processor::graphql::{healthcheck_id, response_settled, succeeded, GraphqlError};

fn strings(items: &[&str]) -> Vec<String> {
    items.iter().map(|s| s.to_string()).collect()
}

fn errors(messages: &[&str]) -> Vec<GraphqlError> {
    messages.iter().map(|m| GraphqlError { message: m.to_string() }).collect()
}

#[test]
fn changes_that_bring_a_new_image() {
    assert!(is_upsert("INSERT"));
    assert!(is_upsert("MODIFY"));
    assert!(!is_upsert("REMOVE"));
    assert!(!is_upsert("insert"));
    assert!(!is_upsert(""));
    assert!(is_insert("INSERT"));
    assert!(!is_insert("MODIFY"));
    assert!(!is_insert("INSERTS"));
}

#[test]
fn matches_with_a_player_of_this_region() {
    assert!(concerns_region(&strings(&["eu-west-1", "us-east-1"]), "us-east-1"));
    assert!(concerns_region(&strings(&["us-east-1"]), "us-east-1"));
    assert!(!concerns_region(&strings(&["eu-west-1", "us-west-2"]), "us-east-1"));
    assert!(!concerns_region(&strings(&[]), "us-east-1"));
}

#[test]
fn failed_items_are_those_that_did_not_succeed() {
    let batch = strings(&["e1", "e2", "e3", "e4"]);
    assert_eq!(item_failures(&batch, &strings(&["e3", "e1"])), strings(&["e2", "e4"]));
    assert_eq!(item_failures(&batch, &strings(&[])), batch);
    assert_eq!(item_failures(&batch, &strings(&["e4", "e3", "e2", "e1"])), strings(&[]));
    assert_eq!(item_failures(&batch, &strings(&["other"])), batch);
    assert_eq!(item_failures(&strings(&[]), &strings(&["e1"])), strings(&[]));
    assert_eq!(item_failures(&strings(&["a", "b", "a"]), &strings(&["b"])), strings(&["a", "a"]));
}

#[test]
fn answers_without_errors_succeed() {
    assert!(succeeded(&errors(&[])));
    assert!(!succeeded(&errors(&["boom"])));
    assert!(!succeeded(&errors(&["invalid healthcheck id"])));
}

#[test]
fn unknown_health_checks_are_settled() {
    assert!(response_settled(&errors(&[])));
    assert!(response_settled(&errors(&["invalid healthcheck id"])));
    assert!(response_settled(&errors(&["invalid healthcheck id", "invalid healthcheck id"])));
    assert!(!response_settled(&errors(&["invalid healthcheck id", "timeout"])));
    assert!(!response_settled(&errors(&["Invalid healthcheck id"])));
    assert!(!response_settled(&errors(&[""])));
}

#[test]
fn health_check_ids_lose_their_prefix() {
    assert_eq!(healthcheck_id("healthcheck#abc"), "abc");
    assert_eq!(healthcheck_id("healthcheck#"), "");
    assert_eq!(healthcheck_id("healthcheck#healthcheck#x"), "healthcheck#x");
    assert_eq!(healthcheck_id("abc"), "abc");
    assert_eq!(healthcheck_id("healthcheck"), "healthcheck");
    assert_eq!(healthcheck_id("Healthcheck#abc"), "Healthcheck#abc");
    assert_eq!(healthcheck_id("xhealthcheck#abc"), "xhealthcheck#abc");
    assert_eq!(healthcheck_id(""), "");
    assert_eq!(healthcheck_id("healthcheck#日本"), "日本");
}

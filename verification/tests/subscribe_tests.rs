use journal_server::subscribe::is_mqtt_queue_sub;
use journal_server::subscribe::is_mqtt_share_sub;
use journal_server::subscribe::is_mqtt_share_subscribe;
use journal_server::subscribe::str_has_prefix;
use journal_server::subscribe::QUEUE_SUB_PREFIX;
use journal_server::subscribe::SHARE_SUB_PREFIX;

#[test]
fn is_mqtt_share_subscribe_test() {
    assert!(is_mqtt_share_sub("$share/g1/test/hello"));
    assert!(is_mqtt_share_subscribe("$share/g1/test/hello"));
    assert!(!is_mqtt_share_subscribe("/test/hello"));
}

#[test]
fn queue_subscribe_is_shared() {
    assert!(is_mqtt_queue_sub("$queue/test/hello"));
    assert!(is_mqtt_share_subscribe("$queue/test/hello"));
    assert!(!is_mqtt_share_sub("$queue/test/hello"));
    assert!(!is_mqtt_queue_sub("$share/g1/test/hello"));
}

#[test]
fn prefix_edges() {
    assert!(str_has_prefix("$share", SHARE_SUB_PREFIX));
    assert!(!str_has_prefix("$shar", SHARE_SUB_PREFIX));
    assert!(str_has_prefix("anything", ""));
    assert!(!str_has_prefix("", QUEUE_SUB_PREFIX));
    assert!(!is_mqtt_share_subscribe("share/no/dollar"));
}

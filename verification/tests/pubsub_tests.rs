use kv::msg::{CommandRequest, CommandResponse};
use kv::service::{assert_res_error, assert_res_ok, dispatch_stream, Service, ServiceReply};
use kv::storage::MemTable;
use kv::topic::{Broadcaster, Topic};
use kv::value::Value;

#[test]
fn pub_sub_should_work() {
    let mut b = Broadcaster::default();
    let lobby = "lobby".to_string();

    let sub1 = b.subscribe(lobby.clone());
    let sub2 = b.subscribe(lobby.clone());

    let v: Value = "hello".into();
    b.publish("lobby", CommandResponse::from(v.clone()));

    let id1 = b.recv(sub1).unwrap().first_value_as_i64().unwrap();
    let id2 = b.recv(sub2).unwrap().first_value_as_i64().unwrap();

    assert!(id1 != id2);

    let res1 = b.recv(sub1).unwrap();
    let res2 = b.recv(sub2).unwrap();

    assert_eq!(res1, res2);
    assert!(assert_res_ok(&res1, &[v.clone()], &[]));

    let result = b.unsubscribe("lobby", id1 as u32).unwrap();
    assert_eq!(result, id1 as u32);

    let v: Value = "world".into();
    b.publish("lobby", CommandResponse::from(v.clone()));

    assert!(b.recv(id1 as u32).is_none());
    let res2 = b.recv(sub2).unwrap();
    assert!(assert_res_ok(&res2, &[v.clone()], &[]));
}

#[test]
fn subscribe_acknowledges_with_fresh_id() {
    let mut b = Broadcaster::new();
    let a = b.subscribe("topic-a".to_string());
    let c = b.subscribe("topic-a".to_string());
    let d = b.subscribe("topic-b".to_string());
    assert!(a != c && c != d && a != d);

    let ack = b.recv(a).unwrap();
    assert_eq!(ack.first_value_as_i64().unwrap(), a as i64);
    assert!(b.recv(a).is_none());
}

#[test]
fn publish_delivers_in_order_to_every_subscriber() {
    let mut b = Broadcaster::new();
    let s1 = b.subscribe("news".to_string());
    let s2 = b.subscribe("news".to_string());
    let other = b.subscribe("weather".to_string());

    b.publish("news", CommandResponse::from(Value::from(1i64)));
    b.publish("news", CommandResponse::from(Value::from(2i64)));

    for id in [s1, s2] {
        let ack = b.recv(id).unwrap();
        assert_eq!(ack.first_value_as_i64().unwrap(), id as i64);
        assert_eq!(b.recv(id).unwrap().first_value_as_i64().unwrap(), 1);
        assert_eq!(b.recv(id).unwrap().first_value_as_i64().unwrap(), 2);
        assert!(b.recv(id).is_none());
    }

    let ack = b.recv(other).unwrap();
    assert_eq!(ack.first_value_as_i64().unwrap(), other as i64);
    assert!(b.recv(other).is_none());
}

#[test]
fn closed_subscriber_is_removed_by_next_publish() {
    let mut b = Broadcaster::new();
    let s1 = b.subscribe("news".to_string());
    let s2 = b.subscribe("news".to_string());

    b.close_subscriber(s1);
    b.publish("news", CommandResponse::from(Value::from(7i64)));

    assert!(b.recv(s1).is_none());
    let ack = b.recv(s2).unwrap();
    assert_eq!(ack.first_value_as_i64().unwrap(), s2 as i64);
    assert_eq!(b.recv(s2).unwrap().first_value_as_i64().unwrap(), 7);
}

#[test]
fn unsubscribe_unknown_id_is_not_found() {
    let mut b = Broadcaster::new();
    let err = b.unsubscribe("lobby", 42).unwrap_err();
    assert_eq!(err.status(), 404);
    assert_eq!(err.message(), "Not found: subscription 42");
}

#[test]
fn service_routes_pubsub_by_variant_tag() {
    let mut service: Service = Service::new(MemTable::new());

    let sub = match service.execute(CommandRequest::new_subscribe("lobby")) {
        ServiceReply::Stream(id) => id,
        ServiceReply::Single(_) => panic!("subscribe must open a stream"),
    };

    match service.execute(CommandRequest::new_publish(
        "lobby",
        vec![Value::from("data")],
    )) {
        ServiceReply::Single(res) => assert!(assert_res_ok(&res, &[], &[])),
        ServiceReply::Stream(_) => panic!("publish must answer at once"),
    }

    let ack = service.broadcaster.recv(sub).unwrap();
    assert_eq!(ack.first_value_as_i64().unwrap(), sub as i64);
    let delivered = service.broadcaster.recv(sub).unwrap();
    assert!(assert_res_ok(&delivered, &[Value::from("data")], &[]));

    match service.execute(CommandRequest::new_unsubscribe("lobby", sub)) {
        ServiceReply::Single(res) => assert_eq!(res.status, 200),
        ServiceReply::Stream(_) => panic!("unsubscribe must answer at once"),
    }

    match service.execute(CommandRequest::new_unsubscribe("lobby", sub)) {
        ServiceReply::Single(res) => assert!(assert_res_error(&res, 404, "Not found")),
        ServiceReply::Stream(_) => panic!("unsubscribe must answer at once"),
    }
}

#[test]
fn dispatch_stream_rejects_nothing_it_accepts() {
    let mut b = Broadcaster::new();
    let reply = dispatch_stream(CommandRequest::new_subscribe("x"), &mut b);
    match reply {
        ServiceReply::Stream(id) => assert_eq!(id, 1),
        ServiceReply::Single(_) => panic!("subscribe must open a stream"),
    }
}

#[test]
fn remove_subscription_prunes_by_id() {
    let mut b = Broadcaster::new();
    let s1 = b.subscribe("lobby".to_string());
    assert_eq!(b.remove_subscription("lobby", s1), Some(s1));
    assert_eq!(b.remove_subscription("lobby", s1), None);
    assert!(b.recv(s1).is_none());
}

#[test]
fn a_thousand_subscribes_get_a_thousand_distinct_ids() {
    let mut b = Broadcaster::new();
    let mut ids = Vec::new();
    for _ in 0..1000 {
        ids.push(b.subscribe("storm".to_string()));
    }
    let mut sorted = ids.clone();
    sorted.sort();
    sorted.dedup();
    assert_eq!(sorted.len(), 1000);
}

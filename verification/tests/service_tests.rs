use kv::msg::{CommandRequest, CommandResponse};
use kv::service::{
    assert_res_error, assert_res_ok, dispatch, NoopHook, Notify, NotifyMut, Service, ServiceInner,
    ServiceReply,
};
use kv::storage::MemTable;
use kv::value::Value;

fn single(reply: ServiceReply) -> CommandResponse {
    match reply {
        ServiceReply::Single(res) => res,
        ServiceReply::Stream(_) => panic!("expected a single response"),
    }
}

#[test]
fn mod_service_should_work() {
    let mut service: Service = Service::new(MemTable::new());

    let res = single(service.execute(CommandRequest::new_hset("t1", "k1", "v1".into())));
    assert!(assert_res_ok(&res, &[Value::default()], &[]));

    let res = single(service.execute(CommandRequest::new_hget("t1", "k1")));
    assert!(assert_res_ok(&res, &["v1".into()], &[]));
}

#[test]
fn service_should_work() {
    let mut service: Service = ServiceInner::new(MemTable::default()).into();

    let res = single(service.execute(CommandRequest::new_hset("t1", "k1", "v1".into())));
    assert!(assert_res_ok(&res, &[Value::default()], &[]));

    let res = single(service.execute(CommandRequest::new_hget("t1", "k1")));
    assert!(assert_res_ok(&res, &["v1".into()], &[]));
}

struct LogReceived;

impl Notify<CommandRequest> for LogReceived {
    fn notify(&self, _cmd: &CommandRequest) {}
}

struct LogExecuted;

impl Notify<CommandResponse> for LogExecuted {
    fn notify(&self, _res: &CommandResponse) {}
}

struct MarkCreated;

impl NotifyMut<CommandResponse> for MarkCreated {
    fn notify(&self, res: &mut CommandResponse) {
        res.status = 201;
    }
}

struct AfterSend;

impl Notify<()> for AfterSend {
    fn notify(&self, _arg: &()) {}
}

#[test]
fn event_registration_should_work() {
    let mut service: Service<MemTable, LogReceived, LogExecuted, MarkCreated, AfterSend> =
        ServiceInner::new(MemTable::default())
            .fn_received(LogReceived)
            .fn_received(LogReceived)
            .fn_executed(LogExecuted)
            .fn_before_send(MarkCreated)
            .fn_after_send(AfterSend)
            .into();

    let data = single(service.execute(CommandRequest::new_hset("t1", "k1", "v1".into())));
    assert_eq!(data.status, 201);
    assert_eq!(data.message, "");
    assert_eq!(data.values, vec![Value::default()]);
}

#[test]
fn dispatch_handles_each_storage_command() {
    let mut store = MemTable::new();

    let res = dispatch(CommandRequest::new_hset("t", "a", Value::from(1i64)), &mut store);
    assert!(assert_res_ok(&res, &[Value::default()], &[]));

    let res = dispatch(
        CommandRequest::new_hmset(
            "t",
            vec![
                kv::value::Kvpair::new("b", Value::from(2i64)),
                kv::value::Kvpair::new("c", Value::from(3i64)),
            ],
        ),
        &mut store,
    );
    assert!(assert_res_ok(&res, &[Value::default(), Value::default()], &[]));

    let res = dispatch(CommandRequest::new_hget("t", "a"), &mut store);
    assert!(assert_res_ok(&res, &[Value::from(1i64)], &[]));

    let res = dispatch(
        CommandRequest::new_hmget("t", vec!["a".into(), "missing".into(), "c".into()]),
        &mut store,
    );
    assert!(assert_res_ok(
        &res,
        &[Value::from(1i64), Value::default(), Value::from(3i64)],
        &[]
    ));

    let res = dispatch(CommandRequest::new_hexist("t", "b"), &mut store);
    assert!(assert_res_ok(&res, &[Value::from(true)], &[]));

    let res = dispatch(
        CommandRequest::new_hmexist("t", vec!["b".into(), "zz".into()]),
        &mut store,
    );
    assert!(assert_res_ok(&res, &[Value::from(true), Value::from(false)], &[]));

    let res = dispatch(CommandRequest::new_hgetall("t"), &mut store);
    assert_eq!(res.status, 200);
    assert_eq!(res.pairs.len(), 3);

    let res = dispatch(CommandRequest::new_hdel("t", "a"), &mut store);
    assert!(assert_res_ok(&res, &[Value::from(1i64)], &[]));

    let res = dispatch(
        CommandRequest::new_hmdel("t", vec!["b".into(), "b".into()]),
        &mut store,
    );
    assert!(assert_res_ok(&res, &[Value::from(2i64), Value::default()], &[]));
}

#[test]
fn empty_request_is_invalid_command() {
    let mut store = MemTable::new();
    let res = dispatch(CommandRequest { request_data: None }, &mut store);
    assert!(assert_res_error(&res, 400, "Invalid command"));
}

#[test]
fn hset_without_pair_is_invalid_command() {
    let mut store = MemTable::new();
    let cmd = CommandRequest {
        request_data: Some(kv::msg::RequestData::Hset(kv::msg::Hset {
            table: "t".into(),
            pair: None,
        })),
    };
    let res = dispatch(cmd, &mut store);
    assert!(assert_res_error(&res, 400, "Hset carries no pair"));
}

#[test]
fn hget_on_missing_key_reports_no_value() {
    let mut service: Service = Service::new(MemTable::new());
    let res = single(service.execute(CommandRequest::new_hget("t1", "unknown")));
    assert!(assert_res_ok(&res, &[Value::default()], &[]));
}

#[test]
fn end_to_end_scenario_should_work() {
    let mut service: Service = Service::new(MemTable::new());

    let res = single(service.execute(CommandRequest::new_hset("t1", "k1", "v1".into())));
    assert_eq!(res.status, 200);
    assert_eq!(res.message, "");
    assert_eq!(res.values, vec![Value::default()]);

    let res = single(service.execute(CommandRequest::new_hget("t1", "k1")));
    assert_eq!(res.status, 200);
    assert_eq!(res.values, vec![Value::from("v1")]);

    let res = single(service.execute(CommandRequest::new_hget("t1", "unknown")));
    assert_eq!(res.status, 200);
    assert_eq!(res.values, vec![Value::default()]);
}

#[test]
fn noop_hook_service_composes() {
    let mut service: Service<MemTable, NoopHook, NoopHook, NoopHook, NoopHook> =
        ServiceInner::new(MemTable::default()).into();
    let res = single(service.execute(CommandRequest::new_hexist("t", "k")));
    assert!(assert_res_ok(&res, &[Value::from(false)], &[]));
}

use hdc_forward::context::{ContextForward, ForwardContextMap, ForwardType};
use hdc_forward::dispatch::{ForwardAction, Forwarder, MessageLevel};
use hdc_forward::info::{HdcForwardInfo, HdcForwardInfoMap};
use hdc_forward::logger::{HostLoggerMeta, LogLevel};
use hdc_forward::protocol::{build_check_body, frame, HdcCommand};
use hdc_forward::registry::{TcpListenerMap, TcpWriteStreamMap};
use hdc_forward::task::{ForwardTaskMap, HdcForward};
use std::collections::HashSet;
use std::sync::Mutex;

fn strings(v: &[&str]) -> Vec<String> {
    v.iter().map(|s| s.to_string()).collect()
}

fn put_of(a: &ForwardAction) -> (u32, HdcCommand, Vec<u8>) {
    match a {
        ForwardAction::Put { session_id: _, message } => {
            (message.channel_id, message.command, message.payload.clone())
        }
        other => panic!("not a message: {:?}", other),
    }
}

#[test]
fn allocation_gives_fresh_ids() {
    let mut store = ForwardContextMap::new();
    let mut seen = HashSet::new();
    for _ in 0..1000 {
        let c = store.malloc_context(1, 2, true).unwrap();
        assert!(seen.insert(c.id));
        assert_eq!(c.fd, -1);
        assert!(c.is_master);
    }
    assert_eq!(store.len(), 1000);
}

#[test]
fn allocation_skips_live_ids() {
    let mut store = ForwardContextMap::new();
    for id in 1..5u32 {
        store.update(id, ContextForward::new(0, 0, false, id));
    }
    let c = store.malloc_context(0, 0, true).unwrap();
    assert_eq!(c.id, 5);
    assert!(store.get(5).is_some());
}

#[test]
fn interleaved_accepts_get_distinct_ids() {
    let fwd = Mutex::new(Forwarder::new(true, false));
    let listeners: Vec<ContextForward> = (0..8u32)
        .map(|ch| {
            let mut l = ContextForward::new(1, ch, true, 0);
            l.remote_parameters = "tcp:9090".to_string();
            l
        })
        .collect();
    let mut all = HashSet::new();
    for _ in 0..200 {
        for l in &listeners {
            let (c, acts) = fwd.lock().unwrap().accept_connection(l).unwrap();
            assert_eq!(acts.len(), 1);
            assert_eq!(c.channel_id, l.channel_id);
            assert!(all.insert(c.id));
        }
    }
    let guard = fwd.lock().unwrap();
    assert_eq!(all.len(), 1600);
    assert_eq!(guard.contexts.len(), 1600);
    for id in all {
        assert!(guard.contexts.contains(id));
    }
}

#[test]
fn freeing_twice_is_harmless() {
    let mut fwd = Forwarder::new(false, false);
    let mut a = fwd.contexts.malloc_context(1, 1, false).unwrap();
    a.forward_type = ForwardType::Jdwp;
    a.fd = 10;
    a.target_fd = 11;
    fwd.contexts.update(a.id, a.clone());
    let b = fwd.contexts.malloc_context(1, 1, false).unwrap();
    let first = fwd.free_context(a.id, true);
    assert_eq!(first.len(), 4);
    assert_eq!(put_of(&first[0]), (1, HdcCommand::ForwardFreeContext, frame(a.id, &[])));
    assert!(matches!(first[1], ForwardAction::EndWriter(id) if id == a.id));
    assert!(matches!(first[2], ForwardAction::CloseFd(10)));
    assert!(matches!(first[3], ForwardAction::CloseFd(11)));
    let second = fwd.free_context(a.id, true);
    assert!(second.is_empty());
    assert!(fwd.contexts.contains(b.id));
    assert!(!fwd.contexts.contains(a.id));
}

#[test]
fn socket_stream_closes_its_descriptor_once() {
    let mut fwd = Forwarder::new(false, false);
    let mut a = fwd.contexts.malloc_context(1, 1, false).unwrap();
    a.forward_type = ForwardType::Abstract;
    a.fd = 7;
    fwd.contexts.update(a.id, a.clone());
    let acts = fwd.free_context(a.id, false);
    assert_eq!(acts.len(), 1);
    assert!(matches!(acts[0], ForwardAction::CloseSocket(7)));
    assert!(fwd.free_context(a.id, false).is_empty());
}

#[test]
fn clearing_a_session_keeps_others() {
    let mut fwd = Forwarder::new(true, false);
    fwd.tasks.update(1, 1, HdcForward::new(1, 1, true));
    fwd.tasks.update(1, 2, HdcForward::new(1, 2, true));
    fwd.tasks.update(2, 1, HdcForward::new(2, 1, true));
    let acts = fwd.stop_task(1);
    assert!(acts.iter().any(|a| matches!(a, ForwardAction::EndListener(1, 1))));
    assert!(acts.iter().any(|a| matches!(a, ForwardAction::EndListener(1, 2))));
    assert!(fwd.tasks.get(1, 1).is_none());
    assert!(fwd.tasks.get(1, 2).is_none());
    assert!(fwd.tasks.get(2, 1).is_some());
    assert!(fwd.stop_task(1).is_empty());
}

#[test]
fn clearing_a_session_spares_other_sessions_streams() {
    let mut fwd = Forwarder::new(true, false);
    let mut mine = fwd.contexts.malloc_context(1, 1, true).unwrap();
    mine.forward_type = ForwardType::Abstract;
    mine.fd = 20;
    fwd.contexts.update(mine.id, mine.clone());
    let mut theirs = fwd.contexts.malloc_context(2, 1, true).unwrap();
    theirs.forward_type = ForwardType::Abstract;
    theirs.fd = 21;
    fwd.contexts.update(theirs.id, theirs.clone());
    let mut rule = HdcForward::new(1, 1, true);
    rule.context_forward = mine.clone();
    fwd.tasks.update(1, 1, rule);
    let mut other = HdcForward::new(2, 1, true);
    other.context_forward = theirs.clone();
    fwd.tasks.update(2, 1, other);
    let acts = fwd.stop_task(1);
    assert_eq!(acts.len(), 1);
    assert!(matches!(acts[0], ForwardAction::CloseSocket(20)));
    assert!(!fwd.contexts.contains(mine.id));
    assert!(fwd.contexts.contains(theirs.id));
    assert!(fwd.tasks.get(2, 1).is_some());
}

#[test]
fn attach_failure_reports_and_frees() {
    let mut fwd = Forwarder::new(false, false);
    let mut c = fwd.contexts.malloc_context(3, 4, false).unwrap();
    c.forward_type = ForwardType::Jdwp;
    c.fd = 8;
    c.target_fd = 9;
    fwd.contexts.update(c.id, c.clone());
    let acts = fwd.attach_failed(c.id, 1234);
    assert_eq!(acts.len(), 6);
    match &acts[0] {
        ForwardAction::Echo { text, level, .. } => {
            assert_eq!(text, "fport fail:pid not found:1234");
            assert_eq!(*level, MessageLevel::Fail);
        }
        other => panic!("{:?}", other),
    }
    assert!(matches!(acts[1], ForwardAction::TaskFinish { session_id: 3, channel_id: 4 }));
    assert_eq!(put_of(&acts[2]), (4, HdcCommand::ForwardFreeContext, frame(c.id, &[])));
    assert!(matches!(acts[4], ForwardAction::CloseFd(8)));
    assert!(matches!(acts[5], ForwardAction::CloseFd(9)));
    assert!(fwd.attach_failed(c.id, 1234).is_empty());
}

#[test]
fn dump_lists_remote_spec_with_more_pieces() {
    let mut tasks = ForwardTaskMap::new();
    let mut rule = HdcForward::new(1, 2, true);
    rule.local_args = strings(&["tcp", "1"]);
    rule.remote_args = strings(&["tcp", "1", "2"]);
    tasks.update(1, 2, rule);
    assert_eq!(tasks.dump_task(), "session_id:1,\tchannel_id:2,\tcommand:rport tcp:1 tcp:1\n");
}

#[test]
fn dump_lists_forward_rule() {
    let mut tasks = ForwardTaskMap::new();
    let mut rule = HdcForward::new(3, 4, true);
    rule.local_args = strings(&["tcp", "8080", "tcp", "8081"]);
    tasks.update(3, 4, rule);
    let text = tasks.dump_task();
    assert_eq!(text, "session_id:3,\tchannel_id:4,\tcommand:fport tcp:8080 tcp:8081\n");
    assert!(text.contains("fport") && text.contains("tcp:8080") && text.contains("tcp:8081"));
}

#[test]
fn dump_lists_reverse_rule() {
    let mut tasks = ForwardTaskMap::new();
    let mut rule = HdcForward::new(1, 2, true);
    rule.local_args = strings(&["tcp", "1"]);
    rule.remote_args = strings(&["tcp", "2"]);
    tasks.update(1, 2, rule);
    tasks.update(1, 9, HdcForward::new(1, 9, true));
    assert_eq!(
        tasks.dump_task(),
        "session_id:1,\tchannel_id:2,\tcommand:rport tcp:1 tcp:2\n\
         session_id:1,\tchannel_id:9,\tcommand:fport unknown unknown\n"
    );
}

#[test]
fn channel_of_rule_text() {
    let mut tasks = ForwardTaskMap::new();
    let mut rule = HdcForward::new(1, 5, true);
    rule.task_command = "tcp:1 tcp:2".to_string();
    tasks.update(1, 5, rule);
    assert_eq!(tasks.get_channel_id(1, &"0|tcp:1 tcp:2\0".to_string()), Some(5));
    assert_eq!(tasks.get_channel_id(2, &"0|tcp:1 tcp:2".to_string()), None);
    assert_eq!(tasks.get_channel_id(1, &"tcp:1 tcp:3".to_string()), None);
    tasks.remove(1, 5);
    assert!(tasks.get(1, 5).is_none());
}

#[test]
fn init_with_port_zero_fails() {
    let mut fwd = Forwarder::new(true, false);
    fwd.tasks.update(1, 2, HdcForward::new(1, 2, true));
    let (ok, acts) = fwd.command_dispatch(1, 2, HdcCommand::ForwardInit, b"tcp:0 tcp:9999");
    assert!(!ok);
    assert_eq!(acts.len(), 2);
    match &acts[0] {
        ForwardAction::Echo { text, level, .. } => {
            assert_eq!(text, "Arguments parsing failed.");
            assert_eq!(*level, MessageLevel::Fail);
        }
        other => panic!("{:?}", other),
    }
    assert!(matches!(acts[1], ForwardAction::TaskFinish { session_id: 1, channel_id: 2 }));
    assert_eq!(fwd.contexts.len(), 0);
}

#[test]
fn init_without_rule_reports_generic_failure() {
    let mut fwd = Forwarder::new(true, false);
    let (ok, acts) = fwd.command_dispatch(1, 2, HdcCommand::ForwardInit, b"tcp:1 tcp:2");
    assert!(!ok);
    assert_eq!(acts.len(), 1);
    assert!(matches!(acts[0], ForwardAction::TaskFinish { .. }));
}

#[test]
fn full_master_handshake() {
    let mut fwd = Forwarder::new(false, false);
    fwd.tasks.update(1, 2, HdcForward::new(1, 2, false));
    let (ok, acts) = fwd.command_dispatch(1, 2, HdcCommand::ForwardInit, b"tcp:8080 tcp:9090");
    assert!(ok);
    let ctx = match &acts[0] {
        ForwardAction::Setup(c) => c.clone(),
        other => panic!("{:?}", other),
    };
    assert_eq!(ctx.forward_type, ForwardType::Tcp);
    assert_eq!(ctx.local_args, strings(&["tcp", "8080"]));
    assert!(fwd.contexts.contains(ctx.id));
    let rule = fwd.tasks.get(1, 2).unwrap();
    assert_eq!(rule.remote_args, strings(&["tcp", "9090"]));
    assert!(fwd.dump_task().contains("rport tcp:8080 tcp:9090"));

    let (ok, acts) = fwd.setup_finished(1, 2, ctx.id, true, &String::new());
    assert!(ok);
    assert_eq!(put_of(&acts[0]), (2, HdcCommand::KernelWakeupSlavetask, vec![]));
    let body = build_check_body(&"tcp:9090".to_string());
    assert_eq!(put_of(&acts[1]), (2, HdcCommand::ForwardCheck, frame(ctx.id, &body)));

    let reply = frame(ctx.id, &[0]);
    let (ok, acts) = fwd.command_dispatch(1, 2, HdcCommand::ForwardCheckResult, &reply);
    assert!(ok);
    match &acts[0] {
        ForwardAction::Echo { text, level, .. } => {
            assert_eq!(text, "Forwardport result:OK");
            assert_eq!(*level, MessageLevel::Success);
        }
        other => panic!("{:?}", other),
    }
    assert_eq!(put_of(&acts[1]), (2, HdcCommand::ForwardSuccess, b"0|tcp:8080 tcp:9090\0".to_vec()));
}

#[test]
fn failed_listen_reports_recorded_error() {
    let mut fwd = Forwarder::new(false, false);
    fwd.tasks.update(1, 2, HdcForward::new(1, 2, false));
    let (_, acts) = fwd.command_dispatch(1, 2, HdcCommand::ForwardInit, b"tcp:8080 tcp:9090");
    let cid = match &acts[0] {
        ForwardAction::Setup(c) => c.id,
        other => panic!("{:?}", other),
    };
    let (ok, acts) =
        fwd.setup_finished(1, 2, cid, false, &"TCP Port listen failed at 8080".to_string());
    assert!(!ok);
    assert!(matches!(acts[0], ForwardAction::EndWriter(id) if id == cid));
    match &acts[1] {
        ForwardAction::Echo { text, .. } => assert_eq!(text, "TCP Port listen failed at 8080"),
        other => panic!("{:?}", other),
    }
    assert!(matches!(acts[2], ForwardAction::TaskFinish { .. }));
    assert!(!fwd.contexts.contains(cid));
}

#[test]
fn host_records_confirmed_rule() {
    let mut fwd = Forwarder::new(true, false);
    fwd.tasks.update(1, 2, HdcForward::new(1, 2, true));
    let mut ctx = fwd.contexts.malloc_context(1, 2, true).unwrap();
    ctx.task_command = "tcp:1 tcp:2".to_string();
    let (ok, acts) = fwd.check_command(&ctx, &[0], true);
    assert!(ok);
    assert!(matches!(acts[1], ForwardAction::EndChannel(2)));
    let infos = fwd.infos.get_all_forward_infos();
    assert_eq!(infos.len(), 1);
    assert!(infos[0].forward_direction);
    assert_eq!(infos[0].task_string, "1|tcp:1 tcp:2\0");
    assert!(fwd.infos.remove_forward(&"tcp:1 tcp:2".to_string(), true));
    assert!(!fwd.infos.remove_forward(&"tcp:1 tcp:2".to_string(), true));
}

#[test]
fn empty_check_result_fails_and_frees() {
    let mut fwd = Forwarder::new(false, false);
    let ctx = fwd.contexts.malloc_context(1, 2, true).unwrap();
    let (ok, acts) = fwd.check_command(&ctx, &[], false);
    assert!(!ok);
    match &acts[0] {
        ForwardAction::Echo { text, level, .. } => {
            assert_eq!(text, "Forwardport result: Failed");
            assert_eq!(*level, MessageLevel::Fail);
        }
        other => panic!("{:?}", other),
    }
    assert!(!fwd.contexts.contains(ctx.id));
}

#[test]
fn probe_answers_and_is_freed() {
    let mut fwd = Forwarder::new(false, false);
    let body = build_check_body(&"tcp:9090".to_string());
    let payload = frame(42, &body);
    let (ok, acts) = fwd.command_dispatch(5, 6, HdcCommand::ForwardCheck, &payload);
    assert!(ok);
    assert_eq!(acts.len(), 1);
    assert_eq!(put_of(&acts[0]), (6, HdcCommand::ForwardCheckResult, frame(42, &[0])));
    assert_eq!(fwd.contexts.len(), 0);
}

#[test]
fn active_slave_sets_up_endpoint() {
    let mut fwd = Forwarder::new(false, false);
    let body = build_check_body(&"tcp:9090".to_string());
    let payload = frame(42, &body);
    let (ok, acts) = fwd.command_dispatch(5, 6, HdcCommand::ForwardActiveSlave, &payload);
    assert!(ok);
    let ctx = match &acts[0] {
        ForwardAction::Setup(c) => c.clone(),
        other => panic!("{:?}", other),
    };
    assert_eq!(ctx.id, 42);
    assert!(!ctx.is_master);
    assert_eq!(ctx.local_args, strings(&["tcp", "9090"]));
    let (ok, acts) = fwd.send_active_master(42);
    assert!(ok);
    assert_eq!(put_of(&acts[0]), (6, HdcCommand::ForwardActiveMaster, frame(42, &[])));
    let (ok, again) = fwd.command_dispatch(5, 6, HdcCommand::ForwardActiveSlave, &payload);
    assert!(!ok);
    assert!(matches!(again.last(), Some(ForwardAction::TaskFinish { .. })));
}

#[test]
fn unsupported_kind_on_tcp_only_peer() {
    let mut fwd = Forwarder::new(false, true);
    let body = build_check_body(&"localabstract:sock".to_string());
    let (ok, acts) = fwd.slave_connect(5, 6, &frame(9, &body), false);
    assert!(!ok);
    assert_eq!(put_of(&acts[0]), (6, HdcCommand::ForwardFreeContext, frame(9, &[])));
    assert_eq!(fwd.contexts.len(), 0);
}

#[test]
fn data_and_teardown_commands() {
    let mut fwd = Forwarder::new(false, false);
    fwd.tasks.update(1, 2, HdcForward::new(1, 2, false));
    let mut dev = fwd.contexts.malloc_context(1, 2, false).unwrap();
    dev.forward_type = ForwardType::Device;
    fwd.contexts.update(dev.id, dev.clone());
    let (ok, acts) = fwd.command_dispatch(1, 2, HdcCommand::ForwardData, &frame(dev.id, b"x"));
    assert!(!ok);
    assert!(matches!(acts.last(), Some(ForwardAction::TaskFinish { .. })));
    let tcp = fwd.contexts.malloc_context(1, 2, false).unwrap();
    let (ok, acts) = fwd.command_dispatch(1, 2, HdcCommand::ForwardData, &frame(tcp.id, b"xyz"));
    assert!(ok);
    match &acts[0] {
        ForwardAction::Write { context, data } => {
            assert_eq!(context.id, tcp.id);
            assert_eq!(data, b"xyz");
        }
        other => panic!("{:?}", other),
    }
    let (ok, acts) = fwd.command_dispatch(1, 2, HdcCommand::ForwardActiveMaster, &frame(dev.id, &[]));
    assert!(ok);
    assert!(matches!(acts[0], ForwardAction::StartRead(_)));
    let (ok, _) = fwd.command_dispatch(1, 2, HdcCommand::ForwardFreeContext, &frame(tcp.id, &[]));
    assert!(ok);
    assert!(!fwd.contexts.contains(tcp.id));
    let (ok, _) = fwd.command_dispatch(1, 2, HdcCommand::Other, &frame(dev.id, &[]));
    assert!(!ok);
    let (ok, _) = fwd.command_dispatch(1, 2, HdcCommand::ForwardData, &[1, 2]);
    assert!(!ok);
}

#[test]
fn registries_hand_each_handle_back_once() {
    let mut writers = TcpWriteStreamMap::new();
    assert!(writers.put(1, "w1").is_none());
    writers.put(2, "w2");
    assert_eq!(writers.get(1), Some(&"w1"));
    assert_eq!(writers.end(1), Some("w1"));
    assert_eq!(writers.end(1), None);
    assert_eq!(writers.get(2), Some(&"w2"));
    let mut listeners = TcpListenerMap::new();
    listeners.put(1, 7, 70u64);
    listeners.put(2, 7, 80u64);
    assert_eq!(listeners.put(1, 7, 71), Some(70));
    assert_eq!(listeners.end(1, 7), Some(71));
    assert_eq!(listeners.end(1, 7), None);
    assert_eq!(listeners.end(2, 7), Some(80));
}

#[test]
fn info_map_replaces_same_text() {
    let mut infos = HdcForwardInfoMap::new();
    infos.put(HdcForwardInfo::new(1, 1, false, "0|a".to_string(), "k".to_string()));
    infos.put(HdcForwardInfo::new(1, 2, false, "0|a".to_string(), "k".to_string()));
    let all = infos.get_all_forward_infos();
    assert_eq!(all.len(), 1);
    assert_eq!(all[0].channel_id, 2);
    assert!(!infos.remove_forward(&"a".to_string(), true));
    assert!(infos.remove_forward(&"a".to_string(), false));
    assert!(infos.on_forward_success(3, 4, b"1|x"));
    assert!(!infos.on_forward_success(3, 4, &[]));
    assert!(!infos.on_forward_success(3, 4, &[0xff]));
}

#[test]
fn logger_mode_and_rollover() {
    let mut log = HostLoggerMeta::new();
    assert_eq!(log.get_running_mode(), "client");
    log.init(true, false, LogLevel::Trace, "/tmp/hdc.log".to_string());
    assert_eq!(log.get_running_mode(), "server");
    assert!(log.meta.stdout_require);
    assert!(!log.write_log(10, 15));
    assert!(!log.write_log(10, 15));
    assert!(log.write_log(4, 15));
    assert_eq!(log.meta.current_size, 4);
}

#[test]
fn relay_read_frames_data_and_ends_on_empty_read() {
    let mut fwd = Forwarder::new(false, false);
    let c = fwd.contexts.malloc_context(1, 2, true).unwrap();
    let acts = fwd.relay_read(c.id, b"hello");
    assert_eq!(acts.len(), 1);
    assert_eq!(put_of(&acts[0]), (2, HdcCommand::ForwardData, frame(c.id, b"hello")));
    let acts = fwd.relay_read(c.id, &[]);
    assert_eq!(put_of(&acts[0]), (2, HdcCommand::ForwardFreeContext, frame(c.id, &[])));
    assert!(!fwd.contexts.contains(c.id));
    assert!(fwd.relay_read(c.id, b"late").is_empty());
}

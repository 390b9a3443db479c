use hdc_forward::context::{ContextForward, ForwardType};
use hdc_forward::rule::{check_node_info, detech_forward_type, forward_parse_cmd, get_pid};
use hdc_forward::text::{split_string, split_words, u32_to_text};

fn strings(v: &[&str]) -> Vec<String> {
    v.iter().map(|s| s.to_string()).collect()
}

fn parsed(command: &str) -> (bool, ContextForward) {
    let mut ctx = ContextForward::new(1, 2, true, 3);
    ctx.task_command = command.to_string();
    let ok = forward_parse_cmd(&mut ctx);
    (ok, ctx)
}

#[test]
fn parse_valid_tcp_rule() {
    let (ok, ctx) = parsed("tcp:8080 tcp:9090");
    assert!(ok);
    assert_eq!(ctx.local_args, strings(&["tcp", "8080"]));
    assert_eq!(ctx.remote_args, strings(&["tcp", "9090"]));
    assert_eq!(ctx.remote_parameters, "tcp:9090");
    assert_eq!(ctx.last_error, "");
}

#[test]
fn parse_rejects_port_above_range() {
    let (ok, ctx) = parsed("tcp:70000 tcp:9090");
    assert!(!ok);
    assert_eq!(ctx.last_error, "Arguments parsing failed.");
    assert!(ctx.local_args.is_empty());
}

#[test]
fn parse_rejects_port_zero() {
    let (ok, ctx) = parsed("tcp:0 tcp:9999");
    assert!(!ok);
    assert_eq!(ctx.last_error, "Arguments parsing failed.");
}

#[test]
fn parse_bad_remote_keeps_local_pieces() {
    let (ok, ctx) = parsed("tcp:8080 tcp:65536");
    assert!(!ok);
    assert_eq!(ctx.local_args, strings(&["tcp", "8080"]));
    assert!(ctx.remote_args.is_empty());
}

#[test]
fn parse_too_few_arguments() {
    let (ok, ctx) = parsed("   tcp:8080  ");
    assert!(!ok);
    assert_eq!(ctx.last_error, "Too few arguments.");
}

#[test]
fn parse_argument_too_long() {
    let long = format!("dev:{}", "a".repeat(300));
    let (ok, ctx) = parsed(&format!("{} tcp:1", long));
    assert!(!ok);
    assert_eq!(ctx.last_error, "Some argument too long.");
}

#[test]
fn parse_extra_words_are_ignored() {
    let (ok, ctx) = parsed("tcp:1\ttcp:2 extra");
    assert!(ok);
    assert_eq!(ctx.remote_parameters, "tcp:2");
}

#[test]
fn node_info_cases() {
    let mut args = Vec::new();
    assert!(!check_node_info(&"tcp8080".to_string(), &mut args));
    assert!(!check_node_info(&"tcp:123456".to_string(), &mut args));
    assert!(!check_node_info(&"tcp:12a".to_string(), &mut args));
    assert!(!check_node_info(&"tcp:".to_string(), &mut args));
    assert!(args.is_empty());
    assert!(check_node_info(&"tcp:65535".to_string(), &mut args));
    assert!(check_node_info(&"dev:/dev/ttyS0".to_string(), &mut args));
    assert!(check_node_info(&"jdwp:".to_string(), &mut args));
    assert_eq!(args, strings(&["tcp", "65535", "dev", "/dev/ttyS0", "jdwp", ""]));
}

#[test]
fn pid_of_debug_targets() {
    assert_eq!(get_pid("1234", ForwardType::Jdwp), 1234);
    assert_eq!(get_pid("12@com.example", ForwardType::Ark), 12);
    assert_eq!(get_pid("12@x", ForwardType::Jdwp), 0);
    assert_eq!(get_pid("abc", ForwardType::Ark), 0);
    assert_eq!(get_pid("4294967296", ForwardType::Jdwp), 0);
    assert_eq!(get_pid("4294967295", ForwardType::Jdwp), 4294967295);
}

#[test]
fn forward_type_of_schemes() {
    let cases = [
        ("tcp", ForwardType::Tcp, "1"),
        ("dev", ForwardType::Device, "1"),
        ("localabstract", ForwardType::Abstract, "1"),
        ("localfilesystem", ForwardType::FileSystem, "/dev/socket1"),
        ("jdwp", ForwardType::Jdwp, "1"),
        ("ark", ForwardType::Ark, "1"),
        ("localreserved", ForwardType::Reserved, "/tmp/1"),
    ];
    for (scheme, kind, target) in cases {
        let mut ctx = ContextForward::new(0, 0, true, 0);
        ctx.local_args = strings(&[scheme, "1"]);
        assert!(detech_forward_type(&mut ctx));
        assert_eq!(ctx.forward_type, kind);
        assert_eq!(ctx.local_args[1], target);
    }
    let mut ctx = ContextForward::new(0, 0, true, 0);
    ctx.local_args = strings(&["udp", "1"]);
    assert!(!detech_forward_type(&mut ctx));
    assert_eq!(ctx.local_args, strings(&["udp", "1"]));
    ctx.local_args = strings(&["tcp"]);
    assert!(!detech_forward_type(&mut ctx));
}

#[test]
fn text_helpers() {
    assert_eq!(split_string("a::b", ':'), strings(&["a", "", "b"]));
    assert_eq!(split_string("", ':'), strings(&[""]));
    assert_eq!(split_words(" a\tb\r\nc  "), strings(&["a", "b", "c"]));
    assert!(split_words("   ").is_empty());
    assert_eq!(u32_to_text(0), "0");
    assert_eq!(u32_to_text(4294967295), "4294967295");
    assert_eq!(u32_to_text(1005), "1005");
}

//! Parsing of forward rules: `scheme:value[:value]` endpoint specs, the
//! two-spec rule text, endpoint kinds and debugged-process ids.
use crate::context::{ContextForward, ContextView, ForwardType};
use crate::text::{
    all_digits, digits_value, has_char, is_u32_text, lemma_split_len, parse_u32, split_on,
    split_string, split_words, text_is, words,
};
use vstd::prelude::*;
use vstd::string::*;

verus! {

/// Longest port text accepted, in characters.
pub const MAX_PORT_LEN: usize = 5;

/// Largest port accepted.
pub const MAX_PORT_NUM: u32 = 65535;

/// Longest word of a rule accepted, in characters.
pub const BUF_SIZE_SMALL: usize = 256;

/// Namespace put before a `localfilesystem` socket name.
pub const HARMONY_RESERVED_SOCKET_PREFIX: &'static str = "/dev/socket";

/// Namespace put before a `localreserved` socket name.
pub const FILE_SYSTEM_SOCKET_PREFIX: &'static str = "/tmp/";

/// A TCP port as a rule may write it: one to five digits, from 1 to 65535.
pub open spec fn port_ok(p: Seq<char>) -> bool {
    &&& p.len() <= 5
    &&& is_u32_text(p)
    &&& 1 <= digits_value(p) <= 65535
}

/// An endpoint spec that parses: it holds a colon, and a `tcp` spec
/// names a valid port.
pub open spec fn node_ok(v: Seq<char>) -> bool {
    let parts = split_on(v, ':');
    &&& v.contains(':')
    &&& parts[0] == "tcp"@ ==> port_ok(parts[1])
}

/// Checks the endpoint spec `value` and, when it parses, appends its
/// colon-separated pieces to `arg`; on failure `arg` is left as it was.
pub fn check_node_info(value: &String, arg: &mut Vec<String>) -> (r: bool)
    ensures
        r == node_ok(value@),
        r ==> final(arg).deep_view() == old(arg).deep_view() + split_on(value@, ':'),
        !r ==> final(arg).deep_view() == old(arg).deep_view(),
{
    if !has_char(value.as_str(), ':') {
        return false;
    }
    proof {
        lemma_split_len(value@, ':');
    }
    let parts = split_string(value.as_str(), ':');
    assert(parts.deep_view()[0] == parts@[0]@);
    assert(parts.deep_view()[1] == parts@[1]@);
    if text_is(&parts[0], "tcp") {
        let port = &parts[1];
        if port.as_str().unicode_len() > MAX_PORT_LEN {
            return false;
        }
        match parse_u32(port.as_str()) {
            Some(n) => {
                if n == 0 || n > MAX_PORT_NUM {
                    return false;
                }
            },
            None => {
                return false;
            },
        }
    }
    let ghost start = arg.deep_view();
    let mut i: usize = 0;
    while i < parts.len()
        invariant
            i <= parts@.len(),
            parts.deep_view() == split_on(value@, ':'),
            arg.deep_view() == start + parts.deep_view().subrange(0, i as int),
        decreases parts@.len() - i,
    {
        let ghost ad = arg.deep_view();
        let piece = parts[i].clone();
        assert(piece@ == parts.deep_view()[i as int]);
        arg.push(piece);
        assert(arg.deep_view() =~= ad.push(piece@));
        i = i + 1;
        assert(arg.deep_view() =~= start + parts.deep_view().subrange(0, i as int));
    }
    assert(parts.deep_view().subrange(0, parts@.len() as int) =~= parts.deep_view());
    true
}

/// What `forward_parse_cmd` makes of a record: whether the rule text
/// parses, and the record afterwards.
pub open spec fn parse_rule(c: ContextView) -> (bool, ContextView) {
    let w = words(c.task_command);
    if w.len() < 2 {
        (false, ContextView { last_error: "Too few arguments."@, ..c })
    } else if w[0].len() > 256 || w[1].len() > 256 {
        (false, ContextView { last_error: "Some argument too long."@, ..c })
    } else if !node_ok(w[0]) {
        (false, ContextView { last_error: "Arguments parsing failed."@, ..c })
    } else if !node_ok(w[1]) {
        (
            false,
            ContextView {
                last_error: "Arguments parsing failed."@,
                local_args: c.local_args + split_on(w[0], ':'),
                ..c
            },
        )
    } else {
        (
            true,
            ContextView {
                local_args: c.local_args + split_on(w[0], ':'),
                remote_args: c.remote_args + split_on(w[1], ':'),
                remote_parameters: w[1],
                ..c
            },
        )
    }
}

/// Parses the rule text `task_command` of a record into its local and
/// remote endpoint specs; on failure records why in `last_error`.
pub fn forward_parse_cmd(context_forward: &mut ContextForward) -> (r: bool)
    ensures
        r == parse_rule(old(context_forward)@).0,
        final(context_forward)@ == parse_rule(old(context_forward)@).1,
{
    let argv = split_words(context_forward.task_command.as_str());
    if argv.len() < 2 {
        context_forward.last_error = String::from_str("Too few arguments.");
        return false;
    }
    assert(argv.deep_view()[0] == argv@[0]@);
    assert(argv.deep_view()[1] == argv@[1]@);
    if argv[0].as_str().unicode_len() > BUF_SIZE_SMALL || argv[1].as_str().unicode_len()
        > BUF_SIZE_SMALL {
        context_forward.last_error = String::from_str("Some argument too long.");
        return false;
    }
    if !check_node_info(&argv[0], &mut context_forward.local_args) {
        context_forward.last_error = String::from_str("Arguments parsing failed.");
        return false;
    }
    if !check_node_info(&argv[1], &mut context_forward.remote_args) {
        context_forward.last_error = String::from_str("Arguments parsing failed.");
        return false;
    }
    context_forward.remote_parameters = argv[1].clone();
    true
}

/// The process id that a debug-pipe target names: the whole text for
/// `jdwp`, the part before the first `@` otherwise; `0` when that part is
/// not a decimal `u32`.
pub open spec fn pid_of(parameter: Seq<char>, forward_type: ForwardType) -> u32 {
    let s = if forward_type == ForwardType::Jdwp {
        parameter
    } else {
        split_on(parameter, '@')[0]
    };
    if is_u32_text(s) {
        digits_value(s) as u32
    } else {
        0
    }
}

pub fn get_pid(parameter: &str, forward_type: ForwardType) -> (r: u32)
    ensures
        r == pid_of(parameter@, forward_type),
{
    if forward_type == ForwardType::Jdwp {
        match parse_u32(parameter) {
            Some(n) => n,
            None => 0,
        }
    } else {
        proof {
            lemma_split_len(parameter@, '@');
        }
        let params = split_string(parameter, '@');
        assert(params.deep_view()[0] == params@[0]@);
        match parse_u32(params[0].as_str()) {
            Some(n) => n,
            None => 0,
        }
    }
}

/// The endpoint kind that a scheme names.
pub open spec fn scheme_type(s: Seq<char>) -> Option<ForwardType> {
    if s == "tcp"@ {
        Some(ForwardType::Tcp)
    } else if s == "dev"@ {
        Some(ForwardType::Device)
    } else if s == "localabstract"@ {
        Some(ForwardType::Abstract)
    } else if s == "localfilesystem"@ {
        Some(ForwardType::FileSystem)
    } else if s == "jdwp"@ {
        Some(ForwardType::Jdwp)
    } else if s == "ark"@ {
        Some(ForwardType::Ark)
    } else if s == "localreserved"@ {
        Some(ForwardType::Reserved)
    } else {
        None
    }
}

/// The local target once its kind is known: socket names of the two
/// path-addressed kinds get their namespace in front.
pub open spec fn resolved_target(t: ForwardType, target: Seq<char>) -> Seq<char> {
    if t == ForwardType::FileSystem {
        "/dev/socket"@ + target
    } else if t == ForwardType::Reserved {
        "/tmp/"@ + target
    } else {
        target
    }
}

/// Classifies the record's local endpoint by its scheme. Fails, and
/// changes nothing, on an unknown scheme or a spec without a value.
pub fn detech_forward_type(ctx_point: &mut ContextForward) -> (r: bool)
    ensures
        r == (old(ctx_point)@.local_args.len() >= 2 && scheme_type(
            old(ctx_point)@.local_args[0],
        ) is Some),
        !r ==> final(ctx_point)@ == old(ctx_point)@,
        r ==> {
            let t = scheme_type(old(ctx_point)@.local_args[0])->0;
            final(ctx_point)@ == ContextView {
                forward_type: t,
                local_args: old(ctx_point)@.local_args.update(
                    1,
                    resolved_target(t, old(ctx_point)@.local_args[1]),
                ),
                ..old(ctx_point)@
            }
        },
{
    if ctx_point.local_args.len() < 2 {
        return false;
    }
    let ghost old_args = ctx_point.local_args.deep_view();
    assert(old_args[0] == ctx_point.local_args@[0]@);
    assert(old_args[1] == ctx_point.local_args@[1]@);
    let t = {
        let s = &ctx_point.local_args[0];
        if text_is(s, "tcp") {
            ForwardType::Tcp
        } else if text_is(s, "dev") {
            ForwardType::Device
        } else if text_is(s, "localabstract") {
            ForwardType::Abstract
        } else if text_is(s, "localfilesystem") {
            ForwardType::FileSystem
        } else if text_is(s, "jdwp") {
            ForwardType::Jdwp
        } else if text_is(s, "ark") {
            ForwardType::Ark
        } else if text_is(s, "localreserved") {
            ForwardType::Reserved
        } else {
            return false;
        }
    };
    if t == ForwardType::FileSystem || t == ForwardType::Reserved {
        let prefix = if t == ForwardType::FileSystem {
            HARMONY_RESERVED_SOCKET_PREFIX
        } else {
            FILE_SYSTEM_SOCKET_PREFIX
        };
        let mut target = String::from_str(prefix);
        target.append(ctx_point.local_args[1].as_str());
        ctx_point.local_args.set(1, target);
    }
    ctx_point.forward_type = t;
    assert(ctx_point.local_args.deep_view() =~= old_args.update(
        1,
        resolved_target(t, old_args[1]),
    ));
    true
}

} // verus!

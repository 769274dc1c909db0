//! The command-line option table: each recognized flag either updates the
//! configuration, asks for an interactive call to a running daemon, or ends
//! the run. The surrounding layer collects the arguments and performs the
//! exit, the usage text, or the call; this module only decides.

use vstd::prelude::*;
use vstd::string::StrSliceExecFns;

use crate::registry::str_eq;
use crate::server::EpmdConfig;

verus! {

/// An interactive call to a running daemon, requested on the command line.
#[derive(Debug, PartialEq, Eq)]
pub enum EpmdReq {
    Alive2,
    Port2,
    Names,
    Dump,
    Kill,
    Stop(String),
}

/// The mathematical value of a requested call.
pub enum ArgsReqModel {
    Alive2,
    Port2,
    Names,
    Dump,
    Kill,
    Stop(Seq<char>),
}

impl View for EpmdReq {
    type V = ArgsReqModel;

    open spec fn view(&self) -> ArgsReqModel {
        match self {
            EpmdReq::Alive2 => ArgsReqModel::Alive2,
            EpmdReq::Port2 => ArgsReqModel::Port2,
            EpmdReq::Names => ArgsReqModel::Names,
            EpmdReq::Dump => ArgsReqModel::Dump,
            EpmdReq::Kill => ArgsReqModel::Kill,
            EpmdReq::Stop(name) => ArgsReqModel::Stop(name@),
        }
    }
}

/// What the argument list asked for: run normally, exit, report a bad
/// option (the caller shows the usage text), or make an interactive call.
#[derive(Debug, PartialEq, Eq)]
pub enum ParseResponse {
    Proceed,
    ShouldExit,
    BadOpt,
    Call(EpmdReq),
}

/// The mathematical value of a parse outcome.
pub enum ParseModel {
    Proceed,
    ShouldExit,
    BadOpt,
    Call(ArgsReqModel),
}

impl View for ParseResponse {
    type V = ParseModel;

    open spec fn view(&self) -> ParseModel {
        match self {
            ParseResponse::Proceed => ParseModel::Proceed,
            ParseResponse::ShouldExit => ParseModel::ShouldExit,
            ParseResponse::BadOpt => ParseModel::BadOpt,
            ParseResponse::Call(req) => ParseModel::Call(req@),
        }
    }
}

/// The mathematical value of a configuration.
pub struct ConfigModel {
    pub debug: bool,
    pub silent: bool,
    pub is_daemon: bool,
    pub is_systemd: bool,
    pub brutal_kill: bool,
    pub use_ipv6: bool,
    pub packet_timeout: u64,
    pub delay_accept: usize,
    pub delay_write: usize,
    pub address: Seq<char>,
    pub port: u16,
}

impl View for EpmdConfig {
    type V = ConfigModel;

    open spec fn view(&self) -> ConfigModel {
        ConfigModel {
            debug: self.debug,
            silent: self.silent,
            is_daemon: self.is_daemon,
            is_systemd: self.is_systemd,
            brutal_kill: self.brutal_kill,
            use_ipv6: self.use_ipv6,
            packet_timeout: self.packet_timeout,
            delay_accept: self.delay_accept,
            delay_write: self.delay_write,
            address: self.address@,
            port: self.port,
        }
    }
}

// ---------------------------------------------------------------------------
// Decimal option values
// ---------------------------------------------------------------------------
/// True for a decimal digit character.
pub open spec fn spec_digit(c: char) -> bool {
    48 <= c as u32 <= 57
}

/// The number a string of digit characters denotes.
pub open spec fn spec_dec_chars(s: Seq<char>) -> int
    decreases s.len(),
{
    if s.len() == 0 {
        0
    } else {
        spec_dec_chars(s.drop_last()) * 10 + (s.last() as u32 - 48)
    }
}

/// A well-formed decimal option value: nonempty, digits only, within the
/// 64-bit range.
pub open spec fn spec_parse_u64(s: Seq<char>) -> Option<int> {
    if s.len() > 0 && (forall|i: int| 0 <= i < s.len() ==> spec_digit(#[trigger] s[i]))
        && spec_dec_chars(s) <= u64::MAX {
        Option::Some(spec_dec_chars(s))
    } else {
        Option::None
    }
}

/// The number a digit string denotes is never negative.
proof fn lemma_dec_chars_nonneg(s: Seq<char>)
    requires
        forall|i: int| 0 <= i < s.len() ==> spec_digit(#[trigger] s[i]),
    ensures
        spec_dec_chars(s) >= 0,
    decreases s.len(),
{
    if s.len() > 0 {
        assert(s.drop_last() =~= s.subrange(0, s.len() - 1));
        lemma_dec_chars_nonneg(s.drop_last());
    }
}

/// Extending a digit string never shrinks the number it denotes.
proof fn lemma_dec_chars_mono(s: Seq<char>, i: int, j: int)
    requires
        0 <= i <= j <= s.len(),
        forall|k: int| 0 <= k < s.len() ==> spec_digit(#[trigger] s[k]),
    ensures
        spec_dec_chars(s.subrange(0, i)) <= spec_dec_chars(s.subrange(0, j)),
    decreases j - i,
{
    if i < j {
        lemma_dec_chars_mono(s, i, j - 1);
        let p = s.subrange(0, j);
        assert(p.drop_last() =~= s.subrange(0, j - 1));
        assert(forall|k: int| 0 <= k < p.len() ==> spec_digit(#[trigger] p[k]));
        lemma_dec_chars_nonneg(s.subrange(0, j - 1));
    }
}

/// Parses a decimal option value.
pub fn parse_u64(s: &str) -> (r: Option<u64>)
    ensures
        match r {
            Option::Some(v) => spec_parse_u64(s@) == Option::Some(v as int),
            Option::None => spec_parse_u64(s@) is None,
        },
{
    let n = s.unicode_len();
    if n == 0 {
        return Option::None;
    }
    let mut value: u64 = 0;
    let mut i: usize = 0;
    while i < n
        invariant
            0 <= i <= n,
            n == s@.len(),
            forall|j: int| 0 <= j < i ==> spec_digit(#[trigger] s@[j]),
            value == spec_dec_chars(s@.subrange(0, i as int)),
        decreases n - i,
    {
        let c = s.get_char(i);
        let d = c as u32;
        if d < 48 || d > 57 {
            return Option::None;
        }
        let digit = (d - 48) as u64;
        if value > (u64::MAX - digit) / 10 {
            proof {
                assert(s@.subrange(0, i + 1).drop_last() =~= s@.subrange(0, i as int));
                assert(s@.subrange(0, i + 1).last() == s@[i as int]);
                assert(spec_dec_chars(s@.subrange(0, i + 1)) > u64::MAX);
                if forall|k: int| 0 <= k < s@.len() ==> spec_digit(#[trigger] s@[k]) {
                    lemma_dec_chars_mono(s@, i + 1, s@.len() as int);
                    assert(s@.subrange(0, s@.len() as int) =~= s@);
                    assert(spec_dec_chars(s@) > u64::MAX);
                }
            }
            return Option::None;
        }
        proof {
            assert(s@.subrange(0, i + 1).drop_last() =~= s@.subrange(0, i as int));
        }
        value = value * 10 + digit;
        i = i + 1;
    }
    proof {
        assert(s@.subrange(0, s@.len() as int) =~= s@);
    }
    Option::Some(value)
}

// ---------------------------------------------------------------------------
// The option table
// ---------------------------------------------------------------------------
/// The outcome of working through the remaining arguments. `single` records
/// whether the whole argument list had exactly one entry: the interactive
/// calls are accepted only as the sole argument.
pub open spec fn spec_apply_args(cfg: ConfigModel, args: Seq<Seq<char>>, single: bool) -> (
    ConfigModel,
    ParseModel,
)
    decreases args.len(),
{
    if args.len() == 0 {
        (cfg, ParseModel::ShouldExit)
    } else {
        let a = args[0];
        let rest = args.drop_first();
        if a == "-d"@ || a == "-debug"@ {
            spec_apply_args(ConfigModel { debug: true, ..cfg }, rest, single)
        } else if a == "-packet_timeout"@ {
            if args.len() < 2 {
                (cfg, ParseModel::BadOpt)
            } else {
                match spec_parse_u64(args[1]) {
                    Option::Some(v) => spec_apply_args(
                        ConfigModel { packet_timeout: v as u64, ..cfg },
                        args.skip(2),
                        single,
                    ),
                    Option::None => (cfg, ParseModel::BadOpt),
                }
            }
        } else if a == "-delay_accept"@ {
            if args.len() < 2 {
                (cfg, ParseModel::BadOpt)
            } else {
                match spec_parse_u64(args[1]) {
                    Option::Some(v) => if v <= usize::MAX {
                        spec_apply_args(
                            ConfigModel { delay_accept: v as usize, ..cfg },
                            args.skip(2),
                            single,
                        )
                    } else {
                        (cfg, ParseModel::BadOpt)
                    },
                    Option::None => (cfg, ParseModel::BadOpt),
                }
            }
        } else if a == "-delay_write"@ {
            if args.len() < 2 {
                (cfg, ParseModel::BadOpt)
            } else {
                match spec_parse_u64(args[1]) {
                    Option::Some(v) => if v <= usize::MAX {
                        spec_apply_args(
                            ConfigModel { delay_write: v as usize, ..cfg },
                            args.skip(2),
                            single,
                        )
                    } else {
                        (cfg, ParseModel::BadOpt)
                    },
                    Option::None => (cfg, ParseModel::BadOpt),
                }
            }
        } else if a == "-daemon"@ {
            spec_apply_args(ConfigModel { is_daemon: true, ..cfg }, rest, single)
        } else if a == "-relaxed_command_check"@ {
            spec_apply_args(ConfigModel { brutal_kill: true, ..cfg }, rest, single)
        } else if a == "-kill"@ {
            if single {
                (cfg, ParseModel::Call(ArgsReqModel::Kill))
            } else {
                (cfg, ParseModel::BadOpt)
            }
        } else if a == "-address"@ {
            if args.len() < 2 {
                (cfg, ParseModel::BadOpt)
            } else {
                spec_apply_args(ConfigModel { address: args[1], ..cfg }, args.skip(2), single)
            }
        } else if a == "-port"@ {
            if args.len() < 2 {
                (cfg, ParseModel::BadOpt)
            } else {
                match spec_parse_u64(args[1]) {
                    Option::Some(v) => if v <= 0xFFFF {
                        spec_apply_args(ConfigModel { port: v as u16, ..cfg }, args.skip(2), single)
                    } else {
                        (cfg, ParseModel::BadOpt)
                    },
                    Option::None => (cfg, ParseModel::BadOpt),
                }
            }
        } else if a == "-names"@ {
            if single {
                (cfg, ParseModel::Call(ArgsReqModel::Names))
            } else {
                (cfg, ParseModel::BadOpt)
            }
        } else if a == "-started"@ {
            let quiet = ConfigModel { silent: true, ..cfg };
            if single {
                (quiet, ParseModel::Call(ArgsReqModel::Names))
            } else {
                (quiet, ParseModel::BadOpt)
            }
        } else if a == "-dump"@ {
            if single {
                (cfg, ParseModel::Call(ArgsReqModel::Dump))
            } else {
                (cfg, ParseModel::BadOpt)
            }
        } else if a == "-stop"@ {
            if args.len() < 2 {
                (cfg, ParseModel::BadOpt)
            } else {
                (cfg, ParseModel::Call(ArgsReqModel::Stop(args[1])))
            }
        } else if a == "-systemd"@ {
            spec_apply_args(ConfigModel { is_systemd: true, ..cfg }, rest, single)
        } else {
            (cfg, ParseModel::BadOpt)
        }
    }
}

/// The outcome of an argument list: an empty list runs the daemon normally,
/// anything else is worked through the option table.
pub open spec fn spec_parse_args(cfg: ConfigModel, args: Seq<Seq<char>>) -> (
    ConfigModel,
    ParseModel,
) {
    if args.len() == 0 {
        (cfg, ParseModel::Proceed)
    } else {
        spec_apply_args(cfg, args, args.len() == 1)
    }
}

/// The spec-level contents of an argument list.
pub open spec fn spec_arg_views(args: Seq<String>) -> Seq<Seq<char>> {
    args.map(|i: int, s: String| s@)
}

/// Works an argument list — without the program name — into the
/// configuration: flags set configuration fields, valued options consume the
/// following argument, an interactive command as the sole argument asks for
/// a call, an unknown or ill-formed option reports a bad option, an empty
/// list runs normally, and an exhausted list ends the run.
#[verifier::rlimit(50)]
pub fn parse_args(config: &mut EpmdConfig, args: &Vec<String>) -> (r: ParseResponse)
    ensures
        (final(config)@, r@) == spec_parse_args(old(config)@, spec_arg_views(args@)),
{
    let ghost cfg0 = config@;
    let ghost argviews = spec_arg_views(args@);
    if args.len() == 0 {
        return ParseResponse::Proceed;
    }
    let single = args.len() == 1;
    let mut i: usize = 0;
    proof {
        assert(argviews.skip(0) =~= argviews);
    }
    while i < args.len()
        invariant
            0 <= i <= args@.len(),
            cfg0 == old(config)@,
            argviews == spec_arg_views(args@),
            argviews.len() >= 1,
            single == (argviews.len() == 1),
            spec_apply_args(cfg0, argviews, single) == spec_apply_args(
                config@,
                argviews.skip(i as int),
                single,
            ),
        decreases args@.len() - i,
    {
        let ghost cpre = config@;
        let ghost rest = argviews.skip(i as int);
        proof {
            assert(rest[0] == argviews[i as int]);
            assert(argviews[i as int] == args@[i as int]@);
            assert(rest.drop_first() =~= argviews.skip(i + 1));
            if rest.len() >= 2 {
                assert(rest.skip(2) =~= argviews.skip(i + 2));
                assert(rest[1] == argviews[i + 1]);
                assert(argviews[i + 1] == args@[i + 1]@);
            }
        }
        let a = &args[i];
        if str_eq(a.as_str(), "-d") || str_eq(a.as_str(), "-debug") {
            config.debug = true;
            i = i + 1;
            proof {
                assert(spec_apply_args(cpre, rest, single) == spec_apply_args(
                    config@,
                    argviews.skip(i as int),
                    single,
                ));
            }
        } else if str_eq(a.as_str(), "-packet_timeout") {
            if i + 1 >= args.len() {
                proof {
                    assert(spec_apply_args(cpre, rest, single) == (cpre, ParseModel::BadOpt));
                }
                return ParseResponse::BadOpt;
            }
            match parse_u64(args[i + 1].as_str()) {
                Option::Some(v) => {
                    config.packet_timeout = v;
                    i = i + 2;
                    proof {
                        assert(spec_apply_args(cpre, rest, single) == spec_apply_args(
                            config@,
                            argviews.skip(i as int),
                            single,
                        ));
                    }
                },
                Option::None => {
                    proof {
                        assert(spec_apply_args(cpre, rest, single) == (cpre, ParseModel::BadOpt));
                    }
                    return ParseResponse::BadOpt;
                },
            }
        } else if str_eq(a.as_str(), "-delay_accept") {
            if i + 1 >= args.len() {
                proof {
                    assert(spec_apply_args(cpre, rest, single) == (cpre, ParseModel::BadOpt));
                }
                return ParseResponse::BadOpt;
            }
            match parse_u64(args[i + 1].as_str()) {
                Option::Some(v) => {
                    if v > usize::MAX as u64 {
                        proof {
                            assert(spec_apply_args(cpre, rest, single) == (
                                cpre,
                                ParseModel::BadOpt,
                            ));
                        }
                        return ParseResponse::BadOpt;
                    }
                    config.delay_accept = v as usize;
                    i = i + 2;
                    proof {
                        assert(spec_apply_args(cpre, rest, single) == spec_apply_args(
                            config@,
                            argviews.skip(i as int),
                            single,
                        ));
                    }
                },
                Option::None => {
                    proof {
                        assert(spec_apply_args(cpre, rest, single) == (cpre, ParseModel::BadOpt));
                    }
                    return ParseResponse::BadOpt;
                },
            }
        } else if str_eq(a.as_str(), "-delay_write") {
            if i + 1 >= args.len() {
                proof {
                    assert(spec_apply_args(cpre, rest, single) == (cpre, ParseModel::BadOpt));
                }
                return ParseResponse::BadOpt;
            }
            match parse_u64(args[i + 1].as_str()) {
                Option::Some(v) => {
                    if v > usize::MAX as u64 {
                        proof {
                            assert(spec_apply_args(cpre, rest, single) == (
                                cpre,
                                ParseModel::BadOpt,
                            ));
                        }
                        return ParseResponse::BadOpt;
                    }
                    config.delay_write = v as usize;
                    i = i + 2;
                    proof {
                        assert(spec_apply_args(cpre, rest, single) == spec_apply_args(
                            config@,
                            argviews.skip(i as int),
                            single,
                        ));
                    }
                },
                Option::None => {
                    proof {
                        assert(spec_apply_args(cpre, rest, single) == (cpre, ParseModel::BadOpt));
                    }
                    return ParseResponse::BadOpt;
                },
            }
        } else if str_eq(a.as_str(), "-daemon") {
            config.is_daemon = true;
            i = i + 1;
            proof {
                assert(spec_apply_args(cpre, rest, single) == spec_apply_args(
                    config@,
                    argviews.skip(i as int),
                    single,
                ));
            }
        } else if str_eq(a.as_str(), "-relaxed_command_check") {
            config.brutal_kill = true;
            i = i + 1;
            proof {
                assert(spec_apply_args(cpre, rest, single) == spec_apply_args(
                    config@,
                    argviews.skip(i as int),
                    single,
                ));
            }
        } else if str_eq(a.as_str(), "-kill") {
            if single {
                proof {
                    assert(spec_apply_args(cpre, rest, single) == (
                        cpre,
                        ParseModel::Call(ArgsReqModel::Kill),
                    ));
                }
                return ParseResponse::Call(EpmdReq::Kill);
            }
            proof {
                assert(spec_apply_args(cpre, rest, single) == (cpre, ParseModel::BadOpt));
            }
            return ParseResponse::BadOpt;
        } else if str_eq(a.as_str(), "-address") {
            if i + 1 >= args.len() {
                proof {
                    assert(spec_apply_args(cpre, rest, single) == (cpre, ParseModel::BadOpt));
                }
                return ParseResponse::BadOpt;
            }
            config.address = args[i + 1].clone();
            i = i + 2;
            proof {
                assert(spec_apply_args(cpre, rest, single) == spec_apply_args(
                    config@,
                    argviews.skip(i as int),
                    single,
                ));
            }
        } else if str_eq(a.as_str(), "-port") {
            if i + 1 >= args.len() {
                proof {
                    assert(spec_apply_args(cpre, rest, single) == (cpre, ParseModel::BadOpt));
                }
                return ParseResponse::BadOpt;
            }
            match parse_u64(args[i + 1].as_str()) {
                Option::Some(v) => {
                    if v > 0xFFFF {
                        proof {
                            assert(spec_apply_args(cpre, rest, single) == (
                                cpre,
                                ParseModel::BadOpt,
                            ));
                        }
                        return ParseResponse::BadOpt;
                    }
                    config.port = v as u16;
                    i = i + 2;
                    proof {
                        assert(spec_apply_args(cpre, rest, single) == spec_apply_args(
                            config@,
                            argviews.skip(i as int),
                            single,
                        ));
                    }
                },
                Option::None => {
                    proof {
                        assert(spec_apply_args(cpre, rest, single) == (cpre, ParseModel::BadOpt));
                    }
                    return ParseResponse::BadOpt;
                },
            }
        } else if str_eq(a.as_str(), "-names") {
            if single {
                proof {
                    assert(spec_apply_args(cpre, rest, single) == (
                        cpre,
                        ParseModel::Call(ArgsReqModel::Names),
                    ));
                }
                return ParseResponse::Call(EpmdReq::Names);
            }
            proof {
                assert(spec_apply_args(cpre, rest, single) == (cpre, ParseModel::BadOpt));
            }
            return ParseResponse::BadOpt;
        } else if str_eq(a.as_str(), "-started") {
            config.silent = true;
            if single {
                proof {
                    assert(spec_apply_args(cpre, rest, single) == (
                        config@,
                        ParseModel::Call(ArgsReqModel::Names),
                    ));
                }
                return ParseResponse::Call(EpmdReq::Names);
            }
            proof {
                assert(spec_apply_args(cpre, rest, single) == (config@, ParseModel::BadOpt));
            }
            return ParseResponse::BadOpt;
        } else if str_eq(a.as_str(), "-dump") {
            if single {
                proof {
                    assert(spec_apply_args(cpre, rest, single) == (
                        cpre,
                        ParseModel::Call(ArgsReqModel::Dump),
                    ));
                }
                return ParseResponse::Call(EpmdReq::Dump);
            }
            proof {
                assert(spec_apply_args(cpre, rest, single) == (cpre, ParseModel::BadOpt));
            }
            return ParseResponse::BadOpt;
        } else if str_eq(a.as_str(), "-stop") {
            if i + 1 >= args.len() {
                proof {
                    assert(spec_apply_args(cpre, rest, single) == (cpre, ParseModel::BadOpt));
                }
                return ParseResponse::BadOpt;
            }
            let name = args[i + 1].clone();
            proof {
                assert(spec_apply_args(cpre, rest, single) == (
                    cpre,
                    ParseModel::Call(ArgsReqModel::Stop(name@)),
                ));
            }
            return ParseResponse::Call(EpmdReq::Stop(name));
        } else if str_eq(a.as_str(), "-systemd") {
            config.is_systemd = true;
            i = i + 1;
            proof {
                assert(spec_apply_args(cpre, rest, single) == spec_apply_args(
                    config@,
                    argviews.skip(i as int),
                    single,
                ));
            }
        } else {
            proof {
                assert(spec_apply_args(cpre, rest, single) == (cpre, ParseModel::BadOpt));
            }
            return ParseResponse::BadOpt;
        }
    }
    proof {
        assert(argviews.skip(argviews.len() as int) =~= Seq::<Seq<char>>::empty());
        assert(spec_apply_args(config@, argviews.skip(argviews.len() as int), single) == (
            config@,
            ParseModel::ShouldExit,
        ));
    }
    ParseResponse::ShouldExit
}

} // verus!

//! The address resolver: turns a configuration address string — literal IPv4
//! or IPv6 addresses separated by commas or spaces, or empty for "any" — and
//! a port into the ordered, deduplicated list of socket addresses to bind.
//!
//! An empty specification resolves to the IPv4 "any" address, plus the IPv6
//! "any" address when IPv6 is requested. A non-empty specification always
//! begins with the loopback address (both families when IPv6 is requested),
//! followed by every token that parses as an address literal; tokens that do
//! not parse, and addresses already present, are silently dropped.

use vstd::prelude::*;
use vstd::slice::slice_subrange;
use vstd::string::StringSliceAdditionalSpecFns;

verus! {

/// A literal host address of either family.
#[derive(Clone, Copy, Debug, PartialEq, Eq, Structural)]
pub enum HostIp {
    /// the four dotted-quad octets
    V4(u8, u8, u8, u8),
    /// the eight 16-bit groups
    V6(u16, u16, u16, u16, u16, u16, u16, u16),
}

/// A socket address: a host address and a port.
#[derive(Clone, Copy, Debug, PartialEq, Eq, Structural)]
pub struct SockAddr {
    pub ip: HostIp,
    pub port: u16,
}

// Byte values of the separator and digit characters the grammar uses.
/// ASCII '.'
pub const DOT: u8 = 46;

/// ASCII ':'
pub const COLON: u8 = 58;

/// ASCII ','
pub const COMMA: u8 = 44;

/// ASCII ' '
pub const BLANK: u8 = 32;

// ---------------------------------------------------------------------------
// Splitting on separators
// ---------------------------------------------------------------------------
/// The tokens of a byte string split on two separator bytes, empty tokens
/// kept: a string of n separators yields n + 1 tokens.
pub open spec fn spec_split2(s: Seq<u8>, a: u8, b: u8) -> Seq<Seq<u8>>
    decreases s.len(),
{
    if s.len() == 0 {
        seq![Seq::<u8>::empty()]
    } else {
        let rest = spec_split2(s.drop_first(), a, b);
        if s[0] == a || s[0] == b {
            seq![Seq::<u8>::empty()] + rest
        } else {
            seq![seq![s[0]] + rest[0]] + rest.drop_first()
        }
    }
}

/// Splitting always yields at least one token.
pub proof fn lemma_split2_len(s: Seq<u8>, a: u8, b: u8)
    ensures
        spec_split2(s, a, b).len() >= 1,
    decreases s.len(),
{
    if s.len() > 0 {
        lemma_split2_len(s.drop_first(), a, b);
    }
}

/// Extending the input by one byte extends the token list: a separator opens
/// a new empty token, any other byte extends the last token.
#[verifier::rlimit(50)]
proof fn lemma_split2_snoc(s: Seq<u8>, c: u8, a: u8, b: u8)
    ensures
        (c == a || c == b) ==> spec_split2(s.push(c), a, b) =~= spec_split2(s, a, b).push(
            Seq::<u8>::empty(),
        ),
        !(c == a || c == b) ==> ({
            let t = spec_split2(s, a, b);
            spec_split2(s.push(c), a, b) =~= t.update(t.len() - 1, t.last().push(c))
        }),
    decreases s.len(),
{
    lemma_split2_len(s, a, b);
    if s.len() == 0 {
        assert(s.push(c).drop_first() =~= Seq::<u8>::empty());
        assert(seq![c].drop_first() =~= Seq::<u8>::empty());
        if !(c == a || c == b) {
            assert(seq![c] + spec_split2(Seq::<u8>::empty(), a, b)[0] =~= seq![c]);
        }
    } else {
        lemma_split2_snoc(s.drop_first(), c, a, b);
        lemma_split2_len(s.drop_first(), a, b);
        lemma_split2_len(s.drop_first().push(c), a, b);
        assert(s.push(c)[0] == s[0]);
        assert(s.push(c).drop_first() =~= s.drop_first().push(c));
        let t = spec_split2(s, a, b);
        let td = spec_split2(s.drop_first(), a, b);
        let tp = spec_split2(s.push(c), a, b);
        let tdp = spec_split2(s.drop_first().push(c), a, b);
        if c == a || c == b {
            assert(tdp =~= td.push(Seq::<u8>::empty()));
            if s[0] == a || s[0] == b {
                assert(tp =~= seq![Seq::<u8>::empty()] + tdp);
                assert(t =~= seq![Seq::<u8>::empty()] + td);
                assert(tp =~= t.push(Seq::<u8>::empty()));
            } else {
                assert(tp =~= seq![seq![s[0]] + tdp[0]] + tdp.drop_first());
                assert(t =~= seq![seq![s[0]] + td[0]] + td.drop_first());
                assert(tdp[0] == td[0]);
                assert(tdp.drop_first() =~= td.drop_first().push(Seq::<u8>::empty()));
                assert(tp =~= t.push(Seq::<u8>::empty()));
            }
        } else {
            assert(tdp =~= td.update(td.len() - 1, td.last().push(c)));
            if s[0] == a || s[0] == b {
                assert(tp =~= seq![Seq::<u8>::empty()] + tdp);
                assert(t =~= seq![Seq::<u8>::empty()] + td);
                assert(t.last() == td.last());
                assert(tp =~= t.update(t.len() - 1, t.last().push(c)));
            } else {
                assert(tp =~= seq![seq![s[0]] + tdp[0]] + tdp.drop_first());
                assert(t =~= seq![seq![s[0]] + td[0]] + td.drop_first());
                if td.len() == 1 {
                    assert(tdp[0] == td[0].push(c));
                    assert(tdp.drop_first() =~= td.drop_first());
                    assert(t.len() == 1);
                    assert(t.last() == seq![s[0]] + td[0]);
                    assert(seq![s[0]] + td[0].push(c) =~= (seq![s[0]] + td[0]).push(c));
                    assert(tp =~= t.update(t.len() - 1, t.last().push(c)));
                } else {
                    assert(tdp[0] == td[0]);
                    assert(tdp.drop_first() =~= td.drop_first().update(
                        td.len() - 2,
                        td.last().push(c),
                    ));
                    assert(t.last() == td.last());
                    assert(tp =~= t.update(t.len() - 1, t.last().push(c)));
                }
            }
        }
    }
}

/// The spec-level contents of a vector of byte vectors.
pub open spec fn spec_token_views(v: Seq<Vec<u8>>) -> Seq<Seq<u8>> {
    v.map(|i: int, x: Vec<u8>| x@)
}

/// Splits a byte string on two separator bytes, keeping empty tokens.
pub fn split_bytes(s: &[u8], a: u8, b: u8) -> (out: Vec<Vec<u8>>)
    ensures
        spec_token_views(out@) == spec_split2(s@, a, b),
{
    let mut done: Vec<Vec<u8>> = Vec::new();
    let mut cur: Vec<u8> = Vec::new();
    let mut i: usize = 0;
    proof {
        assert(s@.subrange(0, 0) =~= Seq::<u8>::empty());
        assert(spec_token_views(done@).push(cur@) =~= spec_split2(s@.subrange(0, 0), a, b));
    }
    while i < s.len()
        invariant
            0 <= i <= s@.len(),
            spec_token_views(done@).push(cur@) =~= spec_split2(s@.subrange(0, i as int), a, b),
        decreases s@.len() - i,
    {
        let ghost pre = s@.subrange(0, i as int);
        let c = s[i];
        proof {
            assert(s@.subrange(0, i + 1) =~= pre.push(c));
            lemma_split2_snoc(pre, c, a, b);
            lemma_split2_len(pre, a, b);
        }
        if c == a || c == b {
            done.push(cur);
            cur = Vec::new();
            proof {
                assert(spec_token_views(done@).push(cur@) =~= spec_split2(pre, a, b).push(
                    Seq::<u8>::empty(),
                ));
            }
        } else {
            cur.push(c);
            proof {
                let t = spec_split2(pre, a, b);
                assert(spec_token_views(done@).push(cur@) =~= t.update(
                    t.len() - 1,
                    t.last().push(c),
                ));
            }
        }
        i = i + 1;
    }
    done.push(cur);
    proof {
        assert(s@.subrange(0, s@.len() as int) =~= s@);
        assert(spec_token_views(done@) =~= spec_split2(s@, a, b));
    }
    done
}

// ---------------------------------------------------------------------------
// Decimal octets and the IPv4 literal grammar
// ---------------------------------------------------------------------------
/// True for the ASCII digits '0'..'9'.
pub open spec fn is_digit(c: u8) -> bool {
    48 <= c <= 57
}

/// The number a string of ASCII digits denotes.
pub open spec fn spec_dec_value(s: Seq<u8>) -> int
    decreases s.len(),
{
    if s.len() == 0 {
        0
    } else {
        spec_dec_value(s.drop_last()) * 10 + (s.last() - 48)
    }
}

/// A decimal octet of the dotted-quad grammar: one to three digits, no
/// leading zero, value at most 255.
pub open spec fn is_dec_octet(s: Seq<u8>) -> bool {
    &&& 1 <= s.len() <= 3
    &&& forall|i: int| 0 <= i < s.len() ==> is_digit(#[trigger] s[i])
    &&& (s.len() > 1 ==> s[0] != 48)
    &&& spec_dec_value(s) <= 255
}

/// The dotted-quad IPv4 literal grammar: four decimal octets joined by dots.
pub open spec fn spec_parse_ipv4(s: Seq<u8>) -> Option<(u8, u8, u8, u8)> {
    let t = spec_split2(s, DOT, DOT);
    if t.len() == 4 && is_dec_octet(t[0]) && is_dec_octet(t[1]) && is_dec_octet(t[2])
        && is_dec_octet(t[3]) {
        Option::Some(
            (
                spec_dec_value(t[0]) as u8,
                spec_dec_value(t[1]) as u8,
                spec_dec_value(t[2]) as u8,
                spec_dec_value(t[3]) as u8,
            ),
        )
    } else {
        Option::None
    }
}

/// Parses one token as a decimal octet.
fn parse_dec_octet(s: &Vec<u8>) -> (r: Option<u8>)
    ensures
        match r {
            Option::Some(v) => is_dec_octet(s@) && v == spec_dec_value(s@),
            Option::None => !is_dec_octet(s@),
        },
{
    if s.len() < 1 || s.len() > 3 {
        return Option::None;
    }
    if s.len() > 1 && s[0] == 48 {
        return Option::None;
    }
    let mut value: u16 = 0;
    let mut i: usize = 0;
    while i < s.len()
        invariant
            0 <= i <= s@.len(),
            s@.len() <= 3,
            forall|j: int| 0 <= j < i ==> is_digit(#[trigger] s@[j]),
            value == spec_dec_value(s@.subrange(0, i as int)),
            i == 0 ==> value == 0,
            i <= 1 ==> value <= 9,
            i <= 2 ==> value <= 99,
            value <= 999,
        decreases s@.len() - i,
    {
        let c = s[i];
        if c < 48 || c > 57 {
            return Option::None;
        }
        proof {
            assert(s@.subrange(0, i + 1).drop_last() =~= s@.subrange(0, i as int));
        }
        value = value * 10 + (c - 48) as u16;
        i = i + 1;
    }
    proof {
        assert(s@.subrange(0, s@.len() as int) =~= s@);
    }
    if value <= 255 {
        Option::Some(value as u8)
    } else {
        Option::None
    }
}

/// Parses one token as an IPv4 literal.
pub fn parse_ipv4(s: &[u8]) -> (r: Option<(u8, u8, u8, u8)>)
    ensures
        match r {
            Option::Some(q) => spec_parse_ipv4(s@) == Option::Some(q),
            Option::None => spec_parse_ipv4(s@) is None,
        },
{
    let t = split_bytes(s, DOT, DOT);
    if t.len() != 4 {
        return Option::None;
    }
    assert(t@[0]@ == spec_split2(s@, DOT, DOT)[0]);
    assert(t@[1]@ == spec_split2(s@, DOT, DOT)[1]);
    assert(t@[2]@ == spec_split2(s@, DOT, DOT)[2]);
    assert(t@[3]@ == spec_split2(s@, DOT, DOT)[3]);
    let a = parse_dec_octet(&t[0]);
    let b = parse_dec_octet(&t[1]);
    let c = parse_dec_octet(&t[2]);
    let d = parse_dec_octet(&t[3]);
    match (a, b, c, d) {
        (Option::Some(a), Option::Some(b), Option::Some(c), Option::Some(d)) => Option::Some(
            (a, b, c, d),
        ),
        _ => Option::None,
    }
}

// ---------------------------------------------------------------------------
// Hexadecimal groups and the IPv6 literal grammar
// ---------------------------------------------------------------------------
/// True for the ASCII hexadecimal digits, either case.
pub open spec fn is_hex_digit(c: u8) -> bool {
    (48 <= c <= 57) || (97 <= c <= 102) || (65 <= c <= 70)
}

/// The value of one ASCII hexadecimal digit.
pub open spec fn spec_hex_digit_value(c: u8) -> int {
    if 48 <= c <= 57 {
        c - 48
    } else if 97 <= c <= 102 {
        c - 87
    } else {
        c - 55
    }
}

/// The number a string of ASCII hexadecimal digits denotes.
pub open spec fn spec_hex_value(s: Seq<u8>) -> int
    decreases s.len(),
{
    if s.len() == 0 {
        0
    } else {
        spec_hex_value(s.drop_last()) * 16 + spec_hex_digit_value(s.last())
    }
}

/// A 16-bit group of the IPv6 grammar: one to four hexadecimal digits
/// (leading zeros allowed), with its value.
pub open spec fn spec_h16(s: Seq<u8>) -> Option<u16> {
    if 1 <= s.len() <= 4 && (forall|i: int| 0 <= i < s.len() ==> is_hex_digit(#[trigger] s[i])) {
        Option::Some(spec_hex_value(s) as u16)
    } else {
        Option::None
    }
}

/// Parses one token as a 16-bit hexadecimal group.
fn parse_h16(s: &Vec<u8>) -> (r: Option<u16>)
    ensures
        r == spec_h16(s@),
{
    if s.len() < 1 || s.len() > 4 {
        return Option::None;
    }
    let mut value: u16 = 0;
    let mut i: usize = 0;
    while i < s.len()
        invariant
            0 <= i <= s@.len(),
            s@.len() <= 4,
            forall|j: int| 0 <= j < i ==> is_hex_digit(#[trigger] s@[j]),
            value == spec_hex_value(s@.subrange(0, i as int)),
            i == 0 ==> value == 0,
            i <= 1 ==> value <= 0xF,
            i <= 2 ==> value <= 0xFF,
            i <= 3 ==> value <= 0xFFF,
            value <= 0xFFFF,
        decreases s@.len() - i,
    {
        let c = s[i];
        let d: u16 = if c >= 48 && c <= 57 {
            (c - 48) as u16
        } else if c >= 97 && c <= 102 {
            (c - 87) as u16
        } else if c >= 65 && c <= 70 {
            (c - 55) as u16
        } else {
            return Option::None;
        };
        proof {
            assert(s@.subrange(0, i + 1).drop_last() =~= s@.subrange(0, i as int));
        }
        value = value * 16 + d;
        i = i + 1;
    }
    proof {
        assert(s@.subrange(0, s@.len() as int) =~= s@);
    }
    Option::Some(value)
}

/// The values of a run of tokens that must all be 16-bit groups.
pub open spec fn spec_group_seq(t: Seq<Seq<u8>>) -> Option<Seq<u16>>
    decreases t.len(),
{
    if t.len() == 0 {
        Option::Some(Seq::<u16>::empty())
    } else {
        match (spec_group_seq(t.drop_last()), spec_h16(t.last())) {
            (Option::Some(g), Option::Some(v)) => Option::Some(g.push(v)),
            _ => Option::None,
        }
    }
}

/// The group run parses exactly when every token is a 16-bit group, and then
/// yields their values in order.
proof fn lemma_group_seq_char(t: Seq<Seq<u8>>)
    ensures
        spec_group_seq(t) is Some <==> (forall|i: int|
            0 <= i < t.len() ==> spec_h16(#[trigger] t[i]) is Some),
        spec_group_seq(t) is Some ==> ({
            let g = spec_group_seq(t).unwrap();
            g.len() == t.len() && forall|i: int|
                0 <= i < t.len() ==> #[trigger] g[i] == spec_h16(t[i]).unwrap()
        }),
    decreases t.len(),
{
    if t.len() > 0 {
        lemma_group_seq_char(t.drop_last());
        assert(forall|i: int| 0 <= i < t.len() - 1 ==> t.drop_last()[i] == t[i]);
        assert(t.last() == t[t.len() - 1]);
        if spec_group_seq(t.drop_last()) is Some && spec_h16(t.last()) is Some {
            assert(spec_group_seq(t) is Some);
        }
    }
}

/// Parses the token range `[from, to)` as a run of 16-bit groups.
fn parse_groups(t: &Vec<Vec<u8>>, from: usize, to: usize) -> (r: Option<Vec<u16>>)
    requires
        from <= to <= t@.len(),
    ensures
        match r {
            Option::Some(g) => spec_group_seq(spec_token_views(t@).subrange(from as int, to as int))
                == Option::Some(g@),
            Option::None => spec_group_seq(
                spec_token_views(t@).subrange(from as int, to as int),
            ) is None,
        },
{
    let ghost views = spec_token_views(t@).subrange(from as int, to as int);
    proof {
        lemma_group_seq_char(views);
    }
    let mut out: Vec<u16> = Vec::new();
    let mut i: usize = from;
    while i < to
        invariant
            from <= i <= to <= t@.len(),
            views == spec_token_views(t@).subrange(from as int, to as int),
            out@.len() == i - from,
            forall|j: int|
                0 <= j < i - from ==> spec_h16(#[trigger] views[j]) == Option::Some(out@[j]),
        decreases to - i,
    {
        assert(views[i - from] == t@[i as int]@);
        match parse_h16(&t[i]) {
            Option::Some(v) => {
                out.push(v);
            },
            Option::None => {
                proof {
                    lemma_group_seq_char(views);
                    assert(spec_h16(views[i - from]) is None);
                }
                return Option::None;
            },
        }
        i = i + 1;
    }
    proof {
        lemma_group_seq_char(views);
        assert(spec_group_seq(views) is Some);
        assert(spec_group_seq(views).unwrap() =~= out@);
    }
    Option::Some(out)
}

/// True when the token holds a dot, which marks a dotted-quad tail.
pub open spec fn spec_has_dot(s: Seq<u8>) -> bool {
    exists|i: int| 0 <= i < s.len() && s[i] == DOT
}

fn has_dot(s: &Vec<u8>) -> (r: bool)
    ensures
        r == spec_has_dot(s@),
{
    let mut i: usize = 0;
    while i < s.len()
        invariant
            0 <= i <= s@.len(),
            forall|j: int| 0 <= j < i ==> s@[j] != DOT,
        decreases s@.len() - i,
    {
        if s[i] == DOT {
            return true;
        }
        i = i + 1;
    }
    false
}

/// The values of a run of tokens whose last may be a dotted-quad IPv4 tail,
/// which stands for two 16-bit groups.
pub open spec fn spec_tail_group_seq(t: Seq<Seq<u8>>) -> Option<Seq<u16>> {
    if t.len() == 0 {
        Option::Some(Seq::<u16>::empty())
    } else if spec_has_dot(t.last()) {
        match (spec_group_seq(t.drop_last()), spec_parse_ipv4(t.last())) {
            (Option::Some(g), Option::Some((a, b, c, d))) => Option::Some(
                g + seq![(a * 256 + b) as u16, (c * 256 + d) as u16],
            ),
            _ => Option::None,
        }
    } else {
        spec_group_seq(t)
    }
}

/// Parses a whole token list as a group run with an optional dotted tail.
fn parse_tail_groups(t: &Vec<Vec<u8>>) -> (r: Option<Vec<u16>>)
    ensures
        match r {
            Option::Some(g) => spec_tail_group_seq(spec_token_views(t@)) == Option::Some(g@),
            Option::None => spec_tail_group_seq(spec_token_views(t@)) is None,
        },
{
    let ghost views = spec_token_views(t@);
    if t.len() == 0 {
        let out: Vec<u16> = Vec::new();
        assert(out@ =~= Seq::<u16>::empty());
        return Option::Some(out);
    }
    let n = t.len();
    assert(views.last() == t@[n - 1]@);
    if has_dot(&t[n - 1]) {
        let head = parse_groups(t, 0, n - 1);
        let tail = parse_ipv4(t[n - 1].as_slice());
        proof {
            assert(views.subrange(0, n - 1) =~= views.drop_last());
        }
        match (head, tail) {
            (Option::Some(mut g), Option::Some((a, b, c, d))) => {
                g.push((a as u16) * 256 + (b as u16));
                g.push((c as u16) * 256 + (d as u16));
                proof {
                    assert(g@ =~= spec_group_seq(views.drop_last()).unwrap() + seq![
                        (a * 256 + b) as u16,
                        (c * 256 + d) as u16,
                    ]);
                }
                Option::Some(g)
            },
            _ => Option::None,
        }
    } else {
        proof {
            assert(views.subrange(0, n as int) =~= views);
        }
        parse_groups(t, 0, n)
    }
}

/// The position of the first pair of adjacent colons, if any.
pub open spec fn spec_find2colon(s: Seq<u8>) -> Option<int>
    decreases s.len(),
{
    if s.len() < 2 {
        Option::None
    } else if s[0] == COLON && s[1] == COLON {
        Option::Some(0)
    } else {
        match spec_find2colon(s.drop_first()) {
            Option::Some(i) => Option::Some(i + 1),
            Option::None => Option::None,
        }
    }
}

/// True when two adjacent colons stand at the given position.
pub open spec fn spec_has_dc_at(s: Seq<u8>, j: int) -> bool {
    0 <= j && j + 1 < s.len() && s[j] == COLON && s[j + 1] == COLON
}

/// When no adjacent colon pair stands before position `k`, the first pair is
/// at `k` exactly when one stands there, and there is none at all when the
/// string ends before another position.
proof fn lemma_find2colon_from_prefix(s: Seq<u8>, k: int)
    requires
        0 <= k,
        forall|j: int| 0 <= j < k ==> !spec_has_dc_at(s, j),
    ensures
        spec_has_dc_at(s, k) ==> spec_find2colon(s) == Option::Some(k),
        k + 1 >= s.len() ==> spec_find2colon(s) is None,
    decreases k, s.len(),
{
    if s.len() < 2 {
    } else if s[0] == COLON && s[1] == COLON {
        assert(spec_has_dc_at(s, 0));
    } else {
        if k == 0 {
            if spec_has_dc_at(s, 0) {
                assert(false);
            }
        } else {
            assert forall|j: int| 0 <= j < k - 1 implies !spec_has_dc_at(s.drop_first(), j) by {
                if spec_has_dc_at(s.drop_first(), j) {
                    assert(s.drop_first()[j] == s[j + 1]);
                    assert(s.drop_first()[j + 1] == s[j + 2]);
                    assert(spec_has_dc_at(s, j + 1));
                }
            }
            lemma_find2colon_from_prefix(s.drop_first(), k - 1);
            if spec_has_dc_at(s, k) {
                assert(spec_has_dc_at(s.drop_first(), k - 1));
            }
        }
    }
}

/// Finds the first pair of adjacent colons.
fn find_double_colon(s: &[u8]) -> (r: Option<usize>)
    ensures
        match r {
            Option::Some(i) => spec_find2colon(s@) == Option::Some(i as int) && i + 1 < s@.len(),
            Option::None => spec_find2colon(s@) is None,
        },
{
    if s.len() < 2 {
        proof {
            lemma_find2colon_from_prefix(s@, 0);
        }
        return Option::None;
    }
    let mut i: usize = 0;
    while i < s.len() - 1
        invariant
            s@.len() >= 2,
            0 <= i <= s@.len() - 1,
            forall|j: int| 0 <= j < i ==> !spec_has_dc_at(s@, j),
        decreases s@.len() - i,
    {
        if s[i] == COLON && s[i + 1] == COLON {
            proof {
                lemma_find2colon_from_prefix(s@, i as int);
            }
            return Option::Some(i);
        }
        i = i + 1;
    }
    proof {
        lemma_find2colon_from_prefix(s@, i as int);
    }
    Option::None
}

/// True when some token of the list is empty.
pub open spec fn spec_some_empty(t: Seq<Seq<u8>>) -> bool {
    exists|i: int| 0 <= i < t.len() && t[i].len() == 0
}

fn some_empty(t: &Vec<Vec<u8>>) -> (r: bool)
    ensures
        r == spec_some_empty(spec_token_views(t@)),
{
    let mut i: usize = 0;
    while i < t.len()
        invariant
            0 <= i <= t@.len(),
            forall|j: int| 0 <= j < i ==> spec_token_views(t@)[j].len() != 0,
        decreases t@.len() - i,
    {
        if t[i].len() == 0 {
            assert(spec_token_views(t@)[i as int].len() == 0);
            return true;
        }
        i = i + 1;
    }
    false
}

/// A run of zero-valued groups.
pub open spec fn spec_zero_groups(n: int) -> Seq<u16> {
    Seq::new(n as nat, |i: int| 0u16)
}

/// The IPv6 literal grammar: eight hexadecimal 16-bit groups joined by single
/// colons, at most one pair of adjacent colons standing for a run of zero
/// groups, and an optional dotted-quad tail standing for the last two groups.
pub open spec fn spec_parse_ipv6(s: Seq<u8>) -> Option<Seq<u16>> {
    match spec_find2colon(s) {
        Option::None => {
            let t = spec_split2(s, COLON, COLON);
            if spec_some_empty(t) {
                Option::None
            } else {
                match spec_tail_group_seq(t) {
                    Option::Some(g) => if g.len() == 8 {
                        Option::Some(g)
                    } else {
                        Option::None
                    },
                    Option::None => Option::None,
                }
            }
        },
        Option::Some(i) => {
            let l = s.subrange(0, i);
            let r = s.subrange(i + 2, s.len() as int);
            if spec_find2colon(r) is Some {
                Option::None
            } else {
                let lt = if l.len() == 0 {
                    Seq::<Seq<u8>>::empty()
                } else {
                    spec_split2(l, COLON, COLON)
                };
                let rt = if r.len() == 0 {
                    Seq::<Seq<u8>>::empty()
                } else {
                    spec_split2(r, COLON, COLON)
                };
                if spec_some_empty(lt) || spec_some_empty(rt) {
                    Option::None
                } else {
                    match (spec_group_seq(lt), spec_tail_group_seq(rt)) {
                        (Option::Some(lg), Option::Some(rg)) => if lg.len() + rg.len() <= 7 {
                            Option::Some(
                                lg + spec_zero_groups(8 - lg.len() - rg.len()) + rg,
                            )
                        } else {
                            Option::None
                        },
                        _ => Option::None,
                    }
                }
            }
        },
    }
}

// ---------------------------------------------------------------------------
// Well-known addresses
// ---------------------------------------------------------------------------
/// The IPv4 loopback address at a port.
pub open spec fn spec_loopback_v4(port: u16) -> SockAddr {
    SockAddr { ip: HostIp::V4(127, 0, 0, 1), port }
}

/// The IPv6 loopback address at a port.
pub open spec fn spec_loopback_v6(port: u16) -> SockAddr {
    SockAddr { ip: HostIp::V6(0, 0, 0, 0, 0, 0, 0, 1), port }
}

/// The IPv4 "any" address at a port.
pub open spec fn spec_any_v4(port: u16) -> SockAddr {
    SockAddr { ip: HostIp::V4(0, 0, 0, 0), port }
}

/// The IPv6 "any" address at a port.
pub open spec fn spec_any_v6(port: u16) -> SockAddr {
    SockAddr { ip: HostIp::V6(0, 0, 0, 0, 0, 0, 0, 0), port }
}

/// The loopback address of the preferred family at the given port.
pub fn get_loopback_address(port: u16, use_ipv6: bool) -> (r: SockAddr)
    ensures
        use_ipv6 ==> r == spec_loopback_v6(port),
        !use_ipv6 ==> r == spec_loopback_v4(port),
{
    if use_ipv6 {
        SockAddr { ip: HostIp::V6(0, 0, 0, 0, 0, 0, 0, 1), port }
    } else {
        SockAddr { ip: HostIp::V4(127, 0, 0, 1), port }
    }
}

/// The "any" address of the preferred family at the given port.
pub fn get_any_address(port: u16, use_ipv6: bool) -> (r: SockAddr)
    ensures
        use_ipv6 ==> r == spec_any_v6(port),
        !use_ipv6 ==> r == spec_any_v4(port),
{
    if use_ipv6 {
        SockAddr { ip: HostIp::V6(0, 0, 0, 0, 0, 0, 0, 0), port }
    } else {
        SockAddr { ip: HostIp::V4(0, 0, 0, 0), port }
    }
}

/// True for a loopback address of either family.
pub open spec fn spec_is_loopback(ip: HostIp) -> bool {
    match ip {
        HostIp::V4(a, _, _, _) => a == 127,
        HostIp::V6(g0, g1, g2, g3, g4, g5, g6, g7) => g0 == 0 && g1 == 0 && g2 == 0 && g3 == 0
            && g4 == 0 && g5 == 0 && g6 == 0 && g7 == 1,
    }
}

/// True when a peer is local: it connected over a loopback address, or over
/// the very address this server is bound to.
pub fn is_local_peer(sock_peer: &SockAddr, sock_local: &SockAddr) -> (r: bool)
    ensures
        r == (spec_is_loopback(sock_peer.ip) || sock_peer.ip == sock_local.ip),
{
    let is_loopback = match sock_peer.ip {
        HostIp::V4(a, _, _, _) => a == 127,
        HostIp::V6(g0, g1, g2, g3, g4, g5, g6, g7) => g0 == 0 && g1 == 0 && g2 == 0 && g3 == 0
            && g4 == 0 && g5 == 0 && g6 == 0 && g7 == 1,
    };
    is_loopback || sock_peer.ip == sock_local.ip
}

/// The host address a group sequence of length eight denotes.
pub open spec fn spec_ipv6_of(g: Seq<u16>) -> HostIp {
    HostIp::V6(g[0], g[1], g[2], g[3], g[4], g[5], g[6], g[7])
}

/// The group at a position of the assembled address: the left groups, then
/// zeros, then the right groups aligned to the end.
fn group_at(lg: &Vec<u16>, rg: &Vec<u16>, k: usize) -> (v: u16)
    requires
        lg@.len() + rg@.len() <= 7,
        k < 8,
    ensures
        v == (lg@ + spec_zero_groups(8 - lg@.len() - rg@.len()) + rg@)[k as int],
{
    let nl = lg.len();
    let nr = rg.len();
    if k < nl {
        lg[k]
    } else if k >= 8 - nr {
        rg[k - (8 - nr)]
    } else {
        0
    }
}

/// Parses one token as an IPv6 literal.
pub fn parse_ipv6(s: &[u8]) -> (r: Option<HostIp>)
    ensures
        match r {
            Option::Some(ip) => spec_parse_ipv6(s@) is Some && ip == spec_ipv6_of(
                spec_parse_ipv6(s@).unwrap(),
            ),
            Option::None => spec_parse_ipv6(s@) is None,
        },
{
    match find_double_colon(s) {
        Option::None => {
            let t = split_bytes(s, COLON, COLON);
            if some_empty(&t) {
                return Option::None;
            }
            match parse_tail_groups(&t) {
                Option::Some(g) => {
                    if g.len() == 8 {
                        Option::Some(HostIp::V6(g[0], g[1], g[2], g[3], g[4], g[5], g[6], g[7]))
                    } else {
                        Option::None
                    }
                },
                Option::None => Option::None,
            }
        },
        Option::Some(i) => {
            let n = s.len();
            assert(i + 1 < n);
            let l = slice_subrange(s, 0, i);
            let r = slice_subrange(s, i + 2, n);
            match find_double_colon(r) {
                Option::Some(_) => Option::None,
                Option::None => {
                    let lt: Vec<Vec<u8>> = if l.len() == 0 {
                        Vec::new()
                    } else {
                        split_bytes(l, COLON, COLON)
                    };
                    let rt: Vec<Vec<u8>> = if r.len() == 0 {
                        Vec::new()
                    } else {
                        split_bytes(r, COLON, COLON)
                    };
                    proof {
                        if l@.len() == 0 {
                            assert(spec_token_views(lt@) =~= Seq::<Seq<u8>>::empty());
                        }
                        if r@.len() == 0 {
                            assert(spec_token_views(rt@) =~= Seq::<Seq<u8>>::empty());
                        }
                    }
                    if some_empty(&lt) || some_empty(&rt) {
                        return Option::None;
                    }
                    let nl = lt.len();
                    proof {
                        assert(spec_token_views(lt@).subrange(0, nl as int) =~= spec_token_views(
                            lt@,
                        ));
                    }
                    let lg = parse_groups(&lt, 0, nl);
                    let rg = parse_tail_groups(&rt);
                    match (lg, rg) {
                        (Option::Some(lg), Option::Some(rg)) => {
                            if lg.len() <= 7 && rg.len() <= 7 - lg.len() {
                                let g0 = group_at(&lg, &rg, 0);
                                let g1 = group_at(&lg, &rg, 1);
                                let g2 = group_at(&lg, &rg, 2);
                                let g3 = group_at(&lg, &rg, 3);
                                let g4 = group_at(&lg, &rg, 4);
                                let g5 = group_at(&lg, &rg, 5);
                                let g6 = group_at(&lg, &rg, 6);
                                let g7 = group_at(&lg, &rg, 7);
                                Option::Some(HostIp::V6(g0, g1, g2, g3, g4, g5, g6, g7))
                            } else {
                                Option::None
                            }
                        },
                        _ => Option::None,
                    }
                },
            }
        },
    }
}

// ---------------------------------------------------------------------------
// The resolver
// ---------------------------------------------------------------------------
/// The address a configuration token denotes: an IPv4 literal, else an IPv6
/// literal, else nothing.
pub open spec fn spec_addr_of_token(tok: Seq<u8>, port: u16) -> Option<SockAddr> {
    match spec_parse_ipv4(tok) {
        Option::Some((a, b, c, d)) => Option::Some(SockAddr { ip: HostIp::V4(a, b, c, d), port }),
        Option::None => match spec_parse_ipv6(tok) {
            Option::Some(g) => Option::Some(SockAddr { ip: spec_ipv6_of(g), port }),
            Option::None => Option::None,
        },
    }
}

fn addr_of_token(tok: &Vec<u8>, port: u16) -> (r: Option<SockAddr>)
    ensures
        r == spec_addr_of_token(tok@, port),
{
    match parse_ipv4(tok.as_slice()) {
        Option::Some((a, b, c, d)) => Option::Some(SockAddr { ip: HostIp::V4(a, b, c, d), port }),
        Option::None => match parse_ipv6(tok.as_slice()) {
            Option::Some(ip) => Option::Some(SockAddr { ip, port }),
            Option::None => Option::None,
        },
    }
}

/// The addresses the configuration tokens add, in order, skipping tokens that
/// do not parse and addresses already seen.
pub open spec fn spec_collect(tokens: Seq<Seq<u8>>, port: u16, seen: Seq<SockAddr>) -> Seq<
    SockAddr,
>
    decreases tokens.len(),
{
    if tokens.len() == 0 {
        Seq::<SockAddr>::empty()
    } else {
        match spec_addr_of_token(tokens[0], port) {
            Option::Some(a) => {
                if seen.contains(a) {
                    spec_collect(tokens.drop_first(), port, seen)
                } else {
                    seq![a] + spec_collect(tokens.drop_first(), port, seen.push(a))
                }
            },
            Option::None => spec_collect(tokens.drop_first(), port, seen),
        }
    }
}

/// The resolved listen addresses for a configuration string. An empty string
/// resolves to the "any" addresses; anything else to the loopback addresses
/// followed by every comma- or space-separated token that parses as an
/// address literal, without duplicates.
pub open spec fn spec_resolve(s: Seq<u8>, port: u16, use_ipv6: bool) -> Seq<SockAddr> {
    let base = if s.len() == 0 {
        if use_ipv6 {
            seq![spec_any_v4(port), spec_any_v6(port)]
        } else {
            seq![spec_any_v4(port)]
        }
    } else {
        if use_ipv6 {
            seq![spec_loopback_v4(port), spec_loopback_v6(port)]
        } else {
            seq![spec_loopback_v4(port)]
        }
    };
    if s.len() == 0 {
        base
    } else {
        base + spec_collect(spec_split2(s, COMMA, BLANK), port, base)
    }
}

/// True when the list already holds the address.
fn contains_addr(v: &Vec<SockAddr>, a: SockAddr) -> (r: bool)
    ensures
        r == v@.contains(a),
{
    let mut i: usize = 0;
    while i < v.len()
        invariant
            0 <= i <= v@.len(),
            forall|j: int| 0 <= j < i ==> v@[j] != a,
        decreases v@.len() - i,
    {
        if v[i] == a {
            assert(v@.contains(a));
            return true;
        }
        i = i + 1;
    }
    assert(!v@.contains(a));
    false
}

/// Resolves a configuration address string and a port into the ordered,
/// deduplicated list of socket addresses to bind.
///
/// An empty string yields the IPv4 "any" address, plus the IPv6 "any" address
/// when IPv6 is requested. A non-empty string yields the loopback address
/// first (both families when IPv6 is requested), then every comma- or
/// space-separated token that parses as an IPv4 or IPv6 literal at the given
/// port; tokens that fail to parse, and addresses already present, are
/// silently dropped.
pub fn parse_socket_addrs(addr_str: &str, port: u16, use_ipv6: bool) -> (r: Vec<SockAddr>)
    ensures
        r@ == spec_resolve(addr_str.spec_bytes(), port, use_ipv6),
{
    let bytes = addr_str.as_bytes();
    let mut out: Vec<SockAddr> = Vec::new();
    if bytes.len() == 0 {
        out.push(get_any_address(port, false));
        if use_ipv6 {
            out.push(get_any_address(port, true));
        }
        assert(out@ =~= spec_resolve(bytes@, port, use_ipv6));
        return out;
    }
    out.push(get_loopback_address(port, false));
    if use_ipv6 {
        out.push(get_loopback_address(port, true));
    }
    let ghost base = out@;
    let tokens = split_bytes(bytes, COMMA, BLANK);
    let ghost views = spec_token_views(tokens@);
    proof {
        assert(views.skip(0) =~= views);
        if use_ipv6 {
            assert(base =~= seq![spec_loopback_v4(port), spec_loopback_v6(port)]);
        } else {
            assert(base =~= seq![spec_loopback_v4(port)]);
        }
    }
    let mut i: usize = 0;
    while i < tokens.len()
        invariant
            0 <= i <= tokens@.len(),
            views == spec_token_views(tokens@),
            base + spec_collect(views, port, base) == out@ + spec_collect(
                views.skip(i as int),
                port,
                out@,
            ),
        decreases tokens@.len() - i,
    {
        let ghost rest = views.skip(i as int);
        proof {
            assert(rest[0] == views[i as int]);
            assert(rest.drop_first() =~= views.skip(i + 1));
            assert(views[i as int] == tokens@[i as int]@);
        }
        match addr_of_token(&tokens[i], port) {
            Option::Some(a) => {
                if !contains_addr(&out, a) {
                    let ghost pre = out@;
                    out.push(a);
                    proof {
                        assert(out@ =~= pre.push(a));
                        assert(pre + (seq![a] + spec_collect(views.skip(i + 1), port, pre.push(a)))
                            =~= out@ + spec_collect(views.skip(i + 1), port, out@));
                    }
                }
            },
            Option::None => {},
        }
        i = i + 1;
    }
    proof {
        assert(views.skip(views.len() as int) =~= Seq::<Seq<u8>>::empty());
        assert(base + spec_collect(views, port, base) =~= out@);
        assert(addr_str.spec_bytes() == bytes@);
    }
    out
}

} // verus!

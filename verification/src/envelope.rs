//! The envelope wire format: every published message travels as a JSON
//! object `{"guid":…,"timespan":…,"current_retry":…,"json_content":…}`,
//! UTF-8 encoded. This module frames and checks those bytes itself: the
//! encoder emits the canonical frame (fields in this order, strings with
//! `\"`, `\\` and `\u00XX` escapes for the quote, the backslash and control
//! bytes), the decoder accepts exactly the canonical frames, and decoding
//! an encoded envelope is proved to give the envelope back. The canonical
//! frame is this library's wire contract: a frame from another encoder
//! that orders the fields differently, inserts whitespace or escapes
//! otherwise is refused, and the delivery path then drops (acknowledges)
//! it rather than requeue it.

use vstd::prelude::*;

verus! {

/// Double quote.
pub const Q: u8 = 0x22;

/// Backslash.
pub const BS: u8 = 0x5c;

/// A message envelope; the strings are UTF-8 bytes as they travel on the
/// wire.
#[derive(Debug, Clone, PartialEq, Eq)]
pub struct MqMessage {
    /// Message id.
    pub guid: Vec<u8>,
    /// Creation timestamp, RFC 3339 text.
    pub timespan: Vec<u8>,
    /// How often this message has been retried. Fresh envelopes carry
    /// zero, and broker-side requeue redelivers the frame unchanged, so
    /// the retry cap binds only envelopes whose producer stamps a count;
    /// redelivery itself stays the broker's native requeue, by design.
    pub current_retry: u32,
    /// The serialized payload the consumer's handler receives.
    pub json_content: Vec<u8>,
}

/// The mathematical model of an envelope.
pub struct MsgModel {
    pub guid: Seq<u8>,
    pub timespan: Seq<u8>,
    pub current_retry: u32,
    pub json_content: Seq<u8>,
}

impl View for MqMessage {
    type V = MsgModel;

    open spec fn view(&self) -> MsgModel {
        MsgModel {
            guid: self.guid@,
            timespan: self.timespan@,
            current_retry: self.current_retry,
            json_content: self.json_content@,
        }
    }
}

/// The lower-case hex digit for `n < 16`.
pub open spec fn hex_digit(n: u8) -> u8 {
    if n < 10 {
        (0x30 + n) as u8
    } else {
        (0x61 + (n - 10)) as u8
    }
}

/// The value of a hex digit byte, 16 for a byte that is none.
pub open spec fn hex_val(b: u8) -> u8 {
    if 0x30 <= b <= 0x39 {
        (b - 0x30) as u8
    } else if 0x61 <= b <= 0x66 {
        (b - 0x61 + 10) as u8
    } else {
        16
    }
}

/// How one byte appears inside a JSON string literal: quote and backslash
/// are escaped, control bytes become `\u00XX`, everything else stands as
/// itself.
pub open spec fn escape_byte(b: u8) -> Seq<u8> {
    if b == Q {
        seq![BS, Q]
    } else if b == BS {
        seq![BS, BS]
    } else if b < 0x20 {
        seq![BS, 0x75, 0x30, 0x30, hex_digit(b / 16), hex_digit(b % 16)]
    } else {
        seq![b]
    }
}

/// A byte string as it appears inside a JSON string literal.
pub open spec fn escape_bytes(s: Seq<u8>) -> Seq<u8>
    decreases s.len(),
{
    if s.len() == 0 {
        Seq::empty()
    } else {
        escape_byte(s[0]) + escape_bytes(s.skip(1))
    }
}

/// The decimal digits of `n`, most significant first.
pub open spec fn dec_digits(n: nat) -> Seq<u8>
    decreases n,
{
    if n < 10 {
        seq![(0x30 + n) as u8]
    } else {
        dec_digits(n / 10).push((0x30 + n % 10) as u8)
    }
}

/// `{"guid":"`
pub open spec fn lit_head() -> Seq<u8> {
    seq![0x7b, Q, 0x67, 0x75, 0x69, 0x64, Q, 0x3a, Q]
}

/// `","timespan":"`
pub open spec fn lit_mid1() -> Seq<u8> {
    seq![Q, 0x2c, Q, 0x74, 0x69, 0x6d, 0x65, 0x73, 0x70, 0x61, 0x6e, Q, 0x3a, Q]
}

/// `","current_retry":`
pub open spec fn lit_mid2() -> Seq<u8> {
    seq![
        Q,
        0x2c,
        Q,
        0x63,
        0x75,
        0x72,
        0x72,
        0x65,
        0x6e,
        0x74,
        0x5f,
        0x72,
        0x65,
        0x74,
        0x72,
        0x79,
        Q,
        0x3a,
    ]
}

/// `,"json_content":"`
pub open spec fn lit_mid3() -> Seq<u8> {
    seq![
        0x2c,
        Q,
        0x6a,
        0x73,
        0x6f,
        0x6e,
        0x5f,
        0x63,
        0x6f,
        0x6e,
        0x74,
        0x65,
        0x6e,
        0x74,
        Q,
        0x3a,
        Q,
    ]
}

/// `"}`
pub open spec fn lit_tail() -> Seq<u8> {
    seq![Q, 0x7d]
}

/// The canonical frame of an envelope.
pub open spec fn spec_encode(m: MsgModel) -> Seq<u8> {
    lit_head() + escape_bytes(m.guid) + lit_mid1() + escape_bytes(m.timespan) + lit_mid2()
        + dec_digits(m.current_retry as nat) + lit_mid3() + escape_bytes(m.json_content)
        + lit_tail()
}

/// Drops `lit` from the front of `s`, or fails.
pub open spec fn strip_lit(s: Seq<u8>, lit: Seq<u8>) -> Option<Seq<u8>> {
    if s.len() >= lit.len() && s.subrange(0, lit.len() as int) == lit {
        Some(s.skip(lit.len() as int))
    } else {
        None
    }
}

/// Reads a string literal body up to and including its closing quote,
/// undoing the escapes; yields the string and the remaining input. Raw
/// quotes end the string, raw control bytes are refused, and after a
/// backslash only `"`, `\` and `u00XX` are understood.
pub open spec fn parse_string(s: Seq<u8>) -> Option<(Seq<u8>, Seq<u8>)>
    decreases s.len(),
{
    if s.len() == 0 {
        None
    } else if s[0] == Q {
        Some((Seq::empty(), s.skip(1)))
    } else if s[0] == BS {
        if s.len() >= 2 && (s[1] == Q || s[1] == BS) {
            match parse_string(s.skip(2)) {
                Some((v, r)) => Some((seq![s[1]] + v, r)),
                None => None,
            }
        } else if s.len() >= 6 && s[1] == 0x75 && s[2] == 0x30 && s[3] == 0x30 && hex_val(s[4])
            < 16 && hex_val(s[5]) < 16 {
            match parse_string(s.skip(6)) {
                Some((v, r)) => Some((seq![(hex_val(s[4]) * 16 + hex_val(s[5])) as u8] + v, r)),
                None => None,
            }
        } else {
            None
        }
    } else if s[0] < 0x20 {
        None
    } else {
        match parse_string(s.skip(1)) {
            Some((v, r)) => Some((seq![s[0]] + v, r)),
            None => None,
        }
    }
}

/// Whether `b` is an ASCII decimal digit.
pub open spec fn is_digit(b: u8) -> bool {
    0x30 <= b <= 0x39
}

/// The longest digit prefix of `s`.
pub open spec fn digit_prefix(s: Seq<u8>) -> Seq<u8>
    decreases s.len(),
{
    if s.len() > 0 && is_digit(s[0]) {
        seq![s[0]] + digit_prefix(s.skip(1))
    } else {
        Seq::empty()
    }
}

/// The number the digit bytes spell, most significant first.
pub open spec fn digits_val(d: Seq<u8>) -> nat
    decreases d.len(),
{
    if d.len() == 0 {
        0
    } else {
        digits_val(d.drop_last()) * 10 + (d.last() - 0x30) as nat
    }
}

/// Reads a decimal `u32`; at least one digit, and the value must fit.
pub open spec fn parse_u32(s: Seq<u8>) -> Option<(u32, Seq<u8>)> {
    let d = digit_prefix(s);
    if d.len() >= 1 && digits_val(d) <= u32::MAX as nat {
        Some((digits_val(d) as u32, s.skip(d.len() as int)))
    } else {
        None
    }
}

/// Decodes a canonical envelope frame; the whole input must be consumed.
pub open spec fn spec_decode(s: Seq<u8>) -> Option<MsgModel> {
    match strip_lit(s, lit_head()) {
        None => None,
        Some(s1) => match parse_string(s1) {
            None => None,
            Some((guid, s2)) => match strip_lit(s2, lit_mid1().skip(1)) {
                None => None,
                Some(s3) => match parse_string(s3) {
                    None => None,
                    Some((timespan, s4)) => match strip_lit(s4, lit_mid2().skip(1)) {
                        None => None,
                        Some(s5) => match parse_u32(s5) {
                            None => None,
                            Some((retry, s6)) => match strip_lit(s6, lit_mid3()) {
                                None => None,
                                Some(s7) => match parse_string(s7) {
                                    None => None,
                                    Some((content, s8)) => if s8 == seq![0x7du8] {
                                        Some(
                                            MsgModel {
                                                guid,
                                                timespan,
                                                current_retry: retry,
                                                json_content: content,
                                            },
                                        )
                                    } else {
                                        None
                                    },
                                },
                            },
                        },
                    },
                },
            },
        },
    }
}

/// The lower-case hex digit for `n < 16`, executable.
fn hex_digit_exec(n: u8) -> (r: u8)
    requires
        n < 16,
    ensures
        r == hex_digit(n),
{
    if n < 10 {
        0x30 + n
    } else {
        0x61 + (n - 10)
    }
}

/// The value of a hex digit byte, executable.
fn hex_val_exec(b: u8) -> (r: u8)
    ensures
        r == hex_val(b),
{
    if 0x30 <= b && b <= 0x39 {
        b - 0x30
    } else if 0x61 <= b && b <= 0x66 {
        b - 0x61 + 10
    } else {
        16
    }
}

/// Appends the escaped form of `s` to `out`.
fn push_escaped(out: &mut Vec<u8>, s: &Vec<u8>)
    ensures
        final(out)@ == old(out)@ + escape_bytes(s@),
{
    let mut i: usize = 0;
    while i < s.len()
        invariant
            i <= s@.len(),
            out@ == old(out)@ + escape_bytes(s@.subrange(0, i as int)),
        decreases s@.len() - i,
    {
        let b = s[i];
        proof {
            assert(s@.subrange(0, i + 1) =~= s@.subrange(0, i as int).push(s@[i as int]));
            lemma_escape_snoc(s@.subrange(0, i as int), s@[i as int]);
        }
        if b == Q {
            out.push(BS);
            out.push(Q);
        } else if b == BS {
            out.push(BS);
            out.push(BS);
        } else if b < 0x20 {
            out.push(BS);
            out.push(0x75);
            out.push(0x30);
            out.push(0x30);
            out.push(hex_digit_exec(b / 16));
            out.push(hex_digit_exec(b % 16));
        } else {
            out.push(b);
        }
        proof {
            assert(out@ =~= old(out)@ + escape_bytes(s@.subrange(0, i + 1)));
        }
        i = i + 1;
    }
    proof {
        assert(s@.subrange(0, s@.len() as int) =~= s@);
    }
}

/// Appends the decimal digits of `n` to `out`.
fn push_dec(out: &mut Vec<u8>, n: u32)
    ensures
        final(out)@ == old(out)@ + dec_digits(n as nat),
    decreases n,
{
    if n < 10 {
        out.push(0x30 + n as u8);
        proof {
            assert(out@ =~= old(out)@ + dec_digits(n as nat));
        }
    } else {
        push_dec(out, n / 10);
        out.push(0x30 + (n % 10) as u8);
        proof {
            assert(out@ =~= old(out)@ + dec_digits(n as nat));
        }
    }
}

/// `{"guid":"` as bytes.
fn lit_head_vec() -> (r: Vec<u8>)
    ensures
        r@ == lit_head(),
{
    let r = vec![0x7bu8, Q, 0x67, 0x75, 0x69, 0x64, Q, 0x3a, Q];
    proof {
        assert(r@ =~= lit_head());
    }
    r
}

/// `","timespan":"` as bytes.
fn lit_mid1_vec() -> (r: Vec<u8>)
    ensures
        r@ == lit_mid1(),
{
    let r = vec![Q, 0x2cu8, Q, 0x74, 0x69, 0x6d, 0x65, 0x73, 0x70, 0x61, 0x6e, Q, 0x3a, Q];
    proof {
        assert(r@ =~= lit_mid1());
    }
    r
}

/// `","current_retry":` as bytes.
fn lit_mid2_vec() -> (r: Vec<u8>)
    ensures
        r@ == lit_mid2(),
{
    let r = vec![
        Q,
        0x2cu8,
        Q,
        0x63,
        0x75,
        0x72,
        0x72,
        0x65,
        0x6e,
        0x74,
        0x5f,
        0x72,
        0x65,
        0x74,
        0x72,
        0x79,
        Q,
        0x3a,
    ];
    proof {
        assert(r@ =~= lit_mid2());
    }
    r
}

/// `,"json_content":"` as bytes.
fn lit_mid3_vec() -> (r: Vec<u8>)
    ensures
        r@ == lit_mid3(),
{
    let r = vec![
        0x2cu8,
        Q,
        0x6a,
        0x73,
        0x6f,
        0x6e,
        0x5f,
        0x63,
        0x6f,
        0x6e,
        0x74,
        0x65,
        0x6e,
        0x74,
        Q,
        0x3a,
        Q,
    ];
    proof {
        assert(r@ =~= lit_mid3());
    }
    r
}

/// Appends every byte of `what` to `out`.
pub(crate) fn push_all(out: &mut Vec<u8>, what: &Vec<u8>)
    ensures
        final(out)@ == old(out)@ + what@,
{
    let mut i: usize = 0;
    while i < what.len()
        invariant
            i <= what@.len(),
            out@ == old(out)@ + what@.subrange(0, i as int),
        decreases what@.len() - i,
    {
        out.push(what[i]);
        proof {
            assert(out@ =~= old(out)@ + what@.subrange(0, i + 1));
        }
        i = i + 1;
    }
    proof {
        assert(what@.subrange(0, what@.len() as int) =~= what@);
    }
}

impl MqMessage {
    /// A fresh envelope carrying `json_content`: a new id, the current
    /// time, and zero retries.
    pub fn new(json_content: Vec<u8>) -> (r: MqMessage)
        ensures
            r@.current_retry == 0,
            r@.json_content == json_content@,
            r@.guid.len() == 32,
            forall|i: int| 0 <= i < 32 ==> crate::guid::is_hex_lower(#[trigger] r@.guid[i]),
            r@.timespan.len() >= 1,
            forall|i: int|
                0 <= i < r@.timespan.len() ==> crate::clock::is_rfc3339_byte(
                    #[trigger] r@.timespan[i],
                ),
    {
        MqMessage {
            guid: crate::guid::fresh_guid(),
            timespan: crate::clock::now_rfc3339(),
            current_retry: 0,
            json_content,
        }
    }

    /// Encodes the envelope into its canonical wire frame.
    pub fn encode(&self) -> (r: Vec<u8>)
        ensures
            r@ == spec_encode(self@),
    {
        let mut out: Vec<u8> = Vec::new();
        let head = lit_head_vec();
        let mid1 = lit_mid1_vec();
        let mid2 = lit_mid2_vec();
        let mid3 = lit_mid3_vec();
        push_all(&mut out, &head);
        push_escaped(&mut out, &self.guid);
        push_all(&mut out, &mid1);
        push_escaped(&mut out, &self.timespan);
        push_all(&mut out, &mid2);
        push_dec(&mut out, self.current_retry);
        push_all(&mut out, &mid3);
        push_escaped(&mut out, &self.json_content);
        out.push(Q);
        out.push(0x7d);
        proof {
            assert(out@ =~= spec_encode(self@));
        }
        out
    }
}

/// Advances past `lit` at `pos`, or reports that the input does not start
/// with it there.
fn eat_lit(s: &Vec<u8>, pos: usize, lit: &Vec<u8>) -> (r: Option<usize>)
    requires
        pos <= s@.len(),
    ensures
        match r {
            Some(p2) => p2 == pos + lit@.len() && p2 <= s@.len() && strip_lit(
                s@.skip(pos as int),
                lit@,
            ) == Some(s@.skip(p2 as int)),
            None => strip_lit(s@.skip(pos as int), lit@) is None,
        },
{
    if s.len() - pos < lit.len() {
        return None;
    }
    let mut i: usize = 0;
    while i < lit.len()
        invariant
            pos + lit@.len() <= s@.len(),
            i <= lit@.len(),
            forall|j: int| 0 <= j < i ==> s@[pos + j] == lit@[j],
        decreases lit@.len() - i,
    {
        let n = s.len();
        proof {
            assert(pos + i < n);
        }
        if s[pos + i] != lit[i] {
            proof {
                let su = s@.skip(pos as int);
                assert(su.subrange(0, lit@.len() as int)[i as int] == s@[pos + i]);
                assert(su.subrange(0, lit@.len() as int) != lit@);
            }
            return None;
        }
        i = i + 1;
    }
    proof {
        let su = s@.skip(pos as int);
        assert(su.subrange(0, lit@.len() as int) =~= lit@);
        assert(su.skip(lit@.len() as int) =~= s@.skip(pos + lit@.len()));
    }
    Some(pos + lit.len())
}

/// Reads a string literal body starting at `pos`, undoing the escapes, up
/// to and including its closing quote.
fn parse_string_exec(s: &Vec<u8>, pos: usize) -> (r: Option<(Vec<u8>, usize)>)
    requires
        pos <= s@.len(),
    ensures
        match r {
            Some((v, p2)) => p2 <= s@.len() && parse_string(s@.skip(pos as int)) == Some(
                (v@, s@.skip(p2 as int)),
            ),
            None => parse_string(s@.skip(pos as int)) is None,
        },
{
    let mut out: Vec<u8> = Vec::new();
    let mut cur: usize = pos;
    while cur < s.len()
        invariant
            pos <= cur <= s@.len(),
            match parse_string(s@.skip(cur as int)) {
                Some((v, r)) => parse_string(s@.skip(pos as int)) == Some((out@ + v, r)),
                None => parse_string(s@.skip(pos as int)) is None,
            },
        decreases s@.len() - cur,
    {
        let ghost su = s@.skip(cur as int);
        proof {
            assert(su[0] == s@[cur as int]);
        }
        let b = s[cur];
        if b == Q {
            proof {
                assert(su.skip(1) =~= s@.skip(cur + 1));
                assert(parse_string(su) == Some((Seq::<u8>::empty(), s@.skip(cur + 1))));
                assert(out@ + Seq::<u8>::empty() =~= out@);
            }
            return Some((out, cur + 1));
        } else if b == BS {
            if s.len() - cur < 2 {
                proof {
                    assert(su.len() == 1);
                    assert(parse_string(su) is None);
                }
                return None;
            }
            proof {
                assert(su[1] == s@[cur + 1]);
            }
            let e = s[cur + 1];
            if e == Q || e == BS {
                out.push(e);
                proof {
                    assert(su.skip(2) =~= s@.skip(cur + 2));
                }
                proof {
                    match parse_string(s@.skip(cur + 2)) {
                        Some((v, r)) => {
                            assert(parse_string(su) == Some((seq![e] + v, r)));
                            assert(out@ + v =~= out@.drop_last() + (seq![e] + v));
                        },
                        None => {},
                    }
                }
                cur = cur + 2;
            } else if e == 0x75 {
                if s.len() - cur < 6 {
                    proof {
                        assert(su.len() < 6);
                        assert(parse_string(su) is None);
                    }
                    return None;
                }
                proof {
                    assert(su[2] == s@[cur + 2] && su[3] == s@[cur + 3] && su[4] == s@[cur + 4]
                        && su[5] == s@[cur + 5]);
                }
                let h1 = hex_val_exec(s[cur + 4]);
                let h2 = hex_val_exec(s[cur + 5]);
                if s[cur + 2] != 0x30 || s[cur + 3] != 0x30 || h1 >= 16 || h2 >= 16 {
                    proof {
                        assert(parse_string(su) is None);
                    }
                    return None;
                }
                let decoded = h1 * 16 + h2;
                out.push(decoded);
                proof {
                    assert(su.skip(6) =~= s@.skip(cur + 6));
                    match parse_string(s@.skip(cur + 6)) {
                        Some((v, r)) => {
                            assert(parse_string(su) == Some((seq![decoded] + v, r)));
                            assert(out@ + v =~= out@.drop_last() + (seq![decoded] + v));
                        },
                        None => {},
                    }
                }
                cur = cur + 6;
            } else {
                proof {
                    assert(parse_string(su) is None);
                }
                return None;
            }
        } else if b < 0x20 {
            proof {
                assert(parse_string(su) is None);
            }
            return None;
        } else {
            out.push(b);
            proof {
                assert(su.skip(1) =~= s@.skip(cur + 1));
                match parse_string(s@.skip(cur + 1)) {
                    Some((v, r)) => {
                        assert(parse_string(su) == Some((seq![b] + v, r)));
                        assert(out@ + v =~= out@.drop_last() + (seq![b] + v));
                    },
                    None => {},
                }
            }
            cur = cur + 1;
        }
    }
    proof {
        assert(s@.skip(cur as int).len() == 0);
        assert(parse_string(s@.skip(cur as int)) is None);
    }
    None
}

/// A digit run splits off the front of the digit prefix.
proof fn lemma_digit_prefix_split(t: Seq<u8>, k: int)
    requires
        0 <= k <= t.len(),
        forall|i: int| 0 <= i < k ==> is_digit(#[trigger] t[i]),
    ensures
        digit_prefix(t) == t.subrange(0, k) + digit_prefix(t.skip(k)),
    decreases k,
{
    if k == 0 {
        assert(t.subrange(0, 0) =~= Seq::<u8>::empty());
        assert(t.skip(0) =~= t);
        assert(Seq::<u8>::empty() + digit_prefix(t) =~= digit_prefix(t));
    } else {
        lemma_digit_prefix_split(t.skip(1), k - 1);
        assert(t.skip(1).subrange(0, k - 1) =~= t.subrange(1, k));
        assert(t.skip(1).skip(k - 1) =~= t.skip(k));
        assert(digit_prefix(t) == seq![t[0]] + digit_prefix(t.skip(1)));
        assert(seq![t[0]] + (t.subrange(1, k) + digit_prefix(t.skip(k))) =~= t.subrange(0, k)
            + digit_prefix(t.skip(k)));
    }
}

/// Appending a digit multiplies the value by ten and adds it.
proof fn lemma_digits_val_snoc(d: Seq<u8>, x: u8)
    requires
        is_digit(x),
    ensures
        digits_val(d.push(x)) == digits_val(d) * 10 + (x - 0x30),
{
    assert(d.push(x).drop_last() =~= d);
    assert(d.push(x).last() == x);
}

/// A longer digit string never spells a smaller number.
proof fn lemma_digits_val_le(d: Seq<u8>, k: int)
    requires
        0 <= k <= d.len(),
        forall|i: int| 0 <= i < d.len() ==> is_digit(#[trigger] d[i]),
    ensures
        digits_val(d.subrange(0, k)) <= digits_val(d),
    decreases d.len() - k,
{
    if k < d.len() {
        lemma_digits_val_le(d, k + 1);
        let p = d.subrange(0, k + 1);
        assert(p.drop_last() =~= d.subrange(0, k));
        assert(is_digit(p.last()));
        assert(digits_val(p) == digits_val(d.subrange(0, k)) * 10 + (p.last() - 0x30));
        assert(digits_val(d.subrange(0, k)) * 10 >= digits_val(d.subrange(0, k)))
            by (nonlinear_arith);
    } else {
        assert(d.subrange(0, k) =~= d);
    }
}

/// Every byte of a digit prefix is a digit.
proof fn lemma_digit_prefix_digits(s: Seq<u8>)
    ensures
        forall|i: int|
            0 <= i < digit_prefix(s).len() ==> is_digit(#[trigger] digit_prefix(s)[i]),
    decreases s.len(),
{
    if s.len() > 0 && is_digit(s[0]) {
        lemma_digit_prefix_digits(s.skip(1));
        let dp = digit_prefix(s);
        let dp1 = digit_prefix(s.skip(1));
        assert forall|i: int| 0 <= i < dp.len() implies is_digit(#[trigger] dp[i]) by {
            if i > 0 {
                assert(dp[i] == dp1[i - 1]);
            }
        }
    }
}

/// Reads a decimal `u32` starting at `pos`.
fn parse_u32_exec(s: &Vec<u8>, pos: usize) -> (r: Option<(u32, usize)>)
    requires
        pos <= s@.len(),
    ensures
        match r {
            Some((n, p2)) => p2 <= s@.len() && parse_u32(s@.skip(pos as int)) == Some(
                (n, s@.skip(p2 as int)),
            ),
            None => parse_u32(s@.skip(pos as int)) is None,
        },
{
    let ghost su = s@.skip(pos as int);
    let mut cur: usize = pos;
    let mut acc: u64 = 0;
    while cur < s.len() && 0x30 <= s[cur] && s[cur] <= 0x39
        invariant
            pos <= cur <= s@.len(),
            su == s@.skip(pos as int),
            forall|i: int| pos <= i < cur ==> is_digit(#[trigger] s@[i]),
            acc == digits_val(s@.subrange(pos as int, cur as int)),
            acc <= u32::MAX,
        decreases s@.len() - cur,
    {
        let d = s[cur];
        proof {
            assert(s@.subrange(pos as int, cur + 1) =~= s@.subrange(pos as int, cur as int).push(
                s@[cur as int],
            ));
            lemma_digits_val_snoc(s@.subrange(pos as int, cur as int), s@[cur as int]);
        }
        let next = acc * 10 + (d - 0x30) as u64;
        if next > u32::MAX as u64 {
            proof {
                // The digit prefix extends at least to here, so the value
                // is already too large for a `u32`.
                assert forall|i: int| 0 <= i < cur + 1 - pos implies is_digit(
                    #[trigger] su[i],
                ) by {
                    assert(su[i] == s@[pos + i]);
                }
                lemma_digit_prefix_split(su, cur + 1 - pos);
                lemma_digit_prefix_digits(su);
                let dp = digit_prefix(su);
                assert(su.subrange(0, cur + 1 - pos) =~= s@.subrange(pos as int, cur + 1));
                assert(dp == s@.subrange(pos as int, cur + 1) + digit_prefix(su.skip(
                    cur + 1 - pos,
                )));
                assert(s@.subrange(pos as int, cur + 1) =~= dp.subrange(0, cur + 1 - pos));
                lemma_digits_val_le(dp, cur + 1 - pos);
                assert(digits_val(dp) > u32::MAX);
            }
            return None;
        }
        acc = next;
        cur = cur + 1;
    }
    proof {
        assert forall|i: int| 0 <= i < cur - pos implies is_digit(#[trigger] su[i]) by {
            assert(su[i] == s@[pos + i]);
        }
        lemma_digit_prefix_split(su, cur - pos);
        assert(su.subrange(0, cur - pos) =~= s@.subrange(pos as int, cur as int));
        if cur < s@.len() {
            assert(su.skip(cur - pos)[0] == s@[cur as int]);
            assert(!is_digit(s@[cur as int]));
            assert(digit_prefix(su.skip(cur - pos)) =~= Seq::<u8>::empty());
        } else {
            assert(su.skip(cur - pos).len() == 0);
            assert(digit_prefix(su.skip(cur - pos)) =~= Seq::<u8>::empty());
        }
        assert(digit_prefix(su) =~= s@.subrange(pos as int, cur as int));
    }
    if cur == pos {
        proof {
            assert(digit_prefix(su).len() == 0);
        }
        return None;
    }
    proof {
        assert(su.skip(cur - pos) =~= s@.skip(cur as int));
    }
    Some((acc as u32, cur))
}

/// Decodes a canonical envelope frame; the whole input must be one frame.
pub fn decode_envelope(s: &Vec<u8>) -> (r: Option<MqMessage>)
    ensures
        match r {
            Some(m) => spec_decode(s@) == Some(m@),
            None => spec_decode(s@) is None,
        },
{
    proof {
        assert(s@.skip(0) =~= s@);
    }
    let head = lit_head_vec();
    let mid1 = lit_mid1_vec();
    let mid2 = lit_mid2_vec();
    let mid3 = lit_mid3_vec();

    let p1 = match eat_lit(s, 0, &head) {
        Some(p) => p,
        None => {
            return None;
        },
    };
    let (guid, p2) = match parse_string_exec(s, p1) {
        Some(x) => x,
        None => {
            return None;
        },
    };
    let ghost gmid1rest = lit_mid1().skip(1);
    let mut mid1rest = mid1;
    mid1rest.remove(0);
    proof {
        assert(mid1rest@ =~= gmid1rest);
    }
    let p3 = match eat_lit(s, p2, &mid1rest) {
        Some(p) => p,
        None => {
            return None;
        },
    };
    let (timespan, p4) = match parse_string_exec(s, p3) {
        Some(x) => x,
        None => {
            return None;
        },
    };
    let mut mid2rest = mid2;
    mid2rest.remove(0);
    proof {
        assert(mid2rest@ =~= lit_mid2().skip(1));
    }
    let p5 = match eat_lit(s, p4, &mid2rest) {
        Some(p) => p,
        None => {
            return None;
        },
    };
    let (retry, p6) = match parse_u32_exec(s, p5) {
        Some(x) => x,
        None => {
            return None;
        },
    };
    let p7 = match eat_lit(s, p6, &mid3) {
        Some(p) => p,
        None => {
            return None;
        },
    };
    let (content, p8) = match parse_string_exec(s, p7) {
        Some(x) => x,
        None => {
            return None;
        },
    };
    if s.len() - p8 == 1 && s[p8] == 0x7d {
        proof {
            assert(s@.skip(p8 as int) =~= seq![0x7du8]);
        }
        Some(MqMessage { guid, timespan, current_retry: retry, json_content: content })
    } else {
        proof {
            if s@.skip(p8 as int).len() == 1 {
                assert(s@.skip(p8 as int)[0] == s@[p8 as int]);
                assert(s@.skip(p8 as int) != seq![0x7du8]);
            } else {
                assert(s@.skip(p8 as int).len() != 1);
                assert(s@.skip(p8 as int) != seq![0x7du8]);
            }
        }
        None
    }
}

/// Escaping distributes over appending one byte.
pub proof fn lemma_escape_snoc(s: Seq<u8>, b: u8)
    ensures
        escape_bytes(s.push(b)) == escape_bytes(s) + escape_byte(b),
    decreases s.len(),
{
    if s.len() == 0 {
        assert(s.push(b)[0] == b);
        assert(s.push(b).skip(1) =~= Seq::<u8>::empty());
        assert(escape_bytes(Seq::<u8>::empty()) =~= Seq::<u8>::empty());
        assert(escape_bytes(s.push(b)) == escape_byte(b) + escape_bytes(s.push(b).skip(1)));
        assert(escape_bytes(s.push(b)) =~= escape_byte(b));
        assert(escape_bytes(s) + escape_byte(b) =~= escape_byte(b));
    } else {
        lemma_escape_snoc(s.skip(1), b);
        assert(s.push(b).skip(1) =~= s.skip(1).push(b));
        assert(s.push(b)[0] == s[0]);
        assert(escape_bytes(s) + escape_byte(b) =~= escape_byte(s[0]) + (escape_bytes(s.skip(1))
            + escape_byte(b)));
    }
}

/// Parsing a string literal undoes escaping: the escaped bytes followed by
/// a closing quote parse back to the original bytes, leaving the rest.
pub proof fn lemma_parse_escaped(v: Seq<u8>, rest: Seq<u8>)
    ensures
        parse_string(escape_bytes(v) + seq![Q] + rest) == Some((v, rest)),
    decreases v.len(),
{
    let s = escape_bytes(v) + seq![Q] + rest;
    if v.len() == 0 {
        assert(escape_bytes(v) =~= Seq::<u8>::empty());
        assert(s =~= seq![Q] + rest);
        assert(s[0] == Q);
        assert(s.skip(1) =~= rest);
    } else {
        let b = v[0];
        let v1 = v.skip(1);
        lemma_parse_escaped(v1, rest);
        assert(escape_bytes(v) == escape_byte(b) + escape_bytes(v1));
        let tail = escape_bytes(v1) + seq![Q] + rest;
        assert(s =~= escape_byte(b) + tail);
        assert(seq![b] + v1 =~= v);
        if b == Q || b == BS {
            assert(s[0] == BS && s[1] == b);
            assert(s.len() >= 2);
            assert(s.skip(2) =~= tail);
        } else if b < 0x20 {
            assert(s[0] == BS && s[1] == 0x75 && s[2] == 0x30 && s[3] == 0x30);
            assert(s[4] == hex_digit(b / 16) && s[5] == hex_digit(b % 16));
            assert(b / 16 < 2 && b % 16 < 16);
            assert(hex_val(hex_digit(b / 16)) == b / 16);
            assert(hex_val(hex_digit(b % 16)) == b % 16);
            assert(s[2] == 0x30) by {
                assert(hex_digit(b / 16) != Q && hex_digit(b / 16) != BS);
            }
            assert(s.skip(6) =~= tail);
            assert((hex_val(s[4]) * 16 + hex_val(s[5])) as u8 == b) by {
                assert((b / 16) * 16 + b % 16 == b) by (nonlinear_arith);
            }
        } else {
            assert(s[0] == b && b != Q && b != BS && b >= 0x20);
            assert(s.skip(1) =~= tail);
        }
    }
}

/// The decimal digits of a number are digit bytes, and there is at least
/// one of them.
pub proof fn lemma_dec_digits_are_digits(n: nat)
    ensures
        dec_digits(n).len() >= 1,
        forall|i: int| 0 <= i < dec_digits(n).len() ==> is_digit(#[trigger] dec_digits(n)[i]),
    decreases n,
{
    if n >= 10 {
        lemma_dec_digits_are_digits(n / 10);
        let d = dec_digits(n);
        let d0 = dec_digits(n / 10);
        assert forall|i: int| 0 <= i < d.len() implies is_digit(#[trigger] d[i]) by {
            if i < d0.len() {
                assert(d[i] == d0[i]);
            }
        }
    }
}

/// The digit prefix of digits followed by a non-digit is exactly those
/// digits.
pub proof fn lemma_digit_prefix_of(d: Seq<u8>, rest: Seq<u8>)
    requires
        forall|i: int| 0 <= i < d.len() ==> is_digit(#[trigger] d[i]),
        rest.len() == 0 || !is_digit(rest[0]),
    ensures
        digit_prefix(d + rest) == d,
    decreases d.len(),
{
    if d.len() == 0 {
        assert(d + rest =~= rest);
        assert(digit_prefix(rest) =~= Seq::<u8>::empty());
        assert(d =~= Seq::<u8>::empty());
    } else {
        lemma_digit_prefix_of(d.skip(1), rest);
        assert((d + rest)[0] == d[0]);
        assert((d + rest).skip(1) =~= d.skip(1) + rest);
        assert(seq![d[0]] + d.skip(1) =~= d);
    }
}

/// Reading the decimal digits of `n` gives `n` back.
pub proof fn lemma_digits_val_dec(n: nat)
    ensures
        digits_val(dec_digits(n)) == n,
    decreases n,
{
    if n < 10 {
        let d = dec_digits(n);
        assert(d == seq![(0x30 + n) as u8]);
        assert(d.drop_last() =~= Seq::<u8>::empty());
        assert(digits_val(Seq::<u8>::empty()) == 0);
        assert(d.last() == (0x30 + n) as u8);
        assert(digits_val(d) == digits_val(d.drop_last()) * 10 + (d.last() - 0x30) as nat);
    } else {
        lemma_digits_val_dec(n / 10);
        let d = dec_digits(n);
        assert(d.drop_last() =~= dec_digits(n / 10));
        assert(d.last() == (0x30 + n % 10) as u8);
        assert((n / 10) * 10 + n % 10 == n) by (nonlinear_arith);
    }
}

/// Reading a decimal number back from its digits followed by a non-digit.
pub proof fn lemma_parse_u32_dec(n: u32, rest: Seq<u8>)
    requires
        rest.len() == 0 || !is_digit(rest[0]),
    ensures
        parse_u32(dec_digits(n as nat) + rest) == Some((n, rest)),
{
    lemma_dec_digits_are_digits(n as nat);
    lemma_digit_prefix_of(dec_digits(n as nat), rest);
    lemma_digits_val_dec(n as nat);
    assert((dec_digits(n as nat) + rest).skip(dec_digits(n as nat).len() as int) =~= rest);
}

/// Stripping a literal it starts with leaves the rest.
pub proof fn lemma_strip_lit(lit: Seq<u8>, rest: Seq<u8>)
    ensures
        strip_lit(lit + rest, lit) == Some(rest),
{
    assert((lit + rest).subrange(0, lit.len() as int) =~= lit);
    assert((lit + rest).skip(lit.len() as int) =~= rest);
}

/// Decoding an encoded envelope gives the envelope back.
#[verifier::rlimit(100)]
pub proof fn lemma_decode_encode(m: MsgModel)
    ensures
        spec_decode(spec_encode(m)) == Some(m),
{
    let e1 = escape_bytes(m.guid);
    let e2 = escape_bytes(m.timespan);
    let dd = dec_digits(m.current_retry as nat);
    let e3 = escape_bytes(m.json_content);
    let s = spec_encode(m);

    let r1 = e1 + lit_mid1() + e2 + lit_mid2() + dd + lit_mid3() + e3 + lit_tail();
    assert(s =~= lit_head() + r1);
    lemma_strip_lit(lit_head(), r1);

    let r2 = lit_mid1().skip(1) + e2 + lit_mid2() + dd + lit_mid3() + e3 + lit_tail();
    assert(r1 =~= e1 + seq![Q] + r2);
    lemma_parse_escaped(m.guid, r2);

    let r3 = e2 + lit_mid2() + dd + lit_mid3() + e3 + lit_tail();
    assert(r2 =~= lit_mid1().skip(1) + r3);
    lemma_strip_lit(lit_mid1().skip(1), r3);

    let r4 = lit_mid2().skip(1) + dd + lit_mid3() + e3 + lit_tail();
    assert(r3 =~= e2 + seq![Q] + r4);
    lemma_parse_escaped(m.timespan, r4);

    let r5 = dd + lit_mid3() + e3 + lit_tail();
    assert(r4 =~= lit_mid2().skip(1) + r5);
    lemma_strip_lit(lit_mid2().skip(1), r5);

    let r6 = lit_mid3() + e3 + lit_tail();
    assert(!is_digit(r6[0]));
    assert(r5 =~= dd + r6);
    lemma_parse_u32_dec(m.current_retry, r6);

    let r7 = e3 + lit_tail();
    assert(r6 =~= lit_mid3() + r7);
    lemma_strip_lit(lit_mid3(), r7);

    let r8 = seq![0x7du8];
    assert(r7 =~= e3 + seq![Q] + r8);
    lemma_parse_escaped(m.json_content, r8);

    assert(spec_decode(s) == Some(
        MsgModel {
            guid: m.guid,
            timespan: m.timespan,
            current_retry: m.current_retry,
            json_content: m.json_content,
        },
    ));
    assert(MsgModel {
        guid: m.guid,
        timespan: m.timespan,
        current_retry: m.current_retry,
        json_content: m.json_content,
    } == m);
}

} // verus!

//! Topic names of the publish/subscribe protocol: building the request and
//! telemetry topics, and routing inbound topics.

use vstd::prelude::*;

verus! {

/// Topic on which device state is published.
pub const TELEMETRY_TOPIC: &'static str = "v1/devices/me/telemetry";

/// Body of a shared-attribute request naming the five descriptor keys.
pub const FIRMWARE_INFO_REQUEST_BODY: &'static str =
    "{\"sharedKeys\":\"fw_title,fw_version,fw_size,fw_checksum,fw_checksum_algorithm\"}";

/// The character of a decimal digit.
pub open spec fn digit_char(d: nat) -> char {
    if d == 0 { '0' }
    else if d == 1 { '1' }
    else if d == 2 { '2' }
    else if d == 3 { '3' }
    else if d == 4 { '4' }
    else if d == 5 { '5' }
    else if d == 6 { '6' }
    else if d == 7 { '7' }
    else if d == 8 { '8' }
    else { '9' }
}

/// Decimal text of `n`, without leading zeros ("0" for zero).
pub open spec fn decimal_chars(n: nat) -> Seq<char>
    decreases n,
{
    if n < 10 {
        seq![digit_char(n)]
    } else {
        decimal_chars(n / 10).push(digit_char(n % 10))
    }
}

/// Topic of the `id`-th shared-attribute request.
pub open spec fn attribute_request_topic_of(id: u32) -> Seq<char> {
    "v1/devices/me/attributes/request/"@ + decimal_chars(id as nat)
}

/// Topic that requests chunk `index` of firmware session `session`.
pub open spec fn chunk_request_topic_of(session: u32, index: u32) -> Seq<char> {
    "v2/fw/request/"@ + decimal_chars(session as nat) + "/chunk/"@ + decimal_chars(index as nat)
}

fn digit_str(d: u32) -> (r: &'static str)
    requires
        d < 10,
    ensures
        r@ == seq![digit_char(d as nat)],
{
    proof {
        reveal_strlit("0");
        reveal_strlit("1");
        reveal_strlit("2");
        reveal_strlit("3");
        reveal_strlit("4");
        reveal_strlit("5");
        reveal_strlit("6");
        reveal_strlit("7");
        reveal_strlit("8");
        reveal_strlit("9");
    }
    if d == 0 { "0" }
    else if d == 1 { "1" }
    else if d == 2 { "2" }
    else if d == 3 { "3" }
    else if d == 4 { "4" }
    else if d == 5 { "5" }
    else if d == 6 { "6" }
    else if d == 7 { "7" }
    else if d == 8 { "8" }
    else { "9" }
}

/// Appends the decimal text of `n` to `s`.
pub fn append_decimal(s: &mut String, n: u32)
    ensures
        final(s)@ == old(s)@ + decimal_chars(n as nat),
    decreases n,
{
    if n >= 10 {
        append_decimal(s, n / 10);
    }
    s.append(digit_str(n % 10));
}

/// Decimal text of `n`.
pub fn decimal_text(n: u32) -> (r: String)
    ensures
        r@ == decimal_chars(n as nat),
{
    let mut s = String::new();
    append_decimal(&mut s, n);
    assert(s@ =~= decimal_chars(n as nat));
    s
}

/// Topic of the `id`-th shared-attribute request.
pub fn attribute_request_topic(id: u32) -> (r: String)
    ensures
        r@ == attribute_request_topic_of(id),
{
    let mut s = String::from_str("v1/devices/me/attributes/request/");
    append_decimal(&mut s, id);
    s
}

/// Topic that requests chunk `index` of firmware session `session`.
pub fn chunk_request_topic(session: u32, index: u32) -> (r: String)
    ensures
        r@ == chunk_request_topic_of(session, index),
{
    let mut s = String::from_str("v2/fw/request/");
    append_decimal(&mut s, session);
    s.append("/chunk/");
    append_decimal(&mut s, index);
    s
}

/// Where an inbound message goes, by its topic.
#[derive(PartialEq, Eq, Structural, Clone, Copy, Debug)]
pub enum Inbound {
    /// A response to a shared-attribute request.
    AttributesResponse,
    /// A firmware chunk of some session.
    FirmwareChunk { session: u32, index: u32 },
    /// A firmware response topic whose session or chunk index does not parse.
    Malformed,
    /// Any other topic.
    Unrelated,
}

/// Bytes of "v1/devices/me/attributes/response/".
pub open spec fn attributes_response_prefix() -> Seq<u8> {
    seq![
        118u8, 49u8, 47u8, 100u8, 101u8, 118u8, 105u8, 99u8, 101u8, 115u8, 47u8, 109u8, 101u8, 47u8,
        97u8, 116u8, 116u8, 114u8, 105u8, 98u8, 117u8, 116u8, 101u8, 115u8, 47u8,
        114u8, 101u8, 115u8, 112u8, 111u8, 110u8, 115u8, 101u8, 47u8,
    ]
}

/// Bytes of "v2/fw/response/".
pub open spec fn firmware_response_prefix() -> Seq<u8> {
    seq![118u8, 50u8, 47u8, 102u8, 119u8, 47u8, 114u8, 101u8, 115u8, 112u8, 111u8, 110u8, 115u8, 101u8, 47u8]
}

/// Bytes of "/chunk/".
pub open spec fn chunk_infix() -> Seq<u8> {
    seq![47u8, 99u8, 104u8, 117u8, 110u8, 107u8, 47u8]
}

pub open spec fn starts_with(s: Seq<u8>, p: Seq<u8>) -> bool {
    p.len() <= s.len() && s.take(p.len() as int) == p
}

pub open spec fn is_digit(b: u8) -> bool {
    48 <= b && b <= 57
}

/// Value of a run of decimal digits.
pub open spec fn digits_value(s: Seq<u8>) -> nat
    decreases s.len(),
{
    if s.len() == 0 {
        0
    } else {
        digits_value(s.drop_last()) * 10 + (s.last() - 48) as nat
    }
}

/// Length of the run of decimal digits at the start of `s`.
pub open spec fn leading_digits(s: Seq<u8>) -> nat
    decreases s.len(),
{
    if s.len() > 0 && is_digit(s[0]) {
        1 + leading_digits(s.drop_first())
    } else {
        0
    }
}

/// The number that `s` spells in decimal, if it is a non-empty run of
/// digits whose value fits in 32 bits.
pub open spec fn decimal_u32(s: Seq<u8>) -> Option<u32> {
    if s.len() > 0 && (forall|i: int| 0 <= i < s.len() ==> is_digit(#[trigger] s[i]))
        && digits_value(s) <= u32::MAX {
        Some(digits_value(s) as u32)
    } else {
        None
    }
}

/// Routing of an inbound topic: attribute responses by prefix, firmware
/// chunks by `v2/fw/response/<session>/chunk/<index>`.
pub open spec fn route_of(t: Seq<u8>) -> Inbound {
    if starts_with(t, attributes_response_prefix()) {
        Inbound::AttributesResponse
    } else if starts_with(t, firmware_response_prefix()) {
        let rest = t.skip(firmware_response_prefix().len() as int);
        let k = leading_digits(rest) as int;
        let after = rest.skip(k);
        if starts_with(after, chunk_infix()) {
            match (decimal_u32(rest.take(k)), decimal_u32(after.skip(chunk_infix().len() as int))) {
                (Some(session), Some(index)) => Inbound::FirmwareChunk { session, index },
                _ => Inbound::Malformed,
            }
        } else {
            Inbound::Malformed
        }
    } else {
        Inbound::Unrelated
    }
}

fn starts_with_at(t: &[u8], start: usize, p: &[u8]) -> (r: bool)
    requires
        start <= t@.len(),
    ensures
        r == starts_with(t@.skip(start as int), p@),
{
    if t.len() - start < p.len() {
        return false;
    }
    let mut i: usize = 0;
    while i < p.len()
        invariant
            start + p@.len() <= t@.len(),
            t@.len() <= usize::MAX,
            i <= p@.len(),
            forall|j: int| 0 <= j < i ==> t@[start + j] == p@[j],
        decreases p@.len() - i,
    {
        if t[start + i] != p[i] {
            assert(t@.skip(start as int).take(p@.len() as int)[i as int] != p@[i as int]);
            return false;
        }
        i = i + 1;
    }
    assert(t@.skip(start as int).take(p@.len() as int) =~= p@);
    true
}

fn leading_digits_at(t: &[u8], start: usize) -> (r: usize)
    requires
        start <= t@.len(),
    ensures
        start + r <= t@.len(),
        r == leading_digits(t@.skip(start as int)),
{
    let mut i: usize = start;
    while i < t.len() && 48 <= t[i] && t[i] <= 57
        invariant
            start <= i <= t@.len(),
            forall|j: int| start <= j < i ==> is_digit(#[trigger] t@[j]),
            leading_digits(t@.skip(start as int)) == (i - start) + leading_digits(t@.skip(i as int)),
        decreases t@.len() - i,
    {
        assert(t@.skip(i as int).drop_first() =~= t@.skip(i + 1));
        i = i + 1;
    }
    i - start
}

/// Parses `t[start..end]` as a decimal number that fits in 32 bits.
fn parse_u32(t: &[u8], start: usize, end: usize) -> (r: Option<u32>)
    requires
        start <= end <= t@.len(),
    ensures
        r == decimal_u32(t@.subrange(start as int, end as int)),
{
    let ghost s = t@.subrange(start as int, end as int);
    if start == end {
        return None;
    }
    let mut value: u64 = 0;
    let mut i: usize = start;
    while i < end
        invariant
            start <= i <= end <= t@.len(),
            s == t@.subrange(start as int, end as int),
            forall|j: int| start <= j < i ==> is_digit(#[trigger] t@[j]),
            value == digits_value(t@.subrange(start as int, i as int)),
            value <= u32::MAX,
        decreases end - i,
    {
        let b = t[i];
        if b < 48 || b > 57 {
            assert(!is_digit(s[i - start]));
            return None;
        }
        let ghost prev = t@.subrange(start as int, i as int);
        assert(t@.subrange(start as int, i + 1).drop_last() =~= prev);
        value = value * 10 + (b - 48) as u64;
        if value > 0xffff_ffff {
            proof {
                assert(s.take((i + 1 - start) as int) =~= t@.subrange(start as int, i + 1));
                if forall|j: int| 0 <= j < s.len() ==> is_digit(#[trigger] s[j]) {
                    lemma_digits_value_monotone(s, (i + 1 - start) as int);
                }
            }
            return None;
        }
        i = i + 1;
    }
    assert(t@.subrange(start as int, i as int) =~= s);
    Some(value as u32)
}

proof fn lemma_digits_value_monotone(s: Seq<u8>, k: int)
    requires
        0 <= k <= s.len(),
        forall|i: int| 0 <= i < s.len() ==> is_digit(#[trigger] s[i]),
    ensures
        digits_value(s.take(k)) <= digits_value(s),
    decreases s.len(),
{
    if k < s.len() {
        assert(s.drop_last().take(k) =~= s.take(k));
        assert forall|i: int| 0 <= i < s.drop_last().len() implies is_digit(#[trigger] s.drop_last()[i]) by {
            assert(s.drop_last()[i] == s[i]);
        }
        lemma_digits_value_monotone(s.drop_last(), k);
    } else {
        assert(s.take(k) =~= s);
    }
}

/// Routes an inbound message by its topic.
pub fn route(topic: &[u8]) -> (r: Inbound)
    ensures
        r == route_of(topic@),
{
    let attributes_response: [u8; 34] = [
        118u8, 49u8, 47u8, 100u8, 101u8, 118u8, 105u8, 99u8, 101u8, 115u8, 47u8, 109u8, 101u8, 47u8,
        97u8, 116u8, 116u8, 114u8, 105u8, 98u8, 117u8, 116u8, 101u8, 115u8, 47u8,
        114u8, 101u8, 115u8, 112u8, 111u8, 110u8, 115u8, 101u8, 47u8,
    ];
    let firmware_response: [u8; 15] = [
        118u8, 50u8, 47u8, 102u8, 119u8, 47u8, 114u8, 101u8, 115u8, 112u8, 111u8, 110u8, 115u8, 101u8, 47u8,
    ];
    let infix: [u8; 7] = [47u8, 99u8, 104u8, 117u8, 110u8, 107u8, 47u8];
    assert(attributes_response@ =~= attributes_response_prefix());
    assert(firmware_response@ =~= firmware_response_prefix());
    assert(infix@ =~= chunk_infix());
    assert(topic@.skip(0) =~= topic@);
    if starts_with_at(topic, 0, attributes_response.as_slice()) {
        return Inbound::AttributesResponse;
    }
    if !starts_with_at(topic, 0, firmware_response.as_slice()) {
        return Inbound::Unrelated;
    }
    let n = topic.len();
    let ghost rest = topic@.skip(15);
    let k = leading_digits_at(topic, 15);
    assert(topic@.skip(15 + k) =~= rest.skip(k as int));
    if !starts_with_at(topic, 15 + k, infix.as_slice()) {
        return Inbound::Malformed;
    }
    assert(rest.take(k as int) =~= topic@.subrange(15, 15 + k));
    assert(rest.skip(k as int).skip(7) =~= topic@.subrange(15 + k + 7, topic@.len() as int));
    let session = parse_u32(topic, 15, 15 + k);
    let index = parse_u32(topic, 15 + k + 7, n);
    match (session, index) {
        (Some(session), Some(index)) => Inbound::FirmwareChunk { session, index },
        _ => Inbound::Malformed,
    }
}

} // verus!

//! `struct watchdog_info`: what a driver says about itself.
use vstd::prelude::*;
use vstd::slice::slice_subrange;
use vstd::utf8::*;

use crate::foreign::utf8_text;

verus! {

/// The reply to `WDIOC_GETSUPPORT`, field by field as in `<uapi/linux/watchdog.h>`.
#[derive(Clone, Copy, Debug)]
pub struct WatchdogInfo {
    pub options: u32,
    pub firmware_version: u32,
    pub identity: [u8; 32],
}

impl Default for WatchdogInfo {
    fn default() -> (r: WatchdogInfo)
        ensures
            r.options == 0,
            r.firmware_version == 0,
            forall|i: int| 0 <= i < 32 ==> r.identity@[i] == 0,
    {
        WatchdogInfo { options: 0, firmware_version: 0, identity: [0u8; 32] }
    }
}

/// The position of the first zero byte.
pub open spec fn is_first_zero(bytes: Seq<u8>, end: int) -> bool {
    &&& 0 <= end < bytes.len()
    &&& bytes[end] == 0
    &&& forall|i: int| 0 <= i < end ==> bytes[i] != 0
}

/// The text of a zero-terminated identity: the characters in front of the first zero byte.
/// Bytes that no zero terminates, or that are not UTF-8, have the empty text.
pub open spec fn identity_text(bytes: Seq<u8>) -> Seq<char> {
    if exists|end: int| is_first_zero(bytes, end) {
        let end = choose|end: int| is_first_zero(bytes, end);
        if valid_utf8(bytes.take(end)) {
            decode_utf8(bytes.take(end))
        } else {
            Seq::empty()
        }
    } else {
        Seq::empty()
    }
}

/// The identity that `info` carries.
pub fn identity_str(info: &WatchdogInfo) -> (r: &str)
    ensures
        r@ == identity_text(info.identity@),
{
    let bytes: &[u8] = vstd::array::array_as_slice(&info.identity);
    proof {
        reveal_strlit("");
        assert(""@ =~= Seq::<char>::empty());
    }
    let mut end: usize = 0;
    while end < bytes.len()
        invariant
            bytes@ == info.identity@,
            end <= bytes@.len(),
            ""@ == Seq::<char>::empty(),
            forall|i: int| 0 <= i < end ==> bytes@[i] != 0,
        decreases bytes@.len() - end,
    {
        if bytes[end] == 0 {
            assert(is_first_zero(info.identity@, end as int));
            assert(bytes@.subrange(0, end as int) =~= info.identity@.take(end as int));
            return match utf8_text(slice_subrange(bytes, 0, end)) {
                Some(text) => text,
                None => "",
            };
        }
        end += 1;
    }
    ""
}

proof fn char_has_no_zero_byte(ch: char)
    requires
        ch != '\0',
    ensures
        !encode_scalar(ch as u32).contains(0u8),
{
    let c = ch as u32;
    assert(has_width_1_encoding(c) && c != 0 ==> leading_byte_width_1(c) != 0) by (bit_vector);
    assert(leading_byte_width_2(c) != 0 && leading_byte_width_3(c) != 0 && leading_byte_width_4(c)
        != 0) by (bit_vector);
    assert(last_continuation_byte(c) != 0 && second_last_continuation_byte(c) != 0
        && third_last_continuation_byte(c) != 0) by (bit_vector);
}

proof fn text_has_no_zero_byte(s: Seq<char>)
    requires
        !s.contains('\0'),
    ensures
        !encode_utf8(s).contains(0u8),
    decreases s.len(),
{
    if s.len() > 0 {
        let head = encode_scalar(s[0] as u32);
        let tail = encode_utf8(s.drop_first());
        assert(s.contains(s[0]));
        char_has_no_zero_byte(s[0]);
        assert(!s.drop_first().contains('\0')) by {
            if s.drop_first().contains('\0') {
                let i = choose|i: int|
                    0 <= i < s.drop_first().len() && s.drop_first()[i] == '\0';
                assert(s[i + 1] == '\0');
            }
        }
        text_has_no_zero_byte(s.drop_first());
        assert forall|i: int| 0 <= i < (head + tail).len() implies (head + tail)[i] != 0u8 by {
            if i < head.len() {
                assert(head.contains(head[i]));
            } else {
                assert(tail.contains(tail[i - head.len()]));
            }
        }
    }
}

/// A driver's name comes back as it was stored: any text without a zero character, encoded in
/// UTF-8 and followed by at least one zero byte, is read back whole, whatever stands behind.
pub proof fn stored_identity_is_read_back(name: Seq<char>, rest: Seq<u8>)
    requires
        !name.contains('\0'),
    ensures
        identity_text(encode_utf8(name).push(0) + rest) == name,
{
    let code = encode_utf8(name);
    let bytes = code.push(0) + rest;
    text_has_no_zero_byte(name);
    assert forall|i: int| 0 <= i < code.len() implies bytes[i] != 0 by {
        assert(code.contains(code[i]));
        assert(bytes[i] == code[i]);
    }
    assert(is_first_zero(bytes, code.len() as int));
    let end = choose|end: int| is_first_zero(bytes, end);
    assert(end == code.len());
    assert(bytes.take(end) =~= code);
    encode_utf8_valid_utf8(name);
    encode_utf8_decode_utf8(name);
}

/// Bit `n` of a bitmap.
pub open spec fn bit(bitmap: u32, n: u32) -> bool {
    (bitmap >> n) & 1 == 1
}

/// The bits of `required` that `info` does not advertise.
pub open spec fn missing_options(info: WatchdogInfo, required: u32) -> u32 {
    required & !info.options
}

proof fn set_bit_from(bitmap: u32, n: u32) -> (r: u32)
    requires
        n < 32,
        bitmap >> n != 0,
    ensures
        r < 32,
        bit(bitmap, r),
    decreases 32 - n,
{
    if (bitmap >> n) & 1 == 1 {
        n
    } else {
        assert(n < 32 && bitmap >> n != 0 && (bitmap >> n) & 1 != 1 ==> n < 31 && bitmap >> ((n
            + 1) as u32) != 0) by (bit_vector);
        set_bit_from(bitmap, (n + 1) as u32)
    }
}

/// The missing options are the required bits that the driver does not advertise, bit by bit; so
/// none is missing exactly when every required bit is advertised.
pub proof fn missing_options_are_required_and_not_advertised(info: WatchdogInfo, required: u32)
    ensures
        forall|n: u32|
            n < 32 ==> (#[trigger] bit(missing_options(info, required), n) <==> bit(required, n)
                && !bit(info.options, n)),
        missing_options(info, required) == 0 <==> forall|n: u32|
            n < 32 && #[trigger] bit(required, n) ==> bit(info.options, n),
{
    let options = info.options;
    let missing = required & !options;
    assert forall|n: u32| n < 32 implies (#[trigger] bit(missing, n) <==> bit(required, n) && !bit(
        options,
        n,
    )) by {
        assert(n < 32 ==> (((required & !options) >> n) & 1 == 1 <==> (required >> n) & 1 == 1 && !(
        (options >> n) & 1 == 1))) by (bit_vector);
    }
    if missing == 0 {
        assert forall|n: u32| n < 32 && #[trigger] bit(required, n) implies bit(options, n) by {
            assert(!bit(missing, n)) by {
                assert((0u32 >> n) & 1 == 0) by (bit_vector);
            }
        }
    } else {
        assert(missing >> 0u32 == missing) by (bit_vector);
        let n = set_bit_from(missing, 0);
        assert(bit(required, n) && !bit(options, n));
    }
}

/// Only what stands before the first zero byte makes the identity.
pub proof fn what_follows_the_zero_does_not_count(
    name: Seq<u8>,
    one: Seq<u8>,
    another: Seq<u8>,
)
    requires
        !name.contains(0u8),
    ensures
        identity_text(name.push(0) + one) == identity_text(name.push(0) + another),
        valid_utf8(name) ==> identity_text(name.push(0) + one) == decode_utf8(name),
        !valid_utf8(name) ==> identity_text(name.push(0) + one) == Seq::<char>::empty(),
{
    first_zero_behind(name, one);
    first_zero_behind(name, another);
}

proof fn first_zero_behind(name: Seq<u8>, rest: Seq<u8>)
    requires
        !name.contains(0u8),
    ensures
        ({
            let bytes = name.push(0) + rest;
            let end = choose|end: int| is_first_zero(bytes, end);
            &&& is_first_zero(bytes, end)
            &&& bytes.take(end) == name
        }),
{
    let bytes = name.push(0) + rest;
    assert forall|i: int| 0 <= i < name.len() implies bytes[i] != 0 by {
        assert(name.contains(name[i]));
        assert(bytes[i] == name[i]);
    }
    assert(is_first_zero(bytes, name.len() as int));
    let end = choose|end: int| is_first_zero(bytes, end);
    assert(end == name.len());
    assert(bytes.take(end) =~= name);
}

/// Bytes that no zero ends are no identity.
pub proof fn an_identity_without_an_end_is_empty(bytes: Seq<u8>)
    requires
        !bytes.contains(0u8),
    ensures
        identity_text(bytes) == Seq::<char>::empty(),
{
    if exists|end: int| is_first_zero(bytes, end) {
        let end = choose|end: int| is_first_zero(bytes, end);
        assert(bytes.contains(bytes[end]));
    }
}

} // verus!

//! Announcement extraction: recognising a provider's `host:port` rendezvous
//! address inside a data-carrier locking script.
//!
//! A script qualifies only if it begins with the data-carrier opcode and the
//! remainder is one of three push encodings: a direct push (length byte 1-75),
//! a one-byte length push, or a two-byte little-endian length push. The pushed
//! bytes must decode as UTF-8 text of the form `host:port` with a non-empty
//! host and a positive 16-bit port.

use vstd::prelude::*;
use vstd::slice::{slice_index_get, slice_subrange};
use vstd::utf8::{
    decode_utf8, encode_utf8, encode_utf8_decode_utf8, encode_utf8_valid_utf8, valid_utf8,
};

verus! {

/// The data-carrier opcode that opens every announcement script.
pub const DATA_CARRIER_OPCODE: u8 = 0x6a;

/// True when the character is a decimal digit.
pub open spec fn is_digit_char(c: char) -> bool {
    48 <= c as u32 && c as u32 <= 57
}

/// The numeric value of a decimal digit character.
pub open spec fn digit_value(c: char) -> int {
    c as u32 - 48
}

/// True when every character of the sequence is a decimal digit.
pub open spec fn all_digits(s: Seq<char>) -> bool {
    forall|i: int| 0 <= i < s.len() ==> is_digit_char(#[trigger] s[i])
}

/// The numeric value of a sequence of decimal digits.
pub open spec fn digits_val(s: Seq<char>) -> int
    decreases s.len(),
{
    if s.len() == 0 {
        0
    } else {
        digits_val(s.drop_last()) * 10 + digit_value(s.last())
    }
}

/// True when the sequence is a decimal port number between 1 and 65535.
pub open spec fn valid_port(s: Seq<char>) -> bool {
    &&& s.len() > 0
    &&& all_digits(s)
    &&& 0 < digits_val(s)
    &&& digits_val(s) <= 65535
}

/// True when position `i` holds the only colon of `s`, with a non-empty host
/// before it and a valid port after it.
pub open spec fn addr_split_at(s: Seq<char>, i: int) -> bool {
    &&& 0 < i < s.len()
    &&& s[i] == ':'
    &&& forall|j: int| 0 <= j < s.len() && j != i ==> #[trigger] s[j] != ':'
    &&& valid_port(s.subrange(i + 1, s.len() as int))
}

/// A well-formed `host:port` provider address: exactly one colon, a
/// non-empty host, and a positive 16-bit port.
pub open spec fn valid_provider_addr(s: Seq<char>) -> bool {
    exists|i: int| addr_split_at(s, i)
}

/// True when the six characters before position `i` read ".onion".
pub open spec fn onion_suffix_at(s: Seq<char>, i: int) -> bool {
    6 <= i <= s.len() && s.subrange(i - 6, i) == ".onion"@
}

/// A well-formed provider address whose host ends in ".onion".
pub open spec fn valid_onion_addr(s: Seq<char>) -> bool {
    exists|i: int| addr_split_at(s, i) && onion_suffix_at(s, i)
}

/// The value of a digit sequence is never negative.
proof fn lemma_digits_val_nonneg(s: Seq<char>)
    requires
        all_digits(s),
    ensures
        digits_val(s) >= 0,
    decreases s.len(),
{
    if s.len() > 0 {
        assert(all_digits(s.drop_last()));
        lemma_digits_val_nonneg(s.drop_last());
    }
}

/// Appending digits never lowers the value of a digit sequence.
proof fn lemma_digits_val_prefix_bound(s: Seq<char>, k: int)
    requires
        all_digits(s),
        0 <= k <= s.len(),
    ensures
        digits_val(s) >= digits_val(s.subrange(0, k)),
    decreases s.len() - k,
{
    if k == s.len() {
        assert(s.subrange(0, k) =~= s);
    } else {
        let shorter = s.subrange(0, k);
        let longer = s.subrange(0, k + 1);
        assert(longer.drop_last() =~= shorter);
        assert(all_digits(shorter));
        lemma_digits_val_nonneg(shorter);
        assert(digits_val(longer) == digits_val(shorter) * 10 + digit_value(s[k]));
        lemma_digits_val_prefix_bound(s, k + 1);
    }
}

/// Finds the position of the colon when the string holds exactly one and
/// returns nothing otherwise; with no single colon, no split is well formed.
fn find_single_colon(s: &str) -> (r: Option<usize>)
    ensures
        s@.len() <= usize::MAX,
        r matches Some(i) ==> i < s@.len() && s@[i as int] == ':' && (forall|j: int|
            0 <= j < s@.len() && j != i ==> #[trigger] s@[j] != ':'),
        r is None ==> !valid_provider_addr(s@) && !valid_onion_addr(s@),
{
    let n = s.unicode_len();
    let mut i: usize = 0;
    let mut colon: usize = 0;
    let mut found = false;
    while i < n
        invariant
            i <= n,
            n == s@.len(),
            found ==> colon < i && s@[colon as int] == ':' && (forall|j: int|
                0 <= j < i && j != colon ==> #[trigger] s@[j] != ':'),
            !found ==> forall|j: int| 0 <= j < i ==> #[trigger] s@[j] != ':',
        decreases n - i,
    {
        let c = s.get_char(i);
        if c == ':' {
            if found {
                proof {
                    assert forall|k: int| !addr_split_at(s@, k) by {
                        if addr_split_at(s@, k) {
                            if k != colon {
                                assert(s@[colon as int] != ':');
                            } else {
                                assert(s@[i as int] != ':');
                            }
                        }
                    }
                }
                return None;
            }
            colon = i;
            found = true;
        }
        i += 1;
    }
    if !found {
        proof {
            assert forall|k: int| !addr_split_at(s@, k) by {
                if addr_split_at(s@, k) {
                    assert(s@[k] != ':');
                }
            }
        }
        return None;
    }
    Some(colon)
}

/// Checks that the characters from `start` to the end form a decimal port
/// between 1 and 65535.
fn check_port(s: &str, start: usize) -> (r: bool)
    requires
        start <= s@.len(),
    ensures
        r == valid_port(s@.subrange(start as int, s@.len() as int)),
{
    let n = s.unicode_len();
    let ghost port: Seq<char> = s@.subrange(start as int, n as int);
    if start == n {
        return false;
    }
    let mut j: usize = start;
    let mut val: u32 = 0;
    while j < n
        invariant
            start <= j <= n,
            n == s@.len(),
            port == s@.subrange(start as int, n as int),
            all_digits(s@.subrange(start as int, j as int)),
            val == digits_val(s@.subrange(start as int, j as int)),
            val <= 65535,
        decreases n - j,
    {
        let c = s.get_char(j);
        let u = c as u32;
        let ghost prefix = s@.subrange(start as int, j as int);
        let ghost longer = s@.subrange(start as int, j + 1int);
        proof {
            assert(longer.drop_last() =~= prefix);
        }
        if u < 48 || u > 57 {
            proof {
                assert(port[j - start] == s@[j as int]);
                assert(!is_digit_char(port[j - start]));
            }
            return false;
        }
        let newval = val * 10 + (u - 48);
        if newval > 65535 {
            proof {
                if valid_port(port) {
                    assert forall|t: int| 0 <= t < longer.len() implies is_digit_char(
                        #[trigger] longer[t],
                    ) by {
                        assert(longer[t] == port[t]);
                    }
                    assert(port.subrange(0, longer.len() as int) =~= longer);
                    lemma_digits_val_prefix_bound(port, longer.len() as int);
                }
            }
            return false;
        }
        val = newval;
        j += 1;
    }
    proof {
        assert(s@.subrange(start as int, j as int) =~= port);
        if val >= 1 {
            assert(valid_port(port));
        }
    }
    val >= 1
}

/// True exactly when the string is a well-formed `host:port` provider
/// address: one colon, a non-empty host, a positive 16-bit port.
pub fn is_valid_provider_address(s: &str) -> (r: bool)
    ensures
        r == valid_provider_addr(s@),
{
    match find_single_colon(s) {
        None => false,
        Some(i) => {
            if i == 0 {
                proof {
                    assert forall|k: int| !addr_split_at(s@, k) by {
                        if addr_split_at(s@, k) && k != 0 {
                            assert(s@[0] != ':');
                        }
                    }
                }
                false
            } else {
                let ok = check_port(s, i + 1);
                proof {
                    if ok {
                        assert(addr_split_at(s@, i as int));
                    } else {
                        assert forall|k: int| !addr_split_at(s@, k) by {
                            if addr_split_at(s@, k) && k != i {
                                assert(s@[i as int] != ':');
                            }
                        }
                    }
                }
                ok
            }
        },
    }
}

/// True exactly when the string is a well-formed provider address whose
/// host ends in ".onion".
pub fn is_valid_onion_address(s: &str) -> (r: bool)
    ensures
        r == valid_onion_addr(s@),
{
    match find_single_colon(s) {
        None => false,
        Some(i) => {
            if i < 6 {
                proof {
                    assert forall|k: int| !(addr_split_at(s@, k) && onion_suffix_at(s@, k)) by {
                        if addr_split_at(s@, k) && k != i {
                            assert(s@[i as int] != ':');
                        }
                    }
                }
                return false;
            }
            let suffix_ok = s.get_char(i - 6) == '.' && s.get_char(i - 5) == 'o' && s.get_char(
                i - 4,
            ) == 'n' && s.get_char(i - 3) == 'i' && s.get_char(i - 2) == 'o' && s.get_char(i - 1)
                == 'n';
            proof {
                reveal_strlit(".onion");
                if suffix_ok {
                    assert(s@.subrange(i - 6, i as int) =~= ".onion"@);
                } else {
                    assert(s@.subrange(i - 6, i as int) != ".onion"@) by {
                        if s@.subrange(i - 6, i as int) == ".onion"@ {
                            assert(s@[i - 6] == ".onion"@[0]);
                            assert(s@[i - 5] == ".onion"@[1]);
                            assert(s@[i - 4] == ".onion"@[2]);
                            assert(s@[i - 3] == ".onion"@[3]);
                            assert(s@[i - 2] == ".onion"@[4]);
                            assert(s@[i - 1] == ".onion"@[5]);
                        }
                    }
                }
            }
            if !suffix_ok {
                proof {
                    assert forall|k: int| !(addr_split_at(s@, k) && onion_suffix_at(s@, k)) by {
                        if addr_split_at(s@, k) {
                            if k != i {
                                assert(s@[i as int] != ':');
                            }
                        }
                    }
                }
                return false;
            }
            let ok = check_port(s, i + 1);
            proof {
                if ok {
                    assert(addr_split_at(s@, i as int));
                    assert(onion_suffix_at(s@, i as int));
                } else {
                    assert forall|k: int| !(addr_split_at(s@, k) && onion_suffix_at(s@, k)) by {
                        if addr_split_at(s@, k) && k != i {
                            assert(s@[i as int] != ':');
                        }
                    }
                }
            }
            ok
        },
    }
}

/// The bytes pushed by the script, when it opens with the data-carrier
/// opcode and the remainder is one of the three push encodings: a direct
/// push (length byte 1-75), a one-byte length push, or a two-byte
/// little-endian length push. Trailing bytes beyond the push are ignored.
pub open spec fn parse_push_data(script: Seq<u8>) -> Option<Seq<u8>> {
    if script.len() < 2 || script[0] != DATA_CARRIER_OPCODE {
        None
    } else {
        let op = script[1];
        if 0x01 <= op && op <= 0x4b {
            let l = op as int;
            if script.len() >= 2 + l {
                Some(script.subrange(2, 2 + l))
            } else {
                None
            }
        } else if op == 0x4c {
            if script.len() < 3 {
                None
            } else {
                let l = script[2] as int;
                if script.len() >= 3 + l {
                    Some(script.subrange(3, 3 + l))
                } else {
                    None
                }
            }
        } else if op == 0x4d {
            if script.len() < 4 {
                None
            } else {
                let l = script[2] + 256 * (script[3] as int);
                if script.len() >= 4 + l {
                    Some(script.subrange(4, 4 + l))
                } else {
                    None
                }
            }
        } else {
            None
        }
    }
}

/// The announcement a script carries: the pushed bytes decoded as UTF-8,
/// when they form a well-formed provider address; nothing otherwise.
pub open spec fn extracted_addr(script: Seq<u8>) -> Option<Seq<char>> {
    match parse_push_data(script) {
        None => None,
        Some(data) => if valid_utf8(data) && valid_provider_addr(decode_utf8(data)) {
            Some(decode_utf8(data))
        } else {
            None
        },
    }
}

/// Relies on core::str::from_utf8: `Ok` exactly when the bytes are valid
/// UTF-8, giving the string those bytes encode.
#[verifier::external_body]
fn bytes_as_utf8<'a>(v: &'a [u8]) -> (r: Option<&'a str>)
    ensures
        r is Some <==> valid_utf8(v@),
        r matches Some(s) ==> s@ == decode_utf8(v@),
{
    core::str::from_utf8(v).ok()
}

/// Extracts the provider address announced by a locking script, if any:
/// the script must open with the data-carrier opcode, push its remainder
/// in one of the three push encodings, and the pushed bytes must read as
/// a well-formed `host:port` address.
pub fn extract_onion_address_from_script(script: &[u8]) -> (r: Option<String>)
    ensures
        r is Some <==> extracted_addr(script@) is Some,
        r matches Some(s) ==> extracted_addr(script@) == Some(s@),
{
    let n = script.len();
    if n < 2 {
        return None;
    }
    if *slice_index_get(script, 0) != DATA_CARRIER_OPCODE {
        return None;
    }
    let op = *slice_index_get(script, 1);
    let data_start: usize;
    let data_len: usize;
    if 0x01 <= op && op <= 0x4b {
        data_start = 2;
        data_len = op as usize;
    } else if op == 0x4c {
        if n < 3 {
            return None;
        }
        data_start = 3;
        data_len = *slice_index_get(script, 2) as usize;
    } else if op == 0x4d {
        if n < 4 {
            return None;
        }
        let lo = *slice_index_get(script, 2) as usize;
        let hi = *slice_index_get(script, 3) as usize;
        data_start = 4;
        data_len = lo + hi * 256;
    } else {
        return None;
    }
    if n < data_start + data_len {
        return None;
    }
    let data = slice_subrange(script, data_start, data_start + data_len);
    match bytes_as_utf8(data) {
        None => None,
        Some(s) => {
            if is_valid_provider_address(s) {
                Some(s.to_owned())
            } else {
                None
            }
        },
    }
}

/// Encodes pushed data in the direct form: the length byte itself is the
/// push opcode.
pub fn encode_push_direct(data: &Vec<u8>) -> (r: Vec<u8>)
    requires
        1 <= data@.len() <= 75,
    ensures
        r@ == seq![DATA_CARRIER_OPCODE, data@.len() as u8] + data@,
        parse_push_data(r@) == Some(data@),
{
    let mut out: Vec<u8> = Vec::new();
    out.push(DATA_CARRIER_OPCODE);
    out.push(data.len() as u8);
    append_bytes(&mut out, data);
    proof {
        assert(out@ =~= seq![DATA_CARRIER_OPCODE, data@.len() as u8] + data@);
        assert(out@.subrange(2, 2 + data@.len() as int) =~= data@);
    }
    out
}

/// Encodes pushed data in the one-byte length form.
pub fn encode_push_one_byte(data: &Vec<u8>) -> (r: Vec<u8>)
    requires
        data@.len() <= 255,
    ensures
        r@ == seq![DATA_CARRIER_OPCODE, 0x4cu8, data@.len() as u8] + data@,
        parse_push_data(r@) == Some(data@),
{
    let mut out: Vec<u8> = Vec::new();
    out.push(DATA_CARRIER_OPCODE);
    out.push(0x4c);
    out.push(data.len() as u8);
    append_bytes(&mut out, data);
    proof {
        assert(out@ =~= seq![DATA_CARRIER_OPCODE, 0x4cu8, data@.len() as u8] + data@);
        assert(out@.subrange(3, 3 + data@.len() as int) =~= data@);
    }
    out
}

/// Encodes pushed data in the two-byte little-endian length form.
pub fn encode_push_two_byte(data: &Vec<u8>) -> (r: Vec<u8>)
    requires
        data@.len() <= 65535,
    ensures
        r@ == seq![
            DATA_CARRIER_OPCODE,
            0x4du8,
            (data@.len() % 256) as u8,
            (data@.len() / 256) as u8,
        ] + data@,
        parse_push_data(r@) == Some(data@),
{
    let mut out: Vec<u8> = Vec::new();
    out.push(DATA_CARRIER_OPCODE);
    out.push(0x4d);
    let len = data.len();
    out.push((len % 256) as u8);
    out.push((len / 256) as u8);
    append_bytes(&mut out, data);
    proof {
        assert(out@ =~= seq![
            DATA_CARRIER_OPCODE,
            0x4du8,
            (data@.len() % 256) as u8,
            (data@.len() / 256) as u8,
        ] + data@);
        assert((out@[2] as int) + 256 * (out@[3] as int) == data@.len());
        assert(out@.subrange(4, 4 + data@.len() as int) =~= data@);
    }
    out
}

/// Appends every byte of `data` to `out`.
fn append_bytes(out: &mut Vec<u8>, data: &Vec<u8>)
    ensures
        final(out)@ == old(out)@ + data@,
{
    let mut k: usize = 0;
    while k < data.len()
        invariant
            k <= data@.len(),
            out@ == old(out)@ + data@.take(k as int),
        decreases data@.len() - k,
    {
        out.push(data[k]);
        proof {
            assert(old(out)@ + data@.take(k + 1int) =~= (old(out)@ + data@.take(k as int)).push(
                data@[k as int],
            ));
        }
        k += 1;
    }
    proof {
        assert(data@.take(data@.len() as int) =~= data@);
    }
}

/// Announcement round trip: a script that pushes the UTF-8 encoding of a
/// well-formed provider address, in any of the three push forms, extracts
/// back to exactly that address.
pub proof fn lemma_extract_round_trip(s: Seq<char>, script: Seq<u8>)
    requires
        valid_provider_addr(s),
        parse_push_data(script) == Some(encode_utf8(s)),
    ensures
        extracted_addr(script) == Some(s),
{
    encode_utf8_valid_utf8(s);
    encode_utf8_decode_utf8(s);
}

/// Whatever a script extracts to is a well-formed provider address.
pub proof fn lemma_extracted_well_formed(script: Seq<u8>)
    ensures
        extracted_addr(script) matches Some(a) ==> valid_provider_addr(a),
{
}

/// Round trip through the direct push form: a script pushing the UTF-8
/// encoding of a well-formed address with a single length byte extracts
/// back to that address.
pub proof fn lemma_round_trip_direct_push(s: Seq<char>)
    requires
        valid_provider_addr(s),
        1 <= encode_utf8(s).len() <= 75,
    ensures
        extracted_addr(
            seq![DATA_CARRIER_OPCODE, encode_utf8(s).len() as u8] + encode_utf8(s),
        ) == Some(s),
{
    let data = encode_utf8(s);
    let script = seq![DATA_CARRIER_OPCODE, data.len() as u8] + data;
    assert(script.subrange(2, 2 + data.len() as int) =~= data);
    lemma_extract_round_trip(s, script);
}

/// Round trip through the one-byte length push form.
pub proof fn lemma_round_trip_one_byte_push(s: Seq<char>)
    requires
        valid_provider_addr(s),
        encode_utf8(s).len() <= 255,
    ensures
        extracted_addr(
            seq![DATA_CARRIER_OPCODE, 0x4cu8, encode_utf8(s).len() as u8] + encode_utf8(s),
        ) == Some(s),
{
    let data = encode_utf8(s);
    let script = seq![DATA_CARRIER_OPCODE, 0x4cu8, data.len() as u8] + data;
    assert(script.subrange(3, 3 + data.len() as int) =~= data);
    lemma_extract_round_trip(s, script);
}

/// Round trip through the two-byte little-endian length push form.
pub proof fn lemma_round_trip_two_byte_push(s: Seq<char>)
    requires
        valid_provider_addr(s),
        encode_utf8(s).len() <= 65535,
    ensures
        extracted_addr(
            seq![
                DATA_CARRIER_OPCODE,
                0x4du8,
                (encode_utf8(s).len() % 256) as u8,
                (encode_utf8(s).len() / 256) as u8,
            ] + encode_utf8(s),
        ) == Some(s),
{
    let data = encode_utf8(s);
    let len = data.len() as int;
    let script = seq![
        DATA_CARRIER_OPCODE,
        0x4du8,
        (len % 256) as u8,
        (len / 256) as u8,
    ] + data;
    assert((script[2] as int) + 256 * (script[3] as int) == len);
    assert(script.subrange(4, 4 + len) =~= data);
    lemma_extract_round_trip(s, script);
}

} // verus!
